//! The list of the best circles that a search has come across.

use vstd::prelude::*;

use crate::score::Circle;

verus! {

/// How many of the estimated circles are counted exactly.
pub const TOP: usize = 16;

/// The scores of the circles, in their order.
pub open spec fn scores(circles: Seq<Circle>) -> Seq<i64> {
    circles.map_values(|circle: Circle| circle.score)
}

/// No circle is followed by one with a lower score.
pub open spec fn ranked(circles: Seq<Circle>) -> bool {
    forall|i: int, j: int|
        0 <= i <= j < circles.len() ==> #[trigger] circles[i].score <= #[trigger] circles[j].score
}

/// Where the standard library's binary search finds a score among ranked scores, or would
/// insert it.
pub uninterp spec fn search_result(scores: Seq<i64>, score: i64) -> Result<usize, usize>;

/// Calls `binary_search_by_key` of the standard library's slices, with the score as the
/// key. Of a slice that is ranked by that key it is documented to return a place that
/// holds the key where there is one, and the place that keeps the ranking where there is
/// none, and to choose among several matches deterministically. Which match it chooses is
/// not documented, so the result also has a name of its own.
#[verifier::external_body]
fn search_scores(circles: &Vec<Circle>, score: i64) -> (found: Result<usize, usize>)
    requires
        ranked(circles@),
    ensures
        found == search_result(scores(circles@), score),
        found matches Ok(at) ==> at < circles@.len() && circles@[at as int].score == score,
        found matches Err(at) ==> at <= circles@.len(),
        found matches Err(at) ==> forall|i: int|
            0 <= i < at ==> #[trigger] circles@[i].score < score,
        found matches Err(at) ==> forall|i: int|
            at <= i < circles@.len() ==> score < #[trigger] circles@[i].score,
{
    circles.binary_search_by_key(&score, |circle| circle.score)
}

/// The place that a search came to, whether or not it found its key there.
pub open spec fn place(found: Result<usize, usize>) -> int {
    match found {
        Ok(at) => at as int,
        Err(at) => at as int,
    }
}

/// A circle with that score can stand at that place without breaking the ranking.
pub open spec fn keeps_ranking(top: Seq<Circle>, score: i64, at: int) -> bool {
    &&& 0 <= at <= top.len()
    &&& forall|i: int| 0 <= i < at ==> #[trigger] top[i].score <= score
    &&& forall|i: int| at <= i < top.len() ==> score <= #[trigger] top[i].score
}

/// The circles with one more at that place, cut down to the best.
pub open spec fn top_with(top: Seq<Circle>, circle: Circle, at: int) -> Seq<Circle> {
    let longer = top.insert(at, circle);
    if longer.len() <= TOP {
        longer
    } else {
        longer.take(TOP as int)
    }
}

/// The circle earns a place among the best.
pub open spec fn earns_place(top: Seq<Circle>, circle: Circle) -> bool {
    top.len() < TOP || circle.score < top.last().score
}

/// The best circles once `circle` has been considered.
pub open spec fn top_after(top: Seq<Circle>, circle: Circle) -> Seq<Circle> {
    if earns_place(top, circle) {
        top_with(top, circle, place(search_result(scores(top), circle.score)))
    } else {
        top
    }
}

/// `after` holds circles out of `before` and `circle` only, and what was left out scores
/// no lower than anything that was kept.
pub open spec fn best_kept(before: Seq<Circle>, circle: Circle, after: Seq<Circle>) -> bool {
    &&& forall|k: int|
        0 <= k < after.len() ==> #[trigger] after[k] == circle || before.contains(after[k])
    &&& after.contains(circle) || forall|k: int|
        0 <= k < after.len() ==> #[trigger] after[k].score <= circle.score
    &&& forall|i: int|
        0 <= i < before.len() ==> after.contains(#[trigger] before[i]) || forall|k: int|
            0 <= k < after.len() ==> #[trigger] after[k].score <= before[i].score
}

/// Inserting at a place that keeps the ranking keeps the best circles, ranked.
pub proof fn top_with_ranked(top: Seq<Circle>, circle: Circle, at: int)
    requires
        ranked(top),
        keeps_ranking(top, circle.score, at),
    ensures
        ranked(top_with(top, circle, at)),
        best_kept(top, circle, top_with(top, circle, at)),
{
    let longer = top.insert(at, circle);
    let after = top_with(top, circle, at);
    assert forall|i: int, j: int| 0 <= i <= j < longer.len() implies #[trigger] longer[i].score
        <= #[trigger] longer[j].score by {
    }
    assert forall|k: int| 0 <= k < after.len() implies #[trigger] after[k] == circle
        || top.contains(after[k]) by {
        if k < at {
            assert(after[k] == top[k]);
        } else if k > at {
            assert(after[k] == top[k - 1]);
        }
    }
    if at < after.len() {
        assert(after[at] == circle);
    } else {
        assert(forall|k: int| 0 <= k < after.len() ==> #[trigger] after[k] == top[k]);
    }
    assert forall|i: int| 0 <= i < top.len() implies after.contains(#[trigger] top[i]) || forall|
        k: int,
    |
        0 <= k < after.len() ==> #[trigger] after[k].score <= top[i].score by {
        let j = if i < at {
            i
        } else {
            i + 1
        };
        assert(longer[j] == top[i]);
        if j < after.len() {
            assert(after[j] == top[i]);
        } else {
            assert forall|k: int| 0 <= k < after.len() implies #[trigger] after[k].score
                <= top[i].score by {
                assert(after[k] == longer[k]);
                assert(longer[k].score <= longer[j].score);
            }
        }
    }
}

/// Inserting puts the circle at its place, leaves the others in their order and cuts the
/// list off after 16.
pub proof fn top_with_cut(top: Seq<Circle>, circle: Circle, at: int)
    requires
        0 <= at <= top.len(),
    ensures
        top.len() < 16 ==> top_with(top, circle, at).len() == top.len() + 1,
        top.len() >= 16 ==> top_with(top, circle, at).len() == 16,
        forall|k: int|
            0 <= k < top_with(top, circle, at).len() ==> #[trigger] top_with(top, circle, at)[k]
                == if k < at {
                top[k]
            } else if k == at {
                circle
            } else {
                top[k - 1]
            },
{
}

/// The circles kept are the best 16 out of all that were considered, or all of them where
/// there are no more. None is kept more often than it was considered, and what was left
/// out scores no lower than anything kept.
pub open spec fn kept_best(all: Seq<Circle>, kept: Seq<Circle>) -> bool {
    &&& ranked(kept)
    &&& kept.len() == if all.len() < 16 {
        all.len()
    } else {
        16
    }
    &&& all.len() <= 16 ==> kept.to_multiset() == all.to_multiset()
    &&& forall|c: Circle| #[trigger]
        kept.to_multiset().count(c) <= all.to_multiset().count(c)
    &&& forall|c: Circle, k: int|
        kept.to_multiset().count(c) < #[trigger] all.to_multiset().count(c) && 0 <= k < kept.len()
            ==> (#[trigger] kept[k]).score <= c.score
}

/// The list before and after a circle was considered: it goes in where it keeps the
/// ranking if there is room or it scores lower than the last, and the list is cut off
/// after 16.
pub open spec fn considered(before: Seq<Circle>, circle: Circle, after: Seq<Circle>) -> bool {
    if before.len() < 16 || circle.score < before.last().score {
        exists|at: int|
            0 <= at <= before.len() && (forall|i: int|
                0 <= i < at ==> (#[trigger] before[i]).score <= circle.score) && (forall|i: int|
                at <= i < before.len() ==> circle.score <= (#[trigger] before[i]).score) && after
                == if before.len() < 16 {
                #[trigger] before.insert(at, circle)
            } else {
                before.insert(at, circle).take(16)
            }
    } else {
        after == before
    }
}

/// Considering one circle after the other keeps the best of all of them.
pub proof fn kept_best_grows(
    all: Seq<Circle>,
    kept: Seq<Circle>,
    circle: Circle,
    after: Seq<Circle>,
)
    requires
        kept_best(all, kept),
        considered(kept, circle, after),
        ranked(after),
    ensures
        kept_best(all.push(circle), after),
{
    broadcast use vstd::seq_lib::group_to_multiset_ensures;
    broadcast use vstd::multiset::group_multiset_axioms;

    let more = all.push(circle);
    assert(more.to_multiset() =~= all.to_multiset().insert(circle));
    if kept.len() < 16 || circle.score < kept.last().score {
        let at = choose|at: int|
            0 <= at <= kept.len() && (forall|i: int|
                0 <= i < at ==> (#[trigger] kept[i]).score <= circle.score) && (forall|i: int|
                at <= i < kept.len() ==> circle.score <= (#[trigger] kept[i]).score) && after
                == if kept.len() < 16 {
                #[trigger] kept.insert(at, circle)
            } else {
                kept.insert(at, circle).take(16)
            };
        let longer = kept.insert(at, circle);
        vstd::seq_lib::to_multiset_insert(kept, at, circle);
        assert(longer.to_multiset() == kept.to_multiset().insert(circle));
        if kept.len() < 16 {
            assert(after == longer);
            assert(after.to_multiset() == more.to_multiset());
        } else {
            assert(after =~= longer.remove(16));
            assert(after.to_multiset() == longer.to_multiset().remove(longer[16]));
            assert forall|c: Circle, k: int|
                after.to_multiset().count(c) < #[trigger] more.to_multiset().count(c) && 0 <= k
                    < after.len() implies (#[trigger] after[k]).score <= c.score by {
                assert(after[k] == longer[k]);
                if c == longer[16] {
                    if at == 16 {
                        assert(longer[16] == circle);
                    } else {
                        assert(longer[16] == kept[15]);
                    }
                    if k == at {
                        assert(kept[15].score <= kept[15].score);
                    } else if k < at {
                        assert(longer[k] == kept[k]);
                    } else {
                        assert(longer[k] == kept[k - 1]);
                    }
                } else {
                    assert(kept.to_multiset().count(c) < all.to_multiset().count(c));
                    if k == at {
                        assert(kept[15].score <= c.score);
                    } else if k < at {
                        assert(longer[k] == kept[k]);
                    } else {
                        assert(longer[k] == kept[k - 1]);
                    }
                }
            }
            assert forall|c: Circle| #[trigger]
                after.to_multiset().count(c) <= more.to_multiset().count(c) by {
                assert(kept.to_multiset().count(c) <= all.to_multiset().count(c));
            }
        }
    } else {
        assert forall|c: Circle, k: int|
            after.to_multiset().count(c) < #[trigger] more.to_multiset().count(c) && 0 <= k
                < after.len() implies (#[trigger] after[k]).score <= c.score by {
            if c == circle {
                assert(kept[k].score <= kept[15].score);
            } else {
                assert(kept.to_multiset().count(c) < all.to_multiset().count(c));
            }
        }
        assert forall|c: Circle| #[trigger]
            after.to_multiset().count(c) <= more.to_multiset().count(c) by {
            assert(kept.to_multiset().count(c) <= all.to_multiset().count(c));
        }
    }
}

/// Inserts the circle at the place given and cuts the list down to the best.
pub fn insert_top(top: &mut Vec<Circle>, circle: Circle, at: usize)
    requires
        at <= old(top).len(),
    ensures
        final(top)@ == top_with(old(top)@, circle, at as int),
{
    top.insert(at, circle);
    top.truncate(TOP);
}

/// Considers the circle for the list of the best, which is kept ranked.
pub fn add_top(top: &mut Vec<Circle>, circle: Circle)
    requires
        ranked(old(top)@),
    ensures
        final(top)@ == top_after(old(top)@, circle),
        earns_place(old(top)@, circle) ==> keeps_ranking(
            old(top)@,
            circle.score,
            place(search_result(scores(old(top)@), circle.score)),
        ),
        ranked(final(top)@),
        best_kept(old(top)@, circle, final(top)@),
        considered(old(top)@, circle, final(top)@),
{
    if top.len() < TOP || circle.score < top[top.len() - 1].score {
        let found: Result<usize, usize> = search_scores(top, circle.score);
        let at: usize = match found {
            Ok(at) => at,
            Err(at) => at,
        };
        proof {
            top_with_ranked(top@, circle, at as int);
            if top@.len() < 16 {
                assert(top_with(top@, circle, at as int) == top@.insert(at as int, circle));
            } else {
                assert(top_with(top@, circle, at as int) == top@.insert(at as int, circle).take(
                    16,
                ));
            }
        }
        insert_top(top, circle, at);
    } else {
        proof {
            let last = top@.len() - 1;
            assert forall|k: int| 0 <= k < top@.len() implies #[trigger] top@[k].score
                <= circle.score by {
                assert(top@[k].score <= top@[last].score);
            }
        }
    }
}

/// In a ranked list no circle scores higher than one that follows it.
pub proof fn ranked_in_order(circles: Seq<Circle>, i: int, j: int)
    requires
        ranked(circles),
        0 <= i <= j < circles.len(),
    ensures
        circles[i].score <= circles[j].score,
{
}

/// Of the circles considered up to 16 are kept. All of them were considered, and one that
/// was left out scores no lower than any of the 16 kept.
pub proof fn kept_or_no_better(all: Seq<Circle>, kept: Seq<Circle>, i: int, k: int)
    requires
        kept_best(all, kept),
        0 <= i < all.len(),
        0 <= k < kept.len(),
    ensures
        all.len() <= 16 ==> kept.len() == all.len(),
        all.len() > 16 ==> kept.len() == 16,
        all.contains(kept[k]),
        kept.contains(all[i]) || (all.len() > 16 && kept[k].score <= all[i].score),
        kept[0].score <= all[i].score,
{
    broadcast use vstd::seq_lib::group_to_multiset_ensures;

    assert(kept.contains(kept[k]));
    assert(kept.to_multiset().count(kept[k]) > 0);
    assert(all.to_multiset().count(kept[k]) > 0);
    assert(all.contains(all[i]));
    assert(all.to_multiset().count(all[i]) > 0);
    if kept.contains(all[i]) {
        let j = choose|j: int| 0 <= j < kept.len() && kept[j] == all[i];
        ranked_in_order(kept, 0, j);
    } else {
        assert(kept.to_multiset().count(all[i]) == 0);
        assert(kept[0].score <= all[i].score);
    }
}

} // verus!
