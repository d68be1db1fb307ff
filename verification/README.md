# Bad Apple converter

Redraws a black and white video with filled circles. For every frame the program searches
for the circles that bring the picture closest to the frame, or to the frame and the ones
that follow it, and draws them over the previous picture.

- `src/` is the library: the circle search, the running sums over the window of frames, the
  drawing, the layout of several pictures in a grid, the options and the order of work. All
  of it is verified with Verus.
- `app/` is the program around it: it runs `ffmpeg`, moves frames through pipes and shows
  windows.
- `tests/` runs the library on examples.

The score of a circle is the change that painting it makes to the weighted error of the
picture (`paint::found_score_is_error_change`). Two things are taken on trust, both from the
standard library: `binary_search_by_key` in `top.rs` and `String::from_utf8` in
`dialog.rs`.
