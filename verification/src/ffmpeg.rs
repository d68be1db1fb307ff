//! The command lines of the programs that decode and encode the video.

use vstd::prelude::*;

use crate::text::{append_number, decimal};

verus! {

/// An argument of a program: a text, or the path of the input or the output.
#[derive(Debug)]
pub enum Argument {
    Text(String),
    Input,
    Output,
}

/// What an argument holds.
pub enum ArgumentView {
    Text(Seq<char>),
    Input,
    Output,
}

impl View for Argument {
    type V = ArgumentView;

    open spec fn view(&self) -> ArgumentView {
        match self {
            Argument::Text(text) => ArgumentView::Text(text@),
            Argument::Input => ArgumentView::Input,
            Argument::Output => ArgumentView::Output,
        }
    }
}

/// What the arguments hold, in their order.
pub open spec fn arguments_view(list: Seq<Argument>) -> Seq<ArgumentView> {
    list.map_values(|argument: Argument| argument@)
}

/// The filter that brings every frame to the picture's size, in shades of gray.
pub open spec fn filter(fps: usize) -> Seq<char> {
    "fps="@ + decimal(fps as int)
        + ",scale=1280:720:force_original_aspect_ratio=decrease,pad=1280:720:(ow-iw)/2:(oh-ih)/2,format=gray"@
}

/// The command line that decodes the input into raw frames on standard output.
pub open spec fn decoder_line(fps: usize) -> Seq<ArgumentView> {
    seq![
        ArgumentView::Text("-v"@),
        ArgumentView::Text("error"@),
        ArgumentView::Text("-i"@),
        ArgumentView::Input,
        ArgumentView::Text("-vf"@),
        ArgumentView::Text(filter(fps)),
        ArgumentView::Text("-f"@),
        ArgumentView::Text("rawvideo"@),
        ArgumentView::Text("-pix_fmt"@),
        ArgumentView::Text("gray"@),
        ArgumentView::Text("-"@),
    ]
}

/// The command line that encodes raw frames from standard input, with the sound of the
/// input, into the output.
pub open spec fn encoder_line(fps: usize) -> Seq<ArgumentView> {
    seq![
        ArgumentView::Text("-v"@),
        ArgumentView::Text("error"@),
        ArgumentView::Text("-f"@),
        ArgumentView::Text("rawvideo"@),
        ArgumentView::Text("-pix_fmt"@),
        ArgumentView::Text("gray"@),
        ArgumentView::Text("-s:v"@),
        ArgumentView::Text("1280x720"@),
        ArgumentView::Text("-r"@),
        ArgumentView::Text(decimal(fps as int)),
        ArgumentView::Text("-i"@),
        ArgumentView::Text("-"@),
        ArgumentView::Text("-i"@),
        ArgumentView::Input,
        ArgumentView::Text("-map"@),
        ArgumentView::Text("0:v:0"@),
        ArgumentView::Text("-map"@),
        ArgumentView::Text("1:a?"@),
        ArgumentView::Text("-c:v"@),
        ArgumentView::Text("h264_nvenc"@),
        ArgumentView::Text("-preset"@),
        ArgumentView::Text("p5"@),
        ArgumentView::Text("-cq"@),
        ArgumentView::Text("20"@),
        ArgumentView::Text("-pix_fmt"@),
        ArgumentView::Text("yuv420p"@),
        ArgumentView::Text("-r"@),
        ArgumentView::Text(decimal(fps as int)),
        ArgumentView::Text("-c:a"@),
        ArgumentView::Text("copy"@),
        ArgumentView::Text("-shortest"@),
        ArgumentView::Text("-y"@),
        ArgumentView::Output,
    ]
}

fn push_text(list: &mut Vec<Argument>, text: &str)
    ensures
        arguments_view(final(list)@) == arguments_view(old(list)@).push(
            ArgumentView::Text(text@),
        ),
        final(list)@.len() == old(list)@.len() + 1,
{
    list.push(Argument::Text(text.to_string()));
    assert(arguments_view(list@) =~= arguments_view(old(list)@).push(ArgumentView::Text(text@)));
}

fn push_number(list: &mut Vec<Argument>, n: usize)
    ensures
        arguments_view(final(list)@) == arguments_view(old(list)@).push(
            ArgumentView::Text(decimal(n as int)),
        ),
        final(list)@.len() == old(list)@.len() + 1,
{
    let mut text: String = String::new();
    append_number(&mut text, n);
    assert(text@ =~= decimal(n as int));
    list.push(Argument::Text(text));
    assert(arguments_view(list@) =~= arguments_view(old(list)@).push(
        ArgumentView::Text(decimal(n as int)),
    ));
}

fn push_argument(list: &mut Vec<Argument>, argument: Argument)
    ensures
        arguments_view(final(list)@) == arguments_view(old(list)@).push(argument@),
        final(list)@.len() == old(list)@.len() + 1,
{
    list.push(argument);
    assert(arguments_view(list@) =~= arguments_view(old(list)@).push(argument@));
}

/// The command line of the decoder.
pub fn decoder_arguments(fps: usize) -> (list: Vec<Argument>)
    ensures
        arguments_view(list@) == decoder_line(fps),
{
    let mut filter: String = "fps=".to_string();
    append_number(&mut filter, fps);
    filter.append(
        ",scale=1280:720:force_original_aspect_ratio=decrease,pad=1280:720:(ow-iw)/2:(oh-ih)/2,format=gray",
    );
    let mut list: Vec<Argument> = Vec::new();
    push_text(&mut list, "-v");
    push_text(&mut list, "error");
    push_text(&mut list, "-i");
    push_argument(&mut list, Argument::Input);
    push_text(&mut list, "-vf");
    push_argument(&mut list, Argument::Text(filter));
    push_text(&mut list, "-f");
    push_text(&mut list, "rawvideo");
    push_text(&mut list, "-pix_fmt");
    push_text(&mut list, "gray");
    push_text(&mut list, "-");
    assert(arguments_view(list@) =~= decoder_line(fps));
    list
}

/// The command line of the encoder.
pub fn encoder_arguments(fps: usize) -> (list: Vec<Argument>)
    ensures
        arguments_view(list@) == encoder_line(fps),
{
    let mut list: Vec<Argument> = Vec::new();
    push_text(&mut list, "-v");
    push_text(&mut list, "error");
    push_text(&mut list, "-f");
    push_text(&mut list, "rawvideo");
    push_text(&mut list, "-pix_fmt");
    push_text(&mut list, "gray");
    push_text(&mut list, "-s:v");
    push_text(&mut list, "1280x720");
    push_text(&mut list, "-r");
    push_number(&mut list, fps);
    push_text(&mut list, "-i");
    push_text(&mut list, "-");
    push_text(&mut list, "-i");
    push_argument(&mut list, Argument::Input);
    push_text(&mut list, "-map");
    push_text(&mut list, "0:v:0");
    push_text(&mut list, "-map");
    push_text(&mut list, "1:a?");
    push_text(&mut list, "-c:v");
    push_text(&mut list, "h264_nvenc");
    push_text(&mut list, "-preset");
    push_text(&mut list, "p5");
    push_text(&mut list, "-cq");
    push_text(&mut list, "20");
    push_text(&mut list, "-pix_fmt");
    push_text(&mut list, "yuv420p");
    push_text(&mut list, "-r");
    push_number(&mut list, fps);
    push_text(&mut list, "-c:a");
    push_text(&mut list, "copy");
    push_text(&mut list, "-shortest");
    push_text(&mut list, "-y");
    push_argument(&mut list, Argument::Output);
    assert(arguments_view(list@) =~= encoder_line(fps));
    list
}

/// The decoder's command line depends on the frame rate in its filter alone, where it is
/// told in decimal, and the encoder's in the two places that follow `-r`.
pub proof fn lines_tell_rate(fps: usize, other: usize, k: int)
    ensures
        decoder_line(fps).len() == 11,
        decoder_line(fps)[5] == ArgumentView::Text(
            "fps="@ + decimal(fps as int)
                + ",scale=1280:720:force_original_aspect_ratio=decrease,pad=1280:720:(ow-iw)/2:(oh-ih)/2,format=gray"@,
        ),
        0 <= k < 11 && k != 5 ==> decoder_line(fps)[k] == decoder_line(other)[k],
        encoder_line(fps).len() == 33,
        encoder_line(fps)[8] == ArgumentView::Text("-r"@),
        encoder_line(fps)[9] == ArgumentView::Text(decimal(fps as int)),
        encoder_line(fps)[26] == ArgumentView::Text("-r"@),
        encoder_line(fps)[27] == ArgumentView::Text(decimal(fps as int)),
        0 <= k < 33 && k != 9 && k != 27 ==> encoder_line(fps)[k] == encoder_line(other)[k],
{
}

/// The decoder reads the input and writes to its standard output. The encoder reads its
/// standard input, takes the sound of the input, and writes the output.
pub proof fn lines_name_files(fps: usize)
    ensures
        decoder_line(fps)[2] == ArgumentView::Text("-i"@),
        decoder_line(fps)[3] == ArgumentView::Input,
        decoder_line(fps)[10] == ArgumentView::Text("-"@),
        encoder_line(fps)[10] == ArgumentView::Text("-i"@),
        encoder_line(fps)[11] == ArgumentView::Text("-"@),
        encoder_line(fps)[12] == ArgumentView::Text("-i"@),
        encoder_line(fps)[13] == ArgumentView::Input,
        encoder_line(fps)[32] == ArgumentView::Output,
{
}

/// Arguments are seen as they are, in their order.
pub proof fn arguments_as_held(list: Seq<Argument>, k: int)
    requires
        0 <= k < list.len(),
    ensures
        arguments_view(list).len() == list.len(),
        list[k] matches Argument::Text(text) ==> arguments_view(list)[k] == ArgumentView::Text(
            text@,
        ),
        list[k] is Input ==> arguments_view(list)[k] is Input,
        list[k] is Output ==> arguments_view(list)[k] is Output,
{
}

} // verus!
