//! The text metrics provider: the one capability the engine needs from the
//! rendering backend while it lays out text.
//!
//! A provider is any function from a string and a font size to the pixel
//! width of the string drawn at that size.  It has to accept every input and
//! to give one answer per input.

use vstd::prelude::*;

verus! {

/// A provider can be asked about every string and font size.
pub open spec fn measures_everything<F: Fn(&str, i32) -> i32>(measure: F) -> bool {
    forall|text: &str, font_size: i32| #[trigger] measure.requires((text, font_size))
}

/// A provider answers the same for the same characters and font size.
pub open spec fn measures_consistently<F: Fn(&str, i32) -> i32>(measure: F) -> bool {
    forall|a: &str, b: &str, font_size: i32, wa: i32, wb: i32|
        a@ == b@ && #[trigger] measure.ensures((a, font_size), wa) && #[trigger] measure.ensures(
            (b, font_size),
            wb,
        ) ==> wa == wb
}

/// What a provider must be for the engine to use it.
pub open spec fn is_text_metrics<F: Fn(&str, i32) -> i32>(measure: F) -> bool {
    measures_everything(measure) && measures_consistently(measure)
}

/// `width` is a possible answer of the provider for `text`.
pub open spec fn may_measure<F: Fn(&str, i32) -> i32>(
    measure: F,
    text: Seq<char>,
    font_size: i32,
    width: i32,
) -> bool {
    exists|t: &str| t@ == text && #[trigger] measure.ensures((t, font_size), width)
}

/// The width the provider gives for `text` at `font_size`.
pub open spec fn text_width<F: Fn(&str, i32) -> i32>(measure: F, text: Seq<char>, font_size: i32) -> i32 {
    choose|width: i32| may_measure(measure, text, font_size, width)
}

/// The provider as a function on character sequences.
pub open spec fn width_fn<F: Fn(&str, i32) -> i32>(measure: F) -> spec_fn(Seq<char>, i32) -> i32 {
    |text: Seq<char>, font_size: i32| text_width(measure, text, font_size)
}

/// An answer of a consistent provider is the width of the text.
pub proof fn lemma_answer_is_width<F: Fn(&str, i32) -> i32>(
    measure: F,
    text: &str,
    font_size: i32,
    width: i32,
)
    requires
        measures_consistently(measure),
        measure.ensures((text, font_size), width),
    ensures
        text_width(measure, text@, font_size) == width,
        width_fn(measure)(text@, font_size) == width,
{
    assert(may_measure(measure, text@, font_size, width));
    let other = text_width(measure, text@, font_size);
    assert(may_measure(measure, text@, font_size, other));
    let t = choose|t: &str| t@ == text@ && #[trigger] measure.ensures((t, font_size), other);
    assert(measure.ensures((t, font_size), other));
}

/// Asks the provider for the width of a string.
pub fn measure_text<F: Fn(&str, i32) -> i32>(measure: &F, text: &str, font_size: i32) -> (width: i32)
    requires
        is_text_metrics(*measure),
    ensures
        width == width_fn(*measure)(text@, font_size),
{
    let width = measure(text, font_size);
    proof {
        lemma_answer_is_width(*measure, text, font_size, width);
    }
    width
}

} // verus!
