//! The caller's request parameters and the title's line preparation.

use vstd::prelude::*;

use crate::overlay::image::{BlendMode, PositionType};

verus! {

/// The lines that the text wrapper produces for `text` at `width`
/// user-perceived columns.
pub uninterp spec fn wrap_of(text: Seq<char>, width: int) -> Seq<Seq<char>>;

/// Relies on `textwrap::wrap` with a plain width: the wrapped lines depend
/// on the text and the width alone.
#[verifier::external_body]
fn wrap_text(text: &str, width: usize) -> (r: Vec<String>)
    ensures
        r@.map_values(|s: String| s@) == wrap_of(text@, width as int),
{
    textwrap::wrap(text, width).into_iter().map(|c| c.to_string()).collect()
}

/// A cover request: the two texts with their placement strategies, the
/// blend mode, and the alpha and wrap width still in their textual form.
pub struct BookCoverParams {
    /// The author text, drawn first.
    pub author: String,
    /// Where the author text is anchored.
    pub author_position: PositionType,
    /// The title text, wrapped and drawn second.
    pub title: String,
    /// Where the title text is anchored.
    pub title_position: PositionType,
    /// How both texts blend into the image.
    pub blend_mode: BlendMode,
    /// The alpha of both texts, as written by the caller.
    pub alfa: String,
    /// The wrap width of the title in user-perceived columns, as written.
    pub line_length: String,
}

/// Wraps the title to `line_length` columns and reverses the wrapped lines,
/// last line first, as bottom-anchored stacking expects.
pub fn title_lines(title: &str, line_length: usize) -> (r: Vec<String>)
    ensures
        r@.map_values(|s: String| s@) == wrap_of(title@, line_length as int).reverse(),
{
    let wrapped = wrap_text(title, line_length);
    let mut out: Vec<String> = Vec::new();
    let mut i: usize = wrapped.len();
    while i > 0
        invariant
            i <= wrapped@.len(),
            wrapped@.map_values(|s: String| s@) == wrap_of(title@, line_length as int),
            out@.len() == wrapped@.len() - i,
            forall|j: int|
                0 <= j < out@.len() ==> (#[trigger] out@[j])@ == wrapped@[wrapped@.len() - 1 - j]@,
        decreases i,
    {
        i = i - 1;
        out.push(wrapped[i].clone());
    }
    proof {
        assert(out@.map_values(|s: String| s@) =~= wrap_of(title@, line_length as int).reverse());
    }
    out
}

} // verus!
