//! Glyph metrics in fixed point, autosizing, and grapheme-based helpers.
//!
//! A font is modelled by [`FontMetrics`]: per-character horizontal advances
//! and the ascent, both in thousandths of a pixel at unit scale (advances and
//! ascent grow linearly with scale, so unit-scale values determine every
//! scale).  A scale factor is a count of millionths: `1_000_000` is unit
//! scale.

use vstd::arithmetic::div_mod::{
    lemma_div_is_ordered, lemma_div_multiples_vanish, lemma_div_pos_is_pos,
    lemma_fundamental_div_mod, lemma_mod_division_less_than_divisor,
};
use vstd::prelude::*;
use unicode_segmentation::UnicodeSegmentation;

use crate::overlay::CoverError;

verus! {

/// Number of user-perceived characters (extended grapheme clusters) of a string.
pub uninterp spec fn grapheme_count_of(s: Seq<char>) -> nat;

/// The uppercase form of a string, character by character.
pub uninterp spec fn upper_of(s: Seq<char>) -> Seq<char>;

/// Largest scale factor autosizing will report, in millionths: a
/// thousand-million-fold magnification.  The cap is a machine limit, not a
/// layout rule: it keeps one line's scaled ascent, and with it the layout
/// engine's stacking cursor, within `i128` for any number of lines.  It is
/// reachable only when the target width exceeds a thousand million times
/// the line's unit-scale width.
pub const SCALE_MAX_MICRO: u64 = 1_000_000_000_000_000;

/// Relies on `unicode_segmentation`'s `UnicodeSegmentation::graphemes` with
/// extended clusters, counted: the count depends on the characters alone.
#[verifier::external_body]
fn grapheme_count(s: &str) -> (r: usize)
    ensures
        r == grapheme_count_of(s@),
{
    s.graphemes(true).count()
}

/// Relies on `str::to_uppercase`: the result depends on the characters alone.
#[verifier::external_body]
pub(crate) fn to_upper(s: &str) -> (r: String)
    ensures
        r@ == upper_of(s@),
{
    s.to_uppercase()
}

/// Per-character advance widths and ascent of a font, in thousandths of a
/// pixel at unit scale.  A character that has no entry advances by zero;
/// of several entries for one character the first applies.
pub struct FontMetrics {
    /// Horizontal advance of each character at unit scale, milli-pixels.
    pub advances: Vec<(char, u32)>,
    /// Ascent at unit scale, milli-pixels.
    pub ascent_milli: u32,
}

/// Advance of character `c` in `adv`: the first entry's value, else zero.
pub open spec fn advance_of(adv: Seq<(char, u32)>, c: char) -> int
    decreases adv.len(),
{
    if adv.len() == 0 {
        0
    } else if adv[0].0 == c {
        adv[0].1 as int
    } else {
        advance_of(adv.drop_first(), c)
    }
}

/// Total advance of a line at unit scale, in milli-pixels.
pub open spec fn line_unit_milli(adv: Seq<(char, u32)>, s: Seq<char>) -> int
    decreases s.len(),
{
    if s.len() == 0 {
        0
    } else {
        line_unit_milli(adv, s.drop_last()) + advance_of(adv, s.last())
    }
}

/// Total advance of a line at unit scale, saturated at `u64::MAX`.
pub open spec fn line_unit_sat(adv: Seq<(char, u32)>, s: Seq<char>) -> int {
    if line_unit_milli(adv, s) > u64::MAX {
        u64::MAX as int
    } else {
        line_unit_milli(adv, s)
    }
}

/// Width in whole pixels of a line at the given scale (millionths):
/// the advances summed and truncated, clamped to `u32::MAX`.
pub open spec fn width_px_at(adv: Seq<(char, u32)>, s: Seq<char>, scale_micro: int) -> int {
    let w = line_unit_sat(adv, s) * scale_micro / 1_000_000_000;
    if w > u32::MAX {
        u32::MAX as int
    } else {
        w
    }
}

/// The scale (millionths) that makes the line `target_px` pixels wide:
/// `target / unit-scale width`, truncated, clamped to [`SCALE_MAX_MICRO`].
/// Meaningful only when the line's unit advance is not zero.
pub open spec fn autosize_micro(adv: Seq<(char, u32)>, s: Seq<char>, target_px: int) -> int {
    let sc = target_px * 1_000_000_000 / line_unit_sat(adv, s);
    if sc > SCALE_MAX_MICRO {
        SCALE_MAX_MICRO as int
    } else {
        sc
    }
}

pub proof fn lemma_advance_nonneg(adv: Seq<(char, u32)>, c: char)
    ensures
        0 <= advance_of(adv, c) <= u32::MAX,
    decreases adv.len(),
{
    if adv.len() > 0 && adv[0].0 != c {
        lemma_advance_nonneg(adv.drop_first(), c);
    }
}

pub proof fn lemma_line_unit_nonneg(adv: Seq<(char, u32)>, s: Seq<char>)
    ensures
        0 <= line_unit_milli(adv, s),
    decreases s.len(),
{
    if s.len() > 0 {
        lemma_line_unit_nonneg(adv, s.drop_last());
        lemma_advance_nonneg(adv, s.last());
    }
}

impl FontMetrics {
    /// Builds the metrics from plain values.
    pub fn new(advances: Vec<(char, u32)>, ascent_milli: u32) -> (r: FontMetrics)
        ensures
            r.advances@ == advances@,
            r.ascent_milli == ascent_milli,
    {
        FontMetrics { advances, ascent_milli }
    }

    /// Advance of one character at unit scale, milli-pixels.
    pub fn advance(&self, c: char) -> (r: u32)
        ensures
            r as int == advance_of(self.advances@, c),
    {
        let mut i: usize = 0;
        proof {
            assert(self.advances@.skip(0) =~= self.advances@);
        }
        while i < self.advances.len()
            invariant
                i <= self.advances@.len(),
                advance_of(self.advances@, c) == advance_of(self.advances@.skip(i as int), c),
            decreases self.advances@.len() - i,
        {
            let (entry_c, entry_a) = self.advances[i];
            proof {
                assert(self.advances@.skip(i as int)[0] == self.advances@[i as int]);
                assert(self.advances@.skip(i as int).drop_first() =~= self.advances@.skip(
                    i as int + 1,
                ));
            }
            if entry_c == c {
                return entry_a;
            }
            i = i + 1;
        }
        proof {
            assert(self.advances@.skip(i as int).len() == 0);
        }
        0
    }

    /// Total advance of `text` at unit scale, saturated at `u64::MAX`.
    pub fn line_unit(&self, text: &str) -> (r: u64)
        ensures
            r as int == line_unit_sat(self.advances@, text@),
    {
        let n = text.unicode_len();
        let mut unit: u64 = 0;
        let mut i: usize = 0;
        proof {
            assert(text@.take(0) =~= Seq::<char>::empty());
        }
        while i < n
            invariant
                n == text@.len(),
                i <= n,
                unit as int == line_unit_sat(self.advances@, text@.take(i as int)),
            decreases n - i,
        {
            let c = text.get_char(i);
            let a = self.advance(c);
            proof {
                assert(text@.take(i as int + 1).drop_last() =~= text@.take(i as int));
                assert(text@.take(i as int + 1).last() == text@[i as int]);
                lemma_line_unit_nonneg(self.advances@, text@.take(i as int));
                lemma_advance_nonneg(self.advances@, c);
            }
            unit = if unit > u64::MAX - (a as u64) {
                u64::MAX
            } else {
                unit + (a as u64)
            };
            i = i + 1;
        }
        proof {
            assert(text@.take(n as int) =~= text@);
        }
        unit
    }
}

/// Width in whole pixels of `text` at `scale_micro` millionths of unit
/// scale: each character's advance summed, truncated to integer pixels.
///
/// Measuring at the scale [`calc_font_size`] picked lands on the target
/// width or one pixel below it whenever the text's unit-scale advance is at
/// most a million pixels and the scale was not clamped
/// ([`lemma_autosize_width`]); past that domain the millionths
/// quantization of the scale can miss by more.
pub fn calc_text_width(text: &str, font: &FontMetrics, scale_micro: u64) -> (r: u32)
    ensures
        r as int == width_px_at(font.advances@, text@, scale_micro as int),
{
    let unit = font.line_unit(text);
    proof {
        assert((unit as int) * (scale_micro as int) <= (u64::MAX as int) * (u64::MAX as int))
            by (nonlinear_arith)
            requires
                0 <= unit <= u64::MAX,
                0 <= scale_micro <= u64::MAX,
        ;
    }
    let prod: u128 = (unit as u128) * (scale_micro as u128);
    let w = prod / 1_000_000_000;
    if w > u32::MAX as u128 {
        u32::MAX
    } else {
        w as u32
    }
}

/// The scale (millionths) at which `text` is `width` pixels wide.
/// Text with zero total advance cannot be autosized and is rejected
/// with [`CoverError::DegenerateText`].
///
/// The scale is exact to its millionth: re-measuring with
/// [`calc_text_width`] is guaranteed within one pixel of `width` on
/// the domain of [`lemma_autosize_width`] (unit-scale advance at most a
/// million pixels, quotient below [`SCALE_MAX_MICRO`]; the cap itself is
/// the machine limit documented there).
pub fn calc_font_size(width: u32, text: &str, font: &FontMetrics) -> (r: Result<
    u64,
    CoverError,
>)
    ensures
        r is Ok <==> line_unit_milli(font.advances@, text@) != 0,
        r is Ok ==> r->Ok_0 as int == autosize_micro(font.advances@, text@, width as int),
        r is Err ==> r->Err_0 == CoverError::DegenerateText,
{
    proof {
        lemma_line_unit_nonneg(font.advances@, text@);
    }
    let unit = font.line_unit(text);
    if unit == 0 {
        return Err(CoverError::DegenerateText);
    }
    let sc = (width as u64) * 1_000_000_000 / unit;
    if sc > SCALE_MAX_MICRO {
        Ok(SCALE_MAX_MICRO)
    } else {
        Ok(sc)
    }
}

/// Whether some line of `text_list` has fewer than `num` user-perceived
/// characters.
pub fn less_than(num: usize, text_list: Vec<String>) -> (r: bool)
    ensures
        r == exists|i: int|
            0 <= i < text_list@.len() && grapheme_count_of(text_list@[i]@) < num,
{
    let mut i: usize = 0;
    while i < text_list.len()
        invariant
            i <= text_list@.len(),
            forall|j: int| 0 <= j < i ==> grapheme_count_of(text_list@[j]@) >= num,
        decreases text_list@.len() - i,
    {
        if grapheme_count(text_list[i].as_str()) < num {
            return true;
        }
        i = i + 1;
    }
    false
}

/// The line that `longest_str` picks: scanning from the front, a line
/// replaces the current pick only when it has strictly more user-perceived
/// characters, starting from the empty string.
pub open spec fn longest_spec(lines: Seq<Seq<char>>) -> Seq<char>
    decreases lines.len(),
{
    if lines.len() == 0 {
        Seq::<char>::empty()
    } else {
        let prev = longest_spec(lines.drop_last());
        if grapheme_count_of(lines.last()) > grapheme_count_of(prev) {
            lines.last()
        } else {
            prev
        }
    }
}

/// The views of a list of strings.
pub open spec fn views_of(lines: Seq<String>) -> Seq<Seq<char>> {
    lines.map_values(|s: String| s@)
}

/// Picks the line with the most user-perceived characters; of several with
/// the same count the earliest stays.  An empty list yields the empty string.
pub fn longest_str(str_list: &Vec<String>) -> (r: String)
    ensures
        r@ == longest_spec(views_of(str_list@)),
{
    let mut largest = String::new();
    let mut i: usize = 0;
    proof {
        assert(views_of(str_list@).take(0) =~= Seq::<Seq<char>>::empty());
    }
    while i < str_list.len()
        invariant
            i <= str_list@.len(),
            largest@ == longest_spec(views_of(str_list@).take(i as int)),
        decreases str_list@.len() - i,
    {
        proof {
            assert(views_of(str_list@).take(i as int + 1).drop_last() =~= views_of(
                str_list@,
            ).take(i as int));
            assert(views_of(str_list@).take(i as int + 1).last() == str_list@[i as int]@);
        }
        if grapheme_count(str_list[i].as_str()) > grapheme_count(largest.as_str()) {
            largest = str_list[i].clone();
        }
        i = i + 1;
    }
    proof {
        assert(views_of(str_list@).take(str_list@.len() as int) =~= views_of(str_list@));
    }
    largest
}


/// Autosizing round-trips with measuring: the scale picked to fit `target`
/// pixels makes the same line measure `target` or `target - 1` pixels (one
/// below by truncation), whenever the line's unit-scale advance is positive
/// and at most one million pixels and the quotient needs no clamping.  Both
/// bounds on the domain are limits of the representation, not layout rules:
/// the scale is quantized to millionths, so a line wider at unit scale than
/// the quantization can resolve per pixel may measure further off, and the
/// clamp exists only to keep stacking arithmetic in machine range
/// ([`SCALE_MAX_MICRO`]).
pub proof fn lemma_autosize_width(adv: Seq<(char, u32)>, s: Seq<char>, target: int)
    requires
        0 < line_unit_milli(adv, s) <= 1_000_000_000,
        0 <= target <= u32::MAX,
        target * 1_000_000_000 / line_unit_sat(adv, s) <= SCALE_MAX_MICRO,
    ensures
        target - 1 <= width_px_at(adv, s, autosize_micro(adv, s, target)) <= target,
{
    let u = line_unit_milli(adv, s);
    assert(line_unit_sat(adv, s) == u);
    let sc = target * 1_000_000_000 / u;
    lemma_div_pos_is_pos(target * 1_000_000_000, u);
    assert(autosize_micro(adv, s, target) == sc);
    lemma_fundamental_div_mod(target * 1_000_000_000, u);
    lemma_mod_division_less_than_divisor(target * 1_000_000_000, u);
    assert(u * sc == target * 1_000_000_000 - (target * 1_000_000_000) % u);
    lemma_div_is_ordered(u * sc, target * 1_000_000_000, 1_000_000_000);
    lemma_div_multiples_vanish(target, 1_000_000_000);
    assert(1_000_000_000 * target == target * 1_000_000_000) by (nonlinear_arith);
    assert(u * sc / 1_000_000_000 <= target);
    assert(u * sc >= (target - 1) * 1_000_000_000) by {
        assert((target - 1) * 1_000_000_000 == target * 1_000_000_000 - 1_000_000_000);
    };
    lemma_div_is_ordered((target - 1) * 1_000_000_000, u * sc, 1_000_000_000);
    lemma_div_multiples_vanish(target - 1, 1_000_000_000);
    assert(1_000_000_000 * (target - 1) == (target - 1) * 1_000_000_000) by (nonlinear_arith);
    assert(u * sc / 1_000_000_000 >= target - 1);
}

} // verus!
