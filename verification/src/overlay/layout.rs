//! The layout engine: for each placement strategy, the per-line position and
//! scale of a text block on a canvas.
//!
//! All five strategies share one stacking rule: a vertical cursor grows by
//! the previous line's scaled ascent after every line, and the halved top
//! padding grows by half the padding step, so each later line sits further
//! from the anchor edge.  Positions are exact in milli-pixels.

use vstd::arithmetic::div_mod::{lemma_div_is_ordered, lemma_div_pos_is_pos};
use vstd::arithmetic::mul::lemma_mul_inequality;
use vstd::prelude::*;

use crate::overlay::helpers::{
    autosize_micro, calc_font_size, calc_text_width, lemma_line_unit_nonneg, line_unit_milli,
    longest_spec, longest_str, to_upper, upper_of, views_of, width_px_at, FontMetrics,
    SCALE_MAX_MICRO,
};
use crate::overlay::image::PositionType;
use crate::overlay::CoverError;

verus! {

/// Left padding of the canvas, in pixels; the left anchor sits at half of
/// it, and autosizing targets the canvas width less the whole of it.
pub const PADDING_L: u32 = 25;

/// Top (or bottom) padding before the first line, in pixels; halved for the
/// anchor and grown by [`PADDING_T_STEP`] after every placed line.
pub const PADDING_T0: u32 = 25;

/// Growth of the padding after each placed line, in pixels.
pub const PADDING_T_STEP: u32 = 35;

/// Fixed scale of top-centered text, in millionths.
pub const TOP_CENTER_SCALE_MICRO: u64 = 24_000_000;

/// Fixed scale of side-anchored text, in millionths.
pub const BOTTOM_SIDES_SCALE_MICRO: u64 = 56_000_000;

/// Extra start of the stacking cursor for top-centered text, milli-pixels.
pub const TOP_CENTER_START_MILLI: u32 = 20_000;

/// Largest scaled ascent one line can add to the stacking cursor, in
/// milli-pixels: the largest ascent at the largest scale.
pub const STACK_STEP_MAX_MILLI: i128 = 4_294_967_295_000_000_000;

/// One line placed on the canvas: its drawn text (uppercased where the
/// strategy asks), the position of its anchor point in milli-pixels, and
/// its scale in millionths.
pub struct PlacedLine {
    /// The text to draw.
    pub text: String,
    /// Horizontal anchor, milli-pixels from the left edge.
    pub x_milli: i128,
    /// Vertical anchor, milli-pixels from the top edge.
    pub y_milli: i128,
    /// Scale of the line, millionths of unit scale.
    pub scale_micro: u64,
}

/// The text strategy `pos` draws for the raw line `line`: top-centered text
/// is drawn as given, every bottom strategy uppercases it.
pub open spec fn line_text_spec(pos: PositionType, line: Seq<char>) -> Seq<char> {
    match pos {
        PositionType::TopCenter => line,
        _ => upper_of(line),
    }
}

/// The scale of line `i` under strategy `pos`: fixed for `TopCenter` and
/// `BottomSides`; per-line autosize of the uppercased line to the padded
/// canvas width for `BottomStretch`; one shared autosize of the raw longest
/// line for `BottomLeft` and `BottomCenter`.
pub open spec fn scale_spec(
    pos: PositionType,
    lines: Seq<Seq<char>>,
    adv: Seq<(char, u32)>,
    w: int,
    i: int,
) -> int {
    match pos {
        PositionType::TopCenter => TOP_CENTER_SCALE_MICRO as int,
        PositionType::BottomSides => BOTTOM_SIDES_SCALE_MICRO as int,
        PositionType::BottomStretch => autosize_micro(
            adv,
            upper_of(lines[i]),
            w - PADDING_L as int,
        ),
        PositionType::BottomLeft => autosize_micro(adv, longest_spec(lines), w - PADDING_L as int),
        PositionType::BottomCenter => autosize_micro(
            adv,
            longest_spec(lines),
            w - PADDING_L as int,
        ),
    }
}

/// Whether every autosize the strategy needs has text to measure: lines with
/// zero total advance cannot be autosized.
pub open spec fn layout_ok(pos: PositionType, lines: Seq<Seq<char>>, adv: Seq<(char, u32)>) -> bool {
    match pos {
        PositionType::TopCenter => true,
        PositionType::BottomSides => true,
        PositionType::BottomStretch => forall|i: int|
            0 <= i < lines.len() ==> line_unit_milli(adv, upper_of(#[trigger] lines[i])) != 0,
        PositionType::BottomLeft => lines.len() == 0 || line_unit_milli(
            adv,
            longest_spec(lines),
        ) != 0,
        PositionType::BottomCenter => lines.len() == 0 || line_unit_milli(
            adv,
            longest_spec(lines),
        ) != 0,
    }
}

/// The stacking cursor before line `i`: the strategy's start plus the scaled
/// ascents of all earlier lines, in milli-pixels.
pub open spec fn stacked_spec(
    pos: PositionType,
    lines: Seq<Seq<char>>,
    adv: Seq<(char, u32)>,
    ascent: int,
    w: int,
    i: int,
) -> int
    decreases i,
{
    if i <= 0 {
        if pos is TopCenter {
            TOP_CENTER_START_MILLI as int
        } else {
            0
        }
    } else {
        stacked_spec(pos, lines, adv, ascent, w, i - 1) + ascent * scale_spec(
            pos,
            lines,
            adv,
            w,
            i - 1,
        ) / 1_000_000
    }
}

/// Half the top padding before line `i`, in milli-pixels.
pub open spec fn pad_half_spec(i: int) -> int {
    (PADDING_T0 as int + PADDING_T_STEP as int * i) * 500
}

/// The drawn width in pixels of line `i` under strategy `pos`.
pub open spec fn width_spec(
    pos: PositionType,
    lines: Seq<Seq<char>>,
    adv: Seq<(char, u32)>,
    w: int,
    i: int,
) -> int {
    width_px_at(adv, line_text_spec(pos, lines[i]), scale_spec(pos, lines, adv, w, i))
}

/// The vertical anchor of line `i`, in milli-pixels: cursor plus halved
/// padding from the top for `TopCenter`, the same subtracted from the bottom
/// edge for every bottom strategy.
pub open spec fn y_spec(
    pos: PositionType,
    lines: Seq<Seq<char>>,
    adv: Seq<(char, u32)>,
    ascent: int,
    w: int,
    h: int,
    i: int,
) -> int {
    if pos is TopCenter {
        stacked_spec(pos, lines, adv, ascent, w, i) + pad_half_spec(i)
    } else {
        h * 1000 - stacked_spec(pos, lines, adv, ascent, w, i) - pad_half_spec(i)
    }
}

/// The horizontal anchor of line `i`, in milli-pixels: centered for
/// `TopCenter` and `BottomCenter`, the halved left padding for
/// `BottomStretch` and `BottomLeft`, and alternating left and right anchors
/// for `BottomSides`, starting left.
pub open spec fn x_spec(
    pos: PositionType,
    lines: Seq<Seq<char>>,
    adv: Seq<(char, u32)>,
    w: int,
    i: int,
) -> int {
    match pos {
        PositionType::TopCenter => w * 500 - width_spec(pos, lines, adv, w, i) * 500,
        PositionType::BottomStretch => PADDING_L as int * 500,
        PositionType::BottomSides => if i % 2 == 0 {
            PADDING_L as int * 500
        } else {
            w * 1000 - PADDING_L as int * 500 - width_spec(pos, lines, adv, w, i) * 1000
        },
        PositionType::BottomLeft => PADDING_L as int * 500,
        PositionType::BottomCenter => w * 500 - width_spec(pos, lines, adv, w, i) * 500,
    }
}

proof fn lemma_autosize_bounds(adv: Seq<(char, u32)>, s: Seq<char>, target: int)
    requires
        0 <= target,
        line_unit_milli(adv, s) != 0,
    ensures
        0 <= autosize_micro(adv, s, target) <= SCALE_MAX_MICRO,
{
    lemma_line_unit_nonneg(adv, s);
    lemma_div_pos_is_pos(target * 1_000_000_000, crate::overlay::helpers::line_unit_sat(adv, s));
}

proof fn lemma_step_bound(ascent: int, scale: int)
    requires
        0 <= ascent <= u32::MAX,
        0 <= scale <= SCALE_MAX_MICRO,
    ensures
        0 <= ascent * scale / 1_000_000 <= STACK_STEP_MAX_MILLI as int,
{
    assert(0 <= ascent * scale) by (nonlinear_arith)
        requires
            0 <= ascent,
            0 <= scale,
    ;
    assert(ascent * scale <= 4294967295 * 1_000_000_000_000_000) by (nonlinear_arith)
        requires
            0 <= ascent <= 4294967295,
            0 <= scale <= 1_000_000_000_000_000,
    ;
    lemma_div_pos_is_pos(ascent * scale, 1_000_000);
    lemma_div_is_ordered(ascent * scale, 4294967295int * 1_000_000_000_000_000, 1_000_000);
    assert(4294967295int * 1_000_000_000_000_000 / 1_000_000 == STACK_STEP_MAX_MILLI as int);
}

/// Lays a block's lines out under the given strategy: for each line, its
/// drawn text, anchor position and scale.  Strategies that autosize reject a
/// block whose measured line has zero advance, with
/// [`CoverError::DegenerateText`]; every other block is laid out in full, in
/// line order.
pub fn compute_layout(
    text_list: &Vec<String>,
    font: &FontMetrics,
    img_width: u32,
    img_height: u32,
    position: PositionType,
) -> (r: Result<Vec<PlacedLine>, CoverError>)
    requires
        position is BottomStretch && text_list@.len() > 0 ==> img_width >= PADDING_L,
        (position is BottomLeft || position is BottomCenter) && text_list@.len() > 0
            ==> img_width >= PADDING_L,
    ensures
        r is Ok <==> layout_ok(position, views_of(text_list@), font.advances@),
        r is Err ==> r->Err_0 == CoverError::DegenerateText,
        r is Ok ==> r->Ok_0@.len() == text_list@.len(),
        r is Ok ==> forall|i: int|
            0 <= i < text_list@.len() ==> (#[trigger] r->Ok_0@[i]).text@ == line_text_spec(
                position,
                views_of(text_list@)[i],
            ) && r->Ok_0@[i].scale_micro as int == scale_spec(
                position,
                views_of(text_list@),
                font.advances@,
                img_width as int,
                i,
            ) && r->Ok_0@[i].x_milli as int == x_spec(
                position,
                views_of(text_list@),
                font.advances@,
                img_width as int,
                i,
            ) && r->Ok_0@[i].y_milli as int == y_spec(
                position,
                views_of(text_list@),
                font.advances@,
                font.ascent_milli as int,
                img_width as int,
                img_height as int,
                i,
            ),
{
    let ghost lines = views_of(text_list@);
    let ghost adv = font.advances@;
    let ghost w = img_width as int;
    let ghost h = img_height as int;
    let ghost ascent = font.ascent_milli as int;
    let n = text_list.len();

    // The shared autosize scale of BottomLeft and BottomCenter, from the
    // longest raw line.
    let mut shared_scale: u64 = 0;
    match position {
        PositionType::BottomLeft | PositionType::BottomCenter => {
            if n > 0 {
                let longest = longest_str(text_list);
                match calc_font_size(img_width - PADDING_L, longest.as_str(), font) {
                    Ok(sc) => {
                        shared_scale = sc;
                        proof {
                            lemma_autosize_bounds(adv, longest_spec(lines), w - PADDING_L as int);
                        }
                    },
                    Err(e) => {
                        return Err(e);
                    },
                }
            }
        },
        _ => {},
    }
    let mut out: Vec<PlacedLine> = Vec::new();
    let mut stacked: i128 = if let PositionType::TopCenter = position {
        TOP_CENTER_START_MILLI as i128
    } else {
        0
    };
    let mut pad: i128 = PADDING_T0 as i128;
    let mut i: usize = 0;
    while i < n
        invariant
            n == text_list@.len(),
            i <= n,
            lines == views_of(text_list@),
            adv == font.advances@,
            w == img_width as int,
            h == img_height as int,
            ascent == font.ascent_milli as int,
            position is BottomStretch && 0 < n ==> img_width >= PADDING_L,
            (position is BottomLeft || position is BottomCenter) && 0 < n ==> img_width
                >= PADDING_L,
            (position is BottomLeft || position is BottomCenter) && n > 0 ==> {
                &&& line_unit_milli(adv, longest_spec(lines)) != 0
                &&& shared_scale as int == autosize_micro(
                    adv,
                    longest_spec(lines),
                    w - PADDING_L as int,
                )
                &&& 0 <= shared_scale <= SCALE_MAX_MICRO
            },
            position is BottomStretch ==> forall|j: int|
                0 <= j < i ==> line_unit_milli(adv, upper_of(#[trigger] lines[j])) != 0,
            out@.len() == i,
            forall|j: int|
                0 <= j < i ==> (#[trigger] out@[j]).text@ == line_text_spec(position, lines[j])
                    && out@[j].scale_micro as int == scale_spec(position, lines, adv, w, j)
                    && out@[j].x_milli as int == x_spec(position, lines, adv, w, j)
                    && out@[j].y_milli as int == y_spec(position, lines, adv, ascent, w, h, j),
            stacked as int == stacked_spec(position, lines, adv, ascent, w, i as int),
            0 <= stacked as int <= TOP_CENTER_START_MILLI + (i as int) * (STACK_STEP_MAX_MILLI as int),
            pad as int == PADDING_T0 + PADDING_T_STEP as int * (i as int),
        decreases n - i,
    {
        let line: &String = &text_list[i];
        let drawn: String = if let PositionType::TopCenter = position {
            line.clone()
        } else {
            to_upper(line.as_str())
        };
        proof {
            assert(lines[i as int] == text_list@[i as int]@);
            assert(drawn@ == line_text_spec(position, lines[i as int]));
        }
        let scale: u64 = match position {
            PositionType::TopCenter => TOP_CENTER_SCALE_MICRO,
            PositionType::BottomSides => BOTTOM_SIDES_SCALE_MICRO,
            PositionType::BottomStretch => {
                match calc_font_size(img_width - PADDING_L, drawn.as_str(), font) {
                    Ok(sc) => {
                        proof {
                            lemma_autosize_bounds(adv, upper_of(lines[i as int]), w - PADDING_L as int);
                        }
                        sc
                    },
                    Err(e) => {
                        proof {
                            assert(line_unit_milli(adv, upper_of(lines[i as int])) == 0);
                            assert(!layout_ok(position, lines, adv));
                        }
                        return Err(e);
                    },
                }
            },
            PositionType::BottomLeft => shared_scale,
            PositionType::BottomCenter => shared_scale,
        };
        proof {
            assert(scale as int == scale_spec(position, lines, adv, w, i as int));
            assert(0 <= scale <= SCALE_MAX_MICRO);
            lemma_step_bound(ascent, scale as int);
            assert((i as int) * (STACK_STEP_MAX_MILLI as int) <= (usize::MAX as int)
                * (STACK_STEP_MAX_MILLI as int)) by {
                lemma_mul_inequality(i as int, usize::MAX as int, STACK_STEP_MAX_MILLI as int);
            };
            assert(PADDING_T_STEP as int * (i as int) <= PADDING_T_STEP as int * (
            usize::MAX as int)) by {
                lemma_mul_inequality(i as int, usize::MAX as int, PADDING_T_STEP as int);
                assert((i as int) * PADDING_T_STEP as int == PADDING_T_STEP as int * (i as int))
                    by (nonlinear_arith);
                assert((usize::MAX as int) * PADDING_T_STEP as int == PADDING_T_STEP as int * (
                usize::MAX as int)) by (nonlinear_arith);
            };
        }
        let width: u32 = calc_text_width(drawn.as_str(), font, scale);
        let x: i128 = match position {
            PositionType::TopCenter => (img_width as i128) * 500 - (width as i128) * 500,
            PositionType::BottomStretch => (PADDING_L as i128) * 500,
            PositionType::BottomSides => {
                if i % 2 == 0 {
                    (PADDING_L as i128) * 500
                } else {
                    (img_width as i128) * 1000 - (PADDING_L as i128) * 500 - (width as i128) * 1000
                }
            },
            PositionType::BottomLeft => (PADDING_L as i128) * 500,
            PositionType::BottomCenter => (img_width as i128) * 500 - (width as i128) * 500,
        };
        let y: i128 = if let PositionType::TopCenter = position {
            stacked + pad * 500
        } else {
            (img_height as i128) * 1000 - stacked - pad * 500
        };
        proof {
            assert(x as int == x_spec(position, lines, adv, w, i as int));
            assert(y as int == y_spec(position, lines, adv, ascent, w, h, i as int));
        }
        out.push(PlacedLine { text: drawn, x_milli: x, y_milli: y, scale_micro: scale });
        let step: i128 = (font.ascent_milli as i128) * (scale as i128) / 1_000_000;
        stacked = stacked + step;
        pad = pad + PADDING_T_STEP as i128;
        i = i + 1;
        proof {
            assert(stacked as int == stacked_spec(position, lines, adv, ascent, w, i as int));
        }
    }
    proof {
        assert(layout_ok(position, lines, adv));
    }
    Ok(out)
}


/// Side-anchored lines alternate left, right, left, right, ... in line
/// order: every even line shares the single left anchor at half the left
/// padding, and every odd line is right-anchored at the canvas width minus
/// that half padding and the line's own drawn width.
pub proof fn lemma_bottom_sides_anchors(
    lines: Seq<Seq<char>>,
    adv: Seq<(char, u32)>,
    w: int,
    i: int,
)
    requires
        0 <= i < lines.len(),
    ensures
        i % 2 == 0 ==> x_spec(PositionType::BottomSides, lines, adv, w, i) == PADDING_L as int
            * 500,
        i % 2 == 1 ==> x_spec(PositionType::BottomSides, lines, adv, w, i) == w * 1000
            - PADDING_L as int * 500 - width_spec(PositionType::BottomSides, lines, adv, w, i)
            * 1000,
{
}

/// Within one block, every later line sits strictly further from its anchor
/// edge than the line before it: the halved padding alone moves it, and the
/// previous line's scaled ascent moves it further.  Top-anchored text grows
/// downward, bottom-anchored text climbs upward.
pub proof fn lemma_stacking_monotone(
    pos: PositionType,
    lines: Seq<Seq<char>>,
    adv: Seq<(char, u32)>,
    ascent: int,
    w: int,
    h: int,
    i: int,
)
    requires
        0 <= i,
        0 <= ascent,
        0 <= scale_spec(pos, lines, adv, w, i),
    ensures
        pos is TopCenter ==> y_spec(pos, lines, adv, ascent, w, h, i + 1) > y_spec(
            pos,
            lines,
            adv,
            ascent,
            w,
            h,
            i,
        ),
        !(pos is TopCenter) ==> y_spec(pos, lines, adv, ascent, w, h, i + 1) < y_spec(
            pos,
            lines,
            adv,
            ascent,
            w,
            h,
            i,
        ),
{
    let step = ascent * scale_spec(pos, lines, adv, w, i) / 1_000_000;
    assert(0 <= ascent * scale_spec(pos, lines, adv, w, i)) by (nonlinear_arith)
        requires
            0 <= ascent,
            0 <= scale_spec(pos, lines, adv, w, i),
    ;
    lemma_div_pos_is_pos(ascent * scale_spec(pos, lines, adv, w, i), 1_000_000);
    assert(stacked_spec(pos, lines, adv, ascent, w, i + 1) == stacked_spec(
        pos,
        lines,
        adv,
        ascent,
        w,
        i,
    ) + step);
    assert(pad_half_spec(i + 1) == pad_half_spec(i) + PADDING_T_STEP as int * 500);
}

} // verus!
