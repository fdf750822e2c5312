//! The glyph layout engine: a pure function from a font model, an available
//! pixel width and a text string to a sequence of positioned glyphs, with
//! line wrapping and kerning.
//!
//! The caret starts at `(0, ascent)`. A carriage return moves it to the
//! start of the next line; other control characters are skipped. A
//! printable character is kerned against the previous glyph, and wraps to
//! the next line when its bounding box would cross the right edge; a glyph
//! wider than the whole line is still placed.

use vstd::prelude::*;
use crate::font::{
    FontModel, FontModelV, GlyphBounds, GlyphBoundsV, GlyphMetricsV, advance_height, font_wf,
    glyph_for, kern_between, lemma_glyph_for_ok, lemma_kern_bounded, MAX_METRIC,
};

verus! {

/// Bound on the number of characters laid out in one call, so that every
/// caret coordinate stays far from the edge of its machine integer.
pub const MAX_TEXT_LEN: usize = 0x4000_0000;

/// One glyph placed by the layout engine: its identifier, the caret it was
/// placed at, and its pixel bounding box positioned on the screen (absent
/// for whitespace).
#[derive(Clone, Copy, PartialEq, Eq, Structural, Debug)]
pub struct PositionedGlyph {
    pub glyph_id: u32,
    pub x: i64,
    pub y: i64,
    pub bounds: Option<GlyphBounds>,
}

/// Mathematical mirror of `PositionedGlyph`.
pub ghost struct PositionedGlyphV {
    pub glyph_id: u32,
    pub x: int,
    pub y: int,
    pub bounds: Option<GlyphBoundsV>,
}

impl DeepView for PositionedGlyph {
    type V = PositionedGlyphV;

    open spec fn deep_view(&self) -> PositionedGlyphV {
        PositionedGlyphV {
            glyph_id: self.glyph_id,
            x: self.x as int,
            y: self.y as int,
            bounds: match self.bounds {
                Some(b) => Some(b.deep_view()),
                None => None,
            },
        }
    }
}

/// Control characters in the sense of the layout engine: the C0 range,
/// delete, and the C1 range.
pub open spec fn is_control_char(c: char) -> bool {
    (c as u32) < 0x20 || (0x7f <= (c as u32) && (c as u32) <= 0x9f)
}

fn char_is_control(c: char) -> (r: bool)
    ensures
        r == is_control_char(c),
{
    let u = c as u32;
    u < 0x20 || (0x7f <= u && u <= 0x9f)
}

/// A glyph's relative bounding box moved to the caret position `(x, y)`.
pub open spec fn place_bounds(b: Option<GlyphBoundsV>, x: int, y: int) -> Option<GlyphBoundsV> {
    match b {
        Some(bb) => Some(
            GlyphBoundsV {
                min_x: x + bb.min_x,
                min_y: y + bb.min_y,
                max_x: x + bb.max_x,
                max_y: y + bb.max_y,
            },
        ),
        None => None,
    }
}

/// Kerning applied before glyph `right`: the pair adjustment against the
/// previous glyph on the line, or zero at the start of a line.
pub open spec fn kern_after(f: FontModelV, last: Option<u32>, right: u32) -> int {
    match last {
        Some(l) => kern_between(f, l, right),
        None => 0,
    }
}

/// Whether a glyph placed with its origin at `x` crosses the right edge:
/// its bounding box would end past `max_width`.
pub open spec fn wraps(g: GlyphMetricsV, x: int, max_width: int) -> bool {
    match g.bounds {
        Some(b) => x + b.max_x > max_width,
        None => false,
    }
}

/// The glyphs laid out for `text` when the caret stands at `(cx, cy)` and
/// the previous glyph on the line is `last`.
pub open spec fn layout_rest(
    f: FontModelV,
    max_width: int,
    text: Seq<char>,
    cx: int,
    cy: int,
    last: Option<u32>,
) -> Seq<PositionedGlyphV>
    decreases text.len(),
{
    if text.len() == 0 {
        Seq::empty()
    } else {
        let c = text[0];
        let rest = text.drop_first();
        if is_control_char(c) {
            if c == '\r' {
                layout_rest(f, max_width, rest, 0, cy + advance_height(f), None)
            } else {
                layout_rest(f, max_width, rest, cx, cy, last)
            }
        } else {
            let g = glyph_for(f, c);
            let kx = cx + kern_after(f, last, g.glyph_id);
            let w = wraps(g, kx, max_width);
            let px = if w {
                0
            } else {
                kx
            };
            let py = if w {
                cy + advance_height(f)
            } else {
                cy
            };
            let placed = PositionedGlyphV {
                glyph_id: g.glyph_id,
                x: px,
                y: py,
                bounds: place_bounds(g.bounds, px, py),
            };
            seq![placed] + layout_rest(
                f,
                max_width,
                rest,
                px + g.advance,
                py,
                if w {
                    None
                } else {
                    Some(g.glyph_id)
                },
            )
        }
    }
}

/// The glyphs laid out for `text` from a fresh caret at `(0, ascent)`.
pub open spec fn layout_spec(f: FontModelV, max_width: int, text: Seq<char>) -> Seq<
    PositionedGlyphV,
> {
    layout_rest(f, max_width, text, 0, f.ascent, None)
}

/// Lays `text` out with the given font model and available pixel width.
/// Deterministic and stateless: the result is exactly `layout_spec`.
pub fn layout(font: &FontModel, max_width: u32, text: &str) -> (glyphs: Vec<PositionedGlyph>)
    requires
        font.wf(),
        text@.len() <= MAX_TEXT_LEN,
    ensures
        glyphs.deep_view() == layout_spec(font.deep_view(), max_width as int, text@),
{
    let ghost fv = font.deep_view();
    let mut out: Vec<PositionedGlyph> = Vec::new();
    let advance_h: i64 = font.ascent - font.descent + font.line_gap;
    let mut caret_x: i64 = 0;
    let mut caret_y: i64 = font.ascent;
    let mut last: Option<u32> = None;
    let n = text.unicode_len();
    let mut i: usize = 0;
    proof {
        assert(text@.skip(0) =~= text@);
        assert(out.deep_view() =~= Seq::<PositionedGlyphV>::empty());
    }
    while i < n
        invariant
            fv == font.deep_view(),
            font.wf(),
            n == text@.len(),
            n <= MAX_TEXT_LEN,
            i <= n,
            advance_h as int == advance_height(fv),
            -0x20_0000 * (i as int) <= caret_x as int <= 0x20_0000 * (i as int),
            -0x40_0000 * (i as int) - 0x10_0000 <= caret_y as int <= 0x40_0000 * (i as int)
                + 0x10_0000,
            layout_spec(fv, max_width as int, text@) == out.deep_view() + layout_rest(
                fv,
                max_width as int,
                text@.skip(i as int),
                caret_x as int,
                caret_y as int,
                last,
            ),
        decreases n - i,
    {
        let ghost rest_before = text@.skip(i as int);
        let c = text.get_char(i);
        proof {
            assert(rest_before[0] == text@[i as int]);
            assert(rest_before.drop_first() =~= text@.skip(i as int + 1));
        }
        if char_is_control(c) {
            if c == '\r' {
                caret_x = 0;
                caret_y = caret_y + advance_h;
                last = None;
            }
        } else {
            let g = font.glyph_for_char(c);
            proof {
                lemma_glyph_for_ok(fv, c);
            }
            let kern: i64 = match last {
                Some(l) => {
                    proof {
                        lemma_kern_bounded(fv, l, g.glyph_id);
                    }
                    font.kern_pair(l, g.glyph_id)
                },
                None => 0,
            };
            let kx = caret_x + kern;
            let mut px: i64 = kx;
            let mut py: i64 = caret_y;
            let mut wrapped = false;
            if let Some(b) = g.bounds {
                if kx + b.max_x > max_width as i64 {
                    wrapped = true;
                    px = 0;
                    py = caret_y + advance_h;
                }
            }
            let placed_bounds: Option<GlyphBounds> = match g.bounds {
                Some(b) => Some(
                    GlyphBounds {
                        min_x: px + b.min_x,
                        min_y: py + b.min_y,
                        max_x: px + b.max_x,
                        max_y: py + b.max_y,
                    },
                ),
                None => None,
            };
            let placed = PositionedGlyph { glyph_id: g.glyph_id, x: px, y: py, bounds: placed_bounds };
            let ghost out_before = out.deep_view();
            out.push(placed);
            proof {
                let gv = glyph_for(fv, c);
                assert(wrapped == wraps(gv, kx as int, max_width as int));
                assert(placed.deep_view() == PositionedGlyphV {
                    glyph_id: gv.glyph_id,
                    x: px as int,
                    y: py as int,
                    bounds: place_bounds(gv.bounds, px as int, py as int),
                });
                assert(out.deep_view() =~= out_before + seq![placed.deep_view()]);
                assert((out_before + seq![placed.deep_view()]) + layout_rest(
                    fv,
                    max_width as int,
                    text@.skip(i as int + 1),
                    px as int + gv.advance,
                    py as int,
                    if wrapped {
                        None
                    } else {
                        Some(gv.glyph_id)
                    },
                ) =~= out_before + (seq![placed.deep_view()] + layout_rest(
                    fv,
                    max_width as int,
                    text@.skip(i as int + 1),
                    px as int + gv.advance,
                    py as int,
                    if wrapped {
                        None
                    } else {
                        Some(gv.glyph_id)
                    },
                )));
            }
            caret_x = px + g.advance;
            caret_y = py;
            last = if wrapped {
                None
            } else {
                Some(g.glyph_id)
            };
        }
        i += 1;
    }
    proof {
        assert(text@.skip(n as int) =~= Seq::<char>::empty());
        assert(out.deep_view() + Seq::<PositionedGlyphV>::empty() =~= out.deep_view());
    }
    out
}

/// Law: a carriage return moves the caret to the left margin and down by
/// exactly the advance height, and clears the pending kerning state,
/// whatever was laid out before it.
pub proof fn lemma_carriage_return(
    f: FontModelV,
    max_width: int,
    text: Seq<char>,
    cx: int,
    cy: int,
    last: Option<u32>,
)
    requires
        text.len() > 0,
        text[0] == '\r',
    ensures
        layout_rest(f, max_width, text, cx, cy, last) == layout_rest(
            f,
            max_width,
            text.drop_first(),
            0,
            cy + advance_height(f),
            None,
        ),
{
    assert(is_control_char('\r'));
}

/// A font whose kerning never pulls a glyph backwards.
pub open spec fn kerning_nonneg(f: FontModelV) -> bool {
    forall|l: u32, r: u32| kern_between(f, l, r) >= 0
}

proof fn lemma_one_line_rest(
    f: FontModelV,
    max_width: int,
    text: Seq<char>,
    cx: int,
    cy: int,
    last: Option<u32>,
)
    requires
        font_wf(f),
        kerning_nonneg(f),
        forall|i: int| 0 <= i < text.len() ==> !is_control_char(#[trigger] text[i]),
        0 <= cx,
        cx + 0x20_0000 * (text.len() + 1) <= max_width,
    ensures
        layout_rest(f, max_width, text, cx, cy, last).len() == text.len(),
        forall|i: int|
            0 <= i < text.len() ==> (#[trigger] layout_rest(f, max_width, text, cx, cy, last)[i]).y
                == cy,
        forall|i: int|
            0 <= i < text.len() ==> cx <= (#[trigger] layout_rest(
                f,
                max_width,
                text,
                cx,
                cy,
                last,
            )[i]).x,
        forall|i: int|
            0 <= i < text.len() - 1 ==> (#[trigger] layout_rest(
                f,
                max_width,
                text,
                cx,
                cy,
                last,
            )[i]).x <= layout_rest(f, max_width, text, cx, cy, last)[i + 1].x,
    decreases text.len(),
{
    if text.len() > 0 {
        let c = text[0];
        let g = glyph_for(f, c);
        lemma_glyph_for_ok(f, c);
        match last {
            Some(l) => lemma_kern_bounded(f, l, g.glyph_id),
            None => (),
        }
        let k = kern_after(f, last, g.glyph_id);
        let kx = cx + k;
        assert(0 <= k <= MAX_METRIC);
        assert(!wraps(g, kx, max_width));
        let rest = text.drop_first();
        assert forall|i: int| 0 <= i < rest.len() implies !is_control_char(
            #[trigger] rest[i],
        ) by {
            assert(rest[i] == text[i + 1]);
        }
        lemma_one_line_rest(f, max_width, rest, kx + g.advance, cy, Some(g.glyph_id));
        let gs = layout_rest(f, max_width, text, cx, cy, last);
        let gs1 = layout_rest(f, max_width, rest, kx + g.advance, cy, Some(g.glyph_id));
        assert(gs.len() == 1 + gs1.len());
        assert forall|i: int| 0 <= i < text.len() implies (#[trigger] gs[i]).y == cy && cx
            <= gs[i].x by {
            if i > 0 {
                assert(gs[i] == gs1[i - 1]);
            }
        }
        assert forall|i: int| 0 <= i < text.len() - 1 implies (#[trigger] gs[i]).x <= gs[i
            + 1].x by {
            if i == 0 {
                assert(gs[1] == gs1[0]);
            } else {
                assert(gs[i] == gs1[i - 1]);
                assert(gs[i + 1] == gs1[i]);
            }
        }
    }
}

/// Law: for text with no control characters, laid out with nonnegative
/// kerning and a width sufficient for the whole text on one line (at least
/// `2 * MAX_METRIC` pixels for each character), every glyph sits on the
/// single baseline `ascent` and the glyph origins never move backwards.
pub proof fn lemma_single_line(f: FontModelV, max_width: int, text: Seq<char>)
    requires
        font_wf(f),
        kerning_nonneg(f),
        forall|i: int| 0 <= i < text.len() ==> !is_control_char(#[trigger] text[i]),
        0x20_0000 * (text.len() + 1) <= max_width,
    ensures
        layout_spec(f, max_width, text).len() == text.len(),
        forall|i: int|
            0 <= i < text.len() ==> (#[trigger] layout_spec(f, max_width, text)[i]).y == f.ascent,
        forall|i: int|
            0 <= i < text.len() - 1 ==> (#[trigger] layout_spec(f, max_width, text)[i]).x
                <= layout_spec(f, max_width, text)[i + 1].x,
{
    lemma_one_line_rest(f, max_width, text, 0, f.ascent, None);
}

} // verus!
