//! The frame geometry builder: turns positioned glyphs and their atlas
//! rectangles into a flat vertex list, two triangles per glyph, for one
//! draw call.
//!
//! Device and texture coordinates are exact rationals: each vertex carries
//! the numerator, and the denominators are the screen dimensions (for
//! positions) and the atlas dimensions (for texture coordinates). The
//! intended mapping is `x' = (x / screen_w - 0.5) * 2 = (2x - screen_w) /
//! screen_w` and `y' = (1 - y / screen_h - 0.5) * 2 = (screen_h - 2y) /
//! screen_h`; the vertical flip is because pixel-space y grows downward
//! while device-space y grows upward. The host performs the one floating
//! point division per coordinate when uploading the vertex buffer.

use vstd::prelude::*;
use crate::atlas::{
    AtlasCache, GlyphKey, RectV, SlotV, rect_for_spec, rect_in_bounds, lemma_rect_for_in_bounds,
};
use crate::font::GlyphBoundsV;
use crate::layout::{PositionedGlyph, PositionedGlyphV};

verus! {

/// Bound on glyph coordinates accepted by the geometry builder; far above
/// anything the layout engine produces, and small enough that every
/// numerator fits its machine integer.
pub const MAX_RENDER_COORD: i64 = 0x1000_0000_0000_0000;

/// The uniform vertex color, one byte per channel.
#[derive(Clone, Copy, PartialEq, Eq, Structural, Debug)]
pub struct ColorRgba {
    pub red: u8,
    pub green: u8,
    pub blue: u8,
    pub alpha: u8,
}

/// One vertex of a glyph quad: numerators of the normalized device
/// position (denominators: the screen dimensions) and of the atlas texture
/// coordinate (denominators: the atlas dimensions), plus the color.
#[derive(Clone, Copy, PartialEq, Eq, Structural, Debug)]
pub struct GpuVertex {
    pub x_num: i64,
    pub y_num: i64,
    pub u_num: u32,
    pub v_num: u32,
    pub color: ColorRgba,
}

/// Mathematical mirror of `GpuVertex`.
pub ghost struct GpuVertexV {
    pub x_num: int,
    pub y_num: int,
    pub u_num: int,
    pub v_num: int,
    pub color: ColorRgba,
}

impl DeepView for GpuVertex {
    type V = GpuVertexV;

    open spec fn deep_view(&self) -> GpuVertexV {
        GpuVertexV {
            x_num: self.x_num as int,
            y_num: self.y_num as int,
            u_num: self.u_num as int,
            v_num: self.v_num as int,
            color: self.color,
        }
    }
}

/// The vertex for one quad corner: screen pixel `(px, py)` mapped to
/// device-coordinate numerators, with atlas texture numerators `(ux, uy)`.
pub open spec fn corner_vertex(
    px: int,
    py: int,
    ux: int,
    uy: int,
    sw: int,
    sh: int,
    color: ColorRgba,
) -> GpuVertexV {
    GpuVertexV { x_num: 2 * px - sw, y_num: sh - 2 * py, u_num: ux, v_num: uy, color }
}

/// The six vertices (two triangles, consistent winding) of one glyph quad:
/// screen rectangle `sb`, atlas rectangle `uv`.
pub open spec fn quad_vertices(
    uv: RectV,
    sb: GlyphBoundsV,
    sw: int,
    sh: int,
    color: ColorRgba,
) -> Seq<GpuVertexV> {
    seq![
        corner_vertex(sb.min_x, sb.max_y, uv.x, uv.y + uv.h, sw, sh, color),
        corner_vertex(sb.min_x, sb.min_y, uv.x, uv.y, sw, sh, color),
        corner_vertex(sb.max_x, sb.min_y, uv.x + uv.w, uv.y, sw, sh, color),
        corner_vertex(sb.max_x, sb.min_y, uv.x + uv.w, uv.y, sw, sh, color),
        corner_vertex(sb.max_x, sb.max_y, uv.x + uv.w, uv.y + uv.h, sw, sh, color),
        corner_vertex(sb.min_x, sb.max_y, uv.x, uv.y + uv.h, sw, sh, color),
    ]
}

/// The atlas cache key under which a positioned glyph was queued.
pub open spec fn glyph_key_of(font_id: u32, scale: u32, g: PositionedGlyphV) -> GlyphKey {
    GlyphKey { font_id, scale, glyph_id: g.glyph_id }
}

/// The vertex list for a glyph sequence: six vertices per glyph that has a
/// screen rectangle and a resident atlas rectangle, in glyph order; glyphs
/// with no rectangle (whitespace, cache miss, packing failure) contribute
/// no geometry.
pub open spec fn build_spec(
    slots: Seq<SlotV>,
    font_id: u32,
    scale: u32,
    glyphs: Seq<PositionedGlyphV>,
    sw: int,
    sh: int,
    color: ColorRgba,
) -> Seq<GpuVertexV>
    decreases glyphs.len(),
{
    if glyphs.len() == 0 {
        Seq::empty()
    } else {
        let g = glyphs[0];
        let rest = build_spec(slots, font_id, scale, glyphs.drop_first(), sw, sh, color);
        match g.bounds {
            Some(sb) => match rect_for_spec(slots, glyph_key_of(font_id, scale, g)) {
                Some(uv) => quad_vertices(uv, sb, sw, sh, color) + rest,
                None => rest,
            },
            None => rest,
        }
    }
}

/// A positioned glyph whose screen rectangle the geometry builder accepts.
pub open spec fn render_coords_ok(g: PositionedGlyphV) -> bool {
    match g.bounds {
        Some(b) => {
            &&& -MAX_RENDER_COORD <= b.min_x <= MAX_RENDER_COORD
            &&& -MAX_RENDER_COORD <= b.min_y <= MAX_RENDER_COORD
            &&& -MAX_RENDER_COORD <= b.max_x <= MAX_RENDER_COORD
            &&& -MAX_RENDER_COORD <= b.max_y <= MAX_RENDER_COORD
        },
        None => true,
    }
}

fn corner(px: i64, py: i64, ux: u32, uy: u32, sw: u32, sh: u32, color: ColorRgba) -> (v: GpuVertex)
    requires
        -MAX_RENDER_COORD <= px <= MAX_RENDER_COORD,
        -MAX_RENDER_COORD <= py <= MAX_RENDER_COORD,
    ensures
        v.deep_view() == corner_vertex(
            px as int,
            py as int,
            ux as int,
            uy as int,
            sw as int,
            sh as int,
            color,
        ),
{
    GpuVertex {
        x_num: 2 * px - (sw as i64),
        y_num: (sh as i64) - 2 * py,
        u_num: ux,
        v_num: uy,
        color,
    }
}

/// Builds the vertex list for one frame: for each positioned glyph whose
/// atlas rectangle is resident in the cache, six vertices mapping its
/// screen rectangle to normalized device coordinates and its atlas
/// rectangle to texture coordinates, all with the uniform color.
pub fn build(
    glyphs: &Vec<PositionedGlyph>,
    cache: &AtlasCache,
    font_id: u32,
    scale: u32,
    screen_w: u32,
    screen_h: u32,
    color: ColorRgba,
) -> (verts: Vec<GpuVertex>)
    requires
        cache.wf(),
        forall|i: int|
            0 <= i < glyphs.deep_view().len() ==> render_coords_ok(
                #[trigger] glyphs.deep_view()[i],
            ),
    ensures
        verts.deep_view() == build_spec(
            cache.slots_view(),
            font_id,
            scale,
            glyphs.deep_view(),
            screen_w as int,
            screen_h as int,
            color,
        ),
{
    let ghost gs = glyphs.deep_view();
    let ghost slots = cache.slots_view();
    let ghost full = build_spec(slots, font_id, scale, gs, screen_w as int, screen_h as int, color);
    let mut verts: Vec<GpuVertex> = Vec::new();
    let n = glyphs.len();
    let mut i: usize = 0;
    proof {
        assert(gs.skip(0) =~= gs);
        assert(verts.deep_view() =~= Seq::<GpuVertexV>::empty());
    }
    while i < n
        invariant
            n == glyphs.len(),
            gs == glyphs.deep_view(),
            slots == cache.slots_view(),
            cache.wf(),
            full == build_spec(slots, font_id, scale, gs, screen_w as int, screen_h as int, color),
            forall|j: int| 0 <= j < gs.len() ==> render_coords_ok(#[trigger] gs[j]),
            i <= n,
            full == verts.deep_view() + build_spec(
                slots,
                font_id,
                scale,
                gs.skip(i as int),
                screen_w as int,
                screen_h as int,
                color,
            ),
        decreases n - i,
    {
        let g = glyphs[i];
        proof {
            assert(gs.skip(i as int)[0] == gs[i as int]);
            assert(gs.skip(i as int).drop_first() =~= gs.skip(i as int + 1));
        }
        if let Some(b) = g.bounds {
            let key = GlyphKey { font_id, scale, glyph_id: g.glyph_id };
            proof {
                assert(key == glyph_key_of(font_id, scale, gs[i as int]));
                lemma_rect_for_in_bounds(
                    cache.width_spec(),
                    cache.height_spec(),
                    slots,
                    key,
                );
            }
            match cache.rect_for(key) {
                Some(uv) => {
                    proof {
                        assert(uv.deep_view() == rect_for_spec(slots, key).unwrap());
                        assert(rect_in_bounds(cache.width_spec(), cache.height_spec(), uv.deep_view()));
                    }
                    let ghost vs_before = verts.deep_view();
                    let ghost sb = gs[i as int].bounds.unwrap();
                    let ghost uvv = uv.deep_view();
                    let ghost quad = quad_vertices(
                        uvv,
                        sb,
                        screen_w as int,
                        screen_h as int,
                        color,
                    );
                    verts.push(corner(b.min_x, b.max_y, uv.x, uv.y + uv.h, screen_w, screen_h, color));
                    verts.push(corner(b.min_x, b.min_y, uv.x, uv.y, screen_w, screen_h, color));
                    verts.push(corner(b.max_x, b.min_y, uv.x + uv.w, uv.y, screen_w, screen_h, color));
                    verts.push(corner(b.max_x, b.min_y, uv.x + uv.w, uv.y, screen_w, screen_h, color));
                    verts.push(corner(b.max_x, b.max_y, uv.x + uv.w, uv.y + uv.h, screen_w, screen_h, color));
                    verts.push(corner(b.min_x, b.max_y, uv.x, uv.y + uv.h, screen_w, screen_h, color));
                    proof {
                        assert(verts.deep_view() =~= vs_before + quad);
                        assert((vs_before + quad) + build_spec(
                            slots,
                            font_id,
                            scale,
                            gs.skip(i as int + 1),
                            screen_w as int,
                            screen_h as int,
                            color,
                        ) =~= vs_before + (quad + build_spec(
                            slots,
                            font_id,
                            scale,
                            gs.skip(i as int + 1),
                            screen_w as int,
                            screen_h as int,
                            color,
                        )));
                    }
                },
                None => (),
            }
        }
        i += 1;
    }
    proof {
        assert(gs.skip(n as int) =~= Seq::<PositionedGlyphV>::empty());
        assert(full =~= verts.deep_view());
    }
    verts
}

} // verus!
