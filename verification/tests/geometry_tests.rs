use crustty::atlas::{AtlasCache, GlyphKey};
use crustty::font::GlyphBounds;
use crustty::geometry::{build, ColorRgba, GpuVertex};
use crustty::layout::PositionedGlyph;

fn black() -> ColorRgba {
    ColorRgba { red: 0, green: 0, blue: 0, alpha: 255 }
}

fn ndc(v: &GpuVertex, screen_w: f64, screen_h: f64) -> (f64, f64) {
    (v.x_num as f64 / screen_w, v.y_num as f64 / screen_h)
}

#[test]
fn quad_device_coordinates() {
    // One glyph with atlas rectangle {0,0,10,10} and screen rectangle
    // {0,0,10,10} on a 100 by 100 framebuffer: the quad's corners are
    // (-1.0, 0.8) and (-0.8, 1.0) in device coordinates.
    let mut cache = AtlasCache::new(512, 512);
    let key = GlyphKey { font_id: 7, scale: 24, glyph_id: 1 };
    cache.queue(key, 10, 10);
    cache.flush();
    let glyphs = vec![PositionedGlyph {
        glyph_id: 1,
        x: 0,
        y: 8,
        bounds: Some(GlyphBounds { min_x: 0, min_y: 0, max_x: 10, max_y: 10 }),
    }];
    let verts = build(&glyphs, &cache, 7, 24, 100, 100, black());
    assert_eq!(verts.len(), 6);
    let mut min_x = f64::INFINITY;
    let mut min_y = f64::INFINITY;
    let mut max_x = f64::NEG_INFINITY;
    let mut max_y = f64::NEG_INFINITY;
    for v in &verts {
        let (x, y) = ndc(v, 100.0, 100.0);
        min_x = min_x.min(x);
        min_y = min_y.min(y);
        max_x = max_x.max(x);
        max_y = max_y.max(y);
    }
    assert!((min_x - (-1.0)).abs() < 1e-5);
    assert!((min_y - 0.8).abs() < 1e-5);
    assert!((max_x - (-0.8)).abs() < 1e-5);
    assert!((max_y - 1.0).abs() < 1e-5);
}

#[test]
fn winding_and_texture_coordinates() {
    let mut cache = AtlasCache::new(100, 100);
    let key = GlyphKey { font_id: 1, scale: 2, glyph_id: 3 };
    cache.queue(key, 8, 4);
    cache.flush();
    let glyphs = vec![PositionedGlyph {
        glyph_id: 3,
        x: 0,
        y: 0,
        bounds: Some(GlyphBounds { min_x: 2, min_y: 6, max_x: 10, max_y: 10 }),
    }];
    let verts = build(&glyphs, &cache, 1, 2, 200, 100, black());
    assert_eq!(verts.len(), 6);
    // Two triangles: (min,max) (min,min) (max,min) and (max,min) (max,max)
    // (min,max), texture corners matching screen corners.
    let expect = [
        (2, 10, 0, 4),
        (2, 6, 0, 0),
        (10, 6, 8, 0),
        (10, 6, 8, 0),
        (10, 10, 8, 4),
        (2, 10, 0, 4),
    ];
    for (v, (px, py, u, w)) in verts.iter().zip(expect.iter()) {
        assert_eq!(v.x_num, 2 * px - 200);
        assert_eq!(v.y_num, 100 - 2 * py);
        assert_eq!(v.u_num, *u as u32);
        assert_eq!(v.v_num, *w as u32);
        assert_eq!(v.color, black());
    }
}

#[test]
fn cache_miss_contributes_no_geometry() {
    let cache = AtlasCache::new(64, 64);
    let glyphs = vec![PositionedGlyph {
        glyph_id: 5,
        x: 0,
        y: 0,
        bounds: Some(GlyphBounds { min_x: 0, min_y: 0, max_x: 4, max_y: 4 }),
    }];
    let verts = build(&glyphs, &cache, 1, 1, 100, 100, black());
    assert!(verts.is_empty());
}

#[test]
fn whitespace_contributes_no_geometry() {
    let mut cache = AtlasCache::new(64, 64);
    let key = GlyphKey { font_id: 1, scale: 1, glyph_id: 9 };
    cache.queue(key, 4, 4);
    cache.flush();
    let glyphs = vec![PositionedGlyph { glyph_id: 9, x: 3, y: 3, bounds: None }];
    let verts = build(&glyphs, &cache, 1, 1, 100, 100, black());
    assert!(verts.is_empty());
}

#[test]
fn resolved_glyphs_only() {
    // Of two glyphs, only the resident one emits a quad.
    let mut cache = AtlasCache::new(64, 64);
    let key = GlyphKey { font_id: 1, scale: 1, glyph_id: 1 };
    cache.queue(key, 4, 4);
    cache.flush();
    let bounds = Some(GlyphBounds { min_x: 0, min_y: 0, max_x: 4, max_y: 4 });
    let glyphs = vec![
        PositionedGlyph { glyph_id: 2, x: 0, y: 0, bounds },
        PositionedGlyph { glyph_id: 1, x: 0, y: 0, bounds },
    ];
    let verts = build(&glyphs, &cache, 1, 1, 100, 100, black());
    assert_eq!(verts.len(), 6);
}
