use crustty::font::{CharEntry, FontModel, GlyphBounds, GlyphMetrics, KernEntry};
use crustty::layout::layout;

// ascent 10, descent -2, line gap 1: advance height 13.
fn test_font() -> FontModel {
    FontModel {
        font_id: 7,
        scale: 24,
        ascent: 10,
        descent: -2,
        line_gap: 1,
        missing: GlyphMetrics { glyph_id: 0, advance: 3, bounds: None },
        chars: vec![
            CharEntry {
                ch: 'a',
                glyph: GlyphMetrics {
                    glyph_id: 1,
                    advance: 6,
                    bounds: Some(GlyphBounds { min_x: 0, min_y: -8, max_x: 5, max_y: 0 }),
                },
            },
            CharEntry {
                ch: 'b',
                glyph: GlyphMetrics {
                    glyph_id: 2,
                    advance: 6,
                    bounds: Some(GlyphBounds { min_x: 0, min_y: -8, max_x: 5, max_y: 0 }),
                },
            },
            CharEntry {
                ch: ' ',
                glyph: GlyphMetrics { glyph_id: 3, advance: 4, bounds: None },
            },
        ],
        kerning: vec![KernEntry { left: 1, right: 2, amount: 1 }],
    }
}

#[test]
fn single_line_monotonic() {
    // Width is ample: one line, caret x never decreases, one fixed y.
    let font = test_font();
    let glyphs = layout(&font, 1000, "ab a");
    assert_eq!(glyphs.len(), 4);
    for g in &glyphs {
        assert_eq!(g.y, 10);
    }
    // 'a' at 0; 'b' kerned by 1 after advance 6; space advances 6; 'a' after 4.
    assert_eq!(glyphs[0].x, 0);
    assert_eq!(glyphs[1].x, 7);
    assert_eq!(glyphs[2].x, 13);
    assert_eq!(glyphs[3].x, 17);
    for w in glyphs.windows(2) {
        assert!(w[0].x <= w[1].x);
    }
}

#[test]
fn carriage_return_resets_caret() {
    // A carriage return moves the caret to (0, y + advance height) no
    // matter what came before, and drops the pending kerning.
    let font = test_font();
    let glyphs = layout(&font, 1000, "a\rb");
    assert_eq!(glyphs.len(), 2);
    assert_eq!((glyphs[0].x, glyphs[0].y), (0, 10));
    assert_eq!((glyphs[1].x, glyphs[1].y), (0, 23));
}

#[test]
fn zero_width_wraps_each_glyph() {
    // With no available width, any glyph whose box ends past x = 0 wraps:
    // the second glyph starts its own new line at x = 0.
    let font = test_font();
    let glyphs = layout(&font, 0, "ab");
    assert_eq!(glyphs.len(), 2);
    assert_eq!((glyphs[0].x, glyphs[0].y), (0, 23));
    assert_eq!((glyphs[1].x, glyphs[1].y), (0, 36));
    assert_eq!(glyphs[1].y, glyphs[0].y + 13);
}

#[test]
fn empty_text_yields_nothing() {
    let font = test_font();
    assert!(layout(&font, 100, "").is_empty());
}

#[test]
fn other_control_chars_are_skipped() {
    // A tab is not laid out and does not move the caret; kerning state
    // survives it, so the positions match plain "ab".
    let font = test_font();
    let with_tab = layout(&font, 1000, "a\tb");
    let plain = layout(&font, 1000, "ab");
    assert_eq!(with_tab.len(), 2);
    assert_eq!(with_tab[0], plain[0]);
    assert_eq!(with_tab[1], plain[1]);
}

#[test]
fn wide_glyph_still_placed() {
    // A glyph wider than the whole line wraps once and is placed anyway.
    let font = test_font();
    let glyphs = layout(&font, 2, "a");
    assert_eq!(glyphs.len(), 1);
    assert_eq!((glyphs[0].x, glyphs[0].y), (0, 23));
}

#[test]
fn unknown_char_uses_missing_glyph() {
    let font = test_font();
    let glyphs = layout(&font, 1000, "z");
    assert_eq!(glyphs.len(), 1);
    assert_eq!(glyphs[0].glyph_id, 0);
    assert!(glyphs[0].bounds.is_none());
}

#[test]
fn positioned_bounds_follow_caret() {
    let font = test_font();
    let glyphs = layout(&font, 1000, "ab");
    let b0 = glyphs[0].bounds.unwrap();
    assert_eq!((b0.min_x, b0.min_y, b0.max_x, b0.max_y), (0, 2, 5, 10));
    let b1 = glyphs[1].bounds.unwrap();
    assert_eq!((b1.min_x, b1.min_y, b1.max_x, b1.max_y), (7, 2, 12, 10));
}
