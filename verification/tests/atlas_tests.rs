use crustty::atlas::{AtlasCache, AtlasRect, GlyphKey};

fn key(glyph_id: u32) -> GlyphKey {
    GlyphKey { font_id: 7, scale: 24, glyph_id }
}

#[test]
fn flush_packs_along_a_row() {
    let mut cache = AtlasCache::new(100, 50);
    cache.queue(key(1), 10, 10);
    cache.queue(key(2), 20, 10);
    let regions = cache.flush();
    assert_eq!(regions.len(), 2);
    assert_eq!(regions[0].key, key(1));
    assert_eq!(regions[0].rect, AtlasRect { x: 0, y: 0, w: 10, h: 10 });
    assert_eq!(regions[1].key, key(2));
    assert_eq!(regions[1].rect, AtlasRect { x: 10, y: 0, w: 20, h: 10 });
    assert_eq!(cache.rect_for(key(1)), Some(AtlasRect { x: 0, y: 0, w: 10, h: 10 }));
    assert_eq!(cache.rect_for(key(2)), Some(AtlasRect { x: 10, y: 0, w: 20, h: 10 }));
}

#[test]
fn requeue_and_second_flush_write_nothing() {
    // Queuing resident glyphs again is a no-op and a second flush over the
    // same glyph set writes no region: each sub-rectangle is written once.
    let mut cache = AtlasCache::new(100, 50);
    cache.queue(key(1), 10, 10);
    cache.queue(key(2), 20, 10);
    let first = cache.flush();
    assert_eq!(first.len(), 2);
    cache.queue(key(1), 10, 10);
    cache.queue(key(2), 20, 10);
    let second = cache.flush();
    assert!(second.is_empty());
    assert_eq!(cache.rect_for(key(1)), Some(AtlasRect { x: 0, y: 0, w: 10, h: 10 }));
    assert_eq!(cache.rect_for(key(2)), Some(AtlasRect { x: 10, y: 0, w: 20, h: 10 }));
}

#[test]
fn rect_for_unknown_key_is_none() {
    let mut cache = AtlasCache::new(100, 50);
    cache.queue(key(1), 10, 10);
    cache.flush();
    assert_eq!(cache.rect_for(key(99)), None);
}

#[test]
fn rect_for_queued_but_not_flushed_is_none() {
    let mut cache = AtlasCache::new(100, 50);
    cache.queue(key(1), 10, 10);
    assert_eq!(cache.rect_for(key(1)), None);
}

#[test]
fn wrapping_to_next_row() {
    let mut cache = AtlasCache::new(30, 30);
    cache.queue(key(1), 20, 10);
    cache.queue(key(2), 20, 10);
    let regions = cache.flush();
    assert_eq!(regions.len(), 2);
    assert_eq!(regions[0].rect, AtlasRect { x: 0, y: 0, w: 20, h: 10 });
    assert_eq!(regions[1].rect, AtlasRect { x: 0, y: 10, w: 20, h: 10 });
}

#[test]
fn too_wide_glyph_is_dropped() {
    let mut cache = AtlasCache::new(10, 10);
    cache.queue(key(1), 20, 5);
    let regions = cache.flush();
    assert!(regions.is_empty());
    assert_eq!(cache.rect_for(key(1)), None);
}

#[test]
fn vertical_overflow_drops_only_excess() {
    let mut cache = AtlasCache::new(30, 15);
    cache.queue(key(1), 20, 10);
    cache.queue(key(2), 20, 10);
    let regions = cache.flush();
    assert_eq!(regions.len(), 1);
    assert_eq!(regions[0].key, key(1));
    assert_eq!(cache.rect_for(key(1)), Some(AtlasRect { x: 0, y: 0, w: 20, h: 10 }));
    // The glyph that could not be packed is simply omitted.
    assert_eq!(cache.rect_for(key(2)), None);
}

#[test]
fn dropped_glyph_can_be_queued_again() {
    let mut cache = AtlasCache::new(30, 15);
    cache.queue(key(1), 20, 10);
    cache.queue(key(2), 20, 10);
    cache.flush();
    assert_eq!(cache.rect_for(key(2)), None);
    cache.queue(key(2), 5, 5);
    let regions = cache.flush();
    assert_eq!(regions.len(), 1);
    assert_eq!(regions[0].rect, AtlasRect { x: 20, y: 0, w: 5, h: 5 });
}
