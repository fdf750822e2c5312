//! The glyph atlas cache: a fixed-dimension pixel grid and a mapping from
//! glyph keys to sub-rectangles, filled by shelf packing.
//!
//! `queue` marks a glyph for rasterization unless its key is already
//! present; `flush` assigns every queued glyph a sub-rectangle (left to
//! right along a row, then a new row) and reports each newly placed region
//! exactly once, so the host can rasterize it and mirror it into GPU
//! texture memory; glyphs that cannot be packed are dropped from the cache
//! and simply omitted from the frame. `rect_for` returns the rectangle of
//! a resident glyph.

use vstd::prelude::*;

verus! {

/// Cache key of a rasterized glyph: the font, the scale, and the glyph.
#[derive(Clone, Copy, PartialEq, Eq, Structural, Debug)]
pub struct GlyphKey {
    pub font_id: u32,
    pub scale: u32,
    pub glyph_id: u32,
}

/// A sub-rectangle of the atlas, in atlas pixel coordinates.
#[derive(Clone, Copy, PartialEq, Eq, Structural, Debug)]
pub struct AtlasRect {
    pub x: u32,
    pub y: u32,
    pub w: u32,
    pub h: u32,
}

/// Mathematical mirror of `AtlasRect`.
pub ghost struct RectV {
    pub x: int,
    pub y: int,
    pub w: int,
    pub h: int,
}

impl DeepView for AtlasRect {
    type V = RectV;

    open spec fn deep_view(&self) -> RectV {
        RectV { x: self.x as int, y: self.y as int, w: self.w as int, h: self.h as int }
    }
}

/// The state of one cache entry: still waiting to be rasterized, or
/// resident at a fixed atlas rectangle with valid pixel data.
#[derive(Clone, Copy, PartialEq, Eq, Structural, Debug)]
pub enum SlotState {
    Queued,
    Resident(AtlasRect),
}

/// Mathematical mirror of `SlotState`.
pub ghost enum SlotStateV {
    Queued,
    Resident(RectV),
}

impl DeepView for SlotState {
    type V = SlotStateV;

    open spec fn deep_view(&self) -> SlotStateV {
        match self {
            SlotState::Queued => SlotStateV::Queued,
            SlotState::Resident(r) => SlotStateV::Resident(r.deep_view()),
        }
    }
}

/// One cache entry: a key, the glyph's bitmap dimensions, and its state.
#[derive(Clone, Copy, PartialEq, Eq, Structural, Debug)]
pub struct AtlasSlot {
    pub key: GlyphKey,
    pub w: u32,
    pub h: u32,
    pub state: SlotState,
}

/// Mathematical mirror of `AtlasSlot`.
pub ghost struct SlotV {
    pub key: GlyphKey,
    pub w: int,
    pub h: int,
    pub state: SlotStateV,
}

impl DeepView for AtlasSlot {
    type V = SlotV;

    open spec fn deep_view(&self) -> SlotV {
        SlotV {
            key: self.key,
            w: self.w as int,
            h: self.h as int,
            state: self.state.deep_view(),
        }
    }
}

/// One region newly written by a flush: the glyph and where its bitmap now
/// lives in the atlas.
#[derive(Clone, Copy, PartialEq, Eq, Structural, Debug)]
pub struct FlushRegion {
    pub key: GlyphKey,
    pub rect: AtlasRect,
}

/// Mathematical mirror of `FlushRegion`.
pub ghost struct RegionV {
    pub key: GlyphKey,
    pub rect: RectV,
}

impl DeepView for FlushRegion {
    type V = RegionV;

    open spec fn deep_view(&self) -> RegionV {
        RegionV { key: self.key, rect: self.rect.deep_view() }
    }
}

/// The shelf-packing cursor: the next free position in the current row and
/// the height of the tallest glyph placed in it.
#[derive(Clone, Copy, PartialEq, Eq, Structural, Debug)]
struct Packer {
    next_x: u32,
    next_y: u32,
    row_h: u32,
}

/// Mathematical mirror of the shelf-packing cursor.
pub ghost struct PackerV {
    pub next_x: int,
    pub next_y: int,
    pub row_h: int,
}

impl View for Packer {
    type V = PackerV;

    closed spec fn view(&self) -> PackerV {
        PackerV { next_x: self.next_x as int, next_y: self.next_y as int, row_h: self.row_h as int }
    }
}

/// First slot with the given key, if any.
pub open spec fn find_slot(slots: Seq<SlotV>, key: GlyphKey) -> Option<SlotV>
    decreases slots.len(),
{
    if slots.len() == 0 {
        None
    } else if slots[0].key == key {
        Some(slots[0])
    } else {
        find_slot(slots.drop_first(), key)
    }
}

/// Whether any slot carries the given key.
pub open spec fn has_key(slots: Seq<SlotV>, key: GlyphKey) -> bool {
    find_slot(slots, key) is Some
}

/// The slots after queuing one glyph: unchanged when the key is already
/// present (queued or resident), otherwise extended by one queued slot.
pub open spec fn queue_spec(slots: Seq<SlotV>, key: GlyphKey, w: int, h: int) -> Seq<SlotV> {
    if has_key(slots, key) {
        slots
    } else {
        slots.push(SlotV { key, w, h, state: SlotStateV::Queued })
    }
}

/// The atlas rectangle of a resident glyph; nothing for a key that was
/// never queued or whose glyph is not yet (or could not be) rasterized.
pub open spec fn rect_for_spec(slots: Seq<SlotV>, key: GlyphKey) -> Option<RectV> {
    match find_slot(slots, key) {
        Some(s) => match s.state {
            SlotStateV::Resident(r) => Some(r),
            SlotStateV::Queued => None,
        },
        None => None,
    }
}

/// Well-formed packing cursor for an atlas of the given dimensions.
pub open spec fn pack_wf(aw: int, ah: int, p: PackerV) -> bool {
    &&& 0 <= p.next_x <= aw
    &&& 0 <= p.next_y
    &&& 0 <= p.row_h
    &&& p.next_y + p.row_h <= ah
}

/// A rectangle that lies entirely inside an atlas of the given dimensions.
pub open spec fn rect_in_bounds(aw: int, ah: int, r: RectV) -> bool {
    &&& 0 <= r.x
    &&& 0 <= r.y
    &&& 0 <= r.w
    &&& 0 <= r.h
    &&& r.x + r.w <= aw
    &&& r.y + r.h <= ah
}

/// Well-formed slots: nonnegative dimensions, and every resident slot holds
/// an in-bounds rectangle of exactly its glyph's dimensions.
pub open spec fn slots_wf(aw: int, ah: int, slots: Seq<SlotV>) -> bool {
    forall|i: int|
        0 <= i < slots.len() ==> {
            let s = #[trigger] slots[i];
            &&& 0 <= s.w
            &&& 0 <= s.h
            &&& match s.state {
                SlotStateV::Resident(r) => rect_in_bounds(aw, ah, r) && r.w == s.w && r.h == s.h,
                SlotStateV::Queued => true,
            }
        }
}

/// Where shelf packing places a `w` by `h` bitmap: at the cursor if the row
/// still has room, else at the start of the next row; nothing if the bitmap
/// cannot fit, in which case the cursor does not move.
pub open spec fn place_spec(aw: int, ah: int, p: PackerV, w: int, h: int) -> Option<
    (RectV, PackerV),
> {
    let q = if p.next_x + w > aw {
        PackerV { next_x: 0, next_y: p.next_y + p.row_h, row_h: 0 }
    } else {
        p
    };
    if w > aw || q.next_y + h > ah {
        None
    } else {
        Some(
            (
                RectV { x: q.next_x, y: q.next_y, w, h },
                PackerV {
                    next_x: q.next_x + w,
                    next_y: q.next_y,
                    row_h: if q.row_h < h {
                        h
                    } else {
                        q.row_h
                    },
                },
            ),
        )
    }
}

/// A rectangle that lies in the region the packing cursor has consumed: in
/// a completed row, or in the current row left of the cursor. Every
/// resident rectangle stays behind the cursor, which is why a later flush
/// can never write over it.
pub open spec fn behind_cursor(p: PackerV, r: RectV) -> bool {
    ||| r.y + r.h <= p.next_y
    ||| (r.y == p.next_y && r.h <= p.row_h && r.x + r.w <= p.next_x)
}

/// Every resident slot's rectangle lies behind the packing cursor.
pub open spec fn slots_behind(p: PackerV, slots: Seq<SlotV>) -> bool {
    forall|i: int|
        0 <= i < slots.len() ==> match (#[trigger] slots[i]).state {
            SlotStateV::Resident(r) => behind_cursor(p, r),
            SlotStateV::Queued => true,
        }
}

/// Two rectangles that share no pixel.
pub open spec fn disjoint_rects(a: RectV, b: RectV) -> bool {
    ||| a.x + a.w <= b.x
    ||| b.x + b.w <= a.x
    ||| a.y + a.h <= b.y
    ||| b.y + b.h <= a.y
}

/// The rectangle of a resident slot.
pub open spec fn slot_rect(s: SlotV) -> RectV {
    match s.state {
        SlotStateV::Resident(r) => r,
        SlotStateV::Queued => RectV { x: 0, y: 0, w: 0, h: 0 },
    }
}

/// The resident slots' rectangles are pairwise disjoint: each glyph's
/// pixels are written to a region no other glyph's rectangle touches.
pub open spec fn resident_disjoint(slots: Seq<SlotV>) -> bool {
    forall|i: int, j: int|
        0 <= i < slots.len() && 0 <= j < slots.len() && i != j && (#[trigger] slots[i]).state
            is Resident && (#[trigger] slots[j]).state is Resident ==> disjoint_rects(
            slot_rect(slots[i]),
            slot_rect(slots[j]),
        )
}

/// The cache after one flush: every queued slot that fits becomes resident
/// at the rectangle shelf packing assigns it, every queued slot that does
/// not fit is dropped, resident slots are untouched; the middle component
/// lists exactly the newly written regions, in slot order.
pub open spec fn flush_spec(aw: int, ah: int, p: PackerV, slots: Seq<SlotV>) -> (
    Seq<SlotV>,
    Seq<RegionV>,
    PackerV,
)
    decreases slots.len(),
{
    if slots.len() == 0 {
        (Seq::empty(), Seq::empty(), p)
    } else {
        let s = slots[0];
        match s.state {
            SlotStateV::Resident(_) => {
                let r = flush_spec(aw, ah, p, slots.drop_first());
                (seq![s] + r.0, r.1, r.2)
            },
            SlotStateV::Queued => match place_spec(aw, ah, p, s.w, s.h) {
                Some(pr) => {
                    let r = flush_spec(aw, ah, pr.1, slots.drop_first());
                    (
                        seq![SlotV { key: s.key, w: s.w, h: s.h, state: SlotStateV::Resident(pr.0) }]
                            + r.0,
                        seq![RegionV { key: s.key, rect: pr.0 }] + r.1,
                        r.2,
                    )
                },
                None => flush_spec(aw, ah, p, slots.drop_first()),
            },
        }
    }
}

proof fn lemma_place_props(aw: int, ah: int, p: PackerV, w: int, h: int)
    requires
        pack_wf(aw, ah, p),
        0 <= w,
        0 <= h,
    ensures
        match place_spec(aw, ah, p, w, h) {
            Some(pr) => {
                &&& rect_in_bounds(aw, ah, pr.0)
                &&& pack_wf(aw, ah, pr.1)
                &&& pr.0.w == w
                &&& pr.0.h == h
            },
            None => true,
        },
{
}

/// Flushing preserves well-formedness, and every region it reports lies
/// entirely inside the atlas, with its slot's dimensions.
pub proof fn lemma_flush_wf(aw: int, ah: int, p: PackerV, slots: Seq<SlotV>)
    requires
        pack_wf(aw, ah, p),
        slots_wf(aw, ah, slots),
    ensures
        slots_wf(aw, ah, flush_spec(aw, ah, p, slots).0),
        pack_wf(aw, ah, flush_spec(aw, ah, p, slots).2),
        forall|i: int|
            0 <= i < flush_spec(aw, ah, p, slots).1.len() ==> rect_in_bounds(
                aw,
                ah,
                (#[trigger] flush_spec(aw, ah, p, slots).1[i]).rect,
            ),
    decreases slots.len(),
{
    if slots.len() > 0 {
        let s = slots[0];
        let rest = slots.drop_first();
        assert(slots_wf(aw, ah, rest)) by {
            assert forall|i: int| 0 <= i < rest.len() implies {
                let t = #[trigger] rest[i];
                &&& 0 <= t.w
                &&& 0 <= t.h
                &&& match t.state {
                    SlotStateV::Resident(r) => rect_in_bounds(aw, ah, r) && r.w == t.w && r.h
                        == t.h,
                    SlotStateV::Queued => true,
                }
            } by {
                assert(rest[i] == slots[i + 1]);
            }
        }
        match s.state {
            SlotStateV::Resident(_) => {
                lemma_flush_wf(aw, ah, p, rest);
            },
            SlotStateV::Queued => {
                lemma_place_props(aw, ah, p, s.w, s.h);
                match place_spec(aw, ah, p, s.w, s.h) {
                    Some(pr) => {
                        lemma_flush_wf(aw, ah, pr.1, rest);
                    },
                    None => {
                        lemma_flush_wf(aw, ah, p, rest);
                    },
                }
            },
        }
    }
}

proof fn lemma_place_step(aw: int, ah: int, p: PackerV, w: int, h: int)
    requires
        pack_wf(aw, ah, p),
        0 <= w,
        0 <= h,
    ensures
        match place_spec(aw, ah, p, w, h) {
            Some(pr) => {
                &&& pack_wf(aw, ah, pr.1)
                &&& behind_cursor(pr.1, pr.0)
                &&& forall|r0: RectV| behind_cursor(p, r0) ==> behind_cursor(pr.1, r0)
                &&& forall|r0: RectV| behind_cursor(p, r0) ==> disjoint_rects(r0, pr.0)
            },
            None => true,
        },
{
}

proof fn lemma_tail_props(aw: int, ah: int, p: PackerV, slots: Seq<SlotV>)
    requires
        slots.len() > 0,
    ensures
        slots_wf(aw, ah, slots) ==> slots_wf(aw, ah, slots.drop_first()),
        slots_behind(p, slots) ==> slots_behind(p, slots.drop_first()),
        resident_disjoint(slots) ==> resident_disjoint(slots.drop_first()),
{
    let rest = slots.drop_first();
    assert(forall|i: int| 0 <= i < rest.len() ==> #[trigger] rest[i] == slots[i + 1]);
}

proof fn lemma_flush_cursor_mono(aw: int, ah: int, p: PackerV, slots: Seq<SlotV>, r0: RectV)
    requires
        pack_wf(aw, ah, p),
        slots_wf(aw, ah, slots),
        behind_cursor(p, r0),
    ensures
        behind_cursor(flush_spec(aw, ah, p, slots).2, r0),
        pack_wf(aw, ah, flush_spec(aw, ah, p, slots).2),
    decreases slots.len(),
{
    if slots.len() > 0 {
        let s = slots[0];
        let rest = slots.drop_first();
        lemma_tail_props(aw, ah, p, slots);
        match s.state {
            SlotStateV::Resident(_) => {
                lemma_flush_cursor_mono(aw, ah, p, rest, r0);
            },
            SlotStateV::Queued => {
                lemma_place_step(aw, ah, p, s.w, s.h);
                match place_spec(aw, ah, p, s.w, s.h) {
                    Some(pr) => {
                        lemma_flush_cursor_mono(aw, ah, pr.1, rest, r0);
                    },
                    None => {
                        lemma_flush_cursor_mono(aw, ah, p, rest, r0);
                    },
                }
            },
        }
    }
}

proof fn lemma_flush_keeps_disjoint_from(
    aw: int,
    ah: int,
    p: PackerV,
    slots: Seq<SlotV>,
    r0: RectV,
)
    requires
        pack_wf(aw, ah, p),
        slots_wf(aw, ah, slots),
        behind_cursor(p, r0),
        forall|i: int|
            0 <= i < slots.len() && (#[trigger] slots[i]).state is Resident ==> disjoint_rects(
                slot_rect(slots[i]),
                r0,
            ),
    ensures
        forall|i: int|
            0 <= i < flush_spec(aw, ah, p, slots).0.len() && (#[trigger] flush_spec(
                aw,
                ah,
                p,
                slots,
            ).0[i]).state is Resident ==> disjoint_rects(
                slot_rect(flush_spec(aw, ah, p, slots).0[i]),
                r0,
            ),
    decreases slots.len(),
{
    if slots.len() > 0 {
        let s = slots[0];
        let rest = slots.drop_first();
        lemma_tail_props(aw, ah, p, slots);
        assert(forall|i: int| 0 <= i < rest.len() ==> #[trigger] rest[i] == slots[i + 1]);
        match s.state {
            SlotStateV::Resident(_) => {
                lemma_flush_keeps_disjoint_from(aw, ah, p, rest, r0);
                let out = flush_spec(aw, ah, p, slots).0;
                let rout = flush_spec(aw, ah, p, rest).0;
                assert(forall|i: int| 1 <= i < out.len() ==> #[trigger] out[i] == rout[i - 1]);
            },
            SlotStateV::Queued => {
                lemma_place_step(aw, ah, p, s.w, s.h);
                match place_spec(aw, ah, p, s.w, s.h) {
                    Some(pr) => {
                        lemma_flush_keeps_disjoint_from(aw, ah, pr.1, rest, r0);
                        let out = flush_spec(aw, ah, p, slots).0;
                        let rout = flush_spec(aw, ah, pr.1, rest).0;
                        assert(forall|i: int|
                            1 <= i < out.len() ==> #[trigger] out[i] == rout[i - 1]);
                        assert(disjoint_rects(r0, pr.0));
                        assert(disjoint_rects(pr.0, r0));
                    },
                    None => {
                        lemma_flush_keeps_disjoint_from(aw, ah, p, rest, r0);
                    },
                }
            },
        }
    }
}

/// Law: a flush never writes over a glyph already resident in the atlas,
/// and never assigns overlapping rectangles: after flushing a cache whose
/// resident rectangles lie behind the packing cursor and are pairwise
/// disjoint, they still are — every glyph's pixels stay valid until the
/// glyph itself is dropped.
pub proof fn lemma_flush_disjoint(aw: int, ah: int, p: PackerV, slots: Seq<SlotV>)
    requires
        pack_wf(aw, ah, p),
        slots_wf(aw, ah, slots),
        slots_behind(p, slots),
        resident_disjoint(slots),
    ensures
        resident_disjoint(flush_spec(aw, ah, p, slots).0),
        slots_behind(flush_spec(aw, ah, p, slots).2, flush_spec(aw, ah, p, slots).0),
        pack_wf(aw, ah, flush_spec(aw, ah, p, slots).2),
    decreases slots.len(),
{
    if slots.len() > 0 {
        let s = slots[0];
        let rest = slots.drop_first();
        lemma_tail_props(aw, ah, p, slots);
        assert(forall|i: int| 0 <= i < rest.len() ==> #[trigger] rest[i] == slots[i + 1]);
        match s.state {
            SlotStateV::Resident(r) => {
                lemma_flush_disjoint(aw, ah, p, rest);
                assert(behind_cursor(p, r));
                lemma_flush_cursor_mono(aw, ah, p, rest, r);
                assert(forall|i: int|
                    0 <= i < rest.len() && (#[trigger] rest[i]).state is Resident
                        ==> disjoint_rects(slot_rect(rest[i]), r));
                lemma_flush_keeps_disjoint_from(aw, ah, p, rest, r);
                let out = flush_spec(aw, ah, p, slots).0;
                let rout = flush_spec(aw, ah, p, rest).0;
                assert(out[0] == s);
                assert(forall|i: int| 1 <= i < out.len() ==> #[trigger] out[i] == rout[i - 1]);
            },
            SlotStateV::Queued => {
                lemma_place_step(aw, ah, p, s.w, s.h);
                match place_spec(aw, ah, p, s.w, s.h) {
                    Some(pr) => {
                        assert(slots_behind(pr.1, rest));
                        lemma_flush_disjoint(aw, ah, pr.1, rest);
                        lemma_flush_cursor_mono(aw, ah, pr.1, rest, pr.0);
                        assert(forall|i: int|
                            0 <= i < rest.len() && (#[trigger] rest[i]).state is Resident
                                ==> disjoint_rects(slot_rect(rest[i]), pr.0));
                        lemma_flush_keeps_disjoint_from(aw, ah, pr.1, rest, pr.0);
                        let out = flush_spec(aw, ah, p, slots).0;
                        let rout = flush_spec(aw, ah, pr.1, rest).0;
                        assert(slot_rect(out[0]) == pr.0);
                        assert(forall|i: int|
                            1 <= i < out.len() ==> #[trigger] out[i] == rout[i - 1]);
                    },
                    None => {
                        lemma_flush_disjoint(aw, ah, p, rest);
                    },
                }
            },
        }
    }
}

/// Law: after a flush, every slot still in the cache is resident — nothing
/// remains queued.
pub proof fn lemma_flush_all_resident(aw: int, ah: int, p: PackerV, slots: Seq<SlotV>)
    ensures
        forall|i: int|
            0 <= i < flush_spec(aw, ah, p, slots).0.len() ==> (#[trigger] flush_spec(
                aw,
                ah,
                p,
                slots,
            ).0[i]).state is Resident,
    decreases slots.len(),
{
    if slots.len() > 0 {
        let s = slots[0];
        let rest = slots.drop_first();
        match s.state {
            SlotStateV::Resident(_) => {
                lemma_flush_all_resident(aw, ah, p, rest);
            },
            SlotStateV::Queued => match place_spec(aw, ah, p, s.w, s.h) {
                Some(pr) => {
                    lemma_flush_all_resident(aw, ah, pr.1, rest);
                },
                None => {
                    lemma_flush_all_resident(aw, ah, p, rest);
                },
            },
        }
    }
}

/// Law: flushing a cache whose slots are all resident writes nothing and
/// changes nothing.
pub proof fn lemma_flush_resident_noop(aw: int, ah: int, p: PackerV, slots: Seq<SlotV>)
    requires
        forall|i: int| 0 <= i < slots.len() ==> (#[trigger] slots[i]).state is Resident,
    ensures
        flush_spec(aw, ah, p, slots).0 == slots,
        flush_spec(aw, ah, p, slots).1 == Seq::<RegionV>::empty(),
        flush_spec(aw, ah, p, slots).2 == p,
    decreases slots.len(),
{
    if slots.len() == 0 {
        assert(flush_spec(aw, ah, p, slots).0 =~= slots);
    } else {
        let s = slots[0];
        let rest = slots.drop_first();
        assert(s.state is Resident);
        assert forall|i: int| 0 <= i < rest.len() implies (#[trigger] rest[i]).state
            is Resident by {
            assert(rest[i] == slots[i + 1]);
        }
        lemma_flush_resident_noop(aw, ah, p, rest);
        assert(seq![s] + rest =~= slots);
    }
}

/// Law: a second flush over the same glyph set is a no-op. The first flush
/// leaves every remaining slot resident, so re-queuing those glyphs changes
/// nothing (`queue_spec` of a present key is the identity) and the second
/// flush writes no region: each atlas sub-rectangle is written exactly once.
pub proof fn lemma_flush_twice(aw: int, ah: int, p: PackerV, slots: Seq<SlotV>)
    ensures
        flush_spec(aw, ah, flush_spec(aw, ah, p, slots).2, flush_spec(aw, ah, p, slots).0).0
            == flush_spec(aw, ah, p, slots).0,
        flush_spec(aw, ah, flush_spec(aw, ah, p, slots).2, flush_spec(aw, ah, p, slots).0).1
            == Seq::<RegionV>::empty(),
        flush_spec(aw, ah, flush_spec(aw, ah, p, slots).2, flush_spec(aw, ah, p, slots).0).2
            == flush_spec(aw, ah, p, slots).2,
{
    lemma_flush_all_resident(aw, ah, p, slots);
    lemma_flush_resident_noop(
        aw,
        ah,
        flush_spec(aw, ah, p, slots).2,
        flush_spec(aw, ah, p, slots).0,
    );
}

/// Law: queuing a glyph whose key is already in the cache — queued or
/// resident — changes nothing.
pub proof fn lemma_requeue_noop(slots: Seq<SlotV>, key: GlyphKey, w: int, h: int)
    requires
        has_key(slots, key),
    ensures
        queue_spec(slots, key, w, h) == slots,
{
}

/// Law: `rect_for` finds nothing for a key that was never queued.
pub proof fn lemma_rect_for_unknown(slots: Seq<SlotV>, key: GlyphKey)
    requires
        !has_key(slots, key),
    ensures
        rect_for_spec(slots, key) is None,
{
}

proof fn lemma_find_slot_member(slots: Seq<SlotV>, key: GlyphKey)
    ensures
        match find_slot(slots, key) {
            Some(s) => exists|i: int| 0 <= i < slots.len() && slots[i] == s,
            None => true,
        },
    decreases slots.len(),
{
    if slots.len() > 0 {
        if slots[0].key == key {
            assert(slots[0] == find_slot(slots, key).unwrap());
        } else {
            lemma_find_slot_member(slots.drop_first(), key);
            match find_slot(slots.drop_first(), key) {
                Some(s) => {
                    let j = choose|j: int|
                        0 <= j < slots.drop_first().len() && slots.drop_first()[j] == s;
                    assert(slots[j + 1] == s);
                },
                None => (),
            }
        }
    }
}

/// In a well-formed cache, the rectangle of any resident glyph lies inside
/// the atlas, with the dimensions the glyph was queued with.
pub proof fn lemma_rect_for_in_bounds(aw: int, ah: int, slots: Seq<SlotV>, key: GlyphKey)
    requires
        slots_wf(aw, ah, slots),
    ensures
        match rect_for_spec(slots, key) {
            Some(r) => rect_in_bounds(aw, ah, r),
            None => true,
        },
{
    lemma_find_slot_member(slots, key);
}

fn place_glyph(width: u32, height: u32, p: &mut Packer, w: u32, h: u32) -> (r: Option<AtlasRect>)
    requires
        pack_wf(width as int, height as int, old(p)@),
    ensures
        match place_spec(width as int, height as int, old(p)@, w as int, h as int) {
            Some(pr) => {
                &&& r is Some
                &&& r.unwrap().deep_view() == pr.0
                &&& final(p)@ == pr.1
            },
            None => r is None && final(p)@ == old(p)@,
        },
{
    let mut q = *p;
    if (q.next_x as u64) + (w as u64) > (width as u64) {
        q = Packer { next_x: 0, next_y: q.next_y + q.row_h, row_h: 0 };
    }
    if w > width || (q.next_y as u64) + (h as u64) > (height as u64) {
        return None;
    }
    let rect = AtlasRect { x: q.next_x, y: q.next_y, w, h };
    *p = Packer {
        next_x: q.next_x + w,
        next_y: q.next_y,
        row_h: if q.row_h < h {
            h
        } else {
            q.row_h
        },
    };
    Some(rect)
}

/// The glyph atlas cache: fixed pixel dimensions chosen at session start,
/// and one slot per queued glyph key.
pub struct AtlasCache {
    width: u32,
    height: u32,
    slots: Vec<AtlasSlot>,
    pack: Packer,
}

impl AtlasCache {
    /// The atlas width in pixels.
    pub closed spec fn width_spec(&self) -> int {
        self.width as int
    }

    /// The atlas height in pixels.
    pub closed spec fn height_spec(&self) -> int {
        self.height as int
    }

    /// The cache's slots, in insertion order.
    pub closed spec fn slots_view(&self) -> Seq<SlotV> {
        self.slots.deep_view()
    }

    /// The cache's shelf-packing cursor.
    pub closed spec fn pack_view(&self) -> PackerV {
        self.pack@
    }

    /// Well-formed cache: the packing cursor and every resident rectangle
    /// lie inside the atlas.
    pub open spec fn wf(&self) -> bool {
        &&& 0 <= self.width_spec() <= u32::MAX
        &&& 0 <= self.height_spec() <= u32::MAX
        &&& pack_wf(self.width_spec(), self.height_spec(), self.pack_view())
        &&& slots_wf(self.width_spec(), self.height_spec(), self.slots_view())
        &&& slots_behind(self.pack_view(), self.slots_view())
        &&& resident_disjoint(self.slots_view())
    }

    /// Creates an empty cache for an atlas of the given fixed dimensions.
    pub fn new(width: u32, height: u32) -> (r: AtlasCache)
        ensures
            r.wf(),
            r.width_spec() == width as int,
            r.height_spec() == height as int,
            r.slots_view() == Seq::<SlotV>::empty(),
            r.pack_view() == (PackerV { next_x: 0, next_y: 0, row_h: 0 }),
    {
        let r = AtlasCache {
            width,
            height,
            slots: Vec::new(),
            pack: Packer { next_x: 0, next_y: 0, row_h: 0 },
        };
        proof {
            assert(r.slots_view() =~= Seq::<SlotV>::empty());
        }
        r
    }

    fn find_index(&self, key: GlyphKey) -> (r: Option<usize>)
        ensures
            match r {
                Some(i) => {
                    &&& i < self.slots_view().len()
                    &&& find_slot(self.slots_view(), key) == Some(self.slots_view()[i as int])
                    &&& self.slots_view()[i as int].key == key
                },
                None => find_slot(self.slots_view(), key) is None,
            },
    {
        let ghost slots = self.slots_view();
        proof {
            assert(slots.skip(0) =~= slots);
        }
        let n = self.slots.len();
        let mut i: usize = 0;
        while i < n
            invariant
                n == self.slots.len(),
                slots == self.slots_view(),
                i <= n,
                find_slot(slots, key) == find_slot(slots.skip(i as int), key),
            decreases n - i,
        {
            let e = self.slots[i];
            if e.key.font_id == key.font_id && e.key.scale == key.scale && e.key.glyph_id
                == key.glyph_id {
                proof {
                    assert(slots.skip(i as int)[0] == slots[i as int]);
                }
                return Some(i);
            }
            proof {
                assert(slots.skip(i as int)[0] == slots[i as int]);
                assert(slots.skip(i as int).drop_first() =~= slots.skip(i as int + 1));
            }
            i += 1;
        }
        proof {
            assert(slots.skip(n as int) =~= Seq::<SlotV>::empty());
        }
        None
    }

    /// Marks a glyph for rasterization unless its key is already cached;
    /// queuing an already-present glyph is a no-op.
    pub fn queue(&mut self, key: GlyphKey, w: u32, h: u32)
        requires
            old(self).wf(),
        ensures
            final(self).wf(),
            final(self).width_spec() == old(self).width_spec(),
            final(self).height_spec() == old(self).height_spec(),
            final(self).pack_view() == old(self).pack_view(),
            final(self).slots_view() == queue_spec(
                old(self).slots_view(),
                key,
                w as int,
                h as int,
            ),
    {
        let ghost before = self.slots_view();
        match self.find_index(key) {
            Some(_) => (),
            None => {
                let slot = AtlasSlot { key, w, h, state: SlotState::Queued };
                self.slots.push(slot);
                proof {
                    assert(self.slots_view() =~= before.push(slot.deep_view()));
                    assert forall|i: int| 0 <= i < self.slots_view().len() implies {
                        let s = #[trigger] self.slots_view()[i];
                        &&& 0 <= s.w
                        &&& 0 <= s.h
                        &&& match s.state {
                            SlotStateV::Resident(r) => rect_in_bounds(
                                self.width_spec(),
                                self.height_spec(),
                                r,
                            ) && r.w == s.w && r.h == s.h,
                            SlotStateV::Queued => true,
                        }
                    } by {
                        if i < before.len() {
                            assert(self.slots_view()[i] == before[i]);
                        }
                    }
                    assert(forall|i: int|
                        0 <= i < before.len() ==> #[trigger] self.slots_view()[i] == before[i]);
                }
            },
        }
    }

    /// The atlas rectangle of a resident glyph, or nothing for a glyph
    /// never queued, not yet flushed, or dropped for want of atlas space.
    pub fn rect_for(&self, key: GlyphKey) -> (r: Option<AtlasRect>)
        requires
            self.wf(),
        ensures
            r.deep_view() == rect_for_spec(self.slots_view(), key),
    {
        match self.find_index(key) {
            Some(i) => match self.slots[i].state {
                SlotState::Resident(rect) => Some(rect),
                SlotState::Queued => None,
            },
            None => None,
        }
    }

    /// Rasterization pass for one frame: assigns every queued glyph its
    /// atlas sub-rectangle by shelf packing and reports each newly written
    /// region exactly once (in slot order), so the caller can rasterize
    /// those glyphs and mirror the regions into the GPU texture. Queued
    /// glyphs that cannot be packed are dropped from the cache. Already
    /// resident glyphs are untouched, so a second flush over the same
    /// glyph set reports nothing.
    pub fn flush(&mut self) -> (regions: Vec<FlushRegion>)
        requires
            old(self).wf(),
        ensures
            final(self).wf(),
            final(self).width_spec() == old(self).width_spec(),
            final(self).height_spec() == old(self).height_spec(),
            final(self).slots_view() == flush_spec(
                old(self).width_spec(),
                old(self).height_spec(),
                old(self).pack_view(),
                old(self).slots_view(),
            ).0,
            regions.deep_view() == flush_spec(
                old(self).width_spec(),
                old(self).height_spec(),
                old(self).pack_view(),
                old(self).slots_view(),
            ).1,
            final(self).pack_view() == flush_spec(
                old(self).width_spec(),
                old(self).height_spec(),
                old(self).pack_view(),
                old(self).slots_view(),
            ).2,
    {
        let ghost aw = self.width_spec();
        let ghost ah = self.height_spec();
        let ghost slots0 = self.slots_view();
        let ghost p0 = self.pack_view();
        let ghost full = flush_spec(aw, ah, p0, slots0);
        let mut new_slots: Vec<AtlasSlot> = Vec::new();
        let mut regions: Vec<FlushRegion> = Vec::new();
        let mut pack = self.pack;
        let n = self.slots.len();
        let mut i: usize = 0;
        proof {
            assert(slots0.skip(0) =~= slots0);
            assert(new_slots.deep_view() =~= Seq::<SlotV>::empty());
            assert(regions.deep_view() =~= Seq::<RegionV>::empty());
        }
        while i < n
            invariant
                n == self.slots.len(),
                slots0 == self.slots_view(),
                aw == self.width_spec(),
                ah == self.height_spec(),
                full == flush_spec(aw, ah, p0, slots0),
                i <= n,
                pack_wf(aw, ah, pack@),
                slots_wf(aw, ah, slots0),
                slots_wf(aw, ah, new_slots.deep_view()),
                full.0 == new_slots.deep_view() + flush_spec(aw, ah, pack@, slots0.skip(
                    i as int,
                )).0,
                full.1 == regions.deep_view() + flush_spec(aw, ah, pack@, slots0.skip(
                    i as int,
                )).1,
                full.2 == flush_spec(aw, ah, pack@, slots0.skip(i as int)).2,
            decreases n - i,
        {
            let ghost rem = flush_spec(aw, ah, pack@, slots0.skip(i as int));
            let s = self.slots[i];
            proof {
                assert(slots0.skip(i as int)[0] == slots0[i as int]);
                assert(slots0.skip(i as int).drop_first() =~= slots0.skip(i as int + 1));
            }
            match s.state {
                SlotState::Resident(_) => {
                    let ghost ns_before = new_slots.deep_view();
                    new_slots.push(s);
                    proof {
                        assert(new_slots.deep_view() =~= ns_before.push(s.deep_view()));
                        assert(full.0 =~= new_slots.deep_view() + flush_spec(
                            aw,
                            ah,
                            pack@,
                            slots0.skip(i as int + 1),
                        ).0);
                        assert forall|j: int| 0 <= j < new_slots.deep_view().len() implies {
                            let t = #[trigger] new_slots.deep_view()[j];
                            &&& 0 <= t.w
                            &&& 0 <= t.h
                            &&& match t.state {
                                SlotStateV::Resident(r) => rect_in_bounds(aw, ah, r) && r.w == t.w
                                    && r.h == t.h,
                                SlotStateV::Queued => true,
                            }
                        } by {
                            if j < ns_before.len() {
                                assert(new_slots.deep_view()[j] == ns_before[j]);
                            } else {
                                assert(new_slots.deep_view()[j] == slots0[i as int]);
                            }
                        }
                    }
                },
                SlotState::Queued => {
                    let ghost pack_before = pack@;
                    let placed = place_glyph(self.width, self.height, &mut pack, s.w, s.h);
                    match placed {
                        Some(rect) => {
                            let ghost ns_before = new_slots.deep_view();
                            let ghost rg_before = regions.deep_view();
                            let resident = AtlasSlot {
                                key: s.key,
                                w: s.w,
                                h: s.h,
                                state: SlotState::Resident(rect),
                            };
                            new_slots.push(resident);
                            regions.push(FlushRegion { key: s.key, rect });
                            proof {
                                lemma_place_props(aw, ah, pack_before, s.w as int, s.h as int);
                                assert(new_slots.deep_view() =~= ns_before.push(
                                    resident.deep_view(),
                                ));
                                assert(regions.deep_view() =~= rg_before.push(
                                    RegionV { key: s.key, rect: rect.deep_view() },
                                ));
                                assert(full.0 =~= new_slots.deep_view() + flush_spec(
                                    aw,
                                    ah,
                                    pack@,
                                    slots0.skip(i as int + 1),
                                ).0);
                                assert(full.1 =~= regions.deep_view() + flush_spec(
                                    aw,
                                    ah,
                                    pack@,
                                    slots0.skip(i as int + 1),
                                ).1);
                                assert forall|j: int| 0 <= j < new_slots.deep_view().len() implies {
                                    let t = #[trigger] new_slots.deep_view()[j];
                                    &&& 0 <= t.w
                                    &&& 0 <= t.h
                                    &&& match t.state {
                                        SlotStateV::Resident(r) => rect_in_bounds(aw, ah, r) && r.w
                                            == t.w && r.h == t.h,
                                        SlotStateV::Queued => true,
                                    }
                                } by {
                                    if j < ns_before.len() {
                                        assert(new_slots.deep_view()[j] == ns_before[j]);
                                    }
                                }
                            }
                        },
                        None => (),
                    }
                },
            }
            i += 1;
        }
        proof {
            assert(slots0.skip(n as int) =~= Seq::<SlotV>::empty());
            assert(full.0 =~= new_slots.deep_view());
            assert(full.1 =~= regions.deep_view());
            lemma_flush_disjoint(aw, ah, p0, slots0);
        }
        self.slots = new_slots;
        self.pack = pack;
        regions
    }
}

} // verus!
