//! Integer model of a font at one fixed scale.
//!
//! The layout engine never touches a font file: the host rasterizer measures
//! the font once per scale and fills a `FontModel` with integer pixel
//! metrics (vertical metrics, per-character glyph metrics, kerning pairs).
//! Every metric magnitude is bounded by `MAX_METRIC`, which keeps all layout
//! arithmetic far from overflow.

use vstd::prelude::*;

verus! {

/// Bound on the magnitude of every font metric held in a `FontModel`.
pub const MAX_METRIC: i64 = 0x10_0000;

/// A glyph's pixel bounding box, relative to the caret it is placed at.
#[derive(Clone, Copy, PartialEq, Eq, Structural, Debug)]
pub struct GlyphBounds {
    pub min_x: i64,
    pub min_y: i64,
    pub max_x: i64,
    pub max_y: i64,
}

/// Mathematical mirror of `GlyphBounds`.
pub ghost struct GlyphBoundsV {
    pub min_x: int,
    pub min_y: int,
    pub max_x: int,
    pub max_y: int,
}

impl DeepView for GlyphBounds {
    type V = GlyphBoundsV;

    open spec fn deep_view(&self) -> GlyphBoundsV {
        GlyphBoundsV {
            min_x: self.min_x as int,
            min_y: self.min_y as int,
            max_x: self.max_x as int,
            max_y: self.max_y as int,
        }
    }
}

/// The metrics of one glyph: its identifier in the font, its horizontal
/// advance width, and its pixel bounding box (absent for whitespace).
#[derive(Clone, Copy, PartialEq, Eq, Structural, Debug)]
pub struct GlyphMetrics {
    pub glyph_id: u32,
    pub advance: i64,
    pub bounds: Option<GlyphBounds>,
}

/// Mathematical mirror of `GlyphMetrics`.
pub ghost struct GlyphMetricsV {
    pub glyph_id: u32,
    pub advance: int,
    pub bounds: Option<GlyphBoundsV>,
}

impl DeepView for GlyphMetrics {
    type V = GlyphMetricsV;

    open spec fn deep_view(&self) -> GlyphMetricsV {
        GlyphMetricsV {
            glyph_id: self.glyph_id,
            advance: self.advance as int,
            bounds: match self.bounds {
                Some(b) => Some(b.deep_view()),
                None => None,
            },
        }
    }
}

/// One character of the font together with its glyph metrics.
#[derive(Clone, Copy, PartialEq, Eq, Structural, Debug)]
pub struct CharEntry {
    pub ch: char,
    pub glyph: GlyphMetrics,
}

/// Mathematical mirror of `CharEntry`.
pub ghost struct CharEntryV {
    pub ch: char,
    pub glyph: GlyphMetricsV,
}

impl DeepView for CharEntry {
    type V = CharEntryV;

    open spec fn deep_view(&self) -> CharEntryV {
        CharEntryV { ch: self.ch, glyph: self.glyph.deep_view() }
    }
}

/// The kerning adjustment applied between two adjacent glyphs.
#[derive(Clone, Copy, PartialEq, Eq, Structural, Debug)]
pub struct KernEntry {
    pub left: u32,
    pub right: u32,
    pub amount: i64,
}

/// Mathematical mirror of `KernEntry`.
pub ghost struct KernEntryV {
    pub left: u32,
    pub right: u32,
    pub amount: int,
}

impl DeepView for KernEntry {
    type V = KernEntryV;

    open spec fn deep_view(&self) -> KernEntryV {
        KernEntryV { left: self.left, right: self.right, amount: self.amount as int }
    }
}

/// A font at one fixed scale, reduced to the integer pixel metrics that the
/// layout engine reads. `font_id` and `scale` identify the font in atlas
/// cache keys; `missing` is the glyph used for characters the model does
/// not list.
pub struct FontModel {
    pub font_id: u32,
    pub scale: u32,
    pub ascent: i64,
    pub descent: i64,
    pub line_gap: i64,
    pub missing: GlyphMetrics,
    pub chars: Vec<CharEntry>,
    pub kerning: Vec<KernEntry>,
}

/// Mathematical mirror of `FontModel`.
pub ghost struct FontModelV {
    pub font_id: u32,
    pub scale: u32,
    pub ascent: int,
    pub descent: int,
    pub line_gap: int,
    pub missing: GlyphMetricsV,
    pub chars: Seq<CharEntryV>,
    pub kerning: Seq<KernEntryV>,
}

impl DeepView for FontModel {
    type V = FontModelV;

    open spec fn deep_view(&self) -> FontModelV {
        FontModelV {
            font_id: self.font_id,
            scale: self.scale,
            ascent: self.ascent as int,
            descent: self.descent as int,
            line_gap: self.line_gap as int,
            missing: self.missing.deep_view(),
            chars: self.chars.deep_view(),
            kerning: self.kerning.deep_view(),
        }
    }
}

/// Vertical distance between successive baselines.
pub open spec fn advance_height(f: FontModelV) -> int {
    f.ascent - f.descent + f.line_gap
}

/// First entry for character `c`, if the model lists one.
pub open spec fn find_char(entries: Seq<CharEntryV>, c: char) -> Option<GlyphMetricsV>
    decreases entries.len(),
{
    if entries.len() == 0 {
        None
    } else if entries[0].ch == c {
        Some(entries[0].glyph)
    } else {
        find_char(entries.drop_first(), c)
    }
}

/// The glyph laid out for character `c`: its listed metrics, or the
/// missing-character glyph.
pub open spec fn glyph_for(f: FontModelV, c: char) -> GlyphMetricsV {
    match find_char(f.chars, c) {
        Some(g) => g,
        None => f.missing,
    }
}

/// First kerning entry for the pair `(left, right)`, if any.
pub open spec fn find_kern(entries: Seq<KernEntryV>, left: u32, right: u32) -> Option<int>
    decreases entries.len(),
{
    if entries.len() == 0 {
        None
    } else if entries[0].left == left && entries[0].right == right {
        Some(entries[0].amount)
    } else {
        find_kern(entries.drop_first(), left, right)
    }
}

/// Kerning between two adjacent glyphs; zero for unlisted pairs.
pub open spec fn kern_between(f: FontModelV, left: u32, right: u32) -> int {
    match find_kern(f.kerning, left, right) {
        Some(a) => a,
        None => 0,
    }
}

/// Well-formed glyph metrics: a nonnegative bounded advance, and a bounded
/// nonempty box when one is present.
pub open spec fn glyph_ok(g: GlyphMetricsV) -> bool {
    &&& 0 <= g.advance <= MAX_METRIC
    &&& match g.bounds {
        Some(b) => {
            &&& -MAX_METRIC <= b.min_x <= b.max_x <= MAX_METRIC
            &&& -MAX_METRIC <= b.min_y <= b.max_y <= MAX_METRIC
        },
        None => true,
    }
}

/// Well-formed font model: the vertical metrics have their usual signs and
/// every metric magnitude is bounded by `MAX_METRIC`.
pub open spec fn font_wf(f: FontModelV) -> bool {
    &&& 0 <= f.ascent <= MAX_METRIC
    &&& -MAX_METRIC <= f.descent <= 0
    &&& -MAX_METRIC <= f.line_gap <= MAX_METRIC
    &&& glyph_ok(f.missing)
    &&& forall|i: int| 0 <= i < f.chars.len() ==> glyph_ok(#[trigger] f.chars[i].glyph)
    &&& forall|i: int|
        0 <= i < f.kerning.len() ==> -MAX_METRIC <= (#[trigger] f.kerning[i]).amount <= MAX_METRIC
}

proof fn lemma_find_char_ok(entries: Seq<CharEntryV>, c: char)
    requires
        forall|i: int| 0 <= i < entries.len() ==> glyph_ok(#[trigger] entries[i].glyph),
    ensures
        match find_char(entries, c) {
            Some(g) => glyph_ok(g),
            None => true,
        },
    decreases entries.len(),
{
    if entries.len() > 0 && entries[0].ch != c {
        assert forall|i: int|
            0 <= i < entries.drop_first().len() implies glyph_ok(
            #[trigger] entries.drop_first()[i].glyph,
        ) by {
            assert(entries.drop_first()[i] == entries[i + 1]);
        }
        lemma_find_char_ok(entries.drop_first(), c);
    }
}

/// In a well-formed font, the glyph laid out for any character has
/// well-formed metrics.
pub proof fn lemma_glyph_for_ok(f: FontModelV, c: char)
    requires
        font_wf(f),
    ensures
        glyph_ok(glyph_for(f, c)),
{
    lemma_find_char_ok(f.chars, c);
}

proof fn lemma_find_kern_bounded(entries: Seq<KernEntryV>, left: u32, right: u32)
    requires
        forall|i: int|
            0 <= i < entries.len() ==> -MAX_METRIC <= (#[trigger] entries[i]).amount
                <= MAX_METRIC,
    ensures
        match find_kern(entries, left, right) {
            Some(a) => -MAX_METRIC <= a <= MAX_METRIC,
            None => true,
        },
    decreases entries.len(),
{
    if entries.len() > 0 && !(entries[0].left == left && entries[0].right == right) {
        assert forall|i: int|
            0 <= i < entries.drop_first().len() implies -MAX_METRIC <= (#[trigger] entries
            .drop_first()[i]).amount <= MAX_METRIC by {
            assert(entries.drop_first()[i] == entries[i + 1]);
        }
        lemma_find_kern_bounded(entries.drop_first(), left, right);
    }
}

/// In a well-formed font, every kerning adjustment is bounded by
/// `MAX_METRIC` in magnitude.
pub proof fn lemma_kern_bounded(f: FontModelV, left: u32, right: u32)
    requires
        font_wf(f),
    ensures
        -MAX_METRIC <= kern_between(f, left, right) <= MAX_METRIC,
{
    lemma_find_kern_bounded(f.kerning, left, right);
}

impl FontModel {
    /// Well-formedness of the stored metrics.
    pub open spec fn wf(&self) -> bool {
        font_wf(self.deep_view())
    }

    /// Looks up the glyph laid out for character `c`.
    pub fn glyph_for_char(&self, c: char) -> (g: GlyphMetrics)
        ensures
            g.deep_view() == glyph_for(self.deep_view(), c),
    {
        let ghost entries = self.deep_view().chars;
        proof {
            assert(entries.skip(0) =~= entries);
        }
        let n = self.chars.len();
        let mut i: usize = 0;
        while i < n
            invariant
                n == self.chars.len(),
                entries == self.deep_view().chars,
                i <= n,
                find_char(entries, c) == find_char(entries.skip(i as int), c),
            decreases n - i,
        {
            let e = self.chars[i];
            if e.ch == c {
                assert(entries.skip(i as int)[0] == entries[i as int]);
                return e.glyph;
            }
            proof {
                assert(entries.skip(i as int)[0] == entries[i as int]);
                assert(entries.skip(i as int).drop_first() =~= entries.skip(i as int + 1));
            }
            i += 1;
        }
        assert(entries.skip(n as int) =~= Seq::<CharEntryV>::empty());
        self.missing
    }

    /// Looks up the kerning adjustment for the glyph pair `(left, right)`.
    pub fn kern_pair(&self, left: u32, right: u32) -> (k: i64)
        ensures
            k as int == kern_between(self.deep_view(), left, right),
    {
        let ghost entries = self.deep_view().kerning;
        proof {
            assert(entries.skip(0) =~= entries);
        }
        let n = self.kerning.len();
        let mut i: usize = 0;
        while i < n
            invariant
                n == self.kerning.len(),
                entries == self.deep_view().kerning,
                i <= n,
                find_kern(entries, left, right) == find_kern(entries.skip(i as int), left, right),
            decreases n - i,
        {
            let e = self.kerning[i];
            if e.left == left && e.right == right {
                assert(entries.skip(i as int)[0] == entries[i as int]);
                return e.amount;
            }
            proof {
                assert(entries.skip(i as int)[0] == entries[i as int]);
                assert(entries.skip(i as int).drop_first() =~= entries.skip(i as int + 1));
            }
            i += 1;
        }
        assert(entries.skip(n as int) =~= Seq::<KernEntryV>::empty());
        0
    }
}

} // verus!
