//! The glyph cache: the rasterized glyphs that are at hand.
//!
//! A glyph is found by its font, the variation coordinates and size of the
//! font, its number, and the sub-unit part of its pen position. Rasterizing
//! is not done here: whoever rasterizes a glyph puts the entry in.
//!
//! The glyphs of one run are looked up through a session, which holds both
//! caches for as long as the run is drawn.

use vstd::prelude::*;
use crate::fixed::Fixed;
use crate::image_cache::{ImageCache, ImageId, ImageLocation};

verus! {

/// The columns of a rasterized glyph that hold ink below the baseline:
/// `start..=end`. A region with `start > end` holds none.
#[derive(Clone, Copy, Debug, PartialEq, Eq, Structural)]
pub struct DescenderRegion {
    pub start: u16,
    pub end: u16,
}

impl DescenderRegion {
    /// The columns as an interval, if there is ink.
    pub open spec fn interval(self) -> Option<(Fixed, Fixed)> {
        if self.start <= self.end {
            Some((Fixed::of_int(self.start as int), Fixed::of_int(self.end as int)))
        } else {
            None
        }
    }

    pub fn new(start: u16, end: u16) -> (region: DescenderRegion)
        ensures
            region == (DescenderRegion { start, end }),
    {
        DescenderRegion { start, end }
    }

    /// A region without ink.
    pub fn none() -> (region: DescenderRegion)
        ensures
            region == (DescenderRegion { start: 1, end: 0 }),
            region.interval() is None,
    {
        DescenderRegion { start: 1, end: 0 }
    }

    pub fn range(&self) -> (r: Option<(Fixed, Fixed)>)
        ensures
            r == self.interval(),
    {
        if self.start <= self.end {
            Some((Fixed::from_int(self.start as i32), Fixed::from_int(self.end as i32)))
        } else {
            None
        }
    }
}

/// A rasterized glyph: its bearings, its size, its image, whether the image
/// carries colors of its own, and its descender ink.
#[derive(Clone, Copy, Debug, PartialEq, Eq, Structural)]
pub struct GlyphCacheEntry {
    pub left: i32,
    pub top: i32,
    pub width: u16,
    pub height: u16,
    pub image: ImageId,
    pub is_bitmap: bool,
    pub desc: DescenderRegion,
}

/// What a rasterized glyph is found by.
pub struct GlyphKey {
    pub font: u64,
    pub coords: Seq<i16>,
    pub size: Fixed,
    pub id: u16,
    pub x_phase: int,
    pub y_phase: int,
}

/// The key of the glyph `id` drawn with the pen at (`x`, `y`).
pub open spec fn glyph_key(font: u64, coords: Seq<i16>, size: Fixed, id: u16, x: Fixed, y: Fixed)
    -> GlyphKey {
    GlyphKey { font, coords, size, id, x_phase: x.fraction(), y_phase: y.fraction() }
}

struct GlyphSlot {
    font: u64,
    coords: Vec<i16>,
    size: Fixed,
    id: u16,
    x_phase: u8,
    y_phase: u8,
    entry: GlyphCacheEntry,
}

impl GlyphSlot {
    spec fn key(self) -> GlyphKey {
        GlyphKey {
            font: self.font,
            coords: self.coords@,
            size: self.size,
            id: self.id,
            x_phase: self.x_phase as int,
            y_phase: self.y_phase as int,
        }
    }
}

spec fn distinct_keys(s: Seq<GlyphSlot>) -> bool {
    forall|i: int, j: int| 0 <= i < j < s.len() ==> s[i].key() != s[j].key()
}

spec fn holds(s: Seq<GlyphSlot>, key: GlyphKey, i: int) -> bool {
    0 <= i < s.len() && s[i].key() == key
}

spec fn slots_map(s: Seq<GlyphSlot>) -> Map<GlyphKey, GlyphCacheEntry> {
    Map::new(
        |key: GlyphKey| exists|i: int| holds(s, key, i),
        |key: GlyphKey| s[choose|i: int| holds(s, key, i)].entry,
    )
}

proof fn lemma_slots_map_at(s: Seq<GlyphSlot>, i: int)
    requires
        distinct_keys(s),
        0 <= i < s.len(),
    ensures
        slots_map(s).contains_key(s[i].key()),
        slots_map(s)[s[i].key()] == s[i].entry,
{
    assert(holds(s, s[i].key(), i));
    let k = choose|k: int| holds(s, s[i].key(), k);
    assert(k == i);
}

fn same_coords(a: &Vec<i16>, b: &Vec<i16>) -> (same: bool)
    ensures
        same == (a@ == b@),
{
    if a.len() != b.len() {
        return false;
    }
    let mut i: usize = 0;
    while i < a.len()
        invariant
            i <= a.len(),
            a.len() == b.len(),
            forall|k: int| 0 <= k < i ==> a@[k] == b@[k],
        decreases a.len() - i,
    {
        if a[i] != b[i] {
            return false;
        }
        i += 1;
    }
    assert(a@ =~= b@);
    true
}

fn copy_coords(src: &Vec<i16>) -> (copy: Vec<i16>)
    ensures
        copy@ == src@,
{
    let mut copy: Vec<i16> = Vec::new();
    let mut i: usize = 0;
    while i < src.len()
        invariant
            i <= src.len(),
            copy@ == src@.take(i as int),
        decreases src.len() - i,
    {
        copy.push(src[i]);
        assert(src@.take(i + 1) == src@.take(i as int).push(src@[i as int]));
        i += 1;
    }
    assert(src@.take(src.len() as int) == src@);
    copy
}

/// The rasterized glyphs that are at hand.
pub struct GlyphCache {
    slots: Vec<GlyphSlot>,
}

impl GlyphCache {
    /// The invariant of the cache.
    pub closed spec fn wf(&self) -> bool {
        distinct_keys(self.slots@)
    }

    /// The rasterized glyphs, each under its key.
    pub closed spec fn glyphs(&self) -> Map<GlyphKey, GlyphCacheEntry> {
        slots_map(self.slots@)
    }

    pub fn new() -> (cache: GlyphCache)
        ensures
            cache.wf(),
            cache.glyphs() == Map::<GlyphKey, GlyphCacheEntry>::empty(),
    {
        let cache = GlyphCache { slots: Vec::new() };
        assert(cache.glyphs() =~= Map::<GlyphKey, GlyphCacheEntry>::empty());
        cache
    }

    fn position(
        &self,
        font: u64,
        coords: &Vec<i16>,
        size: Fixed,
        id: u16,
        x_phase: u8,
        y_phase: u8,
    ) -> (at: Option<usize>)
        ensures
            ({
                let key = GlyphKey {
                    font,
                    coords: coords@,
                    size,
                    id,
                    x_phase: x_phase as int,
                    y_phase: y_phase as int,
                };
                match at {
                    Some(i) => holds(self.slots@, key, i as int),
                    None => forall|i: int| !holds(self.slots@, key, i),
                }
            }),
    {
        let ghost key = GlyphKey {
            font,
            coords: coords@,
            size,
            id,
            x_phase: x_phase as int,
            y_phase: y_phase as int,
        };
        let mut i: usize = 0;
        while i < self.slots.len()
            invariant
                i <= self.slots.len(),
                key == (GlyphKey {
                    font,
                    coords: coords@,
                    size,
                    id,
                    x_phase: x_phase as int,
                    y_phase: y_phase as int,
                }),
                forall|k: int| 0 <= k < i ==> !holds(self.slots@, key, k),
            decreases self.slots.len() - i,
        {
            let slot = &self.slots[i];
            if slot.font == font && slot.size.raw == size.raw && slot.id == id && slot.x_phase
                == x_phase && slot.y_phase == y_phase && same_coords(&slot.coords, coords) {
                return Some(i);
            }
            i += 1;
        }
        None
    }

    /// Opens a session for a run in the font `font`, with the variation
    /// coordinates `coords` and at the size `size`.
    pub fn session<'a>(
        &'a self,
        images: &'a ImageCache,
        font: u64,
        coords: &'a Vec<i16>,
        size: Fixed,
    ) -> (session: GlyphCacheSession<'a>)
        requires
            self.wf(),
            images.wf(),
        ensures
            session.wf(),
            session.glyphs() == self.glyphs(),
            session.images() == images.images(),
            session.font() == font,
            session.coords() == coords@,
            session.size() == size,
    {
        GlyphCacheSession { glyphs: self, images, font, coords, size }
    }

    /// The entry of the glyph `id` drawn with the pen at (`x`, `y`), if it is
    /// at hand.
    pub fn get(&self, font: u64, coords: &Vec<i16>, size: Fixed, id: u16, x: Fixed, y: Fixed) -> (entry:
        Option<GlyphCacheEntry>)
        requires
            self.wf(),
        ensures
            entry == if self.glyphs().contains_key(glyph_key(font, coords@, size, id, x, y)) {
                Some(self.glyphs()[glyph_key(font, coords@, size, id, x, y)])
            } else {
                None
            },
    {
        match self.position(font, coords, size, id, x.fract(), y.fract()) {
            Some(i) => {
                proof {
                    lemma_slots_map_at(self.slots@, i as int);
                }
                Some(self.slots[i].entry)
            },
            None => None,
        }
    }

    /// Puts the entry of a rasterized glyph in, in place of an earlier one
    /// under the same key.
    pub fn insert(
        &mut self,
        font: u64,
        coords: &Vec<i16>,
        size: Fixed,
        id: u16,
        x: Fixed,
        y: Fixed,
        entry: GlyphCacheEntry,
    )
        requires
            old(self).wf(),
        ensures
            final(self).wf(),
            final(self).glyphs() == old(self).glyphs().insert(
                glyph_key(font, coords@, size, id, x, y),
                entry,
            ),
    {
        let x_phase = x.fract();
        let y_phase = y.fract();
        let ghost key = glyph_key(font, coords@, size, id, x, y);
        let ghost before = self.slots@;
        match self.position(font, coords, size, id, x_phase, y_phase) {
            Some(i) => {
                let _ = self.slots.remove(i);
                proof {
                    lemma_removed(before, i as int);
                }
            },
            None => {},
        }
        let ghost rest = self.slots@;
        assert(keeps_others(before, rest, key));
        self.slots.push(
            GlyphSlot { font, coords: copy_coords(coords), size, id, x_phase, y_phase, entry },
        );
        proof {
            let after = self.slots@;
            let last = rest.len() as int;
            assert(after[last].key() == key);
            assert(distinct_keys(after)) by {
                assert forall|a: int, b: int| 0 <= a < b < after.len() implies after[a].key()
                    != after[b].key() by {
                    assert(after[a] == rest[a]);
                    if b < last {
                        assert(after[b] == rest[b]);
                    } else {
                        assert(!holds(rest, key, a));
                    }
                }
            }
            assert(slots_map(after) =~= slots_map(before).insert(key, entry)) by {
                assert forall|k: GlyphKey| #[trigger]
                    slots_map(after).contains_key(k) <==> slots_map(before).insert(
                        key,
                        entry,
                    ).contains_key(k) by {
                    if k == key {
                        assert(holds(after, key, last));
                    } else {
                        if slots_map(rest).contains_key(k) {
                            let i = choose|i: int| holds(rest, k, i);
                            assert(holds(after, k, i));
                        }
                        if slots_map(after).contains_key(k) {
                            let i = choose|i: int| holds(after, k, i);
                            assert(holds(rest, k, i));
                        }
                    }
                }
                assert forall|k: GlyphKey| #[trigger]
                    slots_map(after).contains_key(k) implies slots_map(after)[k] == slots_map(
                    before,
                ).insert(key, entry)[k] by {
                    let i = choose|i: int| holds(after, k, i);
                    assert(holds(after, k, i));
                    lemma_slots_map_at(after, i);
                    if k != key {
                        assert(holds(rest, k, i));
                        lemma_slots_map_at(rest, i);
                    } else {
                        assert(holds(after, key, last));
                    }
                }
            }
        }
    }
}

/// Both caches, held for one run, with the font of the run.
pub struct GlyphCacheSession<'a> {
    glyphs: &'a GlyphCache,
    images: &'a ImageCache,
    font: u64,
    coords: &'a Vec<i16>,
    size: Fixed,
}

impl<'a> GlyphCacheSession<'a> {
    /// The caches that the session holds are in order.
    pub closed spec fn wf(&self) -> bool {
        self.glyphs.wf() && self.images.wf()
    }

    /// The rasterized glyphs, each under its key.
    pub closed spec fn glyphs(&self) -> Map<GlyphKey, GlyphCacheEntry> {
        self.glyphs.glyphs()
    }

    /// The registered images, each with its location.
    pub closed spec fn images(&self) -> Map<ImageId, ImageLocation> {
        self.images.images()
    }

    /// The key of the run's font.
    pub closed spec fn font(&self) -> u64 {
        self.font
    }

    /// The variation coordinates of the run's font.
    pub closed spec fn coords(&self) -> Seq<i16> {
        self.coords@
    }

    /// The size of the run's font.
    pub closed spec fn size(&self) -> Fixed {
        self.size
    }

    /// The key under which the session looks a glyph up.
    pub open spec fn key(&self, id: u16, x: Fixed, y: Fixed) -> GlyphKey {
        glyph_key(self.font(), self.coords(), self.size(), id, x, y)
    }

    /// The entry of the glyph `id` of the run's font, drawn with the pen at
    /// (`x`, `y`), if it is at hand.
    pub fn get(&self, id: u16, x: Fixed, y: Fixed) -> (entry: Option<GlyphCacheEntry>)
        requires
            self.wf(),
        ensures
            entry == if self.glyphs().contains_key(self.key(id, x, y)) {
                Some(self.glyphs()[self.key(id, x, y)])
            } else {
                None
            },
    {
        self.glyphs.get(self.font, self.coords, self.size, id, x, y)
    }

    /// The location of a registered image.
    pub fn get_image(&self, image: ImageId) -> (location: Option<ImageLocation>)
        requires
            self.wf(),
        ensures
            location == if self.images().contains_key(image) {
                Some(self.images()[image])
            } else {
                None
            },
    {
        self.images.get(image)
    }
}

/// `rest` holds nothing under `key`, and under every other key what `before`
/// holds.
spec fn keeps_others(before: Seq<GlyphSlot>, rest: Seq<GlyphSlot>, key: GlyphKey) -> bool {
    &&& distinct_keys(rest)
    &&& forall|i: int| !holds(rest, key, i)
    &&& forall|k: GlyphKey|
        k != key ==> (#[trigger] slots_map(rest).contains_key(k)) == slots_map(
            before,
        ).contains_key(k)
    &&& forall|k: GlyphKey|
        k != key && #[trigger] slots_map(rest).contains_key(k) ==> slots_map(rest)[k]
            == slots_map(before)[k]
}

proof fn lemma_removed(before: Seq<GlyphSlot>, i: int)
    requires
        distinct_keys(before),
        0 <= i < before.len(),
    ensures
        keeps_others(before, before.remove(i), before[i].key()),
{
    let after = before.remove(i);
    let key = before[i].key();
    assert forall|a: int, b: int| 0 <= a < b < after.len() implies after[a].key()
        != after[b].key() by {
        lemma_remove_index(before, i, a);
        lemma_remove_index(before, i, b);
    }
    assert forall|k: int| !holds(after, key, k) by {
        if 0 <= k < after.len() {
            lemma_remove_index(before, i, k);
        }
    }
    assert forall|k: GlyphKey| k != key implies (#[trigger] slots_map(after).contains_key(k))
        == slots_map(before).contains_key(k) by {
        if slots_map(after).contains_key(k) {
            let a = choose|a: int| holds(after, k, a);
            lemma_remove_index(before, i, a);
            assert(holds(before, k, shifted(i, a)));
        }
        if slots_map(before).contains_key(k) {
            let b = choose|b: int| holds(before, k, b);
            let a = if b < i {
                b
            } else {
                b - 1
            };
            lemma_remove_index(before, i, a);
            assert(holds(after, k, a));
        }
    }
    assert forall|k: GlyphKey|
        k != key && #[trigger] slots_map(after).contains_key(k) implies slots_map(after)[k]
        == slots_map(before)[k] by {
        let a = choose|a: int| holds(after, k, a);
        lemma_remove_index(before, i, a);
        lemma_slots_map_at(after, a);
        lemma_slots_map_at(before, shifted(i, a));
    }
}

/// The index in a sequence of what stands at `a` once index `i` is taken out.
spec fn shifted(i: int, a: int) -> int {
    if a < i {
        a
    } else {
        a + 1
    }
}

proof fn lemma_remove_index(before: Seq<GlyphSlot>, i: int, a: int)
    requires
        0 <= i < before.len(),
        0 <= a < before.len() - 1,
    ensures
        before.remove(i)[a] == before[shifted(i, a)],
        0 <= shifted(i, a) < before.len(),
        shifted(i, a) != i,
{
}

} // verus!
