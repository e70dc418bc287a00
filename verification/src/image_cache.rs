//! The image cache: which images are registered, and where each one lies.
//!
//! Every registered image gets a texture of its own and a handle that is
//! never issued twice, so a handle that outlived its image finds nothing.
//! What happens to textures is queued as events until they are drained.

use vstd::prelude::*;
use crate::fixed::Fixed;

verus! {

/// The name of a texture.
#[derive(Clone, Copy, Debug, PartialEq, Eq, Structural)]
pub struct TextureId(pub u64);

/// The handle of a registered image.
#[derive(Clone, Copy, Debug, PartialEq, Eq, Structural)]
pub struct ImageId {
    pub serial: u64,
    pub alpha: bool,
}

impl ImageId {
    pub fn new(serial: u64, alpha: bool) -> (id: ImageId)
        ensures
            id == (ImageId { serial, alpha }),
    {
        ImageId { serial, alpha }
    }

    /// Whether the image has an alpha channel.
    pub fn has_alpha(&self) -> (alpha: bool)
        ensures
            alpha == self.alpha,
    {
        self.alpha
    }
}

/// Where an image lies: its texture and the corners of its region there.
#[derive(Clone, Copy, Debug, PartialEq, Eq)]
pub struct ImageLocation {
    pub texture_id: TextureId,
    pub min: (Fixed, Fixed),
    pub max: (Fixed, Fixed),
}

/// A request to register an image.
#[derive(Clone, Debug, PartialEq, Eq)]
pub struct AddImage {
    pub width: u16,
    pub height: u16,
    pub has_alpha: bool,
    pub data: Vec<u8>,
}

/// What a renderer has to do to its textures.
#[derive(Clone, Debug, PartialEq, Eq)]
pub enum TextureEvent {
    CreateTexture { id: TextureId, width: u16, height: u16, has_alpha: bool, data: Vec<u8> },
    DestroyTexture(TextureId),
}

/// The location of an image that fills the texture `texture`.
pub open spec fn whole_texture(texture: TextureId) -> ImageLocation {
    ImageLocation {
        texture_id: texture,
        min: (Fixed { raw: 0 }, Fixed { raw: 0 }),
        max: (Fixed { raw: 64 }, Fixed { raw: 64 }),
    }
}

struct ImageEntry {
    id: ImageId,
    location: ImageLocation,
}

spec fn distinct_ids(s: Seq<ImageEntry>) -> bool {
    forall|i: int, j: int| 0 <= i < j < s.len() ==> s[i].id != s[j].id
}

spec fn holds(s: Seq<ImageEntry>, id: ImageId, i: int) -> bool {
    0 <= i < s.len() && s[i].id == id
}

spec fn entries_map(s: Seq<ImageEntry>) -> Map<ImageId, ImageLocation> {
    Map::new(
        |id: ImageId| exists|i: int| holds(s, id, i),
        |id: ImageId| s[choose|i: int| holds(s, id, i)].location,
    )
}

proof fn lemma_entries_map_at(s: Seq<ImageEntry>, i: int)
    requires
        distinct_ids(s),
        0 <= i < s.len(),
    ensures
        entries_map(s).contains_key(s[i].id),
        entries_map(s)[s[i].id] == s[i].location,
{
    assert(holds(s, s[i].id, i));
    let k = choose|k: int| holds(s, s[i].id, k);
    assert(k == i);
}

/// The registered images, and the texture events that wait to be drained.
pub struct ImageCache {
    max_texture_size: u16,
    next_serial: u64,
    entries: Vec<ImageEntry>,
    events: Vec<TextureEvent>,
}

impl ImageCache {
    /// The invariant of the cache.
    pub closed spec fn wf(&self) -> bool {
        &&& distinct_ids(self.entries@)
        &&& forall|i: int|
            0 <= i < self.entries@.len() ==> (#[trigger] self.entries@[i]).id.serial
                < self.next_serial
    }

    /// The registered images, each with its location.
    pub closed spec fn images(&self) -> Map<ImageId, ImageLocation> {
        entries_map(self.entries@)
    }

    /// The texture events that wait to be drained, oldest first.
    pub closed spec fn pending(&self) -> Seq<TextureEvent> {
        self.events@
    }

    /// The largest width and height that a texture may have.
    pub closed spec fn limit(&self) -> u16 {
        self.max_texture_size
    }

    /// How many handles were issued so far.
    pub closed spec fn issued(&self) -> nat {
        self.next_serial as nat
    }

    pub fn new(max_texture_size: u16) -> (cache: ImageCache)
        ensures
            cache.wf(),
            cache.images() == Map::<ImageId, ImageLocation>::empty(),
            cache.pending() == Seq::<TextureEvent>::empty(),
            cache.limit() == max_texture_size,
            cache.issued() == 0,
    {
        let cache = ImageCache {
            max_texture_size,
            next_serial: 0,
            entries: Vec::new(),
            events: Vec::new(),
        };
        assert(cache.images() =~= Map::<ImageId, ImageLocation>::empty());
        cache
    }

    fn position(&self, id: ImageId) -> (at: Option<usize>)
        ensures
            match at {
                Some(i) => holds(self.entries@, id, i as int),
                None => forall|i: int| !holds(self.entries@, id, i),
            },
    {
        let mut i: usize = 0;
        while i < self.entries.len()
            invariant
                i <= self.entries.len(),
                forall|k: int| 0 <= k < i ==> !holds(self.entries@, id, k),
            decreases self.entries.len() - i,
        {
            let found = self.entries[i].id;
            if found.serial == id.serial && found.alpha == id.alpha {
                return Some(i);
            }
            i += 1;
        }
        None
    }

    /// Registers an image in a texture of its own. Fails, and changes
    /// nothing, where the image is wider or higher than a texture may be or
    /// no handle is left.
    pub fn allocate(&mut self, request: AddImage) -> (id: Option<ImageId>)
        requires
            old(self).wf(),
        ensures
            final(self).wf(),
            final(self).limit() == old(self).limit(),
            id is Some <==> {
                &&& request.width <= old(self).limit()
                &&& request.height <= old(self).limit()
                &&& old(self).issued() < u64::MAX
            },
            id matches Some(id) ==> {
                &&& id == (ImageId { serial: old(self).issued() as u64, alpha: request.has_alpha })
                &&& !old(self).images().contains_key(id)
                &&& final(self).images() == old(self).images().insert(
                    id,
                    whole_texture(TextureId(id.serial)),
                )
                &&& final(self).pending() == old(self).pending().push(
                    TextureEvent::CreateTexture {
                        id: TextureId(id.serial),
                        width: request.width,
                        height: request.height,
                        has_alpha: request.has_alpha,
                        data: request.data,
                    },
                )
                &&& final(self).issued() == old(self).issued() + 1
            },
            id is None ==> {
                &&& final(self).images() == old(self).images()
                &&& final(self).pending() == old(self).pending()
                &&& final(self).issued() == old(self).issued()
            },
    {
        if request.width > self.max_texture_size || request.height > self.max_texture_size
            || self.next_serial == u64::MAX {
            return None;
        }
        let id = ImageId { serial: self.next_serial, alpha: request.has_alpha };
        let texture = TextureId(self.next_serial);
        let location = ImageLocation {
            texture_id: texture,
            min: (Fixed::zero(), Fixed::zero()),
            max: (Fixed::one(), Fixed::one()),
        };
        let ghost before = self.entries@;
        proof {
            assert forall|i: int| !holds(before, id, i) by {
                if 0 <= i < before.len() {
                    assert(before[i].id.serial < self.next_serial);
                }
            }
        }
        self.entries.push(ImageEntry { id, location });
        self.events.push(
            TextureEvent::CreateTexture {
                id: texture,
                width: request.width,
                height: request.height,
                has_alpha: request.has_alpha,
                data: request.data,
            },
        );
        self.next_serial = self.next_serial + 1;
        proof {
            let after = self.entries@;
            assert(distinct_ids(after)) by {
                assert forall|i: int, j: int| 0 <= i < j < after.len() implies after[i].id
                    != after[j].id by {
                    assert(after[i] == before[i]);
                    if j < before.len() {
                        assert(after[j] == before[j]);
                    } else {
                        assert(!holds(before, id, i));
                    }
                }
            }
            assert(entries_map(after) =~= entries_map(before).insert(id, location)) by {
                assert forall|k: ImageId| #[trigger]
                    entries_map(after).contains_key(k) <==> entries_map(before).insert(
                        id,
                        location,
                    ).contains_key(k) by {
                    if k == id {
                        assert(holds(after, id, before.len() as int));
                    } else {
                        if entries_map(before).contains_key(k) {
                            let i = choose|i: int| holds(before, k, i);
                            assert(holds(after, k, i));
                        }
                        if entries_map(after).contains_key(k) {
                            let i = choose|i: int| holds(after, k, i);
                            assert(holds(before, k, i));
                        }
                    }
                }
                assert forall|k: ImageId| #[trigger]
                    entries_map(after).contains_key(k) implies entries_map(after)[k]
                    == entries_map(before).insert(id, location)[k] by {
                    let i = choose|i: int| holds(after, k, i);
                    assert(holds(after, k, i));
                    lemma_entries_map_at(after, i);
                    if k != id {
                        assert(holds(before, k, i));
                        lemma_entries_map_at(before, i);
                    } else {
                        assert(holds(after, id, before.len() as int));
                    }
                }
            }
        }
        Some(id)
    }

    /// The location of a registered image.
    pub fn get(&self, image: ImageId) -> (location: Option<ImageLocation>)
        requires
            self.wf(),
        ensures
            location == if self.images().contains_key(image) {
                Some(self.images()[image])
            } else {
                None
            },
    {
        match self.position(image) {
            Some(i) => {
                proof {
                    lemma_entries_map_at(self.entries@, i as int);
                }
                Some(self.entries[i].location)
            },
            None => None,
        }
    }

    /// Takes an image out, and returns where it lay if it was registered.
    pub fn deallocate(&mut self, image: ImageId) -> (location: Option<ImageLocation>)
        requires
            old(self).wf(),
        ensures
            final(self).wf(),
            final(self).limit() == old(self).limit(),
            final(self).issued() == old(self).issued(),
            location == if old(self).images().contains_key(image) {
                Some(old(self).images()[image])
            } else {
                None
            },
            final(self).images() == old(self).images().remove(image),
            final(self).pending() == match location {
                Some(l) => old(self).pending().push(TextureEvent::DestroyTexture(l.texture_id)),
                None => old(self).pending(),
            },
    {
        match self.position(image) {
            Some(i) => {
                let ghost before = self.entries@;
                proof {
                    lemma_entries_map_at(before, i as int);
                }
                let entry = self.entries.remove(i);
                self.events.push(TextureEvent::DestroyTexture(entry.location.texture_id));
                proof {
                    let after = self.entries@;
                    assert forall|k: int| 0 <= k < after.len() implies #[trigger] after[k]
                        == before[if k < i { k } else { k + 1 }] by {}
                    assert(distinct_ids(after)) by {
                        assert forall|a: int, b: int| 0 <= a < b < after.len() implies after[a].id
                            != after[b].id by {
                            assert(after[a] == before[if a < i { a } else { a + 1 }]);
                            assert(after[b] == before[if b < i { b } else { b + 1 }]);
                        }
                    }
                    assert(entries_map(after) =~= entries_map(before).remove(image)) by {
                        assert forall|k: ImageId| #[trigger]
                            entries_map(after).contains_key(k) <==> entries_map(before).remove(
                                image,
                            ).contains_key(k) by {
                            if entries_map(after).contains_key(k) {
                                let a = choose|a: int| holds(after, k, a);
                                let b = if a < i { a } else { a + 1 };
                                assert(after[a] == before[b]);
                                assert(holds(before, k, b));
                                assert(before[b].id != before[i as int].id);
                            }
                            if entries_map(before).contains_key(k) && k != image {
                                let b = choose|b: int| holds(before, k, b);
                                let a = if b < i { b } else { b - 1 };
                                assert(after[a] == before[b]);
                                assert(holds(after, k, a));
                            }
                        }
                        assert forall|k: ImageId| #[trigger]
                            entries_map(after).contains_key(k) implies entries_map(after)[k]
                            == entries_map(before).remove(image)[k] by {
                            let a = choose|a: int| holds(after, k, a);
                            let b = if a < i { a } else { a + 1 };
                            assert(after[a] == before[b]);
                            lemma_entries_map_at(after, a);
                            lemma_entries_map_at(before, b);
                        }
                    }
                }
                Some(entry.location)
            },
            None => {
                proof {
                    assert(!self.images().contains_key(image));
                    assert(self.images().remove(image) =~= self.images());
                }
                None
            },
        }
    }

    /// Moves the waiting texture events to the end of `sink`, oldest first.
    pub fn drain_events(&mut self, sink: &mut Vec<TextureEvent>)
        ensures
            final(sink)@ == old(sink)@ + old(self).pending(),
            final(self).pending() == Seq::<TextureEvent>::empty(),
            final(self).images() == old(self).images(),
            final(self).limit() == old(self).limit(),
            final(self).issued() == old(self).issued(),
            old(self).wf() ==> final(self).wf(),
    {
        sink.append(&mut self.events);
    }
}

} // verus!
