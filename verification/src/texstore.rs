//! Storage for the textures kept loaded for the whole run: each texture has a
//! unique name, a packed reference ([`TextureId`]) and up to three alternative
//! versions. The texture type itself (an SDL texture in the game) is a
//! parameter.

use crate::dynter::str_equal;
use crate::texture::{TexAlt, TextureId, TEXTURE_FLAG_FLIPPABLE, TEXTURE_FLAG_FRAME_MASK, TEXTURE_FLAG_NEED_ROTATION};
use vstd::prelude::*;

verus! {

/// Why the texture store refused a request
#[derive(Clone, Copy, Debug, PartialEq, Eq, Structural)]
pub enum TextureStoreError {
    /// A texture of that name is already stored
    AlreadyAdded,
    /// The main version of a texture is given when it is added, not as an alternative
    MainAlreadyAdded,
    /// That alternative of the texture is already set
    AltAlreadySet,
    /// No texture of that name
    NotFound,
}

/// Most textures a store can hold: offsets are 16 bit
pub const MAX_TEXTURES: usize = 0x10000;

/// The packed flags of a texture reference
pub open spec fn texture_flags(frames: i32, needs_rotation: bool, flippable: bool) -> u16 {
    (frames as u16) | (if needs_rotation {
        TEXTURE_FLAG_NEED_ROTATION
    } else {
        0
    }) | (if flippable {
        TEXTURE_FLAG_FLIPPABLE
    } else {
        0
    })
}

/// The id stored under `name`, if any
pub open spec fn lookup(names: Seq<Seq<char>>, ids: Seq<TextureId>, name: Seq<char>) -> Option<TextureId> {
    if exists|i: int| 0 <= i < names.len() && names[i] == name {
        Some(ids[choose|i: int| 0 <= i < names.len() && names[i] == name])
    } else {
        None
    }
}

/// No name occurs twice
pub open spec fn names_distinct(names: Seq<Seq<char>>) -> bool {
    forall|i: int, j: int| 0 <= i < j < names.len() ==> names[i] != names[j]
}

/// The textures with their names and ids, and the alternative versions of each
pub struct TextureStore<Tex> {
    names: Vec<String>,
    ids: Vec<TextureId>,
    mains: Vec<Tex>,
    decals: Vec<Option<Tex>>,
    actives: Vec<Option<Tex>>,
    damages: Vec<Option<Tex>>,
}

impl<Tex> TextureStore<Tex> {
    /// The names of the stored textures, in the order they were added
    pub closed spec fn spec_names(&self) -> Seq<Seq<char>> {
        self.names@.map_values(|s: String| s@)
    }

    /// The ids of the stored textures
    pub closed spec fn spec_ids(&self) -> Seq<TextureId> {
        self.ids@
    }

    /// The main versions of the stored textures
    pub closed spec fn spec_mains(&self) -> Seq<Tex> {
        self.mains@
    }

    /// Alternative `alt` of each stored texture (meaningful for the three
    /// alternatives, not for the main version)
    pub closed spec fn spec_alts(&self, alt: TexAlt) -> Seq<Option<Tex>> {
        match alt {
            TexAlt::Decal => self.decals@,
            TexAlt::Active => self.actives@,
            _ => self.damages@,
        }
    }

    /// Number of stored textures
    pub open spec fn spec_len(&self) -> int {
        self.spec_mains().len() as int
    }

    /// Names are unique, every texture has a name, an id pointing at itself and
    /// a slot for each alternative
    pub open spec fn wf(&self) -> bool {
        &&& self.spec_names().len() == self.spec_len()
        &&& self.spec_ids().len() == self.spec_len()
        &&& self.spec_alts(TexAlt::Decal).len() == self.spec_len()
        &&& self.spec_alts(TexAlt::Active).len() == self.spec_len()
        &&& self.spec_alts(TexAlt::Damage).len() == self.spec_len()
        &&& self.spec_len() <= MAX_TEXTURES
        &&& names_distinct(self.spec_names())
        &&& forall|i: int| 0 <= i < self.spec_len() ==> (#[trigger] self.spec_ids()[i]).spec_offset() == i
    }

    /// An empty store
    pub fn new() -> (r: Self)
        ensures
            r.wf(),
            r.spec_len() == 0,
    {
        let r = TextureStore {
            names: Vec::new(),
            ids: Vec::new(),
            mains: Vec::new(),
            decals: Vec::new(),
            actives: Vec::new(),
            damages: Vec::new(),
        };
        proof {
            assert(r.spec_names() =~= Seq::<Seq<char>>::empty());
        }
        r
    }

    /// Number of stored textures
    pub fn count(&self) -> (r: usize)
        ensures
            r == self.spec_len(),
    {
        self.mains.len()
    }

    /// Index of the texture called `name`, if any
    fn index_of(&self, name: &str) -> (r: Option<usize>)
        requires
            self.wf(),
        ensures
            r matches Some(i) ==> i < self.spec_len() && self.spec_names()[i as int] == name@,
            r is None ==> forall|i: int| 0 <= i < self.spec_len() ==> self.spec_names()[i] != name@,
    {
        let n = self.names.len();
        let mut i: usize = 0;
        while i < n
            invariant
                self.wf(),
                n == self.names@.len(),
                i <= n,
                forall|k: int| 0 <= k < i ==> self.spec_names()[k] != name@,
            decreases n - i,
        {
            if str_equal(self.names[i].as_str(), name) {
                return Some(i);
            }
            i += 1;
        }
        None
    }

    /// Add a texture under a new name, with its frame count and drawing hints.
    /// Returns its id, or AlreadyAdded (changing nothing) when the name is taken.
    pub fn add_texture(
        &mut self,
        name: String,
        texture: Tex,
        frames: i32,
        needs_rotation: bool,
        flippable: bool,
    ) -> (r: Result<TextureId, TextureStoreError>)
        requires
            old(self).wf(),
            old(self).spec_len() < MAX_TEXTURES,
            0 <= frames <= TEXTURE_FLAG_FRAME_MASK,
        ensures
            final(self).wf(),
            old(self).spec_names().contains(name@) ==> r == Err::<TextureId, TextureStoreError>(
                TextureStoreError::AlreadyAdded,
            ) && *final(self) == *old(self),
            !old(self).spec_names().contains(name@) ==> (r matches Ok(id) && {
                &&& id.spec_offset() == old(self).spec_len()
                &&& id.spec_flags() == texture_flags(frames, needs_rotation, flippable)
                &&& final(self).spec_names() == old(self).spec_names().push(name@)
                &&& final(self).spec_ids() == old(self).spec_ids().push(id)
                &&& final(self).spec_mains() == old(self).spec_mains().push(texture)
                &&& forall|alt: TexAlt| #[trigger] final(self).spec_alts(alt) == old(self).spec_alts(alt).push(None)
            }),
    {
        match self.index_of(name.as_str()) {
            Some(i) => {
                proof {
                    assert(old(self).spec_names()[i as int] == name@);
                }
                return Err(TextureStoreError::AlreadyAdded);
            },
            None => {},
        }
        let ghost old_names = self.spec_names();
        let offset = self.mains.len();
        let id = TextureId::from_parts(offset as u16, frames, needs_rotation, flippable);
        self.names.push(name);
        self.ids.push(id);
        self.mains.push(texture);
        self.decals.push(None);
        self.actives.push(None);
        self.damages.push(None);
        proof {
            assert(self.spec_names() =~= old_names.push(name@));
            assert(!old_names.contains(name@)) by {
                if old_names.contains(name@) {
                    let k = choose|k: int| 0 <= k < old_names.len() && old_names[k] == name@;
                    assert(old_names[k] != name@);
                }
            }
        }
        Ok(id)
    }

    /// Set an alternative version of the texture `main` refers to.
    /// The main version cannot be given again (MainAlreadyAdded), nor an
    /// alternative that is already set (AltAlreadySet); then nothing changes.
    pub fn add_texture_alt(&mut self, main: TextureId, alt: TexAlt, texture: Tex) -> (r: Result<(), TextureStoreError>)
        requires
            old(self).wf(),
            main.spec_offset() < old(self).spec_len(),
        ensures
            final(self).wf(),
            alt == TexAlt::Main ==> r == Err::<(), TextureStoreError>(TextureStoreError::MainAlreadyAdded) && *final(self)
                == *old(self),
            alt != TexAlt::Main && old(self).spec_alts(alt)[main.spec_offset() as int] is Some ==> r == Err::<
                (),
                TextureStoreError,
            >(TextureStoreError::AltAlreadySet) && *final(self) == *old(self),
            alt != TexAlt::Main && old(self).spec_alts(alt)[main.spec_offset() as int] is None ==> {
                &&& r == Ok::<(), TextureStoreError>(())
                &&& final(self).spec_names() == old(self).spec_names()
                &&& final(self).spec_ids() == old(self).spec_ids()
                &&& final(self).spec_mains() == old(self).spec_mains()
                &&& final(self).spec_alts(alt) == old(self).spec_alts(alt).update(main.spec_offset() as int, Some(texture))
                &&& forall|other: TexAlt|
                    other != alt && other != TexAlt::Main ==> #[trigger] final(self).spec_alts(other) == old(self).spec_alts(
                        other,
                    )
            },
    {
        let i = main.offset() as usize;
        match alt {
            TexAlt::Main => Err(TextureStoreError::MainAlreadyAdded),
            TexAlt::Decal => {
                if self.decals[i].is_some() {
                    return Err(TextureStoreError::AltAlreadySet);
                }
                self.decals.set(i, Some(texture));
                Ok(())
            },
            TexAlt::Active => {
                if self.actives[i].is_some() {
                    return Err(TextureStoreError::AltAlreadySet);
                }
                self.actives.set(i, Some(texture));
                Ok(())
            },
            TexAlt::Damage => {
                if self.damages[i].is_some() {
                    return Err(TextureStoreError::AltAlreadySet);
                }
                self.damages.set(i, Some(texture));
                Ok(())
            },
        }
    }

    /// The id of the texture called `name`, or NotFound
    pub fn find_texture(&self, name: &str) -> (r: Result<TextureId, TextureStoreError>)
        requires
            self.wf(),
        ensures
            r == match lookup(self.spec_names(), self.spec_ids(), name@) {
                Some(id) => Ok::<TextureId, TextureStoreError>(id),
                None => Err(TextureStoreError::NotFound),
            },
    {
        match self.index_of(name) {
            Some(i) => {
                proof {
                    let names = self.spec_names();
                    let c = choose|k: int| 0 <= k < names.len() && names[k] == name@;
                    assert(c == i) by {
                        if c != i as int {
                            if c < i {
                                assert(names[c] != names[i as int]);
                            } else {
                                assert(names[i as int] != names[c]);
                            }
                        }
                    }
                }
                Ok(self.ids[i])
            },
            None => Err(TextureStoreError::NotFound),
        }
    }

    /// The main version of the texture `id` refers to
    pub fn get_texture(&self, id: TextureId) -> (r: &Tex)
        requires
            self.wf(),
            id.spec_offset() < self.spec_len(),
        ensures
            *r == self.spec_mains()[id.spec_offset() as int],
    {
        &self.mains[id.offset() as usize]
    }

    /// Alternative `alt` of the texture `id` refers to, if set (the main version
    /// is always set)
    pub fn get_texture_alt(&self, id: TextureId, alt: TexAlt) -> (r: Option<&Tex>)
        requires
            self.wf(),
            id.spec_offset() < self.spec_len(),
        ensures
            alt == TexAlt::Main ==> r == Some(&self.spec_mains()[id.spec_offset() as int]),
            alt != TexAlt::Main ==> r == match self.spec_alts(alt)[id.spec_offset() as int] {
                Some(t) => Some(&t),
                None => None::<&Tex>,
            },
    {
        let i = id.offset() as usize;
        match alt {
            TexAlt::Main => Some(&self.mains[i]),
            TexAlt::Decal => self.decals[i].as_ref(),
            TexAlt::Active => self.actives[i].as_ref(),
            TexAlt::Damage => self.damages[i].as_ref(),
        }
    }

    /// Alternative `alt` of the texture `id` refers to, or its main version when
    /// that alternative is not set
    pub fn get_texture_alt_fallback(&self, id: TextureId, alt: TexAlt) -> (r: &Tex)
        requires
            self.wf(),
            id.spec_offset() < self.spec_len(),
        ensures
            *r == if alt != TexAlt::Main && self.spec_alts(alt)[id.spec_offset() as int] is Some {
                self.spec_alts(alt)[id.spec_offset() as int]->0
            } else {
                self.spec_mains()[id.spec_offset() as int]
            },
    {
        match self.get_texture_alt(id, alt) {
            Some(t) => t,
            None => &self.mains[id.offset() as usize],
        }
    }
}

/// What was added under a new name is found under that name, and every other
/// name finds what it found before
pub proof fn law_find_after_add(names: Seq<Seq<char>>, ids: Seq<TextureId>, name: Seq<char>, id: TextureId, other: Seq<char>)
    requires
        names_distinct(names),
        names.len() == ids.len(),
        !names.contains(name),
        other != name,
    ensures
        lookup(names.push(name), ids.push(id), name) == Some(id),
        lookup(names.push(name), ids.push(id), other) == lookup(names, ids, other),
{
    let n2 = names.push(name);
    let i2 = ids.push(id);
    assert(n2[names.len() as int] == name);
    let c = choose|i: int| 0 <= i < n2.len() && n2[i] == name;
    assert(c == names.len()) by {
        if c < names.len() {
            assert(names[c] == name);
        }
    }
    if exists|i: int| 0 <= i < names.len() && names[i] == other {
        let w = choose|i: int| 0 <= i < names.len() && names[i] == other;
        assert(n2[w] == other);
        let c2 = choose|i: int| 0 <= i < n2.len() && n2[i] == other;
        assert(c2 == w) by {
            if c2 != w {
                assert(c2 < names.len());
                if c2 < w {
                    assert(names[c2] != names[w]);
                } else {
                    assert(names[w] != names[c2]);
                }
            }
        }
    } else {
        assert forall|i: int| 0 <= i < n2.len() implies n2[i] != other by {
            if i < names.len() {
                assert(names[i] != other);
            }
        }
    }
}

} // verus!
