//! Dynamic terrain: cellular automaton cells that spread through the level.

use crate::terrain::Terrain;
use vstd::prelude::*;

verus! {

#[derive(Clone, Copy, Debug, PartialEq, Eq, Structural)]
pub enum DynamicTerrainCell {
    /// Expanding foam. Expansion starts when counter reaches zero
    Foam { limit: i32 },
    /// Nanites that eat up destructible terrain. Expansion starts when counter reaches zero
    GreyGoo { counter: i32, limit: i32 },
    /// Freezes water and creates a thin layer of frost on solid ground
    Freezer { limit: i32 },
    /// Soaks ground in nitroglycerin and makes it explosive
    Nitro { counter: i32, limit: i32 },
    /// Fire spreads and consumes combustible terrain.
    /// Cinder type terrain is turned into grey colored regular ground
    Fire { counter: i32, cinder: bool },
    /// Toxic sludge that spreads along surfaces
    Toxin { limit: i32 },
    /// Activation wave that turns dynamic terrain into falling sand
    LooseningSand,
    /// A grain of falling sand
    Sand { terrain: Terrain, solidify: i32, color: u32 },
}

/// The kinds of dynamic terrain a script can create by name
#[derive(Clone, Copy, Debug, PartialEq, Eq, Structural)]
pub enum DynamicTerrainKind {
    Foam,
    GreyGoo,
    Freezer,
    Nitro,
    Fire,
}

/// The dynamic terrain kind a script names, None for an unknown name
pub open spec fn spec_kind_for_name(name: Seq<char>) -> Option<DynamicTerrainKind> {
    if name == "Foam"@ {
        Some(DynamicTerrainKind::Foam)
    } else if name == "GreyGoo"@ {
        Some(DynamicTerrainKind::GreyGoo)
    } else if name == "Freezer"@ {
        Some(DynamicTerrainKind::Freezer)
    } else if name == "Nitro"@ {
        Some(DynamicTerrainKind::Nitro)
    } else if name == "Fire"@ {
        Some(DynamicTerrainKind::Fire)
    } else {
        None
    }
}

/// The name a script gives a dynamic terrain kind: the name of the cell it makes
pub open spec fn kind_name(k: DynamicTerrainKind) -> Seq<char> {
    match k {
        DynamicTerrainKind::Foam => "Foam"@,
        DynamicTerrainKind::GreyGoo => "GreyGoo"@,
        DynamicTerrainKind::Freezer => "Freezer"@,
        DynamicTerrainKind::Nitro => "Nitro"@,
        DynamicTerrainKind::Fire => "Fire"@,
    }
}

/// Every kind is created by its own name, and a name that is accepted names
/// exactly one kind: parsing a kind's name gives back that kind, and two names
/// that parse to the same kind are the same name.
pub proof fn law_kind_names_round_trip(k: DynamicTerrainKind, a: Seq<char>, b: Seq<char>)
    ensures
        spec_kind_for_name(kind_name(k)) == Some(k),
        spec_kind_for_name(a) matches Some(ka) ==> kind_name(ka) == a,
        spec_kind_for_name(a) is Some && spec_kind_for_name(a) == spec_kind_for_name(b) ==> a == b,
{
    reveal_strlit("Foam");
    reveal_strlit("GreyGoo");
    reveal_strlit("Freezer");
    reveal_strlit("Nitro");
    reveal_strlit("Fire");
    assert("GreyGoo"@.len() != "Foam"@.len());
    assert("Freezer"@.len() != "Foam"@.len());
    assert("Freezer"@[0] != "GreyGoo"@[0]);
    assert("Nitro"@[0] != "Foam"@[0]);
    assert("Nitro"@.len() != "GreyGoo"@.len());
    assert("Nitro"@.len() != "Freezer"@.len());
    assert("Fire"@[1] != "Foam"@[1]);
    assert("Fire"@.len() != "GreyGoo"@.len());
    assert("Fire"@.len() != "Freezer"@.len());
    assert("Fire"@.len() != "Nitro"@.len());
}

/// Do two strings hold the same characters?
pub fn str_equal(a: &str, b: &str) -> (r: bool)
    ensures
        r == (a@ == b@),
{
    let n = a.unicode_len();
    if n != b.unicode_len() {
        return false;
    }
    let mut i: usize = 0;
    while i < n
        invariant
            n == a@.len(),
            n == b@.len(),
            i <= n,
            forall|k: int| 0 <= k < i ==> a@[k] == b@[k],
        decreases n - i,
    {
        if a.get_char(i) != b.get_char(i) {
            return false;
        }
        i += 1;
    }
    assert(a@ =~= b@);
    true
}

impl DynamicTerrainKind {
    /// The kind of dynamic terrain a script names
    pub fn from_name(name: &str) -> (r: Option<Self>)
        ensures
            r == spec_kind_for_name(name@),
    {
        if str_equal(name, "Foam") {
            Some(DynamicTerrainKind::Foam)
        } else if str_equal(name, "GreyGoo") {
            Some(DynamicTerrainKind::GreyGoo)
        } else if str_equal(name, "Freezer") {
            Some(DynamicTerrainKind::Freezer)
        } else if str_equal(name, "Nitro") {
            Some(DynamicTerrainKind::Nitro)
        } else if str_equal(name, "Fire") {
            Some(DynamicTerrainKind::Fire)
        } else {
            None
        }
    }

    /// Does a cell of this kind take a `counter` setting?
    pub fn reads_counter(self) -> (r: bool)
        ensures
            r == (self == DynamicTerrainKind::GreyGoo || self == DynamicTerrainKind::Nitro
                || self == DynamicTerrainKind::Fire),
    {
        match self {
            DynamicTerrainKind::GreyGoo | DynamicTerrainKind::Nitro | DynamicTerrainKind::Fire => true,
            _ => false,
        }
    }

    /// Does a cell of this kind take a `limit` setting?
    pub fn reads_limit(self) -> (r: bool)
        ensures
            r == (self != DynamicTerrainKind::Fire),
    {
        match self {
            DynamicTerrainKind::Fire => false,
            _ => true,
        }
    }
}

impl DynamicTerrainCell {
    /// Does this cell consume the ground it spreads into?
    pub fn destroys_ground(&self) -> (r: bool)
        ensures
            r == (*self is GreyGoo || *self is Nitro || *self is Fire),
    {
        match self {
            DynamicTerrainCell::GreyGoo { .. } | DynamicTerrainCell::Nitro { .. }
            | DynamicTerrainCell::Fire { .. } => true,
            _ => false,
        }
    }

    /// A new cell of the given kind. Settings not given take their defaults:
    /// foam limit 20, grey goo counter 0 and limit 40, freezer limit 60,
    /// nitro counter 0 and limit 5, fire counter 60. Fire starts without cinder.
    pub fn from_kind(kind: DynamicTerrainKind, counter: Option<i32>, limit: Option<i32>) -> (r: Self)
        ensures
            r == (match kind {
                DynamicTerrainKind::Foam => DynamicTerrainCell::Foam { limit: unwrap_or(limit, 20) },
                DynamicTerrainKind::GreyGoo => DynamicTerrainCell::GreyGoo {
                    counter: unwrap_or(counter, 0),
                    limit: unwrap_or(limit, 40),
                },
                DynamicTerrainKind::Freezer => DynamicTerrainCell::Freezer { limit: unwrap_or(limit, 60) },
                DynamicTerrainKind::Nitro => DynamicTerrainCell::Nitro {
                    counter: unwrap_or(counter, 0),
                    limit: unwrap_or(limit, 5),
                },
                DynamicTerrainKind::Fire => DynamicTerrainCell::Fire {
                    counter: unwrap_or(counter, 60),
                    cinder: false,
                },
            }),
    {
        match kind {
            DynamicTerrainKind::Foam => DynamicTerrainCell::Foam { limit: limit.unwrap_or(20) },
            DynamicTerrainKind::GreyGoo => DynamicTerrainCell::GreyGoo {
                counter: counter.unwrap_or(0),
                limit: limit.unwrap_or(40),
            },
            DynamicTerrainKind::Freezer => DynamicTerrainCell::Freezer { limit: limit.unwrap_or(60) },
            DynamicTerrainKind::Nitro => DynamicTerrainCell::Nitro {
                counter: counter.unwrap_or(0),
                limit: limit.unwrap_or(5),
            },
            DynamicTerrainKind::Fire => DynamicTerrainCell::Fire {
                counter: counter.unwrap_or(60),
                cinder: false,
            },
        }
    }
}

pub open spec fn unwrap_or(v: Option<i32>, d: i32) -> i32 {
    match v {
        Some(x) => x,
        None => d,
    }
}

} // verus!
