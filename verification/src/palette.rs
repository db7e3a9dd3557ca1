//! Terrain palettes: how the colour indices of a level's terrain map
//! translate into terrain types.
//!
//! A palette mapping is given as a list of entries. Each entry's key names a
//! terrain type, optionally followed by `-uw` (underwater) and `-i`
//! (indestructible) modifiers; its value selects the palette indices:
//! a single index, an inclusive range written "a-b", or a list of those.

use crate::terrain::{
    Terrain, TER_BIT_DESTRUCTIBLE, TER_BIT_WATER, TER_TYPE_BASE, TER_TYPE_BASESUPPORT,
    TER_TYPE_BURNABLE, TER_TYPE_CINDER, TER_TYPE_DAMAGE, TER_TYPE_EXPLOSIVE, TER_TYPE_GREYGOO,
    TER_TYPE_GROUND, TER_TYPE_HIGH_EXPLOSIVE, TER_TYPE_ICE, TER_TYPE_NOREGENBASE,
    TER_TYPE_WALKWAY, water_bit, solid_type, is_water,
};
use core::ops::RangeInclusive;
use vstd::prelude::*;

verus! {

/// Number of entries in a palette
pub const PALETTE_SIZE: usize = 256;

/// Terrain type of every colour index a palette mapping does not mention
pub const DEFAULT_PALETTE_TERRAIN: Terrain = 0b0100_0001;

/// One element of a list of palette indices
#[derive(Clone, Debug)]
pub enum PaletteItem {
    /// An inclusive range "a-b"
    Range(String),
    /// A single index
    Index(i64),
    /// Anything else (not allowed)
    Other,
}

/// The palette indices an entry selects
#[derive(Clone, Debug)]
pub enum PaletteValue {
    /// An inclusive range "a-b"
    Range(String),
    /// A single index
    Index(i64),
    /// A list of indices and ranges
    List(Vec<PaletteItem>),
    /// Anything else (not allowed)
    Other,
}

/// A palette mapping entry: terrain name with modifiers, and the indices it covers
#[derive(Clone, Debug)]
pub struct PaletteEntry {
    pub key: String,
    pub value: PaletteValue,
}

/// Why a palette mapping was rejected
#[derive(Clone, Copy, Debug, PartialEq, Eq, Structural)]
pub enum PaletteError {
    /// A key modifier other than "uw" or "i"
    UnknownModifier,
    /// A terrain name that does not exist
    UnknownTerrainType,
    /// A single index outside 0-255
    IndexOutOfRange,
    /// A list element that is neither a number nor a range
    ExpectedNumberOrRange,
    /// A value that is neither a number, a range nor a list
    BadMapping,
    /// A range without a '-' separator
    InvalidRange,
    /// A range bound that is not a decimal number
    BadNumber,
    /// A range bound above 255
    RangeOutOfBounds,
}

// ---------------------------------------------------------------------------
// Specification

/// Is c an ASCII decimal digit?
pub open spec fn is_digit(c: char) -> bool {
    '0' <= c <= '9'
}

/// Does s consist of decimal digits only?
pub open spec fn all_digits(s: Seq<char>) -> bool {
    forall|i: int| 0 <= i < s.len() ==> is_digit(#[trigger] s[i])
}

/// Value of the decimal digits s[0..n]
pub open spec fn digits_value(s: Seq<char>, n: int) -> int
    decreases n,
{
    if n <= 0 {
        0
    } else {
        digits_value(s, n - 1) * 10 + (s[n - 1] as int - '0' as int)
    }
}

/// The value of an unsigned decimal number (optional leading '+', at least one
/// digit, no other characters) that fits in a usize; None otherwise.
pub open spec fn spec_parse_usize(s: Seq<char>) -> Option<int> {
    let d = if s.len() > 0 && s[0] == '+' {
        s.drop_first()
    } else {
        s
    };
    if d.len() > 0 && all_digits(d) && digits_value(d, d.len() as int) <= usize::MAX {
        Some(digits_value(d, d.len() as int))
    } else {
        None
    }
}

/// Index of the first '-' in s at or after `from`, or s.len() if none
pub open spec fn next_dash(s: Seq<char>, from: int) -> int
    decreases s.len() - from,
{
    if from >= s.len() {
        s.len() as int
    } else if s[from] == '-' {
        from
    } else {
        next_dash(s, from + 1)
    }
}

pub proof fn lemma_next_dash(s: Seq<char>, from: int)
    requires
        0 <= from <= s.len(),
    ensures
        from <= next_dash(s, from) <= s.len(),
        next_dash(s, from) < s.len() ==> s[next_dash(s, from)] == '-',
        forall|k: int| from <= k < next_dash(s, from) ==> s[k] != '-',
    decreases s.len() - from,
{
    if from < s.len() && s[from] != '-' {
        lemma_next_dash(s, from + 1);
    }
}

/// The bounds of a range "a-b" (split at the first '-')
pub open spec fn spec_parse_range(s: Seq<char>) -> Result<(int, int), PaletteError> {
    let sep = next_dash(s, 0);
    if sep >= s.len() {
        Err(PaletteError::InvalidRange)
    } else {
        match (spec_parse_usize(s.subrange(0, sep)), spec_parse_usize(s.subrange(sep + 1, s.len() as int))) {
            (Some(a), Some(b)) => if a > 255 || b > 255 {
                Err(PaletteError::RangeOutOfBounds)
            } else {
                Ok((a, b))
            },
            _ => Err(PaletteError::BadNumber),
        }
    }
}

/// The terrain type a terrain name stands for
pub open spec fn terrain_for_name(name: Seq<char>) -> Option<Terrain> {
    if name == "space"@ {
        Some(0)
    } else if name == "water"@ {
        Some(TER_BIT_WATER)
    } else if name == "paint"@ {
        Some(TER_BIT_DESTRUCTIBLE)
    } else if name == "ground"@ {
        Some(TER_TYPE_GROUND | TER_BIT_DESTRUCTIBLE)
    } else if name == "burnable"@ {
        Some(TER_TYPE_BURNABLE | TER_BIT_DESTRUCTIBLE)
    } else if name == "cinder"@ {
        Some(TER_TYPE_CINDER | TER_BIT_DESTRUCTIBLE)
    } else if name == "explosive"@ {
        Some(TER_TYPE_EXPLOSIVE | TER_BIT_DESTRUCTIBLE)
    } else if name == "highexplosive"@ {
        Some(TER_TYPE_HIGH_EXPLOSIVE | TER_BIT_DESTRUCTIBLE)
    } else if name == "ice"@ {
        Some(TER_TYPE_ICE | TER_BIT_DESTRUCTIBLE)
    } else if name == "base"@ {
        Some(TER_TYPE_BASE | TER_BIT_DESTRUCTIBLE)
    } else if name == "basesupport"@ {
        Some(TER_TYPE_BASESUPPORT | TER_BIT_DESTRUCTIBLE)
    } else if name == "noregenbase"@ {
        Some(TER_TYPE_NOREGENBASE | TER_BIT_DESTRUCTIBLE)
    } else if name == "walkway"@ {
        Some(TER_TYPE_WALKWAY | TER_BIT_DESTRUCTIBLE)
    } else if name == "greygoo"@ {
        Some(TER_TYPE_GREYGOO | TER_BIT_DESTRUCTIBLE)
    } else if name == "damage"@ {
        Some(TER_TYPE_DAMAGE | TER_BIT_DESTRUCTIBLE)
    } else {
        None
    }
}

/// The name a palette gives solid terrain type `ty` (1 to 12): the name of its constant
pub open spec fn solid_type_name(ty: Terrain) -> Seq<char> {
    if ty == TER_TYPE_GROUND {
        "ground"@
    } else if ty == TER_TYPE_BURNABLE {
        "burnable"@
    } else if ty == TER_TYPE_CINDER {
        "cinder"@
    } else if ty == TER_TYPE_EXPLOSIVE {
        "explosive"@
    } else if ty == TER_TYPE_HIGH_EXPLOSIVE {
        "highexplosive"@
    } else if ty == TER_TYPE_ICE {
        "ice"@
    } else if ty == TER_TYPE_BASE {
        "base"@
    } else if ty == TER_TYPE_NOREGENBASE {
        "noregenbase"@
    } else if ty == TER_TYPE_BASESUPPORT {
        "basesupport"@
    } else if ty == TER_TYPE_WALKWAY {
        "walkway"@
    } else if ty == TER_TYPE_GREYGOO {
        "greygoo"@
    } else {
        "damage"@
    }
}

/// Each solid terrain type is loaded, destructible, from the name of its constant;
/// "space", "water" and "paint" hold no solid (only "water" is underwater, only
/// "paint" is destructible); and two names that load the same terrain are the same name.
pub proof fn law_terrain_names(ty: Terrain, a: Seq<char>, b: Seq<char>)
    ensures
        1 <= ty <= 12 ==> terrain_for_name(solid_type_name(ty)) == Some((ty | TER_BIT_DESTRUCTIBLE) as Terrain),
        1 <= ty <= 12 ==> solid_type(ty | TER_BIT_DESTRUCTIBLE) == ty,
        terrain_for_name("space"@) == Some(0u8),
        terrain_for_name("water"@) == Some(TER_BIT_WATER),
        terrain_for_name("paint"@) == Some(TER_BIT_DESTRUCTIBLE),
        terrain_for_name(a) is Some && terrain_for_name(a) == terrain_for_name(b) ==> a == b,
{
    reveal_strlit("space");
    reveal_strlit("water");
    reveal_strlit("paint");
    reveal_strlit("ground");
    reveal_strlit("burnable");
    reveal_strlit("cinder");
    reveal_strlit("explosive");
    reveal_strlit("highexplosive");
    reveal_strlit("ice");
    reveal_strlit("base");
    reveal_strlit("basesupport");
    reveal_strlit("noregenbase");
    reveal_strlit("walkway");
    reveal_strlit("greygoo");
    reveal_strlit("damage");
    assert("water"@[0] != "space"@[0]);
    assert("paint"@[0] != "space"@[0]);
    assert("paint"@[0] != "water"@[0]);
    assert("ground"@.len() != "space"@.len());
    assert("ground"@.len() != "water"@.len());
    assert("ground"@.len() != "paint"@.len());
    assert("burnable"@.len() != "space"@.len());
    assert("burnable"@.len() != "water"@.len());
    assert("burnable"@.len() != "paint"@.len());
    assert("burnable"@.len() != "ground"@.len());
    assert("cinder"@.len() != "space"@.len());
    assert("cinder"@.len() != "water"@.len());
    assert("cinder"@.len() != "paint"@.len());
    assert("cinder"@[0] != "ground"@[0]);
    assert("cinder"@.len() != "burnable"@.len());
    assert("explosive"@.len() != "space"@.len());
    assert("explosive"@.len() != "water"@.len());
    assert("explosive"@.len() != "paint"@.len());
    assert("explosive"@.len() != "ground"@.len());
    assert("explosive"@.len() != "burnable"@.len());
    assert("explosive"@.len() != "cinder"@.len());
    assert("highexplosive"@.len() != "space"@.len());
    assert("highexplosive"@.len() != "water"@.len());
    assert("highexplosive"@.len() != "paint"@.len());
    assert("highexplosive"@.len() != "ground"@.len());
    assert("highexplosive"@.len() != "burnable"@.len());
    assert("highexplosive"@.len() != "cinder"@.len());
    assert("highexplosive"@.len() != "explosive"@.len());
    assert("ice"@.len() != "space"@.len());
    assert("ice"@.len() != "water"@.len());
    assert("ice"@.len() != "paint"@.len());
    assert("ice"@.len() != "ground"@.len());
    assert("ice"@.len() != "burnable"@.len());
    assert("ice"@.len() != "cinder"@.len());
    assert("ice"@.len() != "explosive"@.len());
    assert("ice"@.len() != "highexplosive"@.len());
    assert("base"@.len() != "space"@.len());
    assert("base"@.len() != "water"@.len());
    assert("base"@.len() != "paint"@.len());
    assert("base"@.len() != "ground"@.len());
    assert("base"@.len() != "burnable"@.len());
    assert("base"@.len() != "cinder"@.len());
    assert("base"@.len() != "explosive"@.len());
    assert("base"@.len() != "highexplosive"@.len());
    assert("base"@.len() != "ice"@.len());
    assert("basesupport"@.len() != "space"@.len());
    assert("basesupport"@.len() != "water"@.len());
    assert("basesupport"@.len() != "paint"@.len());
    assert("basesupport"@.len() != "ground"@.len());
    assert("basesupport"@.len() != "burnable"@.len());
    assert("basesupport"@.len() != "cinder"@.len());
    assert("basesupport"@.len() != "explosive"@.len());
    assert("basesupport"@.len() != "highexplosive"@.len());
    assert("basesupport"@.len() != "ice"@.len());
    assert("basesupport"@.len() != "base"@.len());
    assert("noregenbase"@.len() != "space"@.len());
    assert("noregenbase"@.len() != "water"@.len());
    assert("noregenbase"@.len() != "paint"@.len());
    assert("noregenbase"@.len() != "ground"@.len());
    assert("noregenbase"@.len() != "burnable"@.len());
    assert("noregenbase"@.len() != "cinder"@.len());
    assert("noregenbase"@.len() != "explosive"@.len());
    assert("noregenbase"@.len() != "highexplosive"@.len());
    assert("noregenbase"@.len() != "ice"@.len());
    assert("noregenbase"@.len() != "base"@.len());
    assert("noregenbase"@[0] != "basesupport"@[0]);
    assert("walkway"@.len() != "space"@.len());
    assert("walkway"@.len() != "water"@.len());
    assert("walkway"@.len() != "paint"@.len());
    assert("walkway"@.len() != "ground"@.len());
    assert("walkway"@.len() != "burnable"@.len());
    assert("walkway"@.len() != "cinder"@.len());
    assert("walkway"@.len() != "explosive"@.len());
    assert("walkway"@.len() != "highexplosive"@.len());
    assert("walkway"@.len() != "ice"@.len());
    assert("walkway"@.len() != "base"@.len());
    assert("walkway"@.len() != "basesupport"@.len());
    assert("walkway"@.len() != "noregenbase"@.len());
    assert("greygoo"@.len() != "space"@.len());
    assert("greygoo"@.len() != "water"@.len());
    assert("greygoo"@.len() != "paint"@.len());
    assert("greygoo"@.len() != "ground"@.len());
    assert("greygoo"@.len() != "burnable"@.len());
    assert("greygoo"@.len() != "cinder"@.len());
    assert("greygoo"@.len() != "explosive"@.len());
    assert("greygoo"@.len() != "highexplosive"@.len());
    assert("greygoo"@.len() != "ice"@.len());
    assert("greygoo"@.len() != "base"@.len());
    assert("greygoo"@.len() != "basesupport"@.len());
    assert("greygoo"@.len() != "noregenbase"@.len());
    assert("greygoo"@[0] != "walkway"@[0]);
    assert("damage"@.len() != "space"@.len());
    assert("damage"@.len() != "water"@.len());
    assert("damage"@.len() != "paint"@.len());
    assert("damage"@[0] != "ground"@[0]);
    assert("damage"@.len() != "burnable"@.len());
    assert("damage"@[0] != "cinder"@[0]);
    assert("damage"@.len() != "explosive"@.len());
    assert("damage"@.len() != "highexplosive"@.len());
    assert("damage"@.len() != "ice"@.len());
    assert("damage"@.len() != "base"@.len());
    assert("damage"@.len() != "basesupport"@.len());
    assert("damage"@.len() != "noregenbase"@.len());
    assert("damage"@.len() != "walkway"@.len());
    assert("damage"@.len() != "greygoo"@.len());
    assert(forall|t: u8| 1 <= t <= 12 ==> #[trigger] ((t | 0x40u8) % 32) == t) by (bit_vector);
    assert(forall|t: u8, u: u8| 1 <= t <= 12 && 1 <= u <= 12 && t != u ==> #[trigger] (t | 0x40u8) != #[trigger] (u | 0x40u8))
        by (bit_vector);
    assert(forall|t: u8| 1 <= t <= 12 ==> #[trigger] (t | 0x40u8) != 0 && (t | 0x40u8) != 0x80u8 && (t | 0x40u8) != 0x40u8)
        by (bit_vector);
}

/// The bits set and the bits cleared by the modifiers of key k from position
/// `from` on (modifiers are separated by '-').
pub open spec fn spec_modifiers(k: Seq<char>, from: int) -> Result<(Terrain, Terrain), PaletteError>
    decreases k.len() - from,
{
    if from < 0 || from > k.len() {
        Ok((0, 0))
    } else {
        let j = next_dash(k, from);
        let part = k.subrange(from, j);
        let this: Result<(Terrain, Terrain), PaletteError> = if part == "uw"@ {
            Ok((TER_BIT_WATER, 0))
        } else if part == "i"@ {
            Ok((0, TER_BIT_DESTRUCTIBLE))
        } else {
            Err(PaletteError::UnknownModifier)
        };
        match this {
            Err(e) => Err(e),
            Ok((s1, c1)) => if j < k.len() && j >= from {
                match spec_modifiers(k, j + 1) {
                    Err(e) => Err(e),
                    Ok((s2, c2)) => Ok((s1 | s2, c1 | c2)),
                }
            } else {
                Ok((s1, c1))
            },
        }
    }
}

/// The terrain type a palette key denotes
pub open spec fn spec_key_terrain(k: Seq<char>) -> Result<Terrain, PaletteError> {
    let j = next_dash(k, 0);
    let mods = if j < k.len() {
        spec_modifiers(k, j + 1)
    } else {
        Ok((0u8, 0u8))
    };
    match mods {
        Err(e) => Err(e),
        Ok((set, clear)) => match terrain_for_name(k.subrange(0, j)) {
            None => Err(PaletteError::UnknownTerrainType),
            Some(base) => Ok(set | (base & !clear)),
        },
    }
}

/// The result of applying part of a palette mapping
pub enum PaletteOutcome {
    Mapped(Seq<Terrain>),
    Failed(PaletteError),
    /// A range whose start lies more than one past its end: indexing with it panics
    Reversed,
}

/// m with the indices a..=b set to t
pub open spec fn fill_range(m: Seq<Terrain>, a: int, b: int, t: Terrain) -> Seq<Terrain> {
    Seq::new(m.len(), |i: int| if a <= i <= b { t } else { m[i] })
}

pub open spec fn apply_range(m: Seq<Terrain>, s: Seq<char>, t: Terrain) -> PaletteOutcome {
    match spec_parse_range(s) {
        Err(e) => PaletteOutcome::Failed(e),
        Ok((a, b)) => if a > b + 1 {
            PaletteOutcome::Reversed
        } else {
            PaletteOutcome::Mapped(fill_range(m, a, b, t))
        },
    }
}

pub open spec fn apply_index(m: Seq<Terrain>, v: i64, t: Terrain) -> PaletteOutcome {
    if v < 0 || v > 255 {
        PaletteOutcome::Failed(PaletteError::IndexOutOfRange)
    } else {
        PaletteOutcome::Mapped(m.update(v as int, t))
    }
}

pub open spec fn apply_item(m: Seq<Terrain>, item: PaletteItem, t: Terrain) -> PaletteOutcome {
    match item {
        PaletteItem::Range(s) => apply_range(m, s@, t),
        PaletteItem::Index(v) => apply_index(m, v, t),
        PaletteItem::Other => PaletteOutcome::Failed(PaletteError::ExpectedNumberOrRange),
    }
}

/// Applying the first n items of a list
pub open spec fn apply_items(m: Seq<Terrain>, items: Seq<PaletteItem>, n: int, t: Terrain) -> PaletteOutcome
    decreases n,
{
    if n <= 0 {
        PaletteOutcome::Mapped(m)
    } else {
        match apply_items(m, items, n - 1, t) {
            PaletteOutcome::Mapped(m2) => apply_item(m2, items[n - 1], t),
            other => other,
        }
    }
}

pub open spec fn apply_value(m: Seq<Terrain>, v: PaletteValue, t: Terrain) -> PaletteOutcome {
    match v {
        PaletteValue::Range(s) => apply_range(m, s@, t),
        PaletteValue::Index(i) => apply_index(m, i, t),
        PaletteValue::List(items) => apply_items(m, items@, items@.len() as int, t),
        PaletteValue::Other => PaletteOutcome::Failed(PaletteError::BadMapping),
    }
}

pub open spec fn apply_entry(m: Seq<Terrain>, e: PaletteEntry) -> PaletteOutcome {
    match spec_key_terrain(e.key@) {
        Err(err) => PaletteOutcome::Failed(err),
        Ok(t) => apply_value(m, e.value, t),
    }
}

/// The palette before any entry is applied
pub open spec fn default_palette() -> Seq<Terrain> {
    Seq::new(PALETTE_SIZE as nat, |i: int| DEFAULT_PALETTE_TERRAIN)
}

/// Applying the first n entries of a mapping
pub open spec fn apply_entries(entries: Seq<PaletteEntry>, n: int) -> PaletteOutcome
    decreases n,
{
    if n <= 0 {
        PaletteOutcome::Mapped(default_palette())
    } else {
        match apply_entries(entries, n - 1) {
            PaletteOutcome::Mapped(m) => apply_entry(m, entries[n - 1]),
            other => other,
        }
    }
}

/// The outcome of a whole palette mapping
pub open spec fn spec_palette(entries: Seq<PaletteEntry>) -> PaletteOutcome {
    apply_entries(entries, entries.len() as int)
}

// ---------------------------------------------------------------------------
// Implementation

/// The characters of a string
pub fn str_chars(s: &str) -> (r: Vec<char>)
    ensures
        r@ == s@,
{
    let n = s.unicode_len();
    let mut r: Vec<char> = Vec::new();
    let mut i: usize = 0;
    while i < n
        invariant
            n == s@.len(),
            i <= n,
            r@ == s@.subrange(0, i as int),
        decreases n - i,
    {
        r.push(s.get_char(i));
        i += 1;
    }
    assert(r@ =~= s@);
    r
}

/// Do the characters c[from..to] spell the string lit?
fn chars_equal(c: &Vec<char>, from: usize, to: usize, lit: &str) -> (r: bool)
    requires
        from <= to <= c.len(),
    ensures
        r == (c@.subrange(from as int, to as int) == lit@),
{
    let n = lit.unicode_len();
    if to - from != n {
        assert(c@.subrange(from as int, to as int).len() != lit@.len());
        return false;
    }
    let mut i: usize = 0;
    while i < n
        invariant
            n == lit@.len(),
            to - from == n,
            from <= to <= c.len(),
            i <= n,
            forall|k: int| 0 <= k < i ==> c@[from + k] == lit@[k],
        decreases n - i,
    {
        if c[from + i] != lit.get_char(i) {
            assert(c@.subrange(from as int, to as int)[i as int] != lit@[i as int]);
            return false;
        }
        i += 1;
    }
    assert(c@.subrange(from as int, to as int) =~= lit@);
    true
}

/// Index of the first '-' in c at or after `from`, or c.len()
fn find_dash(c: &Vec<char>, from: usize) -> (r: usize)
    requires
        from <= c.len(),
    ensures
        r == next_dash(c@, from as int),
{
    let mut i = from;
    while i < c.len() && c[i] != '-'
        invariant
            from <= i <= c.len(),
            next_dash(c@, i as int) == next_dash(c@, from as int),
        decreases c.len() - i,
    {
        i += 1;
    }
    i
}

proof fn lemma_digits_value_bound(s: Seq<char>, n: int)
    requires
        0 <= n <= s.len(),
        forall|i: int| 0 <= i < n ==> is_digit(#[trigger] s[i]),
    ensures
        digits_value(s, n) >= 0,
    decreases n,
{
    if n > 0 {
        lemma_digits_value_bound(s, n - 1);
    }
}

proof fn lemma_digits_value_monotone(s: Seq<char>, n: int, m: int)
    requires
        0 <= n <= m <= s.len(),
        forall|i: int| 0 <= i < s.len() ==> is_digit(#[trigger] s[i]),
    ensures
        digits_value(s, n) <= digits_value(s, m),
    decreases m - n,
{
    if n < m {
        lemma_digits_value_monotone(s, n, m - 1);
        lemma_digits_value_bound(s, m - 1);
        assert(digits_value(s, m) == digits_value(s, m - 1) * 10 + (s[m - 1] as int - '0' as int));
    }
}

/// Parse the decimal number c[from..to] like `str::parse::<usize>` does
fn parse_usize(c: &Vec<char>, from: usize, to: usize) -> (r: Option<usize>)
    requires
        from <= to <= c.len(),
    ensures
        r matches Some(v) ==> spec_parse_usize(c@.subrange(from as int, to as int)) == Some(v as int),
        r is None ==> spec_parse_usize(c@.subrange(from as int, to as int)) is None,
{
    let ghost s = c@.subrange(from as int, to as int);
    let mut start = from;
    if start < to && c[start] == '+' {
        start += 1;
    }
    let ghost d = c@.subrange(start as int, to as int);
    assert(d =~= (if s.len() > 0 && s[0] == '+' { s.drop_first() } else { s }));
    if start == to {
        return None;
    }
    let mut value: usize = 0;
    let mut i = start;
    let mut overflow = false;
    while i < to
        invariant
            from <= start < to <= c.len(),
            start <= i <= to,
            d == c@.subrange(start as int, to as int),
            s == c@.subrange(from as int, to as int),
            d == (if s.len() > 0 && s[0] == '+' { s.drop_first() } else { s }),
            forall|k: int| 0 <= k < i - start ==> is_digit(#[trigger] d[k]),
            !overflow ==> value == digits_value(d, i - start),
            overflow ==> digits_value(d, i - start) > usize::MAX,
        decreases to - i,
    {
        let ch = c[i];
        if !('0' <= ch && ch <= '9') {
            assert(!is_digit(d[i - start]));
            assert(!(forall|k: int| 0 <= k < d.len() ==> is_digit(#[trigger] d[k])));
            let ghost dd = if s.len() > 0 && s[0] == '+' { s.drop_first() } else { s };
            assert(dd == d);
            assert(!all_digits(dd));
            assert(spec_parse_usize(s) is None);
            return None;
        }
        let digit = (ch as u32 - '0' as u32) as usize;
        proof {
            lemma_digits_value_bound(d, i - start);
            assert(d[i - start] == ch);
            assert(digits_value(d, i - start + 1) == digits_value(d, i - start) * 10 + digit);
        }
        if !overflow {
            match value.checked_mul(10) {
                Some(v10) => match v10.checked_add(digit) {
                    Some(v) => {
                        value = v;
                    },
                    None => {
                        overflow = true;
                    },
                },
                None => {
                    overflow = true;
                },
            }
        }
        i += 1;
    }
    if overflow {
        None
    } else {
        Some(value)
    }
}

/// Split a range "a-b" (at its first '-') into its bounds
fn parse_range_bounds(c: &Vec<char>) -> (r: Result<(usize, usize), PaletteError>)
    ensures
        r matches Ok((a, b)) ==> spec_parse_range(c@) == Ok::<(int, int), PaletteError>((a as int, b as int)),
        r matches Err(e) ==> spec_parse_range(c@) == Err::<(int, int), PaletteError>(e),
{
    let sep = find_dash(c, 0);
    if sep >= c.len() {
        return Err(PaletteError::InvalidRange);
    }
    let start = parse_usize(c, 0, sep);
    let end = parse_usize(c, sep + 1, c.len());
    match (start, end) {
        (Some(a), Some(b)) => if a > 255 || b > 255 {
            Err(PaletteError::RangeOutOfBounds)
        } else {
            Ok((a, b))
        },
        _ => Err(PaletteError::BadNumber),
    }
}

/// Parse an inclusive palette index range "a-b". Both bounds must be at most 255.
pub fn parse_range(rangestr: &str) -> (r: Result<RangeInclusive<usize>, PaletteError>)
    ensures
        r matches Ok(range) ==> spec_parse_range(rangestr@) == Ok::<(int, int), PaletteError>(
            (range@.start as int, range@.end as int)) && !range@.exhausted,
        r matches Err(e) ==> spec_parse_range(rangestr@) == Err::<(int, int), PaletteError>(e),
{
    let c = str_chars(rangestr);
    match parse_range_bounds(&c) {
        Ok((a, b)) => Ok(RangeInclusive::new(a, b)),
        Err(e) => Err(e),
    }
}

/// Does the result r with final palette m agree with the specified outcome?
pub open spec fn outcome_holds<T>(r: Result<T, PaletteError>, m: Seq<Terrain>, o: PaletteOutcome) -> bool {
    match o {
        PaletteOutcome::Mapped(m2) => r is Ok && m == m2,
        PaletteOutcome::Failed(e) => r matches Err(e2) && e2 == e,
        PaletteOutcome::Reversed => false,
    }
}

proof fn lemma_items_settle(m: Seq<Terrain>, items: Seq<PaletteItem>, k: int, n: int, t: Terrain)
    requires
        0 <= k <= n,
        !(apply_items(m, items, k, t) is Mapped),
    ensures
        apply_items(m, items, n, t) == apply_items(m, items, k, t),
    decreases n - k,
{
    if n > k {
        lemma_items_settle(m, items, k, n - 1, t);
    }
}

proof fn lemma_entries_settle(entries: Seq<PaletteEntry>, k: int, n: int)
    requires
        0 <= k <= n,
        !(apply_entries(entries, k) is Mapped),
    ensures
        apply_entries(entries, n) == apply_entries(entries, k),
    decreases n - k,
{
    if n > k {
        lemma_entries_settle(entries, k, n - 1);
    }
}

/// The terrain type named by c[0..end]
fn name_terrain(c: &Vec<char>, end: usize) -> (r: Option<Terrain>)
    requires
        end <= c.len(),
    ensures
        r == terrain_for_name(c@.subrange(0, end as int)),
{
    if chars_equal(c, 0, end, "space") {
        Some(0)
    } else if chars_equal(c, 0, end, "water") {
        Some(TER_BIT_WATER)
    } else if chars_equal(c, 0, end, "paint") {
        Some(TER_BIT_DESTRUCTIBLE)
    } else if chars_equal(c, 0, end, "ground") {
        Some(TER_TYPE_GROUND | TER_BIT_DESTRUCTIBLE)
    } else if chars_equal(c, 0, end, "burnable") {
        Some(TER_TYPE_BURNABLE | TER_BIT_DESTRUCTIBLE)
    } else if chars_equal(c, 0, end, "cinder") {
        Some(TER_TYPE_CINDER | TER_BIT_DESTRUCTIBLE)
    } else if chars_equal(c, 0, end, "explosive") {
        Some(TER_TYPE_EXPLOSIVE | TER_BIT_DESTRUCTIBLE)
    } else if chars_equal(c, 0, end, "highexplosive") {
        Some(TER_TYPE_HIGH_EXPLOSIVE | TER_BIT_DESTRUCTIBLE)
    } else if chars_equal(c, 0, end, "ice") {
        Some(TER_TYPE_ICE | TER_BIT_DESTRUCTIBLE)
    } else if chars_equal(c, 0, end, "base") {
        Some(TER_TYPE_BASE | TER_BIT_DESTRUCTIBLE)
    } else if chars_equal(c, 0, end, "basesupport") {
        Some(TER_TYPE_BASESUPPORT | TER_BIT_DESTRUCTIBLE)
    } else if chars_equal(c, 0, end, "noregenbase") {
        Some(TER_TYPE_NOREGENBASE | TER_BIT_DESTRUCTIBLE)
    } else if chars_equal(c, 0, end, "walkway") {
        Some(TER_TYPE_WALKWAY | TER_BIT_DESTRUCTIBLE)
    } else if chars_equal(c, 0, end, "greygoo") {
        Some(TER_TYPE_GREYGOO | TER_BIT_DESTRUCTIBLE)
    } else if chars_equal(c, 0, end, "damage") {
        Some(TER_TYPE_DAMAGE | TER_BIT_DESTRUCTIBLE)
    } else {
        None
    }
}

/// The bits set and cleared by the modifiers of c from position `from` on
fn modifiers(c: &Vec<char>, from: usize) -> (r: Result<(Terrain, Terrain), PaletteError>)
    requires
        from <= c.len(),
    ensures
        r == spec_modifiers(c@, from as int),
    decreases c.len() - from,
{
    let j = find_dash(c, from);
    proof {
        lemma_next_dash(c@, from as int);
    }
    let this: Result<(Terrain, Terrain), PaletteError> = if chars_equal(c, from, j, "uw") {
        Ok((TER_BIT_WATER, 0))
    } else if chars_equal(c, from, j, "i") {
        Ok((0, TER_BIT_DESTRUCTIBLE))
    } else {
        Err(PaletteError::UnknownModifier)
    };
    match this {
        Err(e) => Err(e),
        Ok((s1, c1)) => if j < c.len() {
            match modifiers(c, j + 1) {
                Err(e) => Err(e),
                Ok((s2, c2)) => Ok((s1 | s2, c1 | c2)),
            }
        } else {
            Ok((s1, c1))
        },
    }
}

/// The terrain type a palette key denotes
pub fn key_terrain(key: &str) -> (r: Result<Terrain, PaletteError>)
    ensures
        r == spec_key_terrain(key@),
{
    let c = str_chars(key);
    let j = find_dash(&c, 0);
    proof {
        lemma_next_dash(c@, 0);
    }
    let mods = if j < c.len() {
        modifiers(&c, j + 1)
    } else {
        Ok((0u8, 0u8))
    };
    match mods {
        Err(e) => Err(e),
        Ok((set, clear)) => match name_terrain(&c, j) {
            None => Err(PaletteError::UnknownTerrainType),
            Some(base) => Ok(set | (base & !clear)),
        },
    }
}

fn fill_palette_range(m: &mut Vec<Terrain>, a: usize, b: usize, t: Terrain)
    requires
        old(m).len() == PALETTE_SIZE,
        a <= b + 1,
        b < PALETTE_SIZE,
    ensures
        final(m)@ == fill_range(old(m)@, a as int, b as int, t),
{
    let mut i = a;
    while i <= b
        invariant
            a <= i <= b + 1,
            b < PALETTE_SIZE,
            m.len() == PALETTE_SIZE,
            forall|k: int|
                0 <= k < PALETTE_SIZE ==> #[trigger] m@[k] == (if a <= k < i { t } else { old(m)@[k] }),
        decreases b + 1 - i,
    {
        m.set(i, t);
        i += 1;
    }
    assert(m@ =~= fill_range(old(m)@, a as int, b as int, t));
}

fn apply_range_exec(m: &mut Vec<Terrain>, s: &String, t: Terrain) -> (r: Result<(), PaletteError>)
    requires
        old(m).len() == PALETTE_SIZE,
        !(apply_range(old(m)@, s@, t) is Reversed),
    ensures
        final(m).len() == PALETTE_SIZE,
        outcome_holds(r, final(m)@, apply_range(old(m)@, s@, t)),
{
    let c = str_chars(s.as_str());
    match parse_range_bounds(&c) {
        Err(e) => Err(e),
        Ok((a, b)) => {
            fill_palette_range(m, a, b, t);
            Ok(())
        },
    }
}

fn apply_index_exec(m: &mut Vec<Terrain>, v: i64, t: Terrain) -> (r: Result<(), PaletteError>)
    requires
        old(m).len() == PALETTE_SIZE,
    ensures
        final(m).len() == PALETTE_SIZE,
        outcome_holds(r, final(m)@, apply_index(old(m)@, v, t)),
{
    if v < 0 || v > 255 {
        return Err(PaletteError::IndexOutOfRange);
    }
    m.set(v as usize, t);
    Ok(())
}

fn apply_item_exec(m: &mut Vec<Terrain>, item: &PaletteItem, t: Terrain) -> (r: Result<(), PaletteError>)
    requires
        old(m).len() == PALETTE_SIZE,
        !(apply_item(old(m)@, *item, t) is Reversed),
    ensures
        final(m).len() == PALETTE_SIZE,
        outcome_holds(r, final(m)@, apply_item(old(m)@, *item, t)),
{
    match item {
        PaletteItem::Range(s) => apply_range_exec(m, s, t),
        PaletteItem::Index(v) => apply_index_exec(m, *v, t),
        PaletteItem::Other => Err(PaletteError::ExpectedNumberOrRange),
    }
}

fn apply_value_exec(m: &mut Vec<Terrain>, value: &PaletteValue, t: Terrain) -> (r: Result<(), PaletteError>)
    requires
        old(m).len() == PALETTE_SIZE,
        !(apply_value(old(m)@, *value, t) is Reversed),
    ensures
        final(m).len() == PALETTE_SIZE,
        outcome_holds(r, final(m)@, apply_value(old(m)@, *value, t)),
{
    match value {
        PaletteValue::Range(s) => apply_range_exec(m, s, t),
        PaletteValue::Index(v) => apply_index_exec(m, *v, t),
        PaletteValue::List(items) => {
            let ghost m0 = m@;
            assert(*value == PaletteValue::List(*items));
            assert(apply_value(m0, *value, t) == apply_items(m0, items@, items@.len() as int, t));
            let n = items.len();
            let mut k: usize = 0;
            while k < n
                invariant
                    n == items@.len(),
                    k <= n,
                    m.len() == PALETTE_SIZE,
                    apply_items(m0, items@, k as int, t) == PaletteOutcome::Mapped(m@),
                    !(apply_items(m0, items@, n as int, t) is Reversed),
                    m0 == old(m)@,
                    apply_value(m0, *value, t) == apply_items(m0, items@, n as int, t),
                decreases n - k,
            {
                let ghost before = m@;
                proof {
                    if apply_item(before, items@[k as int], t) is Reversed {
                        lemma_items_settle(m0, items@, k + 1, n as int, t);
                    }
                }
                let step = apply_item_exec(m, &items[k], t);
                match step {
                    Err(e) => {
                        proof {
                            assert(apply_items(m0, items@, k + 1, t) == apply_item(
                                before,
                                items@[k as int],
                                t,
                            ));
                            lemma_items_settle(m0, items@, k + 1, n as int, t);
                            assert(apply_value(m0, *value, t) == apply_items(m0, items@, n as int, t));
                        }
                        return Err(e);
                    },
                    Ok(()) => {},
                }
                k += 1;
            }
            Ok(())
        },
        PaletteValue::Other => Err(PaletteError::BadMapping),
    }
}

/// Whether applying part of a palette mapping goes through, fails, or would index
/// with a reversed range
#[derive(Clone, Copy, Debug, PartialEq, Eq, Structural)]
enum Status {
    Mapped,
    Failed,
    Reversed,
}

spec fn status_of(o: PaletteOutcome) -> Status {
    match o {
        PaletteOutcome::Mapped(_) => Status::Mapped,
        PaletteOutcome::Failed(_) => Status::Failed,
        PaletteOutcome::Reversed => Status::Reversed,
    }
}

/// How applying a range to palette m turns out (the same for every m)
fn range_status(s: &String, Ghost(m): Ghost<Seq<Terrain>>, t: Terrain) -> (r: Status)
    ensures
        r == status_of(apply_range(m, s@, t)),
{
    let c = str_chars(s.as_str());
    match parse_range_bounds(&c) {
        Err(_) => Status::Failed,
        Ok((a, b)) => if a > b + 1 {
            Status::Reversed
        } else {
            Status::Mapped
        },
    }
}

/// How applying an item of a list to palette m turns out (the same for every m)
fn item_status(item: &PaletteItem, Ghost(m): Ghost<Seq<Terrain>>, t: Terrain) -> (r: Status)
    ensures
        r == status_of(apply_item(m, *item, t)),
{
    match item {
        PaletteItem::Range(s) => range_status(s, Ghost(m), t),
        PaletteItem::Index(v) => if *v < 0 || *v > 255 {
            Status::Failed
        } else {
            Status::Mapped
        },
        PaletteItem::Other => Status::Failed,
    }
}

/// How applying an entry's value to palette m turns out
fn value_status(value: &PaletteValue, Ghost(m): Ghost<Seq<Terrain>>, t: Terrain) -> (r: Status)
    ensures
        r == status_of(apply_value(m, *value, t)),
{
    match value {
        PaletteValue::Range(s) => range_status(s, Ghost(m), t),
        PaletteValue::Index(v) => if *v < 0 || *v > 255 {
            Status::Failed
        } else {
            Status::Mapped
        },
        PaletteValue::List(items) => {
            assert(apply_value(m, *value, t) == apply_items(m, items@, items@.len() as int, t));
            let n = items.len();
            let mut k: usize = 0;
            while k < n
                invariant
                    n == items@.len(),
                    k <= n,
                    apply_items(m, items@, k as int, t) is Mapped,
                    apply_value(m, *value, t) == apply_items(m, items@, n as int, t),
                decreases n - k,
            {
                let ghost mk = match apply_items(m, items@, k as int, t) {
                    PaletteOutcome::Mapped(mm) => mm,
                    _ => m,
                };
                let st = item_status(&items[k], Ghost(mk), t);
                proof {
                    assert(apply_items(m, items@, k + 1, t) == apply_item(mk, items@[k as int], t));
                }
                if st != Status::Mapped {
                    proof {
                        lemma_items_settle(m, items@, k + 1, n as int, t);
                    }
                    return st;
                }
                k += 1;
            }
            Status::Mapped
        },
        PaletteValue::Other => Status::Failed,
    }
}

/// Would building the palette of this mapping index with a reversed range (a
/// range whose start lies more than one past its end)? Building it then panics,
/// so [`parse_palette_mapping`] must not be given such a mapping.
pub fn palette_mapping_panics(entries: &Vec<PaletteEntry>) -> (r: bool)
    ensures
        r == (spec_palette(entries@) is Reversed),
{
    let n = entries.len();
    let mut k: usize = 0;
    while k < n
        invariant
            n == entries@.len(),
            k <= n,
            apply_entries(entries@, k as int) is Mapped,
        decreases n - k,
    {
        let ghost mk = match apply_entries(entries@, k as int) {
            PaletteOutcome::Mapped(mm) => mm,
            _ => Seq::empty(),
        };
        let entry = &entries[k];
        match key_terrain(entry.key.as_str()) {
            Err(_) => {
                proof {
                    lemma_entries_settle(entries@, k + 1, n as int);
                }
                return false;
            },
            Ok(t) => {
                let st = value_status(&entry.value, Ghost(mk), t);
                proof {
                    assert(apply_entries(entries@, k + 1) == apply_value(mk, entry.value, t));
                }
                if st != Status::Mapped {
                    proof {
                        lemma_entries_settle(entries@, k + 1, n as int);
                    }
                    return st == Status::Reversed;
                }
            },
        }
        k += 1;
    }
    false
}

/// Build the terrain palette described by a palette mapping.
///
/// Every index not mentioned maps to destructible ground. Entries are applied
/// in order, so a later entry overrides an earlier one for the indices both name.
pub fn parse_palette_mapping(entries: &Vec<PaletteEntry>) -> (r: Result<Vec<Terrain>, PaletteError>)
    requires
        !(spec_palette(entries@) is Reversed),
    ensures
        r matches Ok(m) ==> m.len() == PALETTE_SIZE,
        outcome_holds(r, match r { Ok(m) => m@, Err(_) => Seq::empty() }, spec_palette(entries@)),
{
    let mut mapping: Vec<Terrain> = Vec::new();
    let mut i: usize = 0;
    while i < PALETTE_SIZE
        invariant
            i <= PALETTE_SIZE,
            mapping@ == Seq::new(i as nat, |k: int| DEFAULT_PALETTE_TERRAIN),
        decreases PALETTE_SIZE - i,
    {
        mapping.push(DEFAULT_PALETTE_TERRAIN);
        i += 1;
        assert(mapping@ =~= Seq::new(i as nat, |k: int| DEFAULT_PALETTE_TERRAIN));
    }
    assert(mapping@ =~= default_palette());

    let n = entries.len();
    let mut k: usize = 0;
    while k < n
        invariant
            n == entries@.len(),
            k <= n,
            mapping.len() == PALETTE_SIZE,
            apply_entries(entries@, k as int) == PaletteOutcome::Mapped(mapping@),
            !(apply_entries(entries@, n as int) is Reversed),
        decreases n - k,
    {
        let entry = &entries[k];
        let ghost before = mapping@;
        match key_terrain(entry.key.as_str()) {
            Err(e) => {
                proof {
                    lemma_entries_settle(entries@, k + 1, n as int);
                }
                return Err(e);
            },
            Ok(t) => {
                proof {
                    if apply_value(before, entry.value, t) is Reversed {
                        lemma_entries_settle(entries@, k + 1, n as int);
                    }
                }
                match apply_value_exec(&mut mapping, &entry.value, t) {
                    Err(e) => {
                        proof {
                            lemma_entries_settle(entries@, k + 1, n as int);
                        }
                        return Err(e);
                    },
                    Ok(()) => {},
                }
            },
        }
        k += 1;
    }
    Ok(mapping)
}

/// The first palette index mapped to open space (no flags at all), if any.
/// Used as transparency key when the terrain map doubles as the artwork.
pub fn transparent_color_index(palette: &Vec<Terrain>) -> (r: Option<u8>)
    requires
        palette.len() == PALETTE_SIZE,
    ensures
        r matches Some(i) ==> palette@[i as int] == 0 && forall|j: int| 0 <= j < i ==> palette@[j] != 0,
        r is None ==> forall|j: int| 0 <= j < PALETTE_SIZE ==> palette@[j] != 0,
{
    let mut i: usize = 0;
    while i < PALETTE_SIZE
        invariant
            palette.len() == PALETTE_SIZE,
            i <= PALETTE_SIZE,
            forall|j: int| 0 <= j < i ==> palette@[j] != 0,
        decreases PALETTE_SIZE - i,
    {
        if palette[i] == 0 {
            return Some(i as u8);
        }
        i += 1;
    }
    None
}

/// The first palette index below `ncolors` that is mapped to open water, if any.
/// The colour of that index is used as the level's water colour.
pub fn water_color_index(palette: &Vec<Terrain>, ncolors: usize) -> (r: Option<usize>)
    requires
        palette.len() == PALETTE_SIZE,
    ensures
        r matches Some(i) ==> i < ncolors && i < PALETTE_SIZE && water_bit(palette@[i as int])
            && solid_type(palette@[i as int]) == 0 && forall|j: int|
            0 <= j < i ==> !(water_bit(#[trigger] palette@[j]) && solid_type(palette@[j]) == 0),
        r is None ==> forall|j: int|
            0 <= j < ncolors && j < PALETTE_SIZE ==> !(water_bit(#[trigger] palette@[j]) && solid_type(
                palette@[j],
            ) == 0),
{
    let mut i: usize = 0;
    while i < PALETTE_SIZE && i < ncolors
        invariant
            palette.len() == PALETTE_SIZE,
            i <= PALETTE_SIZE,
            forall|j: int|
                0 <= j < i ==> !(water_bit(#[trigger] palette@[j]) && solid_type(palette@[j]) == 0),
        decreases PALETTE_SIZE - i,
    {
        if is_water(palette[i]) {
            return Some(i);
        }
        i += 1;
    }
    None
}

/// Convert raw colour indices into terrain types through the palette
pub fn map_palette(palette: &Vec<Terrain>, pixels: &mut Vec<u8>)
    requires
        palette.len() == PALETTE_SIZE,
    ensures
        final(pixels).len() == old(pixels).len(),
        forall|i: int|
            0 <= i < old(pixels).len() ==> #[trigger] final(pixels)@[i] == palette@[old(pixels)@[i] as int],
{
    let n = pixels.len();
    let mut i: usize = 0;
    while i < n
        invariant
            palette.len() == PALETTE_SIZE,
            n == pixels.len(),
            n == old(pixels).len(),
            i <= n,
            forall|j: int| 0 <= j < i ==> #[trigger] pixels@[j] == palette@[old(pixels)@[j] as int],
            forall|j: int| i <= j < n ==> #[trigger] pixels@[j] == old(pixels)@[j],
        decreases n - i,
    {
        let p = pixels[i];
        pixels.set(i, palette[p as usize]);
        i += 1;
    }
}

} // verus!
