//! The force fields of a level, kept by id. What a field does to objects is
//! floating point physics and stays with the caller; here a field is any value
//! with an id.

use vstd::prelude::*;

verus! {

/// Position of the first field with this id, if any
pub open spec fn position_of<F>(fields: Seq<(i32, F)>, id: i32) -> Option<int> {
    if exists|i: int| 0 <= i < fields.len() && fields[i].0 == id {
        Some(choose|i: int| 0 <= i < fields.len() && fields[i].0 == id && forall|j: int| 0 <= j < i ==> fields[j].0 != id)
    } else {
        None
    }
}

/// The field with this id, if any
pub open spec fn field_of<F>(fields: Seq<(i32, F)>, id: i32) -> Option<F> {
    match position_of(fields, id) {
        Some(i) => Some(fields[i].1),
        None => None,
    }
}

/// No id occurs twice
pub open spec fn ids_distinct<F>(fields: Seq<(i32, F)>) -> bool {
    forall|i: int, j: int| 0 <= i < j < fields.len() ==> fields[i].0 != fields[j].0
}

/// Removing element i the way `Vec::swap_remove` does: the last element takes its place
pub open spec fn swap_removed<F>(fields: Seq<(i32, F)>, i: int) -> Seq<(i32, F)> {
    fields.update(i, fields.last()).drop_last()
}

/// The force fields of a level, each with its id
pub struct Forcefields<F> {
    fields: Vec<(i32, F)>,
}

/// The first index at or after `from` whose field has this id
fn find_from<F>(fields: &Vec<(i32, F)>, id: i32) -> (r: Option<usize>)
    ensures
        r matches Some(i) ==> i < fields@.len() && fields@[i as int].0 == id && forall|j: int|
            0 <= j < i ==> fields@[j].0 != id,
        r is None ==> forall|j: int| 0 <= j < fields@.len() ==> fields@[j].0 != id,
{
    let n = fields.len();
    let mut i: usize = 0;
    while i < n
        invariant
            n == fields@.len(),
            i <= n,
            forall|j: int| 0 <= j < i ==> fields@[j].0 != id,
        decreases n - i,
    {
        if fields[i].0 == id {
            return Some(i);
        }
        i += 1;
    }
    None
}

/// The first match found by a search is the position of the id
proof fn lemma_position<F>(fields: Seq<(i32, F)>, id: i32, i: int)
    requires
        0 <= i < fields.len(),
        fields[i].0 == id,
        forall|j: int| 0 <= j < i ==> fields[j].0 != id,
    ensures
        position_of(fields, id) == Some(i),
{
    let c = choose|c: int| 0 <= c < fields.len() && fields[c].0 == id && forall|j: int| 0 <= j < c ==> fields[j].0 != id;
    assert(0 <= c < fields.len() && fields[c].0 == id && forall|j: int| 0 <= j < c ==> fields[j].0 != id);
    if c < i {
        assert(fields[c].0 != id);
    } else if c > i {
        assert(fields[i].0 != id);
    }
}

impl<F> Forcefields<F> {
    /// The fields with their ids, in storage order
    pub closed spec fn view(&self) -> Seq<(i32, F)> {
        self.fields@
    }

    /// No fields
    pub fn new() -> (r: Self)
        ensures
            r@ == Seq::<(i32, F)>::empty(),
    {
        Forcefields { fields: Vec::new() }
    }

    /// Number of fields
    pub fn len(&self) -> (r: usize)
        ensures
            r == self@.len(),
    {
        self.fields.len()
    }

    /// The fields with their ids
    pub fn fields(&self) -> (r: &Vec<(i32, F)>)
        ensures
            r@ == self@,
    {
        &self.fields
    }

    /// Remove the field with the given id (the last field takes its place);
    /// nothing changes when there is none
    pub fn remove_forcefield(&mut self, id: i32)
        ensures
            final(self)@ == match position_of(old(self)@, id) {
                Some(i) => swap_removed(old(self)@, i),
                None => old(self)@,
            },
    {
        match find_from(&self.fields, id) {
            Some(i) => {
                proof {
                    lemma_position(self@, id, i as int);
                }
                let ghost before = self.fields@;
                self.fields.swap_remove(i);
                proof {
                    assert(self.fields@ =~= swap_removed(before, i as int));
                }
            },
            None => {},
        }
    }

    /// Update the field with the given id, or add it if there is none
    pub fn update_forcefield(&mut self, id: i32, field: F)
        ensures
            final(self)@ == match position_of(old(self)@, id) {
                Some(i) => old(self)@.update(i, (id, field)),
                None => old(self)@.push((id, field)),
            },
    {
        match find_from(&self.fields, id) {
            Some(i) => {
                proof {
                    lemma_position(self@, id, i as int);
                }
                self.fields.set(i, (id, field));
            },
            None => {
                self.fields.push((id, field));
            },
        }
    }
}

/// With distinct ids, a field updated under an id is the field of that id
/// afterwards, and the ids stay distinct
pub proof fn law_update_then_find<F>(fields: Seq<(i32, F)>, id: i32, field: F)
    requires
        ids_distinct(fields),
    ensures
        ({
            let after = match position_of(fields, id) {
                Some(i) => fields.update(i, (id, field)),
                None => fields.push((id, field)),
            };
            &&& field_of(after, id) == Some(field)
            &&& ids_distinct(after)
        }),
{
    match position_of(fields, id) {
        Some(i) => {
            let after = fields.update(i, (id, field));
            lemma_position(fields, id, choose|c: int| 0 <= c < fields.len() && fields[c].0 == id && forall|j: int| 0 <= j < c ==> fields[j].0 != id);
            lemma_position(after, id, i);
        },
        None => {
            let after = fields.push((id, field));
            assert forall|j: int| 0 <= j < fields.len() implies fields[j].0 != id by {
                if fields[j].0 == id {
                    assert(exists|k: int| 0 <= k < fields.len() && fields[k].0 == id);
                }
            }
            lemma_position(after, id, fields.len() as int);
        },
    }
}

/// With distinct ids, a removed id is gone afterwards, and the ids stay distinct
pub proof fn law_remove_then_gone<F>(fields: Seq<(i32, F)>, id: i32)
    requires
        ids_distinct(fields),
    ensures
        ({
            let after = match position_of(fields, id) {
                Some(i) => swap_removed(fields, i),
                None => fields,
            };
            &&& field_of(after, id) is None
            &&& ids_distinct(after)
        }),
{
    match position_of(fields, id) {
        Some(i) => {
            lemma_position(fields, id, choose|c: int| 0 <= c < fields.len() && fields[c].0 == id && forall|j: int| 0 <= j < c ==> fields[j].0 != id);
            let after = swap_removed(fields, i);
            assert forall|j: int| 0 <= j < after.len() implies after[j].0 != id by {
                if j == i {
                    assert(after[j] == fields[fields.len() - 1]);
                } else {
                    assert(after[j] == fields[j]);
                }
            }
        },
        None => {
            assert forall|j: int| 0 <= j < fields.len() implies fields[j].0 != id by {
                if fields[j].0 == id {
                    assert(exists|k: int| 0 <= k < fields.len() && fields[k].0 == id);
                }
            }
        },
    }
}

} // verus!
