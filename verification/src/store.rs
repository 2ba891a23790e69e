//! The in-memory person store: an identifier-keyed map with exact
//! contracts on insertion, point lookup and size, and proved laws
//! about sequences of insertions.

use crate::person::{NewPerson, Person, PersonView};
use std::collections::HashMap;
use vstd::prelude::*;

verus! {

broadcast use vstd::std_specs::hash::group_hash_axioms;

/// All person records of the process, keyed by their identifier.
///
/// Its view is the mapping from identifiers to record values. The
/// store never holds two records under one identifier, and a stored
/// record never changes: no operation removes or updates an entry.
pub struct PersonStore {
    people: HashMap<u128, Person>,
}

impl View for PersonStore {
    type V = Map<u128, PersonView>;

    closed spec fn view(&self) -> Map<u128, PersonView> {
        self.people@.map_values(|p: Person| p@)
    }
}

/// Relies on `uuid::Uuid::now_v7`: a fresh version-7 UUID drawn from
/// the current time and random bits, taken as its 128-bit value via
/// `Uuid::as_u128`. Nothing is promised of the value drawn.
#[verifier::external_body]
fn fresh_id() -> u128 {
    uuid::Uuid::now_v7().as_u128()
}

impl PersonStore {
    /// An empty store.
    pub fn new() -> (s: PersonStore)
        ensures
            s@ == Map::<u128, PersonView>::empty(),
            s@.dom().finite(),
    {
        let people: HashMap<u128, Person> = HashMap::new();
        let s = PersonStore { people };
        proof {
            assert(s@ =~= Map::<u128, PersonView>::empty());
        }
        s
    }

    /// The store always holds finitely many records.
    pub proof fn lemma_finite(&self)
        ensures
            self@.dom().finite(),
    {
        assert(self@.dom() =~= self.people@.dom());
    }

    /// Adds the payload under the identifier `id` and returns a copy of
    /// the stored record. An insertion under a fresh identifier grows
    /// the count by one and leaves every other entry in place.
    pub fn insert(&mut self, id: u128, new_person: NewPerson) -> (r: Person)
        ensures
            r@ == new_person@.with_id(id),
            final(self)@ == old(self)@.insert(id, r@),
            !old(self)@.contains_key(id) ==> final(self)@.len() == old(self)@.len() + 1,
            old(self)@.contains_key(id) ==> final(self)@.len() == old(self)@.len(),
    {
        let person = Person {
            id,
            name: new_person.name,
            nick: new_person.nick,
            birth_date: new_person.birth_date,
            stack: new_person.stack,
        };
        let r = person.duplicate();
        proof {
            old(self).lemma_finite();
            assert(old(self)@.contains_key(id) == old(self).people@.contains_key(id));
        }
        self.people.insert(id, person);
        proof {
            assert(self@ =~= old(self)@.insert(id, r@));
            assert(self@.dom() =~= old(self)@.dom().insert(id));
        }
        r
    }

    /// Creates a record from the payload under a freshly generated
    /// identifier and returns a copy of it. Whatever identifier was
    /// drawn, the record is stored under it, and under a previously
    /// unused identifier the count grows by one.
    pub fn create(&mut self, new_person: NewPerson) -> (r: Person)
        ensures
            r@ == new_person@.with_id(r@.id),
            final(self)@ == old(self)@.insert(r@.id, r@),
            !old(self)@.contains_key(r@.id) ==> final(self)@.len() == old(self)@.len() + 1,
            old(self)@.contains_key(r@.id) ==> final(self)@.len() == old(self)@.len(),
    {
        let id = fresh_id();
        self.insert(id, new_person)
    }

    /// Returns a copy of the record stored under `id`, and `None`
    /// exactly when no record was ever inserted under `id`.
    pub fn lookup(&self, id: u128) -> (r: Option<Person>)
        ensures
            match r {
                Some(p) => self@.contains_key(id) && p@ == self@[id],
                None => !self@.contains_key(id),
            },
    {
        match self.people.get(&id) {
            Some(p) => {
                proof {
                    assert(self@.contains_key(id) && self@[id] == p@);
                }
                Some(p.duplicate())
            },
            None => {
                proof {
                    assert(!self@.contains_key(id));
                }
                None
            },
        }
    }

    /// The number of records currently stored.
    pub fn count(&self) -> (n: usize)
        ensures
            n == self@.len(),
    {
        proof {
            assert(self@.dom() =~= self.people@.dom());
        }
        self.people.len()
    }

    /// The placeholder answer of the unimplemented search operation.
    pub fn search(&self) -> (r: String)
        ensures
            r@ == "Buscar Pessoas"@,
    {
        "Buscar Pessoas".to_owned()
    }
}

/// The map after inserting each entry of `entries` in order.
pub open spec fn insert_all(
    m: Map<u128, PersonView>,
    entries: Seq<(u128, PersonView)>,
) -> Map<u128, PersonView>
    decreases entries.len(),
{
    if entries.len() == 0 {
        m
    } else {
        insert_all(m.insert(entries[0].0, entries[0].1), entries.drop_first())
    }
}

/// Inserting any number of records under distinct identifiers not yet
/// present loses none of them: the count grows by exactly the number
/// of insertions, each inserted record is found under its identifier
/// with its exact value, and every record already present stays
/// unchanged.
pub proof fn lemma_distinct_inserts(m: Map<u128, PersonView>, entries: Seq<(u128, PersonView)>)
    requires
        m.dom().finite(),
        forall|i: int, j: int|
            0 <= i < j < entries.len() ==> (#[trigger] entries[i]).0 != (#[trigger] entries[j]).0,
        forall|i: int| 0 <= i < entries.len() ==> !m.contains_key((#[trigger] entries[i]).0),
    ensures
        insert_all(m, entries).dom().finite(),
        insert_all(m, entries).len() == m.len() + entries.len(),
        forall|i: int|
            0 <= i < entries.len() ==> insert_all(m, entries).contains_key(
                (#[trigger] entries[i]).0,
            ) && insert_all(m, entries)[entries[i].0] == entries[i].1,
        forall|k: u128|
            #[trigger] m.contains_key(k) ==> insert_all(m, entries).contains_key(k) && insert_all(
                m,
                entries,
            )[k] == m[k],
    decreases entries.len(),
{
    if entries.len() > 0 {
        let e = entries[0];
        let m1 = m.insert(e.0, e.1);
        let rest = entries.drop_first();
        assert(m1.dom() =~= m.dom().insert(e.0));
        assert forall|i: int| 0 <= i < rest.len() implies !m1.contains_key(
            (#[trigger] rest[i]).0,
        ) by {
            assert(rest[i] == entries[i + 1]);
        }
        lemma_distinct_inserts(m1, rest);
        assert forall|i: int|
            0 <= i < entries.len() implies insert_all(m, entries).contains_key(
            (#[trigger] entries[i]).0,
        ) && insert_all(m, entries)[entries[i].0] == entries[i].1 by {
            if i == 0 {
                assert(m1.contains_key(e.0) && m1[e.0] == e.1);
            } else {
                assert(entries[i] == rest[i - 1]);
            }
        }
        assert forall|k: u128| #[trigger] m.contains_key(k) implies insert_all(
            m,
            entries,
        ).contains_key(k) && insert_all(m, entries)[k] == m[k] by {
            assert(k != e.0);
            assert(m1.contains_key(k) && m1[k] == m[k]);
        }
    }
}

/// A later insertion under a different identifier leaves an earlier
/// record in place: once stored, a record stays until process end.
pub proof fn lemma_insert_preserves_other(
    m: Map<u128, PersonView>,
    id: u128,
    other: u128,
    p: PersonView,
)
    requires
        m.contains_key(id),
        other != id,
    ensures
        m.insert(other, p).contains_key(id),
        m.insert(other, p)[id] == m[id],
{
}

} // verus!
