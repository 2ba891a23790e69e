//! Person records: the stored entity, the creation payload, and their
//! mathematical views.

use crate::date::Date;
use vstd::prelude::*;

verus! {

/// One stored person record. The identifier is the 128-bit value of a
/// UUID, assigned by the store on creation and immutable thereafter.
pub struct Person {
    pub id: u128,
    pub name: String,
    pub nick: String,
    pub birth_date: Date,
    pub stack: Option<Vec<String>>,
}

/// The abstract value of a [`Person`].
pub struct PersonView {
    pub id: u128,
    pub name: Seq<char>,
    pub nick: Seq<char>,
    pub birth_date: Date,
    pub stack: Option<Seq<Seq<char>>>,
}

impl View for Person {
    type V = PersonView;

    open spec fn view(&self) -> PersonView {
        PersonView {
            id: self.id,
            name: self.name@,
            nick: self.nick@,
            birth_date: self.birth_date,
            stack: match self.stack {
                Some(ref v) => Some(v.deep_view()),
                None => None,
            },
        }
    }
}

/// The payload of a creation request: a person without an identifier.
pub struct NewPerson {
    pub name: String,
    pub nick: String,
    pub birth_date: Date,
    pub stack: Option<Vec<String>>,
}

/// The abstract value of a [`NewPerson`].
pub struct NewPersonView {
    pub name: Seq<char>,
    pub nick: Seq<char>,
    pub birth_date: Date,
    pub stack: Option<Seq<Seq<char>>>,
}

impl View for NewPerson {
    type V = NewPersonView;

    open spec fn view(&self) -> NewPersonView {
        NewPersonView {
            name: self.name@,
            nick: self.nick@,
            birth_date: self.birth_date,
            stack: match self.stack {
                Some(ref v) => Some(v.deep_view()),
                None => None,
            },
        }
    }
}

impl NewPersonView {
    /// The record this payload becomes once the store assigns it `id`.
    pub open spec fn with_id(self, id: u128) -> PersonView {
        PersonView {
            id,
            name: self.name,
            nick: self.nick,
            birth_date: self.birth_date,
            stack: self.stack,
        }
    }
}

/// An element-wise copy of a vector of strings, equal to the original
/// in value.
fn clone_strings(v: &Vec<String>) -> (r: Vec<String>)
    ensures
        r.deep_view() == v.deep_view(),
{
    let mut r: Vec<String> = Vec::new();
    let mut i: usize = 0;
    while i < v.len()
        invariant
            i <= v.len(),
            r.len() == i,
            forall|j: int| 0 <= j < i ==> r.deep_view()[j] == v.deep_view()[j],
        decreases v.len() - i,
    {
        r.push(v[i].clone());
        i += 1;
    }
    proof {
        assert(r.deep_view() =~= v.deep_view());
    }
    r
}

impl Person {
    /// A copy of the record, equal to it in value.
    pub fn duplicate(&self) -> (r: Person)
        ensures
            r@ == self@,
    {
        let r = Person {
            id: self.id,
            name: self.name.clone(),
            nick: self.nick.clone(),
            birth_date: self.birth_date,
            stack: match &self.stack {
                Some(v) => Some(clone_strings(v)),
                None => None,
            },
        };
        r
    }
}

} // verus!
