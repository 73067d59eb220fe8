//! Participant records and pairings.

use vstd::prelude::*;

verus! {

/// The mathematical value of a [`Person`]: its two name fields as
/// sequences of characters.
pub ghost struct PersonV {
    pub first: Seq<char>,
    pub last: Seq<char>,
}

/// A participant: a given name and a family name. Two participants
/// with the same pair of names are the same participant.
pub struct Person {
    pub first_name: String,
    pub last_name: String,
}

impl View for Person {
    type V = PersonV;

    open spec fn view(&self) -> PersonV {
        PersonV { first: self.first_name@, last: self.last_name@ }
    }
}

/// The mathematical value of an [`Assignment`].
pub ghost struct AssignmentV {
    pub person1: PersonV,
    pub person2: PersonV,
}

/// One pairing: `person1` gives a gift to `person2`.
pub struct Assignment {
    pub person1: Person,
    pub person2: Person,
}

impl View for Assignment {
    type V = AssignmentV;

    open spec fn view(&self) -> AssignmentV {
        AssignmentV { person1: self.person1@, person2: self.person2@ }
    }
}

/// The values of a sequence of persons.
pub open spec fn person_views(s: Seq<Person>) -> Seq<PersonV> {
    s.map_values(|p: Person| p@)
}

/// The values of a sequence of assignments.
pub open spec fn assignment_views(s: Seq<Assignment>) -> Seq<AssignmentV> {
    s.map_values(|a: Assignment| a@)
}

/// The receivers of a pairing sequence, in order.
pub open spec fn receivers(s: Seq<AssignmentV>) -> Seq<PersonV> {
    s.map_values(|a: AssignmentV| a.person2)
}

/// Decides whether two persons are the same participant.
pub fn person_eq(a: &Person, b: &Person) -> (r: bool)
    ensures
        r == (a@ == b@),
{
    let r = a.first_name == b.first_name && a.last_name == b.last_name;
    r
}

/// An independent copy of a person, carrying the same names.
pub fn person_copy(p: &Person) -> (r: Person)
    ensures
        r@ == p@,
{
    Person { first_name: p.first_name.clone(), last_name: p.last_name.clone() }
}

} // verus!
