//! The assignment engine: rejection sampling over random pairings.
//!
//! Each attempt pairs the participants, in input order, with a freshly
//! shuffled copy of themselves, and validates the candidate with the
//! four checks; the first candidate that passes is returned. Whether a
//! candidate passes depends on the shuffle alone, so the engine retries
//! up to a caller-chosen number of attempts and reports exhaustion
//! explicitly — for jointly unsatisfiable constraints (for instance two
//! participants of one family and nobody else) no attempt can ever
//! succeed.

use rand::seq::SliceRandom;
use vstd::prelude::*;
use vstd::seq_lib::group_to_multiset_ensures;

use crate::checks::{all_checks_ok, check_assignments, family_conflict_at, pair_conflict_at,
    self_conflict_at};
use crate::circle::{
    circle_ok, distinct_givers, has_giver, iter_step, lemma_match_index, match_index, start_of,
    step, well_formed,
};
use crate::parse::{parse_names, spec_parse};
use crate::person::{
    assignment_views, person_copy, person_views, receivers, Assignment, AssignmentV, Person,
    PersonV,
};

verus! {

/// Relies on `rand::seq::SliceRandom::shuffle` with the thread-local
/// generator of `rand::rng`: it permutes the slice in place, choosing
/// the permutation uniformly at random. Which permutation comes out is
/// left open; only that the same persons remain, as often as before.
#[verifier::external_body]
fn shuffle_persons(v: &mut Vec<Person>)
    ensures
        final(v)@.len() == old(v)@.len(),
        person_views(final(v)@).to_multiset() == person_views(old(v)@).to_multiset(),
{
    v.shuffle(&mut rand::rng());
}

/// A candidate pairing set: participant `i` gives to position `i` of a
/// shuffled copy of the participant sequence.
pub fn generate_assignment(persons: &Vec<Person>) -> (r: Vec<Assignment>)
    ensures
        r@.len() == persons@.len(),
        forall|i: int|
            0 <= i < r@.len() ==> assignment_views(r@)[i].person1 == person_views(persons@)[i],
        receivers(assignment_views(r@)).to_multiset() == person_views(persons@).to_multiset(),
{
    let n = persons.len();
    let mut shuffled: Vec<Person> = Vec::new();
    let mut i: usize = 0;
    while i < n
        invariant
            n == persons@.len(),
            i == shuffled@.len() <= n,
            forall|m: int| 0 <= m < i ==> person_views(shuffled@)[m] == person_views(persons@)[m],
        decreases n - i,
    {
        shuffled.push(person_copy(&persons[i]));
        i += 1;
    }
    proof {
        assert(person_views(shuffled@) =~= person_views(persons@));
    }
    shuffle_persons(&mut shuffled);
    let mut result: Vec<Assignment> = Vec::new();
    let mut i: usize = 0;
    while i < n
        invariant
            n == persons@.len() == shuffled@.len(),
            i == result@.len() <= n,
            person_views(shuffled@).to_multiset() == person_views(persons@).to_multiset(),
            forall|m: int|
                0 <= m < i ==> assignment_views(result@)[m].person1 == person_views(persons@)[m],
            forall|m: int|
                0 <= m < i ==> assignment_views(result@)[m].person2 == person_views(shuffled@)[m],
        decreases n - i,
    {
        let assignment = Assignment {
            person1: person_copy(&persons[i]),
            person2: person_copy(&shuffled[i]),
        };
        result.push(assignment);
        i += 1;
    }
    proof {
        assert(receivers(assignment_views(result@)) =~= person_views(shuffled@));
    }
    result
}

/// A candidate built over pairwise distinct participants is
/// permutation-shaped: its givers are the participants themselves and
/// its receivers rearrange the same sequence.
proof fn lemma_candidate_well_formed(s: Seq<AssignmentV>, ps: Seq<PersonV>)
    requires
        ps.len() >= 1,
        ps.no_duplicates(),
        s.len() == ps.len(),
        forall|i: int| 0 <= i < s.len() ==> s[i].person1 == ps[i],
        receivers(s).to_multiset() == ps.to_multiset(),
    ensures
        well_formed(s),
{
    broadcast use group_to_multiset_ensures;

    assert forall|i: int, j: int| 0 <= i < j < s.len() implies s[i].person1 != s[j].person1 by {
        assert(ps[i] != ps[j]);
    }
    ps.lemma_multiset_has_no_duplicates();
    assert forall|x: PersonV| receivers(s).to_multiset().contains(x) implies receivers(
        s,
    ).to_multiset().count(x) == 1 by {
        assert(ps.to_multiset().count(x) == receivers(s).to_multiset().count(x));
    }
    receivers(s).lemma_multiset_has_no_duplicates_conv();
    assert forall|i: int, j: int| 0 <= i < j < s.len() implies s[i].person2 != s[j].person2 by {
        assert(receivers(s)[i] == s[i].person2 && receivers(s)[j] == s[j].person2);
    }
    assert forall|i: int| 0 <= i < s.len() implies has_giver(s, s[i].person2) by {
        assert(receivers(s)[i] == s[i].person2);
        assert(receivers(s).contains(s[i].person2));
        assert(receivers(s).to_multiset().count(s[i].person2) > 0);
        assert(ps.to_multiset().count(s[i].person2) > 0);
        assert(ps.contains(s[i].person2));
        let j = choose|j: int| 0 <= j < ps.len() && ps[j] == s[i].person2;
        assert(s[j].person1 == s[i].person2);
    }
}

/// The pairing set in which each participant gives to the next one,
/// and the last to the first.
pub open spec fn rotation_pairing(ps: Seq<PersonV>) -> Seq<AssignmentV> {
    Seq::new(
        ps.len(),
        |i: int|
            AssignmentV {
                person1: ps[i],
                person2: ps[if i + 1 == ps.len() {
                    0
                } else {
                    i + 1
                }],
            },
    )
}

proof fn lemma_rotation_iter(ps: Seq<PersonV>, k: nat)
    requires
        ps.len() >= 1,
        ps.no_duplicates(),
        k < ps.len(),
    ensures
        iter_step(rotation_pairing(ps), ps[0], k) == ps[k as int],
    decreases k,
{
    let s = rotation_pairing(ps);
    if k > 0 {
        lemma_rotation_iter(ps, (k - 1) as nat);
        assert(distinct_givers(s));
        assert(s[k - 1].person1 == ps[k - 1]);
        lemma_match_index(s, ps[k - 1]);
        assert(match_index(s, ps[k - 1]) == k - 1);
        assert(step(s, ps[k - 1]) == ps[k as int]);
    }
}

/// For at least three participants, pairwise distinct and of pairwise
/// distinct families, a pairing set satisfying all four structural
/// constraints exists: pairing each participant with the next one
/// around forms one single cycle, gives to nobody's own self or
/// family, and repeats no ordered family pair.
pub proof fn lemma_valid_assignment_exists(ps: Seq<PersonV>)
    requires
        ps.len() >= 3,
        ps.no_duplicates(),
        forall|i: int, j: int| 0 <= i < j < ps.len() ==> ps[i].last != ps[j].last,
    ensures
        ({
            let s = rotation_pairing(ps);
            &&& s.len() == ps.len()
            &&& forall|i: int| 0 <= i < s.len() ==> s[i].person1 == ps[i]
            &&& all_checks_ok(s)
        }),
{
    let s = rotation_pairing(ps);
    let n = s.len() as int;
    assert forall|i: int| 0 <= i < n implies !self_conflict_at(s, i) && !family_conflict_at(
        s,
        i,
    ) by {
        let j = if i + 1 == n {
            0int
        } else {
            i + 1
        };
        assert(s[i].person2 == ps[j] && i != j);
        if i < j {
            assert(ps[i] != ps[j] && ps[i].last != ps[j].last);
        } else {
            assert(ps[j] != ps[i] && ps[j].last != ps[i].last);
        }
    }
    assert forall|i: int, j: int| !pair_conflict_at(s, i, j) by {
        if pair_conflict_at(s, i, j) {
            assert(s[i].person1.last == s[j].person1.last);
            assert(ps[i].last == ps[j].last);
        }
    }
    assert forall|m: nat| 1 <= m < n implies iter_step(s, start_of(s), m) != start_of(s) by {
        lemma_rotation_iter(ps, m);
        assert(ps[m as int] != ps[0]);
    }
    lemma_rotation_iter(ps, (n - 1) as nat);
    assert(distinct_givers(s));
    assert(s[n - 1].person1 == ps[n - 1]);
    lemma_match_index(s, ps[n - 1]);
    assert(match_index(s, ps[n - 1]) == n - 1);
    assert(iter_step(s, start_of(s), n as nat) == step(s, ps[n - 1]));
    assert(iter_step(s, start_of(s), n as nat) == ps[0]);
    assert(circle_ok(s));
}

/// Extracts the participants of `content` and samples random pairing
/// sets until one satisfies all four structural constraints, up to
/// `max_attempts` attempts.
///
/// A returned pairing set always pairs the participants, in input
/// order, with a rearrangement of themselves and passes every check.
/// `None` means that every attempt was rejected; for jointly
/// unsatisfiable constraints that is the only possible outcome,
/// however large the attempt budget.
pub fn get_valid_assignment(content: &str, max_attempts: u64) -> (r: Option<Vec<Assignment>>)
    requires
        spec_parse(content@).len() >= 1,
        spec_parse(content@).no_duplicates(),
    ensures
        r matches Some(a) ==> ({
            let s = assignment_views(a@);
            let ps = spec_parse(content@);
            &&& s.len() == ps.len()
            &&& forall|i: int| 0 <= i < s.len() ==> s[i].person1 == ps[i]
            &&& receivers(s).to_multiset() == ps.to_multiset()
            &&& all_checks_ok(s)
        }),
{
    let persons = parse_names(content);
    proof {
        assert(persons@.len() == person_views(persons@).len());
    }
    let mut attempts: u64 = 0;
    while attempts < max_attempts
        invariant
            person_views(persons@) == spec_parse(content@),
            person_views(persons@).no_duplicates(),
            persons@.len() >= 1,
        decreases max_attempts - attempts,
    {
        let assignments = generate_assignment(&persons);
        proof {
            lemma_candidate_well_formed(assignment_views(assignments@), person_views(persons@));
        }
        match check_assignments(&assignments) {
            Ok(()) => {
                return Some(assignments);
            },
            Err(_msg) => {},
        }
        attempts += 1;
    }
    None
}

} // verus!
