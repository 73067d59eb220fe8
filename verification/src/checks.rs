//! The per-pairing validation checks: no self-gifting, no gifting
//! within one family, no duplicated ordered family-to-family pair.
//!
//! Each check walks the pairing sequence and reports the first
//! violation with the exact diagnostic text stated by the spec
//! functions in [`crate::msg`].

use vstd::prelude::*;
use vstd::string::StringExecFns;

use crate::circle::{check_full_circle, circle_ok, cycle_len, well_formed};
use crate::msg::{circle_msg, family_msg, family_pair_msg, itself_msg};
use crate::person::{assignment_views, person_eq, Assignment, AssignmentV};

verus! {

/// Pairing `i` of `s` is a self-pairing.
pub open spec fn self_conflict_at(s: Seq<AssignmentV>, i: int) -> bool {
    0 <= i < s.len() && s[i].person1 == s[i].person2
}

/// No pairing gives to its own giver.
pub open spec fn self_ok(s: Seq<AssignmentV>) -> bool {
    forall|i: int| 0 <= i < s.len() ==> !self_conflict_at(s, i)
}

/// The earliest self-pairing of `s` (meaningful only when one exists).
pub open spec fn first_self_conflict(s: Seq<AssignmentV>) -> int {
    choose|i: int| self_conflict_at(s, i) && (forall|j: int| 0 <= j < i ==> !self_conflict_at(s, j))
}

/// Pairing `i` of `s` stays within one family.
pub open spec fn family_conflict_at(s: Seq<AssignmentV>, i: int) -> bool {
    0 <= i < s.len() && s[i].person1.last == s[i].person2.last
}

/// No pairing gives within the giver's own family.
pub open spec fn family_ok(s: Seq<AssignmentV>) -> bool {
    forall|i: int| 0 <= i < s.len() ==> !family_conflict_at(s, i)
}

/// The earliest within-family pairing of `s` (meaningful only when one
/// exists).
pub open spec fn first_family_conflict(s: Seq<AssignmentV>) -> int {
    choose|i: int|
        family_conflict_at(s, i) && (forall|j: int| 0 <= j < i ==> !family_conflict_at(s, j))
}

/// Pairings `i` and `j` of `s` carry the same ordered pair of family
/// names.
pub open spec fn pair_conflict_at(s: Seq<AssignmentV>, i: int, j: int) -> bool {
    0 <= i < s.len() && 0 <= j < s.len() && i != j && s[i].person1.last == s[j].person1.last
        && s[i].person2.last == s[j].person2.last
}

/// No two pairings connect the same family to the same other family in
/// the same direction.
pub open spec fn family_pair_ok(s: Seq<AssignmentV>) -> bool {
    forall|i: int, j: int| !pair_conflict_at(s, i, j)
}

proof fn lemma_first_self_conflict(s: Seq<AssignmentV>, i: int)
    requires
        self_conflict_at(s, i),
        forall|j: int| 0 <= j < i ==> !self_conflict_at(s, j),
    ensures
        first_self_conflict(s) == i,
{
    let c = first_self_conflict(s);
    assert(self_conflict_at(s, c) && (forall|j: int| 0 <= j < c ==> !self_conflict_at(s, j)));
}

proof fn lemma_first_family_conflict(s: Seq<AssignmentV>, i: int)
    requires
        family_conflict_at(s, i),
        forall|j: int| 0 <= j < i ==> !family_conflict_at(s, j),
    ensures
        first_family_conflict(s) == i,
{
    let c = first_family_conflict(s);
    assert(family_conflict_at(s, c) && (forall|j: int| 0 <= j < c ==> !family_conflict_at(s, j)));
}

/// Rejects a pairing set containing a pairing whose giver and receiver
/// are the same participant, naming that participant; accepts it
/// otherwise.
pub fn check_person_to_itself(assignments: &Vec<Assignment>) -> (r: Result<(), String>)
    ensures
        r is Ok <==> self_ok(assignment_views(assignments@)),
        r matches Err(m) ==> m@ == itself_msg(
            assignment_views(assignments@)[first_self_conflict(assignment_views(assignments@))].person1,
        ),
{
    let ghost s = assignment_views(assignments@);
    let n = assignments.len();
    let mut i: usize = 0;
    while i < n
        invariant
            i <= n == assignments@.len(),
            s == assignment_views(assignments@),
            forall|j: int| 0 <= j < i ==> !self_conflict_at(s, j),
        decreases n - i,
    {
        if person_eq(&assignments[i].person1, &assignments[i].person2) {
            proof {
                lemma_first_self_conflict(s, i as int);
            }
            let mut m = "Conflict: Itself with ".to_owned();
            m.append(assignments[i].person1.first_name.as_str());
            m.append(", ");
            m.append(assignments[i].person1.last_name.as_str());
            proof {
                assert(m@ =~= itself_msg(s[i as int].person1));
            }
            return Err(m);
        }
        i += 1;
    }
    Ok(())
}

/// Rejects a pairing set containing a pairing whose giver and receiver
/// share a family name, naming both full names; accepts it otherwise.
pub fn check_family(assignments: &Vec<Assignment>) -> (r: Result<(), String>)
    ensures
        r is Ok <==> family_ok(assignment_views(assignments@)),
        r matches Err(m) ==> m@ == family_msg(
            assignment_views(assignments@)[first_family_conflict(assignment_views(assignments@))].person1,
            assignment_views(assignments@)[first_family_conflict(assignment_views(assignments@))].person2,
        ),
{
    let ghost s = assignment_views(assignments@);
    let n = assignments.len();
    let mut i: usize = 0;
    while i < n
        invariant
            i <= n == assignments@.len(),
            s == assignment_views(assignments@),
            forall|j: int| 0 <= j < i ==> !family_conflict_at(s, j),
        decreases n - i,
    {
        if assignments[i].person1.last_name == assignments[i].person2.last_name {
            proof {
                lemma_first_family_conflict(s, i as int);
            }
            let mut m = "Conflict: Family ".to_owned();
            m.append(assignments[i].person1.first_name.as_str());
            m.append(" ");
            m.append(assignments[i].person1.last_name.as_str());
            m.append(" with ");
            m.append(assignments[i].person2.first_name.as_str());
            m.append(" ");
            m.append(assignments[i].person2.last_name.as_str());
            proof {
                assert(m@ =~= family_msg(s[i as int].person1, s[i as int].person2));
            }
            return Err(m);
        }
        i += 1;
    }
    Ok(())
}

/// Rejects a pairing set in which two pairings carry the same ordered
/// (giver family, receiver family) pair; accepts it otherwise.
pub fn check_family_to_family(assignments: &Vec<Assignment>) -> (r: Result<(), String>)
    ensures
        r is Ok <==> family_pair_ok(assignment_views(assignments@)),
        r matches Err(m) ==> m@ == family_pair_msg(),
{
    let ghost s = assignment_views(assignments@);
    let n = assignments.len();
    let mut i: usize = 0;
    while i < n
        invariant
            i <= n == assignments@.len(),
            s == assignment_views(assignments@),
            forall|a: int, b: int| 0 <= a < i && a < b < n ==> !pair_conflict_at(s, a, b),
        decreases n - i,
    {
        let mut j: usize = i + 1;
        while j < n
            invariant
                i < j <= n == assignments@.len(),
                s == assignment_views(assignments@),
                forall|a: int, b: int| 0 <= a < i && a < b < n ==> !pair_conflict_at(s, a, b),
                forall|b: int| i < b < j ==> !pair_conflict_at(s, i as int, b),
            decreases n - j,
        {
            if assignments[i].person1.last_name == assignments[j].person1.last_name
                && assignments[i].person2.last_name == assignments[j].person2.last_name {
                proof {
                    assert(pair_conflict_at(s, i as int, j as int));
                }
                let m = "Conflict: family to family".to_owned();
                return Err(m);
            }
            j += 1;
        }
        i += 1;
    }
    proof {
        assert forall|a: int, b: int| !pair_conflict_at(s, a, b) by {
            if pair_conflict_at(s, a, b) {
                if a < b {
                    assert(!pair_conflict_at(s, a, b));
                } else {
                    assert(!pair_conflict_at(s, b, a));
                }
            }
        }
    }
    Ok(())
}

/// All four structural constraints on an accepted pairing set.
pub open spec fn all_checks_ok(s: Seq<AssignmentV>) -> bool {
    &&& self_ok(s)
    &&& family_ok(s)
    &&& circle_ok(s)
    &&& family_pair_ok(s)
}

/// Runs the four checks in order and returns the diagnostic of the
/// first one that rejects; accepts exactly when all four accept.
pub fn check_assignments(assignments: &Vec<Assignment>) -> (r: Result<(), String>)
    requires
        well_formed(assignment_views(assignments@)),
    ensures
        r is Ok <==> all_checks_ok(assignment_views(assignments@)),
        r matches Err(m) ==> ({
            let s = assignment_views(assignments@);
            ||| !self_ok(s) && m@ == itself_msg(s[first_self_conflict(s)].person1)
            ||| self_ok(s) && !family_ok(s) && m@ == family_msg(
                s[first_family_conflict(s)].person1,
                s[first_family_conflict(s)].person2,
            )
            ||| self_ok(s) && family_ok(s) && !circle_ok(s) && m@ == circle_msg(
                cycle_len(s),
                s.len(),
            )
            ||| self_ok(s) && family_ok(s) && circle_ok(s) && !family_pair_ok(s) && m@
                == family_pair_msg()
        }),
{
    let result = check_person_to_itself(assignments);
    if result.is_err() {
        return result;
    }
    let result = check_family(assignments);
    if result.is_err() {
        return result;
    }
    let result = check_full_circle(assignments);
    if result.is_err() {
        return result;
    }
    let result = check_family_to_family(assignments);
    if result.is_err() {
        return result;
    }
    Ok(())
}

} // verus!
