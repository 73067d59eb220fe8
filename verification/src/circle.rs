//! The full-circle check: following giver to receiver from the first
//! giver must visit every pairing before returning to the start.
//!
//! A pairing set is walked as a function from giver to receiver. For a
//! permutation-shaped set (distinct givers, distinct receivers, every
//! receiver again a giver) the walk returns to its start within as many
//! steps as there are pairings; the check accepts exactly when that
//! takes the full count, i.e. when the set forms one single cycle.

use vstd::prelude::*;
use vstd::set_lib::{lemma_int_range, lemma_len_subset, set_int_range};
use vstd::string::StringExecFns;

use crate::msg::{append_dec, circle_msg};
use crate::person::{
    assignment_views, person_copy, person_eq, Assignment, AssignmentV, Person, PersonV,
};

verus! {

/// `p` appears as a giver in `s`.
pub open spec fn has_giver(s: Seq<AssignmentV>, p: PersonV) -> bool {
    exists|j: int| 0 <= j < s.len() && s[j].person1 == p
}

/// No participant appears as a giver twice.
pub open spec fn distinct_givers(s: Seq<AssignmentV>) -> bool {
    forall|i: int, j: int| 0 <= i < j < s.len() ==> s[i].person1 != s[j].person1
}

/// No participant appears as a receiver twice.
pub open spec fn distinct_receivers(s: Seq<AssignmentV>) -> bool {
    forall|i: int, j: int| 0 <= i < j < s.len() ==> s[i].person2 != s[j].person2
}

/// Every receiver appears as a giver.
pub open spec fn receivers_closed(s: Seq<AssignmentV>) -> bool {
    forall|i: int| 0 <= i < s.len() ==> has_giver(s, s[i].person2)
}

/// The pairing set is shaped like a permutation of its participants:
/// nonempty, givers pairwise distinct, receivers pairwise distinct, and
/// every receiver again a giver. The engine only ever builds such sets;
/// on anything else the giver-to-receiver walk below would not be
/// well defined.
pub open spec fn well_formed(s: Seq<AssignmentV>) -> bool {
    &&& s.len() >= 1
    &&& distinct_givers(s)
    &&& distinct_receivers(s)
    &&& receivers_closed(s)
}

/// The index of the pairing whose giver is `p` (unique when givers are
/// distinct and `p` is a giver).
pub open spec fn match_index(s: Seq<AssignmentV>, p: PersonV) -> int {
    choose|j: int| 0 <= j < s.len() && s[j].person1 == p
}

/// The receiver `p` gives to.
pub open spec fn step(s: Seq<AssignmentV>, p: PersonV) -> PersonV {
    s[match_index(s, p)].person2
}

/// The participant reached from `p` after `k` giver-to-receiver steps.
pub open spec fn iter_step(s: Seq<AssignmentV>, p: PersonV, k: nat) -> PersonV
    decreases k,
{
    if k == 0 {
        p
    } else {
        step(s, iter_step(s, p, (k - 1) as nat))
    }
}

/// The giver the walk starts from.
pub open spec fn start_of(s: Seq<AssignmentV>) -> PersonV {
    s[0].person1
}

/// The walk from the first giver closes exactly after one step per
/// pairing: the set forms one single cycle.
pub open spec fn circle_ok(s: Seq<AssignmentV>) -> bool {
    &&& iter_step(s, start_of(s), s.len() as nat) == start_of(s)
    &&& forall|m: nat| 1 <= m < s.len() ==> iter_step(s, start_of(s), m) != start_of(s)
}

/// The number of steps after which the walk from the first giver first
/// returns to it (meaningful for well-formed sets).
pub open spec fn cycle_len(s: Seq<AssignmentV>) -> nat {
    choose|c: nat|
        1 <= c && iter_step(s, start_of(s), c) == start_of(s) && (forall|m: nat|
            1 <= m < c ==> iter_step(s, start_of(s), m) != start_of(s))
}

pub(crate) proof fn lemma_match_index(s: Seq<AssignmentV>, p: PersonV)
    requires
        distinct_givers(s),
        has_giver(s, p),
    ensures
        0 <= match_index(s, p) < s.len(),
        s[match_index(s, p)].person1 == p,
        forall|j: int| 0 <= j < s.len() && s[j].person1 == p ==> j == match_index(s, p),
{
    let mi = match_index(s, p);
    assert(0 <= mi < s.len() && s[mi].person1 == p);
    assert forall|j: int| 0 <= j < s.len() && s[j].person1 == p implies j == mi by {
        if j < mi {
            assert(s[j].person1 != s[mi].person1);
        } else if mi < j {
            assert(s[mi].person1 != s[j].person1);
        }
    }
}

proof fn lemma_step_closed(s: Seq<AssignmentV>, p: PersonV)
    requires
        well_formed(s),
        has_giver(s, p),
    ensures
        has_giver(s, step(s, p)),
{
    lemma_match_index(s, p);
}

proof fn lemma_step_injective(s: Seq<AssignmentV>, p: PersonV, q: PersonV)
    requires
        well_formed(s),
        has_giver(s, p),
        has_giver(s, q),
        step(s, p) == step(s, q),
    ensures
        p == q,
{
    lemma_match_index(s, p);
    lemma_match_index(s, q);
    let ip = match_index(s, p);
    let iq = match_index(s, q);
    if ip < iq {
        assert(s[ip].person2 != s[iq].person2);
    } else if iq < ip {
        assert(s[iq].person2 != s[ip].person2);
    }
}

proof fn lemma_iter_closed(s: Seq<AssignmentV>, p: PersonV, k: nat)
    requires
        well_formed(s),
        has_giver(s, p),
    ensures
        has_giver(s, iter_step(s, p, k)),
    decreases k,
{
    if k > 0 {
        lemma_iter_closed(s, p, (k - 1) as nat);
        lemma_step_closed(s, iter_step(s, p, (k - 1) as nat));
    }
}

proof fn lemma_orbit_shift(s: Seq<AssignmentV>, p: PersonV, a: int, b: int)
    requires
        well_formed(s),
        has_giver(s, p),
        0 <= a <= b,
        iter_step(s, p, a as nat) == iter_step(s, p, b as nat),
    ensures
        iter_step(s, p, (b - a) as nat) == p,
    decreases a,
{
    if a == 0 {
    } else {
        lemma_iter_closed(s, p, (a - 1) as nat);
        lemma_iter_closed(s, p, (b - 1) as nat);
        lemma_step_injective(s, iter_step(s, p, (a - 1) as nat), iter_step(s, p, (b - 1) as nat));
        lemma_orbit_shift(s, p, a - 1, b - 1);
    }
}

proof fn lemma_orbit_distinct(s: Seq<AssignmentV>, p: PersonV, cnt: int)
    requires
        well_formed(s),
        has_giver(s, p),
        0 <= cnt,
        forall|m: nat| 1 <= m <= cnt ==> iter_step(s, p, m) != p,
    ensures
        forall|a: nat, b: nat| a < b <= cnt ==> iter_step(s, p, a) != iter_step(s, p, b),
{
    assert forall|a: nat, b: nat| a < b <= cnt implies iter_step(s, p, a) != iter_step(s, p, b) by {
        if iter_step(s, p, a) == iter_step(s, p, b) {
            lemma_orbit_shift(s, p, a as int, b as int);
            assert(iter_step(s, p, (b - a) as nat) == p);
            assert(1 <= b - a <= cnt);
        }
    }
}

/// A walk that has not yet returned to its start has made fewer steps
/// than there are pairings: its stations are pairwise distinct givers.
proof fn lemma_orbit_bound(s: Seq<AssignmentV>, p: PersonV, cnt: int)
    requires
        well_formed(s),
        has_giver(s, p),
        0 <= cnt,
        forall|m: nat| 1 <= m <= cnt ==> iter_step(s, p, m) != p,
    ensures
        cnt < s.len(),
{
    let n = s.len() as int;
    lemma_orbit_distinct(s, p, cnt);
    let idx = Seq::<int>::new((cnt + 1) as nat, |k: int| match_index(s, iter_step(s, p, k as nat)));
    assert forall|k: int| 0 <= k <= cnt implies 0 <= idx[k] < n && s[idx[k]].person1 == iter_step(
        s,
        p,
        k as nat,
    ) by {
        lemma_iter_closed(s, p, k as nat);
        lemma_match_index(s, iter_step(s, p, k as nat));
    }
    assert forall|a: int, b: int|
        0 <= a < idx.len() && 0 <= b < idx.len() && a != b implies idx[a] != idx[b] by {
        if idx[a] == idx[b] {
            assert(iter_step(s, p, a as nat) == iter_step(s, p, b as nat));
        }
    }
    assert(idx.no_duplicates());
    idx.unique_seq_to_set();
    assert(idx.to_set().subset_of(set_int_range(0, n))) by {
        assert forall|x: int| idx.to_set().contains(x) implies set_int_range(0, n).contains(x) by {
            let k = choose|k: int| 0 <= k < idx.len() && idx[k] == x;
            assert(0 <= idx[k] < n);
        }
    }
    lemma_int_range(0, n);
    lemma_len_subset(idx.to_set(), set_int_range(0, n));
}

proof fn lemma_cycle_len_unique(s: Seq<AssignmentV>, c: int)
    requires
        1 <= c,
        iter_step(s, start_of(s), c as nat) == start_of(s),
        forall|m: nat| 1 <= m < c ==> iter_step(s, start_of(s), m) != start_of(s),
    ensures
        cycle_len(s) == c,
{
    let cc = cycle_len(s);
    assert(1 <= cc && iter_step(s, start_of(s), cc) == start_of(s) && (forall|m: nat|
        1 <= m < cc ==> iter_step(s, start_of(s), m) != start_of(s)));
}

/// The index of the pairing whose giver is `p`.
fn find_giver(assignments: &Vec<Assignment>, p: &Person) -> (j: usize)
    requires
        has_giver(assignment_views(assignments@), p@),
    ensures
        j < assignments@.len(),
        assignment_views(assignments@)[j as int].person1 == p@,
{
    let ghost s = assignment_views(assignments@);
    let n = assignments.len();
    let mut j: usize = 0;
    loop
        invariant_except_break
            j < n,
            n == s.len(),
            s == assignment_views(assignments@),
            has_giver(s, p@),
            forall|i: int| 0 <= i < j ==> s[i].person1 != p@,
        ensures
            j < n && s[j as int].person1 == p@,
        decreases n - j,
    {
        if person_eq(&assignments[j].person1, p) {
            break;
        }
        proof {
            let jw = choose|jw: int| 0 <= jw < s.len() && s[jw].person1 == p@;
            assert(jw > j);
        }
        j += 1;
    }
    j
}

/// Walks the giver-to-receiver relation from the first giver and
/// rejects unless it returns to the start only after one step per
/// pairing, reporting the found against the expected cycle length;
/// accepts exactly the single-cycle pairing sets.
#[verifier::rlimit(50)]
pub fn check_full_circle(assignments: &Vec<Assignment>) -> (r: Result<(), String>)
    requires
        well_formed(assignment_views(assignments@)),
    ensures
        r is Ok <==> circle_ok(assignment_views(assignments@)),
        r matches Err(m) ==> m@ == circle_msg(
            cycle_len(assignment_views(assignments@)),
            assignments@.len() as nat,
        ),
{
    let ghost s = assignment_views(assignments@);
    let ghost start = start_of(s);
    let n = assignments.len();
    let first_person = person_copy(&assignments[0].person1);
    let mut current_person = person_copy(&first_person);
    let mut counter: usize = 0;
    proof {
        assert(has_giver(s, start));
    }
    loop
        invariant_except_break
            n == s.len(),
            s == assignment_views(assignments@),
            well_formed(s),
            first_person@ == start,
            start == start_of(s),
            counter < n,
            current_person@ == iter_step(s, start, counter as nat),
            forall|m: nat| 1 <= m <= counter ==> iter_step(s, start, m) != start,
        ensures
            n == s.len(),
            s == assignment_views(assignments@),
            1 <= counter <= n,
            iter_step(s, start, counter as nat) == start,
            forall|m: nat| 1 <= m < counter ==> iter_step(s, start, m) != start,
        decreases n - counter,
    {
        counter += 1;
        proof {
            assert(0 <= 0 < s.len() && s[0].person1 == start);
            lemma_iter_closed(s, start, (counter - 1) as nat);
        }
        let j = find_giver(assignments, &current_person);
        proof {
            lemma_match_index(s, current_person@);
            assert(j as int == match_index(s, current_person@));
            assert(s[j as int].person2 == iter_step(s, start, counter as nat));
        }
        if person_eq(&assignments[j].person2, &first_person) {
            break;
        }
        current_person = person_copy(&assignments[j].person2);
        proof {
            assert(forall|m: nat| 1 <= m <= counter ==> iter_step(s, start, m) != start);
            lemma_orbit_bound(s, start, counter as int);
        }
    }
    if counter != n {
        proof {
            lemma_cycle_len_unique(s, counter as int);
            assert(iter_step(s, start, counter as nat) == start && 1 <= counter < n);
        }
        let mut m = "Conflict: Should have one large circle, but has len ".to_owned();
        append_dec(&mut m, counter);
        m.append("/");
        append_dec(&mut m, n);
        proof {
            assert(m@ =~= circle_msg(cycle_len(s), n as nat));
        }
        Err(m)
    } else {
        proof {
            assert(circle_ok(s));
        }
        Ok(())
    }
}

} // verus!
