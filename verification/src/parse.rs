//! Name extraction: free-form text, read line by line, yields one
//! participant per line that contains a recognizable name.
//!
//! A name is the first place in a line where a run of word characters
//! is followed by one whitespace character and another run of word
//! characters; the two full runs around that place are the given name
//! and the family name. A word character is an ASCII letter, digit or
//! underscore; whitespace is an ASCII whitespace character. Lines
//! without such a place are skipped silently.

use vstd::prelude::*;
use vstd::string::StrSliceExecFns;

use crate::person::{person_views, Person, PersonV};

verus! {

/// `c` is a word character: an ASCII letter, digit or underscore.
pub open spec fn is_word_char(c: char) -> bool {
    let u = c as u32;
    ('a' as u32) <= u <= ('z' as u32) || ('A' as u32) <= u <= ('Z' as u32) || ('0' as u32) <= u
        <= ('9' as u32) || u == ('_' as u32)
}

/// `c` is an ASCII whitespace character (space, tab, line feed,
/// vertical tab, form feed or carriage return).
pub open spec fn is_space_char(c: char) -> bool {
    let u = c as u32;
    u == 32 || 9 <= u <= 13
}

/// A name match sits at position `k` of the line: a word character,
/// one whitespace character, and again a word character.
pub open spec fn match_at(line: Seq<char>, k: int) -> bool {
    &&& 0 <= k
    &&& k + 2 < line.len()
    &&& is_word_char(line[k])
    &&& is_space_char(line[k + 1])
    &&& is_word_char(line[k + 2])
}

/// The line contains a name match somewhere.
pub open spec fn line_has_match(line: Seq<char>) -> bool {
    exists|k: int| match_at(line, k)
}

/// The position of the leftmost name match of the line (meaningful
/// only when one exists).
pub open spec fn first_match(line: Seq<char>) -> int {
    choose|k: int| match_at(line, k) && (forall|j: int| 0 <= j < k ==> !match_at(line, j))
}

/// `a` begins the run of word characters that ends at `k`.
pub open spec fn is_run_start(line: Seq<char>, k: int, a: int) -> bool {
    &&& 0 <= a <= k
    &&& forall|m: int| a <= m <= k ==> is_word_char(line[m])
    &&& a == 0 || !is_word_char(line[a - 1])
}

/// `b` ends (exclusively) the run of word characters that begins at
/// `j`.
pub open spec fn is_run_end(line: Seq<char>, j: int, b: int) -> bool {
    &&& j < b <= line.len()
    &&& forall|m: int| j <= m < b ==> is_word_char(line[m])
    &&& b == line.len() || !is_word_char(line[b])
}

/// Where the given name begins, for a match at `k`.
pub open spec fn first_name_start(line: Seq<char>, k: int) -> int {
    choose|a: int| is_run_start(line, k, a)
}

/// Where the run of word characters beginning at `j` ends.
pub open spec fn last_name_end(line: Seq<char>, j: int) -> int {
    choose|b: int| is_run_end(line, j, b)
}

/// The participant a matching line yields: the full word run around
/// the leftmost match is the given name, the full word run after the
/// whitespace is the family name.
pub open spec fn line_person(line: Seq<char>) -> PersonV {
    let k = first_match(line);
    let a = first_name_start(line, k);
    let b = last_name_end(line, k + 2);
    PersonV { first: line.subrange(a, k + 1), last: line.subrange(k + 2, b) }
}

/// The participants a single line yields: one for a matching line,
/// none otherwise.
pub open spec fn line_persons(line: Seq<char>) -> Seq<PersonV> {
    if line_has_match(line) {
        seq![line_person(line)]
    } else {
        Seq::<PersonV>::empty()
    }
}

/// The position of the line break that ends the line beginning at `i`,
/// or the end of the text if there is none.
pub open spec fn line_end(text: Seq<char>, i: int) -> int
    decreases text.len() - i,
{
    if !(0 <= i < text.len()) {
        text.len() as int
    } else if text[i] == '\n' {
        i
    } else {
        line_end(text, i + 1)
    }
}

/// The participants of the text from position `i` on, line by line in
/// input order.
pub open spec fn spec_parse_at(text: Seq<char>, i: int) -> Seq<PersonV>
    decreases text.len() - i,
{
    if !(0 <= i < text.len()) {
        Seq::<PersonV>::empty()
    } else {
        let e = line_end(text, i);
        let j = if e < i {
            i
        } else if e > text.len() {
            text.len() as int
        } else {
            e
        };
        let cur = line_persons(text.subrange(i, j));
        if j + 1 < text.len() {
            cur + spec_parse_at(text, j + 1)
        } else {
            cur
        }
    }
}

/// The participants extracted from the whole text.
pub open spec fn spec_parse(text: Seq<char>) -> Seq<PersonV> {
    spec_parse_at(text, 0)
}

proof fn lemma_line_end_computed(text: Seq<char>, i: int, j: int)
    requires
        0 <= i <= j <= text.len(),
        forall|m: int| i <= m < j ==> text[m] != '\n',
        j == text.len() || text[j] == '\n',
    ensures
        line_end(text, i) == j,
    decreases j - i,
{
    if i < j {
        lemma_line_end_computed(text, i + 1, j);
    }
}

proof fn lemma_first_match(line: Seq<char>, k: int)
    requires
        match_at(line, k),
        forall|j: int| 0 <= j < k ==> !match_at(line, j),
    ensures
        line_has_match(line),
        first_match(line) == k,
{
    let kc = first_match(line);
    assert(match_at(line, kc) && (forall|j: int| 0 <= j < kc ==> !match_at(line, j)));
}

proof fn lemma_run_start(line: Seq<char>, k: int, a: int)
    requires
        0 <= k < line.len(),
        is_run_start(line, k, a),
    ensures
        first_name_start(line, k) == a,
{
    let ac = first_name_start(line, k);
    assert(is_run_start(line, k, ac));
    if ac < a {
        assert(is_word_char(line[a - 1]));
    } else if a < ac {
        assert(is_word_char(line[ac - 1]));
    }
}

proof fn lemma_run_end(line: Seq<char>, j: int, b: int)
    requires
        0 <= j < line.len(),
        is_run_end(line, j, b),
    ensures
        last_name_end(line, j) == b,
{
    let bc = last_name_end(line, j);
    assert(is_run_end(line, j, bc));
    if bc < b {
        assert(!is_word_char(line[bc]));
    } else if b < bc {
        assert(!is_word_char(line[b]));
    }
}

/// Decides whether `c` is a word character.
fn word_char(c: char) -> (r: bool)
    ensures
        r == is_word_char(c),
{
    let u = c as u32;
    ('a' as u32) <= u && u <= ('z' as u32) || ('A' as u32) <= u && u <= ('Z' as u32) || ('0'
        as u32) <= u && u <= ('9' as u32) || u == ('_' as u32)
}

/// Decides whether `c` is an ASCII whitespace character.
fn space_char(c: char) -> (r: bool)
    ensures
        r == is_space_char(c),
{
    let u = c as u32;
    u == 32 || 9 <= u && u <= 13
}

/// The position of the leftmost name match of the line, if any.
fn find_first_match(line: &str) -> (r: Option<usize>)
    ensures
        r matches Some(k) ==> match_at(line@, k as int) && (forall|j: int|
            0 <= j < k ==> !match_at(line@, j)),
        r is None ==> !line_has_match(line@),
{
    let llen = line.unicode_len();
    if llen < 3 {
        return None;
    }
    let mut k: usize = 0;
    while k < llen - 2
        invariant
            llen == line@.len(),
            3 <= llen,
            k <= llen - 2,
            forall|j: int| 0 <= j < k ==> !match_at(line@, j),
        decreases llen - k,
    {
        let c0 = line.get_char(k);
        let c1 = line.get_char(k + 1);
        let c2 = line.get_char(k + 2);
        if word_char(c0) && space_char(c1) && word_char(c2) {
            return Some(k);
        }
        proof {
            assert(!match_at(line@, k as int));
        }
        k += 1;
    }
    proof {
        assert forall|j: int| !match_at(line@, j) by {
            if match_at(line@, j) {
                assert(0 <= j < llen - 2);
            }
        }
    }
    None
}

/// The participant of a single line, if the line contains a name.
fn extract_person(line: &str) -> (r: Option<Person>)
    ensures
        r is Some <==> line_has_match(line@),
        r matches Some(p) ==> p@ == line_person(line@),
{
    let llen = line.unicode_len();
    let k = match find_first_match(line) {
        Some(k) => k,
        None => {
            return None;
        },
    };
    proof {
        lemma_first_match(line@, k as int);
    }
    let mut a: usize = k;
    while a > 0 && word_char(line.get_char(a - 1))
        invariant
            llen == line@.len(),
            k + 2 < llen,
            a <= k,
            forall|m: int| a <= m <= k ==> is_word_char(line@[m]),
        decreases a,
    {
        a -= 1;
    }
    let mut b: usize = k + 3;
    while b < llen && word_char(line.get_char(b))
        invariant
            llen == line@.len(),
            k + 2 < llen,
            k + 2 < b <= llen,
            forall|m: int| k + 2 <= m < b ==> is_word_char(line@[m]),
        decreases llen - b,
    {
        b += 1;
    }
    proof {
        lemma_run_start(line@, k as int, a as int);
        lemma_run_end(line@, k as int + 2, b as int);
    }
    let first = line.substring_char(a, k + 1);
    let last = line.substring_char(k + 2, b);
    let p = Person { first_name: first.to_owned(), last_name: last.to_owned() };
    proof {
        assert(p@ == line_person(line@));
    }
    Some(p)
}

/// Extracts one participant from every line of `content` that contains
/// a recognizable name, in input order, skipping the other lines.
#[verifier::rlimit(100)]
pub fn parse_names(content: &str) -> (r: Vec<Person>)
    ensures
        person_views(r@) == spec_parse(content@),
{
    let n = content.unicode_len();
    let mut persons: Vec<Person> = Vec::new();
    let mut i: usize = 0;
    while i < n
        invariant
            n == content@.len(),
            i <= n,
            person_views(persons@) + spec_parse_at(content@, i as int) == spec_parse(content@),
        decreases n - i,
    {
        let ghost prev = persons@;
        let mut j: usize = i;
        while j < n && !(content.get_char(j) == '\n')
            invariant
                n == content@.len(),
                i <= j <= n,
                forall|m: int| i <= m < j ==> content@[m] != '\n',
            decreases n - j,
        {
            j += 1;
        }
        proof {
            lemma_line_end_computed(content@, i as int, j as int);
        }
        let line = content.substring_char(i, j);
        match extract_person(line) {
            Some(p) => persons.push(p),
            None => {},
        }
        proof {
            assert(person_views(persons@) =~= person_views(prev) + line_persons(line@));
            assert(spec_parse_at(content@, i as int) == line_persons(line@) + (if j + 1 < n {
                spec_parse_at(content@, j as int + 1)
            } else {
                Seq::<PersonV>::empty()
            }));
        }
        if j < n {
            i = j + 1;
        } else {
            i = n;
        }
        proof {
            assert(person_views(persons@) + spec_parse_at(content@, i as int) =~= spec_parse(
                content@,
            ));
        }
    }
    proof {
        assert(person_views(persons@) =~= spec_parse(content@));
    }
    persons
}

} // verus!
