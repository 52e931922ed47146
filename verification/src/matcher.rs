//! The word matcher.
//!
//! `is_candidate` decides whether one normalized word may be played at all:
//! at least four letters, drawn only from the allowed set, containing the
//! mandatory letter. `is_perfect` decides whether a word uses every letter
//! of the allowed set at least once.

use vstd::prelude::*;

verus! {

/// Every character of `w` is a member of `allowed`.
pub open spec fn all_chars_in(w: Seq<char>, allowed: Seq<char>) -> bool {
    forall|i: int| 0 <= i < w.len() ==> allowed.contains(#[trigger] w[i])
}

/// Every character of `allowed` occurs in `w` at least once. This is set
/// coverage: a letter repeated in `allowed` is satisfied by a single
/// occurrence in `w`.
pub open spec fn covers(w: Seq<char>, allowed: Seq<char>) -> bool {
    forall|i: int| 0 <= i < allowed.len() ==> w.contains(#[trigger] allowed[i])
}

/// A word may be played: it is at least four letters long, uses only
/// allowed letters, and contains the mandatory letter.
pub open spec fn is_candidate_spec(w: Seq<char>, mandatory: char, allowed: Seq<char>) -> bool {
    w.len() >= 4 && all_chars_in(w, allowed) && w.contains(mandatory)
}

/// A word is perfect: it is at least as long as the allowed set and covers
/// every one of its letters.
pub open spec fn is_perfect_spec(w: Seq<char>, allowed: Seq<char>) -> bool {
    w.len() >= allowed.len() && covers(w, allowed)
}

fn vec_contains_char(v: &Vec<char>, c: char) -> (r: bool)
    ensures
        r == v@.contains(c),
{
    let mut i: usize = 0;
    while i < v.len()
        invariant
            i <= v@.len(),
            forall|j: int| 0 <= j < i ==> v@[j] != c,
        decreases v@.len() - i,
    {
        if v[i] == c {
            return true;
        }
        i += 1;
    }
    false
}

fn str_contains_char(s: &str, c: char) -> (r: bool)
    ensures
        r == s@.contains(c),
{
    let n = s.unicode_len();
    let mut i: usize = 0;
    while i < n
        invariant
            n == s@.len(),
            i <= n,
            forall|j: int| 0 <= j < i ==> s@[j] != c,
        decreases n - i,
    {
        if s.get_char(i) == c {
            return true;
        }
        i += 1;
    }
    false
}

fn str_chars_all_in(s: &str, allowed: &Vec<char>) -> (r: bool)
    ensures
        r == all_chars_in(s@, allowed@),
{
    let n = s.unicode_len();
    let mut i: usize = 0;
    while i < n
        invariant
            n == s@.len(),
            i <= n,
            forall|j: int| 0 <= j < i ==> allowed@.contains(#[trigger] s@[j]),
        decreases n - i,
    {
        if !vec_contains_char(allowed, s.get_char(i)) {
            return false;
        }
        i += 1;
    }
    true
}

/// Decide whether `word` may be played with the given mandatory letter and
/// allowed set. `word` is expected in normalized form; the decision is a
/// pure function of the arguments.
pub fn is_candidate(word: &str, specified_letter: char, allowed_letters: &Vec<char>) -> (r: bool)
    ensures
        r == is_candidate_spec(word@, specified_letter, allowed_letters@),
{
    if word.unicode_len() < 4 {
        return false;
    }
    if !str_chars_all_in(word, allowed_letters) {
        return false;
    }
    str_contains_char(word, specified_letter)
}

/// Decide whether `word` uses every letter of the allowed set at least
/// once. Pure function of the arguments.
pub fn is_perfect(word: &str, allowed_letters: &Vec<char>) -> (r: bool)
    ensures
        r == is_perfect_spec(word@, allowed_letters@),
{
    if word.unicode_len() < allowed_letters.len() {
        return false;
    }
    let mut i: usize = 0;
    while i < allowed_letters.len()
        invariant
            i <= allowed_letters@.len(),
            word@.len() >= allowed_letters@.len(),
            forall|j: int| 0 <= j < i ==> word@.contains(#[trigger] allowed_letters@[j]),
        decreases allowed_letters@.len() - i,
    {
        if !str_contains_char(word, allowed_letters[i]) {
            return false;
        }
        i += 1;
    }
    true
}

/// Law: a word that passes the candidate test is at least four letters
/// long, consists only of allowed letters, and contains the mandatory
/// letter.
pub proof fn lemma_candidate_properties(w: Seq<char>, mandatory: char, allowed: Seq<char>)
    requires
        is_candidate_spec(w, mandatory, allowed),
    ensures
        w.len() >= 4,
        all_chars_in(w, allowed),
        w.contains(mandatory),
{
}

/// Law: a word that passes the perfect test contains every character of
/// the allowed set, duplicates in the set notwithstanding.
pub proof fn lemma_perfect_covers(w: Seq<char>, allowed: Seq<char>)
    requires
        is_perfect_spec(w, allowed),
    ensures
        forall|i: int| 0 <= i < allowed.len() ==> w.contains(#[trigger] allowed[i]),
{
}

/// Law: the candidate test is pure. Any two runs on the same word,
/// mandatory letter and allowed set return the same boolean, since each
/// equals `is_candidate_spec` on those arguments.
pub proof fn lemma_candidate_deterministic(
    r1: bool,
    r2: bool,
    w: Seq<char>,
    mandatory: char,
    allowed: Seq<char>,
)
    requires
        r1 == is_candidate_spec(w, mandatory, allowed),
        r2 == is_candidate_spec(w, mandatory, allowed),
    ensures
        r1 == r2,
{
}

} // verus!
