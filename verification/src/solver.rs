//! The solver.
//!
//! `find_words_from_lines` normalizes each dictionary line, keeps the
//! candidate words, and orders them by non-increasing length.
//! `find_perfect_words_from_file` keeps, of an already-filtered list, the
//! words that use every allowed letter, ordered the same way. `solve` runs
//! both dictionaries for one seven-letter constraint set.

use vstd::prelude::*;
use vstd::seq_lib::lemma_seq_contains_after_push;
use crate::letters::LetterSet;
use crate::matcher::is_candidate;
use crate::matcher::is_candidate_spec;
use crate::matcher::is_perfect;
use crate::matcher::is_perfect_spec;
use crate::sorting::has_len;
use crate::sorting::lemma_sort_contains;
use crate::sorting::lemma_sort_sorted;
use crate::sorting::lemma_sort_stable;
use crate::sorting::sort_by_len_desc;
use crate::sorting::sort_words_desc;
use crate::sorting::sorted_by_len_desc;
use crate::words::normalize;
use crate::words::normalized;
use crate::words::word_views;

verus! {

/// Each line in its normalized form.
pub open spec fn normalized_lines(lines: Seq<Seq<char>>) -> Seq<Seq<char>> {
    lines.map_values(|l: Seq<char>| normalized(l))
}

/// The candidate test for one run, as a predicate on words.
pub open spec fn candidate_pred(mandatory: char, allowed: Seq<char>) -> spec_fn(Seq<char>) -> bool {
    |w: Seq<char>| is_candidate_spec(w, mandatory, allowed)
}

/// The perfect test for one run, as a predicate on words.
pub open spec fn perfect_pred(allowed: Seq<char>) -> spec_fn(Seq<char>) -> bool {
    |w: Seq<char>| is_perfect_spec(w, allowed)
}

/// The candidate words of a dictionary, in line order: each line
/// normalized, then those passing the candidate test kept.
pub open spec fn candidate_words(
    lines: Seq<Seq<char>>,
    mandatory: char,
    allowed: Seq<char>,
) -> Seq<Seq<char>> {
    normalized_lines(lines).filter(candidate_pred(mandatory, allowed))
}

/// The perfect words among a list of words, in list order.
pub open spec fn perfect_words(words: Seq<Seq<char>>, allowed: Seq<char>) -> Seq<Seq<char>> {
    words.filter(perfect_pred(allowed))
}

proof fn lemma_filter_push(s: Seq<Seq<char>>, p: spec_fn(Seq<char>) -> bool, w: Seq<char>)
    ensures
        s.push(w).filter(p) == if p(w) {
            s.filter(p).push(w)
        } else {
            s.filter(p)
        },
{
    reveal(Seq::filter);
    assert(s.push(w).drop_last() =~= s);
    assert(s.push(w).last() == w);
}

proof fn lemma_filter_empty(p: spec_fn(Seq<char>) -> bool)
    ensures
        Seq::<Seq<char>>::empty().filter(p) == Seq::<Seq<char>>::empty(),
{
    reveal(Seq::filter);
}

proof fn lemma_filter_subset(s: Seq<Seq<char>>, p: spec_fn(Seq<char>) -> bool)
    ensures
        forall|x: Seq<char>| #[trigger] s.filter(p).contains(x) ==> s.contains(x),
    decreases s.len(),
{
    reveal(Seq::filter);
    if s.len() > 0 {
        let t = s.drop_last();
        lemma_filter_subset(t, p);
        assert forall|x: Seq<char>| #[trigger] s.filter(p).contains(x) implies s.contains(x) by {
            if p(s.last()) {
                lemma_seq_contains_after_push(t.filter(p), s.last(), x);
            } else {
                assert(s.filter(p) == t.filter(p));
            }
            if x == s.last() {
                assert(s[s.len() - 1] == x);
            } else {
                assert(t.filter(p).contains(x));
                assert(t.contains(x));
                let i = choose|i: int| 0 <= i < t.len() && t[i] == x;
                assert(t[i] == s[i]);
                assert(s[i] == x);
            }
        }
    }
}

/// Scan one dictionary: normalize each line, keep the candidate words for
/// the given mandatory letter and allowed set, and order them by
/// non-increasing length, equal lengths in line order.
pub fn find_words_from_lines(
    lines: &Vec<String>,
    specified_letter: char,
    allowed_letters: &Vec<char>,
) -> (r: Vec<String>)
    ensures
        word_views(r@) == sort_by_len_desc(
            candidate_words(word_views(lines@), specified_letter, allowed_letters@),
        ),
        sorted_by_len_desc(word_views(r@)),
        forall|n: nat|
            #[trigger] word_views(r@).filter(has_len(n)) == candidate_words(
                word_views(lines@),
                specified_letter,
                allowed_letters@,
            ).filter(has_len(n)),
{
    proof {
        lemma_candidates_ordered(word_views(lines@), specified_letter, allowed_letters@);
    }
    let ghost lv: Seq<Seq<char>> = word_views(lines@);
    let ghost p: spec_fn(Seq<char>) -> bool = candidate_pred(specified_letter, allowed_letters@);
    let mut found: Vec<String> = Vec::new();
    let mut i: usize = 0;
    proof {
        assert(normalized_lines(lv.take(0)) =~= Seq::<Seq<char>>::empty());
        lemma_filter_empty(p);
    }
    while i < lines.len()
        invariant
            lv == word_views(lines@),
            p == candidate_pred(specified_letter, allowed_letters@),
            i <= lines@.len(),
            word_views(found@) == normalized_lines(lv.take(i as int)).filter(p),
        decreases lines@.len() - i,
    {
        let word = normalize(lines[i].as_str());
        proof {
            assert(lv[i as int] == lines@[i as int]@);
            assert(normalized_lines(lv.take(i as int + 1)) =~= normalized_lines(
                lv.take(i as int),
            ).push(normalized(lv[i as int])));
            lemma_filter_push(normalized_lines(lv.take(i as int)), p, normalized(lv[i as int]));
        }
        if is_candidate(word.as_str(), specified_letter, allowed_letters) {
            let ghost pre: Seq<String> = found@;
            found.push(word);
            proof {
                assert(word_views(found@) =~= word_views(pre).push(normalized(lv[i as int])));
            }
        }
        i += 1;
    }
    proof {
        assert(lv.take(lines@.len() as int) =~= lv);
    }
    sort_words_desc(found)
}

/// Keep, of an already-normalized candidate list, the words that use every
/// letter of the allowed set, ordered by non-increasing length, equal
/// lengths in input order.
pub fn find_perfect_words_from_file(valid_words: &Vec<String>, allowed_letters: &Vec<char>) -> (r:
    Vec<String>)
    ensures
        word_views(r@) == sort_by_len_desc(
            perfect_words(word_views(valid_words@), allowed_letters@),
        ),
        sorted_by_len_desc(word_views(r@)),
        forall|w: Seq<char>| #[trigger]
            word_views(r@).contains(w) ==> word_views(valid_words@).contains(w),
{
    proof {
        lemma_sort_sorted(perfect_words(word_views(valid_words@), allowed_letters@));
        lemma_perfect_subset_of_all(word_views(valid_words@), allowed_letters@);
    }
    let ghost wv: Seq<Seq<char>> = word_views(valid_words@);
    let ghost p: spec_fn(Seq<char>) -> bool = perfect_pred(allowed_letters@);
    let mut found: Vec<String> = Vec::new();
    let mut i: usize = 0;
    proof {
        assert(wv.take(0) =~= Seq::<Seq<char>>::empty());
        lemma_filter_empty(p);
    }
    while i < valid_words.len()
        invariant
            wv == word_views(valid_words@),
            p == perfect_pred(allowed_letters@),
            i <= valid_words@.len(),
            word_views(found@) == wv.take(i as int).filter(p),
        decreases valid_words@.len() - i,
    {
        proof {
            assert(wv[i as int] == valid_words@[i as int]@);
            assert(wv.take(i as int + 1) =~= wv.take(i as int).push(wv[i as int]));
            lemma_filter_push(wv.take(i as int), p, wv[i as int]);
        }
        if is_perfect(valid_words[i].as_str(), allowed_letters) {
            let word = valid_words[i].clone();
            let ghost pre: Seq<String> = found@;
            found.push(word);
            proof {
                assert(word_views(found@) =~= word_views(pre).push(wv[i as int]));
            }
        }
        i += 1;
    }
    proof {
        assert(wv.take(valid_words@.len() as int) =~= wv);
    }
    sort_words_desc(found)
}

/// The three result lists of one run.
pub struct SolveResult {
    /// Candidates from the small dictionary.
    pub likely: Vec<String>,
    /// Candidates from the large dictionary.
    pub all: Vec<String>,
    /// The words of `all` that use every allowed letter.
    pub perfect: Vec<String>,
}

/// Run both dictionaries for one constraint set: candidates of the small
/// dictionary, candidates of the large one, and the perfect subset of the
/// latter.
pub fn solve(likely_lines: &Vec<String>, all_lines: &Vec<String>, letters: &LetterSet) -> (r:
    SolveResult)
    requires
        letters.wf(),
    ensures
        word_views(r.likely@) == sort_by_len_desc(
            candidate_words(word_views(likely_lines@), letters@[0], letters@),
        ),
        word_views(r.all@) == sort_by_len_desc(
            candidate_words(word_views(all_lines@), letters@[0], letters@),
        ),
        word_views(r.perfect@) == sort_by_len_desc(
            perfect_words(word_views(r.all@), letters@),
        ),
        sorted_by_len_desc(word_views(r.likely@)),
        sorted_by_len_desc(word_views(r.all@)),
        sorted_by_len_desc(word_views(r.perfect@)),
        forall|w: Seq<char>| #[trigger]
            word_views(r.perfect@).contains(w) ==> word_views(r.all@).contains(w),
{
    let specified_letter = letters.mandatory();
    let allowed_letters = letters.allowed();
    let likely = find_words_from_lines(likely_lines, specified_letter, allowed_letters);
    let all = find_words_from_lines(all_lines, specified_letter, allowed_letters);
    let perfect = find_perfect_words_from_file(&all, allowed_letters);
    SolveResult { likely, all, perfect }
}

/// Law: a candidate result list is ordered by non-increasing length, and
/// within one length the dictionary order is kept — for every length, the
/// words of that length stand exactly as they stand among the normalized
/// candidate lines.
pub proof fn lemma_candidates_ordered(lines: Seq<Seq<char>>, mandatory: char, allowed: Seq<char>)
    ensures
        sorted_by_len_desc(sort_by_len_desc(candidate_words(lines, mandatory, allowed))),
        forall|n: nat|
            #[trigger] sort_by_len_desc(candidate_words(lines, mandatory, allowed)).filter(
                has_len(n),
            ) == candidate_words(lines, mandatory, allowed).filter(has_len(n)),
{
    lemma_sort_sorted(candidate_words(lines, mandatory, allowed));
    assert forall|n: nat|
        #[trigger] sort_by_len_desc(candidate_words(lines, mandatory, allowed)).filter(
            has_len(n),
        ) == candidate_words(lines, mandatory, allowed).filter(has_len(n)) by {
        lemma_sort_stable(candidate_words(lines, mandatory, allowed), n);
    }
}

/// Law: the perfect list is a subset of the list it was drawn from —
/// every word of `perfect_words`, sorted or not, appears in `words`.
pub proof fn lemma_perfect_subset_of_all(words: Seq<Seq<char>>, allowed: Seq<char>)
    ensures
        forall|w: Seq<char>|
            #[trigger] sort_by_len_desc(perfect_words(words, allowed)).contains(w)
                ==> words.contains(w),
{
    lemma_sort_contains(perfect_words(words, allowed));
    lemma_filter_subset(words, perfect_pred(allowed));
}

} // verus!
