//! Ordering of result lists.
//!
//! Result lists are ordered by non-increasing word length, and the order of
//! equal-length words is the order of their first appearance in the source.
//! `sort_by_len_desc` is the mathematical statement of that ordering: each
//! word is placed, in input order, before the words no longer than it.
//! `sort_words_desc` computes it.

use vstd::prelude::*;
use vstd::seq_lib::lemma_seq_concat_contains_all_elements;
use crate::words::word_views;

verus! {

/// Word lengths never increase along the list.
pub open spec fn sorted_by_len_desc(s: Seq<Seq<char>>) -> bool {
    forall|i: int, j: int| 0 <= i < j < s.len() ==> s[i].len() >= s[j].len()
}

/// The words of length exactly `n`, used to state order stability.
pub open spec fn has_len(n: nat) -> spec_fn(Seq<char>) -> bool {
    |w: Seq<char>| w.len() == n
}

/// `w` placed into `s`: directly before the first element no longer than
/// `w`, hence after every equal-length element already present.
pub open spec fn insert_desc(w: Seq<char>, s: Seq<Seq<char>>) -> Seq<Seq<char>>
    decreases s.len(),
{
    if s.len() == 0 {
        seq![w]
    } else if s[0].len() > w.len() {
        seq![s[0]] + insert_desc(w, s.drop_first())
    } else {
        seq![w] + s
    }
}

/// The stable sort by non-increasing length: each element, in input order,
/// inserted before the elements no longer than it.
pub open spec fn sort_by_len_desc(s: Seq<Seq<char>>) -> Seq<Seq<char>>
    decreases s.len(),
{
    if s.len() == 0 {
        Seq::empty()
    } else {
        insert_desc(s.first(), sort_by_len_desc(s.drop_first()))
    }
}

/// The index at which `insert_desc` places `w`: the number of leading
/// elements longer than `w`.
spec fn insert_pos(w: Seq<char>, s: Seq<Seq<char>>) -> int
    decreases s.len(),
{
    if s.len() == 0 {
        0
    } else if s[0].len() > w.len() {
        1 + insert_pos(w, s.drop_first())
    } else {
        0
    }
}

proof fn lemma_insert_pos(w: Seq<char>, s: Seq<Seq<char>>)
    ensures
        0 <= insert_pos(w, s) <= s.len(),
        forall|i: int| 0 <= i < insert_pos(w, s) ==> s[i].len() > w.len(),
        insert_pos(w, s) < s.len() ==> s[insert_pos(w, s)].len() <= w.len(),
    decreases s.len(),
{
    if s.len() > 0 && s[0].len() > w.len() {
        lemma_insert_pos(w, s.drop_first());
        assert forall|i: int| 0 <= i < insert_pos(w, s) implies s[i].len() > w.len() by {
            if i > 0 {
                assert(s.drop_first()[i - 1] == s[i]);
            }
        }
        if insert_pos(w, s) < s.len() {
            assert(s.drop_first()[insert_pos(w, s) - 1] == s[insert_pos(w, s)]);
        }
    }
}

proof fn lemma_insert_desc_decompose(w: Seq<char>, s: Seq<Seq<char>>)
    ensures
        insert_desc(w, s) == s.take(insert_pos(w, s)) + seq![w] + s.skip(insert_pos(w, s)),
    decreases s.len(),
{
    let j = insert_pos(w, s);
    if s.len() == 0 {
        assert(insert_desc(w, s) =~= s.take(0) + seq![w] + s.skip(0));
    } else if s[0].len() > w.len() {
        let t = s.drop_first();
        lemma_insert_desc_decompose(w, t);
        lemma_insert_pos(w, t);
        assert(insert_desc(w, s) =~= s.take(j) + seq![w] + s.skip(j));
    } else {
        assert(insert_desc(w, s) =~= s.take(0) + seq![w] + s.skip(0));
    }
}

/// Inserting into a list sorted by non-increasing length keeps it sorted.
proof fn lemma_insert_desc_sorted(w: Seq<char>, s: Seq<Seq<char>>)
    requires
        sorted_by_len_desc(s),
    ensures
        sorted_by_len_desc(insert_desc(w, s)),
{
    lemma_insert_pos(w, s);
    lemma_insert_desc_decompose(w, s);
    let j = insert_pos(w, s);
    let r = insert_desc(w, s);
    assert forall|a: int, b: int| 0 <= a < b < r.len() implies r[a].len() >= r[b].len() by {
        if a < j {
            assert(r[a] == s[a]);
        } else if a == j {
            assert(r[a] == w);
        } else {
            assert(r[a] == s[a - 1]);
        }
        if b < j {
            assert(r[b] == s[b]);
        } else if b == j {
            assert(r[b] == w);
        } else {
            assert(r[b] == s[b - 1]);
        }
    }
}

/// What `insert_desc` holds: `w` and the elements of `s`, nothing else.
proof fn lemma_insert_desc_contains(w: Seq<char>, s: Seq<Seq<char>>)
    ensures
        forall|x: Seq<char>| #[trigger] insert_desc(w, s).contains(x) <==> (x == w || s.contains(
            x,
        )),
{
    lemma_insert_pos(w, s);
    lemma_insert_desc_decompose(w, s);
    let j = insert_pos(w, s);
    let r = insert_desc(w, s);
    assert forall|x: Seq<char>| #[trigger] r.contains(x) <==> (x == w || s.contains(x)) by {
        lemma_seq_concat_contains_all_elements(s.take(j) + seq![w], s.skip(j), x);
        lemma_seq_concat_contains_all_elements(s.take(j), seq![w], x);
        assert(seq![w].contains(x) <==> x == w) by {
            if seq![w].contains(x) {
                assert(seq![w][0] == w);
            } else {
                assert(!(seq![w][0] == x));
            }
        }
        assert(s.take(j) + s.skip(j) =~= s);
        lemma_seq_concat_contains_all_elements(s.take(j), s.skip(j), x);
    }
}

/// Filtering by one length commutes with `insert_desc`: a word of another
/// length leaves the filtered list alone, and a word of that length lands
/// exactly at its front, since every element placed before it is longer.
proof fn lemma_insert_desc_filter(w: Seq<char>, s: Seq<Seq<char>>, n: nat)
    ensures
        insert_desc(w, s).filter(has_len(n)) == if w.len() == n {
            seq![w] + s.filter(has_len(n))
        } else {
            s.filter(has_len(n))
        },
{
    lemma_insert_pos(w, s);
    lemma_insert_desc_decompose(w, s);
    let j = insert_pos(w, s);
    let p = has_len(n);
    let front = s.take(j);
    let back = s.skip(j);
    Seq::filter_distributes_over_add(front + seq![w], back, p);
    Seq::filter_distributes_over_add(front, seq![w], p);
    Seq::filter_distributes_over_add(front, back, p);
    assert(front + back =~= s);
    assert(seq![w].filter(p) == if p(w) {
        seq![w]
    } else {
        Seq::<Seq<char>>::empty()
    }) by {
        reveal_with_fuel(Seq::filter, 2);
        assert(seq![w].drop_last() =~= Seq::<Seq<char>>::empty());
        if p(w) {
            assert(seq![w].filter(p) =~= seq![w]);
        }
    }
    if w.len() == n {
        assert(front.all(|x: Seq<char>| !p(x)));
        front.lemma_all_neg_filter_empty(p);
        assert(front.filter(p) =~= Seq::<Seq<char>>::empty());
        assert(insert_desc(w, s).filter(p) =~= seq![w] + s.filter(p));
    } else {
        assert(insert_desc(w, s).filter(p) =~= s.filter(p));
    }
}

/// Law: the sorted list is ordered by non-increasing word length.
pub proof fn lemma_sort_sorted(s: Seq<Seq<char>>)
    ensures
        sorted_by_len_desc(sort_by_len_desc(s)),
    decreases s.len(),
{
    if s.len() > 0 {
        lemma_sort_sorted(s.drop_first());
        lemma_insert_desc_sorted(s.first(), sort_by_len_desc(s.drop_first()));
    }
}

/// Law: sorting keeps exactly the input's words — the sorted list contains
/// a word precisely when the input does.
pub proof fn lemma_sort_contains(s: Seq<Seq<char>>)
    ensures
        forall|x: Seq<char>| #[trigger] sort_by_len_desc(s).contains(x) <==> s.contains(x),
    decreases s.len(),
{
    if s.len() == 0 {
        assert forall|x: Seq<char>| #[trigger] sort_by_len_desc(s).contains(x) <==> s.contains(
            x,
        ) by {
            assert(!sort_by_len_desc(s).contains(x));
            assert(!s.contains(x));
        }
    } else {
        let t = s.drop_first();
        lemma_sort_contains(t);
        lemma_insert_desc_contains(s.first(), sort_by_len_desc(t));
        assert forall|x: Seq<char>| #[trigger] sort_by_len_desc(s).contains(x) <==> s.contains(
            x,
        ) by {
            assert(s =~= seq![s.first()] + t);
            lemma_seq_concat_contains_all_elements(seq![s.first()], t, x);
            assert(seq![s.first()].contains(x) <==> x == s.first()) by {
                if seq![s.first()].contains(x) {
                    assert(seq![s.first()][0] == s.first());
                } else {
                    assert(!(seq![s.first()][0] == x));
                }
            }
        }
    }
}

/// Law: the sort is stable. For every length, the words of that length
/// appear in the sorted list exactly as they appear in the input.
pub proof fn lemma_sort_stable(s: Seq<Seq<char>>, n: nat)
    ensures
        sort_by_len_desc(s).filter(has_len(n)) == s.filter(has_len(n)),
    decreases s.len(),
{
    let p = has_len(n);
    if s.len() == 0 {
        assert(sort_by_len_desc(s).filter(p) =~= s.filter(p)) by {
            reveal_with_fuel(Seq::filter, 1);
        }
    } else {
        let t = s.drop_first();
        lemma_sort_stable(t, n);
        lemma_insert_desc_filter(s.first(), sort_by_len_desc(t), n);
        assert(s =~= seq![s.first()] + t);
        Seq::filter_distributes_over_add(seq![s.first()], t, p);
        assert(seq![s.first()].filter(p) == if p(s.first()) {
            seq![s.first()]
        } else {
            Seq::<Seq<char>>::empty()
        }) by {
            reveal_with_fuel(Seq::filter, 2);
            assert(seq![s.first()].drop_last() =~= Seq::<Seq<char>>::empty());
            if p(s.first()) {
                assert(seq![s.first()].filter(p) =~= seq![s.first()]);
            }
        }
        if p(s.first()) {
            assert(s.filter(p) =~= seq![s.first()] + t.filter(p));
        } else {
            assert(s.filter(p) =~= t.filter(p));
        }
    }
}

/// Place `w` into `acc` directly before the first word no longer than `w`.
fn insert_sorted_desc(acc: &mut Vec<String>, w: String)
    ensures
        word_views(final(acc)@) == insert_desc(w@, word_views(old(acc)@)),
{
    let w_len = w.as_str().unicode_len();
    let mut j: usize = 0;
    while j < acc.len() && acc[j].as_str().unicode_len() > w_len
        invariant
            acc@ == old(acc)@,
            w_len == w@.len(),
            j <= acc@.len(),
            forall|i: int| 0 <= i < j ==> acc@[i]@.len() > w@.len(),
        decreases acc@.len() - j,
    {
        j += 1;
    }
    proof {
        let views = word_views(acc@);
        assert(insert_pos(w@, views) == j as int) by {
            lemma_insert_pos(w@, views);
            if insert_pos(w@, views) < j as int {
                assert(views[insert_pos(w@, views)].len() > w@.len());
            }
            if (j as int) < insert_pos(w@, views) {
                assert(views[j as int].len() > w@.len());
            }
        }
        lemma_insert_desc_decompose(w@, views);
    }
    acc.insert(j, w);
    proof {
        let views = word_views(old(acc)@);
        assert(word_views(acc@) =~= views.take(j as int) + seq![w@] + views.skip(j as int));
    }
}

/// Sort the words by non-increasing length; the order of equal-length
/// words is their order in the input.
pub fn sort_words_desc(words: Vec<String>) -> (r: Vec<String>)
    ensures
        word_views(r@) == sort_by_len_desc(word_views(words@)),
{
    let ghost orig: Seq<Seq<char>> = word_views(words@);
    let mut remaining = words;
    let mut acc: Vec<String> = Vec::new();
    proof {
        assert(word_views(remaining@) =~= orig.take(remaining@.len() as int));
        assert(orig.skip(remaining@.len() as int) =~= Seq::<Seq<char>>::empty());
    }
    while remaining.len() > 0
        invariant
            remaining@.len() <= orig.len(),
            word_views(remaining@) == orig.take(remaining@.len() as int),
            word_views(acc@) == sort_by_len_desc(orig.skip(remaining@.len() as int)),
        decreases remaining@.len(),
    {
        let ghost k: int = remaining@.len() as int;
        let ghost pre: Seq<String> = remaining@;
        let w = remaining.pop().unwrap();
        proof {
            assert(word_views(pre) == orig.take(k));
            assert forall|i: int| 0 <= i < k - 1 implies word_views(remaining@)[i] == orig.take(
                k - 1,
            )[i] by {
                assert(remaining@[i] == pre[i]);
                assert(word_views(pre)[i] == orig.take(k)[i]);
            }
            assert(word_views(remaining@) =~= orig.take(k - 1));
            assert(w@ == orig[k - 1]) by {
                assert(word_views(pre)[k - 1] == pre[k - 1]@);
                assert(word_views(pre)[k - 1] == orig.take(k)[k - 1]);
            }
        }
        insert_sorted_desc(&mut acc, w);
        proof {
            assert(orig.skip(k - 1).drop_first() =~= orig.skip(k));
            assert(orig.skip(k - 1).first() == orig[k - 1]);
            assert(word_views(acc@) == sort_by_len_desc(orig.skip(k - 1)));
        }
    }
    proof {
        assert(orig.skip(0) =~= orig);
    }
    acc
}

} // verus!
