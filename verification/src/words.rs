//! Word normalization.
//!
//! A dictionary line becomes a candidate word by trimming surrounding
//! whitespace and lowercasing ASCII letters. `normalized` is the
//! mathematical statement of that transformation; `normalize` performs it.

use vstd::prelude::*;
use crate::letters::is_space_char;
use crate::letters::lower_char;
use crate::letters::is_space;
use crate::letters::to_lower_char;

verus! {

/// The character sequences of a sequence of strings.
pub open spec fn word_views(v: Seq<String>) -> Seq<Seq<char>> {
    v.map_values(|s: String| s@)
}

/// The sequence with its leading whitespace removed.
pub open spec fn trim_front(s: Seq<char>) -> Seq<char>
    decreases s.len(),
{
    if s.len() > 0 && is_space_char(s.first()) {
        trim_front(s.drop_first())
    } else {
        s
    }
}

/// The sequence with its trailing whitespace removed.
pub open spec fn trim_back(s: Seq<char>) -> Seq<char>
    decreases s.len(),
{
    if s.len() > 0 && is_space_char(s.last()) {
        trim_back(s.drop_last())
    } else {
        s
    }
}

/// The sequence with whitespace removed from both ends.
pub open spec fn trimmed(s: Seq<char>) -> Seq<char> {
    trim_back(trim_front(s))
}

/// Every character lowercased.
pub open spec fn lower_all(s: Seq<char>) -> Seq<char> {
    s.map_values(|c: char| lower_char(c))
}

/// A line in its normalized form: trimmed, then lowercased.
pub open spec fn normalized(s: Seq<char>) -> Seq<char> {
    lower_all(trimmed(s))
}

/// Relies on `String::from_iter`: the built string holds exactly the given
/// characters, in order.
#[verifier::external_body]
fn chars_to_string(v: Vec<char>) -> (s: String)
    ensures
        s@ == v@,
{
    String::from_iter(v)
}

/// Trim surrounding whitespace and lowercase ASCII letters.
pub fn normalize(line: &str) -> (w: String)
    ensures
        w@ == normalized(line@),
{
    let n = line.unicode_len();
    let mut start: usize = 0;
    proof {
        assert(line@.skip(0) =~= line@);
    }
    while start < n && is_space(line.get_char(start))
        invariant
            n == line@.len(),
            start <= n,
            trim_front(line@) == trim_front(line@.skip(start as int)),
        decreases n - start,
    {
        proof {
            assert(line@.skip(start as int).drop_first() =~= line@.skip(start as int + 1));
        }
        start += 1;
    }
    proof {
        if start < n {
            assert(line@.skip(start as int)[0] == line@[start as int]);
            assert(trim_front(line@) == line@.skip(start as int));
        } else {
            assert(line@.skip(start as int) =~= Seq::<char>::empty());
            assert(trim_front(line@) == line@.skip(start as int));
        }
    }
    let mut end: usize = n;
    while end > start && is_space(line.get_char(end - 1))
        invariant
            n == line@.len(),
            start <= end <= n,
            trim_front(line@) == line@.skip(start as int),
            trim_back(line@.skip(start as int)) == trim_back(
                line@.subrange(start as int, end as int),
            ),
        decreases end,
    {
        proof {
            assert(line@.subrange(start as int, end as int).drop_last() =~= line@.subrange(
                start as int,
                end as int - 1,
            ));
        }
        end -= 1;
    }
    proof {
        assert(line@.subrange(start as int, n as int) =~= line@.skip(start as int));
        if end > start {
            assert(line@.subrange(start as int, end as int).last() == line@[end as int - 1]);
            assert(trimmed(line@) == line@.subrange(start as int, end as int));
        } else {
            assert(line@.subrange(start as int, end as int) =~= Seq::<char>::empty());
            assert(trimmed(line@) == line@.subrange(start as int, end as int));
        }
    }
    let mut out: Vec<char> = Vec::new();
    let mut i: usize = start;
    while i < end
        invariant
            n == line@.len(),
            start <= i <= end <= n,
            out@ == lower_all(line@.subrange(start as int, i as int)),
        decreases end - i,
    {
        out.push(to_lower_char(line.get_char(i)));
        proof {
            assert(lower_all(line@.subrange(start as int, i as int + 1)) =~= lower_all(
                line@.subrange(start as int, i as int),
            ).push(lower_char(line@[i as int])));
        }
        i += 1;
    }
    let w = chars_to_string(out);
    proof {
        assert(w@ == lower_all(trimmed(line@)));
    }
    w
}

} // verus!
