//! Characters and the seven-letter constraint set.
//!
//! A run of the solver is parameterised by a `LetterSet`: seven lowercase
//! ASCII letters, the first of which is the mandatory letter. This module
//! also defines the character-level notions the rest of the library builds
//! on: ASCII letter classification, lowercasing, and whitespace.

use vstd::prelude::*;

verus! {

/// A character is an ASCII lowercase letter.
pub open spec fn is_lower_alpha(c: char) -> bool {
    'a' as u32 <= c as u32 && c as u32 <= 'z' as u32
}

/// A character is an ASCII uppercase letter.
pub open spec fn is_upper_alpha(c: char) -> bool {
    'A' as u32 <= c as u32 && c as u32 <= 'Z' as u32
}

/// A character is an ASCII letter, either case.
pub open spec fn is_alpha(c: char) -> bool {
    is_lower_alpha(c) || is_upper_alpha(c)
}

/// The ASCII-range whitespace characters: space, tab, line feed, vertical
/// tab, form feed, carriage return.
pub open spec fn is_space_char(c: char) -> bool {
    c == ' ' || c == '\t' || c == '\n' || c == '\u{b}' || c == '\u{c}' || c == '\r'
}

/// An ASCII uppercase letter mapped to its lowercase form; any other
/// character unchanged.
pub open spec fn lower_char(c: char) -> char {
    if is_upper_alpha(c) {
        ((c as u32 + 32) as u8) as char
    } else {
        c
    }
}

/// Lowercasing an ASCII letter yields a lowercase ASCII letter.
pub proof fn lemma_lower_char_alpha(c: char)
    requires
        is_alpha(c),
    ensures
        is_lower_alpha(lower_char(c)),
{
}

pub fn to_lower_char(c: char) -> (r: char)
    ensures
        r == lower_char(c),
{
    let n: u32 = c as u32;
    if 'A' as u32 <= n && n <= 'Z' as u32 {
        ((n + 32) as u8) as char
    } else {
        c
    }
}

pub fn is_space(c: char) -> (r: bool)
    ensures
        r == is_space_char(c),
{
    c == ' ' || c == '\t' || c == '\n' || c == '\u{b}' || c == '\u{c}' || c == '\r'
}

pub fn is_ascii_letter(c: char) -> (r: bool)
    ensures
        r == is_alpha(c),
{
    let n: u32 = c as u32;
    ('a' as u32 <= n && n <= 'z' as u32) || ('A' as u32 <= n && n <= 'Z' as u32)
}

/// Why a sequence of argument strings does not yield a `LetterSet`.
#[derive(Clone, Copy, Debug, PartialEq, Eq, Structural)]
pub enum LetterError {
    /// Other than seven arguments were given.
    WrongCount,
    /// The argument at this position is empty.
    EmptyArgument(usize),
    /// The argument at this position does not start with an ASCII letter.
    NotAlphabetic(usize),
}

/// An argument string supplies a letter: it is non-empty and its first
/// character is an ASCII letter.
pub open spec fn arg_ok(a: Seq<char>) -> bool {
    a.len() > 0 && is_alpha(a[0])
}

/// The letter each argument supplies: its first character, lowercased.
pub open spec fn letters_of_args(args: Seq<Seq<char>>) -> Seq<char> {
    args.map_values(|a: Seq<char>| lower_char(a[0]))
}

/// The seven-letter constraint set of one run: seven lowercase ASCII
/// letters, in the order given, the first of which is the mandatory letter.
/// Duplicates are permitted and kept.
pub struct LetterSet {
    letters: Vec<char>,
}

impl View for LetterSet {
    type V = Seq<char>;

    closed spec fn view(&self) -> Seq<char> {
        self.letters@
    }
}

impl LetterSet {
    /// Exactly seven letters, each a lowercase ASCII letter.
    pub open spec fn wf(&self) -> bool {
        self@.len() == 7 && forall|i: int| 0 <= i < self@.len() ==> is_lower_alpha(#[trigger] self@[i])
    }

    /// Build the set from the seven argument strings: each must be
    /// non-empty with an ASCII letter first; letters are lowercased.
    pub fn from_args(args: &Vec<String>) -> (r: Result<LetterSet, LetterError>)
        ensures
            match r {
                Ok(ls) => {
                    &&& args@.len() == 7
                    &&& forall|i: int| 0 <= i < 7 ==> arg_ok(#[trigger] args@[i]@)
                    &&& ls.wf()
                    &&& ls@ == letters_of_args(args@.map_values(|a: String| a@))
                },
                Err(LetterError::WrongCount) => args@.len() != 7,
                Err(LetterError::EmptyArgument(i)) => {
                    &&& args@.len() == 7
                    &&& i < 7
                    &&& args@[i as int]@.len() == 0
                    &&& forall|j: int| 0 <= j < i ==> arg_ok(#[trigger] args@[j]@)
                },
                Err(LetterError::NotAlphabetic(i)) => {
                    &&& args@.len() == 7
                    &&& i < 7
                    &&& args@[i as int]@.len() > 0
                    &&& !is_alpha(args@[i as int]@[0])
                    &&& forall|j: int| 0 <= j < i ==> arg_ok(#[trigger] args@[j]@)
                },
            },
    {
        if args.len() != 7 {
            return Err(LetterError::WrongCount);
        }
        let mut letters: Vec<char> = Vec::new();
        let mut i: usize = 0;
        while i < 7
            invariant
                args@.len() == 7,
                i <= 7,
                letters@.len() == i,
                forall|j: int| 0 <= j < i ==> arg_ok(#[trigger] args@[j]@),
                forall|j: int| 0 <= j < i ==> letters@[j] == lower_char(#[trigger] args@[j]@[0]),
            decreases 7 - i,
        {
            let a: &String = &args[i];
            if a.as_str().unicode_len() == 0 {
                return Err(LetterError::EmptyArgument(i));
            }
            let c = a.as_str().get_char(0);
            if !is_ascii_letter(c) {
                return Err(LetterError::NotAlphabetic(i));
            }
            letters.push(to_lower_char(c));
            i += 1;
        }
        let ls = LetterSet { letters };
        proof {
            assert(ls@ =~= letters_of_args(args@.map_values(|a: String| a@)));
            assert forall|k: int| 0 <= k < ls@.len() implies is_lower_alpha(#[trigger] ls@[k]) by {
                lemma_lower_char_alpha(args@[k]@[0]);
            }
        }
        Ok(ls)
    }

    /// The mandatory letter: the first of the seven.
    pub fn mandatory(&self) -> (c: char)
        requires
            self@.len() > 0,
        ensures
            c == self@[0],
    {
        self.letters[0]
    }

    /// All seven letters, the allowed set, in the order given.
    pub fn allowed(&self) -> (v: &Vec<char>)
        ensures
            v@ == self@,
    {
        &self.letters
    }
}

} // verus!
