use word_solver::letters::LetterError;
use word_solver::letters::LetterSet;

fn args(parts: &[&str]) -> Vec<String> {
    parts.iter().map(|s| s.to_string()).collect()
}

#[test]
fn from_args_accepts_seven_letters() {
    let a = args(&["a", "e", "l", "n", "p", "s", "t"]);
    let ls = LetterSet::from_args(&a).unwrap();
    assert_eq!(ls.mandatory(), 'a');
    assert_eq!(ls.allowed().clone(), vec!['a', 'e', 'l', 'n', 'p', 's', 't']);
}

#[test]
fn from_args_lowercases_input() {
    let a = args(&["A", "E", "L", "N", "P", "S", "T"]);
    let ls = LetterSet::from_args(&a).unwrap();
    assert_eq!(ls.mandatory(), 'a');
    assert_eq!(ls.allowed().clone(), vec!['a', 'e', 'l', 'n', 'p', 's', 't']);
}

#[test]
fn from_args_takes_first_character() {
    let a = args(&["alpha", "echo", "lima", "nov", "papa", "sierra", "tango"]);
    let ls = LetterSet::from_args(&a).unwrap();
    assert_eq!(ls.allowed().clone(), vec!['a', 'e', 'l', 'n', 'p', 's', 't']);
}

#[test]
fn from_args_rejects_wrong_count() {
    let a = args(&["a", "b", "c"]);
    assert_eq!(LetterSet::from_args(&a).err(), Some(LetterError::WrongCount));
    let b = args(&["a", "b", "c", "d", "e", "f", "g", "h"]);
    assert_eq!(LetterSet::from_args(&b).err(), Some(LetterError::WrongCount));
}

#[test]
fn from_args_rejects_empty_argument() {
    let a = args(&["a", "b", "", "d", "e", "f", "g"]);
    assert_eq!(LetterSet::from_args(&a).err(), Some(LetterError::EmptyArgument(2)));
}

#[test]
fn from_args_rejects_non_alphabetic() {
    let a = args(&["a", "b", "c", "d", "5", "f", "g"]);
    assert_eq!(LetterSet::from_args(&a).err(), Some(LetterError::NotAlphabetic(4)));
}
