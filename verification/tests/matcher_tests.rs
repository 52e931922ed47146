use word_solver::matcher::is_candidate;
use word_solver::matcher::is_perfect;

fn sample_allowed() -> Vec<char> {
    vec!['a', 'e', 'l', 'n', 'p', 's', 't']
}

#[test]
fn candidate_accepts_word_with_mandatory_letter() {
    let allowed = sample_allowed();
    assert!(is_candidate("plates", 'a', &allowed));
}

#[test]
fn candidate_rejects_word_without_mandatory_letter() {
    let allowed = sample_allowed();
    assert!(!is_candidate("tent", 'a', &allowed));
}

#[test]
fn candidate_rejects_short_word() {
    let allowed = vec!['c', 'a', 't', 'x', 'y', 'z', 'w'];
    assert!(!is_candidate("cat", 'a', &allowed));
}

#[test]
fn candidate_rejects_letters_outside_set() {
    let allowed = vec!['a', 'b', 'c', 'd', 'e', 'f', 'g'];
    assert!(!is_candidate("xyz", 'a', &allowed));
}

#[test]
fn candidate_rejects_empty_word() {
    let allowed = sample_allowed();
    assert!(!is_candidate("", 'a', &allowed));
}

#[test]
fn candidate_is_deterministic() {
    let allowed = sample_allowed();
    let first = is_candidate("plates", 'a', &allowed);
    let second = is_candidate("plates", 'a', &allowed);
    assert_eq!(first, second);
    let third = is_candidate("tent", 'a', &allowed);
    let fourth = is_candidate("tent", 'a', &allowed);
    assert_eq!(third, fourth);
}

#[test]
fn perfect_accepts_word_covering_all_letters() {
    let allowed = sample_allowed();
    assert!(is_perfect("pleasant", &allowed));
}

#[test]
fn perfect_rejects_word_missing_a_letter() {
    let allowed = sample_allowed();
    // "plates" has no 'n'.
    assert!(!is_perfect("plates", &allowed));
}

#[test]
fn perfect_rejects_empty_word() {
    let allowed = sample_allowed();
    assert!(!is_perfect("", &allowed));
}

#[test]
fn perfect_duplicate_letters_satisfied_by_one_occurrence() {
    let allowed = vec!['a', 'a', 'n', 't', 'n', 'a', 't'];
    // Seven letters long and covers {a, n, t}; the repeats in the set
    // demand no repeats in the word.
    assert!(is_perfect("antanta", &allowed));
    // Too short for the seven-letter set even though it covers {a, n, t}.
    assert!(!is_perfect("anta", &allowed));
}
