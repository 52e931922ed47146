use word_solver::letters::LetterSet;
use word_solver::solver::find_perfect_words_from_file;
use word_solver::solver::find_words_from_lines;
use word_solver::solver::solve;
use word_solver::words::normalize;

fn strings(parts: &[&str]) -> Vec<String> {
    parts.iter().map(|s| s.to_string()).collect()
}

fn sample_allowed() -> Vec<char> {
    vec!['a', 'e', 'l', 'n', 'p', 's', 't']
}

#[test]
fn normalize_trims_and_lowercases() {
    assert_eq!(normalize("  PlAtes \t"), "plates".to_string());
    assert_eq!(normalize("hello"), "hello".to_string());
    assert_eq!(normalize("   "), "".to_string());
    assert_eq!(normalize(""), "".to_string());
}

#[test]
fn find_words_filters_and_sorts_by_descending_length() {
    let lines = strings(&["  PlAtes ", "tent", "pasta", "peal", "cat"]);
    let allowed = sample_allowed();
    let found = find_words_from_lines(&lines, 'a', &allowed);
    // "tent" lacks the mandatory 'a'; "cat" is too short and off the set.
    assert_eq!(found, strings(&["plates", "pasta", "peal"]));
}

#[test]
fn find_words_keeps_input_order_for_equal_lengths() {
    let lines = strings(&["seat", "pane", "pleasant", "tapas", "salsa"]);
    let allowed = sample_allowed();
    let found = find_words_from_lines(&lines, 'a', &allowed);
    // Lengths 8, 5, 5, 4, 4: ties stay in dictionary order.
    assert_eq!(found, strings(&["pleasant", "tapas", "salsa", "seat", "pane"]));
}

#[test]
fn find_words_on_empty_source_returns_empty() {
    let lines: Vec<String> = Vec::new();
    let allowed = sample_allowed();
    let found = find_words_from_lines(&lines, 'a', &allowed);
    assert!(found.is_empty());
    let perfect = find_perfect_words_from_file(&found, &allowed);
    assert!(perfect.is_empty());
}

#[test]
fn perfect_words_are_kept_and_sorted() {
    let words = strings(&["plates", "pleasant", "pastel", "planets", "peal"]);
    let allowed = sample_allowed();
    let perfect = find_perfect_words_from_file(&words, &allowed);
    // "pleasant" and "planets" use all of a, e, l, n, p, s, t;
    // "plates" and "pastel" have no 'n'; "peal" is shorter than the set.
    assert_eq!(perfect, strings(&["pleasant", "planets"]));
}

#[test]
fn solve_produces_three_lists() {
    let likely_lines = strings(&["plates", "tent", "peal"]);
    let all_lines = strings(&["plates", "tent", "peal", "pleasant", "planets", "cat"]);
    let args: Vec<String> = strings(&["a", "e", "l", "n", "p", "s", "t"]);
    let letters = LetterSet::from_args(&args).unwrap();
    let result = solve(&likely_lines, &all_lines, &letters);
    assert_eq!(result.likely, strings(&["plates", "peal"]));
    assert_eq!(result.all, strings(&["pleasant", "planets", "plates", "peal"]));
    assert_eq!(result.perfect, strings(&["pleasant", "planets"]));
    // Every perfect word appears in the all list.
    for word in &result.perfect {
        assert!(result.all.contains(word));
    }
}
