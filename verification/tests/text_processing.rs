use echo::querybuilder::{chars_of, remove_all_occurrences, Query};
use echo::text::{decimal_string, join_strings};
use echo::token_manager::TokenManager;

#[test]
fn query_starts_empty() {
    let mut q = Query::new();
    assert_eq!(q.text(), "");
    assert!(q.take_new_questions().is_empty());
}

#[test]
fn query_extend_appends_text() {
    let mut q = Query::new();
    q.extend("Hello");
    q.extend(" world");
    assert_eq!(q.text(), "Hello world");
}

#[test]
fn query_splits_questions_and_sentences() {
    let mut q = Query::new();
    q.extend("Hello there. How are you? Fine");
    q.parse_questions();
    assert_eq!(q.text(), " Fine");
    let lines = q.take_new_questions();
    assert_eq!(lines, vec![" How are you?".to_string(), "Hello there.".to_string()]);
}

#[test]
fn query_exclamation_is_a_sentence() {
    let mut q = Query::new();
    q.extend("Wow! Really?");
    q.parse_questions();
    assert_eq!(q.text(), "");
    let lines = q.take_new_questions();
    assert_eq!(lines, vec![" Really?".to_string(), "Wow!".to_string()]);
}

#[test]
fn query_prints_each_entry_once() {
    let mut q = Query::new();
    q.extend("One. Two?");
    q.parse_questions();
    assert_eq!(q.take_new_questions().len(), 2);
    assert!(q.take_new_questions().is_empty());
    q.extend("Three.");
    q.parse_questions();
    assert_eq!(q.take_new_questions(), vec!["Three.".to_string()]);
}

#[test]
fn query_text_without_terminator_stays() {
    let mut q = Query::new();
    q.extend("no end yet");
    q.parse_questions();
    assert_eq!(q.text(), "no end yet");
    assert!(q.take_new_questions().is_empty());
}

#[test]
fn query_removes_every_occurrence_of_recorded_sentences() {
    // "b." occurs twice; removing it everywhere leaves "a", in which "ab." no longer occurs.
    let mut q = Query::new();
    q.extend("b.ab.");
    q.parse_questions();
    assert_eq!(q.text(), "a");
    assert_eq!(q.take_new_questions(), vec!["b.".to_string(), "ab.".to_string()]);
}

#[test]
fn query_earlier_sentences_are_removed_again() {
    let mut q = Query::new();
    q.extend("Yes.");
    q.parse_questions();
    q.extend("Yes. ok");
    q.parse_questions();
    assert_eq!(q.text(), " ok");
    assert_eq!(q.take_new_questions(), vec!["Yes.".to_string(), "Yes.".to_string()]);
}

#[test]
fn remove_all_matches_std_replace() {
    for (text, pat) in [("aabb", "ab"), ("abcabc", "bc"), ("aaaa", "aa"), ("xyz", ""), ("", "a"), ("héllo é", "é")] {
        assert_eq!(remove_all_occurrences(text, pat), text.replace(pat, ""));
    }
}

#[test]
fn chars_of_gives_the_characters() {
    assert_eq!(chars_of("añb"), vec!['a', 'ñ', 'b']);
    assert!(chars_of("").is_empty());
}

#[test]
fn decimal_string_matches_to_string() {
    for n in [0usize, 7, 10, 99, 1440, 123456789] {
        assert_eq!(decimal_string(n), n.to_string());
    }
}

#[test]
fn join_strings_matches_join() {
    let parts = vec!["a".to_string(), "bc".to_string(), "".to_string(), "d".to_string()];
    assert_eq!(join_strings(&parts, " "), parts.join(" "));
    assert_eq!(join_strings(&Vec::new(), " "), "");
    assert_eq!(join_strings(&vec!["x".to_string()], ", "), "x");
}

#[test]
fn token_manager_collects_tokens_in_order() {
    let mut tm = TokenManager::new();
    assert!(tm.get_tokens_slice().is_empty());
    tm.extend_tokens(&[1, 2]);
    tm.extend_tokens(&[]);
    tm.extend_tokens(&[-3]);
    assert_eq!(tm.get_tokens_slice(), &[1, 2, -3]);
}

#[test]
fn recorded_entries_end_with_their_mark() {
    let mut q = Query::new();
    q.extend("a? b. c! d? e");
    q.parse_questions();
    let lines = q.take_new_questions();
    assert_eq!(lines, vec!["a?".to_string(), " d?".to_string(), " b.".to_string(), " c!".to_string()]);
    assert_eq!(q.text(), " e");
}

#[test]
fn query_parsing_twice_is_parsing_once() {
    let mut q = Query::new();
    q.extend("Is it? Yes. It is! and then some");
    q.parse_questions();
    let text = q.text().to_string();
    assert_eq!(text, " and then some");
    assert!(!text.contains(['!', '.', '?']));
    let first = q.take_new_questions();
    q.parse_questions();
    assert_eq!(q.text(), text);
    assert!(q.take_new_questions().is_empty());
    assert_eq!(first.len(), 3);
}

#[test]
fn query_parsing_clears_repeated_sentences() {
    let mut q = Query::new();
    q.extend("a. b. a. c?");
    q.parse_questions();
    // " c?", then "a." (both occurrences), then " b." go; a space is left.
    assert_eq!(q.text(), " ");
    assert_eq!(q.take_new_questions(), vec![" c?".to_string(), "a.".to_string(), " b.".to_string(), " a.".to_string()]);
}
