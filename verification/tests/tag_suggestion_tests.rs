use kbzone::domain::tag_suggestion::{TagSuggestionInput, suggest_tags, suggest_tags_excluding, tokenize};

fn make_input(texts: Vec<&str>, existing: Vec<&str>) -> TagSuggestionInput {
    TagSuggestionInput {
        text_fields: texts.into_iter().map(String::from).collect(),
        existing_tags: existing.into_iter().map(String::from).collect(),
    }
}

#[test]
fn suggest_tags_returns_empty_for_empty_input() {
    let input = make_input(vec![], vec![]);
    let result = suggest_tags(&input, 5);
    assert!(result.is_empty());
}

#[test]
fn suggest_tags_excludes_stop_words() {
    let input = make_input(vec!["the rust programming language"], vec![]);
    let result = suggest_tags(&input, 10);
    assert!(!result.contains(&"the".to_string()));
    assert!(result.contains(&"rust".to_string()));
}

#[test]
fn suggest_tags_excludes_short_words() {
    // "go" and "is" are 2 chars or less — excluded by length rule
    let input = make_input(vec!["go is a language by google"], vec![]);
    let result = suggest_tags(&input, 10);
    assert!(!result.contains(&"go".to_string()));
    assert!(!result.contains(&"is".to_string()));
}

#[test]
fn suggest_tags_excludes_existing_tags() {
    let input = make_input(vec!["rust ownership memory"], vec!["rust"]);
    let result = suggest_tags(&input, 10);
    assert!(!result.contains(&"rust".to_string()));
    assert!(result.contains(&"ownership".to_string()));
}

#[test]
fn suggest_tags_ranks_by_frequency() {
    let input = make_input(vec!["rust rust rust memory ownership memory"], vec![]);
    let result = suggest_tags(&input, 3);
    assert!(!result.is_empty());
    assert_eq!(result[0], "rust");
    assert_eq!(result[1], "memory");
}

#[test]
fn suggest_tags_respects_max_limit() {
    let input = make_input(vec!["alpha bravo charlie delta echo"], vec![]);
    let result = suggest_tags(&input, 2);
    assert!(result.len() <= 2);
}

#[test]
fn suggest_tags_lowercases_words() {
    let input = make_input(vec!["Rust OWNERSHIP"], vec![]);
    let result = suggest_tags(&input, 10);
    assert!(result.contains(&"rust".to_string()));
    assert!(result.contains(&"ownership".to_string()));
}

#[test]
fn suggest_tags_handles_multiple_text_fields() {
    let input = make_input(
        vec!["rust programming", "memory management", "rust language"],
        vec![],
    );
    let result = suggest_tags(&input, 10);
    // "rust" appears in 2 fields — should be first
    assert!(!result.is_empty());
    assert_eq!(result[0], "rust");
}

#[test]
fn suggest_tags_breaks_frequency_ties_alphabetically() {
    let input = make_input(vec!["zebra apple mango apple zebra"], vec![]);
    let result = suggest_tags(&input, 10);
    assert_eq!(result, vec!["apple".to_string(), "zebra".to_string(), "mango".to_string()]);
}

#[test]
fn suggest_tags_compares_existing_tags_lowercased() {
    let input = make_input(vec!["rust ownership"], vec!["RUST"]);
    let result = suggest_tags(&input, 10);
    assert_eq!(result, vec!["ownership".to_string()]);
}

#[test]
fn tokenize_splits_on_non_letters_and_lowercases() {
    assert_eq!(
        tokenize("Hello, World-42 ok"),
        vec!["hello".to_string(), "world".to_string(), "ok".to_string()]
    );
}

#[test]
fn suggest_tags_excluding_uses_only_the_given_stop_words() {
    let input = make_input(vec!["the cat and the dog and the cat"], vec![]);
    let stop = vec!["and".to_string()];
    let result = suggest_tags_excluding(&input, 10, &stop);
    assert_eq!(
        result,
        vec!["the".to_string(), "cat".to_string(), "dog".to_string()]
    );
}

#[test]
fn suggest_tags_excluding_breaks_ties_alphabetically_and_skips_existing_tags() {
    let input = make_input(vec!["Zebra apple mango apple zebra"], vec!["MANGO"]);
    let result = suggest_tags_excluding(&input, 2, &vec![]);
    assert_eq!(result, vec!["apple".to_string(), "zebra".to_string()]);
}

#[test]
fn suggest_tags_counts_characters_not_bytes() {
    let input = make_input(vec!["éé café café"], vec![]);
    let result = suggest_tags_excluding(&input, 10, &vec![]);
    assert_eq!(result, vec!["café".to_string()]);
}
