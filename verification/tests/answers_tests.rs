use kbzone::cli::answers::{
    adjusted_new_kb, metadata_from_answer, parse_add_choice, AddChoice, FieldAnswers,
};
use kbzone::domain::kb::NewKb;
use kbzone::domain::metadata::{build_metadata, format_metadata};
use kbzone::errors::Error;

fn new_kb(category: &str) -> NewKb {
    NewKb {
        key: "rust-ownership".to_string(),
        value: "one owner".to_string(),
        notes: String::new(),
        category: category.to_string(),
        reference: String::new(),
        namespace: "rust".to_string(),
        tags: vec!["rust".to_string(), "memory".to_string()],
        metadata: build_metadata(vec![("author".to_string(), "me".to_string())]).unwrap(),
        parent: Some("parent-id".to_string()),
        path: Some("/learning".to_string()),
        media_url: Some("/tmp/a.jpg".to_string()),
        media_extension: Some("jpg".to_string()),
    }
}

fn answers_keeping(kb: &NewKb) -> FieldAnswers {
    FieldAnswers {
        key: kb.key.clone(),
        value: kb.value.clone(),
        notes: kb.notes.clone(),
        category: kb.category.clone(),
        namespace: kb.namespace.clone(),
        reference: kb.reference.clone(),
        tags: kb.tags.join(", "),
        metadata: format_metadata(&kb.metadata),
        path: kb.path.clone().unwrap_or_default(),
        parent: kb.parent.clone().unwrap_or_default(),
        media_url: None,
    }
}

#[test]
fn add_choice_accepts_either_case() {
    assert_eq!(parse_add_choice("s"), Some(AddChoice::Save));
    assert_eq!(parse_add_choice("S"), Some(AddChoice::Save));
    assert_eq!(parse_add_choice("c"), Some(AddChoice::Cancel));
    assert_eq!(parse_add_choice("A"), Some(AddChoice::Adjust));
    assert_eq!(parse_add_choice("save"), None);
    assert_eq!(parse_add_choice(""), None);
}

#[test]
fn adjusting_with_the_current_values_keeps_the_entry() {
    let kb = new_kb("concept");
    let answers = answers_keeping(&kb);
    let adjusted = adjusted_new_kb(new_kb("concept"), answers).unwrap();
    assert_eq!(adjusted.key, kb.key);
    assert_eq!(adjusted.tags, kb.tags);
    assert_eq!(format_metadata(&adjusted.metadata), format_metadata(&kb.metadata));
    assert_eq!(adjusted.path, kb.path);
    assert_eq!(adjusted.parent, kb.parent);
    assert_eq!(adjusted.media_url, kb.media_url);
    assert_eq!(adjusted.media_extension, kb.media_extension);
}

#[test]
fn adjusting_parses_tags_and_clears_path_and_parent() {
    let mut answers = answers_keeping(&new_kb("concept"));
    answers.tags = " a, ,b ".to_string();
    answers.path = String::new();
    answers.parent = String::new();
    let adjusted = adjusted_new_kb(new_kb("concept"), answers).unwrap();
    assert_eq!(adjusted.tags, vec!["a".to_string(), "b".to_string()]);
    assert_eq!(adjusted.path, None);
    assert_eq!(adjusted.parent, None);
}

#[test]
fn adjusting_keeps_tags_and_metadata_on_empty_answers() {
    let mut answers = answers_keeping(&new_kb("concept"));
    answers.tags = String::new();
    answers.metadata = String::new();
    let adjusted = adjusted_new_kb(new_kb("concept"), answers).unwrap();
    assert_eq!(adjusted.tags, vec!["rust".to_string(), "memory".to_string()]);
    assert_eq!(format_metadata(&adjusted.metadata), "author=me");
}

#[test]
fn adjusting_refuses_a_repeated_metadata_key() {
    let mut answers = answers_keeping(&new_kb("concept"));
    answers.metadata = "a=1,a=2".to_string();
    match adjusted_new_kb(new_kb("concept"), answers) {
        Err(Error::DuplicateMetadataKeyError(k)) => assert_eq!(k, "a"),
        other => panic!("unexpected: {:?}", other.map(|n| n.key)),
    }
}

#[test]
fn adjusting_asks_the_media_url_again_for_media_entries() {
    let mut answers = answers_keeping(&new_kb("media"));
    answers.media_url = Some("https://example.com/b.png".to_string());
    let adjusted = adjusted_new_kb(new_kb("media"), answers).unwrap();
    assert_eq!(adjusted.media_url, Some("https://example.com/b.png".to_string()));

    let mut answers = answers_keeping(&new_kb("media"));
    answers.media_url = Some(String::new());
    let adjusted = adjusted_new_kb(new_kb("media"), answers).unwrap();
    assert_eq!(adjusted.media_url, None);
}

#[test]
fn metadata_answer_empty_gives_no_metadata() {
    let m = metadata_from_answer("").unwrap();
    assert!(m.is_empty());
    let m = metadata_from_answer("b=2, a = 1").unwrap();
    assert_eq!(format_metadata(&m), "a=1, b=2");
    assert!(matches!(
        metadata_from_answer("=x"),
        Err(Error::InvalidMetadataError(_))
    ));
}
