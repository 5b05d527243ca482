use kbzone::cli::params::{AddParams, SearchParams};
use kbzone::cli::render::{
    RelationshipFlags, assert_no_conflicting_add_flags, format_preview, parse_key_val,
    parse_tags, render_related, resolve_relationship_direction, search_filter,
    search_filter_summary, suggested_tags_for, table_row, truncate_note,
};
use kbzone::cli::tree::render_tree;
use kbzone::domain::graph::{
    EdgeDirection, GraphNode, IncomingEdge, OutgoingEdge, RelatedResult, TreeNode, TreeResult,
    TreeRoot,
};
use kbzone::domain::kb::{KbItem, NewKb};
use kbzone::domain::metadata::Metadata;
use kbzone::errors::Error;

#[test]
fn parse_tags_splits_by_comma() {
    let result = parse_tags("rust,memory,concepts");
    assert_eq!(result, vec!["rust", "memory", "concepts"]);
}

#[test]
fn parse_tags_trims_whitespace() {
    let result = parse_tags("rust , memory , concepts");
    assert_eq!(result, vec!["rust", "memory", "concepts"]);
}

#[test]
fn parse_tags_filters_empty_strings() {
    let result = parse_tags("rust,,memory,");
    assert_eq!(result, vec!["rust", "memory"]);
}

#[test]
fn parse_tags_returns_empty_for_empty_input() {
    let result = parse_tags("");
    assert!(result.is_empty());
}

#[test]
fn suggested_tags_for_derives_suggestions_from_fields() {
    let result = suggested_tags_for(&["rust ownership", "memory safety"], &[]);
    assert!(result.contains(&"ownership".to_string()));
}

#[test]
fn suggested_tags_for_excludes_existing_tags() {
    let result = suggested_tags_for(&["rust ownership memory"], &["rust".to_string()]);
    assert!(!result.contains(&"rust".to_string()));
    assert!(result.contains(&"ownership".to_string()));
}

#[test]
fn suggested_tags_for_returns_empty_for_stop_words_only() {
    let result = suggested_tags_for(&["the a an is"], &[]);
    assert!(result.is_empty());
}

#[test]
fn format_preview_includes_all_fields() {
    let kb = NewKb {
        key: "rust-ownership".to_string(),
        value: "memory management in rust".to_string(),
        notes: "important concept".to_string(),
        category: "concept".to_string(),
        namespace: "rust".to_string(),
        reference: "the book".to_string(),
        tags: vec!["rust".to_string(), "memory".to_string()],
        metadata: Metadata::new(),
        parent: None,
        path: None,
        media_url: None,
        media_extension: None,
    };
    let preview = format_preview(&kb);
    assert!(preview.contains("rust-ownership"));
    assert!(preview.contains("memory management in rust"));
    assert!(preview.contains("important concept"));
    assert!(preview.contains("concept"));
    assert!(preview.contains("rust"));
    assert!(preview.contains("the book"));
}

#[test]
fn format_preview_shows_tags_joined_with_comma() {
    let kb = NewKb {
        key: "k".to_string(),
        value: "v".to_string(),
        notes: String::new(),
        category: String::new(),
        namespace: String::new(),
        reference: String::new(),
        tags: vec!["alpha".to_string(), "beta".to_string(), "gamma".to_string()],
        metadata: Metadata::new(),
        parent: None,
        path: None,
        media_url: None,
        media_extension: None,
    };
    let preview = format_preview(&kb);
    assert!(preview.contains("alpha, beta, gamma"));
}

#[test]
fn truncate_note_leaves_short_notes_unchanged() {
    assert_eq!(truncate_note("short note"), "short note");
}

#[test]
fn truncate_note_truncates_long_notes_to_40_chars_with_ellipsis() {
    let long = "x".repeat(100);
    let truncated = truncate_note(&long);
    assert_eq!(truncated.chars().count(), 40);
    assert!(truncated.ends_with('…'));
}

#[test]
fn truncate_note_is_char_safe_with_multibyte_input() {
    let multibyte = "é".repeat(100);
    let truncated = truncate_note(&multibyte);
    assert_eq!(truncated.chars().count(), 40);
    assert!(truncated.ends_with('…'));
}

#[test]
fn render_related_shows_both_sections_by_default() {
    let result = RelatedResult {
        node: make_graph_node("car", "concept"),
        outgoing: vec![OutgoingEdge {
            edge_id: "e1".to_string(),
            note: "has an engine".to_string(),
            created_on: "2026-01-01T00:00:00+0000".to_string(),
            to: make_graph_node("engine", "concept"),
        }],
        incoming: vec![IncomingEdge {
            edge_id: "e2".to_string(),
            note: "compatible with car".to_string(),
            created_on: "2026-01-01T00:00:00+0000".to_string(),
            from: make_graph_node("spare-parts-kit", "bookmark"),
        }],
    };
    let output = render_related(&result, EdgeDirection::Both);
    assert!(output.contains("→ car points to (1)"));
    assert!(output.contains("engine"));
    assert!(output.contains("← pointed to by car (1)"));
    assert!(output.contains("spare-parts-kit"));
}

#[test]
fn render_related_direction_out_hides_incoming_section() {
    let result = RelatedResult {
        node: make_graph_node("car", "concept"),
        outgoing: vec![],
        incoming: vec![IncomingEdge {
            edge_id: "e2".to_string(),
            note: "n".to_string(),
            created_on: "2026-01-01T00:00:00+0000".to_string(),
            from: make_graph_node("spare-parts-kit", "bookmark"),
        }],
    };
    let output = render_related(&result, EdgeDirection::Out);
    assert!(output.contains("→ car points to (0)"));
    assert!(!output.contains("pointed to by"));
}

#[test]
fn render_related_direction_in_hides_outgoing_section() {
    let result = RelatedResult {
        node: make_graph_node("car", "concept"),
        outgoing: vec![OutgoingEdge {
            edge_id: "e1".to_string(),
            note: "n".to_string(),
            created_on: "2026-01-01T00:00:00+0000".to_string(),
            to: make_graph_node("engine", "concept"),
        }],
        incoming: vec![],
    };
    let output = render_related(&result, EdgeDirection::In);
    assert!(!output.contains("points to"));
    assert!(output.contains("← pointed to by car (0)"));
}

#[test]
fn resolve_relationship_direction_none_when_no_flags() {
    let flags = RelationshipFlags {
        with_out: false,
        with_in: false,
        with_all: false,
    };
    assert_eq!(resolve_relationship_direction(flags), None);
}

#[test]
fn resolve_relationship_direction_out_only() {
    let flags = RelationshipFlags {
        with_out: true,
        with_in: false,
        with_all: false,
    };
    assert_eq!(
        resolve_relationship_direction(flags),
        Some(EdgeDirection::Out)
    );
}

#[test]
fn resolve_relationship_direction_in_only() {
    let flags = RelationshipFlags {
        with_out: false,
        with_in: true,
        with_all: false,
    };
    assert_eq!(
        resolve_relationship_direction(flags),
        Some(EdgeDirection::In)
    );
}

#[test]
fn resolve_relationship_direction_all_flag() {
    let flags = RelationshipFlags {
        with_out: false,
        with_in: false,
        with_all: true,
    };
    assert_eq!(
        resolve_relationship_direction(flags),
        Some(EdgeDirection::Both)
    );
}

#[test]
fn resolve_relationship_direction_out_and_in_combined() {
    let flags = RelationshipFlags {
        with_out: true,
        with_in: true,
        with_all: false,
    };
    assert_eq!(
        resolve_relationship_direction(flags),
        Some(EdgeDirection::Both)
    );
}

#[test]
fn resolve_relationship_direction_all_wins_over_others() {
    let flags = RelationshipFlags {
        with_out: true,
        with_in: false,
        with_all: true,
    };
    assert_eq!(
        resolve_relationship_direction(flags),
        Some(EdgeDirection::Both)
    );
}

#[test]
fn render_tree_draws_branches_for_a_multi_level_hierarchy() {
    let result = TreeResult {
        root: TreeRoot {
            id: "car-id".to_string(),
            key: "car".to_string(),
        },
        direction: "out".to_string(),
        nodes: vec![
            TreeNode {
                id: "engine-id".to_string(),
                key: "engine".to_string(),
                depth: 1,
                parent_id: "car-id".to_string(),
                note: "car has an engine".to_string(),
            },
            TreeNode {
                id: "chassis-id".to_string(),
                key: "chassis".to_string(),
                depth: 1,
                parent_id: "car-id".to_string(),
                note: "car is built on a chassis".to_string(),
            },
            TreeNode {
                id: "camshaft-id".to_string(),
                key: "camshaft".to_string(),
                depth: 2,
                parent_id: "engine-id".to_string(),
                note: "engine contains camshaft".to_string(),
            },
            TreeNode {
                id: "piston-id".to_string(),
                key: "piston".to_string(),
                depth: 2,
                parent_id: "engine-id".to_string(),
                note: "engine contains piston".to_string(),
            },
        ],
    };
    let output = render_tree(&result);
    let lines: Vec<&str> = output.lines().collect();
    assert_eq!(lines[0], "car");
    assert!(lines[1].starts_with("├── engine"));
    assert!(lines[1].contains("car has an engine"));
    assert!(lines[2].starts_with("│   ├── camshaft"));
    assert!(lines[2].contains("engine contains camshaft"));
    assert!(lines[3].starts_with("│   └── piston"));
    assert!(lines[4].starts_with("└── chassis"));
    assert!(lines[4].contains("car is built on a chassis"));
}

fn make_graph_node(key: &str, category: &str) -> GraphNode {
    GraphNode {
        id: format!("{key}-id"),
        key: key.to_string(),
        category: category.to_string(),
        namespace: "default".to_string(),
    }
}

#[test]
fn render_related_lines_are_padded_and_notes_quoted() {
    let result = RelatedResult {
        node: make_graph_node("car", "concept"),
        outgoing: vec![OutgoingEdge {
            edge_id: "e1".to_string(),
            note: "n".to_string(),
            created_on: String::new(),
            to: make_graph_node("engine", "concept"),
        }],
        incoming: vec![],
    };
    let output = render_related(&result, EdgeDirection::Out);
    assert_eq!(
        output,
        format!("→ car points to (1)\n  {:<24}  {:<12}  \"n\"\n\n", "engine", "concept")
    );
}

#[test]
fn render_tree_of_a_root_alone_is_its_key() {
    let result = TreeResult {
        root: TreeRoot {
            id: "car-id".to_string(),
            key: "car".to_string(),
        },
        direction: "out".to_string(),
        nodes: vec![],
    };
    assert_eq!(render_tree(&result), "car\n");
}

#[test]
fn render_tree_stops_on_a_cycle_of_ids() {
    let result = TreeResult {
        root: TreeRoot {
            id: "r".to_string(),
            key: "root".to_string(),
        },
        direction: "out".to_string(),
        nodes: vec![
            TreeNode {
                id: "a".to_string(),
                key: "a".to_string(),
                depth: 1,
                parent_id: "r".to_string(),
                note: String::new(),
            },
            TreeNode {
                id: "r".to_string(),
                key: "back".to_string(),
                depth: 2,
                parent_id: "a".to_string(),
                note: String::new(),
            },
        ],
    };
    let output = render_tree(&result);
    assert!(output.lines().count() <= 4);
}

#[test]
fn truncate_note_keeps_a_note_of_exactly_40_chars() {
    let note = "y".repeat(40);
    assert_eq!(truncate_note(&note), note);
}

fn add_params() -> AddParams {
    AddParams {
        key: None,
        value: None,
        notes: String::new(),
        category: String::new(),
        namespace: String::new(),
        reference: String::new(),
        tags: vec![],
        metadata: vec![],
        interactive: false,
        parent: None,
        path: None,
        media_url: None,
        json: Some("{}".to_string()),
    }
}

#[test]
fn json_alone_is_not_a_conflict() {
    assert!(assert_no_conflicting_add_flags(&add_params()).is_ok());
}

#[test]
fn json_with_a_field_flag_is_a_conflict() {
    let mut p = add_params();
    p.tags = vec!["x".to_string()];
    assert!(matches!(
        assert_no_conflicting_add_flags(&p),
        Err(Error::ConflictingAddFlags(_))
    ));
}

#[test]
fn parse_key_val_splits_on_the_first_equals() {
    assert_eq!(parse_key_val("a=b=c"), Ok(("a".to_string(), "b=c".to_string())));
    assert_eq!(
        parse_key_val("abc"),
        Err("invalid KEY=VALUE pair (missing '='): abc".to_string())
    );
}

fn search_params() -> SearchParams {
    SearchParams {
        keyword: Some("rust".to_string()),
        category: None,
        namespace: Some("dev".to_string()),
        tags: vec!["a".to_string(), "b".to_string()],
        reference: None,
        limit: 10,
        offset: 0,
        out: None,
    }
}

#[test]
fn search_filter_summary_lists_given_filters() {
    assert_eq!(
        search_filter_summary(&search_params()),
        "keyword=rust namespace=dev tags=a,b"
    );
    let mut p = search_params();
    p.keyword = None;
    p.namespace = None;
    p.tags = vec![];
    assert_eq!(search_filter_summary(&p), "none");
}

#[test]
fn search_filter_drops_empty_tag_list() {
    let mut p = search_params();
    p.tags = vec![];
    let f = search_filter(p);
    assert!(f.tags.is_none());
    assert_eq!(f.limit, Some(10));
    assert_eq!(f.keyword, Some("rust".to_string()));
}

#[test]
fn table_row_pads_columns() {
    let item = KbItem {
        id: "id".to_string(),
        key: "k".to_string(),
        category: "c".to_string(),
        namespace: "n".to_string(),
        tags: vec!["t1".to_string(), "t2".to_string()],
    };
    assert_eq!(
        table_row(&item),
        format!("{:<36}  {:<24}  {:<12}  {:<14}  {:<30}", "id", "k", "c", "n", "t1, t2")
    );
}

#[test]
fn parse_tags_reads_back_tags_joined_with_comma_space() {
    let tags = vec!["rust".to_string(), "memory safety".to_string(), "ownership".to_string()];
    assert_eq!(parse_tags(&tags.join(", ")), tags);
}
