use kbzone::domain::kb::{Kb, KbFilter, KbUpdate};
use kbzone::domain::metadata::Metadata;
use kbzone::errors::Error;
use kbzone::domain::kb::NewKb;
use kbzone::cli::answers::{lookup_of, media_url_given, required_field, Lookup};
use kbzone::domain::kb::ExportKbItem;
use kbzone::service::graph_service::{
    added_or_reason, edge_between_ids, end_or_reason, entry_ids, removal_outcome, resolved_entry,
};
use kbzone::service::kb_service::{
    check_key_owner, check_media_path_update, check_no_children, deletion_outcome, found_entry,
    import_parent, media_copies, needs_reindex, parent_outcome, media_destination, media_file_of, quote_outcome,
    reindex_index_outcome, reindex_lookup_outcome, update_target,
};
use kbzone::domain::graph::EdgeDirection;
use kbzone::sql::{
    build_edges_among_query, build_filter_clauses, build_full_list_query, build_keyword_search,
    build_list_filters, build_list_query, build_tree_query, id_placeholders, knn_fetch_limit,
    KEYWORD_SEARCH, KEYWORD_SEARCH_WITH_REFERENCE, LIST_FULL, LIST_ITEMS,
};

fn empty_filter() -> KbFilter {
    KbFilter {
        category: None,
        namespace: None,
        tags: None,
        keyword: None,
        reference: None,
        limit: None,
        offset: None,
    }
}

fn media_kb() -> Kb {
    Kb {
        id: "id-1".to_string(),
        key: "photo".to_string(),
        value: "a photo".to_string(),
        notes: String::new(),
        category: "Media".to_string(),
        reference: String::new(),
        namespace: "personal".to_string(),
        tags: vec![],
        metadata: Metadata::new(),
        created_on: "2026-01-01T00:00:00+0000".to_string(),
        parent: None,
        path: Some("/trips/2025".to_string()),
        media_extension: Some("jpg".to_string()),
    }
}

fn update_of(id: &str) -> KbUpdate {
    KbUpdate {
        id: id.to_string(),
        key: None,
        value: None,
        notes: None,
        category: None,
        namespace: None,
        reference: None,
        tags: None,
        parent: None,
        path: None,
        metadata: None,
    }
}

#[test]
fn filter_clauses_are_empty_for_the_empty_filter() {
    let (w, l, o, params) = build_filter_clauses(&empty_filter());
    assert_eq!(w, "");
    assert_eq!(l, "");
    assert_eq!(o, "");
    assert!(params.is_empty());
}

#[test]
fn filter_clauses_number_every_parameter_in_order() {
    let filter = KbFilter {
        category: Some("Concept".to_string()),
        namespace: Some("Rust".to_string()),
        tags: Some(vec!["mem".to_string()]),
        keyword: None,
        reference: Some("The Book".to_string()),
        limit: Some(10),
        offset: Some(-5),
    };
    let (w, l, o, params) = build_filter_clauses(&filter);
    assert_eq!(
        w,
        " WHERE CATEGORY = ?1 AND NAMESPACE = ?2 AND (TAG_VALUES = ?3 OR TAG_VALUES LIKE ?4 \
         OR TAG_VALUES LIKE ?5 OR TAG_VALUES LIKE ?6) AND LOWER(REFERENCE) LIKE ?7"
    );
    assert_eq!(l, " LIMIT 10");
    assert_eq!(o, " OFFSET -5");
    assert_eq!(
        params,
        vec![
            "Concept".to_string(),
            "Rust".to_string(),
            "mem".to_string(),
            "mem %".to_string(),
            "% mem".to_string(),
            "% mem %".to_string(),
            "%the book%".to_string(),
        ]
    );
}

#[test]
fn an_empty_reference_adds_no_condition() {
    let filter = KbFilter {
        reference: Some(String::new()),
        ..empty_filter()
    };
    let (conditions, params) = build_list_filters(&filter);
    assert!(conditions.is_empty());
    assert!(params.is_empty());
}

#[test]
fn two_tags_take_four_numbers_each() {
    let filter = KbFilter {
        tags: Some(vec!["a".to_string(), "b".to_string()]),
        ..empty_filter()
    };
    let (conditions, params) = build_list_filters(&filter);
    assert_eq!(conditions.len(), 2);
    assert_eq!(
        conditions[1],
        "(TAG_VALUES = ?5 OR TAG_VALUES LIKE ?6 OR TAG_VALUES LIKE ?7 OR TAG_VALUES LIKE ?8)"
    );
    assert_eq!(params.len(), 8);
    assert_eq!(params[4], "b");
}

#[test]
fn media_entry_cannot_change_its_path() {
    let mut update = update_of("id-1");
    update.path = Some("/elsewhere".to_string());
    match check_media_path_update(&media_kb(), &update) {
        Err(Error::MediaPathUpdateNotAllowed(key)) => assert_eq!(key, "photo"),
        other => panic!("unexpected: {:?}", other),
    }
}

#[test]
fn media_entry_may_change_other_fields() {
    let mut update = update_of("id-1");
    update.value = Some("another photo".to_string());
    assert!(check_media_path_update(&media_kb(), &update).is_ok());
}

#[test]
fn other_entries_may_change_their_path() {
    let mut kb = media_kb();
    kb.category = "concept".to_string();
    let mut update = update_of("id-1");
    update.path = Some("/elsewhere".to_string());
    assert!(check_media_path_update(&kb, &update).is_ok());
}

#[test]
fn children_block_a_deletion_and_are_listed() {
    let children = vec!["c1".to_string(), "c2".to_string()];
    match check_no_children(&children) {
        Err(Error::KBHasChildrenError(ids)) => assert_eq!(ids, "c1, c2"),
        other => panic!("unexpected: {:?}", other),
    }
    assert!(check_no_children(&vec![]).is_ok());
}

#[test]
fn media_file_of_a_media_entry_is_under_its_namespace_and_path() {
    assert_eq!(
        media_file_of(&media_kb(), "/base"),
        Some("/base/media/personal/trips/2025/photo.jpg".to_string())
    );
}

#[test]
fn media_file_of_is_none_without_extension_or_for_other_categories() {
    let mut kb = media_kb();
    kb.media_extension = None;
    assert_eq!(media_file_of(&kb, "/base"), None);
    let mut kb = media_kb();
    kb.category = "quote".to_string();
    assert_eq!(media_file_of(&kb, "/base"), None);
}

#[test]
fn keyword_search_matches_the_keyword_as_a_prefix() {
    let filter = KbFilter {
        keyword: Some("kube".to_string()),
        limit: Some(20),
        ..empty_filter()
    };
    let (sql, params) = build_keyword_search(&filter);
    assert_eq!(sql, format!("{} LIMIT 20", KEYWORD_SEARCH));
    assert_eq!(params, vec!["kube*".to_string()]);
}

#[test]
fn keyword_search_adds_the_lowercased_reference_pattern() {
    let filter = KbFilter {
        keyword: Some("pod".to_string()),
        reference: Some("Kubernetes Docs".to_string()),
        offset: Some(3),
        ..empty_filter()
    };
    let (sql, params) = build_keyword_search(&filter);
    assert_eq!(sql, format!("{} OFFSET 3", KEYWORD_SEARCH_WITH_REFERENCE));
    assert_eq!(params, vec!["pod*".to_string(), "%kubernetes docs%".to_string()]);
    assert!(KEYWORD_SEARCH_WITH_REFERENCE.contains("?2"));
}

#[test]
fn list_query_orders_newest_first_between_conditions_and_page() {
    let filter = KbFilter {
        category: Some("quote".to_string()),
        limit: Some(5),
        offset: Some(10),
        ..empty_filter()
    };
    let (sql, params) = build_list_query(&filter);
    assert_eq!(
        sql,
        format!("{} WHERE CATEGORY = ?1 ORDER BY CREATED_ON DESC LIMIT 5 OFFSET 10", LIST_ITEMS)
    );
    assert_eq!(params, vec!["quote".to_string()]);
}

#[test]
fn full_list_query_orders_oldest_first() {
    let (sql, params) = build_full_list_query(&empty_filter());
    assert_eq!(sql, format!("{} ORDER BY CREATED_ON ASC", LIST_FULL));
    assert!(params.is_empty());
}

#[test]
fn id_placeholders_number_each_id() {
    assert_eq!(id_placeholders(0), "");
    assert_eq!(id_placeholders(1), "?1");
    assert_eq!(id_placeholders(3), "?1,?2,?3");
}

#[test]
fn edges_among_query_binds_the_ids_for_both_ends() {
    assert_eq!(
        build_edges_among_query(2),
        "SELECT EDGE_ID, FROM_KB_ID, TO_KB_ID, NOTE, CREATED_ON FROM kb_edges \
         WHERE FROM_KB_ID IN (?1,?2) AND TO_KB_ID IN (?1,?2) ORDER BY CREATED_ON ASC"
    );
}

#[test]
fn tree_query_swaps_the_columns_by_direction() {
    let out = build_tree_query(EdgeDirection::Out).unwrap();
    assert!(out.contains("SELECT e.TO_KB_ID, 1, e.FROM_KB_ID"));
    assert!(out.contains("WHERE e.FROM_KB_ID = ?1"));
    let inward = build_tree_query(EdgeDirection::In).unwrap();
    assert!(inward.contains("SELECT e.FROM_KB_ID, 1, e.TO_KB_ID"));
    assert!(inward.contains("WHERE e.TO_KB_ID = ?1"));
    match build_tree_query(EdgeDirection::Both) {
        Err(Error::GraphQueryError(m)) => {
            assert_eq!(m, "direction must be 'out' or 'in' for tree traversal")
        }
        other => panic!("unexpected: {:?}", other),
    }
}

#[test]
fn knn_fetch_limit_overfetches_for_a_category_up_to_the_cap() {
    assert_eq!(knn_fetch_limit(None, false), 10);
    assert_eq!(knn_fetch_limit(Some(7), false), 7);
    assert_eq!(knn_fetch_limit(None, true), 50);
    assert_eq!(knn_fetch_limit(Some(30), true), 150);
    assert_eq!(knn_fetch_limit(Some(41), true), 200);
    assert_eq!(knn_fetch_limit(Some(-2), true), -10);
}

#[test]
fn media_destination_takes_the_extension_of_the_source() {
    let new_kb = NewKb {
        key: "logo".to_string(),
        value: "the logo".to_string(),
        notes: String::new(),
        category: "media".to_string(),
        reference: String::new(),
        namespace: "assets".to_string(),
        tags: vec![],
        metadata: Metadata::new(),
        parent: None,
        path: None,
        media_url: Some("https://example.com/img/logo.png".to_string()),
        media_extension: None,
    };
    assert_eq!(
        media_destination(&new_kb, "/kb", "https://example.com/img/logo.png"),
        "/kb/media/assets/logo.png"
    );
    assert_eq!(media_destination(&new_kb, "/kb", "/tmp/logo"), "/kb/media/assets/logo");
}

#[test]
fn quote_outcome_reports_a_missing_quote() {
    assert!(matches!(
        quote_outcome(Err(Error::RandomNotFound("quote".to_string()))),
        Err(Error::QuoteNotFound)
    ));
    assert!(matches!(
        quote_outcome(Err(Error::RandomError("db".to_string()))),
        Err(Error::RandomError(_))
    ));
    let kb = quote_outcome(Ok(media_kb())).unwrap();
    assert_eq!(kb.key, "photo");
}

#[test]
fn key_owner_must_be_the_entry_itself() {
    assert!(check_key_owner(&None, "id-1").is_ok());
    assert!(check_key_owner(&Some(media_kb()), "id-1").is_ok());
    assert!(matches!(
        check_key_owner(&Some(media_kb()), "id-2"),
        Err(Error::DuplicateKBError)
    ));
}

#[test]
fn direction_and_format_parse_through_from_str() {
    assert_eq!("in".parse::<EdgeDirection>(), Ok(EdgeDirection::In));
    assert!("sideways".parse::<EdgeDirection>().is_err());
    assert_eq!(
        "yaml".parse::<kbzone::domain::kb::OutputFormat>(),
        Ok(kbzone::domain::kb::OutputFormat::Yaml)
    );
}

fn export_item(key: &str, category: &str, ext: Option<&str>) -> ExportKbItem {
    ExportKbItem {
        key: key.to_string(),
        value: "v".to_string(),
        notes: String::new(),
        category: category.to_string(),
        reference: String::new(),
        namespace: "ns".to_string(),
        tags: vec![],
        parent_key: None,
        path: Some("/p".to_string()),
        media_extension: ext.map(str::to_string),
    }
}

#[test]
fn media_copies_lists_media_entries_with_an_extension() {
    let items = vec![
        export_item("a", "media", Some("png")),
        export_item("b", "concept", Some("png")),
        export_item("c", "media", None),
    ];
    let copies = media_copies("/base", &items, "/out");
    assert_eq!(copies.len(), 1);
    assert_eq!(copies[0].source, "/base/media/ns/p/a.png");
    assert_eq!(copies[0].destination, "/out/media/ns/p/a.png");
}

#[test]
fn update_target_refuses_unknown_and_moved_media_entries() {
    let mut update = update_of("id-1");
    assert!(matches!(update_target(None, &update), Err(Error::KBNotFound)));
    update.path = Some("/x".to_string());
    assert!(matches!(
        update_target(Some(media_kb()), &update),
        Err(Error::MediaPathUpdateNotAllowed(_))
    ));
    update.path = None;
    assert_eq!(update_target(Some(media_kb()), &update).unwrap().id, "id-1");
}

#[test]
fn lookup_and_store_outcomes() {
    assert!(matches!(found_entry(None), Err(Error::KBNotFound)));
    assert!(deletion_outcome(true).is_ok());
    assert!(matches!(deletion_outcome(false), Err(Error::KBNotFound)));
    assert!(removal_outcome(true).is_ok());
    assert!(matches!(removal_outcome(false), Err(Error::EdgeNotFound)));
    let mut to = media_kb();
    to.id = "id-2".to_string();
    let p = edge_between_ids(&media_kb(), &to);
    assert_eq!((p.from_id.as_str(), p.to_id.as_str()), ("id-1", "id-2"));
    assert_eq!(entry_ids(&vec![media_kb(), to]), vec!["id-1".to_string(), "id-2".to_string()]);
}

#[test]
fn reindex_outcomes_label_failures() {
    match reindex_lookup_outcome("x1", Ok(None)) {
        Err((label, reason)) => {
            assert_eq!(label, "id=x1");
            assert_eq!(reason, "not found");
        }
        Ok(_) => panic!("expected a failure"),
    }
    assert_eq!(reindex_lookup_outcome("id-1", Ok(Some(media_kb()))).unwrap().key, "photo");
    assert_eq!(
        reindex_index_outcome(&media_kb(), Ok(())),
        Ok(("photo".to_string(), "id-1".to_string()))
    );
    assert!(reindex_index_outcome(&media_kb(), Err(Error::KBNotFound)).is_err());
}

#[test]
fn import_parent_reports_a_missing_parent_key() {
    assert_eq!(import_parent("p", Ok(Some(media_kb()))), Ok("id-1".to_string()));
    assert_eq!(
        import_parent("p", Ok(None)),
        Err("parent key not found: p".to_string())
    );
}

#[test]
fn media_url_given_asks_only_for_media_without_a_url() {
    assert_eq!(media_url_given("media", Some("u".to_string())), Some(Some("u".to_string())));
    assert_eq!(media_url_given("Media", Some(String::new())), None);
    assert_eq!(media_url_given("media", None), None);
    assert_eq!(media_url_given("quote", None), Some(None));
}

#[test]
fn resolution_prefers_the_key_then_the_id() {
    let mut other = media_kb();
    other.id = "id-2".to_string();
    assert_eq!(resolved_entry(Some(media_kb()), Some(other.clone())).unwrap().id, "id-1");
    assert_eq!(resolved_entry(None, Some(other)).unwrap().id, "id-2");
    assert!(matches!(resolved_entry(None, None), Err(Error::KBNotFound)));
}

#[test]
fn edge_import_outcomes_carry_their_reasons() {
    assert_eq!(
        end_or_reason("to", "no-such", Err(Error::KBNotFound)).unwrap_err(),
        format!("to key/id not found: no-such ({})", Error::KBNotFound.message())
    );
    assert_eq!(end_or_reason("from", "car", Ok(media_kb())).unwrap().id, "id-1");
    let edge = kbzone::domain::graph::KbEdge {
        id: "e".to_string(),
        from_id: "a".to_string(),
        to_id: "b".to_string(),
        note: String::new(),
        created_on: String::new(),
    };
    assert_eq!(
        added_or_reason(edge, Err(Error::DuplicateEdgeError)).unwrap_err(),
        Error::DuplicateEdgeError.message()
    );
}

#[test]
fn parent_and_reindex_decisions() {
    assert!(parent_outcome(Some(media_kb())).is_ok());
    assert!(matches!(parent_outcome(None), Err(Error::ParentKBNotFound)));
    let kb = media_kb();
    let text = kb.embedding_text();
    assert!(!needs_reindex(&text, &kb));
    let mut changed = media_kb();
    changed.value = "another photo".to_string();
    assert!(needs_reindex(&text, &changed));
    changed = media_kb();
    changed.notes = "notes are not embedded".to_string();
    assert!(!needs_reindex(&text, &changed));
}

#[test]
fn get_lookup_and_required_fields() {
    assert_eq!(lookup_of(Some("k".to_string()), Some("i".to_string())), Ok(Lookup::ByKey("k".to_string())));
    assert_eq!(lookup_of(None, Some("i".to_string())), Ok(Lookup::ById("i".to_string())));
    assert!(matches!(lookup_of(None, None), Err(Error::GetKBError(_))));
    assert_eq!(required_field(Some("v".to_string()), "value"), Ok("v".to_string()));
    assert!(matches!(
        required_field(None, "key"),
        Err(Error::MissingRequiredField(f)) if f == "key"
    ));
}
