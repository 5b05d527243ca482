use std::cell::RefCell;
use std::collections::HashMap;
use std::rc::Rc;

use kbzone::domain::kb::{
    EmbeddingInput, ExportKbItem, ExportMediaParams, ImportKbItem, Kb, KbFilter, KbItem, KbUpdate,
    NewKb, StoreMediaParams,
};
use kbzone::domain::metadata::{Metadata, format_metadata};
use kbzone::errors::Error;
use kbzone::ports::{KbStore, MediaFetcher, MediaStore, SemanticIndex};
use kbzone::service::kb_service::{KBService, ServiceDeps, merge_update};

#[derive(Debug, Clone)]
struct MockKbStore {
    data: Rc<RefCell<HashMap<String, Kb>>>,
}

impl MockKbStore {
    fn new() -> Self {
        Self {
            data: Rc::new(RefCell::new(HashMap::new())),
        }
    }

    fn with(entries: Vec<Kb>) -> Self {
        let store = Self::new();
        for kb in entries {
            store.data.borrow_mut().insert(kb.id.clone(), kb);
        }
        store
    }
}

fn item_of(kb: &Kb) -> KbItem {
    KbItem {
        id: kb.id.clone(),
        key: kb.key.clone(),
        category: kb.category.clone(),
        namespace: kb.namespace.clone(),
        tags: kb.tags.clone(),
    }
}

impl KbStore for MockKbStore {
    fn initialize(&self) -> Result<(), Error> {
        Ok(())
    }

    fn get_kb_by_id(&self, id: &str) -> Result<Option<Kb>, Error> {
        Ok(self.data.borrow().get(id).cloned())
    }

    fn get_kb_by_key(&self, key: &str) -> Result<Option<Kb>, Error> {
        Ok(self.data.borrow().values().find(|kb| kb.key == key).cloned())
    }

    fn get_kbs(&self, filter: &KbFilter) -> Result<Vec<KbItem>, Error> {
        let keyword = filter.keyword.as_deref().unwrap_or("");
        let ref_filter = filter.reference.as_deref().unwrap_or("");
        let data = self.data.borrow();
        let mut kbs: Vec<&Kb> = data.values().collect();
        kbs.sort_by(|a, b| a.id.cmp(&b.id));
        Ok(kbs
            .into_iter()
            .filter(|kb| keyword.is_empty() || kb.tags.iter().any(|t| t.contains(keyword)))
            .filter(|kb| !keyword.is_empty() || filter.category.as_deref().map_or(true, |c| kb.category == c))
            .filter(|kb| !keyword.is_empty() || filter.namespace.as_deref().map_or(true, |n| kb.namespace == n))
            .filter(|kb| {
                ref_filter.is_empty()
                    || kb.reference.to_lowercase().contains(&ref_filter.to_lowercase())
            })
            .map(item_of)
            .collect())
    }

    fn save_kb(&self, kb: &Kb) -> Result<(), Error> {
        self.data.borrow_mut().insert(kb.id.clone(), kb.clone());
        Ok(())
    }

    fn update_kb(&self, kb: &Kb) -> Result<bool, Error> {
        let mut data = self.data.borrow_mut();
        if data.contains_key(&kb.id) {
            data.insert(kb.id.clone(), kb.clone());
            Ok(true)
        } else {
            Ok(false)
        }
    }

    fn delete_kb(&self, id: &str) -> Result<bool, Error> {
        Ok(self.data.borrow_mut().remove(id).is_some())
    }

    fn random_by_category(&self, category: &str, namespace: Option<&str>) -> Result<Kb, Error> {
        self.data
            .borrow()
            .values()
            .find(|kb| kb.category == category && namespace.map_or(true, |n| kb.namespace == n))
            .cloned()
            .ok_or(Error::RandomNotFound(category.to_string()))
    }

    fn get_children_ids(&self, parent_id: &str) -> Result<Vec<String>, Error> {
        Ok(self
            .data
            .borrow()
            .values()
            .filter(|kb| kb.parent.as_deref() == Some(parent_id))
            .map(|kb| kb.id.clone())
            .collect())
    }

    fn get_kbs_full(&self, _filter: &KbFilter) -> Result<Vec<Kb>, Error> {
        let data = self.data.borrow();
        let mut kbs: Vec<Kb> = data.values().cloned().collect();
        kbs.sort_by(|a, b| a.id.cmp(&b.id));
        Ok(kbs)
    }

    fn get_categories(&self, namespace: Option<&str>) -> Result<Vec<String>, Error> {
        let mut cats: Vec<String> = self
            .data
            .borrow()
            .values()
            .filter(|kb| namespace.map_or(true, |n| kb.namespace == n))
            .map(|kb| kb.category.clone())
            .filter(|c| !c.is_empty())
            .collect();
        cats.sort();
        cats.dedup();
        Ok(cats)
    }

    fn get_namespaces(&self) -> Result<Vec<String>, Error> {
        let mut nss: Vec<String> = self
            .data
            .borrow()
            .values()
            .map(|kb| kb.namespace.clone())
            .filter(|c| !c.is_empty())
            .collect();
        nss.sort();
        nss.dedup();
        Ok(nss)
    }
}

#[derive(Debug, Clone, Default)]
struct MockIndex {
    indexed: Rc<RefCell<Vec<String>>>,
    deleted: Rc<RefCell<Vec<String>>>,
    warnings: Rc<RefCell<Vec<String>>>,
    fail_after: Option<usize>,
}

impl MockIndex {
    fn failing() -> Self {
        Self {
            fail_after: Some(0),
            ..Self::default()
        }
    }

    fn failing_after(n: usize) -> Self {
        Self {
            fail_after: Some(n),
            ..Self::default()
        }
    }
}

impl SemanticIndex for MockIndex {
    fn index(&self, input: &EmbeddingInput) -> Result<(), Error> {
        let attempts = self.indexed.borrow().len() + self.warnings.borrow().len();
        if let Some(n) = self.fail_after {
            if attempts >= n {
                self.warnings.borrow_mut().push(String::new());
                return Err(Error::EmbeddingError("forced save failure".to_string()));
            }
        }
        self.indexed.borrow_mut().push(input.kb_id.clone());
        Ok(())
    }

    fn remove(&self, kb_id: &str) -> Result<(), Error> {
        if self.fail_after.is_some() {
            return Err(Error::EmbeddingError("forced delete failure".to_string()));
        }
        self.deleted.borrow_mut().push(kb_id.to_string());
        Ok(())
    }

    fn warn(&self, message: &str) {
        self.warnings.borrow_mut().push(message.to_string());
    }
}

#[derive(Debug, Clone, Default)]
struct MockMediaStore {
    stored: Rc<RefCell<Vec<(String, String)>>>,
    deleted: Rc<RefCell<Vec<String>>>,
    copied: Rc<RefCell<Vec<(String, String)>>>,
}

impl MediaStore for MockMediaStore {
    fn store_media(&self, params: &StoreMediaParams) -> Result<String, Error> {
        self.stored
            .borrow_mut()
            .push((params.source.clone(), params.destination.clone()));
        Ok(params.destination.clone())
    }

    fn delete_media(&self, path: &str) -> Result<(), Error> {
        self.deleted.borrow_mut().push(path.to_string());
        Ok(())
    }

    fn copy_dir(&self, source: &str, destination: &str) -> Result<u64, Error> {
        self.copied
            .borrow_mut()
            .push((source.to_string(), destination.to_string()));
        Ok(7)
    }
}

#[derive(Debug, Clone, Default)]
struct MockMediaFetcher {
    fetched: Rc<RefCell<Vec<String>>>,
    discarded: Rc<RefCell<Vec<String>>>,
}

impl MediaFetcher for MockMediaFetcher {
    fn fetch(&self, url: &str) -> Result<String, Error> {
        self.fetched.borrow_mut().push(url.to_string());
        Ok("/tmp/fetched-file".to_string())
    }

    fn discard(&self, path: &str) {
        self.discarded.borrow_mut().push(path.to_string());
    }
}

// ---- Helpers ----

type Svc = KBService<MockKbStore, MockIndex, MockMediaStore, MockMediaFetcher>;

fn make_kb(id: &str, key: &str) -> Kb {
    Kb {
        id: id.to_string(),
        key: key.to_string(),
        value: "some value".to_string(),
        notes: String::new(),
        category: "concept".to_string(),
        reference: String::new(),
        namespace: "default".to_string(),
        tags: vec!["rust".to_string()],
        metadata: Metadata::new(),
        created_on: "2026-01-01T00:00:00+0000".to_string(),
        parent: None,
        path: None,
        media_extension: None,
    }
}

fn make_new_kb(key: &str) -> NewKb {
    NewKb {
        key: key.to_string(),
        value: "some value".to_string(),
        notes: String::new(),
        category: "concept".to_string(),
        reference: String::new(),
        namespace: "default".to_string(),
        tags: vec!["rust".to_string()],
        metadata: Metadata::new(),
        parent: None,
        path: None,
        media_url: None,
        media_extension: None,
    }
}

fn make_import_item(key: &str, value: &str) -> ImportKbItem {
    ImportKbItem {
        key: key.to_string(),
        value: value.to_string(),
        notes: String::new(),
        category: "concept".to_string(),
        reference: String::new(),
        namespace: "default".to_string(),
        tags: vec!["rust".to_string()],
        parent_key: None,
        path: None,
        media_extension: None,
    }
}

fn make_update(id: &str) -> KbUpdate {
    KbUpdate {
        id: id.to_string(),
        key: None,
        value: None,
        notes: None,
        category: None,
        namespace: None,
        reference: None,
        tags: None,
        parent: None,
        path: None,
        metadata: None,
    }
}

fn svc_with(store: MockKbStore, index: MockIndex) -> Svc {
    KBService::new(
        store,
        ServiceDeps {
            index,
            media_store: MockMediaStore::default(),
            media_fetcher: MockMediaFetcher::default(),
            base_dir: "/base".to_string(),
        },
    )
}

fn make_svc() -> Svc {
    svc_with(MockKbStore::new(), MockIndex::default())
}

fn make_svc_with_store(store: MockKbStore) -> Svc {
    svc_with(store, MockIndex::default())
}

// ---- add_kb tests ----

#[test]
fn add_kb_saves_entry_and_indexes_embedding() {
    let index = MockIndex::default();
    let svc = svc_with(MockKbStore::new(), index.clone());
    let result = svc.add_kb(make_new_kb("rust-ownership"));
    assert!(result.is_ok());
    assert_eq!(result.unwrap().key, "rust-ownership");
    assert_eq!(index.indexed.borrow().len(), 1);
}

#[test]
fn add_kb_returns_ok_when_embedding_fails() {
    let svc = svc_with(MockKbStore::new(), MockIndex::failing());
    assert!(svc.add_kb(make_new_kb("rust-ownership")).is_ok());
}

#[test]
fn add_kb_fails_on_duplicate_key() {
    let store = MockKbStore::with(vec![make_kb("id-1", "rust-ownership")]);
    let svc = make_svc_with_store(store);
    assert!(matches!(
        svc.add_kb(make_new_kb("rust-ownership")),
        Err(Error::DuplicateKBError)
    ));
}

#[test]
fn add_kb_lowercases_key_and_normalises_path() {
    let svc = make_svc();
    let mut new = make_new_kb("Rust-Ownership");
    new.path = Some("notes/rust".to_string());
    let kb = svc.add_kb(new).unwrap();
    assert_eq!(kb.key, "rust-ownership");
    assert_eq!(kb.path, Some("/notes/rust".to_string()));
}

#[test]
fn add_kb_refuses_unknown_parent() {
    let svc = make_svc();
    let mut new = make_new_kb("child");
    new.parent = Some("no-such-parent".to_string());
    assert!(matches!(svc.add_kb(new), Err(Error::ParentKBNotFound)));
}

#[test]
fn add_kb_media_requires_a_url() {
    let svc = make_svc();
    let mut new = make_new_kb("photo");
    new.category = "media".to_string();
    assert_eq!(
        svc.add_kb(new).err(),
        Some(Error::MediaUrlRequired("photo".to_string()))
    );
}

#[test]
fn add_kb_media_fetches_remote_file_and_cleans_up() {
    let media_store = MockMediaStore::default();
    let fetcher = MockMediaFetcher::default();
    let svc = KBService::new(
        MockKbStore::new(),
        ServiceDeps {
            index: MockIndex::default(),
            media_store: media_store.clone(),
            media_fetcher: fetcher.clone(),
            base_dir: "/base".to_string(),
        },
    );
    let mut new = make_new_kb("cat");
    new.category = "media".to_string();
    new.namespace = "pics".to_string();
    new.media_url = Some("https://example.org/img/cat.png".to_string());
    let kb = svc.add_kb(new).unwrap();
    assert_eq!(kb.media_extension, Some("png".to_string()));
    assert_eq!(fetcher.fetched.borrow().as_slice(), ["https://example.org/img/cat.png".to_string()]);
    assert_eq!(fetcher.discarded.borrow().as_slice(), ["/tmp/fetched-file".to_string()]);
    assert_eq!(
        media_store.stored.borrow()[0],
        ("/tmp/fetched-file".to_string(), "/base/media/pics/cat.png".to_string())
    );
}

// ---- get tests ----

#[test]
fn get_kb_by_id_returns_none_for_unknown_id() {
    assert!(make_svc().get_kb_by_id("no-such-id").unwrap().is_none());
}

#[test]
fn get_kb_by_id_returns_entry_when_present() {
    let store = MockKbStore::with(vec![make_kb("id-1", "rust-ownership")]);
    let svc = make_svc_with_store(store);
    assert!(svc.get_kb_by_id("id-1").unwrap().is_some());
}

#[test]
fn get_kb_by_key_returns_entry_when_present() {
    let store = MockKbStore::with(vec![make_kb("id-1", "rust-ownership")]);
    let svc = make_svc_with_store(store);
    assert!(svc.get_kb_by_key("rust-ownership").unwrap().is_some());
}

// ---- update_kb tests ----

#[test]
fn update_kb_merges_partial_fields_correctly() {
    let store = MockKbStore::with(vec![make_kb("id-1", "rust-ownership")]);
    let svc = make_svc_with_store(store);
    let mut update = make_update("id-1");
    update.value = Some("updated value".to_string());
    assert!(svc.update_kb(update).is_ok());
    let fetched = svc.get_kb_by_id("id-1").unwrap().unwrap();
    assert_eq!(fetched.value, "updated value");
    assert_eq!(fetched.key, "rust-ownership");
}

#[test]
fn update_kb_reindexes_when_embedding_text_changes() {
    let store = MockKbStore::with(vec![make_kb("id-1", "rust-ownership")]);
    let index = MockIndex::default();
    let svc = svc_with(store, index.clone());
    let mut update = make_update("id-1");
    update.key = Some("rust-updated".to_string());
    assert!(svc.update_kb(update).is_ok());
    assert_eq!(index.indexed.borrow().len(), 1);
}

#[test]
fn update_kb_skips_reindex_when_only_notes_changes() {
    let store = MockKbStore::with(vec![make_kb("id-1", "rust-ownership")]);
    let index = MockIndex::default();
    let svc = svc_with(store, index.clone());
    let mut update = make_update("id-1");
    update.notes = Some("new notes only".to_string());
    assert!(svc.update_kb(update).is_ok());
    assert!(index.indexed.borrow().is_empty());
}

#[test]
fn update_kb_returns_not_found_for_unknown_id() {
    let mut update = make_update("no-such-id");
    update.value = Some("x".to_string());
    assert!(matches!(make_svc().update_kb(update), Err(Error::KBNotFound)));
}

#[test]
fn update_kb_returns_ok_when_embedding_update_fails() {
    let store = MockKbStore::with(vec![make_kb("id-1", "rust-ownership")]);
    let svc = svc_with(store, MockIndex::failing());
    let mut update = make_update("id-1");
    update.key = Some("rust-updated".to_string());
    assert!(svc.update_kb(update).is_ok());
}

#[test]
fn update_kb_rejects_stolen_key() {
    let store = MockKbStore::with(vec![make_kb("id-1", "my-key"), make_kb("id-2", "already-taken")]);
    let svc = make_svc_with_store(store);
    let mut update = make_update("id-1");
    update.key = Some("already-taken".to_string());
    assert!(matches!(svc.update_kb(update), Err(Error::DuplicateKBError)));
}

#[test]
fn update_kb_same_key_same_entry_is_ok() {
    let store = MockKbStore::with(vec![make_kb("id-1", "rust-ownership")]);
    let svc = make_svc_with_store(store);
    let mut update = make_update("id-1");
    update.key = Some("rust-ownership".to_string());
    update.value = Some("new value".to_string());
    assert!(svc.update_kb(update).is_ok());
}

#[test]
fn update_kb_lowercases_key() {
    let store = MockKbStore::with(vec![make_kb("id-1", "rust-ownership")]);
    let svc = make_svc_with_store(store);
    let mut update = make_update("id-1");
    update.key = Some("UpperKey".to_string());
    assert!(svc.update_kb(update).is_ok());
    let fetched = svc.get_kb_by_id("id-1").unwrap().unwrap();
    assert_eq!(fetched.key, "upperkey");
}

#[test]
fn update_kb_lowercases_category() {
    let store = MockKbStore::with(vec![make_kb("id-1", "rust-ownership")]);
    let svc = make_svc_with_store(store);
    let mut update = make_update("id-1");
    update.category = Some("UpperCat".to_string());
    assert!(svc.update_kb(update).is_ok());
    let fetched = svc.get_kb_by_id("id-1").unwrap().unwrap();
    assert_eq!(fetched.category, "uppercat");
}

#[test]
fn update_kb_lowercases_namespace() {
    let store = MockKbStore::with(vec![make_kb("id-1", "rust-ownership")]);
    let svc = make_svc_with_store(store);
    let mut update = make_update("id-1");
    update.namespace = Some("UpperNS".to_string());
    assert!(svc.update_kb(update).is_ok());
    let fetched = svc.get_kb_by_id("id-1").unwrap().unwrap();
    assert_eq!(fetched.namespace, "upperns");
}

#[test]
fn update_kb_parses_metadata_and_clears_path() {
    let mut kb = make_kb("id-1", "rust-ownership");
    kb.path = Some("/old".to_string());
    let svc = make_svc_with_store(MockKbStore::with(vec![kb]));
    let mut update = make_update("id-1");
    update.metadata = Some("b=2, a=1".to_string());
    update.path = Some(String::new());
    assert!(svc.update_kb(update).is_ok());
    let fetched = svc.get_kb_by_id("id-1").unwrap().unwrap();
    assert_eq!(fetched.path, None);
    assert_eq!(format_metadata(&fetched.metadata), "a=1, b=2");
}

#[test]
fn update_kb_refuses_path_change_of_media_entry() {
    let mut kb = make_kb("id-1", "photo");
    kb.category = "media".to_string();
    let svc = make_svc_with_store(MockKbStore::with(vec![kb]));
    let mut update = make_update("id-1");
    update.path = Some("/elsewhere".to_string());
    assert_eq!(
        svc.update_kb(update).err(),
        Some(Error::MediaPathUpdateNotAllowed("photo".to_string()))
    );
}

// ---- merge_update ----

#[test]
fn merge_update_keeps_what_is_not_given() {
    let mut kb = make_kb("id-1", "k");
    kb.parent = Some("p".to_string());
    let mut update = make_update("id-1");
    update.reference = Some("book".to_string());
    let merged = merge_update(kb, update).unwrap();
    assert_eq!(merged.key, "k");
    assert_eq!(merged.reference, "book");
    assert_eq!(merged.parent, Some("p".to_string()));
    assert_eq!(merged.created_on, "2026-01-01T00:00:00+0000");
}

#[test]
fn merge_update_reports_invalid_path_before_metadata() {
    let kb = make_kb("id-1", "k");
    let mut update = make_update("id-1");
    update.path = Some("/a/../b".to_string());
    update.metadata = Some("a=1,a=2".to_string());
    assert!(matches!(merge_update(kb, update), Err(Error::InvalidPathError(_))));
}

// ---- delete_kb tests ----

#[test]
fn delete_kb_removes_entry_and_embedding() {
    let store = MockKbStore::with(vec![make_kb("id-1", "rust-ownership")]);
    let index = MockIndex::default();
    let svc = svc_with(store, index.clone());
    assert!(svc.delete_kb("id-1").is_ok());
    assert_eq!(index.deleted.borrow().len(), 1);
    assert_eq!(index.deleted.borrow()[0], "id-1");
}

#[test]
fn delete_kb_returns_ok_when_embedding_removal_fails() {
    let store = MockKbStore::with(vec![make_kb("id-1", "rust-ownership")]);
    let svc = svc_with(store, MockIndex::failing());
    assert!(svc.delete_kb("id-1").is_ok());
}

#[test]
fn delete_kb_returns_not_found_for_unknown_id() {
    assert!(matches!(make_svc().delete_kb("no-such-id"), Err(Error::KBNotFound)));
}

#[test]
fn delete_kb_refuses_entry_with_children() {
    let mut child = make_kb("id-2", "child");
    child.parent = Some("id-1".to_string());
    let svc = make_svc_with_store(MockKbStore::with(vec![make_kb("id-1", "parent"), child]));
    assert_eq!(
        svc.delete_kb("id-1").err(),
        Some(Error::KBHasChildrenError("id-2".to_string()))
    );
}

// ---- get_kbs tests ----

#[test]
fn get_kbs_returns_matching_entries_by_keyword() {
    let mut kb = make_kb("id-1", "rust-ownership");
    kb.tags = vec!["memory".to_string(), "rust".to_string()];
    let svc = make_svc_with_store(MockKbStore::with(vec![kb]));
    let filter = KbFilter {
        keyword: Some("memo".to_string()),
        ..KbFilter::default()
    };
    let results = svc.get_kbs(filter).unwrap();
    assert_eq!(results.len(), 1);
}

#[test]
fn get_kbs_with_keyword_and_reference_filter_returns_matching_entries() {
    let mut kb1 = make_kb("id-1", "rust-ownership");
    kb1.tags = vec!["rust".to_string()];
    kb1.reference = "The Rust Book".to_string();
    let mut kb2 = make_kb("id-2", "rust-lifetimes");
    kb2.tags = vec!["rust".to_string()];
    kb2.reference = "other source".to_string();
    let svc = make_svc_with_store(MockKbStore::with(vec![kb1, kb2]));
    let filter = KbFilter {
        keyword: Some("rust".to_string()),
        reference: Some("The Rust Book".to_string()),
        ..KbFilter::default()
    };
    let results = svc.get_kbs(filter).unwrap();
    assert_eq!(results.len(), 1);
    assert_eq!(results[0].key, "rust-ownership");
}

#[test]
fn get_kbs_with_keyword_only_returns_all_keyword_matches() {
    let mut kb1 = make_kb("id-1", "rust-ownership");
    kb1.tags = vec!["rust".to_string()];
    kb1.reference = "The Rust Book".to_string();
    let mut kb2 = make_kb("id-2", "rust-lifetimes");
    kb2.tags = vec!["rust".to_string()];
    kb2.reference = "other source".to_string();
    let svc = make_svc_with_store(MockKbStore::with(vec![kb1, kb2]));
    let filter = KbFilter {
        keyword: Some("rust".to_string()),
        ..KbFilter::default()
    };
    let results = svc.get_kbs(filter).unwrap();
    assert_eq!(results.len(), 2);
}

#[test]
fn get_kbs_without_keyword_returns_all_entries() {
    let store = MockKbStore::with(vec![make_kb("id-1", "rust-ownership")]);
    let results = make_svc_with_store(store).get_kbs(KbFilter::default()).unwrap();
    assert_eq!(results.len(), 1);
}

#[test]
fn get_kbs_without_keyword_filters_by_reference() {
    let mut kb1 = make_kb("id-1", "rust-ownership");
    kb1.reference = "The Rust Book".to_string();
    let mut kb2 = make_kb("id-2", "rust-lifetimes");
    kb2.reference = "other source".to_string();
    let svc = make_svc_with_store(MockKbStore::with(vec![kb1, kb2]));
    let filter = KbFilter {
        reference: Some("The Rust Book".to_string()),
        ..KbFilter::default()
    };
    let results = svc.get_kbs(filter).unwrap();
    assert_eq!(results.len(), 1);
    assert_eq!(results[0].key, "rust-ownership");
}

// ---- reindex tests ----

#[test]
fn reindex_all_succeed_full_succeeded_counts() {
    let store = MockKbStore::with(vec![make_kb("id-1", "rust-ownership"), make_kb("id-2", "rust-borrowing")]);
    let result = make_svc_with_store(store).reindex().unwrap();
    assert_eq!(result.succeeded.len(), 2);
    assert!(result.failed.is_empty());
}

#[test]
fn reindex_partial_failures_reported_in_result() {
    let store = MockKbStore::with(vec![make_kb("id-1", "rust-ownership"), make_kb("id-2", "rust-borrowing")]);
    let svc = svc_with(store, MockIndex::failing_after(1));
    let result = svc.reindex().unwrap();
    assert_eq!(result.succeeded.len() + result.failed.len(), 2);
    assert_eq!(result.succeeded.len(), 1);
    assert_eq!(result.failed.len(), 1);
}

#[test]
fn reindex_ghost_entry_appears_in_failed() {
    // An entry that is listed but cannot be read back.
    #[derive(Debug, Clone)]
    struct GhostItemKbStore {
        inner: MockKbStore,
    }
    impl KbStore for GhostItemKbStore {
        fn initialize(&self) -> Result<(), Error> {
            Ok(())
        }
        fn get_kb_by_id(&self, _id: &str) -> Result<Option<Kb>, Error> {
            Ok(None)
        }
        fn get_kb_by_key(&self, _key: &str) -> Result<Option<Kb>, Error> {
            Ok(None)
        }
        fn get_kbs(&self, _filter: &KbFilter) -> Result<Vec<KbItem>, Error> {
            Ok(vec![KbItem {
                id: "ghost-id".to_string(),
                key: "ghost-key".to_string(),
                category: "concept".to_string(),
                namespace: "default".to_string(),
                tags: vec![],
            }])
        }
        fn save_kb(&self, _kb: &Kb) -> Result<(), Error> {
            Ok(())
        }
        fn update_kb(&self, _kb: &Kb) -> Result<bool, Error> {
            Ok(false)
        }
        fn delete_kb(&self, _id: &str) -> Result<bool, Error> {
            Ok(false)
        }
        fn random_by_category(&self, c: &str, n: Option<&str>) -> Result<Kb, Error> {
            self.inner.random_by_category(c, n)
        }
        fn get_children_ids(&self, _parent_id: &str) -> Result<Vec<String>, Error> {
            Ok(vec![])
        }
        fn get_kbs_full(&self, _filter: &KbFilter) -> Result<Vec<Kb>, Error> {
            Ok(vec![])
        }
        fn get_categories(&self, _namespace: Option<&str>) -> Result<Vec<String>, Error> {
            Ok(vec![])
        }
        fn get_namespaces(&self) -> Result<Vec<String>, Error> {
            Ok(vec![])
        }
    }
    let svc = KBService::new(
        GhostItemKbStore { inner: MockKbStore::new() },
        ServiceDeps {
            index: MockIndex::default(),
            media_store: MockMediaStore::default(),
            media_fetcher: MockMediaFetcher::default(),
            base_dir: "/base".to_string(),
        },
    );
    let result = svc.reindex().unwrap();
    assert!(result.succeeded.is_empty());
    assert_eq!(result.failed.len(), 1);
    assert!(result.failed[0].0.contains("ghost-id"));
    assert_eq!(result.failed[0], ("id=ghost-id".to_string(), "not found".to_string()));
}

#[test]
fn reindex_empty_store_returns_empty_result() {
    let result = make_svc().reindex().unwrap();
    assert!(result.succeeded.is_empty());
    assert!(result.failed.is_empty());
}

// ---- import_kbs tests ----

#[test]
fn import_kbs_indexes_all_saved_entries() {
    let index = MockIndex::default();
    let svc = svc_with(MockKbStore::new(), index.clone());
    let items = vec![
        make_import_item("rust-ownership", "memory management"),
        make_import_item("rust-borrowing", "borrow checker"),
    ];
    let result = svc.import_kbs(items);
    assert_eq!(result.saved.len(), 2);
    assert_eq!(index.indexed.borrow().len(), 2);
}

#[test]
fn import_kbs_skips_indexing_for_failed_items() {
    let index = MockIndex::default();
    let svc = svc_with(MockKbStore::new(), index.clone());
    let items = vec![
        make_import_item("rust-ownership", "memory management"),
        make_import_item("", "empty key fails"),
    ];
    let result = svc.import_kbs(items);
    assert_eq!(result.saved.len(), 1);
    assert_eq!(result.failed.len(), 1);
    assert_eq!(index.indexed.borrow().len(), 1);
}

#[test]
fn import_kbs_continues_on_embedding_failure() {
    let svc = svc_with(MockKbStore::new(), MockIndex::failing());
    let items = vec![
        make_import_item("rust-ownership", "memory management"),
        make_import_item("rust-borrowing", "borrow checker"),
    ];
    let result = svc.import_kbs(items);
    assert_eq!(result.saved.len(), 2);
    assert!(result.failed.is_empty());
}

#[test]
fn add_kbs_imports_all_valid_items() {
    let items = vec![
        make_import_item("rust-ownership", "memory management"),
        make_import_item("rust-borrowing", "borrow checker"),
    ];
    let result = make_svc().import_kbs(items);
    assert_eq!(result.saved.len(), 2);
    assert!(result.failed.is_empty());
}

#[test]
fn add_kbs_collects_item_with_empty_key() {
    let result = make_svc().import_kbs(vec![make_import_item("", "some value")]);
    assert_eq!(result.failed.len(), 1);
    assert!(result.failed[0].reason.contains("Key"));
}

#[test]
fn add_kbs_collects_item_with_empty_value() {
    let result = make_svc().import_kbs(vec![make_import_item("rust-ownership", "")]);
    assert_eq!(result.failed.len(), 1);
    assert!(result.failed[0].reason.contains("Value"));
}

#[test]
fn add_kbs_collects_duplicate_key() {
    let store = MockKbStore::with(vec![make_kb("id-1", "rust-ownership")]);
    let result = make_svc_with_store(store).import_kbs(vec![make_import_item("rust-ownership", "some value")]);
    assert_eq!(result.failed.len(), 1);
}

#[test]
fn add_kbs_mixed_batch_correct_counts() {
    let store = MockKbStore::with(vec![make_kb("id-1", "rust-ownership")]);
    let items = vec![
        make_import_item("rust-borrowing", "borrow checker"),
        make_import_item("", "some value"),
        make_import_item("rust-ownership", "duplicate"),
    ];
    let result = make_svc_with_store(store).import_kbs(items);
    assert_eq!(result.saved.len(), 1);
    assert_eq!(result.failed.len(), 2);
}

#[test]
fn add_kbs_empty_input_returns_empty_result() {
    let result = make_svc().import_kbs(vec![]);
    assert!(result.saved.is_empty());
    assert!(result.failed.is_empty());
}

#[test]
fn import_kbs_resolves_parent_key_and_reports_unknown_one() {
    let store = MockKbStore::with(vec![make_kb("id-1", "car")]);
    let mut child = make_import_item("engine", "v");
    child.parent_key = Some("car".to_string());
    let mut orphan = make_import_item("wheel", "v");
    orphan.parent_key = Some("bike".to_string());
    let result = make_svc_with_store(store).import_kbs(vec![child, orphan]);
    assert_eq!(result.saved.len(), 1);
    assert_eq!(result.saved[0].parent, Some("id-1".to_string()));
    assert_eq!(result.failed[0].reason, "parent key not found: bike");
}

// ---- export ----

#[test]
fn export_kbs_puts_parents_before_children_and_keys_parents() {
    let mut a = make_kb("a-id", "child");
    a.parent = Some("b-id".to_string());
    let b = make_kb("b-id", "parent");
    let mut c = make_kb("c-id", "orphan");
    c.parent = Some("gone-id".to_string());
    let svc = make_svc_with_store(MockKbStore::with(vec![a, b, c]));
    let out = svc.export_kbs(KbFilter::default()).unwrap();
    let keys: Vec<&str> = out.iter().map(|i| i.key.as_str()).collect();
    assert_eq!(keys, vec!["parent", "orphan", "child"]);
    assert_eq!(out[2].parent_key, Some("parent".to_string()));
    assert_eq!(out[1].parent_key, None);
}

#[test]
fn export_kbs_appends_entries_caught_in_a_cycle() {
    let mut a = make_kb("a-id", "a");
    a.parent = Some("b-id".to_string());
    let mut b = make_kb("b-id", "b");
    b.parent = Some("a-id".to_string());
    let c = make_kb("c-id", "c");
    let svc = make_svc_with_store(MockKbStore::with(vec![a, b, c]));
    let out = svc.export_kbs(KbFilter::default()).unwrap();
    let keys: Vec<&str> = out.iter().map(|i| i.key.as_str()).collect();
    assert_eq!(keys, vec!["c", "a", "b"]);
}

#[test]
fn export_media_bulk_copies_whole_media_dir_without_filters() {
    let media_store = MockMediaStore::default();
    let svc = KBService::new(
        MockKbStore::new(),
        ServiceDeps {
            index: MockIndex::default(),
            media_store: media_store.clone(),
            media_fetcher: MockMediaFetcher::default(),
            base_dir: "/base".to_string(),
        },
    );
    let n = svc
        .export_media(ExportMediaParams {
            target_dir: "/out".to_string(),
            category: None,
            namespace: None,
            items: vec![],
        })
        .unwrap();
    assert_eq!(n, 7);
    assert_eq!(media_store.copied.borrow()[0], ("/base/media".to_string(), "/out/media".to_string()));
}

#[test]
fn export_media_per_item_counts_media_entries_with_extension() {
    let media_store = MockMediaStore::default();
    let svc = KBService::new(
        MockKbStore::new(),
        ServiceDeps {
            index: MockIndex::default(),
            media_store: media_store.clone(),
            media_fetcher: MockMediaFetcher::default(),
            base_dir: "/base".to_string(),
        },
    );
    let item = |key: &str, cat: &str, ext: Option<&str>| ExportKbItem {
        key: key.to_string(),
        value: "v".to_string(),
        notes: String::new(),
        category: cat.to_string(),
        reference: String::new(),
        namespace: "ns".to_string(),
        tags: vec![],
        parent_key: None,
        path: None,
        media_extension: ext.map(str::to_string),
    };
    let n = svc
        .export_media(ExportMediaParams {
            target_dir: "/out".to_string(),
            category: Some("concept".to_string()),
            namespace: None,
            items: vec![item("a", "media", Some("png")), item("b", "concept", None), item("c", "media", None)],
        })
        .unwrap();
    assert_eq!(n, 1);
    assert_eq!(
        media_store.stored.borrow()[0],
        ("/base/media/ns/a.png".to_string(), "/out/media/ns/a.png".to_string())
    );
}

// ---- quote tests ----

#[test]
fn quote_returns_quote_category_entry() {
    let mut kb = make_kb("id-1", "stoic-wisdom");
    kb.category = "quote".to_string();
    let svc = make_svc_with_store(MockKbStore::with(vec![kb]));
    let result = svc.quote().unwrap();
    assert_eq!(result.category, "quote");
}

#[test]
fn quote_propagates_not_found_when_no_quotes_exist() {
    let svc = make_svc();
    assert!(matches!(svc.quote(), Err(Error::QuoteNotFound)));
}

#[test]
fn categories_and_namespaces_come_from_the_store() {
    let mut kb = make_kb("id-2", "k2");
    kb.category = "quote".to_string();
    kb.namespace = "other".to_string();
    let svc = make_svc_with_store(MockKbStore::with(vec![make_kb("id-1", "k1"), kb]));
    assert_eq!(svc.categories(None).unwrap(), vec!["concept".to_string(), "quote".to_string()]);
    assert_eq!(svc.categories(Some("other")).unwrap(), vec!["quote".to_string()]);
    assert_eq!(svc.namespaces().unwrap(), vec!["default".to_string(), "other".to_string()]);
}

#[test]
fn reindex_items_reports_each_listed_item_once_in_order() {
    let store = MockKbStore::with(vec![make_kb("id-1", "alpha"), make_kb("id-2", "beta")]);
    let svc = make_svc_with_store(store);
    let mut missing = item_of(&make_kb("id-9", "gone"));
    missing.key = "gone".to_string();
    let items = vec![item_of(&make_kb("id-2", "beta")), missing, item_of(&make_kb("id-1", "alpha"))];
    let result = svc.reindex_items(&items);
    assert_eq!(
        result.succeeded,
        vec![
            ("beta".to_string(), "id-2".to_string()),
            ("alpha".to_string(), "id-1".to_string())
        ]
    );
    assert_eq!(result.failed, vec![("id=id-9".to_string(), "not found".to_string())]);
}
