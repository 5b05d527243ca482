//! Outbound ports: what the services need from storage, media handling and
//! the semantic index. Implementations live with the program that wires the
//! services together; the services depend on these traits only.
//!
//! Each method's contract states what every implementation must guarantee
//! of its result; the services prove their own contracts from these alone.

use vstd::prelude::*;

use crate::domain::graph::{
    EdgeDirection, IncomingEdge, KbEdge, OutgoingEdge, RelatedEdges, RelatedQuery,
    RemoveEdgeParams, TreeNode, TreeQuery,
};
use crate::domain::kb::{EmbeddingInput, Kb, KbFilter, KbItem, StoreMediaParams};
use crate::domain::paths::opt_str_view;
use crate::errors::Error;
use crate::text::views;

verus! {

/// Storage of entries.
///
/// Its spec functions say which answers an implementation admits for a
/// request. Each admits every answer unless the implementation defines it
/// more narrowly. The services state their contracts through them: that
/// names exactly which request a service made and that its result is the
/// store's answer to that request, without claiming what the store holds.
pub trait KbStore {
    /// `found` is an admissible answer of `get_kb_by_id(id)`.
    open spec fn answered_by_id(&self, id: Seq<char>, found: Option<Kb>) -> bool {
        true
    }

    /// `found` is an admissible answer of `get_kb_by_key(key)`.
    open spec fn answered_by_key(&self, key: Seq<char>, found: Option<Kb>) -> bool {
        true
    }

    /// `kb` is an admissible answer of `random_by_category(category, namespace)`.
    open spec fn drawn(&self, category: Seq<char>, namespace: Option<Seq<char>>, kb: Kb) -> bool {
        true
    }

    /// `names` is an admissible answer of `get_categories(namespace)`.
    open spec fn categories_of(&self, namespace: Option<Seq<char>>, names: Seq<String>) -> bool {
        true
    }

    /// `names` is an admissible answer of `get_namespaces()`.
    open spec fn namespaces_of(&self, names: Seq<String>) -> bool {
        true
    }

    /// `ids` is an admissible answer of `get_children_ids(parent_id)`.
    open spec fn children_of(&self, parent_id: Seq<char>, ids: Seq<String>) -> bool {
        true
    }

    /// `delete_kb(id)` may succeed with `removed`.
    open spec fn deleted(&self, id: Seq<char>, removed: bool) -> bool {
        true
    }

    /// `items` is an admissible answer of `get_kbs(filter)`.
    open spec fn listed(&self, filter: KbFilter, items: Seq<KbItem>) -> bool {
        true
    }

    /// `kbs` is an admissible answer of `get_kbs_full(filter)`.
    open spec fn listed_full(&self, filter: KbFilter, kbs: Seq<Kb>) -> bool {
        true
    }

    /// `save_kb(kb)` may succeed.
    open spec fn saved(&self, kb: Kb) -> bool {
        true
    }

    /// `update_kb(kb)` may succeed with `changed`.
    open spec fn updated(&self, kb: Kb, changed: bool) -> bool {
        true
    }

    /// Ensures the schema exists (idempotent).
    fn initialize(&self) -> Result<(), Error>;

    /// The entry with internal id `id`, if there is one.
    fn get_kb_by_id(&self, id: &str) -> (res: Result<Option<Kb>, Error>)
        ensures
            res matches Ok(Some(kb)) ==> kb.id@ == id@,
            res matches Ok(found) ==> self.answered_by_id(id@, found),
    ;

    /// The entry with key `key`, if there is one.
    fn get_kb_by_key(&self, key: &str) -> (res: Result<Option<Kb>, Error>)
        ensures
            res matches Ok(Some(kb)) ==> kb.key@ == key@,
            res matches Ok(found) ==> self.answered_by_key(key@, found),
    ;

    /// Lightweight rows of the entries matching `filter`.
    fn get_kbs(&self, filter: &KbFilter) -> (res: Result<Vec<KbItem>, Error>)
        ensures
            res matches Ok(items) ==> self.listed(*filter, items@),
    ;

    /// Persists a new entry.
    fn save_kb(&self, kb: &Kb) -> (res: Result<(), Error>)
        ensures
            res is Ok ==> self.saved(*kb),
    ;

    /// Overwrites the entry with the same id; `true` if a row was updated.
    fn update_kb(&self, kb: &Kb) -> (res: Result<bool, Error>)
        ensures
            res matches Ok(changed) ==> self.updated(*kb, changed),
    ;

    /// Deletes the entry with id `id`; `true` if a row was deleted.
    fn delete_kb(&self, id: &str) -> (res: Result<bool, Error>)
        ensures
            res matches Ok(removed) ==> self.deleted(id@, removed),
    ;

    /// A random entry of `category`, optionally within `namespace`.
    fn random_by_category(&self, category: &str, namespace: Option<&str>) -> (res: Result<
        Kb,
        Error,
    >)
        ensures
            res matches Ok(kb) ==> self.drawn(category@, opt_str_view(namespace), kb),
    ;

    /// Ids of the entries whose parent is `parent_id`.
    fn get_children_ids(&self, parent_id: &str) -> (res: Result<Vec<String>, Error>)
        ensures
            res matches Ok(ids) ==> self.children_of(parent_id@, ids@),
    ;

    /// Full entries matching `filter`.
    fn get_kbs_full(&self, filter: &KbFilter) -> (res: Result<Vec<Kb>, Error>)
        ensures
            res matches Ok(kbs) ==> self.listed_full(*filter, kbs@),
    ;

    /// Distinct non-empty categories, optionally within `namespace`, sorted.
    fn get_categories(&self, namespace: Option<&str>) -> (res: Result<Vec<String>, Error>)
        ensures
            res matches Ok(names) ==> self.categories_of(opt_str_view(namespace), names@),
    ;

    /// Distinct non-empty namespaces, sorted.
    fn get_namespaces(&self) -> (res: Result<Vec<String>, Error>)
        ensures
            res matches Ok(names) ==> self.namespaces_of(names@),
    ;
}

/// Storage of edges between entries.
pub trait KbGraph {
    /// `nodes` is an admissible answer of `get_tree(query)`; it admits every
    /// answer unless the implementation defines it more narrowly.
    open spec fn walked(&self, query: TreeQuery, nodes: Seq<TreeNode>) -> bool {
        true
    }

    /// `outgoing` and `incoming` are an admissible answer of `get_related`
    /// for the entry with id `kb_id` in `direction`.
    open spec fn related_of(
        &self,
        kb_id: Seq<char>,
        direction: EdgeDirection,
        outgoing: Seq<OutgoingEdge>,
        incoming: Seq<IncomingEdge>,
    ) -> bool {
        true
    }

    /// `add_edge(edge)` may succeed.
    open spec fn edge_added(&self, edge: KbEdge) -> bool {
        true
    }

    /// `remove_edge` of the edge from `from_id` to `to_id` may succeed with
    /// `removed`.
    open spec fn edge_removed(&self, from_id: Seq<char>, to_id: Seq<char>, removed: bool) -> bool {
        true
    }

    /// `edges` is an admissible answer of `get_edges_among_ids` for the ids
    /// `ids`.
    open spec fn edges_among(&self, ids: Seq<Seq<char>>, edges: Seq<KbEdge>) -> bool {
        true
    }

    /// Ensures the edge schema exists (idempotent).
    fn initialize_graph(&self) -> Result<(), Error>;

    /// Persists a fully built edge; `DuplicateEdgeError` if an edge with the
    /// same two ends in the same direction exists.
    fn add_edge(&self, edge: &KbEdge) -> (res: Result<(), Error>)
        ensures
            res is Ok ==> self.edge_added(*edge),
    ;

    /// Removes the edge in exactly that direction; `true` if one was removed.
    fn remove_edge(&self, params: &RemoveEdgeParams) -> (res: Result<bool, Error>)
        ensures
            res matches Ok(removed) ==> self.edge_removed(params.from_id@, params.to_id@, removed),
    ;

    /// One-hop edges of `query.kb_id`; the direction not asked for comes
    /// back empty.
    fn get_related(&self, query: &RelatedQuery) -> (res: Result<RelatedEdges, Error>)
        ensures
            res matches Ok(r) ==> (query.direction == EdgeDirection::Out ==> r.incoming@.len()
                == 0),
            res matches Ok(r) ==> (query.direction == EdgeDirection::In ==> r.outgoing@.len()
                == 0),
            res matches Ok(r) ==> self.related_of(
                query.kb_id@,
                query.direction,
                r.outgoing@,
                r.incoming@,
            ),
    ;

    /// Transitive walk from `query.kb_id` in one direction, bounded by
    /// `query.depth`.
    fn get_tree(&self, query: &TreeQuery) -> (res: Result<Vec<TreeNode>, Error>)
        ensures
            res matches Ok(nodes) ==> self.walked(*query, nodes@),
    ;

    /// The edges whose two ends are both among `ids`.
    fn get_edges_among_ids(&self, ids: &[String]) -> (res: Result<Vec<KbEdge>, Error>)
        ensures
            res matches Ok(edges) ==> self.edges_among(views(ids@), edges@),
    ;
}

/// Local media files.
pub trait MediaStore {
    /// Copies `params.source` to `params.destination`, creating parent
    /// directories; returns the destination.
    fn store_media(&self, params: &StoreMediaParams) -> Result<String, Error>;

    /// Deletes the media file at `path`.
    fn delete_media(&self, path: &str) -> Result<(), Error>;

    /// Copies every file under `source` to `destination`; the number copied,
    /// zero when `source` does not exist.
    fn copy_dir(&self, source: &str, destination: &str) -> Result<u64, Error>;
}

/// Downloads of remote media.
pub trait MediaFetcher {
    /// Downloads `url` to a temporary file and returns its path.
    fn fetch(&self, url: &str) -> Result<String, Error>;

    /// Removes a temporary file that `fetch` returned; failures are ignored.
    fn discard(&self, path: &str);
}

/// The semantic index: embeds entry text and stores the vectors.
pub trait SemanticIndex {
    /// Embeds `input.text` and stores the vector for `input.kb_id`.
    fn index(&self, input: &EmbeddingInput) -> Result<(), Error>;

    /// Removes the vector stored for `kb_id`.
    fn remove(&self, kb_id: &str) -> Result<(), Error>;

    /// Reports a failure of this index that the caller did not treat as
    /// fatal.
    fn warn(&self, message: &str);
}

} // verus!
