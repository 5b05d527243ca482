//! Directed relationships between entries, and the queries and results used
//! to add, remove and walk them.
//!
//! Edges are separate from the `parent` / `path` hierarchy: they say why two
//! entries relate, many-to-many and with a direction.

use vstd::prelude::*;

use crate::domain::kb::{clone_opt, clone_strings, opt_view, ExportKbItem, ImportKbItem, Kb};
use crate::ids::{new_uuid, now_timestamp};
use crate::text::{owned, push_str, str_eq, views};

verus! {

/// A directed relationship between two entries.
#[derive(Debug, Clone, PartialEq)]
pub struct KbEdge {
    /// Internal UUID, generated on creation.
    pub id: String,
    /// Id of the entry the edge points from.
    pub from_id: String,
    /// Id of the entry the edge points to.
    pub to_id: String,
    /// Why the two entries are connected.
    pub note: String,
    /// ISO-8601 creation timestamp.
    pub created_on: String,
}

/// Data for a new edge; both ends are already resolved entry ids.
#[derive(Debug, Clone)]
pub struct NewKbEdge {
    pub from_id: String,
    pub to_id: String,
    pub note: String,
}

impl KbEdge {
    /// A full edge from new-edge data, with a fresh UUID and timestamp.
    pub fn from(new: NewKbEdge) -> (res: KbEdge)
        ensures
            res.id@.len() == 36,
            res.from_id@ == new.from_id@,
            res.to_id@ == new.to_id@,
            res.note@ == new.note@,
    {
        KbEdge {
            id: new_uuid(),
            from_id: new.from_id,
            to_id: new.to_id,
            note: new.note,
            created_on: now_timestamp(),
        }
    }
}

/// Direction of traversal: along edges, against them, or both ways.
/// `Both` only makes sense for one-hop queries; `tree` refuses it.
#[derive(Debug, Clone, Copy, PartialEq, Eq, Structural)]
pub enum EdgeDirection {
    Out,
    In,
    Both,
}

/// The name of a direction as the command line writes it.
pub open spec fn direction_name(d: EdgeDirection) -> Seq<char> {
    match d {
        EdgeDirection::Out => "out"@,
        EdgeDirection::In => "in"@,
        EdgeDirection::Both => "both"@,
    }
}

impl EdgeDirection {
    /// `"out"`, `"in"` or `"both"`.
    pub fn as_str(&self) -> (res: &'static str)
        ensures
            res@ == direction_name(*self),
    {
        match self {
            EdgeDirection::Out => "out",
            EdgeDirection::In => "in",
            EdgeDirection::Both => "both",
        }
    }

    /// Parses a direction name; anything else is refused with a message.
    pub fn parse(s: &str) -> (res: Result<EdgeDirection, String>)
        ensures
            forall|d: EdgeDirection|
                s@ == #[trigger] direction_name(d) ==> res == Ok::<EdgeDirection, String>(d),
            s@ != "out"@ && s@ != "in"@ && s@ != "both"@ ==> (res matches Err(m) && m@
                == "invalid direction: "@ + s@ + " (expected out|in|both)"@),
    {
        proof {
            reveal_strlit("out");
            reveal_strlit("in");
            reveal_strlit("both");
            assert("out"@[0] != "in"@[0] && "in"@[0] != "both"@[0] && "out"@[0] != "both"@[0]);
        }
        if str_eq(s, "out") {
            Ok(EdgeDirection::Out)
        } else if str_eq(s, "in") {
            Ok(EdgeDirection::In)
        } else if str_eq(s, "both") {
            Ok(EdgeDirection::Both)
        } else {
            let mut m = owned("invalid direction: ");
            push_str(&mut m, s);
            push_str(&mut m, " (expected out|in|both)");
            Err(m)
        }
    }
}

impl std::str::FromStr for EdgeDirection {
    type Err = String;

    fn from_str(s: &str) -> (res: Result<Self, Self::Err>)
        ensures
            forall|d: EdgeDirection|
                s@ == #[trigger] direction_name(d) ==> res == Ok::<EdgeDirection, String>(d),
            s@ != "out"@ && s@ != "in"@ && s@ != "both"@ ==> (res matches Err(m) && m@
                == "invalid direction: "@ + s@ + " (expected out|in|both)"@),
    {
        EdgeDirection::parse(s)
    }
}

/// Input for linking two entries; both ends are raw key-or-id input.
pub struct LinkParams {
    pub from_key_or_id: String,
    pub to_key_or_id: String,
    pub note: String,
    /// Structured output format for the confirmation, if any.
    pub out: Option<String>,
}

/// Input for a tree walk; `key_or_id` is raw input.
pub struct TreeWalkParams {
    pub key_or_id: String,
    pub direction: EdgeDirection,
    pub depth: i64,
}

/// Which edge to remove, by resolved entry ids.
pub struct RemoveEdgeParams {
    pub from_id: String,
    pub to_id: String,
}

/// One-hop query around a resolved entry.
pub struct RelatedQuery {
    pub kb_id: String,
    pub direction: EdgeDirection,
}

/// Transitive query from a resolved entry; `direction` is `Out` or `In`.
pub struct TreeQuery {
    pub kb_id: String,
    pub direction: EdgeDirection,
    pub depth: i64,
}

/// Input for the graph view: a raw key-or-id, a direction and a depth.
pub struct GraphViewParams {
    pub key_or_id: String,
    pub direction: EdgeDirection,
    pub depth: i64,
}

/// Lightweight node projection embedded in edge and tree output.
#[derive(Debug, Clone)]
pub struct GraphNode {
    pub id: String,
    pub key: String,
    pub category: String,
    pub namespace: String,
}

impl GraphNode {
    /// The projection of an entry.
    pub fn from(kb: &Kb) -> (res: GraphNode)
        ensures
            res.id@ == kb.id@,
            res.key@ == kb.key@,
            res.category@ == kb.category@,
            res.namespace@ == kb.namespace@,
    {
        GraphNode {
            id: kb.id.clone(),
            key: kb.key.clone(),
            category: kb.category.clone(),
            namespace: kb.namespace.clone(),
        }
    }
}

/// An edge leaving the queried entry.
#[derive(Debug, Clone)]
pub struct OutgoingEdge {
    pub edge_id: String,
    pub note: String,
    pub created_on: String,
    pub to: GraphNode,
}

/// An edge arriving at the queried entry.
#[derive(Debug, Clone)]
pub struct IncomingEdge {
    pub edge_id: String,
    pub note: String,
    pub created_on: String,
    pub from: GraphNode,
}

/// The one-hop edges of an entry, as the graph store returns them.
#[derive(Debug, Clone)]
pub struct RelatedEdges {
    pub outgoing: Vec<OutgoingEdge>,
    pub incoming: Vec<IncomingEdge>,
}

impl Default for RelatedEdges {
    fn default() -> (res: Self)
        ensures
            res.outgoing@.len() == 0,
            res.incoming@.len() == 0,
    {
        RelatedEdges { outgoing: Vec::new(), incoming: Vec::new() }
    }
}

/// The one-hop neighbourhood of an entry: the entry and its edges.
#[derive(Debug, Clone)]
pub struct RelatedResult {
    pub node: GraphNode,
    pub outgoing: Vec<OutgoingEdge>,
    pub incoming: Vec<IncomingEdge>,
}

/// One entry reached by a tree walk.
#[derive(Debug, Clone)]
pub struct TreeNode {
    pub id: String,
    pub key: String,
    /// Hops from the root, starting at 1.
    pub depth: i64,
    /// Id of the entry this one was reached from.
    pub parent_id: String,
    /// Note of the edge it was reached by.
    pub note: String,
}

/// The entry a tree walk starts from.
#[derive(Debug, Clone)]
pub struct TreeRoot {
    pub id: String,
    pub key: String,
}

/// The result of a tree walk: its root, direction and the entries reached.
#[derive(Debug, Clone)]
pub struct TreeResult {
    pub root: TreeRoot,
    pub direction: String,
    pub nodes: Vec<TreeNode>,
}

/// An edge as `kb export` writes it: both ends by key.
#[derive(Debug, Clone)]
pub struct ExportEdgeItem {
    pub from_key: String,
    pub to_key: String,
    pub note: String,
}

/// A whole export file: entries, then the edges among them.
#[derive(Debug, Clone)]
pub struct ExportDocument {
    pub kbs: Vec<ExportKbItem>,
    pub graph: Vec<ExportEdgeItem>,
}

/// An edge as `kb import` reads it: both ends by key (or id).
#[derive(Debug, Clone)]
pub struct ImportEdgeItem {
    pub from_key: String,
    pub to_key: String,
    pub note: String,
}

/// A whole import file: entries and edges, either possibly empty.
#[derive(Debug, Clone)]
pub struct ImportDocument {
    pub kbs: Vec<ImportKbItem>,
    pub graph: Vec<ImportEdgeItem>,
}

/// An edge that could not be imported, with the reason.
#[derive(Debug, Clone)]
pub struct FailedImportEdgeItem {
    pub item: ImportEdgeItem,
    pub reason: String,
}

/// Result of a batch edge import.
#[derive(Debug, Clone)]
pub struct ImportEdgeBatchResult {
    pub saved: Vec<KbEdge>,
    pub failed: Vec<FailedImportEdgeItem>,
}

/// A fully hydrated node of the graph view.
#[derive(Debug, Clone)]
pub struct GraphExportNode {
    pub id: String,
    pub key: String,
    pub value: String,
    pub notes: String,
    pub category: String,
    pub namespace: String,
    pub reference: String,
    pub tags: Vec<String>,
    pub path: Option<String>,
    pub created_on: String,
}

impl GraphExportNode {
    /// The view node of an entry: all its displayed fields.
    pub fn from(kb: &Kb) -> (res: GraphExportNode)
        ensures
            res.id@ == kb.id@,
            res.key@ == kb.key@,
            res.value@ == kb.value@,
            res.notes@ == kb.notes@,
            res.category@ == kb.category@,
            res.namespace@ == kb.namespace@,
            res.reference@ == kb.reference@,
            views(res.tags@) == views(kb.tags@),
            opt_view(res.path) == opt_view(kb.path),
            res.created_on@ == kb.created_on@,
    {
        GraphExportNode {
            id: kb.id.clone(),
            key: kb.key.clone(),
            value: kb.value.clone(),
            notes: kb.notes.clone(),
            category: kb.category.clone(),
            namespace: kb.namespace.clone(),
            reference: kb.reference.clone(),
            tags: clone_strings(&kb.tags),
            path: clone_opt(&kb.path),
            created_on: kb.created_on.clone(),
        }
    }
}

/// An edge of the graph view.
#[derive(Debug, Clone)]
pub struct GraphExportEdge {
    pub id: String,
    pub from_id: String,
    pub to_id: String,
    pub note: String,
    pub created_on: String,
}

/// The graph view around an entry: its nodes and the edges among them.
#[derive(Debug, Clone)]
pub struct GraphExport {
    pub root_id: String,
    pub root_key: String,
    pub nodes: Vec<GraphExportNode>,
    pub edges: Vec<GraphExportEdge>,
}

} // verus!
