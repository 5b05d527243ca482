//! Graph relationships between entries: resolving key-or-id input to
//! entries, adding and removing edges, one-hop and transitive queries, the
//! graph view and the `graph` section of export and import files.

use vstd::prelude::*;

use crate::domain::graph::{
    direction_name, EdgeDirection, FailedImportEdgeItem, ImportEdgeBatchResult, ImportEdgeItem,
    KbEdge, LinkParams, NewKbEdge, RelatedQuery, RelatedResult, RemoveEdgeParams, TreeQuery,
    TreeResult, TreeRoot, TreeWalkParams, GraphNode,
};
use crate::domain::graph::{ExportEdgeItem, GraphExport, GraphExportEdge, GraphExportNode, GraphViewParams};
use crate::domain::graph::{IncomingEdge, OutgoingEdge, RelatedEdges};
use crate::domain::kb::{opt_view, Kb, KbFilter};
use crate::errors::Error;
use crate::ports::{KbGraph, KbStore};
use crate::service::kb_service::found_entry;
use crate::text::{
    views, lemma_seq_lt_irreflexive, lemma_seq_lt_total, lemma_seq_lt_transitive, owned, push_str,
    seq_le, seq_lt, str_eq, str_lt,
};

verus! {

/// The three fields of an edge import item.
pub type EdgeItemView = (Seq<char>, Seq<char>, Seq<char>);

pub open spec fn edge_item_view(i: ImportEdgeItem) -> EdgeItemView {
    (i.from_key@, i.to_key@, i.note@)
}

pub open spec fn edge_item_views(s: Seq<ImportEdgeItem>) -> Seq<EdgeItemView> {
    s.map_values(|i: ImportEdgeItem| edge_item_view(i))
}

pub open spec fn failed_edge_views(s: Seq<FailedImportEdgeItem>) -> Seq<EdgeItemView> {
    s.map_values(|f: FailedImportEdgeItem| edge_item_view(f.item))
}

pub open spec fn edge_notes(s: Seq<KbEdge>) -> Seq<Seq<char>> {
    s.map_values(|e: KbEdge| e.note@)
}

pub open spec fn edge_item_notes(s: Seq<EdgeItemView>) -> Seq<Seq<char>> {
    s.map_values(|v: EdgeItemView| v.2)
}

/// The elements of `s` whose flag equals `keep`, in order.
pub open spec fn pick<A>(s: Seq<A>, flags: Seq<bool>, keep: bool) -> Seq<A>
    decreases s.len(),
{
    if s.len() == 0 || flags.len() == 0 {
        seq![]
    } else {
        let rest = pick(s.drop_last(), flags.drop_last(), keep);
        if flags.last() == keep {
            rest.push(s.last())
        } else {
            rest
        }
    }
}

/// `pick` over one more element.
pub proof fn lemma_pick_push<A>(s: Seq<A>, flags: Seq<bool>, keep: bool, x: A, b: bool)
    ensures
        pick(s.push(x), flags.push(b), keep) == if b == keep {
            pick(s, flags, keep).push(x)
        } else {
            pick(s, flags, keep)
        },
{
    assert(s.push(x).drop_last() =~= s);
    assert(flags.push(b).drop_last() =~= flags);
}

/// Why an edge import item is reported as failed: an end that did not
/// resolve (with the lookup's error), or an error creating the edge.
pub open spec fn edge_failure_reason(item: EdgeItemView, reason: Seq<char>) -> bool {
    ||| exists|e: Error|
        reason == "from"@ + " key/id not found: "@ + item.0 + " ("@ + #[trigger] e.message_view()
            + ")"@
    ||| exists|e: Error|
        reason == "to"@ + " key/id not found: "@ + item.1 + " ("@ + #[trigger] e.message_view() + ")"@
    ||| exists|e: Error| reason == #[trigger] e.message_view()
}

/// `"<end> key/id not found: <key> (<error>)"`.
pub fn unresolved_end_reason(end: &str, key: &str, e: &Error) -> (res: String)
    ensures
        res@ == end@ + " key/id not found: "@ + key@ + " ("@ + e.message_view() + ")"@,
{
    let mut r = owned(end);
    push_str(&mut r, " key/id not found: ");
    push_str(&mut r, key);
    push_str(&mut r, " (");
    let m = e.message();
    push_str(&mut r, m.as_str());
    push_str(&mut r, ")");
    r
}

/// The entry a key-or-id resolves to, given what looking it up as a key
/// and then as an id found: the entry found by key first, else the one
/// found by id, else `KBNotFound`.
pub fn resolved_entry(by_key: Option<Kb>, by_id: Option<Kb>) -> (res: Result<Kb, Error>)
    ensures
        match by_key {
            Some(k) => res == Ok::<Kb, Error>(k),
            None => match by_id {
                Some(i) => res == Ok::<Kb, Error>(i),
                None => res == Err::<Kb, Error>(Error::KBNotFound),
            },
        },
{
    match by_key {
        Some(kb) => Ok(kb),
        None => found_entry(by_id),
    }
}

/// One end of an imported edge: the resolved entry, or the reason
/// `"<end> key/id not found: <key> (<error>)"` when it did not resolve.
pub fn end_or_reason(end: &str, key: &str, resolved: Result<Kb, Error>) -> (res: Result<Kb, String>)
    ensures
        match resolved {
            Ok(kb) => res == Ok::<Kb, String>(kb),
            Err(e) => (res matches Err(r) && r@ == end@ + " key/id not found: "@ + key@ + " ("@
                + e.message_view() + ")"@),
        },
{
    match resolved {
        Ok(kb) => Ok(kb),
        Err(e) => Err(unresolved_end_reason(end, key, &e)),
    }
}

/// An imported edge once the graph store has been asked to add it: the
/// edge, or the store's error message as the reason.
pub fn added_or_reason(edge: KbEdge, added: Result<(), Error>) -> (res: Result<KbEdge, String>)
    ensures
        match added {
            Ok(()) => res == Ok::<KbEdge, String>(edge),
            Err(e) => (res matches Err(r) && r@ == e.message_view()),
        },
{
    match added {
        Ok(()) => Ok(edge),
        Err(e) => Err(e.message()),
    }
}

/// The ids of `kbs`, in order.
pub open spec fn ids_of(kbs: Seq<Kb>) -> Seq<Seq<char>> {
    Seq::new(kbs.len(), |j: int| kbs[j].id@)
}

/// The ids of `kbs`, in order: the ids whose edges an export asks for.
pub fn entry_ids(kbs: &Vec<Kb>) -> (res: Vec<String>)
    ensures
        res@.len() == kbs@.len(),
        forall|j: int| 0 <= j < kbs@.len() ==> #[trigger] res@[j]@ == kbs@[j].id@,
{
    let mut ids: Vec<String> = Vec::new();
    let mut i: usize = 0;
    while i < kbs.len()
        invariant
            0 <= i <= kbs@.len(),
            ids@.len() == i,
            forall|j: int| 0 <= j < i ==> #[trigger] ids@[j]@ == kbs@[j].id@,
        decreases kbs@.len() - i,
    {
        ids.push(kbs[i].id.clone());
        i = i + 1;
    }
    ids
}

/// The edge to remove between two resolved entries: from the first to the
/// second, by id.
pub fn edge_between_ids(from: &Kb, to: &Kb) -> (res: RemoveEdgeParams)
    ensures
        res.from_id@ == from.id@,
        res.to_id@ == to.id@,
{
    RemoveEdgeParams { from_id: from.id.clone(), to_id: to.id.clone() }
}

/// What an unlink answers once the store has run it: `EdgeNotFound` when
/// there was no such edge.
pub fn removal_outcome(removed: bool) -> (res: Result<(), Error>)
    ensures
        res == if removed {
            Ok::<(), Error>(())
        } else {
            Err::<(), Error>(Error::EdgeNotFound)
        },
{
    if removed {
        Ok(())
    } else {
        Err(Error::EdgeNotFound)
    }
}

/// The new edge between two resolved entries, or `SelfLoopNotAllowed` when
/// they are the same entry.
pub fn new_edge_between(from: &Kb, to: &Kb, note: String) -> (res: Result<NewKbEdge, Error>)
    ensures
        from.id@ == to.id@ ==> res matches Err(Error::SelfLoopNotAllowed),
        from.id@ != to.id@ ==> (res matches Ok(n) && n.from_id@ == from.id@ && n.to_id@
            == to.id@ && n.note@ == note@),
{
    if str_eq(from.id.as_str(), to.id.as_str()) {
        Err(Error::SelfLoopNotAllowed)
    } else {
        Ok(NewKbEdge { from_id: from.id.clone(), to_id: to.id.clone(), note })
    }
}

fn clone_edge_item(i: &ImportEdgeItem) -> (res: ImportEdgeItem)
    ensures
        edge_item_view(res) == edge_item_view(*i),
{
    ImportEdgeItem { from_key: i.from_key.clone(), to_key: i.to_key.clone(), note: i.note.clone() }
}

// ---------------------------------------------------------------------------
// The `graph` section of an export file
// ---------------------------------------------------------------------------

/// The three fields of an exported edge: from key, to key, note.
pub type ExportEdgeView = (Seq<char>, Seq<char>, Seq<char>);

pub open spec fn export_edge_view(e: ExportEdgeItem) -> ExportEdgeView {
    (e.from_key@, e.to_key@, e.note@)
}

pub open spec fn export_edge_views(s: Seq<ExportEdgeItem>) -> Seq<ExportEdgeView> {
    s.map_values(|e: ExportEdgeItem| export_edge_view(e))
}

/// The key of the entry of `kbs` with id `id`; the last one if several
/// share it.
pub open spec fn key_of_id(kbs: Seq<Kb>, id: Seq<char>) -> Option<Seq<char>>
    decreases kbs.len(),
{
    if kbs.len() == 0 {
        None
    } else if kbs.last().id@ == id {
        Some(kbs.last().key@)
    } else {
        key_of_id(kbs.drop_last(), id)
    }
}

/// The error text for an edge with an end outside the exported entries.
pub open spec fn outside_set_message(edge_id: Seq<char>, end_id: Seq<char>) -> Seq<char> {
    "edge "@ + edge_id + " references an id ("@ + end_id + ") outside the exported set"@
}

/// An edge with both ends mapped to keys, or the error text.
pub open spec fn edge_export_item(kbs: Seq<Kb>, e: KbEdge) -> Result<ExportEdgeView, Seq<char>> {
    match key_of_id(kbs, e.from_id@) {
        None => Err(outside_set_message(e.id@, e.from_id@)),
        Some(fk) => match key_of_id(kbs, e.to_id@) {
            None => Err(outside_set_message(e.id@, e.to_id@)),
            Some(tk) => Ok((fk, tk, e.note@)),
        },
    }
}

/// All edges mapped in order; the first failure if any.
pub open spec fn edge_export_items(kbs: Seq<Kb>, edges: Seq<KbEdge>) -> Result<
    Seq<ExportEdgeView>,
    Seq<char>,
>
    decreases edges.len(),
{
    if edges.len() == 0 {
        Ok(seq![])
    } else {
        match edge_export_items(kbs, edges.drop_last()) {
            Err(m) => Err(m),
            Ok(acc) => match edge_export_item(kbs, edges.last()) {
                Err(m) => Err(m),
                Ok(it) => Ok(acc.push(it)),
            },
        }
    }
}

proof fn lemma_edge_export_err_sticks(kbs: Seq<Kb>, edges: Seq<KbEdge>, i: int)
    requires
        0 <= i <= edges.len(),
        edge_export_items(kbs, edges.take(i)) is Err,
    ensures
        edge_export_items(kbs, edges) == edge_export_items(kbs, edges.take(i)),
    decreases edges.len() - i,
{
    if i < edges.len() {
        assert(edges.drop_last().take(i) =~= edges.take(i));
        lemma_edge_export_err_sticks(kbs, edges.drop_last(), i);
    } else {
        assert(edges.take(i) =~= edges);
    }
}

/// Order by from key, then to key.
pub open spec fn edge_view_lt(a: ExportEdgeView, b: ExportEdgeView) -> bool {
    seq_lt(a.0, b.0) || (a.0 == b.0 && seq_lt(a.1, b.1))
}

pub open spec fn edge_view_le(a: ExportEdgeView, b: ExportEdgeView) -> bool {
    !edge_view_lt(b, a)
}

/// Sorted by `(from key, to key)`.
pub open spec fn sorted_by_ends(s: Seq<ExportEdgeView>) -> bool {
    forall|i: int, j: int| 0 <= i < j < s.len() ==> edge_view_le(#[trigger] s[i], #[trigger] s[j])
}

proof fn lemma_edge_view_order(a: ExportEdgeView, b: ExportEdgeView, c: ExportEdgeView)
    ensures
        !edge_view_lt(a, a),
        edge_view_lt(a, b) || edge_view_le(b, a),
        edge_view_lt(a, b) ==> edge_view_le(a, b),
        edge_view_lt(a, b) && edge_view_le(b, c) ==> edge_view_lt(a, c),
        edge_view_le(a, b) && edge_view_le(b, c) ==> edge_view_le(a, c),
{
    lemma_seq_lt_irreflexive(a.0);
    lemma_seq_lt_irreflexive(a.1);
    lemma_seq_lt_total(a.0, b.0);
    lemma_seq_lt_total(a.1, b.1);
    lemma_seq_lt_total(b.0, c.0);
    lemma_seq_lt_total(b.1, c.1);
    lemma_seq_lt_total(a.0, c.0);
    lemma_seq_lt_total(a.1, c.1);
    if seq_lt(a.0, b.0) && seq_lt(b.0, a.0) {
        lemma_seq_lt_transitive(a.0, b.0, a.0);
    }
    if seq_lt(a.1, b.1) && seq_lt(b.1, a.1) {
        lemma_seq_lt_transitive(a.1, b.1, a.1);
    }
    if seq_lt(a.0, b.0) && seq_lt(b.0, c.0) {
        lemma_seq_lt_transitive(a.0, b.0, c.0);
    }
    if seq_lt(a.1, b.1) && seq_lt(b.1, c.1) {
        lemma_seq_lt_transitive(a.1, b.1, c.1);
    }
    if seq_lt(c.0, b.0) && seq_lt(b.0, a.0) {
        lemma_seq_lt_transitive(c.0, b.0, a.0);
    }
    if seq_lt(c.1, b.1) && seq_lt(b.1, a.1) {
        lemma_seq_lt_transitive(c.1, b.1, a.1);
    }
}

/// The key of the entry of `kbs` with id `id` (the last if several).
pub fn key_for_id(kbs: &Vec<Kb>, id: &str) -> (res: Option<String>)
    ensures
        opt_view(res) == key_of_id(kbs@, id@),
{
    let mut i: usize = kbs.len();
    assert(kbs@.take(kbs@.len() as int) =~= kbs@);
    while i > 0
        invariant
            0 <= i <= kbs@.len(),
            key_of_id(kbs@, id@) == key_of_id(kbs@.take(i as int), id@),
        decreases i,
    {
        i = i - 1;
        assert(kbs@.take(i + 1).drop_last() =~= kbs@.take(i as int));
        assert(kbs@.take(i + 1).last() == kbs@[i as int]);
        if str_eq(kbs[i].id.as_str(), id) {
            return Some(kbs[i].key.clone());
        }
    }
    None
}

fn outside_set_error(edge_id: &str, end_id: &str) -> (res: Error)
    ensures
        res matches Error::GraphQueryError(m) && m@ == outside_set_message(edge_id@, end_id@),
{
    let mut m = owned("edge ");
    push_str(&mut m, edge_id);
    push_str(&mut m, " references an id (");
    push_str(&mut m, end_id);
    push_str(&mut m, ") outside the exported set");
    Error::GraphQueryError(m)
}

fn export_item_for(kbs: &Vec<Kb>, e: &KbEdge) -> (res: Result<ExportEdgeItem, Error>)
    ensures
        match edge_export_item(kbs@, *e) {
            Ok(v) => (res matches Ok(it) && export_edge_view(it) == v),
            Err(m) => (res matches Err(Error::GraphQueryError(r)) && r@ == m),
        },
{
    let from_key = match key_for_id(kbs, e.from_id.as_str()) {
        Some(k) => k,
        None => {
            return Err(outside_set_error(e.id.as_str(), e.from_id.as_str()));
        },
    };
    let to_key = match key_for_id(kbs, e.to_id.as_str()) {
        Some(k) => k,
        None => {
            return Err(outside_set_error(e.id.as_str(), e.to_id.as_str()));
        },
    };
    Ok(ExportEdgeItem { from_key, to_key, note: e.note.clone() })
}

fn edge_item_lt(a: &ExportEdgeItem, b: &ExportEdgeItem) -> (res: bool)
    ensures
        res == edge_view_lt(export_edge_view(*a), export_edge_view(*b)),
{
    str_lt(a.from_key.as_str(), b.from_key.as_str()) || (str_eq(
        a.from_key.as_str(),
        b.from_key.as_str(),
    ) && str_lt(a.to_key.as_str(), b.to_key.as_str()))
}

fn clone_export_edge(e: &ExportEdgeItem) -> (res: ExportEdgeItem)
    ensures
        export_edge_view(res) == export_edge_view(*e),
{
    ExportEdgeItem { from_key: e.from_key.clone(), to_key: e.to_key.clone(), note: e.note.clone() }
}

/// Inserts `x` after every item not greater than it, keeping `out` sorted.
fn insert_sorted(out: &mut Vec<ExportEdgeItem>, x: ExportEdgeItem)
    requires
        sorted_by_ends(export_edge_views(old(out)@)),
    ensures
        sorted_by_ends(export_edge_views(final(out)@)),
        export_edge_views(final(out)@).to_multiset() == export_edge_views(
            old(out)@,
        ).to_multiset().insert(export_edge_view(x)),
{
    let ghost s = export_edge_views(out@);
    let ghost xv = export_edge_view(x);
    let mut p: usize = 0;
    while p < out.len() && !edge_item_lt(&x, &out[p])
        invariant
            0 <= p <= out@.len(),
            s == export_edge_views(out@),
            xv == export_edge_view(x),
            sorted_by_ends(s),
            forall|k: int| 0 <= k < p ==> edge_view_le(#[trigger] s[k], xv),
        decreases out@.len() - p,
    {
        assert(s[p as int] == export_edge_view(out@[p as int]));
        proof {
            lemma_edge_view_order(xv, s[p as int], xv);
        }
        p = p + 1;
    }
    proof {
        if p < out@.len() {
            assert(s[p as int] == export_edge_view(out@[p as int]));
            assert forall|k: int| p <= k < s.len() implies edge_view_lt(xv, #[trigger] s[k]) by {
                if k > p {
                    assert(edge_view_le(s[p as int], s[k]));
                }
                lemma_edge_view_order(xv, s[p as int], s[k]);
            }
        }
    }
    out.insert(p, x);
    proof {
        let t = export_edge_views(out@);
        assert(t =~= s.insert(p as int, xv));
        assert forall|i: int, j: int| 0 <= i < j < t.len() implies edge_view_le(
            #[trigger] t[i],
            #[trigger] t[j],
        ) by {
            let a = if i < p { s[i] } else if i == p { xv } else { s[i - 1] };
            let b = if j < p { s[j] } else if j == p { xv } else { s[j - 1] };
            assert(t[i] == a);
            assert(t[j] == b);
            if j < p {
                assert(edge_view_le(s[i], s[j]));
            } else if j == p {
                assert(edge_view_le(s[i], xv));
            } else if i == p {
                assert(edge_view_lt(xv, s[j - 1]));
                lemma_edge_view_order(xv, s[j - 1], xv);
                assert(edge_view_le(xv, s[j - 1]));
            } else if i < p {
                assert(edge_view_le(s[i], xv));
                assert(edge_view_lt(xv, s[j - 1]));
                lemma_edge_view_order(xv, s[j - 1], s[i]);
                assert(edge_view_le(xv, s[j - 1]));
                lemma_edge_view_order(s[i], xv, s[j - 1]);
            } else {
                assert(edge_view_le(s[i - 1], s[j - 1]));
            }
        }
        vstd::seq_lib::to_multiset_insert(s, p as int, xv);
    }
}

/// The `graph` section for the entries `kbs` and the edges among them: each
/// edge with both ends mapped to keys, sorted by `(from key, to key)`.
/// An edge with an end outside `kbs` is an error.
pub fn export_items_for_edges(kbs: &Vec<Kb>, edges: &Vec<KbEdge>) -> (res: Result<
    Vec<ExportEdgeItem>,
    Error,
>)
    ensures
        match edge_export_items(kbs@, edges@) {
            Ok(items) => (res matches Ok(out) && sorted_by_ends(export_edge_views(out@))
                && export_edge_views(out@).to_multiset() == items.to_multiset()),
            Err(m) => (res matches Err(Error::GraphQueryError(r)) && r@ == m),
        },
{
    let mut mapped: Vec<ExportEdgeItem> = Vec::new();
    let mut i: usize = 0;
    assert(edges@.take(0) =~= seq![]);
    assert(export_edge_views(mapped@) =~= seq![]);
    while i < edges.len()
        invariant
            0 <= i <= edges@.len(),
            edge_export_items(kbs@, edges@.take(i as int)) == Ok::<
                Seq<ExportEdgeView>,
                Seq<char>,
            >(export_edge_views(mapped@)),
        decreases edges@.len() - i,
    {
        assert(edges@.take(i + 1).drop_last() =~= edges@.take(i as int));
        assert(edges@.take(i + 1).last() == edges@[i as int]);
        match export_item_for(kbs, &edges[i]) {
            Err(e) => {
                proof {
                    lemma_edge_export_err_sticks(kbs@, edges@, i + 1);
                }
                return Err(e);
            },
            Ok(it) => {
                let ghost before = mapped@;
                mapped.push(it);
                assert(export_edge_views(mapped@) =~= export_edge_views(before).push(
                    export_edge_view(it),
                ));
            },
        }
        i = i + 1;
    }
    assert(edges@.take(edges@.len() as int) =~= edges@);
    let ghost items = export_edge_views(mapped@);
    let mut out: Vec<ExportEdgeItem> = Vec::new();
    let mut k: usize = 0;
    assert(items.take(0) =~= seq![]);
    assert(export_edge_views(out@) =~= seq![]);
    while k < mapped.len()
        invariant
            0 <= k <= mapped@.len(),
            items == export_edge_views(mapped@),
            sorted_by_ends(export_edge_views(out@)),
            export_edge_views(out@).to_multiset() == items.take(k as int).to_multiset(),
        decreases mapped@.len() - k,
    {
        let x = clone_export_edge(&mapped[k]);
        insert_sorted(&mut out, x);
        proof {
            assert(items.take(k + 1) =~= items.take(k as int).push(items[k as int]));
            vstd::seq_lib::to_multiset_build(items.take(k as int), items[k as int]);
        }
        k = k + 1;
    }
    assert(items.take(mapped@.len() as int) =~= items);
    Ok(out)
}

// ---------------------------------------------------------------------------
// The graph view
// ---------------------------------------------------------------------------

pub open spec fn node_ids(nodes: Seq<GraphExportNode>) -> Seq<Seq<char>> {
    nodes.map_values(|n: GraphExportNode| n.id@)
}

pub open spec fn graph_edge_ids(edges: Seq<GraphExportEdge>) -> Seq<Seq<char>> {
    edges.map_values(|e: GraphExportEdge| e.id@)
}

/// Both ends of `e` are among `ids`.
pub open spec fn ends_within(e: GraphExportEdge, ids: Seq<Seq<char>>) -> bool {
    ids.contains(e.from_id@) && ids.contains(e.to_id@)
}

/// Every edge has both ends among `ids`.
pub open spec fn edges_within(edges: Seq<GraphExportEdge>, ids: Seq<Seq<char>>) -> bool {
    forall|i: int| 0 <= i < edges.len() ==> #[trigger] ends_within(edges[i], ids)
}

/// The state of the walk: the ids seen so far (the root first, none twice)
/// and the edges seen so far (none twice, both ends seen).
pub open spec fn walk_state(root: Seq<char>, seen: Seq<Seq<char>>, edges: Seq<GraphExportEdge>) -> bool {
    &&& seen.len() >= 1
    &&& seen[0] == root
    &&& seen.no_duplicates()
    &&& graph_edge_ids(edges).no_duplicates()
    &&& edges_within(edges, seen)
}

/// Every id of `ids` is among `seen`.
pub open spec fn all_seen(ids: Seq<Seq<char>>, seen: Seq<Seq<char>>) -> bool {
    forall|k: int| 0 <= k < ids.len() ==> seen.contains(#[trigger] ids[k])
}

/// Whether some edge of `edges` has id `id`.
fn has_edge_id(edges: &Vec<GraphExportEdge>, id: &str) -> (res: bool)
    ensures
        res == graph_edge_ids(edges@).contains(id@),
{
    let mut i: usize = 0;
    while i < edges.len()
        invariant
            0 <= i <= edges@.len(),
            forall|j: int| 0 <= j < i ==> edges@[j].id@ != id@,
        decreases edges@.len() - i,
    {
        if str_eq(edges[i].id.as_str(), id) {
            assert(graph_edge_ids(edges@)[i as int] == id@);
            return true;
        }
        i = i + 1;
    }
    assert forall|j: int| 0 <= j < graph_edge_ids(edges@).len() implies graph_edge_ids(
        edges@,
    )[j] != id@ by {
        assert(graph_edge_ids(edges@)[j] == edges@[j].id@);
    }
    false
}

/// The ids seen after meeting `id`: `id` is added when new.
pub open spec fn seen_after(seen: Seq<Seq<char>>, id: Seq<char>) -> Seq<Seq<char>> {
    if seen.contains(id) {
        seen
    } else {
        seen.push(id)
    }
}

/// The ids queued for the next level after meeting `id`: `id` is queued
/// when it was not seen before.
pub open spec fn queued_after(next: Seq<Seq<char>>, seen: Seq<Seq<char>>, id: Seq<char>) -> Seq<
    Seq<char>,
> {
    if seen.contains(id) {
        next
    } else {
        next.push(id)
    }
}

/// The edges recorded after meeting `e`: `e` is added when no recorded
/// edge has its id.
pub open spec fn edges_after(edges: Seq<GraphExportEdge>, e: GraphExportEdge) -> Seq<
    GraphExportEdge,
> {
    if graph_edge_ids(edges).contains(e.id@) {
        edges
    } else {
        edges.push(e)
    }
}

// ---------------------------------------------------------------------------
// The breadth-first walk of the graph view
// ---------------------------------------------------------------------------

/// The fields of an edge of the graph view: id, from, to, note, creation
/// time.
pub type EdgeView = (Seq<char>, Seq<char>, Seq<char>, Seq<char>, Seq<char>);

pub open spec fn edge_view(e: GraphExportEdge) -> EdgeView {
    (e.id@, e.from_id@, e.to_id@, e.note@, e.created_on@)
}

pub open spec fn edge_views(es: Seq<GraphExportEdge>) -> Seq<EdgeView> {
    es.map_values(|e: GraphExportEdge| edge_view(e))
}

pub open spec fn view_ids(es: Seq<EdgeView>) -> Seq<Seq<char>> {
    es.map_values(|e: EdgeView| e.0)
}

/// An edge leaving `kb`, as the walk records it.
pub open spec fn out_view(kb: Seq<char>, o: OutgoingEdge) -> EdgeView {
    (o.edge_id@, kb, o.to.id@, o.note@, o.created_on@)
}

/// An edge arriving at `kb`, as the walk records it.
pub open spec fn in_view(kb: Seq<char>, i: IncomingEdge) -> EdgeView {
    (i.edge_id@, i.from.id@, kb, i.note@, i.created_on@)
}

/// The edges the walk meets at `kb` given its one-hop edges `r`: the
/// outgoing ones, then the incoming ones.
pub open spec fn found_edges(kb: Seq<char>, r: RelatedEdges) -> Seq<EdgeView> {
    r.outgoing@.map_values(|o: OutgoingEdge| out_view(kb, o)) + r.incoming@.map_values(
        |i: IncomingEdge| in_view(kb, i),
    )
}

/// What a level of the walk has gathered: the ids seen, the ids queued for
/// the next level, the edges recorded.
pub type WalkAcc = (Seq<Seq<char>>, Seq<Seq<char>>, Seq<EdgeView>);

/// Meeting one edge: both ends are seen (and queued when new), and the edge
/// is recorded unless one with its id is.
pub open spec fn meet_edge(a: WalkAcc, e: EdgeView) -> WalkAcc {
    (
        seen_after(seen_after(a.0, e.1), e.2),
        queued_after(queued_after(a.1, a.0, e.1), seen_after(a.0, e.1), e.2),
        if view_ids(a.2).contains(e.0) {
            a.2
        } else {
            a.2.push(e)
        },
    )
}

pub open spec fn meet_edges(a: WalkAcc, es: Seq<EdgeView>) -> WalkAcc
    decreases es.len(),
{
    if es.len() == 0 {
        a
    } else {
        meet_edge(meet_edges(a, es.drop_last()), es.last())
    }
}

/// One level: the edges found at each id of `frontier` in turn, `rel`
/// holding the one-hop edges of each.
pub open spec fn meet_level(a: WalkAcc, frontier: Seq<Seq<char>>, rel: Seq<RelatedEdges>) -> WalkAcc
    decreases rel.len(),
{
    if rel.len() == 0 || frontier.len() == 0 {
        a
    } else {
        meet_edges(
            meet_level(a, frontier.drop_last(), rel.drop_last()),
            found_edges(frontier.last(), rel.last()),
        )
    }
}

/// The ids seen, the frontier and the edges recorded after the levels
/// `levels` of a walk from `root`, each level holding the one-hop edges of
/// each id of its frontier.
pub open spec fn walk_after(root: Seq<char>, levels: Seq<Seq<RelatedEdges>>) -> WalkAcc
    decreases levels.len(),
{
    if levels.len() == 0 {
        (seq![root], seq![root], seq![])
    } else {
        let w = walk_after(root, levels.drop_last());
        let a = meet_level((w.0, seq![], w.2), w.1, levels.last());
        (a.0, a.1, a.2)
    }
}

/// One-hop edges as asked for in direction `d`: none against it.
pub open spec fn answers_direction(r: RelatedEdges, d: EdgeDirection) -> bool {
    &&& (d == EdgeDirection::Out ==> r.incoming@.len() == 0)
    &&& (d == EdgeDirection::In ==> r.outgoing@.len() == 0)
}

/// Each level answers every id of its frontier, in direction `d`.
pub open spec fn walk_answers(root: Seq<char>, levels: Seq<Seq<RelatedEdges>>, d: EdgeDirection) -> bool
    decreases levels.len(),
{
    if levels.len() == 0 {
        true
    } else {
        &&& walk_answers(root, levels.drop_last(), d)
        &&& levels.last().len() == walk_after(root, levels.drop_last()).1.len()
        &&& forall|j: int| 0 <= j < levels.last().len() ==> answers_direction(
            #[trigger] levels.last()[j],
            d,
        )
    }
}

/// `levels` are the answers of a breadth-first walk from `root` in
/// direction `d`, `depth` levels deep or until no new id is met.
pub open spec fn is_walk(
    root: Seq<char>,
    levels: Seq<Seq<RelatedEdges>>,
    d: EdgeDirection,
    depth: int,
) -> bool {
    &&& walk_answers(root, levels, d)
    &&& levels.len() <= (if depth > 0 {
        depth
    } else {
        0
    })
    &&& (levels.len() < depth ==> walk_after(root, levels).1.len() == 0)
}

proof fn lemma_meet_step(a: WalkAcc, es: Seq<EdgeView>, k: int)
    requires
        0 <= k < es.len(),
    ensures
        meet_edges(a, es.take(k + 1)) == meet_edge(meet_edges(a, es.take(k)), es[k]),
{
    assert(es.take(k + 1).drop_last() =~= es.take(k));
    assert(es.take(k + 1).last() == es[k]);
}

proof fn lemma_absorb_meets(
    s0: Seq<Seq<char>>,
    n0: Seq<Seq<char>>,
    e0: Seq<GraphExportEdge>,
    e: GraphExportEdge,
    s1: Seq<Seq<char>>,
    n1: Seq<Seq<char>>,
    e1: Seq<GraphExportEdge>,
)
    requires
        s1 == seen_after(seen_after(s0, e.from_id@), e.to_id@),
        n1 == queued_after(queued_after(n0, s0, e.from_id@), seen_after(s0, e.from_id@), e.to_id@),
        e1 == edges_after(e0, e),
    ensures
        (s1, n1, edge_views(e1)) == meet_edge((s0, n0, edge_views(e0)), edge_view(e)),
{
    assert(view_ids(edge_views(e0)) =~= graph_edge_ids(e0));
    if !graph_edge_ids(e0).contains(e.id@) {
        assert(edge_views(e0.push(e)) =~= edge_views(e0).push(edge_view(e)));
    }
}

/// Marks `id` as seen, queueing it for the next level if it is new.
fn see(seen: &mut Vec<String>, next: &mut Vec<String>, id: &String)
    requires
        views(old(seen)@).len() >= 1,
        views(old(seen)@).no_duplicates(),
        all_seen(views(old(next)@), views(old(seen)@)),
    ensures
        views(final(seen)@).no_duplicates(),
        views(final(seen)@).contains(id@),
        views(final(seen)@)[0] == views(old(seen)@)[0],
        forall|x: Seq<char>| views(old(seen)@).contains(x) ==> views(final(seen)@).contains(x),
        all_seen(views(final(next)@), views(final(seen)@)),
        views(final(seen)@) == seen_after(views(old(seen)@), id@),
        views(final(next)@) == queued_after(views(old(next)@), views(old(seen)@), id@),
{
    broadcast use vstd::seq_lib::lemma_seq_contains_after_push;

    if !crate::domain::kb::contains_str(seen, id.as_str()) {
        let ghost old_seen = views(seen@);
        let ghost old_next = views(next@);
        seen.push(id.clone());
        next.push(id.clone());
        assert(views(seen@) =~= old_seen.push(id@));
        assert(views(next@) =~= old_next.push(id@));
        assert forall|k: int| 0 <= k < views(next@).len() implies views(seen@).contains(
            #[trigger] views(next@)[k],
        ) by {
            if k < old_next.len() {
                assert(old_seen.contains(old_next[k]));
            } else {
                assert(views(seen@)[old_seen.len() as int] == id@);
            }
        }
    }
}

/// Records an edge seen during the walk (once per edge id), marking both
/// of its ends as seen.
fn absorb(
    seen: &mut Vec<String>,
    next: &mut Vec<String>,
    edges: &mut Vec<GraphExportEdge>,
    e: GraphExportEdge,
    Ghost(root): Ghost<Seq<char>>,
)
    requires
        walk_state(root, views(old(seen)@), old(edges)@),
        all_seen(views(old(next)@), views(old(seen)@)),
    ensures
        walk_state(root, views(final(seen)@), final(edges)@),
        all_seen(views(final(next)@), views(final(seen)@)),
        forall|x: Seq<char>| views(old(seen)@).contains(x) ==> views(final(seen)@).contains(x),
        views(final(seen)@) == seen_after(seen_after(views(old(seen)@), e.from_id@), e.to_id@),
        views(final(next)@) == queued_after(
            queued_after(views(old(next)@), views(old(seen)@), e.from_id@),
            seen_after(views(old(seen)@), e.from_id@),
            e.to_id@,
        ),
        final(edges)@ == edges_after(old(edges)@, e),
{
    broadcast use vstd::seq_lib::lemma_seq_contains_after_push;

    let ghost s0 = views(seen@);
    see(seen, next, &e.from_id);
    see(seen, next, &e.to_id);
    let ghost s2 = views(seen@);
    assert forall|i: int| 0 <= i < edges@.len() implies #[trigger] ends_within(edges@[i], s2) by {
        assert(ends_within(edges@[i], s0));
    }
    if !has_edge_id(edges, e.id.as_str()) {
        let ghost old_edges = edges@;
        edges.push(e);
        assert(graph_edge_ids(edges@) =~= graph_edge_ids(old_edges).push(e.id@));
        assert forall|i: int| 0 <= i < edges@.len() implies #[trigger] ends_within(
            edges@[i],
            s2,
        ) by {
            if i < old_edges.len() {
                assert(edges@[i] == old_edges[i]);
            }
        }
    }
}

/// Resolves key-or-id input to entries and manages the edges between them.
pub struct GraphService<S: KbStore, G: KbGraph> {
    store: S,
    graph: G,
}

impl<S: KbStore, G: KbGraph> GraphService<S, G> {
    pub fn new(store: S, graph: G) -> (res: Self)
        ensures
            res.store() == store,
            res.graph() == graph,
    {
        GraphService { store, graph }
    }

    /// The entry store the service resolves keys and ids with.
    pub closed spec fn store(self) -> S {
        self.store
    }

    /// The relationship store the service reads and writes edges with.
    pub closed spec fn graph(self) -> G {
        self.graph
    }

    /// The entry with key `key_or_id`, else the one with that id;
    /// `KBNotFound` if neither exists.
    fn resolve(&self, key_or_id: &str) -> (res: Result<Kb, Error>)
        ensures
            res matches Ok(kb) ==> (kb.key@ == key_or_id@ || kb.id@ == key_or_id@),
    {
        match self.store.get_kb_by_key(key_or_id) {
            Err(e) => {
                return Err(e);
            },
            Ok(Some(kb)) => {
                return resolved_entry(Some(kb), None);
            },
            Ok(None) => {},
        }
        match self.store.get_kb_by_id(key_or_id) {
            Err(e) => Err(e),
            Ok(found) => resolved_entry(None, found),
        }
    }

    /// Resolves both ends, refuses a self-loop and persists a new edge.
    pub fn link(&self, params: LinkParams) -> (res: Result<KbEdge, Error>)
        ensures
            res matches Ok(e) ==> e.from_id@ != e.to_id@ && e.note@ == params.note@
                && e.id@.len() == 36,
            res matches Ok(e) ==> self.graph().edge_added(e),
            res matches Ok(e) ==> exists|from: Kb, to: Kb|
                {
                    &&& (from.key@ == params.from_key_or_id@ || from.id@
                        == params.from_key_or_id@)
                    &&& (to.key@ == params.to_key_or_id@ || to.id@ == params.to_key_or_id@)
                    &&& #[trigger] from.id@ == e.from_id@
                    &&& #[trigger] to.id@ == e.to_id@
                },
    {
        let from = self.resolve(params.from_key_or_id.as_str())?;
        let to = self.resolve(params.to_key_or_id.as_str())?;
        let new = new_edge_between(&from, &to, params.note)?;
        let edge = KbEdge::from(new);
        self.graph.add_edge(&edge)?;
        Ok(edge)
    }

    /// One edge import item: the new edge, or why it failed.
    fn import_one(&self, item: &ImportEdgeItem) -> (res: Result<KbEdge, String>)
        ensures
            res matches Ok(e) ==> e.from_id@ != e.to_id@ && e.note@ == item.note@
                && e.id@.len() == 36,
            res matches Err(r) ==> edge_failure_reason(edge_item_view(*item), r@),
    {
        let from = end_or_reason("from", item.from_key.as_str(), self.resolve(item.from_key.as_str()))?;
        let to = end_or_reason("to", item.to_key.as_str(), self.resolve(item.to_key.as_str()))?;
        let new = match new_edge_between(&from, &to, item.note.clone()) {
            Ok(n) => n,
            Err(e) => {
                return Err(e.message());
            },
        };
        let edge = KbEdge::from(new);
        let added = self.graph.add_edge(&edge);
        added_or_reason(edge, added)
    }

    /// Imports the edges of an import file's `graph` section. Every item
    /// either becomes an edge or is reported as failed with the reason: an
    /// end that does not resolve, a self-loop, a duplicate or any other
    /// store error. Items are independent and keep their order.
    pub fn import_edges(&self, items: Vec<ImportEdgeItem>) -> (res: ImportEdgeBatchResult)
        ensures
            res.saved@.len() + res.failed@.len() == items@.len(),
            exists|flags: Seq<bool>|
                {
                    &&& #[trigger] flags.len() == items@.len()
                    &&& failed_edge_views(res.failed@) == pick(
                        edge_item_views(items@),
                        flags,
                        false,
                    )
                    &&& edge_notes(res.saved@) == edge_item_notes(
                        pick(edge_item_views(items@), flags, true),
                    )
                },
            forall|j: int|
                0 <= j < res.saved@.len() ==> #[trigger] res.saved@[j].from_id@
                    != res.saved@[j].to_id@ && res.saved@[j].id@.len() == 36,
            forall|j: int|
                0 <= j < res.failed@.len() ==> edge_failure_reason(
                    edge_item_view(#[trigger] res.failed@[j].item),
                    res.failed@[j].reason@,
                ),
    {
        let ghost iv = edge_item_views(items@);
        let ghost mut flags: Seq<bool> = seq![];
        let mut saved: Vec<KbEdge> = Vec::new();
        let mut failed: Vec<FailedImportEdgeItem> = Vec::new();
        let mut i: usize = 0;
        proof {
            assert(iv.take(0) =~= seq![]);
            assert(failed_edge_views(failed@) =~= seq![]);
            assert(edge_notes(saved@) =~= seq![]);
            assert(edge_item_notes(pick(iv.take(0), flags, true)) =~= seq![]);
        }
        while i < items.len()
            invariant
                0 <= i <= items@.len(),
                iv == edge_item_views(items@),
                flags.len() == i,
                saved@.len() + failed@.len() == i,
                failed_edge_views(failed@) == pick(iv.take(i as int), flags, false),
                edge_notes(saved@) == edge_item_notes(pick(iv.take(i as int), flags, true)),
                forall|j: int|
                    0 <= j < saved@.len() ==> #[trigger] saved@[j].from_id@ != saved@[j].to_id@
                        && saved@[j].id@.len() == 36,
                forall|j: int|
                    0 <= j < failed@.len() ==> edge_failure_reason(
                        edge_item_view(#[trigger] failed@[j].item),
                        failed@[j].reason@,
                    ),
            decreases items@.len() - i,
        {
            let item = clone_edge_item(&items[i]);
            let ghost x = iv[i as int];
            assert(x == edge_item_view(items@[i as int]));
            assert(iv.take(i + 1) =~= iv.take(i as int).push(x));
            let ghost old_failed = failed@;
            let ghost old_saved = saved@;
            match self.import_one(&item) {
                Ok(edge) => {
                    saved.push(edge);
                    proof {
                        lemma_pick_push(iv.take(i as int), flags, true, x, true);
                        lemma_pick_push(iv.take(i as int), flags, false, x, true);
                        assert(edge_notes(saved@) =~= edge_notes(old_saved).push(edge.note@));
                        assert(edge_item_notes(pick(iv.take(i as int), flags, true).push(x))
                            =~= edge_item_notes(pick(iv.take(i as int), flags, true)).push(x.2));
                        flags = flags.push(true);
                        assert forall|j: int| 0 <= j < saved@.len() implies #[trigger] saved@[j].from_id@
                            != saved@[j].to_id@ && saved@[j].id@.len() == 36 by {
                            if j < old_saved.len() {
                                assert(saved@[j] == old_saved[j]);
                                assert(old_saved[j].from_id@ != old_saved[j].to_id@);
                                assert(old_saved[j].id@.len() == 36);
                            } else {
                                assert(saved@[j] == edge);
                                assert(edge.from_id@ != edge.to_id@);
                            }
                        }
                    }
                },
                Err(r) => {
                    failed.push(FailedImportEdgeItem { item, reason: r });
                    proof {
                        lemma_pick_push(iv.take(i as int), flags, true, x, false);
                        lemma_pick_push(iv.take(i as int), flags, false, x, false);
                        assert(failed_edge_views(failed@) =~= failed_edge_views(old_failed).push(
                            x,
                        ));
                        flags = flags.push(false);
                    }
                },
            }
            i = i + 1;
        }
        proof {
            assert(iv.take(items@.len() as int) =~= iv);
        }
        ImportEdgeBatchResult { saved, failed }
    }

    /// Resolves both ends and removes the edge in exactly that direction;
    /// `EdgeNotFound` if there was none.
    pub fn unlink(&self, from: &str, to: &str) -> (res: Result<(), Error>)
        ensures
            res is Ok ==> exists|f: Kb, t: Kb|
                {
                    &&& (f.key@ == from@ || f.id@ == from@)
                    &&& (t.key@ == to@ || t.id@ == to@)
                    &&& #[trigger] self.graph().edge_removed(f.id@, t.id@, true)
                },
    {
        let from_kb = self.resolve(from)?;
        let to_kb = self.resolve(to)?;
        let ends = edge_between_ids(&from_kb, &to_kb);
        let removed = self.graph.remove_edge(&ends)?;
        let out = removal_outcome(removed);
        assert(out is Ok ==> self.graph().edge_removed(from_kb.id@, to_kb.id@, true));
        out
    }

    /// The resolved entry with its one-hop edges; the direction not asked
    /// for is empty.
    pub fn related(&self, key_or_id: &str, direction: EdgeDirection) -> (res: Result<
        RelatedResult,
        Error,
    >)
        ensures
            res matches Ok(r) ==> (r.node.key@ == key_or_id@ || r.node.id@ == key_or_id@),
            res matches Ok(r) ==> (direction == EdgeDirection::Out ==> r.incoming@.len() == 0),
            res matches Ok(r) ==> (direction == EdgeDirection::In ==> r.outgoing@.len() == 0),
            res matches Ok(r) ==> self.graph().related_of(
                r.node.id@,
                direction,
                r.outgoing@,
                r.incoming@,
            ),
    {
        let node = self.resolve(key_or_id)?;
        let edges = self.graph.get_related(&RelatedQuery { kb_id: node.id.clone(), direction })?;
        Ok(RelatedResult { node: GraphNode::from(&node), outgoing: edges.outgoing, incoming: edges.incoming })
    }

    /// Transitive walk from the resolved entry, in one direction only:
    /// `Both` is refused before anything is looked up.
    pub fn tree(&self, params: TreeWalkParams) -> (res: Result<TreeResult, Error>)
        ensures
            params.direction == EdgeDirection::Both ==> (res matches Err(
                Error::GraphQueryError(m),
            ) && m@ == "direction must be 'out' or 'in' for tree traversal"@),
            res matches Ok(t) ==> (t.root.key@ == params.key_or_id@ || t.root.id@
                == params.key_or_id@),
            res matches Ok(t) ==> t.direction@ == direction_name(params.direction),
            res matches Ok(t) ==> self.graph().walked(
                (TreeQuery { kb_id: t.root.id, direction: params.direction, depth: params.depth }),
                t.nodes@,
            ),
    {
        if params.direction == EdgeDirection::Both {
            return Err(
                Error::GraphQueryError(owned("direction must be 'out' or 'in' for tree traversal")),
            );
        }
        let root = self.resolve(params.key_or_id.as_str())?;
        let query = TreeQuery {
            kb_id: root.id.clone(),
            direction: params.direction,
            depth: params.depth,
        };
        let nodes = self.graph.get_tree(&query)?;
        let result = TreeResult {
            root: TreeRoot { id: root.id, key: root.key },
            direction: owned(params.direction.as_str()),
            nodes,
        };
        assert(query == (TreeQuery {
            kb_id: result.root.id,
            direction: params.direction,
            depth: params.depth,
        }));
        Ok(result)
    }

    /// The `graph` section of an export: the edges whose two ends are both
    /// among the entries matching `filter`, by key, sorted by
    /// `(from key, to key)`. No entries, no edges.
    pub fn export_edges(&self, filter: &KbFilter) -> (res: Result<Vec<ExportEdgeItem>, Error>)
        ensures
            res matches Ok(out) ==> sorted_by_ends(export_edge_views(out@)),
            res matches Ok(out) ==> exists|kbs: Seq<Kb>|
                {
                    &&& #[trigger] self.store().listed_full(*filter, kbs)
                    &&& kbs.len() == 0 ==> out@.len() == 0
                    &&& kbs.len() > 0 ==> exists|edges: Seq<KbEdge>|
                        {
                            &&& #[trigger] self.graph().edges_among(ids_of(kbs), edges)
                            &&& edge_export_items(kbs, edges) matches Ok(items)
                            &&& export_edge_views(out@).to_multiset() == items.to_multiset()
                        }
                },
    {
        let kbs = self.store.get_kbs_full(filter)?;
        assert(self.store().listed_full(*filter, kbs@));
        if kbs.len() == 0 {
            return Ok(Vec::new());
        }
        let ids = entry_ids(&kbs);
        assert(views(ids@) =~= ids_of(kbs@));
        let edges = self.graph.get_edges_among_ids(ids.as_slice())?;
        let out = export_items_for_edges(&kbs, &edges);
        assert(self.graph().edges_among(ids_of(kbs@), edges@));
        assert(out is Ok ==> edge_export_items(kbs@, edges@) is Ok);
        out
    }

    /// The graph view around the resolved entry: a breadth-first walk in
    /// `params.direction` (`Both` allowed), at most `params.depth` levels
    /// deep, with every entry reached hydrated in full. Each entry appears
    /// once, the root first; each edge appears once, with both ends among
    /// the entries. A depth of zero or less gives the root alone.
    #[verifier::spinoff_prover]
    pub fn export_graph(&self, params: GraphViewParams) -> (res: Result<GraphExport, Error>)
        ensures
            res matches Ok(g) ==> {
                &&& (g.root_key@ == params.key_or_id@ || g.root_id@ == params.key_or_id@)
                &&& g.nodes@.len() >= 1
                &&& g.nodes@[0].id@ == g.root_id@
                &&& node_ids(g.nodes@).no_duplicates()
                &&& graph_edge_ids(g.edges@).no_duplicates()
                &&& edges_within(g.edges@, node_ids(g.nodes@))
                &&& (params.depth <= 0 ==> g.nodes@.len() == 1 && g.edges@.len() == 0)
                &&& exists|levels: Seq<Seq<RelatedEdges>>|
                    {
                        &&& #[trigger] is_walk(g.root_id@, levels, params.direction, params.depth as int)
                        &&& node_ids(g.nodes@) == walk_after(g.root_id@, levels).0
                        &&& edge_views(g.edges@) == walk_after(g.root_id@, levels).2
                    }
            },
    {
        let root = self.resolve(params.key_or_id.as_str())?;
        let ghost r = root.id@;
        let mut seen: Vec<String> = Vec::new();
        seen.push(root.id.clone());
        let mut edges: Vec<GraphExportEdge> = Vec::new();
        let mut frontier: Vec<String> = Vec::new();
        frontier.push(root.id.clone());
        proof {
            assert(views(seen@) =~= seq![r]);
            assert(graph_edge_ids(edges@) =~= seq![]);
            assert(views(seen@)[0] == r);
            assert(views(frontier@) =~= seq![r]);
            assert(views(seen@).contains(views(frontier@)[0]));
        }
        let mut level: i64 = 0;
        let ghost mut levels: Seq<Seq<RelatedEdges>> = seq![];
        proof {
            assert(edge_views(edges@) =~= seq![]);
            assert(walk_after(r, levels) == (views(seen@), views(frontier@), edge_views(edges@)));
        }
        while level < params.depth && frontier.len() > 0
            invariant
                walk_state(r, views(seen@), edges@),
                all_seen(views(frontier@), views(seen@)),
                params.depth <= 0 ==> seen@.len() == 1 && edges@.len() == 0,
                0 <= level,
                level <= params.depth || level == 0,
                levels.len() == level,
                walk_answers(r, levels, params.direction),
                walk_after(r, levels) == (views(seen@), views(frontier@), edge_views(edges@)),
            decreases params.depth - level,
        {
            let mut next: Vec<String> = Vec::new();
            assert(views(next@) =~= seq![]);
            let ghost s0 = views(seen@);
            let ghost e0 = edge_views(edges@);
            let ghost fr = views(frontier@);
            let ghost mut rels: Seq<RelatedEdges> = seq![];
            let mut f: usize = 0;
            proof {
                assert(fr.take(0) =~= seq![]);
            }
            while f < frontier.len()
                invariant
                    0 <= f <= frontier@.len(),
                    fr == views(frontier@),
                    walk_state(r, views(seen@), edges@),
                    all_seen(views(frontier@), views(seen@)),
                    all_seen(views(next@), views(seen@)),
                    rels.len() == f,
                    forall|j: int| 0 <= j < f ==> answers_direction(#[trigger] rels[j], params.direction),
                    (views(seen@), views(next@), edge_views(edges@)) == meet_level(
                        (s0, seq![], e0),
                        fr.take(f as int),
                        rels,
                    ),
                decreases frontier@.len() - f,
            {
                let kb_id = frontier[f].clone();
                let related = self.graph.get_related(
                    &RelatedQuery { kb_id: kb_id.clone(), direction: params.direction },
                )?;
                let ghost acc = (views(seen@), views(next@), edge_views(edges@));
                let ghost es = found_edges(kb_id@, related);
                let ghost nout = related.outgoing@.len();
                let mut o: usize = 0;
                proof {
                    assert(es.take(0) =~= seq![]);
                }
                while o < related.outgoing.len()
                    invariant
                        0 <= o <= related.outgoing@.len(),
                        nout == related.outgoing@.len(),
                        es == found_edges(kb_id@, related),
                        walk_state(r, views(seen@), edges@),
                        all_seen(views(frontier@), views(seen@)),
                        all_seen(views(next@), views(seen@)),
                        (views(seen@), views(next@), edge_views(edges@)) == meet_edges(
                            acc,
                            es.take(o as int),
                        ),
                    decreases related.outgoing@.len() - o,
                {
                    let out = &related.outgoing[o];
                    let e = GraphExportEdge {
                        id: out.edge_id.clone(),
                        from_id: kb_id.clone(),
                        to_id: out.to.id.clone(),
                        note: out.note.clone(),
                        created_on: out.created_on.clone(),
                    };
                    let ghost ps = views(seen@);
                    let ghost pn = views(next@);
                    let ghost pe = edges@;
                    absorb(&mut seen, &mut next, &mut edges, e, Ghost(r));
                    proof {
                        lemma_absorb_meets(ps, pn, pe, e, views(seen@), views(next@), edges@);
                        assert(es[o as int] == out_view(kb_id@, related.outgoing@[o as int]));
                        assert(edge_view(e) == es[o as int]);
                        lemma_meet_step(acc, es, o as int);
                    }
                    o = o + 1;
                }
                let mut n: usize = 0;
                while n < related.incoming.len()
                    invariant
                        0 <= n <= related.incoming@.len(),
                        nout == related.outgoing@.len(),
                        es == found_edges(kb_id@, related),
                        walk_state(r, views(seen@), edges@),
                        all_seen(views(frontier@), views(seen@)),
                        all_seen(views(next@), views(seen@)),
                        (views(seen@), views(next@), edge_views(edges@)) == meet_edges(
                            acc,
                            es.take(nout + n),
                        ),
                    decreases related.incoming@.len() - n,
                {
                    let inc = &related.incoming[n];
                    let e = GraphExportEdge {
                        id: inc.edge_id.clone(),
                        from_id: inc.from.id.clone(),
                        to_id: kb_id.clone(),
                        note: inc.note.clone(),
                        created_on: inc.created_on.clone(),
                    };
                    let ghost ps = views(seen@);
                    let ghost pn = views(next@);
                    let ghost pe = edges@;
                    absorb(&mut seen, &mut next, &mut edges, e, Ghost(r));
                    proof {
                        lemma_absorb_meets(ps, pn, pe, e, views(seen@), views(next@), edges@);
                        assert(es[nout + n] == in_view(kb_id@, related.incoming@[n as int]));
                        assert(edge_view(e) == es[nout + n]);
                        lemma_meet_step(acc, es, nout + n);
                    }
                    n = n + 1;
                }
                proof {
                    assert(es.take(es.len() as int) =~= es);
                    let rels2 = rels.push(related);
                    let ft = fr.take(f + 1);
                    assert(ft.drop_last() =~= fr.take(f as int));
                    assert(ft.last() == kb_id@);
                    assert(rels2.drop_last() =~= rels);
                    assert(rels2.last() == related);
                    assert(meet_level((s0, seq![], e0), ft, rels2) == meet_edges(
                        meet_level((s0, seq![], e0), fr.take(f as int), rels),
                        found_edges(kb_id@, related),
                    ));
                    assert forall|j: int| 0 <= j < f + 1 implies answers_direction(
                        #[trigger] rels2[j],
                        params.direction,
                    ) by {
                        if j < f {
                            assert(rels2[j] == rels[j]);
                        }
                    }
                    rels = rels2;
                }
                f = f + 1;
            }
            proof {
                assert(fr.take(fr.len() as int) =~= fr);
                let l2 = levels.push(rels);
                assert(l2.drop_last() =~= levels);
                assert(l2.last() == rels);
                levels = l2;
            }
            frontier = next;
            level = level + 1;
        }
        proof {
            assert(is_walk(r, levels, params.direction, params.depth as int));
        }
        let mut nodes: Vec<GraphExportNode> = Vec::new();
        let mut i: usize = 0;
        while i < seen.len()
            invariant
                0 <= i <= seen@.len(),
                nodes@.len() == i,
                forall|j: int| 0 <= j < i ==> #[trigger] nodes@[j].id@ == seen@[j]@,
            decreases seen@.len() - i,
        {
            let kb = match self.store.get_kb_by_id(seen[i].as_str())? {
                Some(kb) => kb,
                None => {
                    return Err(Error::KBNotFound);
                },
            };
            nodes.push(GraphExportNode::from(&kb));
            i = i + 1;
        }
        proof {
            assert(node_ids(nodes@) =~= views(seen@));
            assert(is_walk(root.id@, levels, params.direction, params.depth as int));
            assert(node_ids(nodes@) == walk_after(root.id@, levels).0);
            assert(edge_views(edges@) == walk_after(root.id@, levels).2);
        }
        let g = GraphExport { root_id: root.id, root_key: root.key, nodes, edges };
        assert(g.root_id@ == r);
        assert(is_walk(g.root_id@, levels, params.direction, params.depth as int));
        assert(node_ids(g.nodes@) == walk_after(g.root_id@, levels).0);
        assert(edge_views(g.edges@) == walk_after(g.root_id@, levels).2);
        assert(exists|levels: Seq<Seq<RelatedEdges>>|
            {
                &&& #[trigger] is_walk(g.root_id@, levels, params.direction, params.depth as int)
                &&& node_ids(g.nodes@) == walk_after(g.root_id@, levels).0
                &&& edge_views(g.edges@) == walk_after(g.root_id@, levels).2
            });
        Ok(g)
    }
}

} // verus!
