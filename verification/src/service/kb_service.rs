//! Entries: adding, updating, deleting, listing, importing and exporting
//! them, with their media files and their place in the semantic index.

use vstd::prelude::*;

use crate::domain::kb::{
    ExportKbItem, clone_opt, clone_strings, embedding_text_of, import_item_problem, opt_view, EmbeddingInput,
    ExportMediaParams, FailedImportItem, ImportBatchResult, ImportKbItem, Kb, KbFilter, KbItem,
    KbUpdate, NewKb, ReindexResult, StoreMediaParams,
};
use crate::domain::metadata::{
    build_metadata, metadata_outcome, metadata_pairs_of, parse_metadata_input, Metadata,
    MetadataFault, PairView,
};
use crate::domain::paths::{
    extension_of, fault_message, file_extension, is_media, is_media_category, media_file_path,
    media_path, normalize_path, opt_str_view, path_fault, with_leading_slash, MediaPathParams,
};
use crate::domain::unicode::{lowercase, to_lowercase};
use crate::errors::Error;
use crate::ports::{KbStore, MediaFetcher, MediaStore, SemanticIndex};
use crate::service::graph_service::{key_for_id, key_of_id, lemma_pick_push, pick};
use crate::text::{
    chars_of, join, join_seq, owned, push_str, split_seq, str_eq, trim, trim_seq, views,
};

verus! {

// ---------------------------------------------------------------------------
// Merging an update into an entry
// ---------------------------------------------------------------------------

/// The path an update leaves: unchanged when not given, cleared when
/// empty, else normalised (or the reason it is invalid).
pub open spec fn updated_path(update: Option<Seq<char>>, existing: Option<Seq<char>>) -> Result<
    Option<Seq<char>>,
    Seq<char>,
> {
    match update {
        Some(p) => if p.len() == 0 {
            Ok(None)
        } else {
            match path_fault(p) {
                Some(f) => Err(fault_message(f)),
                None => Ok(Some(with_leading_slash(p))),
            }
        },
        None => Ok(existing),
    }
}

/// The metadata an update leaves: unchanged when not given, cleared when
/// blank, else parsed from `key=value,...`.
pub open spec fn updated_metadata(update: Option<Seq<char>>, existing: Seq<PairView>) -> Result<
    Seq<PairView>,
    MetadataFault,
> {
    match update {
        Some(s) => if trim_seq(s).len() == 0 {
            Ok(seq![])
        } else {
            metadata_outcome(metadata_pairs_of(split_seq(s, ',')))
        },
        None => Ok(existing),
    }
}

/// The new value of a field, or the old one.
pub open spec fn or_keep(new: Option<Seq<char>>, old: Seq<char>) -> Seq<char> {
    match new {
        Some(v) => v,
        None => old,
    }
}

/// The new value of a field, lower-cased, or the old one.
pub open spec fn lower_or_keep(new: Option<Seq<char>>, old: Seq<char>) -> Seq<char> {
    match new {
        Some(v) => lowercase(v),
        None => old,
    }
}

pub open spec fn opt_views(o: Option<Vec<String>>) -> Option<Seq<Seq<char>>> {
    match o {
        Some(v) => Some(views(v@)),
        None => None,
    }
}

fn lower_or_keep_exec(new: Option<String>, old: String) -> (res: String)
    ensures
        res@ == lower_or_keep(opt_view(new), old@),
{
    match new {
        Some(v) => to_lowercase(v.as_str()),
        None => old,
    }
}

fn or_keep_exec(new: Option<String>, old: String) -> (res: String)
    ensures
        res@ == or_keep(opt_view(new), old@),
{
    match new {
        Some(v) => v,
        None => old,
    }
}

/// `k` is the entry `e` with the update `u` applied: every field given in
/// `u` replaces the old one (key, category and namespace lower-cased), the
/// path and metadata become what `updated_path` and `updated_metadata`
/// give, and id, creation time and media extension stay.
pub open spec fn is_update_of(k: Kb, e: Kb, u: KbUpdate) -> bool {
    &&& updated_path(opt_view(u.path), opt_view(e.path)) == Ok::<Option<Seq<char>>, Seq<char>>(
        opt_view(k.path),
    )
    &&& updated_metadata(opt_view(u.metadata), e.metadata.pairs()) == Ok::<
        Seq<PairView>,
        MetadataFault,
    >(k.metadata.pairs())
    &&& k.id@ == e.id@
    &&& k.key@ == lower_or_keep(opt_view(u.key), e.key@)
    &&& k.value@ == or_keep(opt_view(u.value), e.value@)
    &&& k.notes@ == or_keep(opt_view(u.notes), e.notes@)
    &&& k.category@ == lower_or_keep(opt_view(u.category), e.category@)
    &&& k.namespace@ == lower_or_keep(opt_view(u.namespace), e.namespace@)
    &&& k.reference@ == or_keep(opt_view(u.reference), e.reference@)
    &&& views(k.tags@) == match opt_views(u.tags) {
        Some(t) => t,
        None => views(e.tags@),
    }
    &&& k.created_on@ == e.created_on@
    &&& opt_view(k.parent) == match opt_view(u.parent) {
        Some(p) => Some(p),
        None => opt_view(e.parent),
    }
    &&& opt_view(k.media_extension) == opt_view(e.media_extension)
}

/// `kb` is the entry made from `n` when it is added: key, category and
/// namespace lower-cased, the path as `updated_path` gives it, every other
/// field as given.
pub open spec fn added_from(kb: Kb, n: NewKb) -> bool {
    &&& kb.key@ == lowercase(n.key@)
    &&& kb.value@ == n.value@
    &&& kb.category@ == lowercase(n.category@)
    &&& kb.namespace@ == lowercase(n.namespace@)
    &&& opt_view(kb.parent) == opt_view(n.parent)
    &&& updated_path(opt_view(n.path), None) == Ok::<Option<Seq<char>>, Seq<char>>(
        opt_view(kb.path),
    )
    &&& kb.notes@ == n.notes@
    &&& kb.reference@ == n.reference@
    &&& views(kb.tags@) == views(n.tags@)
    &&& kb.metadata.pairs() == n.metadata.pairs()
}

/// What an entry is added with lasts through an update that does not give
/// that field: its tags, notes, value, reference, metadata, key, category,
/// namespace and parent stay those it was added with.
pub proof fn lemma_added_fields_survive_update(added: Kb, n: NewKb, stored: Kb, update: KbUpdate)
    requires
        added_from(added, n),
        is_update_of(stored, added, update),
    ensures
        update.tags is None ==> views(stored.tags@) == views(n.tags@),
        update.notes is None ==> stored.notes@ == n.notes@,
        update.value is None ==> stored.value@ == n.value@,
        update.reference is None ==> stored.reference@ == n.reference@,
        update.metadata is None ==> stored.metadata.pairs() == n.metadata.pairs(),
        update.key is None ==> stored.key@ == lowercase(n.key@),
        update.category is None ==> stored.category@ == lowercase(n.category@),
        update.namespace is None ==> stored.namespace@ == lowercase(n.namespace@),
        update.parent is None ==> opt_view(stored.parent) == opt_view(n.parent),
{
}

/// Two entries with the same content: every field compared by its view.
pub open spec fn same_entry(a: Kb, b: Kb) -> bool {
    &&& a.id@ == b.id@
    &&& a.key@ == b.key@
    &&& a.value@ == b.value@
    &&& a.notes@ == b.notes@
    &&& a.category@ == b.category@
    &&& a.namespace@ == b.namespace@
    &&& a.reference@ == b.reference@
    &&& views(a.tags@) == views(b.tags@)
    &&& a.metadata.pairs() == b.metadata.pairs()
    &&& a.created_on@ == b.created_on@
    &&& opt_view(a.parent) == opt_view(b.parent)
    &&& opt_view(a.path) == opt_view(b.path)
    &&& opt_view(a.media_extension) == opt_view(b.media_extension)
}

/// An update that gives no field changes nothing: the stored entry is the
/// entry as it was.
pub proof fn lemma_empty_update_keeps_entry(stored: Kb, existing: Kb, update: KbUpdate)
    requires
        is_update_of(stored, existing, update),
        update.key is None,
        update.value is None,
        update.notes is None,
        update.category is None,
        update.namespace is None,
        update.reference is None,
        update.tags is None,
        update.parent is None,
        update.path is None,
        update.metadata is None,
    ensures
        same_entry(stored, existing),
{
}

/// Applying the same update twice stores the same entry as applying it
/// once: each given field is set from the update alone, and every other
/// field is carried over.
pub proof fn lemma_update_twice(once: Kb, twice: Kb, existing: Kb, update: KbUpdate)
    requires
        is_update_of(once, existing, update),
        is_update_of(twice, once, update),
    ensures
        same_entry(twice, once),
{
}

/// The fields an update gives are the ones stored, whatever the entry held
/// before: two entries updated with the same update agree on every field
/// the update gives.
pub proof fn lemma_update_sets_given_fields(a: Kb, ea: Kb, b: Kb, eb: Kb, update: KbUpdate)
    requires
        is_update_of(a, ea, update),
        is_update_of(b, eb, update),
    ensures
        update.tags is Some ==> views(a.tags@) == views(b.tags@),
        update.key is Some ==> a.key@ == b.key@,
        update.value is Some ==> a.value@ == b.value@,
        update.notes is Some ==> a.notes@ == b.notes@,
        update.category is Some ==> a.category@ == b.category@,
        update.namespace is Some ==> a.namespace@ == b.namespace@,
        update.reference is Some ==> a.reference@ == b.reference@,
        update.parent is Some ==> opt_view(a.parent) == opt_view(b.parent),
        update.path is Some ==> opt_view(a.path) == opt_view(b.path),
        update.metadata is Some ==> a.metadata.pairs() == b.metadata.pairs(),
{
}

/// `existing` with `update` applied: given fields replace the old ones
/// (key, category and namespace lower-cased), the path and metadata as
/// `updated_path` and `updated_metadata` say; id, creation time and media
/// extension are kept.
pub fn merge_update(existing: Kb, update: KbUpdate) -> (res: Result<Kb, Error>)
    ensures
        res matches Ok(kb) ==> is_update_of(kb, existing, update),
        updated_path(opt_view(update.path), opt_view(existing.path)) matches Err(m) ==> (
        res matches Err(Error::InvalidPathError(r)) && r@ == m),
        updated_path(opt_view(update.path), opt_view(existing.path)) is Ok ==> (
        updated_metadata(opt_view(update.metadata), existing.metadata.pairs()) matches Err(
            MetadataFault::BlankKey,
        ) ==> res matches Err(Error::InvalidMetadataError(_))),
        updated_path(opt_view(update.path), opt_view(existing.path)) is Ok ==> (
        updated_metadata(opt_view(update.metadata), existing.metadata.pairs()) matches Err(
            MetadataFault::DuplicateKey(k),
        ) ==> (res matches Err(Error::DuplicateMetadataKeyError(r)) && r@ == k)),
        updated_path(opt_view(update.path), opt_view(existing.path)) matches Ok(p) ==> (
        updated_metadata(opt_view(update.metadata), existing.metadata.pairs()) matches Ok(md)
            ==> (res matches Ok(kb) && {
            &&& kb.id@ == existing.id@
            &&& kb.key@ == lower_or_keep(opt_view(update.key), existing.key@)
            &&& kb.value@ == or_keep(opt_view(update.value), existing.value@)
            &&& kb.notes@ == or_keep(opt_view(update.notes), existing.notes@)
            &&& kb.category@ == lower_or_keep(opt_view(update.category), existing.category@)
            &&& kb.namespace@ == lower_or_keep(opt_view(update.namespace), existing.namespace@)
            &&& kb.reference@ == or_keep(opt_view(update.reference), existing.reference@)
            &&& views(kb.tags@) == match opt_views(update.tags) {
                Some(t) => t,
                None => views(existing.tags@),
            }
            &&& kb.metadata.pairs() == md
            &&& kb.created_on@ == existing.created_on@
            &&& opt_view(kb.parent) == match opt_view(update.parent) {
                Some(p) => Some(p),
                None => opt_view(existing.parent),
            }
            &&& opt_view(kb.path) == p
            &&& opt_view(kb.media_extension) == opt_view(existing.media_extension)
        })),
{
    let path = match &update.path {
        Some(p) => {
            if p.unicode_len() == 0 {
                None
            } else {
                Some(normalize_path(p.as_str())?)
            }
        },
        None => clone_opt(&existing.path),
    };
    let metadata = match &update.metadata {
        Some(s) => {
            if trim(s.as_str()).unicode_len() == 0 {
                Metadata::new()
            } else {
                build_metadata(parse_metadata_input(s.as_str()))?
            }
        },
        None => existing.metadata,
    };
    let tags = match update.tags {
        Some(t) => t,
        None => existing.tags,
    };
    let parent = match update.parent {
        Some(p) => Some(p),
        None => existing.parent,
    };
    Ok(
        Kb {
            id: existing.id,
            key: lower_or_keep_exec(update.key, existing.key),
            value: or_keep_exec(update.value, existing.value),
            notes: or_keep_exec(update.notes, existing.notes),
            category: lower_or_keep_exec(update.category, existing.category),
            namespace: lower_or_keep_exec(update.namespace, existing.namespace),
            reference: or_keep_exec(update.reference, existing.reference),
            tags,
            metadata,
            created_on: existing.created_on,
            parent,
            path,
            media_extension: existing.media_extension,
        },
    )
}

// ---------------------------------------------------------------------------
// Media export
// ---------------------------------------------------------------------------

/// How media files are exported.
pub enum MediaExportPlan {
    /// Copy the whole directory tree `source` to `destination`.
    Tree { source: String, destination: String },
    /// Copy the media file of each exported media entry.
    PerItem,
}

/// The media export strategy: with no namespace and no category (or the
/// media category) the whole media directory; with the media category and
/// a namespace that namespace's directory; otherwise entry by entry.
pub fn media_export_plan(base_dir: &str, params: &ExportMediaParams) -> (res: MediaExportPlan)
    ensures
        ({
            let media_cat = match opt_view(params.category) {
                Some(c) => is_media(c),
                None => false,
            };
            if params.namespace is None && (params.category is None || media_cat) {
                res matches MediaExportPlan::Tree { source, destination } && source@ == base_dir@
                    + "/media"@ && destination@ == params.target_dir@ + "/media"@
            } else if params.namespace is Some && media_cat {
                res matches MediaExportPlan::Tree { source, destination } && source@ == base_dir@
                    + "/media/"@ + params.namespace->0@ && destination@ == params.target_dir@
                    + "/media/"@ + params.namespace->0@
            } else {
                res is PerItem
            }
        }),
{
    let media_cat = match &params.category {
        Some(c) => is_media_category(c.as_str()),
        None => false,
    };
    if params.namespace.is_none() && (params.category.is_none() || media_cat) {
        let mut source = owned(base_dir);
        push_str(&mut source, "/media");
        let mut destination = owned(params.target_dir.as_str());
        push_str(&mut destination, "/media");
        return MediaExportPlan::Tree { source, destination };
    }
    match &params.namespace {
        Some(ns) => {
            if media_cat {
                let mut source = owned(base_dir);
                push_str(&mut source, "/media/");
                push_str(&mut source, ns.as_str());
                let mut destination = owned(params.target_dir.as_str());
                push_str(&mut destination, "/media/");
                push_str(&mut destination, ns.as_str());
                return MediaExportPlan::Tree { source, destination };
            }
        },
        None => {},
    }
    MediaExportPlan::PerItem
}

/// How many of `items` have a media file to copy: media entries with an
/// extension.
/// The files a per-entry media export copies, in order: for each media
/// entry with an extension, its media path under `base_dir` to the same
/// path under `target_dir`.
pub open spec fn media_copy_list(
    base_dir: Seq<char>,
    target_dir: Seq<char>,
    items: Seq<ExportKbItem>,
) -> Seq<(Seq<char>, Seq<char>)>
    decreases items.len(),
{
    if items.len() == 0 {
        seq![]
    } else {
        let rest = media_copy_list(base_dir, target_dir, items.drop_last());
        let it = items.last();
        if is_media(it.category@) && it.media_extension is Some {
            let ext = Some(it.media_extension->0@);
            rest.push(
                (
                    media_path(base_dir, it.namespace@, opt_view(it.path), it.key@, ext),
                    media_path(target_dir, it.namespace@, opt_view(it.path), it.key@, ext),
                ),
            )
        } else {
            rest
        }
    }
}

pub open spec fn copy_views(cs: Seq<StoreMediaParams>) -> Seq<(Seq<char>, Seq<char>)> {
    cs.map_values(|c: StoreMediaParams| (c.source@, c.destination@))
}

proof fn lemma_media_copy_count(base_dir: Seq<char>, target_dir: Seq<char>, items: Seq<ExportKbItem>)
    ensures
        media_copy_list(base_dir, target_dir, items).len() == media_file_count(items),
        media_file_count(items) <= items.len(),
    decreases items.len(),
{
    if items.len() > 0 {
        lemma_media_copy_count(base_dir, target_dir, items.drop_last());
    }
}

/// The copies a per-entry media export makes (see `media_copy_list`).
pub fn media_copies(base_dir: &str, items: &Vec<ExportKbItem>, target_dir: &str) -> (res: Vec<
    StoreMediaParams,
>)
    ensures
        copy_views(res@) == media_copy_list(base_dir@, target_dir@, items@),
{
    let mut res: Vec<StoreMediaParams> = Vec::new();
    let mut i: usize = 0;
    assert(items@.take(0) =~= seq![]);
    assert(copy_views(res@) =~= seq![]);
    while i < items.len()
        invariant
            0 <= i <= items@.len(),
            copy_views(res@) == media_copy_list(base_dir@, target_dir@, items@.take(i as int)),
        decreases items@.len() - i,
    {
        let item = &items[i];
        assert(items@.take(i + 1).drop_last() =~= items@.take(i as int));
        assert(items@.take(i + 1).last() == items@[i as int]);
        if is_media_category(item.category.as_str()) {
            match &item.media_extension {
                Some(ext) => {
                    let path = match &item.path {
                        Some(p) => Some(p.as_str()),
                        None => None,
                    };
                    let source = media_file_path(
                        &MediaPathParams {
                            base_dir,
                            namespace: item.namespace.as_str(),
                            path,
                            key: item.key.as_str(),
                            extension: Some(ext.as_str()),
                        },
                    );
                    let destination = media_file_path(
                        &MediaPathParams {
                            base_dir: target_dir,
                            namespace: item.namespace.as_str(),
                            path,
                            key: item.key.as_str(),
                            extension: Some(ext.as_str()),
                        },
                    );
                    let ghost before = res@;
                    res.push(StoreMediaParams { source, destination });
                    assert(copy_views(res@) =~= copy_views(before).push(
                        (res@[res@.len() - 1].source@, res@[res@.len() - 1].destination@),
                    ));
                },
                None => {},
            }
        }
        i = i + 1;
    }
    assert(items@.take(items@.len() as int) =~= items@);
    res
}

pub open spec fn media_file_count(items: Seq<crate::domain::kb::ExportKbItem>) -> nat
    decreases items.len(),
{
    if items.len() == 0 {
        0
    } else {
        media_file_count(items.drop_last()) + if is_media(items.last().category@)
            && items.last().media_extension is Some {
            1nat
        } else {
            0nat
        }
    }
}

// ---------------------------------------------------------------------------
// Import
// ---------------------------------------------------------------------------

pub open spec fn import_keys(s: Seq<ImportKbItem>) -> Seq<Seq<char>> {
    s.map_values(|i: ImportKbItem| i.key@)
}

pub open spec fn failed_import_keys(s: Seq<FailedImportItem>) -> Seq<Seq<char>> {
    s.map_values(|f: FailedImportItem| f.item.key@)
}

pub open spec fn kb_keys(s: Seq<Kb>) -> Seq<Seq<char>> {
    s.map_values(|k: Kb| k.key@)
}

pub open spec fn lowercased(s: Seq<Seq<char>>) -> Seq<Seq<char>> {
    s.map_values(|k: Seq<char>| lowercase(k))
}

fn clone_import_item(i: &ImportKbItem) -> (res: ImportKbItem)
    ensures
        res.key@ == i.key@,
        res.value@ == i.value@,
        res.notes@ == i.notes@,
        res.category@ == i.category@,
        res.reference@ == i.reference@,
        res.namespace@ == i.namespace@,
        views(res.tags@) == views(i.tags@),
        opt_view(res.parent_key) == opt_view(i.parent_key),
        opt_view(res.path) == opt_view(i.path),
        opt_view(res.media_extension) == opt_view(i.media_extension),
{
    ImportKbItem {
        key: i.key.clone(),
        value: i.value.clone(),
        notes: i.notes.clone(),
        category: i.category.clone(),
        reference: i.reference.clone(),
        namespace: i.namespace.clone(),
        tags: clone_strings(&i.tags),
        parent_key: clone_opt(&i.parent_key),
        path: clone_opt(&i.path),
        media_extension: clone_opt(&i.media_extension),
    }
}

/// `"<prefix>'<name>': <error>"`, the text of a non-fatal indexing warning.
fn warning_text(prefix: &str, name: &str, e: &Error) -> (res: String)
    ensures
        res@ == prefix@ + "'"@ + name@ + "': "@ + e.message_view(),
{
    let mut m = owned(prefix);
    push_str(&mut m, "'");
    push_str(&mut m, name);
    push_str(&mut m, "': ");
    let em = e.message();
    push_str(&mut m, em.as_str());
    m
}

fn embedding_input_for(kb: &Kb) -> (res: EmbeddingInput)
    ensures
        res.kb_id@ == kb.id@,
        res.namespace@ == kb.namespace@,
        res.text@ == embedding_text_of(
            kb.key@,
            kb.category@,
            kb.namespace@,
            kb.reference@,
            views(kb.tags@),
            kb.value@,
        ),
{
    EmbeddingInput { kb_id: kb.id.clone(), text: kb.embedding_text(), namespace: kb.namespace.clone() }
}

// ---------------------------------------------------------------------------
// Export order: parents before children
// ---------------------------------------------------------------------------

/// `kb`'s parent is among `kbs`.
pub open spec fn parent_in_set(kbs: Seq<Kb>, kb: Kb) -> bool {
    kb.parent matches Some(p) && key_of_id(kbs, p@) is Some
}

/// The ids of the first `upto` entries of `kbs` taken in the order `perm`.
pub open spec fn ids_in_order(kbs: Seq<Kb>, perm: Seq<int>, upto: int) -> Seq<Seq<char>> {
    perm.take(upto).map_values(|k: int| kbs[k].id@)
}

/// The entry at position `q` may stand there: its parent is not exported,
/// or stands before it.
pub open spec fn placed_after_parent(kbs: Seq<Kb>, perm: Seq<int>, q: int) -> bool {
    !parent_in_set(kbs, kbs[perm[q]]) || ids_in_order(kbs, perm, q).contains(
        kbs[perm[q]].parent->0@,
    )
}

/// The entry at position `q` waits on a parent that is exported but not
/// among the first `t` entries (a cycle of parents).
pub open spec fn waits_on_parent(kbs: Seq<Kb>, perm: Seq<int>, q: int, t: int) -> bool {
    parent_in_set(kbs, kbs[perm[q]]) && !ids_in_order(kbs, perm, t).contains(
        kbs[perm[q]].parent->0@,
    )
}

/// Entry `x` has an exported parent whose id is not among `ids`.
pub open spec fn waits_on_parent_index(kbs: Seq<Kb>, x: int, ids: Seq<Seq<char>>) -> bool {
    parent_in_set(kbs, kbs[x]) && !ids.contains(kbs[x].parent->0@)
}

/// `perm` orders all of `kbs`: the first `t` entries each after their
/// parent (when it is exported), the rest only entries whose exported
/// parents never come before them.
pub open spec fn parents_first(kbs: Seq<Kb>, perm: Seq<int>, t: int) -> bool {
    &&& 0 <= t <= perm.len()
    &&& forall|q: int| 0 <= q < t ==> #[trigger] placed_after_parent(kbs, perm, q)
    &&& forall|q: int| t <= q < perm.len() ==> #[trigger] waits_on_parent(kbs, perm, q, t)
}

/// `perm` is an ordering of the indices of `kbs`.
pub open spec fn is_ordering(perm: Seq<int>, n: int) -> bool {
    &&& perm.len() == n
    &&& perm.no_duplicates()
    &&& forall|q: int| 0 <= q < perm.len() ==> 0 <= #[trigger] perm[q] < n
}

/// The parent key an entry is exported with: its parent's key when the
/// parent is exported too.
pub open spec fn exported_parent_key(kbs: Seq<Kb>, kb: Kb) -> Option<Seq<char>> {
    match kb.parent {
        Some(p) => key_of_id(kbs, p@),
        None => None,
    }
}

/// `item` is the export of `kb` among `kbs`.
pub open spec fn exports_kb(item: ExportKbItem, kbs: Seq<Kb>, kb: Kb) -> bool {
    &&& item.key@ == kb.key@
    &&& item.value@ == kb.value@
    &&& item.notes@ == kb.notes@
    &&& item.category@ == kb.category@
    &&& item.reference@ == kb.reference@
    &&& item.namespace@ == kb.namespace@
    &&& views(item.tags@) == views(kb.tags@)
    &&& opt_view(item.parent_key) == exported_parent_key(kbs, kb)
    &&& opt_view(item.path) == opt_view(kb.path)
    &&& opt_view(item.media_extension) == opt_view(kb.media_extension)
}

fn export_item_of(kbs: &Vec<Kb>, kb: &Kb) -> (res: ExportKbItem)
    ensures
        exports_kb(res, kbs@, *kb),
{
    let parent_key = match &kb.parent {
        Some(p) => key_for_id(kbs, p.as_str()),
        None => None,
    };
    ExportKbItem {
        key: kb.key.clone(),
        value: kb.value.clone(),
        notes: kb.notes.clone(),
        category: kb.category.clone(),
        reference: kb.reference.clone(),
        namespace: kb.namespace.clone(),
        tags: clone_strings(&kb.tags),
        parent_key,
        path: clone_opt(&kb.path),
        media_extension: clone_opt(&kb.media_extension),
    }
}

/// Whether entry `i` may be emitted now: no exported parent, or the parent
/// already emitted.
fn may_emit(kbs: &Vec<Kb>, i: usize, emitted_ids: &Vec<String>) -> (res: bool)
    requires
        i < kbs@.len(),
    ensures
        res == (!parent_in_set(kbs@, kbs@[i as int]) || views(emitted_ids@).contains(
            kbs@[i as int].parent->0@,
        )),
{
    match &kbs[i].parent {
        Some(p) => {
            if key_for_id(kbs, p.as_str()).is_none() {
                true
            } else {
                crate::domain::kb::contains_str(emitted_ids, p.as_str())
            }
        },
        None => true,
    }
}

/// How many entries are not emitted yet.
pub open spec fn unemitted(e: Seq<bool>) -> nat
    decreases e.len(),
{
    if e.len() == 0 {
        0
    } else {
        unemitted(e.drop_last()) + if e.last() {
            0nat
        } else {
            1nat
        }
    }
}

proof fn lemma_unemitted_set(e: Seq<bool>, i: int)
    requires
        0 <= i < e.len(),
        !e[i],
    ensures
        unemitted(e.update(i, true)) + 1 == unemitted(e),
    decreases e.len(),
{
    if i < e.len() - 1 {
        assert(e.update(i, true).drop_last() =~= e.drop_last().update(i, true));
        lemma_unemitted_set(e.drop_last(), i);
    } else {
        assert(e.update(i, true).drop_last() =~= e.drop_last());
    }
}

proof fn lemma_unemitted_bounds(e: Seq<bool>)
    ensures
        unemitted(e) <= e.len(),
        (forall|x: int| 0 <= x < e.len() ==> #[trigger] e[x]) ==> unemitted(e) == 0,
        (forall|x: int| 0 <= x < e.len() ==> !#[trigger] e[x]) ==> unemitted(e) == e.len(),
    decreases e.len(),
{
    if e.len() > 0 {
        lemma_unemitted_bounds(e.drop_last());
        assert forall|x: int| 0 <= x < e.drop_last().len() implies e.drop_last()[x] == e[x] by {}
    }
}

pub open spec fn as_ints(v: Seq<usize>) -> Seq<int> {
    v.map_values(|k: usize| k as int)
}

/// The order in which entries are exported: repeated passes emit every
/// entry whose exported parent (if any) is already out; when a pass emits
/// nothing, the entries left (caught in a cycle) follow in their order.
pub fn export_order(kbs: &Vec<Kb>) -> (res: Vec<usize>)
    ensures
        is_ordering(as_ints(res@), kbs@.len() as int),
        exists|t: int| #[trigger] parents_first(kbs@, as_ints(res@), t),
{
    let n = kbs.len();
    let mut emitted: Vec<bool> = Vec::new();
    let mut j: usize = 0;
    while j < n
        invariant
            n == kbs@.len(),
            0 <= j <= n,
            emitted@.len() == j,
            forall|k: int| 0 <= k < j ==> !(#[trigger] emitted@[k]),
        decreases n - j,
    {
        emitted.push(false);
        j = j + 1;
    }
    proof {
        lemma_unemitted_bounds(emitted@);
    }
    let mut order: Vec<usize> = Vec::new();
    let mut emitted_ids: Vec<String> = Vec::new();
    let mut remaining: usize = n;
    let ghost mut tf: int = 0;
    proof {
        assert(views(emitted_ids@) =~= ids_in_order(kbs@, as_ints(order@), 0));
        assert(as_ints(order@) =~= seq![]);
    }
    while remaining > 0
        invariant_except_break
            tf == order@.len(),
            views(emitted_ids@) == ids_in_order(kbs@, as_ints(order@), order@.len() as int),
            forall|q: int|
                0 <= q < order@.len() ==> #[trigger] placed_after_parent(
                    kbs@,
                    as_ints(order@),
                    q,
                ),
        invariant
            n == kbs@.len(),
            emitted@.len() == n,
            order@.len() + remaining == n,
            remaining == unemitted(emitted@),
            as_ints(order@).no_duplicates(),
            forall|q: int| 0 <= q < order@.len() ==> (#[trigger] order@[q]) < n,
            forall|k: int|
                0 <= k < n ==> (#[trigger] emitted@[k] <==> as_ints(order@).contains(k)),
        ensures
            order@.len() == n,
            as_ints(order@).no_duplicates(),
            forall|q: int| 0 <= q < order@.len() ==> (#[trigger] order@[q]) < n,
            parents_first(kbs@, as_ints(order@), tf),
        decreases remaining,
    {
        let mut changed = false;
        let mut i: usize = 0;
        let ghost start = remaining;
        while i < n
            invariant
                n == kbs@.len(),
                emitted@.len() == n,
                0 <= i <= n,
                order@.len() + remaining == n,
                remaining == unemitted(emitted@),
                remaining <= start,
                changed || remaining == start,
                changed ==> remaining < start,
                !changed ==> forall|k: int|
                    0 <= k < i && !(#[trigger] emitted@[k]) ==> waits_on_parent_index(
                        kbs@,
                        k,
                        views(emitted_ids@),
                    ),
                as_ints(order@).no_duplicates(),
                forall|q: int| 0 <= q < order@.len() ==> (#[trigger] order@[q]) < n,
                forall|k: int|
                    0 <= k < n ==> (#[trigger] emitted@[k] <==> as_ints(order@).contains(k)),
                views(emitted_ids@) == ids_in_order(kbs@, as_ints(order@), order@.len() as int),
                forall|q: int|
                    0 <= q < order@.len() ==> #[trigger] placed_after_parent(
                        kbs@,
                        as_ints(order@),
                        q,
                    ),
            decreases n - i,
        {
            if !emitted[i] && may_emit(kbs, i, &emitted_ids) {
                let ghost old_order = as_ints(order@);
                let ghost old_ids = views(emitted_ids@);
                let ghost old_emitted = emitted@;
                proof {
                    lemma_unemitted_set(emitted@, i as int);
                }
                emitted.set(i, true);
                emitted_ids.push(kbs[i].id.clone());
                order.push(i);
                remaining = remaining - 1;
                changed = true;
                proof {
                    let po = as_ints(order@);
                    assert(po =~= old_order.push(i as int));
                    assert(!old_order.contains(i as int));
                    assert(views(emitted_ids@) =~= old_ids.push(kbs@[i as int].id@));
                    assert(ids_in_order(kbs@, po, po.len() as int) =~= ids_in_order(
                        kbs@,
                        old_order,
                        old_order.len() as int,
                    ).push(kbs@[i as int].id@));
                    assert forall|q: int| 0 <= q < po.len() implies #[trigger] placed_after_parent(
                        kbs@,
                        po,
                        q,
                    ) by {
                        if q < old_order.len() {
                            assert(placed_after_parent(kbs@, old_order, q));
                            assert(po.take(q) =~= old_order.take(q));
                            assert(po[q] == old_order[q]);
                            assert(ids_in_order(kbs@, po, q) =~= ids_in_order(kbs@, old_order, q));
                        } else {
                            assert(po.take(q) =~= old_order);
                            assert(po[q] == i as int);
                            assert(ids_in_order(kbs@, po, q) =~= old_ids);
                        }
                    }
                    assert forall|k: int| 0 <= k < n implies (#[trigger] emitted@[k]
                        <==> po.contains(k)) by {
                        if k == i as int {
                            assert(po[old_order.len() as int] == k);
                        } else {
                            assert(emitted@[k] == old_emitted[k]);
                            if po.contains(k) {
                                let w = choose|w: int| 0 <= w < po.len() && po[w] == k;
                                assert(w < old_order.len());
                                assert(old_order[w] == k);
                            }
                            if old_order.contains(k) {
                                let w = choose|w: int|
                                    0 <= w < old_order.len() && old_order[w] == k;
                                assert(po[w] == k);
                            }
                        }
                    }
                    assert forall|q: int| 0 <= q < order@.len() implies (#[trigger] order@[q])
                        < n by {
                        if q < old_order.len() {
                            assert(order@[q] as int == old_order[q]);
                        }
                    }
                }
            } else {
                proof {
                    if !emitted@[i as int] {
                        assert(waits_on_parent_index(kbs@, i as int, views(emitted_ids@)));
                    }
                }
            }
            i = i + 1;
        }
        if !changed {
            let ghost t = order@.len() as int;
            let ghost stuck_ids = views(emitted_ids@);
            proof {
                assert(as_ints(order@).take(t) =~= as_ints(order@));
            }
            let mut k: usize = 0;
            while k < n
                invariant
                    n == kbs@.len(),
                    emitted@.len() == n,
                    0 <= k <= n,
                    0 <= t <= order@.len(),
                    order@.len() + remaining == n,
                    remaining == unemitted(emitted@),
                    forall|x: int| 0 <= x < k ==> #[trigger] emitted@[x],
                    as_ints(order@).no_duplicates(),
                    forall|q: int| 0 <= q < order@.len() ==> (#[trigger] order@[q]) < n,
                    forall|x: int|
                        0 <= x < n ==> (#[trigger] emitted@[x] <==> as_ints(order@).contains(x)),
                    stuck_ids == ids_in_order(kbs@, as_ints(order@), t),
                    forall|q: int|
                        0 <= q < t ==> #[trigger] placed_after_parent(kbs@, as_ints(order@), q),
                    forall|q: int|
                        t <= q < order@.len() ==> #[trigger] waits_on_parent(
                            kbs@,
                            as_ints(order@),
                            q,
                            t,
                        ),
                    forall|x: int|
                        k <= x < n && !(#[trigger] emitted@[x]) ==> waits_on_parent_index(
                            kbs@,
                            x,
                            stuck_ids,
                        ),
                decreases n - k,
            {
                if !emitted[k] {
                    let ghost old_order = as_ints(order@);
                    let ghost old_emitted = emitted@;
                    proof {
                        lemma_unemitted_set(emitted@, k as int);
                    }
                    emitted.set(k, true);
                    order.push(k);
                    remaining = remaining - 1;
                    proof {
                        let po = as_ints(order@);
                        assert(po =~= old_order.push(k as int));
                        assert(!old_order.contains(k as int));
                        assert(po.take(t) =~= old_order.take(t));
                        assert(ids_in_order(kbs@, po, t) =~= ids_in_order(kbs@, old_order, t));
                        assert forall|q: int| 0 <= q < t implies #[trigger] placed_after_parent(
                            kbs@,
                            po,
                            q,
                        ) by {
                            assert(placed_after_parent(kbs@, old_order, q));
                            assert(po.take(q) =~= old_order.take(q));
                            assert(po[q] == old_order[q]);
                            assert(ids_in_order(kbs@, po, q) =~= ids_in_order(
                                kbs@,
                                old_order,
                                q,
                            ));
                        }
                        assert forall|q: int| t <= q < po.len() implies #[trigger] waits_on_parent(
                            kbs@,
                            po,
                            q,
                            t,
                        ) by {
                            if q < old_order.len() {
                                assert(waits_on_parent(kbs@, old_order, q, t));
                                assert(po[q] == old_order[q]);
                            } else {
                                assert(po[q] == k as int);
                                assert(waits_on_parent_index(kbs@, k as int, stuck_ids));
                            }
                        }
                        assert forall|x: int| 0 <= x < n implies (#[trigger] emitted@[x]
                            <==> po.contains(x)) by {
                            if x == k as int {
                                assert(po[old_order.len() as int] == x);
                            } else {
                                assert(emitted@[x] == old_emitted[x]);
                                if po.contains(x) {
                                    let w = choose|w: int| 0 <= w < po.len() && po[w] == x;
                                    assert(w < old_order.len());
                                    assert(old_order[w] == x);
                                }
                                if old_order.contains(x) {
                                    let w = choose|w: int|
                                        0 <= w < old_order.len() && old_order[w] == x;
                                    assert(po[w] == x);
                                }
                            }
                        }
                        assert forall|q: int| 0 <= q < order@.len() implies (#[trigger] order@[q])
                            < n by {
                            if q < old_order.len() {
                                assert(order@[q] as int == old_order[q]);
                            }
                        }
                        assert forall|x: int|
                            k + 1 <= x < n && !(#[trigger] emitted@[x]) implies waits_on_parent_index(
                            kbs@,
                            x,
                            stuck_ids,
                        ) by {
                            assert(emitted@[x] == old_emitted[x]);
                        }
                    }
                }
                k = k + 1;
            }
            proof {
                lemma_unemitted_bounds(emitted@);
                tf = t;
            }
            break;
        }
        proof {
            tf = order@.len() as int;
        }
    }
    proof {
        let po = as_ints(order@);
        assert forall|q: int| 0 <= q < po.len() implies 0 <= #[trigger] po[q] < n as int by {
            assert(po[q] == order@[q] as int);
        }
    }
    order
}

/// `out` is the export of `kbs`: every entry once, parents before their
/// children (but for entries caught in a cycle of parents, which come
/// last), each with its parent's key when the parent is exported too.
pub open spec fn export_of(kbs: Seq<Kb>, out: Seq<ExportKbItem>) -> bool {
    exists|perm: Seq<int>, t: int|
        {
            &&& is_ordering(perm, kbs.len() as int)
            &&& #[trigger] parents_first(kbs, perm, t)
            &&& out.len() == perm.len()
            &&& forall|q: int| 0 <= q < perm.len() ==> exports_kb(#[trigger] out[q], kbs, kbs[perm[q]])
        }
}

/// Nothing is lost on export: each entry given comes out with its own key,
/// value, notes, category, namespace, reference, tags, path and media
/// extension, and there are as many items as entries.
pub proof fn lemma_export_keeps_every_entry(kbs: Seq<Kb>, out: Seq<ExportKbItem>, i: int)
    requires
        export_of(kbs, out),
        0 <= i < kbs.len(),
    ensures
        out.len() == kbs.len(),
        exists|q: int|
            {
                &&& 0 <= q < out.len()
                &&& (#[trigger] out[q]).key@ == kbs[i].key@
                &&& out[q].value@ == kbs[i].value@
                &&& out[q].notes@ == kbs[i].notes@
                &&& out[q].category@ == kbs[i].category@
                &&& out[q].namespace@ == kbs[i].namespace@
                &&& out[q].reference@ == kbs[i].reference@
                &&& views(out[q].tags@) == views(kbs[i].tags@)
                &&& opt_view(out[q].path) == opt_view(kbs[i].path)
                &&& opt_view(out[q].media_extension) == opt_view(kbs[i].media_extension)
            },
{
    let (perm, t) = choose|perm: Seq<int>, t: int|
        {
            &&& is_ordering(perm, kbs.len() as int)
            &&& #[trigger] parents_first(kbs, perm, t)
            &&& out.len() == perm.len()
            &&& forall|q: int| 0 <= q < perm.len() ==> exports_kb(#[trigger] out[q], kbs, kbs[perm[q]])
        };
    let n = kbs.len() as int;
    let range = vstd::set_lib::set_int_range(0, n);
    vstd::set_lib::lemma_int_range(0, n);
    perm.unique_seq_to_set();
    assert(perm.to_set().subset_of(range)) by {
        assert forall|x: int| perm.to_set().contains(x) implies range.contains(x) by {
            let q = perm.index_of(x);
            assert(perm[q] == x);
        }
    }
    vstd::set_lib::lemma_len_subset(perm.to_set(), range);
    vstd::set_lib::lemma_subset_equality(perm.to_set(), range);
    assert(range.contains(i));
    assert(perm.to_set().contains(i));
    assert(perm.contains(i));
    let q = perm.index_of(i);
    assert(perm[q] == i);
    assert(exports_kb(out[q], kbs, kbs[perm[q]]));
}

/// An entry exported among others comes out with what it was added with:
/// its lower-cased key, value, notes, reference and tags.
pub proof fn lemma_added_entry_exported(kbs: Seq<Kb>, out: Seq<ExportKbItem>, i: int, n: NewKb)
    requires
        export_of(kbs, out),
        0 <= i < kbs.len(),
        added_from(kbs[i], n),
    ensures
        exists|q: int|
            {
                &&& 0 <= q < out.len()
                &&& (#[trigger] out[q]).key@ == lowercase(n.key@)
                &&& out[q].value@ == n.value@
                &&& out[q].notes@ == n.notes@
                &&& out[q].reference@ == n.reference@
                &&& views(out[q].tags@) == views(n.tags@)
            },
{
    lemma_export_keeps_every_entry(kbs, out, i);
}

/// The entries `kbs` as `kb export` writes them: ordered by
/// `export_order`, each with its parent's key when the parent is exported
/// too.
pub fn export_items_for_kbs(kbs: &Vec<Kb>) -> (res: Vec<ExportKbItem>)
    ensures
        export_of(kbs@, res@),
{
    let order = export_order(kbs);
    let ghost perm = as_ints(order@);
    let mut out: Vec<ExportKbItem> = Vec::new();
    let mut q: usize = 0;
    while q < order.len()
        invariant
            0 <= q <= order@.len(),
            perm == as_ints(order@),
            is_ordering(perm, kbs@.len() as int),
            out@.len() == q,
            forall|r: int| 0 <= r < q ==> exports_kb(#[trigger] out@[r], kbs@, kbs@[perm[r]]),
        decreases order@.len() - q,
    {
        assert(perm[q as int] == order@[q as int] as int);
        let item = export_item_of(kbs, &kbs[order[q]]);
        out.push(item);
        q = q + 1;
    }
    let ghost t = choose|t: int| parents_first(kbs@, perm, t);
    assert(parents_first(kbs@, perm, t));
    out
}

// ---------------------------------------------------------------------------
// The service
// ---------------------------------------------------------------------------

/// Where the file of a new media entry goes under `base_dir`: its media
/// path, with the extension of the source `url` (none when it has none).
pub fn media_destination(new_kb: &NewKb, base_dir: &str, url: &str) -> (res: String)
    ensures
        res@ == media_path(
            base_dir@,
            new_kb.namespace@,
            opt_view(new_kb.path),
            new_kb.key@,
            extension_of(url@),
        ),
{
    let ext = file_extension(url);
    media_file_path(
        &MediaPathParams {
            base_dir,
            namespace: new_kb.namespace.as_str(),
            path: match &new_kb.path {
                Some(p) => Some(p.as_str()),
                None => None,
            },
            key: new_kb.key.as_str(),
            extension: match &ext {
                Some(e) => Some(e.as_str()),
                None => None,
            },
        },
    )
}

/// What `kb quote` answers for a random entry of the quote category:
/// `QuoteNotFound` when there is none, else that answer unchanged.
pub fn quote_outcome(found: Result<Kb, Error>) -> (res: Result<Kb, Error>)
    ensures
        match found {
            Err(Error::RandomNotFound(_)) => res == Err::<Kb, Error>(Error::QuoteNotFound),
            _ => res == found,
        },
{
    match found {
        Err(Error::RandomNotFound(_)) => Err(Error::QuoteNotFound),
        other => other,
    }
}

/// Refuses to save an entry under a key that `owner`, another entry, holds:
/// `DuplicateKBError` when `owner` has a different id than `id`.
pub fn check_key_owner(owner: &Option<Kb>, id: &str) -> (res: Result<(), Error>)
    ensures
        res is Err <==> (owner matches Some(o) && o.id@ != id@),
        res is Err ==> res == Err::<(), Error>(Error::DuplicateKBError),
{
    match owner {
        Some(other) => {
            if !str_eq(other.id.as_str(), id) {
                return Err(Error::DuplicateKBError);
            }
            Ok(())
        },
        None => Ok(()),
    }
}

/// The entry a lookup found, or `KBNotFound` when it found none.
pub fn found_entry(found: Option<Kb>) -> (res: Result<Kb, Error>)
    ensures
        match found {
            Some(kb) => res == Ok::<Kb, Error>(kb),
            None => res == Err::<Kb, Error>(Error::KBNotFound),
        },
{
    match found {
        Some(kb) => Ok(kb),
        None => Err(Error::KBNotFound),
    }
}

/// The entry an update applies to, given what the lookup of its id found:
/// `KBNotFound` when nothing, `MediaPathUpdateNotAllowed` with the key when
/// it is a media entry and the update sets a path, else the entry.
pub fn update_target(found: Option<Kb>, update: &KbUpdate) -> (res: Result<Kb, Error>)
    ensures
        match found {
            None => res == Err::<Kb, Error>(Error::KBNotFound),
            Some(kb) => if is_media(kb.category@) && update.path is Some {
                res matches Err(Error::MediaPathUpdateNotAllowed(k)) && k@ == kb.key@
            } else {
                res == Ok::<Kb, Error>(kb)
            },
        },
{
    let existing = found_entry(found)?;
    check_media_path_update(&existing, update)?;
    Ok(existing)
}

/// What a deletion answers once the store has run it: `KBNotFound` when
/// nothing was deleted.
pub fn deletion_outcome(deleted: bool) -> (res: Result<(), Error>)
    ensures
        res == if deleted {
            Ok::<(), Error>(())
        } else {
            Err::<(), Error>(Error::KBNotFound)
        },
{
    if deleted {
        Ok(())
    } else {
        Err(Error::KBNotFound)
    }
}

/// What re-indexing makes of looking up the entry `id`: the entry to
/// index, or the failure `("id=" + id, reason)` when the lookup failed
/// (its message) or found nothing (`not found`).
pub fn reindex_lookup_outcome(id: &str, found: Result<Option<Kb>, Error>) -> (res: Result<
    Kb,
    (String, String),
>)
    ensures
        match found {
            Ok(Some(kb)) => res == Ok::<Kb, (String, String)>(kb),
            Ok(None) => (res matches Err(f) && f.0@ == "id="@ + id@ && f.1@ == "not found"@),
            Err(e) => (res matches Err(f) && f.0@ == "id="@ + id@ && f.1@ == e.message_view()),
        },
{
    match found {
        Ok(Some(kb)) => Ok(kb),
        Ok(None) => {
            let mut label = owned("id=");
            push_str(&mut label, id);
            Err((label, owned("not found")))
        },
        Err(e) => {
            let mut label = owned("id=");
            push_str(&mut label, id);
            Err((label, e.message()))
        },
    }
}

/// What re-indexing makes of indexing `kb`: `(key, id)` on success, else
/// the failure `(key, reason)`.
pub fn reindex_index_outcome(kb: &Kb, indexed: Result<(), Error>) -> (res: Result<
    (String, String),
    (String, String),
>)
    ensures
        match indexed {
            Ok(()) => (res matches Ok(p) && p.0@ == kb.key@ && p.1@ == kb.id@),
            Err(e) => (res matches Err(f) && f.0@ == kb.key@ && f.1@ == e.message_view()),
        },
{
    match indexed {
        Ok(()) => Ok((kb.key.clone(), kb.id.clone())),
        Err(e) => Err((kb.key.clone(), e.message())),
    }
}

/// The parent id of an imported entry given what looking up its parent key
/// `parent_key` found: that entry's id, or the failure reason
/// `parent key not found: <key>` when nothing, or the lookup's message.
pub fn import_parent(parent_key: &str, found: Result<Option<Kb>, Error>) -> (res: Result<
    String,
    String,
>)
    ensures
        match found {
            Ok(Some(p)) => (res matches Ok(id) && id@ == p.id@),
            Ok(None) => (res matches Err(r) && r@ == "parent key not found: "@ + parent_key@),
            Err(e) => (res matches Err(r) && r@ == e.message_view()),
        },
{
    match found {
        Ok(Some(parent)) => Ok(parent.id),
        Ok(None) => {
            let mut r = owned("parent key not found: ");
            push_str(&mut r, parent_key);
            Err(r)
        },
        Err(e) => Err(e.message()),
    }
}

/// The ids of listed entries.
pub open spec fn item_ids(items: Seq<KbItem>) -> Seq<Seq<char>> {
    items.map_values(|i: KbItem| i.id@)
}

/// The second members of `(key, id)` pairs.
pub open spec fn pair_seconds(ps: Seq<(String, String)>) -> Seq<Seq<char>> {
    ps.map_values(|p: (String, String)| p.1@)
}

/// What checking a new entry's parent answers, given what looking up the
/// parent id found: `ParentKBNotFound` when nothing.
pub fn parent_outcome(found: Option<Kb>) -> (res: Result<(), Error>)
    ensures
        res == if found is Some {
            Ok::<(), Error>(())
        } else {
            Err::<(), Error>(Error::ParentKBNotFound)
        },
{
    match found {
        Some(_) => Ok(()),
        None => Err(Error::ParentKBNotFound),
    }
}

/// The text an entry is embedded from.
pub open spec fn kb_embedding_text(kb: Kb) -> Seq<char> {
    embedding_text_of(kb.key@, kb.category@, kb.namespace@, kb.reference@, views(kb.tags@), kb.value@)
}

/// Whether an update must re-index the entry, given the text the entry was
/// embedded from before: exactly when the updated entry's text differs.
pub fn needs_reindex(old_text: &str, updated: &Kb) -> (res: bool)
    ensures
        res == (old_text@ != kb_embedding_text(*updated)),
{
    let new_text = updated.embedding_text();
    !str_eq(old_text, new_text.as_str())
}

// ---------------------------------------------------------------------------
// What an update or a deletion is refused for
// ---------------------------------------------------------------------------

/// Refuses to move a media entry: `MediaPathUpdateNotAllowed`, with the
/// entry's key, when `existing` is a media entry and `update` sets a path.
pub fn check_media_path_update(existing: &Kb, update: &KbUpdate) -> (res: Result<(), Error>)
    ensures
        res is Err <==> (is_media(existing.category@) && update.path is Some),
        res matches Err(e) ==> (e matches Error::MediaPathUpdateNotAllowed(k) && k@
            == existing.key@),
{
    if is_media_category(existing.category.as_str()) && update.path.is_some() {
        Err(Error::MediaPathUpdateNotAllowed(existing.key.clone()))
    } else {
        Ok(())
    }
}

/// Refuses to delete an entry that has children: `KBHasChildrenError`
/// with their ids joined by ", ".
pub fn check_no_children(children: &Vec<String>) -> (res: Result<(), Error>)
    ensures
        res is Ok <==> children@.len() == 0,
        res matches Err(e) ==> (e matches Error::KBHasChildrenError(m) && m@ == join_seq(
            views(children@),
            ", "@,
        )),
{
    if children.len() > 0 {
        Err(Error::KBHasChildrenError(join(children, ", ")))
    } else {
        Ok(())
    }
}

/// The media file that goes with `kb` under `base_dir`: its media path
/// when it is a media entry with a known extension, else none.
pub fn media_file_of(kb: &Kb, base_dir: &str) -> (res: Option<String>)
    ensures
        match res {
            Some(p) => is_media(kb.category@) && (kb.media_extension matches Some(ext) && p@
                == media_path(base_dir@, kb.namespace@, opt_view(kb.path), kb.key@, Some(ext@))),
            None => !(is_media(kb.category@) && kb.media_extension is Some),
        },
{
    if !is_media_category(kb.category.as_str()) {
        return None;
    }
    match &kb.media_extension {
        Some(ext) => Some(
            media_file_path(
                &MediaPathParams {
                    base_dir,
                    namespace: kb.namespace.as_str(),
                    path: match &kb.path {
                        Some(p) => Some(p.as_str()),
                        None => None,
                    },
                    key: kb.key.as_str(),
                    extension: Some(ext.as_str()),
                },
            ),
        ),
        None => None,
    }
}


/// What the entry service needs besides the entry store.
pub struct ServiceDeps<I: SemanticIndex, M: MediaStore, F: MediaFetcher> {
    pub index: I,
    pub media_store: M,
    pub media_fetcher: F,
    /// Directory under which `media/` holds the media files.
    pub base_dir: String,
}

/// Entry operations over the entry store, the semantic index and media.
pub struct KBService<S: KbStore, I: SemanticIndex, M: MediaStore, F: MediaFetcher> {
    store: S,
    index: I,
    media_store: M,
    media_fetcher: F,
    base_dir: String,
}

impl<S: KbStore, I: SemanticIndex, M: MediaStore, F: MediaFetcher> KBService<S, I, M, F> {
    pub fn new(store: S, deps: ServiceDeps<I, M, F>) -> (res: Self)
        ensures
            res.base_dir() == deps.base_dir@,
    {
        KBService {
            store,
            index: deps.index,
            media_store: deps.media_store,
            media_fetcher: deps.media_fetcher,
            base_dir: deps.base_dir,
        }
    }

    /// The directory under which media files are kept.
    pub closed spec fn base_dir(&self) -> Seq<char> {
        self.base_dir@
    }

    /// The entry store the service reads and writes.
    pub closed spec fn store(&self) -> S {
        self.store
    }

    /// Indexes an entry; a failure is only reported as a warning.
    fn index_quietly(&self, kb: &Kb, prefix: &str, name: &str) {
        let input = embedding_input_for(kb);
        match self.index.index(&input) {
            Ok(()) => {},
            Err(e) => {
                let m = warning_text(prefix, name, &e);
                self.index.warn(m.as_str());
            },
        }
    }

    /// Creates an entry and indexes it. A media entry's file is fetched or
    /// copied first, so a media failure leaves no entry behind; an indexing
    /// failure is only a warning.
    pub fn add_kb(&self, new_kb: NewKb) -> (res: Result<Kb, Error>)
        ensures
            is_media(new_kb.category@) && (new_kb.media_url is None || new_kb.media_url->0@.len()
                == 0) ==> (res matches Err(Error::MediaUrlRequired(k)) && k@ == new_kb.key@),
            res matches Ok(kb) ==> added_from(kb, new_kb) && self.store().saved(kb),
    {
        if is_media_category(new_kb.category.as_str()) {
            self.store_media_for_new_kb(&new_kb)?;
        }
        let kb = self.add_kb_crud(new_kb)?;
        self.index_quietly(&kb, "Warning: could not index embedding for ", kb.key.as_str());
        Ok(kb)
    }

    pub fn get_kb_by_id(&self, id: &str) -> (res: Result<Option<Kb>, Error>)
        ensures
            res matches Ok(Some(kb)) ==> kb.id@ == id@,
            res matches Ok(found) ==> self.store().answered_by_id(id@, found),
    {
        self.store.get_kb_by_id(id)
    }

    pub fn get_kb_by_key(&self, key: &str) -> (res: Result<Option<Kb>, Error>)
        ensures
            res matches Ok(Some(kb)) ==> kb.key@ == key@,
            res matches Ok(found) ==> self.store().answered_by_key(key@, found),
    {
        self.store.get_kb_by_key(key)
    }

    pub fn get_kbs(&self, filter: KbFilter) -> (res: Result<Vec<KbItem>, Error>)
        ensures
            res matches Ok(items) ==> self.store().listed(filter, items@),
    {
        self.store.get_kbs(&filter)
    }

    /// Merges `update` into the stored entry and persists it, re-indexing
    /// only when the embedded text changed (a failure there is only a
    /// warning). The path of a media entry cannot be changed.
    pub fn update_kb(&self, update: KbUpdate) -> (res: Result<(), Error>)
        ensures
            update.path matches Some(p) && p@.len() > 0 && path_fault(p@) is Some ==> res is Err,
            update.metadata matches Some(m) && updated_metadata(Some(m@), seq![]) is Err ==> res is Err,
            res is Ok ==> exists|existing: Kb, stored: Kb|
                {
                    &&& #[trigger] self.store().answered_by_id(update.id@, Some(existing))
                    &&& is_update_of(stored, existing, update)
                    &&& #[trigger] self.store().updated(stored, true)
                },
    {
        let found = self.store.get_kb_by_id(update.id.as_str())?;
        let existing = update_target(found, &update)?;
        self.validate_parent_exists(&update.parent)?;
        let old_text = existing.embedding_text();
        let updated = merge_update(existing, update)?;
        if needs_reindex(old_text.as_str(), &updated) {
            self.index_quietly(
                &updated,
                "Warning: could not update embedding for ",
                updated.id.as_str(),
            );
        }
        self.update_kb_crud(updated)
    }

    /// Deletes an entry and its embedding. An entry with children is
    /// refused; a media entry's file is deleted first, and a failure there
    /// keeps the entry. Removing the embedding may fail with only a warning.
    pub fn delete_kb(&self, id: &str) -> (res: Result<(), Error>)
        ensures
            res is Ok ==> exists|ids: Seq<String>|
                #[trigger] self.store().children_of(id@, ids) && ids.len() == 0,
            res is Ok ==> exists|kb: Kb| #[trigger] self.store().answered_by_id(id@, Some(kb)),
            res is Ok ==> self.store().deleted(id@, true),
    {
        let children = self.store.get_children_ids(id)?;
        check_no_children(&children)?;
        assert(self.store().children_of(id@, children@));
        let found = self.store.get_kb_by_id(id)?;
        let ghost answer = found;
        let existing = found_entry(found)?;
        assert(self.store().answered_by_id(id@, Some(existing)) && answer == Some(existing));
        match media_file_of(&existing, self.base_dir.as_str()) {
            Some(path) => {
                self.media_store.delete_media(path.as_str())?;
            },
            None => {},
        }
        let deleted = self.store.delete_kb(id)?;
        deletion_outcome(deleted)?;
        match self.index.remove(id) {
            Ok(()) => {},
            Err(e) => {
                let m = warning_text("Warning: could not remove embedding for ", id, &e);
                self.index.warn(m.as_str());
            },
        }
        Ok(())
    }

    /// A random entry of `category`, optionally within `namespace`.
    pub fn random(&self, category: &str, namespace: Option<&str>) -> (res: Result<Kb, Error>)
        ensures
            res matches Ok(kb) ==> self.store().drawn(category@, opt_str_view(namespace), kb),
    {
        self.store.random_by_category(category, namespace)
    }

    /// A random quote; `QuoteNotFound` when there is none.
    pub fn quote(&self) -> (res: Result<Kb, Error>)
        ensures
            !(res matches Err(Error::RandomNotFound(_))),
    {
        quote_outcome(self.store.random_by_category("quote", None))
    }

    /// Distinct non-empty categories, optionally within `namespace`, sorted.
    pub fn categories(&self, namespace: Option<&str>) -> (res: Result<Vec<String>, Error>)
        ensures
            res matches Ok(names) ==> self.store().categories_of(opt_str_view(namespace), names@),
    {
        self.store.get_categories(namespace)
    }

    /// Distinct non-empty namespaces, sorted.
    pub fn namespaces(&self) -> (res: Result<Vec<String>, Error>)
        ensures
            res matches Ok(names) ==> self.store().namespaces_of(names@),
    {
        self.store.get_namespaces()
    }

    /// Re-indexes every entry. Only a failure to list the entries is an
    /// error; each entry that cannot be read or indexed is reported in
    /// `failed` with the reason, each one indexed in `succeeded` as
    /// `(key, id)`.
    pub fn reindex(&self) -> (res: Result<ReindexResult, Error>)
        ensures
            res matches Ok(r) ==> exists|all: KbFilter, items: Seq<KbItem>|
                {
                    &&& #[trigger] self.store().listed(all, items)
                    &&& all.category is None && all.namespace is None && all.tags is None
                    &&& all.keyword is None && all.reference is None
                    &&& all.limit is None && all.offset is None
                    &&& r.succeeded@.len() + r.failed@.len() == items.len()
                    &&& exists|flags: Seq<bool>|
                        {
                            &&& #[trigger] flags.len() == items.len()
                            &&& pair_seconds(r.succeeded@) == pick(item_ids(items), flags, true)
                            &&& r.failed@.len() == pick(item_ids(items), flags, false).len()
                        }
                },
    {
        let all = KbFilter::default();
        let items = self.store.get_kbs(&all)?;
        let r = self.reindex_items(&items);
        assert(self.store().listed(all, items@));
        Ok(r)
    }

    /// Re-indexes the listed entries one by one, in order: each is looked
    /// up by id and indexed, landing once in `succeeded` as `(key, id)` or
    /// in `failed` as `reindex_lookup_outcome` and `reindex_index_outcome`
    /// say. The ids in `succeeded` are those of the items that succeeded,
    /// in item order.
    pub fn reindex_items(&self, items: &Vec<KbItem>) -> (res: ReindexResult)
        ensures
            res.succeeded@.len() + res.failed@.len() == items@.len(),
            exists|flags: Seq<bool>|
                {
                    &&& #[trigger] flags.len() == items@.len()
                    &&& pair_seconds(res.succeeded@) == pick(item_ids(items@), flags, true)
                    &&& res.failed@.len() == pick(item_ids(items@), flags, false).len()
                },
    {
        let ghost ids = item_ids(items@);
        let ghost mut flags: Seq<bool> = seq![];
        let mut succeeded: Vec<(String, String)> = Vec::new();
        let mut failed: Vec<(String, String)> = Vec::new();
        let mut i: usize = 0;
        proof {
            assert(pair_seconds(succeeded@) =~= seq![]);
        }
        while i < items.len()
            invariant
                0 <= i <= items@.len(),
                ids == item_ids(items@),
                flags.len() == i,
                succeeded@.len() + failed@.len() == i,
                pair_seconds(succeeded@) == pick(ids.take(i as int), flags, true),
                failed@.len() == pick(ids.take(i as int), flags, false).len(),
            decreases items@.len() - i,
        {
            let id = items[i].id.as_str();
            let ghost x = ids[i as int];
            assert(x == items@[i as int].id@);
            assert(ids.take(i + 1) =~= ids.take(i as int).push(x));
            let ghost old_s = succeeded@;
            let mut ok = false;
            match reindex_lookup_outcome(id, self.store.get_kb_by_id(id)) {
                Err(f) => {
                    failed.push(f);
                },
                Ok(kb) => {
                    let input = embedding_input_for(&kb);
                    match reindex_index_outcome(&kb, self.index.index(&input)) {
                        Ok(pair) => {
                            succeeded.push(pair);
                            ok = true;
                        },
                        Err(f) => {
                            failed.push(f);
                        },
                    }
                },
            }
            proof {
                lemma_pick_push(ids.take(i as int), flags, true, x, ok);
                lemma_pick_push(ids.take(i as int), flags, false, x, ok);
                if ok {
                    assert(pair_seconds(succeeded@) =~= pair_seconds(old_s).push(x));
                } else {
                    assert(succeeded@ == old_s);
                }
                flags = flags.push(ok);
            }
            i = i + 1;
        }
        proof {
            assert(ids.take(items@.len() as int) =~= ids);
        }
        ReindexResult { succeeded, failed }
    }

    /// Imports entries; each saved entry is indexed (a failure there is
    /// only a warning). Never fails as a whole: every item is either saved
    /// or reported in `failed` with the reason, in input order. An item
    /// that `ImportKbItem::validate` refuses fails with that reason.
    pub fn import_kbs(&self, items: Vec<ImportKbItem>) -> (res: ImportBatchResult)
        ensures
            res.saved@.len() + res.failed@.len() == items@.len(),
            exists|flags: Seq<bool>|
                {
                    &&& #[trigger] flags.len() == items@.len()
                    &&& failed_import_keys(res.failed@) == pick(import_keys(items@), flags, false)
                    &&& kb_keys(res.saved@) == lowercased(pick(import_keys(items@), flags, true))
                    &&& forall|i: int|
                        0 <= i < items@.len() && import_item_problem(
                            #[trigger] items@[i].key@,
                            items@[i].value@,
                            opt_view(items@[i].path),
                        ) is Some ==> !flags[i]
                },
            forall|j: int|
                0 <= j < res.failed@.len() ==> (import_item_problem(
                    #[trigger] res.failed@[j].item.key@,
                    res.failed@[j].item.value@,
                    opt_view(res.failed@[j].item.path),
                ) matches Some(m) ==> res.failed@[j].reason@ == m),
    {
        let ghost ik = import_keys(items@);
        let ghost mut flags: Seq<bool> = seq![];
        let mut saved: Vec<Kb> = Vec::new();
        let mut failed: Vec<FailedImportItem> = Vec::new();
        let mut i: usize = 0;
        proof {
            assert(ik.take(0) =~= seq![]);
            assert(failed_import_keys(failed@) =~= seq![]);
            assert(kb_keys(saved@) =~= seq![]);
            assert(lowercased(pick(ik.take(0), flags, true)) =~= seq![]);
        }
        while i < items.len()
            invariant
                0 <= i <= items@.len(),
                ik == import_keys(items@),
                flags.len() == i,
                saved@.len() + failed@.len() == i,
                failed_import_keys(failed@) == pick(ik.take(i as int), flags, false),
                kb_keys(saved@) == lowercased(pick(ik.take(i as int), flags, true)),
                forall|k: int|
                    0 <= k < i && import_item_problem(
                        #[trigger] items@[k].key@,
                        items@[k].value@,
                        opt_view(items@[k].path),
                    ) is Some ==> !flags[k],
                forall|j: int|
                    0 <= j < failed@.len() ==> (import_item_problem(
                        #[trigger] failed@[j].item.key@,
                        failed@[j].item.value@,
                        opt_view(failed@[j].item.path),
                    ) matches Some(m) ==> failed@[j].reason@ == m),
            decreases items@.len() - i,
        {
            let item = clone_import_item(&items[i]);
            let ghost x = ik[i as int];
            assert(x == items@[i as int].key@);
            assert(ik.take(i + 1) =~= ik.take(i as int).push(x));
            let ghost old_failed = failed@;
            let ghost old_saved = saved@;
            let outcome = self.import_one(&item);
            proof {
                if let Some(m) = import_item_problem(item.key@, item.value@, opt_view(item.path)) {
                    assert(outcome matches Err(r) && r@ == m);
                }
            }
            match outcome {
                Ok(kb) => {
                    self.index_quietly(
                        &kb,
                        "Warning: could not index embedding for ",
                        kb.key.as_str(),
                    );
                    saved.push(kb);
                    proof {
                        crate::service::graph_service::lemma_pick_push(
                            ik.take(i as int),
                            flags,
                            true,
                            x,
                            true,
                        );
                        crate::service::graph_service::lemma_pick_push(
                            ik.take(i as int),
                            flags,
                            false,
                            x,
                            true,
                        );
                        assert(kb_keys(saved@) =~= kb_keys(old_saved).push(kb.key@));
                        assert(lowercased(pick(ik.take(i as int), flags, true).push(x))
                            =~= lowercased(pick(ik.take(i as int), flags, true)).push(
                            lowercase(x),
                        ));
                        flags = flags.push(true);
                    }
                },
                Err(r) => {
                    failed.push(FailedImportItem { item, reason: r });
                    proof {
                        crate::service::graph_service::lemma_pick_push(
                            ik.take(i as int),
                            flags,
                            true,
                            x,
                            false,
                        );
                        crate::service::graph_service::lemma_pick_push(
                            ik.take(i as int),
                            flags,
                            false,
                            x,
                            false,
                        );
                        assert(failed_import_keys(failed@) =~= failed_import_keys(old_failed).push(
                            x,
                        ));
                        assert forall|j: int| 0 <= j < failed@.len() implies (import_item_problem(
                            #[trigger] failed@[j].item.key@,
                            failed@[j].item.value@,
                            opt_view(failed@[j].item.path),
                        ) matches Some(m) ==> failed@[j].reason@ == m) by {
                            if j < old_failed.len() {
                                assert(failed@[j] == old_failed[j]);
                                assert(old_failed[j].item.key@ == failed@[j].item.key@);
                            } else {
                                assert(failed@[j].item.key@ == items@[i as int].key@);
                                assert(failed@[j].item.value@ == items@[i as int].value@);
                                assert(opt_view(failed@[j].item.path) == opt_view(
                                    items@[i as int].path,
                                ));
                                assert(failed@[j].reason == r);
                                if let Some(m) = import_item_problem(
                                    item.key@,
                                    item.value@,
                                    opt_view(item.path),
                                ) {
                                    assert(r@ == m);
                                }
                            }
                        }
                        flags = flags.push(false);
                    }
                },
            }
            i = i + 1;
        }
        proof {
            assert(ik.take(items@.len() as int) =~= ik);
        }
        ImportBatchResult { saved, failed }
    }

    /// One import item: validated, its parent key resolved, then added.
    fn import_one(&self, item: &ImportKbItem) -> (res: Result<Kb, String>)
        ensures
            import_item_problem(item.key@, item.value@, opt_view(item.path)) matches Some(m) ==> (
            res matches Err(r) && r@ == m),
            res matches Ok(kb) ==> kb.key@ == lowercase(item.key@),
            res matches Ok(kb) ==> (kb.parent is None <==> item.parent_key is None),
    {
        match item.validate() {
            Some(reason) => {
                return Err(reason);
            },
            None => {},
        }
        let parent_id = match &item.parent_key {
            Some(pk) => Some(import_parent(pk.as_str(), self.store.get_kb_by_key(pk.as_str()))?),
            None => None,
        };
        let mut new_kb = NewKb::from(clone_import_item(item));
        new_kb.parent = parent_id;
        match self.add_kb_crud(new_kb) {
            Ok(kb) => Ok(kb),
            Err(e) => Err(e.message()),
        }
    }

    /// The entries matching `filter` as `kb export` writes them, parents
    /// before their children (see `export_items_for_kbs`).
    pub fn export_kbs(&self, filter: KbFilter) -> (res: Result<Vec<ExportKbItem>, Error>)
        ensures
            match res {
                Ok(v) => exists|all: Seq<Kb>|
                    #[trigger] export_of(all, v@) && self.store().listed_full(filter, all),
                Err(_) => true,
            },
    {
        let kbs = self.store.get_kbs_full(&filter)?;
        let out = export_items_for_kbs(&kbs);
        let res: Result<Vec<ExportKbItem>, Error> = Ok(out);
        assert(export_of(kbs@, res->Ok_0@));
        res
    }

    /// Copies media files to `params.target_dir` as `media_export_plan`
    /// says; the number of files copied. Entry by entry, every media entry
    /// with an extension is copied, so on success the count is theirs.
    pub fn export_media(&self, params: ExportMediaParams) -> (res: Result<u64, Error>)
        ensures
            (match opt_view(params.category) {
                Some(c) => !is_media(c),
                None => params.namespace is Some,
            }) ==> (res matches Ok(n) ==> n == media_file_count(params.items@)),
            (match opt_view(params.category) {
                Some(c) => !is_media(c),
                None => params.namespace is Some,
            }) && media_file_count(params.items@) == 0 ==> res == Ok::<u64, Error>(0),
    {
        match media_export_plan(self.base_dir.as_str(), &params) {
            MediaExportPlan::Tree { source, destination } => {
                return self.media_store.copy_dir(source.as_str(), destination.as_str());
            },
            MediaExportPlan::PerItem => {},
        }
        let copies = media_copies(self.base_dir.as_str(), &params.items, params.target_dir.as_str());
        proof {
            lemma_media_copy_count(self.base_dir@, params.target_dir@, params.items@);
        }
        let mut count: u64 = 0;
        let mut i: usize = 0;
        while i < copies.len()
            invariant
                0 <= i <= copies@.len(),
                count == i,
                copies@.len() == media_file_count(params.items@),
                media_file_count(params.items@) <= params.items@.len(),
            decreases copies@.len() - i,
        {
            self.media_store.store_media(&copies[i])?;
            count = count + 1;
            i = i + 1;
        }
        Ok(count)
    }

    /// Adds an entry: refuses a key in use (compared lower-cased) and an
    /// unknown parent, normalises the path, then persists.
    fn add_kb_crud(&self, new_kb: NewKb) -> (res: Result<Kb, Error>)
        ensures
            res matches Ok(kb) ==> added_from(kb, new_kb) && self.store().saved(kb),
    {
        let mut new_kb = new_kb;
        let key = to_lowercase(new_kb.key.as_str());
        if self.store.get_kb_by_key(key.as_str())?.is_some() {
            return Err(Error::DuplicateKBError);
        }
        self.validate_parent_exists(&new_kb.parent)?;
        let path = match &new_kb.path {
            Some(p) => {
                if p.unicode_len() == 0 {
                    None
                } else {
                    Some(normalize_path(p.as_str())?)
                }
            },
            None => None,
        };
        new_kb.path = path;
        let kb = Kb::from(new_kb);
        self.store.save_kb(&kb)?;
        Ok(kb)
    }

    /// Persists an updated entry; refuses a key that another entry has.
    fn update_kb_crud(&self, kb: Kb) -> (res: Result<(), Error>)
        ensures
            res is Ok ==> self.store().updated(kb, true),
    {
        let owner = self.store.get_kb_by_key(kb.key.as_str())?;
        check_key_owner(&owner, kb.id.as_str())?;
        let updated = self.store.update_kb(&kb)?;
        if !updated {
            return Err(Error::KBWasNotUpdatedError);
        }
        Ok(())
    }

    /// Fetches (remote URL) or takes (local path) the media file of a new
    /// entry and copies it to where the entry's media lives.
    fn store_media_for_new_kb(&self, new_kb: &NewKb) -> (res: Result<(), Error>)
        ensures
            new_kb.media_url is None || new_kb.media_url->0@.len() == 0 ==> (res matches Err(
                Error::MediaUrlRequired(k),
            ) && k@ == new_kb.key@),
    {
        let url = match &new_kb.media_url {
            Some(u) => {
                if u.unicode_len() == 0 {
                    return Err(Error::MediaUrlRequired(new_kb.key.clone()));
                }
                u
            },
            None => {
                return Err(Error::MediaUrlRequired(new_kb.key.clone()));
            },
        };
        let remote = crate::domain::paths::is_remote_url(url.as_str());
        let source = if remote {
            self.media_fetcher.fetch(url.as_str())?
        } else {
            url.clone()
        };
        let destination = media_destination(new_kb, self.base_dir.as_str(), url.as_str());
        let result = self.media_store.store_media(
            &StoreMediaParams { source: source.clone(), destination },
        );
        if remote {
            self.media_fetcher.discard(source.as_str());
        }
        match result {
            Ok(_) => Ok(()),
            Err(e) => Err(e),
        }
    }

    /// `ParentKBNotFound` when a parent id is given and no entry has it.
    fn validate_parent_exists(&self, parent: &Option<String>) -> (res: Result<(), Error>)
        ensures
            parent is None ==> res == Ok::<(), Error>(()),
    {
        match parent {
            Some(pid) => parent_outcome(self.store.get_kb_by_id(pid.as_str())?),
            None => Ok(()),
        }
    }
}

} // verus!
