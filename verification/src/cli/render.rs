//! What the command line computes before it prints: tag lists, previews,
//! relationship listings and trees, and the checks on its flags.

use vstd::prelude::*;

use crate::cli::params::{AddParams, SearchParams};
use crate::domain::graph::{
    EdgeDirection, IncomingEdge, OutgoingEdge, RelatedResult, TreeNode, TreeResult,
};
use crate::domain::kb::{opt_view, KbFilter, KbItem, NewKb};
use crate::domain::metadata::{format_metadata, metadata_text};
use crate::domain::tag_suggestion::{suggest_tags, suggestion_words, top_words, TagSuggestionInput};
use crate::errors::Error;
use crate::text::{is_ws, trim_end_seq, trim_start_seq};
use crate::text::{
    chars_of, decimal, join, join_seq, owned, pad_right, push_char, push_padded, push_str,
    split_char, split_seq, str_eq, string_from_chars, trim, trim_seq, u64_to_string, views,
    signed_decimal, i64_to_string,
};

verus! {

// ---------------------------------------------------------------------------
// Tags
// ---------------------------------------------------------------------------

/// The non-blank trimmed parts of `parts`, in order.
pub open spec fn nonblank_trimmed(parts: Seq<Seq<char>>) -> Seq<Seq<char>>
    decreases parts.len(),
{
    if parts.len() == 0 {
        seq![]
    } else {
        let rest = nonblank_trimmed(parts.drop_last());
        let t = trim_seq(parts.last());
        if t.len() > 0 {
            rest.push(t)
        } else {
            rest
        }
    }
}

/// Splits comma-separated tags, trims them and drops the blank ones.
pub fn parse_tags(input: &str) -> (res: Vec<String>)
    ensures
        views(res@) == nonblank_trimmed(split_seq(input@, ',')),
{
    let parts = split_char(input, ',');
    let ghost pv = views(parts@);
    let mut res: Vec<String> = Vec::new();
    let mut i: usize = 0;
    assert(pv.take(0) =~= seq![]);
    assert(views(res@) =~= seq![]);
    while i < parts.len()
        invariant
            0 <= i <= parts@.len(),
            pv == views(parts@),
            pv == split_seq(input@, ','),
            views(res@) == nonblank_trimmed(pv.take(i as int)),
        decreases parts@.len() - i,
    {
        assert(pv.take(i + 1).drop_last() =~= pv.take(i as int));
        assert(pv.take(i + 1).last() == parts@[i as int]@);
        let t = trim(parts[i].as_str());
        if t.unicode_len() > 0 {
            let ghost before = res@;
            res.push(t);
            assert(views(res@) =~= views(before).push(t@));
        }
        i = i + 1;
    }
    assert(pv.take(parts@.len() as int) =~= pv);
    res
}

proof fn lemma_split_append_plain(a: Seq<char>, b: Seq<char>, sep: char)
    requires
        !b.contains(sep),
    ensures
        split_seq(a + b, sep) == split_seq(a, sep).update(
            split_seq(a, sep).len() - 1,
            split_seq(a, sep).last() + b,
        ),
    decreases b.len(),
{
    crate::text::lemma_split_nonempty(a, sep);
    if b.len() == 0 {
        assert(a + b =~= a);
        assert(split_seq(a, sep).last() + b =~= split_seq(a, sep).last());
        assert(split_seq(a, sep).update(split_seq(a, sep).len() - 1, split_seq(a, sep).last())
            =~= split_seq(a, sep));
    } else {
        let b0 = b.drop_last();
        assert(!b0.contains(sep)) by {
            if b0.contains(sep) {
                let k = choose|k: int| 0 <= k < b0.len() && b0[k] == sep;
                assert(b[k] == sep);
            }
        }
        lemma_split_append_plain(a, b0, sep);
        assert((a + b).drop_last() =~= a + b0);
        assert((a + b).last() == b.last());
        assert(b.last() == b[b.len() - 1]);
        let r = split_seq(a, sep);
        let r0 = split_seq(a + b0, sep);
        assert(r0.len() == r.len());
        assert(r0.last() == r.last() + b0);
        assert((r.last() + b0).push(b.last()) =~= r.last() + b);
        assert(r0.update(r0.len() - 1, r0.last().push(b.last())) =~= r.update(
            r.len() - 1,
            r.last() + b,
        ));
    }
}

pub(crate) proof fn lemma_trim_lens(s: Seq<char>)
    ensures
        trim_start_seq(s).len() <= s.len(),
        trim_end_seq(s).len() <= s.len(),
        s.len() > 0 && is_ws(s[0]) ==> trim_start_seq(s).len() < s.len(),
    decreases s.len(),
{
    if s.len() > 0 {
        lemma_trim_lens(s.drop_first());
        lemma_trim_lens(s.drop_last());
    }
}

/// A trimmed non-empty tag stays itself after a leading space is trimmed.
pub(crate) proof fn lemma_trim_spaced(t: Seq<char>)
    requires
        t.len() > 0,
        trim_seq(t) == t,
    ensures
        trim_seq(seq![' '] + t) == t,
{
    lemma_trim_lens(t);
    lemma_trim_lens(trim_start_seq(t));
    if is_ws(t[0]) {
        assert(trim_seq(t).len() < t.len());
    }
    assert(trim_start_seq(t) == t);
    let st = seq![' '] + t;
    assert(is_ws(' '));
    assert(st.drop_first() =~= t);
    assert(trim_start_seq(st) == trim_start_seq(t));
}

/// The pieces of tags joined with `", "` and split at `,`: the first tag,
/// then each later one after a space.
pub open spec fn spaced_tags(tags: Seq<Seq<char>>) -> Seq<Seq<char>> {
    Seq::new(tags.len(), |i: int| if i == 0 {
        tags[0]
    } else {
        seq![' '] + tags[i]
    })
}

pub(crate) proof fn lemma_split_joined(tags: Seq<Seq<char>>)
    requires
        tags.len() > 0,
        forall|i: int| 0 <= i < tags.len() ==> !(#[trigger] tags[i]).contains(','),
    ensures
        split_seq(join_seq(tags, seq![',', ' ']), ',') == spaced_tags(tags),
    decreases tags.len(),
{
    if tags.len() == 1 {
        lemma_split_append_plain(seq![], tags[0], ',');
        assert(seq![] + tags[0] =~= tags[0]);
        assert(split_seq(seq![], ',') =~= seq![seq![]]);
        assert(seq![] + tags[0] =~= tags[0]);
        assert(spaced_tags(tags) =~= seq![tags[0]]);
    } else {
        let init = tags.drop_last();
        assert forall|i: int| 0 <= i < init.len() implies !(#[trigger] init[i]).contains(',') by {
            assert(init[i] == tags[i]);
        }
        lemma_split_joined(init);
        let j = join_seq(init, seq![',', ' ']);
        let last = tags.last();
        assert(last == tags[tags.len() - 1]);
        let sl = seq![' '] + last;
        assert(!sl.contains(',')) by {
            if sl.contains(',') {
                let k = choose|k: int| 0 <= k < sl.len() && sl[k] == ',';
                assert(k > 0);
                assert(last[k - 1] == ',');
            }
        }
        assert(join_seq(tags, seq![',', ' ']) =~= (j + seq![',']) + sl);
        lemma_split_append_plain(j + seq![','], sl, ',');
        assert((j + seq![',']).drop_last() =~= j);
        assert((j + seq![',']).last() == ',');
        crate::text::lemma_split_nonempty(j, ',');
        let r = split_seq(j + seq![','], ',');
        assert(r == split_seq(j, ',').push(seq![]));
        assert(r.last() + sl =~= sl);
        assert(r.update(r.len() - 1, r.last() + sl) =~= spaced_tags(tags));
    }
}

proof fn lemma_nonblank_spaced(tags: Seq<Seq<char>>)
    requires
        forall|i: int| 0 <= i < tags.len() ==> (#[trigger] tags[i]).len() > 0 && trim_seq(tags[i])
            == tags[i],
    ensures
        nonblank_trimmed(spaced_tags(tags)) == tags,
    decreases tags.len(),
{
    if tags.len() > 0 {
        let init = tags.drop_last();
        assert forall|i: int| 0 <= i < init.len() implies (#[trigger] init[i]).len() > 0
            && trim_seq(init[i]) == init[i] by {
            assert(init[i] == tags[i]);
        }
        lemma_nonblank_spaced(init);
        let sp = spaced_tags(tags);
        let last = tags[tags.len() - 1];
        if tags.len() > 1 {
            assert(sp.drop_last() =~= spaced_tags(init));
            assert(sp.last() == seq![' '] + last);
            lemma_trim_spaced(last);
        } else {
            assert(sp.drop_last() =~= spaced_tags(init));
            assert(sp.last() == last);
        }
        assert(init.push(last) =~= tags);
    }
}

/// Tags joined with `", "` and parsed back with `parse_tags` are the same
/// tags, provided each is non-empty, already trimmed and free of commas.
pub proof fn lemma_tags_join_parse(tags: Seq<Seq<char>>)
    requires
        forall|i: int| 0 <= i < tags.len() ==> (#[trigger] tags[i]).len() > 0 && trim_seq(tags[i])
            == tags[i] && !tags[i].contains(','),
    ensures
        nonblank_trimmed(split_seq(join_seq(tags, seq![',', ' ']), ',')) == tags,
{
    if tags.len() == 0 {
        let e: Seq<char> = seq![];
        let ss: Seq<Seq<char>> = seq![e];
        assert(join_seq(tags, seq![',', ' ']) =~= e);
        assert(split_seq(e, ',') =~= ss);
        assert(trim_start_seq(e) =~= e);
        assert(trim_end_seq(e) =~= e);
        assert(ss.drop_last() =~= Seq::<Seq<char>>::empty());
        assert(ss.last() == e);
        assert(trim_seq(e).len() == 0);
        assert(nonblank_trimmed(Seq::<Seq<char>>::empty()) =~= Seq::<Seq<char>>::empty());
        assert(nonblank_trimmed(ss) =~= tags);
    } else {
        lemma_split_joined(tags);
        lemma_nonblank_spaced(tags);
    }
}

pub open spec fn str_views(s: Seq<&str>) -> Seq<Seq<char>> {
    s.map_values(|x: &str| x@)
}

/// Up to five tag suggestions from `fields`, leaving out `existing_tags`.
pub fn suggested_tags_for(fields: &[&str], existing_tags: &[String]) -> (res: Vec<String>)
    ensures
        top_words(suggestion_words(str_views(fields@), views(existing_tags@)), 5, views(res@)),
{
    let mut text_fields: Vec<String> = Vec::new();
    let mut i: usize = 0;
    while i < fields.len()
        invariant
            0 <= i <= fields@.len(),
            views(text_fields@) == str_views(fields@).take(i as int),
        decreases fields@.len() - i,
    {
        let ghost before = text_fields@;
        text_fields.push(owned(fields[i]));
        assert(views(text_fields@) =~= views(before).push(fields@[i as int]@));
        assert(str_views(fields@).take(i + 1) =~= str_views(fields@).take(i as int).push(
            fields@[i as int]@,
        ));
        i = i + 1;
    }
    assert(str_views(fields@).take(fields@.len() as int) =~= str_views(fields@));
    let mut existing: Vec<String> = Vec::new();
    let mut j: usize = 0;
    while j < existing_tags.len()
        invariant
            0 <= j <= existing_tags@.len(),
            views(existing@) == views(existing_tags@).take(j as int),
        decreases existing_tags@.len() - j,
    {
        let ghost before = existing@;
        existing.push(existing_tags[j].clone());
        assert(views(existing@) =~= views(before).push(existing_tags@[j as int]@));
        assert(views(existing_tags@).take(j + 1) =~= views(existing_tags@).take(j as int).push(
            existing_tags@[j as int]@,
        ));
        j = j + 1;
    }
    assert(views(existing_tags@).take(existing_tags@.len() as int) =~= views(existing_tags@));
    suggest_tags(&TagSuggestionInput { text_fields, existing_tags: existing }, 5)
}

// ---------------------------------------------------------------------------
// Preview of a new entry
// ---------------------------------------------------------------------------

/// The preview shown before a new entry is saved.
pub open spec fn preview_text(kb: NewKb) -> Seq<char> {
    "  key       : "@ + kb.key@ + "\n  value     : "@ + kb.value@ + "\n  notes     : "@
        + kb.notes@ + "\n  category  : "@ + kb.category@ + "\n  namespace : "@ + kb.namespace@
        + "\n  reference : "@ + kb.reference@ + "\n  tags      : "@ + join_seq(
        views(kb.tags@),
        seq![',', ' '],
    ) + "\n  metadata  : "@ + metadata_text(kb.metadata.pairs()) + "\n  path      : "@ + (
    match opt_view(kb.path) {
        Some(p) => p,
        None => "-"@,
    }) + "\n  parent    : "@ + (match opt_view(kb.parent) {
        Some(p) => p,
        None => "(none)"@,
    }) + (match opt_view(kb.media_url) {
        Some(u) => "\n  media_url : "@ + u,
        None => seq![],
    })
}

/// The preview of a new entry, one `label : value` line per field.
pub fn format_preview(kb: &NewKb) -> (res: String)
    ensures
        res@ == preview_text(*kb),
{
    let mut s = owned("  key       : ");
    push_str(&mut s, kb.key.as_str());
    push_str(&mut s, "\n  value     : ");
    push_str(&mut s, kb.value.as_str());
    push_str(&mut s, "\n  notes     : ");
    push_str(&mut s, kb.notes.as_str());
    push_str(&mut s, "\n  category  : ");
    push_str(&mut s, kb.category.as_str());
    push_str(&mut s, "\n  namespace : ");
    push_str(&mut s, kb.namespace.as_str());
    push_str(&mut s, "\n  reference : ");
    push_str(&mut s, kb.reference.as_str());
    push_str(&mut s, "\n  tags      : ");
    let tags = join(&kb.tags, ", ");
    proof {
        reveal_strlit(", ");
    }
    assert(", "@ =~= seq![',', ' ']);
    push_str(&mut s, tags.as_str());
    push_str(&mut s, "\n  metadata  : ");
    let md = format_metadata(&kb.metadata);
    push_str(&mut s, md.as_str());
    push_str(&mut s, "\n  path      : ");
    match &kb.path {
        Some(p) => push_str(&mut s, p.as_str()),
        None => push_str(&mut s, "-"),
    }
    push_str(&mut s, "\n  parent    : ");
    match &kb.parent {
        Some(p) => push_str(&mut s, p.as_str()),
        None => push_str(&mut s, "(none)"),
    }
    match &kb.media_url {
        Some(u) => {
            push_str(&mut s, "\n  media_url : ");
            push_str(&mut s, u.as_str());
        },
        None => {},
    }
    assert(s@ =~= preview_text(*kb));
    s
}

// ---------------------------------------------------------------------------
// Flags
// ---------------------------------------------------------------------------

/// The three relationship flags of `kb get`.
pub struct RelationshipFlags {
    pub with_out: bool,
    pub with_in: bool,
    pub with_all: bool,
}

/// The direction of relationships to show for `kb get`: both when
/// `with_all` or both single flags are set, one when one is, none when no
/// flag is.
pub fn resolve_relationship_direction(flags: RelationshipFlags) -> (res: Option<EdgeDirection>)
    ensures
        res == (if flags.with_all || (flags.with_out && flags.with_in) {
            Some(EdgeDirection::Both)
        } else if flags.with_out {
            Some(EdgeDirection::Out)
        } else if flags.with_in {
            Some(EdgeDirection::In)
        } else {
            None
        }),
{
    if flags.with_all || (flags.with_out && flags.with_in) {
        Some(EdgeDirection::Both)
    } else if flags.with_out {
        Some(EdgeDirection::Out)
    } else if flags.with_in {
        Some(EdgeDirection::In)
    } else {
        None
    }
}

/// Some field flag of `kb add` is given along with `--json`.
pub open spec fn has_field_flag(p: AddParams) -> bool {
    p.key is Some || p.value is Some || p.notes@.len() > 0 || p.category@.len() > 0
        || p.namespace@.len() > 0 || p.reference@.len() > 0 || p.tags@.len() > 0
        || p.metadata@.len() > 0 || p.interactive || p.parent is Some || p.path is Some
        || p.media_url is Some
}

pub open spec fn conflicting_flags_message() -> Seq<char> {
    "--json cannot be combined with --key/--value/--notes/--category/--namespace/--reference/--tags/--metadata/--interactive/--parent/--path/--media-url"@
}

/// Refuses `--json` together with any field flag of `kb add`.
pub fn assert_no_conflicting_add_flags(params: &AddParams) -> (res: Result<(), Error>)
    ensures
        has_field_flag(*params) ==> (res matches Err(Error::ConflictingAddFlags(m)) && m@
            == conflicting_flags_message()),
        !has_field_flag(*params) ==> res is Ok,
{
    let conflicts = params.key.is_some() || params.value.is_some() || params.notes.unicode_len()
        > 0 || params.category.unicode_len() > 0 || params.namespace.unicode_len() > 0
        || params.reference.unicode_len() > 0 || params.tags.len() > 0 || params.metadata.len() > 0
        || params.interactive || params.parent.is_some() || params.path.is_some()
        || params.media_url.is_some();
    if conflicts {
        return Err(
            Error::ConflictingAddFlags(
                owned(
                    "--json cannot be combined with --key/--value/--notes/--category/--namespace/--reference/--tags/--metadata/--interactive/--parent/--path/--media-url",
                ),
            ),
        );
    }
    Ok(())
}

/// A `KEY=VALUE` token split at its first `=`.
pub fn parse_key_val(s: &str) -> (res: Result<(String, String), String>)
    ensures
        crate::domain::metadata::first_index_of(s@, '=') >= 0 ==> (res matches Ok(kv) && {
            let i = crate::domain::metadata::first_index_of(s@, '=');
            kv.0@ == s@.take(i) && kv.1@ == s@.skip(i + 1)
        }),
        crate::domain::metadata::first_index_of(s@, '=') < 0 ==> (res matches Err(m) && m@
            == "invalid KEY=VALUE pair (missing '='): "@ + s@),
{
    match crate::domain::metadata::split_once(s, '=') {
        Some((k, v)) => Ok((k, v)),
        None => {
            let mut m = owned("invalid KEY=VALUE pair (missing '='): ");
            push_str(&mut m, s);
            Err(m)
        },
    }
}

// ---------------------------------------------------------------------------
// Search listing
// ---------------------------------------------------------------------------

/// The filter `kb search` runs: the given fields, no tag filter when no
/// tags are given, and the page.
pub fn search_filter(params: SearchParams) -> (res: KbFilter)
    ensures
        opt_view(res.keyword) == opt_view(params.keyword),
        opt_view(res.category) == opt_view(params.category),
        opt_view(res.namespace) == opt_view(params.namespace),
        opt_view(res.reference) == opt_view(params.reference),
        params.tags@.len() == 0 ==> res.tags is None,
        params.tags@.len() > 0 ==> (res.tags matches Some(t) && views(t@) == views(params.tags@)),
        res.limit == Some(params.limit),
        res.offset == Some(params.offset),
{
    let tags = if params.tags.len() == 0 {
        None
    } else {
        Some(params.tags)
    };
    KbFilter {
        keyword: params.keyword,
        category: params.category,
        namespace: params.namespace,
        tags,
        reference: params.reference,
        limit: Some(params.limit),
        offset: Some(params.offset),
    }
}

/// The `name=value` summary of the filters of `kb search`, or `none`.
pub open spec fn filter_parts(p: SearchParams) -> Seq<Seq<char>> {
    let a: Seq<Seq<char>> = match opt_view(p.keyword) {
        Some(k) => seq!["keyword="@ + k],
        None => seq![],
    };
    let b: Seq<Seq<char>> = match opt_view(p.category) {
        Some(c) => seq!["category="@ + c],
        None => seq![],
    };
    let c: Seq<Seq<char>> = match opt_view(p.namespace) {
        Some(n) => seq!["namespace="@ + n],
        None => seq![],
    };
    let d: Seq<Seq<char>> = if p.tags@.len() > 0 {
        seq!["tags="@ + join_seq(views(p.tags@), seq![','])]
    } else {
        seq![]
    };
    let e: Seq<Seq<char>> = match opt_view(p.reference) {
        Some(r) => seq!["reference="@ + r],
        None => seq![],
    };
    a + b + c + d + e
}

pub open spec fn filter_summary(p: SearchParams) -> Seq<char> {
    if filter_parts(p).len() == 0 {
        "none"@
    } else {
        join_seq(filter_parts(p), seq![' '])
    }
}

fn labelled(label: &str, value: &str) -> (res: String)
    ensures
        res@ == label@ + value@,
{
    let mut s = owned(label);
    push_str(&mut s, value);
    s
}

/// The filters of a search as its header shows them.
pub fn search_filter_summary(params: &SearchParams) -> (res: String)
    ensures
        res@ == filter_summary(*params),
{
    let mut parts: Vec<String> = Vec::new();
    let ghost mut expect: Seq<Seq<char>> = seq![];
    match &params.keyword {
        Some(k) => {
            parts.push(labelled("keyword=", k.as_str()));
        },
        None => {},
    }
    match &params.category {
        Some(c) => {
            parts.push(labelled("category=", c.as_str()));
        },
        None => {},
    }
    match &params.namespace {
        Some(n) => {
            parts.push(labelled("namespace=", n.as_str()));
        },
        None => {},
    }
    if params.tags.len() > 0 {
        let t = join(&params.tags, ",");
        proof {
            reveal_strlit(",");
        }
        assert(","@ =~= seq![',']);
        parts.push(labelled("tags=", t.as_str()));
    }
    match &params.reference {
        Some(r) => {
            parts.push(labelled("reference=", r.as_str()));
        },
        None => {},
    }
    assert(views(parts@) =~= filter_parts(*params));
    if parts.len() == 0 {
        owned("none")
    } else {
        let s = join(&parts, " ");
        proof {
            reveal_strlit(" ");
        }
        assert(" "@ =~= seq![' ']);
        s
    }
}

/// Column widths of the entry table.
pub const COL_ID: usize = 36;
pub const COL_KEY: usize = 24;
pub const COL_CAT: usize = 12;
pub const COL_NS: usize = 14;
pub const COL_TAGS: usize = 30;

/// One row of the entry table.
pub open spec fn table_row_text(item: KbItem) -> Seq<char> {
    pad_right(item.id@, 36) + "  "@ + pad_right(item.key@, 24) + "  "@ + pad_right(
        item.category@,
        12,
    ) + "  "@ + pad_right(item.namespace@, 14) + "  "@ + pad_right(
        join_seq(views(item.tags@), seq![',', ' ']),
        30,
    )
}

/// One row of the entry table: id, key, category, namespace and tags,
/// each padded to its column.
pub fn table_row(item: &KbItem) -> (res: String)
    ensures
        res@ == table_row_text(*item),
{
    let mut s = String::new();
    push_padded(&mut s, item.id.as_str(), COL_ID);
    push_str(&mut s, "  ");
    push_padded(&mut s, item.key.as_str(), COL_KEY);
    push_str(&mut s, "  ");
    push_padded(&mut s, item.category.as_str(), COL_CAT);
    push_str(&mut s, "  ");
    push_padded(&mut s, item.namespace.as_str(), COL_NS);
    push_str(&mut s, "  ");
    let tags = join(&item.tags, ", ");
    proof {
        reveal_strlit(", ");
    }
    assert(", "@ =~= seq![',', ' ']);
    push_padded(&mut s, tags.as_str(), COL_TAGS);
    assert(s@ =~= table_row_text(*item));
    s
}

// ---------------------------------------------------------------------------
// Relationship listings
// ---------------------------------------------------------------------------

/// A note as listings show it: at most 40 characters, a longer one cut to
/// 39 and ended with `…`.
pub open spec fn truncated(note: Seq<char>) -> Seq<char> {
    if note.len() <= 40 {
        note
    } else {
        note.take(39).push('…')
    }
}

/// Cuts a note to at most 40 characters (not bytes), ending a cut one
/// with `…`.
pub fn truncate_note(note: &str) -> (res: String)
    ensures
        res@ == truncated(note@),
{
    let cs = chars_of(note);
    if cs.len() <= 40 {
        return owned(note);
    }
    let mut head = string_from_chars(&cs.as_slice()[0..39]);
    push_char(&mut head, '…');
    assert(head@ =~= note@.take(39).push('…'));
    head
}

/// A line of a relationship listing.
pub open spec fn edge_line(key: Seq<char>, category: Seq<char>, note: Seq<char>) -> Seq<char> {
    "  "@ + pad_right(key, 24) + "  "@ + pad_right(category, 12) + "  \""@ + truncated(note)
        + "\"\n"@
}

fn push_edge_line(out: &mut String, key: &str, category: &str, note: &str)
    ensures
        final(out)@ == old(out)@ + edge_line(key@, category@, note@),
{
    push_str(out, "  ");
    push_padded(out, key, COL_KEY);
    push_str(out, "  ");
    push_padded(out, category, COL_CAT);
    push_str(out, "  \"");
    let t = truncate_note(note);
    push_str(out, t.as_str());
    push_str(out, "\"\n");
    assert(final(out)@ =~= old(out)@ + edge_line(key@, category@, note@));
}

pub open spec fn outgoing_lines(es: Seq<OutgoingEdge>) -> Seq<char>
    decreases es.len(),
{
    if es.len() == 0 {
        seq![]
    } else {
        outgoing_lines(es.drop_last()) + edge_line(
            es.last().to.key@,
            es.last().to.category@,
            es.last().note@,
        )
    }
}

pub open spec fn incoming_lines(es: Seq<IncomingEdge>) -> Seq<char>
    decreases es.len(),
{
    if es.len() == 0 {
        seq![]
    } else {
        incoming_lines(es.drop_last()) + edge_line(
            es.last().from.key@,
            es.last().from.category@,
            es.last().note@,
        )
    }
}

/// The text `kb related` prints: the outgoing section unless the direction
/// is `In`, the incoming one unless it is `Out`.
pub open spec fn related_text(r: RelatedResult, d: EdgeDirection) -> Seq<char> {
    (if d != EdgeDirection::In {
        "→ "@ + r.node.key@ + " points to ("@ + decimal(r.outgoing@.len()) + ")\n"@
            + outgoing_lines(r.outgoing@) + "\n"@
    } else {
        seq![]
    }) + (if d != EdgeDirection::Out {
        "← pointed to by "@ + r.node.key@ + " ("@ + decimal(r.incoming@.len()) + ")\n"@
            + incoming_lines(r.incoming@)
    } else {
        seq![]
    })
}

/// The one-hop listing of an entry's relationships.
pub fn render_related(result: &RelatedResult, direction: EdgeDirection) -> (res: String)
    ensures
        res@ == related_text(*result, direction),
{
    let mut out = String::new();
    if direction != EdgeDirection::In {
        push_str(&mut out, "→ ");
        push_str(&mut out, result.node.key.as_str());
        push_str(&mut out, " points to (");
        let n = u64_to_string(result.outgoing.len() as u64);
        push_str(&mut out, n.as_str());
        push_str(&mut out, ")\n");
        let ghost base = out@;
        let mut i: usize = 0;
        assert(result.outgoing@.take(0) =~= seq![]);
        while i < result.outgoing.len()
            invariant
                0 <= i <= result.outgoing@.len(),
                out@ == base + outgoing_lines(result.outgoing@.take(i as int)),
            decreases result.outgoing@.len() - i,
        {
            let e = &result.outgoing[i];
            push_edge_line(&mut out, e.to.key.as_str(), e.to.category.as_str(), e.note.as_str());
            assert(result.outgoing@.take(i + 1).drop_last() =~= result.outgoing@.take(i as int));
            i = i + 1;
        }
        assert(result.outgoing@.take(result.outgoing@.len() as int) =~= result.outgoing@);
        push_str(&mut out, "\n");
        assert(n@ == decimal(result.outgoing@.len()));
        assert(out@ =~= "→ "@ + result.node.key@ + " points to ("@ + decimal(
            result.outgoing@.len(),
        ) + ")\n"@ + outgoing_lines(result.outgoing@) + "\n"@);
    }
    let ghost mid = out@;
    assert(mid =~= (if direction != EdgeDirection::In {
        "→ "@ + result.node.key@ + " points to ("@ + decimal(result.outgoing@.len()) + ")\n"@
            + outgoing_lines(result.outgoing@) + "\n"@
    } else {
        seq![]
    }));
    if direction != EdgeDirection::Out {
        push_str(&mut out, "← pointed to by ");
        push_str(&mut out, result.node.key.as_str());
        push_str(&mut out, " (");
        let n = u64_to_string(result.incoming.len() as u64);
        push_str(&mut out, n.as_str());
        push_str(&mut out, ")\n");
        let ghost base = out@;
        let mut i: usize = 0;
        assert(result.incoming@.take(0) =~= seq![]);
        while i < result.incoming.len()
            invariant
                0 <= i <= result.incoming@.len(),
                out@ == base + incoming_lines(result.incoming@.take(i as int)),
            decreases result.incoming@.len() - i,
        {
            let e = &result.incoming[i];
            push_edge_line(
                &mut out,
                e.from.key.as_str(),
                e.from.category.as_str(),
                e.note.as_str(),
            );
            assert(result.incoming@.take(i + 1).drop_last() =~= result.incoming@.take(i as int));
            i = i + 1;
        }
        assert(result.incoming@.take(result.incoming@.len() as int) =~= result.incoming@);
        assert(n@ == decimal(result.incoming@.len()));
        assert(out@ =~= mid + ("← pointed to by "@ + result.node.key@ + " ("@ + decimal(
            result.incoming@.len(),
        ) + ")\n"@ + incoming_lines(result.incoming@)));
    }
    assert(out@ =~= related_text(*result, direction));
    out
}

} // verus!
