//! The parts of the entry queries that depend on the filter: the `WHERE`
//! conditions with their numbered parameters, and the page clauses.

use vstd::prelude::*;

use crate::domain::graph::EdgeDirection;
use crate::domain::kb::{opt_view, KbFilter};
use crate::errors::Error;
use crate::domain::unicode::{lowercase, to_lowercase};
use crate::text::{
    decimal, i64_to_string, join, join_seq, owned, push_str, signed_decimal, u64_to_string, views,
};

verus! {

/// The condition on the tags column for one tag, with parameters
/// `?idx` to `?idx+3`: the tag alone, first, last or in the middle.
pub open spec fn tag_condition(idx: nat) -> Seq<char> {
    "(TAG_VALUES = ?"@ + decimal(idx) + " OR TAG_VALUES LIKE ?"@ + decimal(idx + 1)
        + " OR TAG_VALUES LIKE ?"@ + decimal(idx + 2) + " OR TAG_VALUES LIKE ?"@ + decimal(idx + 3)
        + ")"@
}

/// The conditions for `tags`, numbered from `start`.
pub open spec fn tag_conditions(tags: Seq<Seq<char>>, start: nat) -> Seq<Seq<char>>
    decreases tags.len(),
{
    if tags.len() == 0 {
        seq![]
    } else {
        tag_conditions(tags.drop_last(), start).push(
            tag_condition(start + 4 * (tags.len() - 1) as nat),
        )
    }
}

/// The four parameters of each tag: `t`, `t %`, `% t`, `% t %`.
pub open spec fn tag_params(tags: Seq<Seq<char>>) -> Seq<Seq<char>>
    decreases tags.len(),
{
    if tags.len() == 0 {
        seq![]
    } else {
        let t = tags.last();
        tag_params(tags.drop_last()) + seq![t, t + " %"@, "% "@ + t, "% "@ + t + " %"@]
    }
}

/// Conditions, parameters and next parameter number after the category.
pub open spec fn after_category(f: KbFilter) -> (Seq<Seq<char>>, Seq<Seq<char>>, nat) {
    match opt_view(f.category) {
        Some(c) => (seq!["CATEGORY = ?"@ + decimal(1)], seq![c], 2),
        None => (seq![], seq![], 1),
    }
}

/// ... after the namespace.
pub open spec fn after_namespace(f: KbFilter) -> (Seq<Seq<char>>, Seq<Seq<char>>, nat) {
    let (c, p, i) = after_category(f);
    match opt_view(f.namespace) {
        Some(n) => (c.push("NAMESPACE = ?"@ + decimal(i)), p.push(n), i + 1),
        None => (c, p, i),
    }
}

/// ... after the tags.
pub open spec fn after_tags(f: KbFilter) -> (Seq<Seq<char>>, Seq<Seq<char>>, nat) {
    let (c, p, i) = after_namespace(f);
    match f.tags {
        Some(ts) => (c + tag_conditions(views(ts@), i), p + tag_params(views(ts@)), i + 4
            * ts@.len()),
        None => (c, p, i),
    }
}

/// The `WHERE` conditions of a listing and their parameters, numbered
/// `?1` on: category, namespace, each tag, and a case-insensitive
/// substring match on a non-empty reference.
pub open spec fn list_filters(f: KbFilter) -> (Seq<Seq<char>>, Seq<Seq<char>>) {
    let (c, p, i) = after_tags(f);
    match opt_view(f.reference) {
        Some(r) => if r.len() > 0 {
            (c.push("LOWER(REFERENCE) LIKE ?"@ + decimal(i)), p.push("%"@ + lowercase(r) + "%"@))
        } else {
            (c, p)
        },
        None => (c, p),
    }
}

proof fn lemma_tag_counts(tags: Seq<Seq<char>>, start: nat)
    ensures
        tag_conditions(tags, start).len() == tags.len(),
        tag_params(tags).len() == 4 * tags.len(),
    decreases tags.len(),
{
    if tags.len() > 0 {
        lemma_tag_counts(tags.drop_last(), start);
    }
}

/// Every parameter of a listing has a number of its own: the conditions
/// before the reference use `?1` up to the number of their parameters,
/// and the reference condition, when there is one, takes the next number,
/// the last parameter.
pub proof fn lemma_parameters_numbered(f: KbFilter)
    ensures
        after_tags(f).2 == after_tags(f).1.len() + 1,
        list_filters(f).1.len() == after_tags(f).1.len() + (if opt_view(f.reference) matches Some(
            r,
        ) && r.len() > 0 {
            1int
        } else {
            0int
        }),
{
    match f.tags {
        Some(ts) => {
            lemma_tag_counts(views(ts@), after_namespace(f).2);
        },
        None => {},
    }
}

fn numbered(prefix: &str, idx: u64, suffix: &str) -> (res: String)
    ensures
        res@ == prefix@ + decimal(idx as nat) + suffix@,
{
    let mut s = owned(prefix);
    let n = u64_to_string(idx);
    push_str(&mut s, n.as_str());
    push_str(&mut s, suffix);
    s
}

fn tag_condition_text(idx: u64) -> (res: String)
    requires
        idx + 3 <= u64::MAX,
    ensures
        res@ == tag_condition(idx as nat),
{
    let mut s = numbered("(TAG_VALUES = ?", idx, "");
    let a = numbered(" OR TAG_VALUES LIKE ?", idx + 1, "");
    let b = numbered(" OR TAG_VALUES LIKE ?", idx + 2, "");
    let c = numbered(" OR TAG_VALUES LIKE ?", idx + 3, ")");
    push_str(&mut s, a.as_str());
    push_str(&mut s, b.as_str());
    push_str(&mut s, c.as_str());
    proof {
        reveal_strlit("");
    }
    assert(s@ =~= tag_condition(idx as nat));
    s
}

/// Builds the `WHERE` conditions and parameters of a listing (see
/// `list_filters`).
pub fn build_list_filters(filter: &KbFilter) -> (res: (Vec<String>, Vec<String>))
    requires
        match filter.tags {
            Some(ts) => ts@.len() < 0x1000_0000_0000,
            None => true,
        },
    ensures
        (views(res.0@), views(res.1@)) == list_filters(*filter),
{
    let mut conditions: Vec<String> = Vec::new();
    let mut params: Vec<String> = Vec::new();
    let mut idx: u64 = 1;
    match &filter.category {
        Some(cat) => {
            conditions.push(numbered("CATEGORY = ?", idx, ""));
            params.push(cat.clone());
            idx = idx + 1;
        },
        None => {},
    }
    match &filter.namespace {
        Some(ns) => {
            conditions.push(numbered("NAMESPACE = ?", idx, ""));
            params.push(ns.clone());
            idx = idx + 1;
        },
        None => {},
    }
    proof {
        reveal_strlit("");
    }
    assert(views(conditions@) =~= after_namespace(*filter).0);
    assert(views(params@) =~= after_namespace(*filter).1);
    assert(idx == after_namespace(*filter).2);
    let ghost c2 = views(conditions@);
    let ghost p2 = views(params@);
    let ghost i2 = idx as nat;
    match &filter.tags {
        Some(tags) => {
            let ghost tv = views(tags@);
            let mut k: usize = 0;
            assert(tv.take(0) =~= seq![]);
            assert(c2 + tag_conditions(tv.take(0), i2) =~= c2);
            assert(p2 + tag_params(tv.take(0)) =~= p2);
            while k < tags.len()
                invariant
                    0 <= k <= tags@.len(),
                    tags@.len() < 0x1000_0000_0000,
                    tv == views(tags@),
                    i2 <= 3,
                    idx == i2 + 4 * k,
                    views(conditions@) == c2 + tag_conditions(tv.take(k as int), i2),
                    views(params@) == p2 + tag_params(tv.take(k as int)),
                decreases tags@.len() - k,
            {
                let t = tags[k].as_str();
                assert(tv.take(k + 1).drop_last() =~= tv.take(k as int));
                assert(tv.take(k + 1).last() == t@);
                let ghost before_c = conditions@;
                let ghost before_p = params@;
                conditions.push(tag_condition_text(idx));
                let mut first = owned(t);
                push_str(&mut first, " %");
                let mut last = owned("% ");
                push_str(&mut last, t);
                let mut middle = owned("% ");
                push_str(&mut middle, t);
                push_str(&mut middle, " %");
                params.push(owned(t));
                params.push(first);
                params.push(last);
                params.push(middle);
                proof {
                    assert(views(conditions@) =~= views(before_c).push(tag_condition(idx as nat)));
                    assert(views(params@) =~= views(before_p) + seq![
                        t@,
                        t@ + " %"@,
                        "% "@ + t@,
                        "% "@ + t@ + " %"@,
                    ]);
                }
                idx = idx + 4;
                k = k + 1;
            }
            assert(tv.take(tags@.len() as int) =~= tv);
        },
        None => {},
    }
    assert(views(conditions@) =~= after_tags(*filter).0);
    assert(views(params@) =~= after_tags(*filter).1);
    assert(idx == after_tags(*filter).2);
    match &filter.reference {
        Some(r) => {
            if r.unicode_len() > 0 {
                conditions.push(numbered("LOWER(REFERENCE) LIKE ?", idx, ""));
                let mut p = owned("%");
                let l = to_lowercase(r.as_str());
                push_str(&mut p, l.as_str());
                push_str(&mut p, "%");
                params.push(p);
            }
        },
        None => {},
    }
    assert(views(conditions@) =~= list_filters(*filter).0);
    assert(views(params@) =~= list_filters(*filter).1);
    (conditions, params)
}

/// The `WHERE`, `LIMIT` and `OFFSET` clauses of a listing, each with a
/// leading space and empty when not needed.
pub open spec fn filter_clauses(f: KbFilter) -> (Seq<char>, Seq<char>, Seq<char>) {
    let conds = list_filters(f).0;
    (
        if conds.len() == 0 {
            seq![]
        } else {
            " WHERE "@ + join_seq(conds, " AND "@)
        },
        match f.limit {
            Some(l) => " LIMIT "@ + signed_decimal(l as int),
            None => seq![],
        },
        match f.offset {
            Some(o) => " OFFSET "@ + signed_decimal(o as int),
            None => seq![],
        },
    )
}

/// Builds the clauses and parameters of a listing.
pub fn build_filter_clauses(filter: &KbFilter) -> (res: (String, String, String, Vec<String>))
    requires
        match filter.tags {
            Some(ts) => ts@.len() < 0x1000_0000_0000,
            None => true,
        },
    ensures
        (res.0@, res.1@, res.2@) == filter_clauses(*filter),
        views(res.3@) == list_filters(*filter).1,
{
    let (conditions, params) = build_list_filters(filter);
    let where_clause = if conditions.len() == 0 {
        String::new()
    } else {
        let mut w = owned(" WHERE ");
        let j = join(&conditions, " AND ");
        push_str(&mut w, j.as_str());
        w
    };
    let (limit_clause, offset_clause) = page_clauses(filter);
    (where_clause, limit_clause, offset_clause, params)
}

fn page_clauses(filter: &KbFilter) -> (res: (String, String))
    ensures
        res.0@ == filter_clauses(*filter).1,
        res.1@ == filter_clauses(*filter).2,
{
    let limit_clause = match filter.limit {
        Some(l) => {
            let mut s = owned(" LIMIT ");
            let n = i64_to_string(l);
            push_str(&mut s, n.as_str());
            s
        },
        None => String::new(),
    };
    let offset_clause = match filter.offset {
        Some(o) => {
            let mut s = owned(" OFFSET ");
            let n = i64_to_string(o);
            push_str(&mut s, n.as_str());
            s
        },
        None => String::new(),
    };
    (limit_clause, offset_clause)
}

/// The listed columns of every entry.
pub const LIST_ITEMS: &'static str = "SELECT KB_ID, KB_KEY, CATEGORY, NAMESPACE, TAG_VALUES FROM kbs";

/// Every column of every entry.
pub const LIST_FULL: &'static str = "SELECT KB_ID, KB_KEY, KB_VALUE, NOTES, CATEGORY, NAMESPACE, REFERENCE, TAG_VALUES, CREATED_ON, PARENT_KB_ID, KB_PATH, MEDIA_EXTENSION, METADATA FROM kbs";

/// A listing query: `base`, the filter's conditions, `order`, then the page.
pub open spec fn listing_query(base: Seq<char>, f: KbFilter, order: Seq<char>) -> Seq<char> {
    base + filter_clauses(f).0 + order + filter_clauses(f).1 + filter_clauses(f).2
}

/// The query listing entries for `kb search` (newest first) and its
/// parameters.
pub fn build_list_query(filter: &KbFilter) -> (res: (String, Vec<String>))
    requires
        match filter.tags {
            Some(ts) => ts@.len() < 0x1000_0000_0000,
            None => true,
        },
    ensures
        res.0@ == listing_query(LIST_ITEMS@, *filter, " ORDER BY CREATED_ON DESC"@),
        views(res.1@) == list_filters(*filter).1,
{
    listing(filter, LIST_ITEMS, " ORDER BY CREATED_ON DESC")
}

/// The query listing whole entries for export (oldest first) and its
/// parameters.
pub fn build_full_list_query(filter: &KbFilter) -> (res: (String, Vec<String>))
    requires
        match filter.tags {
            Some(ts) => ts@.len() < 0x1000_0000_0000,
            None => true,
        },
    ensures
        res.0@ == listing_query(LIST_FULL@, *filter, " ORDER BY CREATED_ON ASC"@),
        views(res.1@) == list_filters(*filter).1,
{
    listing(filter, LIST_FULL, " ORDER BY CREATED_ON ASC")
}

fn listing(filter: &KbFilter, base: &str, order: &str) -> (res: (String, Vec<String>))
    requires
        match filter.tags {
            Some(ts) => ts@.len() < 0x1000_0000_0000,
            None => true,
        },
    ensures
        res.0@ == listing_query(base@, *filter, order@),
        views(res.1@) == list_filters(*filter).1,
{
    let (where_clause, limit_clause, offset_clause, params) = build_filter_clauses(filter);
    let mut sql = owned(base);
    push_str(&mut sql, where_clause.as_str());
    push_str(&mut sql, order);
    push_str(&mut sql, limit_clause.as_str());
    push_str(&mut sql, offset_clause.as_str());
    (sql, params)
}

/// Entries whose tags match a full-text keyword, newest first.
pub const KEYWORD_SEARCH: &'static str = "SELECT k.KB_ID, k.KB_KEY, k.CATEGORY, k.NAMESPACE, k.TAG_VALUES FROM kbs k JOIN tags_idx ON tags_idx.rowid = k.INTERNAL_ID WHERE tags_idx MATCH ?1 ORDER BY k.CREATED_ON DESC";

/// The same, restricted to entries whose reference contains a pattern.
pub const KEYWORD_SEARCH_WITH_REFERENCE: &'static str = "SELECT k.KB_ID, k.KB_KEY, k.CATEGORY, k.NAMESPACE, k.TAG_VALUES FROM kbs k JOIN tags_idx ON tags_idx.rowid = k.INTERNAL_ID WHERE tags_idx MATCH ?1 AND LOWER(k.REFERENCE) LIKE ?2 ORDER BY k.CREATED_ON DESC";

/// The pattern that a non-empty reference filter matches, lower-cased.
pub open spec fn reference_pattern(f: KbFilter) -> Option<Seq<char>> {
    match opt_view(f.reference) {
        Some(r) => if r.len() > 0 {
            Some("%"@ + lowercase(r) + "%"@)
        } else {
            None
        },
        None => None,
    }
}

/// The keyword a search matches: the given one (empty when none) as a
/// prefix.
pub open spec fn keyword_pattern(f: KbFilter) -> Seq<char> {
    match opt_view(f.keyword) {
        Some(k) => k + "*"@,
        None => "*"@,
    }
}

/// The query text of a keyword search and its parameters: the keyword as a
/// prefix pattern, then the reference pattern when the filter has a
/// non-empty reference; the page clauses follow the ordering.
pub fn build_keyword_search(filter: &KbFilter) -> (res: (String, Vec<String>))
    ensures
        res.0@ == (if reference_pattern(*filter) is Some {
            KEYWORD_SEARCH_WITH_REFERENCE@
        } else {
            KEYWORD_SEARCH@
        }) + filter_clauses(*filter).1 + filter_clauses(*filter).2,
        views(res.1@) == match reference_pattern(*filter) {
            Some(p) => seq![keyword_pattern(*filter), p],
            None => seq![keyword_pattern(*filter)],
        },
{
    let mut keyword = match &filter.keyword {
        Some(k) => owned(k.as_str()),
        None => String::new(),
    };
    push_str(&mut keyword, "*");
    proof {
        reveal_strlit("");
        assert(""@ + "*"@ =~= "*"@);
    }
    let mut params: Vec<String> = Vec::new();
    params.push(keyword);
    let mut sql = match &filter.reference {
        Some(r) => {
            if r.unicode_len() > 0 {
                let mut pattern = owned("%");
                let l = to_lowercase(r.as_str());
                push_str(&mut pattern, l.as_str());
                push_str(&mut pattern, "%");
                params.push(pattern);
                owned(KEYWORD_SEARCH_WITH_REFERENCE)
            } else {
                owned(KEYWORD_SEARCH)
            }
        },
        None => owned(KEYWORD_SEARCH),
    };
    let (limit_clause, offset_clause) = page_clauses(filter);
    push_str(&mut sql, limit_clause.as_str());
    push_str(&mut sql, offset_clause.as_str());
    proof {
        assert(views(params@) =~= match reference_pattern(*filter) {
            Some(p) => seq![keyword_pattern(*filter), p],
            None => seq![keyword_pattern(*filter)],
        });
    }
    (sql, params)
}

// ---------------------------------------------------------------------------
// Relationship queries
// ---------------------------------------------------------------------------

/// `?1,?2,...,?n`.
pub open spec fn placeholders_text(n: nat) -> Seq<char> {
    join_seq(Seq::new(n, |i: int| "?"@ + decimal((i + 1) as nat)), ","@)
}

/// The numbered placeholders `?1,?2,...,?n` for `n` parameters.
pub fn id_placeholders(n: usize) -> (res: String)
    ensures
        res@ == placeholders_text(n as nat),
{
    let ghost parts = Seq::new(n as nat, |i: int| "?"@ + decimal((i + 1) as nat));
    let mut res = String::new();
    let mut i: usize = 0;
    proof {
        reveal_strlit("");
        assert(parts.take(0) =~= seq![]);
    }
    while i < n
        invariant
            0 <= i <= n,
            parts == Seq::new(n as nat, |i: int| "?"@ + decimal((i + 1) as nat)),
            res@ == join_seq(parts.take(i as int), ","@),
        decreases n - i,
    {
        let ghost before = res@;
        if i > 0 {
            push_str(&mut res, ",");
        }
        let p = numbered("?", (i as u64) + 1, "");
        push_str(&mut res, p.as_str());
        proof {
            reveal_strlit("");
            let t = parts.take(i + 1);
            assert(t.drop_last() =~= parts.take(i as int));
            assert(t.last() == parts[i as int]);
            assert(p@ =~= parts[i as int]);
            if i == 0 {
                assert(t.len() == 1);
                assert(join_seq(t, ","@) == t[0]);
                assert(res@ =~= p@);
            } else {
                assert(res@ =~= before + ","@ + p@);
            }
        }
        i = i + 1;
    }
    proof {
        assert(parts.take(n as int) =~= parts);
    }
    res
}

/// The edges whose two ends are both among `n` numbered ids, oldest first.
pub open spec fn edges_among_query(n: nat) -> Seq<char> {
    "SELECT EDGE_ID, FROM_KB_ID, TO_KB_ID, NOTE, CREATED_ON FROM kb_edges WHERE FROM_KB_ID IN ("@
        + placeholders_text(n) + ") AND TO_KB_ID IN ("@ + placeholders_text(n)
        + ") ORDER BY CREATED_ON ASC"@
}

/// The query for the edges among `n` ids, each id bound once as `?k`.
pub fn build_edges_among_query(n: usize) -> (res: String)
    ensures
        res@ == edges_among_query(n as nat),
{
    let p = id_placeholders(n);
    let mut sql = owned(
        "SELECT EDGE_ID, FROM_KB_ID, TO_KB_ID, NOTE, CREATED_ON FROM kb_edges WHERE FROM_KB_ID IN (",
    );
    push_str(&mut sql, p.as_str());
    push_str(&mut sql, ") AND TO_KB_ID IN (");
    push_str(&mut sql, p.as_str());
    push_str(&mut sql, ") ORDER BY CREATED_ON ASC");
    sql
}

/// The transitive walk along edges from `?1` up to depth `?2`, where
/// `child` is the column of the end reached and `parent` the column of the
/// end walked from; shallowest first. `UNION` drops repeated rows only, and
/// a node reached again at another depth is another row: on a cyclic graph
/// it is the depth bound that ends the walk.
pub open spec fn tree_query(child: Seq<char>, parent: Seq<char>) -> Seq<char> {
    "WITH RECURSIVE walk(id, depth, parent_id, note) AS (SELECT e."@ + child + ", 1, e."@
        + parent + ", e.NOTE FROM kb_edges e WHERE e."@ + parent
        + " = ?1 UNION SELECT e."@ + child + ", w.depth + 1, e."@ + parent
        + ", e.NOTE FROM kb_edges e JOIN walk w ON e."@ + parent
        + " = w.id WHERE w.depth < ?2) SELECT w.id, k.KB_KEY, w.depth, w.parent_id, w.note FROM walk w JOIN kbs k ON k.KB_ID = w.id ORDER BY w.depth ASC"@
}

fn tree_query_text(child: &str, parent: &str) -> (res: String)
    ensures
        res@ == tree_query(child@, parent@),
{
    let mut sql = owned("WITH RECURSIVE walk(id, depth, parent_id, note) AS (SELECT e.");
    push_str(&mut sql, child);
    push_str(&mut sql, ", 1, e.");
    push_str(&mut sql, parent);
    push_str(&mut sql, ", e.NOTE FROM kb_edges e WHERE e.");
    push_str(&mut sql, parent);
    push_str(&mut sql, " = ?1 UNION SELECT e.");
    push_str(&mut sql, child);
    push_str(&mut sql, ", w.depth + 1, e.");
    push_str(&mut sql, parent);
    push_str(&mut sql, ", e.NOTE FROM kb_edges e JOIN walk w ON e.");
    push_str(&mut sql, parent);
    push_str(
        &mut sql,
        " = w.id WHERE w.depth < ?2) SELECT w.id, k.KB_KEY, w.depth, w.parent_id, w.note FROM walk w JOIN kbs k ON k.KB_ID = w.id ORDER BY w.depth ASC",
    );
    sql
}

/// The tree walk for a direction: outward from `FROM_KB_ID` to
/// `TO_KB_ID`, inward the other way; `Both` is refused.
pub fn build_tree_query(direction: EdgeDirection) -> (res: Result<String, Error>)
    ensures
        direction == EdgeDirection::Out ==> (res matches Ok(q) && q@ == tree_query(
            "TO_KB_ID"@,
            "FROM_KB_ID"@,
        )),
        direction == EdgeDirection::In ==> (res matches Ok(q) && q@ == tree_query(
            "FROM_KB_ID"@,
            "TO_KB_ID"@,
        )),
        direction == EdgeDirection::Both ==> (res matches Err(Error::GraphQueryError(m)) && m@
            == "direction must be 'out' or 'in' for tree traversal"@),
{
    match direction {
        EdgeDirection::Out => Ok(tree_query_text("TO_KB_ID", "FROM_KB_ID")),
        EdgeDirection::In => Ok(tree_query_text("FROM_KB_ID", "TO_KB_ID")),
        EdgeDirection::Both => Err(
            Error::GraphQueryError(owned("direction must be 'out' or 'in' for tree traversal")),
        ),
    }
}

// ---------------------------------------------------------------------------
// Semantic search
// ---------------------------------------------------------------------------

/// How many nearest neighbours a semantic search fetches when it filters by
/// category afterwards: this many times the requested number...
pub const OVERFETCH_MULTIPLIER: i64 = 5;

/// ... but never more than this.
pub const OVERFETCH_CAP: i64 = 200;

/// The number of hits a semantic search asks for: `limit`, 10 by default.
pub open spec fn requested_hits(limit: Option<i64>) -> int {
    match limit {
        Some(l) => l as int,
        None => 10,
    }
}

/// How many nearest neighbours to fetch: the requested number, or when a
/// category filter drops some afterwards, five times as many up to 200.
pub fn knn_fetch_limit(limit: Option<i64>, by_category: bool) -> (res: i64)
    requires
        by_category ==> i64::MIN <= requested_hits(limit) * OVERFETCH_MULTIPLIER <= i64::MAX,
    ensures
        res == if by_category {
            let m = requested_hits(limit) * OVERFETCH_MULTIPLIER;
            if m < OVERFETCH_CAP {
                m
            } else {
                OVERFETCH_CAP as int
            }
        } else {
            requested_hits(limit)
        },
{
    let requested: i64 = match limit {
        Some(l) => l,
        None => 10,
    };
    if by_category {
        let m = requested * OVERFETCH_MULTIPLIER;
        if m < OVERFETCH_CAP {
            m
        } else {
            OVERFETCH_CAP
        }
    } else {
        requested
    }
}

} // verus!
