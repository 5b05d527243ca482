//! Tag suggestions: the most frequent words of an entry's text that are
//! not stop words, not too short and not already tags.

use vstd::prelude::*;

use crate::domain::kb::contains_str;
use crate::domain::unicode::{
    alphabetic, char_lowercase_head, is_alphabetic, lowercase, lowercase_head, to_lowercase,
};
use crate::text::{chars_of, owned, seq_lt, str_eq, str_lt, string_from_chars, views};
use crate::text::{lemma_seq_lt_irreflexive, lemma_seq_lt_total, lemma_seq_lt_transitive};

verus! {

/// The stop words that the `stop_words` crate lists for a language code.
pub uninterp spec fn stop_word_lookup(code: Seq<char>) -> Option<Seq<Seq<char>>>;

/// The stop words of the language with code `code`, as
/// `stop_words::lookup` gives them (each converted to a `String`), or
/// `None` when the crate does not know the code. The list is the crate's
/// data; the contract names it.
#[verifier::external_body]
fn stop_words_for(code: &str) -> (res: Option<Vec<String>>)
    ensures
        match res {
            Some(v) => stop_word_lookup(code@) == Some(views(v@)),
            None => stop_word_lookup(code@) is None,
        },
{
    stop_words::lookup(code).map(|ws| ws.iter().map(|w| w.to_string()).collect())
}

/// English stop words; none when the crate has no English list.
pub open spec fn english_stop_words() -> Seq<Seq<char>> {
    match stop_word_lookup("en"@) {
        Some(ws) => ws,
        None => seq![],
    }
}

/// Input fields from which tags are extracted.
pub struct TagSuggestionInput {
    /// Text fields to extract keywords from.
    pub text_fields: Vec<String>,
    /// Tags already assigned; suggestions exclude these.
    pub existing_tags: Vec<String>,
}

// ---------------------------------------------------------------------------
// Tokens
// ---------------------------------------------------------------------------

/// The finished tokens and the token being read after the characters `t`.
pub open spec fn token_state(t: Seq<char>) -> (Seq<Seq<char>>, Seq<char>)
    decreases t.len(),
{
    if t.len() == 0 {
        (seq![], seq![])
    } else {
        let (ts, cur) = token_state(t.drop_last());
        let c = t.last();
        if alphabetic(c) {
            (ts, cur.push(lowercase_head(c)))
        } else if cur.len() > 0 {
            (ts.push(cur), seq![])
        } else {
            (ts, cur)
        }
    }
}

/// The maximal runs of alphabetic characters of `t`, lower-cased.
pub open spec fn tokens_of(t: Seq<char>) -> Seq<Seq<char>> {
    let (ts, cur) = token_state(t);
    if cur.len() > 0 {
        ts.push(cur)
    } else {
        ts
    }
}

/// Splits text into lower-case alphabetic tokens.
pub fn tokenize(text: &str) -> (res: Vec<String>)
    ensures
        views(res@) == tokens_of(text@),
{
    let cs = chars_of(text);
    let mut tokens: Vec<String> = Vec::new();
    let mut current: Vec<char> = Vec::new();
    let mut i: usize = 0;
    assert(text@.take(0) =~= seq![]);
    while i < cs.len()
        invariant
            cs@ == text@,
            0 <= i <= cs@.len(),
            token_state(text@.take(i as int)) == (views(tokens@), current@),
        decreases cs@.len() - i,
    {
        assert(text@.take(i + 1).drop_last() =~= text@.take(i as int));
        assert(text@.take(i + 1).last() == cs@[i as int]);
        let c = cs[i];
        if is_alphabetic(c) {
            current.push(char_lowercase_head(c));
        } else if current.len() > 0 {
            let w = string_from_chars(current.as_slice());
            let ghost before = tokens@;
            tokens.push(w);
            assert(views(tokens@) =~= views(before).push(current@));
            current = Vec::new();
            assert(current@ =~= seq![]);
        }
        i = i + 1;
    }
    assert(text@.take(cs@.len() as int) =~= text@);
    if current.len() > 0 {
        let w = string_from_chars(current.as_slice());
        let ghost before = tokens@;
        tokens.push(w);
        assert(views(tokens@) =~= views(before).push(current@));
    }
    tokens
}

// ---------------------------------------------------------------------------
// Candidates
// ---------------------------------------------------------------------------

/// Every token of every field, in order.
pub open spec fn all_tokens(fields: Seq<Seq<char>>) -> Seq<Seq<char>>
    decreases fields.len(),
{
    if fields.len() == 0 {
        seq![]
    } else {
        all_tokens(fields.drop_last()) + tokens_of(fields.last())
    }
}

/// A token counts as a candidate: three characters or more, not a stop
/// word, not an existing tag (compared lower-cased).
pub open spec fn is_candidate(w: Seq<char>, stop: Seq<Seq<char>>, existing: Seq<Seq<char>>) -> bool {
    w.len() >= 3 && !stop.contains(w) && !existing.contains(w)
}

/// The candidate words of `tokens`, in order, repeats included.
pub open spec fn candidates(
    tokens: Seq<Seq<char>>,
    stop: Seq<Seq<char>>,
    existing: Seq<Seq<char>>,
) -> Seq<Seq<char>>
    decreases tokens.len(),
{
    if tokens.len() == 0 {
        seq![]
    } else {
        let rest = candidates(tokens.drop_last(), stop, existing);
        if is_candidate(tokens.last(), stop, existing) {
            rest.push(tokens.last())
        } else {
            rest
        }
    }
}

/// How often `w` occurs in `ws`.
pub open spec fn count_of(ws: Seq<Seq<char>>, w: Seq<char>) -> nat
    decreases ws.len(),
{
    if ws.len() == 0 {
        0
    } else {
        count_of(ws.drop_last(), w) + if ws.last() == w {
            1nat
        } else {
            0nat
        }
    }
}

/// `a` is suggested before `b`: more frequent, or as frequent and
/// alphabetically first.
pub open spec fn ranks_before(ws: Seq<Seq<char>>, a: Seq<char>, b: Seq<char>) -> bool {
    count_of(ws, a) > count_of(ws, b) || (count_of(ws, a) == count_of(ws, b) && seq_lt(a, b))
}

/// `r` is the list of the `max` best-ranked distinct words of `ws` (all of
/// them when there are fewer), best first.
pub open spec fn top_words(ws: Seq<Seq<char>>, max: nat, r: Seq<Seq<char>>) -> bool {
    &&& r.len() <= max
    &&& r.no_duplicates()
    &&& forall|i: int| 0 <= i < r.len() ==> ws.contains(#[trigger] r[i])
    &&& forall|i: int, j: int| 0 <= i < j < r.len() ==> ranks_before(ws, #[trigger] r[i], #[trigger] r[j])
    &&& forall|w: Seq<char>|
        #![trigger ws.contains(w)]
        ws.contains(w) && !r.contains(w) ==> r.len() == max && forall|i: int|
            0 <= i < r.len() ==> ranks_before(ws, #[trigger] r[i], w)
}

/// The words suggested for `fields` given the existing tags.
pub open spec fn suggestion_words(fields: Seq<Seq<char>>, existing: Seq<Seq<char>>) -> Seq<Seq<char>> {
    candidates(
        all_tokens(fields),
        english_stop_words(),
        existing.map_values(|t: Seq<char>| lowercase(t)),
    )
}

// ---------------------------------------------------------------------------
// Counting and ranking
// ---------------------------------------------------------------------------

pub open spec fn pair_keys(ps: Seq<(String, usize)>) -> Seq<Seq<char>> {
    ps.map_values(|p: (String, usize)| p.0@)
}

/// The position of the pair whose word is `w`, if any.
fn find_key(pairs: &Vec<(String, usize)>, w: &str) -> (res: Option<usize>)
    ensures
        match res {
            Some(k) => k < pairs@.len() && pairs@[k as int].0@ == w@,
            None => forall|m: int| 0 <= m < pairs@.len() ==> pairs@[m].0@ != w@,
        },
{
    let mut k: usize = 0;
    while k < pairs.len()
        invariant
            0 <= k <= pairs@.len(),
            forall|m: int| 0 <= m < k ==> pairs@[m].0@ != w@,
        decreases pairs@.len() - k,
    {
        if str_eq(pairs[k].0.as_str(), w) {
            return Some(k);
        }
        k = k + 1;
    }
    None
}

/// The distinct words of `ws` with their counts, in order of first
/// occurrence.
fn count_words(ws: &Vec<String>) -> (res: Vec<(String, usize)>)
    ensures
        pair_keys(res@).no_duplicates(),
        forall|k: int| 0 <= k < res@.len() ==> #[trigger] res@[k].1 == count_of(views(ws@), res@[k].0@),
        forall|w: Seq<char>| views(ws@).contains(w) <==> pair_keys(res@).contains(w),
{
    let ghost wv = views(ws@);
    let mut pairs: Vec<(String, usize)> = Vec::new();
    let mut i: usize = 0;
    assert(wv.take(0) =~= seq![]);
    assert(pair_keys(pairs@) =~= seq![]);
    while i < ws.len()
        invariant
            0 <= i <= ws@.len(),
            wv == views(ws@),
            pair_keys(pairs@).no_duplicates(),
            forall|k: int|
                0 <= k < pairs@.len() ==> #[trigger] pairs@[k].1 == count_of(
                    wv.take(i as int),
                    pairs@[k].0@,
                ),
            forall|k: int| 0 <= k < pairs@.len() ==> #[trigger] pairs@[k].1 <= i,
            forall|w: Seq<char>| wv.take(i as int).contains(w) <==> pair_keys(pairs@).contains(w),
        decreases ws@.len() - i,
    {
        let ghost prev = wv.take(i as int);
        let ghost x = wv[i as int];
        assert(wv.take(i + 1) =~= prev.push(x));
        assert(wv.take(i + 1).drop_last() =~= prev);
        let pos = find_key(&pairs, ws[i].as_str());
        let found = pos.is_some();
        let k: usize = match pos {
            Some(k) => k,
            None => pairs.len(),
        };
        let ghost old_pairs = pairs@;
        if found {
            assert(pairs@[k as int].1 <= i);
            let (w, c) = pairs.remove(k);
            pairs.insert(k, (w, c + 1));
            proof {
                assert(pairs@ =~= old_pairs.update(k as int, (w, (c + 1) as usize)));
                assert(pair_keys(pairs@) =~= pair_keys(old_pairs));
            }
        } else {
            pairs.push((ws[i].clone(), 1));
            proof {
                assert(pair_keys(pairs@) =~= pair_keys(old_pairs).push(x));
                assert forall|m: int| 0 <= m < pair_keys(old_pairs).len() implies pair_keys(
                    old_pairs,
                )[m] != x by {
                    assert(pair_keys(old_pairs)[m] == old_pairs[m].0@);
                }
            }
        }
        proof {
            let nk = pair_keys(pairs@);
            assert forall|m: int| 0 <= m < pairs@.len() implies #[trigger] pairs@[m].1
                == count_of(wv.take(i + 1), pairs@[m].0@) by {
                if m < old_pairs.len() && !(found && m == k) {
                    assert(pairs@[m] == old_pairs[m]);
                    assert(old_pairs[m].1 == count_of(prev, old_pairs[m].0@));
                    if found {
                        assert(old_pairs[m].0@ != x) by {
                            assert(pair_keys(old_pairs)[m] == old_pairs[m].0@);
                            assert(pair_keys(old_pairs)[k as int] == old_pairs[k as int].0@);
                        }
                    } else {
                        assert(old_pairs[m].0@ != x);
                    }
                } else if found && m == k {
                    assert(old_pairs[m].0@ == x);
                    assert(old_pairs[m].1 == count_of(prev, x));
                } else {
                    assert(pairs@[m].0@ == x);
                    assert(!pair_keys(old_pairs).contains(x));
                    assert(!prev.contains(x));
                    lemma_count_absent(prev, x);
                }
            }
            assert forall|m: int| 0 <= m < pairs@.len() implies #[trigger] pairs@[m].1 <= i + 1 by {
                if m < old_pairs.len() && !(found && m == k) {
                    assert(pairs@[m] == old_pairs[m]);
                }
            }
            let next = wv.take(i + 1);
            assert forall|w: Seq<char>| next.contains(w) <==> nk.contains(w) by {
                if next.contains(w) {
                    let p = choose|p: int| 0 <= p < next.len() && next[p] == w;
                    if p < i {
                        assert(prev[p] == w);
                        assert(prev.contains(w));
                        assert(pair_keys(old_pairs).contains(w));
                        let q = choose|q: int| 0 <= q < pair_keys(old_pairs).len() && pair_keys(old_pairs)[q] == w;
                        if found {
                            assert(nk =~= pair_keys(old_pairs));
                        } else {
                            assert(nk =~= pair_keys(old_pairs).push(x));
                        }
                        assert(nk[q] == w);
                    } else {
                        if found {
                            assert(nk[k as int] == pairs@[k as int].0@);
                        } else {
                            assert(nk[old_pairs.len() as int] == x);
                        }
                    }
                }
                if nk.contains(w) {
                    let q = choose|q: int| 0 <= q < nk.len() && nk[q] == w;
                    if q < old_pairs.len() {
                        assert(pair_keys(old_pairs)[q] == nk[q]);
                        assert(pair_keys(old_pairs).contains(w));
                        assert(prev.contains(w));
                        let p = choose|p: int| 0 <= p < prev.len() && prev[p] == w;
                        assert(next[p] == w);
                    } else {
                        assert(next[i as int] == x);
                    }
                }
            }
        }
        i = i + 1;
    }
    assert(wv.take(ws@.len() as int) =~= wv);
    pairs
}

proof fn lemma_count_absent(ws: Seq<Seq<char>>, w: Seq<char>)
    requires
        !ws.contains(w),
    ensures
        count_of(ws, w) == 0,
    decreases ws.len(),
{
    if ws.len() > 0 {
        assert(!ws.drop_last().contains(w)) by {
            if ws.drop_last().contains(w) {
                let p = choose|p: int| 0 <= p < ws.drop_last().len() && ws.drop_last()[p] == w;
                assert(ws[p] == w);
            }
        }
        assert(ws[ws.len() - 1] == ws.last());
        lemma_count_absent(ws.drop_last(), w);
    }
}

/// `a` ranks before `b` by the counts the pairs carry.
pub open spec fn pair_ranks_before(a: (String, usize), b: (String, usize)) -> bool {
    a.1 > b.1 || (a.1 == b.1 && seq_lt(a.0@, b.0@))
}

fn pair_before(a: &(String, usize), b: &(String, usize)) -> (res: bool)
    ensures
        res == pair_ranks_before(*a, *b),
{
    a.1 > b.1 || (a.1 == b.1 && str_lt(a.0.as_str(), b.0.as_str()))
}

proof fn lemma_pair_order(a: (String, usize), b: (String, usize), c: (String, usize))
    ensures
        !pair_ranks_before(a, a),
        a.0@ != b.0@ ==> pair_ranks_before(a, b) || pair_ranks_before(b, a),
        pair_ranks_before(a, b) ==> !pair_ranks_before(b, a),
        pair_ranks_before(a, b) && pair_ranks_before(b, c) ==> pair_ranks_before(a, c),
{
    lemma_seq_lt_irreflexive(a.0@);
    lemma_seq_lt_total(a.0@, b.0@);
    if seq_lt(a.0@, b.0@) && seq_lt(b.0@, c.0@) {
        lemma_seq_lt_transitive(a.0@, b.0@, c.0@);
    }
}

/// Sorted best first by the counts the pairs carry.
pub open spec fn pairs_ranked(ps: Seq<(String, usize)>) -> bool {
    forall|i: int, j: int| 0 <= i < j < ps.len() ==> pair_ranks_before(#[trigger] ps[i], #[trigger] ps[j])
}

pub open spec fn pviews(ps: Seq<(String, usize)>) -> Seq<(Seq<char>, usize)> {
    ps.map_values(|p: (String, usize)| (p.0@, p.1))
}

/// The pairs sorted best first.
fn rank_pairs(pairs: &Vec<(String, usize)>) -> (res: Vec<(String, usize)>)
    requires
        pair_keys(pairs@).no_duplicates(),
    ensures
        pairs_ranked(res@),
        res@.len() == pairs@.len(),
        forall|v: (Seq<char>, usize)| pviews(pairs@).contains(v) <==> pviews(res@).contains(v),
{
    let ghost pv = pviews(pairs@);
    let mut out: Vec<(String, usize)> = Vec::new();
    let mut k: usize = 0;
    assert(pviews(out@) =~= seq![]);
    while k < pairs.len()
        invariant
            0 <= k <= pairs@.len(),
            pv == pviews(pairs@),
            pair_keys(pairs@).no_duplicates(),
            pairs_ranked(out@),
            out@.len() == k,
            forall|v: (Seq<char>, usize)| pv.take(k as int).contains(v) <==> pviews(out@).contains(v),
        decreases pairs@.len() - k,
    {
        let x = (pairs[k].0.clone(), pairs[k].1);
        let ghost xv = (x.0@, x.1);
        assert(xv == pv[k as int]);
        let ghost s = out@;
        let mut p: usize = 0;
        while p < out.len() && !pair_before(&x, &out[p])
            invariant
                0 <= p <= out@.len(),
                s == out@,
                forall|m: int| 0 <= m < p ==> !pair_ranks_before(x, #[trigger] s[m]),
            decreases out@.len() - p,
        {
            p = p + 1;
        }
        proof {
            assert forall|m: int| 0 <= m < s.len() implies s[m].0@ != x.0@ by {
                assert(pviews(s)[m] == (s[m].0@, s[m].1));
                assert(pviews(s).contains(pviews(s)[m]));
                let before = pv.take(k as int);
                assert(before.contains(pviews(s)[m]));
                let q = choose|q: int| 0 <= q < before.len() && before[q] == pviews(s)[m];
                assert(pair_keys(pairs@)[q] == pv[q].0);
                assert(pair_keys(pairs@)[k as int] == x.0@);
            }
            if p < s.len() {
                assert forall|m: int| p <= m < s.len() implies pair_ranks_before(x, #[trigger] s[m]) by {
                    lemma_pair_order(x, s[p as int], s[p as int]);
                    if m > p {
                        assert(pair_ranks_before(s[p as int], s[m]));
                        lemma_pair_order(x, s[p as int], s[m]);
                    }
                }
            }
        }
        out.insert(p, x);
        proof {
            let t = out@;
            assert(t =~= s.insert(p as int, x));
            assert forall|i: int, j: int| 0 <= i < j < t.len() implies pair_ranks_before(
                #[trigger] t[i],
                #[trigger] t[j],
            ) by {
                if j < p {
                    assert(pair_ranks_before(s[i], s[j]));
                } else if j == p {
                    lemma_pair_order(s[i], x, x);
                } else if i == p {
                } else if i < p {
                    lemma_pair_order(s[i], x, s[j - 1]);
                    lemma_pair_order(x, s[i], s[j - 1]);
                } else {
                    assert(pair_ranks_before(s[i - 1], s[j - 1]));
                }
            }
            assert(pviews(t) =~= pviews(s).insert(p as int, xv));
            let upto = pv.take(k + 1);
            let before = pv.take(k as int);
            assert(upto =~= before.push(xv));
            assert forall|v: (Seq<char>, usize)| upto.contains(v) <==> pviews(t).contains(v) by {
                let ps = pviews(s);
                let pt = pviews(t);
                if upto.contains(v) {
                    let q = choose|q: int| 0 <= q < upto.len() && upto[q] == v;
                    if q < k {
                        assert(before[q] == v);
                        assert(ps.contains(v));
                        let m = choose|m: int| 0 <= m < ps.len() && ps[m] == v;
                        if m < p {
                            assert(pt[m] == v);
                        } else {
                            assert(pt[m + 1] == v);
                        }
                    } else {
                        assert(pt[p as int] == v);
                    }
                }
                if pt.contains(v) {
                    let m = choose|m: int| 0 <= m < pt.len() && pt[m] == v;
                    if m == p {
                        assert(upto[k as int] == v);
                    } else {
                        let m0 = if m < p { m } else { m - 1 };
                        assert(ps[m0] == v);
                        assert(ps.contains(v));
                        assert(before.contains(v));
                        let q = choose|q: int| 0 <= q < before.len() && before[q] == v;
                        assert(upto[q] == v);
                    }
                }
            }
        }
        k = k + 1;
    }
    assert(pv.take(pairs@.len() as int) =~= pv);
    out
}

proof fn lemma_candidates_push(tokens: Seq<Seq<char>>, t: Seq<char>, stop: Seq<Seq<char>>, existing: Seq<Seq<char>>)
    ensures
        candidates(tokens.push(t), stop, existing) == if is_candidate(t, stop, existing) {
            candidates(tokens, stop, existing).push(t)
        } else {
            candidates(tokens, stop, existing)
        },
{
    assert(tokens.push(t).drop_last() =~= tokens);
}

/// Up to `max` suggested tags for the text fields: words of three characters or
/// more that are not English stop words or existing tags (compared
/// lower-cased), most frequent first, ties alphabetically.
pub fn suggest_tags(input: &TagSuggestionInput, max: usize) -> (res: Vec<String>)
    ensures
        top_words(
            suggestion_words(views(input.text_fields@), views(input.existing_tags@)),
            max as nat,
            views(res@),
        ),
{
    if max == 0 || input.text_fields.len() == 0 {
        let empty: Vec<String> = Vec::new();
        return suggest_tags_excluding(input, max, &empty);
    }
    proof {
        reveal_strlit("en");
    }
    let stop: Vec<String> = match stop_words_for("en") {
        Some(v) => v,
        None => Vec::new(),
    };
    assert(views(stop@) =~= english_stop_words());
    suggest_tags_excluding(input, max, &stop)
}

/// Up to `max` suggested tags for the text fields with `stop` as the stop
/// words: words of three characters or more that are neither stop words nor
/// existing tags (compared lower-cased), most frequent first, ties
/// alphabetically.
pub fn suggest_tags_excluding(input: &TagSuggestionInput, max: usize, stop: &Vec<String>) -> (res:
    Vec<String>)
    ensures
        top_words(
            candidates(
                all_tokens(views(input.text_fields@)),
                views(stop@),
                views(input.existing_tags@).map_values(|t: Seq<char>| lowercase(t)),
            ),
            max as nat,
            views(res@),
        ),
{
    let ghost fields = views(input.text_fields@);
    let ghost ex = views(input.existing_tags@).map_values(|t: Seq<char>| lowercase(t));
    let ghost stopv = views(stop@);
    let ghost ws = candidates(all_tokens(fields), stopv, ex);
    if max == 0 || input.text_fields.len() == 0 {
        proof {
            if input.text_fields.len() == 0 {
                assert(fields =~= seq![]);
                assert(all_tokens(fields) =~= seq![]);
                assert(ws =~= seq![]);
            }
        }
        let empty: Vec<String> = Vec::new();
        assert(views(empty@) =~= seq![]);
        return empty;
    }
    // Existing tags, lower-cased.
    let mut existing: Vec<String> = Vec::new();
    let mut e: usize = 0;
    while e < input.existing_tags.len()
        invariant
            0 <= e <= input.existing_tags@.len(),
            ex == views(input.existing_tags@).map_values(|t: Seq<char>| lowercase(t)),
            views(existing@) == ex.take(e as int),
        decreases input.existing_tags@.len() - e,
    {
        let l = to_lowercase(input.existing_tags[e].as_str());
        let ghost before = existing@;
        existing.push(l);
        assert(views(existing@) =~= views(before).push(l@));
        assert(ex.take(e + 1) =~= ex.take(e as int).push(ex[e as int]));
        e = e + 1;
    }
    assert(ex.take(input.existing_tags@.len() as int) =~= ex);
    // Every token of every field.
    let mut toks: Vec<String> = Vec::new();
    let mut f: usize = 0;
    assert(fields.take(0) =~= seq![]);
    assert(views(toks@) =~= seq![]);
    while f < input.text_fields.len()
        invariant
            0 <= f <= input.text_fields@.len(),
            fields == views(input.text_fields@),
            views(toks@) == all_tokens(fields.take(f as int)),
        decreases input.text_fields@.len() - f,
    {
        let ts = tokenize(input.text_fields[f].as_str());
        let mut j: usize = 0;
        let ghost base = views(toks@);
        assert(tokens_of(fields[f as int]).take(0) =~= seq![]);
        assert(base + tokens_of(fields[f as int]).take(0) =~= base);
        while j < ts.len()
            invariant
                0 <= j <= ts@.len(),
                views(ts@) == tokens_of(fields[f as int]),
                views(toks@) == base + tokens_of(fields[f as int]).take(j as int),
            decreases ts@.len() - j,
        {
            let ghost before = toks@;
            toks.push(ts[j].clone());
            assert(views(toks@) =~= views(before).push(ts@[j as int]@));
            assert(tokens_of(fields[f as int]).take(j + 1) =~= tokens_of(fields[f as int]).take(
                j as int,
            ).push(ts@[j as int]@));
            j = j + 1;
        }
        assert(tokens_of(fields[f as int]).take(ts@.len() as int) =~= tokens_of(fields[f as int]));
        assert(fields.take(f + 1).drop_last() =~= fields.take(f as int));
        assert(fields.take(f + 1).last() == fields[f as int]);
        f = f + 1;
    }
    assert(fields.take(input.text_fields@.len() as int) =~= fields);
    // The candidates, in order.
    let ghost tv = views(toks@);
    let mut words: Vec<String> = Vec::new();
    let mut i: usize = 0;
    assert(tv.take(0) =~= seq![]);
    assert(views(words@) =~= seq![]);
    while i < toks.len()
        invariant
            0 <= i <= toks@.len(),
            tv == views(toks@),
            views(stop@) == stopv,
            views(existing@) == ex,
            views(words@) == candidates(tv.take(i as int), stopv, ex),
        decreases toks@.len() - i,
    {
        let t = toks[i].as_str();
        proof {
            assert(tv.take(i + 1) =~= tv.take(i as int).push(tv[i as int]));
            lemma_candidates_push(tv.take(i as int), tv[i as int], stopv, ex);
        }
        if t.unicode_len() >= 3 && !contains_str(stop, t) && !contains_str(&existing, t) {
            let ghost before = words@;
            words.push(toks[i].clone());
            assert(views(words@) =~= views(before).push(t@));
        }
        i = i + 1;
    }
    assert(tv.take(toks@.len() as int) =~= tv);
    assert(views(words@) == ws);
    let pairs = count_words(&words);
    let ranked = rank_pairs(&pairs);
    let m: usize = if max < ranked.len() {
        max
    } else {
        ranked.len()
    };
    let mut res: Vec<String> = Vec::new();
    let mut q: usize = 0;
    while q < m
        invariant
            0 <= q <= m,
            m <= ranked@.len(),
            res@.len() == q,
            forall|k: int| 0 <= k < q ==> #[trigger] res@[k]@ == ranked@[k].0@,
        decreases m - q,
    {
        res.push(ranked[q].0.clone());
        q = q + 1;
    }
    proof {
        let r = views(res@);
        let rk = ranked@;
        assert forall|k: int| 0 <= k < rk.len() implies pair_keys(pairs@).contains(#[trigger] rk[k].0@)
            && rk[k].1 == count_of(ws, rk[k].0@) by {
            assert(pviews(rk)[k] == (rk[k].0@, rk[k].1));
            assert(pviews(rk).contains(pviews(rk)[k]));
            assert(pviews(pairs@).contains(pviews(rk)[k]));
            let z = choose|z: int| 0 <= z < pviews(pairs@).len() && pviews(pairs@)[z] == pviews(rk)[k];
            assert(pair_keys(pairs@)[z] == pairs@[z].0@);
            assert(pairs@[z].1 == count_of(views(words@), pairs@[z].0@));
        }
        assert forall|i2: int| 0 <= i2 < r.len() implies ws.contains(#[trigger] r[i2]) by {
            assert(r[i2] == rk[i2].0@);
            assert(pair_keys(pairs@).contains(rk[i2].0@));
        }
        assert forall|i2: int, j2: int| 0 <= i2 < j2 < r.len() implies ranks_before(
            ws,
            #[trigger] r[i2],
            #[trigger] r[j2],
        ) by {
            assert(r[i2] == rk[i2].0@);
            assert(r[j2] == rk[j2].0@);
            assert(pair_ranks_before(rk[i2], rk[j2]));
            assert(pair_keys(pairs@).contains(rk[i2].0@));
            assert(pair_keys(pairs@).contains(rk[j2].0@));
        }
        assert forall|i2: int, j2: int| 0 <= i2 < j2 < r.len() implies r[i2] != r[j2] by {
            assert(r[i2] == rk[i2].0@);
            assert(r[j2] == rk[j2].0@);
            assert(pair_keys(pairs@).contains(rk[i2].0@));
            assert(pair_keys(pairs@).contains(rk[j2].0@));
            assert(pair_ranks_before(rk[i2], rk[j2]));
            lemma_seq_lt_irreflexive(rk[i2].0@);
        }
        assert forall|w: Seq<char>|
            #![trigger ws.contains(w)]
            ws.contains(w) && !r.contains(w) implies r.len() == max && forall|i2: int|
                0 <= i2 < r.len() ==> ranks_before(ws, #[trigger] r[i2], w) by {
            assert(pair_keys(pairs@).contains(w));
            let z = choose|z: int| 0 <= z < pair_keys(pairs@).len() && pair_keys(pairs@)[z] == w;
            assert(pairs@[z].0@ == w);
            assert(pviews(pairs@)[z] == (w, pairs@[z].1));
            assert(pviews(pairs@).contains((w, pairs@[z].1)));
            assert(pviews(rk).contains((w, pairs@[z].1)));
            let y = choose|y: int| 0 <= y < pviews(rk).len() && pviews(rk)[y] == (w, pairs@[z].1);
            assert(rk[y].0@ == w);
            if y < m {
                assert(r[y] == w);
            }
            assert(y >= m);
            assert forall|i2: int| 0 <= i2 < r.len() implies ranks_before(ws, #[trigger] r[i2], w) by {
                assert(r[i2] == rk[i2].0@);
                assert(pair_ranks_before(rk[i2], rk[y]));
                assert(pair_keys(pairs@).contains(rk[i2].0@));
                assert(pair_keys(pairs@).contains(rk[y].0@));
            }
        }
    }
    res
}

} // verus!
