//! Free-form `key=value` metadata attached to an entry: an ordered map with
//! unique, trimmed keys.

use vstd::prelude::*;

use crate::errors::Error;
use crate::text::{
    chars_of, join_seq, lemma_seq_lt_irreflexive, lemma_seq_lt_total, lemma_seq_lt_transitive,
    owned, push_char, push_str, seq_lt, split_char, split_seq, str_eq, str_lt, string_from_chars,
    trim, trim_seq, views,
};

verus! {

/// A metadata entry seen as two character sequences.
pub type PairView = (Seq<char>, Seq<char>);

/// Keys appear in strictly increasing order (so each key once).
pub open spec fn keys_increasing(ps: Seq<PairView>) -> bool {
    forall|i: int, j: int| 0 <= i < j < ps.len() ==> seq_lt(ps[i].0, ps[j].0)
}

/// `ps` with `(k, v)` put in place: replacing the pair with key `k`, or
/// inserted before the first larger key.
pub open spec fn sorted_insert(ps: Seq<PairView>, k: Seq<char>, v: Seq<char>) -> Seq<PairView>
    decreases ps.len(),
{
    if ps.len() == 0 {
        seq![(k, v)]
    } else if ps[0].0 == k {
        seq![(k, v)] + ps.drop_first()
    } else if seq_lt(k, ps[0].0) {
        seq![(k, v)] + ps
    } else {
        seq![ps[0]] + sorted_insert(ps.drop_first(), k, v)
    }
}

/// The value stored under `k`, if any.
pub open spec fn lookup(ps: Seq<PairView>, k: Seq<char>) -> Option<Seq<char>>
    decreases ps.len(),
{
    if ps.len() == 0 {
        None
    } else if ps[0].0 == k {
        Some(ps[0].1)
    } else {
        lookup(ps.drop_first(), k)
    }
}

pub open spec fn pair_views(v: Seq<(String, String)>) -> Seq<PairView> {
    v.map_values(|p: (String, String)| (p.0@, p.1@))
}

proof fn lemma_lookup_index(ps: Seq<PairView>, k: Seq<char>, i: int)
    requires
        0 <= i < ps.len(),
        ps[i].0 == k,
        forall|j: int| 0 <= j < i ==> ps[j].0 != k,
    ensures
        lookup(ps, k) == Some(ps[i].1),
    decreases i,
{
    if i > 0 {
        lemma_lookup_index(ps.drop_first(), k, i - 1);
    }
}

proof fn lemma_lookup_none(ps: Seq<PairView>, k: Seq<char>)
    requires
        forall|j: int| 0 <= j < ps.len() ==> ps[j].0 != k,
    ensures
        lookup(ps, k) is None,
    decreases ps.len(),
{
    if ps.len() > 0 {
        lemma_lookup_none(ps.drop_first(), k);
    }
}

proof fn lemma_sorted_insert_prefix(ps: Seq<PairView>, k: Seq<char>, v: Seq<char>, i: int)
    requires
        0 <= i < ps.len(),
        seq_lt(ps[i].0, k),
    ensures
        sorted_insert(ps.skip(i), k, v) == seq![ps[i]] + sorted_insert(ps.skip(i + 1), k, v),
{
    lemma_seq_lt_irreflexive(k);
    lemma_seq_lt_total(k, ps[i].0);
    assert(ps.skip(i).drop_first() =~= ps.skip(i + 1));
}

/// Ordered `key -> value` metadata; keys are unique and kept in increasing
/// order, as in a `BTreeMap`.
#[derive(Debug)]
pub struct Metadata {
    entries: Vec<(String, String)>,
}

impl Metadata {
    /// The entries, in increasing key order.
    pub closed spec fn pairs(&self) -> Seq<PairView> {
        pair_views(self.entries@)
    }

    #[verifier::type_invariant]
    closed spec fn well_formed(&self) -> bool {
        keys_increasing(self.pairs())
    }

    /// An empty map.
    pub fn new() -> (res: Metadata)
        ensures
            res.pairs() == Seq::<PairView>::empty(),
    {
        let res = Metadata { entries: Vec::new() };
        assert(res.pairs() =~= Seq::<PairView>::empty());
        res
    }

    pub fn len(&self) -> (res: usize)
        ensures
            res == self.pairs().len(),
            keys_increasing(self.pairs()),
    {
        proof {
            use_type_invariant(self);
        }
        self.entries.len()
    }

    pub fn is_empty(&self) -> (res: bool)
        ensures
            res == (self.pairs().len() == 0),
    {
        self.entries.len() == 0
    }

    /// The entries in increasing key order.
    pub fn entries(&self) -> (res: &Vec<(String, String)>)
        ensures
            pair_views(res@) == self.pairs(),
            keys_increasing(self.pairs()),
    {
        proof {
            use_type_invariant(self);
        }
        &self.entries
    }

    /// The entries in increasing key order, consuming the map.
    pub fn into_pairs(self) -> (res: Vec<(String, String)>)
        ensures
            pair_views(res@) == self.pairs(),
    {
        self.entries
    }

    /// The value stored under `key`.
    pub fn get(&self, key: &str) -> (res: Option<&String>)
        ensures
            match res {
                Some(v) => lookup(self.pairs(), key@) == Some(v@),
                None => lookup(self.pairs(), key@) is None,
            },
    {
        let mut i: usize = 0;
        while i < self.entries.len()
            invariant
                0 <= i <= self.entries@.len(),
                forall|j: int| 0 <= j < i ==> #[trigger] self.pairs()[j].0 != key@,
            decreases self.entries@.len() - i,
        {
            if str_eq(self.entries[i].0.as_str(), key) {
                proof {
                    lemma_lookup_index(self.pairs(), key@, i as int);
                }
                return Some(&self.entries[i].1);
            }
            i = i + 1;
        }
        proof {
            lemma_lookup_none(self.pairs(), key@);
        }
        None
    }

    /// Stores `value` under `key`, replacing any previous value.
    pub fn insert(&mut self, key: String, value: String)
        ensures
            final(self).pairs() == sorted_insert(old(self).pairs(), key@, value@),
    {
        proof {
            use_type_invariant(&*self);
        }
        let ghost ps = self.pairs();
        let mut es: Vec<(String, String)> = Vec::new();
        std::mem::swap(&mut es, &mut self.entries);
        assert(pair_views(es@) == ps);
        let n = es.len();
        let mut i: usize = 0;
        assert(ps.skip(0) =~= ps);
        while i < n && str_lt(es[i].0.as_str(), key.as_str())
            invariant
                n == ps.len(),
                ps == pair_views(es@),
                keys_increasing(ps),
                0 <= i <= n,
                forall|j: int| 0 <= j < i ==> seq_lt(#[trigger] ps[j].0, key@),
                sorted_insert(ps, key@, value@) == ps.take(i as int) + sorted_insert(
                    ps.skip(i as int),
                    key@,
                    value@,
                ),
            decreases n - i,
        {
            proof {
                lemma_sorted_insert_prefix(ps, key@, value@, i as int);
                assert(ps.take(i + 1) =~= ps.take(i as int).push(ps[i as int]));
                assert(ps.take(i as int) + (seq![ps[i as int]] + sorted_insert(
                    ps.skip(i + 1),
                    key@,
                    value@,
                )) =~= ps.take(i + 1) + sorted_insert(ps.skip(i + 1), key@, value@));
            }
            i = i + 1;
        }
        if i < n && str_eq(es[i].0.as_str(), key.as_str()) {
            proof {
                lemma_insert_replace(ps, key@, value@, i as int);
            }
            es.set(i, (key, value));
            assert(pair_views(es@) =~= ps.update(i as int, (key@, value@)));
        } else {
            proof {
                lemma_insert_new(ps, key@, value@, i as int);
            }
            es.insert(i, (key, value));
            assert(pair_views(es@) =~= ps.insert(i as int, (key@, value@)));
        }
        self.entries = es;
    }
}

impl Clone for Metadata {
    fn clone(&self) -> (res: Self)
        ensures
            res.pairs() == self.pairs(),
    {
        proof {
            use_type_invariant(self);
        }
        let mut es: Vec<(String, String)> = Vec::new();
        let mut i: usize = 0;
        while i < self.entries.len()
            invariant
                0 <= i <= self.entries@.len(),
                pair_views(es@) == self.pairs().take(i as int),
            decreases self.entries@.len() - i,
        {
            let a = self.entries[i].0.clone();
            let b = self.entries[i].1.clone();
            assert(a@ == self.pairs()[i as int].0 && b@ == self.pairs()[i as int].1);
            let ghost before = es@;
            es.push((a, b));
            assert(es@ == before.push((a, b)));
            assert(pair_views(es@) =~= pair_views(before).push((a@, b@)));
            assert(self.pairs().take(i + 1) =~= self.pairs().take(i as int).push(
                self.pairs()[i as int],
            ));
            i = i + 1;
        }
        assert(self.pairs().take(self.entries@.len() as int) =~= self.pairs());
        Metadata { entries: es }
    }
}

proof fn lemma_insert_replace(ps: Seq<PairView>, k: Seq<char>, v: Seq<char>, i: int)
    requires
        keys_increasing(ps),
        0 <= i < ps.len(),
        ps[i].0 == k,
        sorted_insert(ps, k, v) == ps.take(i) + sorted_insert(ps.skip(i), k, v),
    ensures
        sorted_insert(ps, k, v) == ps.update(i, (k, v)),
        keys_increasing(ps.update(i, (k, v))),
{
    let rest = ps.skip(i);
    assert(rest[0] == ps[i]);
    assert(rest.drop_first() =~= ps.skip(i + 1));
    assert(ps.take(i) + (seq![(k, v)] + ps.skip(i + 1)) =~= ps.update(i, (k, v)));
}

proof fn lemma_insert_new(ps: Seq<PairView>, k: Seq<char>, v: Seq<char>, i: int)
    requires
        keys_increasing(ps),
        0 <= i <= ps.len(),
        forall|j: int| 0 <= j < i ==> seq_lt(#[trigger] ps[j].0, k),
        i < ps.len() ==> ps[i].0 != k && !seq_lt(ps[i].0, k),
        sorted_insert(ps, k, v) == ps.take(i) + sorted_insert(ps.skip(i), k, v),
    ensures
        sorted_insert(ps, k, v) == ps.insert(i, (k, v)),
        keys_increasing(ps.insert(i, (k, v))),
{
    let rest = ps.skip(i);
    if i < ps.len() {
        lemma_seq_lt_total(ps[i].0, k);
        assert(rest[0] == ps[i]);
        assert forall|j: int| i <= j < ps.len() implies seq_lt(k, #[trigger] ps[j].0) by {
            if j > i {
                lemma_seq_lt_transitive(k, ps[i].0, ps[j].0);
            }
        }
    }
    assert(sorted_insert(rest, k, v) == seq![(k, v)] + rest);
    assert(ps.take(i) + (seq![(k, v)] + rest) =~= ps.insert(i, (k, v)));
    let q = ps.insert(i, (k, v));
    assert forall|a: int, b: int| 0 <= a < b < q.len() implies seq_lt(q[a].0, q[b].0) by {
        if a < i && b == i {
        } else if a < i && b > i {
            assert(q[b] == ps[b - 1]);
            assert(seq_lt(ps[a].0, ps[b - 1].0));
        } else if a == i {
            assert(q[b] == ps[b - 1]);
        } else if a > i {
            assert(q[a] == ps[a - 1]);
            assert(q[b] == ps[b - 1]);
        }
    }
}

// ---------------------------------------------------------------------------
// Building metadata from user input
// ---------------------------------------------------------------------------

/// Why a list of pairs cannot become metadata.
pub enum MetadataFault {
    BlankKey,
    DuplicateKey(Seq<char>),
}

/// The metadata that `pairs` describe after trimming keys and values, or the
/// first fault met from left to right.
pub open spec fn metadata_outcome(pairs: Seq<PairView>) -> Result<Seq<PairView>, MetadataFault>
    decreases pairs.len(),
{
    if pairs.len() == 0 {
        Ok(seq![])
    } else {
        match metadata_outcome(pairs.drop_last()) {
            Err(f) => Err(f),
            Ok(ps) => {
                let k = trim_seq(pairs.last().0);
                if k.len() == 0 {
                    Err(MetadataFault::BlankKey)
                } else if lookup(ps, k) is Some {
                    Err(MetadataFault::DuplicateKey(k))
                } else {
                    Ok(sorted_insert(ps, k, trim_seq(pairs.last().1)))
                }
            },
        }
    }
}

proof fn lemma_outcome_err_sticks(pairs: Seq<PairView>, i: int)
    requires
        0 <= i <= pairs.len(),
        metadata_outcome(pairs.take(i)) is Err,
    ensures
        metadata_outcome(pairs) == metadata_outcome(pairs.take(i)),
    decreases pairs.len() - i,
{
    if i < pairs.len() {
        assert(pairs.drop_last().take(i) =~= pairs.take(i));
        lemma_outcome_err_sticks(pairs.drop_last(), i);
    } else {
        assert(pairs.take(i) =~= pairs);
    }
}

/// Builds metadata from `(key, value)` pairs, trimming both; a blank key is
/// refused, and so is a key given twice.
pub fn build_metadata(pairs: Vec<(String, String)>) -> (res: Result<Metadata, Error>)
    ensures
        match metadata_outcome(pair_views(pairs@)) {
            Ok(ps) => (res matches Ok(m) && m.pairs() == ps),
            Err(MetadataFault::BlankKey) => res matches Err(Error::InvalidMetadataError(_)),
            Err(MetadataFault::DuplicateKey(k)) => (res matches Err(
                Error::DuplicateMetadataKeyError(s),
            ) && s@ == k),
        },
{
    let ghost pv = pair_views(pairs@);
    let mut m = Metadata::new();
    let mut i: usize = 0;
    assert(pv.take(0) =~= seq![]);
    while i < pairs.len()
        invariant
            0 <= i <= pairs@.len(),
            pv == pair_views(pairs@),
            metadata_outcome(pv.take(i as int)) == Ok::<Seq<PairView>, MetadataFault>(m.pairs()),
        decreases pairs@.len() - i,
    {
        assert(pv.take(i + 1).drop_last() =~= pv.take(i as int));
        let k = trim(pairs[i].0.as_str());
        let v = trim(pairs[i].1.as_str());
        if k.unicode_len() == 0 {
            proof {
                lemma_outcome_err_sticks(pv, i + 1);
            }
            return Err(Error::InvalidMetadataError(owned("metadata key must not be blank")));
        }
        if m.get(k.as_str()).is_some() {
            proof {
                lemma_outcome_err_sticks(pv, i + 1);
            }
            return Err(Error::DuplicateMetadataKeyError(k));
        }
        m.insert(k, v);
        i = i + 1;
    }
    assert(pv.take(pairs@.len() as int) =~= pv);
    Ok(m)
}

/// `key=value` for one pair.
pub open spec fn pair_text(p: PairView) -> Seq<char> {
    p.0 + seq!['='] + p.1
}

/// All pairs as `k1=v1, k2=v2` in key order.
pub open spec fn metadata_text(ps: Seq<PairView>) -> Seq<char> {
    join_seq(ps.map_values(|p: PairView| pair_text(p)), seq![',', ' '])
}

/// Formats metadata as `key=value` pairs joined by `, `, in key order.
pub fn format_metadata(m: &Metadata) -> (res: String)
    ensures
        res@ == metadata_text(m.pairs()),
{
    let es = m.entries();
    let ghost texts = m.pairs().map_values(|p: PairView| pair_text(p));
    let mut res = String::new();
    let mut i: usize = 0;
    while i < es.len()
        invariant
            0 <= i <= es@.len(),
            pair_views(es@) == m.pairs(),
            texts == m.pairs().map_values(|p: PairView| pair_text(p)),
            res@ == join_seq(texts.take(i as int), seq![',', ' ']),
        decreases es@.len() - i,
    {
        if i != 0 {
            push_char(&mut res, ',');
            push_char(&mut res, ' ');
        }
        push_str(&mut res, es[i].0.as_str());
        push_char(&mut res, '=');
        push_str(&mut res, es[i].1.as_str());
        proof {
            assert(texts.take(i + 1).drop_last() =~= texts.take(i as int));
            if i != 0 {
                assert(res@ =~= join_seq(texts.take(i as int), seq![',', ' ']) + seq![',', ' ']
                    + texts.take(i + 1).last());
            } else {
                assert(res@ =~= texts.take(i + 1)[0]);
            }
        }
        i = i + 1;
    }
    assert(texts.take(es@.len() as int) =~= texts);
    res
}

/// Index of the first `c` in `s`, or -1.
pub open spec fn first_index_of(s: Seq<char>, c: char) -> int
    decreases s.len(),
{
    if s.len() == 0 {
        -1
    } else if s[0] == c {
        0
    } else {
        let r = first_index_of(s.drop_first(), c);
        if r < 0 {
            -1
        } else {
            r + 1
        }
    }
}

pub(crate) proof fn lemma_first_index_of(s: Seq<char>, c: char, i: int)
    requires
        0 <= i <= s.len(),
        forall|j: int| 0 <= j < i ==> s[j] != c,
    ensures
        i < s.len() && s[i] == c ==> first_index_of(s, c) == i,
        i == s.len() ==> first_index_of(s, c) == -1,
    decreases i,
{
    if i > 0 {
        lemma_first_index_of(s.drop_first(), c, i - 1);
    }
}

/// Splits at the first `sep` (std `str::split_once`).
pub fn split_once(s: &str, sep: char) -> (res: Option<(String, String)>)
    ensures
        first_index_of(s@, sep) < 0 ==> res is None,
        first_index_of(s@, sep) >= 0 ==> (res matches Some(p) && p.0@ == s@.take(
            first_index_of(s@, sep),
        ) && p.1@ == s@.skip(first_index_of(s@, sep) + 1)),
{
    let cs = chars_of(s);
    let mut i: usize = 0;
    while i < cs.len()
        invariant
            cs@ == s@,
            0 <= i <= cs@.len(),
            forall|j: int| 0 <= j < i ==> cs@[j] != sep,
        decreases cs@.len() - i,
    {
        if cs[i] == sep {
            proof {
                lemma_first_index_of(s@, sep, i as int);
            }
            let head = string_from_chars(&cs.as_slice()[0..i]);
            let tail = string_from_chars(&cs.as_slice()[i + 1..cs.len()]);
            assert(cs@.subrange(0, i as int) =~= s@.take(i as int));
            assert(cs@.subrange(i + 1, cs@.len() as int) =~= s@.skip(i + 1));
            return Some((head, tail));
        }
        i = i + 1;
    }
    proof {
        lemma_first_index_of(s@, sep, i as int);
    }
    None
}

/// The `(key, value)` pairs of comma-separated `key=value` tokens, each side
/// trimmed; tokens without `=` are skipped.
pub open spec fn metadata_pairs_of(tokens: Seq<Seq<char>>) -> Seq<PairView>
    decreases tokens.len(),
{
    if tokens.len() == 0 {
        seq![]
    } else {
        let rest = metadata_pairs_of(tokens.drop_last());
        let t = tokens.last();
        let i = first_index_of(t, '=');
        if i < 0 {
            rest
        } else {
            rest.push((trim_seq(t.take(i)), trim_seq(t.skip(i + 1))))
        }
    }
}

/// Parses `key=value,key=value` input into trimmed pairs, in input order.
pub fn parse_metadata_input(input: &str) -> (res: Vec<(String, String)>)
    ensures
        pair_views(res@) == metadata_pairs_of(split_seq(input@, ',')),
{
    let tokens = split_char(input, ',');
    let ghost tv = views(tokens@);
    let mut res: Vec<(String, String)> = Vec::new();
    let mut i: usize = 0;
    while i < tokens.len()
        invariant
            0 <= i <= tokens@.len(),
            tv == views(tokens@),
            tv == split_seq(input@, ','),
            pair_views(res@) == metadata_pairs_of(tv.take(i as int)),
        decreases tokens@.len() - i,
    {
        assert(tv.take(i + 1).drop_last() =~= tv.take(i as int));
        assert(tv.take(i + 1).last() == tokens[i as int]@);
        match split_once(tokens[i].as_str(), '=') {
            Some((k, v)) => {
                let k2 = trim(k.as_str());
                let v2 = trim(v.as_str());
                res.push((k2, v2));
                assert(pair_views(res@) =~= metadata_pairs_of(tv.take(i as int)).push(
                    (k2@, v2@),
                ));
            },
            None => {},
        }
        i = i + 1;
    }
    assert(tv.take(tokens@.len() as int) =~= tv);
    res
}

} // verus!
