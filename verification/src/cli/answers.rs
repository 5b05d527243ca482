//! What the interactive `kb add` does with the answers it gets: the choice
//! after the preview, and the entry that the adjusted fields describe.

use vstd::prelude::*;

use crate::cli::render::{
    lemma_split_joined, lemma_trim_lens, lemma_trim_spaced, nonblank_trimmed, parse_tags,
    spaced_tags,
};
use crate::domain::kb::{opt_view, NewKb};
use crate::domain::metadata::{
    build_metadata, first_index_of, keys_increasing, lookup, metadata_outcome, metadata_pairs_of,
    metadata_text, pair_text, parse_metadata_input, sorted_insert, Metadata, MetadataFault,
    PairView,
};
use crate::domain::paths::{is_media, is_media_category};
use crate::domain::unicode::{lowercase, to_lowercase};
use crate::errors::Error;
use crate::text::{
    owned, join_seq, lemma_seq_lt_irreflexive, lemma_seq_lt_transitive, seq_lt, split_seq, str_eq,
    trim_seq, views,
};

verus! {

/// What to do with a previewed entry.
#[derive(Debug, Clone, Copy, PartialEq, Eq)]
pub enum AddChoice {
    Save,
    Cancel,
    Adjust,
}

/// The choice that a lower-cased answer names: `s`, `c` or `a`.
pub open spec fn choice_of(answer: Seq<char>) -> Option<AddChoice> {
    if answer == "s"@ {
        Some(AddChoice::Save)
    } else if answer == "c"@ {
        Some(AddChoice::Cancel)
    } else if answer == "a"@ {
        Some(AddChoice::Adjust)
    } else {
        None
    }
}

/// The choice an answer to "Save (s), Cancel (c), or Adjust (a)?" names,
/// in either case; `None` for any other answer.
pub fn parse_add_choice(answer: &str) -> (res: Option<AddChoice>)
    ensures
        res == choice_of(lowercase(answer@)),
{
    let l = to_lowercase(answer);
    if str_eq(l.as_str(), "s") {
        Some(AddChoice::Save)
    } else if str_eq(l.as_str(), "c") {
        Some(AddChoice::Cancel)
    } else if str_eq(l.as_str(), "a") {
        Some(AddChoice::Adjust)
    } else {
        None
    }
}

/// How `kb get` looks an entry up.
#[derive(Debug, Clone, PartialEq, Eq)]
pub enum Lookup {
    ByKey(String),
    ById(String),
}

/// The lookup `kb get` makes: by key when one is given, else by id;
/// `GetKBError` when neither is.
pub fn lookup_of(key: Option<String>, id: Option<String>) -> (res: Result<Lookup, Error>)
    ensures
        match key {
            Some(k) => (res matches Ok(Lookup::ByKey(x)) && x@ == k@),
            None => match id {
                Some(i) => (res matches Ok(Lookup::ById(x)) && x@ == i@),
                None => (res matches Err(Error::GetKBError(m)) && m@ == "no lookup key provided"@),
            },
        },
{
    match key {
        Some(k) => Ok(Lookup::ByKey(k)),
        None => match id {
            Some(i) => Ok(Lookup::ById(i)),
            None => Err(Error::GetKBError(owned("no lookup key provided"))),
        },
    }
}

/// A field that a non-interactive `kb add` must be given:
/// `MissingRequiredField` with its name when it is not.
pub fn required_field(value: Option<String>, field: &str) -> (res: Result<String, Error>)
    ensures
        match value {
            Some(v) => (res matches Ok(r) && r@ == v@),
            None => (res matches Err(Error::MissingRequiredField(m)) && m@ == field@),
        },
{
    match value {
        Some(v) => Ok(v),
        None => Err(Error::MissingRequiredField(owned(field))),
    }
}

/// The media URL of a new entry when it is known without asking: for a
/// media entry the one given when it is non-empty (`None` here means the
/// user must be asked), for any other entry the one given, as it is.
pub fn media_url_given(category: &str, provided: Option<String>) -> (res: Option<Option<String>>)
    ensures
        is_media(category@) ==> match opt_view(provided) {
            Some(u) => if u.len() > 0 {
                res matches Some(Some(r)) && r@ == u
            } else {
                res is None
            },
            None => res is None,
        },
        !is_media(category@) ==> (res matches Some(p) && opt_view(p) == opt_view(provided)),
{
    if is_media_category(category) {
        match provided {
            Some(u) => {
                if u.unicode_len() > 0 {
                    Some(Some(u))
                } else {
                    None
                }
            },
            None => None,
        }
    } else {
        Some(provided)
    }
}

/// The answers to the adjustment prompts, each one the current value when
/// the user typed nothing; `media_url` is asked for media entries only.
pub struct FieldAnswers {
    pub key: String,
    pub value: String,
    pub notes: String,
    pub category: String,
    pub namespace: String,
    pub reference: String,
    pub tags: String,
    pub metadata: String,
    pub path: String,
    pub parent: String,
    pub media_url: Option<String>,
}

/// An answer, or none when it is empty.
pub open spec fn answer_opt(s: Seq<char>) -> Option<Seq<char>> {
    if s.len() == 0 {
        None
    } else {
        Some(s)
    }
}

/// The metadata that `key=value,...` describes, or the first fault.
pub open spec fn metadata_of_input(input: Seq<char>) -> Result<Seq<PairView>, MetadataFault> {
    metadata_outcome(metadata_pairs_of(split_seq(input, ',')))
}

/// The metadata of a new entry from the answer to the metadata prompt:
/// none for an empty answer, else `key=value,...` built as
/// `build_metadata` builds it.
pub fn metadata_from_answer(answer: &str) -> (res: Result<Metadata, Error>)
    ensures
        answer@.len() == 0 ==> (res matches Ok(m) && m.pairs() == Seq::<PairView>::empty()),
        answer@.len() > 0 ==> match metadata_of_input(answer@) {
            Ok(ps) => (res matches Ok(m) && m.pairs() == ps),
            Err(MetadataFault::BlankKey) => res matches Err(Error::InvalidMetadataError(_)),
            Err(MetadataFault::DuplicateKey(k)) => (res matches Err(
                Error::DuplicateMetadataKeyError(m),
            ) && m@ == k),
        },
{
    if answer.unicode_len() == 0 {
        Ok(Metadata::new())
    } else {
        build_metadata(parse_metadata_input(answer))
    }
}

/// The media URL after adjusting: asked for a media entry (empty means
/// none), else the old one.
pub open spec fn adjusted_media_url(
    category: Seq<char>,
    answer: Option<Seq<char>>,
    old: Option<Seq<char>>,
) -> Option<Seq<char>> {
    if is_media(category) {
        match answer {
            Some(a) => answer_opt(a),
            None => None,
        }
    } else {
        old
    }
}

fn optional(s: String) -> (res: Option<String>)
    ensures
        opt_view(res) == answer_opt(s@),
{
    if s.unicode_len() == 0 {
        None
    } else {
        Some(s)
    }
}

/// The entry that the adjustment answers describe: the text fields as
/// answered; tags and metadata parsed from the answers, or kept when the
/// answer is empty; path and parent as answered, none when empty; the
/// media URL asked again for a media entry; the media extension kept.
/// Metadata that cannot be built is refused as `build_metadata` refuses it.
pub fn adjusted_new_kb(kb: NewKb, answers: FieldAnswers) -> (res: Result<NewKb, Error>)
    ensures
        answers.metadata@.len() > 0 ==> match metadata_of_input(answers.metadata@) {
            Err(MetadataFault::BlankKey) => res matches Err(Error::InvalidMetadataError(_)),
            Err(MetadataFault::DuplicateKey(k)) => (res matches Err(
                Error::DuplicateMetadataKeyError(m),
            ) && m@ == k),
            Ok(_) => res is Ok,
        },
        answers.metadata@.len() == 0 ==> res is Ok,
        res matches Ok(n) ==> {
            &&& n.key@ == answers.key@
            &&& n.value@ == answers.value@
            &&& n.notes@ == answers.notes@
            &&& n.category@ == answers.category@
            &&& n.namespace@ == answers.namespace@
            &&& n.reference@ == answers.reference@
            &&& views(n.tags@) == if answers.tags@.len() == 0 {
                views(kb.tags@)
            } else {
                nonblank_trimmed(split_seq(answers.tags@, ','))
            }
            &&& Ok::<Seq<PairView>, MetadataFault>(n.metadata.pairs()) == if answers.metadata@.len()
                == 0 {
                Ok(kb.metadata.pairs())
            } else {
                metadata_of_input(answers.metadata@)
            }
            &&& opt_view(n.path) == answer_opt(answers.path@)
            &&& opt_view(n.parent) == answer_opt(answers.parent@)
            &&& opt_view(n.media_url) == adjusted_media_url(
                answers.category@,
                opt_view(answers.media_url),
                opt_view(kb.media_url),
            )
            &&& opt_view(n.media_extension) == opt_view(kb.media_extension)
        },
{
    let tags = if answers.tags.unicode_len() == 0 {
        kb.tags
    } else {
        parse_tags(answers.tags.as_str())
    };
    let metadata = if answers.metadata.unicode_len() == 0 {
        kb.metadata
    } else {
        build_metadata(parse_metadata_input(answers.metadata.as_str()))?
    };
    let media_url = if is_media_category(answers.category.as_str()) {
        match answers.media_url {
            Some(u) => optional(u),
            None => None,
        }
    } else {
        kb.media_url
    };
    Ok(
        NewKb {
            key: answers.key,
            value: answers.value,
            notes: answers.notes,
            category: answers.category,
            namespace: answers.namespace,
            reference: answers.reference,
            tags,
            metadata,
            path: optional(answers.path),
            parent: optional(answers.parent),
            media_url,
            media_extension: kb.media_extension,
        },
    )
}

// ---------------------------------------------------------------------------
// Reading back what the prompts show
// ---------------------------------------------------------------------------

/// Metadata that a prompt can show and read back: keys non-empty, keys and
/// values trimmed, no `,` in either and no `=` in a key.
pub open spec fn showable_pairs(ps: Seq<PairView>) -> bool {
    forall|i: int|
        0 <= i < ps.len() ==> {
            &&& (#[trigger] ps[i]).0.len() > 0
            &&& trim_seq(ps[i].0) == ps[i].0
            &&& trim_seq(ps[i].1) == ps[i].1
            &&& !ps[i].0.contains(',')
            &&& !ps[i].1.contains(',')
            &&& !ps[i].0.contains('=')
        }
}

proof fn lemma_parse_pair_text(prefix: Seq<char>, p: PairView)
    requires
        prefix == Seq::<char>::empty() || prefix == seq![' '],
        p.0.len() > 0,
        trim_seq(p.0) == p.0,
        trim_seq(p.1) == p.1,
        !p.0.contains('='),
    ensures
        ({
            let t = prefix + pair_text(p);
            let i = first_index_of(t, '=');
            i >= 0 && trim_seq(t.take(i)) == p.0 && trim_seq(t.skip(i + 1)) == p.1
        }),
{
    let t = prefix + pair_text(p);
    let n: int = (prefix.len() + p.0.len()) as int;
    assert forall|j: int| 0 <= j < n implies t[j] != '=' by {
        if j >= prefix.len() {
            assert(t[j] == p.0[j - prefix.len()]);
        }
    }
    assert(t[n] == '=');
    crate::domain::metadata::lemma_first_index_of(t, '=', n);
    assert(t.skip(n + 1) =~= p.1);
    if prefix.len() == 0 {
        assert(t.take(n) =~= p.0);
    } else {
        assert(t.take(n) =~= seq![' '] + p.0);
        lemma_trim_spaced(p.0);
    }
}

proof fn lemma_pairs_of_spaced(ps: Seq<PairView>)
    requires
        showable_pairs(ps),
    ensures
        metadata_pairs_of(spaced_tags(ps.map_values(|p: PairView| pair_text(p)))) == ps,
    decreases ps.len(),
{
    if ps.len() > 0 {
        let init = ps.drop_last();
        assert forall|i: int| 0 <= i < init.len() implies #[trigger] init[i] == ps[i] by {}
        lemma_pairs_of_spaced(init);
        let texts = ps.map_values(|p: PairView| pair_text(p));
        let sp = spaced_tags(texts);
        assert(sp.drop_last() =~= spaced_tags(init.map_values(|p: PairView| pair_text(p))));
        let last = ps[ps.len() - 1];
        assert(ps[ps.len() - 1] == last);
        if ps.len() == 1 {
            assert(sp.last() == Seq::<char>::empty() + pair_text(last));
            lemma_parse_pair_text(Seq::<char>::empty(), last);
        } else {
            assert(sp.last() == seq![' '] + pair_text(last));
            lemma_parse_pair_text(seq![' '], last);
        }
        assert(init.push(last) =~= ps);
    }
}

proof fn lemma_insert_last(ps: Seq<PairView>, k: Seq<char>, v: Seq<char>)
    requires
        forall|i: int| 0 <= i < ps.len() ==> seq_lt(#[trigger] ps[i].0, k),
    ensures
        sorted_insert(ps, k, v) == ps.push((k, v)),
        lookup(ps, k) is None,
    decreases ps.len(),
{
    if ps.len() > 0 {
        lemma_seq_lt_irreflexive(k);
        assert(seq_lt(ps[0].0, k));
        if seq_lt(k, ps[0].0) {
            lemma_seq_lt_transitive(k, ps[0].0, k);
        }
        assert forall|i: int| 0 <= i < ps.drop_first().len() implies seq_lt(
            #[trigger] ps.drop_first()[i].0,
            k,
        ) by {
            assert(ps.drop_first()[i] == ps[i + 1]);
        }
        lemma_insert_last(ps.drop_first(), k, v);
        assert(seq![ps[0]] + ps.drop_first().push((k, v)) =~= ps.push((k, v)));
    }
}

proof fn lemma_outcome_sorted(ps: Seq<PairView>)
    requires
        keys_increasing(ps),
        showable_pairs(ps),
    ensures
        metadata_outcome(ps) == Ok::<Seq<PairView>, MetadataFault>(ps),
    decreases ps.len(),
{
    if ps.len() > 0 {
        let init = ps.drop_last();
        assert(keys_increasing(init)) by {
            assert forall|i: int, j: int| 0 <= i < j < init.len() implies seq_lt(
                init[i].0,
                init[j].0,
            ) by {
                assert(init[i] == ps[i] && init[j] == ps[j]);
            }
        }
        assert(showable_pairs(init)) by {
            assert forall|i: int| 0 <= i < init.len() implies #[trigger] init[i] == ps[i] by {}
        }
        lemma_outcome_sorted(init);
        let last = ps.last();
        assert(last == ps[ps.len() - 1]);
        assert forall|i: int| 0 <= i < init.len() implies seq_lt(#[trigger] init[i].0, last.0) by {
            assert(init[i] == ps[i]);
        }
        lemma_insert_last(init, last.0, last.1);
        assert(ps[ps.len() - 1].0.len() > 0);
        assert(trim_seq(last.0) == last.0);
        assert(trim_seq(last.1) == last.1);
        assert(ps.drop_last() == init);
        assert(init.push((last.0, last.1)) =~= ps);
        assert(metadata_outcome(ps) == Ok::<Seq<PairView>, MetadataFault>(
            sorted_insert(init, last.0, last.1),
        ));
    } else {
        assert(ps =~= Seq::<PairView>::empty());
    }
}

/// Metadata shown as `k1=v1, k2=v2` and read back with the metadata prompt's
/// parser is the same metadata, provided no key or value holds a comma, no
/// key an `=`, and every key and value is already trimmed.
pub proof fn lemma_metadata_show_parse(ps: Seq<PairView>)
    requires
        keys_increasing(ps),
        showable_pairs(ps),
    ensures
        metadata_text(ps).len() > 0 ==> metadata_of_input(metadata_text(ps)) == Ok::<
            Seq<PairView>,
            MetadataFault,
        >(ps),
{
    if ps.len() > 0 {
        let texts = ps.map_values(|p: PairView| pair_text(p));
        assert forall|i: int| 0 <= i < texts.len() implies !(#[trigger] texts[i]).contains(',') by {
            let t = texts[i];
            assert(t == ps[i].0 + seq!['='] + ps[i].1);
            if t.contains(',') {
                let k = choose|k: int| 0 <= k < t.len() && t[k] == ',';
                if k < ps[i].0.len() {
                    assert(ps[i].0[k] == ',');
                } else if k > ps[i].0.len() {
                    assert(ps[i].1[k - ps[i].0.len() - 1] == ',');
                }
            }
        }
        lemma_split_joined(texts);
        lemma_pairs_of_spaced(ps);
        lemma_outcome_sorted(ps);
    }
}

/// What an optional field shows in its prompt: its value, or nothing.
pub open spec fn shown(o: Option<Seq<char>>) -> Seq<char> {
    match o {
        Some(v) => v,
        None => seq![],
    }
}

/// Answering every adjustment prompt with the value it shows (tags joined
/// with `", "`, metadata as `k=v, ...`) gives back the entry: the parts
/// that `adjusted_new_kb` computes from the answers are the entry's own.
/// This holds for tags that are non-empty, trimmed and free of commas,
/// metadata that `showable_pairs` admits, and optional fields that are not
/// set to an empty string. Metadata keys always increase; a caller learns it
/// from `Metadata::len` or `Metadata::entries`.
pub proof fn lemma_adjust_keeps_entry(kb: NewKb, answers: FieldAnswers)
    requires
        forall|i: int|
            0 <= i < kb.tags@.len() ==> (#[trigger] kb.tags@[i])@.len() > 0 && trim_seq(
                kb.tags@[i]@,
            ) == kb.tags@[i]@ && !kb.tags@[i]@.contains(','),
        keys_increasing(kb.metadata.pairs()),
        showable_pairs(kb.metadata.pairs()),
        kb.path matches Some(p) ==> p@.len() > 0,
        kb.parent matches Some(p) ==> p@.len() > 0,
        kb.media_url matches Some(u) ==> u@.len() > 0,
        answers.tags@ == join_seq(views(kb.tags@), seq![',', ' ']),
        answers.metadata@ == metadata_text(kb.metadata.pairs()),
        answers.category@ == kb.category@,
        answers.path@ == shown(opt_view(kb.path)),
        answers.parent@ == shown(opt_view(kb.parent)),
        is_media(kb.category@) ==> opt_view(answers.media_url) == Some(shown(opt_view(kb.media_url))),
    ensures
        (if answers.tags@.len() == 0 {
            views(kb.tags@)
        } else {
            nonblank_trimmed(split_seq(answers.tags@, ','))
        }) == views(kb.tags@),
        answers.metadata@.len() > 0 ==> metadata_of_input(answers.metadata@) == Ok::<
            Seq<PairView>,
            MetadataFault,
        >(kb.metadata.pairs()),
        answer_opt(answers.path@) == opt_view(kb.path),
        answer_opt(answers.parent@) == opt_view(kb.parent),
        adjusted_media_url(answers.category@, opt_view(answers.media_url), opt_view(kb.media_url))
            == opt_view(kb.media_url),
{
    let tv = views(kb.tags@);
    assert forall|i: int| 0 <= i < tv.len() implies (#[trigger] tv[i]).len() > 0 && trim_seq(tv[i])
        == tv[i] && !tv[i].contains(',') by {
        assert(tv[i] == kb.tags@[i]@);
    }
    crate::cli::render::lemma_tags_join_parse(tv);
    lemma_metadata_show_parse(kb.metadata.pairs());
}

} // verus!
