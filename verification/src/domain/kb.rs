//! Knowledge-base entries and the records that carry them in and out.

use vstd::prelude::*;

use crate::domain::metadata::{format_metadata, metadata_text, Metadata, PairView};
use crate::domain::paths::{
    extension_of, fault_message, file_extension, normalize_path, path_fault, with_leading_slash,
};
use crate::domain::unicode::{lowercase, to_lowercase};
use crate::errors::Error;
use crate::ids::{new_uuid, now_timestamp};
use crate::text::{
    chars_of, is_ws, is_ws_char, join, join_seq, owned, push_char, push_str, str_eq,
    string_from_chars, trim, trim_seq, views,
};

verus! {

pub open spec fn opt_view(o: Option<String>) -> Option<Seq<char>> {
    match o {
        Some(s) => Some(s@),
        None => None,
    }
}

/// Clones an optional string.
pub fn clone_opt(o: &Option<String>) -> (res: Option<String>)
    ensures
        opt_view(res) == opt_view(*o),
{
    match o {
        Some(s) => Some(s.clone()),
        None => None,
    }
}

/// Clones a vector of strings.
pub fn clone_strings(v: &Vec<String>) -> (res: Vec<String>)
    ensures
        views(res@) == views(v@),
{
    let mut res: Vec<String> = Vec::new();
    let mut i: usize = 0;
    while i < v.len()
        invariant
            0 <= i <= v@.len(),
            views(res@) == views(v@).take(i as int),
        decreases v@.len() - i,
    {
        let s = v[i].clone();
        let ghost before = res@;
        res.push(s);
        assert(views(res@) =~= views(before).push(s@));
        assert(views(v@).take(i + 1) =~= views(v@).take(i as int).push(v@[i as int]@));
        i = i + 1;
    }
    assert(views(v@).take(v@.len() as int) =~= views(v@));
    res
}

// ---------------------------------------------------------------------------
// The stored tag column
// ---------------------------------------------------------------------------

/// The finished words and the word being read after the characters `t`,
/// words being separated by whitespace.
pub open spec fn word_state(t: Seq<char>) -> (Seq<Seq<char>>, Seq<char>)
    decreases t.len(),
{
    if t.len() == 0 {
        (seq![], seq![])
    } else {
        let (ws, cur) = word_state(t.drop_last());
        let c = t.last();
        if !is_ws(c) {
            (ws, cur.push(c))
        } else if cur.len() > 0 {
            (ws.push(cur), seq![])
        } else {
            (ws, cur)
        }
    }
}

/// The whitespace-separated words of `t` (std `str::split_whitespace`).
pub open spec fn words_of(t: Seq<char>) -> Seq<Seq<char>> {
    let (ws, cur) = word_state(t);
    if cur.len() > 0 {
        ws.push(cur)
    } else {
        ws
    }
}

/// The tags of a stored tag column: its whitespace-separated words.
pub fn tags_from_stored(tag_values: &str) -> (res: Vec<String>)
    ensures
        views(res@) == words_of(tag_values@),
{
    let cs = chars_of(tag_values);
    let mut words: Vec<String> = Vec::new();
    let mut current: Vec<char> = Vec::new();
    let mut i: usize = 0;
    assert(tag_values@.take(0) =~= seq![]);
    while i < cs.len()
        invariant
            cs@ == tag_values@,
            0 <= i <= cs@.len(),
            word_state(tag_values@.take(i as int)) == (views(words@), current@),
        decreases cs@.len() - i,
    {
        assert(tag_values@.take(i + 1).drop_last() =~= tag_values@.take(i as int));
        assert(tag_values@.take(i + 1).last() == cs@[i as int]);
        let c = cs[i];
        if !is_ws_char(c) {
            current.push(c);
        } else if current.len() > 0 {
            let w = string_from_chars(current.as_slice());
            let ghost before = words@;
            words.push(w);
            assert(views(words@) =~= views(before).push(current@));
            current = Vec::new();
            assert(current@ =~= seq![]);
        }
        i = i + 1;
    }
    assert(tag_values@.take(cs@.len() as int) =~= tag_values@);
    if current.len() > 0 {
        let w = string_from_chars(current.as_slice());
        let ghost before = words@;
        words.push(w);
        assert(views(words@) =~= views(before).push(current@));
    }
    words
}

proof fn lemma_word_state_append(p: Seq<char>, s: Seq<char>)
    requires
        forall|k: int| 0 <= k < s.len() ==> !is_ws(#[trigger] s[k]),
    ensures
        word_state(p + s) == (word_state(p).0, word_state(p).1 + s),
    decreases s.len(),
{
    if s.len() == 0 {
        assert(p + s =~= p);
        assert(word_state(p).1 + s =~= word_state(p).1);
    } else {
        let init = s.drop_last();
        lemma_word_state_append(p, init);
        assert((p + s).drop_last() =~= p + init);
        assert((p + s).last() == s[s.len() - 1]);
        assert(word_state(p).1 + init + seq![s.last()] =~= word_state(p).1 + s);
        assert((word_state(p).1 + init).push(s.last()) =~= word_state(p).1 + s);
    }
}

proof fn lemma_word_state_join(tags: Seq<Seq<char>>)
    requires
        tags.len() > 0,
        forall|i: int| 0 <= i < tags.len() ==> (#[trigger] tags[i]).len() > 0,
        forall|i: int, k: int| 0 <= i < tags.len() && 0 <= k < tags[i].len() ==> !is_ws(
            #[trigger] tags[i][k],
        ),
    ensures
        word_state(join_seq(tags, seq![' '])) == (tags.drop_last(), tags.last()),
    decreases tags.len(),
{
    let last = tags.last();
    assert(last == tags[tags.len() - 1]);
    assert forall|k: int| 0 <= k < last.len() implies !is_ws(#[trigger] last[k]) by {
        assert(last[k] == tags[tags.len() - 1][k]);
    }
    if tags.len() == 1 {
        lemma_word_state_append(seq![], last);
        assert(seq![] + last =~= last);
        assert(seq![] + last =~= join_seq(tags, seq![' ']));
        assert(tags.drop_last() =~= seq![]);
    } else {
        let init = tags.drop_last();
        assert forall|i: int| 0 <= i < init.len() implies (#[trigger] init[i]).len() > 0 by {
            assert(init[i] == tags[i]);
        }
        assert forall|i: int, k: int| 0 <= i < init.len() && 0 <= k < init[i].len() implies !is_ws(
            #[trigger] init[i][k],
        ) by {
            assert(init[i] == tags[i]);
        }
        lemma_word_state_join(init);
        let j = join_seq(init, seq![' ']);
        let js = j + seq![' '];
        assert(js.drop_last() =~= j);
        assert(js.last() == ' ');
        assert(is_ws(' '));
        assert(init.last() == init[init.len() - 1]);
        assert(init.drop_last().push(init.last()) =~= init);
        assert(word_state(js) == (init, Seq::<char>::empty()));
        lemma_word_state_append(js, last);
        assert(Seq::<char>::empty() + last =~= last);
        assert(join_seq(tags, seq![' ']) == js + last);
    }
}

/// Tags stored with `Kb::tags_as_string` read back unchanged with
/// `tags_from_stored`, provided none of them is empty or holds whitespace.
pub proof fn lemma_stored_tags_round_trip(tags: Seq<Seq<char>>)
    requires
        forall|i: int| 0 <= i < tags.len() ==> (#[trigger] tags[i]).len() > 0,
        forall|i: int, k: int| 0 <= i < tags.len() && 0 <= k < tags[i].len() ==> !is_ws(
            #[trigger] tags[i][k],
        ),
    ensures
        words_of(join_seq(tags, seq![' '])) == tags,
{
    if tags.len() == 0 {
        assert(words_of(seq![]) =~= tags);
    } else {
        lemma_word_state_join(tags);
        assert(tags.last() == tags[tags.len() - 1]);
        assert(tags.drop_last().push(tags.last()) =~= tags);
    }
}

/// A knowledge-base entry as stored.
#[derive(Debug, Clone)]
pub struct Kb {
    /// Internal UUID, auto-generated on creation.
    pub id: String,
    /// User-provided unique key (e.g. `"rust-ownership"`).
    pub key: String,
    /// The content of this entry.
    pub value: String,
    /// Free-form extra context.
    pub notes: String,
    /// Entry type, e.g. `quote`, `bookmark`, `command`, `concept`.
    pub category: String,
    /// The source: a person, company, book, magazine.
    pub reference: String,
    /// Grouping scope.
    pub namespace: String,
    /// Searchable keywords.
    pub tags: Vec<String>,
    /// Custom `key=value` pairs.
    pub metadata: Metadata,
    /// ISO-8601 creation timestamp.
    pub created_on: String,
    /// Internal UUID of the parent entry, if any.
    pub parent: Option<String>,
    /// Optional Unix-style hierarchical path (e.g. `/personal/cars`).
    pub path: Option<String>,
    /// Extension of the stored media file; only for category `media`.
    pub media_extension: Option<String>,
}

/// The text an entry is embedded from: key, category, namespace, reference,
/// tags and the first 200 characters of the value, separated by spaces.
pub open spec fn embedding_text_of(
    key: Seq<char>,
    category: Seq<char>,
    namespace: Seq<char>,
    reference: Seq<char>,
    tags: Seq<Seq<char>>,
    value: Seq<char>,
) -> Seq<char> {
    key + seq![' '] + category + seq![' '] + namespace + seq![' '] + reference + seq![' ']
        + join_seq(tags, seq![' ']) + seq![' '] + if value.len() <= 200 {
        value
    } else {
        value.take(200)
    }
}

/// `label` + `value` + a line break.
pub open spec fn line(label: Seq<char>, value: Seq<char>) -> Seq<char> {
    label + value + seq!['\n']
}

/// The text `kb get` prints for an entry.
pub open spec fn kb_display(kb: Kb) -> Seq<char> {
    line("ID        : "@, kb.id@) + line("Key       : "@, kb.key@) + line(
        "Value     : "@,
        kb.value@,
    ) + line("Category  : "@, kb.category@) + line("Namespace : "@, kb.namespace@) + line(
        "Reference : "@,
        kb.reference@,
    ) + line("Tags      : "@, join_seq(views(kb.tags@), seq![',', ' '])) + (if kb.metadata.pairs().len()
        > 0 {
        line("Metadata  : "@, metadata_text(kb.metadata.pairs()))
    } else {
        seq![]
    }) + line("Created   : "@, kb.created_on@) + (match kb.path {
        Some(p) => line("Path      : "@, p@),
        None => seq![],
    }) + (match kb.parent {
        Some(p) => line("Parent    : "@, p@),
        None => seq![],
    }) + (if kb.notes@.len() > 0 {
        line("Notes     :\n"@, kb.notes@)
    } else {
        seq![]
    })
}

/// Appends `label`, `value` and a line break.
fn push_line(out: &mut String, label: &str, value: &str)
    ensures
        final(out)@ == old(out)@ + line(label@, value@),
{
    push_str(out, label);
    push_str(out, value);
    push_char(out, '\n');
    assert(final(out)@ =~= old(out)@ + line(label@, value@));
}

impl Kb {
    /// Joins tags with a space for storage.
    pub fn tags_as_string(&self) -> (res: String)
        ensures
            res@ == join_seq(views(self.tags@), seq![' ']),
    {
        let res = join(&self.tags, " ");
        proof {
            reveal_strlit(" ");
        }
        assert(" "@ =~= seq![' ']);
        res
    }

    /// The text used for embedding: key, category, namespace, reference,
    /// tags and the first 200 characters of the value.
    pub fn embedding_text(&self) -> (res: String)
        ensures
            res@ == embedding_text_of(
                self.key@,
                self.category@,
                self.namespace@,
                self.reference@,
                views(self.tags@),
                self.value@,
            ),
    {
        let mut out = owned(self.key.as_str());
        push_char(&mut out, ' ');
        push_str(&mut out, self.category.as_str());
        push_char(&mut out, ' ');
        push_str(&mut out, self.namespace.as_str());
        push_char(&mut out, ' ');
        push_str(&mut out, self.reference.as_str());
        push_char(&mut out, ' ');
        let tags = self.tags_as_string();
        push_str(&mut out, tags.as_str());
        push_char(&mut out, ' ');
        let vc = chars_of(self.value.as_str());
        let n = if vc.len() <= 200 {
            vc.len()
        } else {
            200
        };
        let head = string_from_chars(&vc.as_slice()[0..n]);
        assert(head@ =~= if self.value@.len() <= 200 {
            self.value@
        } else {
            self.value@.take(200)
        });
        push_str(&mut out, head.as_str());
        out
    }

    /// The text `kb get` prints for this entry, one `Label : value` line per
    /// field; optional fields only when present.
    pub fn to_string(&self) -> (res: String)
        ensures
            res@ == kb_display(*self),
    {
        let mut out = String::new();
        push_line(&mut out, "ID        : ", self.id.as_str());
        push_line(&mut out, "Key       : ", self.key.as_str());
        push_line(&mut out, "Value     : ", self.value.as_str());
        push_line(&mut out, "Category  : ", self.category.as_str());
        push_line(&mut out, "Namespace : ", self.namespace.as_str());
        push_line(&mut out, "Reference : ", self.reference.as_str());
        let tags = join(&self.tags, ", ");
        proof {
            reveal_strlit(", ");
        }
        assert(", "@ =~= seq![',', ' ']);
        push_line(&mut out, "Tags      : ", tags.as_str());
        if !self.metadata.is_empty() {
            let md = format_metadata(&self.metadata);
            push_line(&mut out, "Metadata  : ", md.as_str());
        }
        push_line(&mut out, "Created   : ", self.created_on.as_str());
        match &self.path {
            Some(p) => push_line(&mut out, "Path      : ", p.as_str()),
            None => {},
        }
        match &self.parent {
            Some(p) => push_line(&mut out, "Parent    : ", p.as_str()),
            None => {},
        }
        if self.notes.unicode_len() > 0 {
            push_line(&mut out, "Notes     :\n", self.notes.as_str());
        }
        assert(out@ =~= kb_display(*self));
        out
    }
}

/// Structured output format for `kb get --out`.
#[derive(Debug, Clone, Copy, PartialEq, Eq)]
pub enum OutputFormat {
    Json,
    Yaml,
}

impl OutputFormat {
    /// Parses `json` or `yaml`; anything else is refused with a message.
    pub fn parse(s: &str) -> (res: Result<OutputFormat, String>)
        ensures
            s@ == "json"@ ==> res == Ok::<OutputFormat, String>(OutputFormat::Json),
            s@ == "yaml"@ ==> res == Ok::<OutputFormat, String>(OutputFormat::Yaml),
            s@ != "json"@ && s@ != "yaml"@ ==> (res matches Err(m) && m@ == "invalid output format: "@
                + s@ + " (expected json|yaml)"@),
    {
        proof {
            reveal_strlit("json");
            reveal_strlit("yaml");
            assert("yaml"@[0] != "json"@[0]);
        }
        if str_eq(s, "json") {
            Ok(OutputFormat::Json)
        } else if str_eq(s, "yaml") {
            Ok(OutputFormat::Yaml)
        } else {
            let mut m = owned("invalid output format: ");
            push_str(&mut m, s);
            push_str(&mut m, " (expected json|yaml)");
            Err(m)
        }
    }
}

/// Whether JSON output was asked for with `--out` where JSON is the only
/// structured format: no flag means plain text, `json` means JSON, and
/// anything else is refused with a message.
pub fn json_output_requested(out: Option<&str>) -> (res: Result<bool, String>)
    ensures
        match out {
            None => res == Ok::<bool, String>(false),
            Some(s) => if s@ == "json"@ {
                res == Ok::<bool, String>(true)
            } else {
                res matches Err(m) && m@ == "invalid output format: "@ + s@ + " (expected json)"@
            },
        },
{
    match out {
        None => Ok(false),
        Some(s) => {
            if str_eq(s, "json") {
                Ok(true)
            } else {
                let mut m = owned("invalid output format: ");
                push_str(&mut m, s);
                push_str(&mut m, " (expected json)");
                Err(m)
            }
        },
    }
}

impl std::str::FromStr for OutputFormat {
    type Err = String;

    fn from_str(s: &str) -> (res: Result<Self, Self::Err>)
        ensures
            s@ == "json"@ ==> res == Ok::<OutputFormat, String>(OutputFormat::Json),
            s@ == "yaml"@ ==> res == Ok::<OutputFormat, String>(OutputFormat::Yaml),
            s@ != "json"@ && s@ != "yaml"@ ==> (res matches Err(m) && m@ == "invalid output format: "@
                + s@ + " (expected json|yaml)"@),
    {
        OutputFormat::parse(s)
    }
}

/// Data for creating a new entry.
#[derive(Debug, Clone)]
pub struct NewKb {
    pub key: String,
    pub value: String,
    pub notes: String,
    pub category: String,
    pub reference: String,
    pub namespace: String,
    pub tags: Vec<String>,
    pub metadata: Metadata,
    /// Internal UUID of the parent entry, if any.
    pub parent: Option<String>,
    /// Optional Unix-style hierarchical path.
    pub path: Option<String>,
    /// Source of a media file (URL or local path); used while adding only.
    pub media_url: Option<String>,
    /// File extension override, taking precedence over the one of `media_url`.
    pub media_extension: Option<String>,
}

/// The extension recorded for a new entry: the explicit one, else the one of
/// the media URL.
pub open spec fn new_media_extension(
    explicit: Option<Seq<char>>,
    url: Option<Seq<char>>,
) -> Option<Seq<char>> {
    match explicit {
        Some(e) => Some(e),
        None => match url {
            Some(u) => extension_of(u),
            None => None,
        },
    }
}

impl Kb {
    /// Converts new-entry data into an entry: a fresh UUID and timestamp,
    /// key, category and namespace lower-cased, the media extension resolved.
    pub fn from(new: NewKb) -> (res: Kb)
        ensures
            res.id@.len() == 36,
            res.key@ == lowercase(new.key@),
            res.value@ == new.value@,
            res.notes@ == new.notes@,
            res.category@ == lowercase(new.category@),
            res.reference@ == new.reference@,
            res.namespace@ == lowercase(new.namespace@),
            views(res.tags@) == views(new.tags@),
            res.metadata.pairs() == new.metadata.pairs(),
            opt_view(res.parent) == opt_view(new.parent),
            opt_view(res.path) == opt_view(new.path),
            opt_view(res.media_extension) == new_media_extension(
                opt_view(new.media_extension),
                opt_view(new.media_url),
            ),
    {
        let media_extension = match new.media_extension {
            Some(e) => Some(e),
            None => match &new.media_url {
                Some(u) => file_extension(u.as_str()),
                None => None,
            },
        };
        Kb {
            id: new_uuid(),
            key: to_lowercase(new.key.as_str()),
            value: new.value,
            notes: new.notes,
            category: to_lowercase(new.category.as_str()),
            reference: new.reference,
            namespace: to_lowercase(new.namespace.as_str()),
            tags: new.tags,
            metadata: new.metadata,
            created_on: now_timestamp(),
            parent: new.parent,
            path: new.path,
            media_extension,
        }
    }
}

/// A partial update: every field but `id` is optional.
#[derive(Debug, Clone)]
pub struct KbUpdate {
    pub id: String,
    pub key: Option<String>,
    pub value: Option<String>,
    pub notes: Option<String>,
    pub category: Option<String>,
    pub namespace: Option<String>,
    pub reference: Option<String>,
    pub tags: Option<Vec<String>>,
    /// New parent (internal UUID); `None` keeps the existing one.
    pub parent: Option<String>,
    /// New path; `None` keeps it, an empty string clears it.
    pub path: Option<String>,
    /// New metadata as `key=value,...`; `None` keeps it, blank clears it.
    pub metadata: Option<String>,
}

/// Filter for listing entries.
#[derive(Debug, Clone)]
pub struct KbFilter {
    pub category: Option<String>,
    pub namespace: Option<String>,
    pub tags: Option<Vec<String>>,
    pub keyword: Option<String>,
    pub reference: Option<String>,
    pub limit: Option<i64>,
    pub offset: Option<i64>,
}

impl KbFilter {
    /// The filter that matches everything.
    pub fn default() -> (res: KbFilter)
        ensures
            res.category is None,
            res.namespace is None,
            res.tags is None,
            res.keyword is None,
            res.reference is None,
            res.limit is None,
            res.offset is None,
    {
        KbFilter {
            category: None,
            namespace: None,
            tags: None,
            keyword: None,
            reference: None,
            limit: None,
            offset: None,
        }
    }
}

/// Lightweight result row for list / search output.
#[derive(Debug, Clone)]
pub struct KbItem {
    pub id: String,
    pub key: String,
    pub category: String,
    pub namespace: String,
    pub tags: Vec<String>,
}

/// Input for generating and storing an embedding for an entry.
#[derive(Debug, Clone)]
pub struct EmbeddingInput {
    pub kb_id: String,
    pub text: String,
    /// Partition of the vector index the embedding is stored in.
    pub namespace: String,
}

/// An entry as `kb export` writes it.
#[derive(Debug, Clone)]
pub struct ExportKbItem {
    pub key: String,
    pub value: String,
    pub notes: String,
    pub category: String,
    pub reference: String,
    pub namespace: String,
    pub tags: Vec<String>,
    /// Only present when the parent is also in the exported set.
    pub parent_key: Option<String>,
    pub path: Option<String>,
    pub media_extension: Option<String>,
}

/// Parameters for the media file export operation.
pub struct ExportMediaParams {
    pub target_dir: String,
    pub category: Option<String>,
    pub namespace: Option<String>,
    pub items: Vec<ExportKbItem>,
}

/// An entry as `kb import` reads it.
#[derive(Debug, Clone)]
pub struct ImportKbItem {
    pub key: String,
    pub value: String,
    pub notes: String,
    pub category: String,
    pub reference: String,
    pub namespace: String,
    pub tags: Vec<String>,
    /// Key of the parent entry, resolved to its UUID at import time.
    pub parent_key: Option<String>,
    pub path: Option<String>,
    pub media_extension: Option<String>,
}

/// Why an import item is refused, if it is.
pub open spec fn import_item_problem(
    key: Seq<char>,
    value: Seq<char>,
    path: Option<Seq<char>>,
) -> Option<Seq<char>> {
    if trim_seq(key).len() == 0 {
        Some("Key is empty"@)
    } else if trim_seq(value).len() == 0 {
        Some("Value is empty"@)
    } else {
        match path {
            Some(p) => if p.len() > 0 {
                match path_fault(p) {
                    Some(f) => Some("invalid path: "@ + fault_message(f)),
                    None => None,
                }
            } else {
                None
            },
            None => None,
        }
    }
}

impl ImportKbItem {
    /// `Some(reason)` if a required field is blank or the path is invalid.
    pub fn validate(&self) -> (res: Option<String>)
        ensures
            match import_item_problem(self.key@, self.value@, opt_view(self.path)) {
                Some(m) => (res matches Some(r) && r@ == m),
                None => res is None,
            },
    {
        if trim(self.key.as_str()).unicode_len() == 0 {
            return Some(owned("Key is empty"));
        }
        if trim(self.value.as_str()).unicode_len() == 0 {
            return Some(owned("Value is empty"));
        }
        match &self.path {
            Some(p) => {
                if p.unicode_len() > 0 {
                    match normalize_path(p.as_str()) {
                        Err(e) => {
                            return Some(e.message());
                        },
                        Ok(_) => {},
                    }
                }
            },
            None => {},
        }
        None
    }
}

impl NewKb {
    /// New-entry data for an import item; the parent is resolved later.
    pub fn from(item: ImportKbItem) -> (res: NewKb)
        ensures
            res.key@ == item.key@,
            res.value@ == item.value@,
            res.notes@ == item.notes@,
            res.category@ == item.category@,
            res.reference@ == item.reference@,
            res.namespace@ == item.namespace@,
            views(res.tags@) == views(item.tags@),
            res.metadata.pairs().len() == 0,
            res.parent is None,
            opt_view(res.path) == opt_view(item.path),
            res.media_url is None,
            opt_view(res.media_extension) == opt_view(item.media_extension),
    {
        NewKb {
            key: item.key,
            value: item.value,
            notes: item.notes,
            category: item.category,
            reference: item.reference,
            namespace: item.namespace,
            tags: item.tags,
            metadata: Metadata::new(),
            parent: None,
            path: item.path,
            media_url: None,
            media_extension: item.media_extension,
        }
    }
}

/// Parameters for storing a media file (source to destination copy).
#[derive(Debug, Clone)]
pub struct StoreMediaParams {
    pub source: String,
    pub destination: String,
}

/// Result of a reindex operation.
pub struct ReindexResult {
    /// `(key, id)` of the entries re-indexed.
    pub succeeded: Vec<(String, String)>,
    /// `(key or id, error message)` of the entries that failed.
    pub failed: Vec<(String, String)>,
}

impl ReindexResult {
    pub fn total(&self) -> (res: usize)
        requires
            self.succeeded@.len() + self.failed@.len() <= usize::MAX,
        ensures
            res == self.succeeded@.len() + self.failed@.len(),
    {
        self.succeeded.len() + self.failed.len()
    }
}

/// Result of a batch import.
pub struct ImportBatchResult {
    pub saved: Vec<Kb>,
    pub failed: Vec<FailedImportItem>,
}

/// An item that could not be imported, with the reason.
pub struct FailedImportItem {
    pub item: ImportKbItem,
    pub reason: String,
}

// ---------------------------------------------------------------------------
// `kb add --json`
// ---------------------------------------------------------------------------

/// A whole entry given as JSON to `kb add --json`.
#[derive(Debug, Clone)]
pub struct AddJsonInput {
    pub key: String,
    pub value: String,
    pub category: String,
    pub tags: Vec<String>,
    pub reference: String,
    pub notes: String,
    pub namespace: String,
    pub path: Option<String>,
    pub parent: Option<String>,
    pub media_url: Option<String>,
    pub metadata: Metadata,
}

/// Whether some metadata key is blank.
pub open spec fn has_blank_key(ps: Seq<PairView>) -> bool {
    exists|i: int| 0 <= i < ps.len() && trim_seq(#[trigger] ps[i].0).len() == 0
}

/// Why JSON input is refused, if it is.
pub open spec fn json_input_problem(input: AddJsonInput) -> Option<Seq<char>> {
    if trim_seq(input.key@).len() == 0 {
        Some("key must not be blank"@)
    } else if trim_seq(input.value@).len() == 0 {
        Some("value must not be blank"@)
    } else if trim_seq(input.category@).len() == 0 {
        Some("category must not be blank"@)
    } else if input.tags@.len() == 0 {
        Some("tags must not be empty"@)
    } else if has_blank_key(input.metadata.pairs()) {
        Some("metadata keys must not be blank"@)
    } else {
        None
    }
}

impl AddJsonInput {
    /// Refuses blank `key`, `value` or `category`, an empty `tags` list and
    /// blank metadata keys.
    pub fn validate(&self) -> (res: Result<(), Error>)
        ensures
            match json_input_problem(*self) {
                Some(m) => (res matches Err(Error::InvalidJsonInput(r)) && r@ == m),
                None => res is Ok,
            },
    {
        if trim(self.key.as_str()).unicode_len() == 0 {
            return Err(Error::InvalidJsonInput(owned("key must not be blank")));
        }
        if trim(self.value.as_str()).unicode_len() == 0 {
            return Err(Error::InvalidJsonInput(owned("value must not be blank")));
        }
        if trim(self.category.as_str()).unicode_len() == 0 {
            return Err(Error::InvalidJsonInput(owned("category must not be blank")));
        }
        if self.tags.len() == 0 {
            return Err(Error::InvalidJsonInput(owned("tags must not be empty")));
        }
        let es = self.metadata.entries();
        let mut i: usize = 0;
        while i < es.len()
            invariant
                0 <= i <= es@.len(),
                trim_seq(self.key@).len() > 0,
                trim_seq(self.value@).len() > 0,
                trim_seq(self.category@).len() > 0,
                self.tags@.len() > 0,
                crate::domain::metadata::pair_views(es@) == self.metadata.pairs(),
                forall|j: int|
                    0 <= j < i ==> trim_seq(#[trigger] self.metadata.pairs()[j].0).len() > 0,
            decreases es@.len() - i,
        {
            if trim(es[i].0.as_str()).unicode_len() == 0 {
                assert(trim_seq(self.metadata.pairs()[i as int].0).len() == 0);
                return Err(Error::InvalidJsonInput(owned("metadata keys must not be blank")));
            }
            i = i + 1;
        }
        Ok(())
    }
}

/// Trimmed tags with later duplicates dropped, or `None` when a tag is blank.
pub open spec fn dedup_tags_of(tags: Seq<Seq<char>>) -> Option<Seq<Seq<char>>>
    decreases tags.len(),
{
    if tags.len() == 0 {
        Some(seq![])
    } else {
        match dedup_tags_of(tags.drop_last()) {
            None => None,
            Some(acc) => {
                let t = trim_seq(tags.last());
                if t.len() == 0 {
                    None
                } else if acc.contains(t) {
                    Some(acc)
                } else {
                    Some(acc.push(t))
                }
            },
        }
    }
}

/// Tags are refused exactly when one of them is blank once trimmed; accepted
/// tags come out trimmed, non-blank and without repeats, each one an input
/// tag, and every input tag is among them once trimmed.
pub proof fn lemma_dedup_tags_of(tags: Seq<Seq<char>>)
    ensures
        dedup_tags_of(tags) is None <==> exists|i: int|
            0 <= i < tags.len() && #[trigger] trim_seq(tags[i]).len() == 0,
        dedup_tags_of(tags) matches Some(ts) ==> {
            &&& ts.no_duplicates()
            &&& forall|j: int|
                0 <= j < ts.len() ==> #[trigger] ts[j].len() > 0 && exists|i: int|
                    0 <= i < tags.len() && ts[j] == trim_seq(tags[i])
            &&& forall|i: int| 0 <= i < tags.len() ==> ts.contains(#[trigger] trim_seq(tags[i]))
        },
    decreases tags.len(),
{
    if tags.len() > 0 {
        let init = tags.drop_last();
        lemma_dedup_tags_of(init);
        let t = trim_seq(tags.last());
        assert(tags.last() == tags[tags.len() - 1]);
        assert forall|i: int| 0 <= i < init.len() implies init[i] == tags[i] by {}
        match dedup_tags_of(init) {
            None => {
                let i = choose|i: int| 0 <= i < init.len() && #[trigger] trim_seq(init[i]).len() == 0;
                assert(trim_seq(tags[i]).len() == 0);
            },
            Some(acc) => {
                if t.len() == 0 {
                    assert(trim_seq(tags[tags.len() - 1]).len() == 0);
                } else {
                    assert forall|i: int|
                        0 <= i < tags.len() implies #[trigger] trim_seq(tags[i]).len() != 0 by {
                        if i < init.len() {
                            assert(init[i] == tags[i]);
                            if trim_seq(init[i]).len() == 0 {
                                assert(dedup_tags_of(init) is None);
                            }
                        }
                    }
                    let ts = dedup_tags_of(tags)->0;
                    if !acc.contains(t) {
                        assert(ts == acc.push(t));
                        assert forall|a: int, b: int|
                            0 <= a < ts.len() && 0 <= b < ts.len() && a != b implies ts[a]
                            != ts[b] by {
                            if a == acc.len() as int {
                                assert(ts[b] == acc[b]);
                            } else if b == acc.len() as int {
                                assert(ts[a] == acc[a]);
                            } else {
                            }
                        }
                        assert forall|j: int| 0 <= j < ts.len() implies #[trigger] ts[j].len() > 0
                            && exists|i: int| 0 <= i < tags.len() && ts[j] == trim_seq(tags[i]) by {
                            if j < acc.len() {
                                let i = choose|i: int| 0 <= i < init.len() && acc[j] == trim_seq(init[i]);
                                assert(ts[j] == trim_seq(tags[i]));
                            } else {
                                assert(ts[j] == trim_seq(tags[tags.len() - 1]));
                            }
                        }
                        assert forall|i: int| 0 <= i < tags.len() implies ts.contains(
                            #[trigger] trim_seq(tags[i]),
                        ) by {
                            if i < init.len() {
                                assert(trim_seq(init[i]) == trim_seq(tags[i]));
                                let k = choose|k: int| 0 <= k < acc.len() && acc[k] == trim_seq(init[i]);
                                assert(ts[k] == acc[k]);
                            } else {
                                assert(ts[acc.len() as int] == t);
                            }
                        }
                    } else {
                        assert(ts == acc);
                        assert forall|j: int| 0 <= j < ts.len() implies #[trigger] ts[j].len() > 0
                            && exists|i: int| 0 <= i < tags.len() && ts[j] == trim_seq(tags[i]) by {
                            let i = choose|i: int| 0 <= i < init.len() && acc[j] == trim_seq(init[i]);
                            assert(ts[j] == trim_seq(tags[i]));
                        }
                        assert forall|i: int| 0 <= i < tags.len() implies ts.contains(
                            #[trigger] trim_seq(tags[i]),
                        ) by {
                            if i < init.len() {
                                assert(trim_seq(init[i]) == trim_seq(tags[i]));
                            }
                        }
                    }
                }
            },
        }
    }
}

proof fn lemma_dedup_none_sticks(tags: Seq<Seq<char>>, i: int)
    requires
        0 <= i <= tags.len(),
        dedup_tags_of(tags.take(i)) is None,
    ensures
        dedup_tags_of(tags) is None,
    decreases tags.len() - i,
{
    if i < tags.len() {
        assert(tags.drop_last().take(i) =~= tags.take(i));
        lemma_dedup_none_sticks(tags.drop_last(), i);
    } else {
        assert(tags.take(i) =~= tags);
    }
}

/// Whether `v` holds a string equal to `s`.
pub fn contains_str(v: &Vec<String>, s: &str) -> (res: bool)
    ensures
        res == views(v@).contains(s@),
{
    let mut i: usize = 0;
    while i < v.len()
        invariant
            0 <= i <= v@.len(),
            forall|j: int| 0 <= j < i ==> v@[j]@ != s@,
        decreases v@.len() - i,
    {
        if str_eq(v[i].as_str(), s) {
            assert(views(v@)[i as int] == s@);
            return true;
        }
        i = i + 1;
    }
    assert forall|j: int| 0 <= j < views(v@).len() implies views(v@)[j] != s@ by {
        assert(views(v@)[j] == v@[j]@);
    }
    false
}

/// Trims every tag and drops repeated ones, keeping first occurrences in
/// order; a blank tag is refused.
pub fn dedup_tags(tags: Vec<String>) -> (res: Result<Vec<String>, Error>)
    ensures
        match dedup_tags_of(views(tags@)) {
            Some(ts) => (res matches Ok(v) && views(v@) == ts),
            None => (res matches Err(Error::InvalidTagError(_))),
        },
{
    let ghost tv = views(tags@);
    let mut acc: Vec<String> = Vec::new();
    let mut i: usize = 0;
    assert(tv.take(0) =~= seq![]);
    while i < tags.len()
        invariant
            0 <= i <= tags@.len(),
            tv == views(tags@),
            dedup_tags_of(tv.take(i as int)) == Some(views(acc@)),
        decreases tags@.len() - i,
    {
        assert(tv.take(i + 1).drop_last() =~= tv.take(i as int));
        assert(tv.take(i + 1).last() == tags@[i as int]@);
        let t = trim(tags[i].as_str());
        if t.unicode_len() == 0 {
            proof {
                lemma_dedup_none_sticks(tv, i + 1);
            }
            return Err(Error::InvalidTagError(owned("tags must not be blank")));
        }
        if !contains_str(&acc, t.as_str()) {
            let ghost before = acc@;
            acc.push(t);
            assert(views(acc@) =~= views(before).push(t@));
        }
        i = i + 1;
    }
    assert(tv.take(tags@.len() as int) =~= tv);
    Ok(acc)
}

/// The path recorded for JSON input: absent or empty means none.
pub open spec fn json_path_outcome(path: Option<Seq<char>>) -> Result<
    Option<Seq<char>>,
    Seq<char>,
> {
    match path {
        Some(p) => if p.len() == 0 {
            Ok(None)
        } else {
            match path_fault(p) {
                Some(f) => Err(fault_message(f)),
                None => Ok(Some(with_leading_slash(p))),
            }
        },
        None => Ok(None),
    }
}

impl NewKb {
    /// New-entry data from `kb add --json` input: validated, with key, value
    /// and category trimmed, tags trimmed and de-duplicated and the path
    /// normalised; metadata is taken unchanged.
    pub fn try_from(input: AddJsonInput) -> (res: Result<NewKb, Error>)
        ensures
            json_input_problem(input) matches Some(m) ==> (res matches Err(
                Error::InvalidJsonInput(r),
            ) && r@ == m),
            json_input_problem(input) is None && dedup_tags_of(views(input.tags@)) is None ==> (
            res matches Err(Error::InvalidTagError(_))),
            json_input_problem(input) is None && dedup_tags_of(views(input.tags@)) is Some ==> (
            json_path_outcome(opt_view(input.path)) matches Err(m) ==> (res matches Err(
                Error::InvalidPathError(r),
            ) && r@ == m)),
            json_input_problem(input) is None && dedup_tags_of(views(input.tags@)) is Some
                && json_path_outcome(opt_view(input.path)) is Ok ==> (res matches Ok(nk) && {
                &&& nk.key@ == trim_seq(input.key@)
                &&& nk.value@ == trim_seq(input.value@)
                &&& nk.category@ == trim_seq(input.category@)
                &&& nk.notes@ == input.notes@
                &&& nk.reference@ == input.reference@
                &&& nk.namespace@ == input.namespace@
                &&& Some(views(nk.tags@)) == dedup_tags_of(views(input.tags@))
                &&& nk.metadata.pairs() == input.metadata.pairs()
                &&& Ok::<Option<Seq<char>>, Seq<char>>(opt_view(nk.path)) == json_path_outcome(
                    opt_view(input.path),
                )
                &&& opt_view(nk.parent) == opt_view(input.parent)
                &&& opt_view(nk.media_url) == opt_view(input.media_url)
                &&& nk.media_extension is None
            }),
    {
        input.validate()?;
        let tags = dedup_tags(input.tags)?;
        let path = match &input.path {
            Some(p) => {
                if p.unicode_len() == 0 {
                    None
                } else {
                    match normalize_path(p.as_str()) {
                        Ok(n) => Some(n),
                        Err(e) => {
                            return Err(e);
                        },
                    }
                }
            },
            None => None,
        };
        Ok(
            NewKb {
                key: trim(input.key.as_str()),
                value: trim(input.value.as_str()),
                notes: input.notes,
                category: trim(input.category.as_str()),
                reference: input.reference,
                namespace: input.namespace,
                tags,
                metadata: input.metadata,
                parent: input.parent,
                path,
                media_url: input.media_url,
                media_extension: None,
            },
        )
    }
}

} // verus!
