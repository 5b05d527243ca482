//! Hierarchical entry paths, media file locations and file extensions.

use vstd::prelude::*;

use crate::errors::Error;
use crate::text::{
    ascii_lower, chars_of, has_prefix, starts_with, owned, push_char, push_str, split_char, split_seq, str_eq,
    string_from_chars, views,
};

verus! {

// ---------------------------------------------------------------------------
// Media category
// ---------------------------------------------------------------------------

/// Whether `category` is `media`, ignoring ASCII case.
pub open spec fn ascii_lower_seq(s: Seq<char>) -> Seq<char> {
    s.map_values(|c: char| ascii_lower(c))
}

/// The category name of media entries.
pub open spec fn media_word() -> Seq<char> {
    seq!['m', 'e', 'd', 'i', 'a']
}

pub open spec fn is_media(category: Seq<char>) -> bool {
    category.len() == 5 && ascii_lower_seq(category) == media_word()
}

/// Returns `true` if the given category string (ASCII case-insensitive)
/// identifies a media entry.
pub fn is_media_category(category: &str) -> (res: bool)
    ensures
        res == is_media(category@),
{
    let cs = chars_of(category);
    if cs.len() != 5 {
        return false;
    }
    let ghost lower = media_word();
    let target: [char; 5] = ['m', 'e', 'd', 'i', 'a'];
    assert(target@ == lower);
    let mut i: usize = 0;
    while i < 5
        invariant
            cs@ == category@,
            cs@.len() == 5,
            target@ == lower,
            lower == media_word(),
            0 <= i <= 5,
            forall|j: int| 0 <= j < i ==> ascii_lower(#[trigger] cs@[j]) == lower[j],
        decreases 5 - i,
    {
        let c = cs[i];
        let l = if 'A' <= c && c <= 'Z' {
            ((c as u32) + 32) as u8 as char
        } else {
            c
        };
        assert(l == ascii_lower(c)) by {
            if 'A' <= c && c <= 'Z' {
                assert((c as u32) + 32 < 256);
            }
        }
        if l != target[i] {
            assert(target@[i as int] == lower[i as int]);
            assert(ascii_lower_seq(category@)[i as int] != lower[i as int]);
            assert(ascii_lower_seq(category@) != lower);
            return false;
        }
        i = i + 1;
    }
    assert(ascii_lower_seq(category@) =~= lower);
    true
}

// ---------------------------------------------------------------------------
// File extensions
// ---------------------------------------------------------------------------

/// The last segment that is neither empty nor `.`.
pub open spec fn last_named_segment(segs: Seq<Seq<char>>) -> Option<Seq<char>>
    decreases segs.len(),
{
    if segs.len() == 0 {
        None
    } else if segs.last().len() == 0 || segs.last() == "."@ {
        last_named_segment(segs.drop_last())
    } else {
        Some(segs.last())
    }
}

/// The final component of a `/`-separated path, as `Path::file_name` gives
/// it: `None` when there is none or it is `..`.
pub open spec fn file_name_of(p: Seq<char>) -> Option<Seq<char>> {
    match last_named_segment(split_seq(p, '/')) {
        Some(n) => if n == ".."@ {
            None
        } else {
            Some(n)
        },
        None => None,
    }
}

/// Index of the last `c` in `s`, or -1.
pub open spec fn last_index_of(s: Seq<char>, c: char) -> int
    decreases s.len(),
{
    if s.len() == 0 {
        -1
    } else if s.last() == c {
        s.len() - 1
    } else {
        last_index_of(s.drop_last(), c)
    }
}

/// The extension of the file name of `p` (`Path::extension`): what follows
/// its last `.`, when that dot is not the first character.
pub open spec fn extension_of(p: Seq<char>) -> Option<Seq<char>> {
    match file_name_of(p) {
        Some(n) => {
            let i = last_index_of(n, '.');
            if i <= 0 {
                None
            } else {
                Some(n.skip(i + 1))
            }
        },
        None => None,
    }
}

proof fn lemma_last_named_segment(segs: Seq<Seq<char>>, k: int)
    requires
        0 <= k <= segs.len(),
        forall|j: int| k <= j < segs.len() ==> (#[trigger] segs[j]).len() == 0 || segs[j] == "."@,
    ensures
        last_named_segment(segs) == last_named_segment(segs.take(k)),
    decreases segs.len() - k,
{
    if k < segs.len() {
        assert(segs.drop_last().take(k) =~= segs.take(k));
        lemma_last_named_segment(segs.drop_last(), k);
    } else {
        assert(segs.take(k) =~= segs);
    }
}

proof fn lemma_last_index_of(s: Seq<char>, c: char, k: int)
    requires
        0 <= k <= s.len(),
        forall|j: int| k <= j < s.len() ==> s[j] != c,
    ensures
        last_index_of(s, c) == last_index_of(s.take(k), c),
    decreases s.len() - k,
{
    if k < s.len() {
        assert(s.drop_last().take(k) =~= s.take(k));
        lemma_last_index_of(s.drop_last(), c, k);
    } else {
        assert(s.take(k) =~= s);
    }
}

/// Extracts the file extension from a path or URL string; `None` if there is
/// none.
pub fn file_extension(path: &str) -> (res: Option<String>)
    ensures
        match extension_of(path@) {
            Some(e) => (res matches Some(r) && r@ == e),
            None => res is None,
        },
{
    let segs = split_char(path, '/');
    let ghost sv = views(segs@);
    let mut k: usize = segs.len();
    while k > 0 && (segs[k - 1].unicode_len() == 0 || str_eq(segs[k - 1].as_str(), "."))
        invariant
            sv == views(segs@),
            sv == split_seq(path@, '/'),
            0 <= k <= segs@.len(),
            forall|j: int| k <= j < sv.len() ==> (#[trigger] sv[j]).len() == 0 || sv[j] == "."@,
        decreases k,
    {
        k = k - 1;
    }
    proof {
        lemma_last_named_segment(sv, k as int);
        if k > 0 {
            assert(sv.take(k as int).last() == sv[k - 1]);
        }
    }
    if k == 0 {
        return None;
    }
    let name = &segs[k - 1];
    if str_eq(name.as_str(), "..") {
        return None;
    }
    let cs = chars_of(name.as_str());
    let mut i: usize = cs.len();
    while i > 0 && cs[i - 1] != '.'
        invariant
            cs@ == name@,
            0 <= i <= cs@.len(),
            forall|j: int| i <= j < cs@.len() ==> cs@[j] != '.',
        decreases i,
    {
        i = i - 1;
    }
    proof {
        lemma_last_index_of(cs@, '.', i as int);
        if i > 0 {
            assert(cs@.take(i as int).last() == '.');
        }
    }
    if i <= 1 {
        return None;
    }
    let ext = string_from_chars(&cs.as_slice()[i..cs.len()]);
    assert(cs@.subrange(i as int, cs@.len() as int) =~= cs@.skip(i as int));
    Some(ext)
}

// ---------------------------------------------------------------------------
// Entry paths
// ---------------------------------------------------------------------------

/// `raw` with a `/` prepended unless it already starts with one.
pub open spec fn with_leading_slash(raw: Seq<char>) -> Seq<char> {
    if raw.len() > 0 && raw[0] == '/' {
        raw
    } else {
        seq!['/'] + raw
    }
}

/// `s` without its leading `c` characters (`str::trim_start_matches`).
pub open spec fn trim_start_char(s: Seq<char>, c: char) -> Seq<char>
    decreases s.len(),
{
    if s.len() > 0 && s[0] == c {
        trim_start_char(s.drop_first(), c)
    } else {
        s
    }
}

/// Why a path is refused.
pub enum PathFault {
    EmptyComponent,
    DotComponent(Seq<char>),
    NullByte,
}

pub open spec fn component_fault(c: Seq<char>) -> Option<PathFault> {
    if c.len() == 0 {
        Some(PathFault::EmptyComponent)
    } else if c == "."@ || c == ".."@ {
        Some(PathFault::DotComponent(c))
    } else if c.contains('\0') {
        Some(PathFault::NullByte)
    } else {
        None
    }
}

pub open spec fn first_fault(cs: Seq<Seq<char>>) -> Option<PathFault>
    decreases cs.len(),
{
    if cs.len() == 0 {
        None
    } else {
        match component_fault(cs[0]) {
            Some(f) => Some(f),
            None => first_fault(cs.drop_first()),
        }
    }
}

/// The components of a path: the pieces between `/` after its one leading
/// slash, so that a doubled slash anywhere leaves an empty component.
pub open spec fn path_components(raw: Seq<char>) -> Seq<Seq<char>> {
    split_seq(with_leading_slash(raw).drop_first(), '/')
}

/// The first refused component of `raw`, if any.
pub open spec fn path_fault(raw: Seq<char>) -> Option<PathFault> {
    first_fault(path_components(raw))
}

pub open spec fn fault_message(f: PathFault) -> Seq<char> {
    match f {
        PathFault::EmptyComponent =>
            "path must not contain empty components (e.g. double slashes); use a format like /personal or /personal/cars/engines"@,
        PathFault::DotComponent(c) => "path component '"@ + c
            + "' is not allowed; use a format like /personal or /personal/cars/engines"@,
        PathFault::NullByte => "path must not contain null bytes"@,
    }
}

proof fn lemma_first_fault_skip(cs: Seq<Seq<char>>, i: int)
    requires
        0 <= i <= cs.len(),
        forall|j: int| 0 <= j < i ==> component_fault(#[trigger] cs[j]) is None,
    ensures
        first_fault(cs) == first_fault(cs.skip(i)),
    decreases i,
{
    if i > 0 {
        assert(cs.drop_first().skip(i - 1) =~= cs.skip(i));
        lemma_first_fault_skip(cs.drop_first(), i - 1);
    } else {
        assert(cs.skip(0) =~= cs);
    }
}

proof fn lemma_trim_start_char_skip(s: Seq<char>, c: char, i: int)
    requires
        0 <= i <= s.len(),
        forall|j: int| 0 <= j < i ==> s[j] == c,
    ensures
        trim_start_char(s, c) == trim_start_char(s.skip(i), c),
    decreases i,
{
    if i > 0 {
        assert(s.drop_first().skip(i - 1) =~= s.skip(i));
        lemma_trim_start_char_skip(s.drop_first(), c, i - 1);
    } else {
        assert(s.skip(0) =~= s);
    }
}

/// Whether a string holds the NUL character.
fn has_nul(s: &str) -> (res: bool)
    ensures
        res == s@.contains('\0'),
{
    let cs = chars_of(s);
    let mut i: usize = 0;
    while i < cs.len()
        invariant
            cs@ == s@,
            0 <= i <= cs@.len(),
            forall|j: int| 0 <= j < i ==> cs@[j] != '\0',
        decreases cs@.len() - i,
    {
        if cs[i] == '\0' {
            return true;
        }
        i = i + 1;
    }
    false
}

/// The refusal message for a component, if it is refused.
fn check_component(c: &str) -> (res: Option<String>)
    ensures
        match component_fault(c@) {
            Some(f) => (res matches Some(m) && m@ == fault_message(f)),
            None => res is None,
        },
{
    if c.unicode_len() == 0 {
        return Some(
            owned(
                "path must not contain empty components (e.g. double slashes); use a format like /personal or /personal/cars/engines",
            ),
        );
    }
    if str_eq(c, ".") || str_eq(c, "..") {
        let mut m = owned("path component '");
        push_str(&mut m, c);
        push_str(&mut m, "' is not allowed; use a format like /personal or /personal/cars/engines");
        return Some(m);
    }
    if has_nul(c) {
        return Some(owned("path must not contain null bytes"));
    }
    None
}

/// Normalises a raw path into a Unix-style path: prepends `/` when missing
/// and refuses empty components (double slashes), `.`, `..` and null bytes.
pub fn normalize_path(raw: &str) -> (res: Result<String, Error>)
    ensures
        match path_fault(raw@) {
            None => (res matches Ok(p) && p@ == with_leading_slash(raw@)),
            Some(f) => (res matches Err(Error::InvalidPathError(m)) && m@ == fault_message(f)),
        },
{
    let rc = chars_of(raw);
    let with_slash = if rc.len() > 0 && rc[0] == '/' {
        owned(raw)
    } else {
        let mut s = String::new();
        push_char(&mut s, '/');
        push_str(&mut s, raw);
        s
    };
    assert(with_slash@ == with_leading_slash(raw@));
    let ws = chars_of(with_slash.as_str());
    let rest = string_from_chars(&ws.as_slice()[1..ws.len()]);
    assert(rest@ =~= with_leading_slash(raw@).drop_first());
    let comps = split_char(rest.as_str(), '/');
    let ghost cv = views(comps@);
    let mut i: usize = 0;
    while i < comps.len()
        invariant
            cv == views(comps@),
            cv == path_components(raw@),
            0 <= i <= comps@.len(),
            forall|j: int| 0 <= j < i ==> component_fault(#[trigger] cv[j]) is None,
        decreases comps@.len() - i,
    {
        match check_component(comps[i].as_str()) {
            Some(m) => {
                proof {
                    lemma_first_fault_skip(cv, i as int);
                    assert(cv.skip(i as int)[0] == cv[i as int]);
                }
                return Err(Error::InvalidPathError(m));
            },
            None => {},
        }
        i = i + 1;
    }
    proof {
        lemma_first_fault_skip(cv, i as int);
    }
    Ok(with_slash)
}

/// Normalisation is idempotent: a normalised path normalises to itself.
pub proof fn lemma_normalize_path_idempotent(raw: Seq<char>)
    requires
        path_fault(raw) is None,
    ensures
        with_leading_slash(with_leading_slash(raw)) == with_leading_slash(raw),
        path_fault(with_leading_slash(raw)) is None,
        with_leading_slash(raw).len() > 0 && with_leading_slash(raw)[0] == '/',
{
    assert((seq!['/'] + raw)[0] == '/');
}

// ---------------------------------------------------------------------------
// Media file locations
// ---------------------------------------------------------------------------

/// Parameters for computing the media file storage path.
pub struct MediaPathParams<'a> {
    pub base_dir: &'a str,
    pub namespace: &'a str,
    pub path: Option<&'a str>,
    pub key: &'a str,
    /// File extension without the leading dot (e.g. `"jpg"`); `None` = none.
    pub extension: Option<&'a str>,
}

/// The file name of a media file: `key.ext`, or `key` without extension.
pub open spec fn media_file_name(key: Seq<char>, extension: Option<Seq<char>>) -> Seq<char> {
    match extension {
        Some(e) => if e.len() > 0 {
            key + seq!['.'] + e
        } else {
            key
        },
        None => key,
    }
}

/// `{base_dir}/media/{namespace}[/{path}]/{key}[.{ext}]`, the path being
/// taken without its leading slashes and left out when nothing remains.
pub open spec fn media_path(
    base_dir: Seq<char>,
    namespace: Seq<char>,
    path: Option<Seq<char>>,
    key: Seq<char>,
    extension: Option<Seq<char>>,
) -> Seq<char> {
    let dir = base_dir + "/media/"@ + namespace;
    let dir = match path {
        Some(p) => if trim_start_char(p, '/').len() > 0 {
            dir + seq!['/'] + trim_start_char(p, '/')
        } else {
            dir
        },
        None => dir,
    };
    dir + seq!['/'] + media_file_name(key, extension)
}

pub open spec fn opt_str_view(o: Option<&str>) -> Option<Seq<char>> {
    match o {
        Some(s) => Some(s@),
        None => None,
    }
}

/// Computes the full filesystem path where a media file is stored.
pub fn media_file_path(params: &MediaPathParams<'_>) -> (res: String)
    ensures
        res@ == media_path(
            params.base_dir@,
            params.namespace@,
            opt_str_view(params.path),
            params.key@,
            opt_str_view(params.extension),
        ),
{
    let mut result = owned(params.base_dir);
    push_str(&mut result, "/media/");
    push_str(&mut result, params.namespace);
    match params.path {
        Some(p) => {
            let pc = chars_of(p);
            let mut start: usize = 0;
            while start < pc.len() && pc[start] == '/'
                invariant
                    pc@ == p@,
                    0 <= start <= pc@.len(),
                    forall|j: int| 0 <= j < start ==> pc@[j] == '/',
                decreases pc@.len() - start,
            {
                start = start + 1;
            }
            proof {
                lemma_trim_start_char_skip(p@, '/', start as int);
                assert(pc@.subrange(start as int, pc@.len() as int) =~= p@.skip(start as int));
            }
            if start < pc.len() {
                push_char(&mut result, '/');
                let trimmed = string_from_chars(&pc.as_slice()[start..pc.len()]);
                push_str(&mut result, trimmed.as_str());
            }
        },
        None => {},
    }
    push_char(&mut result, '/');
    push_str(&mut result, params.key);
    match params.extension {
        Some(e) => {
            if e.unicode_len() > 0 {
                push_char(&mut result, '.');
                push_str(&mut result, e);
            }
        },
        None => {},
    }
    result
}

/// A media source that must be downloaded: an `http://` or `https://` URL.
pub open spec fn is_remote(url: Seq<char>) -> bool {
    has_prefix(url, "http://"@) || has_prefix(url, "https://"@)
}

/// Whether `url` names a remote media source.
pub fn is_remote_url(url: &str) -> (res: bool)
    ensures
        res == is_remote(url@),
{
    starts_with(url, "http://") || starts_with(url, "https://")
}

} // verus!
