//! Memory records: their kinds, the file names they are stored under, and the
//! `---`-fenced front matter that separates a record's metadata from its content.

use vstd::prelude::*;
use crate::text::{
    ascii_lower_vec, chars_of, equals_str, find_from, push_all, push_str, skip_ws, spec_ascii_lower_seq,
    spec_find_from, spec_skip_ws, spec_starts_with, starts_with_str, string_of, lemma_find_first,
    spec_contains, spec_occurs_at, spec_trim_start, lemma_skip_ws_bounds,
};

verus! {

broadcast use vstd::string::group_string_axioms;

/// Kind of a memory record.
#[derive(Debug, Clone, PartialEq, Eq)]
pub enum MemoryType {
    Episodic,
    Semantic,
    Procedural,
    Entity,
    Custom(String),
}

/// Abstract form of a [`MemoryType`].
pub enum MemoryTypeView {
    Episodic,
    Semantic,
    Procedural,
    Entity,
    Custom(Seq<char>),
}

impl View for MemoryType {
    type V = MemoryTypeView;

    open spec fn view(&self) -> MemoryTypeView {
        match self {
            MemoryType::Episodic => MemoryTypeView::Episodic,
            MemoryType::Semantic => MemoryTypeView::Semantic,
            MemoryType::Procedural => MemoryTypeView::Procedural,
            MemoryType::Entity => MemoryTypeView::Entity,
            MemoryType::Custom(s) => MemoryTypeView::Custom(s@),
        }
    }
}

/// The kind a name denotes: the four built-in names in any ASCII letter case, anything
/// else as a custom kind keeping the name as given.
pub open spec fn spec_memory_type_of(s: Seq<char>) -> MemoryTypeView {
    let l = spec_ascii_lower_seq(s);
    if l == "episodic"@ {
        MemoryTypeView::Episodic
    } else if l == "semantic"@ {
        MemoryTypeView::Semantic
    } else if l == "procedural"@ {
        MemoryTypeView::Procedural
    } else if l == "entity"@ {
        MemoryTypeView::Entity
    } else {
        MemoryTypeView::Custom(s)
    }
}

/// The name a kind is written as.
pub open spec fn spec_memory_type_name(t: MemoryTypeView) -> Seq<char> {
    match t {
        MemoryTypeView::Episodic => "episodic"@,
        MemoryTypeView::Semantic => "semantic"@,
        MemoryTypeView::Procedural => "procedural"@,
        MemoryTypeView::Entity => "entity"@,
        MemoryTypeView::Custom(s) => s,
    }
}

impl MemoryType {
    /// Parses a kind name (see [`spec_memory_type_of`]); every name is accepted.
    pub fn parse_name(s: &str) -> (r: MemoryType)
        ensures
            r@ == spec_memory_type_of(s@),
    {
        let c = chars_of(s);
        let l = ascii_lower_vec(c.as_slice());
        let ls = l.as_slice();
        if equals_str(ls, "episodic") {
            MemoryType::Episodic
        } else if equals_str(ls, "semantic") {
            MemoryType::Semantic
        } else if equals_str(ls, "procedural") {
            MemoryType::Procedural
        } else if equals_str(ls, "entity") {
            MemoryType::Entity
        } else {
            MemoryType::Custom(s.to_owned())
        }
    }

    /// The kind's name: the built-in names in lower case, a custom kind as given.
    pub fn to_string(&self) -> (r: String)
        ensures
            r@ == spec_memory_type_name(self@),
    {
        match self {
            MemoryType::Episodic => "episodic".to_owned(),
            MemoryType::Semantic => "semantic".to_owned(),
            MemoryType::Procedural => "procedural".to_owned(),
            MemoryType::Entity => "entity".to_owned(),
            MemoryType::Custom(s) => s.clone(),
        }
    }
}

impl<'a> From<&'a str> for MemoryType {
    /// Parses a kind name (see [`MemoryType::parse_name`]).
    fn from(s: &'a str) -> (r: MemoryType)
        ensures
            r@ == spec_memory_type_of(s@),
    {
        MemoryType::parse_name(s)
    }
}

/// The conversion is specified on `from` itself; a custom kind holds a `String`, which no
/// spec function can build, so the generic form states nothing.
impl<'a> vstd::std_specs::convert::FromSpecImpl<&'a str> for MemoryType {
    open spec fn obeys_from_spec() -> bool {
        false
    }

    open spec fn from_spec(v: &'a str) -> MemoryType {
        MemoryType::Episodic
    }
}

impl From<String> for MemoryType {
    /// Parses a kind name (see [`MemoryType::parse_name`]).
    fn from(s: String) -> (r: MemoryType)
        ensures
            r@ == spec_memory_type_of(s@),
    {
        MemoryType::parse_name(s.as_str())
    }
}

/// See the conversion from `&str`.
impl vstd::std_specs::convert::FromSpecImpl<String> for MemoryType {
    open spec fn obeys_from_spec() -> bool {
        false
    }

    open spec fn from_spec(v: String) -> MemoryType {
        MemoryType::Episodic
    }
}

impl std::str::FromStr for MemoryType {
    type Err = std::convert::Infallible;

    /// Parses a kind name (see [`MemoryType::parse_name`]); it never fails.
    fn from_str(s: &str) -> (r: Result<MemoryType, std::convert::Infallible>)
        ensures
            r matches Ok(t) && t@ == spec_memory_type_of(s@),
    {
        Ok(MemoryType::parse_name(s))
    }
}

/// Directory under the workspace that holds the engine's files.
pub const STORAGE_DIR_NAME: &'static str = ".mivi";

/// Subdirectory of [`STORAGE_DIR_NAME`] that holds memory records.
pub const MEMORY_SUBDIR_NAME: &'static str = "memory";

/// File-name part used when a record's kind sanitizes to nothing.
pub const FALLBACK_RECORD_TYPE: &'static str = "record";

/// File-name part used when a record's id sanitizes to nothing.
pub const FALLBACK_RECORD_ID: &'static str = "unknown_id";

/// What `char::is_alphanumeric` returns (Unicode `Alphabetic` or `Numeric`).
pub uninterp spec fn spec_is_alphanumeric(c: char) -> bool;

/// `char::is_alphanumeric`: its result is named by [`spec_is_alphanumeric`]; ASCII letters
/// and digits are alphanumeric.
#[verifier::external_body]
fn is_alphanumeric(c: char) -> (r: bool)
    ensures
        r == spec_is_alphanumeric(c),
        ('a' <= c <= 'z' || 'A' <= c <= 'Z' || '0' <= c <= '9') ==> r,
{
    c.is_alphanumeric()
}

/// Characters kept in file-name parts.
pub open spec fn spec_identifier_char(c: char) -> bool {
    spec_is_alphanumeric(c) || c == '_' || c == '-'
}

/// The characters of `s` that may stand in a file name, in order.
pub open spec fn spec_identifier_chars(s: Seq<char>) -> Seq<char>
    decreases s.len(),
{
    if s.len() == 0 {
        Seq::empty()
    } else {
        spec_identifier_chars(s.drop_last()) + if spec_identifier_char(s.last()) {
            seq![s.last()]
        } else {
            Seq::<char>::empty()
        }
    }
}

/// `s` reduced to alphanumerics, `_` and `-`, or `fallback` when nothing is left.
pub open spec fn spec_sanitize(s: Seq<char>, fallback: Seq<char>) -> Seq<char> {
    if spec_identifier_chars(s).len() == 0 {
        fallback
    } else {
        spec_identifier_chars(s)
    }
}

/// Reduces `s` to alphanumerics, `_` and `-` (see [`spec_sanitize`]).
pub fn sanitize_identifier(s: &str, fallback: &str) -> (r: String)
    ensures
        r@ == spec_sanitize(s@, fallback@),
{
    let mut clean = String::new();
    for c in it: s.chars()
        invariant
            it.seq() == s@,
            clean@ == spec_identifier_chars(s@.take(it.index() as int)),
    {
        let ghost k = it.index() as int;
        if is_alphanumeric(c) || c == '_' || c == '-' {
            clean.push(c);
        }
        proof {
            let t = s@.take(k + 1);
            assert(t.drop_last() =~= s@.take(k));
            assert(t.last() == c);
            assert(clean@ =~= spec_identifier_chars(t));
        }
    }
    assert(s@.take(s@.len() as int) =~= s@);
    if clean.as_str().is_empty() {
        fallback.to_owned()
    } else {
        clean
    }
}

/// The file name of a record: sanitized kind, `_`, sanitized id, `.md`.
pub open spec fn spec_record_filename(kind: Seq<char>, id: Seq<char>) -> Seq<char> {
    spec_sanitize(kind, FALLBACK_RECORD_TYPE@) + "_"@ + spec_sanitize(id, FALLBACK_RECORD_ID@) + ".md"@
}

/// The file name a record of kind `kind` and id `id` is stored under.
pub fn record_filename(kind: &str, id: &str) -> (r: String)
    ensures
        r@ == spec_record_filename(kind@, id@),
{
    let mut r = sanitize_identifier(kind, FALLBACK_RECORD_TYPE);
    push_str(&mut r, "_");
    let clean_id = sanitize_identifier(id, FALLBACK_RECORD_ID);
    push_str(&mut r, clean_id.as_str());
    push_str(&mut r, ".md");
    r
}

/// A record file: the metadata fenced by `---` lines, a blank line, then the content.
pub open spec fn spec_render_record(metadata: Seq<char>, content: Seq<char>) -> Seq<char> {
    "---\n"@ + metadata + "\n---\n\n"@ + content
}

/// Renders a record file (see [`spec_render_record`]).
pub fn render_record(metadata: &str, content: &str) -> (r: String)
    ensures
        r@ == spec_render_record(metadata@, content@),
{
    let mut r = String::new();
    push_str(&mut r, "---\n");
    push_str(&mut r, metadata);
    push_str(&mut r, "\n---\n\n");
    push_str(&mut r, content);
    r
}

/// `s` with every `\r` that directly precedes a `\n` removed (the first `k` characters).
pub open spec fn spec_crlf_to_lf_upto(s: Seq<char>, k: int) -> Seq<char>
    decreases k,
{
    if k <= 0 {
        Seq::empty()
    } else {
        spec_crlf_to_lf_upto(s, k - 1) + if s[k - 1] == '\r' && k < s.len() && s[k] == '\n' {
            Seq::<char>::empty()
        } else {
            seq![s[k - 1]]
        }
    }
}

/// `s` with every `"\r\n"` replaced by `"\n"`.
pub open spec fn spec_crlf_to_lf(s: Seq<char>) -> Seq<char> {
    spec_crlf_to_lf_upto(s, s.len() as int)
}

/// `s` without the one-character prefix `c`, if it has it.
pub open spec fn spec_strip_char(s: Seq<char>, c: char) -> Seq<char> {
    if s.len() > 0 && s[0] == c {
        s.drop_first()
    } else {
        s
    }
}

/// Splits a record file into its metadata and its content: after line endings are
/// normalized and leading white space dropped, the text must begin with `---`; the
/// metadata runs (after one optional newline) up to the first `"\n---"`, and the content
/// is what follows (after one optional newline) without leading white space. `None` when
/// there is no such fence.
pub open spec fn spec_split_frontmatter(raw: Seq<char>) -> Option<(Seq<char>, Seq<char>)> {
    let n = spec_crlf_to_lf(raw);
    let t = n.skip(spec_skip_ws(n, 0, n.len() as int));
    if !spec_starts_with(t, "---"@) {
        None
    } else {
        let rest = spec_strip_char(t.skip(3), '\n');
        match spec_find_from(rest, "\n---"@, 0) {
            None => None,
            Some(i) => {
                let body = spec_strip_char(rest.skip(i + 4), '\n');
                Some((rest.take(i), body.skip(spec_skip_ws(body, 0, body.len() as int))))
            },
        }
    }
}

fn crlf_to_lf(s: &[char]) -> (r: Vec<char>)
    ensures
        r@ == spec_crlf_to_lf(s@),
{
    let mut r: Vec<char> = Vec::new();
    let n = s.len();
    for k in 0..n
        invariant
            n == s@.len(),
            r@ == spec_crlf_to_lf_upto(s@, k as int),
    {
        if !(s[k] == '\r' && k + 1 < n && s[k + 1] == '\n') {
            r.push(s[k]);
        }
        assert(r@ =~= spec_crlf_to_lf_upto(s@, k + 1));
    }
    r
}

fn strip_char(s: &[char], c: char) -> (r: &[char])
    ensures
        r@ == spec_strip_char(s@, c),
{
    if s.len() > 0 && s[0] == c {
        &s[1..s.len()]
    } else {
        s
    }
}

/// Splits a record file into metadata and content (see [`spec_split_frontmatter`]).
pub fn split_frontmatter(raw: &str) -> (r: Option<(String, String)>)
    ensures
        match spec_split_frontmatter(raw@) {
            None => r is None,
            Some((m, c)) => r matches Some((rm, rc)) && rm@ == m && rc@ == c,
        },
{
    let chars = chars_of(raw);
    let n = crlf_to_lf(chars.as_slice());
    let ns = n.as_slice();
    let a = skip_ws(ns, 0, ns.len());
    let t = &ns[a..ns.len()];
    if !starts_with_str(t, "---") {
        return None;
    }
    proof {
        reveal_strlit("---");
        reveal_strlit("\n---");
    }
    let rest = strip_char(&t[3..t.len()], '\n');
    let fence = chars_of("\n---");
    match find_from(rest, fence.as_slice(), 0) {
        None => None,
        Some(i) => {
            let body = strip_char(&rest[i + 4..rest.len()], '\n');
            let b = skip_ws(body, 0, body.len());
            Some((string_of(&rest[0..i]), string_of(&body[b..body.len()])))
        },
    }
}

proof fn lemma_skip_ws_cons(c: Seq<char>, i: int)
    requires
        0 <= i <= c.len(),
    ensures
        spec_skip_ws(seq!['\n'] + c, i + 1, (c.len() + 1) as int) == spec_skip_ws(c, i, c.len() as int) + 1,
    decreases c.len() - i,
{
    let x = seq!['\n'] + c;
    if i < c.len() {
        assert(x[i + 1] == c[i]);
        lemma_skip_ws_cons(c, i + 1);
    }
}

proof fn lemma_crlf_identity(s: Seq<char>, k: int)
    requires
        0 <= k <= s.len(),
        forall|i: int| 0 <= i < s.len() ==> s[i] != '\r',
    ensures
        spec_crlf_to_lf_upto(s, k) == s.take(k),
    decreases k,
{
    if k > 0 {
        lemma_crlf_identity(s, k - 1);
        assert(s.take(k) =~= s.take(k - 1) + seq![s[k - 1]]);
    }
}

/// Splitting a rendered record gives its metadata and content back (the content without
/// leading white space), when neither contains a carriage return and the metadata holds
/// no line starting with `---`.
pub proof fn lemma_record_roundtrip(metadata: Seq<char>, content: Seq<char>)
    requires
        forall|i: int| 0 <= i < metadata.len() ==> metadata[i] != '\r',
        forall|i: int| 0 <= i < content.len() ==> content[i] != '\r',
        !spec_contains(metadata, "\n---"@),
    ensures
        spec_split_frontmatter(spec_render_record(metadata, content)) == Some(
            (metadata, spec_trim_start(content)),
        ),
{
    reveal_strlit("---\n");
    reveal_strlit("\n---\n\n");
    reveal_strlit("---");
    reveal_strlit("\n---");
    let raw = spec_render_record(metadata, content);
    let m = metadata.len() as int;
    assert forall|i: int| 0 <= i < raw.len() implies raw[i] != '\r' by {
        if 4 <= i < 4 + m {
            assert(raw[i] == metadata[i - 4]);
        } else if i >= 4 + m + 6 {
            assert(raw[i] == content[i - 4 - m - 6]);
        }
    }
    lemma_crlf_identity(raw, raw.len() as int);
    assert(raw.take(raw.len() as int) =~= raw);
    let n = spec_crlf_to_lf(raw);
    assert(n == raw);
    assert(spec_skip_ws(n, 0, n.len() as int) == 0);
    assert(n.skip(0) =~= n);
    assert(n.take(3) =~= "---"@);
    assert("\n---\n\n"@ =~= seq!['\n', '-', '-', '-', '\n', '\n']);
    let rest = metadata + "\n---\n\n"@ + content;
    assert(spec_strip_char(n.skip(3), '\n') =~= rest);
    let fence = "\n---"@;
    assert(rest.subrange(m, m + 4) =~= fence);
    assert forall|i: int| 0 <= i < m implies !spec_occurs_at(rest, fence, i) by {
        if spec_occurs_at(rest, fence, i) {
            if i + 4 <= m {
                assert(metadata.subrange(i, i + 4) =~= rest.subrange(i, i + 4));
                assert(spec_occurs_at(metadata, fence, i));
            } else {
                assert(rest[m] == '\n');
                assert(rest.subrange(i, i + 4)[m - i] == rest[m]);
            }
        }
    }
    lemma_find_first(rest, fence, 0, m);
    assert(rest.skip(m + 4) =~= seq!['\n', '\n'] + content);
    let body = seq!['\n'] + content;
    assert(spec_strip_char(rest.skip(m + 4), '\n') =~= body);
    lemma_skip_ws_cons(content, 0);
    lemma_skip_ws_bounds(content, 0, content.len() as int);
    assert(spec_skip_ws(body, 0, body.len() as int) == spec_skip_ws(body, 1, body.len() as int));
    assert(body.skip(spec_skip_ws(body, 0, body.len() as int)) =~= content.skip(
        spec_skip_ws(content, 0, content.len() as int),
    ));
}

} // verus!
