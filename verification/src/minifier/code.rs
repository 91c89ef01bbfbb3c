//! Line-oriented structural minifier for Rust, Python and TypeScript sources: keeps
//! declarations, imports and signatures, and replaces function bodies with stubs.

use vstd::prelude::*;
use crate::text::{
    chars_of, count_char, equals_str, find_from, line_bounds, lemma_line_end, push_all,
    lemma_line_at_shift, lemma_head_line,
    push_spaces, push_str, skip_ws, spec_contains, spec_count_char, spec_ends_with,
    spec_find_from, spec_line_at, spec_line_end, spec_skip_ws, spec_spaces, spec_starts_with,
    spec_trim, spec_trim_end, contains_str, ends_with_str, starts_with_str, trim, trim_end,
};

verus! {

broadcast use vstd::string::group_string_axioms;

/// Languages the structural minifier understands.
#[derive(Debug, Clone, Copy, PartialEq, Eq, Structural)]
pub enum Language {
    Rust,
    Python,
    TypeScript,
}

/// What `str::to_lowercase` returns (full Unicode lower-casing).
pub uninterp spec fn spec_to_lowercase(s: Seq<char>) -> Seq<char>;

/// `str::to_lowercase`: the result is named by [`spec_to_lowercase`] and depends on the
/// text alone.
#[verifier::external_body]
pub(crate) fn to_lowercase(s: &str) -> (r: String)
    ensures
        r@ == spec_to_lowercase(s@),
{
    s.to_lowercase()
}

/// The language of an already lower-cased file extension.
pub open spec fn spec_language_of(lower: Seq<char>) -> Option<Language> {
    if lower == "rs"@ {
        Some(Language::Rust)
    } else if lower == "py"@ {
        Some(Language::Python)
    } else if lower == "ts"@ || lower == "tsx"@ || lower == "js"@ || lower == "jsx"@ {
        Some(Language::TypeScript)
    } else {
        None
    }
}

impl Language {
    /// The language of a lower-cased extension: `rs`, `py`, or one of `ts`, `tsx`, `js`, `jsx`.
    pub fn from_lowercase_extension(lower: &str) -> (r: Option<Self>)
        ensures
            r == spec_language_of(lower@),
    {
        let c = chars_of(lower);
        let e = c.as_slice();
        if equals_str(e, "rs") {
            Some(Language::Rust)
        } else if equals_str(e, "py") {
            Some(Language::Python)
        } else if equals_str(e, "ts") || equals_str(e, "tsx") || equals_str(e, "js")
            || equals_str(e, "jsx") {
            Some(Language::TypeScript)
        } else {
            None
        }
    }

    /// Detects the language from a file extension, in any letter case.
    pub fn from_extension(ext: &str) -> (r: Option<Self>)
        ensures
            r == spec_language_of(spec_to_lowercase(ext@)),
    {
        let lower = to_lowercase(ext);
        Self::from_lowercase_extension(lower.as_str())
    }
}

/// Minifier state between lines: inside a stripped body, and the brace depth (Rust,
/// TypeScript) or the indentation of the `def` (Python).
pub type CodeState = (bool, int);

/// The line followed by a newline.
pub open spec fn spec_emit(l: Seq<char>) -> Seq<char> {
    l + seq!['\n']
}

/// The part of a line before its first `{`, without trailing white space.
pub open spec fn spec_signature(l: Seq<char>) -> Seq<char> {
    match spec_find_from(l, seq!['{'], 0) {
        Some(i) => spec_trim_end(l.take(i)),
        None => spec_trim_end(l),
    }
}

/// A line that starts a function: its signature with a stub body when it opens a brace,
/// entering the body when it opens more braces than it closes.
pub open spec fn spec_signature_line(l: Seq<char>, st: CodeState) -> (Seq<char>, CodeState) {
    let opens = spec_count_char(l, '{');
    let closes = spec_count_char(l, '}');
    if opens > 0 {
        (
            spec_signature(l) + " { /* ... */ }\n"@,
            if opens > closes {
                (true, opens - closes)
            } else {
                st
            },
        )
    } else {
        (spec_emit(l), st)
    }
}

/// A line inside a stripped body: nothing is emitted; the depth moves by the braces
/// (saturating at both ends) and the body ends at depth zero.
pub open spec fn spec_body_line(l: Seq<char>, depth: int) -> (Seq<char>, CodeState) {
    let opens = spec_count_char(l, '{');
    let closes = spec_count_char(l, '}');
    let up = if depth + opens > usize::MAX {
        usize::MAX as int
    } else {
        depth + opens
    };
    let d = if up - closes < 0 {
        0
    } else {
        up - closes
    };
    (Seq::empty(), (d != 0, d))
}

/// Rust lines passed through verbatim outside bodies: comments, attributes, imports,
/// modules, type aliases and constants.
pub open spec fn spec_rust_passthrough(t: Seq<char>) -> bool {
    spec_starts_with(t, "//"@) || spec_starts_with(t, "#["@) || spec_starts_with(t, "use "@)
        || spec_starts_with(t, "pub use "@) || spec_starts_with(t, "mod "@) || spec_starts_with(
        t,
        "pub mod "@,
    ) || spec_starts_with(t, "type "@) || spec_starts_with(t, "pub type "@) || spec_starts_with(
        t,
        "const "@,
    ) || spec_starts_with(t, "pub const "@)
}

/// Rust type declarations, kept whole.
pub open spec fn spec_rust_decl(t: Seq<char>) -> bool {
    spec_starts_with(t, "struct "@) || spec_starts_with(t, "pub struct "@) || spec_starts_with(
        t,
        "pub(crate) struct "@,
    ) || spec_starts_with(t, "enum "@) || spec_starts_with(t, "pub enum "@) || spec_starts_with(
        t,
        "trait "@,
    ) || spec_starts_with(t, "pub trait "@) || spec_starts_with(t, "impl "@) || spec_starts_with(
        t,
        "pub impl "@,
    )
}

/// One Rust line.
pub open spec fn spec_rust_line(l: Seq<char>, st: CodeState) -> (Seq<char>, CodeState) {
    let t = spec_trim(l);
    if spec_rust_passthrough(t) {
        (if st.0 { Seq::empty() } else { spec_emit(l) }, st)
    } else if !st.0 && spec_rust_decl(t) {
        (spec_emit(l), st)
    } else if !st.0 && spec_contains(t, "fn "@) {
        spec_signature_line(l, st)
    } else if st.0 {
        spec_body_line(l, st.1)
    } else {
        (spec_emit(l), st)
    }
}

/// TypeScript lines passed through verbatim outside bodies: comments, imports, types and
/// interfaces.
pub open spec fn spec_ts_passthrough(t: Seq<char>) -> bool {
    spec_starts_with(t, "//"@) || spec_starts_with(t, "import "@) || spec_starts_with(
        t,
        "export type "@,
    ) || spec_starts_with(t, "export interface "@) || spec_starts_with(t, "type "@)
        || spec_starts_with(t, "interface "@)
}

/// TypeScript function heads: `function`, exported functions and arrow functions.
pub open spec fn spec_ts_function(t: Seq<char>) -> bool {
    spec_starts_with(t, "function "@) || spec_starts_with(t, "export function "@)
        || spec_starts_with(t, "export async function "@) || (spec_contains(t, "("@)
        && spec_contains(t, ")"@) && spec_contains(t, "=>"@))
}

/// One TypeScript line.
pub open spec fn spec_ts_line(l: Seq<char>, st: CodeState) -> (Seq<char>, CodeState) {
    let t = spec_trim(l);
    if spec_ts_passthrough(t) {
        (if st.0 { Seq::empty() } else { spec_emit(l) }, st)
    } else if !st.0 && spec_ts_function(t) {
        spec_signature_line(l, st)
    } else if st.0 {
        spec_body_line(l, st.1)
    } else {
        (spec_emit(l), st)
    }
}

/// Python `def` heads.
pub open spec fn spec_py_def(t: Seq<char>) -> bool {
    spec_starts_with(t, "def "@) || spec_starts_with(t, "async def "@)
}

/// One Python line: blank lines vanish, lines indented deeper than an open `def` are its
/// body and vanish, `class`/`def`/decorator lines are kept (a `def` ending in `:` gets a
/// `pass` body), imports, comments and assignments are kept, the rest vanishes.
pub open spec fn spec_py_line(l: Seq<char>, st: CodeState) -> (Seq<char>, CodeState) {
    let t = spec_trim(l);
    let ind = spec_skip_ws(l, 0, l.len() as int);
    if t.len() == 0 || (st.0 && ind > st.1) {
        (Seq::empty(), st)
    } else if spec_starts_with(t, "class "@) || spec_py_def(t) || spec_starts_with(t, "@"@) {
        if spec_py_def(t) && spec_ends_with(t, ":"@) {
            (spec_emit(l) + spec_spaces(ind + 4) + "pass\n"@, (true, ind))
        } else {
            (spec_emit(l), (false, st.1))
        }
    } else if spec_starts_with(t, "import "@) || spec_starts_with(t, "from "@) || spec_starts_with(
        t,
        "#"@,
    ) || spec_contains(t, "="@) {
        (spec_emit(l), (false, st.1))
    } else {
        (Seq::empty(), (false, st.1))
    }
}

/// One line in the given language.
pub open spec fn spec_code_line(lang: Language, l: Seq<char>, st: CodeState) -> (Seq<char>, CodeState) {
    match lang {
        Language::Rust => spec_rust_line(l, st),
        Language::Python => spec_py_line(l, st),
        Language::TypeScript => spec_ts_line(l, st),
    }
}

/// The output for the lines of `s` from position `pos` on, from state `st`.
pub open spec fn spec_code_from(lang: Language, s: Seq<char>, pos: int, st: CodeState) -> Seq<char>
    decreases s.len() + 1 - pos,
{
    if pos < 0 || pos >= s.len() {
        Seq::empty()
    } else {
        let r = spec_code_line(lang, spec_line_at(s, pos), st);
        proof {
            lemma_line_end(s, pos);
        }
        r.0 + spec_code_from(lang, s, spec_line_end(s, pos) + 1, r.1)
    }
}

/// The minified form of a whole source text.
pub open spec fn spec_minify(lang: Language, s: Seq<char>) -> Seq<char> {
    spec_code_from(lang, s, 0, (false, 0))
}

proof fn lemma_count_char_le_len(s: Seq<char>, c: char)
    ensures
        spec_count_char(s, c) <= s.len(),
    decreases s.len(),
{
    if s.len() > 0 {
        lemma_count_char_le_len(s.drop_last(), c);
    }
}

proof fn lemma_code_shift(lang: Language, p: Seq<char>, r: Seq<char>, i: int, st: CodeState)
    requires
        0 <= i,
    ensures
        spec_code_from(lang, p + r, p.len() + i, st) == spec_code_from(lang, r, i, st),
    decreases r.len() + 1 - i,
{
    if i < r.len() {
        lemma_line_at_shift(p, r, i);
        lemma_line_end(r, i);
        lemma_code_shift(lang, p, r, spec_line_end(r, i) + 1, spec_code_line(lang, spec_line_at(r, i), st).1);
    }
}

/// The output of `t + "\n" + r` is that of its first line `t` followed by that of `r`.
proof fn lemma_code_head(lang: Language, t: Seq<char>, r: Seq<char>, st: CodeState)
    requires
        forall|j: int| 0 <= j < t.len() ==> t[j] != '\n',
        t.len() == 0 || t.last() != '\r',
    ensures
        spec_code_from(lang, t + seq!['\n'] + r, 0, st) == spec_code_line(lang, t, st).0 + spec_code_from(
            lang,
            r,
            0,
            spec_code_line(lang, t, st).1,
        ),
{
    let s = t + seq!['\n'] + r;
    lemma_head_line(t, r);
    lemma_line_end(s, 0);
    assert(s == (t + seq!['\n']) + r);
    lemma_code_shift(lang, t + seq!['\n'], r, 0, spec_code_line(lang, t, st).1);
}

proof fn lemma_py_closed_states_agree(s: Seq<char>, pos: int, x: int, y: int)
    requires
        0 <= pos,
    ensures
        spec_code_from(Language::Python, s, pos, (false, x)) == spec_code_from(Language::Python, s, pos, (false, y)),
    decreases s.len() + 1 - pos,
{
    if pos < s.len() {
        lemma_line_end(s, pos);
        let l = spec_line_at(s, pos);
        let next = spec_line_end(s, pos) + 1;
        let a = spec_py_line(l, (false, x));
        let b = spec_py_line(l, (false, y));
        assert(a.0 == b.0);
        if a.1 != b.1 {
            lemma_py_closed_states_agree(s, next, a.1.1, b.1.1);
        }
    }
}

/// In Python, a non-blank line `x` indented no deeper than the `def` head `d` just
/// before it ends that def's body: the text is minified as if it were cut between the
/// two, so `x` and everything after it come out exactly as they would on their own.
pub proof fn lemma_py_shallower_line_ends_def(d: Seq<char>, x: Seq<char>, r: Seq<char>)
    requires
        forall|j: int| 0 <= j < d.len() ==> d[j] != '\n',
        d.len() > 0 && d.last() != '\r',
        spec_starts_with(spec_trim(d), "def "@),
        spec_ends_with(spec_trim(d), ":"@),
        forall|j: int| 0 <= j < x.len() ==> x[j] != '\n',
        x.len() > 0 && x.last() != '\r',
        spec_trim(x).len() > 0,
        spec_skip_ws(x, 0, x.len() as int) <= spec_skip_ws(d, 0, d.len() as int),
    ensures
        spec_minify(Language::Python, d + seq!['\n'] + (x + seq!['\n'] + r)) == spec_minify(
            Language::Python,
            d + seq!['\n'],
        ) + spec_minify(Language::Python, x + seq!['\n'] + r),
{
    reveal_strlit("def ");
    let init: CodeState = (false, 0);
    let k = spec_skip_ws(d, 0, d.len() as int);
    lemma_code_head(Language::Python, d, x + seq!['\n'] + r, init);
    lemma_code_head(Language::Python, d, Seq::empty(), init);
    assert(d + seq!['\n'] + Seq::<char>::empty() == d + seq!['\n']);
    let sd = spec_py_line(d, init);
    assert(spec_trim(d).len() > 0);
    assert(sd.1 == (true, k));
    lemma_code_head(Language::Python, x, r, sd.1);
    lemma_code_head(Language::Python, x, r, init);
    let a = spec_py_line(x, sd.1);
    let b = spec_py_line(x, init);
    assert(a.0 == b.0);
    if a.1 != b.1 {
        lemma_py_closed_states_agree(r, 0, a.1.1, b.1.1);
    }
    assert(sd.0 + (a.0 + spec_code_from(Language::Python, r, 0, a.1)) =~= sd.0 + Seq::<char>::empty() + (b.0
        + spec_code_from(Language::Python, r, 0, b.1)));
}

/// In Rust, a line `l` that starts a function (it contains `fn `, is neither a declaration
/// nor a passed-through line, and opens a brace) comes out as its signature, the text
/// before its first `{` without trailing white space, followed by a stub body.
pub proof fn lemma_rust_fn_becomes_stub(l: Seq<char>, r: Seq<char>)
    requires
        forall|j: int| 0 <= j < l.len() ==> l[j] != '\n',
        l.len() > 0 && l.last() != '\r',
        spec_contains(spec_trim(l), "fn "@),
        !spec_rust_passthrough(spec_trim(l)),
        !spec_rust_decl(spec_trim(l)),
        spec_count_char(l, '{') > 0,
    ensures
        spec_starts_with(spec_minify(Language::Rust, l + seq!['\n'] + r), spec_signature(l) + " { /* ... */ }\n"@),
{
    lemma_code_head(Language::Rust, l, r, (false, 0));
    let p = spec_signature(l) + " { /* ... */ }\n"@;
    let out = spec_minify(Language::Rust, l + seq!['\n'] + r);
    assert(out.take(p.len() as int) =~= p);
}

/// In Rust, inside the body of a function opened by `l`, a line without braces leaves no
/// trace: dropping it changes nothing in the output.
pub proof fn lemma_rust_body_line_vanishes(l: Seq<char>, m: Seq<char>, r: Seq<char>)
    requires
        forall|j: int| 0 <= j < l.len() ==> l[j] != '\n',
        l.len() > 0 && l.last() != '\r',
        l.len() <= usize::MAX,
        spec_contains(spec_trim(l), "fn "@),
        !spec_rust_passthrough(spec_trim(l)),
        !spec_rust_decl(spec_trim(l)),
        spec_count_char(l, '{') > spec_count_char(l, '}'),
        forall|j: int| 0 <= j < m.len() ==> m[j] != '\n',
        m.len() == 0 || m.last() != '\r',
        spec_count_char(m, '{') == 0,
        spec_count_char(m, '}') == 0,
    ensures
        spec_minify(Language::Rust, l + seq!['\n'] + (m + seq!['\n'] + r)) == spec_minify(
            Language::Rust,
            l + seq!['\n'] + r,
        ),
{
    let init: CodeState = (false, 0);
    lemma_code_head(Language::Rust, l, m + seq!['\n'] + r, init);
    lemma_code_head(Language::Rust, l, r, init);
    let sl = spec_rust_line(l, init);
    lemma_count_char_le_len(l, '{');
    assert(sl.1 == (true, spec_count_char(l, '{') - spec_count_char(l, '}')));
    lemma_code_head(Language::Rust, m, r, sl.1);
    assert(spec_rust_line(m, sl.1) == (Seq::<char>::empty(), sl.1));
    assert(Seq::<char>::empty() + spec_code_from(Language::Rust, r, 0, sl.1) =~= spec_code_from(
        Language::Rust,
        r,
        0,
        sl.1,
    ));
}

fn count_all(l: &[char], c: char) -> (r: usize)
    ensures
        r == spec_count_char(l@, c),
{
    let r = count_char(l, 0, l.len(), c);
    assert(l@.subrange(0, l@.len() as int) =~= l@);
    r
}

fn emit(out: &mut String, l: &[char])
    ensures
        final(out)@ == old(out)@ + spec_emit(l@),
{
    push_all(out, l);
    out.push('\n');
}

fn signature_line(out: &mut String, l: &[char], in_body: bool, depth: usize) -> (r: (bool, usize))
    ensures
        final(out)@ == old(out)@ + spec_signature_line(l@, (in_body, depth as int)).0,
        (r.0, r.1 as int) == spec_signature_line(l@, (in_body, depth as int)).1,
{
    let opens = count_all(l, '{');
    let closes = count_all(l, '}');
    if opens > 0 {
        let brace = ['{'];
        let head = match find_from(l, brace.as_slice(), 0) {
            Some(i) => &l[0..i],
            None => l,
        };
        proof {
            assert(brace@ =~= seq!['{']);
            if spec_find_from(l@, seq!['{'], 0) is None {
                assert(head@ =~= l@);
            }
        }
        let sig = trim_end(head);
        push_all(out, sig);
        push_str(out, " { /* ... */ }\n");
        if opens > closes {
            (true, opens - closes)
        } else {
            (in_body, depth)
        }
    } else {
        emit(out, l);
        (in_body, depth)
    }
}

fn body_line(l: &[char], depth: usize) -> (r: (bool, usize))
    ensures
        spec_body_line(l@, depth as int).0 == Seq::<char>::empty(),
        (r.0, r.1 as int) == spec_body_line(l@, depth as int).1,
{
    let opens = count_all(l, '{');
    let closes = count_all(l, '}');
    let d = depth.saturating_add(opens).saturating_sub(closes);
    (d != 0, d)
}

fn rust_passthrough(t: &[char]) -> (r: bool)
    ensures
        r == spec_rust_passthrough(t@),
{
    starts_with_str(t, "//") || starts_with_str(t, "#[") || starts_with_str(t, "use ")
        || starts_with_str(t, "pub use ") || starts_with_str(t, "mod ") || starts_with_str(
        t,
        "pub mod ",
    ) || starts_with_str(t, "type ") || starts_with_str(t, "pub type ") || starts_with_str(
        t,
        "const ",
    ) || starts_with_str(t, "pub const ")
}

fn rust_decl(t: &[char]) -> (r: bool)
    ensures
        r == spec_rust_decl(t@),
{
    starts_with_str(t, "struct ") || starts_with_str(t, "pub struct ") || starts_with_str(
        t,
        "pub(crate) struct ",
    ) || starts_with_str(t, "enum ") || starts_with_str(t, "pub enum ") || starts_with_str(
        t,
        "trait ",
    ) || starts_with_str(t, "pub trait ") || starts_with_str(t, "impl ") || starts_with_str(
        t,
        "pub impl ",
    )
}

fn rust_line(out: &mut String, l: &[char], in_body: bool, depth: usize) -> (r: (bool, usize))
    ensures
        final(out)@ == old(out)@ + spec_rust_line(l@, (in_body, depth as int)).0,
        (r.0, r.1 as int) == spec_rust_line(l@, (in_body, depth as int)).1,
{
    let t = trim(l);
    if rust_passthrough(t) {
        if !in_body {
            emit(out, l);
        } else {
            assert(out@ =~= old(out)@ + Seq::<char>::empty());
        }
        (in_body, depth)
    } else if !in_body && rust_decl(t) {
        emit(out, l);
        (in_body, depth)
    } else if !in_body && contains_str(t, "fn ") {
        signature_line(out, l, in_body, depth)
    } else if in_body {
        assert(out@ =~= old(out)@ + Seq::<char>::empty());
        body_line(l, depth)
    } else {
        emit(out, l);
        (in_body, depth)
    }
}

fn ts_passthrough(t: &[char]) -> (r: bool)
    ensures
        r == spec_ts_passthrough(t@),
{
    starts_with_str(t, "//") || starts_with_str(t, "import ") || starts_with_str(
        t,
        "export type ",
    ) || starts_with_str(t, "export interface ") || starts_with_str(t, "type ")
        || starts_with_str(t, "interface ")
}

fn ts_function(t: &[char]) -> (r: bool)
    ensures
        r == spec_ts_function(t@),
{
    starts_with_str(t, "function ") || starts_with_str(t, "export function ")
        || starts_with_str(t, "export async function ") || (contains_str(t, "(")
        && contains_str(t, ")") && contains_str(t, "=>"))
}

fn ts_line(out: &mut String, l: &[char], in_body: bool, depth: usize) -> (r: (bool, usize))
    ensures
        final(out)@ == old(out)@ + spec_ts_line(l@, (in_body, depth as int)).0,
        (r.0, r.1 as int) == spec_ts_line(l@, (in_body, depth as int)).1,
{
    let t = trim(l);
    if ts_passthrough(t) {
        if !in_body {
            emit(out, l);
        } else {
            assert(out@ =~= old(out)@ + Seq::<char>::empty());
        }
        (in_body, depth)
    } else if !in_body && ts_function(t) {
        signature_line(out, l, in_body, depth)
    } else if in_body {
        assert(out@ =~= old(out)@ + Seq::<char>::empty());
        body_line(l, depth)
    } else {
        emit(out, l);
        (in_body, depth)
    }
}

fn py_line(out: &mut String, l: &[char], in_def: bool, def_indent: usize) -> (r: (bool, usize))
    ensures
        final(out)@ == old(out)@ + spec_py_line(l@, (in_def, def_indent as int)).0,
        (r.0, r.1 as int) == spec_py_line(l@, (in_def, def_indent as int)).1,
{
    let t = trim(l);
    let ind = skip_ws(l, 0, l.len());
    if t.len() == 0 || (in_def && ind > def_indent) {
        assert(out@ =~= old(out)@ + Seq::<char>::empty());
        return (in_def, def_indent);
    }
    let is_def = starts_with_str(t, "def ") || starts_with_str(t, "async def ");
    if starts_with_str(t, "class ") || is_def || starts_with_str(t, "@") {
        emit(out, l);
        if is_def && ends_with_str(t, ":") {
            let ghost before = out@;
            push_spaces(out, ind);
            push_spaces(out, 4);
            push_str(out, "pass\n");
            assert(spec_spaces(ind as int) + spec_spaces(4) =~= spec_spaces(ind + 4));
            assert(out@ =~= before + spec_spaces(ind + 4) + "pass\n"@);
            (true, ind)
        } else {
            (false, def_indent)
        }
    } else if starts_with_str(t, "import ") || starts_with_str(t, "from ") || starts_with_str(
        t,
        "#",
    ) || contains_str(t, "=") {
        emit(out, l);
        (false, def_indent)
    } else {
        assert(out@ =~= old(out)@ + Seq::<char>::empty());
        (false, def_indent)
    }
}

fn code_line(out: &mut String, lang: Language, l: &[char], flag: bool, n: usize) -> (r: (bool, usize))
    ensures
        final(out)@ == old(out)@ + spec_code_line(lang, l@, (flag, n as int)).0,
        (r.0, r.1 as int) == spec_code_line(lang, l@, (flag, n as int)).1,
{
    match lang {
        Language::Rust => rust_line(out, l, flag, n),
        Language::Python => py_line(out, l, flag, n),
        Language::TypeScript => ts_line(out, l, flag, n),
    }
}

/// Minifies `source` line by line in the given language.
pub fn minify_source(source: &str, lang: Language) -> (out: String)
    ensures
        out@ == spec_minify(lang, source@),
{
    let c = chars_of(source);
    let n = c.len();
    let mut out = String::new();
    let mut pos: usize = 0;
    let mut flag = false;
    let mut num: usize = 0;
    proof {
        assert(out@ + spec_code_from(lang, c@, 0, (false, 0)) =~= spec_code_from(lang, c@, 0, (false, 0)));
    }
    while pos < n
        invariant
            pos <= n,
            n == c@.len(),
            c@ == source@,
            out@ + spec_code_from(lang, c@, pos as int, (flag, num as int)) == spec_minify(lang, source@),
        decreases n - pos,
    {
        let (hi, next) = line_bounds(c.as_slice(), pos);
        let line = &c.as_slice()[pos..hi];
        let ghost before = out@;
        let ghost st = (flag, num as int);
        assert(line@ == spec_line_at(c@, pos as int));
        let (f2, n2) = code_line(&mut out, lang, line, flag, num);
        proof {
            lemma_line_end(c@, pos as int);
            let r = spec_code_line(lang, spec_line_at(c@, pos as int), st);
            assert(spec_code_from(lang, c@, pos as int, st) == r.0 + spec_code_from(lang, c@, spec_line_end(c@, pos as int) + 1, r.1));
            assert(spec_code_from(lang, c@, spec_line_end(c@, pos as int) + 1, r.1) == spec_code_from(lang, c@, next as int, r.1));
            assert(before + (r.0 + spec_code_from(lang, c@, next as int, r.1)) =~= out@ + spec_code_from(lang, c@, next as int, r.1));
        }
        flag = f2;
        num = n2;
        pos = next;
    }
    proof {
        assert(out@ + spec_code_from(lang, c@, pos as int, (flag, num as int)) =~= out@);
    }
    out
}

/// Minifies Rust source: keeps imports, attributes, comments and type declarations, and
/// reduces each function to its signature with a `{ /* ... */ }` stub.
pub fn minify_rust_code(source: &str) -> (out: String)
    ensures
        out@ == spec_minify(Language::Rust, source@),
{
    minify_source(source, Language::Rust)
}

/// Minifies Python source: keeps classes, decorators, signatures (with a `pass` body),
/// imports, comments and assignments.
pub fn minify_python_code(source: &str) -> (out: String)
    ensures
        out@ == spec_minify(Language::Python, source@),
{
    minify_source(source, Language::Python)
}

/// Minifies TypeScript/JavaScript source: keeps imports, comments, types and interfaces,
/// and reduces functions to stubs.
pub fn minify_typescript_code(source: &str) -> (out: String)
    ensures
        out@ == spec_minify(Language::TypeScript, source@),
{
    minify_source(source, Language::TypeScript)
}

} // verus!
