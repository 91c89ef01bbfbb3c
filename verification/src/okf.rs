//! Open Knowledge Format concepts: Markdown documents with a small YAML front matter,
//! parsed into metadata, title, body and `[[wiki links]]`, and a bundle navigator that
//! lists active concepts for progressive disclosure.

use vstd::prelude::*;
use crate::text::{
    chars_of, contains, find_from, lemma_line_end, lemma_line_at_shift, lemma_head_line, lemma_skip_char_bounds, line_bounds, push_all,
    push_str, skip_ws, spec_ends_with, spec_find_from, spec_line_at, spec_line_end, spec_skip_ws,
    spec_split_char, spec_starts_with, spec_trim, spec_trim_char, spec_trim_start_char,
    starts_with_str, ends_with_str, string_of, trim, trim_char, trim_start_char, equals_str,
    spec_ascii_lower_seq, ascii_lower_vec, lemma_skip_ws_bounds, lemma_find_from_bound,
    spec_trim_start, trim_end, spec_trim_end,
};
use crate::minifier::code::{spec_to_lowercase, to_lowercase};

verus! {

broadcast use vstd::string::group_string_axioms;

/// Metadata of a concept.
pub struct OkfFrontmatter {
    pub id: String,
    pub doc_type: String,
    pub title: Option<String>,
    pub sources: Vec<String>,
    pub trust_tier: Option<String>,
    pub status: String,
    pub stale_after: Option<String>,
    pub tags: Vec<String>,
}

/// Abstract metadata.
#[verifier::ext_equal]
pub struct OkfFrontmatterView {
    pub id: Seq<char>,
    pub doc_type: Seq<char>,
    pub title: Option<Seq<char>>,
    pub sources: Seq<Seq<char>>,
    pub trust_tier: Option<Seq<char>>,
    pub status: Seq<char>,
    pub stale_after: Option<Seq<char>>,
    pub tags: Seq<Seq<char>>,
}

/// The view of an optional string.
pub open spec fn spec_opt(o: Option<String>) -> Option<Seq<char>> {
    match o {
        Some(s) => Some(s@),
        None => None,
    }
}

/// The views of a list of strings.
pub open spec fn spec_strs(v: Seq<String>) -> Seq<Seq<char>> {
    v.map_values(|s: String| s@)
}

impl View for OkfFrontmatter {
    type V = OkfFrontmatterView;

    open spec fn view(&self) -> OkfFrontmatterView {
        OkfFrontmatterView {
            id: self.id@,
            doc_type: self.doc_type@,
            title: spec_opt(self.title),
            sources: spec_strs(self.sources@),
            trust_tier: spec_opt(self.trust_tier),
            status: self.status@,
            stale_after: spec_opt(self.stale_after),
            tags: spec_strs(self.tags@),
        }
    }
}

/// Default metadata: type `concept`, trust tier `verified`, status `active`, the rest
/// empty.
pub open spec fn spec_default_frontmatter() -> OkfFrontmatterView {
    OkfFrontmatterView {
        id: Seq::empty(),
        doc_type: "concept"@,
        title: None,
        sources: Seq::empty(),
        trust_tier: Some("verified"@),
        status: "active"@,
        stale_after: None,
        tags: Seq::empty(),
    }
}

/// Which list key the following `- item` lines extend.
#[derive(Debug, Clone, Copy, PartialEq, Eq, Structural)]
pub enum YamlList {
    NoList,
    Sources,
    Tags,
}

/// A scalar value: trimmed, then stripped of surrounding `"` and then `'` characters.
pub open spec fn spec_yaml_scalar(s: Seq<char>) -> Seq<char> {
    spec_trim_char(spec_trim_char(spec_trim(s), '"'), '\'')
}

/// The non-empty cleaned items of an inline list's pieces.
pub open spec fn spec_clean_items(pieces: Seq<Seq<char>>) -> Seq<Seq<char>>
    decreases pieces.len(),
{
    if pieces.len() == 0 {
        Seq::empty()
    } else {
        let rest = spec_clean_items(pieces.drop_last());
        let item = spec_yaml_scalar(pieces.last());
        if item.len() == 0 {
            rest
        } else {
            rest.push(item)
        }
    }
}

/// A list value: `[a, b]` inline, a single scalar, or (when empty) the start of a block
/// list; `None` selects the block list.
pub open spec fn spec_yaml_list(val: Seq<char>) -> Option<Seq<Seq<char>>> {
    if spec_starts_with(val, "["@) && spec_ends_with(val, "]"@) {
        Some(spec_clean_items(spec_split_char(val.subrange(1, val.len() - 1), ',')))
    } else if val.len() > 0 {
        Some(seq![val])
    } else {
        None
    }
}

/// One front-matter line: blank and `#` lines are skipped; `- item` lines extend the
/// current block list; `key: value` lines set a field (keys compared after lower-casing)
/// and end any block list; other lines are skipped.
pub open spec fn spec_yaml_line(l: Seq<char>, fm: OkfFrontmatterView, list: YamlList) -> (OkfFrontmatterView, YamlList) {
    let t = spec_trim(l);
    if t.len() == 0 || spec_starts_with(t, "#"@) {
        (fm, list)
    } else if spec_starts_with(t, "-"@) {
        let item = spec_yaml_scalar(spec_trim_start_char(t, '-'));
        if item.len() == 0 {
            (fm, list)
        } else {
            match list {
                YamlList::Sources => (OkfFrontmatterView { sources: fm.sources.push(item), ..fm }, list),
                YamlList::Tags => (OkfFrontmatterView { tags: fm.tags.push(item), ..fm }, list),
                YamlList::NoList => (fm, list),
            }
        }
    } else {
        match spec_find_from(t, seq![':'], 0) {
            None => (fm, list),
            Some(i) => {
                let key = spec_to_lowercase(spec_trim(t.take(i)));
                let val = spec_yaml_scalar(t.skip(i + 1));
                if key == "id"@ || key == "concept_id"@ {
                    (OkfFrontmatterView { id: val, ..fm }, YamlList::NoList)
                } else if key == "type"@ {
                    (OkfFrontmatterView { doc_type: val, ..fm }, YamlList::NoList)
                } else if key == "title"@ {
                    (OkfFrontmatterView { title: Some(val), ..fm }, YamlList::NoList)
                } else if key == "trust"@ || key == "trust_tier"@ {
                    (OkfFrontmatterView { trust_tier: Some(val), ..fm }, YamlList::NoList)
                } else if key == "status"@ {
                    (OkfFrontmatterView { status: val, ..fm }, YamlList::NoList)
                } else if key == "stale_after"@ {
                    (OkfFrontmatterView { stale_after: Some(val), ..fm }, YamlList::NoList)
                } else if key == "sources"@ {
                    match spec_yaml_list(val) {
                        Some(items) => (OkfFrontmatterView { sources: items, ..fm }, YamlList::NoList),
                        None => (fm, YamlList::Sources),
                    }
                } else if key == "tags"@ {
                    match spec_yaml_list(val) {
                        Some(items) => (OkfFrontmatterView { tags: items, ..fm }, YamlList::NoList),
                        None => (fm, YamlList::Tags),
                    }
                } else {
                    (fm, YamlList::NoList)
                }
            },
        }
    }
}

/// The metadata read from the lines of `s` from position `pos` on.
pub open spec fn spec_yaml_from(s: Seq<char>, pos: int, fm: OkfFrontmatterView, list: YamlList) -> OkfFrontmatterView
    decreases s.len() + 1 - pos,
{
    if pos < 0 || pos >= s.len() {
        fm
    } else {
        let r = spec_yaml_line(spec_line_at(s, pos), fm, list);
        proof {
            lemma_line_end(s, pos);
        }
        spec_yaml_from(s, spec_line_end(s, pos) + 1, r.0, r.1)
    }
}

/// The metadata of a front-matter text, starting from the defaults.
pub open spec fn spec_parse_yaml(s: Seq<char>) -> OkfFrontmatterView {
    spec_yaml_from(s, 0, spec_default_frontmatter(), YamlList::NoList)
}

proof fn lemma_strs_push(v: Seq<String>, x: String)
    ensures
        spec_strs(v.push(x)) == spec_strs(v).push(x@),
{
    assert(spec_strs(v.push(x)) =~= spec_strs(v).push(x@));
}

proof fn lemma_clean_concat(a: Seq<Seq<char>>, b: Seq<Seq<char>>)
    ensures
        spec_clean_items(a + b) == spec_clean_items(a) + spec_clean_items(b),
    decreases b.len(),
{
    if b.len() == 0 {
        assert(a + b =~= a);
        assert(spec_clean_items(a) + spec_clean_items(b) =~= spec_clean_items(a));
    } else {
        assert((a + b).drop_last() =~= a + b.drop_last());
        lemma_clean_concat(a, b.drop_last());
        let item = spec_yaml_scalar(b.last());
        if item.len() != 0 {
            assert(spec_clean_items(a) + spec_clean_items(b) =~= (spec_clean_items(a) + spec_clean_items(b.drop_last())).push(item));
        }
    }
}

fn yaml_scalar(s: &[char]) -> (r: &[char])
    ensures
        r@ == spec_yaml_scalar(s@),
{
    trim_char(trim_char(trim(s), '"'), '\'')
}

fn push_item(out: &mut Vec<String>, piece: &[char])
    ensures
        spec_strs(final(out)@) == spec_strs(old(out)@) + spec_clean_items(seq![piece@]),
{
    let item = yaml_scalar(piece);
    proof {
        assert(seq![piece@].drop_last() =~= Seq::<Seq<char>>::empty());
        assert(seq![piece@].last() == piece@);
        assert(spec_clean_items(Seq::<Seq<char>>::empty()) =~= Seq::<Seq<char>>::empty());
    }
    if item.len() > 0 {
        let ghost before = out@;
        out.push(string_of(item));
        proof {
            lemma_strs_push(before, out@.last());
            assert(out@ =~= before.push(out@.last()));
        }
    } else {
        assert(spec_strs(out@) + spec_clean_items(seq![piece@]) =~= spec_strs(out@));
    }
}

fn push_items(out: &mut Vec<String>, s: &[char])
    ensures
        spec_strs(final(out)@) == spec_strs(old(out)@) + spec_clean_items(spec_split_char(s@, ',')),
    decreases s@.len(),
{
    let sl = s.len();
    let comma = [','];
    proof {
        assert(comma@ =~= seq![',']);
    }
    match find_from(s, comma.as_slice(), 0) {
        None => {
            push_item(out, s);
        },
        Some(i) => {
            let ghost mid = out@;
            push_item(out, &s[0..i]);
            push_items(out, &s[i + 1..s.len()]);
            proof {
                assert(s@.take(i as int) == s@.subrange(0, i as int));
                assert(s@.skip(i + 1) == s@.subrange(i + 1, s@.len() as int));
                lemma_clean_concat(seq![s@.take(i as int)], spec_split_char(s@.skip(i + 1), ','));
                assert(spec_split_char(s@, ',') == seq![s@.take(i as int)] + spec_split_char(s@.skip(i + 1), ','));
            }
        },
    }
}

/// A list value (see [`spec_yaml_list`]).
fn yaml_list(val: &[char]) -> (r: Option<Vec<String>>)
    ensures
        match spec_yaml_list(val@) {
            None => r is None,
            Some(items) => r matches Some(v) && spec_strs(v@) == items,
        },
{
    if starts_with_str(val, "[") && ends_with_str(val, "]") {
        proof {
            reveal_strlit("[");
            reveal_strlit("]");
            assert(val@.take(1)[0] == val@[0]);
            assert(val@[0] == '[');
            assert(val@.skip(val@.len() - 1)[0] == val@[val@.len() - 1]);
            assert(val@[val@.len() - 1] == ']');
        }
        let mut out: Vec<String> = Vec::new();
        assert(spec_strs(out@) =~= Seq::<Seq<char>>::empty());
        push_items(&mut out, &val[1..val.len() - 1]);
        assert(spec_strs(out@) =~= spec_clean_items(spec_split_char(val@.subrange(1, val@.len() - 1), ',')));
        Some(out)
    } else if val.len() > 0 {
        let mut out: Vec<String> = Vec::new();
        out.push(string_of(val));
        assert(spec_strs(out@) =~= seq![val@]);
        Some(out)
    } else {
        None
    }
}

impl Default for OkfFrontmatter {
    fn default() -> (r: Self)
        ensures
            r@ == spec_default_frontmatter(),
    {
        let r = OkfFrontmatter {
            id: String::new(),
            doc_type: "concept".to_owned(),
            title: None,
            sources: Vec::new(),
            trust_tier: Some("verified".to_owned()),
            status: "active".to_owned(),
            stale_after: None,
            tags: Vec::new(),
        };
        assert(spec_strs(r.sources@) =~= Seq::<Seq<char>>::empty());
        assert(spec_strs(r.tags@) =~= Seq::<Seq<char>>::empty());
        r
    }
}

fn yaml_line(fm: &mut OkfFrontmatter, list: YamlList, l: &[char]) -> (r: YamlList)
    ensures
        final(fm)@ == spec_yaml_line(l@, old(fm)@, list).0,
        r == spec_yaml_line(l@, old(fm)@, list).1,
{
    let t = trim(l);
    if t.len() == 0 || starts_with_str(t, "#") {
        return list;
    }
    if starts_with_str(t, "-") {
        let item = yaml_scalar(trim_start_char(t, '-'));
        if item.len() == 0 {
            return list;
        }
        match list {
            YamlList::Sources => {
                let ghost before = fm.sources@;
                fm.sources.push(string_of(item));
                proof {
                    lemma_strs_push(before, fm.sources@.last());
                    assert(fm.sources@ =~= before.push(fm.sources@.last()));
                }
            },
            YamlList::Tags => {
                let ghost before = fm.tags@;
                fm.tags.push(string_of(item));
                proof {
                    lemma_strs_push(before, fm.tags@.last());
                    assert(fm.tags@ =~= before.push(fm.tags@.last()));
                }
            },
            YamlList::NoList => {},
        }
        return list;
    }
    let colon = [':'];
    assert(colon@ =~= seq![':']);
    let i = match find_from(t, colon.as_slice(), 0) {
        None => {
            return list;
        },
        Some(i) => i,
    };
    let key_text = string_of(trim(&t[0..i]));
    let key_lower = to_lowercase(key_text.as_str());
    let kc = chars_of(key_lower.as_str());
    let key = kc.as_slice();
    let val = yaml_scalar(&t[i + 1..t.len()]);
    assert(t@.take(i as int) == t@.subrange(0, i as int));
    assert(t@.skip(i + 1) == t@.subrange(i + 1, t@.len() as int));
    if equals_str(key, "id") || equals_str(key, "concept_id") {
        fm.id = string_of(val);
    } else if equals_str(key, "type") {
        fm.doc_type = string_of(val);
    } else if equals_str(key, "title") {
        fm.title = Some(string_of(val));
    } else if equals_str(key, "trust") || equals_str(key, "trust_tier") {
        fm.trust_tier = Some(string_of(val));
    } else if equals_str(key, "status") {
        fm.status = string_of(val);
    } else if equals_str(key, "stale_after") {
        fm.stale_after = Some(string_of(val));
    } else if equals_str(key, "sources") {
        match yaml_list(val) {
            Some(items) => {
                fm.sources = items;
            },
            None => {
                return YamlList::Sources;
            },
        }
    } else if equals_str(key, "tags") {
        match yaml_list(val) {
            Some(items) => {
                fm.tags = items;
            },
            None => {
                return YamlList::Tags;
            },
        }
    }
    YamlList::NoList
}

/// Reads front-matter metadata line by line (see [`spec_yaml_line`]), starting from the
/// defaults.
pub fn parse_simple_yaml(yaml: &str) -> (r: OkfFrontmatter)
    ensures
        r@ == spec_parse_yaml(yaml@),
{
    let c = chars_of(yaml);
    let n = c.len();
    let mut fm = OkfFrontmatter::default();
    let mut list = YamlList::NoList;
    let mut pos: usize = 0;
    while pos < n
        invariant
            pos <= n,
            n == c@.len(),
            c@ == yaml@,
            spec_yaml_from(c@, pos as int, fm@, list) == spec_parse_yaml(yaml@),
        decreases n - pos,
    {
        let (hi, next) = line_bounds(c.as_slice(), pos);
        let line = &c.as_slice()[pos..hi];
        let ghost st = (fm@, list);
        assert(line@ == spec_line_at(c@, pos as int));
        list = yaml_line(&mut fm, list, line);
        proof {
            lemma_line_end(c@, pos as int);
            let r = spec_yaml_line(spec_line_at(c@, pos as int), st.0, st.1);
            assert(spec_yaml_from(c@, spec_line_end(c@, pos as int) + 1, r.0, r.1) == spec_yaml_from(c@, next as int, r.0, r.1));
        }
        pos = next;
    }
    fm
}

/// Title found so far, whether a heading was seen, and the body text so far.
pub type TitleScan = (Seq<char>, bool, Seq<char>);

/// One Markdown line: the first line starting with `#` gives the title (the heading text
/// without its `#`s, trimmed); every other line goes to the body.
pub open spec fn spec_title_line(l: Seq<char>, st: TitleScan) -> TitleScan {
    let t = spec_trim(l);
    if !st.1 && spec_starts_with(t, "#"@) {
        (spec_trim(spec_trim_start_char(t, '#')), true, st.2)
    } else {
        (st.0, st.1, st.2 + l + seq!['\n'])
    }
}

/// The scan over the lines of `s` from position `pos` on.
pub open spec fn spec_title_from(s: Seq<char>, pos: int, st: TitleScan) -> TitleScan
    decreases s.len() + 1 - pos,
{
    if pos < 0 || pos >= s.len() {
        st
    } else {
        let r = spec_title_line(spec_line_at(s, pos), st);
        proof {
            lemma_line_end(s, pos);
        }
        spec_title_from(s, spec_line_end(s, pos) + 1, r)
    }
}

/// The title (`Untitled Concept` without a heading) and the trimmed body of a Markdown
/// text.
pub open spec fn spec_title_body(md: Seq<char>) -> (Seq<char>, Seq<char>) {
    let r = spec_title_from(md, 0, ("Untitled Concept"@, false, Seq::empty()));
    (r.0, spec_trim(r.2))
}

/// The lines of `s` from position `pos` on, each followed by a newline.
pub open spec fn spec_lines_from(s: Seq<char>, pos: int) -> Seq<char>
    decreases s.len() + 1 - pos,
{
    if pos < 0 || pos >= s.len() {
        Seq::empty()
    } else {
        proof {
            lemma_line_end(s, pos);
        }
        spec_line_at(s, pos) + seq!['\n'] + spec_lines_from(s, spec_line_end(s, pos) + 1)
    }
}

proof fn lemma_title_shift(p: Seq<char>, r: Seq<char>, i: int, st: TitleScan)
    requires
        0 <= i,
    ensures
        spec_title_from(p + r, p.len() + i, st) == spec_title_from(r, i, st),
    decreases r.len() + 1 - i,
{
    if i < r.len() {
        lemma_line_at_shift(p, r, i);
        lemma_line_end(r, i);
        lemma_title_shift(p, r, spec_line_end(r, i) + 1, spec_title_line(spec_line_at(r, i), st));
    }
}

proof fn lemma_title_after_heading(r: Seq<char>, i: int, title: Seq<char>, body: Seq<char>)
    requires
        0 <= i,
    ensures
        spec_title_from(r, i, (title, true, body)) == (title, true, body + spec_lines_from(r, i)),
    decreases r.len() + 1 - i,
{
    if i < r.len() {
        lemma_line_end(r, i);
        let l = spec_line_at(r, i);
        let next = spec_line_end(r, i) + 1;
        lemma_title_after_heading(r, next, title, body + l + seq!['\n']);
        assert(body + l + seq!['\n'] + spec_lines_from(r, next) =~= body + spec_lines_from(r, i));
    } else {
        assert(body + spec_lines_from(r, i) =~= body);
    }
}

/// Only the first heading gives the title: a text that opens with a heading line `h` has
/// the heading's text as its title, whatever follows, and every following line, later
/// headings included, goes to the body.
pub proof fn lemma_first_heading_is_title(h: Seq<char>, r: Seq<char>)
    requires
        forall|j: int| 0 <= j < h.len() ==> h[j] != '\n',
        h.len() > 0 && h.last() != '\r',
        spec_starts_with(spec_trim(h), "#"@),
    ensures
        spec_title_body(h + seq!['\n'] + r).0 == spec_trim(spec_trim_start_char(spec_trim(h), '#')),
        spec_title_body(h + seq!['\n'] + r).1 == spec_trim(spec_lines_from(r, 0)),
{
    let s = h + seq!['\n'] + r;
    let init: TitleScan = ("Untitled Concept"@, false, Seq::empty());
    lemma_head_line(h, r);
    lemma_line_end(s, 0);
    let st1 = spec_title_line(h, init);
    assert(spec_title_from(s, 0, init) == spec_title_from(s, h.len() + 1int, st1));
    assert(s == (h + seq!['\n']) + r);
    lemma_title_shift(h + seq!['\n'], r, 0, st1);
    lemma_title_after_heading(r, 0, st1.0, st1.2);
    assert(st1.2 + spec_lines_from(r, 0) =~= spec_lines_from(r, 0));
}

/// The `[[link]]` targets of `s` from position `pos` on, trimmed, empty ones dropped.
pub open spec fn spec_links_from(s: Seq<char>, pos: int) -> Seq<Seq<char>>
    decreases s.len() + 1 - pos,
{
    if pos < 0 {
        Seq::empty()
    } else {
        match spec_find_from(s, "[["@, pos) {
            None => Seq::empty(),
            Some(st) => match spec_find_from(s, "]]"@, st + 2) {
                None => Seq::empty(),
                Some(e) => {
                    proof {
                        reveal_strlit("[[");
                        reveal_strlit("]]");
                        lemma_find_from_bound(s, "[["@, pos);
                        lemma_find_from_bound(s, "]]"@, st + 2);
                    }
                    let link = spec_trim(s.subrange(st + 2, e));
                    (if link.len() > 0 {
                        seq![link]
                    } else {
                        Seq::<Seq<char>>::empty()
                    }) + spec_links_from(s, e + 2)
                },
            },
        }
    }
}

fn title_line(title: &mut String, found: &mut bool, body: &mut String, l: &[char])
    ensures
        (final(title)@, *final(found), final(body)@) == spec_title_line(l@, (old(title)@, *old(found), old(body)@)),
{
    let t = trim(l);
    if !*found && starts_with_str(t, "#") {
        *title = string_of(trim(trim_start_char(t, '#')));
        *found = true;
    } else {
        push_all(body, l);
        body.push('\n');
    }
}

/// The first `#` heading as title and the rest as body (see [`spec_title_body`]).
pub fn extract_title_and_body(markdown: &str) -> (r: (String, String))
    ensures
        r.0@ == spec_title_body(markdown@).0,
        r.1@ == spec_title_body(markdown@).1,
{
    let c = chars_of(markdown);
    let n = c.len();
    let mut title = "Untitled Concept".to_owned();
    let mut found = false;
    let mut body = String::new();
    let mut pos: usize = 0;
    while pos < n
        invariant
            pos <= n,
            n == c@.len(),
            c@ == markdown@,
            spec_title_from(c@, pos as int, (title@, found, body@)) == spec_title_from(
                markdown@,
                0,
                ("Untitled Concept"@, false, Seq::empty()),
            ),
        decreases n - pos,
    {
        let (hi, next) = line_bounds(c.as_slice(), pos);
        let line = &c.as_slice()[pos..hi];
        let ghost st = (title@, found, body@);
        assert(line@ == spec_line_at(c@, pos as int));
        title_line(&mut title, &mut found, &mut body, line);
        proof {
            lemma_line_end(c@, pos as int);
            let r = spec_title_line(spec_line_at(c@, pos as int), st);
            assert(spec_title_from(c@, spec_line_end(c@, pos as int) + 1, r) == spec_title_from(c@, next as int, r));
        }
        pos = next;
    }
    let bc = chars_of(body.as_str());
    let tb = trim(bc.as_slice());
    (title, string_of(tb))
}

/// The `[[link]]` targets of a text (see [`spec_links_from`]).
pub fn extract_wiki_links(text: &str) -> (r: Vec<String>)
    ensures
        spec_strs(r@) == spec_links_from(text@, 0),
{
    let c = chars_of(text);
    let s = c.as_slice();
    let open = chars_of("[[");
    let close = chars_of("]]");
    proof {
        reveal_strlit("[[");
        reveal_strlit("]]");
    }
    let mut links: Vec<String> = Vec::new();
    let mut pos: usize = 0;
    let sl = s.len();
    assert(spec_strs(links@) + spec_links_from(s@, 0) =~= spec_links_from(s@, 0));
    loop
        invariant
            sl == s@.len(),
            s@ == text@,
            open@ == "[["@,
            close@ == "]]"@,
            open@.len() == 2,
            close@.len() == 2,
            pos <= s@.len() + 2,
            spec_strs(links@) + spec_links_from(s@, pos as int) == spec_links_from(text@, 0),
        decreases s@.len() + 2 - pos,
    {
        let st = match find_from(s, open.as_slice(), pos) {
            None => {
                assert(spec_strs(links@) + spec_links_from(s@, pos as int) =~= spec_strs(links@));
                return links;
            },
            Some(st) => st,
        };
        let e = match find_from(s, close.as_slice(), st + 2) {
            None => {
                assert(spec_strs(links@) + spec_links_from(s@, pos as int) =~= spec_strs(links@));
                return links;
            },
            Some(e) => e,
        };
        let link = trim(&s[st + 2..e]);
        let ghost before = links@;
        let ghost item = if link@.len() > 0 { seq![link@] } else { Seq::<Seq<char>>::empty() };
        if link.len() > 0 {
            links.push(string_of(link));
            proof {
                lemma_strs_push(before, links@.last());
                assert(links@ =~= before.push(links@.last()));
            }
        }
        proof {
            assert(spec_links_from(s@, pos as int) == item + spec_links_from(s@, e + 2));
            assert(spec_strs(links@) =~= spec_strs(before) + item);
            assert(spec_strs(links@) + spec_links_from(s@, e + 2) =~= spec_strs(before) + (item + spec_links_from(s@, e + 2)));
        }
        pos = e + 2;
    }
}

/// A parsed concept document.
pub struct OkfConcept {
    pub frontmatter: OkfFrontmatter,
    pub title: String,
    pub body: String,
    pub wiki_links: Vec<String>,
}

/// Abstract concept.
#[verifier::ext_equal]
pub struct OkfConceptView {
    pub frontmatter: OkfFrontmatterView,
    pub title: Seq<char>,
    pub body: Seq<char>,
    pub wiki_links: Seq<Seq<char>>,
}

impl View for OkfConcept {
    type V = OkfConceptView;

    open spec fn view(&self) -> OkfConceptView {
        OkfConceptView {
            frontmatter: self.frontmatter@,
            title: self.title@,
            body: self.body@,
            wiki_links: spec_strs(self.wiki_links@),
        }
    }
}

/// The error text for a document whose front matter is never closed.
pub open spec fn spec_unclosed_message() -> Seq<char> {
    "Malformed OKF document: unclosed YAML frontmatter delimiter '---'"@
}

/// The concept a document describes, `None` when its front matter is not closed. Without
/// front matter (after leading white space the text does not start with `---`), the
/// metadata is the default with id `default_id` and the heading as title. Otherwise the
/// front matter runs up to the first `"\n---"`; an empty id becomes `default_id`; the
/// title is the front matter's, else the first heading; the body and the links come from
/// the text after the closing fence.
pub open spec fn spec_okf_parse(raw: Seq<char>, default_id: Seq<char>) -> Option<OkfConceptView> {
    let t = spec_trim_start(raw);
    if !spec_starts_with(t, "---"@) {
        let tb = spec_title_body(raw);
        Some(OkfConceptView {
            frontmatter: OkfFrontmatterView { id: default_id, title: Some(tb.0), ..spec_default_frontmatter() },
            title: tb.0,
            body: tb.1,
            wiki_links: spec_links_from(raw, 0),
        })
    } else {
        let after = t.skip(3);
        match spec_find_from(after, "\n---"@, 0) {
            None => None,
            Some(e) => {
                let yaml = spec_trim(after.take(e));
                let body_str = spec_trim_start(after.skip(e + 4));
                let fm0 = spec_parse_yaml(yaml);
                let fm = if fm0.id.len() == 0 {
                    OkfFrontmatterView { id: default_id, ..fm0 }
                } else {
                    fm0
                };
                let tb = spec_title_body(body_str);
                Some(OkfConceptView {
                    frontmatter: fm,
                    title: match fm.title {
                        Some(x) => x,
                        None => tb.0,
                    },
                    body: tb.1,
                    wiki_links: spec_links_from(body_str, 0),
                })
            },
        }
    }
}

/// A concept is active when its status is `active` in any ASCII letter case.
pub open spec fn spec_is_active(c: OkfConceptView) -> bool {
    spec_ascii_lower_seq(c.frontmatter.status) == "active"@
}

impl OkfConcept {
    /// Parses a concept document (see [`spec_okf_parse`]).
    pub fn parse(raw: &str, default_id: &str) -> (r: Result<Self, String>)
        ensures
            match spec_okf_parse(raw@, default_id@) {
                None => r matches Err(e) && e@ == spec_unclosed_message(),
                Some(v) => r matches Ok(c) && c@ == v,
            },
    {
        let rc = chars_of(raw);
        let a = skip_ws(rc.as_slice(), 0, rc.len());
        let t = &rc.as_slice()[a..rc.len()];
        if !starts_with_str(t, "---") {
            let (title, body) = extract_title_and_body(raw);
            let mut frontmatter = OkfFrontmatter::default();
            frontmatter.id = default_id.to_owned();
            frontmatter.title = Some(title.clone());
            return Ok(OkfConcept { frontmatter, title, body, wiki_links: extract_wiki_links(raw) });
        }
        proof {
            reveal_strlit("---");
            reveal_strlit("\n---");
        }
        let after = &t[3..t.len()];
        let fence = chars_of("\n---");
        let e = match find_from(after, fence.as_slice(), 0) {
            None => {
                return Err("Malformed OKF document: unclosed YAML frontmatter delimiter '---'".to_owned());
            },
            Some(e) => e,
        };
        let yaml = string_of(trim(&after[0..e]));
        let rest = &after[e + 4..after.len()];
        let b = skip_ws(rest, 0, rest.len());
        let body_str = string_of(&rest[b..rest.len()]);
        assert(after@.take(e as int) == after@.subrange(0, e as int));
        assert(after@.skip(e + 4) == rest@);
        let mut frontmatter = parse_simple_yaml(yaml.as_str());
        if frontmatter.id.as_str().is_empty() {
            frontmatter.id = default_id.to_owned();
        }
        let (extracted_title, body) = extract_title_and_body(body_str.as_str());
        let title = match &frontmatter.title {
            Some(x) => x.clone(),
            None => extracted_title,
        };
        let wiki_links = extract_wiki_links(body_str.as_str());
        Ok(OkfConcept { frontmatter, title, body, wiki_links })
    }

    /// Whether the concept's status is `active` (any ASCII letter case).
    pub fn is_active(&self) -> (r: bool)
        ensures
            r == spec_is_active(self@),
    {
        let c = chars_of(self.frontmatter.status.as_str());
        let l = ascii_lower_vec(c.as_slice());
        equals_str(l.as_slice(), "active")
    }
}

/// The views of a list of concepts.
pub open spec fn spec_concepts(v: Seq<OkfConcept>) -> Seq<OkfConceptView> {
    v.map_values(|c: OkfConcept| c@)
}

/// Index of the first concept with id `id`.
pub open spec fn spec_find_concept(cs: Seq<OkfConceptView>, id: Seq<char>) -> Option<int>
    decreases cs.len(),
{
    if cs.len() == 0 {
        None
    } else {
        match spec_find_concept(cs.drop_last(), id) {
            Some(i) => Some(i),
            None => if cs.last().frontmatter.id == id {
                Some(cs.len() - 1)
            } else {
                None
            },
        }
    }
}

/// The catalog line of a concept: linked title, type and trust tier (`verified` when
/// unset).
pub open spec fn spec_outline_entry(c: OkfConceptView) -> Seq<char> {
    "- **["@ + c.title + "]("@ + c.frontmatter.id + ")** (`"@ + c.frontmatter.doc_type + "`): "@
        + match c.frontmatter.trust_tier {
        Some(t) => t,
        None => "verified"@,
    } + "\n"@
}

/// The catalog lines of the active concepts, in order.
pub open spec fn spec_outline_entries(cs: Seq<OkfConceptView>) -> Seq<char>
    decreases cs.len(),
{
    if cs.len() == 0 {
        Seq::empty()
    } else {
        spec_outline_entries(cs.drop_last()) + if spec_is_active(cs.last()) {
            spec_outline_entry(cs.last())
        } else {
            Seq::<char>::empty()
        }
    }
}

/// A bundle of concepts, kept in insertion order and keyed by their ids, with the ids of
/// the index concepts.
pub struct OkfBundleNavigator {
    pub concepts: Vec<OkfConcept>,
    pub root_indexes: Vec<String>,
}

proof fn lemma_find_concept_bound(cs: Seq<OkfConceptView>, id: Seq<char>)
    ensures
        spec_find_concept(cs, id) matches Some(i) ==> 0 <= i < cs.len() && cs[i].frontmatter.id == id,
        spec_find_concept(cs, id) is None ==> forall|j: int| 0 <= j < cs.len() ==> #[trigger] cs[j].frontmatter.id != id,
    decreases cs.len(),
{
    if cs.len() > 0 {
        lemma_find_concept_bound(cs.drop_last(), id);
        if spec_find_concept(cs.drop_last(), id) is None {
            assert forall|j: int| 0 <= j < cs.len() - 1 implies #[trigger] cs[j].frontmatter.id != id by {
                assert(cs.drop_last()[j] == cs[j]);
            }
        }
    }
}

proof fn lemma_find_concept_first(cs: Seq<OkfConceptView>, id: Seq<char>, i: int)
    requires
        0 <= i < cs.len(),
        cs[i].frontmatter.id == id,
        forall|j: int| 0 <= j < i ==> #[trigger] cs[j].frontmatter.id != id,
    ensures
        spec_find_concept(cs, id) == Some(i),
    decreases cs.len(),
{
    if i < cs.len() - 1 {
        let p = cs.drop_last();
        assert forall|j: int| 0 <= j < i implies #[trigger] p[j].frontmatter.id != id by {
            assert(p[j] == cs[j]);
        }
        lemma_find_concept_first(p, id, i);
    } else {
        lemma_find_concept_bound(cs.drop_last(), id);
        if spec_find_concept(cs.drop_last(), id) is Some {
            let k = spec_find_concept(cs.drop_last(), id)->0;
            assert(cs.drop_last()[k] == cs[k]);
        }
    }
}

impl OkfBundleNavigator {
    /// An empty bundle.
    pub fn new() -> (r: Self)
        ensures
            r.concepts@.len() == 0,
            r.root_indexes@.len() == 0,
    {
        OkfBundleNavigator { concepts: Vec::new(), root_indexes: Vec::new() }
    }

    /// Adds a concept under its id, replacing (in place) a concept with the same id; ids
    /// ending in `index`, and `root`, are also recorded as root indexes.
    pub fn insert_concept(&mut self, concept: OkfConcept)
        ensures
            ({
                let o = spec_concepts(old(self).concepts@);
                let n = spec_concepts(final(self).concepts@);
                match spec_find_concept(o, concept@.frontmatter.id) {
                    Some(i) => n == o.update(i, concept@),
                    None => n == o.push(concept@),
                }
            }),
            spec_strs(final(self).root_indexes@) == (if spec_ends_with(concept@.frontmatter.id, "index"@)
                || concept@.frontmatter.id == "root"@ {
                spec_strs(old(self).root_indexes@).push(concept@.frontmatter.id)
            } else {
                spec_strs(old(self).root_indexes@)
            }),
    {
        let ghost cv = concept@;
        let idc = chars_of(concept.frontmatter.id.as_str());
        let ids = idc.as_slice();
        if ends_with_str(ids, "index") || equals_str(ids, "root") {
            let ghost before = self.root_indexes@;
            self.root_indexes.push(concept.frontmatter.id.clone());
            proof {
                lemma_strs_push(before, self.root_indexes@.last());
                assert(self.root_indexes@ =~= before.push(self.root_indexes@.last()));
            }
        }
        let ghost o = spec_concepts(self.concepts@);
        proof {
            lemma_find_concept_bound(o, cv.frontmatter.id);
        }
        let n = self.concepts.len();
        let mut i: usize = 0;
        let ghost roots = self.root_indexes@;
        let ghost expected = if spec_ends_with(cv.frontmatter.id, "index"@) || cv.frontmatter.id == "root"@ {
            spec_strs(old(self).root_indexes@).push(cv.frontmatter.id)
        } else {
            spec_strs(old(self).root_indexes@)
        };
        assert(spec_strs(roots) == expected);
        while i < n
            invariant
                n == self.concepts@.len(),
                o == spec_concepts(self.concepts@),
                o == spec_concepts(old(self).concepts@),
                i <= n,
                idc@ == cv.frontmatter.id,
                ids@ == cv.frontmatter.id,
                self.root_indexes@ == roots,
                spec_strs(roots) == expected,
                expected == (if spec_ends_with(cv.frontmatter.id, "index"@) || cv.frontmatter.id == "root"@ {
                    spec_strs(old(self).root_indexes@).push(cv.frontmatter.id)
                } else {
                    spec_strs(old(self).root_indexes@)
                }),
                concept@ == cv,
                forall|j: int| 0 <= j < i ==> #[trigger] o[j].frontmatter.id != cv.frontmatter.id,
            decreases n - i,
        {
            let ec = chars_of(self.concepts[i].frontmatter.id.as_str());
            let same = ec.len() == ids.len() && crate::text::starts_with(ec.as_slice(), ids);
            proof {
                assert(o[i as int] == self.concepts@[i as int]@);
                if same {
                    assert(ec@ =~= ec@.take(ids@.len() as int));
                } else if ec@ == ids@ {
                    assert(ec@.take(ids@.len() as int) =~= ec@);
                }
            }
            if same {
                proof {
                    lemma_find_concept_first(o, cv.frontmatter.id, i as int);
                }
                self.concepts.set(i, concept);
                assert(spec_concepts(self.concepts@) =~= o.update(i as int, cv));
                return;
            }
            i += 1;
        }
        proof {
            if spec_find_concept(o, cv.frontmatter.id) is Some {
                let k = spec_find_concept(o, cv.frontmatter.id)->0;
                assert(o[k].frontmatter.id == cv.frontmatter.id);
            }
        }
        self.concepts.push(concept);
        assert(spec_concepts(self.concepts@) =~= o.push(cv));
    }

    /// The catalog of the active concepts: a heading, then one linked line per concept, in
    /// insertion order.
    pub fn get_progressive_outline(&self) -> (r: String)
        ensures
            r@ == "# Knowledge Bundle Catalog\n\n"@ + spec_outline_entries(spec_concepts(self.concepts@)),
    {
        let mut outline = String::new();
        push_str(&mut outline, "# Knowledge Bundle Catalog\n\n");
        let ghost head = outline@;
        let n = self.concepts.len();
        for i in 0..n
            invariant
                n == self.concepts@.len(),
                outline@ == head + spec_outline_entries(spec_concepts(self.concepts@).take(i as int)),
                head == "# Knowledge Bundle Catalog\n\n"@,
        {
            let c = &self.concepts[i];
            let ghost before = outline@;
            if c.is_active() {
                push_str(&mut outline, "- **[");
                push_str(&mut outline, c.title.as_str());
                push_str(&mut outline, "](");
                push_str(&mut outline, c.frontmatter.id.as_str());
                push_str(&mut outline, ")** (`");
                push_str(&mut outline, c.frontmatter.doc_type.as_str());
                push_str(&mut outline, "`): ");
                match &c.frontmatter.trust_tier {
                    Some(t) => push_str(&mut outline, t.as_str()),
                    None => push_str(&mut outline, "verified"),
                }
                push_str(&mut outline, "\n");
                assert(outline@ =~= before + spec_outline_entry(c@));
            }
            proof {
                let t = spec_concepts(self.concepts@).take(i + 1);
                assert(t.drop_last() =~= spec_concepts(self.concepts@).take(i as int));
                assert(t.last() == c@);
                assert(outline@ =~= head + spec_outline_entries(t));
            }
        }
        assert(spec_concepts(self.concepts@).take(n as int) =~= spec_concepts(self.concepts@));
        outline
    }

    /// The first concept with id `id`.
    pub fn get_concept(&self, id: &str) -> (r: Option<&OkfConcept>)
        ensures
            match spec_find_concept(spec_concepts(self.concepts@), id@) {
                None => r is None,
                Some(i) => r matches Some(c) && *c == self.concepts@[i],
            },
    {
        let ghost o = spec_concepts(self.concepts@);
        let idc = chars_of(id);
        let ids = idc.as_slice();
        let n = self.concepts.len();
        for i in 0..n
            invariant
                n == self.concepts@.len(),
                o == spec_concepts(self.concepts@),
                idc@ == id@,
                ids@ == id@,
                forall|j: int| 0 <= j < i ==> #[trigger] o[j].frontmatter.id != id@,
        {
            let ec = chars_of(self.concepts[i].frontmatter.id.as_str());
            let same = ec.len() == ids.len() && crate::text::starts_with(ec.as_slice(), ids);
            proof {
                assert(o[i as int] == self.concepts@[i as int]@);
                if same {
                    assert(ec@ =~= ec@.take(ids@.len() as int));
                } else if ec@ == ids@ {
                    assert(ec@.take(ids@.len() as int) =~= ec@);
                }
            }
            if same {
                proof {
                    lemma_find_concept_first(o, id@, i as int);
                }
                return Some(&self.concepts[i]);
            }
        }
        proof {
            lemma_find_concept_bound(o, id@);
            if spec_find_concept(o, id@) is Some {
                let k = spec_find_concept(o, id@)->0;
                assert(o[k].frontmatter.id == id@);
            }
        }
        None
    }
}

/// What is inserted can be looked up: after a concept is inserted into a bundle, looking
/// up its id gives that concept.
pub proof fn lemma_insert_then_get(o: Seq<OkfConceptView>, c: OkfConceptView)
    ensures
        ({
            let n = match spec_find_concept(o, c.frontmatter.id) {
                Some(i) => o.update(i, c),
                None => o.push(c),
            };
            spec_find_concept(n, c.frontmatter.id) matches Some(i) && n[i] == c
        }),
{
    let id = c.frontmatter.id;
    lemma_find_concept_bound(o, id);
    match spec_find_concept(o, id) {
        Some(i) => {
            let n = o.update(i, c);
            lemma_find_concept_first_of(o, id, i);
            assert forall|j: int| 0 <= j < i implies #[trigger] n[j].frontmatter.id != id by {
                assert(n[j] == o[j]);
            }
            lemma_find_concept_first(n, id, i);
        },
        None => {
            let n = o.push(c);
            assert forall|j: int| 0 <= j < o.len() implies #[trigger] n[j].frontmatter.id != id by {
                assert(n[j] == o[j]);
            }
            lemma_find_concept_first(n, id, o.len() as int);
        },
    }
}

/// On a navigator: once a concept has been inserted (as `insert_concept` leaves the
/// bundle), looking its id up (as `get_concept` does) finds exactly that concept.
pub proof fn lemma_navigator_insert_then_get(before: OkfBundleNavigator, after: OkfBundleNavigator, c: OkfConceptView)
    requires
        match spec_find_concept(spec_concepts(before.concepts@), c.frontmatter.id) {
            Some(i) => spec_concepts(after.concepts@) == spec_concepts(before.concepts@).update(i, c),
            None => spec_concepts(after.concepts@) == spec_concepts(before.concepts@).push(c),
        },
    ensures
        spec_find_concept(spec_concepts(after.concepts@), c.frontmatter.id) matches Some(i)
            && 0 <= i < after.concepts@.len() && after.concepts@[i]@ == c,
{
    let o = spec_concepts(before.concepts@);
    lemma_insert_then_get(o, c);
    lemma_find_concept_bound(spec_concepts(after.concepts@), c.frontmatter.id);
}

proof fn lemma_find_concept_first_of(cs: Seq<OkfConceptView>, id: Seq<char>, i: int)
    requires
        spec_find_concept(cs, id) == Some(i),
    ensures
        forall|j: int| 0 <= j < i ==> #[trigger] cs[j].frontmatter.id != id,
    decreases cs.len(),
{
    if cs.len() > 0 {
        let p = cs.drop_last();
        match spec_find_concept(p, id) {
            Some(k) => {
                lemma_find_concept_first_of(p, id, k);
                lemma_find_concept_bound(p, id);
                assert forall|j: int| 0 <= j < i implies #[trigger] cs[j].frontmatter.id != id by {
                    assert(p[j] == cs[j]);
                }
            },
            None => {
                lemma_find_concept_bound(p, id);
                assert(i == cs.len() - 1);
                assert forall|j: int| 0 <= j < i implies #[trigger] cs[j].frontmatter.id != id by {
                    assert(p[j] == cs[j]);
                }
            },
        }
    }
}

} // verus!
