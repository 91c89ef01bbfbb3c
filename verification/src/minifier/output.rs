//! Minifiers for test-runner logs and unified diffs: drop the noise, keep failures,
//! errors and changed lines.

use vstd::prelude::*;
use crate::schema::{json_parse, json_print_pretty, spec_json_parse, spec_json_print_pretty, JsonNode, JsonVal};
use crate::text::{
    chars_of, ends_with_str, lemma_line_end, line_bounds, push_all, push_str, spec_contains,
    spec_ends_with, spec_line_at, spec_line_end, spec_line_text_end, lemma_line_end_shift, lemma_line_end_in_text, lemma_line_at_shift, lemma_head_line, spec_starts_with, spec_trim, starts_with_str,
    contains_str, trim, push_decimal, spec_decimal,
};

verus! {

broadcast use vstd::string::group_string_axioms;

/// The line followed by a newline.
pub open spec fn spec_line_nl(l: Seq<char>) -> Seq<char> {
    l + seq!['\n']
}

/// Lines that open a block of failure details.
pub open spec fn spec_failure_header(t: Seq<char>) -> bool {
    spec_starts_with(t, "failures:"@) || spec_starts_with(t, "---- "@) || spec_starts_with(
        t,
        "FAIL "@,
    ) || spec_starts_with(t, "FAILED"@) || spec_contains(t, "FAILED"@)
}

/// Build and download progress lines.
pub open spec fn spec_progress_line(t: Seq<char>) -> bool {
    spec_starts_with(t, "Compiling "@) || spec_starts_with(t, "Downloaded "@) || spec_starts_with(
        t,
        "Updating "@,
    ) || spec_starts_with(t, "Fetching "@)
}

/// One line of a test log, with the "inside a failure block" flag: outside failure
/// blocks, passing-test and progress lines are dropped; every other line is kept; a
/// `test result:` line closes the block.
pub open spec fn spec_test_line(l: Seq<char>, in_failure: bool) -> (Seq<char>, bool) {
    let t = spec_trim(l);
    let f = in_failure || spec_failure_header(t);
    if !f && ((spec_starts_with(t, "test "@) && spec_ends_with(t, "... ok"@))
        || spec_progress_line(t)) {
        (Seq::empty(), f)
    } else {
        (spec_line_nl(l), if spec_starts_with(t, "test result:"@) { false } else { f })
    }
}

/// The minified log for the lines from `pos` on.
pub open spec fn spec_test_from(s: Seq<char>, pos: int, in_failure: bool) -> Seq<char>
    decreases s.len() + 1 - pos,
{
    if pos < 0 || pos >= s.len() {
        Seq::empty()
    } else {
        let r = spec_test_line(spec_line_at(s, pos), in_failure);
        proof {
            lemma_line_end(s, pos);
        }
        r.0 + spec_test_from(s, spec_line_end(s, pos) + 1, r.1)
    }
}

proof fn lemma_test_shift(p: Seq<char>, r: Seq<char>, i: int, f: bool)
    requires
        0 <= i,
    ensures
        spec_test_from(p + r, p.len() + i, f) == spec_test_from(r, i, f),
    decreases r.len() + 1 - i,
{
    if i < r.len() {
        lemma_line_at_shift(p, r, i);
        lemma_line_end(r, i);
        lemma_test_shift(p, r, spec_line_end(r, i) + 1, spec_test_line(spec_line_at(r, i), f).1);
    }
}

/// A `test result:` summary line (one that does not itself end like a passing test,
/// with `... ok`) is always kept, whatever came before it (inside or outside a failure
/// block), and it closes any failure block: the log after it is minified as if it
/// started there.
pub proof fn lemma_test_result_line_kept(l: Seq<char>, r: Seq<char>, in_failure: bool)
    requires
        forall|j: int| 0 <= j < l.len() ==> l[j] != '\n',
        l.len() > 0 && l.last() != '\r',
        spec_starts_with(spec_trim(l), "test result:"@),
        !spec_ends_with(spec_trim(l), "... ok"@),
    ensures
        spec_test_from(l + seq!['\n'] + r, 0, in_failure) == l + seq!['\n'] + spec_test_from(r, 0, false),
{
    reveal_strlit("test result:");
    reveal_strlit("test ");
    reveal_strlit("... ok");
    let s = l + seq!['\n'] + r;
    lemma_head_line(l, r);
    lemma_line_end(s, 0);
    let t = spec_trim(l);
    assert(t[0] == 't') by {
        assert(t.take(12)[0] == t[0]);
    }
    assert(!spec_progress_line(t)) by {
        reveal_strlit("Compiling ");
        reveal_strlit("Downloaded ");
        reveal_strlit("Updating ");
        reveal_strlit("Fetching ");
        if spec_starts_with(t, "Compiling "@) { assert(t.take(10)[0] == t[0]); }
        if spec_starts_with(t, "Downloaded "@) { assert(t.take(11)[0] == t[0]); }
        if spec_starts_with(t, "Updating "@) { assert(t.take(9)[0] == t[0]); }
        if spec_starts_with(t, "Fetching "@) { assert(t.take(9)[0] == t[0]); }
    }
    let st = spec_test_line(l, in_failure);
    assert(s == (l + seq!['\n']) + r);
    lemma_test_shift(l + seq!['\n'], r, 0, false);
}

/// Marker that stands for a run of collapsed context lines.
pub open spec fn spec_collapse_marker() -> Seq<char> {
    "  [... context collapsed ...]\n"@
}

/// One diff line, with the length of the current run of context lines (counted up to 4):
/// the first two context lines of a run are kept, the third becomes the marker, the rest
/// vanish; every other line is kept and ends the run.
pub open spec fn spec_diff_line(l: Seq<char>, run: int) -> (Seq<char>, int) {
    if l.len() > 0 && l[0] == ' ' {
        let n = if run < 4 {
            run + 1
        } else {
            4
        };
        (if n <= 2 {
            spec_line_nl(l)
        } else if n == 3 {
            spec_collapse_marker()
        } else {
            Seq::empty()
        }, n)
    } else {
        (spec_line_nl(l), 0)
    }
}

/// The minified diff for the lines from `pos` on.
pub open spec fn spec_diff_from(s: Seq<char>, pos: int, run: int) -> Seq<char>
    decreases s.len() + 1 - pos,
{
    if pos < 0 || pos >= s.len() {
        Seq::empty()
    } else {
        let r = spec_diff_line(spec_line_at(s, pos), run);
        proof {
            lemma_line_end(s, pos);
        }
        r.0 + spec_diff_from(s, spec_line_end(s, pos) + 1, r.1)
    }
}

fn emit(out: &mut String, l: &[char])
    ensures
        final(out)@ == old(out)@ + spec_line_nl(l@),
{
    push_all(out, l);
    out.push('\n');
}

fn failure_header(t: &[char]) -> (r: bool)
    ensures
        r == spec_failure_header(t@),
{
    starts_with_str(t, "failures:") || starts_with_str(t, "---- ") || starts_with_str(t, "FAIL ")
        || starts_with_str(t, "FAILED") || contains_str(t, "FAILED")
}

fn progress_line(t: &[char]) -> (r: bool)
    ensures
        r == spec_progress_line(t@),
{
    starts_with_str(t, "Compiling ") || starts_with_str(t, "Downloaded ") || starts_with_str(
        t,
        "Updating ",
    ) || starts_with_str(t, "Fetching ")
}

fn test_line(out: &mut String, l: &[char], in_failure: bool) -> (r: bool)
    ensures
        final(out)@ == old(out)@ + spec_test_line(l@, in_failure).0,
        r == spec_test_line(l@, in_failure).1,
{
    let t = trim(l);
    let f = in_failure || failure_header(t);
    if !f && ((starts_with_str(t, "test ") && ends_with_str(t, "... ok")) || progress_line(t)) {
        assert(out@ =~= old(out)@ + Seq::<char>::empty());
        return f;
    }
    emit(out, l);
    if starts_with_str(t, "test result:") {
        false
    } else {
        f
    }
}

/// Minifies test-runner output (`cargo test`, `pytest`, `npm test`): passing tests and
/// build progress are dropped outside failure blocks; failures, panics and the result
/// line are kept.
pub fn minify_test_output(raw: &str) -> (out: String)
    ensures
        out@ == spec_test_from(raw@, 0, false),
{
    let c = chars_of(raw);
    let n = c.len();
    let mut out = String::new();
    let mut pos: usize = 0;
    let mut in_failure = false;
    assert(out@ + spec_test_from(c@, 0, false) =~= spec_test_from(c@, 0, false));
    while pos < n
        invariant
            pos <= n,
            n == c@.len(),
            c@ == raw@,
            out@ + spec_test_from(c@, pos as int, in_failure) == spec_test_from(raw@, 0, false),
        decreases n - pos,
    {
        let (hi, next) = line_bounds(c.as_slice(), pos);
        let line = &c.as_slice()[pos..hi];
        let ghost before = out@;
        let ghost st = in_failure;
        assert(line@ == spec_line_at(c@, pos as int));
        let f = test_line(&mut out, line, in_failure);
        proof {
            lemma_line_end(c@, pos as int);
            let r = spec_test_line(spec_line_at(c@, pos as int), st);
            assert(spec_test_from(c@, spec_line_end(c@, pos as int) + 1, r.1) == spec_test_from(c@, next as int, r.1));
            assert(before + (r.0 + spec_test_from(c@, next as int, r.1)) =~= out@ + spec_test_from(c@, next as int, r.1));
        }
        in_failure = f;
        pos = next;
    }
    assert(out@ + spec_test_from(c@, pos as int, in_failure) =~= out@);
    out
}

fn diff_line(out: &mut String, l: &[char], run: u8) -> (r: u8)
    requires
        run <= 4,
    ensures
        r <= 4,
        final(out)@ == old(out)@ + spec_diff_line(l@, run as int).0,
        r as int == spec_diff_line(l@, run as int).1,
{
    if l.len() > 0 && l[0] == ' ' {
        let n = if run < 4 {
            run + 1
        } else {
            4
        };
        if n <= 2 {
            emit(out, l);
        } else if n == 3 {
            push_str(out, "  [... context collapsed ...]\n");
        } else {
            assert(out@ =~= old(out)@ + Seq::<char>::empty());
        }
        n
    } else {
        emit(out, l);
        0
    }
}

/// Minifies a unified diff: of each run of unchanged context lines only the first two are
/// kept, followed by one collapse marker.
pub fn minify_git_diff(raw: &str) -> (out: String)
    ensures
        out@ == spec_diff_from(raw@, 0, 0),
{
    let c = chars_of(raw);
    let n = c.len();
    let mut out = String::new();
    let mut pos: usize = 0;
    let mut run: u8 = 0;
    assert(out@ + spec_diff_from(c@, 0, 0) =~= spec_diff_from(c@, 0, 0));
    while pos < n
        invariant
            pos <= n,
            n == c@.len(),
            c@ == raw@,
            run <= 4,
            out@ + spec_diff_from(c@, pos as int, run as int) == spec_diff_from(raw@, 0, 0),
        decreases n - pos,
    {
        let (hi, next) = line_bounds(c.as_slice(), pos);
        let line = &c.as_slice()[pos..hi];
        let ghost before = out@;
        let ghost st = run as int;
        assert(line@ == spec_line_at(c@, pos as int));
        let r2 = diff_line(&mut out, line, run);
        proof {
            lemma_line_end(c@, pos as int);
            let r = spec_diff_line(spec_line_at(c@, pos as int), st);
            assert(spec_diff_from(c@, spec_line_end(c@, pos as int) + 1, r.1) == spec_diff_from(c@, next as int, r.1));
            assert(before + (r.0 + spec_diff_from(c@, next as int, r.1)) =~= out@ + spec_diff_from(c@, next as int, r.1));
        }
        run = r2;
        pos = next;
    }
    assert(out@ + spec_diff_from(c@, pos as int, run as int) =~= out@);
    out
}


/// Whether every line that the diff minifier copies, from the line at `pos` on with `run`
/// context lines before it, does not end with a carriage return (which `str::lines`
/// would strip when the output is read again).
pub open spec fn spec_diff_copies_no_cr(s: Seq<char>, pos: int, run: int) -> bool
    decreases s.len() + 1 - pos,
{
    if pos < 0 || pos >= s.len() {
        true
    } else {
        let t = spec_line_at(s, pos);
        let r = spec_diff_line(t, run);
        proof {
            lemma_line_end(s, pos);
        }
        (r.0 != spec_line_nl(t) || t.len() == 0 || t.last() != '\r')
            && spec_diff_copies_no_cr(s, spec_line_end(s, pos) + 1, r.1)
    }
}

/// The run count that the second reading of the minified output has where the first
/// reading had `run`: a collapsed run shows as its two lines and the marker.
pub open spec fn spec_shown_run(run: int) -> int {
    if run < 3 {
        run
    } else {
        3
    }
}


proof fn lemma_diff_shift(p: Seq<char>, r: Seq<char>, i: int, run: int)
    requires
        0 <= i,
    ensures
        spec_diff_from(p + r, p.len() + i, run) == spec_diff_from(r, i, run),
    decreases r.len() + 1 - i,
{
    if i < r.len() {
        lemma_line_end_shift(p, r, i);
        lemma_line_end(r, i);
        let e = spec_line_end(r, i);
        if e < r.len() && e > i {
            assert((p + r)[p.len() + e - 1] == r[e - 1]);
        }
        assert(spec_line_text_end(p + r, p.len() + i) == p.len() + spec_line_text_end(r, i));
        assert(spec_line_at(p + r, p.len() + i) =~= spec_line_at(r, i));
        let d = spec_diff_line(spec_line_at(r, i), run);
        lemma_diff_shift(p, r, e + 1, d.1);
    }
}


proof fn lemma_diff_head_line(t: Seq<char>, r: Seq<char>, run: int)
    requires
        forall|j: int| 0 <= j < t.len() ==> t[j] != '\n',
        t.len() == 0 || t.last() != '\r',
    ensures
        spec_diff_from(spec_line_nl(t) + r, 0, run) == spec_diff_line(t, run).0 + spec_diff_from(
            r,
            0,
            spec_diff_line(t, run).1,
        ),
{
    let s = spec_line_nl(t) + r;
    assert(s =~= t + seq!['\n'] + r);
    lemma_line_end_in_text(t, r, 0);
    if t.len() > 0 {
        assert(s[t.len() - 1] == t.last());
    }
    assert(spec_line_at(s, 0) =~= t);
    let d = spec_diff_line(t, run);
    lemma_diff_shift(spec_line_nl(t), r, 0, d.1);
}

proof fn lemma_line_text_has_no_newline(s: Seq<char>, i: int, j: int)
    requires
        0 <= i <= j < spec_line_end(s, i),
    ensures
        s[j] != '\n',
    decreases j - i,
{
    if i < j {
        lemma_line_text_has_no_newline(s, i + 1, j);
    }
}

proof fn lemma_diff_again(s: Seq<char>, pos: int, run: int)
    requires
        0 <= pos,
        0 <= run <= 4,
        spec_diff_copies_no_cr(s, pos, run),
    ensures
        spec_diff_from(spec_diff_from(s, pos, run), 0, spec_shown_run(run)) == spec_diff_from(s, pos, run),
    decreases s.len() + 1 - pos,
{
    if pos < s.len() {
        lemma_line_end(s, pos);
        let t = spec_line_at(s, pos);
        let d = spec_diff_line(t, run);
        let rest = spec_diff_from(s, spec_line_end(s, pos) + 1, d.1);
        lemma_diff_again(s, spec_line_end(s, pos) + 1, d.1);
        assert forall|j: int| 0 <= j < t.len() implies t[j] != '\n' by {
            lemma_line_text_has_no_newline(s, pos, pos + j);
        }
        assert(spec_diff_from(s, pos, run) == d.0 + rest);
        if d.0 == spec_line_nl(t) {
            assert(t.len() == 0 || t.last() != '\r');
            lemma_diff_head_line(t, rest, spec_shown_run(run));
            assert(spec_diff_line(t, spec_shown_run(run)).0 == spec_line_nl(t));
            assert(spec_diff_line(t, spec_shown_run(run)).1 == spec_shown_run(d.1));
        } else if d.0.len() == 0 {
            reveal_strlit("  [... context collapsed ...]\n");
            assert(d.0 + rest =~= rest);
            assert(spec_shown_run(run) == spec_shown_run(d.1));
        } else {
            reveal_strlit("  [... context collapsed ...]\n");
            let m = spec_collapse_marker().drop_last();
            assert(spec_line_nl(m) =~= spec_collapse_marker());
            assert forall|j: int| 0 <= j < m.len() implies m[j] != '\n' by {}
            assert(d.0 == spec_collapse_marker());
            assert(run == 2);
            lemma_diff_head_line(m, rest, spec_shown_run(run));
            assert(m.len() > 0 && m[0] == ' ');
            assert(spec_diff_line(m, 2) == (spec_collapse_marker(), 3int));
        }
    }
}

/// Minifying a diff twice gives what minifying it once gives, as long as no line that is
/// copied ends with a carriage return (reading the output again would strip it).
pub proof fn lemma_git_diff_idempotent(s: Seq<char>)
    requires
        spec_diff_copies_no_cr(s, 0, 0),
    ensures
        spec_diff_from(spec_diff_from(s, 0, 0), 0, 0) == spec_diff_from(s, 0, 0),
{
    lemma_diff_again(s, 0, 0);
}

/// The note on a truncated array: `Showing first <max> of <n> items`.
pub open spec fn spec_truncation_note(max: usize, n: usize) -> Seq<char> {
    "Showing first "@ + spec_decimal(max as nat) + " of "@ + spec_decimal(n as nat) + " items"@
}

/// The summary of an array with elements `elems`: its length, its first `max` elements
/// and the truncation note.
pub open spec fn spec_json_summary(elems: Seq<JsonVal>, max: usize) -> JsonVal {
    JsonVal::Object(seq![
        ("_total_count"@, JsonVal::UInt(elems.len() as u64)),
        ("_truncated_sample"@, JsonVal::Array(elems.take(max as int))),
        ("_note"@, JsonVal::Str(spec_truncation_note(max, elems.len() as usize))),
    ])
}

/// The text to show for `raw`: a JSON array longer than `max` is replaced by its
/// pretty-printed summary; anything else is left as it is.
pub open spec fn spec_minify_json(raw: Seq<char>, max: usize) -> Seq<char> {
    match spec_json_parse(raw) {
        Some(JsonVal::Array(elems)) => if elems.len() > max {
            match spec_json_print_pretty(spec_json_summary(elems, max)) {
                Some(s) => s,
                None => raw,
            }
        } else {
            raw
        },
        _ => raw,
    }
}

/// A JSON array longer than `max_array_items` is replaced by a summary holding its length,
/// its first `max_array_items` elements and a note, printed by `serde_json`; any other text
/// is returned unchanged.
pub fn minify_json_payload(raw: &str, max_array_items: usize) -> (r: String)
    ensures
        r@ == spec_minify_json(raw@, max_array_items),
{
    let parsed = json_parse(raw);
    let ghost pv = parsed;
    match parsed {
        Some(JsonNode::Array(mut items)) => {
            let n = items.len();
            if n > max_array_items {
                let ghost whole = items@;
                items.truncate(max_array_items);
                let mut note = String::new();
                push_str(&mut note, "Showing first ");
                push_decimal(&mut note, max_array_items);
                push_str(&mut note, " of ");
                push_decimal(&mut note, n);
                push_str(&mut note, " items");
                proof {
                    reveal_strlit("Showing first ");
                    reveal_strlit(" of ");
                    reveal_strlit(" items");
                    assert(note@ =~= spec_truncation_note(max_array_items, n));
                }
                let ghost tv = items@;
                assert(tv =~= whole.take(max_array_items as int));
                let sample = JsonNode::Array(items);
                let mut members: Vec<(String, JsonNode)> = Vec::new();
                members.push(("_total_count".to_string(), JsonNode::UInt(n as u64)));
                members.push(("_truncated_sample".to_string(), sample));
                members.push(("_note".to_string(), JsonNode::Str(note)));
                let ghost mv = members@;

                let summary = JsonNode::Object(members);
                proof {
                    let ev = Seq::new(whole.len(), |k: int| whole[k]@);
                    let pa = pv.unwrap()@;
                    assert(pa->Array_0 =~= ev);
                    assert(spec_json_parse(raw@) == Some(JsonVal::Array(ev)));
                    let sv = summary@;
                    assert(mv[1].1 == sample);
                    assert(sample@->Array_0 =~= ev.take(max_array_items as int));
                    assert(sv->Object_0[1] == (mv[1].0@, sample@));
                    assert(mv[0].0@ == "_total_count"@);
                    assert(mv[1].0@ == "_truncated_sample"@);
                    assert(mv[2].0@ == "_note"@);
                    assert(mv.len() == 3);
                    assert(mv[0].1@ == JsonVal::UInt(n as u64));
                    assert(mv[2].1@ == JsonVal::Str(spec_truncation_note(max_array_items, n)));
                    assert(sv->Object_0[0] == (mv[0].0@, mv[0].1@));
                    assert(sv->Object_0[2] == (mv[2].0@, mv[2].1@));
                    assert(sv->Object_0[0] == ("_total_count"@, JsonVal::UInt(n as u64)));
                    assert(sv->Object_0[2] == ("_note"@, JsonVal::Str(spec_truncation_note(max_array_items, n))));
                    assert(sv->Object_0 =~= spec_json_summary(ev, max_array_items)->Object_0);
                }
                match json_print_pretty(&summary) {
                    Some(s) => s,
                    None => raw.to_string(),
                }
            } else {
                raw.to_string()
            }
        },
        _ => raw.to_string(),
    }
}

} // verus!
