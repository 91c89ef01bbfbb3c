//! Stop sequences in streamed generation: whether the text ends with a stop sequence, how
//! much of its tail could still grow into one (and must be held back), and the final
//! clean-up of the generated text.

use vstd::prelude::*;
use crate::text::{chars_of, ends_with, push_all, spec_ends_with, string_of};

verus! {

broadcast use vstd::string::group_string_axioms;

/// The views of a list of strings.
pub open spec fn spec_stop_views(v: Seq<String>) -> Seq<Seq<char>> {
    v.map_values(|s: String| s@)
}

/// UTF-8 byte length of a text.
pub open spec fn spec_byte_len(s: Seq<char>) -> int {
    vstd::utf8::encode_utf8(s).len() as usize as int
}

/// The byte length of the first non-empty stop sequence that `text` ends with.
pub open spec fn spec_stop_suffix(text: Seq<char>, stops: Seq<Seq<char>>) -> Option<int>
    decreases stops.len(),
{
    if stops.len() == 0 {
        None
    } else if stops[0].len() > 0 && spec_ends_with(text, stops[0]) {
        Some(spec_byte_len(stops[0]))
    } else {
        spec_stop_suffix(text, stops.drop_first())
    }
}

/// The longest proper prefix of `st` (at most `len` characters) that `text` ends with.
pub open spec fn spec_prefix_tail(text: Seq<char>, st: Seq<char>, len: int) -> int
    decreases len,
{
    if len <= 0 {
        0
    } else if spec_ends_with(text, st.take(len)) {
        len
    } else {
        spec_prefix_tail(text, st, len - 1)
    }
}

/// How much of the end of `text` is a proper prefix of some stop sequence: the maximum
/// over the stop sequences.
pub open spec fn spec_hold_back(text: Seq<char>, stops: Seq<Seq<char>>) -> int
    decreases stops.len(),
{
    if stops.len() == 0 {
        0
    } else {
        let rest = spec_hold_back(text, stops.drop_last());
        let st = stops.last();
        let m = if st.len() == 0 {
            0
        } else {
            spec_prefix_tail(
                text,
                st,
                if st.len() - 1 < text.len() {
                    st.len() - 1
                } else {
                    text.len() as int
                },
            )
        };
        if m > rest {
            m
        } else {
            rest
        }
    }
}

fn prefix_tail(t: &[char], s: &[char], check_len: usize) -> (r: usize)
    requires
        check_len < s@.len(),
    ensures
        r == spec_prefix_tail(t@, s@, check_len as int),
        r <= check_len,
{
    let mut len = check_len;
    while len > 0
        invariant
            len <= check_len,
            check_len < s@.len(),
            spec_prefix_tail(t@, s@, check_len as int) == spec_prefix_tail(t@, s@, len as int),
        decreases len,
    {
        assert(s@.subrange(0, len as int) == s@.take(len as int));
        if ends_with(t, &s[0..len]) {
            return len;
        }
        len -= 1;
    }
    0
}

/// If `text` ends with a (non-empty) stop sequence, the byte length of the first such
/// sequence in `stop_tokens`.
pub fn matches_any_stop_suffix(text: &str, stop_tokens: &[String]) -> (r: Option<usize>)
    ensures
        match spec_stop_suffix(text@, spec_stop_views(stop_tokens@)) {
            None => r is None,
            Some(n) => r == Some(n as usize),
        },
{
    let tc = chars_of(text);
    let n = stop_tokens.len();
    let ghost all = spec_stop_views(stop_tokens@);
    assert(all.skip(0) =~= all);
    for i in 0..n
        invariant
            n == stop_tokens@.len(),
            all == spec_stop_views(stop_tokens@),
            tc@ == text@,
            spec_stop_suffix(text@, all) == spec_stop_suffix(text@, all.skip(i as int)),
    {
        let st = stop_tokens[i].as_str();
        let sc = chars_of(st);
        proof {
            assert(all.skip(i as int)[0] == st@);
            assert(all.skip(i as int).drop_first() =~= all.skip(i + 1));
        }
        if sc.len() > 0 && ends_with(tc.as_slice(), sc.as_slice()) {
            return Some(st.len());
        }
    }
    assert(all.skip(n as int) =~= Seq::<Seq<char>>::empty());
    None
}

/// How many characters at the end of `t` could still grow into a stop sequence (see
/// [`spec_hold_back`]).
fn hold_back_chars(t: &[char], stop_tokens: &[String]) -> (r: usize)
    ensures
        r == spec_hold_back(t@, spec_stop_views(stop_tokens@)),
        r <= t@.len(),
{
    let mut max_match: usize = 0;
    let n = stop_tokens.len();
    let ghost all = spec_stop_views(stop_tokens@);
    for i in 0..n
        invariant
            n == stop_tokens@.len(),
            all == spec_stop_views(stop_tokens@),
            max_match == spec_hold_back(t@, all.take(i as int)),
            max_match <= t@.len(),
    {
        let sc = chars_of(stop_tokens[i].as_str());
        let s = sc.as_slice();
        proof {
            let tk = all.take(i + 1);
            assert(tk.drop_last() =~= all.take(i as int));
            assert(tk.last() == s@);
        }
        if s.len() > 0 {
            let check_len = if s.len() - 1 < t.len() {
                s.len() - 1
            } else {
                t.len()
            };
            let found = prefix_tail(t, s, check_len);
            if found > max_match {
                max_match = found;
            }
        }
    }
    assert(all.take(n as int) =~= all);
    max_match
}

/// The number of bytes at the end of `text` that could still grow into a stop sequence:
/// the UTF-8 length of the last [`spec_hold_back`] characters. Whenever every stop
/// sequence can be cut at the byte counts a byte-wise scan tries, this is the longest
/// proper prefix of a stop sequence that `text` ends with, in bytes; the scan goes by
/// whole characters, so no stop sequence is ever cut inside a character.
pub fn longest_stop_prefix_len(text: &str, stop_tokens: &[String]) -> (r: usize)
    ensures
        r == spec_byte_len(text@.skip(text@.len() - spec_hold_back(text@, spec_stop_views(stop_tokens@)))),
{
    let tc = chars_of(text);
    let t = tc.as_slice();
    let h = hold_back_chars(t, stop_tokens);
    let tail = string_of(&t[t.len() - h..t.len()]);
    proof {
        assert(t@.subrange(t@.len() - h, t@.len() as int) =~= text@.skip(text@.len() - h));
    }
    tail.as_str().len()
}

/// The first non-empty stop sequence that `text` ends with.
pub open spec fn spec_stop_match(text: Seq<char>, stops: Seq<Seq<char>>) -> Option<Seq<char>>
    decreases stops.len(),
{
    if stops.len() == 0 {
        None
    } else if stops[0].len() > 0 && spec_ends_with(text, stops[0]) {
        Some(stops[0])
    } else {
        spec_stop_match(text, stops.drop_first())
    }
}

/// `text` with each stop sequence, in turn, removed from its end when it ends with it.
pub open spec fn spec_strip_stops(text: Seq<char>, stops: Seq<Seq<char>>) -> Seq<char>
    decreases stops.len(),
{
    if stops.len() == 0 {
        text
    } else {
        let t = spec_strip_stops(text, stops.drop_last());
        let st = stops.last();
        if st.len() > 0 && spec_ends_with(t, st) {
            t.take(t.len() - st.len())
        } else {
            t
        }
    }
}

/// Removes, for each stop sequence in turn, that sequence from the end of the text when the
/// text ends with it.
pub fn strip_stop_suffixes(text: &str, stop_tokens: &[String]) -> (r: String)
    ensures
        r@ == spec_strip_stops(text@, spec_stop_views(stop_tokens@)),
{
    let tc = chars_of(text);
    let mut cur: Vec<char> = tc;
    let n = stop_tokens.len();
    let ghost all = spec_stop_views(stop_tokens@);
    for i in 0..n
        invariant
            n == stop_tokens@.len(),
            all == spec_stop_views(stop_tokens@),
            cur@ == spec_strip_stops(text@, all.take(i as int)),
    {
        let sc = chars_of(stop_tokens[i].as_str());
        proof {
            let tk = all.take(i + 1);
            assert(tk.drop_last() =~= all.take(i as int));
            assert(tk.last() == sc@);
        }
        if sc.len() > 0 && ends_with(cur.as_slice(), sc.as_slice()) {
            let keep = cur.len() - sc.len();
            cur.truncate(keep);
            assert(cur@ =~= spec_strip_stops(text@, all.take(i + 1)));
        }
    }
    assert(all.take(n as int) =~= all);
    let mut r = String::new();
    push_all(&mut r, cur.as_slice());
    r
}

/// How a pending stretch of streamed text is split.
pub struct StreamCut {
    /// Text that can be shown now.
    pub emit: String,
    /// Text held back until more arrives.
    pub keep: String,
    /// A stop sequence was reached (it is dropped) and generation ends.
    pub stop: bool,
}

/// The split of pending text: when it ends with a stop sequence, everything before the
/// sequence is emitted and generation stops; otherwise the longest tail that could still
/// grow into a stop sequence is held back and the rest emitted.
pub open spec fn spec_stream_cut(pending: Seq<char>, stops: Seq<Seq<char>>) -> (Seq<char>, Seq<char>, bool) {
    match spec_stop_match(pending, stops) {
        Some(st) => (pending.take(pending.len() - st.len()), Seq::empty(), true),
        None => {
            let h = spec_hold_back(pending, stops);
            (pending.take(pending.len() - h), pending.skip(pending.len() - h), false)
        },
    }
}

proof fn lemma_hold_back_bound(text: Seq<char>, stops: Seq<Seq<char>>)
    ensures
        0 <= spec_hold_back(text, stops) <= text.len(),
    decreases stops.len(),
{
    if stops.len() > 0 {
        lemma_hold_back_bound(text, stops.drop_last());
        let st = stops.last();
        if st.len() > 0 {
            let l = if st.len() - 1 < text.len() { st.len() - 1 } else { text.len() as int };
            lemma_prefix_tail_bound(text, st, l);
        }
    }
}

proof fn lemma_prefix_tail_bound(text: Seq<char>, st: Seq<char>, len: int)
    ensures
        0 <= spec_prefix_tail(text, st, len) <= (if len > 0 { len } else { 0 }),
    decreases len,
{
    if len > 0 {
        lemma_prefix_tail_bound(text, st, len - 1);
    }
}

proof fn lemma_stop_match_is_a_suffix(text: Seq<char>, stops: Seq<Seq<char>>)
    ensures
        spec_stop_match(text, stops) matches Some(st) ==> (st.len() > 0 && spec_ends_with(text, st)),
    decreases stops.len(),
{
    if stops.len() > 0 {
        lemma_stop_match_is_a_suffix(text, stops.drop_first());
    }
}

/// Cutting pending text loses nothing but a reached stop sequence: without a stop, what
/// is emitted followed by what is held back is the pending text; at a stop, nothing is
/// held back and what is emitted followed by the stop sequence is the pending text.
pub proof fn lemma_stream_cut_keeps_the_text(pending: Seq<char>, stops: Seq<Seq<char>>)
    ensures
        !spec_stream_cut(pending, stops).2 ==> spec_stream_cut(pending, stops).0 + spec_stream_cut(pending, stops).1 == pending,
        spec_stream_cut(pending, stops).2 ==> spec_stream_cut(pending, stops).1.len() == 0,
        spec_stream_cut(pending, stops).2 ==> (spec_stop_match(pending, stops) matches Some(st)
            && spec_stream_cut(pending, stops).0 + st == pending),
{
    lemma_hold_back_bound(pending, stops);
    lemma_stop_match_is_a_suffix(pending, stops);
    let c = spec_stream_cut(pending, stops);
    match spec_stop_match(pending, stops) {
        Some(st) => {
            assert(c.0 + st =~= pending);
        },
        None => {
            assert(c.0 + c.1 =~= pending);
        },
    }
}

fn stop_match(text: &[char], stop_tokens: &[String]) -> (r: Option<usize>)
    ensures
        match spec_stop_match(text@, spec_stop_views(stop_tokens@)) {
            None => r is None,
            Some(st) => r == Some(st.len() as usize) && st.len() <= text@.len(),
        },
{
    let n = stop_tokens.len();
    let ghost all = spec_stop_views(stop_tokens@);
    assert(all.skip(0) =~= all);
    for i in 0..n
        invariant
            n == stop_tokens@.len(),
            all == spec_stop_views(stop_tokens@),
            spec_stop_match(text@, all) == spec_stop_match(text@, all.skip(i as int)),
    {
        let sc = chars_of(stop_tokens[i].as_str());
        proof {
            assert(all.skip(i as int)[0] == sc@);
            assert(all.skip(i as int).drop_first() =~= all.skip(i + 1));
        }
        if sc.len() > 0 && ends_with(text, sc.as_slice()) {
            return Some(sc.len());
        }
    }
    assert(all.skip(n as int) =~= Seq::<Seq<char>>::empty());
    None
}

/// Splits pending streamed text (see [`spec_stream_cut`]); the held-back tail is counted
/// in whole characters.
pub fn cut_pending(pending: &str, stop_tokens: &[String]) -> (r: StreamCut)
    ensures
        (r.emit@, r.keep@, r.stop) == spec_stream_cut(pending@, spec_stop_views(stop_tokens@)),
{
    let pc = chars_of(pending);
    let p = pc.as_slice();
    match stop_match(p, stop_tokens) {
        Some(m) => {
            let mut emit = String::new();
            push_all(&mut emit, &p[0..p.len() - m]);
            assert(p@.subrange(0, p@.len() - m) =~= p@.take(p@.len() - m));
            StreamCut { emit, keep: String::new(), stop: true }
        },
        None => {
            let h = hold_back_chars(p, stop_tokens);
            let cut = p.len() - h;
            let mut emit = String::new();
            push_all(&mut emit, &p[0..cut]);
            let mut keep = String::new();
            push_all(&mut keep, &p[cut..p.len()]);
            assert(p@.subrange(0, cut as int) =~= p@.take(cut as int));
            assert(p@.subrange(cut as int, p@.len() as int) =~= p@.skip(cut as int));
            StreamCut { emit, keep, stop: false }
        },
    }
}

} // verus!
