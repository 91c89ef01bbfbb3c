//! Character-level text primitives shared by the parsers and minifiers.
//!
//! Strings are handled as sequences of Unicode scalar values (`char`), which is
//! how Verus views `str` and `String`.

use vstd::prelude::*;

verus! {

broadcast use vstd::string::group_string_axioms;

/// `String::push` appends one character to the end of the string.
pub assume_specification[ std::string::String::push ](s: &mut std::string::String, ch: char)
    ensures
        final(s)@ == old(s)@.push(ch),
;

/// Unicode `White_Space` property, as tested by `char::is_whitespace`.
pub open spec fn spec_is_whitespace(c: char) -> bool {
    let u = c as u32;
    (9 <= u && u <= 13) || u == 32 || u == 0x85 || u == 0xA0 || u == 0x1680 || (0x2000 <= u
        && u <= 0x200A) || u == 0x2028 || u == 0x2029 || u == 0x202F || u == 0x205F || u == 0x3000
}

/// Unicode general category `Cc`, as tested by `char::is_control`.
pub open spec fn spec_is_control(c: char) -> bool {
    let u = c as u32;
    u <= 0x1F || (0x7F <= u && u <= 0x9F)
}

/// Whether `c` is white space (same set as `char::is_whitespace`).
pub fn is_whitespace(c: char) -> (r: bool)
    ensures
        r == spec_is_whitespace(c),
{
    let u = c as u32;
    (9 <= u && u <= 13) || u == 32 || u == 0x85 || u == 0xA0 || u == 0x1680 || (0x2000 <= u
        && u <= 0x200A) || u == 0x2028 || u == 0x2029 || u == 0x202F || u == 0x205F || u == 0x3000
}

/// Whether `c` is a control character (same set as `char::is_control`).
pub fn is_control(c: char) -> (r: bool)
    ensures
        r == spec_is_control(c),
{
    let u = c as u32;
    u <= 0x1F || (0x7F <= u && u <= 0x9F)
}

/// ASCII lower-casing of one character (`char::to_ascii_lowercase`).
pub open spec fn spec_ascii_lower(c: char) -> char {
    if 'A' <= c && c <= 'Z' {
        ((c as u32) + 32) as char
    } else {
        c
    }
}

/// ASCII lower-casing of one character.
pub fn ascii_lower(c: char) -> (r: char)
    ensures
        r == spec_ascii_lower(c),
{
    if 'A' <= c && c <= 'Z' {
        ((c as u8) + 32) as char
    } else {
        c
    }
}

/// ASCII lower-casing of a whole sequence (`str::to_ascii_lowercase`).
pub open spec fn spec_ascii_lower_seq(s: Seq<char>) -> Seq<char> {
    Seq::new(s.len(), |i: int| spec_ascii_lower(s[i]))
}

/// `p` is a prefix of `s`.
pub open spec fn spec_starts_with(s: Seq<char>, p: Seq<char>) -> bool {
    p.len() <= s.len() && s.take(p.len() as int) == p
}

/// `p` is a suffix of `s`.
pub open spec fn spec_ends_with(s: Seq<char>, p: Seq<char>) -> bool {
    p.len() <= s.len() && s.skip(s.len() - p.len()) == p
}

/// `p` occurs in `s` starting at index `i`.
pub open spec fn spec_occurs_at(s: Seq<char>, p: Seq<char>, i: int) -> bool {
    0 <= i && i + p.len() <= s.len() && s.subrange(i, i + p.len()) == p
}

/// `p` occurs somewhere in `s`.
pub open spec fn spec_contains(s: Seq<char>, p: Seq<char>) -> bool {
    exists|i: int| spec_occurs_at(s, p, i)
}

/// Index of the first occurrence of `p` in `s` at or after `from`.
pub open spec fn spec_find_from(s: Seq<char>, p: Seq<char>, from: int) -> Option<int>
    decreases s.len() + 1 - from,
{
    if from < 0 || from + p.len() > s.len() {
        None
    } else if spec_occurs_at(s, p, from) {
        Some(from)
    } else {
        spec_find_from(s, p, from + 1)
    }
}

/// Index of the last occurrence of `p` in `s` that starts strictly before `upto`.
pub open spec fn spec_rfind_before(s: Seq<char>, p: Seq<char>, upto: int) -> Option<int>
    decreases upto,
{
    if upto <= 0 {
        None
    } else if spec_occurs_at(s, p, upto - 1) {
        Some(upto - 1)
    } else {
        spec_rfind_before(s, p, upto - 1)
    }
}

/// Index of the last occurrence of `p` in `s`.
pub open spec fn spec_rfind(s: Seq<char>, p: Seq<char>) -> Option<int> {
    spec_rfind_before(s, p, s.len() + 1int)
}

/// Number of occurrences of `c` in `s`.
pub open spec fn spec_count_char(s: Seq<char>, c: char) -> nat
    decreases s.len(),
{
    if s.len() == 0 {
        0
    } else {
        spec_count_char(s.drop_last(), c) + if s.last() == c {
            1nat
        } else {
            0nat
        }
    }
}

/// First index `>= i` (and `<= hi`) whose character is not white space.
pub open spec fn spec_skip_ws(s: Seq<char>, i: int, hi: int) -> int
    decreases hi - i,
{
    if i < hi && 0 <= i < s.len() && spec_is_whitespace(s[i]) {
        spec_skip_ws(s, i + 1, hi)
    } else {
        i
    }
}

/// Last end `<= j` (and `>= lo`) such that the character before it is not white space.
pub open spec fn spec_back_ws(s: Seq<char>, lo: int, j: int) -> int
    decreases j - lo,
{
    if j > lo && 0 <= j - 1 < s.len() && spec_is_whitespace(s[j - 1]) {
        spec_back_ws(s, lo, j - 1)
    } else {
        j
    }
}

/// `str::trim_start` on the whole sequence.
pub open spec fn spec_trim_start(s: Seq<char>) -> Seq<char> {
    s.skip(spec_skip_ws(s, 0, s.len() as int))
}

/// `str::trim_end` on the whole sequence.
pub open spec fn spec_trim_end(s: Seq<char>) -> Seq<char> {
    s.take(spec_back_ws(s, 0, s.len() as int))
}

/// `str::trim` on the whole sequence.
pub open spec fn spec_trim(s: Seq<char>) -> Seq<char> {
    spec_trim_end(spec_trim_start(s))
}

/// Collects the characters of `s` into a vector.
pub fn chars_of(s: &str) -> (v: Vec<char>)
    ensures
        v@ == s@,
{
    let mut v: Vec<char> = Vec::new();
    for c in it: s.chars()
        invariant
            v@ == it.seq().take(it.index() as int),
    {
        v.push(c);
    }
    v
}

/// Appends the characters `s[lo..hi]` to `out`.
pub fn push_range(out: &mut String, s: &[char], lo: usize, hi: usize)
    requires
        lo <= hi <= s@.len(),
    ensures
        final(out)@ == old(out)@ + s@.subrange(lo as int, hi as int),
{
    let mut i = lo;
    while i < hi
        invariant
            lo <= i <= hi <= s@.len(),
            out@ == old(out)@ + s@.subrange(lo as int, i as int),
        decreases hi - i,
    {
        out.push(s[i]);
        assert(s@.subrange(lo as int, i + 1) == s@.subrange(lo as int, i as int).push(s@[i as int]));
        i += 1;
    }
}

/// Appends all characters of `s` to `out`.
pub fn push_all(out: &mut String, s: &[char])
    ensures
        final(out)@ == old(out)@ + s@,
{
    push_range(out, s, 0, s.len());
    assert(s@.subrange(0, s@.len() as int) == s@);
}

/// Builds a `String` from a character slice.
pub fn string_of(s: &[char]) -> (r: String)
    ensures
        r@ == s@,
{
    let mut r = String::new();
    push_all(&mut r, s);
    r
}

/// Appends a string slice to `out`.
pub fn push_str(out: &mut String, p: &str)
    ensures
        final(out)@ == old(out)@ + p@,
{
    out.append(p);
}

/// Whether `p` occurs in `s` at index `i`.
pub fn occurs_at(s: &[char], p: &[char], i: usize) -> (r: bool)
    ensures
        r == spec_occurs_at(s@, p@, i as int),
{
    if i > s.len() || p.len() > s.len() - i {
        return false;
    }
    let mut k: usize = 0;
    while k < p.len()
        invariant
            i + p@.len() <= s@.len(),
            s@.len() == s.len(),
            p@.len() == p.len(),
            k <= p@.len(),
            forall|m: int| 0 <= m < k ==> s@[i + m] == p@[m],
        decreases p.len() - k,
    {
        if s[i + k] != p[k] {
            assert(s@.subrange(i as int, i + p@.len())[k as int] != p@[k as int]);
            return false;
        }
        k += 1;
    }
    assert(s@.subrange(i as int, i + p@.len()) =~= p@);
    true
}

/// Whether `p` is a prefix of `s`.
pub fn starts_with(s: &[char], p: &[char]) -> (r: bool)
    ensures
        r == spec_starts_with(s@, p@),
{
    let r = occurs_at(s, p, 0);
    proof {
        if p@.len() <= s@.len() {
            assert(s@.subrange(0, p@.len() as int) == s@.take(p@.len() as int));
        }
    }
    r
}

/// Whether `p` is a suffix of `s`.
pub fn ends_with(s: &[char], p: &[char]) -> (r: bool)
    ensures
        r == spec_ends_with(s@, p@),
{
    if p.len() > s.len() {
        return false;
    }
    let r = occurs_at(s, p, s.len() - p.len());
    proof {
        assert(s@.subrange(s@.len() - p@.len(), s@.len() as int) == s@.skip(s@.len() - p@.len()));
    }
    r
}

/// Index of the first occurrence of `p` in `s` at or after `from`.
pub fn find_from(s: &[char], p: &[char], from: usize) -> (r: Option<usize>)
    ensures
        r is Some <==> spec_find_from(s@, p@, from as int) is Some,
        r matches Some(i) ==> spec_find_from(s@, p@, from as int) == Some(i as int) && from <= i
            && i + p@.len() <= s@.len(),
{
    if p.len() > s.len() || from > s.len() - p.len() {
        return None;
    }
    let last = s.len() - p.len();
    let mut i = from;
    loop
        invariant
            from <= i <= last,
            last + p@.len() == s@.len(),
            spec_find_from(s@, p@, i as int) == spec_find_from(s@, p@, from as int),
        decreases last - i,
    {
        if occurs_at(s, p, i) {
            return Some(i);
        }
        if i == last {
            assert(spec_find_from(s@, p@, i + 1) is None);
            return None;
        }
        i += 1;
    }
}

/// Whether `p` occurs in `s`.
pub fn contains(s: &[char], p: &[char]) -> (r: bool)
    ensures
        r == spec_contains(s@, p@),
{
    if p.len() > s.len() {
        return false;
    }
    let last = s.len() - p.len();
    let mut i: usize = 0;
    loop
        invariant
            i <= last,
            last + p@.len() == s@.len(),
            forall|k: int| 0 <= k < i ==> !spec_occurs_at(s@, p@, k),
        decreases last - i,
    {
        if occurs_at(s, p, i) {
            return true;
        }
        if i == last {
            return false;
        }
        i += 1;
    }
}

/// Number of occurrences of `c` in `s[lo..hi]`.
pub fn count_char(s: &[char], lo: usize, hi: usize, c: char) -> (r: usize)
    requires
        lo <= hi <= s@.len(),
    ensures
        r == spec_count_char(s@.subrange(lo as int, hi as int), c),
{
    let mut n: usize = 0;
    let mut i = lo;
    while i < hi
        invariant
            lo <= i <= hi <= s@.len(),
            n == spec_count_char(s@.subrange(lo as int, i as int), c),
            n <= i - lo,
        decreases hi - i,
    {
        assert(s@.subrange(lo as int, i + 1).drop_last() == s@.subrange(lo as int, i as int));
        if s[i] == c {
            n += 1;
        }
        i += 1;
    }
    n
}

/// First index `>= i` and `<= hi` whose character is not white space.
pub fn skip_ws(s: &[char], i: usize, hi: usize) -> (r: usize)
    requires
        i <= hi <= s@.len(),
    ensures
        r == spec_skip_ws(s@, i as int, hi as int),
        i <= r <= hi,
{
    let mut k = i;
    while k < hi && is_whitespace(s[k])
        invariant
            i <= k <= hi <= s@.len(),
            spec_skip_ws(s@, k as int, hi as int) == spec_skip_ws(s@, i as int, hi as int),
        decreases hi - k,
    {
        k += 1;
    }
    k
}

/// Last end `<= j` and `>= lo` whose preceding character is not white space.
pub fn back_ws(s: &[char], lo: usize, j: usize) -> (r: usize)
    requires
        lo <= j <= s@.len(),
    ensures
        r == spec_back_ws(s@, lo as int, j as int),
        lo <= r <= j,
{
    let mut k = j;
    while k > lo && is_whitespace(s[k - 1])
        invariant
            lo <= k <= j <= s@.len(),
            spec_back_ws(s@, lo as int, k as int) == spec_back_ws(s@, lo as int, j as int),
        decreases k - lo,
    {
        k -= 1;
    }
    k
}

/// Line ends move with the text when a prefix is put in front of it.
pub proof fn lemma_line_end_shift(p: Seq<char>, r: Seq<char>, i: int)
    requires
        0 <= i,
    ensures
        spec_line_end(p + r, p.len() + i) == p.len() + spec_line_end(r, i),
    decreases r.len() - i,
{
    if i < r.len() && r[i] != '\n' {
        lemma_line_end_shift(p, r, i + 1);
    }
    if i < r.len() {
        assert((p + r)[p.len() + i] == r[i]);
    }
}

/// The first line of `t + "\n" + r` ends at the newline after `t` when `t` holds none.
pub proof fn lemma_line_end_in_text(t: Seq<char>, r: Seq<char>, i: int)
    requires
        0 <= i <= t.len(),
        forall|j: int| 0 <= j < t.len() ==> t[j] != '\n',
    ensures
        spec_line_end(t + seq!['\n'] + r, i) == t.len(),
    decreases t.len() - i,
{
    let s = t + seq!['\n'] + r;
    if i < t.len() {
        assert(s[i] == t[i]);
        lemma_line_end_in_text(t, r, i + 1);
    } else {
        assert(s[i] == '\n');
    }
}

/// The line at `i` of `r` is the line at `p.len() + i` of `p + r`, and ends in step.
pub proof fn lemma_line_at_shift(p: Seq<char>, r: Seq<char>, i: int)
    requires
        0 <= i < r.len(),
    ensures
        spec_line_end(p + r, p.len() + i) == p.len() + spec_line_end(r, i),
        spec_line_at(p + r, p.len() + i) == spec_line_at(r, i),
{
    lemma_line_end_shift(p, r, i);
    lemma_line_end(r, i);
    let e = spec_line_end(r, i);
    if e < r.len() && e > i {
        assert((p + r)[p.len() + e - 1] == r[e - 1]);
    }
    assert(spec_line_text_end(p + r, p.len() + i) == p.len() + spec_line_text_end(r, i));
    assert(spec_line_at(p + r, p.len() + i) =~= spec_line_at(r, i));
}

/// A line `t` without a newline and not ending in a carriage return, followed by a
/// newline, is the first line of `t + "\n" + r`, which ends right after it.
pub proof fn lemma_head_line(t: Seq<char>, r: Seq<char>)
    requires
        forall|j: int| 0 <= j < t.len() ==> t[j] != '\n',
        t.len() == 0 || t.last() != '\r',
    ensures
        spec_line_end(t + seq!['\n'] + r, 0) == t.len(),
        spec_line_at(t + seq!['\n'] + r, 0) == t,
{
    let s = t + seq!['\n'] + r;
    lemma_line_end_in_text(t, r, 0);
    if t.len() > 0 {
        assert(s[t.len() - 1] == t.last());
    }
    assert(spec_line_at(s, 0) =~= t);
}

} // verus!

verus! {

/// Index of the last occurrence of `p` in `s`.
pub fn rfind(s: &[char], p: &[char]) -> (r: Option<usize>)
    ensures
        r is Some <==> spec_rfind(s@, p@) is Some,
        r matches Some(i) ==> spec_rfind(s@, p@) == Some(i as int),
{
    let mut upto: usize = s.len();
    proof {
        assert(!spec_occurs_at(s@, p@, s@.len() as int) || p@.len() == 0);
        if p@.len() == 0 {
            assert(s@.subrange(s@.len() as int, s@.len() as int) =~= p@);
            assert(spec_rfind(s@, p@) == Some(s@.len() as int));
        }
    }
    if p.len() == 0 {
        return Some(s.len());
    }
    assert(spec_rfind(s@, p@) == spec_rfind_before(s@, p@, s@.len() as int));
    loop
        invariant
            upto <= s@.len(),
            p@.len() > 0,
            spec_rfind_before(s@, p@, upto as int) == spec_rfind(s@, p@),
        decreases upto,
    {
        if upto == 0 {
            return None;
        }
        if occurs_at(s, p, upto - 1) {
            return Some(upto - 1);
        }
        upto -= 1;
    }
}

/// ASCII lower-cased copy of `s`.
pub fn ascii_lower_vec(s: &[char]) -> (r: Vec<char>)
    ensures
        r@ == spec_ascii_lower_seq(s@),
{
    let mut r: Vec<char> = Vec::new();
    let mut i: usize = 0;
    while i < s.len()
        invariant
            i <= s@.len(),
            r@ == spec_ascii_lower_seq(s@).take(i as int),
        decreases s.len() - i,
    {
        r.push(ascii_lower(s[i]));
        i += 1;
    }
    assert(r@ =~= spec_ascii_lower_seq(s@));
    r
}

/// Index of the first `'\n'` at or after `i`, or the length when there is none.
pub open spec fn spec_line_end(s: Seq<char>, i: int) -> int
    decreases s.len() - i,
{
    if i < 0 || i >= s.len() {
        s.len() as int
    } else if s[i] == '\n' {
        i
    } else {
        spec_line_end(s, i + 1)
    }
}

/// Where the text of the line that starts at `pos` ends: before its `'\n'`, and before a
/// `'\r'` that directly precedes that `'\n'` (as `str::lines` yields lines).
pub open spec fn spec_line_text_end(s: Seq<char>, pos: int) -> int {
    let e = spec_line_end(s, pos);
    if e < s.len() && e > pos && s[e - 1] == '\r' {
        e - 1
    } else {
        e
    }
}

/// The line that starts at `pos`, as `str::lines` yields it.
pub open spec fn spec_line_at(s: Seq<char>, pos: int) -> Seq<char> {
    s.subrange(pos, spec_line_text_end(s, pos))
}

pub proof fn lemma_line_end(s: Seq<char>, i: int)
    requires
        0 <= i <= s.len(),
    ensures
        i <= spec_line_end(s, i) <= s.len(),
        spec_line_end(s, i) < s.len() ==> s[spec_line_end(s, i)] == '\n',
    decreases s.len() - i,
{
    if i < s.len() && s[i] != '\n' {
        lemma_line_end(s, i + 1);
    }
}

/// The line that starts at `pos`: the end of its text and the start of the next line
/// (past the end of `s` when this is the last line).
pub fn line_bounds(s: &[char], pos: usize) -> (r: (usize, usize))
    requires
        pos < s@.len(),
    ensures
        pos <= r.0 <= s@.len(),
        r.0 == spec_line_text_end(s@, pos as int),
        r.1 == spec_line_end(s@, pos as int) + 1 || (r.1 == s@.len() && spec_line_end(s@, pos as int) == s@.len()),
        pos < r.1 <= s@.len(),
{
    let n = s.len();
    let mut e = pos;
    while e < n && s[e] != '\n'
        invariant
            pos <= e <= n,
            n == s@.len(),
            spec_line_end(s@, e as int) == spec_line_end(s@, pos as int),
        decreases n - e,
    {
        e += 1;
    }
    let hi = if e < n && e > pos && s[e - 1] == '\r' {
        e - 1
    } else {
        e
    };
    if e < n {
        (hi, e + 1)
    } else {
        (hi, n)
    }
}

/// `s` without leading and trailing white space.
pub fn trim(s: &[char]) -> (r: &[char])
    ensures
        r@ == spec_trim(s@),
{
    let a = skip_ws(s, 0, s.len());
    let t = &s[a..s.len()];
    let b = back_ws(t, 0, t.len());
    let r = &t[0..b];
    proof {
        assert(t@ == spec_trim_start(s@));
        assert(r@ == t@.take(b as int));
    }
    r
}

/// `s` without trailing white space.
pub fn trim_end(s: &[char]) -> (r: &[char])
    ensures
        r@ == spec_trim_end(s@),
{
    let b = back_ws(s, 0, s.len());
    &s[0..b]
}

/// Whether the literal `p` is a prefix of `s`.
pub fn starts_with_str(s: &[char], p: &str) -> (r: bool)
    ensures
        r == spec_starts_with(s@, p@),
{
    let pc = chars_of(p);
    starts_with(s, pc.as_slice())
}

/// Whether the literal `p` is a suffix of `s`.
pub fn ends_with_str(s: &[char], p: &str) -> (r: bool)
    ensures
        r == spec_ends_with(s@, p@),
{
    let pc = chars_of(p);
    ends_with(s, pc.as_slice())
}

/// Whether the literal `p` occurs in `s`.
pub fn contains_str(s: &[char], p: &str) -> (r: bool)
    ensures
        r == spec_contains(s@, p@),
{
    let pc = chars_of(p);
    contains(s, pc.as_slice())
}

/// Whether `s` is exactly the literal `p`.
pub fn equals_str(s: &[char], p: &str) -> (r: bool)
    ensures
        r == (s@ == p@),
{
    let pc = chars_of(p);
    if s.len() != pc.len() {
        return false;
    }
    let r = starts_with(s, pc.as_slice());
    proof {
        assert(s@ =~= s@.take(pc@.len() as int));
    }
    r
}

/// Whether two string slices hold the same characters.
pub fn str_eq(a: &str, b: &str) -> (r: bool)
    ensures
        r == (a@ == b@),
{
    let ac = chars_of(a);
    equals_str(ac.as_slice(), b)
}

/// A sequence of `n` spaces.
pub open spec fn spec_spaces(n: int) -> Seq<char> {
    Seq::new(n as nat, |i: int| ' ')
}

/// Appends `n` spaces to `out`.
pub fn push_spaces(out: &mut String, n: usize)
    ensures
        final(out)@ == old(out)@ + spec_spaces(n as int),
{
    let mut i: usize = 0;
    while i < n
        invariant
            i <= n,
            out@ == old(out)@ + spec_spaces(i as int),
        decreases n - i,
    {
        out.push(' ');
        i += 1;
        assert(spec_spaces(i as int) =~= spec_spaces(i - 1).push(' '));
    }
}

/// The search from `from` finds `k` when `p` occurs at `k` and nowhere in between.
pub proof fn lemma_find_first(s: Seq<char>, p: Seq<char>, from: int, k: int)
    requires
        0 <= from <= k,
        spec_occurs_at(s, p, k),
        forall|i: int| from <= i < k ==> !spec_occurs_at(s, p, i),
    ensures
        spec_find_from(s, p, from) == Some(k),
    decreases k - from,
{
    if from < k {
        lemma_find_first(s, p, from + 1, k);
    }
}

pub proof fn lemma_skip_ws_bounds(s: Seq<char>, i: int, hi: int)
    requires
        i <= hi,
    ensures
        i <= spec_skip_ws(s, i, hi) <= hi,
    decreases hi - i,
{
    if i < hi && 0 <= i < s.len() && spec_is_whitespace(s[i]) {
        lemma_skip_ws_bounds(s, i + 1, hi);
    }
}

/// First index `>= i` whose character is not `c`.
pub open spec fn spec_skip_char(s: Seq<char>, c: char, i: int) -> int
    decreases s.len() - i,
{
    if 0 <= i < s.len() && s[i] == c {
        spec_skip_char(s, c, i + 1)
    } else {
        i
    }
}

/// Last end `<= j` whose preceding character is not `c`.
pub open spec fn spec_back_char(s: Seq<char>, c: char, j: int) -> int
    decreases j,
{
    if 0 < j <= s.len() && s[j - 1] == c {
        spec_back_char(s, c, j - 1)
    } else {
        j
    }
}

/// `str::trim_start_matches(c)`: `s` without its leading `c`s.
pub open spec fn spec_trim_start_char(s: Seq<char>, c: char) -> Seq<char> {
    s.skip(spec_skip_char(s, c, 0))
}

/// `str::trim_matches(c)`: `s` without its leading and trailing `c`s.
pub open spec fn spec_trim_char(s: Seq<char>, c: char) -> Seq<char> {
    let t = spec_trim_start_char(s, c);
    t.take(spec_back_char(t, c, t.len() as int))
}

pub proof fn lemma_skip_char_bounds(s: Seq<char>, c: char, i: int)
    requires
        0 <= i <= s.len(),
    ensures
        i <= spec_skip_char(s, c, i) <= s.len(),
    decreases s.len() - i,
{
    if i < s.len() && s[i] == c {
        lemma_skip_char_bounds(s, c, i + 1);
    }
}

pub proof fn lemma_back_char_bounds(s: Seq<char>, c: char, j: int)
    requires
        0 <= j <= s.len(),
    ensures
        0 <= spec_back_char(s, c, j) <= j,
    decreases j,
{
    if 0 < j && s[j - 1] == c {
        lemma_back_char_bounds(s, c, j - 1);
    }
}

/// `s` without its leading `c`s.
pub fn trim_start_char(s: &[char], c: char) -> (r: &[char])
    ensures
        r@ == spec_trim_start_char(s@, c),
{
    let mut i: usize = 0;
    while i < s.len() && s[i] == c
        invariant
            i <= s@.len(),
            spec_skip_char(s@, c, i as int) == spec_skip_char(s@, c, 0),
        decreases s@.len() - i,
    {
        i += 1;
    }
    &s[i..s.len()]
}

/// `s` without its leading and trailing `c`s.
pub fn trim_char(s: &[char], c: char) -> (r: &[char])
    ensures
        r@ == spec_trim_char(s@, c),
{
    let t = trim_start_char(s, c);
    let mut j: usize = t.len();
    while j > 0 && t[j - 1] == c
        invariant
            j <= t@.len(),
            spec_back_char(t@, c, j as int) == spec_back_char(t@, c, t@.len() as int),
        decreases j,
    {
        j -= 1;
    }
    &t[0..j]
}

/// `str::split(c)`: the pieces of `s` between occurrences of `c` (one piece when there is
/// none).
pub open spec fn spec_split_char(s: Seq<char>, c: char) -> Seq<Seq<char>>
    decreases s.len(),
{
    match spec_find_from(s, seq![c], 0) {
        None => seq![s],
        Some(i) => if 0 <= i < s.len() {
            seq![s.take(i)] + spec_split_char(s.skip(i + 1), c)
        } else {
            seq![s]
        },
    }
}

pub proof fn lemma_find_from_bound(s: Seq<char>, p: Seq<char>, from: int)
    ensures
        spec_find_from(s, p, from) matches Some(i) ==> from <= i && i + p.len() <= s.len()
            && spec_occurs_at(s, p, i),
    decreases s.len() + 1 - from,
{
    if !(from < 0 || from + p.len() > s.len()) && !spec_occurs_at(s, p, from) {
        lemma_find_from_bound(s, p, from + 1);
    }
}

/// The decimal digit character for `d < 10`.
pub open spec fn spec_digit(d: int) -> char {
    (('0' as u32) + d) as char
}

/// Decimal representation of `n`, without leading zeros.
pub open spec fn spec_decimal(n: nat) -> Seq<char>
    decreases n,
{
    if n < 10 {
        seq![spec_digit(n as int)]
    } else {
        spec_decimal(n / 10) + seq![spec_digit((n % 10) as int)]
    }
}

/// Appends the decimal representation of `n`.
pub fn push_decimal(out: &mut String, n: usize)
    ensures
        final(out)@ == old(out)@ + spec_decimal(n as nat),
    decreases n,
{
    if n >= 10 {
        push_decimal(out, n / 10);
    }
    let d = (n % 10) as u32;
    let c = ((48u32 + d) as u8) as char;
    assert(c == spec_digit((n % 10) as int));
    out.push(c);
}


/// Words and the word being read after scanning `s` left to right: maximal runs of
/// non-white-space characters.
pub open spec fn spec_split_ws_acc(s: Seq<char>) -> (Seq<Seq<char>>, Seq<char>)
    decreases s.len(),
{
    if s.len() == 0 {
        (Seq::empty(), Seq::empty())
    } else {
        let (ws, cur) = spec_split_ws_acc(s.drop_last());
        if spec_is_whitespace(s.last()) {
            if cur.len() > 0 { (ws.push(cur), Seq::empty()) } else { (ws, cur) }
        } else {
            (ws, cur.push(s.last()))
        }
    }
}

/// The white-space separated words of `s` (`str::split_whitespace`).
pub open spec fn spec_split_ws(s: Seq<char>) -> Seq<Seq<char>> {
    let (ws, cur) = spec_split_ws_acc(s);
    if cur.len() > 0 { ws.push(cur) } else { ws }
}

/// The views of a list of strings.
pub open spec fn spec_strings(v: Seq<String>) -> Seq<Seq<char>> {
    v.map_values(|w: String| w@)
}

/// The white-space separated words of `s`.
pub fn split_ws(s: &str) -> (r: Vec<String>)
    ensures
        spec_strings(r@) == spec_split_ws(s@),
{
    let cs = chars_of(s);
    let mut words: Vec<String> = Vec::new();
    let mut cur: Vec<char> = Vec::new();
    let n = cs.len();
    for i in 0..n
        invariant
            n == cs@.len(),
            cs@ == s@,
            (spec_strings(words@), cur@) == spec_split_ws_acc(cs@.take(i as int)),
    {
        proof { assert(cs@.take(i + 1).drop_last() =~= cs@.take(i as int)); }
        let c = cs[i];
        if is_whitespace(c) {
            if cur.len() > 0 {
                let ghost before = spec_strings(words@);
                words.push(string_of(cur.as_slice()));
                proof { assert(spec_strings(words@) =~= before.push(cur@)); }
                cur = Vec::new();
            }
        } else {
            cur.push(c);
        }
    }
    proof { assert(cs@.take(n as int) =~= cs@); }
    if cur.len() > 0 {
        let ghost before = spec_strings(words@);
        words.push(string_of(cur.as_slice()));
        proof { assert(spec_strings(words@) =~= before.push(cur@)); }
    }
    words
}

/// ASCII case-insensitive equality (`str::eq_ignore_ascii_case`).
pub open spec fn spec_eq_ignore_ascii_case(a: Seq<char>, b: Seq<char>) -> bool {
    a.len() == b.len() && forall|i: int| 0 <= i < a.len() ==> #[trigger] spec_ascii_lower(a[i]) == spec_ascii_lower(b[i])
}

/// Whether `a` and `b` are equal up to ASCII letter case.
pub fn eq_ignore_ascii_case(a: &str, b: &str) -> (r: bool)
    ensures
        r == spec_eq_ignore_ascii_case(a@, b@),
{
    let ac = chars_of(a);
    let bc = chars_of(b);
    if ac.len() != bc.len() {
        return false;
    }
    let n = ac.len();
    for i in 0..n
        invariant
            n == ac@.len(),
            n == bc@.len(),
            ac@ == a@,
            bc@ == b@,
            forall|k: int| 0 <= k < i ==> #[trigger] spec_ascii_lower(ac@[k]) == spec_ascii_lower(bc@[k]),
    {
        if ascii_lower(ac[i]) != ascii_lower(bc[i]) {
            return false;
        }
    }
    true
}

/// Value of a string of decimal digits.
pub open spec fn spec_digits_value(d: Seq<char>) -> nat
    decreases d.len(),
{
    if d.len() == 0 {
        0
    } else {
        10 * spec_digits_value(d.drop_last()) + ((d.last() as u32 - 48) as nat)
    }
}

/// Whether every character is an ASCII digit.
pub open spec fn spec_all_digits(d: Seq<char>) -> bool {
    forall|i: int| 0 <= i < d.len() ==> '0' <= #[trigger] d[i] <= '9'
}

/// `str::parse::<usize>`: an optional `+` followed by at least one decimal digit, whose
/// value fits in `usize`.
pub open spec fn spec_parse_usize(s: Seq<char>) -> Option<usize> {
    let d = if s.len() > 0 && s[0] == '+' { s.skip(1) } else { s };
    if d.len() > 0 && spec_all_digits(d) && spec_digits_value(d) <= usize::MAX {
        Some(spec_digits_value(d) as usize)
    } else {
        None
    }
}

proof fn lemma_digits_value_grows(d: Seq<char>, k: int)
    requires
        0 <= k <= d.len(),
        spec_all_digits(d),
    ensures
        spec_digits_value(d.take(k)) <= spec_digits_value(d),
    decreases d.len() - k,
{
    if k < d.len() {
        lemma_digits_value_grows(d, k + 1);
        assert(d.take(k + 1).drop_last() =~= d.take(k));
    } else {
        assert(d.take(k) =~= d);
    }
}

/// Parses a decimal `usize` as `str::parse` does.
pub fn parse_usize(s: &str) -> (r: Option<usize>)
    ensures
        r == spec_parse_usize(s@),
{
    let cs = chars_of(s);
    let start: usize = if cs.len() > 0 && cs[0] == '+' { 1 } else { 0 };
    let ghost d = if s@.len() > 0 && s@[0] == '+' { s@.skip(1) } else { s@ };
    proof { assert(cs@.skip(start as int) =~= d); }
    if start >= cs.len() {
        return None;
    }
    let mut acc: usize = 0;
    let mut i = start;
    while i < cs.len()
        invariant
            start <= i <= cs@.len(),
            cs@ == s@,
            d == cs@.skip(start as int),
            d == (if s@.len() > 0 && s@[0] == '+' { s@.skip(1) } else { s@ }),
            spec_all_digits(cs@.subrange(start as int, i as int)),
            acc == spec_digits_value(cs@.subrange(start as int, i as int)),
        decreases cs@.len() - i,
    {
        let c = cs[i];
        proof { assert(cs@.subrange(start as int, i + 1).drop_last() =~= cs@.subrange(start as int, i as int)); }
        if c < '0' || c > '9' {
            proof {
                assert(d[i - start] == c);
                assert(!('0' <= d[i - start] <= '9'));
                assert(!spec_all_digits(d));
            }
            return None;
        }
        let dv = (c as u32 - 48) as usize;
        let next = match acc.checked_mul(10) {
            Some(m) => m.checked_add(dv),
            None => None,
        };
        match next {
            Some(v) => {
                acc = v;
            },
            None => {
                proof {
                    let p = cs@.subrange(start as int, i + 1);
                    assert(p.drop_last() =~= cs@.subrange(start as int, i as int));
                    assert(p.last() == c);
                    assert(spec_digits_value(p) == 10 * acc + dv);
                    assert(spec_digits_value(p) > usize::MAX);
                    if spec_all_digits(d) {
                        assert(d.take(i + 1 - start) =~= p);
                        lemma_digits_value_grows(d, i + 1 - start);
                    }
                }
                return None;
            },
        }
        i += 1;
    }
    proof { assert(cs@.subrange(start as int, i as int) =~= d); }
    Some(acc)
}

/// The words joined with single spaces (`[&str]::join(" ")`).
pub open spec fn spec_join_space(ws: Seq<Seq<char>>) -> Seq<char>
    decreases ws.len(),
{
    if ws.len() == 0 {
        Seq::empty()
    } else if ws.len() == 1 {
        ws[0]
    } else {
        spec_join_space(ws.drop_last()) + seq![' '] + ws.last()
    }
}

} // verus!
