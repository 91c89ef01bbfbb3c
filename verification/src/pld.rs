//! Prompt-lookup speculative decoding with multi-branch draft trees.
//!
//! Recurring n-grams in the token history propose continuation drafts: the most
//! recent earlier occurrence of the trailing n-gram yields the primary branch and,
//! in multi-branch mode, an earlier occurrence with a different continuation yields
//! the secondary branch.

use vstd::prelude::*;
use crate::text::{chars_of, rfind, ascii_lower_vec, ends_with_str, spec_rfind, spec_ascii_lower_seq,
    spec_ends_with};

verus! {

broadcast use vstd::string::group_string_axioms;

/// Default n-gram length matched against the token history.
pub const DEFAULT_PLD_NGRAM_SIZE: usize = 3;
/// Default draft depth in multi-branch mode.
pub const DEFAULT_PLD_DRAFT_SIZE: usize = 3;
/// Capacity of each draft branch.
pub const MAX_TREE_DEPTH: usize = 5;
/// Default draft depth in deep-chain mode.
pub const REASONING_DRAFT_DEPTH: usize = 5;

/// Active speculative decoding mode.
#[derive(Debug, Clone, Copy, PartialEq, Eq, Structural)]
pub enum SpeculativeMode {
    /// Deep linear chain for deterministic reasoning/math/code (one branch).
    DeepChain,
    /// Multi-branch tree for branching decision points (two branches).
    MultiBranchTree,
}

/// Structured multi-branch candidate tree proposal.
#[derive(Debug, Clone, PartialEq, Eq)]
pub struct TreeDraftCandidate {
    /// Primary branch tokens (only the first `primary_len` are meaningful).
    pub primary_tokens: [u32; 5],
    pub primary_len: usize,
    /// Secondary branch tokens (only the first `secondary_len` are meaningful).
    pub secondary_tokens: [u32; 5],
    pub secondary_len: usize,
    /// Speculation mode used for this draft.
    pub mode: SpeculativeMode,
}

impl TreeDraftCandidate {
    /// Whether the candidate has no drafted token at all.
    pub fn is_empty(&self) -> (r: bool)
        ensures
            r == (self.primary_len == 0 && self.secondary_len == 0),
    {
        self.primary_len == 0 && self.secondary_len == 0
    }

    /// Total number of draft tokens across both branches.
    pub fn total_tokens(&self) -> (r: usize)
        requires
            self.primary_len + self.secondary_len <= usize::MAX,
        ensures
            r == self.primary_len + self.secondary_len,
    {
        self.primary_len + self.secondary_len
    }

    /// The primary branch.
    pub fn primary(&self) -> (r: &[u32])
        requires
            self.primary_len <= MAX_TREE_DEPTH,
        ensures
            r@ == self.primary_tokens@.take(self.primary_len as int),
    {
        let r = &self.primary_tokens.as_slice()[0..self.primary_len];
        assert(r@ =~= self.primary_tokens@.take(self.primary_len as int));
        r
    }

    /// The secondary branch.
    pub fn secondary(&self) -> (r: &[u32])
        requires
            self.secondary_len <= MAX_TREE_DEPTH,
        ensures
            r@ == self.secondary_tokens@.take(self.secondary_len as int),
    {
        let r = &self.secondary_tokens.as_slice()[0..self.secondary_len];
        assert(r@ =~= self.secondary_tokens@.take(self.secondary_len as int));
        r
    }
}

/// Reasoning-aware speculative mode router.
#[derive(Debug, Clone, Default)]
pub struct ReasoningSpecRouter;

/// Lower-cased endings that signal step-by-step reasoning or a code block.
pub open spec fn spec_reasoning_ending(lower: Seq<char>) -> bool {
    spec_ends_with(lower, "step 1:"@) || spec_ends_with(lower, "step 1"@) || spec_ends_with(
        lower,
        "let me think"@,
    ) || spec_ends_with(lower, "let's think"@) || spec_ends_with(lower, "```rust"@)
        || spec_ends_with(lower, "```python"@) || spec_ends_with(lower, "```json"@)
}

/// The text is inside a `<think>` block that has not been closed.
pub open spec fn spec_in_open_think(text: Seq<char>) -> bool {
    match spec_rfind(text, "<think>"@) {
        Some(open) => match spec_rfind(text, "</think>"@) {
            Some(close) => close < open,
            None => true,
        },
        None => false,
    }
}

/// Mode chosen for the accumulated output text.
pub open spec fn spec_detect_mode(text: Seq<char>) -> SpeculativeMode {
    if spec_in_open_think(text) || spec_reasoning_ending(spec_ascii_lower_seq(text)) {
        SpeculativeMode::DeepChain
    } else {
        SpeculativeMode::MultiBranchTree
    }
}

impl ReasoningSpecRouter {
    /// Deep-chain mode inside an unclosed `<think>` block or right after a
    /// reasoning/code opener; multi-branch mode otherwise.
    pub fn detect_mode_from_text(accumulated_text: &str) -> (r: SpeculativeMode)
        ensures
            r == spec_detect_mode(accumulated_text@),
    {
        let text = chars_of(accumulated_text);
        let open_tag = chars_of("<think>");
        let close_tag = chars_of("</think>");
        if let Some(open_idx) = rfind(text.as_slice(), open_tag.as_slice()) {
            if let Some(close_idx) = rfind(text.as_slice(), close_tag.as_slice()) {
                if close_idx < open_idx {
                    return SpeculativeMode::DeepChain;
                }
            } else {
                return SpeculativeMode::DeepChain;
            }
        }
        let lower = ascii_lower_vec(text.as_slice());
        let l = lower.as_slice();
        if ends_with_str(l, "step 1:") || ends_with_str(l, "step 1") || ends_with_str(
            l,
            "let me think",
        ) || ends_with_str(l, "let's think") || ends_with_str(l, "```rust") || ends_with_str(
            l,
            "```python",
        ) || ends_with_str(l, "```json") {
            return SpeculativeMode::DeepChain;
        }
        SpeculativeMode::MultiBranchTree
    }
}

/// The n-gram at `i` equals the trailing n-gram that starts at `qs`.
pub open spec fn spec_ngram_match(t: Seq<u32>, n: int, qs: int, i: int) -> bool {
    t.subrange(i, i + n) == t.subrange(qs, qs + n)
}

/// End of the draft that follows an occurrence at `i` (bounded by `qs`).
pub open spec fn spec_draft_end(n: int, qs: int, d: int, i: int) -> int {
    if d >= qs - (i + n) {
        qs
    } else {
        i + n + d
    }
}

/// Continuation drafted from the occurrence at `i`.
pub open spec fn spec_draft(t: Seq<u32>, n: int, qs: int, d: int, i: int) -> Seq<u32> {
    t.subrange(i + n, spec_draft_end(n, qs, d, i))
}

/// An occurrence at `i` that ends before `qs` and yields a non-empty draft.
pub open spec fn spec_is_candidate(t: Seq<u32>, n: int, qs: int, d: int, i: int) -> bool {
    0 <= i && i + n < qs && d > 0 && spec_ngram_match(t, n, qs, i)
}

/// Largest candidate occurrence at or below `i`.
pub open spec fn spec_find_candidate(t: Seq<u32>, n: int, qs: int, d: int, i: int) -> Option<int>
    decreases i + 1,
{
    if i < 0 {
        None
    } else if spec_is_candidate(t, n, qs, d, i) {
        Some(i)
    } else {
        spec_find_candidate(t, n, qs, d, i - 1)
    }
}

/// Largest candidate occurrence at or below `i` whose draft differs from `prim`.
pub open spec fn spec_find_alternative(
    t: Seq<u32>,
    n: int,
    qs: int,
    d: int,
    i: int,
    prim: Seq<u32>,
) -> Option<int>
    decreases i + 1,
{
    if i < 0 {
        None
    } else if spec_is_candidate(t, n, qs, d, i) && spec_draft(t, n, qs, d, i) != prim {
        Some(i)
    } else {
        spec_find_alternative(t, n, qs, d, i - 1, prim)
    }
}

/// A branch stored in a fixed array of `MAX_TREE_DEPTH` tokens, zero-padded.
pub open spec fn spec_pad(s: Seq<u32>) -> Seq<u32> {
    Seq::new(5, |j: int| if j < s.len() { s[j] } else { 0u32 })
}

/// Tree-based prompt-lookup proposer.
#[derive(Debug, Clone)]
pub struct TreePldProposer {
    pub ngram_size: usize,
    pub standard_draft_size: usize,
    pub reasoning_draft_size: usize,
}

impl TreePldProposer {
    /// Configured parameters are in range: n-gram at least 1, depths in `1..=MAX_TREE_DEPTH`.
    pub open spec fn wf(&self) -> bool {
        self.ngram_size >= 1 && 1 <= self.standard_draft_size <= MAX_TREE_DEPTH && 1
            <= self.reasoning_draft_size <= MAX_TREE_DEPTH
    }

    /// Draft depth used in `mode`.
    pub open spec fn depth(&self, mode: SpeculativeMode) -> int {
        match mode {
            SpeculativeMode::DeepChain => self.reasoning_draft_size as int,
            SpeculativeMode::MultiBranchTree => self.standard_draft_size as int,
        }
    }

    /// Start of the trailing n-gram of `t`.
    pub open spec fn query_start(&self, t: Seq<u32>) -> int {
        t.len() - self.ngram_size
    }

    /// Whether the history is long enough for a lookup at all.
    pub open spec fn searchable(&self, t: Seq<u32>) -> bool {
        t.len() > self.ngram_size && self.query_start(t) >= self.ngram_size
    }

    /// Index of the occurrence that yields the primary branch.
    pub open spec fn primary_index(&self, t: Seq<u32>, mode: SpeculativeMode) -> Option<int> {
        if !self.searchable(t) {
            None
        } else {
            let qs = self.query_start(t);
            spec_find_candidate(t, self.ngram_size as int, qs, self.depth(mode), qs - self.ngram_size)
        }
    }

    /// Primary branch drafted from occurrence `p`, cut to the branch capacity.
    pub open spec fn primary_branch(&self, t: Seq<u32>, mode: SpeculativeMode, p: int) -> Seq<u32> {
        let dr = spec_draft(t, self.ngram_size as int, self.query_start(t), self.depth(mode), p);
        if dr.len() <= 5 {
            dr
        } else {
            dr.take(5)
        }
    }

    /// Index of the occurrence that yields the secondary branch (multi-branch mode only).
    pub open spec fn secondary_index(&self, t: Seq<u32>, mode: SpeculativeMode, p: int) -> Option<
        int,
    > {
        if mode == SpeculativeMode::DeepChain {
            None
        } else {
            spec_find_alternative(
                t,
                self.ngram_size as int,
                self.query_start(t),
                self.depth(mode),
                p - 1,
                self.primary_branch(t, mode, p),
            )
        }
    }

    /// Secondary branch drafted from occurrence `a`, cut to one less than the capacity.
    pub open spec fn secondary_branch(&self, t: Seq<u32>, mode: SpeculativeMode, a: int) -> Seq<
        u32,
    > {
        let dr = spec_draft(t, self.ngram_size as int, self.query_start(t), self.depth(mode), a);
        if dr.len() <= 4 {
            dr
        } else {
            dr.take(4)
        }
    }

    /// The candidate tree proposed for history `t` in `mode`, described field by field.
    pub open spec fn proposes(&self, t: Seq<u32>, mode: SpeculativeMode, c: TreeDraftCandidate) -> bool {
        match self.primary_index(t, mode) {
            None => false,
            Some(p) => {
                let prim = self.primary_branch(t, mode, p);
                let sec = match self.secondary_index(t, mode, p) {
                    Some(a) => self.secondary_branch(t, mode, a),
                    None => Seq::empty(),
                };
                &&& c.mode == mode
                &&& c.primary_len == prim.len()
                &&& c.primary_tokens@ == spec_pad(prim)
                &&& c.secondary_len == sec.len()
                &&& c.secondary_tokens@ == spec_pad(sec)
            },
        }
    }

    /// Creates a proposer; the n-gram size is raised to at least 1 and both depths
    /// are clamped to `1..=MAX_TREE_DEPTH`.
    pub fn new(ngram_size: usize, standard_draft_size: usize, reasoning_draft_size: usize) -> (r:
        Self)
        ensures
            r.wf(),
            r.ngram_size == if ngram_size >= 1 { ngram_size } else { 1 },
            r.standard_draft_size == if standard_draft_size < 1 {
                1
            } else if standard_draft_size > MAX_TREE_DEPTH {
                MAX_TREE_DEPTH
            } else {
                standard_draft_size
            },
            r.reasoning_draft_size == if reasoning_draft_size < 1 {
                1
            } else if reasoning_draft_size > MAX_TREE_DEPTH {
                MAX_TREE_DEPTH
            } else {
                reasoning_draft_size
            },
    {
        Self {
            ngram_size: if ngram_size >= 1 { ngram_size } else { 1 },
            standard_draft_size: clamp_depth(standard_draft_size),
            reasoning_draft_size: clamp_depth(reasoning_draft_size),
        }
    }

    /// Search for matching n-gram continuations in the history and return a tree candidate.
    pub fn propose_tree(&self, all_tokens: &[u32], mode: SpeculativeMode) -> (r: Option<
        TreeDraftCandidate,
    >)
        ensures
            r is None <==> self.primary_index(all_tokens@, mode) is None,
            r matches Some(c) ==> self.proposes(all_tokens@, mode, c),
    {
        let t = all_tokens;
        let n = self.ngram_size;
        let len = t.len();
        if len <= n {
            return None;
        }
        let qs = len - n;
        if qs < n {
            return None;
        }
        let d = match mode {
            SpeculativeMode::DeepChain => self.reasoning_draft_size,
            SpeculativeMode::MultiBranchTree => self.standard_draft_size,
        };
        let ghost tv = t@;
        let ghost ni = n as int;
        let ghost qi = qs as int;
        let ghost di = d as int;
        let mut primary_tokens: [u32; 5] = [0u32; 5];
        let mut primary_len: usize = 0;
        let ghost mut p: int = -1;
        let tl = t.len();
        let mut i: usize = qs - n;
        assert(primary_tokens@ =~= spec_pad(Seq::empty()));
        loop
            invariant_except_break
                primary_len == 0 ==> spec_find_candidate(tv, ni, qi, di, qi - ni)
                    == spec_find_candidate(tv, ni, qi, di, i as int),
                primary_len > 0 ==> {
                    &&& i < p
                    &&& spec_find_alternative(tv, ni, qi, di, p - 1, self.primary_branch(tv, mode, p))
                        == spec_find_alternative(tv, ni, qi, di, i as int, self.primary_branch(tv, mode, p))
                },
            invariant
                tv == t@,
                tv == all_tokens@,
                tl == t@.len(),
                len == tl,
                qs + n == len,
                ni == n,
                qi == qs,
                di == d,
                di == self.depth(mode),
                n <= qs,
                i <= qs - n,
                self.searchable(tv),
                qi == self.query_start(tv),
                primary_len == 0 ==> primary_tokens@ == spec_pad(Seq::empty()),
                primary_len > 0 ==> {
                    &&& mode == SpeculativeMode::MultiBranchTree
                    &&& spec_find_candidate(tv, ni, qi, di, qi - ni) == Some(p)
                    &&& primary_len == self.primary_branch(tv, mode, p).len()
                    &&& primary_tokens@ == spec_pad(self.primary_branch(tv, mode, p))
                },
            ensures
                primary_len == 0 ==> spec_find_candidate(tv, ni, qi, di, qi - ni) is None,
                primary_len > 0 ==> spec_find_alternative(tv, ni, qi, di, p - 1, self.primary_branch(tv, mode, p)) is None,
            decreases i,
        {
            let matched = windows_equal(t, i, qs, n);
            if matched && i + n < qs && d > 0 {
                let ds = i + n;
                let de = if d >= qs - ds {
                    qs
                } else {
                    ds + d
                };
                let dlen = de - ds;
                proof {
                    assert(spec_draft(tv, ni, qi, di, i as int) == tv.subrange(ds as int, de as int));
                }
                if primary_len == 0 {
                    assert(spec_is_candidate(tv, ni, qi, di, i as int));
                    assert(spec_find_candidate(tv, ni, qi, di, i as int) == Some(i as int));
                    proof {
                        p = i as int;
                    }
                    let plen = if dlen <= 5 {
                        dlen
                    } else {
                        5
                    };
                    primary_tokens = fill_branch(t, ds, plen);
                    primary_len = plen;
                    proof {
                        let dr = spec_draft(tv, ni, qi, di, p);
                        if dlen > 5 {
                            assert(dr.take(5) =~= tv.subrange(ds as int, ds + 5));
                        } else {
                            assert(dr =~= tv.subrange(ds as int, ds + plen));
                        }
                        assert(primary_tokens@ == spec_pad(self.primary_branch(tv, mode, p)));
                    }
                    if mode == SpeculativeMode::DeepChain {
                        let cand = TreeDraftCandidate {
                            primary_tokens,
                            primary_len,
                            secondary_tokens: [0u32; 5],
                            secondary_len: 0,
                            mode,
                        };
                        assert(cand.secondary_tokens@ =~= spec_pad(Seq::empty()));
                        assert(self.primary_index(tv, mode) == Some(p));
                        assert(self.secondary_index(tv, mode, p) is None);
                        assert(cand.primary_len == self.primary_branch(tv, mode, p).len());
                        assert(cand.primary_tokens@ == spec_pad(self.primary_branch(tv, mode, p)));
                        assert(self.proposes(tv, mode, cand));
                        assert(tv == all_tokens@);
                        assert(self.proposes(all_tokens@, mode, cand));
                        return Some(cand);
                    }
                } else {
                    let differs = !branch_equals(t, ds, dlen, &primary_tokens, primary_len);
                    proof {
                        let prim = self.primary_branch(tv, mode, p);
                        assert(primary_tokens@.take(primary_len as int) =~= prim);
                        assert(differs == (spec_draft(tv, ni, qi, di, i as int) != prim));
                    }
                    if differs {
                        let slen = if dlen <= 4 {
                            dlen
                        } else {
                            4
                        };
                        let secondary_tokens = fill_branch(t, ds, slen);
                        let cand = TreeDraftCandidate {
                            primary_tokens,
                            primary_len,
                            secondary_tokens,
                            secondary_len: slen,
                            mode,
                        };
                        proof {
                            let prim = self.primary_branch(tv, mode, p);
                            let dr = spec_draft(tv, ni, qi, di, i as int);
                            if dlen > 4 {
                                assert(dr.take(4) =~= tv.subrange(ds as int, ds + 4));
                            } else {
                                assert(dr =~= tv.subrange(ds as int, ds + slen));
                            }
                            assert(spec_find_alternative(tv, ni, qi, di, i as int, prim) == Some(i as int));
                            assert(self.primary_index(tv, mode) == Some(p));
                            assert(self.secondary_index(tv, mode, p) == Some(i as int));
                            assert(self.proposes(tv, mode, cand));
                            assert(tv == all_tokens@);
                        }
                        return Some(cand);
                    }
                }
            }
            if i == 0 {
                proof {
                    if primary_len == 0 {
                        assert(!spec_is_candidate(tv, ni, qi, di, 0));
                        assert(spec_find_candidate(tv, ni, qi, di, -1) is None);
                        assert(spec_find_candidate(tv, ni, qi, di, 0) is None);
                    }
                }
                break;
            }
            i -= 1;
        }
        if primary_len > 0 {
            let cand = TreeDraftCandidate {
                primary_tokens,
                primary_len,
                secondary_tokens: [0u32; 5],
                secondary_len: 0,
                mode,
            };
            proof {
                assert(cand.secondary_tokens@ =~= spec_pad(Seq::empty()));
                assert(self.primary_index(tv, mode) == Some(p));
                assert(self.proposes(tv, mode, cand));
                assert(tv == all_tokens@);
            }
            Some(cand)
        } else {
            assert(tv == all_tokens@);
            None
        }
    }
}

fn clamp_depth(x: usize) -> (r: usize)
    ensures
        r == if x < 1 {
            1
        } else if x > MAX_TREE_DEPTH {
            MAX_TREE_DEPTH
        } else {
            x
        },
{
    if x < 1 {
        1
    } else if x > MAX_TREE_DEPTH {
        MAX_TREE_DEPTH
    } else {
        x
    }
}

/// Whether `t[a..a+n] == t[b..b+n]`.
fn windows_equal(t: &[u32], a: usize, b: usize, n: usize) -> (r: bool)
    requires
        a + n <= t@.len(),
        b + n <= t@.len(),
    ensures
        r == (t@.subrange(a as int, a + n) == t@.subrange(b as int, b + n)),
{
    let tl = t.len();
    let ghost sa = t@.subrange(a as int, a + n);
    let ghost sb = t@.subrange(b as int, b + n);
    let mut j: usize = 0;
    while j < n
        invariant
            j <= n,
            a + n <= t@.len(),
            b + n <= t@.len(),
            sa == t@.subrange(a as int, a + n),
            tl == t@.len(),
            sb == t@.subrange(b as int, b + n),
            forall|m: int| 0 <= m < j ==> #[trigger] sa[m] == sb[m],
        decreases n - j,
    {
        if t[a + j] != t[b + j] {
            assert(sa[j as int] != sb[j as int]);
            return false;
        }
        j += 1;
    }
    assert(sa =~= sb);
    true
}

/// Copies `t[lo..lo+cnt]` into a zero-padded branch array.
fn fill_branch(t: &[u32], lo: usize, cnt: usize) -> (r: [u32; 5])
    requires
        cnt <= 5,
        lo + cnt <= t@.len(),
    ensures
        r@ == spec_pad(t@.subrange(lo as int, lo + cnt)),
{
    let mut r: [u32; 5] = [0u32; 5];
    let tl = t.len();
    let mut j: usize = 0;
    while j < cnt
        invariant
            tl == t@.len(),
            j <= cnt <= 5,
            lo + cnt <= t@.len(),
            r@.len() == 5,
            forall|m: int| 0 <= m < j ==> r@[m] == #[trigger] t@.subrange(lo as int, lo + cnt)[m],
            forall|m: int| j <= m < 5 ==> r@[m] == 0,
        decreases cnt - j,
    {
        r[j] = t[lo + j];
        j += 1;
    }
    assert(r@ =~= spec_pad(t@.subrange(lo as int, lo + cnt)));
    r
}

/// Whether `t[lo..lo+len]` equals the first `blen` entries of `branch`.
fn branch_equals(t: &[u32], lo: usize, len: usize, branch: &[u32; 5], blen: usize) -> (r: bool)
    requires
        lo + len <= t@.len(),
        blen <= 5,
    ensures
        r == (t@.subrange(lo as int, lo + len) == branch@.take(blen as int)),
{
    if len != blen {
        assert(t@.subrange(lo as int, lo + len).len() != branch@.take(blen as int).len());
        return false;
    }
    let tl = t.len();
    let mut j: usize = 0;
    while j < len
        invariant
            tl == t@.len(),
            j <= len == blen <= 5,
            lo + len <= t@.len(),
            branch@.len() == 5,
            forall|m: int| 0 <= m < j ==> #[trigger] t@.subrange(lo as int, lo + len)[m] == branch@[m],
        decreases len - j,
    {
        if t[lo + j] != branch[j] {
            assert(t@.subrange(lo as int, lo + len)[j as int] != branch@.take(blen as int)[j as int]);
            return false;
        }
        j += 1;
    }
    assert(t@.subrange(lo as int, lo + len) =~= branch@.take(blen as int));
    true
}

/// Greedy tree verifier.
#[derive(Debug, Clone, Copy)]
pub struct TreeVerifier;

/// Length of the longest common prefix of `a` and `b`, counted from `i`.
pub open spec fn spec_common_prefix_from(a: Seq<u32>, b: Seq<u32>, i: int) -> int
    decreases a.len() - i,
{
    if 0 <= i < a.len() && i < b.len() && a[i] == b[i] {
        spec_common_prefix_from(a, b, i + 1)
    } else {
        i
    }
}

proof fn lemma_common_prefix_from(a: Seq<u32>, b: Seq<u32>, i: int)
    requires
        0 <= i <= a.len(),
        i <= b.len(),
        a.take(i) == b.take(i),
    ensures
        i <= spec_common_prefix_from(a, b, i) <= a.len(),
        spec_common_prefix_from(a, b, i) <= b.len(),
        a.take(spec_common_prefix_from(a, b, i)) == b.take(spec_common_prefix_from(a, b, i)),
        spec_common_prefix_from(a, b, i) < a.len() && spec_common_prefix_from(a, b, i) < b.len()
            ==> a[spec_common_prefix_from(a, b, i)] != b[spec_common_prefix_from(a, b, i)],
    decreases a.len() - i,
{
    if i < a.len() && i < b.len() && a[i] == b[i] {
        assert(a.take(i + 1) =~= a.take(i).push(a[i]));
        assert(b.take(i + 1) =~= b.take(i).push(b[i]));
        lemma_common_prefix_from(a, b, i + 1);
    }
}

/// The verifier accepts exactly the longest common prefix of the draft and the model's
/// tokens: the accepted tokens agree, and the next pair, when both exist, differs.
pub proof fn lemma_accepts_longest_common_prefix(draft: Seq<u32>, verified: Seq<u32>)
    ensures
        0 <= spec_common_prefix_from(draft, verified, 0) <= draft.len(),
        spec_common_prefix_from(draft, verified, 0) <= verified.len(),
        draft.take(spec_common_prefix_from(draft, verified, 0)) == verified.take(
            spec_common_prefix_from(draft, verified, 0),
        ),
        spec_common_prefix_from(draft, verified, 0) < draft.len() && spec_common_prefix_from(draft, verified, 0)
            < verified.len() ==> draft[spec_common_prefix_from(draft, verified, 0)]
            != verified[spec_common_prefix_from(draft, verified, 0)],
{
    assert(draft.take(0) =~= verified.take(0));
    lemma_common_prefix_from(draft, verified, 0);
}

impl TreeVerifier {
    /// Number of leading draft tokens confirmed by the model's own predictions.
    pub fn verify_branch(candidate_branch: &[u32], verified_tokens: &[u32]) -> (r: usize)
        ensures
            r == spec_common_prefix_from(candidate_branch@, verified_tokens@, 0),
    {
        let check_len = if candidate_branch.len() <= verified_tokens.len() {
            candidate_branch.len()
        } else {
            verified_tokens.len()
        };
        let mut accepted: usize = 0;
        while accepted < check_len && candidate_branch[accepted] == verified_tokens[accepted]
            invariant
                accepted <= check_len,
                check_len <= candidate_branch@.len(),
                check_len <= verified_tokens@.len(),
                check_len == candidate_branch@.len() || check_len == verified_tokens@.len(),
                spec_common_prefix_from(candidate_branch@, verified_tokens@, accepted as int)
                    == spec_common_prefix_from(candidate_branch@, verified_tokens@, 0),
            decreases check_len - accepted,
        {
            accepted += 1;
        }
        accepted
    }
}

/// Single-branch proposer kept for callers that only want a linear draft.
#[derive(Debug, Clone)]
pub struct PromptLookupProposer {
    inner: TreePldProposer,
}

impl PromptLookupProposer {
    /// The wrapped tree proposer.
    pub closed spec fn inner(&self) -> TreePldProposer {
        self.inner
    }

    /// Creates a proposer with the given n-gram size and standard draft depth.
    pub fn new(ngram_size: usize, draft_size: usize) -> (r: Self)
        ensures
            r.inner() == TreePldProposer::new_spec(ngram_size, draft_size, REASONING_DRAFT_DEPTH),
            r.inner().wf(),
    {
        Self { inner: TreePldProposer::new(ngram_size, draft_size, REASONING_DRAFT_DEPTH) }
    }

    /// Deep-chain draft: the primary branch of the deep-chain proposal.
    pub fn propose(&self, all_tokens: &[u32]) -> (r: Option<Vec<u32>>)
        ensures
            r is None <==> self.inner().primary_index(all_tokens@, SpeculativeMode::DeepChain) is None,
            r matches Some(v) ==> v@ == self.inner().primary_branch(
                all_tokens@,
                SpeculativeMode::DeepChain,
                self.inner().primary_index(all_tokens@, SpeculativeMode::DeepChain)->0,
            ),
    {
        match self.inner.propose_tree(all_tokens, SpeculativeMode::DeepChain) {
            Some(c) => {
                let ghost prim = self.inner.primary_branch(
                    all_tokens@,
                    SpeculativeMode::DeepChain,
                    self.inner.primary_index(all_tokens@, SpeculativeMode::DeepChain)->0,
                );
                let v = vstd::slice::slice_to_vec(c.primary());
                assert(v@ =~= prim);
                Some(v)
            },
            None => None,
        }
    }

    /// Tree proposal in the given mode.
    pub fn propose_tree(&self, all_tokens: &[u32], mode: SpeculativeMode) -> (r: Option<
        TreeDraftCandidate,
    >)
        ensures
            r is None <==> self.inner().primary_index(all_tokens@, mode) is None,
            r matches Some(c) ==> self.inner().proposes(all_tokens@, mode, c),
    {
        self.inner.propose_tree(all_tokens, mode)
    }
}

impl TreePldProposer {
    /// The proposer `new` builds from these arguments.
    pub open spec fn new_spec(ngram_size: usize, standard_draft_size: usize, reasoning_draft_size: usize) -> Self {
        TreePldProposer {
            ngram_size: if ngram_size >= 1 { ngram_size } else { 1 },
            standard_draft_size: if standard_draft_size < 1 {
                1
            } else if standard_draft_size > MAX_TREE_DEPTH {
                MAX_TREE_DEPTH
            } else {
                standard_draft_size
            },
            reasoning_draft_size: if reasoning_draft_size < 1 {
                1
            } else if reasoning_draft_size > MAX_TREE_DEPTH {
                MAX_TREE_DEPTH
            } else {
                reasoning_draft_size
            },
        }
    }
}

} // verus!
