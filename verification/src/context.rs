//! The conversation context store (bounded, with pinned blocks that are evicted last) and
//! the context VM's text operations over it: search, character slices, summaries and
//! recursive-subtask bookkeeping.

use vstd::prelude::*;
use crate::text::{
    chars_of, contains, equals_str, lemma_line_end, line_bounds, push_all, push_decimal,
    push_str, spec_contains, spec_decimal, spec_line_at, spec_line_end,
};
use crate::minifier::code::{spec_to_lowercase, to_lowercase};

verus! {

broadcast use vstd::string::group_string_axioms;

/// Default block capacity of a store.
pub const DEFAULT_MAX_CONTEXT_BLOCKS: usize = 256;

/// Search results shown in a search reply.
pub const MAX_SEARCH_RESULTS_PREVIEW: usize = 5;

/// Characters of a block shown per search result.
pub const SEARCH_SNIPPET_CHAR_LIMIT: usize = 120;

/// Lines shown in a summary.
pub const SUMMARY_PREVIEW_LINES: usize = 3;

/// A block of context text.
pub struct ContextBlock {
    pub id: String,
    pub source: String,
    pub content: String,
    pub pinned: bool,
}

/// Abstract block.
pub struct ContextBlockView {
    pub id: Seq<char>,
    pub source: Seq<char>,
    pub content: Seq<char>,
    pub pinned: bool,
}

impl View for ContextBlock {
    type V = ContextBlockView;

    open spec fn view(&self) -> ContextBlockView {
        ContextBlockView { id: self.id@, source: self.source@, content: self.content@, pinned: self.pinned }
    }
}

/// The views of a list of blocks.
pub open spec fn spec_blocks(v: Seq<ContextBlock>) -> Seq<ContextBlockView> {
    v.map_values(|b: ContextBlock| b@)
}

/// Index of the first unpinned block.
pub open spec fn spec_first_unpinned(bs: Seq<ContextBlockView>) -> Option<int>
    decreases bs.len(),
{
    if bs.len() == 0 {
        None
    } else {
        match spec_first_unpinned(bs.drop_last()) {
            Some(i) => Some(i),
            None => if !bs.last().pinned {
                Some(bs.len() - 1)
            } else {
                None
            },
        }
    }
}

/// The blocks after adding `b` to a store holding at most `max` blocks: when full, the
/// first unpinned block makes room; with every block pinned, an unpinned block is refused
/// and a pinned one replaces the oldest.
pub open spec fn spec_add_block(bs: Seq<ContextBlockView>, max: int, b: ContextBlockView) -> Seq<ContextBlockView> {
    if bs.len() >= max {
        match spec_first_unpinned(bs) {
            Some(p) => bs.remove(p).push(b),
            None => if !b.pinned {
                bs
            } else if bs.len() > 0 {
                bs.drop_first().push(b)
            } else {
                bs.push(b)
            },
        }
    } else {
        bs.push(b)
    }
}

/// The blocks whose lower-cased content contains the lower-cased query, in order.
pub open spec fn spec_search(bs: Seq<ContextBlockView>, query: Seq<char>) -> Seq<ContextBlockView>
    decreases bs.len(),
{
    if bs.len() == 0 {
        Seq::empty()
    } else {
        let rest = spec_search(bs.drop_last(), query);
        if spec_contains(spec_to_lowercase(bs.last().content), spec_to_lowercase(query)) {
            rest.push(bs.last())
        } else {
            rest
        }
    }
}

/// The block's source or id is `key`.
pub open spec fn spec_block_is(b: ContextBlockView, key: Seq<char>) -> bool {
    b.source == key || b.id == key
}

/// Index of the first block whose source or id is `key`.
pub open spec fn spec_find_block(bs: Seq<ContextBlockView>, key: Seq<char>) -> Option<int>
    decreases bs.len(),
{
    if bs.len() == 0 {
        None
    } else {
        match spec_find_block(bs.drop_last(), key) {
            Some(i) => Some(i),
            None => if spec_block_is(bs.last(), key) {
                Some(bs.len() - 1)
            } else {
                None
            },
        }
    }
}

proof fn lemma_first_unpinned(bs: Seq<ContextBlockView>)
    ensures
        spec_first_unpinned(bs) matches Some(i) ==> 0 <= i < bs.len() && !bs[i].pinned && forall|j: int|
            0 <= j < i ==> #[trigger] bs[j].pinned,
        spec_first_unpinned(bs) is None ==> forall|j: int| 0 <= j < bs.len() ==> #[trigger] bs[j].pinned,
    decreases bs.len(),
{
    if bs.len() > 0 {
        let p = bs.drop_last();
        lemma_first_unpinned(p);
        match spec_first_unpinned(p) {
            Some(i) => {
                assert(p[i] == bs[i]);
                assert forall|j: int| 0 <= j < i implies #[trigger] bs[j].pinned by {
                    assert(p[j] == bs[j]);
                }
            },
            None => {
                assert forall|j: int| 0 <= j < p.len() implies #[trigger] bs[j].pinned by {
                    assert(p[j] == bs[j]);
                }
            },
        }
    }
}

proof fn lemma_find_block(bs: Seq<ContextBlockView>, key: Seq<char>)
    ensures
        spec_find_block(bs, key) matches Some(i) ==> 0 <= i < bs.len() && spec_block_is(bs[i], key) && forall|j: int| 0 <= j < i ==> !spec_block_is(#[trigger] bs[j], key),
        spec_find_block(bs, key) is None ==> forall|j: int| 0 <= j < bs.len() ==> !spec_block_is(#[trigger] bs[j], key),
    decreases bs.len(),
{
    if bs.len() > 0 {
        let p = bs.drop_last();
        lemma_find_block(p, key);
        match spec_find_block(p, key) {
            Some(i) => {
                assert(p[i] == bs[i]);
                assert forall|j: int| 0 <= j < i implies !spec_block_is(#[trigger] bs[j], key) by {
                    assert(p[j] == bs[j]);
                }
            },
            None => {
                assert forall|j: int| 0 <= j < p.len() implies !spec_block_is(#[trigger] bs[j], key) by {
                    assert(p[j] == bs[j]);
                }
            },
        }
    }
}

/// A bounded store of context blocks.
pub struct ContextStore {
    pub blocks: Vec<ContextBlock>,
    pub max_blocks: usize,
}

fn same_text(a: &str, b: &str) -> (r: bool)
    ensures
        r == (a@ == b@),
{
    let c = chars_of(a);
    equals_str(c.as_slice(), b)
}

impl ContextStore {
    /// An empty store with the default capacity.
    pub fn new() -> (r: Self)
        ensures
            r.blocks@.len() == 0,
            r.max_blocks == DEFAULT_MAX_CONTEXT_BLOCKS,
    {
        ContextStore { blocks: Vec::new(), max_blocks: DEFAULT_MAX_CONTEXT_BLOCKS }
    }

    /// An empty store holding at most `max_blocks` blocks.
    pub fn with_capacity(max_blocks: usize) -> (r: Self)
        ensures
            r.blocks@.len() == 0,
            r.max_blocks == max_blocks,
    {
        ContextStore { blocks: Vec::new(), max_blocks }
    }

    /// Adds a block (see [`spec_add_block`]).
    pub fn add_block(&mut self, id: &str, source: &str, content: &str, pinned: bool)
        ensures
            final(self).max_blocks == old(self).max_blocks,
            spec_blocks(final(self).blocks@) == spec_add_block(
                spec_blocks(old(self).blocks@),
                old(self).max_blocks as int,
                ContextBlockView { id: id@, source: source@, content: content@, pinned },
            ),
    {
        let ghost bs = spec_blocks(self.blocks@);
        proof {
            lemma_first_unpinned(bs);
        }
        if self.blocks.len() >= self.max_blocks {
            let n = self.blocks.len();
            let mut i: usize = 0;
            while i < n && self.blocks[i].pinned
                invariant
                    n == self.blocks@.len(),
                    i <= n,
                    bs == spec_blocks(self.blocks@),
                    forall|j: int| 0 <= j < i ==> #[trigger] bs[j].pinned,
                decreases n - i,
            {
                assert(bs[i as int] == self.blocks@[i as int]@);
                i += 1;
            }
            if i < n {
                proof {
                    assert(bs[i as int] == self.blocks@[i as int]@);
                    assert(spec_first_unpinned(bs) == Some(i as int)) by {
                        if spec_first_unpinned(bs) != Some(i as int) {
                            match spec_first_unpinned(bs) {
                                Some(k) => {
                                    if k < i {
                                        assert(bs[k].pinned);
                                    } else {
                                        assert(bs[i as int].pinned);
                                    }
                                },
                                None => {
                                    assert(bs[i as int].pinned);
                                },
                            }
                        }
                    }
                }
                let ghost v = self.blocks@;
                self.blocks.remove(i);
                assert(spec_blocks(self.blocks@) =~= bs.remove(i as int));
            } else {
                proof {
                    if spec_first_unpinned(bs) is Some {
                        let k = spec_first_unpinned(bs)->0;
                        assert(bs[k].pinned);
                    }
                }
                if !pinned {
                    return;
                } else if self.blocks.len() > 0 {
                    self.blocks.remove(0);
                    assert(spec_blocks(self.blocks@) =~= bs.drop_first());
                }
            }
        }
        let ghost before = spec_blocks(self.blocks@);
        let b = ContextBlock {
            id: id.to_owned(),
            source: source.to_owned(),
            content: content.to_owned(),
            pinned,
        };
        self.blocks.push(b);
        assert(spec_blocks(self.blocks@) =~= before.push(ContextBlockView { id: id@, source: source@, content: content@, pinned }));
    }

    /// The blocks whose content contains the query, ignoring letter case (see
    /// [`spec_search`]).
    pub fn search(&self, query: &str) -> (r: Vec<&ContextBlock>)
        ensures
            r@.map_values(|b: &ContextBlock| b@) == spec_search(spec_blocks(self.blocks@), query@),
    {
        let ql = to_lowercase(query);
        let qc = chars_of(ql.as_str());
        let mut r: Vec<&ContextBlock> = Vec::new();
        let n = self.blocks.len();
        for i in 0..n
            invariant
                n == self.blocks@.len(),
                qc@ == spec_to_lowercase(query@),
                r@.map_values(|b: &ContextBlock| b@) == spec_search(spec_blocks(self.blocks@).take(i as int), query@),
        {
            let b = &self.blocks[i];
            let lc = to_lowercase(b.content.as_str());
            let cc = chars_of(lc.as_str());
            let ghost before = r@;
            proof {
                let t = spec_blocks(self.blocks@).take(i + 1);
                assert(t.drop_last() =~= spec_blocks(self.blocks@).take(i as int));
                assert(t.last() == b@);
            }
            if contains(cc.as_slice(), qc.as_slice()) {
                r.push(b);
                assert(r@.map_values(|b: &ContextBlock| b@) =~= before.map_values(|b: &ContextBlock| b@).push(b@));
            }
        }
        assert(spec_blocks(self.blocks@).take(n as int) =~= spec_blocks(self.blocks@));
        r
    }

    /// The first block whose source or id is `source_or_id`.
    pub fn find_block(&self, source_or_id: &str) -> (r: Option<&ContextBlock>)
        ensures
            match spec_find_block(spec_blocks(self.blocks@), source_or_id@) {
                None => r is None,
                Some(i) => r matches Some(b) && *b == self.blocks@[i],
            },
    {
        let ghost bs = spec_blocks(self.blocks@);
        proof {
            lemma_find_block(bs, source_or_id@);
        }
        let n = self.blocks.len();
        for i in 0..n
            invariant
                n == self.blocks@.len(),
                bs == spec_blocks(self.blocks@),
                forall|j: int| 0 <= j < i ==> !spec_block_is(#[trigger] bs[j], source_or_id@),
                spec_find_block(bs, source_or_id@) matches Some(k) ==> k >= i,
        {
            let b = &self.blocks[i];
            assert(bs[i as int] == b@);
            if same_text(b.source.as_str(), source_or_id) || same_text(b.id.as_str(), source_or_id) {
                proof {
                    lemma_find_block(bs, source_or_id@);
                    match spec_find_block(bs, source_or_id@) {
                        Some(k) => {
                            if k > i {
                                assert(!spec_block_is(bs[i as int], source_or_id@));
                            }
                        },
                        None => {
                            assert(!spec_block_is(bs[i as int], source_or_id@));
                        },
                    }
                }
                return Some(b);
            }
            proof {
                lemma_find_block(bs, source_or_id@);
                match spec_find_block(bs, source_or_id@) {
                    Some(k) => {
                        if k == i {
                            assert(spec_block_is(bs[k], source_or_id@));
                        }
                    },
                    None => {},
                }
            }
        }
        None
    }
}

impl Default for ContextStore {
    fn default() -> (r: Self)
        ensures
            r.blocks@.len() == 0,
            r.max_blocks == DEFAULT_MAX_CONTEXT_BLOCKS,
    {
        ContextStore::new()
    }
}

/// An operation of the context VM.
pub enum ContextOp {
    Search { query: String },
    Slice { source: String, start: usize, end: usize },
    Summarize { source: String },
    Recurse { task: String, context_ids: Vec<String> },
}

/// The search results shown: at most [`MAX_SEARCH_RESULTS_PREVIEW`], each with the first
/// [`SEARCH_SNIPPET_CHAR_LIMIT`] characters of its content.
pub open spec fn spec_search_lines(rs: Seq<ContextBlockView>) -> Seq<char>
    decreases rs.len(),
{
    if rs.len() == 0 {
        Seq::empty()
    } else {
        let b = rs.last();
        let snip = if b.content.len() > SEARCH_SNIPPET_CHAR_LIMIT {
            b.content.take(SEARCH_SNIPPET_CHAR_LIMIT as int)
        } else {
            b.content
        };
        spec_search_lines(rs.drop_last()) + "- ["@ + b.id + "] (source: "@ + b.source + "): "@ + snip
            + "...\n"@
    }
}

/// The reply to a search.
pub open spec fn spec_op_search(bs: Seq<ContextBlockView>, query: Seq<char>) -> Seq<char> {
    let rs = spec_search(bs, query);
    if rs.len() == 0 {
        "No matching context blocks found for query '"@ + query + "'"@
    } else {
        "Found "@ + spec_decimal(rs.len()) + " relevant context blocks:\n"@ + spec_search_lines(
            rs.take(
                if rs.len() > MAX_SEARCH_RESULTS_PREVIEW {
                    MAX_SEARCH_RESULTS_PREVIEW as int
                } else {
                    rs.len() as int
                },
            ),
        )
    }
}

/// The reply when no block has the given source or id.
pub open spec fn spec_not_found(source: Seq<char>) -> Seq<char> {
    "Context source '"@ + source + "' not found in store."@
}

/// The reply to a slice of characters `start..end` (clamped to the content) of a block.
pub open spec fn spec_op_slice(bs: Seq<ContextBlockView>, source: Seq<char>, start: nat, end: nat) -> Seq<char> {
    match spec_find_block(bs, source) {
        None => spec_not_found(source),
        Some(i) => {
            let c = bs[i].content;
            if start >= c.len() {
                "Slice error: start index "@ + spec_decimal(start) + " out of bounds (total chars: "@
                    + spec_decimal(c.len()) + ") for '"@ + source + "'"@
            } else {
                let e = if end <= start {
                    start as int
                } else if end < c.len() {
                    end as int
                } else {
                    c.len() as int
                };
                "Slice ["@ + spec_decimal(start) + ".."@ + spec_decimal(end) + "] from '"@ + source + "':\n"@
                    + c.subrange(start as int, e)
            }
        },
    }
}

/// The first `k` lines of `s` from position `pos`, joined by newlines.
pub open spec fn spec_first_lines(s: Seq<char>, pos: int, k: int) -> Seq<char>
    decreases k,
{
    if k <= 0 || pos < 0 || pos >= s.len() {
        Seq::empty()
    } else {
        let next = spec_line_end(s, pos) + 1;
        let rest = spec_first_lines(s, next, k - 1);
        spec_line_at(s, pos) + if k - 1 <= 0 || next >= s.len() {
            Seq::<char>::empty()
        } else {
            seq!['\n'] + rest
        }
    }
}

/// The reply to a summary: the character count and the first lines.
pub open spec fn spec_op_summarize(bs: Seq<ContextBlockView>, source: Seq<char>) -> Seq<char> {
    match spec_find_block(bs, source) {
        None => spec_not_found(source),
        Some(i) => {
            let c = bs[i].content;
            "Summary of '"@ + source + "' ("@ + spec_decimal(c.len()) + " chars):\n"@ + spec_first_lines(
                c,
                0,
                SUMMARY_PREVIEW_LINES as int,
            ) + "..."@
        },
    }
}

/// UTF-8 byte length of a text.
pub open spec fn spec_utf8_len(c: Seq<char>) -> int {
    vstd::utf8::encode_utf8(c).len() as usize as int
}

/// Total UTF-8 bytes of the blocks named by `ids` (unknown names count 0).
pub open spec fn spec_recurse_bytes(bs: Seq<ContextBlockView>, ids: Seq<Seq<char>>) -> int
    decreases ids.len(),
{
    if ids.len() == 0 {
        0
    } else {
        spec_recurse_bytes(bs, ids.drop_last()) + match spec_find_block(bs, ids.last()) {
            Some(i) => spec_utf8_len(bs[i].content),
            None => 0,
        }
    }
}

/// The reply to a recursive-subtask request.
pub open spec fn spec_op_recurse(bs: Seq<ContextBlockView>, task: Seq<char>, ids: Seq<Seq<char>>) -> Seq<char> {
    "Recursive subtask '"@ + task + "' scheduled on "@ + spec_decimal(ids.len()) + " blocks (total "@
        + spec_decimal(spec_recurse_bytes(bs, ids) as nat) + " bytes)."@
}

proof fn lemma_recurse_bytes_mono(bs: Seq<ContextBlockView>, ids: Seq<Seq<char>>, k: int)
    requires
        0 <= k <= ids.len(),
    ensures
        0 <= spec_recurse_bytes(bs, ids.take(k)) <= spec_recurse_bytes(bs, ids),
    decreases ids.len() - k,
{
    if k < ids.len() {
        lemma_recurse_bytes_mono(bs, ids, k + 1);
        let t = ids.take(k + 1);
        assert(t.drop_last() =~= ids.take(k));
        let term = match spec_find_block(bs, t.last()) {
            Some(i) => spec_utf8_len(bs[i].content),
            None => 0,
        };
        assert(term >= 0);
        assert(spec_recurse_bytes(bs, t) == spec_recurse_bytes(bs, ids.take(k)) + term);
        lemma_recurse_bytes_nonneg(bs, ids.take(k));
    } else {
        assert(ids.take(k) =~= ids);
        lemma_recurse_bytes_nonneg(bs, ids);
    }
}

proof fn lemma_recurse_bytes_nonneg(bs: Seq<ContextBlockView>, ids: Seq<Seq<char>>)
    ensures
        spec_recurse_bytes(bs, ids) >= 0,
    decreases ids.len(),
{
    if ids.len() > 0 {
        lemma_recurse_bytes_nonneg(bs, ids.drop_last());
    }
}

fn push_first_lines(out: &mut String, s: &[char], pos: usize, k: usize)
    requires
        pos <= s@.len(),
    ensures
        final(out)@ == old(out)@ + spec_first_lines(s@, pos as int, k as int),
    decreases k,
{
    if k == 0 || pos >= s.len() {
        assert(final(out)@ =~= old(out)@ + spec_first_lines(s@, pos as int, k as int)) by {
            assert(spec_first_lines(s@, pos as int, k as int) =~= Seq::<char>::empty());
        }
        return;
    }
    let (hi, next) = line_bounds(s, pos);
    proof {
        lemma_line_end(s@, pos as int);
    }
    push_all(out, &s[pos..hi]);
    assert(s@.subrange(pos as int, hi as int) == spec_line_at(s@, pos as int));
    let ghost mid = out@;
    let more = k - 1 > 0 && next < s.len();
    if more {
        out.push('\n');
        push_first_lines(out, s, next, k - 1);
        proof {
            assert(next as int == spec_line_end(s@, pos as int) + 1);
        }
    } else {
        proof {
            if k - 1 > 0 {
                assert(next == s@.len());
                assert(spec_line_end(s@, pos as int) + 1 >= s@.len());
            }
        }
    }
}

/// The context VM over a store.
pub struct ContextVm<'a> {
    pub store: &'a ContextStore,
}

impl<'a> ContextVm<'a> {
    /// A VM reading `store`.
    pub fn new(store: &'a ContextStore) -> (r: Self)
        ensures
            *r.store == *store,
    {
        ContextVm { store }
    }

    /// Runs one operation and returns its reply.
    pub fn execute(&mut self, op: ContextOp) -> (r: String)
        requires
            op matches ContextOp::Recurse { task, context_ids } ==> spec_recurse_bytes(
                spec_blocks(old(self).store.blocks@),
                spec_blocks_ids(context_ids@),
            ) <= usize::MAX,
        ensures
            r@ == (match op {
                ContextOp::Search { query } => spec_op_search(spec_blocks(old(self).store.blocks@), query@),
                ContextOp::Slice { source, start, end } => spec_op_slice(
                    spec_blocks(old(self).store.blocks@),
                    source@,
                    start as nat,
                    end as nat,
                ),
                ContextOp::Summarize { source } => spec_op_summarize(spec_blocks(old(self).store.blocks@), source@),
                ContextOp::Recurse { task, context_ids } => spec_op_recurse(
                    spec_blocks(old(self).store.blocks@),
                    task@,
                    spec_blocks_ids(context_ids@),
                ),
            }),
            *final(self).store == *old(self).store,
    {
        match op {
            ContextOp::Search { query } => self.op_search(query.as_str()),
            ContextOp::Slice { source, start, end } => self.op_slice(source.as_str(), start, end),
            ContextOp::Summarize { source } => self.op_summarize(source.as_str()),
            ContextOp::Recurse { task, context_ids } => self.op_recurse(task.as_str(), context_ids.as_slice()),
        }
    }

    fn op_search(&self, query: &str) -> (r: String)
        ensures
            r@ == spec_op_search(spec_blocks(self.store.blocks@), query@),
    {
        let results = self.store.search(query);
        let ghost rs = results@.map_values(|b: &ContextBlock| b@);
        let mut out = String::new();
        if results.len() == 0 {
            push_str(&mut out, "No matching context blocks found for query '");
            push_str(&mut out, query);
            push_str(&mut out, "'");
            return out;
        }
        push_str(&mut out, "Found ");
        push_decimal(&mut out, results.len());
        push_str(&mut out, " relevant context blocks:\n");
        let ghost head = out@;
        let shown = if results.len() > MAX_SEARCH_RESULTS_PREVIEW {
            MAX_SEARCH_RESULTS_PREVIEW
        } else {
            results.len()
        };
        for i in 0..shown
            invariant
                shown <= results@.len(),
                rs == results@.map_values(|b: &ContextBlock| b@),
                out@ == head + spec_search_lines(rs.take(i as int)),
        {
            let b = results[i];
            let cc = chars_of(b.content.as_str());
            let lim = if cc.len() > SEARCH_SNIPPET_CHAR_LIMIT {
                SEARCH_SNIPPET_CHAR_LIMIT
            } else {
                cc.len()
            };
            let ghost before = out@;
            push_str(&mut out, "- [");
            push_str(&mut out, b.id.as_str());
            push_str(&mut out, "] (source: ");
            push_str(&mut out, b.source.as_str());
            push_str(&mut out, "): ");
            push_all(&mut out, &cc.as_slice()[0..lim]);
            push_str(&mut out, "...\n");
            proof {
                let t = rs.take(i + 1);
                assert(t.drop_last() =~= rs.take(i as int));
                assert(t.last() == b@);
                if cc@.len() > SEARCH_SNIPPET_CHAR_LIMIT {
                    assert(cc@.subrange(0, lim as int) =~= b@.content.take(SEARCH_SNIPPET_CHAR_LIMIT as int));
                } else {
                    assert(cc@.subrange(0, lim as int) =~= b@.content);
                }
                assert(out@ =~= head + spec_search_lines(t));
            }
        }
        out
    }

    fn op_slice(&self, source: &str, start: usize, end: usize) -> (r: String)
        ensures
            r@ == spec_op_slice(spec_blocks(self.store.blocks@), source@, start as nat, end as nat),
    {
        let mut out = String::new();
        match self.store.find_block(source) {
            None => {
                push_str(&mut out, "Context source '");
                push_str(&mut out, source);
                push_str(&mut out, "' not found in store.");
                out
            },
            Some(b) => {
                proof {
                    let i = spec_find_block(spec_blocks(self.store.blocks@), source@)->0;
                    lemma_find_block(spec_blocks(self.store.blocks@), source@);
                    assert(spec_blocks(self.store.blocks@)[i] == self.store.blocks@[i]@);
                }
                let cc = chars_of(b.content.as_str());
                let total = cc.len();
                if start >= total {
                    push_str(&mut out, "Slice error: start index ");
                    push_decimal(&mut out, start);
                    push_str(&mut out, " out of bounds (total chars: ");
                    push_decimal(&mut out, total);
                    push_str(&mut out, ") for '");
                    push_str(&mut out, source);
                    push_str(&mut out, "'");
                    return out;
                }
                let e = if end <= start {
                    start
                } else if end < total {
                    end
                } else {
                    total
                };
                push_str(&mut out, "Slice [");
                push_decimal(&mut out, start);
                push_str(&mut out, "..");
                push_decimal(&mut out, end);
                push_str(&mut out, "] from '");
                push_str(&mut out, source);
                push_str(&mut out, "':\n");
                push_all(&mut out, &cc.as_slice()[start..e]);
                out
            },
        }
    }

    fn op_summarize(&self, source: &str) -> (r: String)
        ensures
            r@ == spec_op_summarize(spec_blocks(self.store.blocks@), source@),
    {
        let mut out = String::new();
        match self.store.find_block(source) {
            None => {
                push_str(&mut out, "Context source '");
                push_str(&mut out, source);
                push_str(&mut out, "' not found in store.");
                out
            },
            Some(b) => {
                proof {
                    let i = spec_find_block(spec_blocks(self.store.blocks@), source@)->0;
                    lemma_find_block(spec_blocks(self.store.blocks@), source@);
                    assert(spec_blocks(self.store.blocks@)[i] == self.store.blocks@[i]@);
                }
                let cc = chars_of(b.content.as_str());
                push_str(&mut out, "Summary of '");
                push_str(&mut out, source);
                push_str(&mut out, "' (");
                push_decimal(&mut out, cc.len());
                push_str(&mut out, " chars):\n");
                push_first_lines(&mut out, cc.as_slice(), 0, SUMMARY_PREVIEW_LINES);
                push_str(&mut out, "...");
                out
            },
        }
    }

    fn op_recurse(&self, task: &str, context_ids: &[String]) -> (r: String)
        requires
            spec_recurse_bytes(spec_blocks(self.store.blocks@), spec_blocks_ids(context_ids@)) <= usize::MAX,
        ensures
            r@ == spec_op_recurse(spec_blocks(self.store.blocks@), task@, spec_blocks_ids(context_ids@)),
    {
        let ghost bs = spec_blocks(self.store.blocks@);
        let ghost ids = spec_blocks_ids(context_ids@);
        let mut combined: usize = 0;
        let n = context_ids.len();
        for i in 0..n
            invariant
                n == context_ids@.len(),
                bs == spec_blocks(self.store.blocks@),
                ids == spec_blocks_ids(context_ids@),
                spec_recurse_bytes(bs, ids) <= usize::MAX,
                combined == spec_recurse_bytes(bs, ids.take(i as int)),
        {
            proof {
                lemma_recurse_bytes_mono(bs, ids, i + 1);
                let t = ids.take(i + 1);
                assert(t.drop_last() =~= ids.take(i as int));
                assert(t.last() == context_ids@[i as int]@);
            }
            match self.store.find_block(context_ids[i].as_str()) {
                Some(b) => {
                    proof {
                        let k = spec_find_block(bs, context_ids@[i as int]@)->0;
                        lemma_find_block(bs, context_ids@[i as int]@);
                        assert(bs[k] == self.store.blocks@[k]@);
                    }
                    combined = combined + b.content.as_str().len();
                },
                None => {},
            }
        }
        assert(ids.take(n as int) =~= ids);
        let mut out = String::new();
        push_str(&mut out, "Recursive subtask '");
        push_str(&mut out, task);
        push_str(&mut out, "' scheduled on ");
        push_decimal(&mut out, n);
        push_str(&mut out, " blocks (total ");
        push_decimal(&mut out, combined);
        push_str(&mut out, " bytes).");
        out
    }
}

/// The views of a list of names.
pub open spec fn spec_blocks_ids(v: Seq<String>) -> Seq<Seq<char>> {
    v.map_values(|s: String| s@)
}

/// Adding a block never takes a store with room for at least one block past its capacity,
/// and adding an unpinned block never evicts a pinned one.
pub proof fn lemma_add_block_bounds(bs: Seq<ContextBlockView>, max: int, b: ContextBlockView)
    requires
        bs.len() <= max,
        max > 0,
    ensures
        spec_add_block(bs, max, b).len() <= max,
        !b.pinned ==> forall|i: int| 0 <= i < bs.len() && #[trigger] bs[i].pinned ==> spec_add_block(
            bs,
            max,
            b,
        ).contains(bs[i]),
{
    lemma_first_unpinned(bs);
    let r = spec_add_block(bs, max, b);
    if !b.pinned {
        assert forall|i: int| 0 <= i < bs.len() && #[trigger] bs[i].pinned implies r.contains(bs[i]) by {
            if bs.len() >= max {
                match spec_first_unpinned(bs) {
                    Some(p) => {
                        if i < p {
                            assert(r[i] == bs[i]);
                        } else {
                            assert(i != p);
                            assert(r[i - 1] == bs[i]);
                        }
                    },
                    None => {
                        assert(r[i] == bs[i]);
                    },
                }
            } else {
                assert(r[i] == bs[i]);
            }
        }
    }
}

} // verus!
