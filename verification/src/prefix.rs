//! Chunked prefix caching: token streams are cut into fixed-size chunks, each chunk is
//! identified by a hash chained over all chunks before it, and the inference state at a
//! chunk boundary is kept in a bounded LRU cache so that a shared prompt prefix can be
//! restored instead of recomputed.

use vstd::prelude::*;
use std::collections::{HashMap, VecDeque};

verus! {

broadcast use {
    vstd::std_specs::hash::group_hash_axioms,
    vstd::std_specs::vecdeque::group_vec_dequeue_axioms,
};

/// Default number of tokens per chunk.
pub const PREFIX_CHUNK_SIZE: usize = 64;

/// Default maximum number of cached chunks.
pub const DEFAULT_MAX_CACHED_CHUNKS: usize = 32;

/// Default memory budget of a prefix cache (32 MiB).
pub const DEFAULT_MAX_PREFIX_CACHE_BYTES: usize = 33554432;

/// FNV-1a 64-bit prime.
pub const FNV_PRIME: u64 = 0x00000100000001B3;

/// FNV-1a 64-bit offset basis, the starting hash of a chain.
pub const FNV_OFFSET_BASIS: u64 = 0xCBF29CE484222325;

/// Mixed into a non-zero predecessor hash before the chunk's bytes.
pub const CHAIN_SEPARATOR: u64 = 0x9E3779B97F4A7C15;

/// One FNV-1a step over a byte.
pub open spec fn spec_fnv_byte(h: u64, b: u64) -> u64 {
    (h ^ b).wrapping_mul(FNV_PRIME)
}

/// FNV-1a over the four little-endian bytes of a token.
pub open spec fn spec_fnv_token(h: u64, t: u32) -> u64 {
    let h1 = spec_fnv_byte(h, (t & 0xff) as u64);
    let h2 = spec_fnv_byte(h1, ((t >> 8u32) & 0xff) as u64);
    let h3 = spec_fnv_byte(h2, ((t >> 16u32) & 0xff) as u64);
    spec_fnv_byte(h3, ((t >> 24u32) & 0xff) as u64)
}

/// FNV-1a over the tokens, starting from `h`.
pub open spec fn spec_fnv_tokens(h: u64, tokens: Seq<u32>) -> u64
    decreases tokens.len(),
{
    if tokens.len() == 0 {
        h
    } else {
        spec_fnv_token(spec_fnv_tokens(h, tokens.drop_last()), tokens.last())
    }
}

/// Hash of a chunk chained after the chunk hashed `prev_hash` (0 starts a chain).
pub open spec fn spec_chunk_hash(prev_hash: u64, tokens: Seq<u32>) -> u64 {
    spec_fnv_tokens(
        if prev_hash == 0 {
            FNV_OFFSET_BASIS
        } else {
            prev_hash ^ CHAIN_SEPARATOR
        },
        tokens,
    )
}

/// 64-bit FNV-1a hash of a chunk's tokens (little-endian bytes), chained with the hash of
/// the previous chunk (0 for the first chunk).
pub fn compute_chunk_hash(prev_hash: u64, tokens: &[u32]) -> (r: u64)
    ensures
        r == spec_chunk_hash(prev_hash, tokens@),
{
    let mut hash: u64 = if prev_hash == 0 {
        FNV_OFFSET_BASIS
    } else {
        prev_hash ^ CHAIN_SEPARATOR
    };
    let ghost h0 = hash;
    let n = tokens.len();
    for i in 0..n
        invariant
            n == tokens@.len(),
            hash == spec_fnv_tokens(h0, tokens@.take(i as int)),
            h0 == (if prev_hash == 0 { FNV_OFFSET_BASIS } else { prev_hash ^ CHAIN_SEPARATOR }),
    {
        let tok = tokens[i];
        hash = (hash ^ ((tok & 0xff) as u64)).wrapping_mul(FNV_PRIME);
        hash = (hash ^ (((tok >> 8u32) & 0xff) as u64)).wrapping_mul(FNV_PRIME);
        hash = (hash ^ (((tok >> 16u32) & 0xff) as u64)).wrapping_mul(FNV_PRIME);
        hash = (hash ^ (((tok >> 24u32) & 0xff) as u64)).wrapping_mul(FNV_PRIME);
        proof {
            let t = tokens@.take(i + 1);
            assert(t.drop_last() =~= tokens@.take(i as int));
            assert(t.last() == tok);
        }
    }
    assert(tokens@.take(n as int) =~= tokens@);
    hash
}

/// The inference state at a sequence position: attention K/V up to the position and the
/// recurrent layers' states. Generic over the element type of the state arrays.
pub struct HybridStateSnapshot<T> {
    /// Token position reached.
    pub pos: usize,
    /// Hash of the chunk's tokens on their own (previous hash 0), for suffix matching.
    pub standalone_hash: u64,
    pub k_cache: Vec<T>,
    pub v_cache: Vec<T>,
    pub ssm_conv_states: Vec<T>,
    pub ssm_hidden_states: Vec<T>,
}

impl<T> HybridStateSnapshot<T> {
    /// Estimated bytes held: all state elements plus the snapshot header.
    pub open spec fn spec_memory_bytes(&self) -> int {
        ((self.k_cache@.len() + self.v_cache@.len() + self.ssm_conv_states@.len()
            + self.ssm_hidden_states@.len()) * vstd::layout::size_of::<T>()
            + vstd::layout::size_of::<HybridStateSnapshot<T>>()) as int
    }

    /// A snapshot of the given parts.
    pub fn new(
        pos: usize,
        standalone_hash: u64,
        k_cache: Vec<T>,
        v_cache: Vec<T>,
        ssm_conv_states: Vec<T>,
        ssm_hidden_states: Vec<T>,
    ) -> (r: Self)
        ensures
            r.pos == pos,
            r.standalone_hash == standalone_hash,
            r.k_cache@ == k_cache@,
            r.v_cache@ == v_cache@,
            r.ssm_conv_states@ == ssm_conv_states@,
            r.ssm_hidden_states@ == ssm_hidden_states@,
    {
        Self { pos, standalone_hash, k_cache, v_cache, ssm_conv_states, ssm_hidden_states }
    }

    /// Estimated bytes held by the snapshot.
    pub fn memory_bytes(&self) -> (r: usize)
        requires
            self.spec_memory_bytes() <= usize::MAX,
        ensures
            r == self.spec_memory_bytes(),
    {
        let n = self.k_cache.len() as u128 + self.v_cache.len() as u128 + self.ssm_conv_states.len() as u128
            + self.ssm_hidden_states.len() as u128;
        let elem = core::mem::size_of::<T>();
        let head = core::mem::size_of::<HybridStateSnapshot<T>>();
        proof {
            assert(n * elem + head <= usize::MAX);
            assert(n * elem <= usize::MAX);
            if elem > 0 {
                assert(n <= n * elem) by (nonlinear_arith)
                    requires
                        elem >= 1,
                        n >= 0,
                ;
            }
        }
        if elem == 0 {
            head
        } else {
            (n as usize) * elem + head
        }
    }
}

impl<T: Clone> Clone for HybridStateSnapshot<T> {
    fn clone(&self) -> (r: Self)
        ensures
            r.pos == self.pos,
            r.standalone_hash == self.standalone_hash,
            r.k_cache@.len() == self.k_cache@.len(),
            r.v_cache@.len() == self.v_cache@.len(),
            r.ssm_conv_states@.len() == self.ssm_conv_states@.len(),
            r.ssm_hidden_states@.len() == self.ssm_hidden_states@.len(),
    {
        Self {
            pos: self.pos,
            standalone_hash: self.standalone_hash,
            k_cache: self.k_cache.clone(),
            v_cache: self.v_cache.clone(),
            ssm_conv_states: self.ssm_conv_states.clone(),
            ssm_hidden_states: self.ssm_hidden_states.clone(),
        }
    }
}

/// A cached chunk: its place in the sequence, its chained hash, its tokens and the state
/// at its end.
pub struct PrefixChunk<T> {
    pub chunk_index: usize,
    pub hash: u64,
    pub tokens: Vec<u32>,
    pub state: HybridStateSnapshot<T>,
}

impl<T: Clone> Clone for PrefixChunk<T> {
    fn clone(&self) -> (r: Self)
        ensures
            r.chunk_index == self.chunk_index,
            r.hash == self.hash,
            r.tokens@ == self.tokens@,
            r.state.pos == self.state.pos,
            r.state.standalone_hash == self.state.standalone_hash,
            r.state.spec_memory_bytes() == self.state.spec_memory_bytes(),
    {
        Self {
            chunk_index: self.chunk_index,
            hash: self.hash,
            tokens: self.tokens.clone(),
            state: self.state.clone(),
        }
    }
}

/// Bytes charged for the chunks listed in `lru`.
pub open spec fn spec_lru_bytes<T>(lru: Seq<u64>, chunks: Map<u64, PrefixChunk<T>>) -> int
    decreases lru.len(),
{
    if lru.len() == 0 {
        0
    } else {
        spec_lru_bytes(lru.drop_last(), chunks) + chunks[lru.last()].state.spec_memory_bytes()
    }
}

/// Abstract state of a prefix cache: the cached chunks by hash, the hashes from least to
/// most recently used, and the byte accounting.
pub struct PrefixCacheView<T> {
    pub chunk_size: nat,
    pub max_chunks: nat,
    pub chunks: Map<u64, PrefixChunk<T>>,
    pub lru: Seq<u64>,
    pub total_bytes: nat,
    pub max_bytes: nat,
}

/// A well-formed cache: the LRU order lists every cached hash exactly once, each chunk is
/// stored under its own hash, the byte total is the sum over the chunks, and there are
/// never more chunks than the limit.
pub open spec fn spec_cache_wf<T>(v: PrefixCacheView<T>) -> bool {
    &&& spec_cache_core(v)
    &&& v.total_bytes <= v.max_bytes
}

/// The structural part of well-formedness (the byte budget may be exceeded in the middle
/// of an insertion).
pub open spec fn spec_cache_core<T>(v: PrefixCacheView<T>) -> bool {
    &&& v.chunk_size > 0
    &&& v.max_chunks > 0
    &&& v.max_bytes > 0
    &&& v.lru.no_duplicates()
    &&& forall|k: u64| #[trigger] v.chunks.contains_key(k) <==> v.lru.contains(k)
    &&& forall|k: u64| #[trigger] v.chunks.contains_key(k) ==> v.chunks[k].hash == k
    &&& v.total_bytes == spec_lru_bytes(v.lru, v.chunks)
    &&& v.lru.len() <= v.max_chunks
}

/// Moves `h` to the most recently used end, if it is cached.
pub open spec fn spec_touch(lru: Seq<u64>, h: u64) -> Seq<u64> {
    if lru.contains(h) {
        lru.remove(lru.index_of(h)).push(h)
    } else {
        lru
    }
}

/// The cache without its least recently used chunk.
pub open spec fn spec_pop_lru<T>(v: PrefixCacheView<T>) -> PrefixCacheView<T> {
    let k = v.lru[0];
    let b = v.chunks[k].state.spec_memory_bytes();
    PrefixCacheView {
        lru: v.lru.drop_first(),
        chunks: v.chunks.remove(k),
        total_bytes: if v.total_bytes >= b { (v.total_bytes - b) as nat } else { 0 },
        ..v
    }
}

/// Evicts least recently used chunks while the total exceeds `target`.
pub open spec fn spec_prune<T>(v: PrefixCacheView<T>, target: int) -> PrefixCacheView<T>
    decreases v.lru.len(),
{
    if v.total_bytes > target && v.lru.len() > 0 {
        spec_prune(spec_pop_lru(v), target)
    } else {
        v
    }
}

/// The cache with a new chunk stored under `h` as the most recently used.
pub open spec fn spec_add<T>(v: PrefixCacheView<T>, h: u64, c: PrefixChunk<T>) -> PrefixCacheView<T> {
    PrefixCacheView {
        chunks: v.chunks.insert(h, c),
        lru: v.lru.push(h),
        total_bytes: (v.total_bytes + c.state.spec_memory_bytes()) as nat,
        ..v
    }
}

proof fn lemma_lru_bytes_nonneg<T>(lru: Seq<u64>, chunks: Map<u64, PrefixChunk<T>>)
    ensures
        spec_lru_bytes(lru, chunks) >= 0,
    decreases lru.len(),
{
    if lru.len() > 0 {
        lemma_lru_bytes_nonneg(lru.drop_last(), chunks);
    }
}

/// The byte sum does not depend on chunks that are not listed.
proof fn lemma_lru_bytes_frame<T>(lru: Seq<u64>, a: Map<u64, PrefixChunk<T>>, b: Map<u64, PrefixChunk<T>>)
    requires
        forall|i: int| 0 <= i < lru.len() ==> a[lru[i]] == b[lru[i]],
    ensures
        spec_lru_bytes(lru, a) == spec_lru_bytes(lru, b),
    decreases lru.len(),
{
    if lru.len() > 0 {
        lemma_lru_bytes_frame(lru.drop_last(), a, b);
        assert(a[lru[lru.len() - 1]] == b[lru[lru.len() - 1]]);
    }
}

/// Summing over `x + y` sums over `x` and then over `y`.
proof fn lemma_lru_bytes_concat<T>(x: Seq<u64>, y: Seq<u64>, m: Map<u64, PrefixChunk<T>>)
    ensures
        spec_lru_bytes(x + y, m) == spec_lru_bytes(x, m) + spec_lru_bytes(y, m),
    decreases y.len(),
{
    if y.len() == 0 {
        assert(x + y =~= x);
    } else {
        assert((x + y).drop_last() =~= x + y.drop_last());
        lemma_lru_bytes_concat(x, y.drop_last(), m);
    }
}

/// Evicting the oldest chunk keeps the cache well formed and removes its bytes.
proof fn lemma_pop_lru_wf<T>(v: PrefixCacheView<T>)
    requires
        spec_cache_core(v),
        v.lru.len() > 0,
    ensures
        spec_cache_core(spec_pop_lru(v)),
        spec_cache_wf(v) ==> spec_cache_wf(spec_pop_lru(v)),
        spec_pop_lru(v).lru.len() == v.lru.len() - 1,
        spec_pop_lru(v).total_bytes == v.total_bytes - v.chunks[v.lru[0]].state.spec_memory_bytes(),
        0 <= v.chunks[v.lru[0]].state.spec_memory_bytes() <= v.total_bytes,
{
    let k = v.lru[0];
    let rest = v.lru.drop_first();
    let w = spec_pop_lru(v);
    assert(v.lru =~= seq![k] + rest);
    lemma_lru_bytes_concat(seq![k], rest, v.chunks);
    assert(seq![k].drop_last() =~= Seq::<u64>::empty());
    assert(spec_lru_bytes(Seq::<u64>::empty(), v.chunks) == 0);
    assert(seq![k].last() == k);
    assert(spec_lru_bytes(seq![k], v.chunks) == v.chunks[k].state.spec_memory_bytes());
    assert forall|i: int| 0 <= i < rest.len() implies v.chunks[rest[i]] == v.chunks.remove(k)[rest[i]] by {
        assert(rest[i] == v.lru[i + 1]);
        assert(rest[i] != k);
    }
    lemma_lru_bytes_frame(rest, v.chunks, v.chunks.remove(k));
    lemma_lru_bytes_nonneg(rest, v.chunks);
    assert(v.chunks[k].state.spec_memory_bytes() >= 0) by {
        vstd::arithmetic::mul::lemma_mul_nonnegative(
            (v.chunks[k].state.k_cache@.len() + v.chunks[k].state.v_cache@.len()
                + v.chunks[k].state.ssm_conv_states@.len() + v.chunks[k].state.ssm_hidden_states@.len()) as int,
            vstd::layout::size_of::<T>() as int,
        );
    }
    assert forall|x: u64| #[trigger] w.chunks.contains_key(x) <==> w.lru.contains(x) by {
        if w.lru.contains(x) {
            let i = choose|i: int| 0 <= i < w.lru.len() && w.lru[i] == x;
            assert(v.lru[i + 1] == x);
            assert(x != k);
        }
        if w.chunks.contains_key(x) {
            assert(v.lru.contains(x));
            let i = choose|i: int| 0 <= i < v.lru.len() && v.lru[i] == x;
            assert(i != 0);
            assert(w.lru[i - 1] == x);
        }
    }
}

/// Pruning keeps the cache well formed, only ever evicts, and leaves the total within
/// `target` unless the cache became empty.
proof fn lemma_prune_wf<T>(v: PrefixCacheView<T>, target: int)
    requires
        spec_cache_core(v),
    ensures
        spec_cache_core(spec_prune(v, target)),
        (spec_cache_wf(v) || target <= v.max_bytes) ==> spec_cache_wf(spec_prune(v, target)),
        spec_prune(v, target).total_bytes <= target || spec_prune(v, target).lru.len() == 0,
        spec_prune(v, target).lru.len() <= v.lru.len(),
        spec_prune(v, target).total_bytes <= v.total_bytes,
        spec_prune(v, target).max_bytes == v.max_bytes,
        spec_prune(v, target).max_chunks == v.max_chunks,
        spec_prune(v, target).chunk_size == v.chunk_size,
        forall|k: u64| #[trigger] spec_prune(v, target).chunks.contains_key(k) ==> v.chunks.contains_key(k)
            && spec_prune(v, target).chunks[k] == v.chunks[k],
    decreases v.lru.len(),
{
    if v.total_bytes > target && v.lru.len() > 0 {
        lemma_pop_lru_wf(v);
        lemma_prune_wf(spec_pop_lru(v), target);
    }
}

/// In-memory LRU cache of chunk-boundary states, bounded both in chunks and in bytes.
pub struct PrefixCache<T> {
    chunk_size: usize,
    max_chunks: usize,
    chunks: HashMap<u64, PrefixChunk<T>>,
    lru_order: VecDeque<u64>,
    total_memory_bytes: usize,
    max_memory_bytes: usize,
}

impl<T> View for PrefixCache<T> {
    type V = PrefixCacheView<T>;

    closed spec fn view(&self) -> PrefixCacheView<T> {
        PrefixCacheView {
            chunk_size: self.chunk_size as nat,
            max_chunks: self.max_chunks as nat,
            chunks: self.chunks@,
            lru: self.lru_order@,
            total_bytes: self.total_memory_bytes as nat,
            max_bytes: self.max_memory_bytes as nat,
        }
    }
}

impl<T> PrefixCache<T> {
    /// The cache is well formed (see [`spec_cache_wf`]).
    pub closed spec fn wf(&self) -> bool {
        spec_cache_wf(self@)
    }

    /// A cache with at most `max_chunks` chunks of `chunk_size` tokens and the default
    /// memory budget (zero arguments select the defaults).
    pub fn new(max_chunks: usize, chunk_size: usize) -> (r: Self)
        ensures
            r.wf(),
            r@.chunks.is_empty(),
            r@.lru.len() == 0,
            r@.total_bytes == 0,
            r@.chunk_size == (if chunk_size > 0 { chunk_size } else { PREFIX_CHUNK_SIZE }),
            r@.max_chunks == (if max_chunks > 0 { max_chunks } else { DEFAULT_MAX_CACHED_CHUNKS }),
            r@.max_bytes == DEFAULT_MAX_PREFIX_CACHE_BYTES,
    {
        Self::with_budget(max_chunks, chunk_size, DEFAULT_MAX_PREFIX_CACHE_BYTES)
    }

    /// A cache with an explicit memory budget (zero arguments select the defaults).
    pub fn with_budget(max_chunks: usize, chunk_size: usize, max_memory_bytes: usize) -> (r: Self)
        ensures
            r.wf(),
            r@.chunks.is_empty(),
            r@.lru.len() == 0,
            r@.total_bytes == 0,
            r@.chunk_size == (if chunk_size > 0 { chunk_size } else { PREFIX_CHUNK_SIZE }),
            r@.max_chunks == (if max_chunks > 0 { max_chunks } else { DEFAULT_MAX_CACHED_CHUNKS }),
            r@.max_bytes == (if max_memory_bytes > 0 { max_memory_bytes } else { DEFAULT_MAX_PREFIX_CACHE_BYTES }),
    {
        let cap = if max_chunks < 32 {
            max_chunks
        } else {
            32
        };
        let r = Self {
            chunk_size: if chunk_size > 0 {
                chunk_size
            } else {
                PREFIX_CHUNK_SIZE
            },
            max_chunks: if max_chunks > 0 {
                max_chunks
            } else {
                DEFAULT_MAX_CACHED_CHUNKS
            },
            chunks: HashMap::with_capacity(cap),
            lru_order: VecDeque::with_capacity(cap),
            total_memory_bytes: 0,
            max_memory_bytes: if max_memory_bytes > 0 {
                max_memory_bytes
            } else {
                DEFAULT_MAX_PREFIX_CACHE_BYTES
            },
        };
        assert(r@.lru.no_duplicates());
        r
    }

    /// Tokens per chunk.
    pub fn chunk_size(&self) -> (r: usize)
        ensures
            r == self@.chunk_size,
    {
        self.chunk_size
    }

    /// Number of cached chunks.
    pub fn len(&self) -> (r: usize)
        requires
            self.wf(),
        ensures
            r == self@.lru.len(),
    {
        proof {
            self.lemma_dom_is_lru();
        }
        self.lru_order.len()
    }

    /// Whether no chunk is cached.
    pub fn is_empty(&self) -> (r: bool)
        requires
            self.wf(),
        ensures
            r == (self@.lru.len() == 0),
    {
        self.lru_order.len() == 0
    }

    /// Bytes charged for the cached states.
    pub fn memory_usage_bytes(&self) -> (r: usize)
        ensures
            r == self@.total_bytes,
    {
        self.total_memory_bytes
    }

    /// The memory budget.
    pub fn max_memory_bytes(&self) -> (r: usize)
        ensures
            r == self@.max_bytes,
    {
        self.max_memory_bytes
    }

    /// Drops every cached chunk.
    pub fn clear(&mut self)
        requires
            old(self).wf(),
        ensures
            final(self).wf(),
            final(self)@ == (PrefixCacheView::<T> {
                chunks: Map::empty(),
                lru: Seq::empty(),
                total_bytes: 0,
                ..old(self)@
            }),
    {
        self.chunks.clear();
        self.lru_order.clear();
        self.total_memory_bytes = 0;
        assert(self@.chunks =~= Map::<u64, PrefixChunk<T>>::empty());
    }

    proof fn lemma_dom_is_lru(&self)
        requires
            self.wf(),
        ensures
            self@.chunks.dom() =~= self@.lru.to_set(),
            self@.chunks.dom().len() == self@.lru.len(),
    {
        assert(self@.chunks.dom() =~= self@.lru.to_set());
        self@.lru.unique_seq_to_set();
    }

    /// Moves `hash` to the most recently used end of the order, if it is cached.
    fn touch(&mut self, hash: u64)
        requires
            old(self).wf(),
        ensures
            final(self).wf(),
            final(self)@ == (PrefixCacheView { lru: spec_touch(old(self)@.lru, hash), ..old(self)@ }),
    {
        let n = self.lru_order.len();
        let mut i: usize = 0;
        while i < n && self.lru_order[i] != hash
            invariant
                n == self@.lru.len(),
                i <= n,
                forall|j: int| 0 <= j < i ==> self@.lru[j] != hash,
            decreases n - i,
        {
            i += 1;
        }
        if i < n && self.lru_order[i] == hash {
            let ghost v = self@;
            let ghost x = v.lru.take(i as int);
            let ghost y = v.lru.skip(i + 1);
            proof {
                assert(v.lru.contains(hash));
                let j = v.lru.index_of(hash);
                assert(v.lru[j] == hash);
                assert(j == i) by {
                    if j != i {
                        assert(v.lru.no_duplicates());
                    }
                }
                assert(v.lru =~= x + seq![hash] + y);
                assert(v.lru.remove(i as int) =~= x + y);
            }
            self.lru_order.remove(i);
            self.lru_order.push_back(hash);
            proof {
                let w = self@;
                assert(w.lru =~= x + y + seq![hash]);
                lemma_lru_bytes_concat(x + seq![hash], y, v.chunks);
                lemma_lru_bytes_concat(x, seq![hash], v.chunks);
                lemma_lru_bytes_concat(x + y, seq![hash], v.chunks);
                lemma_lru_bytes_concat(x, y, v.chunks);
                assert forall|a: int, b: int| 0 <= a < b < w.lru.len() implies w.lru[a] != w.lru[b] by {
                    if b == w.lru.len() - 1 {
                        if a < x.len() {
                            assert(w.lru[a] == v.lru[a]);
                        } else {
                            assert(w.lru[a] == v.lru[a + 1]);
                        }
                    } else {
                        let va = if a < x.len() { a } else { a + 1 };
                        let vb = if b < x.len() { b } else { b + 1 };
                        assert(w.lru[a] == v.lru[va]);
                        assert(w.lru[b] == v.lru[vb]);
                    }
                }
                assert forall|k: u64| #[trigger] w.chunks.contains_key(k) <==> w.lru.contains(k) by {
                    if v.lru.contains(k) {
                        let j = choose|j: int| 0 <= j < v.lru.len() && v.lru[j] == k;
                        if j < i {
                            assert(w.lru[j] == k);
                        } else if j == i {
                            assert(w.lru[w.lru.len() - 1] == k);
                        } else {
                            assert(w.lru[j - 1] == k);
                        }
                    }
                    if w.lru.contains(k) {
                        let j = choose|j: int| 0 <= j < w.lru.len() && w.lru[j] == k;
                        if j == w.lru.len() - 1 {
                            assert(v.lru[i as int] == k);
                        } else if j < i {
                            assert(v.lru[j] == k);
                        } else {
                            assert(v.lru[j + 1] == k);
                        }
                    }
                }
            }
        } else {
            proof {
                assert(!self@.lru.contains(hash));
            }
        }
    }

    /// Evicts the least recently used chunk.
    fn evict_oldest(&mut self)
        requires
            spec_cache_core(old(self)@),
            old(self)@.lru.len() > 0,
        ensures
            spec_cache_core(final(self)@),
            final(self)@ == spec_pop_lru(old(self)@),
    {
        proof {
            lemma_pop_lru_wf(self@);
        }
        let ghost v = self@;
        if let Some(oldest) = self.lru_order.pop_front() {
            assert(self@.lru =~= v.lru.drop_first());
            if let Some(evicted) = self.chunks.remove(&oldest) {
                let b = evicted.state.memory_bytes();
                self.total_memory_bytes = self.total_memory_bytes.saturating_sub(b);
            }
            assert(self@.chunks =~= v.chunks.remove(oldest));
        }
    }

    /// Evicts least recently used chunks until at most `target_bytes` are charged (or the
    /// cache is empty); returns how many were evicted.
    pub fn prune_to_bytes(&mut self, target_bytes: usize) -> (r: usize)
        requires
            old(self).wf(),
        ensures
            final(self).wf(),
            final(self)@ == spec_prune(old(self)@, target_bytes as int),
            r == old(self)@.lru.len() - final(self)@.lru.len(),
    {
        proof {
            lemma_prune_wf(self@, target_bytes as int);
        }
        self.prune_core(target_bytes)
    }

    fn prune_core(&mut self, target_bytes: usize) -> (r: usize)
        requires
            spec_cache_core(old(self)@),
        ensures
            spec_cache_core(final(self)@),
            final(self)@ == spec_prune(old(self)@, target_bytes as int),
            r == old(self)@.lru.len() - final(self)@.lru.len(),
    {
        let mut evicted: usize = 0;
        let ghost v0 = self@;
        let ghost n0 = self.lru_order.len();
        while self.total_memory_bytes > target_bytes && self.lru_order.len() > 0
            invariant
                spec_cache_core(self@),
                spec_prune(v0, target_bytes as int) == spec_prune(self@, target_bytes as int),
                evicted == v0.lru.len() - self@.lru.len(),
                self@.lru.len() <= v0.lru.len(),
                v0.lru.len() == n0,
                n0 <= usize::MAX,
            decreases self@.lru.len(),
        {
            proof {
                lemma_pop_lru_wf(self@);
            }
            self.evict_oldest();
            evicted += 1;
        }
        evicted
    }
}

/// The cache before adding a chunk: the least recently used chunk is evicted when the
/// chunk limit is reached.
pub open spec fn spec_make_room<T>(v: PrefixCacheView<T>) -> PrefixCacheView<T> {
    if v.lru.len() >= v.max_chunks && v.lru.len() > 0 {
        spec_pop_lru(v)
    } else {
        v
    }
}

impl<T> PrefixCache<T> {
    /// Caches the state at the end of a chunk whose tokens are `tokens`, chained after
    /// `prev_hash`, and returns the chunk's hash. An already cached hash only becomes the
    /// most recently used; otherwise the least recently used chunk makes room when the
    /// chunk limit is reached, the new chunk is added as the most recently used, and old
    /// chunks are evicted until the memory budget holds again.
    pub fn insert_chunk(
        &mut self,
        prev_hash: u64,
        tokens: &[u32],
        chunk_index: usize,
        state: HybridStateSnapshot<T>,
    ) -> (r: u64)
        requires
            old(self).wf(),
            state.spec_memory_bytes() + old(self)@.max_bytes <= usize::MAX,
        ensures
            final(self).wf(),
            r == spec_chunk_hash(prev_hash, tokens@),
            old(self)@.chunks.contains_key(r) ==> final(self)@ == (PrefixCacheView {
                lru: spec_touch(old(self)@.lru, r),
                ..old(self)@
            }),
            !old(self)@.chunks.contains_key(r) ==> exists|c: PrefixChunk<T>|
                c.chunk_index == chunk_index && c.hash == r && c.tokens@ == tokens@ && c.state == state
                    && final(self)@ == spec_prune(
                    #[trigger] spec_add(spec_make_room(old(self)@), r, c),
                    old(self)@.max_bytes as int,
                ),
    {
        let hash = compute_chunk_hash(prev_hash, tokens);
        let ghost v0 = self@;
        if self.chunks.contains_key(&hash) {
            self.touch(hash);
            return hash;
        }
        proof {
            self.lemma_dom_is_lru();
        }
        if self.chunks.len() >= self.max_chunks && self.lru_order.len() > 0 {
            self.evict_oldest();
        }
        let ghost v1 = self@;
        assert(v1 == spec_make_room(v0));
        proof {
            self.lemma_dom_is_lru();
            assert(!v1.lru.contains(hash));
        }
        let chunk_mem = state.memory_bytes();
        let chunk = PrefixChunk { chunk_index, hash, tokens: vstd::slice::slice_to_vec(tokens), state };
        let ghost c = chunk;
        self.chunks.insert(hash, chunk);
        self.lru_order.push_back(hash);
        self.total_memory_bytes = self.total_memory_bytes + chunk_mem;
        proof {
            let w = self@;
            assert(w == spec_add(v1, hash, c));
            assert(w.lru =~= v1.lru + seq![hash]);
            lemma_lru_bytes_concat(v1.lru, seq![hash], w.chunks);
            assert(spec_lru_bytes(Seq::<u64>::empty(), w.chunks) == 0);
            assert(seq![hash].drop_last() =~= Seq::<u64>::empty());
            assert forall|i: int| 0 <= i < v1.lru.len() implies v1.chunks[v1.lru[i]] == w.chunks[v1.lru[i]] by {
                assert(v1.lru[i] != hash);
            }
            lemma_lru_bytes_frame(v1.lru, v1.chunks, w.chunks);
            assert forall|k: u64| #[trigger] w.chunks.contains_key(k) <==> w.lru.contains(k) by {
                if k != hash && v1.lru.contains(k) {
                    let j = choose|j: int| 0 <= j < v1.lru.len() && v1.lru[j] == k;
                    assert(w.lru[j] == k);
                }
                if w.lru.contains(k) && k != hash {
                    let j = choose|j: int| 0 <= j < w.lru.len() && w.lru[j] == k;
                    assert(v1.lru[j] == k);
                }
                if k == hash {
                    assert(w.lru[w.lru.len() - 1] == hash);
                }
            }
            assert(w.lru.no_duplicates());
            lemma_prune_wf(w, w.max_bytes as int);
            assert(spec_cache_core(w));
        }
        let ghost w = self@;
        self.prune_core(self.max_memory_bytes);
        assert(c.chunk_index == chunk_index && c.hash == hash && c.tokens@ == tokens@ && c.state == state
            && self@ == spec_prune(spec_add(spec_make_room(v0), hash, c), v0.max_bytes as int));
        hash
    }
}

/// Walks the full chunks of `t` from chunk `i` on, `h` being the chained hash so far:
/// the deepest boundary, with its hash, up to which every chunk hash is cached, stopping at
/// the first miss (`best` is the answer found before chunk `i`).
pub open spec fn spec_prefix_walk(
    dom: Set<u64>,
    t: Seq<u32>,
    cs: int,
    i: int,
    h: u64,
    best: Option<(int, u64)>,
) -> Option<(int, u64)>
    decreases (if cs > 0 { (t.len() as int) / cs - i } else { 0 }),
{
    if cs <= 0 || i < 0 || i >= (t.len() as int) / cs {
        best
    } else {
        let h2 = spec_chunk_hash(h, t.subrange(i * cs, (i + 1) * cs));
        if dom.contains(h2) {
            spec_prefix_walk(dom, t, cs, i + 1, h2, Some(((i + 1) * cs, h2)))
        } else {
            best
        }
    }
}

/// The longest cached prefix of `t`: the number of matched tokens and the hash of the
/// deepest matched chunk.
pub open spec fn spec_longest_prefix<T>(v: PrefixCacheView<T>, t: Seq<u32>) -> Option<(int, u64)> {
    spec_prefix_walk(v.chunks.dom(), t, v.chunk_size as int, 0, 0, None)
}

impl<T> PrefixCache<T> {
    /// Finds the deepest cached chunk boundary along `tokens` (see [`spec_longest_prefix`]),
    /// marks that chunk as most recently used, and returns the number of matched tokens with
    /// the chunk.
    #[verifier::rlimit(30)]
    pub fn find_longest_prefix<'a>(&'a mut self, tokens: &[u32]) -> (r: Option<(usize, &'a PrefixChunk<T>)>)
        requires
            old(self).wf(),
        ensures
            final(self).wf(),
            match spec_longest_prefix(old(self)@, tokens@) {
                None => r is None && final(self)@ == old(self)@,
                Some((len, h)) => {
                    &&& final(self)@ == (PrefixCacheView {
                        lru: spec_touch(old(self)@.lru, h),
                        ..old(self)@
                    })
                    &&& r matches Some((l, c))
                    &&& l == len
                    &&& *c == old(self)@.chunks[h]
                },
            },
    {
        let cs = self.chunk_size;
        let ghost dom = self@.chunks.dom();
        let tl = tokens.len();
        if tl < cs {
            proof {
                assert((tokens@.len() as int) / (cs as int) == 0) by (nonlinear_arith)
                    requires
                        0 <= tokens@.len() < cs,
                ;
            }
            return None;
        }
        let n = tl / cs;
        let mut current: u64 = 0;
        let mut deepest: Option<(usize, u64)> = None;
        let mut i: usize = 0;
        proof {
            assert(n * cs <= tokens@.len()) by (nonlinear_arith)
                requires
                    n == (tokens@.len() as int) / (cs as int),
                    cs > 0,
            ;
        }
        while i < n
            invariant_except_break
                i <= n,
                spec_longest_prefix(self@, tokens@) == spec_prefix_walk(
                    dom,
                    tokens@,
                    cs as int,
                    i as int,
                    current,
                    match deepest { Some((a, b)) => Some((a as int, b)), None => None },
                ),
            invariant
                cs == self@.chunk_size,
                cs > 0,
                tl == tokens@.len(),
                n == (tokens@.len() as int) / (cs as int),
                n * cs <= tokens@.len(),
                dom == self@.chunks.dom(),
                deepest matches Some((a, b)) ==> dom.contains(b),
            ensures
                spec_longest_prefix(self@, tokens@) == (match deepest {
                    Some((a, b)) => Some((a as int, b)),
                    None => None,
                }),
                deepest matches Some((a, b)) ==> dom.contains(b),
            decreases n - i,
        {
            proof {
                assert((i + 1) * cs <= n * cs) by (nonlinear_arith)
                    requires
                        i < n,
                        cs > 0,
                ;
                assert(i * cs + cs == (i + 1) * cs) by (nonlinear_arith);
            }
            let start = i * cs;
            let end = start + cs;
            let chunk_tokens = &tokens[start..end];
            let ghost prev = current;
            let ghost best = match deepest { Some((a, b)) => Some((a as int, b)), None => None::<(int, u64)> };
            current = compute_chunk_hash(current, chunk_tokens);
            proof {
                assert(chunk_tokens@ == tokens@.subrange(i * cs, (i + 1) * cs));
                assert(spec_prefix_walk(dom, tokens@, cs as int, i as int, prev, best) == (if dom.contains(current) {
                    spec_prefix_walk(dom, tokens@, cs as int, i + 1, current, Some(((i + 1) * cs, current)))
                } else {
                    best
                }));
            }
            if self.chunks.contains_key(&current) {
                assert(dom.contains(current));
                assert(end as int == (i + 1) * cs);
                deepest = Some((end, current));
                i += 1;
            } else {
                break;
            }
        }
        match deepest {
            None => None,
            Some((matched_len, match_hash)) => {
                self.touch(match_hash);
                match self.chunks.get(&match_hash) {
                    Some(chunk) => Some((matched_len, chunk)),
                    None => None,
                }
            },
        }
    }
}

/// Searches suffixes of `t` of `k * cs` tokens for `k` from `k` down to 1: the first
/// whose start lies at or after `start`, whose absolute position `start + suffix start`
/// is a chunk boundary, and whose standalone hash is cached.
pub open spec fn spec_suffix_search(dom: Set<u64>, t: Seq<u32>, cs: int, start: int, k: int) -> Option<(int, u64)>
    decreases k,
{
    if k <= 0 {
        None
    } else {
        let sl = k * cs;
        let ss = if t.len() >= sl { t.len() - sl } else { 0 };
        if ss < start || (start + ss) % cs != 0 {
            spec_suffix_search(dom, t, cs, start, k - 1)
        } else if dom.contains(spec_chunk_hash(0, t.subrange(ss, t.len() as int))) {
            Some((sl, spec_chunk_hash(0, t.subrange(ss, t.len() as int))))
        } else {
            spec_suffix_search(dom, t, cs, start, k - 1)
        }
    }
}

/// The longest cached suffix of `t` (tokens from absolute position `start` on): its length
/// and the hash it is cached under.
pub open spec fn spec_longest_suffix<T>(v: PrefixCacheView<T>, start: int, t: Seq<u32>) -> Option<(int, u64)> {
    let cs = v.chunk_size as int;
    if t.len() < cs || v.chunks.is_empty() {
        None
    } else {
        let rest = if t.len() >= start { t.len() - start } else { 0 };
        spec_suffix_search(v.chunks.dom(), t, cs, start, rest / cs)
    }
}

impl<T: Clone> PrefixCache<T> {
    /// Looks for a cached chunk equal to a chunk-aligned suffix of `tokens` (see
    /// [`spec_longest_suffix`]); the match becomes the most recently used, and the suffix
    /// length, the position its state was computed at, and a copy of the chunk are
    /// returned.
    pub fn find_longest_suffix_match(&mut self, start_pos: usize, tokens: &[u32]) -> (r: Option<
        (usize, usize, PrefixChunk<T>),
    >)
        requires
            old(self).wf(),
            tokens@.len() <= isize::MAX,
        ensures
            final(self).wf(),
            match spec_longest_suffix(old(self)@, start_pos as int, tokens@) {
                None => r is None && final(self)@ == old(self)@,
                Some((len, h)) => {
                    &&& final(self)@ == (PrefixCacheView {
                        lru: spec_touch(old(self)@.lru, h),
                        ..old(self)@
                    })
                    &&& r matches Some((l, p, c))
                    &&& l == len
                    &&& p == old(self)@.chunks[h].state.pos
                    &&& c.hash == h
                    &&& c.chunk_index == old(self)@.chunks[h].chunk_index
                    &&& c.tokens@ == old(self)@.chunks[h].tokens@
                    &&& c.state.pos == p
                },
            },
    {
        let cs = self.chunk_size;
        let n = tokens.len();
        if n < cs || self.chunks.is_empty() {
            return None;
        }
        let ghost dom = self@.chunks.dom();
        let rest = n.saturating_sub(start_pos);
        let max_k = rest / cs;
        let mut k = max_k;
        while k > 0
            invariant
                cs == self@.chunk_size,
                cs > 0,
                n == tokens@.len(),
                n <= isize::MAX,
                k <= max_k,
                max_k == rest / cs,
                rest == (if n >= start_pos { n - start_pos } else { 0 }),
                dom == self@.chunks.dom(),
                self.wf(),
                self@ == old(self)@,
                !self@.chunks.is_empty(),
                spec_longest_suffix(self@, start_pos as int, tokens@) == spec_suffix_search(
                    dom,
                    tokens@,
                    cs as int,
                    start_pos as int,
                    k as int,
                ),
            decreases k,
        {
            proof {
                assert(k * cs <= max_k * cs) by (nonlinear_arith)
                    requires
                        k <= max_k,
                        cs > 0,
                ;
                assert(max_k * cs <= rest) by (nonlinear_arith)
                    requires
                        max_k == rest / cs,
                        cs > 0,
                        rest >= 0,
                ;
            }
            let suffix_len = k * cs;
            let suffix_start = n.saturating_sub(suffix_len);
            if suffix_start >= start_pos && (start_pos + suffix_start) % cs == 0 {
                let suffix_tokens = &tokens[suffix_start..n];
                let suffix_hash = compute_chunk_hash(0, suffix_tokens);
                assert(suffix_tokens@ == tokens@.subrange(suffix_start as int, n as int));
                match self.chunks.get(&suffix_hash) {
                    Some(chunk) => {
                        let state_pos = chunk.state.pos;
                        let matched = chunk.clone();
                        self.touch(suffix_hash);
                        return Some((suffix_len, state_pos, matched));
                    },
                    None => {},
                }
            }
            k -= 1;
        }
        None
    }
}

impl<T> PrefixCache<T> {
    /// A well-formed cache never holds more chunks than its limit, never charges more
    /// bytes than its budget, and charges exactly the sum of its chunks' sizes.
    pub proof fn lemma_bounds(&self)
        requires
            self.wf(),
        ensures
            self@.lru.len() <= self@.max_chunks,
            self@.total_bytes <= self@.max_bytes,
            self@.total_bytes == spec_lru_bytes(self@.lru, self@.chunks),
            self@.lru.no_duplicates(),
            forall|k: u64| #[trigger] self@.chunks.contains_key(k) <==> self@.lru.contains(k),
    {
    }
}

proof fn lemma_prune_keeps_last<T>(v: PrefixCacheView<T>, target: int, h: u64)
    requires
        spec_cache_core(v),
        v.lru.len() > 0,
        v.lru.last() == h,
        v.chunks[h].state.spec_memory_bytes() <= target,
    ensures
        spec_prune(v, target).chunks.contains_key(h),
        spec_prune(v, target).chunks[h] == v.chunks[h],
    decreases v.lru.len(),
{
    if v.total_bytes > target && v.lru.len() > 0 {
        if v.lru.len() == 1 {
            assert(v.lru =~= seq![h]);
            assert(seq![h].drop_last() =~= Seq::<u64>::empty());
            assert(spec_lru_bytes(Seq::<u64>::empty(), v.chunks) == 0);
            assert(v.total_bytes == v.chunks[h].state.spec_memory_bytes());
        } else {
            lemma_pop_lru_wf(v);
            let w = spec_pop_lru(v);
            assert(w.lru.last() == h);
            assert(v.lru[0] != h) by {
                assert(v.lru[v.lru.len() - 1] == h);
            }
            lemma_prune_keeps_last(w, target, h);
        }
    } else {
        assert(v.lru.contains(h)) by {
            assert(v.lru[v.lru.len() - 1] == h);
        }
    }
}

proof fn lemma_single_chunk_walk<T>(v: PrefixCacheView<T>, t: Seq<u32>)
    requires
        v.chunk_size > 0,
        t.len() == v.chunk_size,
        v.chunks.contains_key(spec_chunk_hash(0, t)),
    ensures
        spec_longest_prefix(v, t) == Some((t.len() as int, spec_chunk_hash(0, t))),
{
    let cs = v.chunk_size as int;
    assert((t.len() as int) / cs == 1) by (nonlinear_arith)
        requires
            t.len() == cs,
            cs > 0,
    ;
    assert(0 * cs == 0 && (0 + 1) * cs == cs) by (nonlinear_arith);
    assert(t.subrange(0, cs) =~= t);
    let h = spec_chunk_hash(0, t);
    assert(spec_prefix_walk(v.chunks.dom(), t, cs, 1, h, Some((cs, h))) == Some((cs, h)));
    assert(spec_prefix_walk(v.chunks.dom(), t, cs, 0, 0, None) == spec_prefix_walk(v.chunks.dom(), t, cs, 1, h, Some((cs, h))));
}

/// What is cached can be found again: right after a chunk of exactly one chunk's worth of
/// tokens is inserted at the start of a chain (previous hash 0) whose state fits the
/// memory budget, that chunk is cached and the longest-prefix lookup of its tokens matches
/// all of them at it.
pub proof fn lemma_insert_then_find<T>(v: PrefixCacheView<T>, t: Seq<u32>, c: PrefixChunk<T>)
    requires
        spec_cache_wf(v),
        t.len() == v.chunk_size,
        c.hash == spec_chunk_hash(0, t),
        c.state.spec_memory_bytes() <= v.max_bytes,
    ensures
        ({
            let h = spec_chunk_hash(0, t);
            let w = if v.chunks.contains_key(h) {
                PrefixCacheView { lru: spec_touch(v.lru, h), ..v }
            } else {
                spec_prune(spec_add(spec_make_room(v), h, c), v.max_bytes as int)
            };
            &&& w.chunks.contains_key(h)
            &&& !v.chunks.contains_key(h) ==> w.chunks[h] == c
            &&& spec_longest_prefix(w, t) == Some((t.len() as int, h))
        }),
{
    let h = spec_chunk_hash(0, t);
    if v.chunks.contains_key(h) {
        lemma_single_chunk_walk(PrefixCacheView { lru: spec_touch(v.lru, h), ..v }, t);
    } else {
        let v1 = spec_make_room(v);
        if v.lru.len() >= v.max_chunks && v.lru.len() > 0 {
            lemma_pop_lru_wf(v);
        }
        assert(spec_cache_core(v1));
        assert(!v1.chunks.contains_key(h));
        assert(!v1.lru.contains(h));
        let a = spec_add(v1, h, c);
        assert(a.lru.last() == h);
        assert(a.chunks[h] == c);
        assert(a.lru =~= v1.lru + seq![h]);
        lemma_lru_bytes_concat(v1.lru, seq![h], a.chunks);
        assert(seq![h].drop_last() =~= Seq::<u64>::empty());
        assert(spec_lru_bytes(Seq::<u64>::empty(), a.chunks) == 0);
        assert forall|i: int| 0 <= i < v1.lru.len() implies v1.chunks[v1.lru[i]] == a.chunks[v1.lru[i]] by {
            assert(v1.lru[i] != h);
        }
        lemma_lru_bytes_frame(v1.lru, v1.chunks, a.chunks);
        assert forall|k: u64| #[trigger] a.chunks.contains_key(k) <==> a.lru.contains(k) by {
            if k != h && v1.lru.contains(k) {
                let j = choose|j: int| 0 <= j < v1.lru.len() && v1.lru[j] == k;
                assert(a.lru[j] == k);
            }
            if a.lru.contains(k) && k != h {
                let j = choose|j: int| 0 <= j < a.lru.len() && a.lru[j] == k;
                assert(v1.lru[j] == k);
            }
            if k == h {
                assert(a.lru[a.lru.len() - 1] == h);
            }
        }
        assert(v1.lru.len() < v1.max_chunks);
        assert(spec_cache_core(a));
        lemma_prune_keeps_last(a, v.max_bytes as int, h);
        let w = spec_prune(a, v.max_bytes as int);
        lemma_prune_wf(a, v.max_bytes as int);
        lemma_single_chunk_walk(w, t);
    }
}

} // verus!
