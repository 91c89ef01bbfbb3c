//! Reading model hyper-parameters and the vocabulary out of GGUF metadata.

use vstd::prelude::*;
use crate::config::{BlockType, ModelConfig, ModelConfigView, DEFAULT_HEAD_DIM, spec_default_config};
use crate::gguf::{
    GgufError, GgufFile, GgufValue, spec_find_tensor, spec_meta_get, spec_value_usize,
};
use crate::kv::KvError;
use crate::text::{chars_of, find_from, push_decimal, push_range, push_str, spec_decimal, spec_find_from};

verus! {

/// Metadata key of the model's display name.
pub const GGUF_KEY_GENERAL_NAME: &'static str = "general.name";
pub const GGUF_KEY_CONTEXT_LENGTH: &'static str = "lfm.context_length";
pub const GGUF_KEY_EMBEDDING_LENGTH: &'static str = "lfm.embedding_length";
pub const GGUF_KEY_FEED_FORWARD_LENGTH: &'static str = "lfm.feed_forward_length";
pub const GGUF_KEY_BLOCK_COUNT: &'static str = "lfm.block_count";
pub const GGUF_KEY_ATTENTION_HEAD_COUNT: &'static str = "lfm.attention.head_count";
pub const GGUF_KEY_ATTENTION_HEAD_COUNT_KV: &'static str = "lfm.attention.head_count_kv";
pub const GGUF_KEY_ROPE_FREQ_BASE: &'static str = "lfm.rope.freq_base";
pub const GGUF_KEY_TOKENIZER_TOKENS: &'static str = "tokenizer.ggml.tokens";

/// Errors raised while turning a GGUF file into a runnable model.
#[derive(Debug)]
pub enum ModelError {
    Gguf(GgufError),
    KvCache(KvError),
    MissingWeight(String),
    InvalidConfig(String),
    MalformedTensorAlignment(String),
    InvalidToken(u32),
    ContextOverflow { pos: usize, max: usize },
    DimMismatch(String),
    ExecutionFailed(String),
}

/// `blk.<i><suffix>`, the name of a per-layer tensor.
pub open spec fn spec_layer_name(i: nat, suffix: Seq<char>) -> Seq<char> {
    "blk."@ + spec_decimal(i) + suffix
}

/// The integer stored under `key`, if any.
pub open spec fn spec_meta_usize(g: GgufFile, key: Seq<char>) -> Option<usize> {
    match spec_meta_get(g.metadata@, key) {
        Some(v) => spec_value_usize(v),
        None => None,
    }
}

/// The float bits stored under `key`, if any.
pub open spec fn spec_meta_f32_bits(g: GgufFile, key: Seq<char>) -> Option<u32> {
    match spec_meta_get(g.metadata@, key) {
        Some(GgufValue::F32(b)) => Some(b),
        _ => None,
    }
}

/// `cur`, overridden by the integer under `key` when there is one.
pub open spec fn spec_over_usize(g: GgufFile, key: Seq<char>, cur: usize) -> usize {
    match spec_meta_usize(g, key) {
        Some(x) => x,
        None => cur,
    }
}

/// `cur`, overridden by the float bits under `key` when there are some.
pub open spec fn spec_over_f32(g: GgufFile, key: Seq<char>, cur: u32) -> u32 {
    match spec_meta_f32_bits(g, key) {
        Some(x) => x,
        None => cur,
    }
}

/// The largest positive integer among the values, or 0.
pub open spec fn spec_max_positive(s: Seq<GgufValue>) -> usize
    decreases s.len(),
{
    if s.len() == 0 {
        0
    } else {
        let m = spec_max_positive(s.drop_last());
        match spec_value_usize(s.last()) {
            Some(x) => if x > m { x } else { m },
            None => m,
        }
    }
}

/// The KV-head count after reading `key`: a per-layer array gives its largest
/// positive entry, a scalar gives itself.
pub open spec fn spec_kv_update(g: GgufFile, key: Seq<char>, cur: usize) -> usize {
    match spec_meta_get(g.metadata@, key) {
        Some(GgufValue::Array(arr)) => {
            let m = spec_max_positive(arr@);
            if m > 0 { m } else { cur }
        },
        Some(v) => match spec_value_usize(v) {
            Some(kv) => kv,
            None => cur,
        },
        None => cur,
    }
}

/// Product of the dimensions with `usize` wrap-around.
pub open spec fn spec_wrapping_product(dims: Seq<usize>) -> usize
    decreases dims.len(),
{
    if dims.len() == 0 {
        1
    } else {
        vstd::wrapping::usize_specs::wrapping_mul(spec_wrapping_product(dims.drop_last()), dims.last())
    }
}

/// Index of the convolution tensor of layer `i`, under either of its two names.
pub open spec fn spec_conv_tensor(g: GgufFile, i: nat) -> Option<int> {
    match spec_find_tensor(g.tensors@, spec_layer_name(i, ".ssm_conv.weight"@), 0) {
        Some(j) => Some(j),
        None => spec_find_tensor(g.tensors@, spec_layer_name(i, ".shortconv.conv.weight"@), 0),
    }
}

/// The convolution kernel width implied by the first layer at or after `i` (below `n`)
/// whose convolution tensor holds a whole multiple of `dim` elements.
pub open spec fn spec_conv_scan(g: GgufFile, dim: usize, i: nat, n: nat) -> Option<usize>
    decreases n - i,
{
    if i >= n {
        None
    } else {
        match spec_conv_tensor(g, i) {
            Some(j) => {
                let total = spec_wrapping_product(g.tensors@[j].dims@);
                if dim > 0 && total >= dim && total % dim == 0 {
                    Some((total / dim) as usize)
                } else {
                    spec_conv_scan(g, dim, i + 1, n)
                }
            },
            None => spec_conv_scan(g, dim, i + 1, n),
        }
    }
}

/// Layer `i` is a state-space block when one of its SSM tensors is present.
pub open spec fn spec_block_of(g: GgufFile, i: nat) -> BlockType {
    if spec_find_tensor(g.tensors@, spec_layer_name(i, ".ssm_in.weight"@), 0) is Some
        || spec_find_tensor(g.tensors@, spec_layer_name(i, ".shortconv.in_proj.weight"@), 0) is Some
        || spec_find_tensor(g.tensors@, spec_layer_name(i, ".shortconv.conv.weight"@), 0) is Some {
        BlockType::SSM
    } else {
        BlockType::Attention
    }
}

/// The configuration read from the metadata and tensor table, starting from `d`
/// (the default configuration), before validation.
pub open spec fn spec_extracted(g: GgufFile, d: ModelConfigView) -> ModelConfigView {
    let name = match spec_meta_get(g.metadata@, "general.name"@) {
        Some(GgufValue::String(s)) => s@,
        _ => d.name,
    };
    let max_seq_len = spec_over_usize(g, "lfm.context_length"@, spec_over_usize(g, "lfm2.context_length"@, d.max_seq_len));
    let dim = spec_over_usize(g, "lfm.embedding_length"@, spec_over_usize(g, "lfm2.embedding_length"@, d.dim));
    let hidden_dim = spec_over_usize(g, "lfm.feed_forward_length"@, spec_over_usize(g, "lfm2.feed_forward_length"@, d.hidden_dim));
    let n_layers = spec_over_usize(g, "lfm.block_count"@, spec_over_usize(g, "lfm2.block_count"@, d.n_layers));
    let n_heads = spec_over_usize(g, "lfm.attention.head_count"@, spec_over_usize(g, "lfm2.attention.head_count"@, d.n_heads));
    let n_kv_heads = spec_kv_update(g, "lfm.attention.head_count_kv"@, spec_kv_update(g, "lfm2.attention.head_count_kv"@, d.n_kv_heads));
    let rope = spec_over_f32(g, "lfm.rope.freq_base"@, spec_over_f32(g, "lfm2.rope.freq_base"@, d.rope_base_bits));
    let eps = spec_over_f32(g, "lfm.attention.layer_norm_rms_epsilon"@, spec_over_f32(g, "lfm2.attention.layer_norm_rms_epsilon"@, d.rms_norm_eps_bits));
    let meta_kernel = spec_over_usize(g, "lfm.ssm.conv_kernel"@, spec_over_usize(g, "lfm2.ssm.conv_kernel"@, d.ssm_conv_kernel));
    let kernel = match spec_conv_scan(g, dim, 0, n_layers as nat) {
        Some(k) => k,
        None => meta_kernel,
    };
    let vocab_size = match spec_meta_get(g.metadata@, "tokenizer.ggml.tokens"@) {
        Some(GgufValue::Array(t)) => t@.len() as usize,
        _ => d.vocab_size,
    };
    let head_dim = if n_heads > 0 { (dim / n_heads) as usize } else { DEFAULT_HEAD_DIM };
    ModelConfigView {
        name,
        dim,
        hidden_dim,
        n_layers,
        n_heads,
        n_kv_heads,
        head_dim,
        kv_dim: vstd::wrapping::usize_specs::wrapping_mul(n_kv_heads, head_dim),
        vocab_size,
        max_seq_len,
        rope_base_bits: rope,
        rms_norm_eps_bits: eps,
        ssm_state_dim: d.ssm_state_dim,
        ssm_conv_kernel: kernel,
        block_types: Seq::new(n_layers as nat, |i: int| spec_block_of(g, i as nat)),
    }
}

/// `blk.<i><suffix>`.
pub fn layer_name(i: usize, suffix: &str) -> (r: String)
    ensures
        r@ == spec_layer_name(i as nat, suffix@),
{
    let mut r = String::new();
    push_str(&mut r, "blk.");
    push_decimal(&mut r, i);
    push_str(&mut r, suffix);
    r
}

fn meta_usize(g: &GgufFile, key: &str) -> (r: Option<usize>)
    ensures
        r == spec_meta_usize(*g, key@),
{
    match g.get_meta(key) {
        Some(v) => v.as_usize(),
        None => None,
    }
}

fn over_usize(g: &GgufFile, key: &str, cur: usize) -> (r: usize)
    ensures
        r == spec_over_usize(*g, key@, cur),
{
    match meta_usize(g, key) {
        Some(x) => x,
        None => cur,
    }
}

fn over_f32(g: &GgufFile, key: &str, cur: u32) -> (r: u32)
    ensures
        r == spec_over_f32(*g, key@, cur),
{
    match g.get_meta(key) {
        Some(v) => match v.as_f32_bits() {
            Some(b) => b,
            None => cur,
        },
        None => cur,
    }
}

fn max_positive(s: &[GgufValue]) -> (r: usize)
    ensures
        r == spec_max_positive(s@),
{
    let mut m: usize = 0;
    let mut i: usize = 0;
    while i < s.len()
        invariant
            i <= s@.len(),
            m == spec_max_positive(s@.take(i as int)),
        decreases s@.len() - i,
    {
        proof {
            assert(s@.take(i + 1).drop_last() =~= s@.take(i as int));
        }
        match s[i].as_usize() {
            Some(x) => {
                if x > m {
                    m = x;
                }
            },
            None => {},
        }
        i += 1;
    }
    proof { assert(s@.take(i as int) =~= s@); }
    m
}

fn kv_update(g: &GgufFile, key: &str, cur: usize) -> (r: usize)
    ensures
        r == spec_kv_update(*g, key@, cur),
{
    match g.get_meta(key) {
        Some(GgufValue::Array(arr)) => {
            let m = max_positive(arr.as_slice());
            if m > 0 { m } else { cur }
        },
        Some(v) => match v.as_usize() {
            Some(kv) => kv,
            None => cur,
        },
        None => cur,
    }
}

fn wrapping_product(dims: &[usize]) -> (r: usize)
    ensures
        r == spec_wrapping_product(dims@),
{
    let mut acc: usize = 1;
    let mut i: usize = 0;
    while i < dims.len()
        invariant
            i <= dims@.len(),
            acc == spec_wrapping_product(dims@.take(i as int)),
        decreases dims@.len() - i,
    {
        proof {
            assert(dims@.take(i + 1).drop_last() =~= dims@.take(i as int));
        }
        acc = acc.wrapping_mul(dims[i]);
        i += 1;
    }
    proof { assert(dims@.take(i as int) =~= dims@); }
    acc
}

fn conv_tensor(g: &GgufFile, i: usize) -> (r: Option<usize>)
    ensures
        r is None <==> spec_conv_tensor(*g, i as nat) is None,
        r matches Some(j) ==> spec_conv_tensor(*g, i as nat) == Some(j as int) && j < g.tensors@.len(),
{
    let a = layer_name(i, ".ssm_conv.weight");
    match crate::gguf::find_tensor(g.tensors.as_slice(), a.as_str()) {
        Some(j) => Some(j),
        None => {
            let b = layer_name(i, ".shortconv.conv.weight");
            crate::gguf::find_tensor(g.tensors.as_slice(), b.as_str())
        },
    }
}

fn conv_scan(g: &GgufFile, dim: usize, n: usize) -> (r: Option<usize>)
    ensures
        r == spec_conv_scan(*g, dim, 0, n as nat),
{
    let mut i: usize = 0;
    while i < n
        invariant
            i <= n,
            spec_conv_scan(*g, dim, i as nat, n as nat) == spec_conv_scan(*g, dim, 0, n as nat),
        decreases n - i,
    {
        match conv_tensor(g, i) {
            Some(j) => {
                let total = wrapping_product(g.tensors[j].dims.as_slice());
                if dim > 0 && total >= dim && total % dim == 0 {
                    return Some(total / dim);
                }
            },
            None => {},
        }
        i += 1;
    }
    None
}

fn block_of(g: &GgufFile, i: usize) -> (r: BlockType)
    ensures
        r == spec_block_of(*g, i as nat),
{
    let a = layer_name(i, ".ssm_in.weight");
    let b = layer_name(i, ".shortconv.in_proj.weight");
    let c = layer_name(i, ".shortconv.conv.weight");
    if g.has_tensor(a.as_str()) || g.has_tensor(b.as_str()) || g.has_tensor(c.as_str()) {
        BlockType::SSM
    } else {
        BlockType::Attention
    }
}

fn block_types_of(g: &GgufFile, n: usize) -> (r: Vec<BlockType>)
    ensures
        r@ == Seq::new(n as nat, |i: int| spec_block_of(*g, i as nat)),
{
    let mut r: Vec<BlockType> = Vec::new();
    for i in 0..n
        invariant
            r@ == Seq::new(i as nat, |k: int| spec_block_of(*g, k as nat)),
    {
        r.push(block_of(g, i));
        assert(r@ =~= Seq::new((i + 1) as nat, |k: int| spec_block_of(*g, k as nat)));
    }
    r
}

/// Reads the model's hyper-parameters from the metadata and tensor table, starting from
/// the default configuration, and validates them.
///
/// Element counts and `kv_dim` are multiplied with `usize` wrap-around, as an optimized
/// build computes them.
pub fn extract_model_config(gguf: &GgufFile) -> (r: Result<ModelConfig, ModelError>)
    ensures
        match spec_extracted(*gguf, spec_default_config()).validity() {
            Ok(_) => r matches Ok(c) && c@ == spec_extracted(*gguf, spec_default_config()),
            Err(m) => r matches Err(ModelError::InvalidConfig(e)) && e@ == m,
        },
        r matches Ok(c) ==> c.spec_validity() is Ok,
{
    let mut config = ModelConfig::default();
    match gguf.get_meta("general.name") {
        Some(v) => match v.as_str() {
            Some(s) => {
                config.name = s.to_string();
            },
            None => {},
        },
        None => {},
    }
    config.max_seq_len = over_usize(gguf, "lfm.context_length", over_usize(gguf, "lfm2.context_length", config.max_seq_len));
    config.dim = over_usize(gguf, "lfm.embedding_length", over_usize(gguf, "lfm2.embedding_length", config.dim));
    config.hidden_dim = over_usize(gguf, "lfm.feed_forward_length", over_usize(gguf, "lfm2.feed_forward_length", config.hidden_dim));
    config.n_layers = over_usize(gguf, "lfm.block_count", over_usize(gguf, "lfm2.block_count", config.n_layers));
    config.n_heads = over_usize(gguf, "lfm.attention.head_count", over_usize(gguf, "lfm2.attention.head_count", config.n_heads));
    config.n_kv_heads = kv_update(gguf, "lfm.attention.head_count_kv", kv_update(gguf, "lfm2.attention.head_count_kv", config.n_kv_heads));
    config.rope_base_bits = over_f32(gguf, "lfm.rope.freq_base", over_f32(gguf, "lfm2.rope.freq_base", config.rope_base_bits));
    config.rms_norm_eps_bits = over_f32(gguf, "lfm.attention.layer_norm_rms_epsilon",
        over_f32(gguf, "lfm2.attention.layer_norm_rms_epsilon", config.rms_norm_eps_bits));
    config.ssm_conv_kernel = over_usize(gguf, "lfm.ssm.conv_kernel", over_usize(gguf, "lfm2.ssm.conv_kernel", config.ssm_conv_kernel));
    match conv_scan(gguf, config.dim, config.n_layers) {
        Some(k) => {
            config.ssm_conv_kernel = k;
        },
        None => {},
    }
    match gguf.get_meta("tokenizer.ggml.tokens") {
        Some(GgufValue::Array(tokens)) => {
            config.vocab_size = tokens.len();
        },
        _ => {},
    }
    config.head_dim = if config.n_heads > 0 {
        config.dim / config.n_heads
    } else {
        DEFAULT_HEAD_DIM
    };
    config.kv_dim = config.n_kv_heads.wrapping_mul(config.head_dim);
    config.block_types = block_types_of(gguf, config.n_layers);
    match config.validate() {
        Ok(()) => Ok(config),
        Err(m) => Err(ModelError::InvalidConfig(m)),
    }
}

/// The vocabulary: the text entries of the `tokenizer.ggml.tokens` array, or, when it
/// yields none, `default_size` placeholders `<tok_i>`.
pub fn extract_vocab(gguf: &GgufFile, default_size: usize) -> (r: Vec<String>)
    ensures
        spec_vocab_entries(*gguf).len() > 0 ==> r@.len() == spec_vocab_entries(*gguf).len()
            && forall|i: int| 0 <= i < r@.len() ==> #[trigger] r@[i]@ == spec_vocab_entries(*gguf)[i],
        spec_vocab_entries(*gguf).len() == 0 ==> r@.len() == default_size
            && forall|i: int| 0 <= i < default_size ==> #[trigger] r@[i]@ == "<tok_"@ + spec_decimal(i as nat) + ">"@,
{
    let mut tokens: Vec<String> = Vec::new();
    match gguf.get_meta("tokenizer.ggml.tokens") {
        Some(GgufValue::Array(arr)) => {
            let n = arr.len();
            for i in 0..n
                invariant
                    n == arr@.len(),
                    tokens@.len() == spec_string_entries(arr@.take(i as int)).len(),
                    forall|k: int| 0 <= k < tokens@.len() ==> #[trigger] tokens@[k]@ == spec_string_entries(arr@.take(i as int))[k],
            {
                proof {
                    assert(arr@.take(i + 1).drop_last() =~= arr@.take(i as int));
                }
                match arr[i].as_str() {
                    Some(s) => {
                        tokens.push(s.to_string());
                    },
                    None => {},
                }
            }
            proof { assert(arr@.take(n as int) =~= arr@); }
        },
        _ => {},
    }
    if tokens.len() == 0 {
        for i in 0..default_size
            invariant
                tokens@.len() == i,
                forall|k: int| 0 <= k < i ==> #[trigger] tokens@[k]@ == "<tok_"@ + spec_decimal(k as nat) + ">"@,
        {
            let mut t = String::new();
            push_str(&mut t, "<tok_");
            push_decimal(&mut t, i);
            push_str(&mut t, ">");
            tokens.push(t);
        }
    }
    tokens
}

/// The texts of the `String` entries, in order.
pub open spec fn spec_string_entries(s: Seq<GgufValue>) -> Seq<Seq<char>>
    decreases s.len(),
{
    if s.len() == 0 {
        Seq::empty()
    } else {
        match s.last() {
            GgufValue::String(t) => spec_string_entries(s.drop_last()).push(t@),
            _ => spec_string_entries(s.drop_last()),
        }
    }
}

/// The vocabulary entries found in the metadata.
pub open spec fn spec_vocab_entries(g: GgufFile) -> Seq<Seq<char>> {
    match spec_meta_get(g.metadata@, "tokenizer.ggml.tokens"@) {
        Some(GgufValue::Array(arr)) => spec_string_entries(arr@),
        _ => Seq::empty(),
    }
}


/// Working context used when the caller sets no ceiling.
pub const DEFAULT_WORKING_CTX: usize = 4096;

/// The context length actually allocated: the model's own limit, capped by `max_ctx`
/// (4096 when unset).
pub fn working_seq_len(max_seq_len: usize, max_ctx: Option<usize>) -> (r: usize)
    ensures
        r == (match max_ctx {
            Some(c) => if max_seq_len < c { max_seq_len } else { c },
            None => if max_seq_len < DEFAULT_WORKING_CTX { max_seq_len } else { DEFAULT_WORKING_CTX },
        }),
{
    let cap = match max_ctx {
        Some(c) => c,
        None => DEFAULT_WORKING_CTX,
    };
    if max_seq_len < cap { max_seq_len } else { cap }
}

/// Indices of the layers whose blocks are `kind`, in increasing order.
pub open spec fn spec_layers_of(bt: Seq<BlockType>, kind: BlockType) -> Seq<usize>
    decreases bt.len(),
{
    if bt.len() == 0 {
        Seq::empty()
    } else if bt.last() == kind {
        spec_layers_of(bt.drop_last(), kind).push((bt.len() - 1) as usize)
    } else {
        spec_layers_of(bt.drop_last(), kind)
    }
}

/// Indices of the layers whose blocks are `kind`.
pub fn layers_of(block_types: &[BlockType], kind: BlockType) -> (r: Vec<usize>)
    ensures
        r@ == spec_layers_of(block_types@, kind),
{
    let mut r: Vec<usize> = Vec::new();
    let n = block_types.len();
    for i in 0..n
        invariant
            n == block_types@.len(),
            r@ == spec_layers_of(block_types@.take(i as int), kind),
    {
        proof { assert(block_types@.take(i + 1).drop_last() =~= block_types@.take(i as int)); }
        if block_types[i] == kind {
            r.push(i);
        }
    }
    proof { assert(block_types@.take(n as int) =~= block_types@); }
    r
}

/// The end-of-sequence token id named in the metadata (truncated to 32 bits), or `default`.
pub fn eos_token_id(gguf: &GgufFile, default: u32) -> (r: u32)
    ensures
        r == (match spec_meta_usize(*gguf, "tokenizer.ggml.eos_token_id"@) {
            Some(u) => u as u32,
            None => default,
        }),
{
    match meta_usize(gguf, "tokenizer.ggml.eos_token_id") {
        Some(u) => u as u32,
        None => default,
    }
}


/// Where the embedding row of `token_id` lies in the file, for a forward step at `pos`:
/// the token must be in the vocabulary, the position inside the context, and the row
/// (`dim` elements of a type taking `type_size` bytes per `block_size` elements) inside
/// the file.
pub fn embedding_row(
    token_id: u32,
    pos: usize,
    vocab_size: usize,
    max_seq_len: usize,
    dim: usize,
    emb_offset: usize,
    type_size: usize,
    block_size: usize,
    file_len: usize,
) -> (r: Result<(usize, usize), ModelError>)
    requires
        block_size > 0,
        dim * type_size <= usize::MAX,
        emb_offset + (token_id + 1) * ((dim * type_size) / (block_size as int)) <= usize::MAX,
    ensures
        token_id >= vocab_size ==> (r matches Err(ModelError::InvalidToken(t)) && t == token_id),
        token_id < vocab_size && pos >= max_seq_len ==> (r matches Err(ModelError::ContextOverflow { pos: p, max: m })
            && p == pos && m == max_seq_len),
        token_id < vocab_size && pos < max_seq_len ==> ({
            let len = (dim * type_size) / (block_size as int);
            let off = emb_offset + token_id * len;
            &&& off + len > file_len ==> (r matches Err(ModelError::InvalidToken(t)) && t == token_id)
            &&& off + len <= file_len ==> (r matches Ok((a, b)) && a == off && b == off + len)
        }),
{
    if token_id as usize >= vocab_size {
        return Err(ModelError::InvalidToken(token_id));
    }
    if pos >= max_seq_len {
        return Err(ModelError::ContextOverflow { pos, max: max_seq_len });
    }
    let len = (dim * type_size) / block_size;
    proof {
        assert((token_id + 1) * len == token_id * len + len) by (nonlinear_arith);
        assert(0 <= token_id * len) by (nonlinear_arith)
            requires
                len >= 0,
        ;
    }
    let off = emb_offset + (token_id as usize) * len;
    if off + len > file_len {
        return Err(ModelError::InvalidToken(token_id));
    }
    Ok((off, off + len))
}


/// The merge rules of the `tokenizer.ggml.merges` entries: each text entry holding a
/// space is split at its first space into a pair, ranked by its index in the array.
pub open spec fn spec_merge_pairs(arr: Seq<GgufValue>) -> Seq<(Seq<char>, Seq<char>, u32)>
    decreases arr.len(),
{
    if arr.len() == 0 {
        Seq::empty()
    } else {
        let prev = spec_merge_pairs(arr.drop_last());
        match arr.last() {
            GgufValue::String(t) => match spec_find_from(t@, seq![' '], 0) {
                Some(i) => prev.push((t@.take(i), t@.skip(i + 1), (arr.len() - 1) as u32)),
                None => prev,
            },
            _ => prev,
        }
    }
}

/// The merge rules found in the metadata.
pub open spec fn spec_merges(g: GgufFile) -> Seq<(Seq<char>, Seq<char>, u32)> {
    match spec_meta_get(g.metadata@, "tokenizer.ggml.merges"@) {
        Some(GgufValue::Array(arr)) => spec_merge_pairs(arr@),
        _ => Seq::empty(),
    }
}

/// The views of merge rules.
pub open spec fn spec_merge_views(v: Seq<(String, String, u32)>) -> Seq<(Seq<char>, Seq<char>, u32)> {
    v.map_values(|m: (String, String, u32)| (m.0@, m.1@, m.2))
}

/// The BPE merge rules of the metadata, in array order (a later rule for the same pair
/// supersedes an earlier one when they are gathered into a table).
pub fn extract_merge_pairs(gguf: &GgufFile) -> (r: Vec<(String, String, u32)>)
    ensures
        spec_merge_views(r@) == spec_merges(*gguf),
{
    let mut out: Vec<(String, String, u32)> = Vec::new();
    match gguf.get_meta("tokenizer.ggml.merges") {
        Some(GgufValue::Array(arr)) => {
            let n = arr.len();
            let sp: Vec<char> = vec![' '];
            proof { assert(sp@ =~= seq![' ']); }
            for i in 0..n
                invariant
                    n == arr@.len(),
                    sp@ == seq![' '],
                    spec_merge_views(out@) == spec_merge_pairs(arr@.take(i as int)),
            {
                proof { assert(arr@.take(i + 1).drop_last() =~= arr@.take(i as int)); }
                match &arr[i] {
                    GgufValue::String(t) => {
                        let tc = chars_of(t.as_str());
                        match find_from(tc.as_slice(), sp.as_slice(), 0) {
                            Some(k) => {
                                let tl = tc.len();
                                assert(sp@.len() == 1);
                                assert(k + 1 <= tl);
                                let mut left = String::new();
                                push_range(&mut left, tc.as_slice(), 0, k);
                                let mut right = String::new();
                                push_range(&mut right, tc.as_slice(), k + 1, tl);
                                proof {
                                    assert(tc@.subrange(0, k as int) =~= tc@.take(k as int));
                                    assert(tc@.subrange(k + 1, tc@.len() as int) =~= tc@.skip(k + 1));
                                }
                                let ghost before = spec_merge_views(out@);
                                out.push((left, right, i as u32));
                                proof {
                                    assert(spec_merge_views(out@) =~= before.push((tc@.take(k as int), tc@.skip(k + 1), i as u32)));
                                }
                            },
                            None => {},
                        }
                    },
                    _ => {},
                }
            }
            proof { assert(arr@.take(n as int) =~= arr@); }
        },
        _ => {},
    }
    out
}

} // verus!
