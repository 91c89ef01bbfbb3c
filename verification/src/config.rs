//! Model hyper-parameters for the hybrid SSM / attention architecture.
//!
//! Floating-point hyper-parameters are carried as their IEEE-754 `f32` bit
//! patterns, so that the configuration logic stays in integer arithmetic.

use vstd::prelude::*;
use crate::text::{push_str, push_decimal, spec_decimal};

verus! {

/// Bit pattern of the default RMS-norm epsilon (`1e-5f32`).
pub const DEFAULT_RMS_NORM_EPS_BITS: u32 = 0x3727_c5ac;

/// Bit pattern of the default SSM `A` value (`0.95f32`).
pub const DEFAULT_SSM_A_VAL_BITS: u32 = 0x3f73_3333;

/// Bit pattern of the default rotary base (`1_000_000.0f32`).
pub const DEFAULT_ROPE_BASE_BITS: u32 = 0x4974_2400;

/// Largest LoRA rank the runtime reserves scratch space for.
pub const DEFAULT_MAX_LORA_RANK: usize = 64;

/// Number of experts assumed per mixture layer.
pub const DEFAULT_N_EXPERTS: usize = 6;

/// Head dimension used when the head count is unknown.
pub const DEFAULT_HEAD_DIM: usize = 64;

/// Number of recent tokens considered by repetition penalties.
pub const RECENT_TOKENS_WINDOW: usize = 64;

/// Chat-template end-of-turn stop marker.
pub const DEFAULT_STOP_TOKEN_IM_END: &'static str = "<|im_end|>";

/// End-of-text stop marker.
pub const DEFAULT_STOP_TOKEN_ENDOFTEXT: &'static str = "<|endoftext|>";

/// Kind of a decoder block.
#[derive(Debug, Clone, Copy, PartialEq, Eq, Structural)]
pub enum BlockType {
    SSM,
    Attention,
}

/// Hyper-parameters of a model.
#[derive(Debug, Clone)]
pub struct ModelConfig {
    pub name: String,
    pub dim: usize,
    pub hidden_dim: usize,
    pub n_layers: usize,
    pub n_heads: usize,
    pub n_kv_heads: usize,
    pub head_dim: usize,
    pub kv_dim: usize,
    pub vocab_size: usize,
    pub max_seq_len: usize,
    /// IEEE-754 bits of the rotary frequency base.
    pub rope_base_bits: u32,
    /// IEEE-754 bits of the RMS-norm epsilon.
    pub rms_norm_eps_bits: u32,
    pub ssm_state_dim: usize,
    pub ssm_conv_kernel: usize,
    pub block_types: Vec<BlockType>,
}

/// Mathematical view of a configuration.
pub struct ModelConfigView {
    pub name: Seq<char>,
    pub dim: usize,
    pub hidden_dim: usize,
    pub n_layers: usize,
    pub n_heads: usize,
    pub n_kv_heads: usize,
    pub head_dim: usize,
    pub kv_dim: usize,
    pub vocab_size: usize,
    pub max_seq_len: usize,
    pub rope_base_bits: u32,
    pub rms_norm_eps_bits: u32,
    pub ssm_state_dim: usize,
    pub ssm_conv_kernel: usize,
    pub block_types: Seq<BlockType>,
}

impl View for ModelConfig {
    type V = ModelConfigView;

    open spec fn view(&self) -> ModelConfigView {
        ModelConfigView {
            name: self.name@,
            dim: self.dim,
            hidden_dim: self.hidden_dim,
            n_layers: self.n_layers,
            n_heads: self.n_heads,
            n_kv_heads: self.n_kv_heads,
            head_dim: self.head_dim,
            kv_dim: self.kv_dim,
            vocab_size: self.vocab_size,
            max_seq_len: self.max_seq_len,
            rope_base_bits: self.rope_base_bits,
            rms_norm_eps_bits: self.rms_norm_eps_bits,
            ssm_state_dim: self.ssm_state_dim,
            ssm_conv_kernel: self.ssm_conv_kernel,
            block_types: self.block_types@,
        }
    }
}

impl ModelConfigView {
    /// The outcome of validating these hyper-parameters.
    pub open spec fn validity(self) -> Result<(), Seq<char>> {
        spec_validate(self.dim, self.n_heads, self.n_kv_heads, self.n_layers, self.block_types.len())
    }
}

/// The block kind of layer `i` in the default layout: every third layer attends.
pub open spec fn spec_default_block(i: int) -> BlockType {
    if i % 3 == 2 {
        BlockType::Attention
    } else {
        BlockType::SSM
    }
}

/// The error `validate` reports for the given hyper-parameters, checked in order.
pub open spec fn spec_validate(
    dim: usize,
    n_heads: usize,
    n_kv_heads: usize,
    n_layers: usize,
    n_blocks: nat,
) -> Result<(), Seq<char>> {
    if dim == 0 {
        Err("Model dimension (dim) must be > 0"@)
    } else if n_heads == 0 {
        Err("Number of attention heads (n_heads) must be > 0"@)
    } else if n_kv_heads == 0 {
        Err("Number of KV heads (n_kv_heads) must be > 0"@)
    } else if dim % n_heads != 0 {
        Err("Model dim ("@ + spec_decimal(dim as nat) + ") must be divisible by n_heads ("@
            + spec_decimal(n_heads as nat) + ")"@)
    } else if n_heads % n_kv_heads != 0 {
        Err("n_heads ("@ + spec_decimal(n_heads as nat) + ") must be divisible by n_kv_heads ("@
            + spec_decimal(n_kv_heads as nat) + ")"@)
    } else if n_layers == 0 {
        Err("Number of layers (n_layers) must be > 0"@)
    } else if n_blocks != n_layers {
        Err("block_types length ("@ + spec_decimal(n_blocks) + ") does not match n_layers ("@
            + spec_decimal(n_layers as nat) + ")"@)
    } else {
        Ok(())
    }
}

impl ModelConfig {
    /// The outcome of `validate` on this configuration.
    pub open spec fn spec_validity(&self) -> Result<(), Seq<char>> {
        self@.validity()
    }

    /// Checks the internal consistency of the hyper-parameters.
    pub fn validate(&self) -> (r: Result<(), String>)
        ensures
            r is Ok <==> self.spec_validity() is Ok,
            r matches Err(m) ==> self.spec_validity() == Err::<(), Seq<char>>(m@),
    {
        if self.dim == 0 {
            return Err("Model dimension (dim) must be > 0".to_string());
        }
        if self.n_heads == 0 {
            return Err("Number of attention heads (n_heads) must be > 0".to_string());
        }
        if self.n_kv_heads == 0 {
            return Err("Number of KV heads (n_kv_heads) must be > 0".to_string());
        }
        if self.dim % self.n_heads != 0 {
            let mut m = String::new();
            push_str(&mut m, "Model dim (");
            push_decimal(&mut m, self.dim);
            push_str(&mut m, ") must be divisible by n_heads (");
            push_decimal(&mut m, self.n_heads);
            push_str(&mut m, ")");
            return Err(m);
        }
        if self.n_heads % self.n_kv_heads != 0 {
            let mut m = String::new();
            push_str(&mut m, "n_heads (");
            push_decimal(&mut m, self.n_heads);
            push_str(&mut m, ") must be divisible by n_kv_heads (");
            push_decimal(&mut m, self.n_kv_heads);
            push_str(&mut m, ")");
            return Err(m);
        }
        if self.n_layers == 0 {
            return Err("Number of layers (n_layers) must be > 0".to_string());
        }
        if self.block_types.len() != self.n_layers {
            let mut m = String::new();
            push_str(&mut m, "block_types length (");
            push_decimal(&mut m, self.block_types.len());
            push_str(&mut m, ") does not match n_layers (");
            push_decimal(&mut m, self.n_layers);
            push_str(&mut m, ")");
            return Err(m);
        }
        Ok(())
    }
}

/// The default layout of `n` blocks.
pub fn default_block_types(n: usize) -> (r: Vec<BlockType>)
    ensures
        r@.len() == n,
        forall|i: int| 0 <= i < n ==> r@[i] == spec_default_block(i),
{
    let mut r: Vec<BlockType> = Vec::with_capacity(n);
    for i in 0..n
        invariant
            r@.len() == i,
            forall|j: int| 0 <= j < i ==> r@[j] == spec_default_block(j),
    {
        if i % 3 == 2 {
            r.push(BlockType::Attention);
        } else {
            r.push(BlockType::SSM);
        }
    }
    r
}

/// The default configuration.
pub open spec fn spec_default_config() -> ModelConfigView {
    ModelConfigView {
        name: "mivi-v4-lfm2.5-350m"@,
        dim: 1024,
        hidden_dim: 4608,
        n_layers: 16,
        n_heads: 16,
        n_kv_heads: 8,
        head_dim: 64,
        kv_dim: 512,
        vocab_size: 65536,
        max_seq_len: 128000,
        rope_base_bits: DEFAULT_ROPE_BASE_BITS,
        rms_norm_eps_bits: DEFAULT_RMS_NORM_EPS_BITS,
        ssm_state_dim: 128,
        ssm_conv_kernel: 3,
        block_types: Seq::new(16, |i: int| spec_default_block(i)),
    }
}

impl Default for ModelConfig {
    /// The 350M-parameter hybrid layout: 16 layers, 16 query and 8 KV heads of width 64.
    fn default() -> (c: Self)
        ensures
            c@ == spec_default_config(),
    {
        let dim: usize = 1024;
        let n_heads: usize = 16;
        let n_kv_heads: usize = 8;
        let head_dim: usize = dim / n_heads;
        let kv_dim: usize = n_kv_heads * head_dim;
        let n_layers: usize = 16;
        let c = ModelConfig {
            name: "mivi-v4-lfm2.5-350m".to_string(),
            dim,
            hidden_dim: 4608,
            n_layers,
            n_heads,
            n_kv_heads,
            head_dim,
            kv_dim,
            vocab_size: 65536,
            max_seq_len: 128000,
            rope_base_bits: DEFAULT_ROPE_BASE_BITS,
            rms_norm_eps_bits: DEFAULT_RMS_NORM_EPS_BITS,
            ssm_state_dim: 128,
            ssm_conv_kernel: 3,
            block_types: default_block_types(n_layers),
        };
        assert(c.block_types@ =~= spec_default_config().block_types);
        c
    }
}

} // verus!
