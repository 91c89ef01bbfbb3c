//! Sizes of the preallocated activation buffers used by a forward pass.

use vstd::prelude::*;
use crate::config::{ModelConfig, DEFAULT_MAX_LORA_RANK, DEFAULT_N_EXPERTS};

verus! {

/// Dimensions that size the activation arena.
#[derive(Debug, Clone)]
pub struct ArenaConfig {
    pub dim: usize,
    pub hidden_dim: usize,
    pub n_layers: usize,
    pub n_heads: usize,
    pub n_kv_heads: usize,
    pub head_dim: usize,
    pub kv_dim: usize,
    pub vocab_size: usize,
    pub max_seq_len: usize,
    pub ssm_state_dim: usize,
    pub ssm_conv_kernel: usize,
    pub max_lora_rank: usize,
    pub n_experts: usize,
}

impl ArenaConfig {
    /// The arena for running `config` with a working context of `working_seq_len` tokens.
    pub fn for_model(config: &ModelConfig, working_seq_len: usize) -> (r: Self)
        ensures
            r.dim == config.dim,
            r.hidden_dim == config.hidden_dim,
            r.n_layers == config.n_layers,
            r.n_heads == config.n_heads,
            r.n_kv_heads == config.n_kv_heads,
            r.head_dim == config.head_dim,
            r.kv_dim == config.kv_dim,
            r.vocab_size == config.vocab_size,
            r.max_seq_len == working_seq_len,
            r.ssm_state_dim == config.ssm_state_dim,
            r.ssm_conv_kernel == config.ssm_conv_kernel,
            r.max_lora_rank == DEFAULT_MAX_LORA_RANK,
            r.n_experts == DEFAULT_N_EXPERTS,
    {
        ArenaConfig {
            dim: config.dim,
            hidden_dim: config.hidden_dim,
            n_layers: config.n_layers,
            n_heads: config.n_heads,
            n_kv_heads: config.n_kv_heads,
            head_dim: config.head_dim,
            kv_dim: config.kv_dim,
            vocab_size: config.vocab_size,
            max_seq_len: working_seq_len,
            ssm_state_dim: config.ssm_state_dim,
            ssm_conv_kernel: config.ssm_conv_kernel,
            max_lora_rank: DEFAULT_MAX_LORA_RANK,
            n_experts: DEFAULT_N_EXPERTS,
        }
    }
}

} // verus!
