use mivi::config::{BlockType, ModelConfig, DEFAULT_RMS_NORM_EPS_BITS, DEFAULT_ROPE_BASE_BITS};

#[test]
fn test_config_validate_success() {
    let config = ModelConfig::default();
    assert!(config.validate().is_ok());
}

#[test]
fn test_config_validate_rejects_indivisible_heads() {
    let config = ModelConfig {
        n_heads: 16,
        n_kv_heads: 3,
        ..Default::default()
    };
    assert!(config.validate().is_err());
}

#[test]
fn default_config_values() {
    let c = ModelConfig::default();
    assert_eq!(c.name, "mivi-v4-lfm2.5-350m");
    assert_eq!(c.head_dim, 64);
    assert_eq!(c.kv_dim, 512);
    assert_eq!(c.block_types.len(), 16);
    assert_eq!(c.block_types[0], BlockType::SSM);
    assert_eq!(c.block_types[2], BlockType::Attention);
    assert_eq!(c.block_types[15], BlockType::SSM);
    assert_eq!(c.block_types.iter().filter(|b| **b == BlockType::Attention).count(), 5);
    assert_eq!(f32::from_bits(DEFAULT_ROPE_BASE_BITS), 1_000_000.0);
    assert_eq!(f32::from_bits(DEFAULT_RMS_NORM_EPS_BITS), 1e-5);
}

#[test]
fn validate_reports_each_problem_in_order() {
    let base = ModelConfig::default();
    let c = ModelConfig { dim: 0, ..base.clone() };
    assert_eq!(c.validate().unwrap_err(), "Model dimension (dim) must be > 0");
    let c = ModelConfig { n_heads: 0, ..base.clone() };
    assert_eq!(c.validate().unwrap_err(), "Number of attention heads (n_heads) must be > 0");
    let c = ModelConfig { n_kv_heads: 0, ..base.clone() };
    assert_eq!(c.validate().unwrap_err(), "Number of KV heads (n_kv_heads) must be > 0");
    let c = ModelConfig { dim: 1000, n_heads: 16, ..base.clone() };
    assert_eq!(c.validate().unwrap_err(), "Model dim (1000) must be divisible by n_heads (16)");
    let c = ModelConfig { n_kv_heads: 3, ..base.clone() };
    assert_eq!(c.validate().unwrap_err(), "n_heads (16) must be divisible by n_kv_heads (3)");
    let c = ModelConfig { n_layers: 0, ..base.clone() };
    assert_eq!(c.validate().unwrap_err(), "Number of layers (n_layers) must be > 0");
    let c = ModelConfig { n_layers: 12, ..base.clone() };
    assert_eq!(c.validate().unwrap_err(), "block_types length (16) does not match n_layers (12)");
}

#[test]
fn arena_takes_model_dimensions_and_working_context() {
    let cfg = ModelConfig::default();
    let a = mivi::arena::ArenaConfig::for_model(&cfg, 4096);
    assert_eq!(a.dim, cfg.dim);
    assert_eq!(a.hidden_dim, cfg.hidden_dim);
    assert_eq!(a.kv_dim, cfg.kv_dim);
    assert_eq!(a.max_seq_len, 4096);
    assert_eq!(a.max_lora_rank, 64);
    assert_eq!(a.n_experts, 6);
}
