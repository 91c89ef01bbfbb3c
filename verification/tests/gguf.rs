use mivi::arena::ArenaConfig;
use mivi::config::{BlockType, ModelConfig, DEFAULT_MAX_LORA_RANK};
use mivi::gguf::{GgufError, GgufFile, GgufValue, TensorInfo};
use mivi::gguf_parse::parse_gguf;
use mivi::loader::{
    embedding_row, eos_token_id, extract_merge_pairs, extract_model_config, extract_vocab, layers_of, working_seq_len,
    ModelError,
};

fn put_u32(b: &mut Vec<u8>, x: u32) {
    b.extend_from_slice(&x.to_le_bytes());
}

fn put_u64(b: &mut Vec<u8>, x: u64) {
    b.extend_from_slice(&x.to_le_bytes());
}

fn put_str(b: &mut Vec<u8>, s: &str) {
    put_u64(b, s.len() as u64);
    b.extend_from_slice(s.as_bytes());
}

fn header(b: &mut Vec<u8>, tensors: u64, meta: u64) {
    b.extend_from_slice(b"GGUF");
    put_u32(b, 3);
    put_u64(b, tensors);
    put_u64(b, meta);
}

fn tensor(b: &mut Vec<u8>, name: &str, dims: &[u64], ty: u32, offset: u64) {
    put_str(b, name);
    put_u32(b, dims.len() as u32);
    for d in dims {
        put_u64(b, *d);
    }
    put_u32(b, ty);
    put_u64(b, offset);
}

fn sample_file() -> Vec<u8> {
    let mut b = Vec::new();
    header(&mut b, 2, 5);
    put_str(&mut b, "general.name");
    put_u32(&mut b, 8);
    put_str(&mut b, "tiny");
    put_str(&mut b, "lfm2.embedding_length");
    put_u32(&mut b, 4);
    put_u32(&mut b, 64);
    put_str(&mut b, "lfm2.attention.head_count_kv");
    put_u32(&mut b, 9);
    put_u32(&mut b, 5);
    put_u64(&mut b, 3);
    for v in [0i32, 2, 1] {
        put_u32(&mut b, v as u32);
    }
    put_str(&mut b, "lfm2.rope.freq_base");
    put_u32(&mut b, 6);
    put_u32(&mut b, 10000.0f32.to_bits());
    put_str(&mut b, "lfm2.embedding_length");
    put_u32(&mut b, 10);
    put_u64(&mut b, 128);
    tensor(&mut b, "blk.0.ssm_in.weight", &[128, 384], 0, 0);
    tensor(&mut b, "token_embd.weight", &[128, 32], 0, 4096);
    b
}

#[test]
fn parse_gguf_reads_metadata_and_tensors() {
    let bytes = sample_file();
    let g = parse_gguf(&bytes).unwrap();
    assert_eq!(g.version, 3);
    // A later entry with the same key replaces the earlier one.
    assert_eq!(g.metadata.len(), 4);
    assert_eq!(g.get_meta("lfm2.embedding_length").unwrap().as_usize(), Some(128));
    assert_eq!(g.get_meta("general.name").unwrap().as_str(), Some("tiny"));
    assert_eq!(g.get_meta("lfm2.rope.freq_base").unwrap().as_f32_bits(), Some(10000.0f32.to_bits()));
    match g.get_meta("lfm2.attention.head_count_kv").unwrap() {
        GgufValue::Array(a) => assert_eq!(a.len(), 3),
        _ => panic!("expected an array"),
    }
    assert_eq!(g.tensors.len(), 2);
    assert_eq!(g.tensors[0].dims, vec![128, 384]);
    assert_eq!(g.tensors[1].offset, 4096);
    assert_eq!(g.data_offset % 32, 0);
    assert!(g.data_offset >= bytes.len());
    assert_eq!(g.file_len, bytes.len());
}

#[test]
fn parse_gguf_errors() {
    assert_eq!(
        parse_gguf(b"GGUF").unwrap_err(),
        GgufError::MalformedFile("File too small to contain valid GGUF header".to_string())
    );
    let mut b = Vec::new();
    b.extend_from_slice(b"GGUX");
    put_u32(&mut b, 3);
    put_u64(&mut b, 0);
    put_u64(&mut b, 0);
    assert_eq!(parse_gguf(&b).unwrap_err(), GgufError::InvalidMagic(u32::from_le_bytes(*b"GGUX")));
    let mut b = Vec::new();
    b.extend_from_slice(b"GGUF");
    put_u32(&mut b, 7);
    put_u64(&mut b, 0);
    put_u64(&mut b, 0);
    assert_eq!(parse_gguf(&b).unwrap_err(), GgufError::UnsupportedVersion(7));
    let mut b = Vec::new();
    header(&mut b, 60000, 0);
    assert_eq!(
        parse_gguf(&b).unwrap_err(),
        GgufError::MalformedFile("Tensor count 60000 exceeds security limit 50000".to_string())
    );
    let mut b = Vec::new();
    header(&mut b, 0, 1);
    put_str(&mut b, "k");
    put_u32(&mut b, 42);
    assert_eq!(parse_gguf(&b).unwrap_err(), GgufError::UnsupportedValueType(42));
    let mut b = Vec::new();
    header(&mut b, 0, 1);
    put_str(&mut b, "k");
    put_u32(&mut b, 8);
    put_u64(&mut b, 2);
    b.extend_from_slice(&[0xff, 0xfe]);
    assert_eq!(parse_gguf(&b).unwrap_err(), GgufError::InvalidString);
    let mut b = Vec::new();
    header(&mut b, 0, 1);
    put_str(&mut b, "k");
    put_u32(&mut b, 4);
    b.push(1);
    assert_eq!(parse_gguf(&b).unwrap_err(), GgufError::Io("failed to fill whole buffer".to_string()));
    let mut b = Vec::new();
    header(&mut b, 0, 1);
    put_u64(&mut b, 2_000_000);
    assert_eq!(
        parse_gguf(&b).unwrap_err(),
        GgufError::MalformedFile("String length 2000000 exceeds limit 1048576".to_string())
    );
}

#[test]
fn tensor_lookup_and_range() {
    let g = parse_gguf(&sample_file()).unwrap();
    assert_eq!(
        g.get_tensor_info("missing").unwrap_err(),
        GgufError::TensorNotFound("missing".to_string())
    );
    let info = g.get_tensor_info("token_embd.weight").unwrap();
    let file = GgufFile { file_len: g.data_offset + 4096 + 128 * 32 * 4, ..parse_gguf(&sample_file()).unwrap() };
    assert_eq!(file.tensor_data_range(info, 4, 1), Ok((g.data_offset + 4096, g.data_offset + 4096 + 16384)));
    assert_eq!(
        file.tensor_data_range(info, 4, 0),
        Err(GgufError::MalformedFile("Block size cannot be zero".to_string()))
    );
    let short = GgufFile { file_len: 10, ..parse_gguf(&sample_file()).unwrap() };
    let start = g.data_offset + 4096;
    assert_eq!(
        short.tensor_data_range(info, 4, 1),
        Err(GgufError::MalformedFile(format!(
            "Tensor 'token_embd.weight' range [{}..{}] exceeds mapped file size 10",
            start,
            start + 16384
        )))
    );
    let huge = TensorInfo { name: "h".to_string(), n_dims: 2, dims: vec![usize::MAX, 2], ggml_type: 0, offset: 0 };
    assert_eq!(
        file.tensor_data_range(&huge, 4, 1),
        Err(GgufError::MalformedFile("Integer overflow in tensor dimensions".to_string()))
    );
}

fn file_with(metadata: Vec<(String, GgufValue)>, tensors: Vec<TensorInfo>) -> GgufFile {
    GgufFile { version: 3, metadata, tensors, data_offset: 0, file_len: 0 }
}

fn t(name: &str, dims: Vec<usize>) -> TensorInfo {
    TensorInfo { name: name.to_string(), n_dims: dims.len() as u32, dims, ggml_type: 0, offset: 0 }
}

#[test]
fn extract_model_config_reads_metadata() {
    let meta = vec![
        ("general.name".to_string(), GgufValue::String("tiny".to_string())),
        ("lfm2.embedding_length".to_string(), GgufValue::U32(64)),
        ("lfm.embedding_length".to_string(), GgufValue::U64(128)),
        ("lfm2.block_count".to_string(), GgufValue::U32(3)),
        ("lfm2.attention.head_count".to_string(), GgufValue::U32(4)),
        (
            "lfm2.attention.head_count_kv".to_string(),
            GgufValue::Array(vec![GgufValue::U32(0), GgufValue::U32(2), GgufValue::U32(0)]),
        ),
        ("lfm2.rope.freq_base".to_string(), GgufValue::F32(10000.0f32.to_bits())),
        ("lfm2.context_length".to_string(), GgufValue::U32(2048)),
        (
            "tokenizer.ggml.tokens".to_string(),
            GgufValue::Array(vec![GgufValue::String("a".to_string()), GgufValue::String("b".to_string())]),
        ),
    ];
    let tensors = vec![
        t("blk.0.shortconv.conv.weight", vec![3, 128]),
        t("blk.1.attn_q.weight", vec![128, 128]),
        t("blk.2.ssm_in.weight", vec![128, 384]),
    ];
    let g = file_with(meta, tensors);
    let c = extract_model_config(&g).unwrap();
    assert_eq!(c.name, "tiny");
    assert_eq!(c.dim, 128);
    assert_eq!(c.n_layers, 3);
    assert_eq!(c.n_heads, 4);
    assert_eq!(c.n_kv_heads, 2);
    assert_eq!(c.head_dim, 32);
    assert_eq!(c.kv_dim, 64);
    assert_eq!(c.max_seq_len, 2048);
    assert_eq!(c.vocab_size, 2);
    assert_eq!(c.ssm_conv_kernel, 3);
    assert_eq!(f32::from_bits(c.rope_base_bits), 10000.0);
    assert_eq!(c.block_types, vec![BlockType::SSM, BlockType::Attention, BlockType::SSM]);
    assert_eq!(c.hidden_dim, ModelConfig::default().hidden_dim);
}

#[test]
fn extract_model_config_rejects_invalid() {
    let meta = vec![
        ("lfm.attention.head_count".to_string(), GgufValue::U32(16)),
        ("lfm.attention.head_count_kv".to_string(), GgufValue::U32(3)),
    ];
    let g = file_with(meta, vec![]);
    match extract_model_config(&g) {
        Err(ModelError::InvalidConfig(m)) => assert_eq!(m, "n_heads (16) must be divisible by n_kv_heads (3)"),
        other => panic!("unexpected result: {:?}", other.map(|c| c.name)),
    }
}

#[test]
fn extract_vocab_and_eos() {
    let g = file_with(
        vec![
            (
                "tokenizer.ggml.tokens".to_string(),
                GgufValue::Array(vec![GgufValue::String("x".to_string()), GgufValue::U8(1), GgufValue::String("y".to_string())]),
            ),
            ("tokenizer.ggml.eos_token_id".to_string(), GgufValue::U32(7)),
        ],
        vec![],
    );
    assert_eq!(extract_vocab(&g, 5), vec!["x".to_string(), "y".to_string()]);
    assert_eq!(eos_token_id(&g, 2), 7);
    let empty = file_with(vec![], vec![]);
    assert_eq!(extract_vocab(&empty, 3), vec!["<tok_0>", "<tok_1>", "<tok_2>"]);
    assert_eq!(eos_token_id(&empty, 2), 2);
}

#[test]
fn runtime_plan_helpers() {
    assert_eq!(working_seq_len(128000, None), 4096);
    assert_eq!(working_seq_len(1000, None), 1000);
    assert_eq!(working_seq_len(128000, Some(65536)), 65536);
    let c = ModelConfig::default();
    assert_eq!(layers_of(&c.block_types, BlockType::Attention), vec![2, 5, 8, 11, 14]);
    assert_eq!(layers_of(&c.block_types, BlockType::SSM).len(), 11);
    let a = ArenaConfig::for_model(&c, 4096);
    assert_eq!(a.max_seq_len, 4096);
    assert_eq!(a.dim, 1024);
    assert_eq!(a.max_lora_rank, DEFAULT_MAX_LORA_RANK);
}

#[test]
fn merge_rules_split_at_first_space() {
    let g = file_with(
        vec![(
            "tokenizer.ggml.merges".to_string(),
            GgufValue::Array(vec![
                GgufValue::String("a b".to_string()),
                GgufValue::String("nospace".to_string()),
                GgufValue::U8(3),
                GgufValue::String("x y z".to_string()),
            ]),
        )],
        vec![],
    );
    assert_eq!(
        extract_merge_pairs(&g),
        vec![("a".to_string(), "b".to_string(), 0), ("x".to_string(), "y z".to_string(), 3)]
    );
    assert!(extract_merge_pairs(&file_with(vec![], vec![])).is_empty());
}

#[test]
fn embedding_row_checks() {
    match embedding_row(10, 0, 10, 8, 4, 100, 4, 1, 1000) {
        Err(ModelError::InvalidToken(t)) => assert_eq!(t, 10),
        _ => panic!("token out of vocabulary"),
    }
    match embedding_row(1, 8, 10, 8, 4, 100, 4, 1, 1000) {
        Err(ModelError::ContextOverflow { pos, max }) => assert_eq!((pos, max), (8, 8)),
        _ => panic!("position out of context"),
    }
    assert!(matches!(embedding_row(2, 0, 10, 8, 4, 100, 4, 1, 1000), Ok((132, 148))));
    assert!(matches!(embedding_row(9, 0, 10, 8, 4, 100, 4, 1, 200), Err(ModelError::InvalidToken(9))));
}
