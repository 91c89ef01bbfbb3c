use mivi::kvc::{decode_kvc, encode_kvc, read_listing_header, KvcError};
use mivi::prefix::HybridStateSnapshot;

#[test]
fn kvc_roundtrip_and_hash_check() {
    let tokens = vec![1u32, 100, 200, 300, 400];
    let bits = |v: &[f32]| -> Vec<u32> { v.iter().map(|x| x.to_bits()).collect() };
    let state = HybridStateSnapshot::new(5, 0, bits(&[1.1, 2.2, 3.3]), bits(&[4.4, 5.5, 6.6]), bits(&[0.1, 0.2]), bits(&[0.9]));
    let model_hash = 0x1234_5678_9ABC_DEF0u64;
    let bytes = encode_kvc(&tokens, &state, model_hash);
    assert_eq!(bytes.len(), 40 + 4 * (5 + 3 + 3 + 2 + 1));
    assert_eq!(&bytes[0..8], b"MIVIKVC1");
    let (t, s) = decode_kvc(&bytes, Some(model_hash)).unwrap();
    assert_eq!(t, tokens);
    assert_eq!(s.pos, 5);
    assert_eq!(s.k_cache, state.k_cache);
    assert_eq!(s.v_cache, state.v_cache);
    assert_eq!(s.ssm_conv_states, state.ssm_conv_states);
    assert_eq!(s.ssm_hidden_states, state.ssm_hidden_states);
    assert_eq!(
        decode_kvc(&bytes, Some(0x9999)).err(),
        Some(KvcError::ModelHashMismatch { expected: 0x9999, found: model_hash })
    );
    assert!(decode_kvc(&bytes, None).is_ok());
}

#[test]
fn kvc_rejects_damaged_images() {
    assert_eq!(decode_kvc(b"MIVI", None).err(), Some(KvcError::Truncated));
    assert_eq!(decode_kvc(b"NOTAKVCFILE_____", None).err(), Some(KvcError::MagicMismatch));
    let tokens = vec![7u32; 3];
    let state: HybridStateSnapshot<u32> = HybridStateSnapshot::new(3, 0, vec![], vec![], vec![], vec![]);
    let bytes = encode_kvc(&tokens, &state, 1);
    assert_eq!(decode_kvc(&bytes[0..20], None).err(), Some(KvcError::Truncated));
    assert_eq!(
        decode_kvc(&bytes[0..44], None).err(),
        Some(KvcError::PayloadExceedsFile { needed: 52, file_len: 44 })
    );
}

#[test]
fn listing_header_reads_hash_and_count() {
    let mut b = b"MIVIKVC1".to_vec();
    assert_eq!(read_listing_header(&b), Some((0, 0)));
    b.extend_from_slice(&0xABCDu64.to_le_bytes());
    assert_eq!(read_listing_header(&b), Some((0xABCD, 0)));
    b.extend_from_slice(&12u32.to_le_bytes());
    assert_eq!(read_listing_header(&b), Some((0xABCD, 12)));
    assert_eq!(read_listing_header(b"NOTAKVC1xxxxxxxxxxxx"), None);
    assert_eq!(read_listing_header(b"MIVI"), None);
}
