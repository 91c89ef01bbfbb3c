use mivi::kv::{parse_kv_precision, KvError, KvLayout, KvPrecision};

#[test]
fn kv_precision_names() {
    assert_eq!(parse_kv_precision(Some("F32")), Some(KvPrecision::F32));
    assert_eq!(parse_kv_precision(Some("q8")), Some(KvPrecision::Q8_0));
    assert_eq!(parse_kv_precision(Some("TurboQuant4")), Some(KvPrecision::TurboQuant4));
    assert_eq!(parse_kv_precision(Some("2bit")), Some(KvPrecision::TurboQuant2));
    assert_eq!(parse_kv_precision(Some("fp16")), None);
    assert_eq!(parse_kv_precision(None), None);
}

#[test]
fn kv_layout_selective_layers_and_memory() {
    let attention_layers = vec![2, 5, 8, 11, 13, 15];
    let lay = KvLayout::try_new(16, 65536, 512, &attention_layers, KvPrecision::F32).unwrap();
    assert_eq!(lay.capacity_tokens(), 65536);
    assert_eq!(lay.n_allocated_layers(), 6);
    assert_eq!(lay.memory_bytes(), 6 * 65536 * 512 * 4 * 2);
    let q8 = KvLayout::try_new(16, 65536, 512, &attention_layers, KvPrecision::Q8_0).unwrap();
    assert_eq!(q8.memory_bytes(), 6 * 65536 * (16 * 34) * 2);
    let tq4 = KvLayout::try_new(16, 65536, 512, &attention_layers, KvPrecision::TurboQuant4).unwrap();
    assert_eq!(tq4.memory_bytes(), 6 * 65536 * 260 * 2);
    assert_eq!(tq4.bytes_per_token(), 260);
    let tq2 = KvLayout::try_new(16, 65536, 512, &attention_layers, KvPrecision::TurboQuant2).unwrap();
    assert_eq!(tq2.memory_bytes(), 6 * 65536 * 132 * 2);
}

#[test]
fn kv_layout_offsets_and_errors() {
    let lay = KvLayout::try_new(16, 128, 64, &[2, 5, 8], KvPrecision::F32).unwrap();
    assert_eq!(lay.checked_offset(2, 0), Ok(0));
    assert_eq!(lay.checked_offset(5, 1), Ok((128 + 1) * 64));
    assert_eq!(lay.checked_offset(0, 0), Err(KvError::InvalidLayer { layer: 0, max: 16 }));
    assert_eq!(lay.checked_offset(16, 0), Err(KvError::InvalidLayer { layer: 16, max: 16 }));
    assert_eq!(lay.checked_offset(8, 128), Err(KvError::ContextOverflow { pos: 128, max: 128 }));
}

#[test]
fn kv_layout_allocation_overflow() {
    let all: Vec<usize> = (0..4).collect();
    assert!(matches!(
        KvLayout::try_new(70000, 2, 4, &all, KvPrecision::F32),
        Err(KvError::AllocationOverflow { n_layers: 70000, .. })
    ));
    assert!(matches!(
        KvLayout::try_new(4, usize::MAX / 2, 4, &all, KvPrecision::F32),
        Err(KvError::AllocationOverflow { n_layers: 4, .. })
    ));
}

#[test]
fn kv_layout_position_tracking_and_imports() {
    let mut lay = KvLayout::try_new(2, 4, 2, &[0, 1], KvPrecision::F32).unwrap();
    lay.record_store(2);
    assert_eq!(lay.current_pos(), 3);
    lay.record_store(0);
    assert_eq!(lay.current_pos(), 3);
    assert!(matches!(lay.plan_import_at(3, 2, 8, 8), Err(KvError::ContextOverflow { pos: 5, max: 4 })));
    assert_eq!(lay.plan_import_at(1, 2, 8, 8), Ok((2, 8)));
    assert_eq!(lay.plan_import_at(1, 2, 7, 8), Err(KvError::DimMismatch { expected: 8, got: 7 }));
    assert_eq!(lay.plan_import(10, 16, 16), Ok((2, 4, 16)));
    lay.reset();
    assert_eq!(lay.current_pos(), 0);
}
