use mivi::rope::{rope_buffer_check, rope_table_offset, RopeError};

#[test]
fn rope_position_and_buffer_checks() {
    assert_eq!(rope_table_offset(20, 16, 32, 16 * 32), Err(RopeError::PosOutOfBounds { pos: 20, max: 16 }));
    assert_eq!(rope_table_offset(3, 16, 32, 16 * 32), Ok(96));
    assert_eq!(rope_table_offset(15, 16, 32, 15 * 32), Err(RopeError::PosOutOfBounds { pos: 15, max: 16 }));
    assert_eq!(rope_buffer_check(32, 1, 64), Err(RopeError::BufferTooSmall { required: 64, actual: 32 }));
    assert_eq!(rope_buffer_check(64, 1, 64), Ok(()));
}
