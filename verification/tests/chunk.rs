use lox_rs::chunk::{Chunk, OpCode};
use lox_rs::util::{join_u8s, split_u16};

#[test]
fn short_index_round_trip() {
    let mut chunk = Chunk::new();
    let r = chunk.write_maybe_long((OpCode::Constant, OpCode::ConstantLong), 42, 1);
    assert_eq!(r, Some(42));
    assert_eq!(chunk.get_op(0), Some(OpCode::Constant));
    assert_eq!(chunk.get_byte(1), Some(42));
    assert_eq!(chunk.len(), 2);
}

#[test]
fn long_index_round_trip() {
    let mut chunk = Chunk::new();
    let r = chunk.write_maybe_long((OpCode::Constant, OpCode::ConstantLong), 300, 1);
    assert_eq!(r, Some(300));
    assert_eq!(chunk.get_op(0), Some(OpCode::ConstantLong));
    let b1 = chunk.get_byte(1).unwrap();
    let b2 = chunk.get_byte(2).unwrap();
    assert_eq!(join_u8s(b1, b2) as usize, 300);
}

#[test]
fn oversized_index_is_refused() {
    let mut chunk = Chunk::new();
    let r = chunk.write_maybe_long((OpCode::Constant, OpCode::ConstantLong), 65536, 1);
    assert_eq!(r, None);
    assert_eq!(chunk.len(), 0);
}

#[test]
fn split_and_join_are_inverse() {
    for &x in &[0u16, 1, 255, 256, 300, 4660, 65535] {
        let (hi, lo) = split_u16(x);
        assert_eq!(join_u8s(hi, lo), x);
    }
    assert_eq!(split_u16(0x1234), (0x12, 0x34));
}

#[test]
fn get_line_is_monotone() {
    let mut chunk = Chunk::new();
    chunk.write_chunk(OpCode::Nil, 1);
    chunk.write_chunk(OpCode::Pop, 1);
    chunk.write_chunk(OpCode::Nil, 2);
    chunk.write_chunk(OpCode::Pop, 5);
    assert_eq!(chunk.get_line(0), 1);
    assert_eq!(chunk.get_line(1), 1);
    assert_eq!(chunk.get_line(2), 2);
    assert_eq!(chunk.get_line(3), 5);
    let mut previous = 0;
    for i in 0..4 {
        let line = chunk.get_line(i);
        assert!(line >= previous);
        previous = line;
    }
}

#[test]
fn patching_replaces_operand_bytes_only() {
    let mut chunk = Chunk::new();
    chunk.write_chunk(OpCode::Jump, 1);
    chunk.write_chunk(OpCode::Byte(255), 1);
    chunk.write_chunk(OpCode::Byte(255), 1);
    assert!(chunk.patch_byte(1, 0));
    assert!(chunk.patch_byte(2, 7));
    assert!(!chunk.patch_byte(0, 9));
    assert_eq!(chunk.get_byte(1), Some(0));
    assert_eq!(chunk.get_byte(2), Some(7));
    assert_eq!(chunk.get_op(0), Some(OpCode::Jump));
}
