use stackpile::op::{Op, OpDecodeError};

fn le(v: u32) -> Vec<u8> {
    v.to_le_bytes().to_vec()
}

#[test]
fn decode_nop_and_yield() {
    assert_eq!(Op::decode(&[0x00]), Ok(Op::Nop));
    assert_eq!(Op::decode(&[0x01]), Ok(Op::Yield));
    assert_eq!(Op::decode(&[7, 7, 0x01]), Ok(Op::Yield));
}

#[test]
fn decode_spawn() {
    let mut code = le(0x01020304);
    code.push(0x02);
    assert_eq!(Op::decode(&code), Ok(Op::Spawn(0x01020304)));
}

#[test]
fn decode_if_as_in_sample_program() {
    let code = [84, 0, 0, 0, 77, 0, 0, 0, 1, 0x03];
    assert_eq!(Op::decode(&code), Ok(Op::If(1, 77, 84)));
}

#[test]
fn decode_calls_and_binop() {
    assert_eq!(Op::decode(&[51, 0, 0, 0, 0, 0x04]), Ok(Op::Call(0, 51)));
    assert_eq!(Op::decode(&[0, 0, 0, 0, 0, 0x05]), Ok(Op::Callf(0, 0)));
    assert_eq!(Op::decode(&[9, 0, 0, 0, 3, 0x06]), Ok(Op::MapSlot(3, 9)));
    assert_eq!(Op::decode(&[8, 0, 0, 0, 1, 0x08]), Ok(Op::Binop(1, 8)));
}

#[test]
fn decode_mapto() {
    assert_eq!(Op::decode(&[0, 1, 0, 0, 5, 4, 0x07]), Ok(Op::Mapto(4, 5, 256)));
}

#[test]
fn decode_two_byte_forms() {
    assert_eq!(Op::decode(&[2, 3, 0x09]), Ok(Op::Callv(3, 2)));
    assert_eq!(Op::decode(&[2, 3, 0x20]), Ok(Op::Swap(3, 2)));
    assert_eq!(Op::decode(&[1, 0, 0x21]), Ok(Op::Move(0, 1)));
    assert_eq!(Op::decode(&[6, 0, 0x22]), Ok(Op::SetSlot(0, 6)));
}

#[test]
fn decode_cursor_signed() {
    assert_eq!(Op::decode(&[0xfe, 0xff, 0x23]), Ok(Op::Cursor(-2)));
    assert_eq!(Op::decode(&[0x00, 0x80, 0x23]), Ok(Op::Cursor(-32768)));
    assert_eq!(Op::decode(&[0xff, 0x7f, 0x23]), Ok(Op::Cursor(32767)));
    assert_eq!(Op::decode(&[5, 0, 0x23]), Ok(Op::Cursor(5)));
}

#[test]
fn decode_unknown_opcode() {
    assert_eq!(Op::decode(&[1, 2, 0x42]), Err(OpDecodeError::UnknownOp(0x42, 2)));
    assert_eq!(Op::decode(&[0x0a]), Err(OpDecodeError::UnknownOp(0x0a, 0)));
}

#[test]
fn decode_missing_arguments() {
    assert_eq!(Op::decode(&[0x02]), Err(OpDecodeError::NoArgument(0x02, 0)));
    assert_eq!(Op::decode(&[1, 2, 3, 0x02]), Err(OpDecodeError::NoArgument(0x02, 3)));
    assert_eq!(Op::decode(&[0x03]), Err(OpDecodeError::NoArgument(0x03, 0)));
    assert_eq!(Op::decode(&[0, 0, 0, 0x03]), Err(OpDecodeError::NoArgument(0x03, 2)));
    assert_eq!(Op::decode(&[0, 0, 0, 0, 0, 0x03]), Err(OpDecodeError::NoArgument(0x03, 0)));
    assert_eq!(Op::decode(&[9, 0x07]), Err(OpDecodeError::NoArgument(0x07, 0)));
    assert_eq!(Op::decode(&[1, 9, 0x07]), Err(OpDecodeError::NoArgument(0x07, 0)));
    assert_eq!(Op::decode(&[1, 0x20]), Err(OpDecodeError::NoArgument(0x20, 0)));
    assert_eq!(Op::decode(&[1, 0x23]), Err(OpDecodeError::NoArgument(0x23, 1)));
}

#[test]
fn byte_widths_match_opcode_table() {
    assert_eq!(Op::Nop.byte_width(), 1);
    assert_eq!(Op::Yield.byte_width(), 1);
    assert_eq!(Op::Spawn(0).byte_width(), 5);
    assert_eq!(Op::If(0, 0, 0).byte_width(), 10);
    assert_eq!(Op::Call(0, 0).byte_width(), 6);
    assert_eq!(Op::Callf(0, 0).byte_width(), 6);
    assert_eq!(Op::MapSlot(0, 0).byte_width(), 6);
    assert_eq!(Op::Mapto(0, 0, 0).byte_width(), 7);
    assert_eq!(Op::Binop(0, 0).byte_width(), 6);
    assert_eq!(Op::Callv(0, 0).byte_width(), 3);
    assert_eq!(Op::Swap(0, 0).byte_width(), 3);
    assert_eq!(Op::Move(0, 0).byte_width(), 3);
    assert_eq!(Op::SetSlot(0, 0).byte_width(), 3);
    assert_eq!(Op::Cursor(0).byte_width(), 3);
}

#[test]
fn layout_roundtrip_with_bytes_below() {
    // Whatever lies below an instruction, it decodes the same, and it is
    // exactly byte_width bytes long.
    let cases: Vec<(Vec<u8>, Op)> = vec![
        (vec![0x00], Op::Nop),
        ([le(70000), vec![0x02]].concat(), Op::Spawn(70000)),
        ([le(9), le(8), vec![200, 0x03]].concat(), Op::If(200, 8, 9)),
        ([le(u32::MAX), vec![255, 0x08]].concat(), Op::Binop(255, u32::MAX as usize)),
        ([le(12), vec![2, 1, 0x07]].concat(), Op::Mapto(1, 2, 12)),
        (vec![4, 3, 0x20], Op::Swap(3, 4)),
        (vec![0x18, 0xfc, 0x23], Op::Cursor(-1000)),
    ];
    for (bytes, op) in cases {
        assert_eq!(bytes.len(), op.byte_width());
        for below in [vec![], vec![0x22], vec![1, 2, 3, 4, 5, 6, 7, 8, 9, 10, 11]] {
            let code = [below.clone(), bytes.clone()].concat();
            assert_eq!(Op::decode(&code), Ok(op));
        }
    }
}
