use inu::bytecode::{build_instruction, Constant, Instruction, LuaVersion, OpCode, OpMode};
use inu::error::{ReadError, WidthKind};
use inu::read::build_reader;

fn header() -> Vec<u8> {
    vec![0x1B, b'L', b'u', b'a', 0x51, 0, 1, 4, 8, 4, 8, 0]
}

fn le_int(v: i32) -> Vec<u8> {
    v.to_le_bytes().to_vec()
}

fn string(s: &[u8]) -> Vec<u8> {
    let mut out = Vec::new();
    if s.is_empty() {
        out.extend_from_slice(&0u64.to_le_bytes());
    } else {
        out.extend_from_slice(&((s.len() + 1) as u64).to_le_bytes());
        out.extend_from_slice(s);
        out.push(0);
    }
    out
}

fn proto(code: &[u32], constants: &[u8], n_constants: i32, children: &[Vec<u8>]) -> Vec<u8> {
    let mut out = string(b"@test.lua");
    out.extend(le_int(0));
    out.extend(le_int(0));
    out.extend_from_slice(&[0, 0, 2, 2]);
    out.extend(le_int(code.len() as i32));
    for w in code {
        out.extend_from_slice(&w.to_le_bytes());
    }
    out.extend(le_int(n_constants));
    out.extend_from_slice(constants);
    out.extend(le_int(children.len() as i32));
    for c in children {
        out.extend_from_slice(c);
    }
    out.extend(le_int(0));
    out.extend(le_int(0));
    out.extend(le_int(0));
    out
}

fn chunk(code: &[u32], constants: &[u8], n_constants: i32) -> Vec<u8> {
    let mut out = header();
    out.extend(proto(code, constants, n_constants, &[]));
    out
}

fn raw(op: u32, a: u32, b: u32, c: u32) -> u32 {
    op | (a << 6) | (c << 14) | (b << 23)
}

#[test]
fn reads_minimal_chunk() {
    let bytes = chunk(&[], &[], 0);
    let mut reader = build_reader(&bytes);
    let b = reader.read().unwrap();
    assert_eq!(b.version, LuaVersion::Lua51);
    assert!(b.endianness);
    assert_eq!(b.size_int, 4);
    assert_eq!(b.size_sizet, 8);
    assert!(b.main_proto.is_main);
    assert_eq!(b.main_proto.id, 0);
    assert_eq!(b.main_proto.source, b"@test.lua".to_vec());
    assert_eq!(b.main_proto.param_count, 0);
    assert!(b.main_proto.is_vararg);
    assert_eq!(b.main_proto.max_stack_size, 2);
    assert!(b.main_proto.code.is_empty());
    assert!(b.main_proto.constants.is_empty());
    assert!(b.main_proto.protos.is_empty());
}

#[test]
fn decoding_twice_gives_equal_trees() {
    let mut k = vec![4u8];
    k.extend(string(b"x"));
    let bytes = chunk(&[raw(1, 0, 0, 0), raw(30, 0, 1, 0)], &k, 1);
    let first = build_reader(&bytes).read().unwrap();
    let second = build_reader(&bytes).read().unwrap();
    assert_eq!(format!("{:?}", first), format!("{:?}", second));
}

#[test]
fn reads_constants_of_each_kind() {
    let mut k = vec![0u8, 1, 1, 1, 0, 3];
    k.extend_from_slice(&1.5f64.to_le_bytes());
    k.push(4);
    k.extend(string(b"hi"));
    k.push(4);
    k.extend(string(b""));
    let bytes = chunk(&[], &k, 6);
    let b = build_reader(&bytes).read().unwrap();
    let cs = &b.main_proto.constants;
    assert_eq!(cs.len(), 6);
    assert!(matches!(cs[0], Constant::Nil));
    assert!(matches!(cs[1], Constant::Boolean(true)));
    assert!(matches!(cs[2], Constant::Boolean(false)));
    match &cs[3] {
        Constant::Number(bits) => assert_eq!(*bits, 1.5f64.to_bits()),
        _ => panic!("expected a number"),
    }
    match &cs[4] {
        Constant::String(s) => assert_eq!(s, &b"hi".to_vec()),
        _ => panic!("expected a string"),
    }
    match &cs[5] {
        Constant::String(s) => assert!(s.is_empty()),
        _ => panic!("expected a string"),
    }
}

#[test]
fn reads_big_endian_chunk() {
    let mut bytes = vec![0x1B, b'L', b'u', b'a', 0x51, 0, 0, 4, 4, 4, 8, 0];
    bytes.extend_from_slice(&0u32.to_be_bytes());
    bytes.extend_from_slice(&7i32.to_be_bytes());
    bytes.extend_from_slice(&9i32.to_be_bytes());
    bytes.extend_from_slice(&[0, 1, 0, 3]);
    bytes.extend_from_slice(&1i32.to_be_bytes());
    bytes.extend_from_slice(&raw(30, 0, 1, 0).to_be_bytes());
    for _ in 0..5 {
        bytes.extend_from_slice(&0i32.to_be_bytes());
    }
    let b = build_reader(&bytes).read().unwrap();
    assert!(!b.endianness);
    assert_eq!(b.main_proto.line_defined, 7);
    assert_eq!(b.main_proto.last_line_defined, 9);
    assert_eq!(b.main_proto.param_count, 1);
    assert!(!b.main_proto.is_vararg);
    assert_eq!(b.main_proto.code.len(), 1);
    assert_eq!(b.main_proto.code[0].op, OpCode::OpReturn(OpMode::ABC(0, 1, 0)));
}

#[test]
fn reads_nested_prototypes_with_ids() {
    let child0 = proto(&[raw(30, 0, 1, 0)], &[], 0, &[]);
    let child1 = proto(&[], &[], 0, &[]);
    let mut bytes = header();
    bytes.extend(proto(&[raw(36, 0, 0, 1)], &[], 0, &[child0, child1]));
    let b = build_reader(&bytes).read().unwrap();
    let ps = &b.main_proto.protos;
    assert_eq!(ps.len(), 2);
    assert_eq!(ps[0].id, 0);
    assert_eq!(ps[1].id, 1);
    assert!(!ps[0].is_main);
    assert!(!ps[1].is_main);
    assert_eq!(ps[0].code.len(), 1);
    assert_eq!(b.main_proto.code[0].op, OpCode::OpClosure(OpMode::ABX(0, 1)));
}

#[test]
fn every_opcode_decodes_its_fields() {
    for n in 0u32..38 {
        let inst = build_instruction(raw(n, 3, 5, 7), 32, i32::MAX);
        let bx: i32 = (5 << 9) | 7;
        let expected_mode = match n {
            1 | 5 | 7 | 35 | 36 => OpMode::ABX(3, bx),
            22 | 31 | 32 => OpMode::ASBX(3, bx - 131071),
            _ => OpMode::ABC(3, 5, 7),
        };
        let mode = match inst.op {
            OpCode::OpMove(m) | OpCode::OpLoadK(m) | OpCode::OpLoadBool(m) | OpCode::OpLoadNil(m)
            | OpCode::OpGetUpval(m) | OpCode::OpGetGlobal(m) | OpCode::OpGetTable(m)
            | OpCode::OpSetGlobal(m) | OpCode::OpSetUpval(m) | OpCode::OpSetTable(m)
            | OpCode::OpNewTable(m) | OpCode::OpSelf(m) | OpCode::OpAdd(m) | OpCode::OpSub(m)
            | OpCode::OpMul(m) | OpCode::OpDiv(m) | OpCode::OpMod(m) | OpCode::OpPow(m)
            | OpCode::OpUnm(m) | OpCode::OpNot(m) | OpCode::OpLen(m) | OpCode::OpConcat(m)
            | OpCode::OpJmp(m) | OpCode::OpEq(m) | OpCode::OpLt(m) | OpCode::OpLe(m)
            | OpCode::OpTest(m) | OpCode::OpTestSet(m) | OpCode::OpCall(m)
            | OpCode::OpTailCall(m) | OpCode::OpReturn(m) | OpCode::OpForLoop(m)
            | OpCode::OpForPrep(m) | OpCode::OpTForLoop(m) | OpCode::OpSetList(m)
            | OpCode::OpClose(m) | OpCode::OpClosure(m) | OpCode::OpVararg(m) => m,
            OpCode::OpUnknown(_) => panic!("opcode {} decoded as unknown", n),
        };
        assert_eq!(mode, expected_mode, "opcode {}", n);
    }
    assert_eq!(build_instruction(raw(0, 3, 5, 7), 32, i32::MAX).op, OpCode::OpMove(OpMode::ABC(3, 5, 7)));
    assert_eq!(build_instruction(raw(37, 1, 2, 0), 32, i32::MAX).op, OpCode::OpVararg(OpMode::ABC(1, 2, 0)));
}

#[test]
fn sbx_at_the_bias_is_zero() {
    let word = 22 | (131071u32 << 14);
    assert_eq!(build_instruction(word, 32, i32::MAX).op, OpCode::OpJmp(OpMode::ASBX(0, 0)));
    let with_a = 22 | (1 << 6) | (131071u32 << 14);
    assert_eq!(build_instruction(with_a, 32, i32::MAX).op, OpCode::OpJmp(OpMode::ASBX(1, 0)));
    let back = 31 | (2 << 6) | (131068u32 << 14);
    assert_eq!(build_instruction(back, 32, i32::MAX).op, OpCode::OpForLoop(OpMode::ASBX(2, -3)));
}

#[test]
fn sbx_bias_falls_back_to_native_max() {
    let word = 22 | (100u32 << 14);
    assert_eq!(build_instruction(word, 16, 32767).op, OpCode::OpJmp(OpMode::ASBX(0, 100 - 32767)));
}

#[test]
fn unknown_opcode_is_kept() {
    assert_eq!(build_instruction(40, 32, i32::MAX).op, OpCode::OpUnknown(40));
    assert_eq!(build_instruction(63, 32, i32::MAX).op, OpCode::OpUnknown(63));
}

#[test]
fn setlist_with_zero_count_takes_next_word() {
    let mut inst = build_instruction(raw(34, 1, 3, 0), 32, i32::MAX);
    assert_eq!(inst.handle_aux(Some(700)), Ok(true));
    assert_eq!(inst.op, OpCode::OpSetList(OpMode::ABC(1, 3, 700)));
}

#[test]
fn setlist_with_count_takes_one_slot() {
    let mut inst = build_instruction(raw(34, 1, 3, 2), 32, i32::MAX);
    assert_eq!(inst.handle_aux(Some(700)), Ok(false));
    assert_eq!(inst.op, OpCode::OpSetList(OpMode::ABC(1, 3, 2)));
    let mut other = Instruction { op: OpCode::OpMove(OpMode::ABC(0, 0, 0)) };
    assert_eq!(other.handle_aux(Some(5)), Ok(false));
}

#[test]
fn setlist_without_aux_word_fails() {
    let mut inst = build_instruction(raw(34, 1, 3, 0), 32, i32::MAX);
    assert_eq!(inst.handle_aux(None), Err(ReadError::MissingAux));
    let bytes = chunk(&[raw(34, 0, 2, 0)], &[], 0);
    assert_eq!(build_reader(&bytes).read().unwrap_err(), ReadError::MissingAux);
}

#[test]
fn setlist_aux_advances_two_slots_in_code() {
    let bytes = chunk(&[raw(34, 0, 3, 0), 9, raw(30, 0, 1, 0)], &[], 0);
    let b = build_reader(&bytes).read().unwrap();
    let code = &b.main_proto.code;
    assert_eq!(code.len(), 2);
    assert_eq!(code[0].op, OpCode::OpSetList(OpMode::ABC(0, 3, 9)));
    assert_eq!(code[1].op, OpCode::OpReturn(OpMode::ABC(0, 1, 0)));
}

#[test]
fn truncated_code_is_out_of_bounds() {
    let bytes = chunk(&[raw(0, 1, 2, 0), raw(30, 0, 1, 0)], &[], 0);
    let code_start = 12 + 8 + 10 + 4 + 8 + 4;
    for cut in code_start - 4..code_start + 8 {
        let short = bytes[..cut].to_vec();
        match build_reader(&short).read() {
            Err(ReadError::OutOfBounds { bytes_size, .. }) => assert_eq!(bytes_size, cut as u64),
            other => panic!("cut at {}: {:?}", cut, other),
        }
    }
}

#[test]
fn out_of_bounds_names_position_and_size() {
    let bytes = vec![0x1B, b'L'];
    assert_eq!(
        build_reader(&bytes).read().unwrap_err(),
        ReadError::OutOfBounds { position: 1, size: 3, bytes_size: 2 }
    );
    assert_eq!(
        build_reader(&vec![]).read().unwrap_err(),
        ReadError::OutOfBounds { position: 0, size: 1, bytes_size: 0 }
    );
}

#[test]
fn constant_tag_two_is_invalid() {
    let bytes = chunk(&[], &[2u8], 1);
    assert_eq!(build_reader(&bytes).read().unwrap_err(), ReadError::InvalidConstantType(2));
}

#[test]
fn bad_signature_is_rejected() {
    let mut bytes = chunk(&[], &[], 0);
    bytes[0] = 0x1C;
    assert_eq!(build_reader(&bytes).read().unwrap_err(), ReadError::BadSignature);
    let mut bytes = chunk(&[], &[], 0);
    bytes[2] = b'U';
    assert_eq!(build_reader(&bytes).read().unwrap_err(), ReadError::BadSignature);
}

#[test]
fn other_versions_are_unsupported() {
    let mut bytes = chunk(&[], &[], 0);
    bytes[4] = 0x52;
    assert_eq!(build_reader(&bytes).read().unwrap_err(), ReadError::UnsupportedVersion(0x52));
}

#[test]
fn unhandled_widths_fail() {
    let mut bytes = chunk(&[], &[], 0);
    bytes[7] = 8;
    assert_eq!(build_reader(&bytes).read().unwrap_err(), ReadError::UnhandledWidth(WidthKind::Int, 8));
    let mut bytes = chunk(&[], &[], 0);
    bytes[8] = 2;
    assert_eq!(build_reader(&bytes).read().unwrap_err(), ReadError::UnhandledWidth(WidthKind::SizeT, 2));
    let mut bytes = chunk(&[raw(30, 0, 1, 0)], &[], 0);
    bytes[9] = 8;
    assert_eq!(
        build_reader(&bytes).read().unwrap_err(),
        ReadError::UnhandledWidth(WidthKind::Instruction, 8)
    );
    let mut k = vec![3u8];
    k.extend_from_slice(&2.0f64.to_le_bytes());
    let mut bytes = chunk(&[], &k, 1);
    bytes[10] = 4;
    assert_eq!(build_reader(&bytes).read().unwrap_err(), ReadError::UnhandledWidth(WidthKind::Number, 4));
}

#[test]
fn reads_four_byte_size_t() {
    let mut bytes = vec![0x1B, b'L', b'u', b'a', 0x51, 0, 1, 4, 4, 4, 8, 0];
    bytes.extend_from_slice(&3u32.to_le_bytes());
    bytes.extend_from_slice(b"ab\0");
    bytes.extend(le_int(0));
    bytes.extend(le_int(0));
    bytes.extend_from_slice(&[0, 0, 0, 2]);
    for _ in 0..6 {
        bytes.extend(le_int(0));
    }
    let b = build_reader(&bytes).read().unwrap();
    assert_eq!(b.main_proto.source, b"ab".to_vec());
}

#[test]
fn string_without_nul_fails() {
    let mut bytes = header();
    bytes.extend_from_slice(&2u64.to_le_bytes());
    bytes.extend_from_slice(b"ab");
    assert_eq!(build_reader(&bytes).read().unwrap_err(), ReadError::MissingTerminator);
}

#[test]
fn debug_info_is_skipped() {
    let mut bytes = header();
    let mut p = string(b"");
    p.extend(le_int(0));
    p.extend(le_int(0));
    p.extend_from_slice(&[0, 0, 0, 2]);
    p.extend(le_int(1));
    p.extend_from_slice(&raw(30, 0, 1, 0).to_le_bytes());
    p.extend(le_int(0));
    p.extend(le_int(0));
    p.extend(le_int(1));
    p.extend(le_int(5));
    p.extend(le_int(1));
    p.extend(string(b"x"));
    p.extend(le_int(0));
    p.extend(le_int(1));
    p.extend(le_int(1));
    p.extend(string(b"up"));
    bytes.extend(p);
    let b = build_reader(&bytes).read().unwrap();
    assert_eq!(b.main_proto.code.len(), 1);
    let mut short = bytes.clone();
    short.pop();
    assert!(matches!(build_reader(&short).read(), Err(ReadError::OutOfBounds { .. })));
}
