use inu::bytecode::{Bytecode, Constant, Instruction, LuaVersion, OpCode, OpMode, Proto};
use inu::listing::format_time_taken;
use inu::render::number_constants;
use inu::read::build_reader;
use inu::text::int_string;

fn proto(code: Vec<OpCode>, constants: Vec<Constant>, protos: Vec<Proto>) -> Proto {
    Proto {
        is_main: true,
        id: 0,
        source: vec![],
        line_defined: 0,
        last_line_defined: 0,
        upvalue_count: 0,
        param_count: 0,
        is_vararg: true,
        max_stack_size: 2,
        code: code.into_iter().map(|op| Instruction { op }).collect(),
        constants,
        protos,
    }
}

fn child(id: i32, params: u8, vararg: bool, upvalues: u8, code: Vec<OpCode>) -> Proto {
    let mut p = proto(code, vec![], vec![]);
    p.is_main = false;
    p.id = id;
    p.param_count = params;
    p.is_vararg = vararg;
    p.upvalue_count = upvalues;
    p
}

fn describe(op: OpCode, p: &Proto, pc: usize) -> String {
    op.describe(p, &vec![], pc)
}

fn abc(a: i32, b: i32, c: i32) -> OpMode {
    OpMode::ABC(a, b, c)
}

fn bytecode(main: Proto) -> Bytecode {
    Bytecode {
        version: LuaVersion::Lua51,
        format: 0,
        endianness: true,
        size_int: 4,
        size_sizet: 8,
        size_instruction: 4,
        size_luanumber: 8,
        luanumber_integral: false,
        main_proto: main,
        time_taken_nanos: 1500,
    }
}

#[test]
fn string_constant_escapes() {
    let c = Constant::String(vec![b'\n', b'"', 0xFF]);
    assert_eq!(c.format(&vec![]), "\"\\n\\\"\\xff\"");
    let all = Constant::String(vec![7, 8, 12, 13, 9, 11, b'\\', b'\'', 0, b'a', 0x80]);
    assert_eq!(all.format(&vec![]), "\"\\a\\b\\f\\r\\t\\v\\\\\\'\\0a\\x80\"");
    assert_eq!(Constant::String(vec![]).format(&vec![]), "\"\"");
}

#[test]
fn simple_constants_format() {
    assert_eq!(Constant::Nil.format(&vec![]), "nil");
    assert_eq!(Constant::Boolean(true).format(&vec![]), "true");
    assert_eq!(Constant::Boolean(false).format(&vec![]), "false");
    let bits = 1.5f64.to_bits();
    let table = vec![(2.0f64.to_bits(), "2".to_string()), (bits, "1.5".to_string())];
    assert_eq!(Constant::Number(bits).format(&table), "1.5");
    assert_eq!(Constant::Number(3.0f64.to_bits()).format(&table), "[NUMBER]");
}

#[test]
fn rk_operands_resolve() {
    let p = proto(vec![], vec![Constant::Nil, Constant::String(b"k".to_vec())], vec![]);
    assert_eq!(describe(OpCode::OpAdd(abc(0, 5, 257)), &p, 0), "r_0 = r_5 + \"k\"");
    assert_eq!(describe(OpCode::OpSub(abc(2, 256, 3)), &p, 0), "r_2 = nil - r_3");
    assert_eq!(describe(OpCode::OpMul(abc(1, 300, 3)), &p, 0), "r_1 = [INVALID CONSTANT] * r_3");
}

#[test]
fn registers_of_parameters_are_named_args() {
    let mut p = proto(vec![], vec![], vec![]);
    p.param_count = 2;
    assert_eq!(describe(OpCode::OpMove(abc(2, 1, 0)), &p, 0), "r_2 = arg_1");
    assert_eq!(describe(OpCode::OpUnm(abc(0, 3, 0)), &p, 0), "arg_0 = -r_3");
}

#[test]
fn describes_loads_and_tables() {
    let p = proto(vec![], vec![Constant::String(b"print".to_vec()), Constant::Boolean(true)], vec![]);
    assert_eq!(describe(OpCode::OpLoadK(OpMode::ABX(1, 1)), &p, 0), "r_1 = true");
    assert_eq!(describe(OpCode::OpLoadBool(abc(0, 1, 1)), &p, 4), "r_0 = true; goto 6");
    assert_eq!(describe(OpCode::OpLoadBool(abc(0, 0, 0)), &p, 4), "r_0 = false");
    assert_eq!(describe(OpCode::OpLoadNil(abc(0, 2, 0)), &p, 0), "r_0 ... r_2 = nil");
    assert_eq!(describe(OpCode::OpLoadNil(abc(1, 1, 0)), &p, 0), "r_1 = nil");
    assert_eq!(describe(OpCode::OpGetUpval(abc(0, 3, 0)), &p, 0), "r_0 = upvalue_3");
    assert_eq!(describe(OpCode::OpSetUpval(abc(0, 3, 0)), &p, 0), "upvalue_3 = r_0");
    assert_eq!(describe(OpCode::OpGetGlobal(OpMode::ABX(0, 0)), &p, 0), "r_0 = print");
    assert_eq!(describe(OpCode::OpSetGlobal(OpMode::ABX(2, 0)), &p, 0), "print = r_2");
    assert_eq!(describe(OpCode::OpGetGlobal(OpMode::ABX(0, 1)), &p, 0), "r_0 = [INVALID STRING]");
    assert_eq!(describe(OpCode::OpGetTable(abc(0, 1, 256)), &p, 0), "r_0 = r_1[\"print\"]");
    assert_eq!(describe(OpCode::OpSetTable(abc(0, 257, 2)), &p, 0), "r_0[true] = r_2");
    assert_eq!(describe(OpCode::OpNewTable(abc(0, 3, 1)), &p, 0), "r_0 = {} -- 3 list, 1 record");
    assert_eq!(describe(OpCode::OpSelf(abc(0, 1, 256)), &p, 0), "r_1 = r_1; r_0 = r_1[\"print\"]");
}

#[test]
fn describes_arithmetic() {
    let p = proto(vec![], vec![], vec![]);
    assert_eq!(describe(OpCode::OpDiv(abc(0, 1, 2)), &p, 0), "r_0 = r_1 / r_2");
    assert_eq!(describe(OpCode::OpMod(abc(0, 1, 2)), &p, 0), "r_0 = r_1 % r_2");
    assert_eq!(describe(OpCode::OpPow(abc(0, 1, 2)), &p, 0), "r_0 = r_1 ^ r_2");
    assert_eq!(describe(OpCode::OpNot(abc(0, 1, 0)), &p, 0), "r_0 = not r_1");
    assert_eq!(describe(OpCode::OpLen(abc(0, 1, 0)), &p, 0), "r_0 = #r_1");
    assert_eq!(describe(OpCode::OpConcat(abc(0, 1, 3)), &p, 0), "r_0 = r_1 .. ... .. r_3");
}

#[test]
fn describes_control_flow() {
    let p = proto(vec![], vec![], vec![]);
    assert_eq!(describe(OpCode::OpJmp(OpMode::ASBX(0, 3)), &p, 5), "goto 9");
    assert_eq!(describe(OpCode::OpJmp(OpMode::ASBX(0, -4)), &p, 5), "goto 2");
    assert_eq!(describe(OpCode::OpEq(abc(0, 1, 2)), &p, 3), "if r_1 == r_2 then goto 5");
    assert_eq!(describe(OpCode::OpEq(abc(1, 1, 2)), &p, 3), "if r_1 ~= r_2 then goto 5");
    assert_eq!(describe(OpCode::OpLt(abc(1, 1, 2)), &p, 0), "if r_1 >= r_2 then goto 2");
    assert_eq!(describe(OpCode::OpLe(abc(0, 1, 2)), &p, 0), "if r_1 <= r_2 then goto 2");
    assert_eq!(describe(OpCode::OpLe(abc(1, 1, 2)), &p, 0), "if r_1 > r_2 then goto 2");
    assert_eq!(describe(OpCode::OpTest(abc(3, 0, 0)), &p, 1), "if r_3 then goto 3");
    assert_eq!(describe(OpCode::OpTest(abc(3, 0, 1)), &p, 1), "if not r_3 then goto 3");
    assert_eq!(
        describe(OpCode::OpTestSet(abc(0, 2, 1)), &p, 1),
        "if not r_2 then goto 3 else r_0 = r_2"
    );
    assert_eq!(
        describe(OpCode::OpForLoop(OpMode::ASBX(0, -3)), &p, 7),
        "r_0 += r_2; if r_0 <?= r_1 then { goto 6; r_3 = r_0 }"
    );
    assert_eq!(describe(OpCode::OpForPrep(OpMode::ASBX(0, 2)), &p, 1), "r_0 -= r_2; goto 5");
    assert_eq!(
        describe(OpCode::OpTForLoop(abc(0, 0, 2)), &p, 4),
        "r_3 ... r_4 = r_0(r_1, r_2); if r_3 ~= nil {r_2 = r_3} else goto 6"
    );
}

#[test]
fn describes_calls_and_returns() {
    let p = proto(vec![], vec![], vec![]);
    assert_eq!(describe(OpCode::OpCall(abc(0, 1, 1)), &p, 0), "r_0()");
    assert_eq!(describe(OpCode::OpCall(abc(0, 2, 2)), &p, 0), "r_0 = r_0(r_1)");
    assert_eq!(describe(OpCode::OpCall(abc(0, 3, 3)), &p, 0), "r_0 ... r_1 = r_0(r_1 ... r_2)");
    assert_eq!(describe(OpCode::OpCall(abc(0, 0, 0)), &p, 0), "top ... ??? = r_0(top ... ???)");
    assert_eq!(describe(OpCode::OpTailCall(abc(1, 2, 0)), &p, 0), "return r_1(r_2)");
    assert_eq!(describe(OpCode::OpReturn(abc(0, 1, 0)), &p, 0), "return");
    assert_eq!(describe(OpCode::OpReturn(abc(0, 0, 0)), &p, 0), "return top ... ???");
    assert_eq!(describe(OpCode::OpReturn(abc(1, 3, 0)), &p, 0), "return r_1 ... r_2");
    assert_eq!(describe(OpCode::OpVararg(abc(1, 0, 0)), &p, 0), "r_1, top ... ??? = vararg");
    assert_eq!(describe(OpCode::OpVararg(abc(1, 1, 0)), &p, 0), "r_1 = vararg");
    assert_eq!(describe(OpCode::OpVararg(abc(1, 3, 0)), &p, 0), "r_1 ... r_2 = vararg");
}

#[test]
fn describes_lists_and_closures() {
    let p = proto(
        vec![],
        vec![],
        vec![child(0, 0, false, 0, vec![]), child(1, 0, false, 1, vec![]), child(2, 0, false, 3, vec![])],
    );
    assert_eq!(describe(OpCode::OpSetList(abc(0, 3, 1)), &p, 0), "r_0[1 ... 3] = r_1 ... r_3");
    assert_eq!(describe(OpCode::OpSetList(abc(0, 2, 3)), &p, 0), "r_0[101 ... 102] = r_1 ... r_2");
    assert_eq!(describe(OpCode::OpClose(OpMode::ABX(4, 0)), &p, 0), "close all variables in the stack up to r_4");
    assert_eq!(describe(OpCode::OpClosure(OpMode::ABX(0, 0)), &p, 0), "r_0 = proto_0");
    assert_eq!(
        describe(OpCode::OpClosure(OpMode::ABX(0, 1)), &p, 0),
        "r_0 = proto_1 -- the 1 proceeding getupval or move instruction is an upvalue"
    );
    assert_eq!(
        describe(OpCode::OpClosure(OpMode::ABX(0, 2)), &p, 0),
        "r_0 = proto_2 -- the 3 proceeding getupval or move instructions are upvalues"
    );
    assert_eq!(describe(OpCode::OpClosure(OpMode::ABX(0, 5)), &p, 0), "r_0 = proto_5 -- [INVALID PROTO]");
}

#[test]
fn unknown_opcode_gets_placeholder() {
    let p = proto(vec![], vec![], vec![]);
    assert_eq!(describe(OpCode::OpUnknown(45), &p, 0), "TODO: DESCRIBE OpUnknown(45)");
    assert_eq!(describe(OpCode::OpMove(OpMode::ABX(1, 2)), &p, 0), "TODO: DESCRIBE OpMove(ABX(1, 2))");
}

#[test]
fn structural_tags() {
    assert_eq!(OpCode::OpMove(abc(0, 1, 0)).tag(), "OpMove(ABC(0, 1, 0))");
    assert_eq!(OpCode::OpJmp(OpMode::ASBX(0, -2)).tag(), "OpJmp(ASBX(0, -2))");
    assert_eq!(OpCode::OpLoadK(OpMode::ABX(3, 10)).tag(), "OpLoadK(ABX(3, 10))");
    assert_eq!(OpCode::OpUnknown(50).tag(), "OpUnknown(50)");
}

#[test]
fn empty_chunk_listing() {
    let mut bytes = vec![0x1B, b'L', b'u', b'a', 0x51, 0, 1, 4, 8, 4, 8, 0];
    bytes.extend_from_slice(&0u64.to_le_bytes());
    bytes.extend_from_slice(&[0; 8]);
    bytes.extend_from_slice(&[0, 0, 2, 2]);
    bytes.extend_from_slice(&[0; 24]);
    let b = build_reader(&bytes).read().unwrap();
    let lines = b.print_disassembly(false, &vec![]);
    assert_eq!(lines.len(), 4);
    assert!(lines[0].starts_with("-- disassembled by inu in "));
    assert_eq!(lines[1], "");
    assert_eq!(lines[2], "--[[ constants:");
    assert_eq!(lines[3], "]]");
}

#[test]
fn single_return_listing() {
    let mut bytes = vec![0x1B, b'L', b'u', b'a', 0x51, 0, 1, 4, 8, 4, 8, 0];
    bytes.extend_from_slice(&0u64.to_le_bytes());
    bytes.extend_from_slice(&[0; 8]);
    bytes.extend_from_slice(&[0, 0, 2, 2]);
    bytes.extend_from_slice(&1i32.to_le_bytes());
    bytes.extend_from_slice(&(30u32 | (1 << 23)).to_le_bytes());
    bytes.extend_from_slice(&[0; 20]);
    let b = build_reader(&bytes).read().unwrap();
    let described = b.print_disassembly(true, &vec![]);
    assert_eq!(described[4], "return");
    assert_eq!(described.len(), 5);
    let full = b.print_disassembly(false, &vec![]);
    assert_eq!(full[4], "0  OpReturn(ABC(0, 1, 0))  --  return");
}

#[test]
fn listing_aligns_columns() {
    let mut main = proto(
        vec![OpCode::OpLoadK(OpMode::ABX(0, 0)), OpCode::OpReturn(abc(0, 1, 0))],
        vec![Constant::Number(2.0f64.to_bits()), Constant::Nil],
        vec![],
    );
    main.code.extend((0..9).map(|_| Instruction { op: OpCode::OpMove(abc(0, 0, 0)) }));
    let b = bytecode(main);
    let numbers = vec![(2.0f64.to_bits(), "2".to_string())];
    let lines = b.print_disassembly(false, &numbers);
    assert_eq!(lines[0], "-- disassembled by inu in 1 microseconds");
    assert_eq!(lines[2], "--[[ constants:");
    assert_eq!(lines[3], "    0 - 2");
    assert_eq!(lines[4], "    1 - nil");
    assert_eq!(lines[5], "]]");
    assert_eq!(lines[6], "0   OpLoadK(ABX(0, 0))      --  r_0 = 2");
    assert_eq!(lines[7], "1   OpReturn(ABC(0, 1, 0))  --  return");
    assert_eq!(lines[16], "10  OpMove(ABC(0, 0, 0))    --  r_0 = r_0");
}

#[test]
fn nested_protos_print_at_first_closure() {
    let inner = child(0, 2, true, 0, vec![OpCode::OpReturn(abc(0, 1, 0))]);
    let unused = child(1, 0, false, 0, vec![]);
    let main = proto(
        vec![
            OpCode::OpMove(abc(0, 0, 0)),
            OpCode::OpClosure(OpMode::ABX(0, 0)),
            OpCode::OpClosure(OpMode::ABX(1, 0)),
        ],
        vec![],
        vec![inner, unused],
    );
    let b = bytecode(main);
    let lines = b.print_disassembly(true, &vec![]);
    let expected = vec![
        "-- disassembled by inu in 1 microseconds",
        "",
        "--[[ constants:",
        "]]",
        "r_0 = r_0",
        "local function proto_0(arg_0, arg_1, ...)",
        "    --[[ constants:",
        "    ]]",
        "    return",
        "end",
        "r_0 = proto_0",
        "r_1 = proto_0",
        "local function proto_1()",
        "    --[[ constants:",
        "    ]]",
        "end",
    ];
    assert_eq!(lines, expected);
}

#[test]
fn vararg_only_parameters() {
    let main = proto(vec![], vec![], vec![child(0, 0, true, 0, vec![])]);
    let lines = bytecode(main).print_disassembly(true, &vec![]);
    assert_eq!(lines[4], "local function proto_0(...)");
}

#[test]
fn time_taken_units() {
    assert_eq!(format_time_taken(999), "0 microseconds");
    assert_eq!(format_time_taken(2_500), "2 microseconds");
    assert_eq!(format_time_taken(3_000_000), "3 milliseconds");
    assert_eq!(format_time_taken(4_200_000_000), "4 seconds");
}

#[test]
fn decimal_text() {
    assert_eq!(int_string(0), "0");
    assert_eq!(int_string(1234), "1234");
    assert_eq!(int_string(-56), "-56");
    assert_eq!(int_string(i128::MIN), i128::MIN.to_string());
}

#[test]
fn number_constants_of_the_tree() {
    let mut inner = child(0, 0, false, 0, vec![]);
    inner.constants = vec![Constant::Number(3.0f64.to_bits()), Constant::Nil];
    let main = proto(
        vec![],
        vec![Constant::Number(1.0f64.to_bits()), Constant::Boolean(true), Constant::Number(2.0f64.to_bits())],
        vec![inner],
    );
    assert_eq!(
        number_constants(&main),
        vec![1.0f64.to_bits(), 2.0f64.to_bits(), 3.0f64.to_bits()]
    );
}

#[test]
fn rk_constant_operand_is_a_literal() {
    let p = proto(vec![], vec![Constant::Number(2.0f64.to_bits())], vec![]);
    let numbers = vec![(2.0f64.to_bits(), "2".to_string())];
    assert_eq!(OpCode::OpAdd(abc(0, 256, 1)).describe(&p, &numbers, 0), "r_0 = 2 + r_1");
}
