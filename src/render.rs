//! Rendering: constants as literals, instructions as a structural tag and as
//! a one-line pseudo-code description.
use vstd::prelude::*;
use vstd::utf8::{decode_utf8, valid_utf8};

use crate::bytecode::{
    is_rk_constant, lemma_proto_views, rk_index, Constant, ConstantModel, LuaInt, OpCode,
    OpMode, Proto, ProtoModel, BITRK,
};
use crate::text::{int_text, push_char, push_int, push_str};

verus! {

/// A lowercase hexadecimal digit.
pub open spec fn hex_char(d: int) -> char {
    if d < 10 {
        (48 + d) as char
    } else {
        (87 + d) as char
    }
}

/// How one byte of a string constant is written: the single-letter escapes
/// of Lua, the byte itself when it is ASCII, else a two-digit hex escape.
pub open spec fn escape_byte(b: u8) -> Seq<char> {
    if b == 7 {
        seq!['\\', 'a']
    } else if b == 8 {
        seq!['\\', 'b']
    } else if b == 12 {
        seq!['\\', 'f']
    } else if b == 10 {
        seq!['\\', 'n']
    } else if b == 13 {
        seq!['\\', 'r']
    } else if b == 9 {
        seq!['\\', 't']
    } else if b == 11 {
        seq!['\\', 'v']
    } else if b == 92 {
        seq!['\\', '\\']
    } else if b == 39 {
        seq!['\\', '\'']
    } else if b == 34 {
        seq!['\\', '"']
    } else if b == 0 {
        seq!['\\', '0']
    } else if b < 128 {
        seq![b as char]
    } else {
        seq!['\\', 'x', hex_char((b / 16) as int), hex_char((b % 16) as int)]
    }
}

/// The escaped text of a byte string, byte by byte.
pub open spec fn escaped(bytes: Seq<u8>) -> Seq<char>
    decreases bytes.len(),
{
    if bytes.len() == 0 {
        Seq::empty()
    } else {
        escaped(bytes.drop_last()) + escape_byte(bytes.last())
    }
}

/// The decimal texts of number constants, keyed by their bit patterns.
pub open spec fn number_table(v: Seq<(u64, String)>) -> Seq<(u64, Seq<char>)> {
    v.map_values(|e: (u64, String)| (e.0, e.1@))
}

/// The text given for `bits` by the first entry that has it.
pub open spec fn number_text(numbers: Seq<(u64, Seq<char>)>, bits: u64) -> Seq<char>
    decreases numbers.len(),
{
    if numbers.len() == 0 {
        "[NUMBER]"@
    } else if numbers[0].0 == bits {
        numbers[0].1
    } else {
        number_text(numbers.drop_first(), bits)
    }
}

/// A constant written as a literal.
pub open spec fn constant_text(c: ConstantModel, numbers: Seq<(u64, Seq<char>)>) -> Seq<char> {
    match c {
        ConstantModel::Nil => "nil"@,
        ConstantModel::Boolean(b) => if b {
            "true"@
        } else {
            "false"@
        },
        ConstantModel::Number(bits) => number_text(numbers, bits),
        ConstantModel::String(bytes) => seq!['"'] + escaped(bytes) + seq!['"'],
    }
}

fn push_escaped_byte(s: &mut String, b: u8)
    ensures
        final(s)@ == old(s)@ + escape_byte(b),
{
    let ghost s0 = s@;
    if b == 7 {
        push_char(s, '\\');
        push_char(s, 'a');
    } else if b == 8 {
        push_char(s, '\\');
        push_char(s, 'b');
    } else if b == 12 {
        push_char(s, '\\');
        push_char(s, 'f');
    } else if b == 10 {
        push_char(s, '\\');
        push_char(s, 'n');
    } else if b == 13 {
        push_char(s, '\\');
        push_char(s, 'r');
    } else if b == 9 {
        push_char(s, '\\');
        push_char(s, 't');
    } else if b == 11 {
        push_char(s, '\\');
        push_char(s, 'v');
    } else if b == 92 {
        push_char(s, '\\');
        push_char(s, '\\');
    } else if b == 39 {
        push_char(s, '\\');
        push_char(s, '\'');
    } else if b == 34 {
        push_char(s, '\\');
        push_char(s, '"');
    } else if b == 0 {
        push_char(s, '\\');
        push_char(s, '0');
    } else if b < 128 {
        push_char(s, b as char);
    } else {
        push_char(s, '\\');
        push_char(s, 'x');
        push_char(s, hex_digit(b / 16));
        push_char(s, hex_digit(b % 16));
    }
    assert(s@ =~= s0 + escape_byte(b));
}

fn hex_digit(d: u8) -> (c: char)
    requires
        d < 16,
    ensures
        c == hex_char(d as int),
{
    if d < 10 {
        (48 + d) as char
    } else {
        (87 + d) as char
    }
}

fn push_number(s: &mut String, numbers: &Vec<(u64, String)>, bits: u64)
    ensures
        final(s)@ == old(s)@ + number_text(number_table(numbers@), bits),
{
    let ghost table = number_table(numbers@);
    assert(table.subrange(0, table.len() as int) =~= table);
    let mut i: usize = 0;
    while i < numbers.len()
        invariant
            i <= numbers.len(),
            s@ == old(s)@,
            table == number_table(numbers@),
            table.len() == numbers.len(),
            number_text(table, bits) == number_text(table.subrange(i as int, table.len() as int), bits),
        decreases numbers.len() - i,
    {
        assert(table.subrange(i as int, table.len() as int).drop_first() =~= table.subrange(
            i + 1,
            table.len() as int,
        ));
        if numbers[i].0 == bits {
            push_str(s, numbers[i].1.as_str());
            return;
        }
        i = i + 1;
    }
    assert(table.subrange(i as int, table.len() as int) =~= Seq::<(u64, Seq<char>)>::empty());
    push_str(s, "[NUMBER]");
}

impl Constant {
    /// The constant written as a literal; a number takes its text from
    /// `numbers`, the first entry with its bit pattern.
    pub fn format(&self, numbers: &Vec<(u64, String)>) -> (r: String)
        ensures
            r@ == constant_text(self@, number_table(numbers@)),
    {
        let mut s = String::new();
        push_constant(&mut s, self, numbers);
        assert(s@ =~= constant_text(self@, number_table(numbers@)));
        s
    }
}

fn push_constant(s: &mut String, c: &Constant, numbers: &Vec<(u64, String)>)
    ensures
        final(s)@ == old(s)@ + constant_text(c@, number_table(numbers@)),
{
    match c {
        Constant::Nil => push_str(s, "nil"),
        Constant::Boolean(b) => if *b {
            push_str(s, "true")
        } else {
            push_str(s, "false")
        },
        Constant::Number(bits) => push_number(s, numbers, *bits),
        Constant::String(bytes) => {
            let ghost s0 = s@;
            push_char(s, '"');
            let mut i: usize = 0;
            while i < bytes.len()
                invariant
                    i <= bytes.len(),
                    s@ == s0 + seq!['"'] + escaped(bytes@.subrange(0, i as int)),
                decreases bytes.len() - i,
            {
                assert(bytes@.subrange(0, i + 1).drop_last() =~= bytes@.subrange(0, i as int));
                push_escaped_byte(s, bytes[i]);
                i = i + 1;
                assert(s@ =~= s0 + seq!['"'] + escaped(bytes@.subrange(0, i as int)));
            }
            assert(bytes@.subrange(0, bytes.len() as int) =~= bytes@);
            push_char(s, '"');
            assert(s@ =~= s0 + (seq!['"'] + escaped(bytes@) + seq!['"']));
        },
    }
}

/// The name of an opcode's variant.
pub open spec fn op_name(op: OpCode) -> Seq<char> {
    match op {
        OpCode::OpMove(_) => "OpMove"@,
        OpCode::OpLoadK(_) => "OpLoadK"@,
        OpCode::OpLoadBool(_) => "OpLoadBool"@,
        OpCode::OpLoadNil(_) => "OpLoadNil"@,
        OpCode::OpGetUpval(_) => "OpGetUpval"@,
        OpCode::OpGetGlobal(_) => "OpGetGlobal"@,
        OpCode::OpGetTable(_) => "OpGetTable"@,
        OpCode::OpSetGlobal(_) => "OpSetGlobal"@,
        OpCode::OpSetUpval(_) => "OpSetUpval"@,
        OpCode::OpSetTable(_) => "OpSetTable"@,
        OpCode::OpNewTable(_) => "OpNewTable"@,
        OpCode::OpSelf(_) => "OpSelf"@,
        OpCode::OpAdd(_) => "OpAdd"@,
        OpCode::OpSub(_) => "OpSub"@,
        OpCode::OpMul(_) => "OpMul"@,
        OpCode::OpDiv(_) => "OpDiv"@,
        OpCode::OpMod(_) => "OpMod"@,
        OpCode::OpPow(_) => "OpPow"@,
        OpCode::OpUnm(_) => "OpUnm"@,
        OpCode::OpNot(_) => "OpNot"@,
        OpCode::OpLen(_) => "OpLen"@,
        OpCode::OpConcat(_) => "OpConcat"@,
        OpCode::OpJmp(_) => "OpJmp"@,
        OpCode::OpEq(_) => "OpEq"@,
        OpCode::OpLt(_) => "OpLt"@,
        OpCode::OpLe(_) => "OpLe"@,
        OpCode::OpTest(_) => "OpTest"@,
        OpCode::OpTestSet(_) => "OpTestSet"@,
        OpCode::OpCall(_) => "OpCall"@,
        OpCode::OpTailCall(_) => "OpTailCall"@,
        OpCode::OpReturn(_) => "OpReturn"@,
        OpCode::OpForLoop(_) => "OpForLoop"@,
        OpCode::OpForPrep(_) => "OpForPrep"@,
        OpCode::OpTForLoop(_) => "OpTForLoop"@,
        OpCode::OpSetList(_) => "OpSetList"@,
        OpCode::OpClose(_) => "OpClose"@,
        OpCode::OpClosure(_) => "OpClosure"@,
        OpCode::OpVararg(_) => "OpVararg"@,
        OpCode::OpUnknown(_) => "OpUnknown"@,
    }
}

fn name_of(op: &OpCode) -> (r: &'static str)
    ensures
        r@ == op_name(*op),
{
    match op {
        OpCode::OpMove(_) => "OpMove",
        OpCode::OpLoadK(_) => "OpLoadK",
        OpCode::OpLoadBool(_) => "OpLoadBool",
        OpCode::OpLoadNil(_) => "OpLoadNil",
        OpCode::OpGetUpval(_) => "OpGetUpval",
        OpCode::OpGetGlobal(_) => "OpGetGlobal",
        OpCode::OpGetTable(_) => "OpGetTable",
        OpCode::OpSetGlobal(_) => "OpSetGlobal",
        OpCode::OpSetUpval(_) => "OpSetUpval",
        OpCode::OpSetTable(_) => "OpSetTable",
        OpCode::OpNewTable(_) => "OpNewTable",
        OpCode::OpSelf(_) => "OpSelf",
        OpCode::OpAdd(_) => "OpAdd",
        OpCode::OpSub(_) => "OpSub",
        OpCode::OpMul(_) => "OpMul",
        OpCode::OpDiv(_) => "OpDiv",
        OpCode::OpMod(_) => "OpMod",
        OpCode::OpPow(_) => "OpPow",
        OpCode::OpUnm(_) => "OpUnm",
        OpCode::OpNot(_) => "OpNot",
        OpCode::OpLen(_) => "OpLen",
        OpCode::OpConcat(_) => "OpConcat",
        OpCode::OpJmp(_) => "OpJmp",
        OpCode::OpEq(_) => "OpEq",
        OpCode::OpLt(_) => "OpLt",
        OpCode::OpLe(_) => "OpLe",
        OpCode::OpTest(_) => "OpTest",
        OpCode::OpTestSet(_) => "OpTestSet",
        OpCode::OpCall(_) => "OpCall",
        OpCode::OpTailCall(_) => "OpTailCall",
        OpCode::OpReturn(_) => "OpReturn",
        OpCode::OpForLoop(_) => "OpForLoop",
        OpCode::OpForPrep(_) => "OpForPrep",
        OpCode::OpTForLoop(_) => "OpTForLoop",
        OpCode::OpSetList(_) => "OpSetList",
        OpCode::OpClose(_) => "OpClose",
        OpCode::OpClosure(_) => "OpClosure",
        OpCode::OpVararg(_) => "OpVararg",
        OpCode::OpUnknown(_) => "OpUnknown",
    }
}

/// The operand mode an opcode carries; none for an unknown opcode.
pub open spec fn op_mode(op: OpCode) -> Option<OpMode> {
    match op {
        OpCode::OpMove(m) => Some(m),
        OpCode::OpLoadK(m) => Some(m),
        OpCode::OpLoadBool(m) => Some(m),
        OpCode::OpLoadNil(m) => Some(m),
        OpCode::OpGetUpval(m) => Some(m),
        OpCode::OpGetGlobal(m) => Some(m),
        OpCode::OpGetTable(m) => Some(m),
        OpCode::OpSetGlobal(m) => Some(m),
        OpCode::OpSetUpval(m) => Some(m),
        OpCode::OpSetTable(m) => Some(m),
        OpCode::OpNewTable(m) => Some(m),
        OpCode::OpSelf(m) => Some(m),
        OpCode::OpAdd(m) => Some(m),
        OpCode::OpSub(m) => Some(m),
        OpCode::OpMul(m) => Some(m),
        OpCode::OpDiv(m) => Some(m),
        OpCode::OpMod(m) => Some(m),
        OpCode::OpPow(m) => Some(m),
        OpCode::OpUnm(m) => Some(m),
        OpCode::OpNot(m) => Some(m),
        OpCode::OpLen(m) => Some(m),
        OpCode::OpConcat(m) => Some(m),
        OpCode::OpJmp(m) => Some(m),
        OpCode::OpEq(m) => Some(m),
        OpCode::OpLt(m) => Some(m),
        OpCode::OpLe(m) => Some(m),
        OpCode::OpTest(m) => Some(m),
        OpCode::OpTestSet(m) => Some(m),
        OpCode::OpCall(m) => Some(m),
        OpCode::OpTailCall(m) => Some(m),
        OpCode::OpReturn(m) => Some(m),
        OpCode::OpForLoop(m) => Some(m),
        OpCode::OpForPrep(m) => Some(m),
        OpCode::OpTForLoop(m) => Some(m),
        OpCode::OpSetList(m) => Some(m),
        OpCode::OpClose(m) => Some(m),
        OpCode::OpClosure(m) => Some(m),
        OpCode::OpVararg(m) => Some(m),
        OpCode::OpUnknown(_) => None,
    }
}

fn mode_of(op: &OpCode) -> (r: Option<OpMode>)
    ensures
        r == op_mode(*op),
{
    match op {
        OpCode::OpMove(m) => Some(*m),
        OpCode::OpLoadK(m) => Some(*m),
        OpCode::OpLoadBool(m) => Some(*m),
        OpCode::OpLoadNil(m) => Some(*m),
        OpCode::OpGetUpval(m) => Some(*m),
        OpCode::OpGetGlobal(m) => Some(*m),
        OpCode::OpGetTable(m) => Some(*m),
        OpCode::OpSetGlobal(m) => Some(*m),
        OpCode::OpSetUpval(m) => Some(*m),
        OpCode::OpSetTable(m) => Some(*m),
        OpCode::OpNewTable(m) => Some(*m),
        OpCode::OpSelf(m) => Some(*m),
        OpCode::OpAdd(m) => Some(*m),
        OpCode::OpSub(m) => Some(*m),
        OpCode::OpMul(m) => Some(*m),
        OpCode::OpDiv(m) => Some(*m),
        OpCode::OpMod(m) => Some(*m),
        OpCode::OpPow(m) => Some(*m),
        OpCode::OpUnm(m) => Some(*m),
        OpCode::OpNot(m) => Some(*m),
        OpCode::OpLen(m) => Some(*m),
        OpCode::OpConcat(m) => Some(*m),
        OpCode::OpJmp(m) => Some(*m),
        OpCode::OpEq(m) => Some(*m),
        OpCode::OpLt(m) => Some(*m),
        OpCode::OpLe(m) => Some(*m),
        OpCode::OpTest(m) => Some(*m),
        OpCode::OpTestSet(m) => Some(*m),
        OpCode::OpCall(m) => Some(*m),
        OpCode::OpTailCall(m) => Some(*m),
        OpCode::OpReturn(m) => Some(*m),
        OpCode::OpForLoop(m) => Some(*m),
        OpCode::OpForPrep(m) => Some(*m),
        OpCode::OpTForLoop(m) => Some(*m),
        OpCode::OpSetList(m) => Some(*m),
        OpCode::OpClose(m) => Some(*m),
        OpCode::OpClosure(m) => Some(*m),
        OpCode::OpVararg(m) => Some(*m),
        OpCode::OpUnknown(_) => None,
    }
}

/// An operand mode written as in the structural tag: `ABC(a, b, c)`.
pub open spec fn mode_text(m: OpMode) -> Seq<char> {
    match m {
        OpMode::ABC(a, b, c) => "ABC("@ + int_text(a as int) + ", "@ + int_text(b as int) + ", "@
            + int_text(c as int) + ")"@,
        OpMode::ABX(a, bx) => "ABX("@ + int_text(a as int) + ", "@ + int_text(bx as int) + ")"@,
        OpMode::ASBX(a, sbx) => "ASBX("@ + int_text(a as int) + ", "@ + int_text(sbx as int)
            + ")"@,
    }
}

/// The structural tag of an instruction: its variant and its operands,
/// such as `OpMove(ABC(0, 1, 0))`.
pub open spec fn op_tag(op: OpCode) -> Seq<char> {
    match op {
        OpCode::OpUnknown(n) => "OpUnknown("@ + int_text(n as int) + ")"@,
        _ => op_name(op) + "("@ + mode_text(op_mode(op).unwrap()) + ")"@,
    }
}

fn push_mode(s: &mut String, m: OpMode)
    ensures
        final(s)@ == old(s)@ + mode_text(m),
{
    let ghost s0 = s@;
    match m {
        OpMode::ABC(a, b, c) => {
            push_str(s, "ABC(");
            push_int(s, a as i128);
            push_str(s, ", ");
            push_int(s, b as i128);
            push_str(s, ", ");
            push_int(s, c as i128);
            push_str(s, ")");
        },
        OpMode::ABX(a, bx) => {
            push_str(s, "ABX(");
            push_int(s, a as i128);
            push_str(s, ", ");
            push_int(s, bx as i128);
            push_str(s, ")");
        },
        OpMode::ASBX(a, sbx) => {
            push_str(s, "ASBX(");
            push_int(s, a as i128);
            push_str(s, ", ");
            push_int(s, sbx as i128);
            push_str(s, ")");
        },
    }
    assert(s@ =~= s0 + mode_text(m));
}

impl OpCode {
    /// The structural tag of the instruction.
    pub fn tag(&self) -> (r: String)
        ensures
            r@ == op_tag(*self),
    {
        let mut s = String::new();
        match self {
            OpCode::OpUnknown(n) => {
                push_str(&mut s, "OpUnknown(");
                push_int(&mut s, *n as i128);
                push_str(&mut s, ")");
            },
            _ => {
                push_str(&mut s, name_of(self));
                push_str(&mut s, "(");
                let m = mode_of(self);
                push_mode(&mut s, m.unwrap());
                push_str(&mut s, ")");
            },
        }
        assert(s@ =~= op_tag(*self));
        s
    }
}

/// A register: `arg_<n>` within the parameters, else `r_<n>`.
pub open spec fn reg_text(r: int, params: int) -> Seq<char> {
    if r < params {
        "arg_"@ + int_text(r)
    } else {
        "r_"@ + int_text(r)
    }
}

/// A register range: one name when it holds one register, else
/// `r_<from> ... r_<to>`.
pub open spec fn reg_list_text(from: int, to: int, params: int) -> Seq<char> {
    if from == to {
        reg_text(from, params)
    } else {
        "r_"@ + int_text(from) + " ... r_"@ + int_text(to)
    }
}

/// Constant `i` of the prototype as a literal.
pub open spec fn constant_at(p: ProtoModel, i: int, nums: Seq<(u64, Seq<char>)>) -> Seq<char> {
    if 0 <= i < p.constants.len() {
        constant_text(p.constants[i], nums)
    } else {
        "[INVALID CONSTANT]"@
    }
}

/// An RK operand: the constant its field names when the RK bit is set, else
/// the register it names.
pub open spec fn rk_text(v: LuaInt, p: ProtoModel, nums: Seq<(u64, Seq<char>)>) -> Seq<char> {
    if is_rk_constant(v) {
        constant_at(p, rk_index(v) as int, nums)
    } else {
        reg_text(v as int, p.param_count as int)
    }
}

/// The name of a global: string constant `i`, as UTF-8 text.
pub open spec fn global_text(p: ProtoModel, i: int) -> Seq<char> {
    if 0 <= i < p.constants.len() {
        match p.constants[i] {
            ConstantModel::String(b) => if valid_utf8(b) {
                decode_utf8(b)
            } else {
                "[INVALID STRING]"@
            },
            _ => "[INVALID STRING]"@,
        }
    } else {
        "[INVALID CONSTANT]"@
    }
}

/// The argument list of a call with operand B.
pub open spec fn args_text(a: int, b: int, params: int) -> Seq<char> {
    if b == 0 {
        "top ... ???"@
    } else if b == 1 {
        Seq::empty()
    } else {
        reg_list_text(a + 1, a + b - 1, params)
    }
}

/// The registers a call with operand C assigns, with their ` = `.
pub open spec fn results_text(a: int, c: int, params: int) -> Seq<char> {
    if c == 0 {
        "top ... ??? = "@
    } else if c == 1 {
        Seq::empty()
    } else {
        reg_list_text(a, a + c - 2, params) + " = "@
    }
}

/// The values a return with operand B returns.
pub open spec fn returns_text(a: int, b: int, params: int) -> Seq<char> {
    if b == 0 {
        " top ... ???"@
    } else if b == 1 {
        Seq::empty()
    } else {
        " "@ + reg_list_text(a, a + b - 2, params)
    }
}

/// The registers a vararg with operand B fills.
pub open spec fn vararg_targets_text(a: int, b: int, params: int) -> Seq<char> {
    if b == 0 {
        reg_text(a, params) + ", top ... ???"@
    } else if b == 1 {
        reg_text(a, params)
    } else {
        reg_list_text(a, a + b - 2, params)
    }
}

/// The note after a closure on the upvalue bindings that follow it.
pub open spec fn upvalue_note(n: int) -> Seq<char> {
    if n > 0 {
        " -- the "@ + int_text(n) + " proceeding getupval or move instruction"@ + (if n > 1 {
            "s are"@
        } else {
            " is an"@
        }) + " upvalue"@ + (if n > 1 {
            "s"@
        } else {
            Seq::empty()
        })
    } else {
        Seq::empty()
    }
}

pub open spec fn closure_note(p: ProtoModel, bx: int) -> Seq<char> {
    if 0 <= bx < p.protos.len() {
        upvalue_note(p.protos[bx].upvalue_count as int)
    } else {
        " -- [INVALID PROTO]"@
    }
}

pub open spec fn binary_text(
    sym: Seq<char>,
    a: LuaInt,
    b: LuaInt,
    c: LuaInt,
    p: ProtoModel,
    nums: Seq<(u64, Seq<char>)>,
) -> Seq<char> {
    reg_text(a as int, p.param_count as int) + " = "@ + rk_text(b, p, nums) + " "@ + sym + " "@
        + rk_text(c, p, nums)
}

pub open spec fn unary_text(sym: Seq<char>, a: LuaInt, b: LuaInt, params: int) -> Seq<char> {
    reg_text(a as int, params) + " = "@ + sym + reg_text(b as int, params)
}

/// A comparison: the negated mnemonic when the polarity A is 1; the target
/// is the instruction after the jump that follows.
pub open spec fn condition_text(
    yes: Seq<char>,
    no: Seq<char>,
    a: LuaInt,
    b: LuaInt,
    c: LuaInt,
    p: ProtoModel,
    nums: Seq<(u64, Seq<char>)>,
    pc: int,
) -> Seq<char> {
    "if "@ + rk_text(b, p, nums) + " "@ + (if a == 1 {
        no
    } else {
        yes
    }) + " "@ + rk_text(c, p, nums) + " then goto "@ + int_text(pc + 2)
}

pub open spec fn not_text(c: LuaInt) -> Seq<char> {
    if c == 0 {
        Seq::empty()
    } else {
        "not "@
    }
}

/// The one-line pseudo-code of instruction `pc` of prototype `p`.
pub open spec fn describe_text(
    op: OpCode,
    p: ProtoModel,
    nums: Seq<(u64, Seq<char>)>,
    pc: int,
) -> Seq<char> {
    let n = p.param_count as int;
    match op {
        OpCode::OpMove(OpMode::ABC(a, b, _)) => reg_text(a as int, n) + " = "@ + reg_text(b as int, n),
        OpCode::OpLoadK(OpMode::ABX(a, bx)) => reg_text(a as int, n) + " = "@ + constant_at(p, bx as int, nums),
        OpCode::OpLoadBool(OpMode::ABC(a, b, c)) => reg_text(a as int, n) + " = "@ + (if b == 1 {
            "true"@
        } else {
            "false"@
        }) + (if c == 1 {
            "; goto "@ + int_text(pc + 2)
        } else {
            Seq::empty()
        }),
        OpCode::OpLoadNil(OpMode::ABC(a, b, _)) => reg_list_text(a as int, b as int, n) + " = nil"@,
        OpCode::OpGetUpval(OpMode::ABC(a, b, _)) => reg_text(a as int, n) + " = upvalue_"@ + int_text(b as int),
        OpCode::OpGetGlobal(OpMode::ABX(a, bx)) => reg_text(a as int, n) + " = "@ + global_text(p, bx as int),
        OpCode::OpGetTable(OpMode::ABC(a, b, c)) => reg_text(a as int, n) + " = "@ + reg_text(b as int, n) + "["@
            + rk_text(c, p, nums) + "]"@,
        OpCode::OpSetGlobal(OpMode::ABX(a, bx)) => global_text(p, bx as int) + " = "@ + reg_text(a as int, n),
        OpCode::OpSetUpval(OpMode::ABC(a, b, _)) => "upvalue_"@ + int_text(b as int) + " = "@ + reg_text(a as int, n),
        OpCode::OpSetTable(OpMode::ABC(a, b, c)) => reg_text(a as int, n) + "["@ + rk_text(b, p, nums) + "] = "@
            + rk_text(c, p, nums),
        OpCode::OpNewTable(OpMode::ABC(a, b, c)) => reg_text(a as int, n) + " = {} -- "@ + int_text(b as int)
            + " list, "@ + int_text(c as int) + " record"@,
        OpCode::OpSelf(OpMode::ABC(a, b, c)) => reg_text(a + 1, n) + " = "@ + reg_text(b as int, n) + "; "@
            + reg_text(a as int, n) + " = "@ + reg_text(b as int, n) + "["@ + rk_text(c, p, nums) + "]"@,
        OpCode::OpAdd(OpMode::ABC(a, b, c)) => binary_text("+"@, a, b, c, p, nums),
        OpCode::OpSub(OpMode::ABC(a, b, c)) => binary_text("-"@, a, b, c, p, nums),
        OpCode::OpMul(OpMode::ABC(a, b, c)) => binary_text("*"@, a, b, c, p, nums),
        OpCode::OpDiv(OpMode::ABC(a, b, c)) => binary_text("/"@, a, b, c, p, nums),
        OpCode::OpMod(OpMode::ABC(a, b, c)) => binary_text("%"@, a, b, c, p, nums),
        OpCode::OpPow(OpMode::ABC(a, b, c)) => binary_text("^"@, a, b, c, p, nums),
        OpCode::OpUnm(OpMode::ABC(a, b, _)) => unary_text("-"@, a, b, n),
        OpCode::OpNot(OpMode::ABC(a, b, _)) => unary_text("not "@, a, b, n),
        OpCode::OpLen(OpMode::ABC(a, b, _)) => unary_text("#"@, a, b, n),
        OpCode::OpConcat(OpMode::ABC(a, b, c)) => reg_text(a as int, n) + " = "@ + reg_text(b as int, n)
            + " .. ... .. "@ + reg_text(c as int, n),
        OpCode::OpJmp(OpMode::ASBX(_, sbx)) => "goto "@ + int_text(pc + sbx + 1),
        OpCode::OpEq(OpMode::ABC(a, b, c)) => condition_text("=="@, "~="@, a, b, c, p, nums, pc),
        OpCode::OpLt(OpMode::ABC(a, b, c)) => condition_text("<"@, ">="@, a, b, c, p, nums, pc),
        OpCode::OpLe(OpMode::ABC(a, b, c)) => condition_text("<="@, ">"@, a, b, c, p, nums, pc),
        OpCode::OpTest(OpMode::ABC(a, _, c)) => "if "@ + not_text(c) + reg_text(a as int, n) + " then goto "@
            + int_text(pc + 2),
        OpCode::OpTestSet(OpMode::ABC(a, b, c)) => "if "@ + not_text(c) + reg_text(b as int, n)
            + " then goto "@ + int_text(pc + 2) + " else "@ + reg_text(a as int, n) + " = "@ + reg_text(b as int, n),
        OpCode::OpCall(OpMode::ABC(a, b, c)) => results_text(a as int, c as int, n) + reg_text(a as int, n) + "("@
            + args_text(a as int, b as int, n) + ")"@,
        OpCode::OpTailCall(OpMode::ABC(a, b, _)) => "return "@ + reg_text(a as int, n) + "("@ + args_text(
            a as int,
            b as int,
            n,
        ) + ")"@,
        OpCode::OpReturn(OpMode::ABC(a, b, _)) => "return"@ + returns_text(a as int, b as int, n),
        OpCode::OpForLoop(OpMode::ASBX(a, sbx)) => reg_text(a as int, n) + " += "@ + reg_text(a + 2, n) + "; if "@
            + reg_text(a as int, n) + " <?= "@ + reg_text(a + 1, n) + " then { goto "@ + int_text(pc + sbx + 2)
            + "; "@ + reg_text(a + 3, n) + " = "@ + reg_text(a as int, n) + " }"@,
        OpCode::OpForPrep(OpMode::ASBX(a, sbx)) => reg_text(a as int, n) + " -= "@ + reg_text(a + 2, n)
            + "; goto "@ + int_text(pc + sbx + 2),
        OpCode::OpTForLoop(OpMode::ABC(a, _, c)) => reg_list_text(a + 3, a + 2 + c, n) + " = "@ + reg_text(
            a as int,
            n,
        ) + "("@ + reg_text(a + 1, n) + ", "@ + reg_text(a + 2, n) + "); if "@ + reg_text(a + 3, n)
            + " ~= nil {"@ + reg_text(a + 2, n) + " = "@ + reg_text(a + 3, n) + "} else goto "@ + int_text(
            pc + 2,
        ),
        OpCode::OpSetList(OpMode::ABC(a, b, c)) => reg_text(a as int, n) + "["@ + int_text((c - 1) * 50 + 1)
            + " ... "@ + int_text((c - 1) * 50 + b) + "] = "@ + reg_text(a + 1, n) + " ... "@ + reg_text(
            a + b,
            n,
        ),
        OpCode::OpClose(OpMode::ABX(a, _)) => "close all variables in the stack up to r_"@ + int_text(a as int),
        OpCode::OpClosure(OpMode::ABX(a, bx)) => reg_text(a as int, n) + " = proto_"@ + int_text(bx as int)
            + closure_note(p, bx as int),
        OpCode::OpVararg(OpMode::ABC(a, b, _)) => vararg_targets_text(a as int, b as int, n) + " = vararg"@,
        _ => "TODO: DESCRIBE "@ + op_tag(op),
    }
}

/// Relies on `String::from_utf8`: it succeeds exactly on valid UTF-8, with
/// the chars that the bytes encode.
#[verifier::external_body]
fn utf8_text(b: &Vec<u8>) -> (r: Option<String>)
    ensures
        r is Some <==> valid_utf8(b@),
        r matches Some(t) ==> t@ == decode_utf8(b@),
{
    String::from_utf8(b.clone()).ok()
}

fn push_reg(s: &mut String, r: i128, params: u8)
    ensures
        final(s)@ == old(s)@ + reg_text(r as int, params as int),
{
    let ghost s0 = s@;
    if r < params as i128 {
        push_str(s, "arg_");
    } else {
        push_str(s, "r_");
    }
    push_int(s, r);
    assert(s@ =~= s0 + reg_text(r as int, params as int));
}

fn push_reg_list(s: &mut String, from: i128, to: i128, params: u8)
    ensures
        final(s)@ == old(s)@ + reg_list_text(from as int, to as int, params as int),
{
    let ghost s0 = s@;
    if from == to {
        push_reg(s, from, params);
    } else {
        push_str(s, "r_");
        push_int(s, from);
        push_str(s, " ... r_");
        push_int(s, to);
    }
    assert(s@ =~= s0 + reg_list_text(from as int, to as int, params as int));
}

fn push_constant_at(s: &mut String, proto: &Proto, i: i128, numbers: &Vec<(u64, String)>)
    ensures
        final(s)@ == old(s)@ + constant_at(proto@, i as int, number_table(numbers@)),
{
    if 0 <= i && i < proto.constants.len() as i128 {
        push_constant(s, &proto.constants[i as usize], numbers);
    } else {
        push_str(s, "[INVALID CONSTANT]");
    }
}

fn push_rk(s: &mut String, v: LuaInt, proto: &Proto, numbers: &Vec<(u64, String)>)
    ensures
        final(s)@ == old(s)@ + rk_text(v, proto@, number_table(numbers@)),
{
    if v & BITRK != 0 {
        push_constant_at(s, proto, (v & !BITRK) as i128, numbers);
    } else {
        push_reg(s, v as i128, proto.param_count);
    }
}

fn push_global(s: &mut String, proto: &Proto, i: i128)
    ensures
        final(s)@ == old(s)@ + global_text(proto@, i as int),
{
    if 0 <= i && i < proto.constants.len() as i128 {
        match &proto.constants[i as usize] {
            Constant::String(b) => match utf8_text(b) {
                Some(t) => push_str(s, t.as_str()),
                None => push_str(s, "[INVALID STRING]"),
            },
            _ => push_str(s, "[INVALID STRING]"),
        }
    } else {
        push_str(s, "[INVALID CONSTANT]");
    }
}

fn push_binary(
    s: &mut String,
    sym: &str,
    a: LuaInt,
    b: LuaInt,
    c: LuaInt,
    proto: &Proto,
    numbers: &Vec<(u64, String)>,
)
    ensures
        final(s)@ == old(s)@ + binary_text(sym@, a, b, c, proto@, number_table(numbers@)),
{
    let ghost s0 = s@;
    push_reg(s, a as i128, proto.param_count);
    push_str(s, " = ");
    push_rk(s, b, proto, numbers);
    push_str(s, " ");
    push_str(s, sym);
    push_str(s, " ");
    push_rk(s, c, proto, numbers);
    assert(s@ =~= s0 + binary_text(sym@, a, b, c, proto@, number_table(numbers@)));
}

fn push_unary(s: &mut String, sym: &str, a: LuaInt, b: LuaInt, params: u8)
    ensures
        final(s)@ == old(s)@ + unary_text(sym@, a, b, params as int),
{
    let ghost s0 = s@;
    push_reg(s, a as i128, params);
    push_str(s, " = ");
    push_str(s, sym);
    push_reg(s, b as i128, params);
    assert(s@ =~= s0 + unary_text(sym@, a, b, params as int));
}

fn push_condition(
    s: &mut String,
    yes: &str,
    no: &str,
    a: LuaInt,
    b: LuaInt,
    c: LuaInt,
    proto: &Proto,
    numbers: &Vec<(u64, String)>,
    pc: i128,
)
    requires
        0 <= pc <= u64::MAX,
    ensures
        final(s)@ == old(s)@ + condition_text(
            yes@,
            no@,
            a,
            b,
            c,
            proto@,
            number_table(numbers@),
            pc as int,
        ),
{
    let ghost s0 = s@;
    push_str(s, "if ");
    push_rk(s, b, proto, numbers);
    push_str(s, " ");
    if a == 1 {
        push_str(s, no);
    } else {
        push_str(s, yes);
    }
    push_str(s, " ");
    push_rk(s, c, proto, numbers);
    push_str(s, " then goto ");
    push_int(s, pc + 2);
    assert(s@ =~= s0 + condition_text(yes@, no@, a, b, c, proto@, number_table(numbers@), pc as int));
}

fn push_call_parts(s: &mut String, a: i128, b: i128, c: i128, params: u8, with_results: bool)
    requires
        -0x1_0000_0000 < a < 0x1_0000_0000,
        -0x1_0000_0000 < b < 0x1_0000_0000,
        -0x1_0000_0000 < c < 0x1_0000_0000,
    ensures
        final(s)@ == old(s)@ + (if with_results {
            results_text(a as int, c as int, params as int)
        } else {
            "return "@
        }) + reg_text(a as int, params as int) + "("@ + args_text(a as int, b as int, params as int)
            + ")"@,
{
    let ghost s0 = s@;
    if with_results {
        if c == 0 {
            push_str(s, "top ... ??? = ");
        } else if c == 1 {
        } else {
            push_reg_list(s, a, a + c - 2, params);
            push_str(s, " = ");
        }
    } else {
        push_str(s, "return ");
    }
    push_reg(s, a, params);
    push_str(s, "(");
    if b == 0 {
        push_str(s, "top ... ???");
    } else if b == 1 {
    } else {
        push_reg_list(s, a + 1, a + b - 1, params);
    }
    push_str(s, ")");
    assert(s@ =~= s0 + (if with_results {
        results_text(a as int, c as int, params as int)
    } else {
        "return "@
    }) + reg_text(a as int, params as int) + "("@ + args_text(a as int, b as int, params as int)
        + ")"@);
}

fn push_upvalue_note(s: &mut String, n: u8)
    ensures
        final(s)@ == old(s)@ + upvalue_note(n as int),
{
    let ghost s0 = s@;
    if n > 0 {
        push_str(s, " -- the ");
        push_int(s, n as i128);
        push_str(s, " proceeding getupval or move instruction");
        if n > 1 {
            push_str(s, "s are");
        } else {
            push_str(s, " is an");
        }
        push_str(s, " upvalue");
        if n > 1 {
            push_str(s, "s");
        }
    }
    assert(s@ =~= s0 + upvalue_note(n as int));
}

impl OpCode {
    /// The one-line pseudo-code of this instruction, at index `pc` of
    /// `proto`; number constants take their text from `numbers`. An opcode
    /// without a rule, or with an operand mode that does not fit it, gives a
    /// marked placeholder.
    #[verifier::rlimit(50)]
    pub fn describe(&self, proto: &Proto, numbers: &Vec<(u64, String)>, pc: usize) -> (r: String)
        ensures
            r@ == describe_text(*self, proto@, number_table(numbers@), pc as int),
    {
        let ghost p = proto@;
        let ghost nums = number_table(numbers@);
        let n: u8 = proto.param_count;
        let pc: i128 = pc as i128;
        let mut s = String::new();
        match *self {
            OpCode::OpMove(OpMode::ABC(a, b, _)) => {
                push_reg(&mut s, a as i128, n);
                push_str(&mut s, " = ");
                push_reg(&mut s, b as i128, n);
            },
            OpCode::OpLoadK(OpMode::ABX(a, bx)) => {
                push_reg(&mut s, a as i128, n);
                push_str(&mut s, " = ");
                push_constant_at(&mut s, proto, bx as i128, numbers);
            },
            OpCode::OpLoadBool(OpMode::ABC(a, b, c)) => {
                push_reg(&mut s, a as i128, n);
                push_str(&mut s, " = ");
                if b == 1 {
                    push_str(&mut s, "true");
                } else {
                    push_str(&mut s, "false");
                }
                if c == 1 {
                    push_str(&mut s, "; goto ");
                    push_int(&mut s, pc + 2);
                }
            },
            OpCode::OpLoadNil(OpMode::ABC(a, b, _)) => {
                push_reg_list(&mut s, a as i128, b as i128, n);
                push_str(&mut s, " = nil");
            },
            OpCode::OpGetUpval(OpMode::ABC(a, b, _)) => {
                push_reg(&mut s, a as i128, n);
                push_str(&mut s, " = upvalue_");
                push_int(&mut s, b as i128);
            },
            OpCode::OpGetGlobal(OpMode::ABX(a, bx)) => {
                push_reg(&mut s, a as i128, n);
                push_str(&mut s, " = ");
                push_global(&mut s, proto, bx as i128);
            },
            OpCode::OpGetTable(OpMode::ABC(a, b, c)) => {
                push_reg(&mut s, a as i128, n);
                push_str(&mut s, " = ");
                push_reg(&mut s, b as i128, n);
                push_str(&mut s, "[");
                push_rk(&mut s, c, proto, numbers);
                push_str(&mut s, "]");
            },
            OpCode::OpSetGlobal(OpMode::ABX(a, bx)) => {
                push_global(&mut s, proto, bx as i128);
                push_str(&mut s, " = ");
                push_reg(&mut s, a as i128, n);
            },
            OpCode::OpSetUpval(OpMode::ABC(a, b, _)) => {
                push_str(&mut s, "upvalue_");
                push_int(&mut s, b as i128);
                push_str(&mut s, " = ");
                push_reg(&mut s, a as i128, n);
            },
            OpCode::OpSetTable(OpMode::ABC(a, b, c)) => {
                push_reg(&mut s, a as i128, n);
                push_str(&mut s, "[");
                push_rk(&mut s, b, proto, numbers);
                push_str(&mut s, "] = ");
                push_rk(&mut s, c, proto, numbers);
            },
            OpCode::OpNewTable(OpMode::ABC(a, b, c)) => {
                push_reg(&mut s, a as i128, n);
                push_str(&mut s, " = {} -- ");
                push_int(&mut s, b as i128);
                push_str(&mut s, " list, ");
                push_int(&mut s, c as i128);
                push_str(&mut s, " record");
            },
            OpCode::OpSelf(OpMode::ABC(a, b, c)) => {
                push_reg(&mut s, a as i128 + 1, n);
                push_str(&mut s, " = ");
                push_reg(&mut s, b as i128, n);
                push_str(&mut s, "; ");
                push_reg(&mut s, a as i128, n);
                push_str(&mut s, " = ");
                push_reg(&mut s, b as i128, n);
                push_str(&mut s, "[");
                push_rk(&mut s, c, proto, numbers);
                push_str(&mut s, "]");
            },
            OpCode::OpAdd(OpMode::ABC(a, b, c)) => push_binary(&mut s, "+", a, b, c, proto, numbers),
            OpCode::OpSub(OpMode::ABC(a, b, c)) => push_binary(&mut s, "-", a, b, c, proto, numbers),
            OpCode::OpMul(OpMode::ABC(a, b, c)) => push_binary(&mut s, "*", a, b, c, proto, numbers),
            OpCode::OpDiv(OpMode::ABC(a, b, c)) => push_binary(&mut s, "/", a, b, c, proto, numbers),
            OpCode::OpMod(OpMode::ABC(a, b, c)) => push_binary(&mut s, "%", a, b, c, proto, numbers),
            OpCode::OpPow(OpMode::ABC(a, b, c)) => push_binary(&mut s, "^", a, b, c, proto, numbers),
            OpCode::OpUnm(OpMode::ABC(a, b, _)) => push_unary(&mut s, "-", a, b, n),
            OpCode::OpNot(OpMode::ABC(a, b, _)) => push_unary(&mut s, "not ", a, b, n),
            OpCode::OpLen(OpMode::ABC(a, b, _)) => push_unary(&mut s, "#", a, b, n),
            OpCode::OpConcat(OpMode::ABC(a, b, c)) => {
                push_reg(&mut s, a as i128, n);
                push_str(&mut s, " = ");
                push_reg(&mut s, b as i128, n);
                push_str(&mut s, " .. ... .. ");
                push_reg(&mut s, c as i128, n);
            },
            OpCode::OpJmp(OpMode::ASBX(_, sbx)) => {
                push_str(&mut s, "goto ");
                push_int(&mut s, pc + sbx as i128 + 1);
            },
            OpCode::OpEq(OpMode::ABC(a, b, c)) => push_condition(
                &mut s,
                "==",
                "~=",
                a,
                b,
                c,
                proto,
                numbers,
                pc,
            ),
            OpCode::OpLt(OpMode::ABC(a, b, c)) => push_condition(
                &mut s,
                "<",
                ">=",
                a,
                b,
                c,
                proto,
                numbers,
                pc,
            ),
            OpCode::OpLe(OpMode::ABC(a, b, c)) => push_condition(
                &mut s,
                "<=",
                ">",
                a,
                b,
                c,
                proto,
                numbers,
                pc,
            ),
            OpCode::OpTest(OpMode::ABC(a, _, c)) => {
                push_str(&mut s, "if ");
                if c != 0 {
                    push_str(&mut s, "not ");
                }
                push_reg(&mut s, a as i128, n);
                push_str(&mut s, " then goto ");
                push_int(&mut s, pc + 2);
            },
            OpCode::OpTestSet(OpMode::ABC(a, b, c)) => {
                push_str(&mut s, "if ");
                if c != 0 {
                    push_str(&mut s, "not ");
                }
                push_reg(&mut s, b as i128, n);
                push_str(&mut s, " then goto ");
                push_int(&mut s, pc + 2);
                push_str(&mut s, " else ");
                push_reg(&mut s, a as i128, n);
                push_str(&mut s, " = ");
                push_reg(&mut s, b as i128, n);
            },
            OpCode::OpCall(OpMode::ABC(a, b, c)) => push_call_parts(
                &mut s,
                a as i128,
                b as i128,
                c as i128,
                n,
                true,
            ),
            OpCode::OpTailCall(OpMode::ABC(a, b, c)) => push_call_parts(
                &mut s,
                a as i128,
                b as i128,
                c as i128,
                n,
                false,
            ),
            OpCode::OpReturn(OpMode::ABC(a, b, _)) => {
                push_str(&mut s, "return");
                if b == 0 {
                    push_str(&mut s, " top ... ???");
                } else if b == 1 {
                } else {
                    push_str(&mut s, " ");
                    push_reg_list(&mut s, a as i128, a as i128 + b as i128 - 2, n);
                }
            },
            OpCode::OpForLoop(OpMode::ASBX(a, sbx)) => {
                let a: i128 = a as i128;
                push_reg(&mut s, a, n);
                push_str(&mut s, " += ");
                push_reg(&mut s, a + 2, n);
                push_str(&mut s, "; if ");
                push_reg(&mut s, a, n);
                push_str(&mut s, " <?= ");
                push_reg(&mut s, a + 1, n);
                push_str(&mut s, " then { goto ");
                push_int(&mut s, pc + sbx as i128 + 2);
                push_str(&mut s, "; ");
                push_reg(&mut s, a + 3, n);
                push_str(&mut s, " = ");
                push_reg(&mut s, a, n);
                push_str(&mut s, " }");
            },
            OpCode::OpForPrep(OpMode::ASBX(a, sbx)) => {
                push_reg(&mut s, a as i128, n);
                push_str(&mut s, " -= ");
                push_reg(&mut s, a as i128 + 2, n);
                push_str(&mut s, "; goto ");
                push_int(&mut s, pc + sbx as i128 + 2);
            },
            OpCode::OpTForLoop(OpMode::ABC(a, _, c)) => {
                let a: i128 = a as i128;
                push_reg_list(&mut s, a + 3, a + 2 + c as i128, n);
                push_str(&mut s, " = ");
                push_reg(&mut s, a, n);
                push_str(&mut s, "(");
                push_reg(&mut s, a + 1, n);
                push_str(&mut s, ", ");
                push_reg(&mut s, a + 2, n);
                push_str(&mut s, "); if ");
                push_reg(&mut s, a + 3, n);
                push_str(&mut s, " ~= nil {");
                push_reg(&mut s, a + 2, n);
                push_str(&mut s, " = ");
                push_reg(&mut s, a + 3, n);
                push_str(&mut s, "} else goto ");
                push_int(&mut s, pc + 2);
            },
            OpCode::OpSetList(OpMode::ABC(a, b, c)) => {
                // The Lua 5.1 compiler flushes list items in batches of 50.
                let offset: i128 = (c as i128 - 1) * 50;
                push_reg(&mut s, a as i128, n);
                push_str(&mut s, "[");
                push_int(&mut s, offset + 1);
                push_str(&mut s, " ... ");
                push_int(&mut s, offset + b as i128);
                push_str(&mut s, "] = ");
                push_reg(&mut s, a as i128 + 1, n);
                push_str(&mut s, " ... ");
                push_reg(&mut s, a as i128 + b as i128, n);
            },
            OpCode::OpClose(OpMode::ABX(a, _)) => {
                push_str(&mut s, "close all variables in the stack up to r_");
                push_int(&mut s, a as i128);
            },
            OpCode::OpClosure(OpMode::ABX(a, bx)) => {
                push_reg(&mut s, a as i128, n);
                push_str(&mut s, " = proto_");
                push_int(&mut s, bx as i128);
                proof {
                    lemma_proto_views(proto.protos@);
                }
                if 0 <= bx && (bx as i128) < proto.protos.len() as i128 {
                    push_upvalue_note(&mut s, proto.protos[bx as usize].upvalue_count);
                } else {
                    push_str(&mut s, " -- [INVALID PROTO]");
                }
            },
            OpCode::OpVararg(OpMode::ABC(a, b, _)) => {
                if b == 0 {
                    push_reg(&mut s, a as i128, n);
                    push_str(&mut s, ", top ... ???");
                } else if b == 1 {
                    push_reg(&mut s, a as i128, n);
                } else {
                    push_reg_list(&mut s, a as i128, a as i128 + b as i128 - 2, n);
                }
                push_str(&mut s, " = vararg");
            },
            _ => {
                push_str(&mut s, "TODO: DESCRIBE ");
                let t = self.tag();
                push_str(&mut s, t.as_str());
            },
        }
        assert(s@ =~= describe_text(*self, p, nums, pc as int));
        s
    }
}

/// RK operands: a field with its top addressing bit set renders constant
/// `value & !256` of the prototype, one without it renders the register of
/// that number. For a 9-bit field the bit is set exactly from 256 on, and the
/// constant index is `value - 256`.
pub proof fn lemma_rk_resolution(v: LuaInt, p: ProtoModel, nums: Seq<(u64, Seq<char>)>)
    ensures
        v & 256 != 0 ==> rk_text(v, p, nums) == constant_at(p, (v & !256i32) as int, nums),
        v & 256 == 0 ==> rk_text(v, p, nums) == reg_text(v as int, p.param_count as int),
        0 <= v < 512 && v >= 256 ==> is_rk_constant(v) && rk_index(v) == v - 256 && rk_text(v, p, nums)
            == constant_at(p, v - 256, nums),
        0 <= v < 256 ==> !is_rk_constant(v) && rk_text(v, p, nums) == reg_text(
            v as int,
            p.param_count as int,
        ),
{
    assert(0 <= v < 512 && v >= 256 ==> (v & 256) != 0 && (v & !256i32) == v - 256)
        by (bit_vector);
    assert(0 <= v < 256 ==> (v & 256) == 0) by (bit_vector);
}

/// The bit patterns of the number constants of a constant table, in order.
pub open spec fn constant_numbers(cs: Seq<ConstantModel>) -> Seq<u64>
    decreases cs.len(),
{
    if cs.len() == 0 {
        Seq::empty()
    } else {
        constant_numbers(cs.drop_last()) + match cs.last() {
            ConstantModel::Number(bits) => seq![bits],
            _ => Seq::empty(),
        }
    }
}

/// The bit patterns of every number constant of a prototype and of the
/// prototypes nested in it: its own first, then each child's in turn.
pub open spec fn number_list(p: ProtoModel) -> Seq<u64>
    decreases p, 1nat, 0nat,
{
    constant_numbers(p.constants) + children_numbers(p, 0)
}

pub open spec fn children_numbers(p: ProtoModel, j: nat) -> Seq<u64>
    decreases p, 0nat, p.protos.len() - j,
{
    if j >= p.protos.len() {
        Seq::empty()
    } else {
        number_list(p.protos[j as int]) + children_numbers(p, j + 1)
    }
}

/// The bit patterns of all number constants in `proto` and its nested
/// prototypes, whose decimal texts a listing needs.
pub fn number_constants(proto: &Proto) -> (r: Vec<u64>)
    ensures
        r@ == number_list(proto@),
    decreases proto,
{
    let ghost p = proto@;
    let mut r: Vec<u64> = Vec::new();
    let mut i: usize = 0;
    while i < proto.constants.len()
        invariant
            p == proto@,
            i <= proto.constants.len(),
            r@ == constant_numbers(p.constants.subrange(0, i as int)),
        decreases proto.constants.len() - i,
    {
        assert(p.constants.subrange(0, i + 1).drop_last() =~= p.constants.subrange(0, i as int));
        if let Constant::Number(bits) = &proto.constants[i] {
            r.push(*bits);
        }
        i = i + 1;
        assert(r@ =~= constant_numbers(p.constants.subrange(0, i as int)));
    }
    assert(p.constants.subrange(0, i as int) =~= p.constants);
    proof {
        lemma_proto_views(proto.protos@);
    }
    let mut j: usize = 0;
    while j < proto.protos.len()
        invariant
            p == proto@,
            p.protos.len() == proto.protos.len(),
            forall|k: int| 0 <= k < proto.protos.len() ==> #[trigger] p.protos[k] == proto.protos@[k]@,
            j <= proto.protos.len(),
            r@ + children_numbers(p, j as nat) == number_list(p),
        decreases proto.protos.len() - j,
    {
        let ghost before = r@;
        let mut child = number_constants(&proto.protos[j]);
        r.append(&mut child);
        j = j + 1;
        assert(r@ + children_numbers(p, j as nat) =~= before + children_numbers(p, (j - 1) as nat));
    }
    assert(r@ =~= number_list(p));
    r
}

} // verus!
