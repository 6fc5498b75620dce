//! The decoded data model: constants, opcodes, instructions, prototypes, and
//! the decoder that turns one raw instruction word into an `Instruction`.
use vstd::prelude::*;

use crate::error::ReadError;

verus! {

/// The bytecode versions this library understands.
#[derive(Debug, Clone, Copy, PartialEq, Eq)]
pub enum LuaVersion {
    Lua51,
}

/// The native integer of the chunk (its declared width must be 4 bytes).
pub type LuaInt = i32;

pub type LuaUint = u32;

/// One raw instruction word.
pub type LuaInstruction = u32;

/// A constant of a prototype's constant table.
///
/// A number is kept as the bit pattern of its IEEE-754 double, exactly as the
/// chunk stores it; its decimal text is supplied by the caller when rendering.
#[derive(Debug, Clone)]
pub enum Constant {
    Nil,
    Boolean(bool),
    Number(u64),
    String(Vec<u8>),
}

/// The operand shape of an instruction.
#[derive(Debug, Clone, Copy, PartialEq, Eq)]
pub enum OpMode {
    ABC(LuaInt, LuaInt, LuaInt),
    ABX(LuaInt, LuaInt),
    ASBX(LuaInt, LuaInt),
}

#[derive(Debug, Clone, Copy, PartialEq, Eq)]
pub enum OpCode {
    OpMove(OpMode),
    OpLoadK(OpMode),
    OpLoadBool(OpMode),
    OpLoadNil(OpMode),
    OpGetUpval(OpMode),
    OpGetGlobal(OpMode),
    OpGetTable(OpMode),
    OpSetGlobal(OpMode),
    OpSetUpval(OpMode),
    OpSetTable(OpMode),
    OpNewTable(OpMode),
    OpSelf(OpMode),
    OpAdd(OpMode),
    OpSub(OpMode),
    OpMul(OpMode),
    OpDiv(OpMode),
    OpMod(OpMode),
    OpPow(OpMode),
    OpUnm(OpMode),
    OpNot(OpMode),
    OpLen(OpMode),
    OpConcat(OpMode),
    OpJmp(OpMode),
    OpEq(OpMode),
    OpLt(OpMode),
    OpLe(OpMode),
    OpTest(OpMode),
    OpTestSet(OpMode),
    OpCall(OpMode),
    OpTailCall(OpMode),
    OpReturn(OpMode),
    OpForLoop(OpMode),
    OpForPrep(OpMode),
    OpTForLoop(OpMode),
    OpSetList(OpMode),
    OpClose(OpMode),
    OpClosure(OpMode),
    OpVararg(OpMode),
    OpUnknown(u32),
}

#[derive(Debug, Clone, Copy, PartialEq, Eq)]
pub struct Instruction {
    pub op: OpCode,
}

/// What merging the word after an instruction does: the instruction it
/// becomes and whether the word was consumed, or the error when a zero-count
/// `SetList` has no word after it.
pub open spec fn aux_merged(op: OpCode, aux: Option<u32>) -> Result<(OpCode, bool), ReadError> {
    match op {
        OpCode::OpSetList(OpMode::ABC(a, b, c)) => {
            if c != 0 {
                Ok((op, false))
            } else {
                match aux {
                    Some(w) => Ok((OpCode::OpSetList(OpMode::ABC(a, b, w as LuaInt)), true)),
                    None => Err(ReadError::MissingAux),
                }
            }
        },
        _ => Ok((op, false)),
    }
}

impl Instruction {
    /// A `SetList` whose inline count C is zero takes its count from the next
    /// raw word: it is merged in, and `Ok(true)` tells the caller to skip that
    /// word. Any other instruction is left alone and gives `Ok(false)`.
    pub fn handle_aux(&mut self, aux: Option<LuaInstruction>) -> (r: Result<bool, ReadError>)
        ensures
            match aux_merged(old(self).op, aux) {
                Ok((op, used)) => r == Ok::<bool, ReadError>(used) && final(self).op == op,
                Err(e) => r == Err::<bool, ReadError>(e) && *final(self) == *old(self),
            },
    {
        if let OpCode::OpSetList(OpMode::ABC(a, b, c)) = self.op {
            if c != 0 {
                return Ok(false);
            }
            match aux {
                Some(w) => {
                    self.op = OpCode::OpSetList(OpMode::ABC(a, b, w as LuaInt));
                    Ok(true)
                },
                None => Err(ReadError::MissingAux),
            }
        } else {
            Ok(false)
        }
    }
}

/// A function prototype and, recursively, the prototypes nested in it.
#[derive(Debug)]
pub struct Proto {
    pub is_main: bool,
    pub id: LuaInt,
    pub source: Vec<u8>,
    pub line_defined: LuaInt,
    pub last_line_defined: LuaInt,
    pub upvalue_count: u8,
    pub param_count: u8,
    pub is_vararg: bool,
    pub max_stack_size: u8,
    pub code: Vec<Instruction>,
    pub constants: Vec<Constant>,
    pub protos: Vec<Proto>,
}

/// A decoded chunk: its header and its root prototype.
#[derive(Debug)]
pub struct Bytecode {
    pub version: LuaVersion,
    pub format: u8,
    /// True when the chunk is little-endian.
    pub endianness: bool,
    pub size_int: u8,
    pub size_sizet: u8,
    pub size_instruction: u8,
    pub size_luanumber: u8,
    pub luanumber_integral: bool,
    pub main_proto: Proto,
    /// Time the decoding took, in nanoseconds (diagnostic only).
    pub time_taken_nanos: u64,
}

/// The bit of an RK field that selects the constant table.
pub const BITRK: LuaInt = 256;

/// What a constant holds.
pub enum ConstantModel {
    Nil,
    Boolean(bool),
    Number(u64),
    String(Seq<u8>),
}

/// What a prototype holds, its nested prototypes included.
pub struct ProtoModel {
    pub is_main: bool,
    pub id: LuaInt,
    pub source: Seq<u8>,
    pub line_defined: LuaInt,
    pub last_line_defined: LuaInt,
    pub upvalue_count: u8,
    pub param_count: u8,
    pub is_vararg: bool,
    pub max_stack_size: u8,
    pub code: Seq<Instruction>,
    pub constants: Seq<ConstantModel>,
    pub protos: Seq<ProtoModel>,
}

/// What a decoded chunk holds, leaving out the time its decoding took.
pub struct ChunkModel {
    pub version: LuaVersion,
    pub format: u8,
    pub endianness: bool,
    pub size_int: u8,
    pub size_sizet: u8,
    pub size_instruction: u8,
    pub size_luanumber: u8,
    pub luanumber_integral: bool,
    pub main_proto: ProtoModel,
}

impl View for Constant {
    type V = ConstantModel;

    open spec fn view(&self) -> ConstantModel {
        match self {
            Constant::Nil => ConstantModel::Nil,
            Constant::Boolean(b) => ConstantModel::Boolean(*b),
            Constant::Number(n) => ConstantModel::Number(*n),
            Constant::String(v) => ConstantModel::String(v@),
        }
    }
}

impl View for Proto {
    type V = ProtoModel;

    open spec fn view(&self) -> ProtoModel
        decreases self,
    {
        ProtoModel {
            is_main: self.is_main,
            id: self.id,
            source: self.source@,
            line_defined: self.line_defined,
            last_line_defined: self.last_line_defined,
            upvalue_count: self.upvalue_count,
            param_count: self.param_count,
            is_vararg: self.is_vararg,
            max_stack_size: self.max_stack_size,
            code: self.code@,
            constants: self.constants@.map_values(|c: Constant| c@),
            protos: proto_views(self.protos@),
        }
    }
}

/// The models of a sequence of prototypes.
pub open spec fn proto_views(v: Seq<Proto>) -> Seq<ProtoModel>
    decreases v,
{
    if v.len() == 0 {
        Seq::empty()
    } else {
        proto_views(v.drop_last()).push(v.last().view())
    }
}

pub proof fn lemma_proto_views(v: Seq<Proto>)
    ensures
        proto_views(v).len() == v.len(),
        forall|i: int| 0 <= i < v.len() ==> #[trigger] proto_views(v)[i] == v[i]@,
    decreases v.len(),
{
    if v.len() > 0 {
        lemma_proto_views(v.drop_last());
        assert(proto_views(v) == proto_views(v.drop_last()).push(v.last()@));
    } else {
        assert(proto_views(v) == Seq::<ProtoModel>::empty());
    }
}

impl View for Bytecode {
    type V = ChunkModel;

    open spec fn view(&self) -> ChunkModel {
        ChunkModel {
            version: self.version,
            format: self.format,
            endianness: self.endianness,
            size_int: self.size_int,
            size_sizet: self.size_sizet,
            size_instruction: self.size_instruction,
            size_luanumber: self.size_luanumber,
            luanumber_integral: self.luanumber_integral,
            main_proto: self.main_proto@,
        }
    }
}

/// Largest value of an 18-bit Bx field, halved: the bias of sBx.
pub const MAXARG_SBX_18: LuaInt = 131071;

/// Opcode number: the low 6 bits.
pub open spec fn op_field(raw: u32) -> u32 {
    raw % 64
}

/// Field A: 8 bits above the opcode.
pub open spec fn a_field(raw: u32) -> LuaInt {
    ((raw / 64) % 256) as LuaInt
}

/// Field C: 9 bits above A.
pub open spec fn c_field(raw: u32) -> LuaInt {
    ((raw / 16384) % 512) as LuaInt
}

/// Field B: 9 bits above C.
pub open spec fn b_field(raw: u32) -> LuaInt {
    ((raw / 8388608) % 512) as LuaInt
}

/// Field Bx: the 18 bits of C and B together.
pub open spec fn bx_field(raw: u32) -> LuaInt {
    (raw / 16384) as LuaInt
}

/// The bias subtracted from Bx to give sBx.
pub open spec fn sbx_bias(num_bits_int: LuaInt, max_int: LuaInt) -> int {
    if 18 < num_bits_int - 1 {
        131071
    } else {
        max_int as int
    }
}

/// Field sBx: Bx minus the signed bias.
pub open spec fn sbx_field(raw: u32, num_bits_int: LuaInt, max_int: LuaInt) -> LuaInt {
    (bx_field(raw) - sbx_bias(num_bits_int, max_int)) as LuaInt
}

/// The opcode that a raw word decodes to.
pub open spec fn decoded_op(raw: u32, num_bits_int: LuaInt, max_int: LuaInt) -> OpCode {
    let abc = OpMode::ABC(a_field(raw), b_field(raw), c_field(raw));
    let abx = OpMode::ABX(a_field(raw), bx_field(raw));
    let asbx = OpMode::ASBX(a_field(raw), sbx_field(raw, num_bits_int, max_int));
    let n = op_field(raw);
    if n == 0 { OpCode::OpMove(abc) }
    else if n == 1 { OpCode::OpLoadK(abx) }
    else if n == 2 { OpCode::OpLoadBool(abc) }
    else if n == 3 { OpCode::OpLoadNil(abc) }
    else if n == 4 { OpCode::OpGetUpval(abc) }
    else if n == 5 { OpCode::OpGetGlobal(abx) }
    else if n == 6 { OpCode::OpGetTable(abc) }
    else if n == 7 { OpCode::OpSetGlobal(abx) }
    else if n == 8 { OpCode::OpSetUpval(abc) }
    else if n == 9 { OpCode::OpSetTable(abc) }
    else if n == 10 { OpCode::OpNewTable(abc) }
    else if n == 11 { OpCode::OpSelf(abc) }
    else if n == 12 { OpCode::OpAdd(abc) }
    else if n == 13 { OpCode::OpSub(abc) }
    else if n == 14 { OpCode::OpMul(abc) }
    else if n == 15 { OpCode::OpDiv(abc) }
    else if n == 16 { OpCode::OpMod(abc) }
    else if n == 17 { OpCode::OpPow(abc) }
    else if n == 18 { OpCode::OpUnm(abc) }
    else if n == 19 { OpCode::OpNot(abc) }
    else if n == 20 { OpCode::OpLen(abc) }
    else if n == 21 { OpCode::OpConcat(abc) }
    else if n == 22 { OpCode::OpJmp(asbx) }
    else if n == 23 { OpCode::OpEq(abc) }
    else if n == 24 { OpCode::OpLt(abc) }
    else if n == 25 { OpCode::OpLe(abc) }
    else if n == 26 { OpCode::OpTest(abc) }
    else if n == 27 { OpCode::OpTestSet(abc) }
    else if n == 28 { OpCode::OpCall(abc) }
    else if n == 29 { OpCode::OpTailCall(abc) }
    else if n == 30 { OpCode::OpReturn(abc) }
    else if n == 31 { OpCode::OpForLoop(asbx) }
    else if n == 32 { OpCode::OpForPrep(asbx) }
    else if n == 33 { OpCode::OpTForLoop(abc) }
    else if n == 34 { OpCode::OpSetList(abc) }
    else if n == 35 { OpCode::OpClose(abx) }
    else if n == 36 { OpCode::OpClosure(abx) }
    else if n == 37 { OpCode::OpVararg(abc) }
    else { OpCode::OpUnknown(n) }
}

/// An RK field names a constant when its top bit is set.
pub open spec fn is_rk_constant(v: LuaInt) -> bool {
    v & BITRK != 0
}

/// The constant index of an RK field: the field without its top bit.
pub open spec fn rk_index(v: LuaInt) -> LuaInt {
    v & !BITRK
}

/// Decodes one raw instruction word, given the bit width and the largest
/// value of the chunk's native integer.
pub fn build_instruction(raw: LuaInstruction, num_bits_int: LuaInt, max_int: LuaInt) -> (r:
    Instruction)
    requires
        max_int >= 0,
    ensures
        r.op == decoded_op(raw, num_bits_int, max_int),
{
    let a: LuaInt = ((raw / 64) % 256) as LuaInt;
    let b: LuaInt = ((raw / 8388608) % 512) as LuaInt;
    let c: LuaInt = ((raw / 16384) % 512) as LuaInt;
    let bx: LuaInt = (raw / 16384) as LuaInt;
    let bias: LuaInt = if 18 < (num_bits_int as i64) - 1 {
        MAXARG_SBX_18
    } else {
        max_int
    };
    let sbx: LuaInt = bx - bias;
    let abc = OpMode::ABC(a, b, c);
    let abx = OpMode::ABX(a, bx);
    let asbx = OpMode::ASBX(a, sbx);
    let op: OpCode = match raw % 64 {
        0 => OpCode::OpMove(abc),
        1 => OpCode::OpLoadK(abx),
        2 => OpCode::OpLoadBool(abc),
        3 => OpCode::OpLoadNil(abc),
        4 => OpCode::OpGetUpval(abc),
        5 => OpCode::OpGetGlobal(abx),
        6 => OpCode::OpGetTable(abc),
        7 => OpCode::OpSetGlobal(abx),
        8 => OpCode::OpSetUpval(abc),
        9 => OpCode::OpSetTable(abc),
        10 => OpCode::OpNewTable(abc),
        11 => OpCode::OpSelf(abc),
        12 => OpCode::OpAdd(abc),
        13 => OpCode::OpSub(abc),
        14 => OpCode::OpMul(abc),
        15 => OpCode::OpDiv(abc),
        16 => OpCode::OpMod(abc),
        17 => OpCode::OpPow(abc),
        18 => OpCode::OpUnm(abc),
        19 => OpCode::OpNot(abc),
        20 => OpCode::OpLen(abc),
        21 => OpCode::OpConcat(abc),
        22 => OpCode::OpJmp(asbx),
        23 => OpCode::OpEq(abc),
        24 => OpCode::OpLt(abc),
        25 => OpCode::OpLe(abc),
        26 => OpCode::OpTest(abc),
        27 => OpCode::OpTestSet(abc),
        28 => OpCode::OpCall(abc),
        29 => OpCode::OpTailCall(abc),
        30 => OpCode::OpReturn(abc),
        31 => OpCode::OpForLoop(asbx),
        32 => OpCode::OpForPrep(asbx),
        33 => OpCode::OpTForLoop(abc),
        34 => OpCode::OpSetList(abc),
        35 => OpCode::OpClose(abx),
        36 => OpCode::OpClosure(abx),
        37 => OpCode::OpVararg(abc),
        n => OpCode::OpUnknown(n),
    };
    Instruction { op }
}

/// Assembles a decoded chunk from its header fields and root prototype.
pub fn build_bytecode(
    version: LuaVersion,
    format: u8,
    endianness: bool,
    size_int: u8,
    size_sizet: u8,
    size_instruction: u8,
    size_luanumber: u8,
    luanumber_integral: bool,
    main_proto: Proto,
    time_taken_nanos: u64,
) -> (r: Bytecode)
    ensures
        r@ == (ChunkModel {
            version,
            format,
            endianness,
            size_int,
            size_sizet,
            size_instruction,
            size_luanumber,
            luanumber_integral,
            main_proto: main_proto@,
        }),
        r.time_taken_nanos == time_taken_nanos,
{
    Bytecode {
        version,
        format,
        endianness,
        size_int,
        size_sizet,
        size_instruction,
        size_luanumber,
        luanumber_integral,
        main_proto,
        time_taken_nanos,
    }
}

/// A raw word built from an opcode number and fields A, B and C decodes
/// back to exactly those fields; Bx is C and B together, and sBx is Bx less
/// the signed bias. Numbers 0 to 37 name an operation, any other is kept as
/// an unknown opcode.
pub proof fn lemma_fields_decode(n: u32, a: u32, b: u32, c: u32, num_bits_int: LuaInt, max_int: LuaInt)
    requires
        n < 64,
        a < 256,
        b < 512,
        c < 512,
    ensures
        ({
            let raw = (n + a * 64 + c * 16384 + b * 8388608) as u32;
            &&& op_field(raw) == n
            &&& a_field(raw) == a
            &&& b_field(raw) == b
            &&& c_field(raw) == c
            &&& bx_field(raw) == c + b * 512
            &&& sbx_field(raw, num_bits_int, max_int) == (c + b * 512 - sbx_bias(
                num_bits_int,
                max_int,
            )) as LuaInt
            &&& (n < 38 <==> !(decoded_op(raw, num_bits_int, max_int) is OpUnknown))
            &&& (n >= 38 ==> decoded_op(raw, num_bits_int, max_int) == OpCode::OpUnknown(n))
        }),
{
    let raw = (n + a * 64 + c * 16384 + b * 8388608) as u32;
    assert(raw % 64 == n && (raw / 64) % 256 == a && (raw / 16384) % 512 == c && (raw / 8388608)
        % 512 == b && raw / 16384 == c + b * 512) by (nonlinear_arith)
        requires
            n < 64,
            a < 256,
            b < 512,
            c < 512,
            raw == n + a * 64 + c * 16384 + b * 8388608,
    ;
}

} // verus!
