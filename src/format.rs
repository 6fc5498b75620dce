//! The Lua 5.1 chunk format, stated as functions from a byte sequence and a
//! position to the value found there and the position after it.
use vstd::prelude::*;

use crate::bytecode::{
    aux_merged, decoded_op, OpCode, OpMode, ChunkModel, ConstantModel, Instruction, LuaInt, LuaVersion,
    ProtoModel,
};
use crate::error::{ReadError, WidthKind};

verus! {

/// The primitive widths and byte order that a chunk header declares.
#[derive(Debug, Clone, Copy, PartialEq, Eq)]
pub struct Layout {
    /// True when multi-byte values are little-endian.
    pub little: bool,
    pub size_int: u8,
    pub size_sizet: u8,
    pub size_instruction: u8,
    pub size_luanumber: u8,
}

/// A value read at some position, and the position after it.
pub type Parsed<T> = Result<(T, int), ReadError>;

pub open spec fn out_of_bounds(s: Seq<u8>, pos: int, n: int) -> ReadError {
    ReadError::OutOfBounds { position: pos as u64, size: n as u64, bytes_size: s.len() as u64 }
}

/// The `n` bytes at `pos`.
pub open spec fn take(s: Seq<u8>, pos: int, n: int) -> Parsed<Seq<u8>> {
    if pos + n <= s.len() {
        Ok((s.subrange(pos, pos + n), pos + n))
    } else {
        Err(out_of_bounds(s, pos, n))
    }
}

/// 256 to the power `n`.
pub open spec fn pow256(n: nat) -> nat
    decreases n,
{
    if n == 0 {
        1
    } else {
        256 * pow256((n - 1) as nat)
    }
}

/// The unsigned value of bytes stored most significant first.
pub open spec fn be_value(b: Seq<u8>) -> nat
    decreases b.len(),
{
    if b.len() == 0 {
        0
    } else {
        (be_value(b.drop_last()) * 256 + b.last()) as nat
    }
}

/// The unsigned value of bytes stored least significant first.
pub open spec fn le_value(b: Seq<u8>) -> nat
    decreases b.len(),
{
    if b.len() == 0 {
        0
    } else {
        (le_value(b.drop_first()) * 256 + b[0]) as nat
    }
}

pub open spec fn word_value(b: Seq<u8>, little: bool) -> nat {
    if little {
        le_value(b)
    } else {
        be_value(b)
    }
}

/// An unsigned value of `n` bytes in the given byte order.
pub open spec fn parse_word(s: Seq<u8>, pos: int, n: int, little: bool) -> Parsed<nat> {
    match take(s, pos, n) {
        Ok((b, p)) => Ok((word_value(b, little), p)),
        Err(e) => Err(e),
    }
}

pub open spec fn parse_u8(s: Seq<u8>, pos: int) -> Parsed<u8> {
    match take(s, pos, 1) {
        Ok((b, p)) => Ok((b[0], p)),
        Err(e) => Err(e),
    }
}

/// A native int: four bytes, two's complement.
pub open spec fn parse_int(l: Layout, s: Seq<u8>, pos: int) -> Parsed<LuaInt> {
    if l.size_int != 4 {
        Err(ReadError::UnhandledWidth(WidthKind::Int, l.size_int))
    } else {
        match parse_word(s, pos, 4, l.little) {
            Ok((v, p)) => Ok(((v as u32) as LuaInt, p)),
            Err(e) => Err(e),
        }
    }
}

/// A native size_t of eight or four bytes.
pub open spec fn parse_sizet(l: Layout, s: Seq<u8>, pos: int) -> Parsed<u64> {
    if l.size_sizet != 8 && l.size_sizet != 4 {
        Err(ReadError::UnhandledWidth(WidthKind::SizeT, l.size_sizet))
    } else {
        match parse_word(s, pos, l.size_sizet as int, l.little) {
            Ok((v, p)) => Ok((v as u64, p)),
            Err(e) => Err(e),
        }
    }
}

/// A native number: the eight bytes of a double, kept as its bit pattern.
pub open spec fn parse_number(l: Layout, s: Seq<u8>, pos: int) -> Parsed<u64> {
    if l.size_luanumber != 8 {
        Err(ReadError::UnhandledWidth(WidthKind::Number, l.size_luanumber))
    } else {
        match parse_word(s, pos, 8, l.little) {
            Ok((v, p)) => Ok((v as u64, p)),
            Err(e) => Err(e),
        }
    }
}

/// A raw instruction word of four bytes.
pub open spec fn parse_instruction(l: Layout, s: Seq<u8>, pos: int) -> Parsed<u32> {
    if l.size_instruction != 4 {
        Err(ReadError::UnhandledWidth(WidthKind::Instruction, l.size_instruction))
    } else {
        match parse_word(s, pos, 4, l.little) {
            Ok((v, p)) => Ok((v as u32, p)),
            Err(e) => Err(e),
        }
    }
}

/// A size_t-prefixed string: size zero is the empty string, any other size
/// counts a trailing NUL, which is checked and dropped.
pub open spec fn parse_string(l: Layout, s: Seq<u8>, pos: int) -> Parsed<Seq<u8>> {
    match parse_sizet(l, s, pos) {
        Err(e) => Err(e),
        Ok((n, p)) => if n == 0 {
            Ok((Seq::empty(), p))
        } else {
            match take(s, p, n as int) {
                Err(e) => Err(e),
                Ok((b, q)) => if b.last() == 0 {
                    Ok((b.drop_last(), q))
                } else {
                    Err(ReadError::MissingTerminator)
                },
            }
        },
    }
}

/// `k` items read one after another by `item`.
pub open spec fn parse_list<T>(item: spec_fn(int) -> Parsed<T>, pos: int, k: nat) -> Parsed<Seq<T>>
    decreases k,
{
    if k == 0 {
        Ok((Seq::empty(), pos))
    } else {
        match item(pos) {
            Err(e) => Err(e),
            Ok((x, p)) => match parse_list(item, p, (k - 1) as nat) {
                Err(e) => Err(e),
                Ok((xs, q)) => Ok((seq![x] + xs, q)),
            },
        }
    }
}

/// `k` items read by `item` and dropped: the position after them.
pub open spec fn skip_list<T>(item: spec_fn(int) -> Parsed<T>, pos: int, k: nat) -> Result<
    int,
    ReadError,
>
    decreases k,
{
    if k == 0 {
        Ok(pos)
    } else {
        match item(pos) {
            Err(e) => Err(e),
            Ok((_, p)) => skip_list(item, p, (k - 1) as nat),
        }
    }
}

pub open spec fn instruction_item(l: Layout, s: Seq<u8>) -> spec_fn(int) -> Parsed<u32> {
    |q: int| parse_instruction(l, s, q)
}

pub open spec fn constant_item(l: Layout, s: Seq<u8>) -> spec_fn(int) -> Parsed<ConstantModel> {
    |q: int| parse_constant(l, s, q)
}

pub open spec fn int_item(l: Layout, s: Seq<u8>) -> spec_fn(int) -> Parsed<LuaInt> {
    |q: int| parse_int(l, s, q)
}

pub open spec fn local_item(l: Layout, s: Seq<u8>) -> spec_fn(int) -> Parsed<()> {
    |q: int| parse_local(l, s, q)
}

pub open spec fn string_item(l: Layout, s: Seq<u8>) -> spec_fn(int) -> Parsed<Seq<u8>> {
    |q: int| parse_string(l, s, q)
}

/// Items already read, put before what is read next.
pub open spec fn prepend<T>(acc: Seq<T>, r: Parsed<Seq<T>>) -> Parsed<Seq<T>> {
    match r {
        Ok((xs, q)) => Ok((acc + xs, q)),
        Err(e) => Err(e),
    }
}

pub proof fn lemma_prepend_step<T>(acc: Seq<T>, x: T, r: Parsed<Seq<T>>)
    ensures
        prepend(acc.push(x), r) == prepend(
            acc,
            match r {
                Err(e) => Err(e),
                Ok((xs, q)) => Ok((seq![x] + xs, q)),
            },
        ),
{
    match r {
        Err(e) => {},
        Ok((xs, q)) => {
            assert(acc.push(x) + xs =~= acc + (seq![x] + xs));
        },
    }
}

/// The instructions that raw words from index `i` on decode to; a zero-count
/// `SetList` takes the word after it as its count.
pub open spec fn decode_code(words: Seq<u32>, i: nat) -> Result<Seq<Instruction>, ReadError>
    decreases words.len() - i,
{
    if i >= words.len() {
        Ok(Seq::empty())
    } else {
        let op = decoded_op(words[i as int], 32, LuaInt::MAX);
        let aux = if i + 1 < words.len() {
            Some(words[i + 1 as int])
        } else {
            None
        };
        match aux_merged(op, aux) {
            Err(e) => Err(e),
            Ok((merged, used)) => {
                let next: nat = if used {
                    i + 2
                } else {
                    i + 1
                };
                match decode_code(words, next) {
                    Err(e) => Err(e),
                    Ok(rest) => Ok(seq![Instruction { op: merged }] + rest),
                }
            },
        }
    }
}

/// An instruction count, that many raw words, and their decoding.
pub open spec fn parse_code(l: Layout, s: Seq<u8>, pos: int) -> Parsed<Seq<Instruction>> {
    match parse_int(l, s, pos) {
        Err(e) => Err(e),
        Ok((n, p)) => match parse_list(instruction_item(l, s), p, (n as u32) as nat) {
            Err(e) => Err(e),
            Ok((words, q)) => match decode_code(words, 0) {
                Err(e) => Err(e),
                Ok(code) => Ok((code, q)),
            },
        },
    }
}

/// A tagged constant: 0 nil, 1 boolean, 3 number, 4 string.
pub open spec fn parse_constant(l: Layout, s: Seq<u8>, pos: int) -> Parsed<ConstantModel> {
    match parse_u8(s, pos) {
        Err(e) => Err(e),
        Ok((tag, p)) => if tag == 0 {
            Ok((ConstantModel::Nil, p))
        } else if tag == 1 {
            match parse_u8(s, p) {
                Err(e) => Err(e),
                Ok((b, q)) => Ok((ConstantModel::Boolean(b == 1), q)),
            }
        } else if tag == 3 {
            match parse_number(l, s, p) {
                Err(e) => Err(e),
                Ok((bits, q)) => Ok((ConstantModel::Number(bits), q)),
            }
        } else if tag == 4 {
            match parse_string(l, s, p) {
                Err(e) => Err(e),
                Ok((b, q)) => Ok((ConstantModel::String(b), q)),
            }
        } else {
            Err(ReadError::InvalidConstantType(tag))
        },
    }
}

/// A count read as a native int: a negative count counts nothing.
pub open spec fn count_of(n: LuaInt) -> nat {
    if n > 0 {
        n as nat
    } else {
        0
    }
}

/// A constant count and that many constants.
pub open spec fn parse_constants(l: Layout, s: Seq<u8>, pos: int) -> Parsed<Seq<ConstantModel>> {
    match parse_int(l, s, pos) {
        Err(e) => Err(e),
        Ok((n, p)) => parse_list(constant_item(l, s), p, count_of(n)),
    }
}

/// A local-variable record: its name and its first and last pc.
pub open spec fn parse_local(l: Layout, s: Seq<u8>, pos: int) -> Parsed<()> {
    match parse_string(l, s, pos) {
        Err(e) => Err(e),
        Ok((_, at1)) => match parse_int(l, s, at1) {
            Err(e) => Err(e),
            Ok((_, at2)) => match parse_int(l, s, at2) {
                Err(e) => Err(e),
                Ok((_, q)) => Ok(((), q)),
            },
        },
    }
}

/// The debug information: line info, then the rest.
pub open spec fn skip_debug_info(l: Layout, s: Seq<u8>, pos: int) -> Result<int, ReadError> {
    match parse_int(l, s, pos) {
        Err(e) => Err(e),
        Ok((n, p)) => match skip_list(int_item(l, s), p, count_of(n)) {
            Err(e) => Err(e),
            Ok(q) => skip_locals_and_upvalues(l, s, q),
        },
    }
}

/// The local-variable records, then the upvalue names.
pub open spec fn skip_locals_and_upvalues(l: Layout, s: Seq<u8>, pos: int) -> Result<
    int,
    ReadError,
> {
    match parse_int(l, s, pos) {
        Err(e) => Err(e),
        Ok((n, p)) => match skip_list(local_item(l, s), p, count_of(n)) {
            Err(e) => Err(e),
            Ok(q) => skip_upvalue_names(l, s, q),
        },
    }
}

/// The upvalue names.
pub open spec fn skip_upvalue_names(l: Layout, s: Seq<u8>, pos: int) -> Result<int, ReadError> {
    match parse_int(l, s, pos) {
        Err(e) => Err(e),
        Ok((n, p)) => skip_list(string_item(l, s), p, count_of(n)),
    }
}

/// The fixed part at the start of a prototype.
pub struct ProtoHead {
    pub source: Seq<u8>,
    pub line_defined: LuaInt,
    pub last_line_defined: LuaInt,
    pub upvalue_count: u8,
    pub param_count: u8,
    pub is_vararg: bool,
    pub max_stack_size: u8,
}

pub open spec fn parse_proto_head(l: Layout, s: Seq<u8>, pos: int) -> Parsed<ProtoHead> {
    match parse_string(l, s, pos) {
        Err(e) => Err(e),
        Ok((source, at1)) => match parse_int(l, s, at1) {
            Err(e) => Err(e),
            Ok((line, at2)) => match parse_int(l, s, at2) {
                Err(e) => Err(e),
                Ok((last, at3)) => match parse_u8(s, at3) {
                    Err(e) => Err(e),
                    Ok((upv, at4)) => match parse_u8(s, at4) {
                        Err(e) => Err(e),
                        Ok((params, at5)) => match parse_u8(s, at5) {
                            Err(e) => Err(e),
                            Ok((vararg, at6)) => match parse_u8(s, at6) {
                                Err(e) => Err(e),
                                Ok((stack, at7)) => Ok(
                                    (
                                        ProtoHead {
                                            source,
                                            line_defined: line,
                                            last_line_defined: last,
                                            upvalue_count: upv,
                                            param_count: params,
                                            is_vararg: vararg != 0,
                                            max_stack_size: stack,
                                        },
                                        at7,
                                    ),
                                ),
                            },
                        },
                    },
                },
            },
        },
    }
}

/// A prototype with its nested prototypes. `depth` bounds the nesting; it
/// is never reached when it exceeds the bytes left, since every level reads
/// at least one byte.
pub open spec fn parse_proto(
    l: Layout,
    s: Seq<u8>,
    pos: int,
    id: LuaInt,
    is_main: bool,
    depth: nat,
) -> Parsed<ProtoModel>
    decreases depth, 0nat,
{
    if depth == 0 {
        Err(out_of_bounds(s, pos, 0))
    } else {
        match parse_proto_head(l, s, pos) {
            Err(e) => Err(e),
            Ok((h, at1)) => match parse_code(l, s, at1) {
                Err(e) => Err(e),
                Ok((code, at2)) => match parse_constants(l, s, at2) {
                    Err(e) => Err(e),
                    Ok((constants, at3)) => match parse_int(l, s, at3) {
                        Err(e) => Err(e),
                        Ok((n, at4)) => match parse_proto_list(
                            l,
                            s,
                            at4,
                            0,
                            count_of(n),
                            (depth - 1) as nat,
                        ) {
                            Err(e) => Err(e),
                            Ok((protos, at5)) => match skip_debug_info(l, s, at5) {
                                Err(e) => Err(e),
                                Ok(at6) => Ok(
                                    (
                                        ProtoModel {
                                            is_main,
                                            id,
                                            source: h.source,
                                            line_defined: h.line_defined,
                                            last_line_defined: h.last_line_defined,
                                            upvalue_count: h.upvalue_count,
                                            param_count: h.param_count,
                                            is_vararg: h.is_vararg,
                                            max_stack_size: h.max_stack_size,
                                            code,
                                            constants,
                                            protos,
                                        },
                                        at6,
                                    ),
                                ),
                            },
                        },
                    },
                },
            },
        }
    }
}

/// `k` nested prototypes, with ids counting up from `id`.
pub open spec fn parse_proto_list(
    l: Layout,
    s: Seq<u8>,
    pos: int,
    id: int,
    k: nat,
    depth: nat,
) -> Parsed<Seq<ProtoModel>>
    decreases depth, k + 1,
{
    if k == 0 {
        Ok((Seq::empty(), pos))
    } else {
        match parse_proto(l, s, pos, id as LuaInt, false, depth) {
            Err(e) => Err(e),
            Ok((x, p)) => match parse_proto_list(l, s, p, id + 1, (k - 1) as nat, depth) {
                Err(e) => Err(e),
                Ok((xs, q)) => Ok((seq![x] + xs, q)),
            },
        }
    }
}

/// The header byte "Lua" follows the signature byte.
pub open spec fn is_lua_tag(b: Seq<u8>) -> bool {
    b =~= seq![76u8, 117u8, 97u8]
}

/// A whole chunk read from `pos`: the header, then the root prototype.
pub open spec fn parse_chunk(s: Seq<u8>, pos: int) -> Result<ChunkModel, ReadError> {
    if pos + 1 > s.len() {
        Err(out_of_bounds(s, pos, 1))
    } else if s[pos] != 27 {
        Err(ReadError::BadSignature)
    } else if pos + 4 > s.len() {
        Err(out_of_bounds(s, pos + 1, 3))
    } else if !is_lua_tag(s.subrange(pos + 1, pos + 4)) {
        Err(ReadError::BadSignature)
    } else if pos + 5 > s.len() {
        Err(out_of_bounds(s, pos + 4, 1))
    } else if s[pos + 4] != 0x51 {
        Err(ReadError::UnsupportedVersion(s[pos + 4]))
    } else if pos + 12 > s.len() {
        Err(out_of_bounds(s, s.len() as int, 1))
    } else if s[pos + 7] != 4 {
        Err(ReadError::UnhandledWidth(WidthKind::Int, s[pos + 7]))
    } else {
        let l = Layout {
            little: s[pos + 6] == 1,
            size_int: s[pos + 7],
            size_sizet: s[pos + 8],
            size_instruction: s[pos + 9],
            size_luanumber: s[pos + 10],
        };
        match parse_proto(l, s, pos + 12, 0, true, (s.len() + 1) as nat) {
            Err(e) => Err(e),
            Ok((main, _)) => Ok(
                ChunkModel {
                    version: LuaVersion::Lua51,
                    format: s[pos + 5],
                    endianness: l.little,
                    size_int: l.size_int,
                    size_sizet: l.size_sizet,
                    size_instruction: l.size_instruction,
                    size_luanumber: l.size_luanumber,
                    luanumber_integral: s[pos + 11] == 1,
                    main_proto: main,
                },
            ),
        }
    }
}

/// A `SetList` whose inline count is zero takes the next raw word as its
/// count and consumes it: decoding resumes two words on. With a nonzero
/// count it is left as it is and decoding resumes at the next word. As the
/// last word, a zero-count `SetList` is an error.
pub proof fn lemma_setlist_aux(words: Seq<u32>, i: nat)
    requires
        i < words.len(),
        decoded_op(words[i as int], 32, LuaInt::MAX) matches OpCode::OpSetList(OpMode::ABC(_, _, _)),
    ensures
        ({
            let op = decoded_op(words[i as int], 32, LuaInt::MAX);
            match op {
                OpCode::OpSetList(OpMode::ABC(a, b, c)) => if c == 0 {
                    if i + 1 < words.len() {
                        decode_code(words, i) == match decode_code(words, i + 2) {
                            Ok(rest) => Ok(
                                seq![Instruction { op: OpCode::OpSetList(OpMode::ABC(a, b, words[i + 1 as int] as LuaInt)) }]
                                    + rest,
                            ),
                            Err(e) => Err(e),
                        }
                    } else {
                        decode_code(words, i) == Err::<Seq<Instruction>, ReadError>(
                            ReadError::MissingAux,
                        )
                    }
                } else {
                    decode_code(words, i) == match decode_code(words, i + 1) {
                        Ok(rest) => Ok(seq![Instruction { op }] + rest),
                        Err(e) => Err(e),
                    }
                },
                _ => false,
            }
        }),
{
}

/// A constant whose type tag is not 0, 1, 3 or 4 (such as 2) is an
/// invalid-constant-type error.
pub proof fn lemma_invalid_constant_tag(l: Layout, s: Seq<u8>, pos: int)
    requires
        0 <= pos < s.len(),
        s[pos] != 0 && s[pos] != 1 && s[pos] != 3 && s[pos] != 4,
    ensures
        parse_constant(l, s, pos) == Err::<(ConstantModel, int), ReadError>(
            ReadError::InvalidConstantType(s[pos]),
        ),
{
}

} // verus!
