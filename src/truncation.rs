//! Reading a prefix of a buffer: every read that fits in the prefix gives
//! what it gives on the whole buffer, and the first one that does not fit
//! fails with a bounds error. Hence a chunk cut short inside its root's
//! instruction words never decodes to something wrong.
use vstd::prelude::*;

use crate::bytecode::Bytecode;
use crate::error::ReadError;
use crate::format::{
    instruction_item, parse_chunk, parse_code, parse_instruction, parse_int, parse_list,
    parse_proto, parse_proto_head, parse_sizet, parse_string, parse_u8, parse_word, take, Layout,
    Parsed,
};
use crate::read::decodes_to;

verus! {

/// `t` is `s` cut after its first `t.len()` bytes.
pub open spec fn is_prefix(t: Seq<u8>, s: Seq<u8>) -> bool {
    t.len() <= s.len() && t =~= s.subrange(0, t.len() as int)
}

/// A bounds error that names a buffer of `len` bytes.
pub open spec fn is_out_of_bounds<T>(r: Parsed<T>, len: int) -> bool {
    r matches Err(ReadError::OutOfBounds { bytes_size, .. }) && bytes_size == len as u64
}

/// What a read gives on the prefix, given what it gives on the whole buffer:
/// the same when it ends within the prefix, else a bounds error.
pub open spec fn agrees<T>(whole: Parsed<T>, cut: Parsed<T>, len: int) -> bool {
    match whole {
        Ok((_, p)) => if p <= len {
            cut == whole
        } else {
            is_out_of_bounds(cut, len)
        },
        Err(_) => true,
    }
}

proof fn lemma_take(t: Seq<u8>, s: Seq<u8>, pos: int, n: int)
    requires
        is_prefix(t, s),
        0 <= pos,
        0 <= n,
    ensures
        agrees(take(s, pos, n), take(t, pos, n), t.len() as int),
{
    if pos + n <= t.len() {
        assert(t.subrange(pos, pos + n) =~= s.subrange(pos, pos + n));
    }
}

proof fn lemma_word(t: Seq<u8>, s: Seq<u8>, pos: int, n: int, little: bool)
    requires
        is_prefix(t, s),
        0 <= pos,
        0 <= n,
    ensures
        agrees(parse_word(s, pos, n, little), parse_word(t, pos, n, little), t.len() as int),
{
    lemma_take(t, s, pos, n);
}

proof fn lemma_u8(t: Seq<u8>, s: Seq<u8>, pos: int)
    requires
        is_prefix(t, s),
        0 <= pos,
    ensures
        agrees(parse_u8(s, pos), parse_u8(t, pos), t.len() as int),
{
    lemma_take(t, s, pos, 1);
}

proof fn lemma_int(l: Layout, t: Seq<u8>, s: Seq<u8>, pos: int)
    requires
        is_prefix(t, s),
        0 <= pos,
    ensures
        agrees(parse_int(l, s, pos), parse_int(l, t, pos), t.len() as int),
        parse_int(l, s, pos) matches Ok((_, p)) ==> p >= pos,
{
    lemma_word(t, s, pos, 4, l.little);
}

proof fn lemma_instruction(l: Layout, t: Seq<u8>, s: Seq<u8>, pos: int)
    requires
        is_prefix(t, s),
        0 <= pos,
    ensures
        agrees(parse_instruction(l, s, pos), parse_instruction(l, t, pos), t.len() as int),
        parse_instruction(l, s, pos) matches Ok((_, p)) ==> p >= pos,
{
    lemma_word(t, s, pos, 4, l.little);
}

proof fn lemma_string(l: Layout, t: Seq<u8>, s: Seq<u8>, pos: int)
    requires
        is_prefix(t, s),
        0 <= pos,
    ensures
        agrees(parse_string(l, s, pos), parse_string(l, t, pos), t.len() as int),
        parse_string(l, s, pos) matches Ok((_, p)) ==> p >= pos,
{
    lemma_word(t, s, pos, l.size_sizet as int, l.little);
    match parse_sizet(l, s, pos) {
        Ok((n, p)) => {
            lemma_take(t, s, p, n as int);
        },
        Err(_) => {},
    }
}

proof fn lemma_list_advances(l: Layout, s: Seq<u8>, pos: int, k: nat)
    ensures
        parse_list(instruction_item(l, s), pos, k) matches Ok((_, p)) ==> p >= pos,
    decreases k,
{
    if k > 0 {
        assert(instruction_item(l, s)(pos) == parse_instruction(l, s, pos));
        if let Ok((_, p)) = parse_instruction(l, s, pos) {
            lemma_list_advances(l, s, p, (k - 1) as nat);
        }
    }
}

proof fn lemma_instruction_list(l: Layout, t: Seq<u8>, s: Seq<u8>, pos: int, k: nat)
    requires
        is_prefix(t, s),
        0 <= pos <= t.len(),
    ensures
        agrees(
            parse_list(instruction_item(l, s), pos, k),
            parse_list(instruction_item(l, t), pos, k),
            t.len() as int,
        ),
    decreases k,
{
    if k > 0 {
        assert(instruction_item(l, s)(pos) == parse_instruction(l, s, pos));
        assert(instruction_item(l, t)(pos) == parse_instruction(l, t, pos));
        lemma_instruction(l, t, s, pos);
        match parse_instruction(l, s, pos) {
            Ok((_, p)) => {
                lemma_list_advances(l, s, p, (k - 1) as nat);
                if p <= t.len() {
                    lemma_instruction_list(l, t, s, p, (k - 1) as nat);
                }
            },
            Err(_) => {},
        }
    }
}

proof fn lemma_code(l: Layout, t: Seq<u8>, s: Seq<u8>, pos: int)
    requires
        is_prefix(t, s),
        0 <= pos,
    ensures
        agrees(parse_code(l, s, pos), parse_code(l, t, pos), t.len() as int),
{
    lemma_int(l, t, s, pos);
    match parse_int(l, s, pos) {
        Ok((n, p)) => {
            lemma_list_advances(l, s, p, (n as u32) as nat);
            if p <= t.len() {
                lemma_instruction_list(l, t, s, p, (n as u32) as nat);
            }
        },
        Err(_) => {},
    }
}

proof fn lemma_proto_head(l: Layout, t: Seq<u8>, s: Seq<u8>, pos: int)
    requires
        is_prefix(t, s),
        0 <= pos,
    ensures
        agrees(parse_proto_head(l, s, pos), parse_proto_head(l, t, pos), t.len() as int),
        parse_proto_head(l, s, pos) matches Ok((_, p)) ==> p >= pos,
{
    lemma_string(l, t, s, pos);
    if let Ok((_, at1)) = parse_string(l, s, pos) {
        lemma_int(l, t, s, at1);
        if let Ok((_, at2)) = parse_int(l, s, at1) {
            lemma_int(l, t, s, at2);
            if let Ok((_, at3)) = parse_int(l, s, at2) {
                lemma_u8(t, s, at3);
                if let Ok((_, at4)) = parse_u8(s, at3) {
                    lemma_u8(t, s, at4);
                    if let Ok((_, at5)) = parse_u8(s, at4) {
                        lemma_u8(t, s, at5);
                        if let Ok((_, at6)) = parse_u8(s, at5) {
                            lemma_u8(t, s, at6);
                        }
                    }
                }
            }
        }
    }
}

/// The layout that a chunk's header declares.
pub open spec fn header_layout(s: Seq<u8>) -> Layout {
    Layout {
        little: s[6] == 1,
        size_int: s[7],
        size_sizet: s[8],
        size_instruction: s[9],
        size_luanumber: s[10],
    }
}

/// Where the instruction words of a chunk's root prototype end.
pub open spec fn root_code_end(s: Seq<u8>) -> int {
    let l = header_layout(s);
    match parse_proto_head(l, s, 12) {
        Ok((_, at1)) => match parse_code(l, s, at1) {
            Ok((_, at2)) => at2,
            Err(_) => 0,
        },
        Err(_) => 0,
    }
}

/// A valid chunk cut anywhere before the end of its root's instruction
/// words decodes to a bounds error naming the cut length, never to a chunk.
pub proof fn lemma_truncated_chunk_is_out_of_bounds(
    s: Seq<u8>,
    m: int,
    r: Result<Bytecode, ReadError>,
)
    requires
        parse_chunk(s, 0) is Ok,
        0 <= m < root_code_end(s),
        decodes_to(s.subrange(0, m), 0, r),
    ensures
        r matches Err(ReadError::OutOfBounds { bytes_size, .. }) && bytes_size == m as u64,
{
    let t = s.subrange(0, m);
    assert(is_prefix(t, s));
    if m >= 4 {
        assert(t.subrange(1, 4) =~= s.subrange(1, 4));
    }
    if m >= 12 {
        assert(t.subrange(1, 4) =~= s.subrange(1, 4));
        let l = header_layout(s);
        assert(header_layout(t) == l);
        lemma_proto_head(l, t, s, 12);
        let (_, at1) = parse_proto_head(l, s, 12)->Ok_0;
        lemma_code(l, t, s, at1);
        assert(parse_proto(l, t, 12, 0, true, (t.len() + 1) as nat) matches Err(
            ReadError::OutOfBounds { bytes_size, .. },
        ) && bytes_size == m as u64);
    }
}

} // verus!
