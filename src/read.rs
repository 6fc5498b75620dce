//! The chunk reader: a cursor over a borrowed byte buffer that decodes the
//! header and the prototype tree, proved to follow the format of `format`.
use vstd::prelude::*;

use crate::bytecode::{
    build_bytecode, build_instruction, proto_views, Bytecode, Constant, ConstantModel, Instruction,
    LuaInstruction, LuaInt, LuaVersion, Proto, ProtoModel,
};
use crate::error::{ReadError, WidthKind};
use crate::format::{
    be_value, constant_item, count_of, decode_code, instruction_item, int_item, is_lua_tag,
    le_value, lemma_prepend_step, local_item, out_of_bounds, parse_chunk, parse_code,
    parse_constants, parse_instruction, parse_int, parse_list, parse_number, parse_proto,
    parse_proto_head, parse_proto_list, parse_sizet, parse_string, parse_u8, parse_word, pow256,
    prepend, skip_debug_info, skip_list, string_item, take, Layout, ProtoHead,
};

verus! {

pub struct Reader<'a> {
    pub bytes: &'a Vec<u8>,
    bytes_size: usize,
    position: usize,
    layout: Layout,
}

proof fn lemma_be_step(s: Seq<u8>, a: int, i: int)
    requires
        0 <= a,
        0 <= i,
        a + i < s.len(),
    ensures
        be_value(s.subrange(a, a + i + 1)) == be_value(s.subrange(a, a + i)) * 256 + s[a + i],
{
    let t = s.subrange(a, a + i + 1);
    assert(t.drop_last() =~= s.subrange(a, a + i));
}

proof fn lemma_le_step(s: Seq<u8>, a: int, j: int, n: int)
    requires
        0 <= a,
        0 < j <= n,
        a + n <= s.len(),
    ensures
        le_value(s.subrange(a + j - 1, a + n)) == le_value(s.subrange(a + j, a + n)) * 256 + s[a
            + j - 1],
{
    let t = s.subrange(a + j - 1, a + n);
    assert(t.drop_first() =~= s.subrange(a + j, a + n));
}

proof fn lemma_digit_bound(acc: nat, b: u8, k: nat)
    requires
        acc < pow256(k),
    ensures
        acc * 256 + b < pow256(k + 1),
{
    assert(pow256(k + 1) == 256 * pow256(k));
    assert(acc * 256 + b < pow256(k + 1)) by (nonlinear_arith)
        requires
            acc < pow256(k),
            pow256(k + 1) == 256 * pow256(k),
            b < 256,
    ;
}

proof fn lemma_pow256_mono(a: nat, b: nat)
    requires
        a <= b,
    ensures
        pow256(a) <= pow256(b),
    decreases b,
{
    if a < b {
        lemma_pow256_mono(a, (b - 1) as nat);
    }
}

/// Items already decoded, put before what is decoded next.
spec fn prefixed<T>(acc: Seq<T>, r: Result<Seq<T>, ReadError>) -> Result<Seq<T>, ReadError> {
    match r {
        Ok(xs) => Ok(acc + xs),
        Err(e) => Err(e),
    }
}

proof fn lemma_prefixed_step<T>(acc: Seq<T>, x: T, r: Result<Seq<T>, ReadError>)
    ensures
        prefixed(acc.push(x), r) == prefixed(
            acc,
            match r {
                Err(e) => Err(e),
                Ok(rest) => Ok(seq![x] + rest),
            },
        ),
{
    match r {
        Err(e) => {},
        Ok(xs) => {
            assert(acc.push(x) + xs =~= acc + (seq![x] + xs));
        },
    }
}

/// `r` is what decoding a chunk at `pos` of `s` gives: the chunk that the
/// format describes there, or the first error met on the way.
pub open spec fn decodes_to(s: Seq<u8>, pos: int, r: Result<Bytecode, ReadError>) -> bool {
    match parse_chunk(s, pos) {
        Ok(m) => r matches Ok(b) && b@ == m,
        Err(e) => r == Err::<Bytecode, ReadError>(e),
    }
}

/// Decoding depends on the bytes alone: two decodes of the same buffer from
/// the same position give structurally equal chunks (the time taken aside),
/// or the same error.
pub proof fn lemma_decode_deterministic(
    s: Seq<u8>,
    pos: int,
    r1: Result<Bytecode, ReadError>,
    r2: Result<Bytecode, ReadError>,
)
    requires
        decodes_to(s, pos, r1),
        decodes_to(s, pos, r2),
    ensures
        r1 is Ok <==> r2 is Ok,
        r1 matches Ok(b1) ==> r2 matches Ok(b2) && b1@ == b2@,
        r1 is Err ==> r1 == r2,
{
}

/// The models of a sequence of constants.
pub open spec fn constant_views(v: Seq<Constant>) -> Seq<ConstantModel> {
    v.map_values(|c: Constant| c@)
}

impl<'a> Reader<'a> {
    /// The cursor: where the next read starts.
    pub closed spec fn pos(&self) -> int {
        self.position as int
    }

    /// The widths and byte order used by the reads.
    pub closed spec fn layout(&self) -> Layout {
        self.layout
    }

    /// The bytes being read.
    pub closed spec fn data(&self) -> Seq<u8> {
        self.bytes@
    }

    pub closed spec fn wf(&self) -> bool {
        &&& self.bytes_size == self.bytes@.len()
        &&& 0 <= self.position <= self.bytes@.len()
    }

    /// `next` reads the same buffer as `self`, with the same layout.
    pub closed spec fn same_source(&self, next: &Reader) -> bool {
        &&& next.bytes@ == self.bytes@
        &&& next.bytes_size == self.bytes_size
        &&& next.layout == self.layout
        &&& self.position <= next.position
        &&& next.wf()
    }

    /// Fails with the bounds error when fewer than `size` bytes are left.
    fn validate_read(&self, size: u64) -> (r: Result<(), ReadError>)
        requires
            self.wf(),
        ensures
            r is Ok <==> self.pos() + size <= self.bytes@.len(),
            r is Err ==> r == Err::<(), ReadError>(
                out_of_bounds(self.bytes@, self.pos(), size as int),
            ),
    {
        if size > (self.bytes_size - self.position) as u64 {
            Err(
                ReadError::OutOfBounds {
                    position: self.position as u64,
                    size,
                    bytes_size: self.bytes_size as u64,
                },
            )
        } else {
            Ok(())
        }
    }

    fn read_u8(&mut self) -> (r: Result<u8, ReadError>)
        requires
            old(self).wf(),
        ensures
            old(self).same_source(final(self)),
            match parse_u8(old(self).bytes@, old(self).pos()) {
                Ok((v, p)) => r == Ok::<u8, ReadError>(v) && final(self).pos() == p,
                Err(e) => r == Err::<u8, ReadError>(e),
            },
    {
        match self.validate_read(1) {
            Err(e) => Err(e),
            Ok(()) => {
                let result: u8 = self.bytes[self.position];
                self.position = self.position + 1;
                Ok(result)
            },
        }
    }

    fn read_u8s(&mut self, length: u64) -> (r: Result<Vec<u8>, ReadError>)
        requires
            old(self).wf(),
        ensures
            old(self).same_source(final(self)),
            match take(old(self).bytes@, old(self).pos(), length as int) {
                Ok((b, p)) => r matches Ok(v) && v@ == b && final(self).pos() == p,
                Err(e) => r == Err::<Vec<u8>, ReadError>(e),
            },
    {
        match self.validate_read(length) {
            Err(e) => Err(e),
            Ok(()) => {
                let start: usize = self.position;
                let n: usize = length as usize;
                let mut result: Vec<u8> = Vec::new();
                let mut i: usize = 0;
                while i < n
                    invariant
                        self.wf(),
                        self.position == start,
                        start + n <= self.bytes@.len(),
                        i <= n,
                        result@ == self.bytes@.subrange(start as int, start + i),
                    decreases n - i,
                {
                    result.push(self.bytes[start + i]);
                    i = i + 1;
                    assert(result@ =~= self.bytes@.subrange(start as int, start + i));
                }
                self.position = start + n;
                Ok(result)
            },
        }
    }

    /// An unsigned value of `n` bytes in the chunk's byte order.
    fn read_word(&mut self, n: u64) -> (r: Result<u64, ReadError>)
        requires
            old(self).wf(),
            n <= 8,
        ensures
            old(self).same_source(final(self)),
            match parse_word(old(self).bytes@, old(self).pos(), n as int, old(self).layout().little) {
                Ok((v, p)) => r == Ok::<u64, ReadError>(v as u64) && v < pow256(n as nat)
                    && final(self).pos() == p,
                Err(e) => r == Err::<u64, ReadError>(e),
            },
    {
        match self.validate_read(n) {
            Err(e) => Err(e),
            Ok(()) => {
                let start: usize = self.position;
                let len: usize = n as usize;
                let ghost s = self.bytes@;
                proof {
                    lemma_pow256_mono(n as nat, 8);
                    reveal_with_fuel(pow256, 9);
                }
                let mut acc: u64 = 0;
                if self.layout.little {
                    let mut j: usize = len;
                    while j > 0
                        invariant
                            self.wf(),
                            s == self.bytes@,
                            start + len <= s.len(),
                            j <= len,
                            len <= 8,
                            pow256(len as nat) <= pow256(8),
                            pow256(8) == 0x1_0000_0000_0000_0000,
                            acc as nat == le_value(s.subrange(start + j, start + len)),
                            acc < pow256((len - j) as nat),
                        decreases j,
                    {
                        proof {
                            lemma_le_step(s, start as int, j as int, len as int);
                            lemma_digit_bound(acc as nat, s[start + j - 1], (len - j) as nat);
                            lemma_pow256_mono((len - j + 1) as nat, len as nat);
                        }
                        acc = acc * 256 + self.bytes[start + j - 1] as u64;
                        j = j - 1;
                    }
                    assert(s.subrange(start as int, start + len) =~= s.subrange(start + 0, start + len));
                } else {
                    let mut i: usize = 0;
                    while i < len
                        invariant
                            self.wf(),
                            s == self.bytes@,
                            start + len <= s.len(),
                            i <= len,
                            len <= 8,
                            pow256(len as nat) <= pow256(8),
                            pow256(8) == 0x1_0000_0000_0000_0000,
                            acc as nat == be_value(s.subrange(start as int, start + i)),
                            acc < pow256(i as nat),
                        decreases len - i,
                    {
                        proof {
                            lemma_be_step(s, start as int, i as int);
                            lemma_digit_bound(acc as nat, s[start + i], i as nat);
                            lemma_pow256_mono((i + 1) as nat, len as nat);
                        }
                        acc = acc * 256 + self.bytes[start + i] as u64;
                        i = i + 1;
                    }
                }
                self.position = start + len;
                Ok(acc)
            },
        }
    }

    fn read_int(&mut self) -> (r: Result<LuaInt, ReadError>)
        requires
            old(self).wf(),
        ensures
            old(self).same_source(final(self)),
            match parse_int(old(self).layout(), old(self).bytes@, old(self).pos()) {
                Ok((v, p)) => r == Ok::<LuaInt, ReadError>(v) && final(self).pos() == p,
                Err(e) => r == Err::<LuaInt, ReadError>(e),
            },
    {
        if self.layout.size_int != 4 {
            return Err(ReadError::UnhandledWidth(WidthKind::Int, self.layout.size_int));
        }
        match self.read_word(4) {
            Err(e) => Err(e),
            Ok(v) => {
                proof {
                    reveal_with_fuel(pow256, 5);
                }
                let w: u32 = v as u32;
                Ok(#[verifier::truncate] (w as LuaInt))
            },
        }
    }

    fn read_sizet(&mut self) -> (r: Result<u64, ReadError>)
        requires
            old(self).wf(),
        ensures
            old(self).same_source(final(self)),
            match parse_sizet(old(self).layout(), old(self).bytes@, old(self).pos()) {
                Ok((v, p)) => r == Ok::<u64, ReadError>(v) && final(self).pos() == p
                    && p >= old(self).pos() + 4,
                Err(e) => r == Err::<u64, ReadError>(e),
            },
    {
        let width: u8 = self.layout.size_sizet;
        if width != 8 && width != 4 {
            return Err(ReadError::UnhandledWidth(WidthKind::SizeT, width));
        }
        self.read_word(width as u64)
    }

    fn read_number(&mut self) -> (r: Result<u64, ReadError>)
        requires
            old(self).wf(),
        ensures
            old(self).same_source(final(self)),
            match parse_number(old(self).layout(), old(self).bytes@, old(self).pos()) {
                Ok((v, p)) => r == Ok::<u64, ReadError>(v) && final(self).pos() == p,
                Err(e) => r == Err::<u64, ReadError>(e),
            },
    {
        if self.layout.size_luanumber != 8 {
            return Err(ReadError::UnhandledWidth(WidthKind::Number, self.layout.size_luanumber));
        }
        self.read_word(8)
    }

    fn read_instruction(&mut self) -> (r: Result<LuaInstruction, ReadError>)
        requires
            old(self).wf(),
        ensures
            old(self).same_source(final(self)),
            match parse_instruction(old(self).layout(), old(self).bytes@, old(self).pos()) {
                Ok((v, p)) => r == Ok::<u32, ReadError>(v) && final(self).pos() == p,
                Err(e) => r == Err::<u32, ReadError>(e),
            },
    {
        if self.layout.size_instruction != 4 {
            return Err(
                ReadError::UnhandledWidth(WidthKind::Instruction, self.layout.size_instruction),
            );
        }
        match self.read_word(4) {
            Err(e) => Err(e),
            Ok(v) => {
                proof {
                    reveal_with_fuel(pow256, 5);
                }
                Ok(v as u32)
            },
        }
    }

    fn read_string(&mut self) -> (r: Result<Vec<u8>, ReadError>)
        requires
            old(self).wf(),
        ensures
            old(self).same_source(final(self)),
            match parse_string(old(self).layout(), old(self).bytes@, old(self).pos()) {
                Ok((v, p)) => r matches Ok(b) && b@ == v && final(self).pos() == p
                    && p >= old(self).pos() + 4,
                Err(e) => r == Err::<Vec<u8>, ReadError>(e),
            },
    {
        let size: u64 = match self.read_sizet() {
            Err(e) => return Err(e),
            Ok(n) => n,
        };
        if size == 0 {
            return Ok(Vec::new());
        }
        let mut bytes: Vec<u8> = match self.read_u8s(size) {
            Err(e) => return Err(e),
            Ok(b) => b,
        };
        if bytes[bytes.len() - 1] != 0 {
            return Err(ReadError::MissingTerminator);
        }
        bytes.pop();
        Ok(bytes)
    }

    fn read_code(&mut self) -> (r: Result<Vec<Instruction>, ReadError>)
        requires
            old(self).wf(),
        ensures
            old(self).same_source(final(self)),
            match parse_code(old(self).layout(), old(self).bytes@, old(self).pos()) {
                Ok((v, p)) => r matches Ok(c) && c@ == v && final(self).pos() == p,
                Err(e) => r == Err::<Vec<Instruction>, ReadError>(e),
            },
    {
        let n: LuaInt = match self.read_int() {
            Err(e) => return Err(e),
            Ok(n) => n,
        };
        let count: u32 = #[verifier::truncate] (n as u32);
        let ghost l = self.layout;
        let ghost s = self.bytes@;
        let ghost at0 = self.pos();
        let ghost item = instruction_item(l, s);
        let mut raw: Vec<LuaInstruction> = Vec::new();
        assert(prepend(raw@, parse_list(item, at0, count as nat)) == parse_list(item, at0, count as nat)) by {
            match parse_list(item, at0, count as nat) {
                Ok((xs, q)) => assert(raw@ + xs =~= xs),
                Err(e) => {},
            }
        }
        let mut k: u32 = 0;
        while k < count
            invariant
                old(self).same_source(self),
                l == self.layout,
                s == self.bytes@,
                l == old(self).layout,
                s == old(self).bytes@,
                item == instruction_item(l, s),
                parse_int(l, s, old(self).pos()) == Ok::<(LuaInt, int), ReadError>((n, at0)),
                count == #[verifier::truncate] (n as u32),
                k <= count,
                prepend(raw@, parse_list(item, self.pos(), (count - k) as nat)) == parse_list(
                    item,
                    at0,
                    count as nat,
                ),
            decreases count - k,
        {
            let ghost q = self.pos();
            let w: LuaInstruction = match self.read_instruction() {
                Err(e) => {
                        assert(item(q) == Err::<(u32, int), ReadError>(e));
                    assert(parse_list(item, q, (count - k) as nat) == Err::<(Seq<u32>, int), ReadError>(e));
                    return Err(e);
                },
                Ok(w) => w,
            };
            assert(item(q) == Ok::<(u32, int), ReadError>((w, self.pos())));
            proof {
                lemma_prepend_step(raw@, w, parse_list(item, self.pos(), (count - k - 1) as nat));
            }
            raw.push(w);
            k = k + 1;
        }
        assert(raw@ + Seq::<u32>::empty() == raw@);
        let mut result: Vec<Instruction> = Vec::new();
        assert(prefixed(result@, decode_code(raw@, 0)) == decode_code(raw@, 0)) by {
            match decode_code(raw@, 0) {
                Ok(xs) => assert(result@ + xs =~= xs),
                Err(e) => {},
            }
        }
        let mut i: usize = 0;
        while i < raw.len()
            invariant
                old(self).same_source(self),
                parse_int(old(self).layout, old(self).bytes@, old(self).pos()) == Ok::<
                    (LuaInt, int),
                    ReadError,
                >((n, at0)),
                count == #[verifier::truncate] (n as u32),
                parse_list(instruction_item(old(self).layout, old(self).bytes@), at0, count as nat)
                    == Ok::<(Seq<u32>, int), ReadError>((raw@, self.pos())),
                i <= raw.len(),
                prefixed(result@, decode_code(raw@, i as nat)) == decode_code(raw@, 0),
            decreases raw.len() - i,
        {
            let mut inst: Instruction = build_instruction(raw[i], 32, LuaInt::MAX);
            let aux: Option<LuaInstruction> = if i + 1 < raw.len() {
                Some(raw[i + 1])
            } else {
                None
            };
            let used: bool = match inst.handle_aux(aux) {
                Err(e) => return Err(e),
                Ok(used) => used,
            };
            let next: usize = if used {
                i + 2
            } else {
                i + 1
            };
            proof {
                lemma_prefixed_step(result@, inst, decode_code(raw@, next as nat));
            }
            result.push(inst);
            i = next;
        }
        assert(result@ + Seq::<Instruction>::empty() == result@);
        Ok(result)
    }

    fn read_constants(&mut self) -> (r: Result<Vec<Constant>, ReadError>)
        requires
            old(self).wf(),
        ensures
            old(self).same_source(final(self)),
            match parse_constants(old(self).layout(), old(self).bytes@, old(self).pos()) {
                Ok((v, p)) => r matches Ok(c) && constant_views(c@) == v && final(self).pos() == p,
                Err(e) => r == Err::<Vec<Constant>, ReadError>(e),
            },
    {
        let n: LuaInt = match self.read_int() {
            Err(e) => return Err(e),
            Ok(n) => n,
        };
        let ghost l = self.layout;
        let ghost s = self.bytes@;
        let ghost at0 = self.pos();
        let ghost item = constant_item(l, s);
        let mut result: Vec<Constant> = Vec::new();
        assert(prepend(constant_views(result@), parse_list(item, at0, count_of(n))) == parse_list(item, at0, count_of(n))) by {
            match parse_list(item, at0, count_of(n)) {
                Ok((xs, q)) => assert(constant_views(result@) + xs =~= xs),
                Err(e) => {},
            }
        }
        let mut k: LuaInt = 0;
        while k < n
            invariant
                old(self).same_source(self),
                l == self.layout,
                s == self.bytes@,
                l == old(self).layout,
                s == old(self).bytes@,
                item == constant_item(l, s),
                parse_int(l, s, old(self).pos()) == Ok::<(LuaInt, int), ReadError>((n, at0)),
                0 <= k,
                k <= count_of(n),
                prepend(constant_views(result@), parse_list(item, self.pos(), (count_of(n) - k) as nat))
                    == parse_list(item, at0, count_of(n)),
            decreases n - k,
        {
            let ghost q = self.pos();
            let tag: u8 = match self.read_u8() {
                Err(e) => return Err(e),
                Ok(t) => t,
            };
            let c: Constant = if tag == 0 {
                Constant::Nil
            } else if tag == 1 {
                match self.read_u8() {
                    Err(e) => return Err(e),
                    Ok(b) => Constant::Boolean(b == 1),
                }
            } else if tag == 3 {
                match self.read_number() {
                    Err(e) => return Err(e),
                    Ok(bits) => Constant::Number(bits),
                }
            } else if tag == 4 {
                match self.read_string() {
                    Err(e) => return Err(e),
                    Ok(b) => Constant::String(b),
                }
            } else {
                return Err(ReadError::InvalidConstantType(tag));
            };
            assert(item(q) == Ok::<(ConstantModel, int), ReadError>((c@, self.pos())));
            proof {
                lemma_prepend_step(
                    constant_views(result@),
                    c@,
                    parse_list(item, self.pos(), (count_of(n) - k - 1) as nat),
                );
            }
            let ghost before = result@;
            result.push(c);
            assert(constant_views(result@) =~= constant_views(before).push(c@));
            k = k + 1;
        }
        Ok(result)
    }

    /// Reads `n` native ints and drops them.
    fn skip_ints(&mut self, n: LuaInt) -> (r: Result<(), ReadError>)
        requires
            old(self).wf(),
        ensures
            old(self).same_source(final(self)),
            match skip_list(int_item(old(self).layout, old(self).bytes@), old(self).pos(), count_of(n)) {
                Ok(p) => r is Ok && final(self).pos() == p,
                Err(e) => r == Err::<(), ReadError>(e),
            },
    {
        let ghost l = self.layout;
        let ghost s = self.bytes@;
        let ghost at0 = self.pos();
        let mut k: LuaInt = 0;
        while k < n
            invariant
                old(self).same_source(self),
                l == self.layout,
                s == self.bytes@,
                l == old(self).layout,
                s == old(self).bytes@,
                at0 == old(self).pos(),
                0 <= k,
                k <= count_of(n),
                skip_list(int_item(l, s), self.pos(), (count_of(n) - k) as nat) == skip_list(
                    int_item(l, s),
                    at0,
                    count_of(n),
                ),
            decreases n - k,
        {
            match self.read_int() {
                Err(e) => return Err(e),
                Ok(_) => {},
            }
            k = k + 1;
        }
        assert(k == count_of(n));
        assert(skip_list(int_item(l, s), self.pos(), 0) == Ok::<int, ReadError>(self.pos()));
        Ok(())
    }

    /// Reads `n` local-variable records and drops them.
    fn skip_locals(&mut self, n: LuaInt) -> (r: Result<(), ReadError>)
        requires
            old(self).wf(),
        ensures
            old(self).same_source(final(self)),
            match skip_list(local_item(old(self).layout, old(self).bytes@), old(self).pos(), count_of(n)) {
                Ok(p) => r is Ok && final(self).pos() == p,
                Err(e) => r == Err::<(), ReadError>(e),
            },
    {
        let ghost l = self.layout;
        let ghost s = self.bytes@;
        let ghost at0 = self.pos();
        let mut k: LuaInt = 0;
        while k < n
            invariant
                old(self).same_source(self),
                l == self.layout,
                s == self.bytes@,
                l == old(self).layout,
                s == old(self).bytes@,
                at0 == old(self).pos(),
                0 <= k,
                k <= count_of(n),
                skip_list(local_item(l, s), self.pos(), (count_of(n) - k) as nat) == skip_list(
                    local_item(l, s),
                    at0,
                    count_of(n),
                ),
            decreases n - k,
        {
            let ghost q = self.pos();
            match self.read_string() {
                Err(e) => return Err(e),
                Ok(_) => {},
            }
            match self.read_int() {
                Err(e) => return Err(e),
                Ok(_) => {},
            }
            match self.read_int() {
                Err(e) => return Err(e),
                Ok(_) => {},
            }
            assert(local_item(l, s)(q) == Ok::<((), int), ReadError>(((), self.pos())));
            k = k + 1;
        }
        assert(k == count_of(n));
        assert(skip_list(local_item(l, s), self.pos(), 0) == Ok::<int, ReadError>(self.pos()));
        Ok(())
    }

    /// Reads `n` strings and drops them.
    fn skip_strings(&mut self, n: LuaInt) -> (r: Result<(), ReadError>)
        requires
            old(self).wf(),
        ensures
            old(self).same_source(final(self)),
            match skip_list(string_item(old(self).layout, old(self).bytes@), old(self).pos(), count_of(n)) {
                Ok(p) => r is Ok && final(self).pos() == p,
                Err(e) => r == Err::<(), ReadError>(e),
            },
    {
        let ghost l = self.layout;
        let ghost s = self.bytes@;
        let ghost at0 = self.pos();
        let mut k: LuaInt = 0;
        while k < n
            invariant
                old(self).same_source(self),
                l == self.layout,
                s == self.bytes@,
                l == old(self).layout,
                s == old(self).bytes@,
                at0 == old(self).pos(),
                0 <= k,
                k <= count_of(n),
                skip_list(string_item(l, s), self.pos(), (count_of(n) - k) as nat) == skip_list(
                    string_item(l, s),
                    at0,
                    count_of(n),
                ),
            decreases n - k,
        {
            match self.read_string() {
                Err(e) => return Err(e),
                Ok(_) => {},
            }
            k = k + 1;
        }
        assert(k == count_of(n));
        assert(skip_list(string_item(l, s), self.pos(), 0) == Ok::<int, ReadError>(self.pos()));
        Ok(())
    }

    /// Reads the debug information (line info, local variables, upvalue
    /// names) and drops it, keeping the cursor in step with the stream.
    fn skip_debug(&mut self) -> (r: Result<(), ReadError>)
        requires
            old(self).wf(),
        ensures
            old(self).same_source(final(self)),
            match skip_debug_info(old(self).layout(), old(self).bytes@, old(self).pos()) {
                Ok(p) => r is Ok && final(self).pos() == p,
                Err(e) => r == Err::<(), ReadError>(e),
            },
    {
        let size_lineinfo: LuaInt = match self.read_int() {
            Err(e) => return Err(e),
            Ok(n) => n,
        };
        match self.skip_ints(size_lineinfo) {
            Err(e) => return Err(e),
            Ok(()) => {},
        }
        let size_localvars: LuaInt = match self.read_int() {
            Err(e) => return Err(e),
            Ok(n) => n,
        };
        match self.skip_locals(size_localvars) {
            Err(e) => return Err(e),
            Ok(()) => {},
        }
        let size_upvalues: LuaInt = match self.read_int() {
            Err(e) => return Err(e),
            Ok(n) => n,
        };
        self.skip_strings(size_upvalues)
    }

    fn read_proto(&mut self, id: LuaInt, is_main: bool, Ghost(depth): Ghost<nat>) -> (r: Result<
        Proto,
        ReadError,
    >)
        requires
            old(self).wf(),
            depth > old(self).bytes@.len() - old(self).pos(),
        ensures
            old(self).same_source(final(self)),
            match parse_proto(old(self).layout, old(self).bytes@, old(self).pos(), id, is_main, depth) {
                Ok((v, p)) => r matches Ok(pr) && pr@ == v && final(self).pos() == p,
                Err(e) => r == Err::<Proto, ReadError>(e),
            },
        decreases depth, 0nat,
    {
        let ghost l = self.layout;
        let ghost s = self.bytes@;
        let ghost at0 = self.pos();
        let source: Vec<u8> = match self.read_string() {
            Err(e) => return Err(e),
            Ok(v) => v,
        };
        let line_defined: LuaInt = match self.read_int() {
            Err(e) => return Err(e),
            Ok(v) => v,
        };
        let last_line_defined: LuaInt = match self.read_int() {
            Err(e) => return Err(e),
            Ok(v) => v,
        };
        let upvalue_count: u8 = match self.read_u8() {
            Err(e) => return Err(e),
            Ok(v) => v,
        };
        let param_count: u8 = match self.read_u8() {
            Err(e) => return Err(e),
            Ok(v) => v,
        };
        let vararg: u8 = match self.read_u8() {
            Err(e) => return Err(e),
            Ok(v) => v,
        };
        let max_stack_size: u8 = match self.read_u8() {
            Err(e) => return Err(e),
            Ok(v) => v,
        };
        let ghost head = ProtoHead {
            source: source@,
            line_defined,
            last_line_defined,
            upvalue_count,
            param_count,
            is_vararg: vararg != 0,
            max_stack_size,
        };
        assert(parse_proto_head(l, s, at0) == Ok::<(ProtoHead, int), ReadError>((head, self.pos())));
        let code: Vec<Instruction> = match self.read_code() {
            Err(e) => return Err(e),
            Ok(v) => v,
        };
        let constants: Vec<Constant> = match self.read_constants() {
            Err(e) => return Err(e),
            Ok(v) => v,
        };
        let protos: Vec<Proto> = match self.read_protos(Ghost((depth - 1) as nat)) {
            Err(e) => return Err(e),
            Ok(v) => v,
        };
        match self.skip_debug() {
            Err(e) => return Err(e),
            Ok(()) => {},
        }
        let result = Proto {
            is_main,
            id,
            source,
            line_defined,
            last_line_defined,
            upvalue_count,
            param_count,
            is_vararg: vararg != 0,
            max_stack_size,
            code,
            constants,
            protos,
        };
        assert(result@.constants =~= constant_views(result.constants@));
        Ok(result)
    }

    /// Reads a count and that many nested prototypes, with ids from 0.
    fn read_protos(&mut self, Ghost(depth): Ghost<nat>) -> (r: Result<Vec<Proto>, ReadError>)
        requires
            old(self).wf(),
            depth >= old(self).bytes@.len() - old(self).pos(),
        ensures
            old(self).same_source(final(self)),
            match parse_int(old(self).layout, old(self).bytes@, old(self).pos()) {
                Err(e) => r == Err::<Vec<Proto>, ReadError>(e),
                Ok((n, p)) => match parse_proto_list(
                    old(self).layout,
                    old(self).bytes@,
                    p,
                    0,
                    count_of(n),
                    depth,
                ) {
                    Ok((v, q)) => r matches Ok(ps) && proto_views(ps@) == v && final(self).pos()
                        == q,
                    Err(e) => r == Err::<Vec<Proto>, ReadError>(e),
                },
            },
        decreases depth, 1nat,
    {
        let n: LuaInt = match self.read_int() {
            Err(e) => return Err(e),
            Ok(n) => n,
        };
        let ghost l = self.layout;
        let ghost s = self.bytes@;
        let ghost at1 = self.pos();
        let mut result: Vec<Proto> = Vec::new();
        assert(proto_views(result@) == Seq::<ProtoModel>::empty());
        assert(prepend(proto_views(result@), parse_proto_list(l, s, at1, 0, count_of(n), depth))
            == parse_proto_list(l, s, at1, 0, count_of(n), depth)) by {
            match parse_proto_list(l, s, at1, 0, count_of(n), depth) {
                Ok((xs, q)) => assert(proto_views(result@) + xs =~= xs),
                Err(e) => {},
            }
        }
        let mut k: LuaInt = 0;
        while k < n
            invariant
                old(self).same_source(self),
                l == self.layout,
                s == self.bytes@,
                l == old(self).layout,
                s == old(self).bytes@,
                parse_int(l, s, old(self).pos()) == Ok::<(LuaInt, int), ReadError>((n, at1)),
                old(self).pos() < at1 <= self.pos(),
                depth >= s.len() - old(self).pos(),
                0 <= k <= count_of(n),
                prepend(
                    proto_views(result@),
                    parse_proto_list(l, s, self.pos(), k as int, (count_of(n) - k) as nat, depth),
                ) == parse_proto_list(l, s, at1, 0, count_of(n), depth),
            decreases n - k,
        {
            let ghost q = self.pos();
            let child: Proto = match self.read_proto(k, false, Ghost(depth)) {
                Err(e) => return Err(e),
                Ok(c) => c,
            };
            proof {
                lemma_prepend_step(
                    proto_views(result@),
                    child@,
                    parse_proto_list(l, s, self.pos(), k + 1, (count_of(n) - k - 1) as nat, depth),
                );
            }
            let ghost before = result@;
            result.push(child);
            assert(result@.drop_last() =~= before);
            k = k + 1;
        }
        assert(proto_views(result@) + Seq::<ProtoModel>::empty() == proto_views(result@));
        Ok(result)
    }

    /// Decodes a whole chunk from the cursor: the header, whose widths and
    /// byte order then govern every later read, and the root prototype.
    #[verifier::rlimit(60)]
    pub fn read(&mut self) -> (r: Result<Bytecode, ReadError>)
        requires
            old(self).wf(),
        ensures
            final(self).wf(),
            final(self).data() == old(self).data(),
            decodes_to(old(self).data(), old(self).pos(), r),
    {
        let ghost s = self.bytes@;
        let ghost at0 = self.pos();
        let signature: u8 = match self.read_u8() {
            Err(e) => return Err(e),
            Ok(b) => b,
        };
        if signature != 27 {
            return Err(ReadError::BadSignature);
        }
        let tag: Vec<u8> = match self.read_u8s(3) {
            Err(e) => return Err(e),
            Ok(b) => b,
        };
        if !(tag[0] == 76 && tag[1] == 117 && tag[2] == 97) {
            assert(!is_lua_tag(s.subrange(at0 + 1, at0 + 4)));
            return Err(ReadError::BadSignature);
        }
        assert(is_lua_tag(s.subrange(at0 + 1, at0 + 4)));
        let version_number: u8 = match self.read_u8() {
            Err(e) => return Err(e),
            Ok(b) => b,
        };
        let version: LuaVersion = if version_number == 0x51 {
            LuaVersion::Lua51
        } else {
            return Err(ReadError::UnsupportedVersion(version_number));
        };
        let format: u8 = match self.read_u8() {
            Err(e) => return Err(e),
            Ok(b) => b,
        };
        let endianness: u8 = match self.read_u8() {
            Err(e) => return Err(e),
            Ok(b) => b,
        };
        let size_int: u8 = match self.read_u8() {
            Err(e) => return Err(e),
            Ok(b) => b,
        };
        let size_sizet: u8 = match self.read_u8() {
            Err(e) => return Err(e),
            Ok(b) => b,
        };
        let size_instruction: u8 = match self.read_u8() {
            Err(e) => return Err(e),
            Ok(b) => b,
        };
        let size_luanumber: u8 = match self.read_u8() {
            Err(e) => return Err(e),
            Ok(b) => b,
        };
        let integral: u8 = match self.read_u8() {
            Err(e) => return Err(e),
            Ok(b) => b,
        };
        self.layout = Layout {
            little: endianness == 1,
            size_int,
            size_sizet,
            size_instruction,
            size_luanumber,
        };
        if size_int != 4 {
            return Err(ReadError::UnhandledWidth(WidthKind::Int, size_int));
        }
        assert(self.pos() == at0 + 12);
        let main_proto: Proto = match self.read_proto(0, true, Ghost((s.len() + 1) as nat)) {
            Err(e) => return Err(e),
            Ok(p) => p,
        };
        Ok(
            build_bytecode(
                version,
                format,
                endianness == 1,
                size_int,
                size_sizet,
                size_instruction,
                size_luanumber,
                integral == 1,
                main_proto,
                0,
            ),
        )
    }
}

/// A reader at the start of `bytes`, with the layout of the common Lua 5.1
/// build until a header says otherwise.
pub fn build_reader(bytes: &Vec<u8>) -> (r: Reader)
    ensures
        r.wf(),
        r.data() == bytes@,
        r.pos() == 0,
        r.layout() == (Layout {
            little: false,
            size_int: 4,
            size_sizet: 8,
            size_instruction: 4,
            size_luanumber: 8,
        }),
{
    Reader {
        bytes,
        bytes_size: bytes.len(),
        position: 0,
        layout: Layout {
            little: false,
            size_int: 4,
            size_sizet: 8,
            size_instruction: 4,
            size_luanumber: 8,
        },
    }
}

} // verus!
