//! The disassembly listing: each prototype's constants, its instructions as
//! aligned lines, and its nested prototypes printed where a closure first
//! names them.
use vstd::prelude::*;

use crate::bytecode::{
    lemma_proto_views, Bytecode, Instruction, OpCode, OpMode, Proto, ProtoModel,
};
use crate::render::{constant_text, describe_text, number_table, op_tag};
use crate::text::{int_text, lemma_digit_count, nat_text, push_char, push_int, push_str};
use vstd::string::StrSliceExecFns;

verus! {

/// One level of indentation.
pub open spec fn indent_unit() -> Seq<char> {
    seq![' ', ' ', ' ', ' ']
}

/// `n` spaces.
pub open spec fn spaces(n: nat) -> Seq<char> {
    Seq::new(n, |i: int| ' ')
}

/// `t` padded with spaces on the right to at least `w` chars.
pub open spec fn pad(t: Seq<char>, w: int) -> Seq<char> {
    if t.len() < w {
        t + spaces((w - t.len()) as nat)
    } else {
        t
    }
}

/// The parameters of a nested function: `arg_0, arg_1`, then `...` when it
/// takes varargs.
pub open spec fn args_list(k: nat) -> Seq<char>
    decreases k,
{
    if k == 0 {
        Seq::empty()
    } else if k == 1 {
        "arg_"@ + int_text(0)
    } else {
        args_list((k - 1) as nat) + ", arg_"@ + int_text(k - 1)
    }
}

pub open spec fn params_text(count: nat, vararg: bool) -> Seq<char> {
    args_list(count) + if vararg {
        if count > 0 {
            ", ..."@
        } else {
            "..."@
        }
    } else {
        Seq::empty()
    }
}

/// The child prototype that a closure instruction names.
pub open spec fn closure_target(op: OpCode) -> Option<int> {
    match op {
        OpCode::OpClosure(OpMode::ABX(_, bx)) => Some(bx as int),
        _ => None,
    }
}

/// Some instruction before index `i` is a closure of child `j`.
pub open spec fn referenced_before(code: Seq<Instruction>, i: int, j: int) -> bool {
    exists|k: int| 0 <= k < i && #[trigger] closure_target(code[k].op) == Some(j)
}

/// The child printed just before instruction `i`: the one it names as a
/// closure, when that child exists and no earlier closure named it.
pub open spec fn opens_child(code: Seq<Instruction>, i: int, n: int) -> Option<int> {
    match closure_target(code[i].op) {
        Some(j) => if 0 <= j < n && !referenced_before(code, i, j) {
            Some(j)
        } else {
            None
        },
        None => None,
    }
}

/// The widest structural tag among the first `i` instructions.
pub open spec fn tag_width(code: Seq<Instruction>, i: nat) -> nat
    decreases i,
{
    if i == 0 || i > code.len() {
        0
    } else {
        let w = op_tag(code[i - 1].op).len();
        let rest = tag_width(code, (i - 1) as nat);
        if w > rest {
            w
        } else {
            rest
        }
    }
}

/// The width of the index column: the digits of the instruction count, plus 2.
pub open spec fn index_width(n: nat) -> nat {
    nat_text(n).len() + 2
}

/// The line of instruction `i`: only its description, or its index, its tag
/// and its description in aligned columns.
pub open spec fn instruction_line(
    p: ProtoModel,
    i: int,
    prefix: Seq<char>,
    just_describes: bool,
    nums: Seq<(u64, Seq<char>)>,
) -> Seq<char> {
    let d = describe_text(p.code[i].op, p, nums, i);
    if just_describes {
        prefix + d
    } else {
        prefix + pad(int_text(i), index_width(p.code.len()) as int) + pad(
            op_tag(p.code[i].op),
            tag_width(p.code, p.code.len()) as int,
        ) + "  --  "@ + d
    }
}

/// The constants block of a prototype, as a comment.
pub open spec fn constant_lines(p: ProtoModel, prefix: Seq<char>, nums: Seq<(u64, Seq<char>)>) -> Seq<
    Seq<char>,
> {
    seq![prefix + "--[[ constants:"@] + Seq::new(
        p.constants.len(),
        |i: int| prefix + indent_unit() + int_text(i) + " - "@ + constant_text(p.constants[i], nums),
    ) + seq![prefix + "]]"@]
}

/// The listing of a prototype and, recursively, of its children.
pub open spec fn proto_lines(
    p: ProtoModel,
    prefix: Seq<char>,
    just_describes: bool,
    nums: Seq<(u64, Seq<char>)>,
) -> Seq<Seq<char>>
    decreases p, 1nat, 0nat,
{
    let body = if p.is_main {
        prefix
    } else {
        prefix + indent_unit()
    };
    let head: Seq<Seq<char>> = if p.is_main {
        Seq::empty()
    } else {
        seq![
            prefix + "local function proto_"@ + int_text(p.id as int) + "("@ + params_text(
                p.param_count as nat,
                p.is_vararg,
            ) + ")"@,
        ]
    };
    let tail: Seq<Seq<char>> = if p.is_main {
        Seq::empty()
    } else {
        seq![prefix + "end"@]
    };
    head + constant_lines(p, body, nums) + code_lines(p, body, just_describes, nums, 0)
        + rest_lines(p, body, just_describes, nums, 0) + tail
}

/// The lines of the instructions from index `i` on, each preceded by the
/// child that it opens.
pub open spec fn code_lines(
    p: ProtoModel,
    prefix: Seq<char>,
    just_describes: bool,
    nums: Seq<(u64, Seq<char>)>,
    i: nat,
) -> Seq<Seq<char>>
    decreases p, 0nat, p.code.len() - i,
{
    if i >= p.code.len() {
        Seq::empty()
    } else {
        let child: Seq<Seq<char>> = match opens_child(p.code, i as int, p.protos.len() as int) {
            Some(j) => if 0 <= j < p.protos.len() {
                proto_lines(p.protos[j], prefix, just_describes, nums)
            } else {
                Seq::empty()
            },
            None => Seq::empty(),
        };
        child + seq![instruction_line(p, i as int, prefix, just_describes, nums)] + code_lines(
            p,
            prefix,
            just_describes,
            nums,
            i + 1,
        )
    }
}

/// The children from index `j` on that no closure named.
pub open spec fn rest_lines(
    p: ProtoModel,
    prefix: Seq<char>,
    just_describes: bool,
    nums: Seq<(u64, Seq<char>)>,
    j: nat,
) -> Seq<Seq<char>>
    decreases p, 0nat, p.protos.len() - j,
{
    if j >= p.protos.len() {
        Seq::empty()
    } else {
        let child: Seq<Seq<char>> = if referenced_before(p.code, p.code.len() as int, j as int) {
            Seq::empty()
        } else {
            proto_lines(p.protos[j as int], prefix, just_describes, nums)
        };
        child + rest_lines(p, prefix, just_describes, nums, j + 1)
    }
}

/// The text of each line.
pub open spec fn lines_view(v: Seq<String>) -> Seq<Seq<char>> {
    v.map_values(|l: String| l@)
}

fn push_line(out: &mut Vec<String>, l: String)
    ensures
        lines_view(final(out)@) == lines_view(old(out)@).push(l@),
{
    let ghost before = out@;
    out.push(l);
    assert(lines_view(out@) =~= lines_view(before).push(l@));
}

/// `prefix` followed by `t`.
fn prefixed(prefix: &String, t: &str) -> (r: String)
    ensures
        r@ == prefix@ + t@,
{
    let mut s = prefix.clone();
    push_str(&mut s, t);
    s
}

fn push_padded(s: &mut String, t: &String, w: usize)
    ensures
        final(s)@ == old(s)@ + pad(t@, w as int),
{
    let ghost s0 = s@;
    push_str(s, t.as_str());
    let n: usize = t.as_str().unicode_len();
    let mut k: usize = n;
    while k < w
        invariant
            n == t@.len(),
            n <= k,
            n < w ==> k <= w,
            n >= w ==> k == n,
            s@ == s0 + t@ + spaces((k - n) as nat),
        decreases w - k,
    {
        push_char(s, ' ');
        k = k + 1;
        assert(s@ =~= s0 + t@ + spaces((k - n) as nat));
    }
    if n < w {
        assert(k == w);
    } else {
        assert(spaces(0) =~= Seq::<char>::empty());
        assert(s@ =~= s0 + t@);
    }
    assert(s@ =~= s0 + pad(t@, w as int));
}

fn print_constants(
    proto: &Proto,
    prefix: &String,
    numbers: &Vec<(u64, String)>,
    out: &mut Vec<String>,
)
    ensures
        lines_view(final(out)@) == lines_view(old(out)@) + constant_lines(
            proto@,
            prefix@,
            number_table(numbers@),
        ),
{
    let ghost p = proto@;
    let ghost nums = number_table(numbers@);
    let ghost out0 = lines_view(out@);
    push_line(out, prefixed(prefix, "--[[ constants:"));
    let inner = prefixed(prefix, "    ");
    proof {
        reveal_strlit("    ");
    }
    assert(inner@ =~= prefix@ + indent_unit());
    let ghost entries = Seq::new(
        p.constants.len(),
        |i: int| prefix@ + indent_unit() + int_text(i) + " - "@ + constant_text(p.constants[i], nums),
    );
    let mut i: usize = 0;
    while i < proto.constants.len()
        invariant
            p == proto@,
            nums == number_table(numbers@),
            inner@ == prefix@ + indent_unit(),
            entries.len() == proto.constants.len(),
            entries == Seq::new(
                p.constants.len(),
                |i: int| prefix@ + indent_unit() + int_text(i) + " - "@ + constant_text(
                    p.constants[i],
                    nums,
                ),
            ),
            i <= proto.constants.len(),
            lines_view(out@) == out0 + seq![prefix@ + "--[[ constants:"@] + entries.subrange(
                0,
                i as int,
            ),
        decreases proto.constants.len() - i,
    {
        let mut l = inner.clone();
        push_int(&mut l, i as i128);
        push_str(&mut l, " - ");
        let c = proto.constants[i].format(numbers);
        push_str(&mut l, c.as_str());
        assert(l@ =~= entries[i as int]);
        push_line(out, l);
        i = i + 1;
        assert(entries.subrange(0, i as int) =~= entries.subrange(0, i - 1).push(entries[i - 1]));
        assert(lines_view(out@) =~= out0 + seq![prefix@ + "--[[ constants:"@] + entries.subrange(
            0,
            i as int,
        ));
    }
    assert(entries.subrange(0, i as int) =~= entries);
    push_line(out, prefixed(prefix, "]]"));
    assert(lines_view(out@) =~= out0 + constant_lines(p, prefix@, nums));
}

proof fn lemma_referenced_step(code: Seq<Instruction>, i: int, j: int)
    requires
        0 <= i < code.len(),
    ensures
        referenced_before(code, i + 1, j) <==> (referenced_before(code, i, j) || closure_target(
            code[i].op,
        ) == Some(j)),
{
    if closure_target(code[i].op) == Some(j) {
        assert(0 <= i < i + 1 && closure_target(code[i].op) == Some(j));
    }
    if referenced_before(code, i + 1, j) && closure_target(code[i].op) != Some(j) {
        let k = choose|k: int| 0 <= k < i + 1 && #[trigger] closure_target(code[k].op) == Some(j);
        assert(k < i);
    }
    if referenced_before(code, i, j) {
        let k = choose|k: int| 0 <= k < i && #[trigger] closure_target(code[k].op) == Some(j);
        assert(0 <= k < i + 1);
    }
}

fn push_params(s: &mut String, count: u8, vararg: bool)
    ensures
        final(s)@ == old(s)@ + params_text(count as nat, vararg),
{
    let ghost s0 = s@;
    let mut i: u8 = 0;
    while i < count
        invariant
            i <= count,
            s@ == s0 + args_list(i as nat),
        decreases count - i,
    {
        if i == 0 {
            push_str(s, "arg_");
        } else {
            push_str(s, ", arg_");
        }
        push_int(s, i as i128);
        i = i + 1;
        assert(s@ =~= s0 + args_list(i as nat));
    }
    if vararg {
        if count > 0 {
            push_str(s, ", ...");
        } else {
            push_str(s, "...");
        }
    }
    assert(s@ =~= s0 + params_text(count as nat, vararg));
}

/// The widest tag, in chars.
fn widest(tags: &Vec<String>, Ghost(code): Ghost<Seq<Instruction>>) -> (w: usize)
    requires
        tags@.len() == code.len(),
        forall|k: int| 0 <= k < code.len() ==> #[trigger] tags@[k]@ == op_tag(code[k].op),
    ensures
        w == tag_width(code, code.len()),
{
    let mut w: usize = 0;
    let mut i: usize = 0;
    while i < tags.len()
        invariant
            tags@.len() == code.len(),
            forall|k: int| 0 <= k < code.len() ==> #[trigger] tags@[k]@ == op_tag(code[k].op),
            i <= tags.len(),
            w == tag_width(code, i as nat),
        decreases tags.len() - i,
    {
        let n: usize = tags[i].as_str().unicode_len();
        if n > w {
            w = n;
        }
        i = i + 1;
    }
    w
}

/// Appends the lines for instruction `i`: the child it opens, if any, and
/// its own line; marks the child as printed.
fn print_step(
    proto: &Proto,
    body: &String,
    just_describes: bool,
    numbers: &Vec<(u64, String)>,
    tags: &Vec<String>,
    descs: &Vec<String>,
    index_w: usize,
    tag_w: usize,
    printed: &mut Vec<bool>,
    i: usize,
    out: &mut Vec<String>,
)
    requires
        i < proto.code.len(),
        tags@.len() == proto.code.len(),
        descs@.len() == proto.code.len(),
        forall|k: int|
            0 <= k < proto.code.len() ==> #[trigger] tags@[k]@ == op_tag(proto.code@[k].op),
        forall|k: int|
            0 <= k < proto.code.len() ==> #[trigger] descs@[k]@ == describe_text(
                proto.code@[k].op,
                proto@,
                number_table(numbers@),
                k,
            ),
        index_w == index_width(proto.code.len() as nat),
        tag_w == tag_width(proto.code@, proto.code.len() as nat),
        old(printed)@.len() == proto.protos.len(),
        forall|k: int|
            0 <= k < proto.protos.len() ==> #[trigger] old(printed)@[k] == referenced_before(
                proto@.code,
                i as int,
                k,
            ),
    ensures
        final(printed)@.len() == proto.protos.len(),
        forall|k: int|
            0 <= k < proto.protos.len() ==> #[trigger] final(printed)@[k] == referenced_before(
                proto@.code,
                i + 1,
                k,
            ),
        lines_view(final(out)@) == lines_view(old(out)@) + (match opens_child(
            proto@.code,
            i as int,
            proto@.protos.len() as int,
        ) {
            Some(j) => if 0 <= j < proto@.protos.len() {
                proto_lines(proto@.protos[j], body@, just_describes, number_table(numbers@))
            } else {
                Seq::empty()
            },
            None => Seq::empty(),
        }) + seq![instruction_line(proto@, i as int, body@, just_describes, number_table(numbers@))],
    decreases proto, 0nat, 0nat,
{
    let ghost p = proto@;
    let ghost nums = number_table(numbers@);
    proof {
        lemma_proto_views(proto.protos@);
        assert forall|k: int| 0 <= k < proto.protos.len() implies referenced_before(
            p.code,
            i + 1,
            k,
        ) <==> (referenced_before(p.code, i as int, k) || closure_target(p.code[i as int].op)
            == Some(k)) by {
            lemma_referenced_step(p.code, i as int, k);
        }
    }
    let ghost before = lines_view(out@);
    let op: OpCode = proto.code[i].op;
    let ghost child: Seq<Seq<char>> = match opens_child(p.code, i as int, p.protos.len() as int) {
        Some(j) => if 0 <= j < p.protos.len() {
            proto_lines(p.protos[j], body@, just_describes, nums)
        } else {
            Seq::empty()
        },
        None => Seq::empty(),
    };
    if let OpCode::OpClosure(OpMode::ABX(_, bx)) = op {
        if 0 <= bx && (bx as usize) < proto.protos.len() {
            let b: usize = bx as usize;
            if !printed[b] {
                printed.set(b, true);
                print_proto(&proto.protos[b], body, just_describes, numbers, out);
            }
        }
    }
    assert(lines_view(out@) == before + child);
    let mut l: String = body.clone();
    if just_describes {
        push_str(&mut l, descs[i].as_str());
    } else {
        let idx = crate::text::int_string(i as i128);
        push_padded(&mut l, &idx, index_w);
        push_padded(&mut l, &tags[i], tag_w);
        push_str(&mut l, "  --  ");
        push_str(&mut l, descs[i].as_str());
    }
    assert(l@ =~= instruction_line(p, i as int, body@, just_describes, nums));
    push_line(out, l);
}

fn print_body(
    proto: &Proto,
    body: &String,
    just_describes: bool,
    numbers: &Vec<(u64, String)>,
    tags: &Vec<String>,
    descs: &Vec<String>,
    index_w: usize,
    tag_w: usize,
    out: &mut Vec<String>,
)
    requires
        tags@.len() == proto.code.len(),
        descs@.len() == proto.code.len(),
        forall|k: int|
            0 <= k < proto.code.len() ==> #[trigger] tags@[k]@ == op_tag(proto.code@[k].op),
        forall|k: int|
            0 <= k < proto.code.len() ==> #[trigger] descs@[k]@ == describe_text(
                proto.code@[k].op,
                proto@,
                number_table(numbers@),
                k,
            ),
        index_w == index_width(proto.code.len() as nat),
        tag_w == tag_width(proto.code@, proto.code.len() as nat),
    ensures
        lines_view(final(out)@) == lines_view(old(out)@) + code_lines(
            proto@,
            body@,
            just_describes,
            number_table(numbers@),
            0,
        ) + rest_lines(proto@, body@, just_describes, number_table(numbers@), 0),
    decreases proto, 1nat, 0nat,
{
    let ghost p = proto@;
    let ghost nums = number_table(numbers@);
    let ghost out0 = lines_view(out@);
    proof {
        lemma_proto_views(proto.protos@);
    }
    let mut printed: Vec<bool> = Vec::new();
    let mut j: usize = 0;
    while j < proto.protos.len()
        invariant
            j <= proto.protos.len(),
            printed@.len() == j,
            forall|k: int| 0 <= k < j ==> !#[trigger] printed@[k],
        decreases proto.protos.len() - j,
    {
        printed.push(false);
        j = j + 1;
    }
    let mut i: usize = 0;
    while i < proto.code.len()
        invariant
            p == proto@,
            nums == number_table(numbers@),
            p.code == proto.code@,
            p.protos.len() == proto.protos.len(),
            forall|k: int| 0 <= k < proto.protos.len() ==> #[trigger] p.protos[k] == proto.protos@[k]@,
            tags@.len() == proto.code.len(),
            descs@.len() == proto.code.len(),
            forall|k: int|
                0 <= k < proto.code.len() ==> #[trigger] tags@[k]@ == op_tag(proto.code@[k].op),
            forall|k: int|
                0 <= k < proto.code.len() ==> #[trigger] descs@[k]@ == describe_text(
                    proto.code@[k].op,
                    p,
                    nums,
                    k,
                ),
            index_w == index_width(proto.code.len() as nat),
            tag_w == tag_width(proto.code@, proto.code.len() as nat),
            i <= proto.code.len(),
            printed@.len() == proto.protos.len(),
            forall|k: int|
                0 <= k < proto.protos.len() ==> #[trigger] printed@[k] == referenced_before(
                    p.code,
                    i as int,
                    k,
                ),
            lines_view(out@) + code_lines(p, body@, just_describes, nums, i as nat) == out0
                + code_lines(p, body@, just_describes, nums, 0),
        decreases proto.code.len() - i,
    {
        let ghost before = lines_view(out@);
        print_step(proto, body, just_describes, numbers, tags, descs, index_w, tag_w, &mut printed, i, out);
        i = i + 1;
        assert(lines_view(out@) + code_lines(p, body@, just_describes, nums, i as nat) =~= before
            + code_lines(p, body@, just_describes, nums, (i - 1) as nat));
    }
    let ghost mid = lines_view(out@);
    assert(mid == out0 + code_lines(p, body@, just_describes, nums, 0));
    let mut j: usize = 0;
    while j < proto.protos.len()
        invariant
            p == proto@,
            nums == number_table(numbers@),
            p.code == proto.code@,
            p.protos.len() == proto.protos.len(),
            forall|k: int| 0 <= k < proto.protos.len() ==> #[trigger] p.protos[k] == proto.protos@[k]@,
            printed@.len() == proto.protos.len(),
            forall|k: int|
                0 <= k < proto.protos.len() ==> #[trigger] printed@[k] == referenced_before(
                    p.code,
                    p.code.len() as int,
                    k,
                ),
            j <= proto.protos.len(),
            lines_view(out@) + rest_lines(p, body@, just_describes, nums, j as nat) == mid
                + rest_lines(p, body@, just_describes, nums, 0),
        decreases proto.protos.len() - j,
    {
        let ghost before = lines_view(out@);
        if !printed[j] {
            print_proto(&proto.protos[j], body, just_describes, numbers, out);
        }
        j = j + 1;
        assert(lines_view(out@) + rest_lines(p, body@, just_describes, nums, j as nat) =~= before
            + rest_lines(p, body@, just_describes, nums, (j - 1) as nat));
    }
    assert(lines_view(out@) =~= out0 + code_lines(p, body@, just_describes, nums, 0) + rest_lines(
        p,
        body@,
        just_describes,
        nums,
        0,
    ));
}

/// Appends the listing of `proto` and its nested prototypes to `out`, each
/// line after `prefix`.
fn print_proto(
    proto: &Proto,
    prefix: &String,
    just_describes: bool,
    numbers: &Vec<(u64, String)>,
    out: &mut Vec<String>,
)
    ensures
        lines_view(final(out)@) == lines_view(old(out)@) + proto_lines(
            proto@,
            prefix@,
            just_describes,
            number_table(numbers@),
        ),
    decreases proto, 2nat, 0nat,
{
    let ghost p = proto@;
    let ghost nums = number_table(numbers@);
    let ghost out0 = lines_view(out@);
    let body: String = if proto.is_main {
        prefix.clone()
    } else {
        let mut head = prefixed(prefix, "local function proto_");
        push_int(&mut head, proto.id as i128);
        push_str(&mut head, "(");
        push_params(&mut head, proto.param_count, proto.is_vararg);
        push_str(&mut head, ")");
        push_line(out, head);
        prefixed(prefix, "    ")
    };
    proof {
        reveal_strlit("    ");
    }
    assert(body@ =~= (if p.is_main {
        prefix@
    } else {
        prefix@ + indent_unit()
    }));
    let ghost after_head = lines_view(out@);
    print_constants(proto, &body, numbers, out);
    let mut tags: Vec<String> = Vec::new();
    let mut descs: Vec<String> = Vec::new();
    let mut i: usize = 0;
    while i < proto.code.len()
        invariant
            p == proto@,
            nums == number_table(numbers@),
            i <= proto.code.len(),
            tags@.len() == i,
            descs@.len() == i,
            forall|k: int| 0 <= k < i ==> #[trigger] tags@[k]@ == op_tag(proto.code@[k].op),
            forall|k: int|
                0 <= k < i ==> #[trigger] descs@[k]@ == describe_text(
                    proto.code@[k].op,
                    p,
                    nums,
                    k,
                ),
        decreases proto.code.len() - i,
    {
        let op: OpCode = proto.code[i].op;
        tags.push(op.tag());
        descs.push(op.describe(proto, numbers, i));
        i = i + 1;
    }
    let count_text = crate::text::int_string(proto.code.len() as i128);
    proof {
        lemma_digit_count(proto.code.len() as nat);
    }
    let index_w: usize = count_text.as_str().unicode_len() + 2;
    let tag_w: usize = widest(&tags, Ghost(proto.code@));
    print_body(proto, &body, just_describes, numbers, &tags, &descs, index_w, tag_w, out);
    if !proto.is_main {
        push_line(out, prefixed(prefix, "end"));
    }
    assert(lines_view(out@) =~= out0 + proto_lines(p, prefix@, just_describes, nums));
}

/// A duration in whole seconds, else whole milliseconds, else whole
/// microseconds.
pub open spec fn time_text(nanos: u64) -> Seq<char> {
    if nanos / 1_000_000_000 > 0 {
        int_text((nanos / 1_000_000_000) as int) + " seconds"@
    } else if nanos / 1_000_000 > 0 {
        int_text((nanos / 1_000_000) as int) + " milliseconds"@
    } else {
        int_text((nanos / 1_000) as int) + " microseconds"@
    }
}

/// The text of a duration given in nanoseconds.
pub fn format_time_taken(nanos: u64) -> (r: String)
    ensures
        r@ == time_text(nanos),
{
    let mut s = String::new();
    let seconds: u64 = nanos / 1_000_000_000;
    let milliseconds: u64 = nanos / 1_000_000;
    if seconds > 0 {
        push_int(&mut s, seconds as i128);
        push_str(&mut s, " seconds");
    } else if milliseconds > 0 {
        push_int(&mut s, milliseconds as i128);
        push_str(&mut s, " milliseconds");
    } else {
        push_int(&mut s, (nanos / 1_000) as i128);
        push_str(&mut s, " microseconds");
    }
    assert(s@ =~= time_text(nanos));
    s
}

/// The whole listing of a chunk: a header line with the decoding time, an
/// empty line, then the root prototype and everything nested in it.
pub open spec fn disassembly_lines(
    main: ProtoModel,
    nanos: u64,
    just_describes: bool,
    nums: Seq<(u64, Seq<char>)>,
) -> Seq<Seq<char>> {
    seq!["-- disassembled by inu in "@ + time_text(nanos), Seq::empty()] + proto_lines(
        main,
        Seq::empty(),
        just_describes,
        nums,
    )
}

impl Bytecode {
    /// The disassembly listing, one string per line. With `just_describes`
    /// each instruction line holds only its description. Number constants
    /// take their text from `numbers`.
    pub fn print_disassembly(&self, just_describes: bool, numbers: &Vec<(u64, String)>) -> (r: Vec<
        String,
    >)
        ensures
            lines_view(r@) == disassembly_lines(
                self.main_proto@,
                self.time_taken_nanos,
                just_describes,
                number_table(numbers@),
            ),
    {
        let mut out: Vec<String> = Vec::new();
        let mut head = String::new();
        push_str(&mut head, "-- disassembled by inu in ");
        let t = format_time_taken(self.time_taken_nanos);
        push_str(&mut head, t.as_str());
        push_line(&mut out, head);
        push_line(&mut out, String::new());
        let prefix = String::new();
        print_proto(&self.main_proto, &prefix, just_describes, numbers, &mut out);
        assert(lines_view(out@) =~= disassembly_lines(
            self.main_proto@,
            self.time_taken_nanos,
            just_describes,
            number_table(numbers@),
        ));
        out
    }
}

} // verus!
