//! The code generator: typed syntax to assembly lines. Expressions are
//! compiled for a stack machine — every expression's code nets one pushed
//! 8-byte word — and statements net nothing. The generator tracks the
//! stack offset modulo sixteen and aligns it at every `call`; control-flow
//! labels draw their suffixes from a counter that only grows, so no label
//! is defined twice.
use vstd::prelude::*;

use vstd::arithmetic::div_mod::lemma_add_mod_noop;
use crate::emit::calls_aligned;
use crate::emit::distinct_labels;
use crate::emit::labels_in_range;
use crate::emit::lemma_calls_aligned_append;
use crate::emit::lemma_no_labels_append;
use crate::emit::lemma_no_labels_facts;
use crate::emit::no_labels;
use crate::emit::lemma_distinct_labels_append;
use crate::emit::lemma_rsp_sum_append;
use crate::emit::rsp_delta;
use crate::emit::rsp_sum;
use crate::emit::same_label;
use crate::emit::AsmLine;
use crate::emit::LabelKind;
use crate::emit::Reg;
use crate::emit::SetCond;
use crate::errors::CodegenErrorKind;
use crate::expr::TypedExpr;
use crate::statement::TypedStatement;
use crate::top_level::TypedTopLevel;
use crate::types::Type;

verus! {

/// The frame offset of the k-th local: slots start at 8 and grow by each
/// earlier local's size rounded up to a multiple of 8.
pub open spec fn frame_offset(env: Seq<(String, Type)>, k: int) -> int
    decreases k,
{
    if k <= 0 {
        8
    } else {
        frame_offset(env, k - 1) + round8(env[k - 1].1.spec_size() as int)
    }
}

pub open spec fn round8(n: int) -> int {
    if n % 8 == 0 {
        n
    } else {
        n + 8 - (n % 8)
    }
}

/// The frame bound the generator accepts.
pub open spec fn frame_limit() -> int {
    0x8000_0000
}

/// Rounds a byte count up to the next multiple of 8.
pub fn round_up_as_multiple_of_8(num: usize) -> (r: usize)
    requires
        num <= usize::MAX - 7,
    ensures
        r == round8(num as int),
{
    if num % 8 == 0 {
        num
    } else {
        num + 8 - (num % 8)
    }
}

/// The byte size of a type when it stays under the generator's frame
/// bound.
fn size_within_limit(t: &Type) -> (r: Option<usize>)
    ensures
        match r {
            Some(v) => v == t.spec_size() && t.spec_size() < frame_limit(),
            None => t.spec_size() >= frame_limit(),
        },
    decreases *t,
{
    match t {
        Type::IntTyp => Some(4),
        Type::Pointer(_) => Some(8),
        Type::Array(el, n) => {
            if *n == 0 {
                proof {
                    assert(el.spec_size() * (*n as nat) == 0) by (nonlinear_arith)
                        requires
                            *n == 0,
                    ;
                }
                Some(0)
            } else {
                match size_within_limit(el) {
                    None => {
                        proof {
                            assert(el.spec_size() <= el.spec_size() * (*n as nat))
                                by (nonlinear_arith)
                                requires
                                    *n >= 1,
                            ;
                        }
                        None
                    },
                    Some(se) => {
                        if se == 0 {
                            proof {
                                assert(el.spec_size() * (*n as nat) == 0) by (nonlinear_arith)
                                    requires
                                        el.spec_size() == 0,
                                ;
                            }
                            Some(0)
                        } else if *n > 0x8000_0000usize / se {
                            proof {
                                assert(el.spec_size() * (*n as nat) >= frame_limit())
                                    by (nonlinear_arith)
                                    requires
                                        el.spec_size() == se,
                                        se >= 1,
                                        *n > 0x8000_0000usize / se,
                                        0x8000_0000usize / se == 0x8000_0000int / (se as int),
                                ;
                            }
                            None
                        } else {
                            proof {
                                assert(se * (*n as int) < frame_limit() + se) by (nonlinear_arith)
                                    requires
                                        se >= 1,
                                        *n <= 0x8000_0000int / (se as int),
                                        0x8000_0000usize / se == 0x8000_0000int / (se as int),
                                ;
                                assert(se * (*n as int) <= usize::MAX);
                            }
                            let v = se * *n;
                            if v >= 0x8000_0000usize {
                                None
                            } else {
                                Some(v)
                            }
                        }
                    },
                }
            }
        },
    }
}


/// The slot table the generator builds over a local environment: each
/// name with its frame offset, in declaration order.
pub open spec fn spec_offsets(env: Seq<(String, Type)>) -> Seq<(String, u64)> {
    Seq::new(env.len(), |k: int| (env[k].0, frame_offset(env, k) as u64))
}

/// Frame offsets grow with the index.
proof fn lemma_frame_offset_mono(env: Seq<(String, Type)>, a: int, b: int)
    requires
        0 <= a <= b,
    ensures
        frame_offset(env, a) <= frame_offset(env, b),
    decreases b,
{
    if b > a {
        lemma_frame_offset_mono(env, a, b - 1);
        assert(env[b - 1].1.spec_size() as int >= 0);
        assert(round8(env[b - 1].1.spec_size() as int) >= 0);
    }
}

/// Emits code for one function: its label, prologue, parameter stores,
/// body, and closing epilogue, collected in `out`.
pub struct Function<'a> {
    pub variable_offsets: Vec<(String, u64)>,
    pub variables_offset: u64,
    pub name: &'a String,
    pub params: &'a Vec<(String, Type)>,
    pub body: &'a Vec<TypedStatement>,
    pub fresh_counter: u64,
    pub out: Vec<AsmLine>,
    pub rsp_offset: u64,
}

/// The generator's bookkeeping that expression emission preserves.
pub open spec fn same_shape<'a>(a: Function<'a>, b: Function<'a>) -> bool {
    &&& a.variable_offsets == b.variable_offsets
    &&& a.variables_offset == b.variables_offset
    &&& a.name == b.name
    &&& a.params == b.params
    &&& a.body == b.body
}

proof fn lemma_chunk_push(c: Seq<AsmLine>, x: AsmLine, start: int)
    requires
        calls_aligned(c, start),
        x is Call ==> (start + rsp_sum(c)) % 16 == 0,
    ensures
        calls_aligned(c.push(x), start),
        rsp_sum(c.push(x)) == rsp_sum(c) + rsp_delta(x),
{
    assert(c.push(x).drop_last() =~= c);
    assert forall|i: int| 0 <= i < c.push(x).len() && c.push(x)[i] is Call implies (start + rsp_sum(
        c.push(x).take(i),
    )) % 16 == 0 by {
        if i < c.len() {
            assert(c.push(x).take(i) =~= c.take(i));
            assert(c[i] is Call);
        } else {
            assert(c.push(x).take(i) =~= c);
        }
    }
}

proof fn lemma_labels_push(c: Seq<AsmLine>, x: AsmLine, lo: int, hi: int, hi2: int)
    requires
        distinct_labels(c),
        labels_in_range(c, lo, hi),
        lo <= hi <= hi2,
        x matches AsmLine::Label(_, n) ==> hi < n <= hi2,
    ensures
        distinct_labels(c.push(x)),
        labels_in_range(c.push(x), lo, hi2),
{
    assert forall|i: int, j: int| 0 <= i < j < c.push(x).len() implies !same_label(
        c.push(x)[i],
        c.push(x)[j],
    ) by {
        if j < c.len() {
            assert(c.push(x)[i] == c[i] && c.push(x)[j] == c[j]);
        } else {
            assert(c.push(x)[j] == x);
            assert(c.push(x)[i] == c[i]);
        }
    }
    assert forall|i: int| 0 <= i < c.push(x).len() implies ((#[trigger] c.push(x)[i]) matches
    AsmLine::Label(_, n) ==> lo < n <= hi2) by {
        if i < c.len() {
            assert(c.push(x)[i] == c[i]);
        }
    }
}

/// Alignment only depends on the start offset modulo sixteen.
proof fn lemma_aligned_congruent(s: Seq<AsmLine>, a: int, b: int)
    requires
        a % 16 == b % 16,
        calls_aligned(s, a),
    ensures
        calls_aligned(s, b),
{
    assert forall|i: int| 0 <= i < s.len() && s[i] is Call implies (b + rsp_sum(s.take(i))) % 16
        == 0 by {
        lemma_add_mod_noop(a, rsp_sum(s.take(i)), 16);
        lemma_add_mod_noop(b, rsp_sum(s.take(i)), 16);
        assert((a + rsp_sum(s.take(i))) % 16 == 0);
    }
}


/// A line with no stack effect, no call, and no label: safe anywhere in
/// a chunk.
pub open spec fn zero_effect(l: AsmLine) -> bool {
    rsp_delta(l) == 0 && !(l is Call) && !(l is Label)
}

/// `l` and `r` are the operand subtrees of the binary node `e`.
pub open spec fn is_binary_parts(e: TypedExpr, l: TypedExpr, r: TypedExpr) -> bool {
    match e {
        TypedExpr::Add(_, a, b) => *a == l && *b == r,
        TypedExpr::Sub(_, a, b) => *a == l && *b == r,
        TypedExpr::Mul(_, a, b) => *a == l && *b == r,
        TypedExpr::Div(_, a, b) => *a == l && *b == r,
        TypedExpr::LessThan(a, b) => *a == l && *b == r,
        TypedExpr::LessEqual(a, b) => *a == l && *b == r,
        TypedExpr::Equal(a, b) => *a == l && *b == r,
        TypedExpr::NotEqual(a, b) => *a == l && *b == r,
        TypedExpr::GreaterThan(a, b) => *a == l && *b == r,
        TypedExpr::GreaterEqual(a, b) => *a == l && *b == r,
        _ => false,
    }
}

/// What emitting one expression guarantees: the output grew by a chunk
/// that nets one pushed word, keeps every `call` aligned relative to the
/// tracked offset at entry, defines no label, and leaves the generator's
/// bookkeeping as it was.
pub open spec fn expr_emit_ok<'a>(o: Function<'a>, f: Function<'a>) -> bool {
    &&& f.out@.len() >= o.out@.len()
    &&& f.out@ == o.out@ + f.out@.skip(o.out@.len() as int)
    &&& rsp_sum(f.out@.skip(o.out@.len() as int)) == 8
    &&& calls_aligned(f.out@.skip(o.out@.len() as int), o.rsp_offset as int)
    &&& no_labels(f.out@.skip(o.out@.len() as int))
    &&& f.rsp_offset == o.rsp_offset
    &&& f.fresh_counter == o.fresh_counter
    &&& same_shape(f, o)
}

proof fn lemma_chunk_push_plain(c: Seq<AsmLine>, x: AsmLine, start: int)
    requires
        calls_aligned(c, start),
        no_labels(c),
        !(x is Call),
        !(x is Label),
    ensures
        calls_aligned(c.push(x), start),
        no_labels(c.push(x)),
        rsp_sum(c.push(x)) == rsp_sum(c) + rsp_delta(x),
{
    lemma_chunk_push(c, x, start);
    assert forall|i: int| 0 <= i < c.push(x).len() implies !((#[trigger] c.push(x)[i]) is Label) by {
        if i < c.len() {
            assert(c.push(x)[i] == c[i]);
        }
    }
}

proof fn lemma_zero_chunk(s: Seq<AsmLine>, start: int)
    requires
        forall|i: int| 0 <= i < s.len() ==> zero_effect(#[trigger] s[i]),
    ensures
        rsp_sum(s) == 0,
        calls_aligned(s, start),
        no_labels(s),
    decreases s.len(),
{
    if s.len() > 0 {
        lemma_zero_chunk(s.drop_last(), start);
        assert(zero_effect(s.last()));
        assert forall|i: int| 0 <= i < s.len() && s[i] is Call implies (start + rsp_sum(
            s.take(i),
        )) % 16 == 0 by {
            assert(zero_effect(s[i]));
        }
    }
}


/// No line of `c` defines the label `(k, n)`.
pub open spec fn no_label_with(c: Seq<AsmLine>, k: LabelKind, n: int) -> bool {
    forall|i: int|
        0 <= i < c.len() ==> ((#[trigger] c[i]) matches AsmLine::Label(k2, n2) ==> !(k2 == k && n2
            == n))
}

proof fn lemma_no_label_with_of_range(c: Seq<AsmLine>, k: LabelKind, n: int, lo: int, hi: int)
    requires
        labels_in_range(c, lo, hi),
        n <= lo,
    ensures
        no_label_with(c, k, n),
{
}

proof fn lemma_no_label_with_append(a: Seq<AsmLine>, b: Seq<AsmLine>, k: LabelKind, n: int)
    requires
        no_label_with(a, k, n),
        no_label_with(b, k, n),
    ensures
        no_label_with(a + b, k, n),
{
    assert forall|i: int| 0 <= i < (a + b).len() implies ((#[trigger] (a + b)[i]) matches
    AsmLine::Label(k2, n2) ==> !(k2 == k && n2 == n)) by {
        if i < a.len() {
            assert((a + b)[i] == a[i]);
        } else {
            assert((a + b)[i] == b[i - a.len()]);
        }
    }
}

proof fn lemma_no_label_with_push(c: Seq<AsmLine>, x: AsmLine, k: LabelKind, n: int)
    requires
        no_label_with(c, k, n),
        x matches AsmLine::Label(k2, n2) ==> !(k2 == k && n2 == n),
    ensures
        no_label_with(c.push(x), k, n),
{
    assert forall|i: int| 0 <= i < c.push(x).len() implies ((#[trigger] c.push(x)[i]) matches
    AsmLine::Label(k2, n2) ==> !(k2 == k && n2 == n)) by {
        if i < c.len() {
            assert(c.push(x)[i] == c[i]);
        }
    }
}

/// Appending one label whose identity no earlier line uses keeps the
/// chunk's labels distinct.
proof fn lemma_labels_push_kind(c: Seq<AsmLine>, k: LabelKind, n: int, lo: int, hi: int)
    requires
        distinct_labels(c),
        labels_in_range(c, lo, hi),
        lo < n <= hi,
        0 <= n <= u64::MAX,
        no_label_with(c, k, n),
    ensures
        distinct_labels(c.push(AsmLine::Label(k, n as u64))),
        labels_in_range(c.push(AsmLine::Label(k, n as u64)), lo, hi),
{
    let x = AsmLine::Label(k, n as u64);
    assert(n as u64 as int == n);
    assert forall|i: int, j: int| 0 <= i < j < c.push(x).len() implies !same_label(
        c.push(x)[i],
        c.push(x)[j],
    ) by {
        if j < c.len() {
            assert(c.push(x)[i] == c[i] && c.push(x)[j] == c[j]);
        } else {
            assert(c.push(x)[j] == x);
            assert(c.push(x)[i] == c[i]);
        }
    }
    assert forall|i: int| 0 <= i < c.push(x).len() implies ((#[trigger] c.push(x)[i]) matches
    AsmLine::Label(_, n2) ==> lo < n2 <= hi) by {
        if i < c.len() {
            assert(c.push(x)[i] == c[i]);
        }
    }
}

/// How many control-flow labels one statement needs.
pub open spec fn label_count_st(st: TypedStatement) -> nat
    decreases st,
{
    match st {
        TypedStatement::Expr(_) => 0,
        TypedStatement::Return(_) => 0,
        TypedStatement::VariableDeclaration(_, _) => 0,
        TypedStatement::If(_, s1) => 1 + label_count_st(*s1),
        TypedStatement::IfElse(_, s1, s2) => 1 + label_count_st(*s1) + label_count_st(*s2),
        TypedStatement::While(_, b) => 1 + label_count_st(*b),
        TypedStatement::For(_, _, _, b) => 1 + label_count_st(*b),
        TypedStatement::Block(sts) => label_count_sts(sts@),
    }
}

/// How many control-flow labels a statement sequence needs.
pub open spec fn label_count_sts(sts: Seq<TypedStatement>) -> nat
    decreases sts,
{
    if sts.len() == 0 {
        0
    } else {
        label_count_sts(sts.drop_last()) + label_count_st(sts.last())
    }
}

/// What emitting one statement guarantees: the output grew by a chunk
/// with no net stack effect, aligned calls, and freshly numbered,
/// pairwise distinct labels.
pub open spec fn stmt_emit_ok<'a>(o: Function<'a>, f: Function<'a>) -> bool {
    &&& f.out@.len() >= o.out@.len()
    &&& f.out@ == o.out@ + f.out@.skip(o.out@.len() as int)
    &&& rsp_sum(f.out@.skip(o.out@.len() as int)) == 0
    &&& calls_aligned(f.out@.skip(o.out@.len() as int), o.rsp_offset as int)
    &&& distinct_labels(f.out@.skip(o.out@.len() as int))
    &&& labels_in_range(
        f.out@.skip(o.out@.len() as int),
        o.fresh_counter as int,
        f.fresh_counter as int,
    )
    &&& f.fresh_counter >= o.fresh_counter
    &&& f.rsp_offset == o.rsp_offset
    &&& same_shape(f, o)
}


/// The slot offset registered for a local name, the first entry winning.
pub open spec fn off_lookup(offs: Seq<(String, u64)>, name: Seq<char>) -> Option<u64>
    decreases offs.len(),
{
    if offs.len() == 0 {
        None
    } else if offs[0].0@ == name {
        Some(offs[0].1)
    } else {
        off_lookup(offs.drop_first(), name)
    }
}

/// The tracked stack offset after one 8-byte push or pop.
pub open spec fn spec_flip(rsp: int) -> int {
    (rsp + 8) % 16
}

/// The System V integer parameter register for index `i`.
pub open spec fn spec_param_reg(i: int) -> Reg {
    if i == 0 {
        Reg::Rdi
    } else if i == 1 {
        Reg::Rsi
    } else if i == 2 {
        Reg::Rdx
    } else if i == 3 {
        Reg::Rcx
    } else if i == 4 {
        Reg::R8
    } else {
        Reg::R9
    }
}

/// The middle instructions of a binary node: scaling and operation for
/// `+`/`-`, the multiply or divide sequence, or compare-set-widen.
pub open spec fn spec_binary_ops(e: TypedExpr) -> Seq<AsmLine> {
    match e {
        TypedExpr::Add(_, l, r) | TypedExpr::Sub(_, l, r) => {
            let op = if e is Add {
                AsmLine::AddRegReg(Reg::Rax, Reg::Rdi)
            } else {
                AsmLine::SubRegReg(Reg::Rax, Reg::Rdi)
            };
            let l_ptr = l.spec_get_type() is Pointer;
            let r_ptr = r.spec_get_type() is Pointer;
            if l_ptr && r_ptr {
                seq![op]
            } else if l_ptr {
                seq![AsmLine::ImulRegImm(Reg::Rdi, 8), op]
            } else if r_ptr {
                seq![AsmLine::ImulRegImm(Reg::Rax, 8), op]
            } else {
                seq![op]
            }
        },
        TypedExpr::Mul(_, _, _) => seq![AsmLine::ImulRegReg(Reg::Rax, Reg::Rdi)],
        TypedExpr::Div(_, _, _) => seq![AsmLine::Cqo, AsmLine::IdivReg(Reg::Rdi)],
        TypedExpr::LessThan(_, _) => spec_cmp_ops(SetCond::L),
        TypedExpr::LessEqual(_, _) => spec_cmp_ops(SetCond::Le),
        TypedExpr::Equal(_, _) => spec_cmp_ops(SetCond::E),
        TypedExpr::NotEqual(_, _) => spec_cmp_ops(SetCond::Ne),
        TypedExpr::GreaterThan(_, _) => spec_cmp_ops(SetCond::G),
        TypedExpr::GreaterEqual(_, _) => spec_cmp_ops(SetCond::Ge),
        _ => Seq::empty(),
    }
}

pub open spec fn spec_cmp_ops(c: SetCond) -> Seq<AsmLine> {
    seq![
        AsmLine::CmpRegReg(Reg::Rax, Reg::Rdi),
        AsmLine::SetCc(c, Reg::Al),
        AsmLine::Movzb(Reg::Rax, Reg::Al),
    ]
}

/// Wraps two operand chunks around the pop-operate-push frame of a
/// binary node.
pub open spec fn spec_binary_chunk(c1: Seq<AsmLine>, c2: Seq<AsmLine>, ops: Seq<AsmLine>) -> Seq<
    AsmLine,
> {
    c1 + c2 + seq![AsmLine::PopReg(Reg::Rdi), AsmLine::PopReg(Reg::Rax)] + ops + seq![
        AsmLine::PushReg(Reg::Rax),
    ]
}

/// Exactly the lines the generator emits for an l-value, or the error it
/// reports: the address of a named slot, or the value of a dereferenced
/// operand.
pub open spec fn spec_gen_lvalue(
    e: TypedExpr,
    offs: Seq<(String, u64)>,
    rsp: int,
) -> Result<Seq<AsmLine>, CodegenErrorKind>
    decreases e, 1int,
{
    match e {
        TypedExpr::Variable(_, name) => match off_lookup(offs, name@) {
            Some(off) => Ok(
                seq![
                    AsmLine::MovRegReg(Reg::Rax, Reg::Rbp),
                    AsmLine::SubRegImm(Reg::Rax, off),
                    AsmLine::PushReg(Reg::Rax),
                ],
            ),
            None => Err(CodegenErrorKind::InvalidLValueForm),
        },
        TypedExpr::Dereference(_, inner) => spec_gen_expr(*inner, offs, rsp),
        _ => Err(CodegenErrorKind::InvalidLValueForm),
    }
}

/// Exactly the lines the generator emits for an expression — its value
/// becomes the top 8-byte stack word — or the error it reports, in
/// emission order.
pub open spec fn spec_gen_expr(
    e: TypedExpr,
    offs: Seq<(String, u64)>,
    rsp: int,
) -> Result<Seq<AsmLine>, CodegenErrorKind>
    decreases e, 2int,
{
    match e {
        TypedExpr::IntNum(n) => Ok(seq![AsmLine::PushImm(n as i64)]),
        TypedExpr::Add(_, l, r) | TypedExpr::Sub(_, l, r) | TypedExpr::Mul(_, l, r)
            | TypedExpr::Div(_, l, r) => match spec_gen_expr(*l, offs, rsp) {
            Err(k) => Err(k),
            Ok(c1) => match spec_gen_expr(*r, offs, spec_flip(rsp)) {
                Err(k) => Err(k),
                Ok(c2) => Ok(spec_binary_chunk(c1, c2, spec_binary_ops(e))),
            },
        },
        TypedExpr::LessThan(l, r) | TypedExpr::LessEqual(l, r) | TypedExpr::Equal(l, r)
            | TypedExpr::NotEqual(l, r) | TypedExpr::GreaterThan(l, r) | TypedExpr::GreaterEqual(
            l,
            r,
        ) => match spec_gen_expr(*l, offs, rsp) {
            Err(k) => Err(k),
            Ok(c1) => match spec_gen_expr(*r, offs, spec_flip(rsp)) {
                Err(k) => Err(k),
                Ok(c2) => Ok(spec_binary_chunk(c1, c2, spec_binary_ops(e))),
            },
        },
        TypedExpr::Assign(_, l, r) => match spec_gen_lvalue(*l, offs, rsp) {
            Err(k) => Err(k),
            Ok(c1) => match spec_gen_expr(*r, offs, spec_flip(rsp)) {
                Err(k) => Err(k),
                Ok(c2) => Ok(
                    c1 + c2 + seq![
                        AsmLine::PopReg(Reg::Rdi),
                        AsmLine::PopReg(Reg::Rax),
                        AsmLine::StoreIndirect(
                            Reg::Rax,
                            if r.spec_get_type() is IntTyp {
                                Reg::Edi
                            } else {
                                Reg::Rdi
                            },
                        ),
                        AsmLine::PushReg(Reg::Rdi),
                    ],
                ),
            },
        },
        TypedExpr::Variable(ty, _) => match spec_gen_lvalue(e, offs, rsp) {
            Err(k) => Err(k),
            Ok(c1) => Ok(
                c1 + seq![
                    AsmLine::PopReg(Reg::Rax),
                    AsmLine::Load(
                        if ty is IntTyp {
                            Reg::Eax
                        } else {
                            Reg::Rax
                        },
                        Reg::Rax,
                    ),
                    AsmLine::PushReg(Reg::Rax),
                ],
            ),
        },
        TypedExpr::Address(_, inner) => spec_gen_lvalue(*inner, offs, rsp),
        TypedExpr::Dereference(_, inner) => match spec_gen_expr(*inner, offs, rsp) {
            Err(k) => Err(k),
            Ok(c1) => Ok(
                c1 + seq![
                    AsmLine::PopReg(Reg::Rax),
                    AsmLine::Load(Reg::Rax, Reg::Rax),
                    AsmLine::PushReg(Reg::Rax),
                ],
            ),
        },
        TypedExpr::Sizeof(inner) => match spec_gen_expr(*inner, offs, rsp) {
            Err(k) => Err(k),
            Ok(c1) => {
                if inner.spec_get_type().spec_size() >= frame_limit() {
                    Err(CodegenErrorKind::FrameTooLarge)
                } else {
                    Ok(
                        c1 + seq![
                            AsmLine::PopReg(Reg::Rax),
                            AsmLine::MovRegImm(Reg::Rax, inner.spec_get_type().spec_size() as u64),
                            AsmLine::PushReg(Reg::Rax),
                        ],
                    )
                }
            },
        },
        TypedExpr::FunctionCall(_, name, args) => {
            if args@.len() > 6 {
                Err(CodegenErrorKind::UnsupportedParameterCount)
            } else {
                match spec_gen_args(args@, offs, rsp) {
                    Err(k) => Err(k),
                    Ok(ca) => Ok(
                        ca + spec_pops(args@.len() as int) + seq![
                            AsmLine::SubRegImm(Reg::Rsp, (rsp % 16) as u64),
                            AsmLine::Call(name),
                            AsmLine::AddRegImm(Reg::Rsp, (rsp % 16) as u64),
                            AsmLine::PushReg(Reg::Rax),
                        ],
                    ),
                }
            }
        },
    }
}

/// Argument chunks, left to right, each pushed value raising the tracked
/// offset by one word.
pub open spec fn spec_gen_args(
    args: Seq<TypedExpr>,
    offs: Seq<(String, u64)>,
    rsp: int,
) -> Result<Seq<AsmLine>, CodegenErrorKind>
    decreases args, 0int,
{
    if args.len() == 0 {
        Ok(Seq::empty())
    } else {
        match spec_gen_expr(args[0], offs, rsp) {
            Err(k) => Err(k),
            Ok(c) => match spec_gen_args(args.drop_first(), offs, spec_flip(rsp)) {
                Err(k) => Err(k),
                Ok(rest) => Ok(c + rest),
            },
        }
    }
}

/// The pops that move `n` pushed arguments into the parameter registers,
/// last argument first.
pub open spec fn spec_pops(n: int) -> Seq<AsmLine>
    decreases n,
{
    if n <= 0 {
        Seq::empty()
    } else {
        seq![AsmLine::PopReg(spec_param_reg(n - 1))] + spec_pops(n - 1)
    }
}


/// Puts already-emitted lines before the lines of `r`; an error passes
/// through.
pub open spec fn spec_prepend_lines(
    front: Seq<AsmLine>,
    r: Result<Seq<AsmLine>, CodegenErrorKind>,
) -> Result<Seq<AsmLine>, CodegenErrorKind> {
    match r {
        Ok(rest) => Ok(front + rest),
        Err(k) => Err(k),
    }
}

proof fn lemma_prepend_lines_assoc(
    a: Seq<AsmLine>,
    b: Seq<AsmLine>,
    r: Result<Seq<AsmLine>, CodegenErrorKind>,
)
    ensures
        spec_prepend_lines(a, spec_prepend_lines(b, r)) == spec_prepend_lines(a + b, r),
{
    match r {
        Ok(rest) => {
            assert(a + (b + rest) =~= (a + b) + rest);
        },
        Err(_) => {},
    }
}

/// The emitter's whole promise for one expression: the bookkeeping facts
/// of `expr_emit_ok`, and the appended chunk being exactly the lines
/// `spec_gen_expr` computes.
pub open spec fn emits_expr<'a>(o: Function<'a>, f: Function<'a>, e: TypedExpr) -> bool {
    &&& expr_emit_ok(o, f)
    &&& spec_gen_expr(e, o.variable_offsets@, o.rsp_offset as int) == Ok::<_, CodegenErrorKind>(
        f.out@.skip(o.out@.len() as int),
    )
}

/// As `emits_expr`, for the l-value lines of `spec_gen_lvalue`.
pub open spec fn emits_lvalue<'a>(o: Function<'a>, f: Function<'a>, e: TypedExpr) -> bool {
    &&& expr_emit_ok(o, f)
    &&& spec_gen_lvalue(e, o.variable_offsets@, o.rsp_offset as int) == Ok::<_, CodegenErrorKind>(
        f.out@.skip(o.out@.len() as int),
    )
}


/// Puts already-emitted lines before the chunk of a statement result; an
/// error passes through.
pub open spec fn spec_prepend_stmt(
    front: Seq<AsmLine>,
    r: Result<(Seq<AsmLine>, int), CodegenErrorKind>,
) -> Result<(Seq<AsmLine>, int), CodegenErrorKind> {
    match r {
        Ok(p) => Ok((front + p.0, p.1)),
        Err(k) => Err(k),
    }
}

proof fn lemma_prepend_stmt_assoc(
    a: Seq<AsmLine>,
    b: Seq<AsmLine>,
    r: Result<(Seq<AsmLine>, int), CodegenErrorKind>,
)
    ensures
        spec_prepend_stmt(a, spec_prepend_stmt(b, r)) == spec_prepend_stmt(a + b, r),
{
    match r {
        Ok(p) => {
            assert(a + (b + p.0) =~= (a + b) + p.0);
        },
        Err(_) => {},
    }
}

/// Exactly the lines the generator emits for one statement together with
/// the label counter it leaves behind, or the error it reports.
pub open spec fn spec_gen_statement(
    st: TypedStatement,
    offs: Seq<(String, u64)>,
    rsp: int,
    counter: int,
) -> Result<(Seq<AsmLine>, int), CodegenErrorKind>
    decreases st, 1int,
{
    match st {
        TypedStatement::VariableDeclaration(_, _) => Ok((Seq::empty(), counter)),
        TypedStatement::Expr(e) => match spec_gen_expr(e, offs, rsp) {
            Err(k) => Err(k),
            Ok(c) => Ok((c + seq![AsmLine::PopReg(Reg::Rax)], counter)),
        },
        TypedStatement::Return(e) => match spec_gen_expr(e, offs, rsp) {
            Err(k) => Err(k),
            Ok(c) => Ok((c + seq![AsmLine::PopReg(Reg::Rax), AsmLine::Epilogue], counter)),
        },
        TypedStatement::If(cond, then_st) => {
            let sfx = counter + 1;
            match spec_gen_expr(*cond, offs, rsp) {
                Err(k) => Err(k),
                Ok(ce) => match spec_gen_statement(*then_st, offs, rsp, sfx) {
                    Err(k) => Err(k),
                    Ok(p) => Ok(
                        (
                            ce + seq![
                                AsmLine::PopReg(Reg::Rax),
                                AsmLine::CmpRegImm(Reg::Rax, 0),
                                AsmLine::Je(LabelKind::End, sfx as u64),
                            ] + p.0 + seq![AsmLine::Label(LabelKind::End, sfx as u64)],
                            p.1,
                        ),
                    ),
                },
            }
        },
        TypedStatement::IfElse(cond, then_st, else_st) => {
            let sfx = counter + 1;
            match spec_gen_expr(*cond, offs, rsp) {
                Err(k) => Err(k),
                Ok(ce) => match spec_gen_statement(*then_st, offs, rsp, sfx) {
                    Err(k) => Err(k),
                    Ok(p1) => match spec_gen_statement(*else_st, offs, rsp, p1.1) {
                        Err(k) => Err(k),
                        Ok(p2) => Ok(
                            (
                                ce + seq![
                                    AsmLine::PopReg(Reg::Rax),
                                    AsmLine::CmpRegImm(Reg::Rax, 0),
                                    AsmLine::Je(LabelKind::Else, sfx as u64),
                                ] + p1.0 + seq![
                                    AsmLine::Jmp(LabelKind::End, sfx as u64),
                                    AsmLine::Label(LabelKind::Else, sfx as u64),
                                ] + p2.0 + seq![AsmLine::Label(LabelKind::End, sfx as u64)],
                                p2.1,
                            ),
                        ),
                    },
                },
            }
        },
        TypedStatement::While(cond, body) => {
            let sfx = counter + 1;
            match spec_gen_expr(*cond, offs, rsp) {
                Err(k) => Err(k),
                Ok(ce) => match spec_gen_statement(*body, offs, rsp, sfx) {
                    Err(k) => Err(k),
                    Ok(p) => Ok(
                        (
                            seq![AsmLine::Label(LabelKind::Begin, sfx as u64)] + ce + seq![
                                AsmLine::PopReg(Reg::Rax),
                                AsmLine::CmpRegImm(Reg::Rax, 0),
                                AsmLine::Je(LabelKind::End, sfx as u64),
                            ] + p.0 + seq![
                                AsmLine::Jmp(LabelKind::Begin, sfx as u64),
                                AsmLine::Label(LabelKind::End, sfx as u64),
                            ],
                            p.1,
                        ),
                    ),
                },
            }
        },
        TypedStatement::For(init, cond, update, body) => {
            let sfx = counter + 1;
            match spec_gen_expr(*init, offs, rsp) {
                Err(k) => Err(k),
                Ok(ci) => match spec_gen_expr(*cond, offs, rsp) {
                    Err(k) => Err(k),
                    Ok(cc) => match spec_gen_statement(*body, offs, rsp, sfx) {
                        Err(k) => Err(k),
                        Ok(p) => match spec_gen_expr(*update, offs, rsp) {
                            Err(k) => Err(k),
                            Ok(cu) => Ok(
                                (
                                    ci + seq![AsmLine::PopReg(Reg::Rax)] + seq![
                                        AsmLine::Label(LabelKind::Begin, sfx as u64),
                                    ] + cc + seq![
                                        AsmLine::PopReg(Reg::Rax),
                                        AsmLine::CmpRegImm(Reg::Rax, 0),
                                        AsmLine::Je(LabelKind::End, sfx as u64),
                                    ] + p.0 + cu + seq![
                                        AsmLine::PopReg(Reg::Rax),
                                        AsmLine::Jmp(LabelKind::Begin, sfx as u64),
                                        AsmLine::Label(LabelKind::End, sfx as u64),
                                    ],
                                    p.1,
                                ),
                            ),
                        },
                    },
                },
            }
        },
        TypedStatement::Block(sts) => spec_gen_statements(sts@, offs, rsp, counter),
    }
}

/// The lines of a statement sequence, in order, threading the label
/// counter through.
pub open spec fn spec_gen_statements(
    sts: Seq<TypedStatement>,
    offs: Seq<(String, u64)>,
    rsp: int,
    counter: int,
) -> Result<(Seq<AsmLine>, int), CodegenErrorKind>
    decreases sts, 0int,
{
    if sts.len() == 0 {
        Ok((Seq::empty(), counter))
    } else {
        match spec_gen_statement(sts[0], offs, rsp, counter) {
            Err(k) => Err(k),
            Ok(p) => spec_prepend_stmt(p.0, spec_gen_statements(sts.drop_first(), offs, rsp, p.1)),
        }
    }
}

/// The emitter's whole promise for one statement: the bookkeeping facts
/// of `stmt_emit_ok`, and the chunk and final counter being exactly what
/// `spec_gen_statement` computes.
pub open spec fn emits_stmt<'a>(o: Function<'a>, f: Function<'a>, st: TypedStatement) -> bool {
    &&& stmt_emit_ok(o, f)
    &&& spec_gen_statement(st, o.variable_offsets@, o.rsp_offset as int, o.fresh_counter as int)
        == Ok::<_, CodegenErrorKind>(
        (f.out@.skip(o.out@.len() as int), f.fresh_counter as int),
    )
}


/// The parameter-store lines from index `k` on — each parameter's slot
/// written from its register in declaration order — or the error when a
/// name has no slot.
pub open spec fn spec_param_stores(
    params: Seq<(String, Type)>,
    offs: Seq<(String, u64)>,
    k: int,
) -> Result<Seq<AsmLine>, CodegenErrorKind>
    decreases params.len() - k,
{
    if k < 0 || k >= params.len() {
        Ok(Seq::empty())
    } else {
        match off_lookup(offs, params[k].0@) {
            None => Err(CodegenErrorKind::InvalidLValueForm),
            Some(off) => match spec_param_stores(params, offs, k + 1) {
                Err(k2) => Err(k2),
                Ok(rest) => Ok(seq![AsmLine::StoreLocal(off, spec_param_reg(k))] + rest),
            },
        }
    }
}

/// Exactly the lines `Function::gen` emits for one whole function —
/// directive, label, prologue, parameter stores, lowered body, epilogue —
/// with the label counter it leaves, or the error it reports: more than
/// six parameters are unsupported, and every name must have a slot.
pub open spec fn spec_gen_function(
    name: String,
    params: Seq<(String, Type)>,
    body: Seq<TypedStatement>,
    offs: Seq<(String, u64)>,
    voff: u64,
    counter: int,
) -> Result<(Seq<AsmLine>, int), CodegenErrorKind> {
    if params.len() > 6 {
        Err(CodegenErrorKind::UnsupportedParameterCount)
    } else {
        match spec_param_stores(params, offs, 0) {
            Err(k) => Err(k),
            Ok(stores) => match spec_gen_statements(body, offs, (8 + voff) % 16, counter) {
                Err(k) => Err(k),
                Ok(p) => Ok(
                    (
                        seq![
                            AsmLine::Globl(name),
                            AsmLine::FnLabel(name),
                            AsmLine::PushReg(Reg::Rbp),
                            AsmLine::MovRegReg(Reg::Rbp, Reg::Rsp),
                            AsmLine::SubRegImm(Reg::Rsp, voff),
                        ] + stores + p.0 + seq![AsmLine::Epilogue],
                        p.1,
                    ),
                ),
            },
        }
    }
}

impl<'a> Function<'a> {
    /// The tracked stack offset stays a multiple of 8 below 16.
    pub open spec fn rsp_inv(self) -> bool {
        self.rsp_offset < 16 && self.rsp_offset % 8 == 0
    }

    /// The chunk this generator appended beyond a previous output length.
    pub open spec fn chunk(self, base: int) -> Seq<AsmLine> {
        self.out@.skip(base)
    }

    /// Walks the local environment assigning each name its slot offset in
    /// order; fails when the frame would pass the generator's bound.
    pub fn calc_variable_offset(env: &Vec<(String, Type)>) -> (r: Result<
        (Vec<(String, u64)>, u64),
        CodegenErrorKind,
    >)
        ensures
            match r {
                Ok(p) => {
                    &&& p.0@.len() == env@.len()
                    &&& forall|k: int|
                        0 <= k < env@.len() ==> {
                            &&& (#[trigger] p.0@[k]).0 == env@[k].0
                            &&& p.0@[k].1 == frame_offset(env@, k)
                        }
                    &&& p.1 == frame_offset(env@, env@.len() as int)
                    &&& p.1 < frame_limit()
                },
                Err(k) => k == CodegenErrorKind::FrameTooLarge && frame_offset(
                    env@,
                    env@.len() as int,
                ) >= frame_limit(),
            },
    {
        let mut offset_map: Vec<(String, u64)> = Vec::new();
        let mut offset: u64 = 8;
        let n = env.len();
        let mut i: usize = 0;
        while i < n
            invariant
                n == env@.len(),
                i <= n,
                offset_map@.len() == i,
                forall|k: int|
                    0 <= k < i ==> {
                        &&& (#[trigger] offset_map@[k]).0 == env@[k].0
                        &&& offset_map@[k].1 == frame_offset(env@, k)
                    },
                offset == frame_offset(env@, i as int),
                8 <= offset < frame_limit(),
            decreases n - i,
        {
            let size = match size_within_limit(&env[i].1) {
                Some(v) => v,
                None => {
                    proof {
                        assert(round8(env@[i as int].1.spec_size() as int) >= env@[i as int].1.spec_size() as int);
                        assert(frame_offset(env@, i as int + 1) >= frame_limit());
                        lemma_frame_offset_mono(env@, i as int + 1, env@.len() as int);
                    }
                    return Err(CodegenErrorKind::FrameTooLarge);
                },
            };
            offset_map.push((env[i].0.clone(), offset));
            let rounded = round_up_as_multiple_of_8(size);
            let next = offset + (rounded as u64);
            if next >= 0x8000_0000u64 {
                proof {
                    assert(frame_offset(env@, i as int + 1) >= frame_limit());
                    lemma_frame_offset_mono(env@, i as int + 1, env@.len() as int);
                }
                return Err(CodegenErrorKind::FrameTooLarge);
            }
            offset = next;
            i = i + 1;
        }
        Ok((offset_map, offset))
    }

    /// Sets up a generator for one function over its local environment.
    pub fn new(
        name: &'a String,
        variable_type_environment: &Vec<(String, Type)>,
        params: &'a Vec<(String, Type)>,
        body: &'a Vec<TypedStatement>,
        fresh_counter: u64,
    ) -> (r: Result<Function<'a>, CodegenErrorKind>)
        ensures
            match r {
                Ok(f) => {
                    &&& f.name == name
                    &&& f.params == params
                    &&& f.body == body
                    &&& f.fresh_counter == fresh_counter
                    &&& f.out@ =~= Seq::<AsmLine>::empty()
                    &&& f.rsp_inv()
                    &&& f.rsp_offset == (8 + f.variables_offset as int) % 16
                    &&& f.variable_offsets@ == spec_offsets(variable_type_environment@)
                    &&& f.variables_offset == frame_offset(
                        variable_type_environment@,
                        variable_type_environment@.len() as int,
                    )
                    &&& frame_offset(
                        variable_type_environment@,
                        variable_type_environment@.len() as int,
                    ) < frame_limit()
                },
                Err(k) => k == CodegenErrorKind::FrameTooLarge && frame_offset(
                    variable_type_environment@,
                    variable_type_environment@.len() as int,
                ) >= frame_limit(),
            },
    {
        let (variable_offsets, variables_offset) = match Self::calc_variable_offset(
            variable_type_environment,
        ) {
            Ok(p) => p,
            Err(k) => {
                return Err(k);
            },
        };
        proof {
            lemma_frame_offset_mod8(variable_type_environment@, variable_type_environment@.len() as int);
            assert(variable_offsets@ =~= spec_offsets(variable_type_environment@));
        }
        Ok(
            Function {
                variable_offsets,
                variables_offset,
                name,
                params,
                body,
                fresh_counter,
                out: Vec::new(),
                rsp_offset: (8 + variables_offset) % 16,
            },
        )
    }

    fn emit(&mut self, line: AsmLine)
        ensures
            final(self).out@ == old(self).out@.push(line),
            final(self).rsp_offset == old(self).rsp_offset,
            final(self).fresh_counter == old(self).fresh_counter,
            same_shape(*final(self), *old(self)),
    {
        self.out.push(line);
    }

    /// Flips the tracked offset by one 8-byte push or pop (they agree
    /// modulo sixteen).
    fn flip8(&mut self)
        requires
            old(self).rsp_inv(),
        ensures
            final(self).rsp_offset == (old(self).rsp_offset + 8) % 16,
            final(self).rsp_inv(),
            final(self).out == old(self).out,
            final(self).fresh_counter == old(self).fresh_counter,
            same_shape(*final(self), *old(self)),
    {
        self.rsp_offset = (self.rsp_offset + 8) % 16;
    }

    /// The slot offset recorded for a local.
    fn lookup_offset(&self, name: &String) -> (r: Option<u64>)
        ensures
            r == off_lookup(self.variable_offsets@, name@),
    {
        let offs = &self.variable_offsets;
        let n = offs.len();
        let mut i: usize = 0;
        proof {
            assert(offs@.skip(0) =~= offs@);
        }
        while i < n
            invariant
                n == offs@.len(),
                i <= n,
                offs@ == self.variable_offsets@,
                off_lookup(offs@, name@) == off_lookup(offs@.skip(i as int), name@),
            decreases n - i,
        {
            proof {
                assert(offs@.skip(i as int)[0] == offs@[i as int]);
                assert(offs@.skip(i as int).drop_first() =~= offs@.skip(i as int + 1));
            }
            if offs[i].0 == *name {
                return Some(offs[i].1);
            }
            i = i + 1;
        }
        proof {
            assert(offs@.skip(n as int).len() == 0);
        }
        None
    }

    /// Emits the address of an l-value: a named local or the target of a
    /// dereference. Any other form is an `InvalidLValueForm` error; a name
    /// without a slot is reported the same way.
    pub fn gen_lvalue(&mut self, expr: &TypedExpr) -> (r: Result<(), CodegenErrorKind>)
        requires
            old(self).rsp_inv(),
        ensures
            r is Ok ==> emits_lvalue(*old(self), *final(self), *expr),
            r matches Err(k) ==> spec_gen_lvalue(
                *expr,
                old(self).variable_offsets@,
                old(self).rsp_offset as int,
            ) == Err::<Seq<AsmLine>, _>(k),
        decreases *expr, 1int,
    {
        let ghost base = self.out@.len() as int;
        let ghost o = *self;
        match expr {
            TypedExpr::Variable(_, name) => {
                let offset = match self.lookup_offset(name) {
                    Some(off) => off,
                    None => {
                        return Err(CodegenErrorKind::InvalidLValueForm);
                    },
                };
                proof {
                    assert(self.out@.skip(base) =~= Seq::<AsmLine>::empty());
                    lemma_zero_chunk(Seq::<AsmLine>::empty(), o.rsp_offset as int);
                }
                let ghost c0 = self.out@.skip(base);
                self.emit(AsmLine::MovRegReg(Reg::Rax, Reg::Rbp));
                proof {
                    lemma_chunk_push_plain(c0, AsmLine::MovRegReg(Reg::Rax, Reg::Rbp), o.rsp_offset as int);
                    assert(self.out@.skip(base) =~= c0.push(AsmLine::MovRegReg(Reg::Rax, Reg::Rbp)));
                }
                let ghost c1 = self.out@.skip(base);
                self.emit(AsmLine::SubRegImm(Reg::Rax, offset));
                proof {
                    lemma_chunk_push_plain(c1, AsmLine::SubRegImm(Reg::Rax, offset), o.rsp_offset as int);
                    assert(self.out@.skip(base) =~= c1.push(AsmLine::SubRegImm(Reg::Rax, offset)));
                }
                let ghost c2 = self.out@.skip(base);
                self.emit(AsmLine::PushReg(Reg::Rax));
                proof {
                    lemma_chunk_push_plain(c2, AsmLine::PushReg(Reg::Rax), o.rsp_offset as int);
                    assert(self.out@.skip(base) =~= c2.push(AsmLine::PushReg(Reg::Rax)));
                    assert(self.out@ =~= o.out@ + self.out@.skip(base));
                    assert(self.out@.skip(base) =~= seq![
                        AsmLine::MovRegReg(Reg::Rax, Reg::Rbp),
                        AsmLine::SubRegImm(Reg::Rax, offset),
                        AsmLine::PushReg(Reg::Rax),
                    ]);
                }
                Ok(())
            },
            TypedExpr::Dereference(_, inner) => {
                let r = self.gen_expr(inner);
                proof {
                    if r is Ok {
                        assert(emits_lvalue(o, *self, *expr));
                    }
                }
                r
            },
            _ => Err(CodegenErrorKind::InvalidLValueForm),
        }
    }

    /// Emits both operands, pops them into `rdi` and `rax`, runs the given
    /// effect-free instructions, and pushes `rax`.
    pub fn gen_binary_operation(
        &mut self,
        lhs: &TypedExpr,
        rhs: &TypedExpr,
        ops: Vec<AsmLine>,
        expr: &TypedExpr,
    ) -> (r: Result<(), CodegenErrorKind>)
        requires
            old(self).rsp_inv(),
            is_binary_parts(*expr, *lhs, *rhs),
            ops@ == spec_binary_ops(*expr),
            forall|i: int| 0 <= i < ops@.len() ==> zero_effect(#[trigger] ops@[i]),
        ensures
            r is Ok ==> emits_expr(*old(self), *final(self), *expr),
            r matches Err(k) ==> spec_gen_expr(
                *expr,
                old(self).variable_offsets@,
                old(self).rsp_offset as int,
            ) == Err::<Seq<AsmLine>, _>(k),
        decreases *expr, 0int,
    {
        let ghost base = self.out@.len() as int;
        let ghost o = *self;
        let ghost r0 = o.rsp_offset as int;
        match self.gen_expr(lhs) {
            Ok(_) => {},
            Err(k) => {
                return Err(k);
            },
        }
        let ghost c1 = self.out@.skip(base);
        self.flip8();
        let ghost mid = *self;
        match self.gen_expr(rhs) {
            Ok(_) => {},
            Err(k) => {
                return Err(k);
            },
        }
        let ghost c2 = self.out@.skip(base + c1.len());
        proof {
            lemma_aligned_congruent(c2, mid.rsp_offset as int, r0 + 8);
            lemma_calls_aligned_append(c1, c2, r0);
            lemma_rsp_sum_append(c1, c2);
            lemma_no_labels_append(c1, c2);
            assert(self.out@.skip(base) =~= c1 + c2);
        }
        self.flip8();
        proof {
            assert(self.rsp_offset == o.rsp_offset);
        }
        let ghost c3 = self.out@.skip(base);
        self.emit(AsmLine::PopReg(Reg::Rdi));
        proof {
            lemma_chunk_push_plain(c3, AsmLine::PopReg(Reg::Rdi), r0);
            assert(self.out@.skip(base) =~= c3.push(AsmLine::PopReg(Reg::Rdi)));
        }
        let ghost c4 = self.out@.skip(base);
        self.emit(AsmLine::PopReg(Reg::Rax));
        proof {
            lemma_chunk_push_plain(c4, AsmLine::PopReg(Reg::Rax), r0);
            assert(self.out@.skip(base) =~= c4.push(AsmLine::PopReg(Reg::Rax)));
        }
        let ghost c5 = self.out@.skip(base);
        let ghost opsv = ops@;
        let mut ops = ops;
        self.out.append(&mut ops);
        proof {
            lemma_zero_chunk(opsv, r0 + rsp_sum(c5));
            lemma_calls_aligned_append(c5, opsv, r0);
            lemma_rsp_sum_append(c5, opsv);
            lemma_no_labels_append(c5, opsv);
            assert(self.out@.skip(base) =~= c5 + opsv);
        }
        let ghost c6 = self.out@.skip(base);
        self.emit(AsmLine::PushReg(Reg::Rax));
        proof {
            lemma_chunk_push_plain(c6, AsmLine::PushReg(Reg::Rax), r0);
            assert(self.out@.skip(base) =~= c6.push(AsmLine::PushReg(Reg::Rax)));
            assert(self.out@ =~= o.out@ + self.out@.skip(base));
            assert(self.out@.skip(base) =~= spec_binary_chunk(c1, c2, opsv));
            assert(mid.rsp_offset as int == spec_flip(r0));
            assert(spec_gen_expr(*expr, o.variable_offsets@, r0) == Ok::<_, CodegenErrorKind>(
                spec_binary_chunk(c1, c2, opsv),
            ));
        }
        Ok(())
    }

    /// `+`/`-` with pointer scaling: the integer operand of a pointer sum
    /// is first multiplied by 8. Two pointer operands are emitted
    /// unscaled (the elaborator rejects that combination).
    pub fn gen_add_sub_operation(
        &mut self,
        lhs: &TypedExpr,
        rhs: &TypedExpr,
        is_add: bool,
        expr: &TypedExpr,
    ) -> (r: Result<(), CodegenErrorKind>)
        requires
            old(self).rsp_inv(),
            is_binary_parts(*expr, *lhs, *rhs),
            is_add ==> *expr is Add,
            !is_add ==> *expr is Sub,
        ensures
            r is Ok ==> emits_expr(*old(self), *final(self), *expr),
            r matches Err(k) ==> spec_gen_expr(
                *expr,
                old(self).variable_offsets@,
                old(self).rsp_offset as int,
            ) == Err::<Seq<AsmLine>, _>(k),
        decreases *expr, 1int,
    {
        let op = if is_add {
            AsmLine::AddRegReg(Reg::Rax, Reg::Rdi)
        } else {
            AsmLine::SubRegReg(Reg::Rax, Reg::Rdi)
        };
        let lt = lhs.get_type();
        let rt = rhs.get_type();
        let l_ptr = matches!(lt, Type::Pointer(_));
        let r_ptr = matches!(rt, Type::Pointer(_));
        let mut ops: Vec<AsmLine> = Vec::new();
        if l_ptr && r_ptr {
            ops.push(op);
            proof {
                assert(ops@ =~= seq![op]);
            }
        } else if l_ptr {
            ops.push(AsmLine::ImulRegImm(Reg::Rdi, 8));
            ops.push(op);
            proof {
                assert(ops@ =~= seq![AsmLine::ImulRegImm(Reg::Rdi, 8), op]);
            }
        } else if r_ptr {
            ops.push(AsmLine::ImulRegImm(Reg::Rax, 8));
            ops.push(op);
            proof {
                assert(ops@ =~= seq![AsmLine::ImulRegImm(Reg::Rax, 8), op]);
            }
        } else {
            ops.push(op);
            proof {
                assert(ops@ =~= seq![op]);
            }
        }
        proof {
            assert(ops@ == spec_binary_ops(*expr));
        }
        self.gen_binary_operation(lhs, rhs, ops, expr)
    }

    /// A comparison: compare the operands, set `al` by the condition, and
    /// widen into `rax`.
    pub fn gen_comparator(
        &mut self,
        lhs: &TypedExpr,
        rhs: &TypedExpr,
        cond: SetCond,
        expr: &TypedExpr,
    ) -> (r: Result<(), CodegenErrorKind>)
        requires
            old(self).rsp_inv(),
            is_binary_parts(*expr, *lhs, *rhs),
            spec_binary_ops(*expr) == spec_cmp_ops(cond),
        ensures
            r is Ok ==> emits_expr(*old(self), *final(self), *expr),
            r matches Err(k) ==> spec_gen_expr(
                *expr,
                old(self).variable_offsets@,
                old(self).rsp_offset as int,
            ) == Err::<Seq<AsmLine>, _>(k),
        decreases *expr, 1int,
    {
        let mut ops: Vec<AsmLine> = Vec::new();
        ops.push(AsmLine::CmpRegReg(Reg::Rax, Reg::Rdi));
        ops.push(AsmLine::SetCc(cond, Reg::Al));
        ops.push(AsmLine::Movzb(Reg::Rax, Reg::Al));
        proof {
            assert(ops@ =~= spec_cmp_ops(cond));
        }
        self.gen_binary_operation(lhs, rhs, ops, expr)
    }

    /// Emits one expression: its code leaves the value as the top 8-byte
    /// word of the stack.
    pub fn gen_expr(&mut self, expr: &TypedExpr) -> (r: Result<(), CodegenErrorKind>)
        requires
            old(self).rsp_inv(),
        ensures
            r is Ok ==> emits_expr(*old(self), *final(self), *expr),
            r matches Err(k) ==> spec_gen_expr(
                *expr,
                old(self).variable_offsets@,
                old(self).rsp_offset as int,
            ) == Err::<Seq<AsmLine>, _>(k),
        decreases *expr, 2int,
    {
        let ghost base = self.out@.len() as int;
        let ghost o = *self;
        let ghost r0 = o.rsp_offset as int;
        match expr {
            TypedExpr::IntNum(n) => {
                proof {
                    assert(self.out@.skip(base) =~= Seq::<AsmLine>::empty());
                    lemma_zero_chunk(Seq::<AsmLine>::empty(), r0);
                }
                let ghost c0 = self.out@.skip(base);
                self.emit(AsmLine::PushImm(*n as i64));
                proof {
                    lemma_chunk_push_plain(c0, AsmLine::PushImm(*n as i64), r0);
                    assert(self.out@.skip(base) =~= c0.push(AsmLine::PushImm(*n as i64)));
                    assert(self.out@ =~= o.out@ + self.out@.skip(base));
                    assert(self.out@.skip(base) =~= seq![AsmLine::PushImm(*n as i64)]);
                }
                Ok(())
            },
            TypedExpr::Add(_, lhs, rhs) => self.gen_add_sub_operation(lhs, rhs, true, expr),
            TypedExpr::Sub(_, lhs, rhs) => self.gen_add_sub_operation(lhs, rhs, false, expr),
            TypedExpr::Mul(_, lhs, rhs) => {
                let mut ops: Vec<AsmLine> = Vec::new();
                ops.push(AsmLine::ImulRegReg(Reg::Rax, Reg::Rdi));
                proof {
                    assert(ops@ =~= spec_binary_ops(*expr));
                }
                self.gen_binary_operation(lhs, rhs, ops, expr)
            },
            TypedExpr::Div(_, lhs, rhs) => {
                let mut ops: Vec<AsmLine> = Vec::new();
                ops.push(AsmLine::Cqo);
                ops.push(AsmLine::IdivReg(Reg::Rdi));
                proof {
                    assert(ops@ =~= spec_binary_ops(*expr));
                }
                self.gen_binary_operation(lhs, rhs, ops, expr)
            },
            TypedExpr::LessThan(lhs, rhs) => self.gen_comparator(lhs, rhs, SetCond::L, expr),
            TypedExpr::LessEqual(lhs, rhs) => self.gen_comparator(lhs, rhs, SetCond::Le, expr),
            TypedExpr::Equal(lhs, rhs) => self.gen_comparator(lhs, rhs, SetCond::E, expr),
            TypedExpr::NotEqual(lhs, rhs) => self.gen_comparator(lhs, rhs, SetCond::Ne, expr),
            TypedExpr::GreaterThan(lhs, rhs) => self.gen_comparator(lhs, rhs, SetCond::G, expr),
            TypedExpr::GreaterEqual(lhs, rhs) => self.gen_comparator(lhs, rhs, SetCond::Ge, expr),
            TypedExpr::Assign(_, lhs, rhs) => self.gen_assign(lhs, rhs, expr),
            TypedExpr::Variable(ty, _) => {
                // 4-byte ints load through eax; pointers load the full
                // word, as does an array annotation, which only reaches
                // this arm under `sizeof`, where the value is discarded.
                let load_reg = match ty {
                    Type::IntTyp => Reg::Eax,
                    _ => Reg::Rax,
                };
                match self.gen_lvalue(expr) {
                    Ok(_) => {},
                    Err(k) => {
                        return Err(k);
                    },
                }
                let ghost c1 = self.out@.skip(base);
                self.emit(AsmLine::PopReg(Reg::Rax));
                proof {
                    lemma_chunk_push_plain(c1, AsmLine::PopReg(Reg::Rax), r0);
                    assert(self.out@.skip(base) =~= c1.push(AsmLine::PopReg(Reg::Rax)));
                }
                let ghost c2 = self.out@.skip(base);
                self.emit(AsmLine::Load(load_reg, Reg::Rax));
                proof {
                    lemma_chunk_push_plain(c2, AsmLine::Load(load_reg, Reg::Rax), r0);
                    assert(self.out@.skip(base) =~= c2.push(AsmLine::Load(load_reg, Reg::Rax)));
                }
                let ghost c3 = self.out@.skip(base);
                self.emit(AsmLine::PushReg(Reg::Rax));
                proof {
                    lemma_chunk_push_plain(c3, AsmLine::PushReg(Reg::Rax), r0);
                    assert(self.out@.skip(base) =~= c3.push(AsmLine::PushReg(Reg::Rax)));
                    assert(self.out@ =~= o.out@ + self.out@.skip(base));
                    assert(self.out@.skip(base) =~= c1 + seq![
                        AsmLine::PopReg(Reg::Rax),
                        AsmLine::Load(load_reg, Reg::Rax),
                        AsmLine::PushReg(Reg::Rax),
                    ]);
                }
                Ok(())
            },
            TypedExpr::Address(_, inner) => {
                let r = self.gen_lvalue(inner);
                proof {
                    if r is Ok {
                        assert(emits_expr(o, *self, *expr));
                    }
                }
                r
            },
            TypedExpr::Dereference(_, inner) => {
                match self.gen_expr(inner) {
                    Ok(_) => {},
                    Err(k) => {
                        return Err(k);
                    },
                }
                let ghost c1 = self.out@.skip(base);
                self.emit(AsmLine::PopReg(Reg::Rax));
                proof {
                    lemma_chunk_push_plain(c1, AsmLine::PopReg(Reg::Rax), r0);
                    assert(self.out@.skip(base) =~= c1.push(AsmLine::PopReg(Reg::Rax)));
                }
                let ghost c2 = self.out@.skip(base);
                self.emit(AsmLine::Load(Reg::Rax, Reg::Rax));
                proof {
                    lemma_chunk_push_plain(c2, AsmLine::Load(Reg::Rax, Reg::Rax), r0);
                    assert(self.out@.skip(base) =~= c2.push(AsmLine::Load(Reg::Rax, Reg::Rax)));
                }
                let ghost c3 = self.out@.skip(base);
                self.emit(AsmLine::PushReg(Reg::Rax));
                proof {
                    lemma_chunk_push_plain(c3, AsmLine::PushReg(Reg::Rax), r0);
                    assert(self.out@.skip(base) =~= c3.push(AsmLine::PushReg(Reg::Rax)));
                    assert(self.out@ =~= o.out@ + self.out@.skip(base));
                    assert(self.out@.skip(base) =~= c1 + seq![
                        AsmLine::PopReg(Reg::Rax),
                        AsmLine::Load(Reg::Rax, Reg::Rax),
                        AsmLine::PushReg(Reg::Rax),
                    ]);
                }
                Ok(())
            },
            TypedExpr::Sizeof(inner) => {
                match self.gen_expr(inner) {
                    Ok(_) => {},
                    Err(k) => {
                        return Err(k);
                    },
                }
                let inner_ty = inner.get_type();
                let size = match size_within_limit(&inner_ty) {
                    Some(v) => v,
                    None => {
                        return Err(CodegenErrorKind::FrameTooLarge);
                    },
                };
                let ghost c1 = self.out@.skip(base);
                self.emit(AsmLine::PopReg(Reg::Rax));
                proof {
                    lemma_chunk_push_plain(c1, AsmLine::PopReg(Reg::Rax), r0);
                    assert(self.out@.skip(base) =~= c1.push(AsmLine::PopReg(Reg::Rax)));
                }
                let ghost c2 = self.out@.skip(base);
                self.emit(AsmLine::MovRegImm(Reg::Rax, size as u64));
                proof {
                    lemma_chunk_push_plain(c2, AsmLine::MovRegImm(Reg::Rax, size as u64), r0);
                    assert(self.out@.skip(base) =~= c2.push(
                        AsmLine::MovRegImm(Reg::Rax, size as u64),
                    ));
                }
                let ghost c3 = self.out@.skip(base);
                self.emit(AsmLine::PushReg(Reg::Rax));
                proof {
                    lemma_chunk_push_plain(c3, AsmLine::PushReg(Reg::Rax), r0);
                    assert(self.out@.skip(base) =~= c3.push(AsmLine::PushReg(Reg::Rax)));
                    assert(self.out@ =~= o.out@ + self.out@.skip(base));
                    assert(self.out@.skip(base) =~= c1 + seq![
                        AsmLine::PopReg(Reg::Rax),
                        AsmLine::MovRegImm(Reg::Rax, size as u64),
                        AsmLine::PushReg(Reg::Rax),
                    ]);
                }
                Ok(())
            },
            TypedExpr::FunctionCall(_, name, args) => self.gen_function_call(
                name,
                args,
                expr,
            ),
        }
    }

    /// An assignment: the target's address, then the value, then the
    /// sized store; the stored value stays pushed as the result.
    #[verifier::rlimit(100)]
    #[verifier::spinoff_prover]
    fn gen_assign(&mut self, lhs: &TypedExpr, rhs: &TypedExpr, expr: &TypedExpr) -> (r: Result<
        (),
        CodegenErrorKind,
    >)
        requires
            old(self).rsp_inv(),
            *expr matches TypedExpr::Assign(_, l, r2) && *l == *lhs && *r2 == *rhs,
        ensures
            r is Ok ==> emits_expr(*old(self), *final(self), *expr),
            r matches Err(k) ==> spec_gen_expr(
                *expr,
                old(self).variable_offsets@,
                old(self).rsp_offset as int,
            ) == Err::<Seq<AsmLine>, _>(k),
        decreases *expr, 1int,
    {
        let ghost base = self.out@.len() as int;
        let ghost o = *self;
        let ghost r0 = o.rsp_offset as int;

        match self.gen_lvalue(lhs) {
            Ok(_) => {},
            Err(k) => {
                return Err(k);
            },
        }
        let ghost c1 = self.out@.skip(base);
        self.flip8();
        let ghost mid = *self;
        match self.gen_expr(rhs) {
            Ok(_) => {},
            Err(k) => {
                return Err(k);
            },
        }
        let ghost c2 = self.out@.skip(base + c1.len());
        proof {
            lemma_aligned_congruent(c2, mid.rsp_offset as int, r0 + 8);
            lemma_calls_aligned_append(c1, c2, r0);
            lemma_rsp_sum_append(c1, c2);
            lemma_no_labels_append(c1, c2);
            assert(self.out@.skip(base) =~= c1 + c2);
        }
        self.flip8();
        let store_reg = match rhs.get_type() {
            Type::IntTyp => Reg::Edi,
            _ => Reg::Rdi,
        };
        let ghost c3 = self.out@.skip(base);
        self.emit(AsmLine::PopReg(Reg::Rdi));
        proof {
            lemma_chunk_push_plain(c3, AsmLine::PopReg(Reg::Rdi), r0);
            assert(self.out@.skip(base) =~= c3.push(AsmLine::PopReg(Reg::Rdi)));
        }
        let ghost c4 = self.out@.skip(base);
        self.emit(AsmLine::PopReg(Reg::Rax));
        proof {
            lemma_chunk_push_plain(c4, AsmLine::PopReg(Reg::Rax), r0);
            assert(self.out@.skip(base) =~= c4.push(AsmLine::PopReg(Reg::Rax)));
        }
        let ghost c5 = self.out@.skip(base);
        self.emit(AsmLine::StoreIndirect(Reg::Rax, store_reg));
        proof {
            lemma_chunk_push_plain(c5, AsmLine::StoreIndirect(Reg::Rax, store_reg), r0);
            assert(self.out@.skip(base) =~= c5.push(
                AsmLine::StoreIndirect(Reg::Rax, store_reg),
            ));
        }
        let ghost c6 = self.out@.skip(base);
        self.emit(AsmLine::PushReg(Reg::Rdi));
        proof {
            lemma_chunk_push_plain(c6, AsmLine::PushReg(Reg::Rdi), r0);
            assert(self.out@.skip(base) =~= c6.push(AsmLine::PushReg(Reg::Rdi)));
            assert(self.out@ =~= o.out@ + self.out@.skip(base));
            assert(mid.rsp_offset as int == spec_flip(r0));
            assert(self.out@.skip(base) =~= c1 + c2 + seq![
                AsmLine::PopReg(Reg::Rdi),
                AsmLine::PopReg(Reg::Rax),
                AsmLine::StoreIndirect(Reg::Rax, store_reg),
                AsmLine::PushReg(Reg::Rdi),
            ]);
        }
        Ok(())
    }

    /// Emits the argument expressions of a call, left to right, each
    /// pushing one word.
    fn gen_call_args(&mut self, args: &Vec<TypedExpr>, expr: &TypedExpr) -> (r: Result<
        (),
        CodegenErrorKind,
    >)
        requires
            old(self).rsp_inv(),
            *expr matches TypedExpr::FunctionCall(_, _, a2) && a2 == *args,
            args@.len() <= 6,
        ensures
            r is Ok ==> ({
                let chunk = final(self).out@.skip(old(self).out@.len() as int);
                &&& final(self).out@ == old(self).out@ + chunk
                &&& rsp_sum(chunk) == 8 * args@.len()
                &&& calls_aligned(chunk, old(self).rsp_offset as int)
                &&& no_labels(chunk)
                &&& final(self).rsp_offset == (old(self).rsp_offset + 8 * args@.len()) % 16
                &&& final(self).rsp_inv()
                &&& final(self).fresh_counter == old(self).fresh_counter
                &&& same_shape(*final(self), *old(self))
                &&& spec_gen_args(args@, old(self).variable_offsets@, old(self).rsp_offset as int)
                    == Ok::<_, CodegenErrorKind>(chunk)
            }),
            r matches Err(k) ==> spec_gen_args(
                args@,
                old(self).variable_offsets@,
                old(self).rsp_offset as int,
            ) == Err::<Seq<AsmLine>, _>(k),
        decreases *expr, 0int,
    {
        let ghost base = self.out@.len() as int;
        let ghost o = *self;
        let ghost r0 = o.rsp_offset as int;
        let ghost argsv = args@;
        let ghost offsv = o.variable_offsets@;
        let count = args.len();
        let mut i: usize = 0;
        proof {
            assert(self.out@.skip(base) =~= Seq::<AsmLine>::empty());
            lemma_zero_chunk(Seq::<AsmLine>::empty(), r0);
            assert(argsv.skip(0) =~= argsv);
            match spec_gen_args(argsv, offsv, r0) {
                Ok(rest) => {
                    assert(Seq::<AsmLine>::empty() + rest =~= rest);
                },
                Err(_) => {},
            }
        }
        while i < count
            invariant
                o == *old(self),
                self.rsp_inv(),
                args@ == argsv,
                offsv == o.variable_offsets@,
                count == argsv.len(),
                count <= 6,
                i <= count,
                base <= self.out@.len(),
                *expr matches TypedExpr::FunctionCall(_, _, a2) && a2@ == argsv,
                self.out@ == o.out@ + self.out@.skip(base),
                base == o.out@.len(),
                o.rsp_inv(),
                r0 == o.rsp_offset,
                rsp_sum(self.out@.skip(base)) == 8 * i,
                calls_aligned(self.out@.skip(base), r0),
                no_labels(self.out@.skip(base)),
                self.rsp_offset == (r0 + 8 * i) % 16,
                spec_gen_args(argsv, offsv, r0) == spec_prepend_lines(
                    self.out@.skip(base),
                    spec_gen_args(argsv.skip(i as int), offsv, self.rsp_offset as int),
                ),
                self.fresh_counter == o.fresh_counter,
                same_shape(*self, o),
            decreases count - i,
        {
            let ghost c_pre = self.out@.skip(base);
            let ghost before = *self;
            proof {
                match expr {
                    TypedExpr::FunctionCall(_, _, a3) => {
                        assert(a3@[i as int] == argsv[i as int]);
                    },
                    _ => {
                        assert(false);
                    },
                }
                assert(argsv.skip(i as int)[0] == argsv[i as int]);
                assert(argsv.skip(i as int).drop_first() =~= argsv.skip(i as int + 1));
            }
            match self.gen_expr(&args[i]) {
                Ok(_) => {},
                Err(k) => {
                    proof {
                        assert(spec_gen_args(argsv.skip(i as int), offsv, before.rsp_offset as int)
                            == Err::<Seq<AsmLine>, _>(k));
                        assert(spec_gen_args(argsv, offsv, r0) == Err::<Seq<AsmLine>, _>(k));
                    }
                    return Err(k);
                },
            }
            let ghost c_arg = self.out@.skip(base + c_pre.len());
            proof {
                lemma_aligned_congruent(c_arg, before.rsp_offset as int, r0 + 8 * i);
                lemma_calls_aligned_append(c_pre, c_arg, r0);
                lemma_rsp_sum_append(c_pre, c_arg);
                lemma_no_labels_append(c_pre, c_arg);
                assert(self.out@.skip(base) =~= c_pre + c_arg);
                assert(self.out@ =~= o.out@ + self.out@.skip(base));
            }
            self.flip8();
            proof {
                lemma_add_mod_noop(r0 + 8 * i, 8, 16);
                lemma_add_mod_noop(r0 + 8 * i, 0, 16);
                assert(self.rsp_offset == (r0 + 8 * (i + 1)) % 16);
                assert(spec_gen_args(argsv.skip(i as int), offsv, before.rsp_offset as int)
                    == spec_prepend_lines(
                    c_arg,
                    spec_gen_args(argsv.skip(i as int + 1), offsv, self.rsp_offset as int),
                ));
                lemma_prepend_lines_assoc(
                    c_pre,
                    c_arg,
                    spec_gen_args(argsv.skip(i as int + 1), offsv, self.rsp_offset as int),
                );
            }
            i = i + 1;
        }
        proof {
            assert(argsv.skip(count as int).len() == 0);
            assert(spec_gen_args(argsv.skip(count as int), offsv, self.rsp_offset as int)
                == Ok::<_, CodegenErrorKind>(Seq::<AsmLine>::empty()));
            assert(self.out@.skip(base) + Seq::<AsmLine>::empty() =~= self.out@.skip(base));
        }
        Ok(())
    }

    /// Pops `count` pushed arguments into the parameter registers, last
    /// argument first.
    fn gen_call_pops(&mut self, count: usize)
        requires
            old(self).rsp_inv(),
            count <= 6,
        ensures
            ({
                let chunk = final(self).out@.skip(old(self).out@.len() as int);
                &&& final(self).out@ == old(self).out@ + chunk
                &&& chunk == spec_pops(count as int)
                &&& rsp_sum(chunk) == -8 * count
                &&& calls_aligned(chunk, old(self).rsp_offset as int)
                &&& no_labels(chunk)
                &&& final(self).rsp_offset == (old(self).rsp_offset + 8 * count) % 16
                &&& final(self).rsp_inv()
                &&& final(self).fresh_counter == old(self).fresh_counter
                &&& same_shape(*final(self), *old(self))
            }),
    {
        let ghost base = self.out@.len() as int;
        let ghost o = *self;
        let ghost r0 = o.rsp_offset as int;
        let mut j: usize = count;
        proof {
            assert(self.out@.skip(base) =~= Seq::<AsmLine>::empty());
            lemma_zero_chunk(Seq::<AsmLine>::empty(), r0);
            assert(spec_pops(count as int) =~= Seq::<AsmLine>::empty() + spec_pops(count as int));
            lemma_add_mod_noop(r0, 0, 16);
        }
        while j > 0
            invariant
                self.rsp_inv(),
                count <= 6,
                j <= count,
                base <= self.out@.len(),
                self.out@ == o.out@ + self.out@.skip(base),
                base == o.out@.len(),
                o.rsp_inv(),
                r0 == o.rsp_offset,
                rsp_sum(self.out@.skip(base)) == -8 * (count - j),
                calls_aligned(self.out@.skip(base), r0),
                no_labels(self.out@.skip(base)),
                self.rsp_offset == (r0 + 8 * (count - j)) % 16,
                spec_pops(count as int) == self.out@.skip(base) + spec_pops(j as int),
                self.fresh_counter == o.fresh_counter,
                same_shape(*self, o),
            decreases j,
        {
            j = j - 1;
            let reg = param_reg(j);
            let ghost c_pre = self.out@.skip(base);
            self.emit(AsmLine::PopReg(reg));
            proof {
                lemma_chunk_push_plain(c_pre, AsmLine::PopReg(reg), r0);
                assert(self.out@.skip(base) =~= c_pre.push(AsmLine::PopReg(reg)));
                assert(self.out@ =~= o.out@ + self.out@.skip(base));
                assert(spec_pops(j as int + 1) == seq![AsmLine::PopReg(spec_param_reg(j as int))]
                    + spec_pops(j as int));
                assert(c_pre.push(AsmLine::PopReg(reg)) =~= c_pre + seq![
                    AsmLine::PopReg(spec_param_reg(j as int)),
                ]);
                assert(c_pre + seq![AsmLine::PopReg(spec_param_reg(j as int))] + spec_pops(j as int)
                    =~= c_pre + (seq![AsmLine::PopReg(spec_param_reg(j as int))] + spec_pops(
                    j as int,
                )));
                assert(spec_pops(count as int) == self.out@.skip(base) + spec_pops(j as int));
            }
            self.flip8();
            proof {
                lemma_add_mod_noop(r0 + 8 * (count - j - 1), 8, 16);
                lemma_add_mod_noop(r0 + 8 * (count - j), 0, 16);
                assert(self.rsp_offset == (r0 + 8 * (count - j)) % 16);
            }
        }
        proof {
            assert(spec_pops(0int) == Seq::<AsmLine>::empty());
            assert(self.out@.skip(base) + Seq::<AsmLine>::empty() =~= self.out@.skip(base));
            assert(self.out@.skip(base) == spec_pops(count as int));
        }
    }

    /// A call: arguments left to right, popped into the parameter
    /// registers in reverse, the stack aligned around the `call`, and the
    /// returned `rax` pushed.
    #[verifier::rlimit(100)]
    #[verifier::spinoff_prover]
    fn gen_function_call(
        &mut self,
        name: &String,
        args: &Vec<TypedExpr>,
        expr: &TypedExpr,
    ) -> (r: Result<(), CodegenErrorKind>)
        requires
            old(self).rsp_inv(),
            *expr matches TypedExpr::FunctionCall(_, n2, a2) && n2 == name && a2 == *args,
        ensures
            r is Ok ==> emits_expr(*old(self), *final(self), *expr),
            r matches Err(k) ==> spec_gen_expr(
                *expr,
                old(self).variable_offsets@,
                old(self).rsp_offset as int,
            ) == Err::<Seq<AsmLine>, _>(k),
        decreases *expr, 1int,
    {
        let ghost base = self.out@.len() as int;
        let ghost o = *self;
        let ghost r0 = o.rsp_offset as int;
        let ghost offsv = o.variable_offsets@;

        if args.len() > 6 {
            return Err(CodegenErrorKind::UnsupportedParameterCount);
        }
        let count = args.len();
        match self.gen_call_args(args, expr) {
            Ok(_) => {},
            Err(k) => {
                proof {
                    assert(spec_gen_expr(*expr, offsv, r0) == Err::<Seq<AsmLine>, _>(k));
                }
                return Err(k);
            },
        }
        let ghost args_chunk = self.out@.skip(base);
        let ghost mid = *self;
        self.gen_call_pops(count);
        let ghost pops_chunk = self.out@.skip(base + args_chunk.len());
        proof {
            lemma_aligned_congruent(pops_chunk, mid.rsp_offset as int, r0 + 8 * count);
            lemma_calls_aligned_append(args_chunk, pops_chunk, r0);
            lemma_rsp_sum_append(args_chunk, pops_chunk);
            lemma_no_labels_append(args_chunk, pops_chunk);
            assert(self.out@.skip(base) =~= args_chunk + pops_chunk);
            lemma_add_mod_noop(r0 + 8 * count, 8 * count, 16);
            lemma_add_mod_noop(r0, 16 * count, 16);
            lemma_add_mod_noop(r0, 0, 16);
            assert(self.rsp_offset == r0);
        }
        let m = self.rsp_offset % 16;
        let ghost c_pre = self.out@.skip(base);
        self.emit(AsmLine::SubRegImm(Reg::Rsp, m));
        proof {
            lemma_chunk_push_plain(c_pre, AsmLine::SubRegImm(Reg::Rsp, m), r0);
            assert(self.out@.skip(base) =~= c_pre.push(AsmLine::SubRegImm(Reg::Rsp, m)));
        }
        let ghost c_call = self.out@.skip(base);
        let call_line = AsmLine::Call(name.clone());
        let ghost call_ghost = call_line;
        self.emit(call_line);
        proof {
            assert(rsp_sum(c_call) == m);
            assert((r0 + rsp_sum(c_call)) % 16 == 0);
            lemma_chunk_push(c_call, call_ghost, r0);
            assert(self.out@.skip(base) =~= c_call.push(call_ghost));
            assert forall|k2: int|
                0 <= k2 < self.out@.skip(base).len() implies !((#[trigger] self.out@.skip(
                base,
            )[k2]) is Label) by {
                if k2 < c_call.len() {
                    assert(self.out@.skip(base)[k2] == c_call[k2]);
                }
            }
        }
        let ghost c_after = self.out@.skip(base);
        self.emit(AsmLine::AddRegImm(Reg::Rsp, m));
        proof {
            lemma_chunk_push_plain(c_after, AsmLine::AddRegImm(Reg::Rsp, m), r0);
            assert(self.out@.skip(base) =~= c_after.push(AsmLine::AddRegImm(Reg::Rsp, m)));
        }
        let ghost c_push = self.out@.skip(base);
        self.emit(AsmLine::PushReg(Reg::Rax));
        proof {
            lemma_chunk_push_plain(c_push, AsmLine::PushReg(Reg::Rax), r0);
            assert(self.out@.skip(base) =~= c_push.push(AsmLine::PushReg(Reg::Rax)));
            assert(self.out@ =~= o.out@ + self.out@.skip(base));
            assert(call_ghost == AsmLine::Call(*name));
            assert((r0 % 16) as u64 == m);
            assert(self.out@.skip(base) =~= args_chunk + spec_pops(count as int) + seq![
                AsmLine::SubRegImm(Reg::Rsp, (r0 % 16) as u64),
                AsmLine::Call(*name),
                AsmLine::AddRegImm(Reg::Rsp, (r0 % 16) as u64),
                AsmLine::PushReg(Reg::Rax),
            ]);
            assert(spec_gen_expr(*expr, offsv, r0) == Ok::<_, CodegenErrorKind>(self.out@.skip(
                base,
            )));
        }
        Ok(())
    }

    /// Draws a fresh label suffix; the counter only grows.
    fn get_fresh_suffix(&mut self) -> (r: u64)
        requires
            old(self).fresh_counter < u64::MAX,
        ensures
            final(self).fresh_counter == old(self).fresh_counter + 1,
            r == final(self).fresh_counter,
            final(self).out == old(self).out,
            final(self).rsp_offset == old(self).rsp_offset,
            same_shape(*final(self), *old(self)),
    {
        self.fresh_counter = self.fresh_counter + 1;
        self.fresh_counter
    }

    /// Emits one statement: no net stack effect, aligned calls, fresh
    /// and distinct labels.
    pub fn gen_statement(&mut self, statement: &TypedStatement) -> (r: Result<
        (),
        CodegenErrorKind,
    >)
        requires
            old(self).rsp_inv(),
            old(self).fresh_counter + label_count_st(*statement) <= u64::MAX,
        ensures
            r is Ok ==> emits_stmt(*old(self), *final(self), *statement),
            r is Ok ==> final(self).fresh_counter <= old(self).fresh_counter + label_count_st(
                *statement,
            ),
            r matches Err(k) ==> spec_gen_statement(
                *statement,
                old(self).variable_offsets@,
                old(self).rsp_offset as int,
                old(self).fresh_counter as int,
            ) == Err::<(Seq<AsmLine>, int), _>(k),
        decreases *statement, 1int,
    {
        let ghost base = self.out@.len() as int;
        let ghost o = *self;
        let ghost r0 = o.rsp_offset as int;
        let ghost c0 = o.fresh_counter as int;
        match statement {
            TypedStatement::VariableDeclaration(_, _) => {
                proof {
                    assert(self.out@.skip(base) =~= Seq::<AsmLine>::empty());
                    lemma_zero_chunk(Seq::<AsmLine>::empty(), r0);
                    lemma_no_labels_facts(Seq::<AsmLine>::empty(), c0, c0);
                    assert(self.out@ =~= o.out@ + self.out@.skip(base));
                    assert(spec_gen_statement(*statement, o.variable_offsets@, r0, c0)
                        == Ok::<_, CodegenErrorKind>((Seq::<AsmLine>::empty(), c0)));
                }
                Ok(())
            },
            TypedStatement::Expr(expr) => {
                match self.gen_expr(expr) {
                    Ok(_) => {},
                    Err(k) => {
                        return Err(k);
                    },
                }
                let ghost c1 = self.out@.skip(base);
                self.emit(AsmLine::PopReg(Reg::Rax));
                proof {
                    lemma_chunk_push_plain(c1, AsmLine::PopReg(Reg::Rax), r0);
                    assert(self.out@.skip(base) =~= c1.push(AsmLine::PopReg(Reg::Rax)));
                    lemma_no_labels_facts(self.out@.skip(base), c0, c0);
                    assert(self.out@ =~= o.out@ + self.out@.skip(base));
                    assert(self.out@.skip(base) =~= c1 + seq![AsmLine::PopReg(Reg::Rax)]);
                }
                Ok(())
            },
            TypedStatement::Return(expr) => {
                match self.gen_expr(expr) {
                    Ok(_) => {},
                    Err(k) => {
                        return Err(k);
                    },
                }
                let ghost c1 = self.out@.skip(base);
                self.emit(AsmLine::PopReg(Reg::Rax));
                proof {
                    lemma_chunk_push_plain(c1, AsmLine::PopReg(Reg::Rax), r0);
                    assert(self.out@.skip(base) =~= c1.push(AsmLine::PopReg(Reg::Rax)));
                }
                let ghost c2 = self.out@.skip(base);
                self.emit(AsmLine::Epilogue);
                proof {
                    lemma_chunk_push_plain(c2, AsmLine::Epilogue, r0);
                    assert(self.out@.skip(base) =~= c2.push(AsmLine::Epilogue));
                    lemma_no_labels_facts(self.out@.skip(base), c0, c0);
                    assert(self.out@ =~= o.out@ + self.out@.skip(base));
                    assert(self.out@.skip(base) =~= c1 + seq![
                        AsmLine::PopReg(Reg::Rax),
                        AsmLine::Epilogue,
                    ]);
                }
                Ok(())
            },
            TypedStatement::If(cond, then_st) => self.gen_if(cond, then_st, statement),
            TypedStatement::IfElse(cond, then_st, else_st) => self.gen_if_else(
                cond,
                then_st,
                else_st,
                statement,
            ),
            TypedStatement::While(cond, body) => self.gen_while(cond, body, statement),
            TypedStatement::For(init, cond, update, body) => self.gen_for(
                init,
                cond,
                update,
                body,
                statement,
            ),
            TypedStatement::Block(statements) => {
                let r = self.gen_statements(statements);
                proof {
                    if r is Ok {
                        assert(emits_stmt(o, *self, *statement));
                    }
                }
                r
            },
        }
    }


    #[verifier::rlimit(100)]
    #[verifier::spinoff_prover]
    fn gen_if(&mut self, cond: &TypedExpr, then_st: &TypedStatement, statement: &TypedStatement) -> (r: Result<
        (),
        CodegenErrorKind,
    >)
        requires
            old(self).rsp_inv(),
            old(self).fresh_counter + label_count_st(*statement) <= u64::MAX,
            *statement matches TypedStatement::If(c2, t2) && *c2 == *cond && *t2 == *then_st,
        ensures
            r is Ok ==> emits_stmt(*old(self), *final(self), *statement),
            r is Ok ==> final(self).fresh_counter <= old(self).fresh_counter + label_count_st(
                *statement,
            ),
            r matches Err(k) ==> spec_gen_statement(
                *statement,
                old(self).variable_offsets@,
                old(self).rsp_offset as int,
                old(self).fresh_counter as int,
            ) == Err::<(Seq<AsmLine>, int), _>(k),
        decreases *statement, 0int,
    {
        let ghost base = self.out@.len() as int;
        let ghost o = *self;
        let ghost r0 = o.rsp_offset as int;
        let ghost c0 = o.fresh_counter as int;

        let suffix = self.get_fresh_suffix();
        match self.gen_expr(cond) {
            Ok(_) => {},
            Err(k) => {
                return Err(k);
            },
        }
        let ghost c1 = self.out@.skip(base);
        self.emit(AsmLine::PopReg(Reg::Rax));
        proof {
            lemma_chunk_push_plain(c1, AsmLine::PopReg(Reg::Rax), r0);
            assert(self.out@.skip(base) =~= c1.push(AsmLine::PopReg(Reg::Rax)));
        }
        let ghost c2 = self.out@.skip(base);
        self.emit(AsmLine::CmpRegImm(Reg::Rax, 0));
        proof {
            lemma_chunk_push_plain(c2, AsmLine::CmpRegImm(Reg::Rax, 0), r0);
            assert(self.out@.skip(base) =~= c2.push(AsmLine::CmpRegImm(Reg::Rax, 0)));
        }
        let ghost c3 = self.out@.skip(base);
        self.emit(AsmLine::Je(LabelKind::End, suffix));
        proof {
            lemma_chunk_push_plain(c3, AsmLine::Je(LabelKind::End, suffix), r0);
            assert(self.out@.skip(base) =~= c3.push(AsmLine::Je(LabelKind::End, suffix)));
            lemma_no_labels_facts(self.out@.skip(base), c0, c0 + 1);
        }
        let ghost c4 = self.out@.skip(base);
        let ghost mid = *self;
        match self.gen_statement(then_st) {
            Ok(_) => {},
            Err(k) => {
                return Err(k);
            },
        }
        let ghost c5 = self.out@.skip(base + c4.len());
        let ghost cm = self.fresh_counter as int;
        proof {
            lemma_calls_aligned_append(c4, c5, r0);
            lemma_rsp_sum_append(c4, c5);
            lemma_distinct_labels_append(c4, c5, c0, c0 + 1, cm);
            assert(no_label_with(c4, LabelKind::End, suffix as int)) by {
                assert(labels_in_range(c4, c0 + 1, c0 + 1));
                lemma_no_label_with_of_range(
                    c4,
                    LabelKind::End,
                    suffix as int,
                    c0 + 1,
                    c0 + 1,
                );
            }
            lemma_no_label_with_of_range(c5, LabelKind::End, suffix as int, c0 + 1, cm);
            lemma_no_label_with_append(c4, c5, LabelKind::End, suffix as int);
            assert(self.out@.skip(base) =~= c4 + c5);
        }
        let ghost c6 = self.out@.skip(base);
        self.emit(AsmLine::Label(LabelKind::End, suffix));
        proof {
            lemma_chunk_push(c6, AsmLine::Label(LabelKind::End, suffix), r0);
            lemma_labels_push_kind(c6, LabelKind::End, suffix as int, c0, cm);
            assert(self.out@.skip(base) =~= c6.push(AsmLine::Label(LabelKind::End, suffix)));
            assert(self.out@ =~= o.out@ + self.out@.skip(base));
            assert(self.out@.skip(base) =~= c1 + seq![
                AsmLine::PopReg(Reg::Rax),
                AsmLine::CmpRegImm(Reg::Rax, 0),
                AsmLine::Je(LabelKind::End, suffix),
            ] + c5 + seq![AsmLine::Label(LabelKind::End, suffix)]);
            assert((c0 + 1) as u64 == suffix);
            assert(spec_gen_statement(*statement, o.variable_offsets@, r0, c0)
                == Ok::<_, CodegenErrorKind>((self.out@.skip(base), cm)));
        }
        Ok(())
    }

    #[verifier::rlimit(100)]
    #[verifier::spinoff_prover]
    fn gen_if_else(&mut self, cond: &TypedExpr, then_st: &TypedStatement, else_st: &TypedStatement, statement: &TypedStatement) -> (r: Result<
        (),
        CodegenErrorKind,
    >)
        requires
            old(self).rsp_inv(),
            old(self).fresh_counter + label_count_st(*statement) <= u64::MAX,
            *statement matches TypedStatement::IfElse(c2, t2, e2) && *c2 == *cond && *t2 == *then_st && *e2 == *else_st,
        ensures
            r is Ok ==> emits_stmt(*old(self), *final(self), *statement),
            r is Ok ==> final(self).fresh_counter <= old(self).fresh_counter + label_count_st(
                *statement,
            ),
            r matches Err(k) ==> spec_gen_statement(
                *statement,
                old(self).variable_offsets@,
                old(self).rsp_offset as int,
                old(self).fresh_counter as int,
            ) == Err::<(Seq<AsmLine>, int), _>(k),
        decreases *statement, 0int,
    {
        let ghost base = self.out@.len() as int;
        let ghost o = *self;
        let ghost r0 = o.rsp_offset as int;
        let ghost c0 = o.fresh_counter as int;

        let suffix = self.get_fresh_suffix();
        match self.gen_expr(cond) {
            Ok(_) => {},
            Err(k) => {
                return Err(k);
            },
        }
        let ghost c1 = self.out@.skip(base);
        self.emit(AsmLine::PopReg(Reg::Rax));
        proof {
            lemma_chunk_push_plain(c1, AsmLine::PopReg(Reg::Rax), r0);
            assert(self.out@.skip(base) =~= c1.push(AsmLine::PopReg(Reg::Rax)));
        }
        let ghost c2 = self.out@.skip(base);
        self.emit(AsmLine::CmpRegImm(Reg::Rax, 0));
        proof {
            lemma_chunk_push_plain(c2, AsmLine::CmpRegImm(Reg::Rax, 0), r0);
            assert(self.out@.skip(base) =~= c2.push(AsmLine::CmpRegImm(Reg::Rax, 0)));
        }
        let ghost c3 = self.out@.skip(base);
        self.emit(AsmLine::Je(LabelKind::Else, suffix));
        proof {
            lemma_chunk_push_plain(c3, AsmLine::Je(LabelKind::Else, suffix), r0);
            assert(self.out@.skip(base) =~= c3.push(AsmLine::Je(LabelKind::Else, suffix)));
            lemma_no_labels_facts(self.out@.skip(base), c0, c0 + 1);
        }
        let ghost c4 = self.out@.skip(base);
        match self.gen_statement(then_st) {
            Ok(_) => {},
            Err(k) => {
                return Err(k);
            },
        }
        let ghost c5 = self.out@.skip(base + c4.len());
        let ghost cm = self.fresh_counter as int;
        proof {
            lemma_calls_aligned_append(c4, c5, r0);
            lemma_rsp_sum_append(c4, c5);
            lemma_distinct_labels_append(c4, c5, c0, c0 + 1, cm);
            assert(labels_in_range(c4, c0 + 1, c0 + 1));
            lemma_no_label_with_of_range(c4, LabelKind::Else, suffix as int, c0 + 1, c0 + 1);
            lemma_no_label_with_of_range(c4, LabelKind::End, suffix as int, c0 + 1, c0 + 1);
            lemma_no_label_with_of_range(c5, LabelKind::Else, suffix as int, c0 + 1, cm);
            lemma_no_label_with_of_range(c5, LabelKind::End, suffix as int, c0 + 1, cm);
            lemma_no_label_with_append(c4, c5, LabelKind::Else, suffix as int);
            lemma_no_label_with_append(c4, c5, LabelKind::End, suffix as int);
            assert(self.out@.skip(base) =~= c4 + c5);
        }
        let ghost c6 = self.out@.skip(base);
        self.emit(AsmLine::Jmp(LabelKind::End, suffix));
        proof {
            lemma_chunk_push(c6, AsmLine::Jmp(LabelKind::End, suffix), r0);
            lemma_labels_push(
                c6,
                AsmLine::Jmp(LabelKind::End, suffix),
                c0,
                cm,
                cm,
            );
            lemma_no_label_with_push(
                c6,
                AsmLine::Jmp(LabelKind::End, suffix),
                LabelKind::Else,
                suffix as int,
            );
            lemma_no_label_with_push(
                c6,
                AsmLine::Jmp(LabelKind::End, suffix),
                LabelKind::End,
                suffix as int,
            );
            assert(self.out@.skip(base) =~= c6.push(AsmLine::Jmp(LabelKind::End, suffix)));
        }
        let ghost c7 = self.out@.skip(base);
        self.emit(AsmLine::Label(LabelKind::Else, suffix));
        proof {
            lemma_chunk_push(c7, AsmLine::Label(LabelKind::Else, suffix), r0);
            lemma_labels_push_kind(c7, LabelKind::Else, suffix as int, c0, cm);
            lemma_no_label_with_push(
                c7,
                AsmLine::Label(LabelKind::Else, suffix),
                LabelKind::End,
                suffix as int,
            );
            assert(self.out@.skip(base) =~= c7.push(
                AsmLine::Label(LabelKind::Else, suffix),
            ));
        }
        let ghost c8 = self.out@.skip(base);
        let ghost mid2 = *self;
        match self.gen_statement(else_st) {
            Ok(_) => {},
            Err(k) => {
                return Err(k);
            },
        }
        let ghost c9 = self.out@.skip(base + c8.len());
        let ghost cm2 = self.fresh_counter as int;
        proof {
            lemma_calls_aligned_append(c8, c9, r0);
            lemma_rsp_sum_append(c8, c9);
            lemma_distinct_labels_append(c8, c9, c0, cm, cm2);
            lemma_no_label_with_of_range(c9, LabelKind::End, suffix as int, cm, cm2);
            lemma_no_label_with_append(c8, c9, LabelKind::End, suffix as int);
            assert(self.out@.skip(base) =~= c8 + c9);
        }
        let ghost c10 = self.out@.skip(base);
        self.emit(AsmLine::Label(LabelKind::End, suffix));
        proof {
            lemma_chunk_push(c10, AsmLine::Label(LabelKind::End, suffix), r0);
            lemma_labels_push_kind(c10, LabelKind::End, suffix as int, c0, cm2);
            assert(self.out@.skip(base) =~= c10.push(
                AsmLine::Label(LabelKind::End, suffix),
            ));
            assert(self.out@ =~= o.out@ + self.out@.skip(base));
            assert(self.out@.skip(base) =~= c1 + seq![
                AsmLine::PopReg(Reg::Rax),
                AsmLine::CmpRegImm(Reg::Rax, 0),
                AsmLine::Je(LabelKind::Else, suffix),
            ] + c5 + seq![
                AsmLine::Jmp(LabelKind::End, suffix),
                AsmLine::Label(LabelKind::Else, suffix),
            ] + c9 + seq![AsmLine::Label(LabelKind::End, suffix)]);
            assert((c0 + 1) as u64 == suffix);
            assert(spec_gen_statement(*statement, o.variable_offsets@, r0, c0)
                == Ok::<_, CodegenErrorKind>((self.out@.skip(base), cm2)));
        }
        Ok(())
    }

    #[verifier::rlimit(100)]
    #[verifier::spinoff_prover]
    fn gen_while(&mut self, cond: &TypedExpr, body: &TypedStatement, statement: &TypedStatement) -> (r: Result<
        (),
        CodegenErrorKind,
    >)
        requires
            old(self).rsp_inv(),
            old(self).fresh_counter + label_count_st(*statement) <= u64::MAX,
            *statement matches TypedStatement::While(c2, b2) && *c2 == *cond && *b2 == *body,
        ensures
            r is Ok ==> emits_stmt(*old(self), *final(self), *statement),
            r is Ok ==> final(self).fresh_counter <= old(self).fresh_counter + label_count_st(
                *statement,
            ),
            r matches Err(k) ==> spec_gen_statement(
                *statement,
                old(self).variable_offsets@,
                old(self).rsp_offset as int,
                old(self).fresh_counter as int,
            ) == Err::<(Seq<AsmLine>, int), _>(k),
        decreases *statement, 0int,
    {
        let ghost base = self.out@.len() as int;
        let ghost o = *self;
        let ghost r0 = o.rsp_offset as int;
        let ghost c0 = o.fresh_counter as int;

        let suffix = self.get_fresh_suffix();
        proof {
            assert(self.out@.skip(base) =~= Seq::<AsmLine>::empty());
            lemma_zero_chunk(Seq::<AsmLine>::empty(), r0);
            lemma_no_labels_facts(Seq::<AsmLine>::empty(), c0, c0 + 1);
            lemma_no_label_with_of_range(
                Seq::<AsmLine>::empty(),
                LabelKind::End,
                suffix as int,
                c0 + 1,
                c0 + 1,
            );
        }
        let ghost cb = self.out@.skip(base);
        self.emit(AsmLine::Label(LabelKind::Begin, suffix));
        proof {
            lemma_chunk_push(cb, AsmLine::Label(LabelKind::Begin, suffix), r0);
            lemma_labels_push_kind(cb, LabelKind::Begin, suffix as int, c0, c0 + 1);
            lemma_no_label_with_push(
                cb,
                AsmLine::Label(LabelKind::Begin, suffix),
                LabelKind::End,
                suffix as int,
            );
            assert(self.out@.skip(base) =~= cb.push(
                AsmLine::Label(LabelKind::Begin, suffix),
            ));
        }
        let ghost cb1 = self.out@.skip(base);
        match self.gen_expr(cond) {
            Ok(_) => {},
            Err(k) => {
                return Err(k);
            },
        }
        let ghost ce = self.out@.skip(base + cb1.len());
        proof {
            lemma_calls_aligned_append(cb1, ce, r0);
            lemma_rsp_sum_append(cb1, ce);
            lemma_no_labels_facts(ce, c0 + 1, c0 + 1);
            lemma_distinct_labels_append(cb1, ce, c0, c0 + 1, c0 + 1);
            lemma_no_label_with_of_range(ce, LabelKind::End, suffix as int, c0 + 1, c0 + 1);
            lemma_no_label_with_append(cb1, ce, LabelKind::End, suffix as int);
            assert(self.out@.skip(base) =~= cb1 + ce);
        }
        let ghost c1 = self.out@.skip(base);
        self.emit(AsmLine::PopReg(Reg::Rax));
        proof {
            lemma_chunk_push(c1, AsmLine::PopReg(Reg::Rax), r0);
            lemma_labels_push(c1, AsmLine::PopReg(Reg::Rax), c0, c0 + 1, c0 + 1);
            lemma_no_label_with_push(
                c1,
                AsmLine::PopReg(Reg::Rax),
                LabelKind::End,
                suffix as int,
            );
            assert(self.out@.skip(base) =~= c1.push(AsmLine::PopReg(Reg::Rax)));
        }
        let ghost c2 = self.out@.skip(base);
        self.emit(AsmLine::CmpRegImm(Reg::Rax, 0));
        proof {
            lemma_chunk_push(c2, AsmLine::CmpRegImm(Reg::Rax, 0), r0);
            lemma_labels_push(c2, AsmLine::CmpRegImm(Reg::Rax, 0), c0, c0 + 1, c0 + 1);
            lemma_no_label_with_push(
                c2,
                AsmLine::CmpRegImm(Reg::Rax, 0),
                LabelKind::End,
                suffix as int,
            );
            assert(self.out@.skip(base) =~= c2.push(AsmLine::CmpRegImm(Reg::Rax, 0)));
        }
        let ghost c3 = self.out@.skip(base);
        self.emit(AsmLine::Je(LabelKind::End, suffix));
        proof {
            lemma_chunk_push(c3, AsmLine::Je(LabelKind::End, suffix), r0);
            lemma_labels_push(c3, AsmLine::Je(LabelKind::End, suffix), c0, c0 + 1, c0 + 1);
            lemma_no_label_with_push(
                c3,
                AsmLine::Je(LabelKind::End, suffix),
                LabelKind::End,
                suffix as int,
            );
            assert(self.out@.skip(base) =~= c3.push(AsmLine::Je(LabelKind::End, suffix)));
        }
        let ghost c4 = self.out@.skip(base);
        match self.gen_statement(body) {
            Ok(_) => {},
            Err(k) => {
                return Err(k);
            },
        }
        let ghost c5 = self.out@.skip(base + c4.len());
        let ghost cm = self.fresh_counter as int;
        proof {
            lemma_calls_aligned_append(c4, c5, r0);
            lemma_rsp_sum_append(c4, c5);
            lemma_distinct_labels_append(c4, c5, c0, c0 + 1, cm);
            lemma_no_label_with_of_range(c5, LabelKind::End, suffix as int, c0 + 1, cm);
            lemma_no_label_with_append(c4, c5, LabelKind::End, suffix as int);
            assert(self.out@.skip(base) =~= c4 + c5);
        }
        let ghost c6 = self.out@.skip(base);
        self.emit(AsmLine::Jmp(LabelKind::Begin, suffix));
        proof {
            lemma_chunk_push(c6, AsmLine::Jmp(LabelKind::Begin, suffix), r0);
            lemma_labels_push(c6, AsmLine::Jmp(LabelKind::Begin, suffix), c0, cm, cm);
            lemma_no_label_with_push(
                c6,
                AsmLine::Jmp(LabelKind::Begin, suffix),
                LabelKind::End,
                suffix as int,
            );
            assert(self.out@.skip(base) =~= c6.push(AsmLine::Jmp(LabelKind::Begin, suffix)));
        }
        let ghost c7 = self.out@.skip(base);
        self.emit(AsmLine::Label(LabelKind::End, suffix));
        proof {
            lemma_chunk_push(c7, AsmLine::Label(LabelKind::End, suffix), r0);
            lemma_labels_push_kind(c7, LabelKind::End, suffix as int, c0, cm);
            assert(self.out@.skip(base) =~= c7.push(AsmLine::Label(LabelKind::End, suffix)));
            assert(self.out@ =~= o.out@ + self.out@.skip(base));
            assert(self.out@.skip(base) =~= seq![AsmLine::Label(LabelKind::Begin, suffix)] + ce
                + seq![
                AsmLine::PopReg(Reg::Rax),
                AsmLine::CmpRegImm(Reg::Rax, 0),
                AsmLine::Je(LabelKind::End, suffix),
            ] + c5 + seq![
                AsmLine::Jmp(LabelKind::Begin, suffix),
                AsmLine::Label(LabelKind::End, suffix),
            ]);
            assert((c0 + 1) as u64 == suffix);
            assert(spec_gen_statement(*statement, o.variable_offsets@, r0, c0)
                == Ok::<_, CodegenErrorKind>((self.out@.skip(base), cm)));
        }
        Ok(())
    }

    #[verifier::rlimit(100)]
    #[verifier::spinoff_prover]
    fn gen_for(&mut self, init: &TypedExpr, cond: &TypedExpr, update: &TypedExpr, body: &TypedStatement, statement: &TypedStatement) -> (r: Result<
        (),
        CodegenErrorKind,
    >)
        requires
            old(self).rsp_inv(),
            old(self).fresh_counter + label_count_st(*statement) <= u64::MAX,
            *statement matches TypedStatement::For(i2, c2, u2, b2) && *i2 == *init && *c2 == *cond && *u2 == *update && *b2 == *body,
        ensures
            r is Ok ==> emits_stmt(*old(self), *final(self), *statement),
            r is Ok ==> final(self).fresh_counter <= old(self).fresh_counter + label_count_st(
                *statement,
            ),
            r matches Err(k) ==> spec_gen_statement(
                *statement,
                old(self).variable_offsets@,
                old(self).rsp_offset as int,
                old(self).fresh_counter as int,
            ) == Err::<(Seq<AsmLine>, int), _>(k),
        decreases *statement, 0int,
    {
        let ghost base = self.out@.len() as int;
        let ghost o = *self;
        let ghost r0 = o.rsp_offset as int;
        let ghost c0 = o.fresh_counter as int;

        let suffix = self.get_fresh_suffix();
        match self.gen_expr(init) {
            Ok(_) => {},
            Err(k) => {
                return Err(k);
            },
        }
        let ghost ci = self.out@.skip(base);
        self.emit(AsmLine::PopReg(Reg::Rax));
        proof {
            lemma_chunk_push_plain(ci, AsmLine::PopReg(Reg::Rax), r0);
            assert(self.out@.skip(base) =~= ci.push(AsmLine::PopReg(Reg::Rax)));
            lemma_no_labels_facts(self.out@.skip(base), c0, c0 + 1);
            lemma_no_label_with_of_range(
                self.out@.skip(base),
                LabelKind::End,
                suffix as int,
                c0 + 1,
                c0 + 1,
            );
            assert(labels_in_range(self.out@.skip(base), c0 + 1, c0 + 1));
        }
        let ghost cb = self.out@.skip(base);
        self.emit(AsmLine::Label(LabelKind::Begin, suffix));
        proof {
            lemma_chunk_push(cb, AsmLine::Label(LabelKind::Begin, suffix), r0);
            lemma_labels_push_kind(cb, LabelKind::Begin, suffix as int, c0, c0 + 1);
            lemma_no_label_with_push(
                cb,
                AsmLine::Label(LabelKind::Begin, suffix),
                LabelKind::End,
                suffix as int,
            );
            assert(self.out@.skip(base) =~= cb.push(
                AsmLine::Label(LabelKind::Begin, suffix),
            ));
        }
        let ghost cb1 = self.out@.skip(base);
        match self.gen_expr(cond) {
            Ok(_) => {},
            Err(k) => {
                return Err(k);
            },
        }
        let ghost ce = self.out@.skip(base + cb1.len());
        proof {
            lemma_calls_aligned_append(cb1, ce, r0);
            lemma_rsp_sum_append(cb1, ce);
            lemma_no_labels_facts(ce, c0 + 1, c0 + 1);
            lemma_distinct_labels_append(cb1, ce, c0, c0 + 1, c0 + 1);
            lemma_no_label_with_of_range(ce, LabelKind::End, suffix as int, c0 + 1, c0 + 1);
            lemma_no_label_with_append(cb1, ce, LabelKind::End, suffix as int);
            assert(self.out@.skip(base) =~= cb1 + ce);
        }
        let ghost c1 = self.out@.skip(base);
        self.emit(AsmLine::PopReg(Reg::Rax));
        proof {
            lemma_chunk_push(c1, AsmLine::PopReg(Reg::Rax), r0);
            lemma_labels_push(c1, AsmLine::PopReg(Reg::Rax), c0, c0 + 1, c0 + 1);
            lemma_no_label_with_push(
                c1,
                AsmLine::PopReg(Reg::Rax),
                LabelKind::End,
                suffix as int,
            );
            assert(self.out@.skip(base) =~= c1.push(AsmLine::PopReg(Reg::Rax)));
        }
        let ghost c2 = self.out@.skip(base);
        self.emit(AsmLine::CmpRegImm(Reg::Rax, 0));
        proof {
            lemma_chunk_push(c2, AsmLine::CmpRegImm(Reg::Rax, 0), r0);
            lemma_labels_push(c2, AsmLine::CmpRegImm(Reg::Rax, 0), c0, c0 + 1, c0 + 1);
            lemma_no_label_with_push(
                c2,
                AsmLine::CmpRegImm(Reg::Rax, 0),
                LabelKind::End,
                suffix as int,
            );
            assert(self.out@.skip(base) =~= c2.push(AsmLine::CmpRegImm(Reg::Rax, 0)));
        }
        let ghost c3 = self.out@.skip(base);
        self.emit(AsmLine::Je(LabelKind::End, suffix));
        proof {
            lemma_chunk_push(c3, AsmLine::Je(LabelKind::End, suffix), r0);
            lemma_labels_push(c3, AsmLine::Je(LabelKind::End, suffix), c0, c0 + 1, c0 + 1);
            lemma_no_label_with_push(
                c3,
                AsmLine::Je(LabelKind::End, suffix),
                LabelKind::End,
                suffix as int,
            );
            assert(self.out@.skip(base) =~= c3.push(AsmLine::Je(LabelKind::End, suffix)));
        }
        let ghost c4 = self.out@.skip(base);
        match self.gen_statement(body) {
            Ok(_) => {},
            Err(k) => {
                return Err(k);
            },
        }
        let ghost c5 = self.out@.skip(base + c4.len());
        let ghost cm = self.fresh_counter as int;
        proof {
            lemma_calls_aligned_append(c4, c5, r0);
            lemma_rsp_sum_append(c4, c5);
            lemma_distinct_labels_append(c4, c5, c0, c0 + 1, cm);
            lemma_no_label_with_of_range(c5, LabelKind::End, suffix as int, c0 + 1, cm);
            lemma_no_label_with_append(c4, c5, LabelKind::End, suffix as int);
            assert(self.out@.skip(base) =~= c4 + c5);
        }
        let ghost c6 = self.out@.skip(base);
        match self.gen_expr(update) {
            Ok(_) => {},
            Err(k) => {
                return Err(k);
            },
        }
        let ghost c7 = self.out@.skip(base + c6.len());
        proof {
            lemma_calls_aligned_append(c6, c7, r0);
            lemma_rsp_sum_append(c6, c7);
            lemma_no_labels_facts(c7, cm, cm);
            lemma_distinct_labels_append(c6, c7, c0, cm, cm);
            lemma_no_label_with_of_range(c7, LabelKind::End, suffix as int, cm, cm);
            lemma_no_label_with_append(c6, c7, LabelKind::End, suffix as int);
            assert(self.out@.skip(base) =~= c6 + c7);
        }
        let ghost c8 = self.out@.skip(base);
        self.emit(AsmLine::PopReg(Reg::Rax));
        proof {
            lemma_chunk_push(c8, AsmLine::PopReg(Reg::Rax), r0);
            lemma_labels_push(c8, AsmLine::PopReg(Reg::Rax), c0, cm, cm);
            lemma_no_label_with_push(
                c8,
                AsmLine::PopReg(Reg::Rax),
                LabelKind::End,
                suffix as int,
            );
            assert(self.out@.skip(base) =~= c8.push(AsmLine::PopReg(Reg::Rax)));
        }
        let ghost c9 = self.out@.skip(base);
        self.emit(AsmLine::Jmp(LabelKind::Begin, suffix));
        proof {
            lemma_chunk_push(c9, AsmLine::Jmp(LabelKind::Begin, suffix), r0);
            lemma_labels_push(c9, AsmLine::Jmp(LabelKind::Begin, suffix), c0, cm, cm);
            lemma_no_label_with_push(
                c9,
                AsmLine::Jmp(LabelKind::Begin, suffix),
                LabelKind::End,
                suffix as int,
            );
            assert(self.out@.skip(base) =~= c9.push(AsmLine::Jmp(LabelKind::Begin, suffix)));
        }
        let ghost c10 = self.out@.skip(base);
        self.emit(AsmLine::Label(LabelKind::End, suffix));
        proof {
            lemma_chunk_push(c10, AsmLine::Label(LabelKind::End, suffix), r0);
            lemma_labels_push_kind(c10, LabelKind::End, suffix as int, c0, cm);
            assert(self.out@.skip(base) =~= c10.push(
                AsmLine::Label(LabelKind::End, suffix),
            ));
            assert(self.out@ =~= o.out@ + self.out@.skip(base));
            assert(self.out@.skip(base) =~= ci + seq![AsmLine::PopReg(Reg::Rax)] + seq![
                AsmLine::Label(LabelKind::Begin, suffix),
            ] + ce + seq![
                AsmLine::PopReg(Reg::Rax),
                AsmLine::CmpRegImm(Reg::Rax, 0),
                AsmLine::Je(LabelKind::End, suffix),
            ] + c5 + c7 + seq![
                AsmLine::PopReg(Reg::Rax),
                AsmLine::Jmp(LabelKind::Begin, suffix),
                AsmLine::Label(LabelKind::End, suffix),
            ]);
            assert((c0 + 1) as u64 == suffix);
            assert(spec_gen_statement(*statement, o.variable_offsets@, r0, c0)
                == Ok::<_, CodegenErrorKind>((self.out@.skip(base), cm)));
        }
        Ok(())
    }

    /// Emits a statement sequence in order.
    pub fn gen_statements(&mut self, statements: &Vec<TypedStatement>) -> (r: Result<
        (),
        CodegenErrorKind,
    >)
        requires
            old(self).rsp_inv(),
            old(self).fresh_counter + label_count_sts(statements@) <= u64::MAX,
        ensures
            r is Ok ==> stmt_emit_ok(*old(self), *final(self)),
            r is Ok ==> final(self).fresh_counter <= old(self).fresh_counter + label_count_sts(
                statements@,
            ),
            r is Ok ==> spec_gen_statements(
                statements@,
                old(self).variable_offsets@,
                old(self).rsp_offset as int,
                old(self).fresh_counter as int,
            ) == Ok::<_, CodegenErrorKind>(
                (
                    final(self).out@.skip(old(self).out@.len() as int),
                    final(self).fresh_counter as int,
                ),
            ),
            r matches Err(k) ==> spec_gen_statements(
                statements@,
                old(self).variable_offsets@,
                old(self).rsp_offset as int,
                old(self).fresh_counter as int,
            ) == Err::<(Seq<AsmLine>, int), _>(k),
        decreases statements@, 0int,
    {
        let ghost base = self.out@.len() as int;
        let ghost o = *self;
        let ghost r0 = o.rsp_offset as int;
        let ghost c0 = o.fresh_counter as int;
        let ghost stsv = statements@;
        proof {
            assert(self.out@.skip(base) =~= Seq::<AsmLine>::empty());
            lemma_zero_chunk(Seq::<AsmLine>::empty(), r0);
            lemma_no_labels_facts(Seq::<AsmLine>::empty(), c0, c0);
            assert(stsv.skip(0) =~= stsv);
        }
        let n = statements.len();
        let mut i: usize = 0;
        let ghost offsv = o.variable_offsets@;
        proof {
            match spec_gen_statements(stsv, offsv, r0, c0) {
                Ok(p) => {
                    assert(Seq::<AsmLine>::empty() + p.0 =~= p.0);
                },
                Err(_) => {},
            }
        }
        while i < n
            invariant
                o == *old(self),
                self.rsp_inv(),
                statements@ == stsv,
                offsv == o.variable_offsets@,
                n == stsv.len(),
                i <= n,
                base <= self.out@.len(),
                self.out@ == o.out@ + self.out@.skip(base),
                base == o.out@.len(),
                o.rsp_inv(),
                r0 == o.rsp_offset,
                c0 == o.fresh_counter,
                spec_gen_statements(stsv, offsv, r0, c0) == spec_prepend_stmt(
                    self.out@.skip(base),
                    spec_gen_statements(stsv.skip(i as int), offsv, r0, self.fresh_counter as int),
                ),
                rsp_sum(self.out@.skip(base)) == 0,
                calls_aligned(self.out@.skip(base), r0),
                distinct_labels(self.out@.skip(base)),
                labels_in_range(self.out@.skip(base), c0, self.fresh_counter as int),
                self.fresh_counter >= o.fresh_counter,
                self.fresh_counter + label_count_sts(stsv.skip(i as int)) <= o.fresh_counter
                    + label_count_sts(stsv),
                o.fresh_counter + label_count_sts(stsv) <= u64::MAX,
                self.rsp_offset == r0,
                same_shape(*self, o),
            decreases n - i,
        {
            proof {
                assert(stsv.skip(i as int) =~= seq![stsv[i as int]] + stsv.skip(i as int + 1));
                lemma_label_count_sts_append(seq![stsv[i as int]], stsv.skip(i as int + 1));
                assert(seq![stsv[i as int]].drop_last() =~= Seq::<TypedStatement>::empty());
                assert(seq![stsv[i as int]].last() == stsv[i as int]);
                assert(label_count_sts(Seq::<TypedStatement>::empty()) == 0);
                assert(label_count_sts(seq![stsv[i as int]]) == label_count_st(stsv[i as int]));
                assert(stsv.skip(i as int)[0] == stsv[i as int]);
                assert(stsv.skip(i as int).drop_first() =~= stsv.skip(i as int + 1));
            }
            let ghost c_pre = self.out@.skip(base);
            let ghost mid = *self;
            match self.gen_statement(&statements[i]) {
                Ok(_) => {},
                Err(k) => {
                    proof {
                        assert(spec_gen_statement(stsv[i as int], offsv, r0, mid.fresh_counter as int)
                            == Err::<(Seq<AsmLine>, int), _>(k));
                        assert(spec_gen_statements(
                            stsv.skip(i as int),
                            offsv,
                            r0,
                            mid.fresh_counter as int,
                        ) == Err::<(Seq<AsmLine>, int), _>(k));
                        assert(spec_gen_statements(stsv, offsv, r0, c0) == Err::<
                            (Seq<AsmLine>, int),
                            _,
                        >(k));
                    }
                    return Err(k);
                },
            }
            let ghost c_new = self.out@.skip(base + c_pre.len());
            proof {
                lemma_calls_aligned_append(c_pre, c_new, r0);
                lemma_rsp_sum_append(c_pre, c_new);
                lemma_distinct_labels_append(
                    c_pre,
                    c_new,
                    c0,
                    mid.fresh_counter as int,
                    self.fresh_counter as int,
                );
                assert(self.out@.skip(base) =~= c_pre + c_new);
                assert(self.out@ =~= o.out@ + self.out@.skip(base));
                assert(spec_gen_statement(stsv[i as int], offsv, r0, mid.fresh_counter as int)
                    == Ok::<_, CodegenErrorKind>((c_new, self.fresh_counter as int)));
                lemma_prepend_stmt_assoc(
                    c_pre,
                    c_new,
                    spec_gen_statements(
                        stsv.skip(i as int + 1),
                        offsv,
                        r0,
                        self.fresh_counter as int,
                    ),
                );
            }
            i = i + 1;
        }
        proof {
            assert(stsv.skip(n as int).len() == 0);
            assert(spec_gen_statements(stsv.skip(n as int), offsv, r0, self.fresh_counter as int)
                == Ok::<_, CodegenErrorKind>((Seq::<AsmLine>::empty(), self.fresh_counter as int)));
            assert(self.out@.skip(base) + Seq::<AsmLine>::empty() =~= self.out@.skip(base));
        }
        Ok(())
    }

    /// Emits the whole function: global directive, label, prologue,
    /// parameter stores, body, epilogue. Every `call` in the emitted chunk
    /// is aligned for a walk that starts at the chunk with offset zero,
    /// and every label it defines is fresh and distinct.
    pub fn gen(&mut self) -> (r: Result<u64, CodegenErrorKind>)
        requires
            old(self).rsp_inv(),
            old(self).rsp_offset == (8 + old(self).variables_offset as int) % 16,
            old(self).fresh_counter + label_count_sts(old(self).body@) <= u64::MAX,
        ensures
            r matches Ok(c) ==> ({
                let emitted = final(self).out@.skip(old(self).out@.len() as int);
                &&& c == final(self).fresh_counter
                &&& final(self).out@ == old(self).out@ + emitted
                &&& calls_aligned(emitted, 0)
                &&& distinct_labels(emitted)
                &&& labels_in_range(
                    emitted,
                    old(self).fresh_counter as int,
                    final(self).fresh_counter as int,
                )
                &&& final(self).fresh_counter >= old(self).fresh_counter
                &&& emitted.len() > 0
                &&& emitted[0] is Globl
                &&& spec_gen_function(
                    *old(self).name,
                    old(self).params@,
                    old(self).body@,
                    old(self).variable_offsets@,
                    old(self).variables_offset,
                    old(self).fresh_counter as int,
                ) == Ok::<_, CodegenErrorKind>((emitted, c as int))
            }),
            r matches Err(k) ==> spec_gen_function(
                *old(self).name,
                old(self).params@,
                old(self).body@,
                old(self).variable_offsets@,
                old(self).variables_offset,
                old(self).fresh_counter as int,
            ) == Err::<(Seq<AsmLine>, int), _>(k),
    {
        let ghost base = self.out@.len() as int;
        let ghost o = *self;
        let ghost c0 = o.fresh_counter as int;
        if self.params.len() > 6 {
            return Err(CodegenErrorKind::UnsupportedParameterCount);
        }
        proof {
            assert(self.out@.skip(base) =~= Seq::<AsmLine>::empty());
            lemma_zero_chunk(Seq::<AsmLine>::empty(), 0);
            lemma_no_labels_facts(Seq::<AsmLine>::empty(), c0, c0);
        }
        let ghost e0 = self.out@.skip(base);
        let globl_line = AsmLine::Globl(self.name.clone());
        let ghost g0 = globl_line;
        self.emit(globl_line);
        proof {
            lemma_chunk_push_plain(e0, g0, 0);
            assert(self.out@.skip(base) =~= e0.push(g0));
            assert(g0 == AsmLine::Globl(*o.name));
            assert(self.out@.skip(base)[0] is Globl);
        }
        let ghost e1 = self.out@.skip(base);
        let fnlabel_line = AsmLine::FnLabel(self.name.clone());
        let ghost g1 = fnlabel_line;
        self.emit(fnlabel_line);
        proof {
            lemma_chunk_push_plain(e1, g1, 0);
            assert(self.out@.skip(base) =~= e1.push(g1));
            assert(g1 == AsmLine::FnLabel(*o.name));
        }
        let ghost e2 = self.out@.skip(base);
        self.emit(AsmLine::PushReg(Reg::Rbp));
        proof {
            lemma_chunk_push_plain(e2, AsmLine::PushReg(Reg::Rbp), 0);
            assert(self.out@.skip(base) =~= e2.push(AsmLine::PushReg(Reg::Rbp)));
        }
        let ghost e3 = self.out@.skip(base);
        self.emit(AsmLine::MovRegReg(Reg::Rbp, Reg::Rsp));
        proof {
            lemma_chunk_push_plain(e3, AsmLine::MovRegReg(Reg::Rbp, Reg::Rsp), 0);
            assert(self.out@.skip(base) =~= e3.push(AsmLine::MovRegReg(Reg::Rbp, Reg::Rsp)));
        }
        let ghost e4 = self.out@.skip(base);
        self.emit(AsmLine::SubRegImm(Reg::Rsp, self.variables_offset));
        let ghost prologue = seq![
            AsmLine::Globl(*o.name),
            AsmLine::FnLabel(*o.name),
            AsmLine::PushReg(Reg::Rbp),
            AsmLine::MovRegReg(Reg::Rbp, Reg::Rsp),
            AsmLine::SubRegImm(Reg::Rsp, o.variables_offset),
        ];
        proof {
            lemma_chunk_push_plain(e4, AsmLine::SubRegImm(Reg::Rsp, o.variables_offset), 0);
            assert(self.out@.skip(base) =~= e4.push(
                AsmLine::SubRegImm(Reg::Rsp, o.variables_offset),
            ));
            assert(self.out@.skip(base) =~= prologue);
            assert(self.out@.skip(base + 5) =~= Seq::<AsmLine>::empty());
            match spec_param_stores(o.params@, o.variable_offsets@, 0) {
                Ok(rest) => {
                    assert(Seq::<AsmLine>::empty() + rest =~= rest);
                },
                Err(_) => {},
            }
        }
        let count = self.params.len();
        let mut i: usize = 0;
        while i < count
            invariant
                o == *old(self),
                self.rsp_inv(),
                count == self.params@.len(),
                count <= 6,
                i <= count,
                base <= self.out@.len(),
                base + 5 <= self.out@.len(),
                self.out@ == o.out@ + self.out@.skip(base),
                base == o.out@.len(),
                rsp_sum(self.out@.skip(base)) == 8 + self.variables_offset,
                calls_aligned(self.out@.skip(base), 0),
                no_labels(self.out@.skip(base)),
                self.out@.skip(base).len() > 0,
                self.out@.skip(base)[0] is Globl,
                self.out@.skip(base) == prologue + self.out@.skip(base + 5),
                spec_param_stores(o.params@, o.variable_offsets@, 0) == spec_prepend_lines(
                    self.out@.skip(base + 5),
                    spec_param_stores(o.params@, o.variable_offsets@, i as int),
                ),
                self.fresh_counter == o.fresh_counter,
                self.rsp_offset == o.rsp_offset,
                self.variables_offset == o.variables_offset,
                self.body == o.body,
                self.name == o.name,
                self.params == o.params,
                self.variable_offsets == o.variable_offsets,
            decreases count - i,
        {
            let offset = match self.lookup_offset(&self.params[i].0) {
                Some(off) => off,
                None => {
                    proof {
                        assert(spec_param_stores(o.params@, o.variable_offsets@, i as int)
                            == Err::<Seq<AsmLine>, _>(CodegenErrorKind::InvalidLValueForm));
                        assert(spec_param_stores(o.params@, o.variable_offsets@, 0) == Err::<
                            Seq<AsmLine>,
                            _,
                        >(CodegenErrorKind::InvalidLValueForm));
                    }
                    return Err(CodegenErrorKind::InvalidLValueForm);
                },
            };
            let reg = param_reg(i);
            let ghost ep = self.out@.skip(base);
            let ghost sp = self.out@.skip(base + 5);
            self.emit(AsmLine::StoreLocal(offset, reg));
            proof {
                lemma_chunk_push_plain(ep, AsmLine::StoreLocal(offset, reg), 0);
                assert(self.out@.skip(base) =~= ep.push(AsmLine::StoreLocal(offset, reg)));
                assert(self.out@ =~= o.out@ + self.out@.skip(base));
                assert(self.out@.skip(base + 5) =~= sp.push(AsmLine::StoreLocal(offset, reg)));
                assert(self.out@.skip(base) =~= prologue + self.out@.skip(base + 5));
                assert(sp.push(AsmLine::StoreLocal(offset, reg)) =~= sp + seq![
                    AsmLine::StoreLocal(offset, spec_param_reg(i as int)),
                ]);
                lemma_prepend_lines_assoc(
                    sp,
                    seq![AsmLine::StoreLocal(offset, spec_param_reg(i as int))],
                    spec_param_stores(o.params@, o.variable_offsets@, i as int + 1),
                );
                assert(spec_param_stores(o.params@, o.variable_offsets@, i as int)
                    == spec_prepend_lines(
                    seq![AsmLine::StoreLocal(offset, spec_param_reg(i as int))],
                    spec_param_stores(o.params@, o.variable_offsets@, i as int + 1),
                ));
            }
            i = i + 1;
        }
        let ghost pre = self.out@.skip(base);
        let ghost stores_chunk = self.out@.skip(base + 5);
        proof {
            assert(spec_param_stores(o.params@, o.variable_offsets@, count as int)
                == Ok::<_, CodegenErrorKind>(Seq::<AsmLine>::empty()));
            assert(stores_chunk + Seq::<AsmLine>::empty() =~= stores_chunk);
            assert(spec_param_stores(o.params@, o.variable_offsets@, 0) == Ok::<
                _,
                CodegenErrorKind,
            >(stores_chunk));
        }
        let ghost mid = *self;
        match self.gen_statements(self.body) {
            Ok(_) => {},
            Err(k) => {
                proof {
                    assert(spec_gen_statements(
                        o.body@,
                        o.variable_offsets@,
                        mid.rsp_offset as int,
                        o.fresh_counter as int,
                    ) == Err::<(Seq<AsmLine>, int), _>(k));
                    assert(mid.rsp_offset as int == (8 + o.variables_offset) % 16);
                }
                return Err(k);
            },
        }
        let ghost bodyc = self.out@.skip(base + pre.len());
        let ghost cm = self.fresh_counter as int;
        proof {
            lemma_aligned_congruent(bodyc, mid.rsp_offset as int, 8 + o.variables_offset as int);
            lemma_calls_aligned_append(pre, bodyc, 0);
            lemma_rsp_sum_append(pre, bodyc);
            lemma_no_labels_facts(pre, c0, c0);
            lemma_distinct_labels_append(pre, bodyc, c0, c0, cm);
            assert(self.out@.skip(base) =~= pre + bodyc);
            assert(self.out@.skip(base)[0] == pre[0]);
        }
        let ghost e5 = self.out@.skip(base);
        self.emit(AsmLine::Epilogue);
        proof {
            lemma_chunk_push(e5, AsmLine::Epilogue, 0);
            lemma_labels_push(e5, AsmLine::Epilogue, c0, cm, cm);
            assert(self.out@.skip(base) =~= e5.push(AsmLine::Epilogue));
            assert(self.out@ =~= o.out@ + self.out@.skip(base));
            assert(self.out@.skip(base)[0] is Globl);
            assert(mid.rsp_offset as int == (8 + o.variables_offset) % 16);
            assert(self.out@.skip(base) =~= prologue + stores_chunk + bodyc + seq![
                AsmLine::Epilogue,
            ]);
            assert(spec_gen_function(
                *o.name,
                o.params@,
                o.body@,
                o.variable_offsets@,
                o.variables_offset,
                c0,
            ) == Ok::<_, CodegenErrorKind>((self.out@.skip(base), cm)));
        }
        Ok(self.fresh_counter)
    }
}

/// The System V integer parameter register for index `i`.
fn param_reg(i: usize) -> (r: Reg)
    requires
        i < 6,
    ensures
        r == spec_param_reg(i as int),
{
    match i {
        0 => Reg::Rdi,
        1 => Reg::Rsi,
        2 => Reg::Rdx,
        3 => Reg::Rcx,
        4 => Reg::R8,
        _ => Reg::R9,
    }
}

proof fn lemma_label_count_sts_append(a: Seq<TypedStatement>, b: Seq<TypedStatement>)
    ensures
        label_count_sts(a + b) == label_count_sts(a) + label_count_sts(b),
    decreases b.len(),
{
    if b.len() == 0 {
        assert(a + b =~= a);
    } else {
        lemma_label_count_sts_append(a, b.drop_last());
        assert((a + b).drop_last() =~= a + b.drop_last());
        assert((a + b).last() == b.last());
    }
}

/// Frame offsets stay multiples of 8.
proof fn lemma_frame_offset_mod8(env: Seq<(String, Type)>, k: int)
    ensures
        frame_offset(env, k) % 8 == 0,
    decreases k,
{
    if k <= 0 {
    } else {
        lemma_frame_offset_mod8(env, k - 1);
        assert(round8(env[k - 1].1.spec_size() as int) % 8 == 0) by (nonlinear_arith);
    }
}


/// Saturation bound for label counting: programs needing more labels than
/// this are rejected outright.
pub open spec fn count_cap() -> nat {
    0x1000_0000_0000_0000
}

pub open spec fn capped(n: nat) -> nat {
    if n < count_cap() {
        n
    } else {
        count_cap()
    }
}

fn sat_add(a: u64, b: u64) -> (r: u64)
    requires
        a <= count_cap(),
        b <= count_cap(),
    ensures
        r as nat == capped((a + b) as nat),
        r <= count_cap(),
{
    let s = a + b;
    if s >= 0x1000_0000_0000_0000u64 {
        0x1000_0000_0000_0000u64
    } else {
        s
    }
}

proof fn lemma_capped_add(a: nat, b: nat)
    ensures
        capped(a + capped(b)) == capped(a + b),
{
}

/// Counts a statement's labels, saturating at the bound.
fn count_labels_st(st: &TypedStatement) -> (r: u64)
    ensures
        r as nat == capped(label_count_st(*st)),
        r <= count_cap(),
    decreases *st, 1int,
{
    match st {
        TypedStatement::Expr(_) => 0,
        TypedStatement::Return(_) => 0,
        TypedStatement::VariableDeclaration(_, _) => 0,
        TypedStatement::If(_, s1) => {
            let c = count_labels_st(s1);
            proof {
                lemma_capped_add(1, label_count_st(**s1));
            }
            sat_add(1, c)
        },
        TypedStatement::IfElse(_, s1, s2) => {
            let c1 = count_labels_st(s1);
            let c2 = count_labels_st(s2);
            proof {
                lemma_capped_add(label_count_st(**s1), label_count_st(**s2));
                lemma_capped_add(
                    1,
                    (label_count_st(**s1) + label_count_st(**s2)) as nat,
                );
                assert(capped((c1 + capped(label_count_st(**s2))) as nat) == capped(
                    (label_count_st(**s1) + label_count_st(**s2)) as nat,
                )) by {
                    lemma_capped_add(label_count_st(**s1), label_count_st(**s2));
                }
            }
            let c12 = sat_add(c1, c2);
            proof {
                assert(c12 as nat == capped(
                    (capped(label_count_st(**s1)) + capped(label_count_st(**s2))) as nat,
                ));
                assert(capped(
                    (capped(label_count_st(**s1)) + capped(label_count_st(**s2))) as nat,
                ) == capped((label_count_st(**s1) + label_count_st(**s2)) as nat)) by {
                    lemma_capped_add(capped(label_count_st(**s1)), label_count_st(**s2));
                    lemma_capped_add(label_count_st(**s2), label_count_st(**s1));
                }
            }
            sat_add(1, c12)
        },
        TypedStatement::While(_, b) => {
            let c = count_labels_st(b);
            proof {
                lemma_capped_add(1, label_count_st(**b));
            }
            sat_add(1, c)
        },
        TypedStatement::For(_, _, _, b) => {
            let c = count_labels_st(b);
            proof {
                lemma_capped_add(1, label_count_st(**b));
            }
            sat_add(1, c)
        },
        TypedStatement::Block(sts) => count_labels_sts(sts),
    }
}

/// Counts a statement sequence's labels, saturating at the bound.
pub fn count_labels_sts(statements: &Vec<TypedStatement>) -> (r: u64)
    ensures
        r as nat == capped(label_count_sts(statements@)),
        r <= count_cap(),
    decreases statements@, 0int,
{
    let ghost stsv = statements@;
    let n = statements.len();
    let mut total: u64 = 0;
    proof {
        assert(stsv.take(0) =~= Seq::<TypedStatement>::empty());
    }
    let mut i: usize = 0;
    while i < n
        invariant
            statements@ == stsv,
            n == stsv.len(),
            i <= n,
            total as nat == capped(label_count_sts(stsv.take(i as int))),
            total <= count_cap(),
        decreases n - i,
    {
        let c = count_labels_st(&statements[i]);
        proof {
            assert(stsv.take(i as int + 1).drop_last() =~= stsv.take(i as int));
            assert(stsv.take(i as int + 1).last() == stsv[i as int]);
            lemma_capped_add(label_count_sts(stsv.take(i as int)), label_count_st(stsv[i as int]));
            lemma_capped_add(
                capped(label_count_sts(stsv.take(i as int))),
                label_count_st(stsv[i as int]),
            );
            lemma_capped_add(label_count_st(stsv[i as int]), label_count_sts(stsv.take(i as int)));
        }
        total = sat_add(total, c);
        i = i + 1;
    }
    proof {
        assert(stsv.take(n as int) =~= stsv);
    }
    total
}


/// Exactly what emitting one top-level definition yields: its label
/// budget checked, its frame laid out, and `spec_gen_function` run over
/// the resulting slot table; or the first error of those steps.
pub open spec fn spec_gen_top_level(item: TypedTopLevel, counter: int) -> Result<
    (Seq<AsmLine>, int),
    CodegenErrorKind,
> {
    match item {
        TypedTopLevel::FunctionDefinition(name, params, _, body, venv) => {
            if label_count_sts(body@) >= count_cap() {
                Err(CodegenErrorKind::TooManyLabels)
            } else if counter + label_count_sts(body@) > u64::MAX {
                Err(CodegenErrorKind::TooManyLabels)
            } else if frame_offset(venv@, venv@.len() as int) >= frame_limit() {
                Err(CodegenErrorKind::FrameTooLarge)
            } else {
                spec_gen_function(
                    name,
                    params@,
                    body@,
                    spec_offsets(venv@),
                    frame_offset(venv@, venv@.len() as int) as u64,
                    counter,
                )
            }
        },
    }
}

/// The function chunks of a whole program, in order, threading the label
/// counter through.
pub open spec fn spec_gen_items(items: Seq<TypedTopLevel>, counter: int) -> Result<
    (Seq<AsmLine>, int),
    CodegenErrorKind,
>
    decreases items,
{
    if items.len() == 0 {
        Ok((Seq::empty(), counter))
    } else {
        match spec_gen_top_level(items[0], counter) {
            Err(k) => Err(k),
            Ok(p) => spec_prepend_stmt(p.0, spec_gen_items(items.drop_first(), p.1)),
        }
    }
}

/// Emits the whole program: the entry prologue, then each function. No
/// label is defined twice anywhere in the output.
pub struct Program {
    pub fresh_counter: u64,
    pub program: Vec<TypedTopLevel>,
    pub out: Vec<AsmLine>,
}

impl Program {
    pub fn new(program: Vec<TypedTopLevel>) -> (r: Program)
        ensures
            r.fresh_counter == 0,
            r.program@ == program@,
            r.out@ =~= Seq::<AsmLine>::empty(),
    {
        Program { fresh_counter: 0, program, out: Vec::new() }
    }

    /// Emits one function definition, keeping every label in the whole
    /// output distinct.
    pub fn gen_top_level(&mut self, i: usize) -> (r: Result<(), CodegenErrorKind>)
        requires
            i < old(self).program@.len(),
            distinct_labels(old(self).out@),
            labels_in_range(old(self).out@, 0, old(self).fresh_counter as int),
        ensures
            r is Ok ==> {
                &&& distinct_labels(final(self).out@)
                &&& labels_in_range(final(self).out@, 0, final(self).fresh_counter as int)
                &&& final(self).fresh_counter >= old(self).fresh_counter
                &&& final(self).program == old(self).program
                &&& final(self).out@ == old(self).out@ + final(self).out@.skip(
                    old(self).out@.len() as int,
                )
                &&& calls_aligned(final(self).out@.skip(old(self).out@.len() as int), 0)
                &&& spec_gen_top_level(old(self).program@[i as int], old(self).fresh_counter as int)
                    == Ok::<_, CodegenErrorKind>(
                    (
                        final(self).out@.skip(old(self).out@.len() as int),
                        final(self).fresh_counter as int,
                    ),
                )
            },
            r matches Err(k) ==> spec_gen_top_level(
                old(self).program@[i as int],
                old(self).fresh_counter as int,
            ) == Err::<(Seq<AsmLine>, int), _>(k),
    {
        let ghost c0 = self.fresh_counter as int;
        let ghost base = self.out@.len() as int;
        match &self.program[i] {
            TypedTopLevel::FunctionDefinition(name, params, _, statements, venv) => {
                let budget = count_labels_sts(statements);
                if budget >= 0x1000_0000_0000_0000u64 {
                    return Err(CodegenErrorKind::TooManyLabels);
                }
                if self.fresh_counter > u64::MAX - budget {
                    return Err(CodegenErrorKind::TooManyLabels);
                }
                let mut f = match Function::new(
                    name,
                    venv,
                    params,
                    statements,
                    self.fresh_counter,
                ) {
                    Ok(f) => f,
                    Err(k) => {
                        return Err(k);
                    },
                };
                let ghost fpre = f;
                let c = match f.gen() {
                    Ok(c) => c,
                    Err(k) => {
                        return Err(k);
                    },
                };
                proof {
                    assert(f.out@.skip(0) =~= f.out@);
                    assert(fpre.out@ + f.out@.skip(0) =~= f.out@.skip(0));
                }
                self.fresh_counter = c;
                let ghost prev_out = self.out@;
                let ghost chunk = f.out@;
                self.out.append(&mut f.out);
                proof {
                    lemma_distinct_labels_append(
                        prev_out,
                        chunk,
                        0,
                        c0,
                        self.fresh_counter as int,
                    );
                    assert(self.out@.skip(base) =~= chunk);
                }
                Ok(())
            },
        }
    }

    /// Emits the entry prologue (which calls `main` on an aligned stack)
    /// and then every function. Every label in the output is unique, and
    /// what was appended splits into chunks — the entry prologue and one
    /// chunk per function — each of which keeps every `call` aligned for
    /// a walk that starts at the chunk with offset zero.
    pub fn gen(&mut self) -> (r: Result<(), CodegenErrorKind>)
        requires
            distinct_labels(old(self).out@),
            labels_in_range(old(self).out@, 0, old(self).fresh_counter as int),
        ensures
            r is Ok ==> {
                &&& distinct_labels(final(self).out@)
                &&& labels_in_range(final(self).out@, 0, final(self).fresh_counter as int)
                &&& exists|cs: Seq<Seq<AsmLine>>|
                    {
                        &&& final(self).out@ == old(self).out@ + cs.flatten()
                        &&& forall|k: int| 0 <= k < cs.len() ==> calls_aligned(#[trigger] cs[k], 0)
                    }
            },
            r is Ok ==> ({
                let emitted = final(self).out@.skip(old(self).out@.len() as int);
                &&& emitted.len() >= 7
                &&& emitted[0] is Intel
                &&& emitted[1] == AsmLine::PushReg(Reg::Rbp)
                &&& emitted[2] == AsmLine::MovRegReg(Reg::Rbp, Reg::Rsp)
                &&& emitted[3] == AsmLine::SubRegImm(Reg::Rsp, 8)
                &&& (emitted[4] matches AsmLine::Call(m) && m@ == "main"@)
                &&& emitted[5] == AsmLine::AddRegImm(Reg::Rsp, 8)
                &&& emitted[6] == AsmLine::Epilogue
                &&& spec_gen_items(old(self).program@, old(self).fresh_counter as int) == Ok::<
                    _,
                    CodegenErrorKind,
                >((emitted.skip(7), final(self).fresh_counter as int))
            }),
            r matches Err(k) ==> spec_gen_items(
                old(self).program@,
                old(self).fresh_counter as int,
            ) == Err::<(Seq<AsmLine>, int), _>(k),
    {
        let ghost c0 = self.fresh_counter as int;
        let ghost prev_out = self.out@;
        let mut header: Vec<AsmLine> = Vec::new();
        header.push(AsmLine::Intel);
        header.push(AsmLine::PushReg(Reg::Rbp));
        header.push(AsmLine::MovRegReg(Reg::Rbp, Reg::Rsp));
        header.push(AsmLine::SubRegImm(Reg::Rsp, 8));
        let call_main = AsmLine::Call(String::from_str("main"));
        let ghost call_main_ghost = call_main;
        header.push(call_main);
        header.push(AsmLine::AddRegImm(Reg::Rsp, 8));
        header.push(AsmLine::Epilogue);
        let ghost headerv = header@;
        proof {
            assert(headerv =~= seq![
                AsmLine::Intel,
                AsmLine::PushReg(Reg::Rbp),
                AsmLine::MovRegReg(Reg::Rbp, Reg::Rsp),
                AsmLine::SubRegImm(Reg::Rsp, 8),
                call_main_ghost,
                AsmLine::AddRegImm(Reg::Rsp, 8),
                AsmLine::Epilogue,
            ]);
            assert(call_main_ghost matches AsmLine::Call(m) && m@ == "main"@);
        }
        proof {
            assert(no_labels(headerv));
            lemma_no_labels_facts(headerv, c0, c0);
            // the `call main` stands 16 bytes below the chunk's start
            let s4 = headerv.take(4);
            assert(s4 =~= seq![
                AsmLine::Intel,
                AsmLine::PushReg(Reg::Rbp),
                AsmLine::MovRegReg(Reg::Rbp, Reg::Rsp),
                AsmLine::SubRegImm(Reg::Rsp, 8),
            ]);
            assert(s4.drop_last() =~= seq![
                AsmLine::Intel,
                AsmLine::PushReg(Reg::Rbp),
                AsmLine::MovRegReg(Reg::Rbp, Reg::Rsp),
            ]);
            assert(s4.drop_last().drop_last() =~= seq![AsmLine::Intel, AsmLine::PushReg(Reg::Rbp)]);
            assert(s4.drop_last().drop_last().drop_last() =~= seq![AsmLine::Intel]);
            assert(s4.drop_last().drop_last().drop_last().drop_last() =~= Seq::<AsmLine>::empty());
            assert(rsp_sum(s4.drop_last().drop_last().drop_last().drop_last()) == 0);
            assert(rsp_sum(s4.drop_last().drop_last().drop_last()) == 0);
            assert(rsp_sum(s4.drop_last().drop_last()) == 8);
            assert(rsp_sum(s4.drop_last()) == 8);
            assert(rsp_sum(s4) == 16);
            assert forall|j: int| 0 <= j < headerv.len() && headerv[j] is Call implies (0 + rsp_sum(
                headerv.take(j),
            )) % 16 == 0 by {
                assert(j == 4);
                assert(headerv.take(4) =~= s4);
            }
            assert(calls_aligned(headerv, 0));
        }
        self.out.append(&mut header);
        let ghost mut chunks: Seq<Seq<AsmLine>> = seq![headerv];
        proof {
            lemma_distinct_labels_append(prev_out, headerv, 0, c0, c0);
            chunks.lemma_flatten_one_element();
            assert(chunks.flatten() == headerv);
            assert(self.out@ == prev_out + chunks.flatten());
        }
        let ghost progv = self.program@;
        let ghost hdr_end = prev_out.len() as int + 7;
        let n = self.program.len();
        let mut i: usize = 0;
        proof {
            assert(progv.skip(0) =~= progv);
            assert(self.out@.skip(hdr_end) =~= Seq::<AsmLine>::empty());
            match spec_gen_items(progv, c0) {
                Ok(p) => {
                    assert(Seq::<AsmLine>::empty() + p.0 =~= p.0);
                },
                Err(_) => {},
            }
        }
        while i < n
            invariant
                n == self.program@.len(),
                self.program@ == progv,
                progv == old(self).program@,
                c0 == old(self).fresh_counter,
                prev_out == old(self).out@,
                hdr_end == prev_out.len() + 7,
                hdr_end <= self.out@.len(),
                i <= n,
                distinct_labels(self.out@),
                labels_in_range(self.out@, 0, self.fresh_counter as int),
                self.out@ == prev_out + chunks.flatten(),
                forall|k: int| 0 <= k < chunks.len() ==> calls_aligned(#[trigger] chunks[k], 0),
                self.out@.skip(prev_out.len() as int) == headerv + self.out@.skip(hdr_end),
                spec_gen_items(progv, c0) == spec_prepend_stmt(
                    self.out@.skip(hdr_end),
                    spec_gen_items(progv.skip(i as int), self.fresh_counter as int),
                ),
            decreases n - i,
        {
            let ghost pre_out = self.out@;
            let ghost mid_counter = self.fresh_counter as int;
            proof {
                assert(progv.skip(i as int)[0] == progv[i as int]);
                assert(progv.skip(i as int).drop_first() =~= progv.skip(i as int + 1));
            }
            match self.gen_top_level(i) {
                Ok(_) => {},
                Err(k) => {
                    proof {
                        assert(spec_gen_top_level(progv[i as int], mid_counter) == Err::<
                            (Seq<AsmLine>, int),
                            _,
                        >(k));
                        assert(spec_gen_items(progv.skip(i as int), mid_counter) == Err::<
                            (Seq<AsmLine>, int),
                            _,
                        >(k));
                        assert(spec_gen_items(progv, c0) == Err::<(Seq<AsmLine>, int), _>(k));
                    }
                    return Err(k);
                },
            }
            proof {
                let appended = self.out@.skip(pre_out.len() as int);
                let prev_chunks = chunks;
                prev_chunks.lemma_flatten_push(appended);
                chunks = chunks.push(appended);
                assert(chunks.flatten() =~= prev_chunks.flatten() + appended);
                assert(prev_out + (prev_chunks.flatten() + appended) =~= (prev_out
                    + prev_chunks.flatten()) + appended);
                assert(self.out@ == prev_out + chunks.flatten());
                assert(self.out@.skip(hdr_end) =~= pre_out.skip(hdr_end) + appended);
                assert(self.out@.skip(prev_out.len() as int) =~= pre_out.skip(prev_out.len() as int)
                    + appended);
                assert(headerv + pre_out.skip(hdr_end) + appended =~= headerv + (pre_out.skip(
                    hdr_end,
                ) + appended));
                assert(self.out@.skip(prev_out.len() as int) =~= headerv + self.out@.skip(hdr_end));
                assert(spec_gen_top_level(progv[i as int], mid_counter) == Ok::<
                    _,
                    CodegenErrorKind,
                >((appended, self.fresh_counter as int)));
                lemma_prepend_stmt_assoc(
                    pre_out.skip(hdr_end),
                    appended,
                    spec_gen_items(progv.skip(i as int + 1), self.fresh_counter as int),
                );
            }
            i = i + 1;
        }
        proof {
            assert(final(self).out@ == prev_out + chunks.flatten());
            assert(progv.skip(n as int).len() == 0);
            assert(spec_gen_items(progv.skip(n as int), self.fresh_counter as int) == Ok::<
                _,
                CodegenErrorKind,
            >((Seq::<AsmLine>::empty(), self.fresh_counter as int)));
            assert(self.out@.skip(hdr_end) + Seq::<AsmLine>::empty() =~= self.out@.skip(hdr_end));
            assert(self.out@.skip(prev_out.len() as int).skip(7) =~= self.out@.skip(hdr_end));
        }
        Ok(())
    }
}

} // verus!
