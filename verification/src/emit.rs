//! The generated assembly, one structured value per emitted line, with
//! its stack-pointer accounting and its rendering to GNU-as Intel syntax.
use vstd::prelude::*;

use crate::strutil::spec_dec;
use crate::strutil::spec_dec_i64;
use crate::strutil::i64_to_string;
use crate::strutil::u64_to_string;

verus! {

/// A machine register, at the width the emitter uses it.
#[derive(Debug, PartialEq, Eq, Structural, Clone, Copy)]
pub enum Reg {
    Rax,
    Rdi,
    Rsi,
    Rdx,
    Rcx,
    R8,
    R9,
    Rbp,
    Rsp,
    Eax,
    Edi,
    Al,
}

/// The three label families of the emitted control flow.
#[derive(Debug, PartialEq, Eq, Structural, Clone, Copy)]
pub enum LabelKind {
    Begin,
    Else,
    End,
}

/// The comparison condition of a `set` instruction.
#[derive(Debug, PartialEq, Eq, Structural, Clone, Copy)]
pub enum SetCond {
    L,
    Le,
    E,
    Ne,
    G,
    Ge,
}

/// One emitted line of assembly (the epilogue counts as one value).
#[derive(Debug, PartialEq, Eq)]
pub enum AsmLine {
    /// `.intel_syntax noprefix`
    Intel,
    /// `.globl NAME`
    Globl(String),
    /// `NAME:`
    FnLabel(String),
    /// `.L<kind><n>:`
    Label(LabelKind, u64),
    PushReg(Reg),
    PushImm(i64),
    PopReg(Reg),
    MovRegReg(Reg, Reg),
    MovRegImm(Reg, u64),
    /// `mov r1, [r2]`
    Load(Reg, Reg),
    /// `mov [r1], r2`
    StoreIndirect(Reg, Reg),
    /// `mov [rbp-OFF], r`
    StoreLocal(u64, Reg),
    AddRegReg(Reg, Reg),
    SubRegReg(Reg, Reg),
    AddRegImm(Reg, u64),
    SubRegImm(Reg, u64),
    ImulRegReg(Reg, Reg),
    ImulRegImm(Reg, u64),
    Cqo,
    IdivReg(Reg),
    CmpRegReg(Reg, Reg),
    CmpRegImm(Reg, u64),
    SetCc(SetCond, Reg),
    /// `movzb r1, r2`
    Movzb(Reg, Reg),
    Je(LabelKind, u64),
    Jmp(LabelKind, u64),
    Call(String),
    /// `mov rsp, rbp` / `pop rbp` / `ret`
    Epilogue,
}

/// How far one line moves the stack pointer downward: pushes grow the
/// offset, pops shrink it, direct adjustments of `rsp` count as written.
/// A `call`'s own push and the matching `ret` cancel; the epilogue ends
/// the path, so it counts as nothing.
pub open spec fn rsp_delta(line: AsmLine) -> int {
    match line {
        AsmLine::PushReg(_) => 8,
        AsmLine::PushImm(_) => 8,
        AsmLine::PopReg(_) => -8,
        AsmLine::SubRegImm(r, n) => if r is Rsp {
            n as int
        } else {
            0
        },
        AsmLine::AddRegImm(r, n) => if r is Rsp {
            -(n as int)
        } else {
            0
        },
        _ => 0,
    }
}

/// The net stack-pointer movement of a line sequence.
pub open spec fn rsp_sum(s: Seq<AsmLine>) -> int
    decreases s.len(),
{
    if s.len() == 0 {
        0
    } else {
        rsp_sum(s.drop_last()) + rsp_delta(s.last())
    }
}

/// Every `call` in `s` stands where the accumulated stack offset,
/// starting from `start`, is a multiple of sixteen.
pub open spec fn calls_aligned(s: Seq<AsmLine>, start: int) -> bool {
    forall|i: int|
        0 <= i < s.len() && s[i] is Call ==> (start + rsp_sum(s.take(i))) % 16 == 0
}

/// Every label defined in `s` has its suffix in `(lo, hi]`.
pub open spec fn labels_in_range(s: Seq<AsmLine>, lo: int, hi: int) -> bool {
    forall|i: int|
        0 <= i < s.len() ==> ((#[trigger] s[i]) matches AsmLine::Label(_, n) ==> lo < n <= hi)
}

/// No line of `s` defines a label.
pub open spec fn no_labels(s: Seq<AsmLine>) -> bool {
    forall|i: int| 0 <= i < s.len() ==> !((#[trigger] s[i]) is Label)
}

pub proof fn lemma_no_labels_facts(s: Seq<AsmLine>, lo: int, hi: int)
    requires
        no_labels(s),
        lo <= hi,
    ensures
        distinct_labels(s),
        labels_in_range(s, lo, hi),
{
    assert forall|i: int, j: int| 0 <= i < j < s.len() implies !same_label(s[i], s[j]) by {
        assert(!(s[i] is Label));
    }
}

pub proof fn lemma_no_labels_append(a: Seq<AsmLine>, b: Seq<AsmLine>)
    requires
        no_labels(a),
        no_labels(b),
    ensures
        no_labels(a + b),
{
    assert forall|i: int| 0 <= i < (a + b).len() implies !((#[trigger] (a + b)[i]) is Label) by {
        if i < a.len() {
            assert((a + b)[i] == a[i]);
        } else {
            assert((a + b)[i] == b[i - a.len()]);
        }
    }
}

/// Whether two lines define one and the same label.
pub open spec fn same_label(a: AsmLine, b: AsmLine) -> bool {
    match (a, b) {
        (AsmLine::Label(k1, n1), AsmLine::Label(k2, n2)) => k1 == k2 && n1 == n2,
        _ => false,
    }
}

/// No two lines define the same label.
pub open spec fn distinct_labels(s: Seq<AsmLine>) -> bool {
    forall|i: int, j: int| 0 <= i < j < s.len() ==> !same_label(s[i], s[j])
}

pub proof fn lemma_rsp_sum_append(a: Seq<AsmLine>, b: Seq<AsmLine>)
    ensures
        rsp_sum(a + b) == rsp_sum(a) + rsp_sum(b),
    decreases b.len(),
{
    if b.len() == 0 {
        assert(a + b =~= a);
    } else {
        lemma_rsp_sum_append(a, b.drop_last());
        assert((a + b).drop_last() =~= a + b.drop_last());
        assert((a + b).last() == b.last());
    }
}

/// Alignment is preserved by placing two aligned chunks in sequence, the
/// second starting where the first left the offset.
pub proof fn lemma_calls_aligned_append(a: Seq<AsmLine>, b: Seq<AsmLine>, start: int)
    requires
        calls_aligned(a, start),
        calls_aligned(b, start + rsp_sum(a)),
    ensures
        calls_aligned(a + b, start),
{
    assert forall|i: int| 0 <= i < (a + b).len() && (a + b)[i] is Call implies (start + rsp_sum(
        (a + b).take(i),
    )) % 16 == 0 by {
        if i < a.len() {
            assert((a + b).take(i) =~= a.take(i));
            assert(a[i] is Call);
        } else {
            assert((a + b).take(i) =~= a + b.take(i - a.len()));
            lemma_rsp_sum_append(a, b.take(i - a.len()));
            assert(b[i - a.len()] is Call);
        }
    }
}

/// Distinctness is preserved by placing two chunks with disjoint suffix
/// ranges in sequence.
pub proof fn lemma_distinct_labels_append(
    a: Seq<AsmLine>,
    b: Seq<AsmLine>,
    lo: int,
    mid: int,
    hi: int,
)
    requires
        distinct_labels(a),
        distinct_labels(b),
        labels_in_range(a, lo, mid),
        labels_in_range(b, mid, hi),
        lo <= mid <= hi,
    ensures
        distinct_labels(a + b),
        labels_in_range(a + b, lo, hi),
{
    assert forall|i: int, j: int| 0 <= i < j < (a + b).len() implies !same_label(
        (a + b)[i],
        (a + b)[j],
    ) by {
        if j < a.len() {
            assert((a + b)[i] == a[i] && (a + b)[j] == a[j]);
        } else if i >= a.len() {
            assert((a + b)[i] == b[i - a.len()] && (a + b)[j] == b[j - a.len()]);
        } else {
            assert((a + b)[i] == a[i] && (a + b)[j] == b[j - a.len()]);
        }
    }
    assert forall|i: int| 0 <= i < (a + b).len() implies ((#[trigger] (a + b)[i]) matches
    AsmLine::Label(_, n) ==> lo < n <= hi) by {
        if i < a.len() {
            assert((a + b)[i] == a[i]);
        } else {
            assert((a + b)[i] == b[i - a.len()]);
        }
    }
}

/// The register's name in the emitted text.
pub open spec fn reg_text(r: Reg) -> Seq<char> {
    match r {
        Reg::Rax => "rax"@,
        Reg::Rdi => "rdi"@,
        Reg::Rsi => "rsi"@,
        Reg::Rdx => "rdx"@,
        Reg::Rcx => "rcx"@,
        Reg::R8 => "r8"@,
        Reg::R9 => "r9"@,
        Reg::Rbp => "rbp"@,
        Reg::Rsp => "rsp"@,
        Reg::Eax => "eax"@,
        Reg::Edi => "edi"@,
        Reg::Al => "al"@,
    }
}

pub open spec fn label_kind_text(k: LabelKind) -> Seq<char> {
    match k {
        LabelKind::Begin => "begin"@,
        LabelKind::Else => "else"@,
        LabelKind::End => "end"@,
    }
}

pub open spec fn set_cond_text(c: SetCond) -> Seq<char> {
    match c {
        SetCond::L => "setl"@,
        SetCond::Le => "setle"@,
        SetCond::E => "sete"@,
        SetCond::Ne => "setne"@,
        SetCond::G => "setg"@,
        SetCond::Ge => "setge"@,
    }
}

/// The exact text of one emitted line, without its final newline.
pub open spec fn line_text(l: AsmLine) -> Seq<char> {
    match l {
        AsmLine::Intel => ".intel_syntax noprefix"@,
        AsmLine::Globl(name) => ".globl "@ + name@,
        AsmLine::FnLabel(name) => name@ + ":"@,
        AsmLine::Label(k, n) => ".L"@ + label_kind_text(k) + spec_dec(n as int) + ":"@,
        AsmLine::PushReg(r) => "  push "@ + reg_text(r),
        AsmLine::PushImm(n) => "  push "@ + spec_dec_i64(n as int),
        AsmLine::PopReg(r) => "  pop "@ + reg_text(r),
        AsmLine::MovRegReg(a, b) => "  mov "@ + reg_text(a) + ", "@ + reg_text(b),
        AsmLine::MovRegImm(a, n) => "  mov "@ + reg_text(a) + ", "@ + spec_dec(n as int),
        AsmLine::Load(a, b) => "  mov "@ + reg_text(a) + ", ["@ + reg_text(b) + "]"@,
        AsmLine::StoreIndirect(a, b) => "  mov ["@ + reg_text(a) + "], "@ + reg_text(b),
        AsmLine::StoreLocal(off, r) => "  mov [rbp-"@ + spec_dec(off as int) + "], "@ + reg_text(
            r,
        ),
        AsmLine::AddRegReg(a, b) => "  add "@ + reg_text(a) + ", "@ + reg_text(b),
        AsmLine::SubRegReg(a, b) => "  sub "@ + reg_text(a) + ", "@ + reg_text(b),
        AsmLine::AddRegImm(a, n) => "  add "@ + reg_text(a) + ", "@ + spec_dec(n as int),
        AsmLine::SubRegImm(a, n) => "  sub "@ + reg_text(a) + ", "@ + spec_dec(n as int),
        AsmLine::ImulRegReg(a, b) => "  imul "@ + reg_text(a) + ", "@ + reg_text(b),
        AsmLine::ImulRegImm(a, n) => "  imul "@ + reg_text(a) + ", "@ + spec_dec(n as int),
        AsmLine::Cqo => "  cqo"@,
        AsmLine::IdivReg(r) => "  idiv "@ + reg_text(r),
        AsmLine::CmpRegReg(a, b) => "  cmp "@ + reg_text(a) + ", "@ + reg_text(b),
        AsmLine::CmpRegImm(a, n) => "  cmp "@ + reg_text(a) + ", "@ + spec_dec(n as int),
        AsmLine::SetCc(c, r) => "  "@ + set_cond_text(c) + " "@ + reg_text(r),
        AsmLine::Movzb(a, b) => "  movzb "@ + reg_text(a) + ", "@ + reg_text(b),
        AsmLine::Je(k, n) => "  je .L"@ + label_kind_text(k) + spec_dec(n as int),
        AsmLine::Jmp(k, n) => "  jmp .L"@ + label_kind_text(k) + spec_dec(n as int),
        AsmLine::Call(name) => "  call "@ + name@,
        AsmLine::Epilogue => "  mov rsp, rbp\n  pop rbp\n  ret"@,
    }
}

/// The whole output: each line's text followed by a newline.
pub open spec fn program_text(s: Seq<AsmLine>) -> Seq<char>
    decreases s.len(),
{
    if s.len() == 0 {
        Seq::empty()
    } else {
        program_text(s.drop_last()) + line_text(s.last()) + "\n"@
    }
}

fn reg_str(r: Reg) -> (s: &'static str)
    ensures
        s@ == reg_text(r),
{
    match r {
        Reg::Rax => "rax",
        Reg::Rdi => "rdi",
        Reg::Rsi => "rsi",
        Reg::Rdx => "rdx",
        Reg::Rcx => "rcx",
        Reg::R8 => "r8",
        Reg::R9 => "r9",
        Reg::Rbp => "rbp",
        Reg::Rsp => "rsp",
        Reg::Eax => "eax",
        Reg::Edi => "edi",
        Reg::Al => "al",
    }
}

fn label_kind_str(k: LabelKind) -> (s: &'static str)
    ensures
        s@ == label_kind_text(k),
{
    match k {
        LabelKind::Begin => "begin",
        LabelKind::Else => "else",
        LabelKind::End => "end",
    }
}

fn set_cond_str(c: SetCond) -> (s: &'static str)
    ensures
        s@ == set_cond_text(c),
{
    match c {
        SetCond::L => "setl",
        SetCond::Le => "setle",
        SetCond::E => "sete",
        SetCond::Ne => "setne",
        SetCond::G => "setg",
        SetCond::Ge => "setge",
    }
}

/// Renders one line exactly as `line_text` says.
pub fn render_line(l: &AsmLine) -> (r: String)
    ensures
        r@ == line_text(*l),
{
    let mut s = String::new();
    proof {
        assert(s@ =~= Seq::<char>::empty());
    }
    match l {
        AsmLine::Intel => {
            s.append(".intel_syntax noprefix");
        },
        AsmLine::Globl(name) => {
            s.append(".globl ");
            s.append(name.as_str());
        },
        AsmLine::FnLabel(name) => {
            s.append(name.as_str());
            s.append(":");
        },
        AsmLine::Label(k, n) => {
            s.append(".L");
            s.append(label_kind_str(*k));
            let d = u64_to_string(*n);
            s.append(d.as_str());
            s.append(":");
        },
        AsmLine::PushReg(r2) => {
            s.append("  push ");
            s.append(reg_str(*r2));
        },
        AsmLine::PushImm(n) => {
            s.append("  push ");
            let d = i64_to_string(*n);
            s.append(d.as_str());
        },
        AsmLine::PopReg(r2) => {
            s.append("  pop ");
            s.append(reg_str(*r2));
        },
        AsmLine::MovRegReg(a, b) => {
            s.append("  mov ");
            s.append(reg_str(*a));
            s.append(", ");
            s.append(reg_str(*b));
        },
        AsmLine::MovRegImm(a, n) => {
            s.append("  mov ");
            s.append(reg_str(*a));
            s.append(", ");
            let d = u64_to_string(*n);
            s.append(d.as_str());
        },
        AsmLine::Load(a, b) => {
            s.append("  mov ");
            s.append(reg_str(*a));
            s.append(", [");
            s.append(reg_str(*b));
            s.append("]");
        },
        AsmLine::StoreIndirect(a, b) => {
            s.append("  mov [");
            s.append(reg_str(*a));
            s.append("], ");
            s.append(reg_str(*b));
        },
        AsmLine::StoreLocal(off, r2) => {
            s.append("  mov [rbp-");
            let d = u64_to_string(*off);
            s.append(d.as_str());
            s.append("], ");
            s.append(reg_str(*r2));
        },
        AsmLine::AddRegReg(a, b) => {
            s.append("  add ");
            s.append(reg_str(*a));
            s.append(", ");
            s.append(reg_str(*b));
        },
        AsmLine::SubRegReg(a, b) => {
            s.append("  sub ");
            s.append(reg_str(*a));
            s.append(", ");
            s.append(reg_str(*b));
        },
        AsmLine::AddRegImm(a, n) => {
            s.append("  add ");
            s.append(reg_str(*a));
            s.append(", ");
            let d = u64_to_string(*n);
            s.append(d.as_str());
        },
        AsmLine::SubRegImm(a, n) => {
            s.append("  sub ");
            s.append(reg_str(*a));
            s.append(", ");
            let d = u64_to_string(*n);
            s.append(d.as_str());
        },
        AsmLine::ImulRegReg(a, b) => {
            s.append("  imul ");
            s.append(reg_str(*a));
            s.append(", ");
            s.append(reg_str(*b));
        },
        AsmLine::ImulRegImm(a, n) => {
            s.append("  imul ");
            s.append(reg_str(*a));
            s.append(", ");
            let d = u64_to_string(*n);
            s.append(d.as_str());
        },
        AsmLine::Cqo => {
            s.append("  cqo");
        },
        AsmLine::IdivReg(r2) => {
            s.append("  idiv ");
            s.append(reg_str(*r2));
        },
        AsmLine::CmpRegReg(a, b) => {
            s.append("  cmp ");
            s.append(reg_str(*a));
            s.append(", ");
            s.append(reg_str(*b));
        },
        AsmLine::CmpRegImm(a, n) => {
            s.append("  cmp ");
            s.append(reg_str(*a));
            s.append(", ");
            let d = u64_to_string(*n);
            s.append(d.as_str());
        },
        AsmLine::SetCc(c, r2) => {
            s.append("  ");
            s.append(set_cond_str(*c));
            s.append(" ");
            s.append(reg_str(*r2));
        },
        AsmLine::Movzb(a, b) => {
            s.append("  movzb ");
            s.append(reg_str(*a));
            s.append(", ");
            s.append(reg_str(*b));
        },
        AsmLine::Je(k, n) => {
            s.append("  je .L");
            s.append(label_kind_str(*k));
            let d = u64_to_string(*n);
            s.append(d.as_str());
        },
        AsmLine::Jmp(k, n) => {
            s.append("  jmp .L");
            s.append(label_kind_str(*k));
            let d = u64_to_string(*n);
            s.append(d.as_str());
        },
        AsmLine::Call(name) => {
            s.append("  call ");
            s.append(name.as_str());
        },
        AsmLine::Epilogue => {
            s.append("  mov rsp, rbp\n  pop rbp\n  ret");
        },
    }
    s
}

/// Renders the whole output exactly as `program_text` says.
pub fn render_program(lines: &Vec<AsmLine>) -> (r: String)
    ensures
        r@ == program_text(lines@),
{
    let mut s = String::new();
    proof {
        assert(lines@.take(0) =~= Seq::<AsmLine>::empty());
        assert(s@ =~= program_text(lines@.take(0)));
    }
    let n = lines.len();
    for i in 0..n
        invariant
            n == lines@.len(),
            s@ == program_text(lines@.take(i as int)),
    {
        let line = render_line(&lines[i]);
        s.append(line.as_str());
        s.append("\n");
        proof {
            assert(lines@.take(i as int + 1).drop_last() =~= lines@.take(i as int));
            assert(lines@.take(i as int + 1).last() == lines@[i as int]);
        }
    }
    proof {
        assert(lines@.take(n as int) =~= lines@);
    }
    s
}

} // verus!
