// Runs compiled programs on a small interpreter for the emitted
// instruction set, checking the run-time exit codes end to end.
use minic::compile;
use minic::emit::AsmLine;
use minic::emit::LabelKind;
use minic::emit::Reg;
use minic::emit::SetCond;

const STACK_BYTES: usize = 1 << 20;
const MAGIC_RETURN: u64 = 0x7abc_0000_dead_0000;
const CODE_BASE: u64 = 0x4000_0000_0000;

struct Machine {
    regs: [i64; 9],
    mem: Vec<u8>,
    cmp: (i64, i64),
}

fn reg_slot(r: Reg) -> usize {
    match r {
        Reg::Rax | Reg::Eax | Reg::Al => 0,
        Reg::Rdi | Reg::Edi => 1,
        Reg::Rsi => 2,
        Reg::Rdx => 3,
        Reg::Rcx => 4,
        Reg::R8 => 5,
        Reg::R9 => 6,
        Reg::Rbp => 7,
        Reg::Rsp => 8,
    }
}

impl Machine {
    fn get(&self, r: Reg) -> i64 {
        self.regs[reg_slot(r)]
    }

    fn set(&mut self, r: Reg, v: i64) {
        self.regs[reg_slot(r)] = v;
    }

    fn read_u64(&self, addr: usize) -> u64 {
        let mut v: u64 = 0;
        for k in 0..8 {
            v |= (self.mem[addr + k] as u64) << (8 * k);
        }
        v
    }

    fn write_u64(&mut self, addr: usize, v: u64) {
        for k in 0..8 {
            self.mem[addr + k] = ((v >> (8 * k)) & 0xff) as u8;
        }
    }

    fn read_u32(&self, addr: usize) -> u32 {
        let mut v: u32 = 0;
        for k in 0..4 {
            v |= (self.mem[addr + k] as u32) << (8 * k);
        }
        v
    }

    fn write_u32(&mut self, addr: usize, v: u32) {
        for k in 0..4 {
            self.mem[addr + k] = ((v >> (8 * k)) & 0xff) as u8;
        }
    }

    fn push(&mut self, v: u64) {
        let rsp = (self.get(Reg::Rsp) - 8) as usize;
        self.set(Reg::Rsp, rsp as i64);
        self.write_u64(rsp, v);
    }

    fn pop(&mut self) -> u64 {
        let rsp = self.get(Reg::Rsp) as usize;
        let v = self.read_u64(rsp);
        self.set(Reg::Rsp, (rsp + 8) as i64);
        v
    }
}

fn find_label(lines: &[AsmLine], kind: LabelKind, n: u64) -> usize {
    for (i, l) in lines.iter().enumerate() {
        if let AsmLine::Label(k, m) = l {
            if *k == kind && *m == n {
                return i;
            }
        }
    }
    panic!("label not defined");
}

fn find_function(lines: &[AsmLine], name: &str) -> usize {
    for (i, l) in lines.iter().enumerate() {
        if let AsmLine::FnLabel(m) = l {
            if m == name {
                return i;
            }
        }
    }
    panic!("function not defined: {}", name);
}

fn cond_holds(c: SetCond, cmp: (i64, i64)) -> bool {
    let (a, b) = cmp;
    match c {
        SetCond::L => a < b,
        SetCond::Le => a <= b,
        SetCond::E => a == b,
        SetCond::Ne => a != b,
        SetCond::G => a > b,
        SetCond::Ge => a >= b,
    }
}

fn run_lines(lines: &[AsmLine]) -> i32 {
    let mut m = Machine {
        regs: [0; 9],
        mem: vec![0; STACK_BYTES],
        cmp: (0, 0),
    };
    m.set(Reg::Rsp, (STACK_BYTES - 64) as i64);
    m.push(MAGIC_RETURN);
    let mut ip: usize = 0;
    let mut steps: u64 = 0;
    loop {
        steps += 1;
        assert!(steps < 10_000_000, "program did not terminate");
        assert!(ip < lines.len(), "instruction pointer ran off the end");
        let mut next = ip + 1;
        match &lines[ip] {
            AsmLine::Intel | AsmLine::Globl(_) | AsmLine::FnLabel(_) | AsmLine::Label(_, _) => {}
            AsmLine::PushReg(r) => {
                let v = m.get(*r) as u64;
                m.push(v);
            }
            AsmLine::PushImm(n) => m.push(*n as u64),
            AsmLine::PopReg(r) => {
                let v = m.pop() as i64;
                m.set(*r, v);
            }
            AsmLine::MovRegReg(a, b) => {
                let v = m.get(*b);
                m.set(*a, v);
            }
            AsmLine::MovRegImm(a, n) => m.set(*a, *n as i64),
            AsmLine::Load(a, b) => {
                let addr = m.get(*b) as usize;
                match a {
                    Reg::Eax | Reg::Edi => {
                        let v = m.read_u32(addr) as i64; // zero-extended
                        m.set(*a, v);
                    }
                    _ => {
                        let v = m.read_u64(addr) as i64;
                        m.set(*a, v);
                    }
                }
            }
            AsmLine::StoreIndirect(a, b) => {
                let addr = m.get(*a) as usize;
                match b {
                    Reg::Eax | Reg::Edi => {
                        let v = (m.get(*b) as u64 & 0xffff_ffff) as u32;
                        m.write_u32(addr, v);
                    }
                    _ => {
                        let v = m.get(*b) as u64;
                        m.write_u64(addr, v);
                    }
                }
            }
            AsmLine::StoreLocal(off, r) => {
                let addr = (m.get(Reg::Rbp) - (*off as i64)) as usize;
                let v = m.get(*r) as u64;
                m.write_u64(addr, v);
            }
            AsmLine::AddRegReg(a, b) => {
                let v = m.get(*a).wrapping_add(m.get(*b));
                m.set(*a, v);
            }
            AsmLine::SubRegReg(a, b) => {
                let v = m.get(*a).wrapping_sub(m.get(*b));
                m.set(*a, v);
            }
            AsmLine::AddRegImm(a, n) => {
                let v = m.get(*a).wrapping_add(*n as i64);
                m.set(*a, v);
            }
            AsmLine::SubRegImm(a, n) => {
                let v = m.get(*a).wrapping_sub(*n as i64);
                m.set(*a, v);
            }
            AsmLine::ImulRegReg(a, b) => {
                let v = m.get(*a).wrapping_mul(m.get(*b));
                m.set(*a, v);
            }
            AsmLine::ImulRegImm(a, n) => {
                let v = m.get(*a).wrapping_mul(*n as i64);
                m.set(*a, v);
            }
            AsmLine::Cqo => {
                let v = if m.get(Reg::Rax) < 0 { -1 } else { 0 };
                m.set(Reg::Rdx, v);
            }
            AsmLine::IdivReg(r) => {
                let divisor = m.get(*r) as i128;
                assert!(divisor != 0, "division by zero");
                let dividend =
                    ((m.get(Reg::Rdx) as i128) << 64) | (m.get(Reg::Rax) as u64 as i128);
                let q = dividend / divisor;
                let rem = dividend % divisor;
                m.set(Reg::Rax, q as i64);
                m.set(Reg::Rdx, rem as i64);
            }
            AsmLine::CmpRegReg(a, b) => m.cmp = (m.get(*a), m.get(*b)),
            AsmLine::CmpRegImm(a, n) => m.cmp = (m.get(*a), *n as i64),
            AsmLine::SetCc(c, _) => {
                let bit = if cond_holds(*c, m.cmp) { 1 } else { 0 };
                let v = (m.get(Reg::Rax) as u64 & !0xffu64) | bit;
                m.set(Reg::Rax, v as i64);
            }
            AsmLine::Movzb(_, _) => {
                let v = m.get(Reg::Rax) as u64 & 0xff;
                m.set(Reg::Rax, v as i64);
            }
            AsmLine::Je(k, n) => {
                if m.cmp.0 == m.cmp.1 {
                    next = find_label(lines, *k, *n);
                }
            }
            AsmLine::Jmp(k, n) => {
                next = find_label(lines, *k, *n);
            }
            AsmLine::Call(name) => {
                m.push(CODE_BASE + (ip as u64 + 1));
                next = find_function(lines, name);
            }
            AsmLine::Epilogue => {
                let rbp = m.get(Reg::Rbp);
                m.set(Reg::Rsp, rbp);
                let old_rbp = m.pop() as i64;
                m.set(Reg::Rbp, old_rbp);
                let ret = m.pop();
                if ret == MAGIC_RETURN {
                    return (m.get(Reg::Rax) & 0xff) as i32;
                }
                next = (ret - CODE_BASE) as usize;
            }
        }
        ip = next;
    }
}

fn run_source(src: &str) -> i32 {
    let lines = compile(&src.chars().collect::<Vec<char>>()).unwrap();
    run_lines(&lines)
}

#[test]
fn exec_return_zero() {
    assert_eq!(run_source("int main () { return 0; }"), 0);
}

#[test]
fn exec_parenthesised_arithmetic() {
    assert_eq!(run_source("int main () { return 2 * (3 + 4); }"), 14);
}

#[test]
fn exec_variable_assignment() {
    assert_eq!(
        run_source("int main () { int num; num = 3; return num + 2; }"),
        5
    );
}

#[test]
fn exec_for_loop_sum() {
    assert_eq!(
        run_source(
            "int main () { int sum; int i; sum = 0; for (i = 0; i <= 10; i = i + 1) sum = sum + i; return sum; }"
        ),
        55
    );
}

#[test]
fn exec_pointer_argument() {
    assert_eq!(
        run_source("int main () { int a; a = 5; f(&a); return a; } int f(int *p) { *p = *p + 5; }"),
        10
    );
}

#[test]
fn exec_array_elements() {
    assert_eq!(
        run_source("int main () { int a[2]; a[0] = 1; a[1] = 2; return a[0] + a[1]; }"),
        3
    );
}

#[test]
fn exec_subtraction_and_division() {
    assert_eq!(run_source("int main () { return 5 + 20 - 4; }"), 21);
    assert_eq!(run_source("int main () { return 3 + 10 / 5; }"), 5);
    assert_eq!(run_source("int main () { return -10+20; }"), 10);
    assert_eq!(run_source("int main () { return +10+20; }"), 30);
}

#[test]
fn exec_comparisons() {
    assert_eq!(run_source("int main () { return 10 == 10; }"), 1);
    assert_eq!(run_source("int main () { return 10 != 10; }"), 0);
    assert_eq!(run_source("int main () { return 10 < 20; }"), 1);
    assert_eq!(run_source("int main () { return 20 <= 10; }"), 0);
    assert_eq!(run_source("int main () { return 20 > 10; }"), 1);
    assert_eq!(run_source("int main () { return 10 >= 20; }"), 0);
}

#[test]
fn exec_if_and_else() {
    assert_eq!(run_source("int main () { if (1) return 3; return 5; }"), 3);
    assert_eq!(run_source("int main () { if (0) return 3; return 5; }"), 5);
    assert_eq!(
        run_source("int main () { if (1) return 3; else return 5; }"),
        3
    );
    assert_eq!(
        run_source("int main () { if (0) return 3; else return 5; }"),
        5
    );
}

#[test]
fn exec_while_loop() {
    assert_eq!(
        run_source("int main () { int i; i = 1; while (i < 10) i = i * 2; return i; }"),
        16
    );
}

#[test]
fn exec_chained_assignment() {
    assert_eq!(
        run_source(
            "int main () { int num1; int num2; num1 = num2 = 3; return num1 + num2; }"
        ),
        6
    );
}

#[test]
fn exec_first_return_wins() {
    assert_eq!(run_source("int main () { return 3; return 5; }"), 3);
    assert_eq!(run_source("int main () { 1; return 2; 3; }"), 2);
}

#[test]
fn exec_function_calls() {
    assert_eq!(
        run_source("int my_func() { return 3; } int main () { return my_func(); }"),
        3
    );
    assert_eq!(
        run_source(
            "int my_func(int a) { int b; b = 3; return a + b; } int main () { return my_func(3); }"
        ),
        6
    );
    assert_eq!(
        run_source(
            "int my_func(int a, int b, int c, int d, int e, int f){int g; int h; g = 7; \
             h = a + b * 2 + c * 3 + d * 4 + e * 5 + f * 6 + g; return h / 2;} \
             int main(){return my_func(1,2,3,4,5,6);}"
        ),
        49
    );
}

#[test]
fn exec_pointer_arithmetic_on_array() {
    assert_eq!(
        run_source("int main() { int a[2]; *a = 1; *(a + 1) = 2; return *a + *(a + 1); }"),
        3
    );
    assert_eq!(
        run_source(
            "int main() { int a[2]; int i; i = 1; *a = 1; *(a + i) = 2; return *a + *(a + i); }"
        ),
        3
    );
    assert_eq!(
        run_source("int main() { int a[2]; *a = 5; *(a + 1) = 7; return *a; }"),
        5
    );
}

#[test]
fn exec_sizeof_values() {
    assert_eq!(run_source("int main() { return sizeof(1); }"), 4);
    assert_eq!(run_source("int main() { int a; return sizeof(&a); }"), 8);
    assert_eq!(run_source("int main() { int a[5]; return sizeof(a); }"), 20);
}
