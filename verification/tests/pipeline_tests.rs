use minic::compile;
use minic::errors::CodegenErrorKind;
use minic::errors::CompileError;
use minic::errors::TypeErrorKind;
use minic::expr::Expr;
use minic::parser::Parser;
use minic::process;
use minic::lex::tokenize;
use minic::statement::Statement;
use minic::top_level::TopLevel;
use minic::types::Type;

fn compile_text(src: &str) -> Result<String, CompileError> {
    process(&src.chars().collect::<Vec<char>>())
}

fn parse_program(src: &str) -> Vec<TopLevel> {
    let tokens = tokenize(&src.chars().collect::<Vec<char>>()).unwrap();
    let mut parser = Parser::new(tokens);
    parser.munch_program().unwrap()
}

// A small pretty-printer over the untyped tree, used to check that
// printing and re-parsing gives the same tree back.
fn print_expr(e: &Expr) -> String {
    match e {
        Expr::Num(n) => format!("{}", n),
        Expr::Add(l, r) => format!("({} + {})", print_expr(l), print_expr(r)),
        Expr::Sub(l, r) => format!("({} - {})", print_expr(l), print_expr(r)),
        Expr::Mul(l, r) => format!("({} * {})", print_expr(l), print_expr(r)),
        Expr::Div(l, r) => format!("({} / {})", print_expr(l), print_expr(r)),
        Expr::LessThan(l, r) => format!("({} < {})", print_expr(l), print_expr(r)),
        Expr::LessEqual(l, r) => format!("({} <= {})", print_expr(l), print_expr(r)),
        Expr::Equal(l, r) => format!("({} == {})", print_expr(l), print_expr(r)),
        Expr::NotEqual(l, r) => format!("({} != {})", print_expr(l), print_expr(r)),
        Expr::GreaterThan(l, r) => format!("({} > {})", print_expr(l), print_expr(r)),
        Expr::GreaterEqual(l, r) => format!("({} >= {})", print_expr(l), print_expr(r)),
        Expr::Assign(l, r) => format!("({} = {})", print_expr(l), print_expr(r)),
        Expr::Variable(n) => n.clone(),
        Expr::FunctionCall(n, args) => {
            let parts: Vec<String> = args.iter().map(print_expr).collect();
            format!("{}({})", n, parts.join(", "))
        }
        Expr::Address(x) => format!("(&{})", print_expr(x)),
        Expr::Dereference(x) => format!("(*{})", print_expr(x)),
        Expr::Sizeof(x) => format!("sizeof({})", print_expr(x)),
    }
}

fn print_declared(name: &str, ty: &Type) -> String {
    match ty {
        Type::Array(el, n) => format!("{} {}[{}]", print_base_type(el), name, n),
        other => format!("{} {}", print_base_type(other), name),
    }
}

fn print_base_type(ty: &Type) -> String {
    match ty {
        Type::IntTyp => "int".to_string(),
        Type::Pointer(inner) => format!("{}*", print_base_type(inner)),
        Type::Array(_, _) => panic!("arrays nest only behind a name"),
    }
}

fn print_statement(st: &Statement) -> String {
    match st {
        Statement::Expr(e) => format!("{};", print_expr(e)),
        Statement::Return(e) => format!("return {};", print_expr(e)),
        Statement::If(c, s) => format!("if ({}) {}", print_expr(c), print_statement(s)),
        Statement::IfElse(c, s1, s2) => format!(
            "if ({}) {} else {}",
            print_expr(c),
            print_statement(s1),
            print_statement(s2)
        ),
        Statement::While(c, s) => format!("while ({}) {}", print_expr(c), print_statement(s)),
        Statement::For(a, b, c, s) => format!(
            "for ({}; {}; {}) {}",
            print_expr(a),
            print_expr(b),
            print_expr(c),
            print_statement(s)
        ),
        Statement::Block(sts) => {
            let parts: Vec<String> = sts.iter().map(print_statement).collect();
            format!("{{ {} }}", parts.join(" "))
        }
        Statement::VariableDeclaration(n, ty) => format!("{};", print_declared(n, ty)),
    }
}

fn print_top_level(t: &TopLevel) -> String {
    match t {
        TopLevel::FunctionDefinition(name, params, ret, body) => {
            let ps: Vec<String> = params.iter().map(|(n, t2)| print_declared(n, t2)).collect();
            let sts: Vec<String> = body.iter().map(print_statement).collect();
            format!(
                "{} {}({}) {{ {} }}",
                print_base_type(ret),
                name,
                ps.join(", "),
                sts.join(" ")
            )
        }
        TopLevel::ExternalFunctionDeclaration(name, params, ret) => {
            let ps: Vec<String> = params.iter().map(|(n, t2)| print_declared(n, t2)).collect();
            format!("extern {} {}({});", print_base_type(ret), name, ps.join(", "))
        }
    }
}

fn print_program(items: &Vec<TopLevel>) -> String {
    let parts: Vec<String> = items.iter().map(print_top_level).collect();
    parts.join(" ")
}

fn assert_round_trip(src: &str) {
    let first = parse_program(src);
    let printed = print_program(&first);
    let second = parse_program(&printed);
    assert_eq!(first, second, "printed form: {}", printed);
}

#[test]
fn round_trip_simple_function() {
    assert_round_trip("int main () { return 2 * (3 + 4); }");
}

#[test]
fn round_trip_control_flow() {
    assert_round_trip(
        "int main () { int sum; int i; sum = 0; for (i = 0; i <= 10; i = i + 1) sum = sum + i; \
         if (sum > 10) return sum; else return 0; }",
    );
}

#[test]
fn round_trip_pointers_and_arrays() {
    assert_round_trip(
        "extern int g(int *p, int q); int main () { int a[2]; a[0] = 1; a[1] = -2; \
         while (a[0] < 3) a[0] = a[0] + 1; return g(&a[0], sizeof(a)); } \
         int h(int *p) { *p = *p + 5; }",
    );
}

#[test]
fn empty_body_compiles() {
    // The generated function falls through to a bare epilogue.
    let listing = compile_text("int main () { }").unwrap();
    assert!(listing.contains("main:"));
    assert!(listing.contains("  ret"));
}

#[test]
fn six_parameters_compile_but_seven_fail() {
    let six = "int f(int a, int b, int c, int d, int e, int g) { return a; } \
               int main () { return f(1,2,3,4,5,6); }";
    assert!(compile_text(six).is_ok());
    let seven = "int f(int a, int b, int c, int d, int e, int g, int h) { return a; } \
                 int main () { return f(1,2,3,4,5,6,7); }";
    assert_eq!(
        compile_text(seven).unwrap_err(),
        CompileError::Codegen(CodegenErrorKind::UnsupportedParameterCount)
    );
}

#[test]
fn sizeof_values_in_emitted_code() {
    let int_case = compile_text("int main() { return sizeof(1); }").unwrap();
    assert!(int_case.contains("  mov rax, 4"));
    let pointer_case = compile_text("int main() { int a; return sizeof(&a); }").unwrap();
    assert!(pointer_case.contains("  mov rax, 8"));
    let array_case = compile_text("int main() { int a[5]; return sizeof(a); }").unwrap();
    assert!(array_case.contains("  mov rax, 20"));
}

#[test]
fn sizeof_of_types_directly() {
    assert_eq!(Type::IntTyp.get_size(), 4);
    assert_eq!(Type::Pointer(Box::new(Type::IntTyp)).get_size(), 8);
    assert_eq!(Type::Array(Box::new(Type::IntTyp), 5).get_size(), 20);
}

#[test]
fn emitted_labels_are_unique() {
    let src = "int main () { int i; i = 0; while (i < 3) { if (i == 1) i = i + 2; else i = i + 1; \
               if (i > 2) return i; } for (i = 0; i < 2; i = i + 1) { if (i) return 9; } return 0; }";
    let lines = compile(&src.chars().collect::<Vec<char>>()).unwrap();
    let text = minic::emit::render_program(&lines);
    let mut defs: Vec<&str> = text
        .lines()
        .filter(|l| l.starts_with(".L") && l.ends_with(":"))
        .collect();
    let before = defs.len();
    defs.sort();
    defs.dedup();
    assert!(before > 3);
    assert_eq!(before, defs.len());
}

#[test]
fn undefined_variable_is_reported() {
    assert_eq!(
        compile_text("int main () { return x; }").unwrap_err(),
        CompileError::Typing(TypeErrorKind::UndefinedVariable)
    );
}

#[test]
fn undefined_function_is_reported() {
    assert_eq!(
        compile_text("int main () { return g(); }").unwrap_err(),
        CompileError::Typing(TypeErrorKind::UndefinedFunction)
    );
}

#[test]
fn arity_mismatch_is_reported() {
    let src = "int f(int a) { return a; } int main () { return f(1, 2); }";
    assert_eq!(
        compile_text(src).unwrap_err(),
        CompileError::Typing(TypeErrorKind::ArityMismatch)
    );
}

#[test]
fn argument_type_mismatch_is_reported() {
    let src = "int f(int *p) { return 0; } int main () { return f(1); }";
    assert_eq!(
        compile_text(src).unwrap_err(),
        CompileError::Typing(TypeErrorKind::ArgumentTypeMismatch)
    );
}

#[test]
fn return_type_mismatch_is_reported() {
    let src = "int main () { int a[2]; return a; }";
    assert_eq!(
        compile_text(src).unwrap_err(),
        CompileError::Typing(TypeErrorKind::ReturnTypeMismatch)
    );
}

#[test]
fn pointer_plus_pointer_is_reported() {
    let src = "int main () { int *p; int *q; return p + q; }";
    assert_eq!(
        compile_text(src).unwrap_err(),
        CompileError::Typing(TypeErrorKind::PointerPlusPointer)
    );
}

#[test]
fn dereference_of_integer_is_reported() {
    let src = "int main () { int a; return *a; }";
    assert_eq!(
        compile_text(src).unwrap_err(),
        CompileError::Typing(TypeErrorKind::DereferenceNonPointer)
    );
}

#[test]
fn array_assignment_target_is_reported() {
    let src = "int main () { int a[2]; int b; a = b; return 0; }";
    assert_eq!(
        compile_text(src).unwrap_err(),
        CompileError::Typing(TypeErrorKind::ArrayAsLValueTarget)
    );
}

#[test]
fn duplicate_local_is_reported() {
    let src = "int main () { int a; int a; return 0; }";
    assert_eq!(
        compile_text(src).unwrap_err(),
        CompileError::Typing(TypeErrorKind::DuplicateLocal)
    );
}

#[test]
fn constant_assignment_target_is_invalid_lvalue() {
    let src = "int main () { 1 = 2; return 0; }";
    assert_eq!(
        compile_text(src).unwrap_err(),
        CompileError::Codegen(CodegenErrorKind::InvalidLValueForm)
    );
}

#[test]
fn parse_error_carries_position() {
    let src = "int main ( { return 0; }";
    match compile_text(src).unwrap_err() {
        CompileError::Parse(e) => {
            assert_eq!(e.pos, 11);
        }
        other => panic!("unexpected: {:?}", other),
    }
}

#[test]
fn full_listing_of_smallest_program() {
    let listing = compile_text("int main () { return 0; }").unwrap();
    let expected = ".intel_syntax noprefix\n  push rbp\n  mov rbp, rsp\n  sub rsp, 8\n  call main\n  add rsp, 8\n  mov rsp, rbp\n  pop rbp\n  ret\n.globl main\nmain:\n  push rbp\n  mov rbp, rsp\n  sub rsp, 8\n  push 0\n  pop rax\n  mov rsp, rbp\n  pop rbp\n  ret\n  mov rsp, rbp\n  pop rbp\n  ret\n";
    assert_eq!(listing, expected);
}

#[test]
fn diagnostic_layout_places_caret_under_position() {
    let source: Vec<char> = "int @".chars().collect();
    let message = "boom".to_string();
    let rendered = minic::errors::render_diagnostic(&source, 4, &message);
    assert_eq!(rendered, "int @\n    ^boom");
}

#[test]
fn numeric_literals_saturate_at_int_max() {
    let tokens = tokenize(&"99999999999999999999".chars().collect::<Vec<char>>()).unwrap();
    assert_eq!(tokens.len(), 1);
    match &tokens[0].0 {
        minic::token::Token::Num(n) => assert_eq!(*n, i32::MAX),
        other => panic!("unexpected token: {:?}", other),
    }
}

#[test]
fn oversized_frame_is_reported() {
    let src = "int main () { int a[600000000]; return 0; }";
    assert_eq!(
        compile_text(src).unwrap_err(),
        CompileError::Codegen(CodegenErrorKind::FrameTooLarge)
    );
}

#[test]
fn extern_declaration_emits_no_definition() {
    let src = "extern int foo(int a); int main () { return foo(3); }";
    let listing = compile_text(src).unwrap();
    assert!(listing.contains("  call foo"));
    assert!(!listing.contains("foo:"));
    assert!(listing.contains("main:"));
}

#[test]
fn call_alignment_padding_appears_in_pairs() {
    let src = "int f() { return 1; } int main () { int a; a = f(); return a + f(); }";
    let listing = compile_text(src).unwrap();
    let subs = listing.lines().filter(|l| l.starts_with("  sub rsp, ")).count();
    let adds = listing.lines().filter(|l| l.starts_with("  add rsp, ")).count();
    // one `sub rsp` per prologue and one per call; each call also restores
    assert!(subs >= adds);
    assert!(listing.contains("  call f"));
    assert!(listing.contains("  call main"));
}
