//! Collects a function's local type environment: its parameters followed
//! by every variable declaration under its body, in declaration order. A
//! duplicate name is fatal.
use vstd::prelude::*;

use crate::errors::TypeErrorKind;
use crate::statement::Statement;
use crate::types::Type;

verus! {

/// The declarations a statement contributes, in source order.
pub open spec fn decls_of_statement(st: Statement) -> Seq<(String, Type)>
    decreases st,
{
    match st {
        Statement::Expr(_) => Seq::empty(),
        Statement::Return(_) => Seq::empty(),
        Statement::If(_, then) => decls_of_statement(*then),
        Statement::IfElse(_, then, els) => decls_of_statement(*then) + decls_of_statement(*els),
        Statement::While(_, body) => decls_of_statement(*body),
        Statement::For(_, _, _, body) => decls_of_statement(*body),
        Statement::Block(sts) => decls_of_statements(sts@),
        Statement::VariableDeclaration(name, ty) => seq![(name, ty)],
    }
}

/// The declarations of a statement sequence, in order.
pub open spec fn decls_of_statements(sts: Seq<Statement>) -> Seq<(String, Type)>
    decreases sts,
{
    if sts.len() == 0 {
        Seq::empty()
    } else {
        decls_of_statements(sts.drop_last()) + decls_of_statement(sts.last())
    }
}

/// No name occurs twice.
pub open spec fn distinct_names(s: Seq<(String, Type)>) -> bool {
    forall|i: int, j: int| 0 <= i < j < s.len() ==> s[i].0@ != s[j].0@
}

pub(crate) fn clone_pair(p: &(String, Type)) -> (r: (String, Type))
    ensures
        r == *p,
{
    (p.0.clone(), p.1.clone())
}

/// An element-wise copy of a name-to-type environment.
pub(crate) fn clone_pairs(v: &Vec<(String, Type)>) -> (r: Vec<(String, Type)>)
    ensures
        r@ == v@,
{
    let mut r: Vec<(String, Type)> = Vec::new();
    let n = v.len();
    for i in 0..n
        invariant
            n == v@.len(),
            r@ =~= v@.take(i as int),
    {
        let p = clone_pair(&v[i]);
        r.push(p);
        proof {
            assert(r@ =~= v@.take(i as int + 1));
        }
    }
    proof {
        assert(v@.take(n as int) =~= v@);
    }
    r
}

/// The declarations under one statement.
pub fn collect_variables_in_statement(statement: &Statement) -> (r: Vec<(String, Type)>)
    ensures
        r@ == decls_of_statement(*statement),
    decreases *statement,
{
    match statement {
        Statement::Expr(_) => Vec::new(),
        Statement::Return(_) => Vec::new(),
        Statement::If(_, then) => collect_variables_in_statement(then),
        Statement::IfElse(_, then, els) => {
            let mut r = collect_variables_in_statement(then);
            let mut r2 = collect_variables_in_statement(els);
            r.append(&mut r2);
            r
        },
        Statement::While(_, body) => collect_variables_in_statement(body),
        Statement::For(_, _, _, body) => collect_variables_in_statement(body),
        Statement::Block(sts) => collect_variables_in_statements(sts),
        Statement::VariableDeclaration(name, ty) => {
            let mut r: Vec<(String, Type)> = Vec::new();
            r.push((name.clone(), ty.clone()));
            proof {
                assert(r@ =~= seq![(*name, *ty)]);
            }
            r
        },
    }
}

/// The declarations under a statement sequence.
pub fn collect_variables_in_statements(statements: &Vec<Statement>) -> (r: Vec<(String, Type)>)
    ensures
        r@ == decls_of_statements(statements@),
    decreases statements@,
{
    let mut r: Vec<(String, Type)> = Vec::new();
    proof {
        assert(statements@.take(0) =~= Seq::<Statement>::empty());
    }
    let n = statements.len();
    for i in 0..n
        invariant
            n == statements@.len(),
            r@ == decls_of_statements(statements@.take(i as int)),
    {
        let mut d = collect_variables_in_statement(&statements[i]);
        proof {
            assert(statements@.take(i as int + 1).drop_last() =~= statements@.take(i as int));
            assert(statements@.take(i as int + 1).last() == statements@[i as int]);
        }
        r.append(&mut d);
    }
    proof {
        assert(statements@.take(n as int) =~= statements@);
    }
    r
}

/// Builds the local type environment: parameters, then declarations, in
/// order. A repeated name is a `DuplicateLocal` error, and the error comes
/// exactly when some name repeats.
pub fn collect_variables(args: &Vec<(String, Type)>, statements: &Vec<Statement>) -> (r: Result<
    Vec<(String, Type)>,
    TypeErrorKind,
>)
    ensures
        ({
            let all = args@ + decls_of_statements(statements@);
            match r {
                Ok(m) => m@ == all && distinct_names(all),
                Err(k) => k == TypeErrorKind::DuplicateLocal && !distinct_names(all),
            }
        }),
{
    let ghost all = args@ + decls_of_statements(statements@);
    let mut combined: Vec<(String, Type)> = Vec::new();
    let na = args.len();
    for i in 0..na
        invariant
            na == args@.len(),
            combined@ =~= args@.take(i as int),
    {
        let p = clone_pair(&args[i]);
        combined.push(p);
        proof {
            assert(combined@ =~= args@.take(i as int + 1));
        }
    }
    let mut rest = collect_variables_in_statements(statements);
    proof {
        assert(combined@ =~= args@);
    }
    combined.append(&mut rest);
    proof {
        assert(combined@ == all);
    }
    // Scan for a repeated name; the result keeps every entry in order.
    let n = combined.len();
    let mut i: usize = 0;
    while i < n
        invariant
            all == args@ + decls_of_statements(statements@),
            n == combined@.len(),
            combined@ == all,
            i <= n,
            forall|a: int, b: int| 0 <= a < b < i ==> all[a].0@ != all[b].0@,
        decreases n - i,
    {
        let mut j: usize = 0;
        while j < i
            invariant
                all == args@ + decls_of_statements(statements@),
                n == combined@.len(),
                combined@ == all,
                j <= i < n,
                forall|b: int| 0 <= b < j ==> all[b].0@ != all[i as int].0@,
            decreases i - j,
        {
            if combined[j].0 == combined[i].0 {
                proof {
                    assert(all[j as int].0@ == all[i as int].0@);
                    assert(!distinct_names(all));
                }
                return Err(TypeErrorKind::DuplicateLocal);
            }
            j = j + 1;
        }
        i = i + 1;
    }
    Ok(combined)
}

} // verus!
