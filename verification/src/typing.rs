//! The type elaborator: untyped syntax plus the signature table and the
//! local environment, to typed syntax. The typing rules live in
//! `spec_type_expr`; `elaborates_to` says what the produced typed tree
//! looks like; the executable elaborator is proved to realise both.
use vstd::prelude::*;

use crate::errors::TypeErrorKind;
use crate::expr::Expr;
use crate::expr::TypedExpr;
use crate::function_collector::fun_lookup;
use crate::statement::Statement;
use crate::statement::TypedStatement;
use crate::top_level::TopLevel;
use crate::top_level::TypedTopLevel;
use crate::types::decay_type;
use crate::types::spec_pointer_to;
use crate::types::FunctionType;
use crate::types::Type;
use crate::variable_collector::collect_variables;
use crate::variable_collector::decls_of_statements;
use crate::variable_collector::distinct_names;

verus! {

/// The type registered for a local, the first entry winning (entries are
/// unique anyway).
pub open spec fn var_lookup(env: Seq<(String, Type)>, name: Seq<char>) -> Option<Type>
    decreases env.len(),
{
    if env.len() == 0 {
        None
    } else if env[0].0@ == name {
        Some(env[0].1)
    } else {
        var_lookup(env.drop_first(), name)
    }
}

/// The result type of an expression under the two environments, or the
/// first violation of the typing rules, in evaluation order.
pub open spec fn spec_type_expr(
    fenv: Seq<(String, FunctionType)>,
    venv: Seq<(String, Type)>,
    e: Expr,
) -> Result<Type, TypeErrorKind>
    decreases e,
{
    match e {
        Expr::Num(_) => Ok(Type::IntTyp),
        Expr::Variable(name) => match var_lookup(venv, name@) {
            Some(t) => Ok(t),
            None => Err(TypeErrorKind::UndefinedVariable),
        },
        Expr::Add(l, r) | Expr::Sub(l, r) => match spec_type_expr(fenv, venv, *l) {
            Err(k) => Err(k),
            Ok(tl0) => match spec_type_expr(fenv, venv, *r) {
                Err(k) => Err(k),
                Ok(tr0) => {
                    let tl = decay_type(tl0);
                    let tr = decay_type(tr0);
                    if tl is Pointer && tr is Pointer {
                        Err(TypeErrorKind::PointerPlusPointer)
                    } else if tl is Pointer {
                        Ok(tl)
                    } else if tr is Pointer {
                        Ok(tr)
                    } else {
                        Ok(Type::IntTyp)
                    }
                },
            },
        },
        Expr::Mul(l, r) | Expr::Div(l, r) => match spec_type_expr(fenv, venv, *l) {
            Err(k) => Err(k),
            Ok(tl0) => match spec_type_expr(fenv, venv, *r) {
                Err(k) => Err(k),
                Ok(tr0) => {
                    if decay_type(tl0) is IntTyp && decay_type(tr0) is IntTyp {
                        Ok(Type::IntTyp)
                    } else {
                        Err(TypeErrorKind::PointerPlusPointer)
                    }
                },
            },
        },
        Expr::LessThan(l, r) | Expr::LessEqual(l, r) | Expr::Equal(l, r) | Expr::NotEqual(l, r)
            | Expr::GreaterThan(l, r) | Expr::GreaterEqual(l, r) => match spec_type_expr(
            fenv,
            venv,
            *l,
        ) {
            Err(k) => Err(k),
            Ok(tl0) => match spec_type_expr(fenv, venv, *r) {
                Err(k) => Err(k),
                Ok(tr0) => {
                    if decay_type(tl0) == decay_type(tr0) {
                        Ok(Type::IntTyp)
                    } else {
                        Err(TypeErrorKind::ArgumentTypeMismatch)
                    }
                },
            },
        },
        Expr::Assign(l, r) => match spec_type_expr(fenv, venv, *l) {
            Err(k) => Err(k),
            Ok(tl) => match spec_type_expr(fenv, venv, *r) {
                Err(k) => Err(k),
                Ok(_) => {
                    if tl is Array {
                        Err(TypeErrorKind::ArrayAsLValueTarget)
                    } else {
                        Ok(tl)
                    }
                },
            },
        },
        Expr::Address(op) => match spec_type_expr(fenv, venv, *op) {
            Err(k) => Err(k),
            Ok(t) => Ok(spec_pointer_to(t)),
        },
        Expr::Dereference(op) => match spec_type_expr(fenv, venv, *op) {
            Err(k) => Err(k),
            Ok(t) => match decay_type(t) {
                Type::Pointer(inner) => Ok(*inner),
                _ => Err(TypeErrorKind::DereferenceNonPointer),
            },
        },
        Expr::Sizeof(op) => match spec_type_expr(fenv, venv, *op) {
            Err(k) => Err(k),
            Ok(_) => Ok(Type::IntTyp),
        },
        Expr::FunctionCall(name, args) => match fun_lookup(fenv, name@) {
            None => Err(TypeErrorKind::UndefinedFunction),
            Some(ft) => {
                if ft.0@.len() != args@.len() {
                    Err(TypeErrorKind::ArityMismatch)
                } else {
                    match spec_type_args(fenv, venv, args@, ft.0@) {
                        Err(k) => Err(k),
                        Ok(_) => Ok(*ft.1),
                    }
                }
            },
        },
    }
}

/// Call arguments, left to right: each elaborates and, after decay, must
/// equal the declared parameter type.
pub open spec fn spec_type_args(
    fenv: Seq<(String, FunctionType)>,
    venv: Seq<(String, Type)>,
    args: Seq<Expr>,
    params: Seq<Type>,
) -> Result<(), TypeErrorKind>
    decreases args,
{
    if args.len() == 0 {
        Ok(())
    } else {
        match spec_type_expr(fenv, venv, args[0]) {
            Err(k) => Err(k),
            Ok(t) => {
                if decay_type(t) != params[0] {
                    Err(TypeErrorKind::ArgumentTypeMismatch)
                } else {
                    spec_type_args(fenv, venv, args.drop_first(), params.drop_first())
                }
            },
        }
    }
}

/// The rule type with the root decayed when asked for.
pub open spec fn maybe_decay(decayed: bool, t: Type) -> Type {
    if decayed {
        decay_type(t)
    } else {
        t
    }
}

/// What the elaborator produces for `e`: a typed tree of the same shape,
/// each child decayed exactly where the rules decay it, every annotation
/// the rule type (decayed at the root when `decayed` holds).
pub open spec fn elaborates_to(
    fenv: Seq<(String, FunctionType)>,
    venv: Seq<(String, Type)>,
    e: Expr,
    te: TypedExpr,
    decayed: bool,
) -> bool
    decreases e,
{
    spec_type_expr(fenv, venv, e) is Ok && {
        let t_rule = maybe_decay(decayed, spec_type_expr(fenv, venv, e)->Ok_0);
        match e {
            Expr::Num(n) => te == TypedExpr::IntNum(n),
            Expr::Variable(name) => (te matches TypedExpr::Variable(t, m) && m == name && t
                == t_rule),
            Expr::Add(l, r) => (te matches TypedExpr::Add(t, tl, tr) && elaborates_to(
                fenv,
                venv,
                *l,
                *tl,
                true,
            ) && elaborates_to(fenv, venv, *r, *tr, true) && t == t_rule),
            Expr::Sub(l, r) => (te matches TypedExpr::Sub(t, tl, tr) && elaborates_to(
                fenv,
                venv,
                *l,
                *tl,
                true,
            ) && elaborates_to(fenv, venv, *r, *tr, true) && t == t_rule),
            Expr::Mul(l, r) => (te matches TypedExpr::Mul(t, tl, tr) && elaborates_to(
                fenv,
                venv,
                *l,
                *tl,
                true,
            ) && elaborates_to(fenv, venv, *r, *tr, true) && t == t_rule),
            Expr::Div(l, r) => (te matches TypedExpr::Div(t, tl, tr) && elaborates_to(
                fenv,
                venv,
                *l,
                *tl,
                true,
            ) && elaborates_to(fenv, venv, *r, *tr, true) && t == t_rule),
            Expr::LessThan(l, r) => (te matches TypedExpr::LessThan(tl, tr) && elaborates_to(
                fenv,
                venv,
                *l,
                *tl,
                true,
            ) && elaborates_to(fenv, venv, *r, *tr, true)),
            Expr::LessEqual(l, r) => (te matches TypedExpr::LessEqual(tl, tr) && elaborates_to(
                fenv,
                venv,
                *l,
                *tl,
                true,
            ) && elaborates_to(fenv, venv, *r, *tr, true)),
            Expr::Equal(l, r) => (te matches TypedExpr::Equal(tl, tr) && elaborates_to(
                fenv,
                venv,
                *l,
                *tl,
                true,
            ) && elaborates_to(fenv, venv, *r, *tr, true)),
            Expr::NotEqual(l, r) => (te matches TypedExpr::NotEqual(tl, tr) && elaborates_to(
                fenv,
                venv,
                *l,
                *tl,
                true,
            ) && elaborates_to(fenv, venv, *r, *tr, true)),
            Expr::GreaterThan(l, r) => (te matches TypedExpr::GreaterThan(tl, tr) && elaborates_to(
                fenv,
                venv,
                *l,
                *tl,
                true,
            ) && elaborates_to(fenv, venv, *r, *tr, true)),
            Expr::GreaterEqual(l, r) => (te matches TypedExpr::GreaterEqual(tl, tr)
                && elaborates_to(fenv, venv, *l, *tl, true) && elaborates_to(
                fenv,
                venv,
                *r,
                *tr,
                true,
            )),
            Expr::Assign(l, r) => (te matches TypedExpr::Assign(t, tl, tr) && elaborates_to(
                fenv,
                venv,
                *l,
                *tl,
                false,
            ) && elaborates_to(fenv, venv, *r, *tr, true) && t == t_rule),
            Expr::FunctionCall(name, args) => (te matches TypedExpr::FunctionCall(t, m, targs) && m
                == name && targs@.len() == args@.len() && (forall|i: int|
                0 <= i < args@.len() ==> elaborates_to(
                    fenv,
                    venv,
                    #[trigger] args@[i],
                    targs@[i],
                    true,
                )) && t == t_rule),
            Expr::Address(op) => (te matches TypedExpr::Address(t, top) && elaborates_to(
                fenv,
                venv,
                *op,
                *top,
                false,
            ) && t == t_rule),
            Expr::Dereference(op) => (te matches TypedExpr::Dereference(t, top) && elaborates_to(
                fenv,
                venv,
                *op,
                *top,
                true,
            ) && t == t_rule),
            Expr::Sizeof(op) => (te matches TypedExpr::Sizeof(top) && elaborates_to(
                fenv,
                venv,
                *op,
                *top,
                false,
            )),
        }
    }
}



/// The check a statement must pass, or its first violation: expressions
/// in evaluation order, a `return` expression's type equal to the
/// enclosing function's return type.
pub open spec fn spec_type_statement(
    fenv: Seq<(String, FunctionType)>,
    venv: Seq<(String, Type)>,
    ret: Type,
    st: Statement,
) -> Result<(), TypeErrorKind>
    decreases st,
{
    match st {
        Statement::Expr(e) => match spec_type_expr(fenv, venv, e) {
            Err(k) => Err(k),
            Ok(_) => Ok(()),
        },
        Statement::Return(e) => match spec_type_expr(fenv, venv, e) {
            Err(k) => Err(k),
            Ok(t) => if t == ret {
                Ok(())
            } else {
                Err(TypeErrorKind::ReturnTypeMismatch)
            },
        },
        Statement::If(c, s1) => match spec_type_expr(fenv, venv, *c) {
            Err(k) => Err(k),
            Ok(_) => spec_type_statement(fenv, venv, ret, *s1),
        },
        Statement::IfElse(c, s1, s2) => match spec_type_expr(fenv, venv, *c) {
            Err(k) => Err(k),
            Ok(_) => match spec_type_statement(fenv, venv, ret, *s1) {
                Err(k) => Err(k),
                Ok(_) => spec_type_statement(fenv, venv, ret, *s2),
            },
        },
        Statement::While(c, body) => match spec_type_expr(fenv, venv, *c) {
            Err(k) => Err(k),
            Ok(_) => spec_type_statement(fenv, venv, ret, *body),
        },
        Statement::For(init, cond, update, body) => match spec_type_expr(fenv, venv, *init) {
            Err(k) => Err(k),
            Ok(_) => match spec_type_expr(fenv, venv, *cond) {
                Err(k) => Err(k),
                Ok(_) => match spec_type_expr(fenv, venv, *update) {
                    Err(k) => Err(k),
                    Ok(_) => spec_type_statement(fenv, venv, ret, *body),
                },
            },
        },
        Statement::Block(sts) => spec_type_statements(fenv, venv, ret, sts@),
        Statement::VariableDeclaration(_, _) => Ok(()),
    }
}

/// A statement sequence checks when each statement checks, the first
/// violation winning.
pub open spec fn spec_type_statements(
    fenv: Seq<(String, FunctionType)>,
    venv: Seq<(String, Type)>,
    ret: Type,
    sts: Seq<Statement>,
) -> Result<(), TypeErrorKind>
    decreases sts,
{
    if sts.len() == 0 {
        Ok(())
    } else {
        match spec_type_statement(fenv, venv, ret, sts[0]) {
            Err(k) => Err(k),
            Ok(_) => spec_type_statements(fenv, venv, ret, sts.drop_first()),
        }
    }
}

/// What the elaborator produces for a statement: the parallel typed form,
/// each expression elaborated undecayed.
pub open spec fn st_elaborates_to(
    fenv: Seq<(String, FunctionType)>,
    venv: Seq<(String, Type)>,
    ret: Type,
    st: Statement,
    tst: TypedStatement,
) -> bool
    decreases st,
{
    spec_type_statement(fenv, venv, ret, st) is Ok && match st {
        Statement::Expr(e) => (tst matches TypedStatement::Expr(te) && elaborates_to(
            fenv,
            venv,
            e,
            te,
            false,
        )),
        Statement::Return(e) => (tst matches TypedStatement::Return(te) && elaborates_to(
            fenv,
            venv,
            e,
            te,
            false,
        )),
        Statement::If(c, s1) => (tst matches TypedStatement::If(tc, ts1) && elaborates_to(
            fenv,
            venv,
            *c,
            *tc,
            false,
        ) && st_elaborates_to(fenv, venv, ret, *s1, *ts1)),
        Statement::IfElse(c, s1, s2) => (tst matches TypedStatement::IfElse(tc, ts1, ts2)
            && elaborates_to(fenv, venv, *c, *tc, false) && st_elaborates_to(
            fenv,
            venv,
            ret,
            *s1,
            *ts1,
        ) && st_elaborates_to(fenv, venv, ret, *s2, *ts2)),
        Statement::While(c, body) => (tst matches TypedStatement::While(tc, tb) && elaborates_to(
            fenv,
            venv,
            *c,
            *tc,
            false,
        ) && st_elaborates_to(fenv, venv, ret, *body, *tb)),
        Statement::For(init, cond, update, body) => (tst matches TypedStatement::For(
            ti,
            tc,
            tu,
            tb,
        ) && elaborates_to(fenv, venv, *init, *ti, false) && elaborates_to(
            fenv,
            venv,
            *cond,
            *tc,
            false,
        ) && elaborates_to(fenv, venv, *update, *tu, false) && st_elaborates_to(
            fenv,
            venv,
            ret,
            *body,
            *tb,
        )),
        Statement::Block(sts) => (tst matches TypedStatement::Block(tsts) && tsts@.len()
            == sts@.len() && (forall|i: int|
            0 <= i < sts@.len() ==> st_elaborates_to(
                fenv,
                venv,
                ret,
                #[trigger] sts@[i],
                tsts@[i],
            ))),
        Statement::VariableDeclaration(n, t) => (tst matches TypedStatement::VariableDeclaration(
            m,
            u,
        ) && m == n && u == t),
    }
}

/// After root decay the produced tree is the decayed elaboration.
pub proof fn lemma_decay_elab(
    fenv: Seq<(String, FunctionType)>,
    venv: Seq<(String, Type)>,
    e: Expr,
    te: TypedExpr,
)
    requires
        elaborates_to(fenv, venv, e, te, false),
    ensures
        elaborates_to(fenv, venv, e, te.spec_decay(), true),
{
    assert(spec_type_expr(fenv, venv, e) is Ok);
    match e {
        Expr::Num(_) => {},
        Expr::Variable(_) => {},
        Expr::Add(_, _) => {},
        Expr::Sub(_, _) => {},
        Expr::Mul(_, _) => {},
        Expr::Div(_, _) => {},
        Expr::LessThan(_, _) => {},
        Expr::LessEqual(_, _) => {},
        Expr::Equal(_, _) => {},
        Expr::NotEqual(_, _) => {},
        Expr::GreaterThan(_, _) => {},
        Expr::GreaterEqual(_, _) => {},
        Expr::Assign(_, _) => {},
        Expr::FunctionCall(_, _) => {},
        Expr::Address(_) => {},
        Expr::Dereference(_) => {},
        Expr::Sizeof(_) => {},
    }
}

/// Elaborates expressions of one function body against the signature
/// table and the function's local environment.
pub struct FunctionTypist<'a> {
    pub function_type_environment: &'a Vec<(String, FunctionType)>,
    pub variable_type_environment: Vec<(String, Type)>,
    pub function_name: &'a String,
    pub function_args: &'a Vec<(String, Type)>,
    pub function_return_type: &'a Type,
    pub function_body: &'a Vec<Statement>,
}

impl<'a> FunctionTypist<'a> {
    pub open spec fn fenv(self) -> Seq<(String, FunctionType)> {
        self.function_type_environment@
    }

    pub open spec fn venv(self) -> Seq<(String, Type)> {
        self.variable_type_environment@
    }

    /// Builds the local environment for a function; fails exactly when a
    /// local name repeats.
    pub fn new(
        function_type_environment: &'a Vec<(String, FunctionType)>,
        function_name: &'a String,
        function_args: &'a Vec<(String, Type)>,
        function_return_type: &'a Type,
        function_body: &'a Vec<Statement>,
    ) -> (r: Result<Self, TypeErrorKind>)
        ensures
            ({
                let all = function_args@ + decls_of_statements(function_body@);
                match r {
                    Ok(ft) => {
                        &&& ft.function_type_environment@ == function_type_environment@
                        &&& ft.variable_type_environment@ == all
                        &&& distinct_names(all)
                        &&& ft.function_name == function_name
                        &&& ft.function_args@ == function_args@
                        &&& ft.function_return_type == function_return_type
                        &&& ft.function_body@ == function_body@
                    },
                    Err(k) => k == TypeErrorKind::DuplicateLocal && !distinct_names(all),
                }
            }),
    {
        let local_variable_types = match collect_variables(function_args, function_body) {
            Ok(m) => m,
            Err(k) => {
                return Err(k);
            },
        };
        Ok(
            FunctionTypist {
                function_type_environment,
                variable_type_environment: local_variable_types,
                function_name,
                function_args,
                function_return_type,
                function_body,
            },
        )
    }

    /// Finds a local's declared type.
    fn lookup_variable<'b>(&'b self, name: &String) -> (r: Option<&'b Type>)
        ensures
            match r {
                Some(t) => var_lookup(self.venv(), name@) == Some(*t),
                None => var_lookup(self.venv(), name@) is None,
            },
    {
        let env = &self.variable_type_environment;
        let n = env.len();
        let mut i: usize = 0;
        proof {
            assert(env@.skip(0) =~= env@);
        }
        while i < n
            invariant
                n == env@.len(),
                i <= n,
                env@ == self.venv(),
                var_lookup(self.venv(), name@) == var_lookup(env@.skip(i as int), name@),
            decreases n - i,
        {
            proof {
                assert(env@.skip(i as int)[0] == env@[i as int]);
                assert(env@.skip(i as int).drop_first() =~= env@.skip(i as int + 1));
            }
            if env[i].0 == *name {
                return Some(&env[i].1);
            }
            i = i + 1;
        }
        proof {
            assert(env@.skip(n as int).len() == 0);
        }
        None
    }

    /// Elaborates one expression: on success the result is exactly the
    /// typed tree `elaborates_to` describes, and its annotation is the
    /// rule type; on failure the error is the rule violation, in
    /// evaluation order.
    pub fn type_expr(&self, expr: &Expr) -> (r: Result<TypedExpr, TypeErrorKind>)
        ensures
            match r {
                Ok(te) => elaborates_to(self.fenv(), self.venv(), *expr, te, false)
                    && spec_type_expr(self.fenv(), self.venv(), *expr) == Ok::<_, TypeErrorKind>(
                    te.spec_get_type(),
                ),
                Err(k) => spec_type_expr(self.fenv(), self.venv(), *expr) == Err::<Type, _>(k),
            },
        decreases *expr, 2int,
    {
        match expr {
            Expr::Add(lhs, rhs) | Expr::Sub(lhs, rhs) | Expr::Mul(lhs, rhs) | Expr::Div(
                lhs,
                rhs,
            ) => self.type_arithmetic_operator(lhs, rhs, expr),
            Expr::Num(n) => Ok(TypedExpr::IntNum(*n)),
            Expr::LessThan(lhs, rhs) | Expr::LessEqual(lhs, rhs) | Expr::Equal(lhs, rhs)
                | Expr::NotEqual(lhs, rhs) | Expr::GreaterThan(lhs, rhs) | Expr::GreaterEqual(
                lhs,
                rhs,
            ) => self.type_comparator(lhs, rhs, expr),
            Expr::Assign(lhs, rhs) => self.type_assign(lhs, rhs, expr),
            Expr::Variable(name) => self.type_variable(name, expr),
            Expr::FunctionCall(name, args) => self.type_function_call(name, args, expr),
            Expr::Address(op) => self.type_address(op, expr),
            Expr::Dereference(op) => self.type_dereference(op, expr),
            Expr::Sizeof(op) => {
                let typed = match self.type_expr(op) {
                    Ok(te) => te,
                    Err(k) => {
                        return Err(k);
                    },
                };
                Ok(TypedExpr::Sizeof(Box::new(typed)))
            },
        }
    }

    fn type_dereference(&self, op: &Expr, expr: &Expr) -> (r: Result<TypedExpr, TypeErrorKind>)
        requires
            *expr matches Expr::Dereference(o) && *o == *op,
        ensures
            match r {
                Ok(te) => elaborates_to(self.fenv(), self.venv(), *expr, te, false)
                    && spec_type_expr(self.fenv(), self.venv(), *expr) == Ok::<_, TypeErrorKind>(
                    te.spec_get_type(),
                ),
                Err(k) => spec_type_expr(self.fenv(), self.venv(), *expr) == Err::<Type, _>(k),
            },
        decreases *expr, 1int,
    {
        let typed = match self.type_expr(op) {
            Ok(te) => te,
            Err(k) => {
                return Err(k);
            },
        };
        let decayed = typed.decay_if_array();
        proof {
            lemma_decay_elab(self.fenv(), self.venv(), *op, typed);
        }
        let ty = decayed.get_type();
        match ty {
            Type::Pointer(inner) => Ok(TypedExpr::Dereference(*inner, Box::new(decayed))),
            _ => Err(TypeErrorKind::DereferenceNonPointer),
        }
    }

    fn type_address(&self, op: &Expr, expr: &Expr) -> (r: Result<TypedExpr, TypeErrorKind>)
        requires
            *expr matches Expr::Address(o) && *o == *op,
        ensures
            match r {
                Ok(te) => elaborates_to(self.fenv(), self.venv(), *expr, te, false)
                    && spec_type_expr(self.fenv(), self.venv(), *expr) == Ok::<_, TypeErrorKind>(
                    te.spec_get_type(),
                ),
                Err(k) => spec_type_expr(self.fenv(), self.venv(), *expr) == Err::<Type, _>(k),
            },
        decreases *expr, 1int,
    {
        let typed = match self.type_expr(op) {
            Ok(te) => te,
            Err(k) => {
                return Err(k);
            },
        };
        let inner_ty = typed.get_type();
        Ok(TypedExpr::Address(Type::Pointer(Box::new(inner_ty)), Box::new(typed)))
    }

    fn type_variable(&self, name: &String, expr: &Expr) -> (r: Result<TypedExpr, TypeErrorKind>)
        requires
            *expr matches Expr::Variable(n) && n == name,
        ensures
            match r {
                Ok(te) => elaborates_to(self.fenv(), self.venv(), *expr, te, false)
                    && spec_type_expr(self.fenv(), self.venv(), *expr) == Ok::<_, TypeErrorKind>(
                    te.spec_get_type(),
                ),
                Err(k) => spec_type_expr(self.fenv(), self.venv(), *expr) == Err::<Type, _>(k),
            },
        decreases *expr, 1int,
    {
        match self.lookup_variable(name) {
            Some(ty) => Ok(TypedExpr::Variable(ty.clone(), name.clone())),
            None => Err(TypeErrorKind::UndefinedVariable),
        }
    }

    fn type_assign(&self, lhs: &Expr, rhs: &Expr, expr: &Expr) -> (r: Result<
        TypedExpr,
        TypeErrorKind,
    >)
        requires
            *expr matches Expr::Assign(l, r2) && *l == *lhs && *r2 == *rhs,
        ensures
            match r {
                Ok(te) => elaborates_to(self.fenv(), self.venv(), *expr, te, false)
                    && spec_type_expr(self.fenv(), self.venv(), *expr) == Ok::<_, TypeErrorKind>(
                    te.spec_get_type(),
                ),
                Err(k) => spec_type_expr(self.fenv(), self.venv(), *expr) == Err::<Type, _>(k),
            },
        decreases *expr, 1int,
    {
        let tl = match self.type_expr(lhs) {
            Ok(te) => te,
            Err(k) => {
                return Err(k);
            },
        };
        let tr = match self.type_expr(rhs) {
            Ok(te) => te,
            Err(k) => {
                return Err(k);
            },
        };
        let lty = tl.get_type();
        if matches!(lty, Type::Array(_, _)) {
            return Err(TypeErrorKind::ArrayAsLValueTarget);
        }
        let decayed_r = tr.decay_if_array();
        proof {
            lemma_decay_elab(self.fenv(), self.venv(), *rhs, tr);
        }
        Ok(TypedExpr::Assign(lty, Box::new(tl), Box::new(decayed_r)))
    }

    /// Elaborates and decays the two operands of a binary node.
    fn type_decayed_pair(&self, lhs: &Expr, rhs: &Expr, parent: &Expr) -> (r: Result<
        (TypedExpr, TypedExpr),
        TypeErrorKind,
    >)
        requires
            match *parent {
                Expr::Add(l, r2) | Expr::Sub(l, r2) | Expr::Mul(l, r2) | Expr::Div(l, r2)
                    | Expr::LessThan(l, r2) | Expr::LessEqual(l, r2) | Expr::Equal(l, r2)
                    | Expr::NotEqual(l, r2) | Expr::GreaterThan(l, r2) | Expr::GreaterEqual(
                    l,
                    r2,
                ) => *l == *lhs && *r2 == *rhs,
                _ => false,
            },
        ensures
            match r {
                Ok(p) => {
                    &&& elaborates_to(self.fenv(), self.venv(), *lhs, p.0, true)
                    &&& elaborates_to(self.fenv(), self.venv(), *rhs, p.1, true)
                    &&& spec_type_expr(self.fenv(), self.venv(), *lhs) is Ok
                    &&& spec_type_expr(self.fenv(), self.venv(), *rhs) is Ok
                    &&& p.0.spec_get_type() == decay_type(
                        spec_type_expr(self.fenv(), self.venv(), *lhs)->Ok_0,
                    )
                    &&& p.1.spec_get_type() == decay_type(
                        spec_type_expr(self.fenv(), self.venv(), *rhs)->Ok_0,
                    )
                },
                Err(k) => spec_type_expr(self.fenv(), self.venv(), *lhs) == Err::<Type, _>(k) || (
                spec_type_expr(self.fenv(), self.venv(), *lhs) is Ok && spec_type_expr(
                    self.fenv(),
                    self.venv(),
                    *rhs,
                ) == Err::<Type, _>(k)),
            },
        decreases *parent, 0int,
    {
        let tl = match self.type_expr(lhs) {
            Ok(te) => te,
            Err(k) => {
                return Err(k);
            },
        };
        let tr = match self.type_expr(rhs) {
            Ok(te) => te,
            Err(k) => {
                return Err(k);
            },
        };
        let dl = tl.decay_if_array();
        let dr = tr.decay_if_array();
        proof {
            lemma_decay_elab(self.fenv(), self.venv(), *lhs, tl);
            lemma_decay_elab(self.fenv(), self.venv(), *rhs, tr);
        }
        Ok((dl, dr))
    }

    #[verifier::rlimit(100)]
    #[verifier::spinoff_prover]
    fn type_comparator(&self, lhs: &Expr, rhs: &Expr, expr: &Expr) -> (r: Result<
        TypedExpr,
        TypeErrorKind,
    >)
        requires
            match *expr {
                Expr::LessThan(l, r2) | Expr::LessEqual(l, r2) | Expr::Equal(l, r2)
                    | Expr::NotEqual(l, r2) | Expr::GreaterThan(l, r2) | Expr::GreaterEqual(
                    l,
                    r2,
                ) => *l == *lhs && *r2 == *rhs,
                _ => false,
            },
        ensures
            match r {
                Ok(te) => elaborates_to(self.fenv(), self.venv(), *expr, te, false)
                    && spec_type_expr(self.fenv(), self.venv(), *expr) == Ok::<_, TypeErrorKind>(
                    te.spec_get_type(),
                ),
                Err(k) => spec_type_expr(self.fenv(), self.venv(), *expr) == Err::<Type, _>(k),
            },
        decreases *expr, 1int,
    {
        let (dl, dr) = match self.type_decayed_pair(lhs, rhs, expr) {
            Ok(p) => p,
            Err(k) => {
                return Err(k);
            },
        };
        let tyl = dl.get_type();
        let tyr = dr.get_type();
        if !tyl.type_eq(&tyr) {
            return Err(TypeErrorKind::ArgumentTypeMismatch);
        }
        proof {
            assert(spec_type_expr(self.fenv(), self.venv(), *expr) == Ok::<_, TypeErrorKind>(
                Type::IntTyp,
            ));
        }
        let bl = Box::new(dl);
        let br = Box::new(dr);
        let te = match expr {
            Expr::LessThan(_, _) => {
                let te = TypedExpr::LessThan(bl, br);
                proof {
                    assert(elaborates_to(self.fenv(), self.venv(), *expr, te, false));
                }
                te
            },
            Expr::LessEqual(_, _) => {
                let te = TypedExpr::LessEqual(bl, br);
                proof {
                    assert(elaborates_to(self.fenv(), self.venv(), *expr, te, false));
                }
                te
            },
            Expr::Equal(_, _) => {
                let te = TypedExpr::Equal(bl, br);
                proof {
                    assert(elaborates_to(self.fenv(), self.venv(), *expr, te, false));
                }
                te
            },
            Expr::NotEqual(_, _) => {
                let te = TypedExpr::NotEqual(bl, br);
                proof {
                    assert(elaborates_to(self.fenv(), self.venv(), *expr, te, false));
                }
                te
            },
            Expr::GreaterThan(_, _) => {
                let te = TypedExpr::GreaterThan(bl, br);
                proof {
                    assert(elaborates_to(self.fenv(), self.venv(), *expr, te, false));
                }
                te
            },
            _ => {
                let te = TypedExpr::GreaterEqual(bl, br);
                proof {
                    assert(elaborates_to(self.fenv(), self.venv(), *expr, te, false));
                }
                te
            },
        };
        Ok(te)
    }

    fn type_arithmetic_operator(&self, lhs: &Expr, rhs: &Expr, expr: &Expr) -> (r: Result<
        TypedExpr,
        TypeErrorKind,
    >)
        requires
            match *expr {
                Expr::Add(l, r2) | Expr::Sub(l, r2) | Expr::Mul(l, r2) | Expr::Div(l, r2) => *l
                    == *lhs && *r2 == *rhs,
                _ => false,
            },
        ensures
            match r {
                Ok(te) => elaborates_to(self.fenv(), self.venv(), *expr, te, false)
                    && spec_type_expr(self.fenv(), self.venv(), *expr) == Ok::<_, TypeErrorKind>(
                    te.spec_get_type(),
                ),
                Err(k) => spec_type_expr(self.fenv(), self.venv(), *expr) == Err::<Type, _>(k),
            },
        decreases *expr, 1int,
    {
        let tl = match self.type_expr(lhs) {
            Ok(te) => te,
            Err(k) => {
                return Err(k);
            },
        };
        let tr = match self.type_expr(rhs) {
            Ok(te) => te,
            Err(k) => {
                return Err(k);
            },
        };
        let dl = tl.decay_if_array();
        let dr = tr.decay_if_array();
        proof {
            lemma_decay_elab(self.fenv(), self.venv(), *lhs, tl);
            lemma_decay_elab(self.fenv(), self.venv(), *rhs, tr);
        }
        let tyl = dl.get_type();
        let tyr = dr.get_type();
        let l_ptr = matches!(tyl, Type::Pointer(_));
        let r_ptr = matches!(tyr, Type::Pointer(_));
        let is_mul_div = matches!(expr, Expr::Mul(_, _)) || matches!(expr, Expr::Div(_, _));
        if is_mul_div {
            let l_int = matches!(tyl, Type::IntTyp);
            let r_int = matches!(tyr, Type::IntTyp);
            if !(l_int && r_int) {
                return Err(TypeErrorKind::PointerPlusPointer);
            }
        } else {
            if l_ptr && r_ptr {
                return Err(TypeErrorKind::PointerPlusPointer);
            }
        }
        let result_ty = if is_mul_div {
            Type::IntTyp
        } else if l_ptr {
            tyl
        } else if r_ptr {
            tyr
        } else {
            Type::IntTyp
        };
        let bl = Box::new(dl);
        let br = Box::new(dr);
        let te = match expr {
            Expr::Add(_, _) => TypedExpr::Add(result_ty, bl, br),
            Expr::Sub(_, _) => TypedExpr::Sub(result_ty, bl, br),
            Expr::Mul(_, _) => TypedExpr::Mul(result_ty, bl, br),
            _ => TypedExpr::Div(result_ty, bl, br),
        };
        Ok(te)
    }

    fn type_function_call(&self, name: &String, args: &Vec<Expr>, expr: &Expr) -> (r: Result<
        TypedExpr,
        TypeErrorKind,
    >)
        requires
            *expr matches Expr::FunctionCall(n, a) && n == name && a == *args,
        ensures
            match r {
                Ok(te) => elaborates_to(self.fenv(), self.venv(), *expr, te, false)
                    && spec_type_expr(self.fenv(), self.venv(), *expr) == Ok::<_, TypeErrorKind>(
                    te.spec_get_type(),
                ),
                Err(k) => spec_type_expr(self.fenv(), self.venv(), *expr) == Err::<Type, _>(k),
            },
        decreases *expr, 1int,
    {
        let ft = match crate::function_collector::lookup_function(
            &self.function_type_environment,
            name,
        ) {
            Some(ft) => ft,
            None => {
                return Err(TypeErrorKind::UndefinedFunction);
            },
        };
        let arg_types = &ft.0;
        if arg_types.len() != args.len() {
            return Err(TypeErrorKind::ArityMismatch);
        }
        let ghost params = arg_types@;
        let ghost argsv = args@;
        let n = args.len();
        let mut typed_args: Vec<TypedExpr> = Vec::new();
        proof {
            assert(argsv.skip(0) =~= argsv);
            assert(params.skip(0) =~= params);
        }
        let mut i: usize = 0;
        while i < n
            invariant
                n == argsv.len(),
                n == params.len(),
                argsv == args@,
                params == arg_types@,
                i <= n,
                typed_args@.len() == i,
                forall|k: int|
                    0 <= k < i ==> elaborates_to(
                        self.fenv(),
                        self.venv(),
                        #[trigger] argsv[k],
                        typed_args@[k],
                        true,
                    ),
                fun_lookup(self.fenv(), name@) == Some(*ft),
                params == ft.0@,
                *expr matches Expr::FunctionCall(n2, a2) && n2 == name && a2 == *args,
                spec_type_args(self.fenv(), self.venv(), argsv, params) == spec_type_args(
                    self.fenv(),
                    self.venv(),
                    argsv.skip(i as int),
                    params.skip(i as int),
                ),
            decreases n - i,
        {
            proof {
                assert(argsv.skip(i as int)[0] == argsv[i as int]);
                assert(params.skip(i as int)[0] == params[i as int]);
                assert(argsv.skip(i as int).drop_first() =~= argsv.skip(i as int + 1));
                assert(params.skip(i as int).drop_first() =~= params.skip(i as int + 1));
            }
            proof {
                match expr {
                    Expr::FunctionCall(_, a3) => {
                        assert(*a3 == *args);
                        assert(a3@[i as int] == argsv[i as int]);
                    },
                    _ => {
                        assert(false);
                    },
                }
            }
            let typed = match self.type_expr(&args[i]) {
                Ok(te) => te,
                Err(k) => {
                    return Err(k);
                },
            };
            let decayed = typed.decay_if_array();
            proof {
                lemma_decay_elab(self.fenv(), self.venv(), argsv[i as int], typed);
            }
            let dty = decayed.get_type();
            if !dty.type_eq(&arg_types[i]) {
                return Err(TypeErrorKind::ArgumentTypeMismatch);
            }
            typed_args.push(decayed);
            i = i + 1;
        }
        proof {
            assert(argsv.skip(n as int).len() == 0);
        }
        let ret = (*ft.1).clone();
        Ok(TypedExpr::FunctionCall(ret, name.clone(), typed_args))
    }

    /// Elaborates one statement: on success exactly the typed form
    /// `st_elaborates_to` describes; on failure the first violation.
    pub fn type_statement(&self, statement: &Statement) -> (r: Result<
        TypedStatement,
        TypeErrorKind,
    >)
        ensures
            match r {
                Ok(tst) => st_elaborates_to(
                    self.fenv(),
                    self.venv(),
                    *self.function_return_type,
                    *statement,
                    tst,
                ),
                Err(k) => spec_type_statement(
                    self.fenv(),
                    self.venv(),
                    *self.function_return_type,
                    *statement,
                ) == Err::<(), _>(k),
            },
        decreases *statement, 0int,
    {
        match statement {
            Statement::Return(expr) => {
                let typed = match self.type_expr(expr) {
                    Ok(te) => te,
                    Err(k) => {
                        return Err(k);
                    },
                };
                let ty = typed.get_type();
                if !ty.type_eq(self.function_return_type) {
                    return Err(TypeErrorKind::ReturnTypeMismatch);
                }
                Ok(TypedStatement::Return(typed))
            },
            Statement::If(expr, then_st) => {
                let tc = match self.type_expr(expr) {
                    Ok(te) => te,
                    Err(k) => {
                        return Err(k);
                    },
                };
                let tt = match self.type_statement(then_st) {
                    Ok(t) => t,
                    Err(k) => {
                        return Err(k);
                    },
                };
                Ok(TypedStatement::If(Box::new(tc), Box::new(tt)))
            },
            Statement::IfElse(expr, then_st, else_st) => {
                let tc = match self.type_expr(expr) {
                    Ok(te) => te,
                    Err(k) => {
                        return Err(k);
                    },
                };
                let tt = match self.type_statement(then_st) {
                    Ok(t) => t,
                    Err(k) => {
                        return Err(k);
                    },
                };
                let te2 = match self.type_statement(else_st) {
                    Ok(t) => t,
                    Err(k) => {
                        return Err(k);
                    },
                };
                Ok(TypedStatement::IfElse(Box::new(tc), Box::new(tt), Box::new(te2)))
            },
            Statement::While(expr, body) => {
                let tc = match self.type_expr(expr) {
                    Ok(te) => te,
                    Err(k) => {
                        return Err(k);
                    },
                };
                let tb = match self.type_statement(body) {
                    Ok(t) => t,
                    Err(k) => {
                        return Err(k);
                    },
                };
                Ok(TypedStatement::While(Box::new(tc), Box::new(tb)))
            },
            Statement::For(init, cond, update, body) => {
                let ti = match self.type_expr(init) {
                    Ok(te) => te,
                    Err(k) => {
                        return Err(k);
                    },
                };
                let tc = match self.type_expr(cond) {
                    Ok(te) => te,
                    Err(k) => {
                        return Err(k);
                    },
                };
                let tu = match self.type_expr(update) {
                    Ok(te) => te,
                    Err(k) => {
                        return Err(k);
                    },
                };
                let tb = match self.type_statement(body) {
                    Ok(t) => t,
                    Err(k) => {
                        return Err(k);
                    },
                };
                Ok(TypedStatement::For(Box::new(ti), Box::new(tc), Box::new(tu), Box::new(tb)))
            },
            Statement::Expr(expr) => {
                let typed = match self.type_expr(expr) {
                    Ok(te) => te,
                    Err(k) => {
                        return Err(k);
                    },
                };
                Ok(TypedStatement::Expr(typed))
            },
            Statement::VariableDeclaration(name, ty) => Ok(
                TypedStatement::VariableDeclaration(name.clone(), ty.clone()),
            ),
            Statement::Block(statements) => {
                let ghost stsv = statements@;
                let n = statements.len();
                let mut typed: Vec<TypedStatement> = Vec::new();
                proof {
                    assert(stsv.skip(0) =~= stsv);
                }
                let mut i: usize = 0;
                while i < n
                    invariant
                        n == stsv.len(),
                        statements@ == stsv,
                        *statement matches Statement::Block(s2) && s2@ == stsv,
                        i <= n,
                        typed@.len() == i,
                        forall|k: int|
                            0 <= k < i ==> st_elaborates_to(
                                self.fenv(),
                                self.venv(),
                                *self.function_return_type,
                                #[trigger] stsv[k],
                                typed@[k],
                            ),
                        spec_type_statements(
                            self.fenv(),
                            self.venv(),
                            *self.function_return_type,
                            stsv,
                        ) == spec_type_statements(
                            self.fenv(),
                            self.venv(),
                            *self.function_return_type,
                            stsv.skip(i as int),
                        ),
                    decreases n - i,
                {
                    proof {
                        assert(stsv.skip(i as int)[0] == stsv[i as int]);
                        assert(stsv.skip(i as int).drop_first() =~= stsv.skip(i as int + 1));
                        match statement {
                            Statement::Block(s3) => {
                                assert(s3@[i as int] == stsv[i as int]);
                            },
                            _ => {
                                assert(false);
                            },
                        }
                    }
                    let tst = match self.type_statement(&statements[i]) {
                        Ok(t) => t,
                        Err(k) => {
                            return Err(k);
                        },
                    };
                    typed.push(tst);
                    i = i + 1;
                }
                proof {
                    assert(stsv.skip(n as int).len() == 0);
                }
                Ok(TypedStatement::Block(typed))
            },
        }
    }

    /// Elaborates the whole function: its body statement by statement,
    /// carrying over the signature parts and the local environment.
    pub fn type_function(&self) -> (r: Result<TypedTopLevel, TypeErrorKind>)
        ensures
            match r {
                Ok(tt) => spec_type_statements(
                    self.fenv(),
                    self.venv(),
                    *self.function_return_type,
                    self.function_body@,
                ) is Ok && (tt matches TypedTopLevel::FunctionDefinition(
                    name,
                    args,
                    ret,
                    body,
                    venv,
                ) && {
                    &&& name == *self.function_name
                    &&& args@ == self.function_args@
                    &&& ret == *self.function_return_type
                    &&& venv@ == self.venv()
                    &&& body@.len() == self.function_body@.len()
                    &&& forall|i: int|
                        0 <= i < self.function_body@.len() ==> st_elaborates_to(
                            self.fenv(),
                            self.venv(),
                            *self.function_return_type,
                            #[trigger] self.function_body@[i],
                            body@[i],
                        )
                }),
                Err(k) => spec_type_statements(
                    self.fenv(),
                    self.venv(),
                    *self.function_return_type,
                    self.function_body@,
                ) == Err::<(), _>(k),
            },
    {
        let ghost stsv = self.function_body@;
        let n = self.function_body.len();
        let mut typed_statements: Vec<TypedStatement> = Vec::new();
        proof {
            assert(stsv.skip(0) =~= stsv);
        }
        let mut i: usize = 0;
        while i < n
            invariant
                n == stsv.len(),
                stsv == self.function_body@,
                i <= n,
                typed_statements@.len() == i,
                forall|k: int|
                    0 <= k < i ==> st_elaborates_to(
                        self.fenv(),
                        self.venv(),
                        *self.function_return_type,
                        #[trigger] stsv[k],
                        typed_statements@[k],
                    ),
                spec_type_statements(
                    self.fenv(),
                    self.venv(),
                    *self.function_return_type,
                    stsv,
                ) == spec_type_statements(
                    self.fenv(),
                    self.venv(),
                    *self.function_return_type,
                    stsv.skip(i as int),
                ),
            decreases n - i,
        {
            proof {
                assert(stsv.skip(i as int)[0] == stsv[i as int]);
                assert(stsv.skip(i as int).drop_first() =~= stsv.skip(i as int + 1));
            }
            let tst = match self.type_statement(&self.function_body[i]) {
                Ok(t) => t,
                Err(k) => {
                    return Err(k);
                },
            };
            typed_statements.push(tst);
            i = i + 1;
        }
        proof {
            assert(stsv.skip(n as int).len() == 0);
        }
        Ok(
            TypedTopLevel::FunctionDefinition(
                self.function_name.clone(),
                crate::variable_collector::clone_pairs(self.function_args),
                self.function_return_type.clone(),
                typed_statements,
                crate::variable_collector::clone_pairs(&self.variable_type_environment),
            ),
        )
    }
}


/// The function definitions of a program, in order; `extern`
/// declarations contribute nothing.
pub open spec fn defs_of(items: Seq<TopLevel>) -> Seq<TopLevel>
    decreases items,
{
    if items.len() == 0 {
        Seq::empty()
    } else {
        defs_of(items.drop_last()) + (if items.last() is FunctionDefinition {
            seq![items.last()]
        } else {
            Seq::empty()
        })
    }
}

/// The check one top-level item must pass: an `extern` declaration
/// passes; a definition needs distinct locals and a well-typed body.
pub open spec fn spec_type_top_level(fenv: Seq<(String, FunctionType)>, t: TopLevel) -> Result<
    (),
    TypeErrorKind,
> {
    match t {
        TopLevel::ExternalFunctionDeclaration(_, _, _) => Ok(()),
        TopLevel::FunctionDefinition(name, args, ret, sts) => {
            let venv = args@ + decls_of_statements(sts@);
            if !distinct_names(venv) {
                Err(TypeErrorKind::DuplicateLocal)
            } else {
                spec_type_statements(fenv, venv, ret, sts@)
            }
        },
    }
}

/// A whole program checks item by item, the first violation winning.
pub open spec fn spec_type_program(
    fenv: Seq<(String, FunctionType)>,
    items: Seq<TopLevel>,
) -> Result<(), TypeErrorKind>
    decreases items,
{
    if items.len() == 0 {
        Ok(())
    } else {
        match spec_type_top_level(fenv, items[0]) {
            Err(k) => Err(k),
            Ok(_) => spec_type_program(fenv, items.drop_first()),
        }
    }
}

/// What elaborating a function definition produces: the same signature,
/// the local environment in declaration order, the body statement by
/// statement.
pub open spec fn top_elaborates_to(
    fenv: Seq<(String, FunctionType)>,
    t: TopLevel,
    tt: TypedTopLevel,
) -> bool {
    t matches TopLevel::FunctionDefinition(name, args, ret, sts) && (
    tt matches TypedTopLevel::FunctionDefinition(name2, args2, ret2, body2, venv2) && {
        let venv = args@ + decls_of_statements(sts@);
        &&& name2 == name
        &&& args2@ == args@
        &&& ret2 == ret
        &&& venv2@ == venv
        &&& distinct_names(venv)
        &&& body2@.len() == sts@.len()
        &&& forall|i: int|
            0 <= i < sts@.len() ==> st_elaborates_to(fenv, venv, ret, #[trigger] sts@[i], body2@[i])
    })
}

/// Elaborates a program against a fixed signature table.
pub struct Typist {
    pub function_type_environment: Vec<(String, FunctionType)>,
}

impl Typist {
    pub open spec fn fenv(self) -> Seq<(String, FunctionType)> {
        self.function_type_environment@
    }

    pub fn new(function_type_environment: Vec<(String, FunctionType)>) -> (r: Self)
        ensures
            r.function_type_environment@ == function_type_environment@,
    {
        Typist { function_type_environment }
    }

    /// Elaborates one item: a typed definition, or nothing for an
    /// `extern` declaration.
    pub fn type_top_level(&self, top_level: &TopLevel) -> (r: Result<
        Option<TypedTopLevel>,
        TypeErrorKind,
    >)
        ensures
            match r {
                Ok(ot) => spec_type_top_level(self.fenv(), *top_level) is Ok && match ot {
                    Some(tt) => top_elaborates_to(self.fenv(), *top_level, tt),
                    None => !(*top_level is FunctionDefinition),
                },
                Err(k) => spec_type_top_level(self.fenv(), *top_level) == Err::<(), _>(k),
            },
    {
        match top_level {
            TopLevel::FunctionDefinition(name, args, return_type, statements) => {
                let function_typist = match FunctionTypist::new(
                    &self.function_type_environment,
                    name,
                    args,
                    return_type,
                    statements,
                ) {
                    Ok(ft) => ft,
                    Err(k) => {
                        return Err(k);
                    },
                };
                match function_typist.type_function() {
                    Ok(tt) => Ok(Some(tt)),
                    Err(k) => Err(k),
                }
            },
            TopLevel::ExternalFunctionDeclaration(_, _, _) => Ok(None),
        }
    }

    /// Elaborates every definition of the program, in order; the first
    /// violation anywhere aborts.
    pub fn type_program(&self, program: &Vec<TopLevel>) -> (r: Result<
        Vec<TypedTopLevel>,
        TypeErrorKind,
    >)
        ensures
            match r {
                Ok(ts) => {
                    &&& spec_type_program(self.fenv(), program@) is Ok
                    &&& ts@.len() == defs_of(program@).len()
                    &&& forall|i: int|
                        0 <= i < ts@.len() ==> top_elaborates_to(
                            self.fenv(),
                            defs_of(program@)[i],
                            #[trigger] ts@[i],
                        )
                },
                Err(k) => spec_type_program(self.fenv(), program@) == Err::<(), _>(k),
            },
    {
        let ghost itemsv = program@;
        let n = program.len();
        let mut typed_program: Vec<TypedTopLevel> = Vec::new();
        proof {
            assert(itemsv.skip(0) =~= itemsv);
            assert(itemsv.take(0) =~= Seq::<TopLevel>::empty());
        }
        let mut i: usize = 0;
        while i < n
            invariant
                n == itemsv.len(),
                itemsv == program@,
                i <= n,
                typed_program@.len() == defs_of(itemsv.take(i as int)).len(),
                forall|k: int|
                    0 <= k < typed_program@.len() ==> top_elaborates_to(
                        self.fenv(),
                        defs_of(itemsv.take(i as int))[k],
                        #[trigger] typed_program@[k],
                    ),
                spec_type_program(self.fenv(), itemsv) == spec_type_program(
                    self.fenv(),
                    itemsv.skip(i as int),
                ),
            decreases n - i,
        {
            let ghost d_i = defs_of(itemsv.take(i as int));
            proof {
                assert(itemsv.skip(i as int)[0] == itemsv[i as int]);
                assert(itemsv.skip(i as int).drop_first() =~= itemsv.skip(i as int + 1));
                assert(itemsv.take(i as int + 1).drop_last() =~= itemsv.take(i as int));
                assert(itemsv.take(i as int + 1).last() == itemsv[i as int]);
            }
            match self.type_top_level(&program[i]) {
                Ok(Some(tt)) => {
                    typed_program.push(tt);
                    proof {
                        assert(defs_of(itemsv.take(i as int + 1)) =~= d_i.push(itemsv[i as int]));
                    }
                },
                Ok(None) => {
                    proof {
                        assert(defs_of(itemsv.take(i as int + 1)) =~= d_i);
                    }
                },
                Err(k) => {
                    return Err(k);
                },
            }
            i = i + 1;
        }
        proof {
            assert(itemsv.skip(n as int).len() == 0);
            assert(itemsv.take(n as int) =~= itemsv);
        }
        Ok(typed_program)
    }
}


/// Structural identity of typed expressions: every annotation, name, and
/// child matches; argument vectors are compared element by element.
pub open spec fn typed_like(a: TypedExpr, b: TypedExpr) -> bool
    decreases a,
{
    match (a, b) {
        (TypedExpr::IntNum(n1), TypedExpr::IntNum(n2)) => n1 == n2,
        (TypedExpr::Variable(t1, m1), TypedExpr::Variable(t2, m2)) => t1 == t2 && m1 == m2,
        (TypedExpr::Add(t1, a1, b1), TypedExpr::Add(t2, a2, b2)) => t1 == t2 && typed_like(
            *a1,
            *a2,
        ) && typed_like(*b1, *b2),
        (TypedExpr::Sub(t1, a1, b1), TypedExpr::Sub(t2, a2, b2)) => t1 == t2 && typed_like(
            *a1,
            *a2,
        ) && typed_like(*b1, *b2),
        (TypedExpr::Mul(t1, a1, b1), TypedExpr::Mul(t2, a2, b2)) => t1 == t2 && typed_like(
            *a1,
            *a2,
        ) && typed_like(*b1, *b2),
        (TypedExpr::Div(t1, a1, b1), TypedExpr::Div(t2, a2, b2)) => t1 == t2 && typed_like(
            *a1,
            *a2,
        ) && typed_like(*b1, *b2),
        (TypedExpr::Assign(t1, a1, b1), TypedExpr::Assign(t2, a2, b2)) => t1 == t2 && typed_like(
            *a1,
            *a2,
        ) && typed_like(*b1, *b2),
        (TypedExpr::LessThan(a1, b1), TypedExpr::LessThan(a2, b2)) => typed_like(*a1, *a2)
            && typed_like(*b1, *b2),
        (TypedExpr::LessEqual(a1, b1), TypedExpr::LessEqual(a2, b2)) => typed_like(*a1, *a2)
            && typed_like(*b1, *b2),
        (TypedExpr::Equal(a1, b1), TypedExpr::Equal(a2, b2)) => typed_like(*a1, *a2) && typed_like(
            *b1,
            *b2,
        ),
        (TypedExpr::NotEqual(a1, b1), TypedExpr::NotEqual(a2, b2)) => typed_like(*a1, *a2)
            && typed_like(*b1, *b2),
        (TypedExpr::GreaterThan(a1, b1), TypedExpr::GreaterThan(a2, b2)) => typed_like(*a1, *a2)
            && typed_like(*b1, *b2),
        (TypedExpr::GreaterEqual(a1, b1), TypedExpr::GreaterEqual(a2, b2)) => typed_like(*a1, *a2)
            && typed_like(*b1, *b2),
        (TypedExpr::Address(t1, a1), TypedExpr::Address(t2, a2)) => t1 == t2 && typed_like(
            *a1,
            *a2,
        ),
        (TypedExpr::Dereference(t1, a1), TypedExpr::Dereference(t2, a2)) => t1 == t2 && typed_like(
            *a1,
            *a2,
        ),
        (TypedExpr::Sizeof(a1), TypedExpr::Sizeof(a2)) => typed_like(*a1, *a2),
        (TypedExpr::FunctionCall(t1, m1, v1), TypedExpr::FunctionCall(t2, m2, v2)) => t1 == t2 && m1
            == m2 && v1@.len() == v2@.len() && (forall|i: int|
            0 <= i < v1@.len() ==> typed_like(#[trigger] v1@[i], v2@[i])),
        _ => false,
    }
}

/// Elaboration is deterministic: two typed trees that both stand in the
/// elaboration relation to one expression are structurally identical. In
/// particular, re-elaborating the expression a typed tree was produced
/// from yields the same annotations again.
pub proof fn lemma_elaboration_unique(
    fenv: Seq<(String, FunctionType)>,
    venv: Seq<(String, Type)>,
    e: Expr,
    te1: TypedExpr,
    te2: TypedExpr,
    decayed: bool,
)
    requires
        elaborates_to(fenv, venv, e, te1, decayed),
        elaborates_to(fenv, venv, e, te2, decayed),
    ensures
        typed_like(te1, te2),
    decreases e,
{
    match e {
        Expr::Num(_) => {},
        Expr::Variable(_) => {},
        Expr::Add(l, r) => {
            lemma_elaboration_unique(fenv, venv, *l, *te1->Add_1, *te2->Add_1, true);
            lemma_elaboration_unique(fenv, venv, *r, *te1->Add_2, *te2->Add_2, true);
        },
        Expr::Sub(l, r) => {
            lemma_elaboration_unique(fenv, venv, *l, *te1->Sub_1, *te2->Sub_1, true);
            lemma_elaboration_unique(fenv, venv, *r, *te1->Sub_2, *te2->Sub_2, true);
        },
        Expr::Mul(l, r) => {
            lemma_elaboration_unique(fenv, venv, *l, *te1->Mul_1, *te2->Mul_1, true);
            lemma_elaboration_unique(fenv, venv, *r, *te1->Mul_2, *te2->Mul_2, true);
        },
        Expr::Div(l, r) => {
            lemma_elaboration_unique(fenv, venv, *l, *te1->Div_1, *te2->Div_1, true);
            lemma_elaboration_unique(fenv, venv, *r, *te1->Div_2, *te2->Div_2, true);
        },
        Expr::LessThan(l, r) => {
            lemma_elaboration_unique(fenv, venv, *l, *te1->LessThan_0, *te2->LessThan_0, true);
            lemma_elaboration_unique(fenv, venv, *r, *te1->LessThan_1, *te2->LessThan_1, true);
        },
        Expr::LessEqual(l, r) => {
            lemma_elaboration_unique(fenv, venv, *l, *te1->LessEqual_0, *te2->LessEqual_0, true);
            lemma_elaboration_unique(fenv, venv, *r, *te1->LessEqual_1, *te2->LessEqual_1, true);
        },
        Expr::Equal(l, r) => {
            lemma_elaboration_unique(fenv, venv, *l, *te1->Equal_0, *te2->Equal_0, true);
            lemma_elaboration_unique(fenv, venv, *r, *te1->Equal_1, *te2->Equal_1, true);
        },
        Expr::NotEqual(l, r) => {
            lemma_elaboration_unique(fenv, venv, *l, *te1->NotEqual_0, *te2->NotEqual_0, true);
            lemma_elaboration_unique(fenv, venv, *r, *te1->NotEqual_1, *te2->NotEqual_1, true);
        },
        Expr::GreaterThan(l, r) => {
            lemma_elaboration_unique(
                fenv,
                venv,
                *l,
                *te1->GreaterThan_0,
                *te2->GreaterThan_0,
                true,
            );
            lemma_elaboration_unique(
                fenv,
                venv,
                *r,
                *te1->GreaterThan_1,
                *te2->GreaterThan_1,
                true,
            );
        },
        Expr::GreaterEqual(l, r) => {
            lemma_elaboration_unique(
                fenv,
                venv,
                *l,
                *te1->GreaterEqual_0,
                *te2->GreaterEqual_0,
                true,
            );
            lemma_elaboration_unique(
                fenv,
                venv,
                *r,
                *te1->GreaterEqual_1,
                *te2->GreaterEqual_1,
                true,
            );
        },
        Expr::Assign(l, r) => {
            lemma_elaboration_unique(fenv, venv, *l, *te1->Assign_1, *te2->Assign_1, false);
            lemma_elaboration_unique(fenv, venv, *r, *te1->Assign_2, *te2->Assign_2, true);
        },
        Expr::Address(op) => {
            lemma_elaboration_unique(fenv, venv, *op, *te1->Address_1, *te2->Address_1, false);
        },
        Expr::Dereference(op) => {
            lemma_elaboration_unique(
                fenv,
                venv,
                *op,
                *te1->Dereference_1,
                *te2->Dereference_1,
                true,
            );
        },
        Expr::Sizeof(op) => {
            lemma_elaboration_unique(fenv, venv, *op, *te1->Sizeof_0, *te2->Sizeof_0, false);
        },
        Expr::FunctionCall(name, args) => {
            let v1 = te1->FunctionCall_2;
            let v2 = te2->FunctionCall_2;
            assert forall|i: int| 0 <= i < v1@.len() implies typed_like(
                #[trigger] v1@[i],
                v2@[i],
            ) by {
                lemma_elaboration_unique(fenv, venv, args@[i], v1@[i], v2@[i], true);
            }
        },
    }
}


/// Structural identity of typed statements: parallel shapes, identical
/// expressions and declarations, blocks compared element by element.
pub open spec fn typed_st_like(a: TypedStatement, b: TypedStatement) -> bool
    decreases a,
{
    match (a, b) {
        (TypedStatement::Expr(e1), TypedStatement::Expr(e2)) => typed_like(e1, e2),
        (TypedStatement::Return(e1), TypedStatement::Return(e2)) => typed_like(e1, e2),
        (TypedStatement::If(c1, s1), TypedStatement::If(c2, s2)) => typed_like(*c1, *c2)
            && typed_st_like(*s1, *s2),
        (TypedStatement::IfElse(c1, t1, e1), TypedStatement::IfElse(c2, t2, e2)) => typed_like(
            *c1,
            *c2,
        ) && typed_st_like(*t1, *t2) && typed_st_like(*e1, *e2),
        (TypedStatement::While(c1, b1), TypedStatement::While(c2, b2)) => typed_like(*c1, *c2)
            && typed_st_like(*b1, *b2),
        (TypedStatement::For(i1, c1, u1, b1), TypedStatement::For(i2, c2, u2, b2)) => typed_like(
            *i1,
            *i2,
        ) && typed_like(*c1, *c2) && typed_like(*u1, *u2) && typed_st_like(*b1, *b2),
        (TypedStatement::Block(v1), TypedStatement::Block(v2)) => v1@.len() == v2@.len() && (
        forall|i: int| 0 <= i < v1@.len() ==> typed_st_like(#[trigger] v1@[i], v2@[i])),
        (
            TypedStatement::VariableDeclaration(n1, t1),
            TypedStatement::VariableDeclaration(n2, t2),
        ) => n1 == n2 && t1 == t2,
        _ => false,
    }
}

/// Statement elaboration is deterministic too: re-elaborating a
/// statement yields a structurally identical typed statement.
pub proof fn lemma_st_elaboration_unique(
    fenv: Seq<(String, FunctionType)>,
    venv: Seq<(String, Type)>,
    ret: Type,
    st: Statement,
    t1: TypedStatement,
    t2: TypedStatement,
)
    requires
        st_elaborates_to(fenv, venv, ret, st, t1),
        st_elaborates_to(fenv, venv, ret, st, t2),
    ensures
        typed_st_like(t1, t2),
    decreases st,
{
    match st {
        Statement::Expr(e) => {
            lemma_elaboration_unique(fenv, venv, e, t1->Expr_0, t2->Expr_0, false);
        },
        Statement::Return(e) => {
            lemma_elaboration_unique(fenv, venv, e, t1->Return_0, t2->Return_0, false);
        },
        Statement::If(c, s1) => {
            lemma_elaboration_unique(fenv, venv, *c, *t1->If_0, *t2->If_0, false);
            lemma_st_elaboration_unique(fenv, venv, ret, *s1, *t1->If_1, *t2->If_1);
        },
        Statement::IfElse(c, s1, s2) => {
            lemma_elaboration_unique(fenv, venv, *c, *t1->IfElse_0, *t2->IfElse_0, false);
            lemma_st_elaboration_unique(fenv, venv, ret, *s1, *t1->IfElse_1, *t2->IfElse_1);
            lemma_st_elaboration_unique(fenv, venv, ret, *s2, *t1->IfElse_2, *t2->IfElse_2);
        },
        Statement::While(c, b) => {
            lemma_elaboration_unique(fenv, venv, *c, *t1->While_0, *t2->While_0, false);
            lemma_st_elaboration_unique(fenv, venv, ret, *b, *t1->While_1, *t2->While_1);
        },
        Statement::For(i, c, u, b) => {
            lemma_elaboration_unique(fenv, venv, *i, *t1->For_0, *t2->For_0, false);
            lemma_elaboration_unique(fenv, venv, *c, *t1->For_1, *t2->For_1, false);
            lemma_elaboration_unique(fenv, venv, *u, *t1->For_2, *t2->For_2, false);
            lemma_st_elaboration_unique(fenv, venv, ret, *b, *t1->For_3, *t2->For_3);
        },
        Statement::Block(sts) => {
            let v1 = t1->Block_0;
            let v2 = t2->Block_0;
            assert forall|i: int| 0 <= i < v1@.len() implies typed_st_like(
                #[trigger] v1@[i],
                v2@[i],
            ) by {
                lemma_st_elaboration_unique(fenv, venv, ret, sts@[i], v1@[i], v2@[i]);
            }
        },
        Statement::VariableDeclaration(_, _) => {},
    }
}

/// After decay no annotation is an array, so every post-decay operand
/// type measures 4 or 8 bytes.
pub proof fn lemma_size_after_decay(t: Type)
    ensures
        decay_type(t).spec_size() == 4 || decay_type(t).spec_size() == 8,
{
    match t {
        Type::IntTyp => {},
        Type::Pointer(_) => {},
        Type::Array(_, _) => {},
    }
}

/// Every decayed elaborated operand has a type of 4 or 8 bytes.
pub proof fn lemma_elaborated_operand_size(
    fenv: Seq<(String, FunctionType)>,
    venv: Seq<(String, Type)>,
    e: Expr,
    te: TypedExpr,
)
    requires
        elaborates_to(fenv, venv, e, te, true),
    ensures
        te.spec_get_type().spec_size() == 4 || te.spec_get_type().spec_size() == 8,
{
    let rule = spec_type_expr(fenv, venv, e)->Ok_0;
    lemma_size_after_decay(rule);
    match e {
        Expr::Num(_) => {},
        Expr::Variable(_) => {},
        Expr::Add(_, _) => {},
        Expr::Sub(_, _) => {},
        Expr::Mul(_, _) => {},
        Expr::Div(_, _) => {},
        Expr::LessThan(_, _) => {},
        Expr::LessEqual(_, _) => {},
        Expr::Equal(_, _) => {},
        Expr::NotEqual(_, _) => {},
        Expr::GreaterThan(_, _) => {},
        Expr::GreaterEqual(_, _) => {},
        Expr::Assign(_, _) => {},
        Expr::FunctionCall(_, _) => {},
        Expr::Address(_) => {},
        Expr::Dereference(_) => {},
        Expr::Sizeof(_) => {},
    }
}

} // verus!
