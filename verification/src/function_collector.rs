//! Collects the global signature table: every function name, defined or
//! declared `extern`, mapped to its parameter types and return type. A
//! name declared twice keeps its later signature.
use vstd::prelude::*;

use crate::top_level::TopLevel;
use crate::types::FunctionType;
use crate::types::Type;

verus! {

/// The parameter types of a top-level item's signature.
pub open spec fn spec_param_types(t: TopLevel) -> Seq<Type> {
    match t {
        TopLevel::FunctionDefinition(_, args, _, _) => args@.map_values(|p: (String, Type)| p.1),
        TopLevel::ExternalFunctionDeclaration(_, args, _) => args@.map_values(
            |p: (String, Type)| p.1,
        ),
    }
}

pub open spec fn spec_name_of(t: TopLevel) -> Seq<char> {
    match t {
        TopLevel::FunctionDefinition(name, _, _, _) => name@,
        TopLevel::ExternalFunctionDeclaration(name, _, _) => name@,
    }
}

pub open spec fn spec_return_type(t: TopLevel) -> Type {
    match t {
        TopLevel::FunctionDefinition(_, _, ret, _) => ret,
        TopLevel::ExternalFunctionDeclaration(_, _, ret) => ret,
    }
}

/// The signature registered under `name`, the last registration winning,
/// as a `HashMap` built by insertion would have it.
pub open spec fn fun_lookup(env: Seq<(String, FunctionType)>, name: Seq<char>) -> Option<
    FunctionType,
>
    decreases env.len(),
{
    if env.len() == 0 {
        None
    } else if env.last().0@ == name {
        Some(env.last().1)
    } else {
        fun_lookup(env.drop_last(), name)
    }
}

/// One signature-table entry per top-level item, in order: its name, its
/// parameter types, its return type.
pub fn collect_functions(program: &Vec<TopLevel>) -> (r: Vec<(String, FunctionType)>)
    ensures
        r@.len() == program@.len(),
        forall|i: int|
            0 <= i < program@.len() ==> {
                &&& (#[trigger] r@[i]).0@ == spec_name_of(program@[i])
                &&& r@[i].1.0@ == spec_param_types(program@[i])
                &&& *r@[i].1.1 == spec_return_type(program@[i])
            },
{
    let mut functions: Vec<(String, FunctionType)> = Vec::new();
    let n = program.len();
    for i in 0..n
        invariant
            n == program@.len(),
            functions@.len() == i,
            forall|k: int|
                0 <= k < i ==> {
                    &&& (#[trigger] functions@[k]).0@ == spec_name_of(program@[k])
                    &&& functions@[k].1.0@ == spec_param_types(program@[k])
                    &&& *functions@[k].1.1 == spec_return_type(program@[k])
                },
    {
        let entry: (String, FunctionType) = match &program[i] {
            TopLevel::FunctionDefinition(name, args, return_type, _) => {
                let mut arg_types: Vec<Type> = Vec::new();
                let na = args.len();
                for j in 0..na
                    invariant
                        na == args@.len(),
                        arg_types@ =~= args@.take(j as int).map_values(|p: (String, Type)| p.1),
                {
                    arg_types.push(args[j].1.clone());
                    proof {
                        assert(args@.take(j as int + 1).map_values(|p: (String, Type)| p.1)
                            =~= args@.take(j as int).map_values(|p: (String, Type)| p.1).push(
                            args@[j as int].1,
                        ));
                    }
                }
                proof {
                    assert(args@.take(na as int) =~= args@);
                }
                (name.clone(), (arg_types, Box::new(return_type.clone())))
            },
            TopLevel::ExternalFunctionDeclaration(name, args, return_type) => {
                let mut arg_types: Vec<Type> = Vec::new();
                let na = args.len();
                for j in 0..na
                    invariant
                        na == args@.len(),
                        arg_types@ =~= args@.take(j as int).map_values(|p: (String, Type)| p.1),
                {
                    arg_types.push(args[j].1.clone());
                    proof {
                        assert(args@.take(j as int + 1).map_values(|p: (String, Type)| p.1)
                            =~= args@.take(j as int).map_values(|p: (String, Type)| p.1).push(
                            args@[j as int].1,
                        ));
                    }
                }
                proof {
                    assert(args@.take(na as int) =~= args@);
                }
                (name.clone(), (arg_types, Box::new(return_type.clone())))
            },
        };
        functions.push(entry);
    }
    functions
}

/// Finds the signature registered under `name`, the last one winning.
pub fn lookup_function<'a>(env: &'a Vec<(String, FunctionType)>, name: &String) -> (r: Option<
    &'a FunctionType,
>)
    ensures
        match r {
            Some(ft) => fun_lookup(env@, name@) == Some(*ft),
            None => fun_lookup(env@, name@) is None,
        },
{
    let mut i = env.len();
    proof {
        assert(env@.take(env@.len() as int) =~= env@);
    }
    while i > 0
        invariant
            i <= env@.len(),
            fun_lookup(env@, name@) == fun_lookup(env@.take(i as int), name@),
        decreases i,
    {
        i = i - 1;
        if env[i].0 == *name {
            proof {
                assert(env@.take(i as int + 1).last() == env@[i as int]);
            }
            return Some(&env[i].1);
        }
        proof {
            assert(env@.take(i as int + 1).last() == env@[i as int]);
            assert(env@.take(i as int + 1).drop_last() =~= env@.take(i as int));
        }
    }
    proof {
        assert(env@.take(0) =~= Seq::<(String, FunctionType)>::empty());
    }
    None
}

} // verus!
