//! Assigns every local (parameters first, then declarations in source
//! order) a distinct frame offset from the base pointer: 8, 16, 24, ...
//! Each slot is 8 bytes wide; a repeated name keeps its first slot.
use vstd::prelude::*;

use crate::statement::Statement;
use crate::types::Type;
use crate::variable_collector;
use crate::variable_collector::decls_of_statement;
use crate::variable_collector::decls_of_statements;

verus! {

/// Whether some entry carries the given name.
pub open spec fn contains_name(s: Seq<(String, Type)>, n: Seq<char>) -> bool {
    exists|k: int| 0 <= k < s.len() && s[k].0@ == n
}

/// The sequence with every repeated name dropped, keeping first
/// occurrences in order.
pub open spec fn dedup_first(s: Seq<(String, Type)>) -> Seq<(String, Type)>
    decreases s.len(),
{
    if s.len() == 0 {
        Seq::empty()
    } else {
        let d = dedup_first(s.drop_last());
        if contains_name(d, s.last().0@) {
            d
        } else {
            d.push(s.last())
        }
    }
}

/// The declarations under one statement, in source order.
pub fn collect_identifiers_in_statement(statement: &Statement) -> (r: Vec<(String, Type)>)
    ensures
        r@ == decls_of_statement(*statement),
{
    variable_collector::collect_variables_in_statement(statement)
}

/// The declarations under a statement sequence, in source order.
pub fn collect_identifiers_in_statements(statements: &Vec<Statement>) -> (r: Vec<(String, Type)>)
    ensures
        r@ == decls_of_statements(statements@),
{
    variable_collector::collect_variables_in_statements(statements)
}

/// Maps each distinct local name, parameters first, to its slot offset
/// and declared type: the k-th distinct name gets offset `8 * (k + 1)`.
pub fn calculate_offset(params: &Vec<(String, Type)>, statements: &Vec<Statement>) -> (r: Vec<
    (String, (usize, Type)),
>)
    requires
        8 * (params@.len() + decls_of_statements(statements@).len() + 1) <= usize::MAX,
    ensures
        ({
            let d = dedup_first(params@ + decls_of_statements(statements@));
            &&& r@.len() == d.len()
            &&& forall|k: int|
                0 <= k < d.len() ==> {
                    &&& (#[trigger] r@[k]).0 == d[k].0
                    &&& r@[k].1.0 == 8 * (k + 1)
                    &&& r@[k].1.1 == d[k].1
                }
        }),
{
    let ghost all = params@ + decls_of_statements(statements@);
    let mut combined: Vec<(String, Type)> = Vec::new();
    let np = params.len();
    for i in 0..np
        invariant
            np == params@.len(),
            combined@ =~= params@.take(i as int),
    {
        combined.push((params[i].0.clone(), params[i].1.clone()));
        proof {
            assert(combined@ =~= params@.take(i as int + 1));
        }
    }
    proof {
        assert(params@.take(np as int) =~= params@);
    }
    let mut rest = collect_identifiers_in_statements(statements);
    combined.append(&mut rest);
    proof {
        assert(combined@ == all);
    }
    let n = combined.len();
    let mut res: Vec<(String, (usize, Type))> = Vec::new();
    let mut i: usize = 0;
    proof {
        assert(combined@.take(0) =~= Seq::<(String, Type)>::empty());
        assert(dedup_first(combined@.take(0)) =~= Seq::<(String, Type)>::empty());
    }
    while i < n
        invariant
            all == params@ + decls_of_statements(statements@),
            8 * (all.len() + 1) <= usize::MAX,
            combined@ == all,
            n == all.len(),
            i <= n,
            res@.len() == dedup_first(all.take(i as int)).len(),
            res@.len() <= i,
            forall|k: int|
                0 <= k < res@.len() ==> {
                    &&& (#[trigger] res@[k]).0 == dedup_first(all.take(i as int))[k].0
                    &&& res@[k].1.0 == 8 * (k + 1)
                    &&& res@[k].1.1 == dedup_first(all.take(i as int))[k].1
                },
        decreases n - i,
    {
        let ghost d_i = dedup_first(all.take(i as int));
        let ghost d_next = dedup_first(all.take(i as int + 1));
        proof {
            assert(all.take(i as int + 1).drop_last() =~= all.take(i as int));
            assert(all.take(i as int + 1).last() == all[i as int]);
        }
        // Scan the result so far for this name.
        let name = &combined[i].0;
        let mut found = false;
        let mut j: usize = 0;
        while j < res.len()
            invariant
                j <= res@.len(),
                name == &combined@[i as int].0,
                i < n,
                n == combined@.len(),
                res@.len() == d_i.len(),
                forall|k: int| 0 <= k < res@.len() ==> (#[trigger] res@[k]).0 == d_i[k].0,
                found ==> contains_name(d_i, name@),
                !found ==> forall|k: int| 0 <= k < j ==> d_i[k].0@ != name@,
            decreases res@.len() - j,
        {
            if res[j].0 == *name {
                proof {
                    assert(d_i[j as int].0@ == name@);
                }
                found = true;
            }
            j = j + 1;
        }
        proof {
            if !found {
                assert(!contains_name(d_i, name@)) by {
                    if contains_name(d_i, name@) {
                        let k = choose|k: int| 0 <= k < d_i.len() && d_i[k].0@ == name@;
                        assert(d_i[k].0@ != name@);
                    }
                }
            }
        }
        if !found {
            let offset: usize = 8 * (res.len() + 1);
            res.push((combined[i].0.clone(), (offset, combined[i].1.clone())));
            proof {
                assert(d_next =~= d_i.push(all[i as int]));
            }
        } else {
            proof {
                assert(d_next =~= d_i);
            }
        }
        i = i + 1;
    }
    proof {
        assert(all.take(n as int) =~= all);
    }
    res
}

} // verus!
