//! What an evaluator of Helion programs decides without computing on values:
//! the errors it reports, the functions a program declares, and how a call
//! binds its arguments.
use vstd::prelude::*;

use crate::ast::{clone_names, clone_stmt, names_view, FunctionValue, Program, SpecStmt, Stmt};
use crate::env::{define_in, Env};

verus! {

/// Why running a program failed.
#[derive(Debug)]
pub enum RuntimeError {
    /// A name that no scope binds.
    UndefinedVariable(String),
    /// A `return` reached outside any function.
    ReturnOutsideFunction,
    /// An operation on values of kinds it does not take, with what went wrong.
    TypeError(String),
}

/// The functions that top-level statements declare, in order: name,
/// parameter names and body.
pub open spec fn declarations(stmts: Seq<SpecStmt>) -> Seq<(Seq<char>, Seq<Seq<char>>, SpecStmt)>
    decreases stmts.len(),
{
    if stmts.len() == 0 {
        Seq::empty()
    } else {
        declarations(stmts.drop_last()) + match stmts.last() {
            SpecStmt::Function { name, params, body } => seq![(name, params, *body)],
            _ => Seq::empty(),
        }
    }
}

/// Named functions, taken by the views of their names, parameters and bodies.
pub open spec fn functions_view(v: Seq<(String, FunctionValue)>) -> Seq<
    (Seq<char>, Seq<Seq<char>>, SpecStmt),
> {
    Seq::new(v.len(), |i: int| (v[i].0@, names_view(v[i].1.params@), (*v[i].1.body)@))
}

/// The functions that the top-level statements of `program` declare, in
/// order, each with its name.
pub fn function_declarations(program: &Program) -> (r: Vec<(String, FunctionValue)>)
    ensures
        functions_view(r@) == declarations(program@),
{
    let mut r: Vec<(String, FunctionValue)> = Vec::new();
    let mut i: usize = 0;
    while i < program.stmts.len()
        invariant
            0 <= i <= program.stmts@.len(),
            functions_view(r@) == declarations(program@.take(i as int)),
            program@ == crate::ast::stmts_view(program.stmts@),
        decreases program.stmts@.len() - i,
    {
        let ghost before = r@;
        proof {
            assert(program@.take(i + 1).drop_last() =~= program@.take(i as int));
            assert(program@.take(i + 1).last() == program.stmts@[i as int]@);
        }
        match &program.stmts[i] {
            Stmt::Function { name, params, body } => {
                let f = FunctionValue { params: clone_names(params), body: Box::new(clone_stmt(body)) };
                r.push((name.clone(), f));
                proof {
                    crate::ast::lemma_view_function(*name, *params, *body);
                    assert(functions_view(r@) =~= functions_view(before) + seq![
                        (name@, names_view(params@), (**body)@),
                    ]);
                }
            },
            _ => {
                proof {
                    assert(functions_view(r@) =~= functions_view(before) + Seq::empty());
                }
            },
        }
        i = i + 1;
    }
    proof {
        assert(program@.take(i as int) =~= program@);
    }
    r
}

/// The function statement that a declaration stands for.
pub open spec fn declared_stmt(d: (Seq<char>, Seq<Seq<char>>, SpecStmt)) -> SpecStmt {
    SpecStmt::Function { name: d.0, params: d.1, body: Box::new(d.2) }
}

/// Each declaration is one of the program's function statements, whole:
/// its name, its parameters and its own body.
pub proof fn law_declarations_come_from_the_program(stmts: Seq<SpecStmt>, i: int)
    requires
        0 <= i < declarations(stmts).len(),
    ensures
        exists|j: int| 0 <= j < stmts.len() && stmts[j] == declared_stmt(#[trigger] declarations(stmts)[i]),
    decreases stmts.len(),
{
    let init = stmts.drop_last();
    if i < declarations(init).len() {
        law_declarations_come_from_the_program(init, i);
        let j = choose|j: int| 0 <= j < init.len() && init[j] == declared_stmt(declarations(init)[i]);
        assert(stmts[j] == init[j]);
        assert(declarations(stmts)[i] == declarations(init)[i]);
    } else {
        let j = stmts.len() - 1;
        assert(stmts[j] == stmts.last());
        match stmts.last() {
            SpecStmt::Function { name, params, body } => {
                assert(declarations(stmts)[i] == (name, params, *body));
            },
            _ => {
                assert(declarations(stmts) =~= declarations(init));
            },
        }
    }
}

/// The declarations of two programs one after the other are those of the
/// first, then those of the second.
pub proof fn law_declarations_in_order(p: Seq<SpecStmt>, q: Seq<SpecStmt>)
    ensures
        declarations(p + q) == declarations(p) + declarations(q),
    decreases q.len(),
{
    if q.len() == 0 {
        assert(p + q =~= p);
        assert(declarations(p) + declarations(q) =~= declarations(p));
    } else {
        law_declarations_in_order(p, q.drop_last());
        assert((p + q).drop_last() =~= p + q.drop_last());
        assert((p + q).last() == q.last());
        assert(declarations(p + q) =~= declarations(p) + declarations(q));
    }
}

/// A program made only of function statements declares each of them, in
/// order; one with no function statement declares nothing.
pub proof fn law_declarations_of_functions(stmts: Seq<SpecStmt>)
    ensures
        (forall|j: int| 0 <= j < stmts.len() ==> #[trigger] stmts[j] is Function) ==> {
            &&& declarations(stmts).len() == stmts.len()
            &&& forall|i: int|
                0 <= i < stmts.len() ==> declared_stmt(#[trigger] declarations(stmts)[i])
                    == stmts[i]
        },
        (forall|j: int| 0 <= j < stmts.len() ==> !(#[trigger] stmts[j] is Function))
            ==> declarations(stmts).len() == 0,
    decreases stmts.len(),
{
    if stmts.len() > 0 {
        let init = stmts.drop_last();
        law_declarations_of_functions(init);
        if forall|j: int| 0 <= j < stmts.len() ==> #[trigger] stmts[j] is Function {
            assert forall|j: int| 0 <= j < init.len() implies #[trigger] init[j] is Function by {
                assert(init[j] == stmts[j]);
            }
            assert(stmts[stmts.len() - 1] is Function);
            assert forall|i: int| 0 <= i < stmts.len() implies declared_stmt(
                #[trigger] declarations(stmts)[i],
            ) == stmts[i] by {
                if i < init.len() {
                    assert(declarations(stmts)[i] == declarations(init)[i]);
                    assert(init[i] == stmts[i]);
                } else {
                    assert(stmts[i] == stmts.last());
                }
            }
        }
        if forall|j: int| 0 <= j < stmts.len() ==> !(#[trigger] stmts[j] is Function) {
            assert forall|j: int| 0 <= j < init.len() implies !(#[trigger] init[j] is Function) by {
                assert(init[j] == stmts[j]);
            }
            assert(!(stmts[stmts.len() - 1] is Function));
        }
    }
}

/// The message of a call whose argument count is not its parameter count.
pub open spec fn arity_message() -> Seq<char> {
    "argument count mismatch"@
}

/// A call passes as many arguments as the function has parameters; any
/// other count is a type error.
pub fn check_arity(param_count: usize, arg_count: usize) -> (r: Result<(), RuntimeError>)
    ensures
        r is Ok == (param_count == arg_count),
        r matches Err(e) ==> e matches RuntimeError::TypeError(m) && m@ == arity_message(),
{
    if param_count != arg_count {
        return Err(RuntimeError::TypeError("argument count mismatch".to_owned()));
    }
    Ok(())
}

/// Defining each name in turn to the value at the same place.
pub open spec fn define_all<V>(
    scopes: Seq<Map<Seq<char>, V>>,
    names: Seq<Seq<char>>,
    values: Seq<V>,
) -> Seq<Map<Seq<char>, V>>
    decreases names.len(),
{
    if names.len() == 0 || values.len() == 0 {
        scopes
    } else {
        define_all(define_in(scopes, names[0], values[0]), names.drop_first(), values.drop_first())
    }
}

/// Binds each parameter to the argument at its place, in order.
pub fn bind_params<V>(env: &mut Env<V>, params: &Vec<String>, args: Vec<V>)
    requires
        old(env).wf(),
        params@.len() == args@.len(),
    ensures
        final(env).wf(),
        final(env)@ == define_all(old(env)@, names_view(params@), args@),
{
    let ghost names = names_view(params@);
    let ghost all = args@;
    let mut args = args;
    let mut i: usize = 0;
    proof {
        assert(names.skip(0) =~= names);
        assert(all.skip(0) =~= all);
    }
    while i < params.len()
        invariant
            0 <= i <= params@.len(),
            params@.len() == all.len(),
            names == names_view(params@),
            args@ == all.skip(i as int),
            env.wf(),
            define_all(env@, names.skip(i as int), all.skip(i as int)) == define_all(
                old(env)@,
                names,
                all,
            ),
        decreases params@.len() - i,
    {
        let value = args.remove(0);
        proof {
            assert(names.skip(i as int).drop_first() =~= names.skip(i + 1));
            assert(all.skip(i as int).drop_first() =~= all.skip(i + 1));
            assert(args@ =~= all.skip(i + 1));
        }
        env.define(params[i].clone(), value);
        i = i + 1;
    }
    proof {
        assert(names.skip(i as int).len() == 0);
    }
}

} // verus!
