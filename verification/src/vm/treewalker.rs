//! The semantics of Nyoom programs, and the interpreter that follows it.
//!
//! Every evaluation step takes a `fuel` bound: each evaluation of an expression or
//! instruction, and each round of a `while`, runs with one unit less than the step that
//! started it, and a step with no fuel left stops the run with `OutOfFuel`.
use vstd::prelude::*;
use crate::ast::{Block, Expr, Inst, SpecExpr, SpecInst};
use crate::ast::{views_of_exprs, views_of_insts, lemma_views_of_exprs, lemma_views_of_insts};
use crate::vm::builtin::{
    Builtin, FnResult, fn_result, arith_overflow, builtin_add, builtin_subtract, builtin_multiply,
    builtin_divide, builtin_lenght, builtin_index, arith_overflows, arith_result, divides_by_zero, zero_divisor, index_result, lenght_result, print_result,
};
use crate::vm::value::{VarContent, Value, views_of_values};
use crate::vm::{Env, Halt, HaltModel, LocalFnContent, LocalModel, VmCtx, VmState};
use crate::{ErrorModel, NyoomError, AST};

verus! {

/// A builtin's error, as a halt.
pub open spec fn lift(r: Result<Value, ErrorModel>) -> Result<Value, HaltModel> {
    match r {
        Ok(v) => Ok(v),
        Err(e) => Err(HaltModel::Error(e)),
    }
}

/// Applies a builtin to an evaluated argument.
pub open spec fn sem_builtin(b: Builtin, v: Value, st: Env) -> (Result<Value, HaltModel>, Env) {
    match b {
        Builtin::Lenght => (lift(lenght_result(v)), st),
        Builtin::Index => (lift(index_result(v)), st),
        Builtin::Print => match print_result(v) {
            Ok(c) => (Ok(Value::Nil), Env { vars: st.vars, out: st.out.push(c) }),
            Err(e) => (Err(HaltModel::Error(e)), st),
        },
        _ => if divides_by_zero(b, v) {
            (Err(HaltModel::DivideByZero), st)
        } else if arith_overflows(b, v) {
            (Err(HaltModel::Overflow), st)
        } else {
            (lift(arith_result(b, v)), st)
        },
    }
}

/// Evaluates an expression. `arg` is the unevaluated argument of the local function being
/// run, if one is; `Arg` evaluates it anew, without an argument of its own.
pub open spec fn sem_expr(
    fns: Map<u32, LocalModel>,
    bt: Map<u16, Builtin>,
    st: Env,
    e: SpecExpr,
    arg: Option<SpecExpr>,
    fuel: nat,
) -> (Result<Value, HaltModel>, Env)
    decreases fuel, 0nat,
{
    if fuel == 0 {
        (Err(HaltModel::OutOfFuel), st)
    } else {
        let f = (fuel - 1) as nat;
        match e {
            SpecExpr::Var(id) => if st.vars.contains_key(id.key()) {
                (Ok(st.vars[id.key()]), st)
            } else {
                (
                    Err(
                        HaltModel::Error(
                            ErrorModel::NoSuchDefinitionError(
                                "Tried to use unknown var as expression",
                                id,
                            ),
                        ),
                    ),
                    st,
                )
            },
            SpecExpr::Int(n) => (Ok(Value::Int(n as i32)), st),
            SpecExpr::CallLoc(id, a) => if fns.contains_key(id.key()) {
                match fns[id.key()] {
                    LocalModel::Block(body) => sem_fn_block(fns, bt, st, body, *a, 0, f),
                    LocalModel::Alias(target) => if bt.contains_key(target.number()) {
                        match sem_expr(fns, bt, st, *a, None, f) {
                            (Ok(v), st2) => sem_builtin(bt[target.number()], v, st2),
                            (Err(h), st2) => (Err(h), st2),
                        }
                    } else {
                        (
                            Err(
                                HaltModel::Error(
                                    ErrorModel::NoSuchDefinitionError(
                                        "No builtin function defined",
                                        target,
                                    ),
                                ),
                            ),
                            st,
                        )
                    },
                }
            } else {
                (
                    Err(
                        HaltModel::Error(
                            ErrorModel::NoSuchDefinitionError(
                                "Tried to call unknown local function as expression",
                                id,
                            ),
                        ),
                    ),
                    st,
                )
            },
            SpecExpr::CallBuiltin(id, a) => if bt.contains_key(id.number()) {
                match sem_expr(fns, bt, st, *a, arg, f) {
                    (Ok(v), st2) => sem_builtin(bt[id.number()], v, st2),
                    (Err(h), st2) => (Err(h), st2),
                }
            } else {
                (
                    Err(
                        HaltModel::Error(
                            ErrorModel::NoSuchDefinitionError(
                                "Tried to call unknown local function as expression",
                                id,
                            ),
                        ),
                    ),
                    st,
                )
            },
            SpecExpr::Concat(es) => sem_list(fns, bt, st, es, arg, 0, Seq::empty(), f),
            SpecExpr::Arg => match arg {
                Some(a) => sem_expr(fns, bt, st, a, None, f),
                None => (
                    Err(HaltModel::Error(ErrorModel::RuntimeError("Used ARG expression when inappropriate"))),
                    st,
                ),
            },
        }
    }
}

/// Evaluates the expressions of a concatenation from index `i` on, in order, `acc` holding
/// the values so far; the result is the array of all values.
pub open spec fn sem_list(
    fns: Map<u32, LocalModel>,
    bt: Map<u16, Builtin>,
    st: Env,
    es: Seq<SpecExpr>,
    arg: Option<SpecExpr>,
    i: int,
    acc: Seq<Value>,
    fuel: nat,
) -> (Result<Value, HaltModel>, Env)
    decreases fuel, es.len() - i + 1,
{
    if i < 0 || i >= es.len() {
        (Ok(Value::Array(acc)), st)
    } else {
        match sem_expr(fns, bt, st, es[i], arg, fuel) {
            (Ok(v), st2) => sem_list(fns, bt, st2, es, arg, i + 1, acc.push(v), fuel),
            (Err(h), st2) => (Err(h), st2),
        }
    }
}

/// Runs one instruction.
pub open spec fn sem_inst(
    fns: Map<u32, LocalModel>,
    bt: Map<u16, Builtin>,
    st: Env,
    inst: SpecInst,
    arg: Option<SpecExpr>,
    fuel: nat,
) -> (Result<(), HaltModel>, Env)
    decreases fuel, 0nat,
{
    if fuel == 0 {
        (Err(HaltModel::OutOfFuel), st)
    } else {
        let f = (fuel - 1) as nat;
        match inst {
            SpecInst::SetVar(id, e) => match sem_expr(fns, bt, st, e, arg, f) {
                (Ok(v), st2) => (Ok(()), Env { vars: st2.vars.insert(id.key(), v), out: st2.out }),
                (Err(h), st2) => (Err(h), st2),
            },
            SpecInst::Eval(e) => match sem_expr(fns, bt, st, e, arg, f) {
                (Ok(_v), st2) => (Ok(()), st2),
                (Err(h), st2) => (Err(h), st2),
            },
            SpecInst::If(e, body, _) => match sem_expr(fns, bt, st, e, arg, f) {
                (Ok(Value::Int(i)), st2) => if i != 0 {
                    sem_block(fns, bt, st2, body, arg, 0, f)
                } else {
                    (Ok(()), st2)
                },
                (Ok(v), st2) => (
                    Err(
                        HaltModel::Error(
                            ErrorModel::InvalidArgumentError("An IF block needs an INT argument", v),
                        ),
                    ),
                    st2,
                ),
                (Err(h), st2) => (Err(h), st2),
            },
            SpecInst::While(e, body) => sem_while(fns, bt, st, e, body, arg, f),
            SpecInst::Return(_) => (Ok(()), st),
            _ => (
                Err(HaltModel::Error(ErrorModel::RuntimeError("These insts should not be here"))),
                st,
            ),
        }
    }
}

/// Runs a `while`: while the condition is a non-zero integer, the body runs.
pub open spec fn sem_while(
    fns: Map<u32, LocalModel>,
    bt: Map<u16, Builtin>,
    st: Env,
    cond: SpecExpr,
    body: Seq<SpecInst>,
    arg: Option<SpecExpr>,
    fuel: nat,
) -> (Result<(), HaltModel>, Env)
    decreases fuel, 0nat,
{
    if fuel == 0 {
        (Err(HaltModel::OutOfFuel), st)
    } else {
        let f = (fuel - 1) as nat;
        match sem_expr(fns, bt, st, cond, arg, f) {
            (Ok(Value::Int(i)), st2) => if i != 0 {
                match sem_block(fns, bt, st2, body, arg, 0, f) {
                    (Ok(()), st3) => sem_while(fns, bt, st3, cond, body, arg, f),
                    (Err(h), st3) => (Err(h), st3),
                }
            } else {
                (Ok(()), st2)
            },
            (Ok(v), st2) => (
                Err(
                    HaltModel::Error(
                        ErrorModel::InvalidArgumentError("A WHILE block needs an INT argument", v),
                    ),
                ),
                st2,
            ),
            (Err(h), st2) => (Err(h), st2),
        }
    }
}

/// Runs the instructions of a block from index `i` on, in order.
pub open spec fn sem_block(
    fns: Map<u32, LocalModel>,
    bt: Map<u16, Builtin>,
    st: Env,
    insts: Seq<SpecInst>,
    arg: Option<SpecExpr>,
    i: int,
    fuel: nat,
) -> (Result<(), HaltModel>, Env)
    decreases fuel, insts.len() - i + 1,
{
    if i < 0 || i >= insts.len() {
        (Ok(()), st)
    } else {
        match sem_inst(fns, bt, st, insts[i], arg, fuel) {
            (Ok(()), st2) => sem_block(fns, bt, st2, insts, arg, i + 1, fuel),
            (Err(h), st2) => (Err(h), st2),
        }
    }
}

/// Runs the body of a local function from index `i` on, with argument `a`: the first
/// return met at the body's own level gives the result.
pub open spec fn sem_fn_block(
    fns: Map<u32, LocalModel>,
    bt: Map<u16, Builtin>,
    st: Env,
    insts: Seq<SpecInst>,
    a: SpecExpr,
    i: int,
    fuel: nat,
) -> (Result<Value, HaltModel>, Env)
    decreases fuel, insts.len() - i + 1,
{
    if i < 0 || i >= insts.len() {
        (Err(HaltModel::Error(ErrorModel::RuntimeError("Local function had no return!"))), st)
    } else {
        match insts[i] {
            SpecInst::Return(e) => sem_expr(fns, bt, st, e, Some(a), fuel),
            _ => match sem_inst(fns, bt, st, insts[i], Some(a), fuel) {
                (Ok(()), st2) => sem_fn_block(fns, bt, st2, insts, a, i + 1, fuel),
                (Err(h), st2) => (Err(h), st2),
            },
        }
    }
}

/// The model of an evaluation result.
pub open spec fn value_outcome(r: Result<VarContent, Halt>) -> Result<Value, HaltModel> {
    match r {
        Ok(v) => Ok(v@),
        Err(h) => Err(h@),
    }
}

/// The model of a run result.
pub open spec fn unit_outcome(r: Result<(), Halt>) -> Result<(), HaltModel> {
    match r {
        Ok(()) => Ok(()),
        Err(h) => Err(h@),
    }
}

/// The model of an optional argument.
pub open spec fn arg_view(a: Option<&Expr>) -> Option<SpecExpr> {
    match a {
        Some(e) => Some(e@),
        None => None,
    }
}

/// A builtin's error, as a halt.
fn lift_result(r: FnResult) -> (h: Result<VarContent, Halt>)
    ensures
        value_outcome(h) == lift(fn_result(r)),
{
    match r {
        Ok(v) => Ok(v),
        Err(e) => Err(Halt::Error(e)),
    }
}

/// Applies a builtin to an evaluated argument.
fn apply_builtin(st: &mut VmState, b: Builtin, v: VarContent) -> (r: Result<VarContent, Halt>)
    ensures
        (value_outcome(r), final(st)@) == sem_builtin(b, v@, old(st)@),
{
    match b {
        Builtin::Lenght => lift_result(builtin_lenght(v)),
        Builtin::Index => lift_result(builtin_index(v)),
        Builtin::Print => lift_result(st.print_builtin(v)),
        _ => {
            if zero_divisor(b, &v) {
                return Err(Halt::DivideByZero);
            }
            if arith_overflow(b, &v) {
                return Err(Halt::Overflow);
            }
            match b {
                Builtin::Add => lift_result(builtin_add(v)),
                Builtin::Subtract => lift_result(builtin_subtract(v)),
                Builtin::Multiply => lift_result(builtin_multiply(v)),
                _ => lift_result(builtin_divide(v)),
            }
        },
    }
}

/// Evaluates an expression; `arg` is the argument of the local function being run.
pub fn evaluate_expression(
    ctx: &VmCtx,
    st: &mut VmState,
    expr: &Expr,
    arg: Option<&Expr>,
    fuel: u64,
) -> (r: Result<VarContent, Halt>)
    ensures
        (value_outcome(r), final(st)@) == sem_expr(
            ctx.fns(),
            ctx.bt(),
            old(st)@,
            expr@,
            arg_view(arg),
            fuel as nat,
        ),
    decreases fuel, 0nat,
{
    if fuel == 0 {
        return Err(Halt::OutOfFuel);
    }
    let f = fuel - 1;
    match expr {
        Expr::Var(id) => match st.get_var(*id) {
            Some(v) => Ok(v),
            None => Err(
                Halt::Error(
                    NyoomError::NoSuchDefinitionError("Tried to use unknown var as expression", *id),
                ),
            ),
        },
        Expr::Int(n) => Ok(VarContent::Int(*n as i32)),
        Expr::CallLoc(fn_call) => match ctx.get_local(fn_call.0) {
            Some(LocalFnContent::Block(block)) => evaluate_local_function_block(
                ctx,
                st,
                block,
                &*fn_call.1,
                f,
            ),
            Some(LocalFnContent::Alias(id)) => {
                let aliased_id = id.to_builtin();
                match ctx.get_builtin(aliased_id) {
                    Some(b) => {
                        let v = match evaluate_expression(ctx, st, &*fn_call.1, None, f) {
                            Ok(v) => v,
                            Err(h) => {
                                return Err(h);
                            },
                        };
                        apply_builtin(st, b, v)
                    },
                    None => Err(
                        Halt::Error(
                            NyoomError::NoSuchDefinitionError("No builtin function defined", *id),
                        ),
                    ),
                }
            },
            None => Err(
                Halt::Error(
                    NyoomError::NoSuchDefinitionError(
                        "Tried to call unknown local function as expression",
                        fn_call.0,
                    ),
                ),
            ),
        },
        Expr::CallBuiltin(fn_call) => match ctx.get_builtin(fn_call.0.to_builtin()) {
            Some(b) => {
                let v = match evaluate_expression(ctx, st, &*fn_call.1, arg, f) {
                    Ok(v) => v,
                    Err(h) => {
                        return Err(h);
                    },
                };
                apply_builtin(st, b, v)
            },
            None => Err(
                Halt::Error(
                    NyoomError::NoSuchDefinitionError(
                        "Tried to call unknown local function as expression",
                        fn_call.0,
                    ),
                ),
            ),
        },
        Expr::Concat(exprs) => {
            let ghost es = views_of_exprs(exprs@);
            proof {
                lemma_views_of_exprs(exprs@);
            }
            let mut vals: Vec<VarContent> = Vec::new();
            let mut i: usize = 0;
            assert(views_of_values(vals@) =~= Seq::<Value>::empty());
            assert(expr@ == SpecExpr::Concat(es));
            while i < exprs.len()
                invariant
                    i <= exprs.len(),
                    es == views_of_exprs(exprs@),
                    es.len() == exprs@.len(),
                    forall|j: int| 0 <= j < exprs@.len() ==> es[j] == exprs@[j]@,
                    f < fuel,
                    sem_expr(ctx.fns(), ctx.bt(), old(st)@, expr@, arg_view(arg), fuel as nat)
                        == sem_list(
                        ctx.fns(),
                        ctx.bt(),
                        st@,
                        es,
                        arg_view(arg),
                        i as int,
                        views_of_values(vals@),
                        f as nat,
                    ),
                decreases exprs.len() - i,
            {
                let v = match evaluate_expression(ctx, st, &exprs[i], arg, f) {
                    Ok(v) => v,
                    Err(h) => {
                        return Err(h);
                    },
                };
                let ghost before = vals@;
                vals.push(v);
                assert(vals@.drop_last() =~= before);
                assert(views_of_values(vals@) == views_of_values(before).push(v@));
                i = i + 1;
            }
            Ok(VarContent::Array(vals))
        },
        Expr::Arg => match arg {
            Some(a) => evaluate_expression(ctx, st, a, None, f),
            None => Err(
                Halt::Error(NyoomError::RuntimeError("Used ARG expression when inappropriate")),
            ),
        },
    }
}

/// Runs one instruction; `arg` is the argument of the local function being run.
pub fn run_inst(
    ctx: &VmCtx,
    st: &mut VmState,
    inst: &Inst,
    arg: Option<&Expr>,
    fuel: u64,
) -> (r: Result<(), Halt>)
    ensures
        (unit_outcome(r), final(st)@) == sem_inst(
            ctx.fns(),
            ctx.bt(),
            old(st)@,
            inst@,
            arg_view(arg),
            fuel as nat,
        ),
    decreases fuel, 0nat,
{
    if fuel == 0 {
        return Err(Halt::OutOfFuel);
    }
    let f = fuel - 1;
    match inst {
        Inst::Import(_) | Inst::Alias(_, _) | Inst::FnDef(_, _) => {
            Err(Halt::Error(NyoomError::RuntimeError("These insts should not be here")))
        },
        Inst::SetVar(id, expr) => {
            let res = match evaluate_expression(ctx, st, expr, arg, f) {
                Ok(v) => v,
                Err(h) => {
                    return Err(h);
                },
            };
            st.set_var(*id, res);
            Ok(())
        },
        Inst::Eval(expr) => match evaluate_expression(ctx, st, expr, arg, f) {
            Ok(_) => Ok(()),
            Err(h) => Err(h),
        },
        Inst::If(expr, block, _block1) => {
            let var = match evaluate_expression(ctx, st, expr, arg, f) {
                Ok(v) => v,
                Err(h) => {
                    return Err(h);
                },
            };
            if let VarContent::Int(i) = var {
                if i != 0 {
                    return evaluate_control_block(ctx, st, block, arg, f);
                }
                Ok(())
            } else {
                Err(
                    Halt::Error(
                        NyoomError::InvalidArgumentError("An IF block needs an INT argument", var),
                    ),
                )
            }
        },
        Inst::While(expr, block) => {
            let mut g: u64 = f;
            loop
                invariant
                    g <= f,
                    f < fuel,
                    sem_inst(ctx.fns(), ctx.bt(), old(st)@, inst@, arg_view(arg), fuel as nat)
                        == sem_while(
                        ctx.fns(),
                        ctx.bt(),
                        st@,
                        expr@,
                        block@,
                        arg_view(arg),
                        g as nat,
                    ),
                decreases g,
            {
                if g == 0 {
                    return Err(Halt::OutOfFuel);
                }
                let h = g - 1;
                let var = match evaluate_expression(ctx, st, expr, arg, h) {
                    Ok(v) => v,
                    Err(e) => {
                        return Err(e);
                    },
                };
                if let VarContent::Int(i) = var {
                    if i != 0 {
                        match evaluate_control_block(ctx, st, block, arg, h) {
                            Ok(()) => {},
                            Err(e) => {
                                return Err(e);
                            },
                        }
                        g = h;
                    } else {
                        return Ok(());
                    }
                } else {
                    return Err(
                        Halt::Error(
                            NyoomError::InvalidArgumentError(
                                "A WHILE block needs an INT argument",
                                var,
                            ),
                        ),
                    );
                }
            }
        },
        Inst::Return(_expr) => Ok(()),
    }
}

/// Runs the instructions of a block in order.
pub fn evaluate_control_block(
    ctx: &VmCtx,
    st: &mut VmState,
    block: &Block,
    arg: Option<&Expr>,
    fuel: u64,
) -> (r: Result<(), Halt>)
    ensures
        (unit_outcome(r), final(st)@) == sem_block(
            ctx.fns(),
            ctx.bt(),
            old(st)@,
            block@,
            arg_view(arg),
            0,
            fuel as nat,
        ),
    decreases fuel, 1nat,
{
    let ghost insts = block@;
    proof {
        lemma_views_of_insts(block.0@);
    }
    let mut i: usize = 0;
    while i < block.0.len()
        invariant
            i <= block.0.len(),
            insts == block@,
            insts.len() == block.0@.len(),
            forall|j: int| 0 <= j < block.0@.len() ==> insts[j] == block.0@[j]@,
            sem_block(ctx.fns(), ctx.bt(), old(st)@, insts, arg_view(arg), 0, fuel as nat)
                == sem_block(ctx.fns(), ctx.bt(), st@, insts, arg_view(arg), i as int, fuel as nat),
        decreases block.0.len() - i,
    {
        match run_inst(ctx, st, &block.0[i], arg, fuel) {
            Ok(()) => {},
            Err(h) => {
                return Err(h);
            },
        }
        i = i + 1;
    }
    Ok(())
}

/// Runs the body of a local function with argument `arg`, up to its first return.
pub fn evaluate_local_function_block(
    ctx: &VmCtx,
    st: &mut VmState,
    block: &Block,
    arg: &Expr,
    fuel: u64,
) -> (r: Result<VarContent, Halt>)
    ensures
        (value_outcome(r), final(st)@) == sem_fn_block(
            ctx.fns(),
            ctx.bt(),
            old(st)@,
            block@,
            arg@,
            0,
            fuel as nat,
        ),
    decreases fuel, 1nat,
{
    let ghost insts = block@;
    proof {
        lemma_views_of_insts(block.0@);
    }
    let mut i: usize = 0;
    while i < block.0.len()
        invariant
            i <= block.0.len(),
            insts == block@,
            insts.len() == block.0@.len(),
            forall|j: int| 0 <= j < block.0@.len() ==> insts[j] == block.0@[j]@,
            sem_fn_block(ctx.fns(), ctx.bt(), old(st)@, insts, arg@, 0, fuel as nat)
                == sem_fn_block(ctx.fns(), ctx.bt(), st@, insts, arg@, i as int, fuel as nat),
        decreases block.0.len() - i,
    {
        if let Inst::Return(expr) = &block.0[i] {
            return evaluate_expression(ctx, st, expr, Some(arg), fuel);
        }
        match run_inst(ctx, st, &block.0[i], Some(arg), fuel) {
            Ok(()) => {},
            Err(h) => {
                return Err(h);
            },
        }
        i = i + 1;
    }
    Err(Halt::Error(NyoomError::RuntimeError("Local function had no return!")))
}

/// Runs the instructions of a program in order, with no argument.
pub fn walk_tree(ctx: &VmCtx, st: &mut VmState, ast: AST, fuel: u64) -> (r: Result<(), Halt>)
    ensures
        (unit_outcome(r), final(st)@) == sem_block(
            ctx.fns(),
            ctx.bt(),
            old(st)@,
            views_of_insts(ast@),
            None,
            0,
            fuel as nat,
        ),
{
    let block = Block(ast);
    evaluate_control_block(ctx, st, &block, None, fuel)
}

} // verus!
