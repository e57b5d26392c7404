//! Laws of the semantics: fuel only bounds a run, and printing only appends.
use vstd::prelude::*;
use crate::ast::{Id, SpecExpr, SpecInst};
use crate::vm::builtin::{
    Builtin, abs, arith_overflows, arith_result, divides_by_zero, index_result, lenght_result,
    print_result, trunc_div,
};
use vstd::utf8::is_scalar;
use crate::vm::treewalker::{
    sem_builtin, sem_expr, sem_list, sem_inst, sem_while, sem_block, sem_fn_block,
};
use crate::vm::value::Value;
use crate::vm::{Env, HaltModel, LocalModel, sem_program, fn_table, without_definitions, is_definition};

verus! {

/// Whether `b` printed everything `a` had printed, first and in the same order.
pub open spec fn out_extends(a: Env, b: Env) -> bool {
    &&& a.out.len() <= b.out.len()
    &&& forall|i: int| 0 <= i < a.out.len() ==> #[trigger] b.out[i] == a.out[i]
}

/// Whether a run ended otherwise than by running out of fuel.
pub open spec fn finished<T>(r: Result<T, HaltModel>) -> bool {
    !(r is Err && r->Err_0 is OutOfFuel)
}

/// A builtin prints at most one character, after what was printed before.
proof fn lemma_builtin(b: Builtin, v: Value, st: Env)
    ensures
        out_extends(st, sem_builtin(b, v, st).1),
{
}

/// Evaluating an expression: printing only appends, and with more fuel a finished
/// evaluation gives the same.
proof fn lemma_expr(
    fns: Map<u32, LocalModel>,
    bt: Map<u16, Builtin>,
    st: Env,
    e: SpecExpr,
    arg: Option<SpecExpr>,
    f: nat,
    g: nat,
)
    requires
        f <= g,
    ensures
        out_extends(st, sem_expr(fns, bt, st, e, arg, f).1),
        finished(sem_expr(fns, bt, st, e, arg, f).0) ==> sem_expr(fns, bt, st, e, arg, g)
            == sem_expr(fns, bt, st, e, arg, f),
    decreases f, 0nat,
{
    if f > 0 {
        let f1 = (f - 1) as nat;
        let g1 = (g - 1) as nat;
        match e {
            SpecExpr::CallLoc(id, a) => {
                if fns.contains_key(id.key()) {
                    match fns[id.key()] {
                        LocalModel::Block(body) => {
                            lemma_fn_block(fns, bt, st, body, *a, 0, f1, g1);
                        },
                        LocalModel::Alias(target) => {
                            if bt.contains_key(target.number()) {
                                lemma_expr(fns, bt, st, *a, None, f1, g1);
                                let (r, st2) = sem_expr(fns, bt, st, *a, None, f1);
                                if let Ok(v) = r {
                                    lemma_builtin(bt[target.number()], v, st2);
                                }
                            }
                        },
                    }
                }
            },
            SpecExpr::CallBuiltin(id, a) => {
                if bt.contains_key(id.number()) {
                    lemma_expr(fns, bt, st, *a, arg, f1, g1);
                    let (r, st2) = sem_expr(fns, bt, st, *a, arg, f1);
                    if let Ok(v) = r {
                        lemma_builtin(bt[id.number()], v, st2);
                    }
                }
            },
            SpecExpr::Concat(es) => {
                lemma_list(fns, bt, st, es, arg, 0, Seq::empty(), f1, g1);
            },
            SpecExpr::Arg => {
                if let Some(a) = arg {
                    lemma_expr(fns, bt, st, a, None, f1, g1);
                }
            },
            _ => {},
        }
    }
}

/// The same for the parts of a concatenation.
proof fn lemma_list(
    fns: Map<u32, LocalModel>,
    bt: Map<u16, Builtin>,
    st: Env,
    es: Seq<SpecExpr>,
    arg: Option<SpecExpr>,
    i: int,
    acc: Seq<Value>,
    f: nat,
    g: nat,
)
    requires
        f <= g,
    ensures
        out_extends(st, sem_list(fns, bt, st, es, arg, i, acc, f).1),
        finished(sem_list(fns, bt, st, es, arg, i, acc, f).0) ==> sem_list(
            fns,
            bt,
            st,
            es,
            arg,
            i,
            acc,
            g,
        ) == sem_list(fns, bt, st, es, arg, i, acc, f),
    decreases f, es.len() - i + 1,
{
    if 0 <= i < es.len() {
        lemma_expr(fns, bt, st, es[i], arg, f, g);
        let (r, st2) = sem_expr(fns, bt, st, es[i], arg, f);
        if let Ok(v) = r {
            lemma_list(fns, bt, st2, es, arg, i + 1, acc.push(v), f, g);
        }
    }
}

/// The same for one instruction.
proof fn lemma_inst(
    fns: Map<u32, LocalModel>,
    bt: Map<u16, Builtin>,
    st: Env,
    inst: SpecInst,
    arg: Option<SpecExpr>,
    f: nat,
    g: nat,
)
    requires
        f <= g,
    ensures
        out_extends(st, sem_inst(fns, bt, st, inst, arg, f).1),
        finished(sem_inst(fns, bt, st, inst, arg, f).0) ==> sem_inst(fns, bt, st, inst, arg, g)
            == sem_inst(fns, bt, st, inst, arg, f),
    decreases f, 0nat,
{
    if f > 0 {
        let f1 = (f - 1) as nat;
        let g1 = (g - 1) as nat;
        match inst {
            SpecInst::SetVar(_id, e) => {
                lemma_expr(fns, bt, st, e, arg, f1, g1);
            },
            SpecInst::Eval(e) => {
                lemma_expr(fns, bt, st, e, arg, f1, g1);
            },
            SpecInst::If(e, body, _) => {
                lemma_expr(fns, bt, st, e, arg, f1, g1);
                let (r, st2) = sem_expr(fns, bt, st, e, arg, f1);
                if let Ok(Value::Int(i)) = r {
                    if i != 0 {
                        lemma_block(fns, bt, st2, body, arg, 0, f1, g1);
                    }
                }
            },
            SpecInst::While(e, body) => {
                lemma_while(fns, bt, st, e, body, arg, f1, g1);
            },
            _ => {},
        }
    }
}

/// The same for a `while`.
proof fn lemma_while(
    fns: Map<u32, LocalModel>,
    bt: Map<u16, Builtin>,
    st: Env,
    cond: SpecExpr,
    body: Seq<SpecInst>,
    arg: Option<SpecExpr>,
    f: nat,
    g: nat,
)
    requires
        f <= g,
    ensures
        out_extends(st, sem_while(fns, bt, st, cond, body, arg, f).1),
        finished(sem_while(fns, bt, st, cond, body, arg, f).0) ==> sem_while(
            fns,
            bt,
            st,
            cond,
            body,
            arg,
            g,
        ) == sem_while(fns, bt, st, cond, body, arg, f),
    decreases f, 0nat,
{
    if f > 0 {
        let f1 = (f - 1) as nat;
        let g1 = (g - 1) as nat;
        lemma_expr(fns, bt, st, cond, arg, f1, g1);
        let (r, st2) = sem_expr(fns, bt, st, cond, arg, f1);
        if let Ok(Value::Int(i)) = r {
            if i != 0 {
                lemma_block(fns, bt, st2, body, arg, 0, f1, g1);
                let (r3, st3) = sem_block(fns, bt, st2, body, arg, 0, f1);
                if r3 is Ok {
                    lemma_while(fns, bt, st3, cond, body, arg, f1, g1);
                }
            }
        }
    }
}

/// The same for the instructions of a block.
proof fn lemma_block(
    fns: Map<u32, LocalModel>,
    bt: Map<u16, Builtin>,
    st: Env,
    insts: Seq<SpecInst>,
    arg: Option<SpecExpr>,
    i: int,
    f: nat,
    g: nat,
)
    requires
        f <= g,
    ensures
        out_extends(st, sem_block(fns, bt, st, insts, arg, i, f).1),
        finished(sem_block(fns, bt, st, insts, arg, i, f).0) ==> sem_block(
            fns,
            bt,
            st,
            insts,
            arg,
            i,
            g,
        ) == sem_block(fns, bt, st, insts, arg, i, f),
    decreases f, insts.len() - i + 1,
{
    if 0 <= i < insts.len() {
        lemma_inst(fns, bt, st, insts[i], arg, f, g);
        let (r, st2) = sem_inst(fns, bt, st, insts[i], arg, f);
        if r is Ok {
            lemma_block(fns, bt, st2, insts, arg, i + 1, f, g);
        }
    }
}

/// The same for the body of a local function.
proof fn lemma_fn_block(
    fns: Map<u32, LocalModel>,
    bt: Map<u16, Builtin>,
    st: Env,
    insts: Seq<SpecInst>,
    a: SpecExpr,
    i: int,
    f: nat,
    g: nat,
)
    requires
        f <= g,
    ensures
        out_extends(st, sem_fn_block(fns, bt, st, insts, a, i, f).1),
        finished(sem_fn_block(fns, bt, st, insts, a, i, f).0) ==> sem_fn_block(
            fns,
            bt,
            st,
            insts,
            a,
            i,
            g,
        ) == sem_fn_block(fns, bt, st, insts, a, i, f),
    decreases f, insts.len() - i + 1,
{
    if 0 <= i < insts.len() {
        match insts[i] {
            SpecInst::Return(e) => {
                lemma_expr(fns, bt, st, e, Some(a), f, g);
            },
            _ => {
                lemma_inst(fns, bt, st, insts[i], Some(a), f, g);
                let (r, st2) = sem_inst(fns, bt, st, insts[i], Some(a), f);
                if r is Ok {
                    lemma_fn_block(fns, bt, st2, insts, a, i + 1, f, g);
                }
            },
        }
    }
}

/// Fuel only bounds a run: a program run that ends otherwise than by running out of fuel
/// ends the same way, with the same variables and the same printed characters, when given
/// any more fuel.
pub proof fn law_more_fuel_same_run(s: Seq<SpecInst>, bt: Map<u16, Builtin>, f: nat, g: nat)
    requires
        f <= g,
        finished(sem_program(s, bt, f).0),
    ensures
        sem_program(s, bt, g) == sem_program(s, bt, f),
{
    lemma_block(
        crate::vm::fn_table(s),
        bt,
        Env { vars: Map::empty(), out: Seq::empty() },
        crate::vm::without_definitions(s),
        None,
        0,
        f,
        g,
    );
}

/// Fuel only bounds an evaluation: an expression whose evaluation ends otherwise than by
/// running out of fuel evaluates the same with any more fuel.
pub proof fn law_more_fuel_same_value(
    fns: Map<u32, LocalModel>,
    bt: Map<u16, Builtin>,
    st: Env,
    e: SpecExpr,
    arg: Option<SpecExpr>,
    f: nat,
    g: nat,
)
    requires
        f <= g,
        finished(sem_expr(fns, bt, st, e, arg, f).0),
    ensures
        sem_expr(fns, bt, st, e, arg, g) == sem_expr(fns, bt, st, e, arg, f),
{
    lemma_expr(fns, bt, st, e, arg, f, g);
}

/// Printing only appends: whatever an instruction does, the characters printed before it
/// stay printed, first and in order.
pub proof fn law_printing_appends(
    fns: Map<u32, LocalModel>,
    bt: Map<u16, Builtin>,
    st: Env,
    inst: SpecInst,
    arg: Option<SpecExpr>,
    fuel: nat,
)
    ensures
        out_extends(st, sem_inst(fns, bt, st, inst, arg, fuel).1),
{
    lemma_inst(fns, bt, st, inst, arg, fuel, fuel);
}

/// What a variable reads back is what was last written to it: after an assignment that
/// succeeds, the variable holds the value the expression evaluated to, and every other
/// variable holds what it held before.
pub proof fn law_read_after_write(
    fns: Map<u32, LocalModel>,
    bt: Map<u16, Builtin>,
    st: Env,
    id: Id,
    other: Id,
    e: SpecExpr,
    arg: Option<SpecExpr>,
    f: nat,
    g: nat,
)
    requires
        f > 0,
        g > 0,
        sem_inst(fns, bt, st, SpecInst::SetVar(id, e), arg, f).0 is Ok,
        other != id,
    ensures
        ({
            let st2 = sem_inst(fns, bt, st, SpecInst::SetVar(id, e), arg, f).1;
            let (written, st1) = sem_expr(fns, bt, st, e, arg, (f - 1) as nat);
            &&& sem_expr(fns, bt, st2, SpecExpr::Var(id), None, g) == (written, st2)
            &&& sem_expr(fns, bt, st2, SpecExpr::Var(other), None, g).0 == sem_expr(
                fns,
                bt,
                st1,
                SpecExpr::Var(other),
                None,
                g,
            ).0
        }),
{
    crate::ast::lemma_key_injective(id, other);
}

/// An `if` whose condition is zero runs nothing more than its condition.
pub proof fn law_if_zero_skips(
    fns: Map<u32, LocalModel>,
    bt: Map<u16, Builtin>,
    st: Env,
    cond: SpecExpr,
    body: Seq<SpecInst>,
    other: Option<Seq<SpecInst>>,
    arg: Option<SpecExpr>,
    f: nat,
)
    requires
        f > 0,
        sem_expr(fns, bt, st, cond, arg, (f - 1) as nat).0 == Ok::<Value, HaltModel>(Value::Int(0)),
    ensures
        sem_inst(fns, bt, st, SpecInst::If(cond, body, other), arg, f) == (
            Ok::<(), HaltModel>(()),
            sem_expr(fns, bt, st, cond, arg, (f - 1) as nat).1,
        ),
{
}

/// An `if` whose condition is a non-zero integer runs its block.
pub proof fn law_if_nonzero_runs(
    fns: Map<u32, LocalModel>,
    bt: Map<u16, Builtin>,
    st: Env,
    cond: SpecExpr,
    body: Seq<SpecInst>,
    other: Option<Seq<SpecInst>>,
    arg: Option<SpecExpr>,
    f: nat,
    i: i32,
)
    requires
        f > 0,
        i != 0,
        sem_expr(fns, bt, st, cond, arg, (f - 1) as nat).0 == Ok::<Value, HaltModel>(Value::Int(i)),
    ensures
        sem_inst(fns, bt, st, SpecInst::If(cond, body, other), arg, f) == sem_block(
            fns,
            bt,
            sem_expr(fns, bt, st, cond, arg, (f - 1) as nat).1,
            body,
            arg,
            0,
            (f - 1) as nat,
        ),
{
}

/// A `while` runs until its condition is zero: when it ends without error, the last
/// evaluation of its condition gave zero, and left the state the loop ends in.
pub proof fn law_while_ends_at_zero(
    fns: Map<u32, LocalModel>,
    bt: Map<u16, Builtin>,
    st: Env,
    cond: SpecExpr,
    body: Seq<SpecInst>,
    arg: Option<SpecExpr>,
    f: nat,
)
    requires
        sem_while(fns, bt, st, cond, body, arg, f).0 is Ok,
    ensures
        exists|before: Env, k: nat|
            #[trigger] sem_expr(fns, bt, before, cond, arg, k) == (
                Ok::<Value, HaltModel>(Value::Int(0)),
                sem_while(fns, bt, st, cond, body, arg, f).1,
            ),
    decreases f,
{
    let f1 = (f - 1) as nat;
    let (r, st2) = sem_expr(fns, bt, st, cond, arg, f1);
    if let Ok(Value::Int(i)) = r {
        if i != 0 {
            let (r3, st3) = sem_block(fns, bt, st2, body, arg, 0, f1);
            law_while_ends_at_zero(fns, bt, st3, cond, body, arg, f1);
        } else {
            assert(sem_expr(fns, bt, st, cond, arg, f1) == (
                Ok::<Value, HaltModel>(Value::Int(0)),
                sem_while(fns, bt, st, cond, body, arg, f).1,
            ));
        }
    }
}

/// The parts of a concatenation evaluated from index `i` on add one value each.
proof fn lemma_list_length(
    fns: Map<u32, LocalModel>,
    bt: Map<u16, Builtin>,
    st: Env,
    es: Seq<SpecExpr>,
    arg: Option<SpecExpr>,
    i: int,
    acc: Seq<Value>,
    f: nat,
)
    requires
        0 <= i <= es.len(),
    ensures
        sem_list(fns, bt, st, es, arg, i, acc, f).0 matches Ok(Value::Array(s)) ==> s.len()
            == acc.len() + es.len() - i,
        sem_list(fns, bt, st, es, arg, i, acc, f).0 is Ok ==> sem_list(
            fns,
            bt,
            st,
            es,
            arg,
            i,
            acc,
            f,
        ).0->Ok_0 is Array,
    decreases es.len() - i,
{
    if i < es.len() {
        let (r, st2) = sem_expr(fns, bt, st, es[i], arg, f);
        if let Ok(v) = r {
            lemma_list_length(fns, bt, st2, es, arg, i + 1, acc.push(v), f);
        }
    }
}

/// Arrays come from concatenations: a concatenation that evaluates gives an array with one
/// element per part.
pub proof fn law_concat_makes_array(
    fns: Map<u32, LocalModel>,
    bt: Map<u16, Builtin>,
    st: Env,
    es: Seq<SpecExpr>,
    arg: Option<SpecExpr>,
    f: nat,
)
    requires
        sem_expr(fns, bt, st, SpecExpr::Concat(es), arg, f).0 is Ok,
    ensures
        sem_expr(fns, bt, st, SpecExpr::Concat(es), arg, f).0 matches Ok(Value::Array(s)) && s.len()
            == es.len(),
{
    lemma_list_length(fns, bt, st, es, arg, 0, Seq::empty(), (f - 1) as nat);
}

/// The length builtin gives an array's number of elements (where that number fits an
/// `i32`).
pub proof fn law_length_counts(s: Seq<Value>)
    requires
        s.len() <= i32::MAX,
    ensures
        lenght_result(Value::Array(s)) == Ok::<Value, crate::ErrorModel>(Value::Int(s.len() as i32)),
        lenght_result(Value::Array(s))->Ok_0->Int_0 == s.len(),
{
}

/// Indexing gives back the element at the index: for an array `w` and `0 <= i < |w|`,
/// the index builtin on `[i, w]` gives `w[i]`.
pub proof fn law_index_gives_element(w: Seq<Value>, i: i32)
    requires
        0 <= i < w.len(),
    ensures
        index_result(Value::Array(seq![Value::Int(i), Value::Array(w)])) == Ok::<
            Value,
            crate::ErrorModel,
        >(w[i as int]),
{
}

/// Subtracting undoes adding: where `a + b` fits an `i32`, subtracting `b` from the sum
/// gives back `a`.
pub proof fn law_subtract_undoes_add(a: i32, b: i32)
    requires
        i32::MIN <= a + b <= i32::MAX,
    ensures
        ({
            let sum = Value::Array(seq![Value::Int(a), Value::Int(b)]);
            &&& !arith_overflows(Builtin::Add, sum)
            &&& arith_result(Builtin::Add, sum) == Ok::<Value, crate::ErrorModel>(
                Value::Int((a + b) as i32),
            )
            &&& !arith_overflows(
                Builtin::Subtract,
                Value::Array(seq![Value::Int((a + b) as i32), Value::Int(b)]),
            )
            &&& arith_result(
                Builtin::Subtract,
                Value::Array(seq![Value::Int((a + b) as i32), Value::Int(b)]),
            ) == Ok::<Value, crate::ErrorModel>(Value::Int(a))
        }),
{
}

/// Dividing undoes multiplying: where `b` is not zero and `a * b` fits an `i32`, dividing
/// the product by `b` gives back `a`, with no overflow and no division by zero.
pub proof fn law_divide_undoes_multiply(a: i32, b: i32)
    requires
        b != 0,
        i32::MIN <= a * b <= i32::MAX,
    ensures
        ({
            let product = Value::Array(seq![Value::Int(a), Value::Int(b)]);
            let back = Value::Array(seq![Value::Int((a * b) as i32), Value::Int(b)]);
            &&& !arith_overflows(Builtin::Multiply, product)
            &&& arith_result(Builtin::Multiply, product) == Ok::<Value, crate::ErrorModel>(
                Value::Int((a * b) as i32),
            )
            &&& !divides_by_zero(Builtin::Divide, back)
            &&& !arith_overflows(Builtin::Divide, back)
            &&& arith_result(Builtin::Divide, back) == Ok::<Value, crate::ErrorModel>(
                Value::Int(a),
            )
        }),
{
    let p: int = a * b;
    assert(abs(p) == abs(a as int) * abs(b as int)) by (nonlinear_arith)
        requires
            p == a * b,
    ;
    vstd::arithmetic::div_mod::lemma_div_by_multiple(abs(a as int), abs(b as int));
    assert(a > 0 ==> ((p < 0) == (b < 0))) by (nonlinear_arith)
        requires
            p == a * b,
            b != 0,
    ;
    assert(a < 0 ==> ((p < 0) != (b < 0))) by (nonlinear_arith)
        requires
            p == a * b,
            b != 0,
    ;
    assert(trunc_div(p, b as int) == a);
}

/// No definition is left among the instructions that run: the program without its
/// definitions holds no function definition and no alias.
pub proof fn law_definitions_removed(s: Seq<SpecInst>)
    ensures
        forall|i: int|
            0 <= i < without_definitions(s).len() ==> !is_definition(
                #[trigger] without_definitions(s)[i],
            ),
    decreases s.len(),
{
    if s.len() > 0 {
        law_definitions_removed(s.drop_last());
        let r = without_definitions(s.drop_last());
        if is_definition(s.last()) {
            assert(without_definitions(s) == r);
        } else {
            assert(without_definitions(s) == r.push(s.last()));
            assert forall|i: int| 0 <= i < r.len() + 1 implies !is_definition(
                #[trigger] r.push(s.last())[i],
            ) by {
                if i < r.len() {
                    assert(r.push(s.last())[i] == r[i]);
                }
            }
        }
    }
}

/// Each name that a program defines, and only those, is in its table of local functions.
pub proof fn law_table_holds_definitions(s: Seq<SpecInst>, id: Id)
    ensures
        fn_table(s).contains_key(id.key()) <==> exists|i: int|
            0 <= i < s.len() && is_definition(#[trigger] s[i]) && match s[i] {
                SpecInst::FnDef(d, _) => d == id,
                SpecInst::Alias(d, _) => d == id,
                _ => false,
            },
    decreases s.len(),
{
    if s.len() > 0 {
        law_table_holds_definitions(s.drop_last(), id);
        let p = s.drop_last();
        assert(forall|i: int| 0 <= i < p.len() ==> p[i] == s[i]);
        crate::ast::lemma_key_injective(id, match s.last() {
            SpecInst::FnDef(d, _) => d,
            SpecInst::Alias(d, _) => d,
            _ => id,
        });
        if fn_table(s).contains_key(id.key()) {
            if !fn_table(p).contains_key(id.key()) {
                assert(is_definition(s[s.len() - 1]));
            }
        }
    }
}

/// Inside a local function, a builtin call sees the function's argument: calling a
/// function whose body returns `b(arg)` on an argument `e` is calling `b` on `e` itself.
pub proof fn law_builtin_call_sees_function_argument(
    fns: Map<u32, LocalModel>,
    bt: Map<u16, Builtin>,
    st: Env,
    fid: Id,
    bid: Id,
    e: SpecExpr,
    fuel: nat,
)
    requires
        fns.contains_key(fid.key()),
        fns[fid.key()] == LocalModel::Block(
            seq![SpecInst::Return(SpecExpr::CallBuiltin(bid, Box::new(SpecExpr::Arg)))],
        ),
        bt.contains_key(bid.number()),
    ensures
        sem_expr(fns, bt, st, SpecExpr::CallLoc(fid, Box::new(e)), None, fuel + 3) == sem_expr(
            fns,
            bt,
            st,
            SpecExpr::CallBuiltin(bid, Box::new(e)),
            None,
            fuel + 1,
        ),
{
    let body = seq![SpecInst::Return(SpecExpr::CallBuiltin(bid, Box::new(SpecExpr::Arg)))];
    assert(sem_fn_block(fns, bt, st, body, e, 0, fuel + 2) == sem_expr(
        fns,
        bt,
        st,
        SpecExpr::CallBuiltin(bid, Box::new(SpecExpr::Arg)),
        Some(e),
        fuel + 2,
    ));
    assert(sem_expr(fns, bt, st, SpecExpr::Arg, Some(e), fuel + 1) == sem_expr(
        fns,
        bt,
        st,
        e,
        None,
        fuel,
    ));
}

/// A local function that returns `add([arg, 1])`, called on the literal `n`, gives `n + 1`.
pub proof fn law_add_one_function(
    fns: Map<u32, LocalModel>,
    bt: Map<u16, Builtin>,
    st: Env,
    fid: Id,
    bid: Id,
    n: u32,
    fuel: nat,
)
    requires
        fns.contains_key(fid.key()),
        fns[fid.key()] == LocalModel::Block(
            seq![
                SpecInst::Return(
                    SpecExpr::CallBuiltin(
                        bid,
                        Box::new(SpecExpr::Concat(seq![SpecExpr::Arg, SpecExpr::Int(1)])),
                    ),
                ),
            ],
        ),
        bt.contains_key(bid.number()),
        bt[bid.number()] == Builtin::Add,
        0 <= n < 0x7fff_ffff,
        fuel >= 5,
    ensures
        sem_expr(fns, bt, st, SpecExpr::CallLoc(fid, Box::new(SpecExpr::Int(n))), None, fuel)
            == (Ok::<Value, HaltModel>(Value::Int((n + 1) as i32)), st),
{
    let f1 = (fuel - 1) as nat;
    let f2 = (fuel - 2) as nat;
    let f3 = (fuel - 3) as nat;
    let f4 = (fuel - 4) as nat;
    let es = seq![SpecExpr::Arg, SpecExpr::Int(1)];
    let a = Some(SpecExpr::Int(n));
    assert(sem_expr(fns, bt, st, SpecExpr::Arg, a, f3) == (Ok::<Value, HaltModel>(
        Value::Int(n as i32),
    ), st)) by {
        assert(sem_expr(fns, bt, st, SpecExpr::Int(n), None, f4) == (Ok::<Value, HaltModel>(
            Value::Int(n as i32),
        ), st));
    }
    assert(sem_expr(fns, bt, st, SpecExpr::Int(1), a, f3) == (Ok::<Value, HaltModel>(
        Value::Int(1),
    ), st));
    let v0 = seq![Value::Int(n as i32)];
    let v1 = seq![Value::Int(n as i32), Value::Int(1)];
    assert(sem_list(fns, bt, st, es, a, 2, v1, f3) == (Ok::<Value, HaltModel>(Value::Array(v1)), st));
    assert(Seq::<Value>::empty().push(Value::Int(n as i32)) =~= v0);
    assert(v0.push(Value::Int(1)) =~= v1);
    assert(sem_list(fns, bt, st, es, a, 1, v0, f3) == (Ok::<Value, HaltModel>(Value::Array(v1)), st));
    assert(sem_list(fns, bt, st, es, a, 0, Seq::empty(), f3) == (Ok::<Value, HaltModel>(
        Value::Array(v1),
    ), st));
    assert(sem_expr(fns, bt, st, SpecExpr::Concat(es), a, f2) == (Ok::<Value, HaltModel>(
        Value::Array(v1),
    ), st));
    assert((n as i32) as int == n as int);
    let arr = Value::Array(v1);
    assert(!arith_overflows(Builtin::Add, arr));
    assert(arith_result(Builtin::Add, arr) == Ok::<Value, crate::ErrorModel>(
        Value::Int((n + 1) as i32),
    ));
    let call = SpecExpr::CallBuiltin(bid, Box::new(SpecExpr::Concat(es)));
    assert(sem_expr(fns, bt, st, call, a, f1) == (Ok::<Value, HaltModel>(
        Value::Int((n + 1) as i32),
    ), st));
    let body = seq![SpecInst::Return(call)];
    assert(sem_fn_block(fns, bt, st, body, SpecExpr::Int(n), 0, f1) == sem_expr(
        fns,
        bt,
        st,
        call,
        a,
        f1,
    ));
}

/// Adding, subtracting and multiplying give the sum, the difference and the product of the
/// two integers, zero included, wherever it fits an `i32`, and overflow exactly where it
/// does not.
pub proof fn law_arithmetic_is_exact(a: i32, b: i32)
    ensures
        ({
            let v = Value::Array(seq![Value::Int(a), Value::Int(b)]);
            &&& arith_overflows(Builtin::Add, v) <==> !(i32::MIN <= a + b <= i32::MAX)
            &&& arith_overflows(Builtin::Subtract, v) <==> !(i32::MIN <= a - b <= i32::MAX)
            &&& arith_overflows(Builtin::Multiply, v) <==> !(i32::MIN <= a * b <= i32::MAX)
            &&& i32::MIN <= a + b <= i32::MAX ==> arith_result(Builtin::Add, v) == Ok::<
                Value,
                crate::ErrorModel,
            >(Value::Int((a + b) as i32))
            &&& i32::MIN <= a - b <= i32::MAX ==> arith_result(Builtin::Subtract, v) == Ok::<
                Value,
                crate::ErrorModel,
            >(Value::Int((a - b) as i32))
            &&& i32::MIN <= a * b <= i32::MAX ==> arith_result(Builtin::Multiply, v) == Ok::<
                Value,
                crate::ErrorModel,
            >(Value::Int((a * b) as i32))
            &&& !divides_by_zero(Builtin::Add, v)
            &&& !divides_by_zero(Builtin::Subtract, v)
            &&& !divides_by_zero(Builtin::Multiply, v)
        }),
{
}

/// Division rounds toward zero: for a divisor `b` other than zero, and other than `-1`
/// under `i32::MIN`, the divide builtin gives the `q` whose remainder `a - q * b` is
/// smaller than `b` in size and has the sign of `a`, or is zero. A zero divisor is
/// reported as such, and `i32::MIN / -1` overflows.
pub proof fn law_division_rounds_toward_zero(a: i32, b: i32)
    ensures
        ({
            let v = Value::Array(seq![Value::Int(a), Value::Int(b)]);
            &&& divides_by_zero(Builtin::Divide, v) <==> b == 0
            &&& arith_overflows(Builtin::Divide, v) <==> (a == i32::MIN && b == -1)
            &&& b != 0 && !(a == i32::MIN && b == -1) ==> (arith_result(Builtin::Divide, v) matches Ok(
                Value::Int(q),
            ) && {
                let r = a - q * b;
                &&& (if r < 0 { -r } else { r }) < (if b < 0 { -(b as int) } else { b as int })
                &&& (r == 0 || (r < 0) == (a < 0))
            })
        }),
{
    if b != 0 {
        let x = a as int;
        let y = b as int;
        let ax = abs(x);
        let ay = abs(y);
        let q0 = ax / ay;
        assert(0 <= ax - q0 * ay < ay && 0 <= q0 <= ax) by (nonlinear_arith)
            requires
                ay >= 1,
                ax >= 0,
                q0 == ax / ay,
        ;
        let q = trunc_div(x, y);
        // the remainder of the signed quotient is that of the absolute values, signed as x
        assert(x - q * y == (if x < 0 { -(ax - q0 * ay) } else { ax - q0 * ay })) by (
        nonlinear_arith)
            requires
                ax == abs(x),
                ay == abs(y),
                y != 0,
                q == (if (x < 0) == (y < 0) { q0 } else { -q0 }),
        ;
        assert(q0 <= 0x8000_0000);
        if !(a == i32::MIN && b == -1) {
            assert(i32::MIN <= q <= i32::MAX) by {
                if q0 == 0x8000_0000 {
                    assert(ax == 0x8000_0000 && ay == 1) by (nonlinear_arith)
                        requires
                            q0 == 0x8000_0000,
                            ay >= 1,
                            0 <= ax <= 0x8000_0000,
                            0 <= ax - q0 * ay,
                    ;
                }
            }
            let qi = q as i32;
            assert(qi as int == q);
            let r = a - qi * b;
            assert(arith_result(Builtin::Divide, v_of(a, b)) == Ok::<Value, crate::ErrorModel>(
                Value::Int(qi),
            ));
            assert((if r < 0 { -r } else { r }) < (if b < 0 { -(b as int) } else { b as int }) && (r == 0 || (r
                < 0) == (a < 0)));
        } else {
            assert(q0 == ax) by (nonlinear_arith)
                requires
                    ay == 1,
                    q0 == ax / ay,
            ;
        }
    }
}

/// The argument of a builtin on two integers.
pub open spec fn v_of(a: i32, b: i32) -> Value {
    Value::Array(seq![Value::Int(a), Value::Int(b)])
}

/// Every positive integer that is a Unicode scalar value prints as the character of that
/// code point, and nothing else prints.
pub proof fn law_print_prints_every_scalar(i: i32)
    ensures
        i > 0 && is_scalar(i as u32) ==> print_result(Value::Int(i)) == Ok::<
            char,
            crate::ErrorModel,
        >((i as u32) as char),
        !(i > 0 && is_scalar(i as u32)) ==> print_result(Value::Int(i)) is Err,
{
}

/// An alias is another name for its builtin: calling it on `e` is calling the builtin on
/// `e`, evaluated as it would be outside any function.
pub proof fn law_alias_calls_its_builtin(
    fns: Map<u32, LocalModel>,
    bt: Map<u16, Builtin>,
    st: Env,
    fid: Id,
    target: Id,
    e: SpecExpr,
    arg: Option<SpecExpr>,
    fuel: nat,
)
    requires
        fns.contains_key(fid.key()),
        fns[fid.key()] == LocalModel::Alias(target),
        bt.contains_key(target.number()),
    ensures
        sem_expr(fns, bt, st, SpecExpr::CallLoc(fid, Box::new(e)), arg, fuel + 1) == sem_expr(
            fns,
            bt,
            st,
            SpecExpr::CallBuiltin(target, Box::new(e)),
            None,
            fuel + 1,
        ),
{
}

/// A local function's argument is what it was called on: a function whose body returns
/// `arg` gives the value of the expression it is called on, and a function that first
/// stores `arg` in a variable and then returns that variable gives the same value.
pub proof fn law_function_argument_is_the_call_argument(
    fns: Map<u32, LocalModel>,
    bt: Map<u16, Builtin>,
    st: Env,
    fid: Id,
    gid: Id,
    v: Id,
    e: SpecExpr,
    fuel: nat,
)
    requires
        fns.contains_key(fid.key()),
        fns[fid.key()] == LocalModel::Block(seq![SpecInst::Return(SpecExpr::Arg)]),
        fns.contains_key(gid.key()),
        fns[gid.key()] == LocalModel::Block(
            seq![SpecInst::SetVar(v, SpecExpr::Arg), SpecInst::Return(SpecExpr::Var(v))],
        ),
    ensures
        sem_expr(fns, bt, st, SpecExpr::CallLoc(fid, Box::new(e)), None, fuel + 2) == sem_expr(
            fns,
            bt,
            st,
            e,
            None,
            fuel,
        ),
        sem_expr(fns, bt, st, SpecExpr::CallLoc(gid, Box::new(e)), None, fuel + 3).0 == sem_expr(
            fns,
            bt,
            st,
            e,
            None,
            fuel,
        ).0,
{
    let a = Some(e);
    assert(sem_fn_block(fns, bt, st, seq![SpecInst::Return(SpecExpr::Arg)], e, 0, fuel + 1)
        == sem_expr(fns, bt, st, SpecExpr::Arg, a, fuel + 1));
    let body = seq![SpecInst::SetVar(v, SpecExpr::Arg), SpecInst::Return(SpecExpr::Var(v))];
    let (r, st1) = sem_expr(fns, bt, st, SpecExpr::Arg, a, fuel + 1);
    assert(sem_expr(fns, bt, st, SpecExpr::Arg, a, fuel + 1) == sem_expr(fns, bt, st, e, None, fuel));
    match r {
        Ok(val) => {
            let st2 = Env { vars: st1.vars.insert(v.key(), val), out: st1.out };
            assert(sem_inst(fns, bt, st, body[0], a, fuel + 2) == (Ok::<(), HaltModel>(()), st2));
            assert(st2.vars.contains_key(v.key()) && st2.vars[v.key()] == val);
            assert(sem_expr(fns, bt, st2, SpecExpr::Var(v), a, fuel + 2) == (Ok::<Value, HaltModel>(
                val,
            ), st2));
            assert(sem_fn_block(fns, bt, st2, body, e, 1, fuel + 2) == sem_expr(
                fns,
                bt,
                st2,
                SpecExpr::Var(v),
                a,
                fuel + 2,
            ));
            assert(sem_fn_block(fns, bt, st, body, e, 0, fuel + 2) == sem_fn_block(
                fns,
                bt,
                st2,
                body,
                e,
                1,
                fuel + 2,
            ));
            assert(sem_fn_block(fns, bt, st, body, e, 0, fuel + 2).0 == Ok::<Value, HaltModel>(val));
            assert(sem_expr(fns, bt, st, SpecExpr::CallLoc(gid, Box::new(e)), None, fuel + 3)
                == sem_fn_block(fns, bt, st, body, e, 0, fuel + 2));
        },
        Err(h) => {
            assert(sem_inst(fns, bt, st, body[0], a, fuel + 2) == (Err::<(), HaltModel>(h), st1));
        },
    }
}

/// The values of integer literals, in the order given.
pub open spec fn literal_values(ns: Seq<u32>) -> Seq<Value> {
    ns.map_values(|n: u32| Value::Int(n as i32))
}

/// The integer literals of the given numbers.
pub open spec fn literals(ns: Seq<u32>) -> Seq<SpecExpr> {
    ns.map_values(|n: u32| SpecExpr::Int(n))
}

proof fn lemma_list_of_literals(
    fns: Map<u32, LocalModel>,
    bt: Map<u16, Builtin>,
    st: Env,
    ns: Seq<u32>,
    arg: Option<SpecExpr>,
    i: int,
    fuel: nat,
)
    requires
        0 <= i <= ns.len(),
        fuel >= 1,
    ensures
        sem_list(fns, bt, st, literals(ns), arg, i, literal_values(ns).subrange(0, i), fuel) == (
        Ok::<Value, HaltModel>(Value::Array(literal_values(ns))), st),
    decreases ns.len() - i,
{
    if i < ns.len() {
        let acc = literal_values(ns).subrange(0, i);
        assert(sem_expr(fns, bt, st, literals(ns)[i], arg, fuel) == (Ok::<Value, HaltModel>(
            literal_values(ns)[i],
        ), st));
        assert(acc.push(literal_values(ns)[i]) =~= literal_values(ns).subrange(0, i + 1));
        lemma_list_of_literals(fns, bt, st, ns, arg, i + 1, fuel);
    } else {
        assert(literal_values(ns).subrange(0, i) =~= literal_values(ns));
    }
}

/// A concatenation of integer literals is the array of their values, in the order written,
/// and changes nothing.
pub proof fn law_concat_of_literals(
    fns: Map<u32, LocalModel>,
    bt: Map<u16, Builtin>,
    st: Env,
    ns: Seq<u32>,
    arg: Option<SpecExpr>,
    fuel: nat,
)
    requires
        fuel >= 2,
    ensures
        sem_expr(fns, bt, st, SpecExpr::Concat(literals(ns)), arg, fuel) == (Ok::<Value, HaltModel>(
            Value::Array(literal_values(ns)),
        ), st),
{
    lemma_list_of_literals(fns, bt, st, ns, arg, 0, (fuel - 1) as nat);
    assert(literal_values(ns).subrange(0, 0) =~= Seq::<Value>::empty());
}

/// Indexing outside an array fails: a negative index, or one at or past the array's end,
/// gives an error and no element.
pub proof fn law_index_outside_fails(w: Seq<Value>, i: i32)
    requires
        i < 0 || i >= w.len(),
    ensures
        index_result(Value::Array(seq![Value::Int(i), Value::Array(w)])) is Err,
{
}

} // verus!
