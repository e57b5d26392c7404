use std::rc::Rc;

use lib::ast::{Block, Expr, FnCall, Id, Inst};
use lib::vm::builtin::{
    builtin_add, builtin_divide, builtin_index, builtin_lenght, builtin_multiply, builtin_print,
    builtin_subtract, Builtin, Builtins,
};
use lib::vm::value::VarContent;
use lib::vm::{create_fn_table, run_tree_walk, run_tree_walk_with_fuel, Halt, VmState};
use lib::NyoomError;

fn id(n: u16) -> Id {
    Id::NyNy(n)
}

fn lit(n: u32) -> Expr {
    Expr::Int(n)
}

fn var(n: u16) -> Expr {
    Expr::Var(id(n))
}

fn builtin(n: u16, arg: Expr) -> Expr {
    Expr::CallBuiltin(FnCall(id(n), Rc::new(arg)))
}

fn call(n: u16, arg: Expr) -> Expr {
    Expr::CallLoc(FnCall(id(n), Rc::new(arg)))
}

fn pair(a: Expr, b: Expr) -> Expr {
    Expr::Concat(vec![a, b])
}

fn print(e: Expr) -> Inst {
    Inst::Eval(builtin(7, e))
}

fn ints(v: &[i32]) -> VarContent {
    VarContent::Array(v.iter().map(|i| VarContent::Int(*i)).collect())
}

fn run(ast: Vec<Inst>) -> (String, String) {
    let (result, out) = run_tree_walk(ast);
    (format!("{:?}", result), out.iter().collect())
}

#[test]
fn prints_characters() {
    let (r, out) = run(vec![print(lit(72)), print(lit(105))]);
    assert_eq!(r, "Ok(())");
    assert_eq!(out, "Hi");
}

#[test]
fn variables_hold_what_was_written() {
    let ast = vec![
        Inst::SetVar(id(1), lit(5)),
        Inst::SetVar(id(2), builtin(1, pair(var(1), lit(3)))),
        print(builtin(1, pair(var(2), lit(57)))),
        Inst::SetVar(id(1), lit(66)),
        print(var(1)),
    ];
    let (r, out) = run(ast);
    assert_eq!(r, "Ok(())");
    assert_eq!(out, "AB");
}

#[test]
fn while_runs_until_zero() {
    let ast = vec![
        Inst::SetVar(id(1), lit(3)),
        Inst::While(
            var(1),
            Block(vec![print(lit(120)), Inst::SetVar(id(1), builtin(2, pair(var(1), lit(1))))]),
        ),
        print(lit(33)),
    ];
    let (r, out) = run(ast);
    assert_eq!(r, "Ok(())");
    assert_eq!(out, "xxx!");
}

#[test]
fn if_runs_its_block_only_on_non_zero() {
    let zero = builtin(2, pair(lit(1), lit(1)));
    let ast = vec![
        Inst::If(zero, Block(vec![print(lit(110))]), None),
        Inst::If(lit(2), Block(vec![print(lit(121))]), None),
    ];
    let (r, out) = run(ast);
    assert_eq!(r, "Ok(())");
    assert_eq!(out, "y");
}

#[test]
fn functions_read_their_argument_by_name() {
    let ast = vec![
        print(call(1, lit(66))),
        Inst::FnDef(
            id(1),
            Block(vec![Inst::SetVar(id(2), Expr::Arg), Inst::Return(var(2))]),
        ),
    ];
    let (r, out) = run(ast);
    assert_eq!(r, "Ok(())");
    assert_eq!(out, "B");
}

#[test]
fn the_argument_is_evaluated_each_time_it_is_used() {
    // the argument prints, so using it twice prints twice
    let ast = vec![
        Inst::FnDef(
            id(1),
            Block(vec![
                Inst::Eval(Expr::Arg),
                Inst::Eval(Expr::Arg),
                Inst::Return(var(9)),
            ]),
        ),
        Inst::SetVar(id(9), lit(1)),
        Inst::Eval(call(1, builtin(7, lit(122)))),
    ];
    let (r, out) = run(ast);
    assert_eq!(r, "Ok(())");
    assert_eq!(out, "zz");
}

#[test]
fn an_alias_calls_its_builtin() {
    let ast = vec![Inst::Alias(id(1), id(7)), Inst::Eval(call(1, lit(67)))];
    let (r, out) = run(ast);
    assert_eq!(r, "Ok(())");
    assert_eq!(out, "C");
}

#[test]
fn the_last_definition_of_a_name_wins() {
    let ast = vec![
        Inst::Alias(id(1), id(5)),
        Inst::Alias(id(1), id(7)),
        Inst::Eval(call(1, lit(68))),
    ];
    let (r, out) = run(ast);
    assert_eq!(r, "Ok(())");
    assert_eq!(out, "D");
}

#[test]
fn a_return_inside_an_if_does_not_return() {
    let ast = vec![
        Inst::FnDef(
            id(1),
            Block(vec![
                Inst::If(lit(1), Block(vec![Inst::Return(var(2))]), None),
                Inst::Return(var(3)),
            ]),
        ),
        Inst::SetVar(id(2), lit(69)),
        Inst::SetVar(id(3), lit(70)),
        print(call(1, lit(1))),
    ];
    let (r, out) = run(ast);
    assert_eq!(r, "Ok(())");
    assert_eq!(out, "F");
}

#[test]
fn runtime_errors() {
    let cases: Vec<(Vec<Inst>, &str)> = vec![
        (
            vec![Inst::Eval(var(9))],
            "Err(Error(NoSuchDefinitionError(\"Tried to use unknown var as expression\", NyNy(9))))",
        ),
        (
            vec![Inst::Eval(call(5, lit(1)))],
            "Err(Error(NoSuchDefinitionError(\"Tried to call unknown local function as expression\", NyNy(5))))",
        ),
        (
            vec![Inst::Eval(builtin(9, lit(1)))],
            "Err(Error(NoSuchDefinitionError(\"Tried to call unknown local function as expression\", NyNy(9))))",
        ),
        (
            vec![Inst::Alias(id(1), id(9)), Inst::Eval(call(1, lit(1)))],
            "Err(Error(NoSuchDefinitionError(\"No builtin function defined\", NyNy(9))))",
        ),
        (
            vec![print(Expr::Arg)],
            "Err(Error(RuntimeError(\"Used ARG expression when inappropriate\")))",
        ),
        (
            vec![Inst::FnDef(id(1), Block(vec![])), Inst::Eval(call(1, lit(1)))],
            "Err(Error(RuntimeError(\"Local function had no return!\")))",
        ),
        (
            vec![Inst::Import(String::from("nyoom.nyny"))],
            "Err(Error(RuntimeError(\"These insts should not be here\")))",
        ),
        (
            vec![Inst::If(Expr::Concat(vec![lit(1)]), Block(vec![]), None)],
            "Err(Error(InvalidArgumentError(\"An IF block needs an INT argument\", Array([Int(1)]))))",
        ),
        (
            vec![Inst::While(Expr::Concat(vec![]), Block(vec![]))],
            "Err(Error(InvalidArgumentError(\"A WHILE block needs an INT argument\", Array([]))))",
        ),
        (
            vec![print(builtin(2, pair(lit(1), lit(1))))],
            "Err(Error(InvalidArgumentError(\"INT must be a valid UTF-8 scalar value to be printed\", Int(0))))",
        ),
        (
            vec![Inst::Eval(builtin(1, lit(1)))],
            "Err(Error(BuiltinFnTypeError(\"Expected type ARRAY OF INT AND INT for ADD\")))",
        ),
    ];
    for (ast, expected) in cases {
        let (r, _out) = run(ast);
        assert_eq!(r, expected);
    }
}

#[test]
fn output_before_an_error_is_kept() {
    let (r, out) = run(vec![print(lit(65)), Inst::Eval(var(1)), print(lit(66))]);
    assert!(r.starts_with("Err"));
    assert_eq!(out, "A");
}

#[test]
fn overflow_halts_the_run() {
    let ast = vec![Inst::SetVar(id(1), lit(50000)), Inst::Eval(builtin(3, pair(var(1), var(1))))];
    let (result, _) = run_tree_walk(ast);
    assert!(matches!(result, Err(Halt::Overflow)));
}

#[test]
fn division_by_zero_halts_the_run() {
    let ast = vec![print(lit(65)), Inst::Eval(builtin(4, pair(lit(7), lit(0)))), print(lit(66))];
    let (result, out) = run_tree_walk(ast);
    assert!(matches!(result, Err(Halt::DivideByZero)));
    assert_eq!(out, vec!['A']);
}

#[test]
fn dividing_the_least_integer_by_minus_one_overflows() {
    // 2147483648 wraps to i32::MIN and 4294967295 to -1
    let ast = vec![Inst::Eval(builtin(4, pair(lit(2147483648), lit(4294967295))))];
    let (result, _) = run_tree_walk(ast);
    assert!(matches!(result, Err(Halt::Overflow)));
}

#[test]
fn the_interpreter_divides() {
    // 200 / 3 is 66, the character 'B'
    let ast = vec![print(builtin(4, pair(lit(200), lit(3))))];
    let (r, out) = run(ast);
    assert_eq!(r, "Ok(())");
    assert_eq!(out, "B");
}

#[test]
fn a_literal_past_i32_wraps() {
    let ast = vec![Inst::SetVar(id(1), lit(4294967295)), print(builtin(1, pair(var(1), lit(66))))];
    let (r, out) = run(ast);
    assert_eq!(r, "Ok(())");
    assert_eq!(out, "A");
}

#[test]
fn fuel_bounds_the_depth_of_a_run() {
    let deep = || vec![print(builtin(1, pair(lit(60), lit(5))))];
    let (small, out_small) = run_tree_walk_with_fuel(deep(), 3);
    assert!(matches!(small, Err(Halt::OutOfFuel)));
    assert!(out_small.is_empty());
    let (enough, out_enough) = run_tree_walk_with_fuel(deep(), 10);
    let (full, out_full) = run_tree_walk(deep());
    assert!(enough.is_ok() && full.is_ok());
    assert_eq!(out_enough, out_full);
    assert_eq!(out_full, vec!['A']);
}

#[test]
fn an_endless_loop_runs_out_of_fuel() {
    let ast = vec![Inst::While(lit(1), Block(vec![]))];
    let (r, out) = run_tree_walk_with_fuel(ast, 1000);
    assert!(matches!(r, Err(Halt::OutOfFuel)));
    assert!(out.is_empty());
}

#[test]
fn create_fn_table_takes_out_the_definitions() {
    let mut ast = vec![
        Inst::Eval(lit(1)),
        Inst::FnDef(id(1), Block(vec![])),
        Inst::Alias(id(2), id(7)),
        Inst::Eval(lit(2)),
    ];
    let table = create_fn_table(&mut ast);
    assert_eq!(format!("{:?}", ast), "[Eval(Int(1)), Eval(Int(2))]");
    assert_eq!(table.len(), 2);
}

#[test]
fn arithmetic_builtins() {
    assert_eq!(format!("{:?}", builtin_add(ints(&[2, 3]))), "Ok(Int(5))");
    assert_eq!(format!("{:?}", builtin_subtract(ints(&[2, 3]))), "Ok(Int(-1))");
    assert_eq!(format!("{:?}", builtin_multiply(ints(&[2, 3]))), "Ok(Int(6))");
    assert_eq!(format!("{:?}", builtin_divide(ints(&[6, 3]))), "Ok(Int(2))");
    // division rounds toward zero
    assert_eq!(format!("{:?}", builtin_divide(ints(&[7, 2]))), "Ok(Int(3))");
    assert_eq!(format!("{:?}", builtin_divide(ints(&[-7, 2]))), "Ok(Int(-3))");
    assert_eq!(format!("{:?}", builtin_divide(ints(&[7, -2]))), "Ok(Int(-3))");
    assert_eq!(format!("{:?}", builtin_divide(ints(&[-7, -2]))), "Ok(Int(3))");
    assert_eq!(format!("{:?}", builtin_divide(ints(&[i32::MIN, 1]))), "Ok(Int(-2147483648))");
    // dividing undoes multiplying
    assert_eq!(format!("{:?}", builtin_divide(ints(&[-42, 6]))), "Ok(Int(-7))");
    // extra elements are ignored
    assert_eq!(format!("{:?}", builtin_add(ints(&[1, 2, 100]))), "Ok(Int(3))");
    for (f, name) in [
        (builtin_add as fn(VarContent) -> Result<VarContent, NyoomError>, "ADD"),
        (builtin_subtract, "SUBTRACT"),
        (builtin_multiply, "MULTIPLY"),
        (builtin_divide, "DIVIDE"),
    ] {
        match f(ints(&[1])) {
            Err(NyoomError::BuiltinFnTypeError(msg)) => {
                assert_eq!(msg, format!("Expected type ARRAY OF INT AND INT for {}", name))
            }
            other => panic!("unexpected {:?}", other),
        }
    }
}

#[test]
fn length_and_index_builtins() {
    assert_eq!(format!("{:?}", builtin_lenght(ints(&[4, 5, 6]))), "Ok(Int(3))");
    assert_eq!(
        format!("{:?}", builtin_lenght(VarContent::Int(1))),
        "Err(BuiltinFnTypeError(\"Expected type ARRAY for ARRAY LENGHT\"))"
    );
    let arg = |i: i32| VarContent::Array(vec![VarContent::Int(i), ints(&[7, 8, 9])]);
    assert_eq!(format!("{:?}", builtin_index(arg(1))), "Ok(Int(8))");
    assert_eq!(
        format!("{:?}", builtin_index(arg(-1))),
        "Err(NoSuchElementError(\"Index is negative\", -1, 3))"
    );
    assert_eq!(
        format!("{:?}", builtin_index(arg(3))),
        "Err(NoSuchElementError(\"Array does not contain this element\", 3, 3))"
    );
    assert_eq!(
        format!("{:?}", builtin_index(ints(&[1, 2]))),
        "Err(BuiltinFnTypeError(\"Expected type ARRAY OF INT AND ARRAY for INDEX\"))"
    );
}

#[test]
fn print_builtin() {
    let mut out = Vec::new();
    assert_eq!(format!("{:?}", builtin_print(VarContent::Int(65), &mut out)), "Ok(Nil)");
    assert_eq!(out, vec!['A']);
    assert_eq!(
        format!("{:?}", builtin_print(VarContent::Int(0xD800), &mut out)),
        "Err(InvalidArgumentError(\"INT must be a valid UTF-8 scalar value to be printed\", Int(55296)))"
    );
    assert_eq!(
        format!("{:?}", builtin_print(VarContent::Int(-5), &mut out)),
        "Err(InvalidArgumentError(\"INT must be a valid UTF-8 scalar value to be printed\", Int(-5)))"
    );
    assert_eq!(
        format!("{:?}", builtin_print(ints(&[65]), &mut out)),
        "Err(BuiltinFnTypeError(\"Expected type INT for PRINT\"))"
    );
    assert_eq!(out, vec!['A']);
}

#[test]
fn builtin_tables() {
    let table = Builtins::default_builtins();
    assert_eq!(table.get(1), Some(Builtin::Add));
    assert_eq!(table.get(5), Some(Builtin::Lenght));
    assert_eq!(table.get(7), Some(Builtin::Print));
    assert_eq!(table.get(8), None);
    let mut custom = Builtins::new();
    assert_eq!(custom.get(1), None);
    custom.insert(42, Builtin::Index);
    assert_eq!(custom.get(42), Some(Builtin::Index));
}

#[test]
fn state_reads_back_writes() {
    let mut st = VmState::new();
    assert!(st.get_var(id(1)).is_none());
    st.set_var(id(1), ints(&[1, 2]));
    st.set_var(Id::NyNu(1), VarContent::Int(4));
    assert_eq!(format!("{:?}", st.get_var(id(1))), "Some(Array([Int(1), Int(2)]))");
    assert_eq!(format!("{:?}", st.get_var(Id::NyNu(1))), "Some(Int(4))");
    assert!(st.output().is_empty());
}

#[test]
fn to_builtin_reads_the_number() {
    assert_eq!(Id::NyNy(7).to_builtin(), 7);
    assert_eq!(Id::NyNu(3).to_builtin(), 3);
}

#[test]
fn cloning_a_value_copies_it_deeply() {
    let v = VarContent::Array(vec![VarContent::Nil, ints(&[1, 2])]);
    assert_eq!(format!("{:?}", v.clone()), format!("{:?}", v));
}

#[test]
fn a_concatenation_has_one_element_per_part() {
    let ast = vec![
        Inst::SetVar(id(1), Expr::Concat(vec![lit(1), lit(2), Expr::Concat(vec![])])),
        print(builtin(1, pair(builtin(5, var(1)), lit(62)))),
    ];
    let (r, out) = run(ast);
    assert_eq!(r, "Ok(())");
    assert_eq!(out, "A");
}

#[test]
fn indexing_a_concatenation_gives_its_part() {
    let ast = vec![
        Inst::SetVar(id(1), Expr::Concat(vec![lit(72), lit(73)])),
        print(builtin(6, pair(lit(1), var(1)))),
    ];
    let (r, out) = run(ast);
    assert_eq!(r, "Ok(())");
    assert_eq!(out, "I");
}

#[test]
fn subtracting_undoes_adding() {
    let sum = builtin(1, pair(lit(40), lit(25)));
    let ast = vec![print(builtin(2, pair(sum, lit(25))))];
    let (r, out) = run(ast);
    assert_eq!(r, "Ok(())");
    assert_eq!(out, "(");
}
