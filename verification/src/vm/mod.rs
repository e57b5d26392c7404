//! The tree-walking interpreter.
pub mod builtin;
pub mod laws;
pub mod treewalker;
pub mod value;

use std::collections::HashMap;
use vstd::prelude::*;
use crate::ast::{Block, Id, Inst, SpecInst, views_of_insts, lemma_views_of_insts};
use crate::vm::builtin::{Builtin, Builtins, default_table};
use crate::vm::value::{VarContent, Value};
use crate::vm::treewalker::{sem_block, unit_outcome, walk_tree};
use crate::{ErrorModel, NyoomError, AST};

verus! {

broadcast use vstd::std_specs::hash::group_hash_axioms;

/// Why a run stopped before its end.
#[derive(Debug)]
pub enum Halt {
    /// The program failed with an error.
    Error(NyoomError),
    /// An arithmetic builtin overflowed `i32`: the run cannot go on.
    Overflow,
    /// The divide builtin was asked to divide by zero.
    DivideByZero,
    /// The run went deeper than the depth it was given.
    OutOfFuel,
}

/// The model of a halt.
pub enum HaltModel {
    Error(ErrorModel),
    Overflow,
    DivideByZero,
    OutOfFuel,
}

impl View for Halt {
    type V = HaltModel;

    open spec fn view(&self) -> HaltModel {
        match self {
            Halt::Error(e) => HaltModel::Error(e@),
            Halt::Overflow => HaltModel::Overflow,
            Halt::DivideByZero => HaltModel::DivideByZero,
            Halt::OutOfFuel => HaltModel::OutOfFuel,
        }
    }
}

/// A local function: a block of its own, or another name for a builtin.
#[derive(Debug)]
pub enum LocalFnContent {
    Block(Block),
    Alias(Id),
}

/// The model of a local function.
pub enum LocalModel {
    Block(Seq<SpecInst>),
    Alias(Id),
}

impl View for LocalFnContent {
    type V = LocalModel;

    open spec fn view(&self) -> LocalModel {
        match self {
            LocalFnContent::Block(b) => LocalModel::Block(b@),
            LocalFnContent::Alias(id) => LocalModel::Alias(*id),
        }
    }
}

/// The local functions, stored under their names' keys.
pub type Locals = HashMap<u32, LocalFnContent>;

/// The variables, stored under their names' keys.
pub type Vars = HashMap<u32, VarContent>;

/// The model of a table of local functions.
pub open spec fn locals_view(m: Map<u32, LocalFnContent>) -> Map<u32, LocalModel> {
    m.map_values(|l: LocalFnContent| l@)
}

/// The model of a table of variables.
pub open spec fn vars_view(m: Map<u32, VarContent>) -> Map<u32, Value> {
    m.map_values(|v: VarContent| v@)
}

/// The state of a run, as a model: the variables and what was printed.
pub struct Env {
    pub vars: Map<u32, Value>,
    pub out: Seq<char>,
}

/// The state that a run changes: its variables, and the characters it has printed.
pub struct VmState {
    vars: Vars,
    output: Vec<char>,
}

impl View for VmState {
    type V = Env;

    closed spec fn view(&self) -> Env {
        Env { vars: vars_view(self.vars@), out: self.output@ }
    }
}

impl VmState {
    /// A state with no variables and nothing printed.
    pub fn new() -> (r: Self)
        ensures
            r@ == (Env { vars: Map::empty(), out: Seq::empty() }),
    {
        let r = VmState { vars: HashMap::new(), output: Vec::new() };
        assert(r@.vars =~= Map::<u32, Value>::empty());
        r
    }

    /// The value of a variable, if it has one.
    pub fn get_var(&self, id: Id) -> (r: Option<VarContent>)
        ensures
            match r {
                Some(v) => self@.vars.contains_key(id.key()) && v@ == self@.vars[id.key()],
                None => !self@.vars.contains_key(id.key()),
            },
    {
        match self.vars.get(&id.table_key()) {
            Some(v) => Some(v.clone()),
            None => None,
        }
    }

    /// Gives a variable a value.
    pub fn set_var(&mut self, id: Id, value: VarContent)
        ensures
            final(self)@ == (Env { vars: old(self)@.vars.insert(id.key(), value@), out: old(self)@.out }),
    {
        let ghost v = value@;
        self.vars.insert(id.table_key(), value);
        assert(vars_view(self.vars@) =~= vars_view(old(self).vars@).insert(id.key(), v));
    }

    /// The characters printed so far.
    pub fn output(&self) -> (r: &Vec<char>)
        ensures
            r@ == self@.out,
    {
        &self.output
    }

    /// The characters printed, taken out of the state.
    pub fn into_output(self) -> (r: Vec<char>)
        ensures
            r@ == self@.out,
    {
        self.output
    }

    /// The print builtin, printing into this state.
    pub fn print_builtin(&mut self, arg: VarContent) -> (r: crate::vm::builtin::FnResult)
        ensures
            match crate::vm::builtin::print_result(arg@) {
                Ok(c) => r matches Ok(v) && v@ == Value::Nil && final(self)@ == (Env {
                    vars: old(self)@.vars,
                    out: old(self)@.out.push(c),
                }),
                Err(e) => r matches Err(err) && err@ == e && final(self)@ == old(self)@,
            },
    {
        crate::vm::builtin::builtin_print(arg, &mut self.output)
    }

}

/// What does not change while a program runs: its local functions and its builtins.
pub struct VmCtx {
    locals: Locals,
    builtins: Builtins,
}

impl VmCtx {
    /// A context of the given local functions and builtins.
    pub fn new(locals: Locals, builtins: Builtins) -> (r: Self)
        ensures
            r.fns() == locals_view(locals@),
            r.bt() == builtins@,
    {
        VmCtx { locals, builtins }
    }

    /// The model of the local functions.
    pub closed spec fn fns(&self) -> Map<u32, LocalModel> {
        locals_view(self.locals@)
    }

    /// The model of the builtins.
    pub closed spec fn bt(&self) -> Map<u16, Builtin> {
        self.builtins@
    }

    /// The local function of a name, if there is one.
    pub fn get_local(&self, id: Id) -> (r: Option<&LocalFnContent>)
        ensures
            match r {
                Some(l) => self.fns().contains_key(id.key()) && l@ == self.fns()[id.key()],
                None => !self.fns().contains_key(id.key()),
            },
    {
        self.locals.get(&id.table_key())
    }

    /// The builtin of a number, if there is one.
    pub fn get_builtin(&self, n: u16) -> (r: Option<Builtin>)
        ensures
            r == (if self.bt().contains_key(n) {
                Some(self.bt()[n])
            } else {
                None
            }),
    {
        self.builtins.get(n)
    }
}

/// Whether an instruction defines a local function (a definition or an alias).
pub open spec fn is_definition(i: SpecInst) -> bool {
    i is FnDef || i is Alias
}

/// The local functions that a program defines: for each name, its last definition.
pub open spec fn fn_table(s: Seq<SpecInst>) -> Map<u32, LocalModel>
    decreases s.len(),
{
    if s.len() == 0 {
        Map::empty()
    } else {
        let m = fn_table(s.drop_last());
        match s.last() {
            SpecInst::FnDef(id, body) => m.insert(id.key(), LocalModel::Block(body)),
            SpecInst::Alias(id, target) => m.insert(id.key(), LocalModel::Alias(target)),
            _ => m,
        }
    }
}

/// The instructions of a program other than its definitions, in order.
pub open spec fn without_definitions(s: Seq<SpecInst>) -> Seq<SpecInst>
    decreases s.len(),
{
    if s.len() == 0 {
        s
    } else {
        let r = without_definitions(s.drop_last());
        if is_definition(s.last()) {
            r
        } else {
            r.push(s.last())
        }
    }
}

/// Takes the definitions and aliases out of a program, and returns them as a table.
pub fn create_fn_table(ast: &mut AST) -> (m: Locals)
    ensures
        views_of_insts(final(ast)@) == without_definitions(views_of_insts(old(ast)@)),
        locals_view(m@) == fn_table(views_of_insts(old(ast)@)),
{
    let ghost orig = views_of_insts(ast@);
    proof {
        lemma_views_of_insts(ast@);
    }
    let mut map: Locals = HashMap::new();
    let mut i: usize = 0;
    let ghost mut j: int = 0;
    assert(orig.take(0) =~= Seq::<SpecInst>::empty());
    assert(orig.skip(0) =~= orig);
    assert(locals_view(map@) =~= Map::<u32, LocalModel>::empty());
    assert(views_of_insts(ast@) =~= without_definitions(orig.take(0)) + orig.skip(0));
    while i < ast.len()
        invariant
            orig == views_of_insts(old(ast)@),
            0 <= j <= orig.len(),
            i == without_definitions(orig.take(j)).len(),
            ast@.len() == i + (orig.len() - j),
            views_of_insts(ast@) == without_definitions(orig.take(j)) + orig.skip(j),
            locals_view(map@) == fn_table(orig.take(j)),
        decreases ast.len() - i,
    {
        proof {
            lemma_views_of_insts(ast@);
            assert(views_of_insts(ast@)[i as int] == orig[j]);
            assert(orig.take(j + 1).drop_last() =~= orig.take(j));
            assert(orig.take(j + 1).last() == orig[j]);
        }
        let ghost before = ast@;
        let ghost pre = without_definitions(orig.take(j));
        assert(views_of_insts(before) == pre + orig.skip(j));
        let is_def = match &ast[i] {
            Inst::FnDef(_, _) => true,
            Inst::Alias(_, _) => true,
            _ => false,
        };
        if is_def {
            assert(is_definition(orig[j]));
            assert(without_definitions(orig.take(j + 1)) == without_definitions(orig.take(j)));
            let removed = ast.remove(i);
            proof {
                lemma_views_of_insts(ast@);
                lemma_views_of_insts(before);
                assert(ast@ == before.remove(i as int));
                assert forall|k: int| 0 <= k < ast@.len() implies views_of_insts(ast@)[k] == (
                without_definitions(orig.take(j + 1)) + orig.skip(j + 1))[k] by {
                    if k < i {
                        assert(ast@[k] == before[k]);
                        assert(views_of_insts(before)[k] == pre[k]);
                    } else {
                        assert(ast@[k] == before[k + 1]);
                        assert(views_of_insts(before)[k + 1] == orig.skip(j)[k + 1 - i]);
                        assert(orig.skip(j)[k + 1 - i] == orig[j + k + 1 - i]);
                    }
                }
                assert(views_of_insts(ast@) =~= without_definitions(orig.take(j + 1)) + orig.skip(
                    j + 1,
                ));
            }
            match removed {
                Inst::FnDef(id, block) => {
                    map.insert(id.table_key(), LocalFnContent::Block(block));
                    assert(locals_view(map@) =~= fn_table(orig.take(j + 1)));
                },
                Inst::Alias(id, target) => {
                    map.insert(id.table_key(), LocalFnContent::Alias(target));
                    assert(locals_view(map@) =~= fn_table(orig.take(j + 1)));
                },
                _ => {},
            }
        } else {
            assert(!is_definition(orig[j]));
            i = i + 1;
            proof {
                assert(views_of_insts(ast@) =~= without_definitions(orig.take(j + 1)) + orig.skip(
                    j + 1,
                ));
            }
        }
        proof {
            j = j + 1;
        }
    }
    proof {
        assert(orig.take(j) =~= orig);
        assert(orig.skip(j) =~= Seq::<SpecInst>::empty());
        assert(views_of_insts(ast@) =~= without_definitions(orig));
    }
    map
}

/// The run of a program: its definitions go to the table of local functions, and its other
/// instructions run in order, with no argument, from a state with no variables.
pub open spec fn sem_program(s: Seq<SpecInst>, bt: Map<u16, Builtin>, fuel: nat) -> (
    Result<(), HaltModel>,
    Env,
) {
    sem_block(
        fn_table(s),
        bt,
        Env { vars: Map::empty(), out: Seq::empty() },
        without_definitions(s),
        None,
        0,
        fuel,
    )
}

/// Runs a program with the default builtins, each step within the given depth: the
/// outcome, and the characters the program printed.
pub fn run_tree_walk_with_fuel(ast: AST, fuel: u64) -> (r: (Result<(), Halt>, Vec<char>))
    ensures
        (unit_outcome(r.0), r.1@) == ({
            let (o, env) = sem_program(views_of_insts(ast@), default_table(), fuel as nat);
            (o, env.out)
        }),
{
    let mut ast = ast;
    let local_fns = create_fn_table(&mut ast);
    let ctx = VmCtx::new(local_fns, Builtins::default_builtins());
    let mut st = VmState::new();
    let result = walk_tree(&ctx, &mut st, ast, fuel);
    (result, st.into_output())
}

/// Runs a program with the default builtins: the outcome, and the characters the program
/// printed. Each step may go as deep as a `u64` counts.
pub fn run_tree_walk(ast: AST) -> (r: (Result<(), Halt>, Vec<char>))
    ensures
        (unit_outcome(r.0), r.1@) == ({
            let (o, env) = sem_program(views_of_insts(ast@), default_table(), u64::MAX as nat);
            (o, env.out)
        }),
{
    run_tree_walk_with_fuel(ast, u64::MAX)
}

} // verus!
