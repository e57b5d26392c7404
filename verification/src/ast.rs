//! The syntax tree of a Nyoom program, and its mathematical model.
use std::rc::Rc;
use vstd::prelude::*;

verus! {

/// The name of a variable or of a function.
#[derive(Clone, Copy, Debug, PartialEq, Eq, Hash, Structural)]
pub enum Id {
    NyNy(u16),
    NyNu(u16),
}

impl Id {
    /// The number inside the name, read as the number of a builtin function.
    pub fn to_builtin(self) -> (r: u16)
        ensures
            r == self.number(),
    {
        match self {
            Id::NyNy(i) => i,
            Id::NyNu(i) => i,
        }
    }

    /// The number that an identifier carries, whatever its kind.
    pub open spec fn number(self) -> u16 {
        match self {
            Id::NyNy(i) => i,
            Id::NyNu(i) => i,
        }
    }

    /// The key under which tables store an identifier: one key per identifier.
    pub open spec fn key(self) -> u32 {
        match self {
            Id::NyNy(i) => (2 * i) as u32,
            Id::NyNu(i) => (2 * i + 1) as u32,
        }
    }

    /// Computes `self.key()`.
    pub fn table_key(self) -> (r: u32)
        ensures
            r == self.key(),
    {
        match self {
            Id::NyNy(i) => 2 * (i as u32),
            Id::NyNu(i) => 2 * (i as u32) + 1,
        }
    }
}

/// Distinct identifiers are stored under distinct keys.
pub proof fn lemma_key_injective(a: Id, b: Id)
    ensures
        a.key() == b.key() <==> a == b,
{
}

/// An expression.
#[derive(Debug)]
pub enum Expr {
    Var(Id),
    Int(u32),
    CallLoc(FnCall),
    CallBuiltin(FnCall),
    Concat(Vec<Expr>),
    Arg,
}

/// A call: the function's name and its (unevaluated) argument.
#[derive(Debug)]
pub struct FnCall(pub Id, pub Rc<Expr>);

/// A sequence of instructions.
#[derive(Debug)]
pub struct Block(pub Vec<Inst>);

/// An instruction.
#[derive(Debug)]
pub enum Inst {
    Import(String),
    Alias(Id, Id),
    SetVar(Id, Expr),
    Eval(Expr),
    FnDef(Id, Block),
    If(Expr, Block, Option<Block>),
    While(Expr, Block),
    Return(Expr),
}

/// The mathematical value of an expression.
pub enum SpecExpr {
    Var(Id),
    Int(u32),
    CallLoc(Id, Box<SpecExpr>),
    CallBuiltin(Id, Box<SpecExpr>),
    Concat(Seq<SpecExpr>),
    Arg,
}

/// The mathematical value of an instruction; a block is a sequence of them.
pub enum SpecInst {
    Import(Seq<char>),
    Alias(Id, Id),
    SetVar(Id, SpecExpr),
    Eval(SpecExpr),
    FnDef(Id, Seq<SpecInst>),
    If(SpecExpr, Seq<SpecInst>, Option<Seq<SpecInst>>),
    While(SpecExpr, Seq<SpecInst>),
    Return(SpecExpr),
}

impl View for Expr {
    type V = SpecExpr;

    open spec fn view(&self) -> SpecExpr
        decreases self,
    {
        match self {
            Expr::Var(id) => SpecExpr::Var(*id),
            Expr::Int(n) => SpecExpr::Int(*n),
            Expr::CallLoc(c) => SpecExpr::CallLoc(c.0, Box::new((*c.1).view())),
            Expr::CallBuiltin(c) => SpecExpr::CallBuiltin(c.0, Box::new((*c.1).view())),
            Expr::Concat(v) => SpecExpr::Concat(views_of_exprs(v@)),
            Expr::Arg => SpecExpr::Arg,
        }
    }
}

/// The models of a sequence of expressions.
pub open spec fn views_of_exprs(s: Seq<Expr>) -> Seq<SpecExpr>
    decreases s,
{
    if s.len() == 0 {
        Seq::empty()
    } else {
        views_of_exprs(s.drop_last()).push(s.last().view())
    }
}

impl View for Block {
    type V = Seq<SpecInst>;

    open spec fn view(&self) -> Seq<SpecInst>
        decreases self,
    {
        views_of_insts(self.0@)
    }
}

impl View for Inst {
    type V = SpecInst;

    open spec fn view(&self) -> SpecInst
        decreases self,
    {
        match self {
            Inst::Import(s) => SpecInst::Import(s@),
            Inst::Alias(a, b) => SpecInst::Alias(*a, *b),
            Inst::SetVar(id, e) => SpecInst::SetVar(*id, e@),
            Inst::Eval(e) => SpecInst::Eval(e@),
            Inst::FnDef(id, b) => SpecInst::FnDef(*id, views_of_insts(b.0@)),
            Inst::If(e, b, ob) => SpecInst::If(
                e@,
                views_of_insts(b.0@),
                match ob {
                    Some(b2) => Some(views_of_insts(b2.0@)),
                    None => None,
                },
            ),
            Inst::While(e, b) => SpecInst::While(e@, views_of_insts(b.0@)),
            Inst::Return(e) => SpecInst::Return(e@),
        }
    }
}

/// The models of a sequence of instructions.
pub open spec fn views_of_insts(s: Seq<Inst>) -> Seq<SpecInst>
    decreases s,
{
    if s.len() == 0 {
        Seq::empty()
    } else {
        views_of_insts(s.drop_last()).push(s.last().view())
    }
}

/// The model of a sequence of expressions is taken element by element.
pub broadcast proof fn lemma_views_of_exprs(s: Seq<Expr>)
    ensures
        #[trigger] views_of_exprs(s).len() == s.len(),
        forall|i: int| 0 <= i < s.len() ==> views_of_exprs(s)[i] == s[i]@,
    decreases s.len(),
{
    if s.len() > 0 {
        lemma_views_of_exprs(s.drop_last());
        assert(views_of_exprs(s) == views_of_exprs(s.drop_last()).push(s.last().view()));
    } else {
        assert(views_of_exprs(s) == Seq::<SpecExpr>::empty());
    }
}

/// The model of a sequence of instructions is taken element by element.
pub broadcast proof fn lemma_views_of_insts(s: Seq<Inst>)
    ensures
        #[trigger] views_of_insts(s).len() == s.len(),
        forall|i: int| 0 <= i < s.len() ==> views_of_insts(s)[i] == s[i]@,
    decreases s.len(),
{
    if s.len() > 0 {
        lemma_views_of_insts(s.drop_last());
        assert(views_of_insts(s) == views_of_insts(s.drop_last()).push(s.last().view()));
    } else {
        assert(views_of_insts(s) == Seq::<SpecInst>::empty());
    }
}

} // verus!
