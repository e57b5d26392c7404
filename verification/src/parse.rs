//! The parser: from tokens to instructions.
//!
//! The grammar is given by the spec functions `*_from`, each of which reads the tokens `t`
//! from position `p` on and gives its result together with the position it stops at.
use std::rc::Rc;
use vstd::prelude::*;
use vstd::string::StringExecFns;
use crate::ast::{Block, Expr, FnCall, Id, Inst, SpecExpr, SpecInst, views_of_exprs, views_of_insts};
use crate::scan::Token;
use crate::{no_token_error, NyoomError, TokenIter, AST};

verus! {

broadcast use {crate::ast::lemma_views_of_exprs, crate::ast::lemma_views_of_insts};

/// A parse error with the given message.
pub open spec fn fail(msg: &'static str) -> NyoomError {
    NyoomError::CompileError(msg, 0)
}

/// What a parse that stops without reading a token reports. No parse stops that way: every
/// successful parse reads at least one token, as the `ensures` of the parsing functions state.
pub open spec fn stalled() -> NyoomError {
    fail("Invalid expression type")
}

/// The number of consecutive copies of `tok` from position `p` on.
pub open spec fn run_of(t: Seq<Token>, p: int, tok: Token) -> nat
    decreases t.len() - p,
{
    if 0 <= p < t.len() && t[p] == tok {
        1 + run_of(t, p + 1, tok)
    } else {
        0
    }
}

/// A run of tokens never reaches past the end.
pub proof fn lemma_run_bound(t: Seq<Token>, p: int, tok: Token)
    ensures
        run_of(t, p, tok) > 0 ==> 0 <= p && p + run_of(t, p, tok) <= t.len(),
    decreases t.len() - p,
{
    if 0 <= p < t.len() && t[p] == tok {
        lemma_run_bound(t, p + 1, tok);
    }
}

/// Reads one token.
pub open spec fn next_from(t: Seq<Token>, p: int) -> (Result<Token, NyoomError>, int) {
    if 0 <= p < t.len() {
        (Ok(t[p]), p + 1)
    } else {
        (Err(no_token_error()), p)
    }
}

/// Looks at one token without reading it.
pub open spec fn peek_from(t: Seq<Token>, p: int) -> Result<Token, NyoomError> {
    if 0 <= p < t.len() {
        Ok(t[p])
    } else {
        Err(no_token_error())
    }
}

/// A name: one `nyoom` already read, and the `nyoom`s that follow; the count must fit in
/// a `u16`.
pub open spec fn prims_from(t: Seq<Token>, p: int) -> (Result<u16, NyoomError>, int) {
    let n = run_of(t, p, Token::Prim);
    if n < 65535 {
        (Ok((n + 1) as u16), p + n)
    } else {
        (Err(fail("Identifier too long")), p + 65535)
    }
}

/// A literal: one `nyoom` already read, and the `nyoom`s that follow; the count must fit
/// in a `u32`.
pub open spec fn literal_from(t: Seq<Token>, p: int) -> (Result<u32, NyoomError>, int) {
    let n = run_of(t, p, Token::Prim);
    if n < 4294967295 {
        (Ok((n + 1) as u32), p + n)
    } else {
        (Err(fail("Literal too long (thats a long nyoom file nice work)")), p + 4294967295)
    }
}

/// One `nugget` already read, and the `nugget`s that follow, up to a total of `max` when
/// `max` is given; without a bound the count must fit in a `u16`.
pub open spec fn secs_from(t: Seq<Token>, p: int, max: Option<u16>) -> (
    Result<u16, NyoomError>,
    int,
) {
    let n = run_of(t, p, Token::Sec);
    match max {
        Some(m) if 2 <= m => if n >= m - 1 {
            (Ok(m), p + m - 1)
        } else {
            (Ok((n + 1) as u16), p + n)
        },
        _ => if n < 65535 {
            (Ok((n + 1) as u16), p + n)
        } else {
            (Err(fail("Identifier too long")), p + 65535)
        },
    }
}

/// Reads one token and tells whether it is `I`.
pub open spec fn split_from(t: Seq<Token>, p: int) -> (Result<bool, NyoomError>, int) {
    match next_from(t, p) {
        (Ok(tok), q) => (Ok(tok == Token::Split), q),
        (Err(e), q) => (Err(e), q),
    }
}

/// A variable or a literal: after its `nugget`s, a `nyoom` and the rest of the count, then
/// the token that ends it.
pub open spec fn leaf_from(t: Seq<Token>, p: int, literal: bool) -> (
    Result<(SpecExpr, Token), NyoomError>,
    int,
) {
    match next_from(t, p) {
        (Err(e), p2) => (Err(e), p2),
        (Ok(tk), p2) => if tk != Token::Prim {
            (
                Err(
                    if literal {
                        fail("Unexpected token instead of literal")
                    } else {
                        fail("Unexpected token instead of var name")
                    },
                ),
                p2,
            )
        } else if literal {
            match literal_from(t, p2) {
                (Err(e), p3) => (Err(e), p3),
                (Ok(n), p3) => match next_from(t, p3) {
                    (Err(e), p4) => (Err(e), p4),
                    (Ok(term), p4) => (Ok((SpecExpr::Int(n), term)), p4),
                },
            }
        } else {
            match prims_from(t, p2) {
                (Err(e), p3) => (Err(e), p3),
                (Ok(n), p3) => match next_from(t, p3) {
                    (Err(e), p4) => (Err(e), p4),
                    (Ok(term), p4) => (Ok((SpecExpr::Var(Id::NyNy(n)), term)), p4),
                },
            }
        }
    }
}

/// A reference to the argument: after its five `nugget`s, a `nyoom` and the token that ends
/// it, or any other token, which ends it as an `I` would.
pub open spec fn arg_from(t: Seq<Token>, p: int) -> (Result<(SpecExpr, Token), NyoomError>, int) {
    match next_from(t, p) {
        (Err(e), p2) => (Err(e), p2),
        (Ok(tk), p2) => if tk == Token::Prim {
            match next_from(t, p2) {
                (Err(e), p3) => (Err(e), p3),
                (Ok(tk2), p3) => if tk2 != Token::Prim {
                    (Ok((SpecExpr::Arg, tk2)), p3)
                } else {
                    (
                        Err(
                            fail(
                                "A Prim token found in arg reference, this means it is misconstructed",
                            ),
                        ),
                        p3,
                    )
                },
            }
        } else {
            (Ok((SpecExpr::Arg, Token::Split)), p2)
        },
    }
}

/// An expression whose first `nugget` was already read, with the token that ends it.
/// One `nugget` more marks a variable, two a literal, three a call of a local function,
/// four a call of a builtin, five the argument and six a concatenation.
pub open spec fn expr_from(t: Seq<Token>, p: int) -> (Result<(SpecExpr, Token), NyoomError>, int)
    decreases t.len() - p, 0nat,
{
    match secs_from(t, p, Some(6u16)) {
        (Err(e), p1) => (Err(e), p1),
        (Ok(count), p1) => if count == 1 {
            leaf_from(t, p1, false)
        } else if count == 2 {
            leaf_from(t, p1, true)
        } else if count == 3 || count == 4 {
            match next_from(t, p1) {
                (Err(e), p2) => (Err(e), p2),
                (Ok(tk), p2) => if tk != Token::Prim {
                    (
                        Err(
                            if count == 3 {
                                fail("Unexpected token instead of local function")
                            } else {
                                fail("Unexpected token instead of global function")
                            },
                        ),
                        p2,
                    )
                } else {
                    match prims_from(t, p2) {
                        (Err(e), p3) => (Err(e), p3),
                        (Ok(name), p3) => match next_from(t, p3) {
                            (Err(e), p4) => (Err(e), p4),
                            (Ok(tk2), p4) => if tk2 != Token::Sec {
                                (
                                    Err(
                                        if count == 3 {
                                            fail(
                                                "Unexpected token following local fn name, what are you splitting?",
                                            )
                                        } else {
                                            fail(
                                                "Unexpected token following global fn name, what are you splitting?",
                                            )
                                        },
                                    ),
                                    p4,
                                )
                            } else {
                                match expr_from(t, p4) {
                                    (Err(e), p5) => (Err(e), p5),
                                    (Ok((a, term)), p5) => (
                                        Ok(
                                            (
                                                if count == 3 {
                                                    SpecExpr::CallLoc(Id::NyNy(name), Box::new(a))
                                                } else {
                                                    SpecExpr::CallBuiltin(
                                                        Id::NyNy(name),
                                                        Box::new(a),
                                                    )
                                                },
                                                term,
                                            ),
                                        ),
                                        p5,
                                    ),
                                }
                            },
                        },
                    }
                },
            }
        } else if count == 5 {
            arg_from(t, p1)
        } else if count == 6 {
            proof {
                lemma_run_bound(t, p, Token::Sec);
            }
            concat_from(t, p1, Seq::empty())
        } else {
            (Err(fail("Invalid expression type")), p1)
        },
    }
}

/// The rest of a concatenation, `acc` holding the parts read so far: expressions, up to
/// and including the one that an `I` ends.
pub open spec fn concat_from(t: Seq<Token>, p: int, acc: Seq<SpecExpr>) -> (
    Result<(SpecExpr, Token), NyoomError>,
    int,
)
    decreases t.len() - p, 1nat,
{
    match expr_from(t, p) {
        (Err(e), p2) => (Err(e), p2),
        (Ok((e, term)), p2) => if !(p < p2 <= t.len()) {
            (Err(stalled()), p2)
        } else if term == Token::Split {
            (Ok((SpecExpr::Concat(acc.push(e)), Token::Split)), p2)
        } else {
            concat_from(t, p2, acc.push(e))
        },
    }
}

/// `nyoom-` repeated `k` times.
pub open spec fn dash_prefix(k: nat) -> Seq<char>
    decreases k,
{
    if k == 0 {
        Seq::empty()
    } else {
        dash_prefix((k - 1) as nat) + seq!['n', 'y', 'o', 'o', 'm', '-']
    }
}

/// The file that an import of number `n` names: `nyoom-` repeated `n - 1` times, then
/// `nyoom.nyny`.
pub open spec fn file_name(n: u16) -> Seq<char> {
    dash_prefix((n - 1) as nat) + seq!['n', 'y', 'o', 'o', 'm', '.', 'n', 'y', 'n', 'y']
}

/// Whether a name is that of a file that an import can name.
pub open spec fn file_named(name: Seq<char>) -> bool {
    exists|n: u16| 1 <= n && name == #[trigger] file_name(n)
}

/// Whether every import among some instructions names a file that an import can name.
pub open spec fn imports_named(s: Seq<SpecInst>) -> bool {
    forall|i: int| 0 <= i < s.len() ==> (#[trigger] s[i] matches SpecInst::Import(name) ==> file_named(name))
}

/// An import, after its `nyoom nyoom nugget nyoom`: the rest of the number, then `I`.
pub open spec fn import_from(t: Seq<Token>, p: int) -> (Result<SpecInst, NyoomError>, int) {
    match prims_from(t, p) {
        (Err(e), p1) => (Err(e), p1),
        (Ok(n), p1) => match split_from(t, p1) {
            (Err(e), p2) => (Err(e), p2),
            (Ok(b), p2) => if b {
                (Ok(SpecInst::Import(file_name(n))), p2)
            } else {
                (Err(fail("Unexpected end of import statement")), p2)
            },
        },
    }
}

/// An alias, after its `nyoom nyoom nugget nugget`: `nyoom`s naming the alias, `nugget`,
/// `nyoom`s naming the builtin, then `I`.
pub open spec fn alias_from(t: Seq<Token>, p: int) -> (Result<SpecInst, NyoomError>, int) {
    match next_from(t, p) {
        (Err(e), p1) => (Err(e), p1),
        (Ok(tk), p1) => if tk != Token::Prim {
            (Err(fail("An alias statement needs a first name")), p1)
        } else {
            match prims_from(t, p1) {
                (Err(e), p2) => (Err(e), p2),
                (Ok(alias), p2) => match next_from(t, p2) {
                    (Err(e), p3) => (Err(e), p3),
                    (Ok(tk2), p3) => if tk2 != Token::Sec {
                        (Err(fail("An alias statement needs a second name")), p3)
                    } else {
                        match prims_from(t, p3) {
                            (Err(e), p4) => (Err(e), p4),
                            (Ok(source), p4) => match split_from(t, p4) {
                                (Err(e), p5) => (Err(e), p5),
                                (Ok(b), p5) => if b {
                                    (Ok(SpecInst::Alias(Id::NyNy(alias), Id::NyNy(source))), p5)
                                } else {
                                    (Err(fail("Unexpected end of alias statement")), p5)
                                },
                            },
                        }
                    },
                },
            }
        },
    }
}

/// An instruction. `is_fn` says whether it stands in a block, where `nyoom nugget` starts a
/// return; at the top level it starts a function definition.
pub open spec fn inst_from(t: Seq<Token>, p: int, is_fn: bool) -> (Result<SpecInst, NyoomError>, int)
    decreases t.len() - p, 1nat,
{
    match next_from(t, p) {
        (Err(e), p1) => (Err(e), p1),
        (Ok(t1), p1) => match t1 {
            Token::Prim => match next_from(t, p1) {
                (Err(e), p2) => (Err(e), p2),
                (Ok(t2), p2) => match t2 {
                    Token::Prim => match next_from(t, p2) {
                        (Err(e), p3) => (Err(e), p3),
                        (Ok(t3), p3) => match t3 {
                            Token::Sec => match next_from(t, p3) {
                                (Err(e), p4) => (Err(e), p4),
                                (Ok(t4), p4) => match t4 {
                                    Token::Prim => import_from(t, p4),
                                    Token::Sec => alias_from(t, p4),
                                    Token::Split => (
                                        Err(
                                            fail(
                                                "Nyoom nyoom nugget alone is insufficient, did you mean to write an import?",
                                            ),
                                        ),
                                        p4,
                                    ),
                                },
                            },
                            Token::Prim => control_from(t, p3),
                            Token::Split => (Err(fail("Nyoom nyoom alone is insufficient")), p3),
                        },
                    },
                    Token::Sec => sec_inst_from(t, p2, is_fn),
                    Token::Split => (Err(fail("Nyoom alone is not enough")), p2),
                },
            },
            Token::Sec => set_var_from(t, p1),
            Token::Split => (Err(fail("Nothing to split")), p1),
        },
    }
}

/// An `if` (one more `nyoom`) or a `while` (two more), after its `nyoom nyoom nyoom`:
/// `nugget`, the condition, then the block.
pub open spec fn control_from(t: Seq<Token>, p: int) -> (Result<SpecInst, NyoomError>, int)
    decreases t.len() - p, 1nat,
{
    match prims_from(t, p) {
        (Err(e), p1) => (Err(e), p1),
        (Ok(count), p1) => match next_from(t, p1) {
            (Err(e), p2) => (Err(e), p2),
            (Ok(tk), p2) => if tk != Token::Sec {
                (Err(fail("Expression expected in control flow structure")), p2)
            } else {
                match expr_from(t, p2) {
                    (Err(e), p3) => (Err(e), p3),
                    (Ok((cond, _term)), p3) => if !(p < p3 <= t.len()) {
                        (Err(stalled()), p3)
                    } else {
                        match block_from(t, p3, Seq::empty()) {
                            (Err(e), p4) => (Err(e), p4),
                            (Ok(body), p4) => if count == 1 {
                                (Ok(SpecInst::If(cond, body, None)), p4)
                            } else if count == 2 {
                                (Ok(SpecInst::While(cond, body)), p4)
                            } else {
                                (
                                    Err(
                                        fail(
                                            "Unexpected strucure following a control flow declaration",
                                        ),
                                    ),
                                    p4,
                                )
                            },
                        }
                    },
                }
            },
        },
    }
}

/// After `nyoom nugget`: with one more `nugget`, an evaluated expression; otherwise, in a
/// block, a return of the expression that follows, and at the top level a function
/// definition (`nyoom`s naming it, `I`, then its block).
pub open spec fn sec_inst_from(t: Seq<Token>, p: int, is_fn: bool) -> (
    Result<SpecInst, NyoomError>,
    int,
)
    decreases t.len() - p, 1nat,
{
    match peek_from(t, p) {
        Err(e) => (Err(e), p),
        Ok(tk) => if tk == Token::Sec {
            match expr_from(t, p + 1) {
                (Err(e), p2) => (Err(e), p2),
                (Ok((e, _term)), p2) => (Ok(SpecInst::Eval(e)), p2),
            }
        } else if is_fn {
            match expr_from(t, p) {
                (Err(e), p2) => (Err(e), p2),
                (Ok((e, _term)), p2) => (Ok(SpecInst::Return(e)), p2),
            }
        } else {
            match next_from(t, p) {
                (Err(e), p1) => (Err(e), p1),
                (Ok(tk1), p1) => if tk1 != Token::Prim {
                    (Err(fail("Expected function name after function declaration")), p1)
                } else {
                    match prims_from(t, p1) {
                        (Err(e), p2) => (Err(e), p2),
                        (Ok(n), p2) => match next_from(t, p2) {
                            (Err(e), p3) => (Err(e), p3),
                            (Ok(tk3), p3) => if tk3 != Token::Split {
                                (Err(fail("Expected split to start fn block")), p3)
                            } else {
                                match block_from(t, p3, Seq::empty()) {
                                    (Err(e), p4) => (Err(e), p4),
                                    (Ok(body), p4) => (Ok(SpecInst::FnDef(Id::NyNy(n), body)), p4),
                                }
                            },
                        },
                    }
                },
            }
        },
    }
}

/// A variable assignment, after its `nugget`: `nyoom`s naming the variable, `nugget`,
/// then the rest of the expression.
pub open spec fn set_var_from(t: Seq<Token>, p: int) -> (Result<SpecInst, NyoomError>, int)
    decreases t.len() - p, 1nat,
{
    match next_from(t, p) {
        (Err(e), p1) => (Err(e), p1),
        (Ok(tk), p1) => if tk != Token::Prim {
            (Err(fail("Unexpected token in variable declaration")), p1)
        } else {
            match prims_from(t, p1) {
                (Err(e), p2) => (Err(e), p2),
                (Ok(n), p2) => match next_from(t, p2) {
                    (Err(e), p3) => (Err(e), p3),
                    (Ok(tk2), p3) => if tk2 != Token::Sec {
                        (
                            Err(
                                fail(
                                    "Variable declared without value! This is not java you dont do this ever",
                                ),
                            ),
                            p3,
                        )
                    } else {
                        match expr_from(t, p3) {
                            (Err(e), p4) => (Err(e), p4),
                            (Ok((e, _term)), p4) => (Ok(SpecInst::SetVar(Id::NyNy(n), e)), p4),
                        }
                    },
                },
            }
        },
    }
}

/// The rest of a block, `acc` holding the instructions read so far: instructions up to the
/// `I` that closes the block.
pub open spec fn block_from(t: Seq<Token>, p: int, acc: Seq<SpecInst>) -> (
    Result<Seq<SpecInst>, NyoomError>,
    int,
)
    decreases t.len() - p, 2nat,
{
    match peek_from(t, p) {
        Err(e) => (Err(e), p),
        Ok(tk) => if tk == Token::Split {
            (Ok(acc), p + 1)
        } else {
            match inst_from(t, p, true) {
                (Err(e), p2) => (Err(e), p2),
                (Ok(i), p2) => if !(p < p2 <= t.len()) {
                    (Err(stalled()), p2)
                } else {
                    block_from(t, p2, acc.push(i))
                },
            }
        },
    }
}

/// The rest of a program, `acc` holding the instructions read so far: instructions up to
/// the end of the tokens, or up to the first error, which ends the program there.
pub open spec fn program_from(t: Seq<Token>, p: int, acc: Seq<SpecInst>) -> (
    Seq<SpecInst>,
    Option<NyoomError>,
)
    decreases t.len() - p,
{
    if !(0 <= p < t.len()) {
        (acc, None)
    } else {
        match inst_from(t, p, false) {
            (Err(e), _p2) => (acc, Some(e)),
            (Ok(i), p2) => if !(p < p2 <= t.len()) {
                (acc, Some(stalled()))
            } else {
                program_from(t, p2, acc.push(i))
            },
        }
    }
}

/// Whether the cursor stands within its tokens (or just past them).
pub open spec fn in_bounds(v: (Seq<Token>, int)) -> bool {
    0 <= v.1 <= v.0.len()
}

/// Whether the next token is `tok`; at the end, it is not.
fn next_is(iter: &TokenIter, tok: Token) -> (r: bool)
    ensures
        r == (0 <= iter@.1 < iter@.0.len() && iter@.0[iter@.1] == tok),
{
    match iter.peek() {
        Some(t) => *t == tok,
        None => false,
    }
}

/// Reads the `nyoom`s that follow one already read and counts them all.
fn count_prims_and_advance(iter: &mut TokenIter) -> (r: Result<u16, NyoomError>)
    requires
        in_bounds(old(iter)@),
    ensures
        final(iter)@.0 == old(iter)@.0,
        in_bounds(final(iter)@),
        (r, final(iter)@.1) == prims_from(old(iter)@.0, old(iter)@.1),
{
    let ghost t = iter@.0;
    let ghost p0 = iter@.1;
    let mut count: u16 = 1;
    loop
        invariant
            iter@.0 == t,
            t == old(iter)@.0,
            p0 == old(iter)@.1,
            p0 <= iter@.1 <= t.len(),
            count == 1 + (iter@.1 - p0),
            run_of(t, p0, Token::Prim) == (iter@.1 - p0) + run_of(t, iter@.1, Token::Prim),
        decreases t.len() - iter@.1,
    {
        if !next_is(iter, Token::Prim) {
            return Ok(count);
        }
        iter.next();
        match count.checked_add(1) {
            Some(i) => {
                count = i;
            },
            None => {
                return Err(NyoomError::CompileError("Identifier too long", 0));
            },
        }
    }
}

/// Reads the `nyoom`s that follow one already read and counts them all, as a literal.
fn count_prims_and_advance_for_literal(iter: &mut TokenIter) -> (r: Result<u32, NyoomError>)
    requires
        in_bounds(old(iter)@),
    ensures
        final(iter)@.0 == old(iter)@.0,
        in_bounds(final(iter)@),
        (r, final(iter)@.1) == literal_from(old(iter)@.0, old(iter)@.1),
{
    let ghost t = iter@.0;
    let ghost p0 = iter@.1;
    let mut count: u32 = 1;
    loop
        invariant
            iter@.0 == t,
            t == old(iter)@.0,
            p0 == old(iter)@.1,
            p0 <= iter@.1 <= t.len(),
            count == 1 + (iter@.1 - p0),
            run_of(t, p0, Token::Prim) == (iter@.1 - p0) + run_of(t, iter@.1, Token::Prim),
        decreases t.len() - iter@.1,
    {
        if !next_is(iter, Token::Prim) {
            return Ok(count);
        }
        iter.next();
        match count.checked_add(1) {
            Some(i) => {
                count = i;
            },
            None => {
                return Err(
                    NyoomError::CompileError(
                        "Literal too long (thats a long nyoom file nice work)",
                        0,
                    ),
                );
            },
        }
    }
}

/// Reads the `nugget`s that follow one already read and counts them all, stopping when
/// the count reaches `max`.
fn count_secs_and_advance(iter: &mut TokenIter, max: Option<u16>) -> (r: Result<u16, NyoomError>)
    requires
        in_bounds(old(iter)@),
    ensures
        final(iter)@.0 == old(iter)@.0,
        in_bounds(final(iter)@),
        (r, final(iter)@.1) == secs_from(old(iter)@.0, old(iter)@.1, max),
{
    let ghost t = iter@.0;
    let ghost p0 = iter@.1;
    let mut count: u16 = 1;
    loop
        invariant
            iter@.0 == t,
            t == old(iter)@.0,
            p0 == old(iter)@.1,
            p0 <= iter@.1 <= t.len(),
            count == 1 + (iter@.1 - p0),
            run_of(t, p0, Token::Sec) == (iter@.1 - p0) + run_of(t, iter@.1, Token::Sec),
            max is Some && 2 <= max->0 ==> count < max->0,
        decreases t.len() - iter@.1,
    {
        if !next_is(iter, Token::Sec) {
            return Ok(count);
        }
        iter.next();
        match count.checked_add(1) {
            Some(i) => {
                count = i;
                if let Some(m) = max {
                    if i == m {
                        return Ok(count);
                    }
                }
            },
            None => {
                return Err(NyoomError::CompileError("Identifier too long", 0));
            },
        }
    }
}

/// Reads one token and tells whether it is `I`.
fn check_if_split_and_advance(iter: &mut TokenIter) -> (r: Result<bool, NyoomError>)
    requires
        in_bounds(old(iter)@),
    ensures
        final(iter)@.0 == old(iter)@.0,
        in_bounds(final(iter)@),
        (r, final(iter)@.1) == split_from(old(iter)@.0, old(iter)@.1),
{
    match iter.next_err() {
        Ok(t) => Ok(t == Token::Split),
        Err(e) => Err(e),
    }
}

/// The model of an expression parse result.
pub open spec fn expr_result(r: Result<(Expr, Token), NyoomError>) -> Result<
    (SpecExpr, Token),
    NyoomError,
> {
    match r {
        Ok((e, tk)) => Ok((e@, tk)),
        Err(e) => Err(e),
    }
}

/// Parses an expression whose first `nugget` was already read, and returns it with the
/// token that ends it.
fn parse_expression_until(iter: &mut TokenIter) -> (r: Result<(Expr, Token), NyoomError>)
    requires
        in_bounds(old(iter)@),
    ensures
        final(iter)@.0 == old(iter)@.0,
        in_bounds(final(iter)@),
        (expr_result(r), final(iter)@.1) == expr_from(old(iter)@.0, old(iter)@.1),
        r is Ok ==> final(iter)@.1 > old(iter)@.1,
    decreases old(iter)@.0.len() - old(iter)@.1, 0nat,
{
    let ghost t = iter@.0;
    let ghost p0 = iter@.1;
    let count = match count_secs_and_advance(iter, Some(6)) {
        Ok(c) => c,
        Err(e) => {
            return Err(e);
        },
    };
    let ghost p1 = iter@.1;
    proof {
        lemma_run_bound(t, p0, Token::Sec);
    }
    if count == 1 {
        match iter.next_err() {
            Ok(tk) => {
                if tk != Token::Prim {
                    return Err(NyoomError::CompileError("Unexpected token instead of var name", 0));
                }
            },
            Err(e) => {
                return Err(e);
            },
        }
        let name = match count_prims_and_advance(iter) {
            Ok(n) => n,
            Err(e) => {
                return Err(e);
            },
        };
        match iter.next_err() {
            Ok(term) => Ok((Expr::Var(Id::NyNy(name)), term)),
            Err(e) => Err(e),
        }
    } else if count == 2 {
        match iter.next_err() {
            Ok(tk) => {
                if tk != Token::Prim {
                    return Err(NyoomError::CompileError("Unexpected token instead of literal", 0));
                }
            },
            Err(e) => {
                return Err(e);
            },
        }
        let literal = match count_prims_and_advance_for_literal(iter) {
            Ok(n) => n,
            Err(e) => {
                return Err(e);
            },
        };
        match iter.next_err() {
            Ok(term) => Ok((Expr::Int(literal), term)),
            Err(e) => Err(e),
        }
    } else if count == 3 || count == 4 {
        match iter.next_err() {
            Ok(tk) => {
                if tk != Token::Prim {
                    if count == 3 {
                        return Err(
                            NyoomError::CompileError(
                                "Unexpected token instead of local function",
                                0,
                            ),
                        );
                    } else {
                        return Err(
                            NyoomError::CompileError(
                                "Unexpected token instead of global function",
                                0,
                            ),
                        );
                    }
                }
            },
            Err(e) => {
                return Err(e);
            },
        }
        let name = match count_prims_and_advance(iter) {
            Ok(n) => n,
            Err(e) => {
                return Err(e);
            },
        };
        match iter.next_err() {
            Ok(tk) => {
                if tk != Token::Sec {
                    if count == 3 {
                        return Err(
                            NyoomError::CompileError(
                                "Unexpected token following local fn name, what are you splitting?",
                                0,
                            ),
                        );
                    } else {
                        return Err(
                            NyoomError::CompileError(
                                "Unexpected token following global fn name, what are you splitting?",
                                0,
                            ),
                        );
                    }
                }
            },
            Err(e) => {
                return Err(e);
            },
        }
        let (a, term) = match parse_expression_until(iter) {
            Ok(x) => x,
            Err(e) => {
                return Err(e);
            },
        };
        let call = FnCall(Id::NyNy(name), Rc::new(a));
        if count == 3 {
            Ok((Expr::CallLoc(call), term))
        } else {
            Ok((Expr::CallBuiltin(call), term))
        }
    } else if count == 6 {
        let mut vec: Vec<Expr> = Vec::new();
        assert(views_of_exprs(vec@) =~= Seq::<SpecExpr>::empty());
        loop
            invariant
                iter@.0 == t,
                t == old(iter)@.0,
                p0 == old(iter)@.1,
                p0 < p1 <= iter@.1 <= t.len(),
                expr_from(t, p0) == concat_from(t, p1, Seq::empty()),
                concat_from(t, p1, Seq::empty()) == concat_from(
                    t,
                    iter@.1,
                    views_of_exprs(vec@),
                ),
            decreases t.len() - iter@.1,
        {
            let (e, term) = match parse_expression_until(iter) {
                Ok(x) => x,
                Err(e) => {
                    return Err(e);
                },
            };
            let ghost acc = views_of_exprs(vec@);
            vec.push(e);
            assert(views_of_exprs(vec@) =~= acc.push(e@));
            if term == Token::Split {
                return Ok((Expr::Concat(vec), Token::Split));
            }
        }
    } else if count == 5 {
        match iter.next_err() {
            Ok(tk) => {
                if tk == Token::Prim {
                    match iter.next_err() {
                        Ok(next) => {
                            if next != Token::Prim {
                                Ok((Expr::Arg, next))
                            } else {
                                Err(
                                    NyoomError::CompileError(
                                        "A Prim token found in arg reference, this means it is misconstructed",
                                        0,
                                    ),
                                )
                            }
                        },
                        Err(e) => Err(e),
                    }
                } else {
                    Ok((Expr::Arg, Token::Split))
                }
            },
            Err(e) => Err(e),
        }
    } else {
        Err(NyoomError::CompileError("Invalid expression type", 0))
    }
}

/// The model of an instruction parse result.
pub open spec fn inst_result(r: Result<Inst, NyoomError>) -> Result<SpecInst, NyoomError> {
    match r {
        Ok(i) => Ok(i@),
        Err(e) => Err(e),
    }
}

/// The model of a block parse result.
pub open spec fn block_result(r: Result<Block, NyoomError>) -> Result<Seq<SpecInst>, NyoomError> {
    match r {
        Ok(b) => Ok(b@),
        Err(e) => Err(e),
    }
}

/// The model of a parse result that keeps the expression only.
pub open spec fn expr_only(r: (Result<(SpecExpr, Token), NyoomError>, int)) -> (
    Result<SpecExpr, NyoomError>,
    int,
) {
    match r {
        (Ok((e, _tk)), q) => (Ok(e), q),
        (Err(e), q) => (Err(e), q),
    }
}

/// Parses an expression whose first `nugget` was already read; the token that ends it is
/// read and dropped.
fn parse_expression_until_split(iter: &mut TokenIter) -> (r: Result<Expr, NyoomError>)
    requires
        in_bounds(old(iter)@),
    ensures
        final(iter)@.0 == old(iter)@.0,
        in_bounds(final(iter)@),
        (match r {
            Ok(e) => Ok(e@),
            Err(e) => Err(e),
        }, final(iter)@.1) == expr_only(expr_from(old(iter)@.0, old(iter)@.1)),
        r is Ok ==> final(iter)@.1 > old(iter)@.1,
    decreases old(iter)@.0.len() - old(iter)@.1, 1nat,
{
    match parse_expression_until(iter) {
        Ok((e, _term)) => Ok(e),
        Err(e) => Err(e),
    }
}

/// The file that an import of number `import` names.
fn concat_file_name(import: u16) -> (r: String)
    requires
        import >= 1,
    ensures
        r@ == file_name(import),
{
    let mut string = String::new();
    let mut k: u16 = 0;
    proof {
        reveal_strlit("nyoom-");
        reveal_strlit("nyoom.nyny");
    }
    assert(string@ =~= dash_prefix(0));
    while k < import - 1
        invariant
            k <= import - 1,
            string@ == dash_prefix(k as nat),
            "nyoom-"@ =~= seq!['n', 'y', 'o', 'o', 'm', '-'],
        decreases import - 1 - k,
    {
        string.append("nyoom-");
        k = k + 1;
    }
    string.append("nyoom.nyny");
    assert(string@ =~= file_name(import));
    string
}

/// Parses a block whose opening `I` was already read, up to and including its closing `I`.
fn parse_opened_block(iter: &mut TokenIter) -> (r: Result<Block, NyoomError>)
    requires
        in_bounds(old(iter)@),
    ensures
        final(iter)@.0 == old(iter)@.0,
        in_bounds(final(iter)@),
        (block_result(r), final(iter)@.1) == block_from(old(iter)@.0, old(iter)@.1, Seq::empty()),
        r is Ok ==> final(iter)@.1 > old(iter)@.1,
    decreases old(iter)@.0.len() - old(iter)@.1, 2nat,
{
    let ghost t = iter@.0;
    let ghost p0 = iter@.1;
    let mut vec: Vec<Inst> = Vec::new();
    assert(views_of_insts(vec@) =~= Seq::<SpecInst>::empty());
    loop
        invariant
            iter@.0 == t,
            t == old(iter)@.0,
            p0 == old(iter)@.1,
            0 <= p0 <= iter@.1 <= t.len(),
            block_from(t, p0, Seq::empty()) == block_from(t, iter@.1, views_of_insts(vec@)),
        decreases t.len() - iter@.1,
    {
        let is_split = match iter.peek_err() {
            Ok(tk) => *tk == Token::Split,
            Err(e) => {
                return Err(e);
            },
        };
        if is_split {
            iter.next();
            return Ok(Block(vec));
        }
        let inst = match parse_inst(iter, true) {
            Ok(i) => i,
            Err(e) => {
                return Err(e);
            },
        };
        let ghost acc = views_of_insts(vec@);
        vec.push(inst);
        assert(views_of_insts(vec@) =~= acc.push(inst@));
    }
}

/// The contract shared by the instruction parsers: `spec` is the grammar's result from
/// the old position.
pub open spec fn inst_parsed(
    old_iter: (Seq<Token>, int),
    new_iter: (Seq<Token>, int),
    r: Result<Inst, NyoomError>,
    spec: (Result<SpecInst, NyoomError>, int),
) -> bool {
    &&& new_iter.0 == old_iter.0
    &&& in_bounds(new_iter)
    &&& (inst_result(r), new_iter.1) == spec
    &&& r is Ok ==> new_iter.1 > old_iter.1
}

/// Parses an import after its `nyoom nyoom nugget nyoom`.
fn parse_import(iter: &mut TokenIter) -> (r: Result<Inst, NyoomError>)
    requires
        in_bounds(old(iter)@),
    ensures
        inst_parsed(old(iter)@, final(iter)@, r, import_from(old(iter)@.0, old(iter)@.1)),
{
    let import = match count_prims_and_advance(iter) {
        Ok(n) => n,
        Err(e) => {
            return Err(e);
        },
    };
    match check_if_split_and_advance(iter) {
        Ok(true) => Ok(Inst::Import(concat_file_name(import))),
        Ok(false) => Err(NyoomError::CompileError("Unexpected end of import statement", 0)),
        Err(e) => Err(e),
    }
}

/// Parses an alias after its `nyoom nyoom nugget nugget`.
fn parse_alias(iter: &mut TokenIter) -> (r: Result<Inst, NyoomError>)
    requires
        in_bounds(old(iter)@),
    ensures
        inst_parsed(old(iter)@, final(iter)@, r, alias_from(old(iter)@.0, old(iter)@.1)),
{
    let t5 = match iter.next_err() {
        Ok(tk) => tk,
        Err(e) => {
            return Err(e);
        },
    };
    if t5 != Token::Prim {
        return Err(NyoomError::CompileError("An alias statement needs a first name", 0));
    }
    let alias = match count_prims_and_advance(iter) {
        Ok(n) => n,
        Err(e) => {
            return Err(e);
        },
    };
    let t6 = match iter.next_err() {
        Ok(tk) => tk,
        Err(e) => {
            return Err(e);
        },
    };
    if t6 != Token::Sec {
        return Err(NyoomError::CompileError("An alias statement needs a second name", 0));
    }
    let source = match count_prims_and_advance(iter) {
        Ok(n) => n,
        Err(e) => {
            return Err(e);
        },
    };
    match check_if_split_and_advance(iter) {
        Ok(true) => Ok(Inst::Alias(Id::NyNy(alias), Id::NyNy(source))),
        Ok(false) => Err(NyoomError::CompileError("Unexpected end of alias statement", 0)),
        Err(e) => Err(e),
    }
}

/// Parses an `if` or a `while` after its `nyoom nyoom nyoom`.
fn parse_control(iter: &mut TokenIter) -> (r: Result<Inst, NyoomError>)
    requires
        in_bounds(old(iter)@),
    ensures
        inst_parsed(old(iter)@, final(iter)@, r, control_from(old(iter)@.0, old(iter)@.1)),
    decreases old(iter)@.0.len() - old(iter)@.1, 1nat,
{
    let count = match count_prims_and_advance(iter) {
        Ok(n) => n,
        Err(e) => {
            return Err(e);
        },
    };
    match iter.next_err() {
        Ok(tk) => {
            if tk != Token::Sec {
                return Err(
                    NyoomError::CompileError("Expression expected in control flow structure", 0),
                );
            }
        },
        Err(e) => {
            return Err(e);
        },
    }
    let expr = match parse_expression_until_split(iter) {
        Ok(e) => e,
        Err(e) => {
            return Err(e);
        },
    };
    let block = match parse_opened_block(iter) {
        Ok(b) => b,
        Err(e) => {
            return Err(e);
        },
    };
    if count == 1 {
        Ok(Inst::If(expr, block, None))
    } else if count == 2 {
        Ok(Inst::While(expr, block))
    } else {
        Err(
            NyoomError::CompileError(
                "Unexpected strucure following a control flow declaration",
                0,
            ),
        )
    }
}

/// Parses an evaluation, a return or a function definition after its `nyoom nugget`.
fn parse_sec_inst(iter: &mut TokenIter, is_fn: bool) -> (r: Result<Inst, NyoomError>)
    requires
        in_bounds(old(iter)@),
    ensures
        inst_parsed(
            old(iter)@,
            final(iter)@,
            r,
            sec_inst_from(old(iter)@.0, old(iter)@.1, is_fn),
        ),
    decreases old(iter)@.0.len() - old(iter)@.1, 1nat,
{
    let next_is_sec = match iter.peek_err() {
        Ok(tk) => *tk == Token::Sec,
        Err(e) => {
            return Err(e);
        },
    };
    if next_is_sec {
        iter.next();
        let expr = match parse_expression_until_split(iter) {
            Ok(e) => e,
            Err(e) => {
                return Err(e);
            },
        };
        return Ok(Inst::Eval(expr));
    }
    if is_fn {
        let expr = match parse_expression_until_split(iter) {
            Ok(e) => e,
            Err(e) => {
                return Err(e);
            },
        };
        Ok(Inst::Return(expr))
    } else {
        let tk = match iter.next_err() {
            Ok(tk) => tk,
            Err(e) => {
                return Err(e);
            },
        };
        if tk == Token::Prim {
            let count = match count_prims_and_advance(iter) {
                Ok(n) => n,
                Err(e) => {
                    return Err(e);
                },
            };
            let tk2 = match iter.next_err() {
                Ok(tk) => tk,
                Err(e) => {
                    return Err(e);
                },
            };
            if tk2 == Token::Split {
                match parse_opened_block(iter) {
                    Ok(block) => Ok(Inst::FnDef(Id::NyNy(count), block)),
                    Err(e) => Err(e),
                }
            } else {
                Err(NyoomError::CompileError("Expected split to start fn block", 0))
            }
        } else {
            Err(NyoomError::CompileError("Expected function name after function declaration", 0))
        }
    }
}

/// Parses a variable assignment after its `nugget`.
fn parse_set_var(iter: &mut TokenIter) -> (r: Result<Inst, NyoomError>)
    requires
        in_bounds(old(iter)@),
    ensures
        inst_parsed(old(iter)@, final(iter)@, r, set_var_from(old(iter)@.0, old(iter)@.1)),
    decreases old(iter)@.0.len() - old(iter)@.1, 1nat,
{
    let tk = match iter.next_err() {
        Ok(tk) => tk,
        Err(e) => {
            return Err(e);
        },
    };
    if tk != Token::Prim {
        return Err(NyoomError::CompileError("Unexpected token in variable declaration", 0));
    }
    let count = match count_prims_and_advance(iter) {
        Ok(n) => n,
        Err(e) => {
            return Err(e);
        },
    };
    let tk2 = match iter.next_err() {
        Ok(tk) => tk,
        Err(e) => {
            return Err(e);
        },
    };
    if tk2 == Token::Sec {
        match parse_expression_until_split(iter) {
            Ok(expr) => Ok(Inst::SetVar(Id::NyNy(count), expr)),
            Err(e) => Err(e),
        }
    } else {
        Err(
            NyoomError::CompileError(
                "Variable declared without value! This is not java you dont do this ever",
                0,
            ),
        )
    }
}

/// Parses one instruction. `is_fn` says whether it stands in a block.
fn parse_inst(iter: &mut TokenIter, is_fn: bool) -> (r: Result<Inst, NyoomError>)
    requires
        in_bounds(old(iter)@),
    ensures
        inst_parsed(old(iter)@, final(iter)@, r, inst_from(old(iter)@.0, old(iter)@.1, is_fn)),
    decreases old(iter)@.0.len() - old(iter)@.1, 1nat,
{
    let t1 = match iter.next_err() {
        Ok(tk) => tk,
        Err(e) => {
            return Err(e);
        },
    };
    match t1 {
        Token::Prim => {
            let t2 = match iter.next_err() {
                Ok(tk) => tk,
                Err(e) => {
                    return Err(e);
                },
            };
            match t2 {
                Token::Prim => {
                    let t3 = match iter.next_err() {
                        Ok(tk) => tk,
                        Err(e) => {
                            return Err(e);
                        },
                    };
                    match t3 {
                        Token::Sec => {
                            let t4 = match iter.next_err() {
                                Ok(tk) => tk,
                                Err(e) => {
                                    return Err(e);
                                },
                            };
                            match t4 {
                                Token::Prim => parse_import(iter),
                                Token::Sec => parse_alias(iter),
                                Token::Split => Err(
                                    NyoomError::CompileError(
                                        "Nyoom nyoom nugget alone is insufficient, did you mean to write an import?",
                                        0,
                                    ),
                                ),
                            }
                        },
                        Token::Prim => parse_control(iter),
                        Token::Split => Err(
                            NyoomError::CompileError("Nyoom nyoom alone is insufficient", 0),
                        ),
                    }
                },
                Token::Sec => parse_sec_inst(iter, is_fn),
                Token::Split => Err(NyoomError::CompileError("Nyoom alone is not enough", 0)),
            }
        },
        Token::Sec => parse_set_var(iter),
        Token::Split => Err(NyoomError::CompileError("Nothing to split", 0)),
    }
}

/// The instructions of a program, as far as they parse, and the error that ended the parse
/// early, if one did.
pub open spec fn program(t: Seq<Token>) -> (Seq<SpecInst>, Option<NyoomError>) {
    program_from(t, 0, Seq::empty())
}

/// Parses a program: its instructions up to the end of the tokens or up to the first
/// error, together with that error.
pub fn parse_reporting(tokens: Vec<Token>) -> (r: (AST, Option<NyoomError>))
    ensures
        (views_of_insts(r.0@), r.1) == program(tokens@),
{
    let ghost t = tokens@;
    let mut iter = TokenIter::new(tokens);
    let mut vec: Vec<Inst> = Vec::new();
    assert(views_of_insts(vec@) =~= Seq::<SpecInst>::empty());
    loop
        invariant
            iter@.0 == t,
            t == tokens@,
            in_bounds(iter@),
            program(t) == program_from(t, iter@.1, views_of_insts(vec@)),
        decreases t.len() - iter@.1,
    {
        if iter.peek().is_none() {
            return (vec, None);
        }
        let inst = match parse_inst(&mut iter, false) {
            Ok(i) => i,
            Err(e) => {
                return (vec, Some(e));
            },
        };
        let ghost acc = views_of_insts(vec@);
        vec.push(inst);
        assert(views_of_insts(vec@) =~= acc.push(inst@));
    }
}

/// Parses a program. A parse error ends the program early: the instructions before it are
/// returned, and the error is dropped (`parse_reporting` returns it).
pub fn parse(tokens: Vec<Token>) -> (r: Result<AST, NyoomError>)
    ensures
        r is Ok,
        r matches Ok(ast) ==> views_of_insts(ast@) == program(tokens@).0,
{
    let (ast, _error) = parse_reporting(tokens);
    Ok(ast)
}

/// `nyoom-` repeated `k` times has `6 k` characters.
proof fn lemma_dash_prefix_len(k: nat)
    ensures
        dash_prefix(k).len() == 6 * k,
    decreases k,
{
    if k > 0 {
        lemma_dash_prefix_len((k - 1) as nat);
    }
}

/// Distinct import numbers name distinct files, so that a file is linked once whatever
/// number imports it.
pub proof fn law_file_name_injective(a: u16, b: u16)
    requires
        a >= 1,
        b >= 1,
    ensures
        file_name(a) == file_name(b) <==> a == b,
{
    lemma_dash_prefix_len((a - 1) as nat);
    lemma_dash_prefix_len((b - 1) as nat);
    if file_name(a) == file_name(b) {
        assert(file_name(a).len() == file_name(b).len());
    }
}

/// A top-level instruction is never a return: there `nyoom nugget` starts a function
/// definition.
pub proof fn law_top_level_has_no_return(t: Seq<Token>, p: int)
    ensures
        inst_from(t, p, false).0 matches Ok(i) ==> !(i is Return),
{
}

/// An instruction of a block is never a function definition: there `nyoom nugget` starts a
/// return.
pub proof fn law_blocks_define_no_function(t: Seq<Token>, p: int)
    ensures
        inst_from(t, p, true).0 matches Ok(i) ==> !(i is FnDef),
{
}

/// `nyoom nugget nugget` starts an evaluation wherever it stands: in a block it reads as
/// at the top level, and what it reads is an evaluation.
pub proof fn law_evaluation_reads_alike_everywhere(t: Seq<Token>, p: int)
    requires
        0 <= p,
        p + 3 <= t.len(),
        t[p] == Token::Prim,
        t[p + 1] == Token::Sec,
        t[p + 2] == Token::Sec,
    ensures
        inst_from(t, p, true) == inst_from(t, p, false),
        inst_from(t, p, true).0 matches Ok(i) ==> i is Eval,
{
}

/// Whether the `k` tokens from `q` on are all `tok`, and a token other than `tok` follows.
pub open spec fn run_then_other(t: Seq<Token>, q: int, k: int, tok: Token) -> bool {
    &&& 0 <= q
    &&& q + k < t.len()
    &&& (forall|j: int| q <= j < q + k ==> #[trigger] t[j] == tok)
    &&& t[q + k] != tok
}

proof fn lemma_run_exact(t: Seq<Token>, q: int, k: int, tok: Token)
    requires
        0 <= k,
        run_then_other(t, q, k, tok),
    ensures
        run_of(t, q, tok) == k,
    decreases k,
{
    if k > 0 {
        assert(t[q] == tok);
        lemma_run_exact(t, q + 1, k - 1, tok);
    }
}

/// Names and literals count their `nyoom`s: after the first `nugget` of an expression, `k`
/// `nyoom`s make the variable `k`, and one more `nugget` then `k` `nyoom`s make the literal
/// `k`; either ends at the token that follows.
pub proof fn law_names_and_literals_count(t: Seq<Token>, p: int, k: int)
    requires
        1 <= k,
        0 <= p,
    ensures
        run_then_other(t, p, k, Token::Prim) && k < 65536 ==> expr_from(t, p).0 == Ok::<
            (SpecExpr, Token),
            NyoomError,
        >((SpecExpr::Var(Id::NyNy(k as u16)), t[p + k])),
        t[p] == Token::Sec && run_then_other(t, p + 1, k, Token::Prim) && k < 0x1_0000_0000
            ==> expr_from(t, p).0 == Ok::<(SpecExpr, Token), NyoomError>(
            (SpecExpr::Int(k as u32), t[p + 1 + k]),
        ),
{
    if run_then_other(t, p, k, Token::Prim) && k < 65536 {
        assert(t[p] == Token::Prim);
        lemma_run_exact(t, p + 1, k - 1, Token::Prim);
    }
    if p + 1 < t.len() && t[p] == Token::Sec && run_then_other(t, p + 1, k, Token::Prim) && k
        < 0x1_0000_0000 {
        assert(t[p + 1] == Token::Prim);
        assert(run_of(t, p + 1, Token::Sec) == 0);
        assert(run_of(t, p, Token::Sec) == 1);
        lemma_run_exact(t, p + 2, k - 1, Token::Prim);
    }
}

/// Imports and assignments count their `nyoom`s too: `nyoom nyoom nugget`, `k` `nyoom`s and
/// `I` import the file of number `k`; `nugget`, `k` `nyoom`s and `nugget` assign what the
/// expression that follows gives to the variable `k`.
pub proof fn law_imports_and_assignments_count(t: Seq<Token>, p: int, k: int, is_fn: bool)
    requires
        1 <= k < 65536,
        0 <= p,
    ensures
        p + 3 <= t.len() && t[p] == Token::Prim && t[p + 1] == Token::Prim && t[p + 2]
            == Token::Sec && run_then_other(t, p + 3, k, Token::Prim) && t[p + 3 + k]
            == Token::Split ==> inst_from(t, p, is_fn) == (Ok::<SpecInst, NyoomError>(
            SpecInst::Import(file_name(k as u16)),
        ), p + 4 + k),
        t[p] == Token::Sec && run_then_other(t, p + 1, k, Token::Prim) && t[p + 1 + k]
            == Token::Sec ==> inst_from(t, p, is_fn) == match expr_from(t, p + 2 + k) {
            (Ok((e, _term)), q) => (Ok::<SpecInst, NyoomError>(SpecInst::SetVar(Id::NyNy(k as u16), e)), q),
            (Err(e), q) => (Err::<SpecInst, NyoomError>(e), q),
        },
{
    if p + 3 <= t.len() && t[p] == Token::Prim && t[p + 1] == Token::Prim && t[p + 2]
        == Token::Sec && run_then_other(t, p + 3, k, Token::Prim) && t[p + 3 + k]
        == Token::Split {
        assert(t[p + 3] == Token::Prim);
        lemma_run_exact(t, p + 4, k - 1, Token::Prim);
    }
    if t[p] == Token::Sec && run_then_other(t, p + 1, k, Token::Prim) && t[p + 1 + k]
        == Token::Sec {
        assert(t[p + 1] == Token::Prim);
        lemma_run_exact(t, p + 2, k - 1, Token::Prim);
    }
}

proof fn lemma_dash_prefix_front(k: nat)
    requires
        k >= 1,
    ensures
        dash_prefix(k) == seq!['n', 'y', 'o', 'o', 'm', '-'] + dash_prefix((k - 1) as nat),
    decreases k,
{
    if k > 1 {
        lemma_dash_prefix_front((k - 1) as nat);
        assert(dash_prefix(k) =~= seq!['n', 'y', 'o', 'o', 'm', '-'] + dash_prefix(
            (k - 1) as nat,
        ));
    } else {
        assert(dash_prefix(0) =~= Seq::<char>::empty());
        assert(dash_prefix(1) =~= seq!['n', 'y', 'o', 'o', 'm', '-'] + dash_prefix(0));
    }
}

/// Import 1 names `nyoom.nyny`, and each further number puts one more `nyoom-` in front.
pub proof fn law_file_names_grow_by_a_prefix(n: u16)
    requires
        1 <= n < 65535,
    ensures
        file_name(1) == seq!['n', 'y', 'o', 'o', 'm', '.', 'n', 'y', 'n', 'y'],
        file_name((n + 1) as u16) == seq!['n', 'y', 'o', 'o', 'm', '-'] + file_name(n),
{
    assert(dash_prefix(0) =~= Seq::<char>::empty());
    assert(file_name(1) =~= seq!['n', 'y', 'o', 'o', 'm', '.', 'n', 'y', 'n', 'y']);
    lemma_dash_prefix_front(n as nat);
    assert(file_name((n + 1) as u16) =~= seq!['n', 'y', 'o', 'o', 'm', '-'] + file_name(n));
}

/// No instruction of a parsed program is a return.
pub proof fn law_program_has_no_return(t: Seq<Token>, p: int, acc: Seq<SpecInst>)
    requires
        forall|i: int| 0 <= i < acc.len() ==> !(#[trigger] acc[i] is Return),
    ensures
        forall|i: int|
            0 <= i < program_from(t, p, acc).0.len() ==> !(#[trigger] program_from(
                t,
                p,
                acc,
            ).0[i] is Return),
    decreases t.len() - p,
{
    if 0 <= p < t.len() {
        law_top_level_has_no_return(t, p);
        if let (Ok(inst), p2) = inst_from(t, p, false) {
            if p < p2 <= t.len() {
                let acc2 = acc.push(inst);
                assert forall|i: int| 0 <= i < acc2.len() implies !(#[trigger] acc2[i] is Return) by {
                    if i < acc.len() {
                        assert(acc2[i] == acc[i]);
                    }
                }
                law_program_has_no_return(t, p2, acc2);
            }
        }
    }
}

/// A parse result that reads forward: it stops between `p` and the end, past `p` when it
/// succeeds.
pub open spec fn reads_forward<T>(t: Seq<Token>, p: int, r: (Result<T, NyoomError>, int)) -> bool {
    &&& p <= r.1 <= t.len()
    &&& r.0 is Ok ==> p < r.1
}

/// A parse error is a `CompileError` at position 0: the parser does not report where in
/// the tokens it failed.
pub open spec fn errs_at_start<T>(r: Result<T, NyoomError>) -> bool {
    r matches Err(e) ==> (e matches NyoomError::CompileError(_, at) && at == 0)
}

/// The token that ends a parsed expression is never a `nyoom`.
pub open spec fn ends_without_prim(r: Result<(SpecExpr, Token), NyoomError>) -> bool {
    r matches Ok((_e, term)) ==> term != Token::Prim
}

/// A run of `tok` stops at a token other than `tok`, or at the end.
proof fn lemma_run_end(t: Seq<Token>, p: int, tok: Token)
    requires
        0 <= p,
    ensures
        !(p + run_of(t, p, tok) < t.len() && t[p + run_of(t, p, tok)] == tok),
    decreases t.len() - p,
{
    if p < t.len() && t[p] == tok {
        lemma_run_end(t, p + 1, tok);
    }
}

/// The counting steps read forward, stay within the tokens, fail only at position 0, and
/// the counts of `nyoom`s stop short of a `nyoom`.
proof fn lemma_counts_forward(t: Seq<Token>, p: int)
    requires
        0 <= p <= t.len(),
    ensures
        p <= prims_from(t, p).1 <= t.len(),
        p <= literal_from(t, p).1 <= t.len(),
        p <= secs_from(t, p, Some(6u16)).1 <= t.len(),
        reads_forward(t, p, next_from(t, p)),
        reads_forward(t, p, split_from(t, p)),
        errs_at_start(prims_from(t, p).0),
        errs_at_start(literal_from(t, p).0),
        errs_at_start(secs_from(t, p, Some(6u16)).0),
        errs_at_start(next_from(t, p).0),
        errs_at_start(split_from(t, p).0),
        prims_from(t, p).0 is Ok ==> !(prims_from(t, p).1 < t.len() && t[prims_from(t, p).1]
            == Token::Prim),
        literal_from(t, p).0 is Ok ==> !(literal_from(t, p).1 < t.len() && t[literal_from(
            t,
            p,
        ).1] == Token::Prim),
{
    lemma_run_bound(t, p, Token::Prim);
    lemma_run_bound(t, p, Token::Sec);
    lemma_run_end(t, p, Token::Prim);
}

proof fn lemma_expr_forward(t: Seq<Token>, p: int)
    requires
        0 <= p <= t.len(),
    ensures
        reads_forward(t, p, expr_from(t, p)),
        errs_at_start(expr_from(t, p).0),
        ends_without_prim(expr_from(t, p).0),
    decreases t.len() - p, 0nat,
{
    lemma_counts_forward(t, p);
    let (c, p1) = secs_from(t, p, Some(6u16));
    lemma_counts_forward(t, p1);
    if let Ok(count) = c {
        let (r2, p2) = next_from(t, p1);
        if r2 is Ok {
            lemma_counts_forward(t, p2);
            let p3 = prims_from(t, p2).1;
            lemma_counts_forward(t, p3);
            let p3l = literal_from(t, p2).1;
            lemma_counts_forward(t, p3l);
            if count == 3 || count == 4 {
                let p4 = next_from(t, p3).1;
                if next_from(t, p3).0 is Ok && p4 < t.len() + 1 {
                    lemma_expr_forward(t, p4);
                }
            }
        }
        if count == 6 {
            lemma_run_bound(t, p, Token::Sec);
            lemma_concat_forward(t, p1, Seq::empty());
        }
    }
}

proof fn lemma_concat_forward(t: Seq<Token>, p: int, acc: Seq<SpecExpr>)
    requires
        0 <= p <= t.len(),
    ensures
        reads_forward(t, p, concat_from(t, p, acc)),
        errs_at_start(concat_from(t, p, acc).0),
        ends_without_prim(concat_from(t, p, acc).0),
    decreases t.len() - p, 1nat,
{
    lemma_expr_forward(t, p);
    let (r, p2) = expr_from(t, p);
    if let Ok((e, term)) = r {
        if p < p2 <= t.len() && term != Token::Split {
            lemma_concat_forward(t, p2, acc.push(e));
        }
    }
}

proof fn lemma_inst_forward(t: Seq<Token>, p: int, is_fn: bool)
    requires
        0 <= p <= t.len(),
    ensures
        reads_forward(t, p, inst_from(t, p, is_fn)),
        errs_at_start(inst_from(t, p, is_fn).0),
    decreases t.len() - p, 1nat,
{
    lemma_counts_forward(t, p);
    let p1 = p + 1;
    if p < t.len() {
        lemma_counts_forward(t, p1);
        if p1 < t.len() {
            let p2 = p1 + 1;
            lemma_counts_forward(t, p2);
            if p2 < t.len() {
                let p3 = p2 + 1;
                lemma_counts_forward(t, p3);
                if p3 < t.len() {
                    let p4 = p3 + 1;
                    lemma_counts_forward(t, p4);
                    lemma_import_alias_forward(t, p4);
                }
                lemma_control_forward(t, p3);
            }
            lemma_sec_inst_forward(t, p2, is_fn);
        }
        lemma_set_var_forward(t, p1);
    }
}

proof fn lemma_import_alias_forward(t: Seq<Token>, p: int)
    requires
        0 <= p <= t.len(),
    ensures
        reads_forward(t, p, import_from(t, p)),
        reads_forward(t, p, alias_from(t, p)),
        errs_at_start(import_from(t, p).0),
        errs_at_start(alias_from(t, p).0),
{
    lemma_counts_forward(t, p);
    let p1 = prims_from(t, p).1;
    lemma_counts_forward(t, p1);
    let (r, q1) = next_from(t, p);
    lemma_counts_forward(t, q1);
    let q2 = prims_from(t, q1).1;
    lemma_counts_forward(t, q2);
    let q3 = next_from(t, q2).1;
    lemma_counts_forward(t, q3);
    let q4 = prims_from(t, q3).1;
    lemma_counts_forward(t, q4);
}

proof fn lemma_control_forward(t: Seq<Token>, p: int)
    requires
        0 <= p <= t.len(),
    ensures
        reads_forward(t, p, control_from(t, p)),
        errs_at_start(control_from(t, p).0),
    decreases t.len() - p, 1nat,
{
    lemma_counts_forward(t, p);
    let p1 = prims_from(t, p).1;
    lemma_counts_forward(t, p1);
    let (r2, p2) = next_from(t, p1);
    if r2 is Ok {
        lemma_expr_forward(t, p2);
        let p3 = expr_from(t, p2).1;
        if p < p3 <= t.len() {
            lemma_block_forward(t, p3, Seq::empty());
        }
    }
}

proof fn lemma_sec_inst_forward(t: Seq<Token>, p: int, is_fn: bool)
    requires
        0 <= p <= t.len(),
    ensures
        reads_forward(t, p, sec_inst_from(t, p, is_fn)),
        errs_at_start(sec_inst_from(t, p, is_fn).0),
    decreases t.len() - p, 1nat,
{
    lemma_counts_forward(t, p);
    if p < t.len() {
        lemma_expr_forward(t, p + 1);
        lemma_expr_forward(t, p);
        let p1 = p + 1;
        lemma_counts_forward(t, p1);
        let p2 = prims_from(t, p1).1;
        lemma_counts_forward(t, p2);
        let (r3, p3) = next_from(t, p2);
        if r3 is Ok {
            lemma_block_forward(t, p3, Seq::empty());
        }
    }
}

proof fn lemma_set_var_forward(t: Seq<Token>, p: int)
    requires
        0 <= p <= t.len(),
    ensures
        reads_forward(t, p, set_var_from(t, p)),
        errs_at_start(set_var_from(t, p).0),
    decreases t.len() - p, 1nat,
{
    lemma_counts_forward(t, p);
    let (r1, p1) = next_from(t, p);
    lemma_counts_forward(t, p1);
    let p2 = prims_from(t, p1).1;
    lemma_counts_forward(t, p2);
    let (r3, p3) = next_from(t, p2);
    if r3 is Ok && r1 is Ok {
        lemma_expr_forward(t, p3);
    }
}

proof fn lemma_block_forward(t: Seq<Token>, p: int, acc: Seq<SpecInst>)
    requires
        0 <= p <= t.len(),
    ensures
        reads_forward(t, p, block_from(t, p, acc)),
        errs_at_start(block_from(t, p, acc).0),
    decreases t.len() - p, 2nat,
{
    if p < t.len() && t[p] != Token::Split {
        lemma_inst_forward(t, p, true);
        let (r, p2) = inst_from(t, p, true);
        if let Ok(i) = r {
            if p < p2 <= t.len() {
                lemma_block_forward(t, p2, acc.push(i));
            }
        }
    }
}

/// Parsing reads forward: every expression, instruction and block parse stops between its
/// start and the end of the tokens, and one that succeeds reads at least one token. So no
/// parse ever stops without reading.
pub proof fn law_parse_reads_forward(t: Seq<Token>, p: int, is_fn: bool)
    requires
        0 <= p <= t.len(),
    ensures
        reads_forward(t, p, expr_from(t, p)),
        reads_forward(t, p, inst_from(t, p, is_fn)),
        reads_forward(t, p, block_from(t, p, Seq::empty())),
{
    lemma_expr_forward(t, p);
    lemma_inst_forward(t, p, is_fn);
    lemma_block_forward(t, p, Seq::empty());
}

/// An expression ends at a `nugget` or an `I`, never at a `nyoom`, and every parse error,
/// of an expression, an instruction, a block or a whole program, is a `CompileError` at
/// position 0, wherever the parse starts.
pub proof fn law_parse_errors_and_terminators(t: Seq<Token>, p: int, is_fn: bool)
    ensures
        ends_without_prim(expr_from(t, p).0),
        errs_at_start(expr_from(t, p).0),
        errs_at_start(inst_from(t, p, is_fn).0),
        errs_at_start(block_from(t, p, Seq::empty()).0),
        program(t).1 matches Some(e) ==> (e matches NyoomError::CompileError(_, at) && at == 0),
{
    if 0 <= p <= t.len() {
        lemma_expr_forward(t, p);
        lemma_inst_forward(t, p, is_fn);
        lemma_block_forward(t, p, Seq::empty());
    } else {
        assert(run_of(t, p, Token::Sec) == 0);
    }
    lemma_program_errs(t, 0, Seq::empty());
}

/// An import that the parser reads names a file of some number from 1 on.
proof fn lemma_inst_import_named(t: Seq<Token>, p: int, is_fn: bool)
    ensures
        inst_from(t, p, is_fn).0 matches Ok(SpecInst::Import(name)) ==> file_named(name),
{
    if 0 <= p && p + 4 <= t.len() {
        let p4 = p + 4;
        if let (Ok(n), _q) = prims_from(t, p4) {
            assert(1 <= n);
            assert(file_named(file_name(n)));
        }
    }
}

/// Every import of a parsed program names a file of some number from 1 on: the linker is
/// only ever asked for such files.
pub proof fn law_parsed_imports_named(t: Seq<Token>)
    ensures
        imports_named(program(t).0),
{
    lemma_program_imports_named(t, 0, Seq::empty());
}

proof fn lemma_program_imports_named(t: Seq<Token>, p: int, acc: Seq<SpecInst>)
    requires
        imports_named(acc),
    ensures
        imports_named(program_from(t, p, acc).0),
    decreases t.len() - p,
{
    if 0 <= p < t.len() {
        lemma_inst_import_named(t, p, false);
        if let (Ok(i), p2) = inst_from(t, p, false) {
            if p < p2 <= t.len() {
                let acc2 = acc.push(i);
                assert(imports_named(acc2)) by {
                    assert forall|k: int| 0 <= k < acc2.len() implies (#[trigger] acc2[k] matches SpecInst::Import(
                        name,
                    ) ==> file_named(name)) by {
                        if k < acc.len() {
                            assert(acc2[k] == acc[k]);
                        }
                    }
                }
                lemma_program_imports_named(t, p2, acc2);
            }
        }
    }
}

/// A program's error, if it has one, is a `CompileError` at position 0.
proof fn lemma_program_errs(t: Seq<Token>, p: int, acc: Seq<SpecInst>)
    ensures
        program_from(t, p, acc).1 matches Some(e) ==> (e matches NyoomError::CompileError(_, at)
            && at == 0),
    decreases t.len() - p,
{
    if 0 <= p < t.len() {
        lemma_inst_forward(t, p, false);
        if let (Ok(i), p2) = inst_from(t, p, false) {
            if p < p2 <= t.len() {
                lemma_program_errs(t, p2, acc.push(i));
            }
        }
    }
}

} // verus!
