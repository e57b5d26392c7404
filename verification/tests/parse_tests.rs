use lib::parse::{parse, parse_reporting};
use lib::scan::Token;
use lib::{NyoomError, TokenIter};

const P: Token = Token::Prim;
const S: Token = Token::Sec;
const I: Token = Token::Split;

fn rep(t: Token, n: usize) -> Vec<Token> {
    vec![t; n]
}

fn cat(parts: Vec<Vec<Token>>) -> Vec<Token> {
    parts.concat()
}

fn shown(tokens: Vec<Token>) -> String {
    format!("{:?}", parse(tokens).unwrap())
}

fn error_of(tokens: Vec<Token>) -> NyoomError {
    parse_reporting(tokens).1.expect("an error")
}

fn assert_compile_error(tokens: Vec<Token>, expected: &str) {
    match error_of(tokens) {
        NyoomError::CompileError(msg, pos) => {
            assert_eq!(msg, expected);
            assert_eq!(pos, 0);
        }
        other => panic!("unexpected {:?}", other),
    }
}

#[test]
fn parses_an_assignment_of_a_literal() {
    // nugget nyoom nugget nugget nyoom nyoom nyoom I
    let t = cat(vec![vec![S, P, S, S], rep(P, 3), vec![I]]);
    assert_eq!(shown(t), "[SetVar(NyNy(1), Int(3))]");
}

#[test]
fn parses_a_variable_and_a_builtin_call() {
    // evaluate builtin 7 applied to variable 2
    let t = cat(vec![vec![P, S, S], rep(S, 3), rep(P, 7), vec![S], rep(P, 2), vec![I]]);
    assert_eq!(shown(t), "[Eval(CallBuiltin(FnCall(NyNy(7), Var(NyNy(2)))))]");
}

#[test]
fn parses_a_local_call_with_a_literal_argument() {
    let t = cat(vec![vec![P, S, S], rep(S, 2), rep(P, 1), vec![S, S], rep(P, 4), vec![I]]);
    assert_eq!(shown(t), "[Eval(CallLoc(FnCall(NyNy(1), Int(4))))]");
}

#[test]
fn parses_a_concatenation() {
    // Concat of variable 1 and literal 2; the parts are separated by a nugget.
    let t = cat(vec![vec![S, P, S], rep(S, 5), vec![P, S, S, P, P, I]]);
    assert_eq!(shown(t), "[SetVar(NyNy(1), Concat([Var(NyNy(1)), Int(2)]))]");
}

#[test]
fn parses_the_argument_reference() {
    // nugget nyoom nugget + four nuggets + nyoom, then the terminating I
    let t = cat(vec![vec![S, P, S], rep(S, 4), vec![P, I]]);
    assert_eq!(shown(t), "[SetVar(NyNy(1), Arg)]");
    // a token other than nyoom after the five nuggets ends the reference
    let t = cat(vec![vec![S, P, S], rep(S, 4), vec![I]]);
    assert_eq!(shown(t), "[SetVar(NyNy(1), Arg)]");
}

#[test]
fn parses_if_and_while() {
    let body = cat(vec![vec![S, P, S, S, P, I]]);
    let t = cat(vec![vec![P, P, P, S, P, I], body.clone(), vec![I]]);
    assert_eq!(shown(t), "[If(Var(NyNy(1)), Block([SetVar(NyNy(1), Int(1))]), None)]");
    let t = cat(vec![vec![P, P, P, P, S, P, I], body, vec![I]]);
    assert_eq!(shown(t), "[While(Var(NyNy(1)), Block([SetVar(NyNy(1), Int(1))]))]");
}

#[test]
fn parses_a_function_definition_with_a_return() {
    // nyoom nugget nyoom nyoom I   (return variable 1)   I
    let t = vec![P, S, P, P, I, P, S, P, I, I];
    assert_eq!(shown(t), "[FnDef(NyNy(2), Block([Return(Var(NyNy(1)))]))]");
}

#[test]
fn parses_an_alias_and_imports() {
    // after the nugget the builtin's count starts at one: six nyooms name builtin 7
    let t = cat(vec![vec![P, P, S, S, P, S], rep(P, 6), vec![I]]);
    assert_eq!(shown(t), "[Alias(NyNy(1), NyNy(7))]");
    let t = vec![P, P, S, S, P, S, I];
    assert_eq!(shown(t), "[Alias(NyNy(1), NyNy(1))]");
    let t = vec![P, P, S, P, I, P, P, S, P, P, P, I];
    assert_eq!(shown(t), "[Import(\"nyoom.nyny\"), Import(\"nyoom-nyoom-nyoom.nyny\")]");
}

#[test]
fn a_parse_error_keeps_the_instructions_before_it() {
    let t = vec![S, P, S, S, P, I, I, S, P, S, S, P, I];
    let (ast, error) = parse_reporting(t.clone());
    assert_eq!(format!("{:?}", ast), "[SetVar(NyNy(1), Int(1))]");
    match error {
        Some(NyoomError::CompileError(msg, 0)) => assert_eq!(msg, "Nothing to split"),
        other => panic!("unexpected {:?}", other),
    }
    assert_eq!(shown(t), "[SetVar(NyNy(1), Int(1))]");
}

#[test]
fn parse_of_no_tokens_is_empty() {
    let (ast, error) = parse_reporting(Vec::new());
    assert!(ast.is_empty());
    assert!(error.is_none());
}

#[test]
fn instruction_errors() {
    assert_compile_error(vec![I], "Nothing to split");
    assert_compile_error(vec![P, I], "Nyoom alone is not enough");
    assert_compile_error(vec![P, P, I], "Nyoom nyoom alone is insufficient");
    assert_compile_error(
        vec![P, P, S, I],
        "Nyoom nyoom nugget alone is insufficient, did you mean to write an import?",
    );
    assert_compile_error(vec![P, P, S, P, S], "Unexpected end of import statement");
    assert_compile_error(vec![P, P, S, S, S], "An alias statement needs a first name");
    assert_compile_error(vec![P, P, S, S, P, P, I], "An alias statement needs a second name");
    assert_compile_error(vec![P, P, S, S, P, S, P, S], "Unexpected end of alias statement");
    assert_compile_error(vec![P, P, P, I], "Expression expected in control flow structure");
    assert_compile_error(
        vec![P, P, P, P, P, S, P, I, I],
        "Unexpected strucure following a control flow declaration",
    );
    assert_compile_error(vec![P, S, P, S], "Expected split to start fn block");
    assert_compile_error(vec![P, S, I], "Expected function name after function declaration");
    assert_compile_error(
        vec![S, P, P, I],
        "Variable declared without value! This is not java you dont do this ever",
    );
    assert_compile_error(vec![S, S], "Unexpected token in variable declaration");
    assert_compile_error(vec![P], "Iterator did not find token");
    assert_compile_error(vec![S, P, S], "Iterator did not find token");
}

#[test]
fn expression_errors() {
    assert_compile_error(vec![S, P, S, I], "Unexpected token instead of var name");
    assert_compile_error(vec![S, P, S, S, I], "Unexpected token instead of literal");
    assert_compile_error(vec![S, P, S, S, S, I], "Unexpected token instead of local function");
    assert_compile_error(vec![S, P, S, S, S, S, I], "Unexpected token instead of global function");
    assert_compile_error(
        vec![S, P, S, S, S, P, I],
        "Unexpected token following local fn name, what are you splitting?",
    );
    assert_compile_error(
        vec![S, P, S, S, S, S, P, I],
        "Unexpected token following global fn name, what are you splitting?",
    );
    assert_compile_error(
        cat(vec![vec![S, P, S], rep(S, 4), vec![P, P]]),
        "A Prim token found in arg reference, this means it is misconstructed",
    );
}

#[test]
fn a_name_longer_than_a_u16_counts_is_refused() {
    let t = cat(vec![vec![S], rep(P, 65535), vec![S, P, I]]);
    assert_eq!(shown(t), "[SetVar(NyNy(65535), Var(NyNy(1)))]");
    let t = cat(vec![vec![S], rep(P, 65536), vec![S, P, I]]);
    assert_compile_error(t, "Identifier too long");
}

#[test]
fn the_block_of_a_function_treats_nyoom_nugget_as_a_return() {
    // at the top level `nyoom nugget nyoom` starts a definition; in a block, a return
    let t = vec![P, S, P, I, P, S, P, I, I];
    let shown_ast = shown(t);
    assert!(shown_ast.starts_with("[FnDef"));
    assert!(shown_ast.contains("Return"));
}

#[test]
fn token_iter_peeks_without_reading() {
    let mut it = TokenIter::new(vec![P, S]);
    assert_eq!(it.peek(), Some(&P));
    assert_eq!(it.peek(), Some(&P));
    assert_eq!(it.next(), Some(P));
    assert_eq!(*it.peek_err().unwrap(), S);
    assert_eq!(it.next_err().unwrap(), S);
    assert_eq!(it.peek(), None);
    assert!(it.peek_err().is_err());
    assert!(it.next().is_none());
    match it.next_err() {
        Err(NyoomError::CompileError(msg, 0)) => assert_eq!(msg, "Iterator did not find token"),
        other => panic!("unexpected {:?}", other),
    }
}

#[test]
fn token_iter_from_tokens_starts_at_the_first() {
    let mut it = TokenIter::from(vec![I, P]);
    assert_eq!(it.next(), Some(I));
    assert_eq!(it.next(), Some(P));
    assert_eq!(it.next(), None);
}

#[test]
fn distinct_import_numbers_name_distinct_files() {
    let mut names = Vec::new();
    for n in 1..6usize {
        let t = cat(vec![vec![P, P, S], rep(P, n), vec![I]]);
        names.push(shown(t));
    }
    for a in 0..names.len() {
        for b in 0..names.len() {
            assert_eq!(names[a] == names[b], a == b);
        }
    }
}

#[test]
fn an_expression_ends_at_a_nugget_or_an_i() {
    // nugget nyoom nugget nugget nyoom nyoom | nugget: the literal 2 ends at the nugget,
    // which is read with it; then nugget nyoom nugget nugget nyoom | I
    let t = cat(vec![vec![S, P, S, S, P, P, S], vec![S, P, S, S, P, I]]);
    assert_eq!(shown(t), "[SetVar(NyNy(1), Int(2)), SetVar(NyNy(1), Int(1))]");
}

#[test]
fn every_parse_error_is_at_position_zero() {
    for tokens in [
        vec![I],
        vec![P],
        vec![S, S],
        vec![P, P, S, I],
        vec![S, P, S, S, S, S, S, S, S, S],
        vec![P, P, P, S, S, S, P, I],
    ] {
        match error_of(tokens) {
            NyoomError::CompileError(_, pos) => assert_eq!(pos, 0),
            other => panic!("unexpected {:?}", other),
        }
    }
}
