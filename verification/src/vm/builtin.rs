//! The builtin functions, and the tables that name them.
use std::collections::HashMap;
use vstd::prelude::*;
use vstd::utf8::is_scalar;
use crate::vm::value::{VarContent, Value, lemma_views_of_values};
use crate::{ErrorModel, NyoomError};

verus! {

broadcast use {vstd::std_specs::hash::group_hash_axioms, lemma_views_of_values};

/// What a builtin function returns: a value, or an error.
pub type FnResult = Result<VarContent, NyoomError>;

/// The model of a builtin's result.
pub open spec fn fn_result(r: FnResult) -> Result<Value, ErrorModel> {
    match r {
        Ok(v) => Ok(v@),
        Err(e) => Err(e@),
    }
}

/// The builtin functions.
#[derive(Debug, Clone, Copy, PartialEq, Eq, Structural)]
pub enum Builtin {
    Add,
    Subtract,
    Multiply,
    Divide,
    Lenght,
    Index,
    Print,
}

/// A table from builtin numbers to builtin functions.
pub struct Builtins {
    table: HashMap<u16, Builtin>,
}

impl View for Builtins {
    type V = Map<u16, Builtin>;

    closed spec fn view(&self) -> Map<u16, Builtin> {
        self.table@
    }
}

/// The default table: 1 add, 2 subtract, 3 multiply, 4 divide, 5 array length, 6 index,
/// 7 print.
pub open spec fn default_table() -> Map<u16, Builtin> {
    map![
        1u16 => Builtin::Add,
        2u16 => Builtin::Subtract,
        3u16 => Builtin::Multiply,
        4u16 => Builtin::Divide,
        5u16 => Builtin::Lenght,
        6u16 => Builtin::Index,
        7u16 => Builtin::Print,
    ]
}

impl Builtins {
    /// A table with no builtins.
    pub fn new() -> (r: Self)
        ensures
            r@ == Map::<u16, Builtin>::empty(),
    {
        Builtins { table: HashMap::new() }
    }

    /// Adds (or replaces) the builtin of number `id`.
    pub fn insert(&mut self, id: u16, b: Builtin)
        ensures
            final(self)@ == old(self)@.insert(id, b),
    {
        self.table.insert(id, b);
    }

    /// The builtin of number `id`, if there is one.
    pub fn get(&self, id: u16) -> (r: Option<Builtin>)
        ensures
            r == (if self@.contains_key(id) {
                Some(self@[id])
            } else {
                None
            }),
    {
        match self.table.get(&id) {
            Some(b) => Some(*b),
            None => None,
        }
    }

    /// The default table of builtins.
    pub fn default_builtins() -> (r: Self)
        ensures
            r@ == default_table(),
    {
        let mut b = Builtins::new();
        b.insert(1, Builtin::Add);
        b.insert(2, Builtin::Subtract);
        b.insert(3, Builtin::Multiply);
        b.insert(4, Builtin::Divide);
        b.insert(5, Builtin::Lenght);
        b.insert(6, Builtin::Index);
        b.insert(7, Builtin::Print);
        assert(b@ =~= default_table());
        b
    }
}

/// The two integers at the start of an array argument, if it starts with two integers.
pub open spec fn int_pair(v: Value) -> Option<(i32, i32)> {
    match v {
        Value::Array(s) => if s.len() >= 2 {
            match (s[0], s[1]) {
                (Value::Int(a), Value::Int(b)) => Some((a, b)),
                _ => None,
            }
        } else {
            None
        },
        _ => None,
    }
}

/// The absolute value of an integer.
pub open spec fn abs(x: int) -> int {
    if x < 0 {
        -x
    } else {
        x
    }
}

/// Division that rounds toward zero, as `/` does on Rust's integers: the quotient of the
/// absolute values, negated where the signs differ. Division by zero is left at zero here;
/// the divide builtin never reaches it.
pub open spec fn trunc_div(x: int, y: int) -> int {
    if y == 0 {
        0
    } else if (x < 0) == (y < 0) {
        abs(x) / abs(y)
    } else {
        -(abs(x) / abs(y))
    }
}

/// The exact result of an arithmetic builtin on two integers.
pub open spec fn arith_exact(b: Builtin, x: i32, y: i32) -> int {
    match b {
        Builtin::Add => x + y,
        Builtin::Subtract => x - y,
        Builtin::Multiply => x * y,
        _ => trunc_div(x as int, y as int),
    }
}

/// The type error of an arithmetic builtin.
pub open spec fn arith_type_error(b: Builtin) -> ErrorModel {
    match b {
        Builtin::Add => ErrorModel::BuiltinFnTypeError("Expected type ARRAY OF INT AND INT for ADD"),
        Builtin::Subtract => ErrorModel::BuiltinFnTypeError(
            "Expected type ARRAY OF INT AND INT for SUBTRACT",
        ),
        Builtin::Multiply => ErrorModel::BuiltinFnTypeError(
            "Expected type ARRAY OF INT AND INT for MULTIPLY",
        ),
        _ => ErrorModel::BuiltinFnTypeError("Expected type ARRAY OF INT AND INT for DIVIDE"),
    }
}

/// Whether an arithmetic builtin overflows `i32` on this argument.
pub open spec fn arith_overflows(b: Builtin, v: Value) -> bool {
    match int_pair(v) {
        Some((x, y)) => !(i32::MIN <= arith_exact(b, x, y) <= i32::MAX),
        None => false,
    }
}

/// Whether the divide builtin is asked to divide by zero.
pub open spec fn divides_by_zero(b: Builtin, v: Value) -> bool {
    match int_pair(v) {
        Some((x, y)) => b == Builtin::Divide && y == 0,
        None => false,
    }
}

/// The result of an arithmetic builtin, where it neither overflows nor divides by zero.
pub open spec fn arith_result(b: Builtin, v: Value) -> Result<Value, ErrorModel> {
    match int_pair(v) {
        Some((x, y)) => Ok(Value::Int(arith_exact(b, x, y) as i32)),
        None => Err(arith_type_error(b)),
    }
}

/// The result of the array length builtin.
pub open spec fn lenght_result(v: Value) -> Result<Value, ErrorModel> {
    match v {
        Value::Array(s) => Ok(Value::Int(s.len() as i32)),
        _ => Err(ErrorModel::BuiltinFnTypeError("Expected type ARRAY for ARRAY LENGHT")),
    }
}

/// The result of the index builtin: the argument is an array of an index and an array.
pub open spec fn index_result(v: Value) -> Result<Value, ErrorModel> {
    match v {
        Value::Array(s) => if s.len() >= 2 {
            match (s[0], s[1]) {
                (Value::Int(i), Value::Array(w)) => if i < 0 {
                    Err(ErrorModel::NoSuchElementError("Index is negative", i, w.len() as usize))
                } else if i < w.len() {
                    Ok(w[i as int])
                } else {
                    Err(
                        ErrorModel::NoSuchElementError(
                            "Array does not contain this element",
                            i,
                            w.len() as usize,
                        ),
                    )
                },
                _ => Err(
                    ErrorModel::BuiltinFnTypeError("Expected type ARRAY OF INT AND ARRAY for INDEX"),
                ),
            }
        } else {
            Err(ErrorModel::BuiltinFnTypeError("Expected type ARRAY OF INT AND ARRAY for INDEX"))
        },
        _ => Err(ErrorModel::BuiltinFnTypeError("Expected type ARRAY OF INT AND ARRAY for INDEX")),
    }
}

/// The character that the print builtin prints: the argument must be a positive integer
/// that is a Unicode scalar value.
pub open spec fn print_result(v: Value) -> Result<char, ErrorModel> {
    match v {
        Value::Int(i) => if i > 0 && is_scalar(i as u32) {
            Ok((i as u32) as char)
        } else {
            Err(
                ErrorModel::InvalidArgumentError(
                    "INT must be a valid UTF-8 scalar value to be printed",
                    v,
                ),
            )
        },
        _ => Err(ErrorModel::BuiltinFnTypeError("Expected type INT for PRINT")),
    }
}

/// `char::from_u32`: the character of a code point, if the code point is a Unicode scalar
/// value.
///
/// Trusted: the contract states std's documented behaviour, `None` exactly for surrogates
/// and for values past `0x10FFFF`, with vstd's definition of a scalar value.
#[verifier::external_body]
fn char_from_u32(i: u32) -> (r: Option<char>)
    ensures
        r is Some <==> is_scalar(i),
        r matches Some(c) ==> c as u32 == i,
{
    char::from_u32(i)
}

/// The two integers at the start of an array argument, if it starts with two integers.
pub(crate) fn ints_of(arg: &VarContent) -> (r: Option<(i32, i32)>)
    ensures
        r == int_pair(arg@),
{
    if let VarContent::Array(vec) = arg {
        proof {
            lemma_views_of_values(vec@);
        }
        if vec.len() >= 2 {
            if let (VarContent::Int(a), VarContent::Int(b)) = (&vec[0], &vec[1]) {
                return Some((*a, *b));
            }
        }
    }
    None
}

/// Computes `trunc_div(x, y)` for a nonzero divisor, in a width where it always fits.
fn wide_trunc_div(x: i32, y: i32) -> (r: i64)
    requires
        y != 0,
    ensures
        r == trunc_div(x as int, y as int),
        -0x8000_0000 <= r <= 0x8000_0000,
{
    let ax: i64 = if x < 0 { -(x as i64) } else { x as i64 };
    let ay: i64 = if y < 0 { -(y as i64) } else { y as i64 };
    let q: i64 = ax / ay;
    assert(0 <= q <= ax) by (nonlinear_arith)
        requires
            0 <= ax,
            1 <= ay,
            q == ax / ay,
    ;
    if (x < 0) == (y < 0) {
        q
    } else {
        -q
    }
}

/// Computes `divides_by_zero(b, arg@)` for an arithmetic builtin `b`.
pub(crate) fn zero_divisor(b: Builtin, arg: &VarContent) -> (r: bool)
    ensures
        r == divides_by_zero(b, arg@),
{
    match ints_of(arg) {
        Some((_, y)) => b == Builtin::Divide && y == 0,
        None => false,
    }
}

/// Computes `arith_overflows(b, arg@)` for an arithmetic builtin `b`.
pub(crate) fn arith_overflow(b: Builtin, arg: &VarContent) -> (r: bool)
    ensures
        r == arith_overflows(b, arg@),
{
    match ints_of(arg) {
        Some((x, y)) => {
            let wide: i64 = match b {
                Builtin::Add => x as i64 + y as i64,
                Builtin::Subtract => x as i64 - y as i64,
                Builtin::Multiply => {
                    assert(-0x4000_0000_0000_0000 <= (x as int) * (y as int) <= 0x4000_0000_0000_0000)
                        by (nonlinear_arith)
                        requires
                            i32::MIN <= x <= i32::MAX,
                            i32::MIN <= y <= i32::MAX,
                    ;
                    x as i64 * y as i64
                },
                _ => if y == 0 {
                    0
                } else {
                    wide_trunc_div(x, y)
                },
            };
            wide < i32::MIN as i64 || wide > i32::MAX as i64
        },
        None => false,
    }
}

/// Adds the two integers of the argument.
pub fn builtin_add(arg: VarContent) -> (r: FnResult)
    requires
        !arith_overflows(Builtin::Add, arg@),
    ensures
        fn_result(r) == arith_result(Builtin::Add, arg@),
{
    match ints_of(&arg) {
        Some((a, b)) => Ok(VarContent::Int(a + b)),
        None => Err(NyoomError::BuiltinFnTypeError("Expected type ARRAY OF INT AND INT for ADD")),
    }
}

/// Subtracts the second integer of the argument from the first.
pub fn builtin_subtract(arg: VarContent) -> (r: FnResult)
    requires
        !arith_overflows(Builtin::Subtract, arg@),
    ensures
        fn_result(r) == arith_result(Builtin::Subtract, arg@),
{
    match ints_of(&arg) {
        Some((a, b)) => Ok(VarContent::Int(a - b)),
        None => Err(
            NyoomError::BuiltinFnTypeError("Expected type ARRAY OF INT AND INT for SUBTRACT"),
        ),
    }
}

/// Multiplies the two integers of the argument.
pub fn builtin_multiply(arg: VarContent) -> (r: FnResult)
    requires
        !arith_overflows(Builtin::Multiply, arg@),
    ensures
        fn_result(r) == arith_result(Builtin::Multiply, arg@),
{
    match ints_of(&arg) {
        Some((a, b)) => Ok(VarContent::Int(a * b)),
        None => Err(
            NyoomError::BuiltinFnTypeError("Expected type ARRAY OF INT AND INT for MULTIPLY"),
        ),
    }
}

/// Divides the first integer of the argument by the second, rounding toward zero.
pub fn builtin_divide(arg: VarContent) -> (r: FnResult)
    requires
        !arith_overflows(Builtin::Divide, arg@),
        !divides_by_zero(Builtin::Divide, arg@),
    ensures
        fn_result(r) == arith_result(Builtin::Divide, arg@),
{
    match ints_of(&arg) {
        Some((a, b)) => Ok(VarContent::Int(wide_trunc_div(a, b) as i32)),
        None => Err(
            NyoomError::BuiltinFnTypeError("Expected type ARRAY OF INT AND INT for DIVIDE"),
        ),
    }
}

/// The length of an array argument.
pub fn builtin_lenght(arg: VarContent) -> (r: FnResult)
    ensures
        fn_result(r) == lenght_result(arg@),
{
    if let VarContent::Array(vec) = arg {
        proof {
            lemma_views_of_values(vec@);
        }
        return Ok(VarContent::Int(vec.len() as i32));
    }
    Err(NyoomError::BuiltinFnTypeError("Expected type ARRAY for ARRAY LENGHT"))
}

/// The element of an array at an index: the argument holds the index, then the array.
pub fn builtin_index(arg: VarContent) -> (r: FnResult)
    ensures
        fn_result(r) == index_result(arg@),
{
    if let VarContent::Array(vec) = &arg {
        proof {
            lemma_views_of_values(vec@);
        }
        if vec.len() >= 2 {
            if let (VarContent::Int(i), VarContent::Array(inner)) = (&vec[0], &vec[1]) {
                proof {
                    lemma_views_of_values(inner@);
                }
                if *i < 0 {
                    return Err(NyoomError::NoSuchElementError("Index is negative", *i, inner.len()));
                }
                if (*i as usize) < inner.len() {
                    let v = inner[*i as usize].clone();
                    return Ok(v);
                }
                return Err(
                    NyoomError::NoSuchElementError(
                        "Array does not contain this element",
                        *i,
                        inner.len(),
                    ),
                );
            }
        }
    }
    Err(NyoomError::BuiltinFnTypeError("Expected type ARRAY OF INT AND ARRAY for INDEX"))
}

/// Prints an integer argument as the character of that code point: the character is
/// added to `out`, and the result is nothing.
pub fn builtin_print(arg: VarContent, out: &mut Vec<char>) -> (r: FnResult)
    ensures
        match print_result(arg@) {
            Ok(c) => r matches Ok(v) && v@ == Value::Nil && final(out)@ == old(out)@.push(c),
            Err(e) => r matches Err(err) && err@ == e && final(out)@ == old(out)@,
        },
{
    if let VarContent::Int(i) = arg {
        if i > 0 {
            if let Some(c) = char_from_u32(i as u32) {
                proof {
                    vstd::utf8::char_u32_cast(c, i as u32);
                }
                out.push(c);
                return Ok(VarContent::Nil);
            }
        }
        return Err(
            NyoomError::InvalidArgumentError(
                "INT must be a valid UTF-8 scalar value to be printed",
                arg,
            ),
        );
    }
    Err(NyoomError::BuiltinFnTypeError("Expected type INT for PRINT"))
}

} // verus!
