use vstd::prelude::*;

use crate::strutil;
use crate::value::{Value, ValueS, vview};

verus! {

/// The parsed tree of a formula. An operator node with no right child is a
/// transparent pass-through of its left child.
#[derive(Debug)]
pub enum Expression {
    Literal(Value),
    Operator { op: Option<String>, left: Box<Expression>, right: Box<Option<Expression>> },
    Function { function: String, arguments: Vec<Expression> },
}

/// The mathematical image of an expression tree.
#[verifier::ext_equal]
pub enum ExprS {
    Literal(ValueS),
    Operator { op: Option<Seq<char>>, left: Box<ExprS>, right: Option<Box<ExprS>> },
    Function { function: Seq<char>, arguments: Seq<ExprS> },
}

/// The image of an expression.
pub open spec fn eview(e: Expression) -> ExprS
    decreases e,
    via eview_dec
{
    match e {
        Expression::Literal(v) => ExprS::Literal(vview(v)),
        Expression::Operator { op, left, right } => ExprS::Operator {
            op: match op {
                Some(s) => Some(s@),
                None => None,
            },
            left: Box::new(eview(*left)),
            right: match *right {
                Some(r) => Some(Box::new(eview(r))),
                None => None,
            },
        },
        Expression::Function { function, arguments } => ExprS::Function {
            function: function@,
            arguments: Seq::new(
                arguments@.len(),
                |i: int|
                    if 0 <= i < arguments@.len() {
                        eview(arguments@[i])
                    } else {
                        ExprS::Literal(ValueS::Empty)
                    },
            ),
        },
    }
}

#[via_fn]
proof fn eview_dec(e: Expression) {
    match e {
        Expression::Function { function, arguments } => {
            assert forall|i: int| 0 <= i < arguments@.len() implies decreases_to!(
                e => arguments@[i]
            ) by {
                assert(decreases_to!(e => e->Function_arguments));
                assert(decreases_to!(e->Function_arguments => e->Function_arguments@));
                assert(decreases_to!(e->Function_arguments@ => e->Function_arguments@[i]));
            }
        },
        Expression::Operator { op, left, right } => {
            assert(decreases_to!(e => e->Operator_right));
            match *right {
                Some(r) => {
                    assert(decreases_to!(e->Operator_right => r));
                },
                None => {},
            }
        },
        _ => {},
    }
}

/// The images of a sequence of expressions, elementwise.
pub open spec fn eviews(s: Seq<Expression>) -> Seq<ExprS> {
    Seq::new(
        s.len(),
        |i: int|
            if 0 <= i < s.len() {
                eview(s[i])
            } else {
                ExprS::Literal(ValueS::Empty)
            },
    )
}

/// The image of an optional expression.
pub open spec fn eview_opt(e: Option<Expression>) -> Option<ExprS> {
    match e {
        Some(x) => Some(eview(x)),
        None => None,
    }
}

/// The binding strength of an operator text: division and multiplication
/// bind tightest, then addition and subtraction, then concatenation, then
/// the comparisons; any other text is no operator and maps to -1.
pub open spec fn spec_precedence(op: Seq<char>) -> int {
    if op == "/"@ || op == "*"@ {
        40
    } else if op == "+"@ || op == "-"@ {
        30
    } else if op == "&"@ {
        20
    } else if op == "<"@ || op == ">"@ || op == "="@ || op == "=="@ || op == "<="@ || op == ">="@
        || op == "<>"@ {
        10
    } else {
        -1
    }
}

/// The binding strength of an operator text.
pub fn get_precedence(op: &str) -> (r: i8)
    ensures
        r as int == spec_precedence(op@),
{
    if strutil::str_eq(op, "/") || strutil::str_eq(op, "*") {
        40
    } else if strutil::str_eq(op, "+") || strutil::str_eq(op, "-") {
        30
    } else if strutil::str_eq(op, "&") {
        20
    } else if strutil::str_eq(op, "<") || strutil::str_eq(op, ">") || strutil::str_eq(op, "=")
        || strutil::str_eq(op, "==") || strutil::str_eq(op, "<=") || strutil::str_eq(op, ">=")
        || strutil::str_eq(op, "<>") {
        10
    } else {
        -1
    }
}

} // verus!
