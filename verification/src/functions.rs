use vstd::prelude::*;

use crate::eval::{ctx_lookup, EvalContext};
use crate::num;
use crate::value::{spec_as_string, spec_to_number, vview, vviews, Value, ValueS};

verus! {

/// How many characters of a reference key make up the table identifier.
pub const GUID_LENGTH: usize = 11;

/// The running sum of the numeric coercions of a list of values, taken left
/// to right starting from zero.
pub open spec fn sum_bits(vs: Seq<ValueS>) -> u64
    decreases vs.len(),
{
    if vs.len() == 0 {
        0
    } else {
        num::add_bits(sum_bits(vs.drop_last()), spec_to_number(vs.last()))
    }
}

/// How many of the values are the Number variant.
pub open spec fn count_numbers(vs: Seq<ValueS>) -> nat
    decreases vs.len(),
{
    if vs.len() == 0 {
        0
    } else {
        count_numbers(vs.drop_last()) + if vs.last() is Number {
            1nat
        } else {
            0nat
        }
    }
}

/// The average of the arguments: when no argument is a Number the result is
/// Empty, otherwise the sum of all arguments over the count of the numeric
/// ones.
pub open spec fn avarage_s(vs: Seq<ValueS>) -> ValueS {
    if count_numbers(vs) == 0 {
        ValueS::Empty
    } else {
        ValueS::Number(num::div_bits(sum_bits(vs), num::uint_bits(count_numbers(vs))))
    }
}

/// The comparison of two values: the sign of the difference of their
/// numeric coercions decides, with exact equality and no tolerance; an
/// unrecognized operator compares to false.
pub open spec fn compare_s(l: ValueS, r: ValueS, op: Seq<char>) -> ValueS {
    let d = num::sub_bits(spec_to_number(l), spec_to_number(r));
    if op == "="@ || op == "=="@ {
        ValueS::Boolean(num::f64_is_zero(d))
    } else if op == ">"@ {
        ValueS::Boolean(num::f64_is_pos(d))
    } else if op == ">="@ {
        ValueS::Boolean(num::f64_is_pos(d) || num::f64_is_zero(d))
    } else if op == "<"@ {
        ValueS::Boolean(num::f64_is_neg(d))
    } else if op == "<="@ {
        ValueS::Boolean(num::f64_is_neg(d) || num::f64_is_zero(d))
    } else if op == "<>"@ {
        ValueS::Boolean(!num::f64_is_zero(d))
    } else {
        ValueS::Boolean(false)
    }
}

/// What a reference call returns: the context's value under the key that
/// follows the table identifier and its separator, and a reference error
/// when there is no argument, no room for a key, or no such key.
pub open spec fn ref_value_s(ctx: Seq<(Seq<char>, ValueS)>, vs: Seq<ValueS>) -> ValueS {
    if vs.len() == 0 {
        ValueS::Error("#REF!"@)
    } else {
        let s = spec_as_string(vs[0]);
        if s.len() < GUID_LENGTH + 1 {
            ValueS::Error("#REF!"@)
        } else {
            match ctx_lookup(ctx, s.skip(GUID_LENGTH + 1)) {
                Some(v) => v,
                None => ValueS::Error("#REF!"@),
            }
        }
    }
}

/// The sum of the numeric coercions of the two operands.
pub fn add(left: &Value, right: &Value) -> (r: Value)
    ensures
        vview(r) == ValueS::Number(
            num::add_bits(spec_to_number(left@), spec_to_number(right@)),
        ),
{
    Value::Number(num::f64_add(left.to_number(), right.to_number()))
}

/// The difference of the numeric coercions of the two operands.
pub fn subtract(left: &Value, right: &Value) -> (r: Value)
    ensures
        vview(r) == ValueS::Number(
            num::sub_bits(spec_to_number(left@), spec_to_number(right@)),
        ),
{
    Value::Number(num::f64_sub(left.to_number(), right.to_number()))
}

/// The product of the numeric coercions of the two operands.
pub fn multiply(left: &Value, right: &Value) -> (r: Value)
    ensures
        vview(r) == ValueS::Number(
            num::mul_bits(spec_to_number(left@), spec_to_number(right@)),
        ),
{
    Value::Number(num::f64_mul(left.to_number(), right.to_number()))
}

/// The quotient of the numeric coercions of the two operands: a divisor
/// that coerces to zero gives the division error, and nothing else does.
pub fn divide(left: &Value, right: &Value) -> (r: Value)
    ensures
        num::f64_is_zero(spec_to_number(right@)) ==> vview(r) == ValueS::Error("#DIV/0"@),
        !num::f64_is_zero(spec_to_number(right@)) ==> vview(r) == ValueS::Number(
            num::div_bits(spec_to_number(left@), spec_to_number(right@)),
        ),
{
    if num::f64_is_zero_x(right.to_number()) {
        return Value::Error("#DIV/0".to_owned());
    }
    Value::Number(num::f64_div(left.to_number(), right.to_number()))
}

/// The sum of the numeric coercions of all arguments; every non-numeric
/// argument coerces to zero and so contributes nothing.
pub fn sum(args: &[Value]) -> (r: Value)
    ensures
        vview(r) == ValueS::Number(sum_bits(vviews(args@))),
{
    let mut result: u64 = 0;
    let mut i: usize = 0;
    while i < args.len()
        invariant
            i <= args@.len(),
            result == sum_bits(vviews(args@).take(i as int)),
        decreases args@.len() - i,
    {
        result = num::f64_add(result, args[i].to_number());
        proof {
            assert(vviews(args@).take(i + 1 as int).drop_last() =~= vviews(args@).take(i as int));
            assert(vviews(args@).take(i + 1 as int).last() == vview(args@[i as int]));
        }
        i = i + 1;
    }
    proof {
        assert(vviews(args@).take(args@.len() as int) =~= vviews(args@));
    }
    Value::Number(result)
}

/// The count of the Number-typed arguments, as a numeric value.
pub fn count(args: &[Value]) -> (r: Value)
    ensures
        vview(r) == ValueS::Number(num::uint_bits(count_numbers(vviews(args@)))),
{
    let n = count_plain(args);
    Value::Number(num::f64_of_usize(n))
}

/// The count of the Number-typed arguments.
fn count_plain(args: &[Value]) -> (n: usize)
    ensures
        n == count_numbers(vviews(args@)),
{
    let mut cnt: usize = 0;
    let mut i: usize = 0;
    while i < args.len()
        invariant
            i <= args@.len(),
            cnt == count_numbers(vviews(args@).take(i as int)),
            cnt <= i,
        decreases args@.len() - i,
    {
        if args[i].is_number() {
            cnt = cnt + 1;
        }
        proof {
            assert(vviews(args@).take(i + 1 as int).drop_last() =~= vviews(args@).take(i as int));
            assert(vviews(args@).take(i + 1 as int).last() == vview(args@[i as int]));
        }
        i = i + 1;
    }
    proof {
        assert(vviews(args@).take(args@.len() as int) =~= vviews(args@));
    }
    cnt
}

/// The average of the arguments: Empty when none is numeric, otherwise the
/// sum of all of them over the count of the numeric ones.
pub fn avarage(args: &[Value]) -> (r: Value)
    ensures
        vview(r) == avarage_s(vviews(args@)),
{
    let cnt = count_plain(args);
    if cnt == 0 {
        return Value::Empty;
    }
    let s = sum(args);
    Value::Number(num::f64_div(s.to_number(), num::f64_of_usize(cnt)))
}

/// The current date as an OA-date number; which number depends on the clock
/// alone, so only the variant is promised.
pub fn today(_args: &[Value]) -> (r: Value)
    ensures
        vview(r) is Number,
{
    Value::Number(num::today_bits())
}

/// The comparison of the two operands under the given operator text.
pub fn compare(left: &Value, right: &Value, op: &str) -> (r: Value)
    ensures
        vview(r) == compare_s(left@, right@, op@),
{
    let d = num::f64_sub(left.to_number(), right.to_number());
    if crate::strutil::str_eq(op, "=") || crate::strutil::str_eq(op, "==") {
        Value::Boolean(num::f64_is_zero_x(d))
    } else if crate::strutil::str_eq(op, ">") {
        Value::Boolean(num::f64_is_pos_x(d))
    } else if crate::strutil::str_eq(op, ">=") {
        Value::Boolean(num::f64_is_pos_x(d) || num::f64_is_zero_x(d))
    } else if crate::strutil::str_eq(op, "<") {
        Value::Boolean(num::f64_is_neg_x(d))
    } else if crate::strutil::str_eq(op, "<=") {
        Value::Boolean(num::f64_is_neg_x(d) || num::f64_is_zero_x(d))
    } else if crate::strutil::str_eq(op, "<>") {
        Value::Boolean(!num::f64_is_zero_x(d))
    } else {
        Value::Boolean(false)
    }
}

/// Looks the first argument up in the evaluation context, after stripping
/// the table identifier and its separator from the rendered reference text.
pub fn get_ref_value(context: &EvalContext, args: &[Value]) -> (r: Value)
    ensures
        vview(r) == ref_value_s(context.entries_view(), vviews(args@)),
{
    if args.len() == 0 {
        return Value::Error("#REF!".to_owned());
    }
    let ref_string = args[0].as_string();
    let n = ref_string.as_str().unicode_len();
    if n < GUID_LENGTH + 1 {
        return Value::Error("#REF!".to_owned());
    }
    let column_id = ref_string.as_str().substring_char(GUID_LENGTH + 1, n);
    proof {
        assert(vviews(args@)[0] == vview(args@[0]));
        assert(column_id@ =~= spec_as_string(vview(args@[0])).skip(GUID_LENGTH + 1));
    }
    match context.get(column_id) {
        Some(v) => v,
        None => Value::Error("#REF!".to_owned()),
    }
}

} // verus!
