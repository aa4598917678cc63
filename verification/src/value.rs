use vstd::prelude::*;

use crate::num;

verus! {

/// The bit pattern of the double 1.0.
pub const F64_ONE_BITS: u64 = 0x3FF0_0000_0000_0000;

/// The typed result of evaluating a formula. A numeric value carries the
/// 64-bit pattern of the IEEE-754 double it stands for; a date carries its
/// OA-date day count the same way.
#[derive(Debug, PartialEq)]
pub enum Value {
    Boolean(bool),
    Number(u64),
    String(String),
    Date(u64),
    Empty,
    Unknown,
    Error(String),
    Array(Vec<Value>),
}

/// The mathematical image of a value: texts as character sequences, arrays
/// as sequences of images.
#[verifier::ext_equal]
pub enum ValueS {
    Boolean(bool),
    Number(u64),
    String(Seq<char>),
    Date(u64),
    Empty,
    Unknown,
    Error(Seq<char>),
    Array(Seq<ValueS>),
}

/// The image of a value.
pub open spec fn vview(v: Value) -> ValueS
    decreases v,
    via vview_dec
{
    match v {
        Value::Boolean(b) => ValueS::Boolean(b),
        Value::Number(n) => ValueS::Number(n),
        Value::String(s) => ValueS::String(s@),
        Value::Date(n) => ValueS::Date(n),
        Value::Empty => ValueS::Empty,
        Value::Unknown => ValueS::Unknown,
        Value::Error(e) => ValueS::Error(e@),
        Value::Array(a) => ValueS::Array(
            Seq::new(
                a@.len(),
                |i: int|
                    if 0 <= i < a@.len() {
                        vview(a@[i])
                    } else {
                        ValueS::Empty
                    },
            ),
        ),
    }
}

#[via_fn]
proof fn vview_dec(v: Value) {
    match v {
        Value::Array(a) => {
            assert forall|i: int| 0 <= i < a@.len() implies decreases_to!(v => a@[i]) by {
                assert(decreases_to!(v => v->Array_0));
                assert(decreases_to!(v->Array_0 => v->Array_0@));
                assert(decreases_to!(v->Array_0@ => v->Array_0@[i]));
            }
        },
        _ => {},
    }
}

/// The images of a sequence of values, elementwise.
pub open spec fn vviews(s: Seq<Value>) -> Seq<ValueS> {
    Seq::new(
        s.len(),
        |i: int|
            if 0 <= i < s.len() {
                vview(s[i])
            } else {
                ValueS::Empty
            },
    )
}

impl View for Value {
    type V = ValueS;

    open spec fn view(&self) -> ValueS {
        vview(*self)
    }
}

/// A copy of a value with the same image.
pub fn clone_value(v: &Value) -> (r: Value)
    ensures
        r@ == v@,
    decreases v,
{
    match v {
        Value::Boolean(b) => Value::Boolean(*b),
        Value::Number(n) => Value::Number(*n),
        Value::String(s) => Value::String(s.clone()),
        Value::Date(n) => Value::Date(*n),
        Value::Empty => Value::Empty,
        Value::Unknown => Value::Unknown,
        Value::Error(e) => Value::Error(e.clone()),
        Value::Array(a) => {
            let mut out: Vec<Value> = Vec::new();
            let mut i: usize = 0;
            while i < a.len()
                invariant
                    i <= a.len(),
                    out@.len() == i,
                    forall|j: int| 0 <= j < i ==> out@[j]@ == a@[j]@,
                    *v == Value::Array(*a),
                decreases a.len() - i,
            {
                proof {
                    assert(decreases_to!(*v => (*v)->Array_0));
                    assert(decreases_to!((*v)->Array_0 => (*v)->Array_0@));
                    assert(decreases_to!((*v)->Array_0@ => (*v)->Array_0@[i as int]));
                }
                out.push(clone_value(&a[i]));
                i = i + 1;
            }
            proof {
                let s1 = vview(Value::Array(out))->Array_0;
                let s2 = vview(*v)->Array_0;
                assert(forall|j: int| 0 <= j < s1.len() ==> s1[j] == vview(out@[j]));
                assert(forall|j: int| 0 <= j < s2.len() ==> s2[j] == vview(a@[j]));
                assert(s1 =~= s2);
                assert(vview(Value::Array(out)) == vview(*v));
            }
            Value::Array(out)
        },
    }
}

impl Clone for Value {
    fn clone(&self) -> (r: Value)
        ensures
            r@ == self@,
    {
        clone_value(self)
    }
}

/// The bit pattern a value coerces to in arithmetic: a number is itself, a
/// boolean is one or zero, and every other variant silently becomes zero.
pub open spec fn spec_to_number(v: ValueS) -> u64 {
    match v {
        ValueS::Number(n) => n,
        ValueS::Boolean(b) => if b {
            F64_ONE_BITS
        } else {
            0
        },
        _ => 0,
    }
}

/// The shortest faithful rendering of a number: the fewest significant
/// digits whose rendering parses back to the very same bit pattern, and the
/// full-precision rendering where no shorter one does. The layout is the
/// renderer's: magnitudes outside its positional window keep its exponent
/// notation.
pub open spec fn spec_number_string(x: u64, k: nat) -> Seq<char>
    decreases 17 - k,
{
    if k >= 17 {
        num::number_text(x)
    } else if num::number_bits(num::number_text_prec(x, k)) == Some(x) {
        num::number_text_prec(x, k)
    } else {
        spec_number_string(x, k + 1)
    }
}

/// The shortest faithful rendering of a number.
pub fn number_string(x: u64) -> (r: String)
    ensures
        r@ == spec_number_string(x, 1),
{
    let mut k: usize = 1;
    while k < 17
        invariant
            1 <= k <= 17,
            spec_number_string(x, 1) == spec_number_string(x, k as nat),
        decreases 17 - k,
    {
        let s = num::f64_text_prec(x, k);
        let ok = match num::f64_parse(s.as_str()) {
            Some(b) => b == x,
            None => false,
        };
        if ok {
            return s;
        }
        k = k + 1;
    }
    num::f64_text(x)
}

/// The text a value renders to: an error or text is its own content, a
/// number its shortest faithful decimal rendering, a date its calendar
/// rendering, and every other variant the empty text.
pub open spec fn spec_as_string(v: ValueS) -> Seq<char> {
    match v {
        ValueS::Error(e) => e,
        ValueS::String(t) => t,
        ValueS::Number(n) => spec_number_string(n, 1),
        ValueS::Date(n) => num::oadate_text(n),
        _ => Seq::<char>::empty(),
    }
}

impl Value {
    /// The numeric coercion every arithmetic operator applies to its operands.
    pub fn to_number(&self) -> (r: u64)
        ensures
            r == spec_to_number(self@),
    {
        match self {
            Value::Number(n) => *n,
            Value::Boolean(b) => if *b {
                F64_ONE_BITS
            } else {
                0
            },
            _ => 0,
        }
    }

    /// Whether the value is the Number variant.
    pub fn is_number(&self) -> (r: bool)
        ensures
            r == (self@ is Number),
    {
        matches!(self, Value::Number(_))
    }

    /// Whether the value is the Error variant.
    pub fn is_error(&self) -> (r: bool)
        ensures
            r == (self@ is Error),
    {
        matches!(self, Value::Error(_))
    }

    /// The string rendering of the value.
    pub fn as_string(&self) -> (r: String)
        ensures
            r@ == spec_as_string(self@),
    {
        match self {
            Value::Error(e) => e.clone(),
            Value::String(t) => t.clone(),
            Value::Number(n) => number_string(*n),
            Value::Date(n) => num::f64_oadate_text(*n),
            _ => String::new(),
        }
    }
}

} // verus!
