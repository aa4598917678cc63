use vstd::prelude::*;

use crate::exp::{eview, eviews, ExprS, Expression};
use crate::functions;
use crate::value::{clone_value, vview, vviews, Value, ValueS};

verus! {

/// The read-only mapping a formula is evaluated against: reference keys to
/// stored values. A later insertion under the same key shadows the earlier
/// one.
pub struct EvalContext {
    entries: Vec<(String, Value)>,
}

/// The value stored under a key, the latest insertion winning; nothing when
/// the key is absent.
pub open spec fn ctx_lookup(entries: Seq<(Seq<char>, ValueS)>, key: Seq<char>) -> Option<ValueS>
    decreases entries.len(),
{
    if entries.len() == 0 {
        None
    } else if entries.last().0 == key {
        Some(entries.last().1)
    } else {
        ctx_lookup(entries.drop_last(), key)
    }
}

impl EvalContext {
    /// The key-value pairs held, in insertion order.
    pub closed spec fn entries_view(&self) -> Seq<(Seq<char>, ValueS)> {
        Seq::new(
            self.entries@.len(),
            |i: int| (self.entries@[i].0@, vview(self.entries@[i].1)),
        )
    }

    pub fn new() -> (r: EvalContext)
        ensures
            r.entries_view() == Seq::<(Seq<char>, ValueS)>::empty(),
    {
        let r = EvalContext { entries: Vec::new() };
        proof {
            assert(r.entries_view() =~= Seq::<(Seq<char>, ValueS)>::empty());
        }
        r
    }

    /// Adds one key-value pair, shadowing any earlier pair under the key.
    pub fn insert(&mut self, key: String, value: Value)
        ensures
            final(self).entries_view() == old(self).entries_view().push(
                (key@, vview(value)),
            ),
    {
        let ghost k = key@;
        let ghost v = vview(value);
        self.entries.push((key, value));
        proof {
            assert(self.entries_view() =~= old(self).entries_view().push((k, v)));
        }
    }

    /// The value stored under the key, if any.
    pub fn get(&self, key: &str) -> (r: Option<Value>)
        ensures
            match r {
                Some(v) => ctx_lookup(self.entries_view(), key@) == Some(vview(v)),
                None => ctx_lookup(self.entries_view(), key@) is None,
            },
    {
        let n = self.entries.len();
        proof {
            assert(self.entries_view().take(n as int) =~= self.entries_view());
        }
        let mut i: usize = n;
        while i > 0
            invariant
                i <= n,
                n == self.entries@.len(),
                ctx_lookup(self.entries_view(), key@) == ctx_lookup(
                    self.entries_view().take(i as int),
                    key@,
                ),
            decreases i,
        {
            i = i - 1;
            let e = &self.entries[i];
            proof {
                assert(self.entries_view().take(i + 1 as int).last() == (
                    self.entries@[i as int].0@,
                    vview(self.entries@[i as int].1),
                ));
                assert(self.entries_view().take(i + 1 as int).drop_last() =~= self.entries_view()
                    .take(i as int));
            }
            if crate::strutil::str_eq(e.0.as_str(), key) {
                return Some(clone_value(&e.1));
            }
        }
        proof {
            assert(self.entries_view().take(0) =~= Seq::<(Seq<char>, ValueS)>::empty());
        }
        None
    }
}

/// What one operator application yields: the four arithmetic operators and
/// the comparisons mean themselves, and any other operator text, or a
/// missing one, falls back to the sum of the two operands.
pub open spec fn apply_op(op: Option<Seq<char>>, lv: ValueS, rv: ValueS) -> ValueS {
    match op {
        Some(o) => {
            if o == "+"@ {
                ValueS::Number(
                    crate::num::add_bits(
                        crate::value::spec_to_number(lv),
                        crate::value::spec_to_number(rv),
                    ),
                )
            } else if o == "-"@ {
                ValueS::Number(
                    crate::num::sub_bits(
                        crate::value::spec_to_number(lv),
                        crate::value::spec_to_number(rv),
                    ),
                )
            } else if o == "*"@ {
                ValueS::Number(
                    crate::num::mul_bits(
                        crate::value::spec_to_number(lv),
                        crate::value::spec_to_number(rv),
                    ),
                )
            } else if o == "/"@ {
                if crate::num::f64_is_zero(crate::value::spec_to_number(rv)) {
                    ValueS::Error("#DIV/0"@)
                } else {
                    ValueS::Number(
                        crate::num::div_bits(
                            crate::value::spec_to_number(lv),
                            crate::value::spec_to_number(rv),
                        ),
                    )
                }
            } else if o == ">"@ || o == ">="@ || o == "<"@ || o == "<="@ || o == "<>"@ || o == "="@
                || o == "=="@ {
                functions::compare_s(lv, rv, o)
            } else {
                ValueS::Number(functions::sum_bits(seq![lv, rv]))
            }
        },
        None => ValueS::Number(functions::sum_bits(seq![lv, rv])),
    }
}

/// What a named function returns for fully evaluated, error-free arguments,
/// with the day the clock showed when evaluation began standing in for the
/// clock. An unregistered name falls back to the sum, as the registry's
/// default does.
pub open spec fn fn_result(
    name: Seq<char>,
    vs: Seq<ValueS>,
    ctx: Seq<(Seq<char>, ValueS)>,
    today: u64,
) -> ValueS {
    if name == "SUM"@ {
        ValueS::Number(functions::sum_bits(vs))
    } else if name == "TODAY"@ {
        ValueS::Number(today)
    } else if name == "REF"@ {
        functions::ref_value_s(ctx, vs)
    } else if name == "AVERAGE"@ {
        functions::avarage_s(vs)
    } else {
        ValueS::Number(functions::sum_bits(vs))
    }
}

/// What an expression evaluates to under a context, once the clock has been
/// read: a literal is itself, an operator without a right child passes its
/// left child through, a full operator applies to its evaluated operands,
/// and a function call evaluates its arguments left to right.
pub open spec fn eval_fn(e: ExprS, ctx: Seq<(Seq<char>, ValueS)>, today: u64) -> ValueS
    decreases e, 1int,
{
    match e {
        ExprS::Literal(v) => v,
        ExprS::Operator { op, left, right } => match right {
            None => eval_fn(*left, ctx, today),
            Some(rt) => apply_op(op, eval_fn(*left, ctx, today), eval_fn(*rt, ctx, today)),
        },
        ExprS::Function { function, arguments } => args_eval(
            function,
            arguments,
            ctx,
            today,
            Seq::<ValueS>::empty(),
        ),
    }
}

/// The argument pass of a function call, left to right: the first argument
/// that evaluates to an error is the call's result and nothing after it is
/// evaluated; otherwise the named function is applied to the collected
/// values.
pub open spec fn args_eval(
    name: Seq<char>,
    args: Seq<ExprS>,
    ctx: Seq<(Seq<char>, ValueS)>,
    today: u64,
    vs: Seq<ValueS>,
) -> ValueS
    decreases args, 0int,
{
    if args.len() == 0 {
        fn_result(name, vs, ctx, today)
    } else {
        let v = eval_fn(args[0], ctx, today);
        if v is Error {
            v
        } else {
            args_eval(name, args.skip(1), ctx, today, vs.push(v))
        }
    }
}

/// An expression tree paired with the context it is evaluated against.
pub struct Evaluator {
    pub expr: Expression,
    pub context: EvalContext,
}

/// The registry dispatch: the name picks the built-in, an unknown name
/// falls back to the sum, and the day sampled at the start of evaluation
/// answers for the clock.
fn apply_function(context: &EvalContext, name: &str, args: &[Value], today: u64) -> (r: Value)
    ensures
        vview(r) == fn_result(name@, vviews(args@), context.entries_view(), today),
{
    if crate::strutil::str_eq(name, "SUM") {
        functions::sum(args)
    } else if crate::strutil::str_eq(name, "TODAY") {
        Value::Number(today)
    } else if crate::strutil::str_eq(name, "REF") {
        functions::get_ref_value(context, args)
    } else if crate::strutil::str_eq(name, "AVERAGE") {
        functions::avarage(args)
    } else {
        functions::sum(args)
    }
}

impl Evaluator {
    /// Reduces the held expression to a value against the held context. The
    /// clock is read once at the start, and that day answers every TODAY
    /// call of this evaluation.
    pub fn resolve(&self) -> (r: Value)
        ensures
            exists|today: u64|
                vview(r) == #[trigger] eval_fn(
                    eview(self.expr),
                    self.context.entries_view(),
                    today,
                ),
    {
        let today = crate::num::today_bits();
        let r = self.eval_expr(&self.expr, today);
        proof {
            assert(vview(r) == eval_fn(eview(self.expr), self.context.entries_view(), today));
        }
        r
    }

    /// One tree-walking step of the evaluator.
    fn eval_expr(&self, e: &Expression, today: u64) -> (r: Value)
        ensures
            vview(r) == eval_fn(eview(*e), self.context.entries_view(), today),
        decreases e,
    {
        let ghost ctx0 = self.context.entries_view();
        match e {
            Expression::Literal(v) => v.clone(),
            Expression::Operator { op, left, right } => {
                proof {
                    assert(decreases_to!(*e => *e->Operator_left));
                }
                let lhs = self.eval_expr(left, today);
                match &**right {
                    None => lhs,
                    Some(rt) => {
                        proof {
                            assert(decreases_to!(*e => e->Operator_right));
                            assert(decreases_to!(e->Operator_right => *rt));
                        }
                        let rhs = self.eval_expr(rt, today);
                        let r = match op {
                            Some(o) => {
                                if crate::strutil::str_eq(o.as_str(), "+") {
                                    functions::add(&lhs, &rhs)
                                } else if crate::strutil::str_eq(o.as_str(), "-") {
                                    functions::subtract(&lhs, &rhs)
                                } else if crate::strutil::str_eq(o.as_str(), "*") {
                                    functions::multiply(&lhs, &rhs)
                                } else if crate::strutil::str_eq(o.as_str(), "/") {
                                    functions::divide(&lhs, &rhs)
                                } else if crate::strutil::str_eq(o.as_str(), ">")
                                    || crate::strutil::str_eq(o.as_str(), ">=")
                                    || crate::strutil::str_eq(o.as_str(), "<")
                                    || crate::strutil::str_eq(o.as_str(), "<=")
                                    || crate::strutil::str_eq(o.as_str(), "<>")
                                    || crate::strutil::str_eq(o.as_str(), "=")
                                    || crate::strutil::str_eq(o.as_str(), "==") {
                                    functions::compare(&lhs, &rhs, o.as_str())
                                } else {
                                    let pair = vec![lhs, rhs];
                                    proof {
                                        assert(vviews(pair@) =~= seq![
                                            vview(pair@[0]),
                                            vview(pair@[1]),
                                        ]);
                                    }
                                    functions::sum(pair.as_slice())
                                }
                            },
                            None => {
                                let pair = vec![lhs, rhs];
                                proof {
                                    assert(vviews(pair@) =~= seq![
                                        vview(pair@[0]),
                                        vview(pair@[1]),
                                    ]);
                                }
                                functions::sum(pair.as_slice())
                            },
                        };
                        r
                    },
                }
            },
            Expression::Function { function, arguments } => {
                let ghost earg = eview(*e)->Function_arguments;
                proof {
                    assert(*arguments == (*e)->Function_arguments);
                    assert(earg =~= eviews(arguments@));
                    assert(earg.skip(0) =~= earg);
                }
                let mut args: Vec<Value> = Vec::new();
                proof {
                    assert(vviews(args@) =~= Seq::<ValueS>::empty());
                }
                let ghost goal = args_eval(function@, earg, ctx0, today, Seq::<ValueS>::empty());
                let mut i: usize = 0;
                while i < arguments.len()
                    invariant
                        i <= arguments@.len(),
                        args@.len() == i,
                        (*e) is Function,
                        *arguments == (*e)->Function_arguments,
                        function@ == (*e)->Function_function@,
                        earg == eview(*e)->Function_arguments,
                        earg == eviews(arguments@),
                        ctx0 == self.context.entries_view(),
                        goal == args_eval(function@, earg, ctx0, today, Seq::<ValueS>::empty()),
                        args_eval(function@, earg.skip(i as int), ctx0, today, vviews(args@))
                            == goal,
                    decreases arguments@.len() - i,
                {
                    proof {
                        assert(decreases_to!((*e) => (*e)->Function_arguments));
                        assert(decreases_to!((*e)->Function_arguments => (*e)->Function_arguments@));
                        assert(0 <= i < (*e)->Function_arguments@.len());
                        assert(decreases_to!(
                            (*e)->Function_arguments@ => (*e)->Function_arguments@[i as int]
                        ));
                    }
                    let v = self.eval_expr(&arguments[i], today);
                    let ghost vs_old = vviews(args@);
                    proof {
                        assert(earg.skip(i as int)[0] == eviews(arguments@)[i as int]);
                        assert(eviews(arguments@)[i as int] == eview(arguments@[i as int]));
                        assert(earg.skip(i as int).skip(1) =~= earg.skip(i + 1 as int));
                    }
                    if v.is_error() {
                        proof {
                            assert(args_eval(function@, earg.skip(i as int), ctx0, today, vs_old)
                                == vview(v));
                            assert(eview(*e) == ExprS::Function {
                                function: function@,
                                arguments: earg,
                            });
                        }
                        return v;
                    }
                    args.push(v);
                    proof {
                        assert(vviews(args@) =~= vs_old.push(vview(v)));
                    }
                    i = i + 1;
                }
                proof {
                    assert(earg.skip(arguments@.len() as int) =~= Seq::<ExprS>::empty());
                }
                let r = apply_function(&self.context, function.as_str(), args.as_slice(), today);
                proof {
                    assert(eview(*e) == ExprS::Function { function: function@, arguments: earg });
                }
                r
            },
        }
    }
}

} // verus!
