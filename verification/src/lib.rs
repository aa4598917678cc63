use vstd::prelude::*;

pub mod eval;
pub mod exp;
pub mod functions;
pub mod num;
pub mod parser;
pub mod strutil;
pub mod token;
pub mod value;

verus! {

/// The value rendering of a formula evaluated against the empty context:
/// trim, scan, parse, evaluate with the day the clock showed, and render
/// the result as text.
pub open spec fn spec_resolve(formula: Seq<char>, today: u64) -> Seq<char> {
    let f = strutil::spec_trim(formula);
    let ts = parser::spec_get_tokens(f);
    let e = parser::spec_parse(ts);
    let v = eval::eval_fn(e, Seq::<(Seq<char>, value::ValueS)>::empty(), today);
    value::spec_as_string(v)
}

/// Evaluates a formula against an empty context and renders the result.
/// A formula too large for the scanner's index arithmetic comes back as
/// the missing-value error text.
pub fn resolve(formula: &str) -> (r: String)
    ensures
        formula@.len() < 0x0400_0000 ==> exists|today: u64| r@ == #[trigger] spec_resolve(
            formula@,
            today,
        ),
        formula@.len() >= 0x0400_0000 ==> r@ == "#N/A"@,
{
    let n = formula.unicode_len();
    if n >= 0x0400_0000 {
        return "#N/A".to_owned();
    }
    proof {
        strutil::lemma_trim_len(formula@);
    }
    let mut p = parser::Parser::new(formula);
    p.tokenize();
    let e = p.parse();
    let context = eval::EvalContext::new();
    let evaluator = eval::Evaluator { expr: e, context };
    let result = evaluator.resolve();
    let r = result.as_string();
    proof {
        let today = choose|today: u64|
            value::vview(result) == #[trigger] eval::eval_fn(
                exp::eview(evaluator.expr),
                evaluator.context.entries_view(),
                today,
            );
        assert(r@ == spec_resolve(formula@, today));
    }
    r
}

} // verus!
