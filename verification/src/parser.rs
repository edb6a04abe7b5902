//! Matching an expression against keys in one call.

use vstd::prelude::*;
use crate::expr_parser::{holds, parse_expression, string_texts, texts, ExprMatcher, expr_matcher};

verus! {

/// The keys as string slices.
fn as_slices(keys: &Vec<String>) -> (out: Vec<&str>)
    ensures
        texts(out@) == string_texts(keys@),
{
    let n = keys.len();
    let mut out: Vec<&str> = Vec::new();
    let mut i: usize = 0;
    while i < n
        invariant
            n == keys@.len(),
            i <= n,
            out@.len() == i,
            forall|j: int| 0 <= j < i ==> (#[trigger] out@[j])@ == keys@[j]@,
        decreases n - i,
    {
        out.push(keys[i].as_str());
        i = i + 1;
    }
    proof {
        assert(texts(out@) =~= string_texts(keys@));
    }
    out
}

/// Whether the expression `input` holds of `keys`. The input must be an
/// expression.
pub fn evaluate_expression(keys: Vec<String>, input: &str) -> (found: bool)
    requires
        parse_expression(input@) is Some,
    ensures
        found == holds(parse_expression(input@)->0, string_texts(keys@)),
{
    let matcher: ExprMatcher = expr_matcher(input);
    let slices = as_slices(&keys);
    matcher.matches_keys(slices.as_slice())
}

} // verus!
