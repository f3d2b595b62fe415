use vstd::prelude::*;
use crate::text::{implicit_mul_spec, insert_implicit_mul, no_white_space};

verus! {

/// A parsed arithmetic expression of the meval crate.
#[verifier::external_type_specification]
#[verifier::external_body]
pub struct ExMevalExpr(meval::Expr);

/// A token of meval's expression language; Verus needs the type declared
/// because a parsed expression dereferences to a slice of them.
#[verifier::external_type_specification]
#[verifier::external_body]
pub struct ExMevalToken(meval::tokenizer::Token);

/// What meval's parser makes of `src`: the parsed expression, or the
/// message (meval's `Display` of its error) with which it rejects `src`.
pub uninterp spec fn meval_parse_result(src: Seq<char>) -> Result<meval::Expr, Seq<char>>;

/// A parse outcome with its error message taken by its view.
pub open spec fn parse_view(r: Result<meval::Expr, String>) -> Result<meval::Expr, Seq<char>> {
    match r {
        Ok(e) => Ok(e),
        Err(m) => Err(m@),
    }
}

/// `<meval::Expr as FromStr>::from_str`: tokenizes `src` and converts it to
/// reverse Polish notation. Claimed: the outcome (the parsed expression, or
/// the error with its message) is determined by `src` alone. What the parsed
/// expression computes is not stated: `Expr` is opaque here. Inputs holding
/// white space are left out: meval's tokenizer panics on a non-empty input
/// made only of spaces, tabs and line breaks.
#[verifier::external_body]
fn meval_parse(src: &str) -> (r: Result<meval::Expr, String>)
    requires
        no_white_space(src@),
    ensures
        parse_view(r) == meval_parse_result(src@),
{
    src.parse::<meval::Expr>().map_err(|e| e.to_string())
}

/// Parses a parametric-equation expression as the user typed it: white space
/// is dropped and implicit products are written out (see
/// `insert_implicit_mul`) before meval parses it. The result is meval's
/// parse of the prepared text: its expression, or its error message.
pub fn parse_parametric_expr(src: &str) -> (r: Result<meval::Expr, String>)
    ensures
        parse_view(r) == meval_parse_result(implicit_mul_spec(src@)),
{
    let prepared = insert_implicit_mul(src);
    meval_parse(prepared.as_str())
}

} // verus!
