//! The names that generated code gives to states, types and signals.

use heck::{CamelCase, ShoutySnakeCase, SnakeCase};
use vstd::prelude::*;
use vstd::string::StringExecFns;

verus! {

/// `text` in camel case, as `heck` makes it.
pub uninterp spec fn camel_case(text: Seq<char>) -> Seq<char>;

/// `text` in snake case, as `heck` makes it.
pub uninterp spec fn snake_case(text: Seq<char>) -> Seq<char>;

/// `text` in shouty snake case, as `heck` makes it.
pub uninterp spec fn shouty_snake_case(text: Seq<char>) -> Seq<char>;

/// `heck::CamelCase::to_camel_case` of `text`.
#[verifier::external_body]
pub(crate) fn to_camel_case(text: &str) -> (r: String)
    ensures
        r@ == camel_case(text@),
{
    text.to_camel_case()
}

/// `heck::SnakeCase::to_snake_case` of `text`.
#[verifier::external_body]
pub(crate) fn to_snake_case(text: &str) -> (r: String)
    ensures
        r@ == snake_case(text@),
{
    text.to_snake_case()
}

/// `heck::ShoutySnakeCase::to_shouty_snake_case` of `text`.
#[verifier::external_body]
pub(crate) fn to_shouty_snake_case(text: &str) -> (r: String)
    ensures
        r@ == shouty_snake_case(text@),
{
    text.to_shouty_snake_case()
}

/// The name of the constant that holds the identifier of the signal whose
/// name in shouty snake case is `shouty`.
pub fn constant_name(shouty: &str) -> (r: String)
    ensures
        r@ == "SIGNAL_"@ + shouty@,
{
    String::from_str("SIGNAL_").concat(shouty)
}

/// The name of the structure that holds the fields of the signal whose name
/// in camel case is `camel`.
pub fn structure_name(camel: &str) -> (r: String)
    ensures
        r@ == camel@ + "Signal"@,
{
    String::from_str(camel).concat("Signal")
}

/// The name of the method that writes, or reads, the signal whose name in
/// snake case is `snake`.
pub fn method_name(writes: bool, snake: &str) -> (r: String)
    ensures
        r@ == (if writes {
            "write_"@
        } else {
            "read_"@
        }) + snake@,
{
    String::from_str(
        if writes {
            "write_"
        } else {
            "read_"
        },
    ).concat(snake)
}

} // verus!
