use crate::text::{less_than, lex_lt};
use std::cmp::Ordering;
use vstd::prelude::*;

verus! {

/// How `a` stands to `b` in lexicographic order.
pub open spec fn text_order(a: Seq<char>, b: Seq<char>) -> Ordering {
    if lex_lt(a, b) {
        Ordering::Less
    } else if lex_lt(b, a) {
        Ordering::Greater
    } else {
        Ordering::Equal
    }
}

/// How `a` stands to `b` in lexicographic order.
pub fn order_of(a: &str, b: &str) -> (r: Ordering)
    ensures
        r == text_order(a@, b@),
{
    if less_than(a, b) {
        Ordering::Less
    } else if less_than(b, a) {
        Ordering::Greater
    } else {
        Ordering::Equal
    }
}

} // verus!
