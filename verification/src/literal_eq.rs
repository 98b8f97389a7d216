//! Equality of literal values. Numbers are compared by their shortest
//! written form, so `1.0`, `1.00` and `1` are equal: for numbers of at most
//! 15 digits (`short_number`) this is the equality of their
//! double-precision values.

use vstd::prelude::*;
use vstd::std_specs::cmp::PartialEqSpecImpl;

use crate::printer::{number_text, push_number};
use crate::token::LiteralType;

verus! {

impl PartialEq for LiteralType {
    fn eq(&self, other: &Self) -> (r: bool) {
        let same_value = match (self, other) {
            (LiteralType::StringValue(a), LiteralType::StringValue(b)) => {
                let same = a.eq(b);
                assert(same == (a@ == b@));
                same
            },
            (LiteralType::NumberValue(a), LiteralType::NumberValue(b)) => {
                let mut x = String::new();
                push_number(&mut x, a.as_str());
                let mut y = String::new();
                push_number(&mut y, b.as_str());
                proof {
                    assert(x@ =~= number_text(a@));
                    assert(y@ =~= number_text(b@));
                }
                let same = x.eq(&y);
                assert(same == (number_text(a@) == number_text(b@)));
                same
            },
            (LiteralType::BoolValue(a), LiteralType::BoolValue(b)) => *a == *b,
            (LiteralType::NoneValue, LiteralType::NoneValue) => true,
            _ => false,
        };
        same_value
    }
}

impl PartialEqSpecImpl for LiteralType {
    open spec fn obeys_eq_spec() -> bool {
        true
    }

    /// Strings and booleans are equal when they are the same, numbers when
    /// their shortest forms are, and no value equals only no value.
    open spec fn eq_spec(&self, other: &LiteralType) -> bool {
        match (self, other) {
            (LiteralType::StringValue(a), LiteralType::StringValue(b)) => a@ == b@,
            (LiteralType::NumberValue(a), LiteralType::NumberValue(b)) => number_text(a@) == number_text(b@),
            (LiteralType::BoolValue(a), LiteralType::BoolValue(b)) => *a == *b,
            (LiteralType::NoneValue, LiteralType::NoneValue) => true,
            _ => false,
        }
    }
}

} // verus!
