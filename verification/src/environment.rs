//! Feature switches read from the environment: a switch is on when its
//! variable is `1` or `true`. Reading the variable is done by the caller.
use vstd::prelude::*;

use crate::text::{chars_eq, to_chars};

verus! {

/// Whether a switch's value turns it on; an unset variable reads as `0`.
pub open spec fn enabled_spec(value: Option<Seq<char>>) -> bool {
    value == Some("1"@) || value == Some("true"@)
}

pub fn is_enabled_value(value: Option<&str>) -> (r: bool)
    ensures
        r == enabled_spec(
            match value {
                Some(v) => Some(v@),
                None => None,
            },
        ),
{
    match value {
        None => false,
        Some(v) => {
            let c = to_chars(v);
            chars_eq(&c, &to_chars("1")) || chars_eq(&c, &to_chars("true"))
        },
    }
}

} // verus!
