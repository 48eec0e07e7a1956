//! Command-line arguments.

use vstd::prelude::*;

verus! {

/// The value of an argument: the one given, or `""` for an optional
/// argument that was not given. A mandatory argument must be given (the
/// tool stops with "No keyword provided" otherwise).
pub fn unwrap_keys<'a>(keyword: Option<&'a str>, mandatory: bool) -> (r: &'a str)
    requires
        keyword is Some || !mandatory,
    ensures
        r@ == match keyword {
            Some(k) => k@,
            None => Seq::<char>::empty(),
        },
{
    match keyword {
        Some(k) => k,
        None => {
            proof {
                reveal_strlit("");
            }
            ""
        },
    }
}

} // verus!
