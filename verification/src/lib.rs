use vstd::prelude::*;

pub mod extmsg;
pub mod temperature;
pub mod report;
pub mod telldus;
pub mod telldus_types;
pub mod text;
pub mod webserver;

verus! {

/// The value the entry module reports to its test suite.
pub fn retvalue() -> (r: i32)
    ensures
        r == 2,
{
    2
}

} // verus!
