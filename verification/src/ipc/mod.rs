//! The exchange between the server and its worker processes.
use vstd::prelude::*;

pub mod client;
pub mod frame;
pub mod protocol;

verus! {

} // verus!
