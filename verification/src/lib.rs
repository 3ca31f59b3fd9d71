//! The host side of a guest arena protocol: the frozen arena layout, the
//! session's configuration wire and state machine, the event delivery rings,
//! the deferred-submission queue, the solver configuration wire, and the
//! compiled-world format.

use vstd::prelude::*;

pub mod bytes;
pub mod session;
pub mod solver;
pub mod text;
pub mod world;

verus! {

} // verus!
