use vstd::prelude::*;

pub mod led_array;
pub mod convergence;
pub mod session;
pub mod ws;

use crate::led_array::Color;

verus! {

/// A change published to every live sync session.
#[derive(Clone, Copy, Debug, PartialEq, Eq, Structural)]
pub enum BroadcastMessage {
    /// Cell `index` was just set to `color`.
    LedUpdated { index: usize, color: Color },
}

} // verus!
