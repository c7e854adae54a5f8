//! Rider input sampled once per micro-step.

use vstd::prelude::*;

verus! {

/// The four independent inputs of the rider.
#[derive(Debug, Copy, Clone, PartialEq, Eq, Structural)]
pub struct Control {
    pub rotate_left: bool,
    pub rotate_right: bool,
    pub throttle: bool,
    pub brake: bool,
}

impl Default for Control {
    /// No input held.
    fn default() -> (control: Control)
        ensures
            control == (Control {
                rotate_left: false,
                rotate_right: false,
                throttle: false,
                brake: false,
            }),
    {
        Control { rotate_left: false, rotate_right: false, throttle: false, brake: false }
    }
}

} // verus!
