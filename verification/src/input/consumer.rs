//! Consumer controls, of which one is active at a time.

use vstd::prelude::*;

verus! {

/// A usage of the consumer page.
#[derive(Clone, Copy, Debug, PartialEq, Eq, PartialOrd, Ord, Hash, Structural)]
pub struct ConsumerUsage(pub u16);

/// The usage of one report.
#[derive(Clone, Copy, Debug, PartialEq, Eq, Structural)]
pub struct ConsumerFrame {
    pub active: Option<ConsumerUsage>,
}

/// The usage that is held.
#[derive(Clone, Copy, Debug, PartialEq, Eq, Structural)]
pub struct ConsumerState {
    pub active: Option<ConsumerUsage>,
}

impl ConsumerState {
    /// No usage held.
    pub fn new() -> (r: Self)
        ensures
            r.active is None,
    {
        Self { active: None }
    }

    /// Takes over the usage of a frame.
    pub fn apply_frame(&mut self, frame: ConsumerFrame)
        ensures
            final(self).active == frame.active,
    {
        self.active = frame.active;
    }
}

impl Default for ConsumerState {
    fn default() -> (r: Self)
        ensures
            r.active is None,
    {
        Self::new()
    }
}

} // verus!
