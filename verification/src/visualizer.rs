//! The spectrum visualizer's switch: whether frames are wanted, and whether the capture thread
//! still has to be started.
use vstd::prelude::*;

verus! {

/// The visualizer's state: enabled by the user, and whether its capture thread runs.
pub struct Visualizer {
    enabled: bool,
    running: bool,
}

impl Visualizer {
    pub closed spec fn spec_enabled(&self) -> bool {
        self.enabled
    }

    pub closed spec fn spec_running(&self) -> bool {
        self.running
    }

    /// Off, and no capture thread yet.
    pub fn new() -> (v: Self)
        ensures
            !v.spec_enabled(),
            !v.spec_running(),
    {
        Visualizer { enabled: false, running: false }
    }

    pub fn is_enabled(&self) -> (b: bool)
        ensures
            b == self.spec_enabled(),
    {
        self.enabled
    }

    /// Flips the switch. The answer says whether the capture thread must be started now: only
    /// when switching on and it has never been started (it is started once, and keeps running).
    pub fn set_enabled(&mut self, on: bool) -> (start: bool)
        ensures
            final(self).spec_enabled() == on,
            start == (on && !old(self).spec_running()),
            final(self).spec_running() == (old(self).spec_running() || on),
    {
        self.enabled = on;
        if on && !self.running {
            self.running = true;
            true
        } else {
            false
        }
    }
}

} // verus!
