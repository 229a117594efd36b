//! The redraw scheduler: two trigger sources (a periodic tick and a
//! surface size change) funnel into one dirty flag. At most one draw runs
//! per scheduler turn, always with the latest known size; triggers are
//! never queued beyond last-write-wins.

use vstd::prelude::*;

verus! {

/// Default period of the redraw timer, in milliseconds: the host is
/// expected to call [`RedrawScheduler::on_tick`] at this cadence.
pub const TICK_INTERVAL_MS: u64 = 2000;

/// Cooperative redraw trigger state.
#[derive(Clone, Copy, Debug, PartialEq, Eq, Structural)]
pub struct RedrawScheduler {
    /// Latest known surface width.
    pub width: u32,
    /// Latest known surface height.
    pub height: u32,
    /// Whether a draw is owed.
    pub dirty: bool,
}

impl RedrawScheduler {
    /// A fresh scheduler, owing the initial draw.
    pub fn new(width: u32, height: u32) -> (r: RedrawScheduler)
        ensures
            r == (RedrawScheduler { width, height, dirty: true }),
    {
        RedrawScheduler { width, height, dirty: true }
    }

    /// The periodic timer fired: a draw is owed.
    pub fn on_tick(&mut self)
        ensures
            *final(self) == (RedrawScheduler { dirty: true, ..*old(self) }),
    {
        self.dirty = true;
    }

    /// The surface changed size: record the new size and owe a draw.
    /// A second resize before the draw wins: only the latest size is
    /// kept.
    pub fn on_resize(&mut self, width: u32, height: u32)
        ensures
            *final(self) == (RedrawScheduler { width, height, dirty: true }),
    {
        self.width = width;
        self.height = height;
        self.dirty = true;
    }

    /// Takes the owed draw, if any: returns the size to draw at and
    /// clears the flag, so coinciding triggers yield exactly one draw.
    pub fn take_redraw(&mut self) -> (r: Option<(u32, u32)>)
        ensures
            old(self).dirty ==> r == Some((old(self).width, old(self).height)),
            old(self).dirty ==> *final(self) == (RedrawScheduler { dirty: false, ..*old(self) }),
            !old(self).dirty ==> r is None && *final(self) == *old(self),
    {
        if self.dirty {
            self.dirty = false;
            Some((self.width, self.height))
        } else {
            None
        }
    }
}

} // verus!
