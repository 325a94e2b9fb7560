//! What the frame loop keeps between frames: the view that is shown and the frame rate.

use vstd::prelude::*;

verus! {

/// Which view a frame shows.
#[derive(Clone, Copy, Debug, PartialEq, Eq, Structural)]
pub enum ViewMode {
    /// The maze from above.
    View2D,
    /// The first-person view with the minimap.
    View3D,
}

impl ViewMode {
    /// The other view.
    pub open spec fn other(self) -> ViewMode {
        match self {
            ViewMode::View2D => ViewMode::View3D,
            ViewMode::View3D => ViewMode::View2D,
        }
    }

    /// Switches between the two views.
    pub fn toggled(self) -> (mode: ViewMode)
        ensures
            mode == self.other(),
    {
        match self {
            ViewMode::View2D => ViewMode::View3D,
            ViewMode::View3D => ViewMode::View2D,
        }
    }
}

/// Counts frames and remembers how many the last full second had.
#[derive(Clone, Copy, Debug, PartialEq, Eq, Structural)]
pub struct FpsCounter {
    /// Frames since the count was last restarted, this one included.
    pub counter: usize,
    /// Frames in the last full second: the number to show.
    pub display: usize,
}

impl FpsCounter {
    /// A counter that has seen no frame.
    pub fn new() -> (fps: FpsCounter)
        ensures
            fps.counter == 0,
            fps.display == 0,
    {
        FpsCounter { counter: 0, display: 0 }
    }

    /// The count after one more frame. It stops at the largest `usize`.
    pub open spec fn counted(self) -> usize {
        if self.counter < usize::MAX {
            (self.counter + 1) as usize
        } else {
            self.counter
        }
    }

    /// Counts one frame. When a second or more has gone by since the count was last
    /// restarted, the count becomes the number to show and starts again from zero; the
    /// result tells the caller to restart its clock.
    pub fn frame(&mut self, second_elapsed: bool) -> (restart: bool)
        ensures
            restart == second_elapsed,
            second_elapsed ==> final(self).display == old(self).counted() && final(self).counter == 0,
            !second_elapsed ==> final(self).display == old(self).display && final(self).counter
                == old(self).counted(),
    {
        if self.counter < usize::MAX {
            self.counter = self.counter + 1;
        }
        if second_elapsed {
            self.display = self.counter;
            self.counter = 0;
        }
        second_elapsed
    }
}

} // verus!
