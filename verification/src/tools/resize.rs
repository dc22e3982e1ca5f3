//! The resize tool: an arrow key adds a row or column at the edge it points
//! to; with shift held it takes one away.
use vstd::prelude::*;

use crate::grid::{Edge, Grid, Resize};
use crate::toolbar::SelectedTool;

verus! {

/// The keys that the resize tool reads at one frame.
#[derive(Clone, Copy, Debug)]
pub struct ResizeKeys {
    /// Whether shift is down.
    pub shift: bool,
    /// Whether shift went down at this frame.
    pub shift_just_pressed: bool,
    /// Whether shift went up at this frame.
    pub shift_just_released: bool,
    /// For each arrow key, whether it went down at this frame.
    pub left: bool,
    pub right: bool,
    pub up: bool,
    pub down: bool,
}

/// Icon of the tool while it adds rows and columns.
pub const ICON_EXTEND: usize = 9;

/// Icon of the tool while it takes rows and columns away.
pub const ICON_CROP: usize = 10;

impl ResizeKeys {
    /// What the keys ask of the grid: of the arrow keys that went down the
    /// first counts, in the order left, right, up, down. Without shift the
    /// edge that the arrow points to grows; with shift the grid is cropped
    /// from the side that the arrow comes from.
    pub open spec fn spec_request(&self) -> Option<Resize> {
        if self.shift {
            if self.left {
                Some(Resize::Shrink(Edge::Right))
            } else if self.right {
                Some(Resize::Shrink(Edge::Left))
            } else if self.up {
                Some(Resize::Shrink(Edge::Bottom))
            } else if self.down {
                Some(Resize::Shrink(Edge::Top))
            } else {
                None
            }
        } else {
            if self.left {
                Some(Resize::Grow(Edge::Left))
            } else if self.right {
                Some(Resize::Grow(Edge::Right))
            } else if self.up {
                Some(Resize::Grow(Edge::Top))
            } else if self.down {
                Some(Resize::Grow(Edge::Bottom))
            } else {
                None
            }
        }
    }

    /// What the keys ask of the grid, if anything.
    pub fn request(&self) -> (request: Option<Resize>)
        ensures
            request == self.spec_request(),
    {
        if self.shift {
            if self.left {
                Some(Resize::Shrink(Edge::Right))
            } else if self.right {
                Some(Resize::Shrink(Edge::Left))
            } else if self.up {
                Some(Resize::Shrink(Edge::Bottom))
            } else if self.down {
                Some(Resize::Shrink(Edge::Top))
            } else {
                None
            }
        } else {
            if self.left {
                Some(Resize::Grow(Edge::Left))
            } else if self.right {
                Some(Resize::Grow(Edge::Right))
            } else if self.up {
                Some(Resize::Grow(Edge::Top))
            } else if self.down {
                Some(Resize::Grow(Edge::Bottom))
            } else {
                None
            }
        }
    }

    /// The icon that the tool changes to at this frame, if it changes.
    pub open spec fn spec_icon(&self) -> Option<usize> {
        if self.shift {
            if self.shift_just_pressed {
                Some(ICON_CROP)
            } else {
                None
            }
        } else {
            if self.shift_just_released {
                Some(ICON_EXTEND)
            } else {
                None
            }
        }
    }

    /// The icon that the tool changes to at this frame, if it changes.
    pub fn icon(&self) -> (icon: Option<usize>)
        ensures
            icon == self.spec_icon(),
    {
        if self.shift {
            if self.shift_just_pressed {
                Some(ICON_CROP)
            } else {
                None
            }
        } else {
            if self.shift_just_released {
                Some(ICON_EXTEND)
            } else {
                None
            }
        }
    }
}

/// What is asked of the grid at a frame: what the keys ask, if the resize
/// tool is selected.
pub open spec fn asked_of(tool: SelectedTool, keys: ResizeKeys) -> Option<Resize> {
    if tool.0 is Resize {
        keys.spec_request()
    } else {
        None
    }
}

/// Carries the keys of one frame out on the grid. Returns whether the
/// rectangle changed, that is whether a reconciliation is due.
pub fn update(tool: &SelectedTool, keys: &ResizeKeys, grid: &mut Grid) -> (resized: bool)
    requires
        old(grid).wf(),
    ensures
        final(grid).wf(),
        final(grid).same_cells(old(grid)),
        match asked_of(*tool, *keys) {
            Some(change) => {
                &&& resized == old(grid).accepts(change)
                &&& final(grid).rect4() == old(grid).asked(change)
                &&& final(grid).spec_resized() == (old(grid).spec_resized() || resized)
            },
            None => {
                &&& !resized
                &&& final(grid).same_rect(old(grid))
                &&& final(grid).spec_resized() == old(grid).spec_resized()
            },
        },
{
    match tool.0 {
        crate::tools::Tools::Resize => {},
        _ => {
            return false;
        },
    }
    match keys.request() {
        Some(change) => grid.resize(change),
        None => false,
    }
}

} // verus!
