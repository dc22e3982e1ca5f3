//! The tools of the editor.
use vstd::prelude::*;

pub mod eraser;
pub mod export;
pub mod import;
pub mod pencil;
pub mod resize;
pub mod round_trip;
pub mod text;

verus! {

/// A tool of the toolbar.
#[derive(Clone, Copy, PartialEq, Debug)]
pub enum Tools {
    Pencil,
    Eraser,
    Pick,
    Text,
    Resize,
    Export,
    Import,
    Custom(&'static str),
    CustomNonSelectable(&'static str),
}

impl Tools {
    /// Whether a click on the tool makes it the selected tool. Export,
    /// import and the custom tools marked so act at once instead.
    pub open spec fn spec_is_selectable(&self) -> bool {
        !(*self is Export || *self is Import || *self is CustomNonSelectable)
    }

    /// Whether a click on the tool makes it the selected tool.
    pub fn is_selectable(&self) -> (selectable: bool)
        ensures
            selectable == self.spec_is_selectable(),
    {
        match self {
            Tools::Export | Tools::Import | Tools::CustomNonSelectable(_) => false,
            _ => true,
        }
    }
}

} // verus!
