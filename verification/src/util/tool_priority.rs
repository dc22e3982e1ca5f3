use vstd::prelude::*;

verus! {

pub const PENCIL: u16 = 0;

pub const FILL: u16 = 10;

pub const ERASER: u16 = 20;

pub const SELECT: u16 = 30;

pub const PICK: u16 = 40;

pub const TEXT: u16 = 50;

pub const RESIZE: u16 = 60;

pub const EXPORT: u16 = 70;

pub const IMPORT: u16 = 80;

} // verus!
