//! Points and segments of brush strokes.

use vstd::prelude::*;

verus! {

/// The modifier keys that matter to a stroke.
#[derive(Clone, Copy, Debug, PartialEq, Eq, Structural)]
pub struct StrokeModifiers {
    pub shift: bool,
    pub ctrl: bool,
}

impl Default for StrokeModifiers {
    fn default() -> (m: StrokeModifiers)
        ensures
            !m.shift,
            !m.ctrl,
    {
        StrokeModifiers { shift: false, ctrl: false }
    }
}

/// A position on screen; the coordinates are bit patterns of single-precision numbers.
#[derive(Clone, Copy, Debug, PartialEq, Eq, Structural)]
pub struct ScenePos {
    pub x: u32,
    pub y: u32,
}

/// One sample of a stroke.
#[derive(Clone, Copy, Debug, PartialEq, Eq, Structural)]
pub struct StrokePoint {
    pub page_idx: usize,
    pub scene_pos: ScenePos,
    pub modifiers: StrokeModifiers,
}

/// A piece of a stroke inside the region editor, in pixels of the region.
#[derive(Clone, Copy, Debug, PartialEq, Eq, Structural)]
pub struct RegionEditorStrokeSegment {
    pub from_x: i32,
    pub from_y: i32,
    pub to_x: i32,
    pub to_y: i32,
    pub erase: bool,
    pub shift: bool,
}

} // verus!
