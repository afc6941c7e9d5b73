//! Selecting a region of a page and editing it in a window of its own.

use vstd::prelude::*;
use vstd::string::StringExecFns;
use crate::color::ColorImage;
use crate::float_bits::is_negligible;
#[allow(unused_imports)]
use crate::float_bits::{is_nan, negligible};
use crate::jobs::ProjectPage;
#[allow(unused_imports)]
use crate::jobs::{is_first_with, page_known, says};
use crate::overlay_rect::{snap_selection_end, OverlayRectPx};
#[allow(unused_imports)]
use crate::overlay_rect::{limited, snap_fits, snapped_end};
use crate::strokes::{RegionEditorStrokeSegment, ScenePos, StrokePoint};
use crate::text::append_decimal;
#[allow(unused_imports)]
use crate::text::decimal;

verus! {

/// The two corners of a selection in pixels of the page, and the size of the page.
#[derive(Clone, Copy, Debug, PartialEq, Eq, Structural)]
pub struct SelectionPoints {
    pub start_x: i32,
    pub start_y: i32,
    pub end_x: i32,
    pub end_y: i32,
    pub source_w: usize,
    pub source_h: usize,
}

impl SelectionPoints {
    /// The corners lie on the page, and its pixels can be counted.
    pub open spec fn wf(self) -> bool {
        &&& 0 <= self.start_x <= self.source_w <= i32::MAX
        &&& 0 <= self.end_x <= self.source_w
        &&& 0 <= self.start_y <= self.source_h <= i32::MAX
        &&& 0 <= self.end_y <= self.source_h
    }

    /// The corners lie on the page, and so that their selection can be snapped to the multiple.
    pub open spec fn fits(self, multiple: Option<usize>) -> bool {
        &&& self.wf()
        &&& multiple is Some && multiple->0 > 1 ==> {
            &&& snap_fits(self.start_x as int, self.end_x as int, multiple->0 as int)
            &&& snap_fits(self.start_y as int, self.end_y as int, multiple->0 as int)
        }
    }
}

/// One direction of a selection: its first pixel and the one past its last.
pub open spec fn selected_range(start: int, end: int, size: int, multiple: Option<usize>) -> (int, int) {
    let e = if multiple is Some && multiple->0 > 1 {
        snapped_end(start, end, size, multiple->0 as int)
    } else {
        end
    };
    if start < e {
        (limited(start, size), limited(e, size))
    } else {
        (limited(e, size), limited(start, size))
    }
}

/// The selected rectangle, if it has any pixels.
pub open spec fn selected_rect(p: SelectionPoints, multiple: Option<usize>) -> Option<OverlayRectPx> {
    let rx = selected_range(p.start_x as int, p.end_x as int, p.source_w as int, multiple);
    let ry = selected_range(p.start_y as int, p.end_y as int, p.source_h as int, multiple);
    if rx.1 <= rx.0 || ry.1 <= ry.0 {
        None
    } else {
        Some(
            OverlayRectPx {
                x: rx.0 as usize,
                y: ry.0 as usize,
                w: (rx.1 - rx.0) as usize,
                h: (ry.1 - ry.0) as usize,
            },
        )
    }
}

fn select_range(start: i32, end: i32, size: usize, multiple: Option<usize>) -> (r: (i32, i32))
    requires
        0 <= start <= size,
        0 <= end <= size,
        size <= i32::MAX,
        multiple is Some && multiple->0 > 1 ==> snap_fits(
            start as int,
            end as int,
            multiple->0 as int,
        ),
    ensures
        (r.0 as int, r.1 as int) == selected_range(start as int, end as int, size as int, multiple),
        0 <= r.0 <= size,
        0 <= r.1 <= size,
{
    let mut e: i32 = end;
    match multiple {
        Some(m) => {
            if m > 1 {
                e = snap_selection_end(start, end, size as i32, m);
            }
        },
        None => {},
    }
    if start < e {
        (start, e)
    } else {
        (e, start)
    }
}

/// The rectangle between two corners, snapped to the multiple if there is one.
pub fn select_rect(p: SelectionPoints, multiple: Option<usize>) -> (r: Option<OverlayRectPx>)
    requires
        p.fits(multiple),
    ensures
        r == selected_rect(p, multiple),
{
    let rx = select_range(p.start_x, p.end_x, p.source_w, multiple);
    let ry = select_range(p.start_y, p.end_y, p.source_h, multiple);
    if rx.1 <= rx.0 || ry.1 <= ry.0 {
        return None;
    }
    Some(
        OverlayRectPx {
            x: rx.0 as usize,
            y: ry.0 as usize,
            w: (rx.1 - rx.0) as usize,
            h: (ry.1 - ry.0) as usize,
        },
    )
}

/// A selection lies on the page and is never empty.
pub proof fn selections_lie_on_the_page(p: SelectionPoints, multiple: Option<usize>)
    requires
        p.wf(),
        selected_rect(p, multiple) is Some,
    ensures
        ({
            let r = selected_rect(p, multiple)->0;
            &&& 0 < r.w && 0 < r.h
            &&& r.x + r.w <= p.source_w
            &&& r.y + r.h <= p.source_h
        }),
{
}

/// A finished selection that waits for its picture.
pub struct PendingRegionSelection {
    pub page_idx: usize,
    pub source_rect: OverlayRectPx,
    pub source_size: (usize, usize),
    pub overlay_chunk: Option<ColorImage>,
}

/// A request for the picture of a region.
pub struct RegionLoadRequest {
    pub job_id: u64,
    pub page_idx: usize,
    pub source_rect: OverlayRectPx,
    pub source_size: (usize, usize),
    pub page_path: String,
    pub overlay_chunk: Option<ColorImage>,
}

/// The answer to such a request.
pub struct RegionLoadResult {
    pub job_id: u64,
    pub page_idx: usize,
    pub target_rect_px: OverlayRectPx,
    pub image: Result<ColorImage, String>,
}

/// A region that is being edited.
pub struct RegionEditorSession {
    pub page_idx: usize,
    pub target_rect_px: OverlayRectPx,
    pub image: ColorImage,
    pub texture_dirty: bool,
    pub status: Option<String>,
    /// The bit pattern of the magnification.
    pub zoom: u32,
    pub scroll_id: u64,
    pub zoom_drag_active: bool,
    /// The bit pattern of the column where the pointer last was.
    pub zoom_drag_last_x: u32,
}

/// The bit pattern of one.
pub const ZOOM_ONE: u32 = 0x3F80_0000;

/// What the zoom keys ask for.
#[derive(Clone, Copy, Debug, PartialEq, Eq, Structural)]
pub struct ZoomKeys {
    pub reset: bool,
    pub zoom_in: bool,
    pub zoom_out: bool,
}

/// A drag that changes the zoom: the column where it was and where it is now.
#[derive(Clone, Copy, Debug, PartialEq, Eq, Structural)]
pub struct ZoomDrag {
    pub from_x: u32,
    pub to_x: u32,
}

impl RegionEditorSession {
    pub fn zoom(&self) -> (z: u32)
        ensures
            z == self.zoom,
    {
        self.zoom
    }

    /// Whether the wheel zooms in (`true`) or out, if it zooms at all.
    pub fn wheel_zoom(&self, inside_window: bool, zoom_modifier_down: bool, wheel_delta: u32) -> (z: Option<
        bool,
    >)
        ensures
            z == if inside_window && zoom_modifier_down && !negligible(wheel_delta) && !is_nan(
                wheel_delta,
            ) {
                Some(wheel_delta < 0x8000_0000)
            } else {
                None
            },
    {
        let m: u32 = if wheel_delta < 0x8000_0000 { wheel_delta } else { wheel_delta - 0x8000_0000 };
        if inside_window && zoom_modifier_down && !is_negligible(wheel_delta) && m <= 0x7F80_0000 {
            Some(wheel_delta < 0x8000_0000)
        } else {
            None
        }
    }

    /// Follows a drag that zooms.  It begins with a press inside the window while the zoom key is
    /// held, and ends when either is released.
    pub fn drag_zoom(
        &mut self,
        inside_window: bool,
        zoom_modifier_down: bool,
        primary_down: bool,
        pointer_x: Option<u32>,
    ) -> (d: Option<ZoomDrag>)
        ensures
            ({
                let held = zoom_modifier_down && primary_down;
                let begins = !old(self).zoom_drag_active && held && inside_window && pointer_x
                    is Some;
                let goes_on = old(self).zoom_drag_active && held;
                &&& *final(self) == (RegionEditorSession {
                    zoom_drag_active: begins || goes_on,
                    zoom_drag_last_x: if pointer_x is Some && (begins || goes_on) {
                        pointer_x->0
                    } else {
                        old(self).zoom_drag_last_x
                    },
                    ..*old(self)
                })
                &&& d == if goes_on && pointer_x is Some {
                    Some(
                        ZoomDrag { from_x: old(self).zoom_drag_last_x, to_x: pointer_x->0 },
                    )
                } else {
                    None
                }
            }),
    {
        if self.zoom_drag_active {
            if !zoom_modifier_down || !primary_down {
                self.zoom_drag_active = false;
                return None;
            }
            match pointer_x {
                Some(x) => {
                    let from_x: u32 = self.zoom_drag_last_x;
                    self.zoom_drag_last_x = x;
                    Some(ZoomDrag { from_x, to_x: x })
                },
                None => None,
            }
        } else {
            if zoom_modifier_down && primary_down && inside_window {
                match pointer_x {
                    Some(x) => {
                        self.zoom_drag_active = true;
                        self.zoom_drag_last_x = x;
                    },
                    None => {},
                }
            }
            None
        }
    }

    /// What the zoom keys do: a reset excludes the others.
    pub fn key_zoom(
        &self,
        inside_window: bool,
        zoom_modifier_down: bool,
        wants_keyboard_input: bool,
        plus: bool,
        equals: bool,
        minus: bool,
        zero: bool,
    ) -> (k: ZoomKeys)
        ensures
            ({
                let may = zoom_modifier_down && inside_window && !wants_keyboard_input;
                k == (ZoomKeys {
                    reset: may && zero,
                    zoom_in: may && !zero && (plus || equals),
                    zoom_out: may && !zero && minus,
                })
            }),
    {
        let may: bool = zoom_modifier_down && inside_window && !wants_keyboard_input;
        ZoomKeys {
            reset: may && zero,
            zoom_in: may && !zero && (plus || equals),
            zoom_out: may && !zero && minus,
        }
    }
}

/// Input over the picture of a region editor.
#[derive(Clone, Copy, Debug)]
pub struct ImageStrokeInput {
    /// The pixel under the pointer, if the pointer is over the picture.
    pub at: Option<(i32, i32)>,
    pub primary_down: bool,
    pub secondary_down: bool,
    pub shift: bool,
    pub zoom_modifier_down: bool,
    pub zoom_drag_active: bool,
}

impl RegionEditorSession {
    /// Notes whether a tool changed the picture with a segment; a changed picture is sent to the
    /// graphics card again.
    pub fn segment_drawn(&mut self, changed: bool)
        ensures
            *final(self) == (RegionEditorSession {
                texture_dirty: old(self).texture_dirty || changed,
                ..*old(self)
            }),
    {
        if changed {
            self.texture_dirty = true;
        }
    }
}

/// The segment that input draws, and the pixel from which the next one goes on.
pub open spec fn drawn_segment(last: Option<(i32, i32)>, i: ImageStrokeInput, erase: bool) -> (Option<
    RegionEditorStrokeSegment,
>, Option<(i32, i32)>) {
    let from0 = if i.zoom_modifier_down || i.zoom_drag_active {
        None
    } else {
        last
    };
    let down = i.primary_down || i.secondary_down;
    if i.at is Some && down && !i.zoom_modifier_down && !i.zoom_drag_active {
        let to = i.at->0;
        let from = match from0 {
            Some(p) => p,
            None => to,
        };
        (
            Some(
                RegionEditorStrokeSegment {
                    from_x: from.0,
                    from_y: from.1,
                    to_x: to.0,
                    to_y: to.1,
                    erase,
                    shift: i.shift,
                },
            ),
            Some(to),
        )
    } else if !down {
        (None, None)
    } else {
        (None, from0)
    }
}

/// The segment of a stroke over a mask: the secondary button alone or Shift erases.
pub open spec fn segment_of(last: Option<(i32, i32)>, i: ImageStrokeInput) -> (Option<
    RegionEditorStrokeSegment,
>, Option<(i32, i32)>) {
    drawn_segment(last, i, (i.secondary_down && !i.primary_down) || i.shift)
}

/// The segment of a stroke over the picture itself: the secondary button alone erases, and Shift
/// is handed on.
pub open spec fn picture_segment_of(last: Option<(i32, i32)>, i: ImageStrokeInput) -> (Option<
    RegionEditorStrokeSegment,
>, Option<(i32, i32)>) {
    drawn_segment(last, i, i.secondary_down && !i.primary_down)
}

fn follow_input(last: &mut Option<(i32, i32)>, i: ImageStrokeInput, erase: bool) -> (s: Option<
    RegionEditorStrokeSegment,
>)
    ensures
        (s, *final(last)) == drawn_segment(*old(last), i, erase),
{
    if i.zoom_modifier_down || i.zoom_drag_active {
        *last = None;
    }
    let mut s: Option<RegionEditorStrokeSegment> = None;
    match i.at {
        Some(to) => {
            if (i.primary_down || i.secondary_down) && !i.zoom_modifier_down && !i.zoom_drag_active {
                let from = match *last {
                    Some(p) => p,
                    None => to,
                };
                s = Some(
                    RegionEditorStrokeSegment {
                        from_x: from.0,
                        from_y: from.1,
                        to_x: to.0,
                        to_y: to.1,
                        erase,
                        shift: i.shift,
                    },
                );
                *last = Some(to);
            }
        },
        None => {},
    }
    if !(i.primary_down || i.secondary_down) {
        *last = None;
    }
    s
}

/// Turns input over the picture into a segment of a mask stroke: the secondary button or Shift
/// erases, and the zoom keys break the stroke off.
pub fn image_stroke_segment(last: &mut Option<(i32, i32)>, i: ImageStrokeInput) -> (s: Option<
    RegionEditorStrokeSegment,
>)
    ensures
        (s, *final(last)) == segment_of(*old(last), i),
{
    follow_input(last, i, (i.secondary_down && !i.primary_down) || i.shift)
}

/// Turns input over the picture into a segment of a stroke that a tool draws on the picture: the
/// secondary button erases, Shift is left to the tool, and the zoom keys break the stroke off.
pub fn picture_stroke_segment(last: &mut Option<(i32, i32)>, i: ImageStrokeInput) -> (s: Option<
    RegionEditorStrokeSegment,
>)
    ensures
        (s, *final(last)) == picture_segment_of(*old(last), i),
{
    follow_input(last, i, i.secondary_down && !i.primary_down)
}

/// Consecutive segments of a stroke join: the next one starts where the last one ended.
pub proof fn segments_join(
    last: Option<(i32, i32)>,
    i: ImageStrokeInput,
    erase: bool,
    j: ImageStrokeInput,
    erase_next: bool,
)
    requires
        drawn_segment(last, i, erase).0 is Some,
        drawn_segment(drawn_segment(last, i, erase).1, j, erase_next).0 is Some,
    ensures
        ({
            let a = drawn_segment(last, i, erase).0->0;
            let b = drawn_segment(drawn_segment(last, i, erase).1, j, erase_next).0->0;
            b.from_x == a.to_x && b.from_y == a.to_y
        }),
{
}

/// The tool that selects regions and opens them in an editor.
pub struct RegionEditToolBase {
    pub selection_multiple: Option<usize>,
    pub selecting_page_idx: Option<usize>,
    pub selection_start_scene: Option<ScenePos>,
    pub selection_current_scene: Option<ScenePos>,
    /// The selection as it is drawn, in pixels of the page.
    pub selection_rect: Option<OverlayRectPx>,
    pub pending_selection: Option<PendingRegionSelection>,
    pub pending_job_id: Option<u64>,
    pub next_job_id: u64,
    pub load_error: Option<String>,
    pub editor_session_id: u64,
    pub editor_window_shown: bool,
    pub editor: Option<RegionEditorSession>,
    pub force_center_after_load: bool,
}

/// What the windows of the tool asked for in a frame.
#[derive(Clone, Copy, Debug, PartialEq, Eq, Structural)]
pub struct EditorFrame {
    /// The editor window was not closed by its frame.
    pub keep_open: bool,
    /// The cancel button was pressed.
    pub request_close: bool,
    /// The apply button was pressed; whether the overlay took the picture.
    pub applied: Option<bool>,
    /// Loading was cancelled.
    pub cancel_pending: bool,
}

/// A tool with nothing selected, loaded or open.
pub open spec fn idle_tool(selection_multiple: Option<usize>) -> RegionEditToolBase {
    RegionEditToolBase {
        selection_multiple,
        selecting_page_idx: None,
        selection_start_scene: None,
        selection_current_scene: None,
        selection_rect: None,
        pending_selection: None,
        pending_job_id: None,
        next_job_id: 1,
        load_error: None,
        editor_session_id: 0,
        editor_window_shown: false,
        editor: None,
        force_center_after_load: false,
    }
}

fn rect_for(points: Option<SelectionPoints>, multiple: Option<usize>) -> (r: Option<OverlayRectPx>)
    requires
        points is Some ==> (points->0).fits(multiple),
    ensures
        r == match points {
            Some(p) => selected_rect(p, multiple),
            None => None,
        },
{
    match points {
        Some(p) => select_rect(p, multiple),
        None => None,
    }
}

impl RegionEditToolBase {
    /// The tool after a selection was started.
    pub open spec fn begun(self, point: StrokePoint, points: Option<SelectionPoints>) -> RegionEditToolBase {
        RegionEditToolBase {
            selecting_page_idx: Some(point.page_idx),
            selection_start_scene: Some(point.scene_pos),
            selection_current_scene: Some(point.scene_pos),
            selection_rect: match points {
                Some(p) => selected_rect(p, self.selection_multiple),
                None => None,
            },
            ..self
        }
    }

    /// The tool after the end of its selection moved; a point on another page changes nothing.
    pub open spec fn followed(self, point: StrokePoint, points: Option<SelectionPoints>) -> RegionEditToolBase {
        if self.selecting_page_idx == Some(point.page_idx) && self.selection_start_scene is Some {
            RegionEditToolBase {
                selection_current_scene: Some(point.scene_pos),
                selection_rect: match points {
                    Some(p) => selected_rect(p, self.selection_multiple),
                    None => None,
                },
                ..self
            }
        } else {
            self
        }
    }

    /// The tool after its selection ended; one with pixels waits for its picture.
    pub open spec fn ended(
        self,
        points: Option<SelectionPoints>,
        overlay_chunk: Option<ColorImage>,
    ) -> RegionEditToolBase {
        let drawn = self.selecting_page_idx is Some && self.selection_start_scene is Some
            && self.selection_current_scene is Some && points is Some;
        let rect = selected_rect(points->0, self.selection_multiple);
        let taken = drawn && rect is Some;
        RegionEditToolBase {
            selecting_page_idx: None,
            selection_start_scene: None,
            selection_current_scene: None,
            selection_rect: None,
            pending_selection: if taken {
                Some(
                    PendingRegionSelection {
                        page_idx: self.selecting_page_idx->0,
                        source_rect: rect->0,
                        source_size: ((points->0).source_w, (points->0).source_h),
                        overlay_chunk,
                    },
                )
            } else {
                self.pending_selection
            },
            load_error: if taken {
                None
            } else {
                self.load_error
            },
            ..self
        }
    }

    /// The tool after its selection was dropped.
    pub open spec fn cancelled(self) -> RegionEditToolBase {
        RegionEditToolBase {
            selecting_page_idx: None,
            selection_start_scene: None,
            selection_current_scene: None,
            selection_rect: None,
            pending_selection: None,
            pending_job_id: None,
            editor_window_shown: false,
            force_center_after_load: false,
            ..self
        }
    }

    pub fn new(selection_multiple: Option<usize>) -> (t: RegionEditToolBase)
        ensures
            t == idle_tool(selection_multiple),
    {
        RegionEditToolBase {
            selection_multiple,
            selecting_page_idx: None,
            selection_start_scene: None,
            selection_current_scene: None,
            selection_rect: None,
            pending_selection: None,
            pending_job_id: None,
            next_job_id: 1,
            load_error: None,
            editor_session_id: 0,
            editor_window_shown: false,
            editor: None,
            force_center_after_load: false,
        }
    }

    pub fn wants_primary_stroke(&self, point: StrokePoint) -> (b: bool)
        ensures
            b == point.modifiers.shift,
    {
        point.modifiers.shift
    }

    /// Starts a selection.  `points` are its corners, if the page is on screen.
    pub fn begin_selection(&mut self, point: StrokePoint, points: Option<SelectionPoints>)
        requires
            points is Some ==> (points->0).fits(old(self).selection_multiple),
        ensures
            *final(self) == old(self).begun(point, points),
    {
        self.selecting_page_idx = Some(point.page_idx);
        self.selection_start_scene = Some(point.scene_pos);
        self.selection_current_scene = Some(point.scene_pos);
        self.selection_rect = rect_for(points, self.selection_multiple);
    }

    /// Moves the end of the selection; a point on another page is ignored.
    pub fn update_selection(&mut self, point: StrokePoint, points: Option<SelectionPoints>)
        requires
            points is Some ==> (points->0).fits(old(self).selection_multiple),
        ensures
            *final(self) == old(self).followed(point, points),
    {
        match self.selecting_page_idx {
            Some(p) => {
                if p != point.page_idx {
                    return;
                }
            },
            None => {
                return;
            },
        }
        if self.selection_start_scene.is_none() {
            return;
        }
        self.selection_current_scene = Some(point.scene_pos);
        self.selection_rect = rect_for(points, self.selection_multiple);
    }

    /// Ends the selection.  If it has pixels it waits for its picture, with the overlay under it.
    pub fn end_selection(
        &mut self,
        points: Option<SelectionPoints>,
        overlay_chunk: Option<ColorImage>,
    )
        requires
            points is Some ==> (points->0).fits(old(self).selection_multiple),
        ensures
            *final(self) == old(self).ended(points, overlay_chunk),
    {
        let page_idx = self.selecting_page_idx.take();
        let start = self.selection_start_scene.take();
        let current = self.selection_current_scene.take();
        self.selection_rect = None;
        let page_idx = match page_idx {
            Some(p) => p,
            None => {
                return;
            },
        };
        if start.is_none() || current.is_none() {
            return;
        }
        let p = match points {
            Some(p) => p,
            None => {
                return;
            },
        };
        match select_rect(p, self.selection_multiple) {
            None => {},
            Some(rect) => {
                self.pending_selection = Some(
                    PendingRegionSelection {
                        page_idx,
                        source_rect: rect,
                        source_size: (p.source_w, p.source_h),
                        overlay_chunk,
                    },
                );
                self.load_error = None;
            },
        }
    }

    /// Drops the selection and whatever was being loaded for it.
    pub fn cancel_selection(&mut self)
        ensures
            *final(self) == old(self).cancelled(),
    {
        self.selecting_page_idx = None;
        self.selection_start_scene = None;
        self.selection_current_scene = None;
        self.selection_rect = None;
        self.pending_selection = None;
        self.pending_job_id = None;
        self.editor_window_shown = false;
        self.force_center_after_load = false;
    }

    pub fn has_open_editor(&self) -> (b: bool)
        ensures
            b == (self.editor is Some),
    {
        self.editor.is_some()
    }

    /// Turns a waiting selection into a request for its picture, unless one is under way.  A page
    /// that the project does not have is an error.
    pub fn start_pending_job(&mut self, pages: &Vec<ProjectPage>) -> (req: Option<RegionLoadRequest>)
        ensures
            ({
                let free = old(self).pending_job_id is None && old(self).pending_selection is Some;
                let sel = old(self).pending_selection->0;
                let known = page_known(pages@, sel.page_idx);
                &&& req is Some <==> free && known
                &&& !free ==> *final(self) == *old(self)
                &&& free && !known ==> says(
                    final(self).load_error,
                    "Не найдена страница с idx="@ + decimal(sel.page_idx as nat)
                        + " для выделенного региона."@,
                ) && *final(self) == (RegionEditToolBase {
                    pending_selection: None,
                    load_error: final(self).load_error,
                    ..*old(self)
                })
                &&& free && known ==> {
                    let r = req->0;
                    &&& *final(self) == (RegionEditToolBase {
                        pending_selection: None,
                        next_job_id: if old(self).next_job_id == u64::MAX {
                            u64::MAX
                        } else {
                            (old(self).next_job_id + 1) as u64
                        },
                        ..*old(self)
                    })
                    &&& r.job_id == old(self).next_job_id
                    &&& r.page_idx == sel.page_idx
                    &&& r.source_rect == sel.source_rect
                    &&& r.source_size == sel.source_size
                    &&& r.overlay_chunk == sel.overlay_chunk
                    &&& exists|i: int|
                        is_first_with(pages@, sel.page_idx, i) && r.page_path@ == (
                        #[trigger] pages@[i]).path@
                }
            }),
    {
        if self.pending_job_id.is_some() {
            return None;
        }
        let selection = match self.pending_selection.take() {
            Some(s) => s,
            None => {
                return None;
            },
        };
        let mut i: usize = 0;
        while i < pages.len() && pages[i].idx != selection.page_idx
            invariant
                i <= pages@.len(),
                forall|k: int| 0 <= k < i ==> (#[trigger] pages@[k]).idx != selection.page_idx,
            decreases pages@.len() - i,
        {
            i += 1;
        }
        if i >= pages.len() {
            let mut s = String::from_str("Не найдена страница с idx=");
            append_decimal(&mut s, selection.page_idx);
            s.append(" для выделенного региона.");
            self.load_error = Some(s);
            return None;
        }
        assert(is_first_with(pages@, selection.page_idx, i as int));
        assert(pages@[i as int].idx == selection.page_idx);
        let job_id: u64 = self.next_job_id;
        self.next_job_id = self.next_job_id.saturating_add(1);
        let page_path = pages[i].path.clone();
        Some(
            RegionLoadRequest {
                job_id,
                page_idx: selection.page_idx,
                source_rect: selection.source_rect,
                source_size: selection.source_size,
                page_path,
                overlay_chunk: selection.overlay_chunk,
            },
        )
    }

    /// Records whether the loader took the request.
    pub fn job_sent(&mut self, job_id: u64, ok: bool)
        ensures
            ok ==> *final(self) == (RegionEditToolBase {
                pending_job_id: Some(job_id),
                load_error: None,
                force_center_after_load: true,
                ..*old(self)
            }),
            !ok ==> says(
                final(self).load_error,
                "Не удалось отправить задачу загрузки региона."@,
            ) && *final(self) == (RegionEditToolBase {
                load_error: final(self).load_error,
                force_center_after_load: false,
                ..*old(self)
            }),
    {
        if ok {
            self.pending_job_id = Some(job_id);
            self.load_error = None;
            self.force_center_after_load = true;
        } else {
            self.load_error = Some(
                String::from_str("Не удалось отправить задачу загрузки региона."),
            );
            self.force_center_after_load = false;
        }
    }

    /// Takes in a loaded picture.  Only the answer to the request under way counts; it opens the
    /// editor, or tells why it cannot.
    pub fn poll_loaded_region(&mut self, result: RegionLoadResult) -> (opened: bool)
        ensures
            ({
                let ours = old(self).pending_job_id == Some(result.job_id);
                &&& opened == (ours && result.image is Ok)
                &&& !ours ==> *final(self) == *old(self)
                &&& ours && result.image is Ok ==> *final(self) == (RegionEditToolBase {
                    pending_job_id: None,
                    editor_session_id: if old(self).editor_session_id == u64::MAX {
                        u64::MAX
                    } else {
                        (old(self).editor_session_id + 1) as u64
                    },
                    editor: Some(
                        RegionEditorSession {
                            page_idx: result.page_idx,
                            target_rect_px: result.target_rect_px,
                            image: result.image->Ok_0,
                            texture_dirty: true,
                            status: None,
                            zoom: ZOOM_ONE,
                            scroll_id: old(self).editor_session_id,
                            zoom_drag_active: false,
                            zoom_drag_last_x: 0,
                        },
                    ),
                    load_error: None,
                    ..*old(self)
                })
                &&& ours && result.image is Err ==> *final(self) == (RegionEditToolBase {
                    pending_job_id: None,
                    load_error: Some(result.image->Err_0),
                    ..*old(self)
                })
            }),
    {
        match self.pending_job_id {
            None => {
                return false;
            },
            Some(id) => {
                if id != result.job_id {
                    return false;
                }
            },
        }
        self.pending_job_id = None;
        match result.image {
            Ok(image) => {
                let id: u64 = self.editor_session_id;
                self.editor_session_id = id.saturating_add(1);
                self.editor = Some(
                    RegionEditorSession {
                        page_idx: result.page_idx,
                        target_rect_px: result.target_rect_px,
                        image,
                        texture_dirty: true,
                        status: None,
                        zoom: ZOOM_ONE,
                        scroll_id: id,
                        zoom_drag_active: false,
                        zoom_drag_last_x: 0,
                    },
                );
                self.load_error = None;
                true
            },
            Err(err) => {
                self.load_error = Some(err);
                false
            },
        }
    }

    /// The loader is gone.
    pub fn loader_disconnected(&mut self)
        ensures
            says(
                final(self).load_error,
                "Поток загрузки region editor завершился неожиданно."@,
            ),
            *final(self) == (RegionEditToolBase {
                pending_job_id: None,
                load_error: final(self).load_error,
                ..*old(self)
            }),
    {
        self.pending_job_id = None;
        self.load_error = Some(
            String::from_str("Поток загрузки region editor завершился неожиданно."),
        );
    }

    /// Carries out what the windows asked for, after they were drawn.  A window is centred only in
    /// the first frame that draws it.  An applied or closed editor goes away, a refused
    /// picture leaves it open with a message, and a cancelled load drops everything.
    pub fn finish_frame(&mut self, f: EditorFrame)
        ensures
            ({
                let opened = old(self).editor is Some;
                let stays = f.keep_open && !f.request_close && !(opened && f.applied == Some(true))
                    && !f.cancel_pending;
                &&& stays && opened && f.applied == Some(false) ==> final(self).editor is Some && says(
                    (final(self).editor->0).status,
                    "Не удалось вставить результат в слой clean overlay."@,
                ) && final(self).editor == Some(
                    RegionEditorSession {
                        status: (final(self).editor->0).status,
                        ..old(self).editor->0
                    },
                )
                &&& stays && !(opened && f.applied == Some(false)) ==> final(self).editor == old(
                    self,
                ).editor
                &&& !stays ==> final(self).editor is None
                &&& *final(self) == (RegionEditToolBase {
                    editor: final(self).editor,
                    pending_job_id: if f.cancel_pending {
                        None
                    } else {
                        old(self).pending_job_id
                    },
                    pending_selection: if f.cancel_pending {
                        None
                    } else {
                        old(self).pending_selection
                    },
                    editor_window_shown: old(self).editor_window_shown && stays,
                    force_center_after_load: old(self).force_center_after_load && stays && !opened,
                    ..*old(self)
                })
            }),
    {
        let mut keep_open: bool = f.keep_open && !f.request_close;
        match self.editor.take() {
            Some(mut editor) => {
                match f.applied {
                    Some(taken) => {
                        if taken {
                            keep_open = false;
                        } else {
                            editor.status = Some(
                                String::from_str(
                                    "Не удалось вставить результат в слой clean overlay.",
                                ),
                            );
                        }
                    },
                    None => {},
                }
                self.editor = Some(editor);
                self.force_center_after_load = false;
            },
            None => {},
        }
        if f.cancel_pending {
            self.pending_job_id = None;
            self.pending_selection = None;
            self.editor = None;
            self.editor_window_shown = false;
            self.force_center_after_load = false;
        }
        if !keep_open {
            self.editor = None;
            self.editor_window_shown = false;
            self.force_center_after_load = false;
        }
    }
}

} // verus!
