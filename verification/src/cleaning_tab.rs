//! The cleaning tab: which tool is active, where pointer input goes, and what the canvas must not
//! do meanwhile.

use vstd::prelude::*;
use crate::float_bits::{is_negligible, numbers_equal};
#[allow(unused_imports)]
use crate::float_bits::{negligible, same_number};
#[allow(unused_imports)]
use crate::jobs::no_progress;
use crate::jobs::{MaskLoadJob, QuickCleanJob, SaveJob};
use crate::quick_clean::UnevenBackgroundTool;
use crate::strokes::{ScenePos, StrokeModifiers, StrokePoint};
use crate::text_mask::{CacheEvictionReport, CacheResourceInfo, TextMaskTextures};
#[allow(unused_imports)]
use crate::text_mask::{chosen, describes, evicted, freed, kept};

verus! {

/// What the tab has to know of a tool.
#[derive(Debug)]
pub struct ToolInfo {
    pub title: String,
    pub pytorch_required: bool,
}

/// How many buttons stand in a row of the tool panel.
pub const TOOL_BUTTONS_PER_ROW: usize = 3;

/// The button of a tool; it cannot be pressed while the tool is not available.
#[derive(Clone, Copy, Debug, PartialEq, Eq, Structural)]
pub struct ToolButton {
    pub idx: usize,
    pub available: bool,
}

/// The tools in row `r` of a group.
pub open spec fn row_of(indices: Seq<usize>, r: int) -> Seq<usize> {
    let start = r * TOOL_BUTTONS_PER_ROW;
    let end = start + TOOL_BUTTONS_PER_ROW;
    indices.subrange(
        start,
        if end < indices.len() {
            end
        } else {
            indices.len() as int
        },
    )
}

/// The last report on the inference backend.
#[derive(Clone, Copy, Debug, PartialEq, Eq, Structural)]
pub struct AiBackendHealth {
    pub connected: bool,
    pub is_torch_available: Option<bool>,
}

/// The stroke that is being drawn.
#[derive(Clone, Copy, Debug, PartialEq, Eq, Structural)]
pub struct StrokeTracker {
    pub active: bool,
    pub last_point: Option<StrokePoint>,
    pub page_idx: Option<usize>,
}

/// No stroke is being drawn.
pub open spec fn no_stroke() -> StrokeTracker {
    StrokeTracker { active: false, last_point: None, page_idx: None }
}

/// Buttons, keys and the pointer in one frame.
#[derive(Clone, Copy, Debug, PartialEq, Eq, Structural)]
pub struct PointerInput {
    pub pointer: Option<ScenePos>,
    pub primary_pressed: bool,
    pub primary_down: bool,
    pub primary_released: bool,
    pub secondary_pressed: bool,
    pub shift: bool,
    pub ctrl: bool,
    pub command: bool,
    pub z_down: bool,
}

/// Where the pointer is.
#[derive(Clone, Copy, Debug, PartialEq, Eq, Structural)]
pub struct PointerPlace {
    /// Over the canvas.
    pub on_canvas: bool,
    /// Under a panel, a popup, a scrollbar or the tool's own window.
    pub occluded: bool,
    /// Still on the page on which the stroke began.
    pub on_stroke_page: bool,
    /// The page under the pointer.
    pub page_at: Option<usize>,
}

/// What the active tool says of itself.
#[derive(Clone, Copy, Debug, PartialEq, Eq, Structural)]
pub struct ToolGates {
    pub blocks_zoom: bool,
    pub blocks_zoom_on_ctrl_primary: bool,
    pub blocks_drag_on_primary: bool,
    pub blocks_drag_on_secondary: bool,
    pub space_pan_active: bool,
}

/// Where a frame of pointer input goes.
#[derive(Clone, Copy, Debug, PartialEq, Eq, Structural)]
pub enum PointerRoute {
    /// Nothing happens.
    Ignore,
    /// The stroke ends.
    Finish,
    /// The tool gets the point.
    Tool(StrokePoint),
}

/// What the tool has to do with a point.
#[derive(Clone, Copy, Debug, PartialEq, Eq, Structural)]
pub enum StrokeAction {
    Nothing,
    Begin(StrokePoint),
    Update { from: StrokePoint, to: StrokePoint },
    /// The pointer went over to another page: the stroke ends there and a new one begins here.
    Restart(StrokePoint),
}

/// What the canvas must not do in a frame.
#[derive(Clone, Copy, Debug, PartialEq, Eq, Structural)]
pub struct CanvasGates {
    pub wheel_scroll_blocked: bool,
    pub zoom_blocked: bool,
    pub drag_scroll_blocked: bool,
    /// Uploads of the overlay are spread over frames.
    pub throttle_uploads: bool,
}

/// The undo keys that were pressed and may act.
#[derive(Clone, Copy, Debug, PartialEq, Eq, Structural)]
pub struct HistoryKeys {
    pub redo: bool,
    pub undo: bool,
}

/// Control, command or the Z key is held.
pub open spec fn zoom_modifier(i: PointerInput) -> bool {
    i.z_down || i.ctrl || i.command
}

/// The page that a point belongs to: the page of the stroke while the pointer is on it.
pub open spec fn page_of(s: StrokeTracker, place: PointerPlace) -> Option<usize> {
    if s.page_idx is Some && place.on_stroke_page {
        s.page_idx
    } else {
        place.page_at
    }
}

/// Where pointer input goes.
pub open spec fn route(
    s: StrokeTracker,
    i: PointerInput,
    place: PointerPlace,
    tool: ToolGates,
) -> PointerRoute {
    if i.primary_released {
        PointerRoute::Finish
    } else if i.pointer is None {
        PointerRoute::Ignore
    } else if (zoom_modifier(i) && i.primary_down && !tool.blocks_zoom_on_ctrl_primary)
        || tool.space_pan_active || !place.on_canvas || place.occluded {
        PointerRoute::Finish
    } else {
        match page_of(s, place) {
            None => PointerRoute::Ignore,
            Some(page_idx) => PointerRoute::Tool(
                StrokePoint {
                    page_idx,
                    scene_pos: i.pointer->0,
                    modifiers: StrokeModifiers { shift: i.shift, ctrl: i.ctrl || i.command },
                },
            ),
        }
    }
}

/// The two positions are the same point.
pub open spec fn same_position(a: ScenePos, b: ScenePos) -> bool {
    same_number(a.x, b.x) && same_number(a.y, b.y)
}

/// A stroke that stands at a point.
pub open spec fn stroke_at(p: StrokePoint) -> StrokeTracker {
    StrokeTracker { active: true, last_point: Some(p), page_idx: Some(p.page_idx) }
}

/// The stroke and the action after a point, where `wants` is what the tool said to a new stroke.
pub open spec fn advanced(
    s: StrokeTracker,
    p: StrokePoint,
    primary_down: bool,
    primary_pressed: bool,
    wants: bool,
) -> (StrokeTracker, StrokeAction) {
    if !primary_down {
        (s, StrokeAction::Nothing)
    } else if !s.active || primary_pressed {
        if wants {
            (stroke_at(p), StrokeAction::Begin(p))
        } else {
            (s, StrokeAction::Nothing)
        }
    } else {
        match s.last_point {
            None => (s, StrokeAction::Nothing),
            Some(prev) => if same_position(prev.scene_pos, p.scene_pos) {
                (s, StrokeAction::Nothing)
            } else if prev.page_idx == p.page_idx {
                (stroke_at(p), StrokeAction::Update { from: prev, to: p })
            } else {
                (stroke_at(p), StrokeAction::Restart(p))
            },
        }
    }
}

/// The scroll that a tool gets: vertical, or horizontal where there is no vertical one.
pub open spec fn wheel_of(y: u32, x: u32) -> Option<u32> {
    if !negligible(y) {
        Some(y)
    } else if !negligible(x) {
        Some(x)
    } else {
        None
    }
}

impl StrokeTracker {
    pub fn new() -> (s: StrokeTracker)
        ensures
            s == no_stroke(),
    {
        StrokeTracker { active: false, last_point: None, page_idx: None }
    }

    /// Ends the stroke.  Tells whether the tool has to be told.
    pub fn finish_stroke(&mut self) -> (was_active: bool)
        ensures
            was_active == old(self).active,
            *final(self) == no_stroke(),
    {
        let was: bool = self.active;
        self.active = false;
        self.last_point = None;
        self.page_idx = None;
        was
    }

    /// Decides where pointer input goes.
    pub fn route_pointer(&self, i: PointerInput, place: PointerPlace, tool: ToolGates) -> (r: PointerRoute)
        ensures
            r == route(*self, i, place, tool),
    {
        if i.primary_released {
            return PointerRoute::Finish;
        }
        let pos = match i.pointer {
            Some(p) => p,
            None => {
                return PointerRoute::Ignore;
            },
        };
        let zoom_modifier_down: bool = i.z_down || i.ctrl || i.command;
        if zoom_modifier_down && i.primary_down && !tool.blocks_zoom_on_ctrl_primary {
            return PointerRoute::Finish;
        }
        if tool.space_pan_active || !place.on_canvas || place.occluded {
            return PointerRoute::Finish;
        }
        let page = if self.page_idx.is_some() && place.on_stroke_page {
            self.page_idx
        } else {
            place.page_at
        };
        match page {
            None => PointerRoute::Ignore,
            Some(page_idx) => PointerRoute::Tool(
                StrokePoint {
                    page_idx,
                    scene_pos: pos,
                    modifiers: StrokeModifiers { shift: i.shift, ctrl: i.ctrl || i.command },
                },
            ),
        }
    }

    /// Whether the tool has to be asked if it wants a stroke.
    pub fn asks_tool(&self, primary_down: bool, primary_pressed: bool) -> (b: bool)
        ensures
            b == (primary_down && (!self.active || primary_pressed)),
    {
        primary_down && (!self.active || primary_pressed)
    }

    /// Moves the stroke on to a point.
    pub fn advance(
        &mut self,
        p: StrokePoint,
        primary_down: bool,
        primary_pressed: bool,
        wants: bool,
    ) -> (a: StrokeAction)
        ensures
            (*final(self), a) == advanced(*old(self), p, primary_down, primary_pressed, wants),
    {
        if !primary_down {
            return StrokeAction::Nothing;
        }
        if !self.active || primary_pressed {
            if !wants {
                return StrokeAction::Nothing;
            }
            self.active = true;
            self.last_point = Some(p);
            self.page_idx = Some(p.page_idx);
            return StrokeAction::Begin(p);
        }
        match self.last_point {
            None => StrokeAction::Nothing,
            Some(prev) => {
                if numbers_equal(prev.scene_pos.x, p.scene_pos.x) && numbers_equal(
                    prev.scene_pos.y,
                    p.scene_pos.y,
                ) {
                    return StrokeAction::Nothing;
                }
                self.last_point = Some(p);
                self.page_idx = Some(p.page_idx);
                if prev.page_idx == p.page_idx {
                    StrokeAction::Update { from: prev, to: p }
                } else {
                    StrokeAction::Restart(p)
                }
            },
        }
    }

    /// Carries a frame of pointer input to the active tool.  `secondary_taken` is what the tool
    /// answers to a secondary click at the point, `wants` what it answers to a new stroke there.
    pub fn handle_active_tool_input(
        &mut self,
        i: PointerInput,
        place: PointerPlace,
        tool: ToolGates,
        secondary_taken: bool,
        wants: bool,
    ) -> (o: InputOutcome)
        ensures
            (*final(self), o) == handled_input(*old(self), i, place, tool, secondary_taken, wants),
    {
        let quiet = InputOutcome {
            stroke_ended: false,
            secondary_click: None,
            temporary_erase: None,
            action: StrokeAction::Nothing,
            repaint: false,
        };
        match self.route_pointer(i, place, tool) {
            PointerRoute::Ignore => quiet,
            PointerRoute::Finish => InputOutcome { stroke_ended: self.finish_stroke(), ..quiet },
            PointerRoute::Tool(p) => {
                let secondary_click = if i.secondary_pressed { Some(p) } else { None };
                if i.secondary_pressed && secondary_taken {
                    return InputOutcome { secondary_click, repaint: true, ..quiet };
                }
                let temporary_erase = if i.primary_down { Some(p.modifiers.shift) } else { None };
                let action = self.advance(p, i.primary_down, i.primary_pressed, wants);
                let repaint: bool = match action {
                    StrokeAction::Nothing => false,
                    _ => true,
                };
                InputOutcome {
                    stroke_ended: false,
                    secondary_click,
                    temporary_erase,
                    action,
                    repaint,
                }
            },
        }
    }
}

/// What a frame of pointer input comes to.
#[derive(Clone, Copy, Debug, PartialEq, Eq, Structural)]
pub struct InputOutcome {
    /// A stroke was broken off: the tool has to end it, and it erases no longer.
    pub stroke_ended: bool,
    /// The tool is asked about a secondary click at this point.
    pub secondary_click: Option<StrokePoint>,
    /// The tool is told whether it erases for now.
    pub temporary_erase: Option<bool>,
    pub action: StrokeAction,
    pub repaint: bool,
}

/// The stroke after a frame of pointer input, and what the frame came to.
pub open spec fn handled_input(
    s: StrokeTracker,
    i: PointerInput,
    place: PointerPlace,
    tool: ToolGates,
    secondary_taken: bool,
    wants: bool,
) -> (StrokeTracker, InputOutcome) {
    let quiet = InputOutcome {
        stroke_ended: false,
        secondary_click: None,
        temporary_erase: None,
        action: StrokeAction::Nothing,
        repaint: false,
    };
    match route(s, i, place, tool) {
        PointerRoute::Ignore => (s, quiet),
        PointerRoute::Finish => (no_stroke(), InputOutcome { stroke_ended: s.active, ..quiet }),
        PointerRoute::Tool(p) => if i.secondary_pressed && secondary_taken {
            (s, InputOutcome { secondary_click: Some(p), repaint: true, ..quiet })
        } else {
            let next = advanced(s, p, i.primary_down, i.primary_pressed, wants);
            (
                next.0,
                InputOutcome {
                    stroke_ended: false,
                    secondary_click: if i.secondary_pressed {
                        Some(p)
                    } else {
                        None
                    },
                    temporary_erase: if i.primary_down {
                        Some(p.modifiers.shift)
                    } else {
                        None
                    },
                    action: next.1,
                    repaint: !(next.1 is Nothing),
                },
            )
        },
    }
}

/// The state of the cleaning tab.
pub struct CleaningTabState {
    pub tools: Vec<ToolInfo>,
    pub active_tool_idx: usize,
    pub stroke: StrokeTracker,
    pub ai_backend_health: Option<AiBackendHealth>,
    pub quick_text_mask_panel_open: bool,
    pub text_mask_model_connected: bool,
    pub text_mask_synced_revision: u64,
    pub text_mask_textures: TextMaskTextures,
    pub overlays_connected: bool,
    pub mask_load: MaskLoadJob,
    pub save: SaveJob,
    pub quick_clean: QuickCleanJob,
    pub quick_clean_spread_radius_px: i32,
    pub quick_clean_uneven_background_tool: UnevenBackgroundTool,
}

/// What has to be told to the tools when another one becomes active.
#[derive(Clone, Copy, Debug, PartialEq, Eq, Structural)]
pub struct ToolSwitch {
    pub stroke_ended: bool,
    pub from: usize,
    pub to: usize,
}

impl CleaningTabState {
    /// There is an active tool, and no page has two uploaded masks.
    pub open spec fn wf(&self) -> bool {
        self.active_tool_idx < self.tools@.len() && self.text_mask_textures.wf()
    }

    /// The backend has PyTorch, or has not said that it lacks it.
    pub open spec fn torch(&self) -> bool {
        match self.ai_backend_health {
            None => false,
            Some(h) => h.is_torch_available != Some(false),
        }
    }

    /// A button for each of the tools that exist.
    pub open spec fn buttons_of(&self, indices: Seq<usize>) -> Seq<ToolButton>
        decreases indices.len(),
    {
        if indices.len() == 0 {
            Seq::empty()
        } else if indices.last() < self.tools@.len() {
            self.buttons_of(indices.drop_last()).push(
                ToolButton {
                    idx: indices.last(),
                    available: self.usable_tool(indices.last() as int),
                },
            )
        } else {
            self.buttons_of(indices.drop_last())
        }
    }

    /// The tool exists and can run.
    pub open spec fn usable_tool(&self, idx: int) -> bool {
        0 <= idx < self.tools@.len() && (!self.tools@[idx].pytorch_required || self.torch())
    }

    /// A tab with the given tools, the first of which is active.
    pub fn new(tools: Vec<ToolInfo>) -> (t: CleaningTabState)
        requires
            tools@.len() > 0,
        ensures
            t.wf(),
            t.tools@ == tools@,
            t.active_tool_idx == 0,
            t.stroke == no_stroke(),
            t.ai_backend_health is None,
            !t.quick_text_mask_panel_open,
            !t.text_mask_model_connected,
            t.text_mask_synced_revision == 0,
            t.text_mask_textures.pages@.len() == 0,
            !t.overlays_connected,
            !t.mask_load.in_progress && t.mask_load.status is None,
            !t.save.in_progress && t.save.status_text is None,
            !t.quick_clean.in_progress && t.quick_clean.status_text is None,
            t.quick_clean.progress == no_progress(),
            t.quick_clean_spread_radius_px == 48,
            t.quick_clean_uneven_background_tool == UnevenBackgroundTool::NoProcessing,
    {
        CleaningTabState {
            tools,
            active_tool_idx: 0,
            stroke: StrokeTracker::new(),
            ai_backend_health: None,
            quick_text_mask_panel_open: false,
            text_mask_model_connected: false,
            text_mask_synced_revision: 0,
            text_mask_textures: TextMaskTextures::new(),
            overlays_connected: false,
            mask_load: MaskLoadJob::new(),
            save: SaveJob::new(),
            quick_clean: QuickCleanJob::new(),
            quick_clean_spread_radius_px: 48,
            quick_clean_uneven_background_tool: UnevenBackgroundTool::NoProcessing,
        }
    }

    pub fn ai_backend_available(&self) -> (b: bool)
        ensures
            b == match self.ai_backend_health {
                None => false,
                Some(h) => h.connected,
            },
    {
        match self.ai_backend_health {
            None => false,
            Some(h) => h.connected,
        }
    }

    pub fn ai_backend_torch_available(&self) -> (b: bool)
        ensures
            b == self.torch(),
    {
        match self.ai_backend_health {
            None => false,
            Some(h) => match h.is_torch_available {
                Some(t) => t,
                None => true,
            },
        }
    }

    pub fn tool_available(&self, idx: usize) -> (b: bool)
        ensures
            b == self.usable_tool(idx as int),
    {
        idx < self.tools.len() && (!self.tools[idx].pytorch_required
            || self.ai_backend_torch_available())
    }

    /// The buttons of a group of tools, in rows.
    pub fn tool_button_rows(&self, tool_indices: &Vec<usize>) -> (rows: Vec<Vec<ToolButton>>)
        ensures
            rows@.len() == (tool_indices@.len() + TOOL_BUTTONS_PER_ROW - 1)
                / TOOL_BUTTONS_PER_ROW as int,
            forall|r: int|
                0 <= r < rows@.len() ==> (#[trigger] rows@[r])@ == self.buttons_of(
                    row_of(tool_indices@, r),
                ),
    {
        let n: usize = tool_indices.len();
        let mut rows: Vec<Vec<ToolButton>> = Vec::new();
        let mut i: usize = 0;
        while i < n
            invariant
                n == tool_indices@.len(),
                i == n || i == rows@.len() * TOOL_BUTTONS_PER_ROW,
                i <= n,
                rows@.len() == (i + TOOL_BUTTONS_PER_ROW - 1) / TOOL_BUTTONS_PER_ROW as int,
                forall|r: int|
                    0 <= r < rows@.len() ==> (#[trigger] rows@[r])@ == self.buttons_of(
                        row_of(tool_indices@, r),
                    ),
            decreases n - i,
        {
            let end: usize = if n - i < TOOL_BUTTONS_PER_ROW { n } else { i + TOOL_BUTTONS_PER_ROW };
            let ghost target = row_of(tool_indices@, rows@.len() as int);
            assert(target =~= tool_indices@.subrange(i as int, end as int));
            let mut row: Vec<ToolButton> = Vec::new();
            let mut k: usize = i;
            assert(target.take(0) =~= Seq::<usize>::empty());
            while k < end
                invariant
                    i <= k <= end,
                    end <= n,
                    n == tool_indices@.len(),
                    target == tool_indices@.subrange(i as int, end as int),
                    row@ == self.buttons_of(target.take(k - i)),
                decreases end - k,
            {
                let idx: usize = tool_indices[k];
                assert(target.take(k - i + 1).drop_last() =~= target.take(k - i));
                assert(target.take(k - i + 1).last() == idx);
                if idx < self.tools.len() {
                    row.push(ToolButton { idx, available: self.tool_available(idx) });
                }
                k += 1;
            }
            assert(target.take(end - i) =~= target);
            rows.push(row);
            i = end;
        }
        rows
    }

    pub fn first_available_tool_idx(&self) -> (r: Option<usize>)
        ensures
            match r {
                Some(i) => self.usable_tool(i as int) && forall|k: int|
                    0 <= k < i ==> !self.usable_tool(k),
                None => forall|k: int| !self.usable_tool(k),
            },
    {
        let mut i: usize = 0;
        while i < self.tools.len()
            invariant
                i <= self.tools@.len(),
                forall|k: int| 0 <= k < i ==> !self.usable_tool(k),
            decreases self.tools@.len() - i,
        {
            if self.tool_available(i) {
                return Some(i);
            }
            i += 1;
        }
        None
    }

    /// Ends the stroke and makes another tool the active one; nothing happens for a tool that
    /// does not exist.
    pub fn activate_tool(&mut self, idx: usize) -> (r: Option<ToolSwitch>)
        requires
            old(self).wf(),
        ensures
            final(self).wf(),
            idx >= old(self).tools@.len() ==> r is None && *final(self) == *old(self),
            idx < old(self).tools@.len() ==> *final(self) == (CleaningTabState {
                active_tool_idx: idx,
                stroke: no_stroke(),
                ..*old(self)
            }) && r == Some(
                ToolSwitch {
                    stroke_ended: old(self).stroke.active,
                    from: old(self).active_tool_idx,
                    to: idx,
                },
            ),
    {
        if idx >= self.tools.len() {
            return None;
        }
        let stroke_ended: bool = self.stroke.finish_stroke();
        let from: usize = self.active_tool_idx;
        self.active_tool_idx = idx;
        Some(ToolSwitch { stroke_ended, from, to: idx })
    }

    /// Goes over to the first tool that can run when the active one cannot.
    pub fn ensure_active_tool_available(&mut self) -> (r: Option<ToolSwitch>)
        requires
            old(self).wf(),
        ensures
            final(self).wf(),
            (exists|k: int| old(self).usable_tool(k)) ==> final(self).usable_tool(
                final(self).active_tool_idx as int,
            ),
            r is None ==> *final(self) == *old(self),
            r is Some ==> *final(self) == (CleaningTabState {
                active_tool_idx: final(self).active_tool_idx,
                stroke: no_stroke(),
                ..*old(self)
            }),
            r is Some <==> !old(self).usable_tool(old(self).active_tool_idx as int) && (exists|k: int|
                old(self).usable_tool(k)),
            r is Some ==> r == Some(
                ToolSwitch {
                    stroke_ended: old(self).stroke.active,
                    from: old(self).active_tool_idx,
                    to: final(self).active_tool_idx,
                },
            ) && forall|k: int|
                0 <= k < final(self).active_tool_idx ==> !old(self).usable_tool(k),
    {
        if self.tool_available(self.active_tool_idx) {
            return None;
        }
        match self.first_available_tool_idx() {
            Some(idx) => {
                assert(self.usable_tool(idx as int));
                self.activate_tool(idx)
            },
            None => None,
        }
    }

    /// What the canvas must not do while the tool is at work.
    pub fn canvas_gates(
        &self,
        i: PointerInput,
        secondary_down: bool,
        wheel_taken: bool,
        tool: ToolGates,
    ) -> (g: CanvasGates)
        ensures
            g.wheel_scroll_blocked == (wheel_taken || self.stroke.active),
            g.zoom_blocked == (self.stroke.active || tool.blocks_zoom || (i.primary_down
                && zoom_modifier(i) && tool.blocks_zoom_on_ctrl_primary)),
            g.drag_scroll_blocked == ((i.primary_down && tool.blocks_drag_on_primary) || (
            secondary_down && tool.blocks_drag_on_secondary)),
            g.throttle_uploads == self.stroke.active,
    {
        let zoom_modifier_down: bool = i.z_down || i.ctrl || i.command;
        CanvasGates {
            wheel_scroll_blocked: wheel_taken || self.stroke.active,
            zoom_blocked: self.stroke.active || tool.blocks_zoom || (i.primary_down
                && zoom_modifier_down && tool.blocks_zoom_on_ctrl_primary),
            drag_scroll_blocked: (i.primary_down && tool.blocks_drag_on_primary) || (secondary_down
                && tool.blocks_drag_on_secondary),
            throttle_uploads: self.stroke.active,
        }
    }

    /// Whether another frame has to be drawn.
    pub fn needs_repaint(&self, hotkeys_handled: bool, history_hotkeys_handled: bool) -> (b: bool)
        ensures
            b == (self.save.in_progress || hotkeys_handled || history_hotkeys_handled
                || self.mask_load.in_progress || self.quick_clean.in_progress),
    {
        self.save.in_progress || hotkeys_handled || history_hotkeys_handled
            || self.mask_load.in_progress || self.quick_clean.in_progress
    }

    /// The undo keys that may act: none while text is typed, a stroke is drawn or the tool keeps
    /// the keys to itself, or without overlays.
    pub fn history_keys(
        &self,
        wants_keyboard_input: bool,
        tool: ToolGates,
        redo_pressed: bool,
        undo_pressed: bool,
    ) -> (k: HistoryKeys)
        ensures
            ({
                let may = !wants_keyboard_input && !self.stroke.active && !tool.blocks_zoom
                    && self.overlays_connected;
                k == (HistoryKeys { redo: may && redo_pressed, undo: may && undo_pressed })
            }),
    {
        let may: bool = !wants_keyboard_input && !self.stroke.active && !tool.blocks_zoom
            && self.overlays_connected;
        HistoryKeys { redo: may && redo_pressed, undo: may && undo_pressed }
    }

    /// Whether key presses go to the tool.
    pub fn hotkeys_reach_tool(&self, wants_keyboard_input: bool, i: PointerInput, place: PointerPlace) -> (b:
        bool)
        ensures
            b == (!wants_keyboard_input && !zoom_modifier(i) && i.pointer is Some && place.on_canvas
                && !place.occluded),
    {
        !wants_keyboard_input && !(i.ctrl || i.command || i.z_down) && i.pointer.is_some()
            && place.on_canvas && !place.occluded
    }

    /// The scroll that goes to the tool: with Shift or R held over the free canvas.  Shift turns
    /// the wheel sideways on some systems, so a horizontal scroll stands in for a vertical one.
    pub fn wheel_for_tool(
        &self,
        i: PointerInput,
        place: PointerPlace,
        r_down: bool,
        scroll_x: u32,
        scroll_y: u32,
    ) -> (w: Option<u32>)
        ensures
            w == if i.pointer is Some && place.on_canvas && (i.shift || r_down) && !place.occluded {
                wheel_of(scroll_y, scroll_x)
            } else {
                None
            },
    {
        if i.pointer.is_none() || !place.on_canvas || (!i.shift && !r_down) || place.occluded {
            return None;
        }
        if !is_negligible(scroll_y) {
            Some(scroll_y)
        } else if !is_negligible(scroll_x) {
            Some(scroll_x)
        } else {
            None
        }
    }

    /// Whether the tool lets the canvas zoom.
    pub fn zoom_allowed(&self, tool: ToolGates) -> (b: bool)
        ensures
            b == !tool.blocks_zoom,
    {
        !tool.blocks_zoom
    }

    /// Opens or closes the quick-clean panel.  Tells whether masks have to be loaded for it.
    pub fn toggle_quick_clean_panel(&mut self) -> (load: bool)
        ensures
            *final(self) == (CleaningTabState {
                quick_text_mask_panel_open: !old(self).quick_text_mask_panel_open,
                ..*old(self)
            }),
            load == final(self).quick_text_mask_panel_open,
    {
        self.quick_text_mask_panel_open = !self.quick_text_mask_panel_open;
        self.quick_text_mask_panel_open
    }

    /// A new mask model: what was uploaded from another one is dropped.
    pub fn set_text_mask_model(&mut self)
        ensures
            final(self).text_mask_textures.pages@.len() == 0,
            *final(self) == (CleaningTabState {
                text_mask_model_connected: true,
                text_mask_synced_revision: 0,
                text_mask_textures: final(self).text_mask_textures,
                mask_load: MaskLoadJob { status: None, ..old(self).mask_load },
                ..*old(self)
            }),
    {
        self.text_mask_model_connected = true;
        self.text_mask_synced_revision = 0;
        self.text_mask_textures = TextMaskTextures::new();
        self.mask_load.status = None;
    }

    pub fn set_overlays_model(&mut self)
        ensures
            *final(self) == (CleaningTabState { overlays_connected: true, ..*old(self) }),
    {
        self.overlays_connected = true;
    }

    pub fn set_ai_backend_health(&mut self, health: AiBackendHealth)
        ensures
            *final(self) == (CleaningTabState { ai_backend_health: Some(health), ..*old(self) }),
    {
        self.ai_backend_health = Some(health);
    }

    /// The radius in effect for the next quick clean.
    pub fn spread_radius(&self) -> (r: usize)
        ensures
            r == if self.quick_clean_spread_radius_px < 0 {
                0
            } else if self.quick_clean_spread_radius_px > 128 {
                128
            } else {
                self.quick_clean_spread_radius_px as int
            },
    {
        if self.quick_clean_spread_radius_px < 0 {
            0
        } else if self.quick_clean_spread_radius_px > 128 {
            128
        } else {
            self.quick_clean_spread_radius_px as usize
        }
    }

    /// Lists the uploaded masks for the memory manager.
    pub fn cleaning_mask_gpu_memory_snapshot(&self, pinned_pages: &Vec<usize>) -> (out: Vec<
        CacheResourceInfo,
    >)
        ensures
            out@.len() == self.text_mask_textures.pages@.len(),
            forall|i: int|
                0 <= i < out@.len() ==> describes(
                    #[trigger] out@[i],
                    self.text_mask_textures.pages@[i],
                    pinned_pages@,
                ),
    {
        self.text_mask_textures.cleaning_mask_gpu_memory_snapshot(pinned_pages)
    }

    /// Drops the uploaded masks that the memory manager chose.
    pub fn evict_cleaning_mask_gpu_cache(&mut self, candidates: Vec<CacheResourceInfo>) -> (report:
        CacheEvictionReport)
        requires
            old(self).wf(),
        ensures
            final(self).wf(),
            final(self).text_mask_textures.pages@ == kept(
                old(self).text_mask_textures.pages@,
                chosen(candidates@, candidates@.len()),
            ),
            report.resources@ == evicted(
                old(self).text_mask_textures.pages@,
                candidates@,
                candidates@.len(),
            ),
            report.estimated_freed_bytes == freed(report.resources@, report.resources@.len()),
            *final(self) == (CleaningTabState {
                text_mask_textures: final(self).text_mask_textures,
                ..*old(self)
            }),
    {
        self.text_mask_textures.evict_cleaning_mask_gpu_cache(candidates)
    }
}

/// What may lie between the pointer and the canvas.
#[derive(Clone, Copy, Debug, PartialEq, Eq, Structural)]
pub struct Obstacles {
    pub popup_open: bool,
    pub scrollbar: bool,
    /// The active tool keeps the pointer for itself there.
    pub tool_captures: bool,
    /// A layer of windows, tooltips or overlays is topmost there.
    pub covering_layer: bool,
}

/// Something lies between the pointer and the canvas; `in_panels` says for each panel whether the
/// pointer is over it.
pub fn canvas_pointer_occluded(o: Obstacles, in_panels: &Vec<bool>) -> (b: bool)
    ensures
        b == (o.popup_open || in_panels@.contains(true) || o.scrollbar || o.tool_captures
            || o.covering_layer),
{
    let mut in_panel: bool = false;
    let mut i: usize = 0;
    while i < in_panels.len()
        invariant
            i <= in_panels@.len(),
            in_panel == exists|k: int| 0 <= k < i && in_panels@[k],
        decreases in_panels@.len() - i,
    {
        if in_panels[i] {
            in_panel = true;
        }
        i += 1;
    }
    proof {
        if in_panel {
            let k = choose|k: int| 0 <= k < i && in_panels@[k];
            assert(in_panels@[k] == true);
        } else if in_panels@.contains(true) {
            let k = choose|k: int| 0 <= k < in_panels@.len() && in_panels@[k] == true;
            assert(in_panels@[k]);
        }
    }
    o.popup_open || in_panel || o.scrollbar || o.tool_captures || o.covering_layer
}

/// A bubble is hidden while the brush of the cursor covers it: `occluder` is the page of the
/// cursor, and `touches` says whether its circle meets the bubble or its line.
pub fn should_hide_bubble(occluder: Option<usize>, page_idx: usize, touches: bool) -> (b: bool)
    ensures
        b == (occluder == Some(page_idx) && touches),
{
    match occluder {
        Some(p) => p == page_idx && touches,
        None => false,
    }
}

/// While a stroke is being drawn its last point lies on its page, whatever input comes.
pub open spec fn coherent(s: StrokeTracker) -> bool {
    s.active ==> s.last_point is Some && s.page_idx == Some((s.last_point->0).page_idx)
}

/// Every frame of input keeps the stroke coherent, whatever the tool answers, and a stroke is
/// carried on from where it stood.
pub proof fn strokes_stay_coherent(
    s: StrokeTracker,
    i: PointerInput,
    place: PointerPlace,
    tool: ToolGates,
    secondary_taken: bool,
    wants: bool,
)
    requires
        coherent(s),
    ensures
        coherent(no_stroke()),
        coherent(handled_input(s, i, place, tool, secondary_taken, wants).0),
        handled_input(s, i, place, tool, secondary_taken, wants).1.action is Update ==> s.active
            && handled_input(s, i, place, tool, secondary_taken, wants).1.action->from
            == s.last_point->0,
{
}

/// A tool never gets a point while the pointer is off the canvas or under a panel, nor while the
/// canvas is being panned.
pub proof fn tools_get_no_hidden_points(
    s: StrokeTracker,
    i: PointerInput,
    place: PointerPlace,
    tool: ToolGates,
)
    requires
        route(s, i, place, tool) is Tool,
    ensures
        place.on_canvas,
        !place.occluded,
        !tool.space_pan_active,
        !i.primary_released,
        i.pointer is Some,
{
}

} // verus!
