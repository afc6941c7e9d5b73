//! What the cleaning tab does with the pointer and its tools.

use vstd::prelude::*;
#[allow(unused_imports)]
use crate::cleaning_tab::{
    advanced, handled_input, no_stroke, route, row_of, stroke_at, wheel_of, CleaningTabState,
    PointerInput, PointerPlace, PointerRoute, StrokeAction, StrokeTracker, ToolButton, ToolGates,
};
#[allow(unused_imports)]
use crate::strokes::StrokePoint;

verus! {

/// The buttons of a group of tools stand in rows of three, in their order.
pub proof fn buttons_stand_in_rows_of_three(indices: Seq<usize>, i: int)
    requires
        0 <= i < indices.len(),
    ensures
        ({
            let row = row_of(indices, i / 3);
            &&& row.len() <= 3
            &&& i % 3 < row.len()
            &&& row[i % 3] == indices[i]
            &&& row.len() < 3 ==> i / 3 * 3 + row.len() == indices.len()
        }),
{
}

/// Where a frame of the pointer goes.  Letting go ends the stroke, and so does leaving the canvas,
/// going under a panel, panning, or zooming with a tool that lets one; without a pointer or a page
/// nothing happens; all else goes to the tool, with the page, the place and the keys.
pub proof fn the_pointer_goes_to_the_tool(
    s: StrokeTracker,
    i: PointerInput,
    place: PointerPlace,
    tool: ToolGates,
)
    ensures
        ({
            let r = route(s, i, place, tool);
            let zooms = (i.z_down || i.ctrl || i.command) && i.primary_down
                && !tool.blocks_zoom_on_ctrl_primary;
            let off = zooms || tool.space_pan_active || !place.on_canvas || place.occluded;
            let page = if s.page_idx is Some && place.on_stroke_page {
                s.page_idx
            } else {
                place.page_at
            };
            &&& i.primary_released ==> r == PointerRoute::Finish
            &&& !i.primary_released && i.pointer is None ==> r == PointerRoute::Ignore
            &&& !i.primary_released && i.pointer is Some && off ==> r == PointerRoute::Finish
            &&& !i.primary_released && i.pointer is Some && !off && page is None ==> r
                == PointerRoute::Ignore
            &&& !i.primary_released && i.pointer is Some && !off && page is Some ==> r is Tool && {
                let p = r->Tool_0;
                &&& Some(p.page_idx) == page
                &&& Some(p.scene_pos) == i.pointer
                &&& p.modifiers.shift == i.shift
                &&& p.modifiers.ctrl == (i.ctrl || i.command)
            }
        }),
{
}

/// How a stroke goes on.  Without the button nothing happens; a press begins one where the tool
/// wants it; then it follows the pointer, from where it was to where it is, and starts anew on
/// another page.  A pointer that stays where it is draws nothing.
pub proof fn strokes_follow_the_pointer(
    s: StrokeTracker,
    p: StrokePoint,
    down: bool,
    pressed: bool,
    wants: bool,
)
    ensures
        ({
            let out = advanced(s, p, down, pressed, wants);
            let fresh = !s.active || pressed;
            let here = StrokeTracker {
                active: true,
                last_point: Some(p),
                page_idx: Some(p.page_idx),
            };
            &&& !down ==> out == (s, StrokeAction::Nothing)
            &&& down && fresh && !wants ==> out == (s, StrokeAction::Nothing)
            &&& down && fresh && wants ==> out == (here, StrokeAction::Begin(p))
            &&& down && !fresh && s.last_point is None ==> out == (s, StrokeAction::Nothing)
            &&& down && !fresh && s.last_point is Some ==> {
                let was = s.last_point->0;
                let still = crate::float_bits::same_number(was.scene_pos.x, p.scene_pos.x)
                    && crate::float_bits::same_number(was.scene_pos.y, p.scene_pos.y);
                &&& still ==> out == (s, StrokeAction::Nothing)
                &&& !still && was.page_idx == p.page_idx ==> out == (
                    here,
                    StrokeAction::Update { from: was, to: p },
                )
                &&& !still && was.page_idx != p.page_idx ==> out == (here, StrokeAction::Restart(p))
            }
        }),
        stroke_at(p).active,
        stroke_at(p).last_point == Some(p),
        stroke_at(p).page_idx == Some(p.page_idx),
        !no_stroke().active,
        no_stroke().last_point is None,
        no_stroke().page_idx is None,
{
}

/// The wheel turns by its upright part, by the other where that is next to nothing, and not at all
/// where both are.
pub proof fn the_wheel_turns_upright_first(y: u32, x: u32)
    ensures
        ({
            let ry = y % 0x8000_0000 > 0x3400_0000;
            let rx = x % 0x8000_0000 > 0x3400_0000;
            &&& ry ==> wheel_of(y, x) == Some(y)
            &&& !ry && rx ==> wheel_of(y, x) == Some(x)
            &&& !ry && !rx ==> wheel_of(y, x) is None
        }),
{
}

/// What comes of a frame of the pointer.  A stroke that was going on and ends is told to have
/// ended.  The other button is told to the tool; where the tool takes it, nothing else happens in
/// that frame.  Else the stroke goes on, and while it is drawn the shift key erases.
pub proof fn frames_come_to_something(
    s: StrokeTracker,
    i: PointerInput,
    place: PointerPlace,
    tool: ToolGates,
    taken: bool,
    wants: bool,
)
    ensures
        ({
            let out = handled_input(s, i, place, tool, taken, wants);
            let r = route(s, i, place, tool);
            &&& r is Ignore ==> out.0 == s && !out.1.stroke_ended && out.1.secondary_click is None
                && out.1.temporary_erase is None && out.1.action is Nothing && !out.1.repaint
            &&& r is Finish ==> !out.0.active && out.0.last_point is None && out.0.page_idx is None
                && out.1.stroke_ended == s.active && out.1.secondary_click is None
                && out.1.temporary_erase is None && out.1.action is Nothing && !out.1.repaint
            &&& r is Tool && i.secondary_pressed && taken ==> out.0 == s && !out.1.stroke_ended
                && out.1.secondary_click == Some(r->Tool_0) && out.1.temporary_erase is None
                && out.1.action is Nothing && out.1.repaint
            &&& r is Tool && !(i.secondary_pressed && taken) ==> {
                let next = advanced(s, r->Tool_0, i.primary_down, i.primary_pressed, wants);
                &&& out.0 == next.0
                &&& out.1.action == next.1
                &&& !out.1.stroke_ended
                &&& out.1.secondary_click == if i.secondary_pressed {
                    Some(r->Tool_0)
                } else {
                    None
                }
                &&& i.primary_down ==> out.1.temporary_erase == Some(i.shift)
                &&& !i.primary_down ==> out.1.temporary_erase is None
                &&& out.1.repaint <==> !(next.1 is Nothing)
            }
        }),
{
}

/// A tool can be used where it is there, and, where it needs the larger backend, that is not known
/// to be missing.
pub proof fn tools_are_usable_with_their_backend(t: CleaningTabState, idx: int)
    ensures
        t.ai_backend_health is None ==> !t.torch(),
        t.ai_backend_health is Some ==> (t.torch() <==> (
        t.ai_backend_health->0).is_torch_available != Some(false)),
        idx < 0 || idx >= t.tools@.len() ==> !t.usable_tool(idx),
        0 <= idx < t.tools@.len() && !t.tools@[idx].pytorch_required ==> t.usable_tool(idx),
        0 <= idx < t.tools@.len() && t.tools@[idx].pytorch_required ==> (t.usable_tool(idx)
            <==> t.torch()),
{
}

/// Every tool of a group that is there has its button, in their order.
pub proof fn tools_have_their_buttons(t: CleaningTabState, indices: Seq<usize>, n: int)
    requires
        0 <= n < indices.len(),
    ensures
        ({
            let before = t.buttons_of(indices.take(n));
            let after = t.buttons_of(indices.take(n + 1));
            &&& t.buttons_of(Seq::empty()).len() == 0
            &&& indices[n] < t.tools@.len() ==> after == before.push(
                ToolButton { idx: indices[n], available: t.usable_tool(indices[n] as int) },
            )
            &&& indices[n] >= t.tools@.len() ==> after == before
        }),
{
    assert(indices.take(n + 1).drop_last() =~= indices.take(n));
    assert(indices.take(n + 1).last() == indices[n]);
}

} // verus!
