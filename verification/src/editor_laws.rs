//! What the editor's page, its tools and their keys are for.

use vstd::prelude::*;
#[allow(unused_imports)]
use crate::color::Color;
#[allow(unused_imports)]
use crate::composite::LocalPixel;
#[allow(unused_imports)]
use crate::layers::{DeformView, LayerKind, LayerView, StackView};
#[allow(unused_imports)]
use crate::page_session::{
    no_page_yet, page_from, read_size, size_from, unknown_pages, PageRequest, PageSession, PageSize,
};
#[allow(unused_imports)]
use crate::panel::{row_views, stack_after, GroupOp};
#[allow(unused_imports)]
use crate::ps_tab::PsEditorTabState;
#[allow(unused_imports)]
use crate::ps_tools::{
    after_keys, deformable, disc_radius, drag_in_frame, joint_rect, lines_from, lines_of, may_paint,
    mesh_of, points_in_frame, segment_last, segment_start, stamped, stamped_line, tool_from,
    PointDrag, PsKeys, PsToolId, ToolInput,
};
#[allow(unused_imports)]
use crate::layers::DeformPoint;
#[allow(unused_imports)]
use crate::raster::{grid_of, lemma_grid_of, Grid};
#[allow(unused_imports)]
use crate::raster_edits::DirtyRect;

verus! {

/// A page is found by its number: the first place where the project has it.
pub proof fn pages_are_found_by_number(pages: Seq<usize>, page_idx: usize)
    ensures
        match page_from(pages, page_idx, 0) {
            Some(k) => 0 <= k < pages.len() && pages[k] == page_idx && forall|j: int|
                0 <= j < k ==> #[trigger] pages[j] != page_idx,
            None => forall|j: int| 0 <= j < pages.len() ==> #[trigger] pages[j] != page_idx,
        },
{
    lemma_page_first(pages, page_idx, 0);
}

proof fn lemma_page_first(pages: Seq<usize>, page_idx: usize, i: int)
    requires
        0 <= i,
    ensures
        match page_from(pages, page_idx, i) {
            Some(k) => i <= k < pages.len() && pages[k] == page_idx && forall|j: int|
                i <= j < k ==> #[trigger] pages[j] != page_idx,
            None => forall|j: int| i <= j < pages.len() ==> #[trigger] pages[j] != page_idx,
        },
    decreases pages.len() - i,
{
    if i < pages.len() {
        lemma_page_first(pages, page_idx, i + 1);
    }
}

/// An editor starts without a page, without a loader and with nothing asked.
pub proof fn editors_start_without_a_page()
    ensures
        ({
            let s = no_page_yet();
            &&& !s.has_loader
            &&& s.active_page_idx is None
            &&& s.requested_page_idx is None
            &&& s.pending_job_id is None
            &&& s.next_job_id == 1
            &&& s.load_error is None
            &&& s.last_overlay_revision == 0
            &&& s.last_doc_version == 0
            &&& s.pending_camera is None
        }),
{
}

/// Asking for a page: it has to be one of the project and there has to be a loader; then it is loaded
/// under the number that comes next, and that is what is waited for.
pub proof fn pages_are_asked_for(s: PageSession, pages: Seq<usize>, page_idx: usize)
    requires
        s.next_job_id < u64::MAX,
    ensures
        ({
            let known = exists|k: int| 0 <= k < pages.len() && #[trigger] pages[k] == page_idx;
            let r = s.answer(pages, page_idx);
            let after = s.asked(pages, page_idx);
            &&& !known ==> r is Unknown && after == s
            &&& known && !s.has_loader ==> r is NoLoader && after == s
            &&& known && s.has_loader ==> {
                &&& r == (PageRequest::Load { job_id: s.next_job_id })
                &&& after.next_job_id == s.next_job_id + 1
                &&& after.pending_job_id == Some(s.next_job_id)
                &&& after.requested_page_idx == Some(page_idx)
                &&& after.load_error is None
                &&& after.active_page_idx == s.active_page_idx
                &&& after.last_overlay_revision == s.last_overlay_revision
                &&& after.last_doc_version == s.last_doc_version
                &&& after.pending_camera == s.pending_camera
                &&& after.has_loader
            }
        }),
{
    pages_are_found_by_number(pages, page_idx);
    if exists|k: int| 0 <= k < pages.len() && #[trigger] pages[k] == page_idx {
        let k = choose|k: int| 0 <= k < pages.len() && #[trigger] pages[k] == page_idx;
        assert(pages[k] == page_idx);
    }
}

/// What was loaded is shown where it is what is waited for, and passed over where it is not; a
/// failure is noted, and the page that was shown stays.
pub proof fn loaded_pages_are_shown(
    s: PageSession,
    job_id: u64,
    loaded: bool,
    page_idx: usize,
    revision: u64,
    error: String,
)
    ensures
        s.pending_job_id != Some(job_id) ==> s.decision(job_id, loaded) is Stale,
        s.pending_job_id == Some(job_id) && loaded ==> s.decision(job_id, loaded) is Show,
        s.pending_job_id == Some(job_id) && !loaded ==> s.decision(job_id, loaded) is Failed,
        ({
            let t = s.showing(page_idx, revision);
            &&& t.pending_job_id is None
            &&& t.active_page_idx == Some(page_idx)
            &&& t.last_overlay_revision == revision
            &&& t.load_error is None
            &&& t.requested_page_idx == s.requested_page_idx
            &&& t.next_job_id == s.next_job_id
            &&& t.pending_camera == s.pending_camera
            &&& t.has_loader == s.has_loader
            &&& !t.outdated(page_idx, revision)
        }),
        ({
            let t = s.failed(error);
            &&& t.pending_job_id is None
            &&& t.load_error == Some(error)
            &&& t.active_page_idx == s.active_page_idx
            &&& t.next_job_id == s.next_job_id
            &&& t.requested_page_idx == s.requested_page_idx
        }),
        s.outdated(page_idx, revision) <==> s.active_page_idx != Some(page_idx)
            || s.last_overlay_revision != revision,
{
}

/// The page that counts is the one that is shown, or the one that was asked for while none is.
pub proof fn the_shown_page_counts(s: PageSession, pages: Seq<usize>, p: usize)
    ensures
        s.active_page_idx is Some ==> s.shown_or_loaded() == s.active_page_idx,
        s.active_page_idx is None ==> s.shown_or_loaded() == s.requested_page_idx,
        s.shown_or_loaded() == Some(p) ==> s.place(pages) == page_from(pages, p, 0),
        s.shown_or_loaded() is None ==> s.place(pages) is None,
{
}

/// A camera that waits for a page is taken once, when that page is shown and nothing is loading.
pub proof fn cameras_wait_for_their_page(s: PageSession, has_stack: bool)
    ensures
        ({
            let due = has_stack && s.pending_job_id is None && s.pending_camera is Some
                && s.active_page_idx == Some((s.pending_camera->0).page_idx);
            let after = s.camera_taken(has_stack);
            &&& due ==> s.camera_due(has_stack) == s.pending_camera && after.pending_camera is None
            &&& !due ==> s.camera_due(has_stack) is None && after == s
            &&& after == (PageSession { pending_camera: after.pending_camera, ..s })
            &&& after.camera_due(has_stack) is None
        }),
{
}

/// The size of a page is what was read, and one by one where that failed; it is known by the first
/// entry of the page, and asked for where there is none.
pub proof fn page_sizes_are_kept(
    entries: Seq<PageSize>,
    pages: Seq<usize>,
    page_idx: usize,
    w: usize,
    h: usize,
    n: int,
)
    requires
        0 <= n <= pages.len(),
    ensures
        read_size(page_idx, Some((w, h))).page_idx == page_idx,
        read_size(page_idx, Some((w, h))).w == w,
        read_size(page_idx, Some((w, h))).h == h,
        read_size(page_idx, None).page_idx == page_idx,
        read_size(page_idx, None).w == 1,
        read_size(page_idx, None).h == 1,
        match size_from(entries, page_idx, 0) {
            Some(e) => exists|k: int|
                0 <= k < entries.len() && #[trigger] entries[k] == e && e.page_idx == page_idx
                    && forall|j: int| 0 <= j < k ==> (#[trigger] entries[j]).page_idx != page_idx,
            None => forall|j: int|
                0 <= j < entries.len() ==> (#[trigger] entries[j]).page_idx != page_idx,
        },
        unknown_pages(entries, pages, n) == pages.take(n).filter(
            |p: usize| size_from(entries, p, 0) is None,
        ),
    decreases n,
{
    lemma_size_first(entries, page_idx, 0);
    reveal(Seq::filter);
    if n > 0 {
        page_sizes_are_kept(entries, pages, page_idx, w, h, n - 1);
        assert(pages.take(n).drop_last() =~= pages.take(n - 1));
        assert(pages.take(n).last() == pages[n - 1]);
    } else {
        assert(pages.take(0) =~= Seq::empty());
    }
}

proof fn lemma_size_first(entries: Seq<PageSize>, page_idx: usize, i: int)
    requires
        0 <= i,
    ensures
        match size_from(entries, page_idx, i) {
            Some(e) => exists|k: int|
                i <= k < entries.len() && #[trigger] entries[k] == e && e.page_idx == page_idx
                    && forall|j: int| i <= j < k ==> (#[trigger] entries[j]).page_idx != page_idx,
            None => forall|j: int|
                i <= j < entries.len() ==> (#[trigger] entries[j]).page_idx != page_idx,
        },
    decreases entries.len() - i,
{
    if i < entries.len() {
        lemma_size_first(entries, page_idx, i + 1);
        if entries[i].page_idx != page_idx && size_from(entries, page_idx, i) is Some {
            let e = size_from(entries, page_idx, i)->0;
            let k = choose|k: int|
                i + 1 <= k < entries.len() && #[trigger] entries[k] == e && e.page_idx == page_idx
                    && forall|j: int|
                    i + 1 <= j < k ==> (#[trigger] entries[j]).page_idx != page_idx;
            assert(entries[k] == e);
        }
    }
}

/// Once a page was stored, none of its layers waits any more and nothing of it counts as deleted;
/// the other pages keep their deletions, and nothing else of the editor changes.
pub proof fn stored_pages_are_done(before: PsEditorTabState, after: PsEditorTabState, i: int, k: (usize, Seq<char>))
    requires
        before.stack is Some,
        after.stored_since(before),
        0 <= i < (before.stack->0)@.layers.len(),
    ensures
        after.stack is Some,
        ({
            let s = (before.stack->0)@;
            let t = (after.stack->0)@;
            &&& t.layers.len() == s.layers.len()
            &&& s.layers[i].kind == LayerKind::Raster ==> !t.layers[i].pixels_dirty
            &&& t.layers[i] == (LayerView { pixels_dirty: t.layers[i].pixels_dirty, ..s.layers[i] })
            &&& t.groups == s.groups
            &&& k.0 == s.page_idx ==> !after.deleted@.contains(k)
            &&& k.0 != s.page_idx ==> after.deleted@.contains(k) == before.deleted@.contains(k)
        }),
        !after.layers_dirty,
        after.text_layers == before.text_layers,
        after.bands == before.bands,
        after.session == before.session,
{
    crate::stack_laws::stored_layers_are_clean((before.stack->0)@, i);
}

/// An operation on groups changes the page as it says, and where it only changes looks the page
/// waits to be stored.
pub proof fn regrouping_marks_the_page(
    before: PsEditorTabState,
    after: PsEditorTabState,
    op: GroupOp,
    new_uid: u128,
)
    requires
        before.stack is Some,
        after.regrouped_since(before, op, new_uid),
    ensures
        after.stack is Some,
        (after.stack->0)@ == stack_after(
            (before.stack->0)@,
            row_views(before.panel.selected@),
            op,
            new_uid,
        ),
        op is ToggleCollapse || op is ToggleGroupVisible || op is GroupOpacity
            ==> after.layers_dirty,
        !(op is ToggleCollapse || op is ToggleGroupVisible || op is GroupOpacity)
            ==> after.layers_dirty == before.layers_dirty,
        after.text_layers == before.text_layers,
        after.session == before.session,
        after.deleted == before.deleted,
{
}

/// The keys choose the tools: B the brush, M the rectangle, L the lasso and V the tool that moves;
/// of several that are pressed at once the last in this order counts, and a tool that is not there
/// is not chosen.
pub proof fn keys_choose_tools(tools: Seq<PsToolId>, k: PsKeys, active: int)
    ensures
        ({
            let brush = tool_from(tools, PsToolId::Brush, 0);
            let rect = tool_from(tools, PsToolId::SelectRect, 0);
            let lasso = tool_from(tools, PsToolId::SelectLasso, 0);
            let mover = tool_from(tools, PsToolId::Transform, 0);
            let out = after_keys(tools, k, active);
            &&& k.v && mover is Some ==> out == mover->0
            &&& !(k.v && mover is Some) && k.l && lasso is Some ==> out == lasso->0
            &&& !(k.v && mover is Some) && !(k.l && lasso is Some) && k.m && rect is Some ==> out
                == rect->0
            &&& !(k.v && mover is Some) && !(k.l && lasso is Some) && !(k.m && rect is Some) && k.b
                && brush is Some ==> out == brush->0
            &&& !(k.v && mover is Some) && !(k.l && lasso is Some) && !(k.m && rect is Some) && !(
            k.b && brush is Some) ==> out == active
        }),
{
}

/// A tool is found by what it is: the first of that kind.
pub proof fn tools_are_found(tools: Seq<PsToolId>, id: PsToolId)
    ensures
        match tool_from(tools, id, 0) {
            Some(k) => 0 <= k < tools.len() && tools[k] == id && forall|j: int|
                0 <= j < k ==> #[trigger] tools[j] != id,
            None => forall|j: int| 0 <= j < tools.len() ==> #[trigger] tools[j] != id,
        },
{
    lemma_tool_first(tools, id, 0);
}

proof fn lemma_tool_first(tools: Seq<PsToolId>, id: PsToolId, i: int)
    requires
        0 <= i,
    ensures
        match tool_from(tools, id, i) {
            Some(k) => i <= k < tools.len() && tools[k] == id && forall|j: int|
                i <= j < k ==> #[trigger] tools[j] != id,
            None => forall|j: int| i <= j < tools.len() ==> #[trigger] tools[j] != id,
        },
    decreases tools.len() - i,
{
    if i < tools.len() {
        lemma_tool_first(tools, id, i + 1);
    }
}

/// A segment dirties, along each side, from the radius before its first end to the radius behind its
/// last, as far as the picture goes.
pub proof fn segments_dirty_their_surroundings(a: int, b: int, r: int, n: int, p: int)
    requires
        0 < n,
        0 <= r,
        0 <= a < n,
        0 <= b < n,
    ensures
        segment_start(a, b, r, n) <= p <= segment_last(a, b, r, n) <==> 0 <= p < n && (a - r <= p
            || b - r <= p) && (p <= a + r || p <= b + r),
{
}

/// The joint rectangle of two reaches over both and no farther.
pub proof fn joint_rects_reach_over_both(a: DirtyRect, b: DirtyRect)
    ensures
        ({
            let j = joint_rect(a, b);
            &&& j.min_x <= a.min_x && j.min_x <= b.min_x && (j.min_x == a.min_x || j.min_x
                == b.min_x)
            &&& j.min_y <= a.min_y && j.min_y <= b.min_y && (j.min_y == a.min_y || j.min_y
                == b.min_y)
            &&& j.max_x >= a.max_x && j.max_x >= b.max_x && (j.max_x == a.max_x || j.max_x
                == b.max_x)
            &&& j.max_y >= a.max_y && j.max_y >= b.max_y && (j.max_y == a.max_y || j.max_y
                == b.max_y)
        }),
{
}

/// A pixel that a selection lets be painted on: any without a selection, and else one that falls on
/// a selected pixel of the page.
pub open spec fn let_through(
    clip: Option<(Grid<bool>, Grid<Option<LocalPixel>>)>,
    x: int,
    y: int,
) -> bool {
    match clip {
        None => true,
        Some((mask, places)) => 0 <= x < places.w && 0 <= y < places.h && match places.px[y
            * places.w + x] {
            Some(p) => p.x < mask.w && p.y < mask.h && mask.px[p.y * mask.w + p.x],
            None => false,
        },
    }
}

/// A stamp of the brush fills the pixels no farther from its middle than the radius, as far as the
/// selection lets it, and no others.  The radius is at least one.
pub proof fn stamps_fill_a_disc(
    dst: Grid<Color>,
    r: int,
    cx: int,
    cy: int,
    clip: Option<(Grid<bool>, Grid<Option<LocalPixel>>)>,
    fill: Color,
    radius: i32,
    x: int,
    y: int,
)
    requires
        dst.valid(),
        0 <= x < dst.w,
        0 <= y < dst.h,
    ensures
        ({
            let out = stamped(dst, r, cx, cy, clip, fill);
            let i = y * dst.w + x;
            let near = (x - cx) * (x - cx) + (y - cy) * (y - cy) <= r * r;
            &&& out.w == dst.w && out.h == dst.h
            &&& near && let_through(clip, x, y) ==> out.px[i] == fill
            &&& !near || !let_through(clip, x, y) ==> out.px[i] == dst.px[i]
        }),
        radius >= 1 ==> disc_radius(radius) == radius,
        radius < 1 ==> disc_radius(radius) == 1,
{
    let f = |a: int, b: int|
        if crate::ps_tools::disc_holds(r, cx, cy, a, b) && may_paint(clip, a, b) {
            fill
        } else {
            dst.at(a, b)
        };
    lemma_grid_of(dst.w, dst.h, f);
    assert(stamped(dst, r, cx, cy, clip, fill) == grid_of(dst.w, dst.h, f));
    assert(stamped(dst, r, cx, cy, clip, fill).at(x, y) == f(x, y));
    match clip {
        None => {},
        Some(c) => {
            assert(c.1.at(x, y) == c.1.px[y * c.1.w + x]);
            match c.1.at(x, y) {
                Some(p) => {
                    assert(c.0.at(p.x as int, p.y as int) == c.0.px[p.y * c.0.w + p.x]);
                },
                None => {},
            }
        },
    }
}

/// A line of stamps fills what one of them fills, and no more.
pub proof fn lines_fill_what_their_stamps_fill(
    dst: Grid<Color>,
    r: int,
    centers: Seq<(i32, i32)>,
    clip: Option<(Grid<bool>, Grid<Option<LocalPixel>>)>,
    fill: Color,
    n: int,
    x: int,
    y: int,
)
    requires
        dst.valid(),
        0 <= n <= centers.len(),
        0 <= x < dst.w,
        0 <= y < dst.h,
    ensures
        ({
            let out = stamped_line(dst, r, centers, clip, fill, n);
            let i = y * dst.w + x;
            let near = exists|k: int|
                0 <= k < n && (x - (#[trigger] centers[k]).0) * (x - centers[k].0) + (y
                    - centers[k].1) * (y - centers[k].1) <= r * r;
            &&& out.valid() && out.w == dst.w && out.h == dst.h
            &&& near && let_through(clip, x, y) ==> out.px[i] == fill
            &&& !near || !let_through(clip, x, y) ==> out.px[i] == dst.px[i]
        }),
    decreases n,
{
    if n > 0 {
        lines_fill_what_their_stamps_fill(dst, r, centers, clip, fill, n - 1, x, y);
        let prev = stamped_line(dst, r, centers, clip, fill, n - 1);
        let c = centers[n - 1];
        stamps_fill_a_disc(prev, r, c.0 as int, c.1 as int, clip, fill, 1, x, y);
        crate::ps_tools::painting_stays_on_the_selection(dst, r, centers, clip, fill, n);
        let here = (x - c.0) * (x - c.0) + (y - c.1) * (y - c.1) <= r * r;
        let near = exists|k: int|
            0 <= k < n && (x - (#[trigger] centers[k]).0) * (x - centers[k].0) + (y - centers[k].1)
                * (y - centers[k].1) <= r * r;
        let earlier = exists|k: int|
            0 <= k < n - 1 && (x - (#[trigger] centers[k]).0) * (x - centers[k].0) + (y
                - centers[k].1) * (y - centers[k].1) <= r * r;
        if here {
            assert((x - centers[n - 1].0) * (x - centers[n - 1].0) + (y - centers[n - 1].1) * (y
                - centers[n - 1].1) <= r * r);
            assert(near);
        }
        if earlier {
            let k = choose|k: int|
                0 <= k < n - 1 && (x - (#[trigger] centers[k]).0) * (x - centers[k].0) + (y
                    - centers[k].1) * (y - centers[k].1) <= r * r;
            assert((x - centers[k].0) * (x - centers[k].0) + (y - centers[k].1) * (y
                - centers[k].1) <= r * r);
            assert(near);
        }
        if near && !here {
            let k = choose|k: int|
                0 <= k < n && (x - (#[trigger] centers[k]).0) * (x - centers[k].0) + (y
                    - centers[k].1) * (y - centers[k].1) <= r * r;
            assert(k < n - 1);
            assert((x - centers[k].0) * (x - centers[k].0) + (y - centers[k].1) * (y
                - centers[k].1) <= r * r);
        }
    }
}

/// The layer whose mesh is dragged is the active one, where it is the user's; without a mesh it is
/// taken to lie plain.
pub proof fn the_active_mesh_is_dragged(s: StackView, k: int, l: LayerView, plain: DeformView)
    requires
        s.valid(),
        0 <= k < s.layers.len(),
        s.layers[k].id == s.active,
    ensures
        s.layers[k].kind == LayerKind::Raster ==> deformable(s) == Some(k),
        s.layers[k].kind != LayerKind::Raster ==> deformable(s) is None,
        l.deform is Some ==> Some(mesh_of(l, plain)) == l.deform,
        l.deform is None ==> mesh_of(l, plain) == plain,
{
    assert forall|j: int| 0 <= j < k implies (#[trigger] s.layers[j]).id != s.active by {}
    crate::stack_laws::layers_are_found_by_number(s.layers, s.active, k);
}

/// A point of a mesh is dragged from the press on it until the button is let go, and only that
/// point moves.
pub proof fn points_are_dragged_until_let_go(
    drag: Option<PointDrag>,
    points: Seq<DeformPoint>,
    input: ToolInput,
    hit: Option<usize>,
    moved: DeformPoint,
    i: int,
)
    requires
        0 <= i < points.len(),
    ensures
        ({
            let d = drag_in_frame(drag, points, input, hit);
            let starts = input.pointer is Some && input.pressed && input.in_viewport && hit is Some;
            &&& drag is Some && input.down ==> d == drag
            &&& !(drag is Some && input.down) && starts ==> d is Some && (d->0).point_idx == hit->0
                && (d->0).start_point == points[hit->0 as int] && Some((d->0).start_pointer)
                == input.pointer
            &&& !(drag is Some && input.down) && !starts ==> d is None
        }),
        ({
            let out = points_in_frame(drag, points, input, moved);
            let moves = input.pointer is Some && input.down && drag is Some && (drag->0).point_idx
                < points.len();
            &&& out.len() == points.len()
            &&& !moves ==> out == points
            &&& moves ==> out[i] == if i == (drag->0).point_idx {
                moved
            } else {
                points[i]
            }
        }),
{
}

/// A mesh is drawn with a line from each point to the next in its row and to the next in its column;
/// one that is not a grid is not drawn.
pub proof fn meshes_are_drawn_as_grids(cols: int, rows: int, n: int)
    requires
        2 <= cols,
        2 <= rows,
        0 <= n < cols * rows,
        cols * rows <= usize::MAX,
    ensures
        ({
            let before = lines_from(cols, rows, n);
            let after = lines_from(cols, rows, n + 1);
            let right = n % cols != cols - 1;
            let below = n / cols != rows - 1;
            &&& lines_from(cols, rows, 0).len() == 0
            &&& right && below ==> after == before + seq![
                (n as usize, (n + 1) as usize),
                (n as usize, (n + cols) as usize),
            ]
            &&& right && !below ==> after == before + seq![(n as usize, (n + 1) as usize)]
            &&& !right && below ==> after == before + seq![(n as usize, (n + cols) as usize)]
            &&& !right && !below ==> after == before
        }),
        lines_of(None, n).len() == 0,
        lines_of(Some((cols as usize, rows as usize)), cols * rows) == lines_from(
            cols,
            rows,
            cols * rows,
        ),
        n != cols * rows ==> lines_of(Some((cols as usize, rows as usize)), n).len() == 0,
{
    vstd::arithmetic::div_mod::lemma_fundamental_div_mod(n, cols);
    assert(0 <= n % cols < cols && 0 <= n / cols < rows && cols <= cols * rows && rows <= cols
        * rows) by (nonlinear_arith)
        requires
            0 <= n < cols * rows,
            2 <= cols,
            2 <= rows,
    ;
    let before = lines_from(cols, rows, n);
    let after = lines_from(cols, rows, n + 1);
    let right = n % cols != cols - 1;
    let below = n / cols != rows - 1;
    if right && below {
        assert(after =~= before + seq![
            (n as usize, (n + 1) as usize),
            (n as usize, (n + cols) as usize),
        ]);
    } else if right {
        assert(after =~= before + seq![(n as usize, (n + 1) as usize)]);
    } else if below {
        assert(after =~= before + seq![(n as usize, (n + cols) as usize)]);
    }
}

/// On a picture without extent a segment dirties nothing but its corner.
pub proof fn segments_on_nothing_stay_at_the_corner(a: int, b: int, r: int)
    ensures
        segment_start(a, b, r, 0) == 0,
        segment_last(a, b, r, 0) == 0,
{
}

} // verus!
