//! What selecting, drawing in and processing a region of a page are for.

use vstd::prelude::*;
#[allow(unused_imports)]
use crate::color::{premultiplied, Color, ColorImage, Rgba};
#[allow(unused_imports)]
use crate::overlay_rect::{snapped_end, OverlayRectPx};
#[allow(unused_imports)]
use crate::raster::{grid_of, lemma_grid_of, lemma_offset, Grid};
#[allow(unused_imports)]
use crate::region_edit::{
    drawn_segment, idle_tool, picture_segment_of, segment_of, selected_rect, ImageStrokeInput,
    RegionEditToolBase, SelectionPoints,
};
#[allow(unused_imports)]
use crate::region_image::{
    cover_of, cut_picture, laid_over, preview_alpha, region_refusal, tinted, PageCut,
};
#[allow(unused_imports)]
use crate::region_inpaint::{
    blank, detected_mask, detection_refusal, inpaint_view, mask_size_message, processed,
    size_message, undone, InpaintView, RegionInpaintEditorState, RegionInpaintMaskTarget,
    RegionMaskGenerationMethod, SourceView,
};
#[allow(unused_imports)]
use crate::strokes::StrokePoint;
#[allow(unused_imports)]
use crate::text::decimal;

verus! {

/// What is selected is the rectangle between the two corners, whichever was set first.  With a step
/// the corner that was dragged is moved to the next step.  Without extent nothing is selected.
pub proof fn selecting_spans_the_corners(p: SelectionPoints, px: int, py: int)
    requires
        p.wf(),
    ensures
        ({
            let s = selected_rect(p, None);
            let r = s->0;
            &&& s is Some <==> p.start_x != p.end_x && p.start_y != p.end_y
            &&& s is Some ==> ((r.x <= px < r.x + r.w && r.y <= py < r.y + r.h) <==> {
                &&& (p.start_x <= px < p.end_x) || (p.end_x <= px < p.start_x)
                &&& (p.start_y <= py < p.end_y) || (p.end_y <= py < p.start_y)
            })
            &&& selected_rect(p, Some(0)) == s
            &&& selected_rect(p, Some(1)) == s
        }),
{
}

/// With a step the selection is that without one between the corner that stays and the corner that
/// was moved to the next step.
pub proof fn selecting_in_steps_moves_the_end(p: SelectionPoints, multiple: usize, q: SelectionPoints)
    requires
        p.wf(),
        multiple > 1,
        q == (SelectionPoints {
            end_x: snapped_end(
                p.start_x as int,
                p.end_x as int,
                p.source_w as int,
                multiple as int,
            ) as i32,
            end_y: snapped_end(
                p.start_y as int,
                p.end_y as int,
                p.source_h as int,
                multiple as int,
            ) as i32,
            ..p
        }),
    ensures
        selected_rect(p, Some(multiple)) == selected_rect(q, None),
{
    crate::brush_laws::dragging_snaps_to_steps(
        p.start_x as int,
        p.end_x as int,
        p.source_w as int,
        multiple as int,
    );
    crate::brush_laws::dragging_snaps_to_steps(
        p.start_y as int,
        p.end_y as int,
        p.source_h as int,
        multiple as int,
    );
}

/// A drag over the picture draws from where the last segment ended, or from the pointer where there
/// is none, to the pointer.  Nothing is drawn without a button, off the picture or while zooming;
/// without a button, and after zooming, the next segment starts anew.
pub proof fn dragging_draws_to_the_pointer(
    last: Option<(i32, i32)>,
    i: ImageStrokeInput,
    erase: bool,
)
    ensures
        ({
            let out = drawn_segment(last, i, erase);
            let zooming = i.zoom_modifier_down || i.zoom_drag_active;
            let pressed = i.primary_down || i.secondary_down;
            let draws = pressed && i.at is Some && !zooming;
            &&& out.0 is Some <==> draws
            &&& draws ==> {
                let d = out.0->0;
                &&& (d.to_x, d.to_y) == i.at->0
                &&& last is Some ==> (d.from_x, d.from_y) == last->0
                &&& last is None ==> (d.from_x, d.from_y) == i.at->0
                &&& d.erase == erase
                &&& d.shift == i.shift
                &&& out.1 == i.at
            }
            &&& !pressed ==> out.1 is None
            &&& zooming ==> out.1 is None
            &&& pressed && !zooming && i.at is None ==> out.1 == last
        }),
{
}

/// The other button alone erases; on a mask so does the shift key, on the picture it does not.
pub proof fn the_other_button_erases(last: Option<(i32, i32)>, i: ImageStrokeInput)
    ensures
        segment_of(last, i).0 is Some ==> ((segment_of(last, i).0->0).erase <==> i.shift || (
        i.secondary_down && !i.primary_down)),
        picture_segment_of(last, i).0 is Some ==> ((picture_segment_of(last, i).0->0).erase
            <==> i.secondary_down && !i.primary_down),
        segment_of(last, i).0 is Some <==> picture_segment_of(last, i).0 is Some,
        segment_of(last, i).1 == picture_segment_of(last, i).1,
        segment_of(last, i).1 == drawn_segment(last, i, false).1,
{
}

/// A region tool starts with nothing selected, nothing loading and nothing open.
pub proof fn region_tools_start_idle(multiple: Option<usize>)
    ensures
        ({
            let t = idle_tool(multiple);
            &&& t.selection_multiple == multiple
            &&& t.selecting_page_idx is None
            &&& t.selection_start_scene is None
            &&& t.selection_current_scene is None
            &&& t.selection_rect is None
            &&& t.pending_selection is None
            &&& t.pending_job_id is None
            &&& t.next_job_id == 1
            &&& t.load_error is None
            &&& t.editor_session_id == 0
            &&& !t.editor_window_shown
            &&& t.editor is None
            &&& !t.force_center_after_load
        }),
{
}

/// A selection starts where the pointer is, follows it on the page it started on, and is taken when
/// the pointer is let go: the rectangle between the two corners, the size of the page and what the
/// overlay holds there.  Cancelling drops all of it and keeps an editor that is open.
pub proof fn selections_follow_the_pointer(
    t: RegionEditToolBase,
    p: StrokePoint,
    points: Option<SelectionPoints>,
    chunk: Option<ColorImage>,
)
    ensures
        ({
            let b = t.begun(p, points);
            &&& b.selecting_page_idx == Some(p.page_idx)
            &&& b.selection_start_scene == Some(p.scene_pos)
            &&& b.selection_current_scene == Some(p.scene_pos)
            &&& points is Some ==> b.selection_rect == selected_rect(
                points->0,
                t.selection_multiple,
            )
            &&& points is None ==> b.selection_rect is None
            &&& b.pending_selection == t.pending_selection
            &&& b.editor == t.editor
            &&& b.load_error == t.load_error
        }),
        ({
            let f = t.followed(p, points);
            let on = t.selecting_page_idx == Some(p.page_idx) && t.selection_start_scene is Some;
            &&& !on ==> f == t
            &&& on ==> f.selection_current_scene == Some(p.scene_pos)
            &&& on ==> f.selection_start_scene == t.selection_start_scene
            &&& on ==> f.selecting_page_idx == t.selecting_page_idx
            &&& on && points is Some ==> f.selection_rect == selected_rect(
                points->0,
                t.selection_multiple,
            )
            &&& on && points is None ==> f.selection_rect is None
            &&& on ==> f.pending_selection == t.pending_selection && f.editor == t.editor
        }),
        ({
            let e = t.ended(points, chunk);
            let taken = t.selecting_page_idx is Some && t.selection_start_scene is Some
                && t.selection_current_scene is Some && points is Some && selected_rect(
                points->0,
                t.selection_multiple,
            ) is Some;
            &&& e.selecting_page_idx is None
            &&& e.selection_start_scene is None
            &&& e.selection_current_scene is None
            &&& e.selection_rect is None
            &&& !taken ==> e.pending_selection == t.pending_selection && e.load_error
                == t.load_error
            &&& taken ==> {
                let s = e.pending_selection->0;
                &&& e.pending_selection is Some
                &&& Some(s.page_idx) == t.selecting_page_idx
                &&& Some(s.source_rect) == selected_rect(points->0, t.selection_multiple)
                &&& s.source_size == ((points->0).source_w, (points->0).source_h)
                &&& s.overlay_chunk == chunk
                &&& e.load_error is None
            }
            &&& e.editor == t.editor
            &&& e.pending_job_id == t.pending_job_id
            &&& e.next_job_id == t.next_job_id
        }),
        ({
            let c = t.cancelled();
            &&& c.selecting_page_idx is None
            &&& c.selection_start_scene is None
            &&& c.selection_current_scene is None
            &&& c.selection_rect is None
            &&& c.pending_selection is None
            &&& c.pending_job_id is None
            &&& !c.editor_window_shown
            &&& !c.force_center_after_load
            &&& c.editor == t.editor
            &&& c.selection_multiple == t.selection_multiple
            &&& c.next_job_id == t.next_job_id
            &&& c.editor_session_id == t.editor_session_id
        }),
{
}

/// A picture laid over another: it is left out where it is clear, takes the place of what lies
/// below where it is opaque or nothing lies below, and is mixed with it elsewhere.  One of another
/// size changes nothing.
pub proof fn overlays_cover_what_they_hide(
    base: Grid<Color>,
    overlay: Grid<Color>,
    mixed: Grid<Color>,
    i: int,
)
    requires
        0 <= i < base.px.len(),
    ensures
        ({
            let out = laid_over(base, overlay, mixed);
            let fits = base.w == overlay.w && base.h == overlay.h;
            let b = base.px[i];
            let o = overlay.px[i];
            &&& !fits ==> out == base
            &&& out.w == base.w && out.h == base.h && out.px.len() == base.px.len()
            &&& fits && o.a == 0 ==> out.px[i] == b
            &&& fits && o.a == 255 ==> out.px[i] == o
            &&& fits && o.a > 0 && b.a == 0 ==> out.px[i] == o
            &&& fits && 0 < o.a < 255 && b.a > 0 ==> out.px[i] == mixed.px[i]
        }),
        ({
            let b = base.px[i];
            let o = overlay.px[i];
            &&& cover_of(b, o) is Keep <==> o.a == 0
            &&& cover_of(b, o) is Mix <==> 0 < o.a < 255 && b.a > 0
        }),
{
}

/// A cut shows the pixels of the page from its first corner up to its last, both moved onto the
/// page.
pub proof fn cuts_show_the_page(base: Grid<Rgba>, cut: PageCut, x: int, y: int)
    requires
        base.valid(),
        base.px.len() <= usize::MAX,
        0 <= cut.x0 < cut.x1 <= base.w,
        0 <= cut.y0 < cut.y1 <= base.h,
        0 <= x < cut.x1 - cut.x0,
        0 <= y < cut.y1 - cut.y0,
    ensures
        ({
            let out = cut_picture(base, cut);
            &&& out.w == cut.x1 - cut.x0
            &&& out.h == cut.y1 - cut.y0
            &&& out.px[y * out.w + x] == premultiplied(
                base.px[(cut.y0 + y) * base.w + (cut.x0 + x)],
            )
        }),
{
    let rx = (cut.x0 as int, cut.x1 as int);
    let w = cut.x1 - cut.x0;
    let h = cut.y1 - cut.y0;
    let f = |a: int, b: int|
        {
            let start = crate::mask::capped((cut.y0 + b) * base.w + cut.x0);
            if start + crate::region_image::cut_len(rx) <= base.px.len() {
                premultiplied(base.px[start + a])
            } else {
                premultiplied(Rgba { r: 0, g: 0, b: 0, a: 0 })
            }
        };
    lemma_grid_of(w, h, f);
    let out = cut_picture(base, cut);
    assert(out == grid_of(w, h, f));
    assert(out.at(x, y) == f(x, y));
    lemma_offset(base.w, base.h, cut.x0 as int, cut.y0 + y);
    lemma_offset(base.w, base.h, cut.x1 - 1, cut.y0 + y);
}

/// A cut that leaves the page is moved onto it, and one without extent gets one pixel.
pub proof fn cuts_are_moved_onto_the_page(a: int, b: int, max: int)
    requires
        0 < max,
    ensures
        ({
            let r = crate::region_image::cut_range(a, b, max);
            &&& 0 <= r.0 <= max
            &&& 0 <= r.1 <= max
            &&& 0 <= a < b <= max ==> r == (a, b)
            &&& a < 0 ==> r.0 == 0
            &&& b > max && a < max ==> r.1 == max
            &&& 0 <= a < max && b <= a ==> r == (a, a + 1)
            &&& a >= max ==> r.0 == max
            &&& crate::region_image::cut_len(r) == if r.1 > r.0 {
                r.1 - r.0
            } else {
                1
            }
        }),
{
}

/// A region is refused where it or its page has no extent, first for the selection and then for the
/// page, and for nothing else.
pub proof fn empty_regions_are_refused(
    base: Grid<Rgba>,
    path: Seq<char>,
    rect: OverlayRectPx,
    source_w: int,
    source_h: int,
)
    ensures
        ({
            let out = region_refusal(base, path, rect, source_w, source_h);
            let empty = source_w == 0 || source_h == 0 || rect.w == 0 || rect.h == 0;
            &&& empty ==> out == Some("Невалидный размер выделения региона."@)
            &&& !empty && (base.w == 0 || base.h == 0) ==> out == Some(
                "Страница "@ + path + " имеет пустой размер."@,
            )
            &&& !empty && base.w != 0 && base.h != 0 ==> out is None
        }),
{
}

/// A preview shows a mask in one colour, nine twentieths as strong as it is, to the nearest and at
/// least by one; what is clear stays clear.
pub proof fn previews_show_the_mask(mask: Grid<Color>, r: u8, g: u8, b: u8, i: int)
    requires
        0 <= i < mask.px.len(),
    ensures
        ({
            let out = tinted(mask, r, g, b);
            let a = mask.px[i].a;
            let v = preview_alpha(a as int);
            &&& out.w == mask.w && out.h == mask.h && out.px.len() == mask.px.len()
            &&& a == 0 ==> out.px[i] == (Color { r: 0, g: 0, b: 0, a: 0 })
            &&& a > 0 ==> out.px[i] == premultiplied(Rgba { r, g, b, a: v as u8 })
            &&& 1 <= v <= 255
            &&& a > 1 ==> -10 <= 20 * v - 9 * a <= 10
        }),
{
}

/// Processing puts the result in place of the picture with clear masks of its size, and keeps what
/// was processed to go back to and to run again.
pub proof fn processing_keeps_its_source(
    v: InpaintView,
    source: SourceView,
    out: Grid<Color>,
    sample_enabled: bool,
    x: int,
    y: int,
)
    requires
        0 <= x < out.w,
        0 <= y < out.h,
    ensures
        ({
            let p = processed(v, source, out, sample_enabled);
            let c = Color { r: 0, g: 0, b: 0, a: 0 };
            &&& p.current.image == out
            &&& p.current.mask.w == out.w && p.current.mask.h == out.h
            &&& p.current.mask.px[y * out.w + x] == c
            &&& p.current.sample is Some <==> sample_enabled
            &&& sample_enabled ==> {
                let s = p.current.sample->0;
                s.w == out.w && s.h == out.h && s.px[y * out.w + x] == c
            }
            &&& p.undo.len() == v.undo.len() + 1
            &&& p.undo[v.undo.len() as int] == source
            &&& forall|k: int| 0 <= k < v.undo.len() ==> #[trigger] p.undo[k] == v.undo[k]
            &&& p.rerun == Some(source)
        }),
{
    let f = |a: int, b: int| crate::color::clear();
    lemma_grid_of(out.w, out.h, f);
    assert(blank(out.w, out.h) == grid_of(out.w, out.h, f));
    assert(blank(out.w, out.h).at(x, y) == f(x, y));
}

/// Going back takes the last source: its picture and its mask, its sample mask where one is in use,
/// and the sources before it.
pub proof fn going_back_takes_the_last_source(v: InpaintView, sample_enabled: bool)
    requires
        v.undo.len() > 0,
    ensures
        ({
            let u = undone(v, sample_enabled);
            let s = v.undo[v.undo.len() - 1];
            &&& u.current.image == s.image
            &&& u.current.mask == s.mask
            &&& !sample_enabled ==> u.current.sample is None
            &&& sample_enabled && s.sample is Some ==> u.current.sample == s.sample
            &&& sample_enabled && s.sample is None ==> u.current.sample == Some(
                blank(s.image.w, s.image.h),
            )
            &&& u.undo.len() == v.undo.len() - 1
            &&& forall|k: int| 0 <= k < u.undo.len() ==> #[trigger] u.undo[k] == v.undo[k]
            &&& u.rerun == Some(s)
        }),
{
}

/// A clear mask is clear everywhere.
pub proof fn blank_masks_are_clear(w: int, h: int, x: int, y: int)
    requires
        0 <= x < w,
        0 <= y < h,
    ensures
        blank(w, h).w == w,
        blank(w, h).h == h,
        blank(w, h).px[y * w + x] == (Color { r: 0, g: 0, b: 0, a: 0 }),
{
    let f = |a: int, b: int| crate::color::clear();
    lemma_grid_of(w, h, f);
    assert(blank(w, h) == grid_of(w, h, f));
    assert(blank(w, h).at(x, y) == f(x, y));
}

/// A fresh editor has clear masks of the size of the picture, draws on the mask to inpaint, and has
/// neither something to go back to nor something running; clearing keeps all but the masks.
pub proof fn fresh_editors_have_clear_masks(
    s: RegionInpaintEditorState,
    before: RegionInpaintEditorState,
    id: u64,
    w: int,
    h: int,
    sample: bool,
)
    ensures
        s.untouched(id, w, h, sample) ==> {
            &&& s.session_scroll_id == id
            &&& s.sample_mask_enabled == sample
            &&& s.active_mask_target == RegionInpaintMaskTarget::Inpaint
            &&& s.mask@ == blank(w, h)
            &&& s.sample_mask is Some <==> sample
            &&& sample ==> (s.sample_mask->0)@ == blank(w, h)
            &&& s.mask_texture_dirty
            &&& s.sample_mask_texture_dirty == sample
            &&& s.last_drag_px is None
            &&& s.undo_stack@.len() == 0
            &&& s.rerun_source is None
            &&& !s.processing
            &&& !s.generating
        },
        s.cleared_since(before, w, h) ==> {
            &&& s.mask@ == blank(w, h)
            &&& s.mask_texture_dirty
            &&& s.sample_mask is Some <==> before.sample_mask_enabled
            &&& s.sample_mask is Some ==> (s.sample_mask->0)@ == blank(w, h)
            &&& s.last_drag_px is None
            &&& s.undo_stack == before.undo_stack
            &&& s.rerun_source == before.rerun_source
            &&& s.sample_mask_enabled == before.sample_mask_enabled
            &&& s.active_mask_target == before.active_mask_target
        },
        s.stroke_target() == Some(RegionInpaintMaskTarget::Sample) <==> s.sample_mask_enabled
            && s.active_mask_target == RegionInpaintMaskTarget::Sample && s.sample_mask is Some,
        s.stroke_target() is None <==> s.sample_mask_enabled && s.active_mask_target
            == RegionInpaintMaskTarget::Sample && s.sample_mask is None,
{
}

/// A detected mask is white where something was found and clear elsewhere.  One of another size, or
/// with another number of pixels, is refused, in that order.
pub proof fn detected_masks_show_what_was_found(
    label: Seq<char>,
    w: int,
    h: int,
    mw: int,
    mh: int,
    alpha: Seq<u8>,
    i: int,
)
    requires
        0 <= i < alpha.len(),
        0 <= mw,
        0 <= mh,
        mw * mh <= usize::MAX,
    ensures
        detected_mask(w, h, alpha).w == w,
        detected_mask(w, h, alpha).h == h,
        detected_mask(w, h, alpha).px.len() == alpha.len(),
        detected_mask(w, h, alpha).px[i] == if alpha[i] == 0 {
            Color { r: 0, g: 0, b: 0, a: 0 }
        } else {
            Color { r: 255, g: 255, b: 255, a: 255 }
        },
        ({
            let out = detection_refusal(label, w, h, mw, mh, alpha.len() as int);
            &&& mw == w && mh == h && alpha.len() == mw * mh ==> out is None
            &&& mw != w || mh != h ==> out == Some(
                label + " backend вернул размер маски "@ + decimal(mw as nat) + "x"@ + decimal(
                    mh as nat,
                ) + ", ожидалось "@ + decimal(w as nat) + "x"@ + decimal(h as nat) + "."@,
            )
            &&& mw == w && mh == h && alpha.len() != mw * mh ==> out == Some(
                label + " backend вернул некорректную длину маски: "@ + decimal(alpha.len())
                    + " вместо "@ + decimal((mw * mh) as nat) + "."@,
            )
        }),
{
}

/// The two messages on sizes name them in the order in which they came about.
pub proof fn size_messages_name_both_sizes(a: Grid<Color>, b: Grid<Color>)
    ensures
        size_message(a, b) == "Внимание: размер после обработки изменился ("@ + decimal(a.w as nat)
            + "x"@ + decimal(a.h as nat) + " -> "@ + decimal(b.w as nat) + "x"@ + decimal(
            b.h as nat,
        ) + ")."@,
        mask_size_message(a, b) == "Ошибка генерации маски: backend вернул размер "@ + decimal(
            a.w as nat,
        ) + "x"@ + decimal(a.h as nat) + ", ожидалось "@ + decimal(b.w as nat) + "x"@ + decimal(
            b.h as nat,
        ) + "."@,
{
}

/// What is seen of an editor is its picture, its masks and its sources, newest last.
pub proof fn editors_show_their_sources(
    editor: crate::region_edit::RegionEditorSession,
    state: RegionInpaintEditorState,
    k: int,
)
    requires
        0 <= k < state.undo_stack@.len(),
    ensures
        ({
            let v = inpaint_view(editor, state);
            &&& v.current.image == editor.image@
            &&& v.current.mask == state.mask@
            &&& v.current.sample is Some <==> state.sample_mask is Some
            &&& state.sample_mask is Some ==> v.current.sample == Some((state.sample_mask->0)@)
            &&& v.undo.len() == state.undo_stack@.len()
            &&& v.undo[k].image == state.undo_stack@[k].image@
            &&& v.undo[k].mask == state.undo_stack@[k].mask@
            &&& v.rerun is Some <==> state.rerun_source is Some
            &&& state.rerun_source is Some ==> (v.rerun->0).image == (state.rerun_source->0).image@
        }),
{
}

/// Two of the ways to find text need the larger backend, the third does not.
pub proof fn detectors_are_named()
    ensures
        RegionMaskGenerationMethod::ComicTextDetector.name() == "ComicTextDetector"@,
        RegionMaskGenerationMethod::PaddleOcr.name() == "PaddleOCR"@,
        RegionMaskGenerationMethod::Surya.name() == "Surya"@,
        RegionMaskGenerationMethod::ComicTextDetector.on_torch(),
        !RegionMaskGenerationMethod::PaddleOcr.on_torch(),
        RegionMaskGenerationMethod::Surya.on_torch(),
{
}

} // verus!
