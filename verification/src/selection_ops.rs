//! What is selected, and what is copied or cut out of it.

use vstd::prelude::*;
use crate::composite::{
    clip_into_new_layer, layer_touches_selection, ClipMode, LayerMaps, Places, Selection,
};
#[allow(unused_imports)]
use crate::composite::{
    any_selected, clip_name, clip_picture, clip_placement, cut_layers, places_of, tight, touches,
    LocalPixel, SelectionBounds,
};
use crate::layer_ops::clip_edits;
#[allow(unused_imports)]
use crate::layer_ops::cut_edits;
#[allow(unused_imports)]
use crate::layer_doc::raster_node;
use crate::layers::{LayerId, LayerStack};
#[allow(unused_imports)]
use crate::layers::{layer_called, layer_from, new_raster, LayerView, StackView};
#[allow(unused_imports)]
use crate::lists::lemma_push_contains;
use crate::panel::RowSel;
#[allow(unused_imports)]
use crate::panel::{opt_row, RowView};
#[allow(unused_imports)]
use crate::raster::{grid_of, lemma_grid_eq, lemma_grid_of, Grid};
use crate::raster_edits::DocEdit;
#[allow(unused_imports)]
use crate::raster_edits::{edit_views, opt_stack, opt_stack_wf, DocEditView};
use crate::text_layers::PsTextLayer;
#[allow(unused_imports)]
use crate::text_layers::{text_views, TextView};

verus! {

/// What selecting the active layer selects.
pub enum SelectTarget {
    /// Nothing changes.
    Unchanged,
    /// The outline of a text.
    TextOutline(usize),
    /// The whole page.
    Page(Selection),
    /// The outline of a layer.
    LayerOutline(LayerId),
}

/// The place of a text, searched from `i` on.
pub open spec fn text_from(ts: Seq<TextView>, uid: Seq<char>, i: int) -> Option<int>
    decreases ts.len() - i,
{
    if i < 0 || i >= ts.len() {
        None
    } else if ts[i].uid == uid {
        Some(i)
    } else {
        text_from(ts, uid, i + 1)
    }
}

pub fn find_text(text_layers: &Vec<PsTextLayer>, uid: &String) -> (r: Option<usize>)
    ensures
        match r {
            Some(i) => i < text_layers@.len() && text_from(text_views(text_layers@), uid@, 0)
                == Some(i as int),
            None => text_from(text_views(text_layers@), uid@, 0) is None,
        },
{
    let mut i: usize = 0;
    while i < text_layers.len()
        invariant
            i <= text_layers@.len(),
            text_from(text_views(text_layers@), uid@, 0) == text_from(
                text_views(text_layers@),
                uid@,
                i as int,
            ),
        decreases text_layers@.len() - i,
    {
        assert(text_views(text_layers@)[i as int] == text_layers@[i as int]@);
        if text_layers[i].uid == *uid {
            return Some(i);
        }
        i += 1;
    }
    None
}

/// What selecting the active layer selects: the outline of the text whose row is the main one, or
/// else the active layer; the whole page, if the layer covers it unmoved.
pub fn select_active_layer_fully(
    stack: &Option<LayerStack>,
    primary: &Option<RowSel>,
    text_layers: &Vec<PsTextLayer>,
    unmoved: bool,
) -> (r: SelectTarget)
    requires
        opt_stack_wf(*stack),
        stack is Some ==> (stack->0).w <= i32::MAX && (stack->0).h <= i32::MAX,
    ensures
        match opt_stack(*stack) {
            None => r is Unchanged,
            Some(s) => match opt_row(*primary) {
                Some(RowView::Text(uid)) => match text_from(text_views(text_layers@), uid, 0) {
                    Some(i) => r is TextOutline && r->TextOutline_0 == i,
                    None => r is Unchanged,
                },
                _ => match layer_called(s.layers, s.active) {
                    None => r is Unchanged,
                    Some(l) => if unmoved && l.image.w == s.w && l.image.h == s.h {
                        r is Page && (r->Page_0).wf() && (r->Page_0).mask@ == grid_of(
                            s.w as int,
                            s.h as int,
                            |x: int, y: int| true,
                        )
                    } else {
                        r is LayerOutline && r->LayerOutline_0 == s.active
                    },
                },
            },
        },
{
    let s = match stack {
        Some(s) => s,
        None => {
            return SelectTarget::Unchanged;
        },
    };
    if let Some(row) = primary {
        if let RowSel::Text(uid) = row {
            return match find_text(text_layers, uid) {
                Some(i) => SelectTarget::TextOutline(i),
                None => SelectTarget::Unchanged,
            };
        }
    }
    match s.layer(s.active) {
        None => SelectTarget::Unchanged,
        Some(l) => {
            if unmoved && l.image.w == s.w && l.image.h == s.h {
                let mut selection = Selection::empty(s.w, s.h);
                proof {
                    lemma_grid_of(s.w as int, s.h as int, |x: int, y: int| false);
                }
                selection.set_rect(0, 0, s.w as i32, s.h as i32);
                proof {
                    lemma_whole_page(s.w as i32, s.h as i32, selection.mask@);
                }
                SelectTarget::Page(selection)
            } else {
                SelectTarget::LayerOutline(s.active)
            }
        },
    }
}

proof fn lemma_whole_page(w: i32, h: i32, mask: Grid<bool>)
    requires
        0 <= w,
        0 <= h,
        mask == grid_of(
            w as int,
            h as int,
            |x: int, y: int| 0i32 <= x < w && 0i32 <= y < h,
        ),
    ensures
        mask == grid_of(w as int, h as int, |x: int, y: int| true),
{
    let f = |x: int, y: int| 0i32 <= x < w && 0i32 <= y < h;
    let t = |x: int, y: int| true;
    lemma_grid_of(w as int, h as int, f);
    lemma_grid_of(w as int, h as int, t);
    let whole = grid_of(w as int, h as int, t);
    assert forall|x: int, y: int| mask.inside(x, y) implies #[trigger] mask.at(x, y) == whole.at(
        x,
        y,
    ) by {
        assert(grid_of(w as int, h as int, f).at(x, y) == f(x, y));
    }
    lemma_grid_eq(mask, whole);
}

/// The layers that a selection touches, among the first `n`.
pub open spec fn touched_layers(
    layers: Seq<LayerView>,
    places: Seq<Grid<Option<LocalPixel>>>,
    mask: Grid<bool>,
    b: SelectionBounds,
    n: int,
) -> Seq<LayerId>
    decreases n,
{
    if n <= 0 {
        Seq::empty()
    } else {
        let prev = touched_layers(layers, places, mask, b, n - 1);
        if touches(layers[n - 1].image, places[n - 1], mask, b) {
            prev.push(layers[n - 1].id)
        } else {
            prev
        }
    }
}

/// The layers that the selection touches, from the bottom to the top; none without a page or
/// where nothing is selected.
pub fn refresh_clip_touched_layers(
    stack: &Option<LayerStack>,
    selection: &Option<Selection>,
    places: &Vec<Places>,
) -> (ids: Vec<LayerId>)
    requires
        opt_stack_wf(*stack),
        *selection is Some ==> (selection->0).wf(),
        stack is Some ==> places@.len() == (stack->0).layers@.len(),
        forall|i: int| 0 <= i < places@.len() ==> (#[trigger] places@[i]).wf(),
    ensures
        match (opt_stack(*stack), *selection) {
            (Some(s), Some(sel)) => if any_selected(sel.mask@) {
                exists|b: SelectionBounds| #[trigger]
                    tight(sel.mask@, b) && ids@ == touched_layers(
                        s.layers,
                        places_of(places@),
                        sel.mask@,
                        b,
                        s.layers.len() as int,
                    )
            } else {
                ids@.len() == 0
            },
            _ => ids@.len() == 0,
        },
{
    let mut ids: Vec<LayerId> = Vec::new();
    match (stack, selection) {
        (Some(s), Some(sel)) => {
            let b = match sel.bounds() {
                Some(b) => b,
                None => {
                    return ids;
                },
            };
            let mut n: usize = 0;
            while n < s.layers.len()
                invariant
                    n <= s.layers@.len(),
                    s.wf(),
                    sel.wf(),
                    places@.len() == s.layers@.len(),
                    forall|i: int| 0 <= i < places@.len() ==> (#[trigger] places@[i]).wf(),
                    ids@ == touched_layers(
                        s@.layers,
                        places_of(places@),
                        sel.mask@,
                        b,
                        n as int,
                    ),
                decreases s.layers@.len() - n,
            {
                assert(s@.layers[n as int] == s.layers@[n as int]@);
                assert(s@.layers[n as int].valid());
                assert(places@[n as int].wf());
                assert(places_of(places@)[n as int] == places@[n as int]@);
                if layer_touches_selection(&s.layers[n], &places[n], sel, b) {
                    ids.push(s.layers[n].id);
                }
                n += 1;
            }
            assert(tight(sel.mask@, b));
            ids
        },
        _ => ids,
    }
}

/// The picked layers among the first `n` touched ones.
pub open spec fn picked_of(touched: Seq<LayerId>, picked: Seq<LayerId>, n: int) -> Seq<LayerId>
    decreases n,
{
    if n <= 0 {
        Seq::empty()
    } else if picked.contains(touched[n - 1]) {
        picked_of(touched, picked, n - 1).push(touched[n - 1])
    } else {
        picked_of(touched, picked, n - 1)
    }
}

/// Which layers are copied or cut.
#[derive(Clone, Copy, Debug, PartialEq, Eq, Structural)]
pub enum ClipChoice {
    /// The highest one that the selection touches.
    Top,
    /// Those that were ticked.
    Picked,
    All,
}

/// The ids of all layers, from the bottom to the top.
pub open spec fn all_ids(layers: Seq<LayerView>) -> Seq<LayerId> {
    layers.map_values(|l: LayerView| l.id)
}

/// The layers that are copied or cut, from the bottom to the top; nothing happens without one.
pub fn clip_layers(
    stack: &Option<LayerStack>,
    touched: &Vec<LayerId>,
    picked: &Vec<LayerId>,
    choice: ClipChoice,
) -> (ids: Vec<LayerId>)
    ensures
        ids@ == match choice {
            ClipChoice::Top => if touched@.len() > 0 {
                seq![touched@[touched@.len() - 1]]
            } else {
                Seq::empty()
            },
            ClipChoice::Picked => picked_of(touched@, picked@, touched@.len() as int),
            ClipChoice::All => match opt_stack(*stack) {
                Some(s) => all_ids(s.layers),
                None => Seq::empty(),
            },
        },
{
    let mut ids: Vec<LayerId> = Vec::new();
    match choice {
        ClipChoice::Top => {
            if touched.len() > 0 {
                ids.push(touched[touched.len() - 1]);
            }
            assert(ids@ =~= if touched@.len() > 0 {
                seq![touched@[touched@.len() - 1]]
            } else {
                Seq::empty()
            });
        },
        ClipChoice::Picked => {
            let mut n: usize = 0;
            while n < touched.len()
                invariant
                    n <= touched@.len(),
                    ids@ == picked_of(touched@, picked@, n as int),
                decreases touched@.len() - n,
            {
                if is_picked(picked, touched[n]) {
                    ids.push(touched[n]);
                }
                n += 1;
            }
        },
        ClipChoice::All => {
            if let Some(s) = stack {
                let ghost target = all_ids(s@.layers);
                let mut n: usize = 0;
                while n < s.layers.len()
                    invariant
                        n <= s.layers@.len(),
                        target == all_ids(s@.layers),
                        ids@ == target.take(n as int),
                    decreases s.layers@.len() - n,
                {
                    assert(s@.layers[n as int] == s.layers@[n as int]@);
                    ids.push(s.layers[n].id);
                    n += 1;
                    assert(ids@ =~= target.take(n as int));
                }
                assert(ids@ =~= target);
            }
        },
    }
    ids
}

pub fn is_picked(picked: &Vec<LayerId>, id: LayerId) -> (b: bool)
    ensures
        b == picked@.contains(id),
{
    let mut i: usize = 0;
    while i < picked.len()
        invariant
            i <= picked@.len(),
            forall|k: int| 0 <= k < i ==> picked@[k] != id,
        decreases picked@.len() - i,
    {
        if picked[i] == id {
            return true;
        }
        i += 1;
    }
    false
}

/// Ticks a layer, or takes the tick away.
pub fn pick_layer(picked: &mut Vec<LayerId>, id: LayerId, on: bool)
    ensures
        forall|x: LayerId| #[trigger]
            final(picked)@.contains(x) <==> if x == id {
                on
            } else {
                old(picked)@.contains(x)
            },
{
    let ghost before = picked@;
    let mut kept: Vec<LayerId> = Vec::new();
    let mut i: usize = 0;
    while i < picked.len()
        invariant
            i <= picked@.len(),
            before == picked@,
            forall|x: LayerId| #[trigger]
                kept@.contains(x) <==> x != id && before.take(i as int).contains(x),
        decreases picked@.len() - i,
    {
        let ghost k0 = kept@;
        let p: LayerId = picked[i];
        if p != id {
            kept.push(p);
        }
        proof {
            let a = before.take(i as int);
            let b = before.take(i + 1);
            assert(b =~= a.push(p));
            assert forall|x: LayerId| #[trigger] kept@.contains(x) <==> x != id && b.contains(x) by {
                lemma_push_contains(a, p, x);
                lemma_push_contains(k0, p, x);
            }
        }
        i += 1;
    }
    assert(before.take(before.len() as int) =~= before);
    if on {
        let ghost k0 = kept@;
        kept.push(id);
        assert forall|x: LayerId| #[trigger] kept@.contains(x) <==> k0.contains(x) || x == id by {
            lemma_push_contains(k0, id, x);
        }
    }
    *picked = kept;
}

/// What a copy or a cut leaves to be done.
pub struct ClipDone {
    pub edits: Vec<DocEdit>,
    /// The layers whose pictures go to the graphics card again.
    pub redraw: Vec<LayerId>,
}

/// The stack after a copy or a cut.
pub open spec fn clipped_stack(
    s: StackView,
    mask: Grid<bool>,
    mode: ClipMode,
    ids: Seq<LayerId>,
    maps: Seq<LayerMaps>,
    uid: u128,
    b: SelectionBounds,
) -> StackView {
    (StackView {
        layers: match mode {
            ClipMode::Copy => s.layers,
            ClipMode::Cut => cut_layers(s.layers, ids, maps, mask, ids.len() as int),
        },
        ..s
    }).with_raster(
        new_raster(
            s.next_layer_id,
            uid,
            clip_name(mode),
            clip_picture(s.layers, ids, maps, mask, b),
            clip_placement(b),
        ),
    )
}

/// A copy or a cut can be made: there are a page and its layers, something is selected, and a
/// layer is chosen.
pub open spec fn can_clip(
    page: Option<usize>,
    s: Option<StackView>,
    selection: Option<Selection>,
    ids: Seq<LayerId>,
) -> bool {
    page is Some && s is Some && selection is Some && any_selected((selection->0).mask@)
        && ids.len() > 0
}

/// Copies or cuts the selection out of the chosen layers into a new one.
pub fn perform_clip(
    stack: &mut Option<LayerStack>,
    selection: &Option<Selection>,
    page: Option<usize>,
    mode: ClipMode,
    layer_ids: &Vec<LayerId>,
    maps: &Vec<LayerMaps>,
    uid: u128,
) -> (r: Option<ClipDone>)
    requires
        opt_stack_wf(*old(stack)),
        *selection is Some ==> (selection->0).wf() && 2 * (selection->0).mask@.w <= usize::MAX && 2
            * (selection->0).mask@.h <= usize::MAX,
        maps@.len() == layer_ids@.len(),
        forall|i: int| 0 <= i < maps@.len() ==> (#[trigger] maps@[i]).wf(),
        *old(stack) is Some ==> opt_stack(*old(stack))->0.next_layer_id < u64::MAX,
    ensures
        opt_stack_wf(*final(stack)),
        r is Some <==> can_clip(page, opt_stack(*old(stack)), *selection, layer_ids@),
        r is None ==> opt_stack(*final(stack)) == opt_stack(*old(stack)),
        r is Some ==> {
            let mask = (selection->0).mask@;
            &&& exists|b: SelectionBounds| #[trigger]
                tight(mask, b) && opt_stack(*final(stack)) == Some(
                    clipped_stack(
                        opt_stack(*old(stack))->0,
                        mask,
                        mode,
                        layer_ids@,
                        maps@,
                        uid,
                        b,
                    ),
                )
            &&& (r->0).redraw@ == match mode {
                ClipMode::Copy => Seq::empty(),
                ClipMode::Cut => layer_ids@,
            }
            &&& ({
                let s = opt_stack(*final(stack))->0;
                edit_views((r->0).edits@) == (match mode {
                    ClipMode::Cut => cut_edits(s, layer_ids@, layer_ids@.len() as int),
                    ClipMode::Copy => Seq::empty(),
                }).push(DocEditView::AddNode(raster_node(s, s.layers[s.layers.len() - 1])))
            })
        },
{
    if page.is_none() {
        return None;
    }
    match stack {
        None => None,
        Some(s) => {
            let sel = match selection {
                Some(sel) => sel,
                None => {
                    return None;
                },
            };
            if !sel.any() {
                return None;
            }
            let ghost s0 = s@;
            match clip_into_new_layer(s, sel, mode, layer_ids, maps, uid) {
                None => None,
                Some(b) => {
                    assert(tight(sel.mask@, b));
                    assert(s@ == clipped_stack(
                        s0,
                        sel.mask@,
                        mode,
                        layer_ids@,
                        maps@,
                        uid,
                        b,
                    ));
                    proof {
                        lemma_top_is_active(s@);
                    }
                    let edits = clip_edits(s, mode, layer_ids);
                    let mut redraw: Vec<LayerId> = Vec::new();
                    if mode == ClipMode::Cut {
                        let mut i: usize = 0;
                        while i < layer_ids.len()
                            invariant
                                i <= layer_ids@.len(),
                                redraw@ == layer_ids@.take(i as int),
                            decreases layer_ids@.len() - i,
                        {
                            redraw.push(layer_ids[i]);
                            i += 1;
                            assert(redraw@ =~= layer_ids@.take(i as int));
                        }
                        assert(redraw@ =~= layer_ids@);
                    }
                    Some(ClipDone { edits, redraw })
                },
            }
        },
    }
}

proof fn lemma_found_at(layers: Seq<LayerView>, id: LayerId, i: int, k: int)
    requires
        0 <= i <= k < layers.len(),
        layers[k].id == id,
        forall|j: int| 0 <= j < k ==> (#[trigger] layers[j]).id != id,
    ensures
        layer_from(layers, id, i) == Some(k),
    decreases k - i,
{
    if i < k {
        lemma_found_at(layers, id, i + 1, k);
    }
}

proof fn lemma_top_is_active(s: StackView)
    requires
        s.valid(),
        s.active == s.layers[s.layers.len() - 1].id,
    ensures
        layer_called(s.layers, s.active) == Some(s.layers[s.layers.len() - 1]),
{
    let k = s.layers.len() - 1;
    assert forall|j: int| 0 <= j < k implies (#[trigger] s.layers[j]).id != s.active by {
        assert(s.layers[j].id != s.layers[k].id);
    }
    lemma_found_at(s.layers, s.active, 0, k);
}

} // verus!
