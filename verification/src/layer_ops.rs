//! What is done with whole layers: storing, merging, baking, clipping and turning texts into
//! layers.

use vstd::prelude::*;
use vstd::string::StringExecFns;
use crate::bands::{raster_below_uid, Band};
#[allow(unused_imports)]
use crate::bands::{band_views, beneath, BandView};
use crate::color::ColorImage;
#[allow(unused_imports)]
use crate::color::Color;
use crate::composite::{composite_to_page, ClipMode, Places};
#[allow(unused_imports)]
use crate::composite::{images_of, places_of, stacked, LocalPixel};
use crate::ident::{uid_is, uid_to_string};
#[allow(unused_imports)]
use crate::ident::{opt_text, texts, uid_text};
use crate::layer_doc::{layer_to_raster_node, GroupMeta};
#[allow(unused_imports)]
use crate::layer_doc::{meta_views, raster_node, MetaView};
use crate::layers::{
    copy_deform, transform_to_rec, DeformRec, Layer, LayerId, LayerKind, LayerStack,
    LayerTransform, TransformRec,
};
#[allow(unused_imports)]
use crate::layers::{
    deform_view, group_uid_of, identity_placement, layer_called, layer_from, lemma_layer_from,
    new_raster, stored_placement, DeformView, GroupView, LayerView, StackView,
};
#[allow(unused_imports)]
use crate::raster::{grid_of, Grid};
use crate::raster_edits::{record_raster_deletion, DeletedRasters, DocEdit};
#[allow(unused_imports)]
use crate::raster_edits::{edit_views, DocEditView};
use crate::text_layers::PsTextLayer;

verus! {

/// A layer as it is stored.
pub struct StoredLayer {
    pub uid: String,
    pub name: String,
    pub visible: bool,
    pub opacity: u32,
    pub transform: TransformRec,
    pub deform: Option<DeformRec>,
    pub group_uid: Option<String>,
    pub base_image: ColorImage,
    pub pixels_dirty: bool,
}

#[verifier::ext_equal]
pub struct StoredView {
    pub uid: Seq<char>,
    pub name: Seq<char>,
    pub visible: bool,
    pub opacity: u32,
    pub transform: TransformRec,
    pub deform: Option<DeformView>,
    pub group_uid: Option<Seq<char>>,
    pub base_image: Grid<Color>,
    pub pixels_dirty: bool,
}

impl View for StoredLayer {
    type V = StoredView;

    open spec fn view(&self) -> StoredView {
        StoredView {
            uid: self.uid@,
            name: self.name@,
            visible: self.visible,
            opacity: self.opacity,
            transform: self.transform,
            deform: deform_view(self.deform),
            group_uid: opt_text(self.group_uid),
            base_image: self.base_image@,
            pixels_dirty: self.pixels_dirty,
        }
    }
}

pub open spec fn stored_views(v: Seq<StoredLayer>) -> Seq<StoredView> {
    v.map_values(|l: StoredLayer| l@)
}

/// The stored form of a layer of a stack: its shown pixels, and the identifier of its group.
pub open spec fn stored_form(s: StackView, l: LayerView) -> StoredView {
    StoredView {
        uid: uid_text(l.uid),
        name: l.name,
        visible: l.visible,
        opacity: l.opacity,
        transform: stored_placement(l.transform),
        deform: l.deform,
        group_uid: group_uid_of(s, l),
        base_image: l.image,
        pixels_dirty: l.pixels_dirty,
    }
}

/// The stored forms of the layers of the user among the first `n`.
pub open spec fn stored_forms(s: StackView, n: int) -> Seq<StoredView>
    decreases n,
{
    if n <= 0 {
        Seq::empty()
    } else if s.layers[n - 1].kind == LayerKind::Raster {
        stored_forms(s, n - 1).push(stored_form(s, s.layers[n - 1]))
    } else {
        stored_forms(s, n - 1)
    }
}

/// The stored forms of the groups.
pub open spec fn stored_groups(gs: Seq<GroupView>) -> Seq<MetaView> {
    gs.map_values(
        |g: GroupView|
            MetaView {
                uid: uid_text(g.uid),
                name: g.name,
                visible: g.visible,
                opacity: g.opacity,
                collapsed: g.collapsed,
            },
    )
}

/// What is written to the disk for a page.  The base layers are not part of it.
pub struct PageSave {
    pub page_idx: usize,
    pub layers: Vec<StoredLayer>,
    pub groups: Vec<GroupMeta>,
    pub removed_uids: Vec<String>,
}

/// The job holds the layers and groups of a page, and which of its layers were deleted.
pub open spec fn stores(job: PageSave, s: StackView, deleted: Set<(usize, Seq<char>)>) -> bool {
    &&& job.page_idx == s.page_idx
    &&& stored_views(job.layers@) == stored_forms(s, s.layers.len() as int)
    &&& meta_views(job.groups@) == stored_groups(s.groups)
    &&& forall|u: Seq<char>| #[trigger]
        texts(job.removed_uids@).contains(u) <==> deleted.contains((s.page_idx, u))
}

/// Puts together what is to be stored of a page.
pub fn page_save(stack: &LayerStack, deleted: &DeletedRasters) -> (job: PageSave)
    ensures
        stores(job, stack@, deleted@),
{
    let ghost s = stack@;
    let mut layers: Vec<StoredLayer> = Vec::new();
    let mut i: usize = 0;
    while i < stack.layers.len()
        invariant
            i <= stack.layers@.len(),
            s == stack@,
            stored_views(layers@) == stored_forms(s, i as int),
        decreases stack.layers@.len() - i,
    {
        let ghost before = layers@;
        let l = &stack.layers[i];
        assert(s.layers[i as int] == l@);
        if l.kind == LayerKind::Raster {
            let o = StoredLayer {
                uid: uid_to_string(l.uid),
                name: l.name.clone(),
                visible: l.visible,
                opacity: l.opacity,
                transform: transform_to_rec(l.transform),
                deform: copy_deform(&l.deform),
                group_uid: stack.layer_group_uid(i),
                base_image: l.image.copied(),
                pixels_dirty: l.pixels_dirty,
            };
            let ghost ov = o@;
            layers.push(o);
            assert(stored_views(layers@) =~= stored_views(before).push(ov));
        }
        i += 1;
    }
    let ghost gt = stored_groups(s.groups);
    let mut groups: Vec<GroupMeta> = Vec::new();
    let mut k: usize = 0;
    while k < stack.groups.len()
        invariant
            k <= stack.groups@.len(),
            s == stack@,
            gt == stored_groups(s.groups),
            meta_views(groups@) == gt.take(k as int),
        decreases stack.groups@.len() - k,
    {
        let ghost before = groups@;
        let g = &stack.groups[k];
        assert(s.groups[k as int] == g@);
        let m = GroupMeta {
            uid: uid_to_string(g.uid),
            name: g.name.clone(),
            visible: g.visible,
            opacity: g.opacity,
            collapsed: g.collapsed,
        };
        let ghost mv = m@;
        groups.push(m);
        assert(meta_views(groups@) =~= meta_views(before).push(mv));
        assert(gt[k as int] == mv);
        k += 1;
        assert(meta_views(groups@) =~= gt.take(k as int));
    }
    assert(gt.take(gt.len() as int) =~= gt);
    PageSave {
        page_idx: stack.page_idx,
        layers,
        groups,
        removed_uids: deleted.of_page(stack.page_idx),
    }
}

/// Notes that a page was stored: its deletions are done, and its pixels are clean.
pub fn page_saved(stack: &mut LayerStack, deleted: &mut DeletedRasters, layers_dirty: &mut bool)
    requires
        old(stack).wf(),
    ensures
        final(stack).wf(),
        final(stack)@ == old(stack)@.persisted(),
        !*final(layers_dirty),
        forall|k: (usize, Seq<char>)| #[trigger]
            final(deleted)@.contains(k) <==> old(deleted)@.contains(k) && k.0
                != old(stack)@.page_idx,
{
    deleted.clear_page(stack.page_idx);
    *layers_dirty = false;
    stack.mark_rasters_persisted();
}

/// How the shared document of layers can be reached.
#[derive(Clone, Copy, Debug, PartialEq, Eq, Structural)]
pub enum DocAccess {
    NoDocument,
    Locked,
    /// The document does not hold the page.
    NotResident,
    Ready,
}

/// An edit that goes to the document and is stored at once; tells whether it was made.
pub fn route_to_doc(access: DocAccess, layers_dirty: &mut bool) -> (made: bool)
    ensures
        made == (access == DocAccess::Ready),
        *final(layers_dirty) == (*old(layers_dirty) && !made),
{
    if access != DocAccess::Ready {
        return false;
    }
    *layers_dirty = false;
    true
}

/// An edit that goes to the document and is stored when the page or the tab is left; tells
/// whether it was made.
pub fn edit_doc_node(access: DocAccess, layers_dirty: &mut bool) -> (made: bool)
    ensures
        made == (access == DocAccess::Ready),
        *final(layers_dirty) == (*old(layers_dirty) || made),
{
    if access != DocAccess::Ready {
        return false;
    }
    *layers_dirty = true;
    true
}

/// The place of the first layer with an identifier, searched from `i` on.
pub open spec fn uid_from(layers: Seq<LayerView>, uid: Seq<char>, i: int) -> Option<int>
    decreases layers.len() - i,
{
    if i < 0 || i >= layers.len() {
        None
    } else if uid_text(layers[i].uid) == uid {
        Some(i)
    } else {
        uid_from(layers, uid, i + 1)
    }
}

fn find_uid(stack: &LayerStack, uid: &String) -> (r: Option<usize>)
    ensures
        match r {
            Some(i) => i < stack.layers@.len() && uid_from(stack@.layers, uid@, 0) == Some(
                i as int,
            ),
            None => uid_from(stack@.layers, uid@, 0) is None,
        },
{
    let mut i: usize = 0;
    while i < stack.layers.len()
        invariant
            i <= stack.layers@.len(),
            uid_from(stack@.layers, uid@, 0) == uid_from(stack@.layers, uid@, i as int),
        decreases stack.layers@.len() - i,
    {
        if uid_is(stack.layers[i].uid, uid) {
            return Some(i);
        }
        i += 1;
    }
    None
}

/// Why a layer is not merged down.
#[derive(Clone, Copy, Debug, PartialEq, Eq, Structural)]
pub enum MergeRefusal {
    /// There is no layer, or nothing beneath it that it could be merged with.
    NothingBeneath,
    /// One of the two layers has effects, which have to be baked first.
    BakeFirst,
}

/// The two layers of a merge, by their places in the stack.
#[derive(Clone, Copy, Debug, PartialEq, Eq, Structural)]
pub struct MergePair {
    pub below: usize,
    pub upper: usize,
}

/// The two layers that a merge of a layer joins, or why it is refused.
pub open spec fn merge_pair(s: StackView, bands: Seq<BandView>, id: LayerId) -> Result<
    (int, int),
    MergeRefusal,
> {
    match beneath(s, bands, id) {
        None => Err(MergeRefusal::NothingBeneath),
        Some(uid) => match (layer_from(s.layers, id, 0), uid_from(s.layers, uid, 0)) {
            (Some(u), Some(b)) => if s.layers[u].kind.base() || s.layers[b].kind.base() {
                Err(MergeRefusal::NothingBeneath)
            } else if s.layers[u].effects.len() > 0 || s.layers[b].effects.len() > 0 {
                Err(MergeRefusal::BakeFirst)
            } else {
                Ok((b, u))
            },
            _ => Err(MergeRefusal::NothingBeneath),
        },
    }
}

/// Finds the two layers that a merge joins.
pub fn plan_merge(stack: &LayerStack, bands: &Vec<Band>, id: LayerId) -> (r: Result<
    MergePair,
    MergeRefusal,
>)
    requires
        bands@.len() <= u32::MAX,
    ensures
        match merge_pair(stack@, band_views(bands@), id) {
            Ok(p) => r is Ok && (r->Ok_0).below == p.0 && (r->Ok_0).upper == p.1 && p.0
                < stack.layers@.len() && p.1 < stack.layers@.len(),
            Err(e) => r is Err && r->Err_0 == e,
        },
{
    let below_uid = match raster_below_uid(stack, bands, id) {
        Some(u) => u,
        None => {
            return Err(MergeRefusal::NothingBeneath);
        },
    };
    match (stack.position(id), find_uid(stack, &below_uid)) {
        (Some(upper), Some(below)) => {
            if stack.layers[upper].kind.is_base() || stack.layers[below].kind.is_base() {
                return Err(MergeRefusal::NothingBeneath);
            }
            assert(stack@.layers[upper as int].effects.len()
                == stack.layers@[upper as int].effects@.len());
            assert(stack@.layers[below as int].effects.len()
                == stack.layers@[below as int].effects@.len());
            if stack.layers[upper].effects.len() > 0 || stack.layers[below].effects.len() > 0 {
                return Err(MergeRefusal::BakeFirst);
            }
            Ok(MergePair { below, upper })
        },
        _ => Err(MergeRefusal::NothingBeneath),
    }
}

/// What a merge asks of the document: the lower layer gets the joined pixels and covers the page,
/// and the upper one goes.
pub open spec fn merge_edits(
    below: LayerView,
    upper: LayerView,
    merged: Grid<Color>,
    w: int,
    h: int,
) -> Seq<DocEditView> {
    seq![
        DocEditView::SetPixels { uid: uid_text(below.uid), base: merged, display: merged },
        DocEditView::SetTransform {
            uid: uid_text(below.uid),
            transform: stored_placement(identity_placement(w, h)),
        },
        DocEditView::RemoveNode { uid: uid_text(upper.uid) },
    ]
}

/// The pixels of two layers joined, the upper one over the lower one.
pub open spec fn merged_pixels(
    below: Grid<Color>,
    upper: Grid<Color>,
    below_places: Grid<Option<LocalPixel>>,
    upper_places: Grid<Option<LocalPixel>>,
    w: int,
    h: int,
) -> Grid<Color> {
    grid_of(
        w,
        h,
        |x: int, y: int|
            stacked(seq![below, upper], seq![below_places, upper_places], 2, x, y),
    )
}

/// Joins two layers.
pub fn merge_layers(
    stack: &LayerStack,
    pair: MergePair,
    below_places: Places,
    upper_places: Places,
) -> (edits: Vec<DocEdit>)
    requires
        stack.wf(),
        pair.below < stack.layers@.len(),
        pair.upper < stack.layers@.len(),
        below_places.wf(),
        upper_places.wf(),
    ensures
        edit_views(edits@) == merge_edits(
            stack@.layers[pair.below as int],
            stack@.layers[pair.upper as int],
            merged_pixels(
                stack@.layers[pair.below as int].image,
                stack@.layers[pair.upper as int].image,
                below_places@,
                upper_places@,
                stack@.w as int,
                stack@.h as int,
            ),
            stack@.w as int,
            stack@.h as int,
        ),
{
    let below = &stack.layers[pair.below];
    let upper = &stack.layers[pair.upper];
    assert(stack@.layers[pair.below as int].valid() && stack@.layers[pair.upper as int].valid());
    let mut pair_layers: Vec<&Layer> = Vec::new();
    pair_layers.push(below);
    pair_layers.push(upper);
    let mut places: Vec<Places> = Vec::new();
    places.push(below_places);
    places.push(upper_places);
    let base = composite_to_page(&pair_layers, &places, stack.w, stack.h);
    proof {
        let imgs = images_of(pair_layers@);
        let pls = places_of(places@);
        assert(imgs =~= seq![below@.image, upper@.image]);
        assert(pls =~= seq![below_places@, upper_places@]);
        let m = merged_pixels(
            below@.image,
            upper@.image,
            below_places@,
            upper_places@,
            stack@.w as int,
            stack@.h as int,
        );
        assert(base@.px =~= m.px);
        assert(base@ =~= m);
    }
    let display = base.copied();
    let mut edits: Vec<DocEdit> = Vec::new();
    edits.push(DocEdit::SetPixels { uid: uid_to_string(below.uid), base, display });
    edits.push(
        DocEdit::SetTransform {
            uid: uid_to_string(below.uid),
            transform: transform_to_rec(LayerTransform::identity_for(stack.w, stack.h)),
        },
    );
    edits.push(DocEdit::RemoveNode { uid: uid_to_string(upper.uid) });
    proof {
        let t = merge_edits(
            stack@.layers[pair.below as int],
            stack@.layers[pair.upper as int],
            base@,
            stack@.w as int,
            stack@.h as int,
        );
        assert(edit_views(edits@) =~= t);
    }
    edits
}

/// A layer merged down: what the document is asked for, and the layer that becomes active.
pub struct MergeDone {
    pub edits: Vec<DocEdit>,
    pub below_id: LayerId,
}

/// Merges a layer onto the one beneath it; the deletion of the upper one is noted.
pub fn merge_down(
    stack: &LayerStack,
    bands: &Vec<Band>,
    deleted: &mut DeletedRasters,
    id: LayerId,
    below_places: Places,
    upper_places: Places,
) -> (r: Result<MergeDone, MergeRefusal>)
    requires
        stack.wf(),
        bands@.len() <= u32::MAX,
        below_places.wf(),
        upper_places.wf(),
    ensures
        match merge_pair(stack@, band_views(bands@), id) {
            Err(e) => r is Err && r->Err_0 == e && final(deleted)@ == old(deleted)@,
            Ok(p) => {
                let below = stack@.layers[p.0];
                let upper = stack@.layers[p.1];
                let w = stack@.w as int;
                let h = stack@.h as int;
                &&& r is Ok
                &&& (r->Ok_0).below_id == below.id
                &&& edit_views((r->Ok_0).edits@) == merge_edits(
                    below,
                    upper,
                    merged_pixels(
                        below.image,
                        upper.image,
                        below_places@,
                        upper_places@,
                        w,
                        h,
                    ),
                    w,
                    h,
                )
                &&& final(deleted)@ == old(deleted)@.insert(
                    (stack@.page_idx, uid_text(upper.uid)),
                )
            },
        },
{
    let pair = match plan_merge(stack, bands, id) {
        Ok(p) => p,
        Err(e) => {
            return Err(e);
        },
    };
    proof {
        merging_spares_the_base(stack@, band_views(bands@), id);
        lemma_layer_from(stack@.layers, id, 0);
    }
    assert(stack@.layers[pair.below as int] == stack.layers@[pair.below as int]@);
    let below_id: LayerId = stack.layers[pair.below].id;
    record_raster_deletion(deleted, stack, id);
    let edits = merge_layers(stack, pair, below_places, upper_places);
    Ok(MergeDone { edits, below_id })
}

/// Merging never touches the base layers, and joins a layer only with one that lies beneath it.
pub proof fn merging_spares_the_base(s: StackView, bands: Seq<BandView>, id: LayerId)
    requires
        merge_pair(s, bands, id) is Ok,
    ensures
        ({
            let p = merge_pair(s, bands, id)->Ok_0;
            &&& !s.layers[p.0].kind.base()
            &&& !s.layers[p.1].kind.base()
            &&& s.layers[p.0].effects.len() == 0
            &&& s.layers[p.1].effects.len() == 0
            &&& s.layers[p.1].id == id
        }),
{
    lemma_layer_from(s.layers, id, 0);
}

/// Bakes the effects of a layer into its pixels; a layer without effects has nothing to bake.
pub fn bake_raster(stack: &LayerStack, id: LayerId) -> (r: Option<DocEdit>)
    ensures
        match layer_called(stack@.layers, id) {
            Some(l) => if l.kind == LayerKind::Raster && l.effects.len() > 0 {
                r is Some && (r->0)@ == (DocEditView::SetPixels {
                    uid: uid_text(l.uid),
                    base: l.image,
                    display: l.image,
                })
            } else {
                r is None
            },
            None => r is None,
        },
{
    match stack.layer(id) {
        Some(l) => {
            assert(l@.effects.len() == l.effects@.len());
            if l.kind == LayerKind::Raster && l.effects.len() > 0 {
                Some(
                    DocEdit::SetPixels {
                        uid: uid_to_string(l.uid),
                        base: l.image.copied(),
                        display: l.image.copied(),
                    },
                )
            } else {
                None
            }
        },
        None => None,
    }
}

/// The new pixels of the layers of the user among the first `n` that were cut.
pub open spec fn cut_edits(s: StackView, ids: Seq<LayerId>, n: int) -> Seq<DocEditView>
    decreases n,
{
    if n <= 0 {
        Seq::empty()
    } else {
        let prev = cut_edits(s, ids, n - 1);
        match layer_called(s.layers, ids[n - 1]) {
            Some(l) => if l.kind == LayerKind::Raster {
                prev.push(
                    DocEditView::SetPixels { uid: uid_text(l.uid), base: l.image, display: l.image },
                )
            } else {
                prev
            },
            None => prev,
        }
    }
}

/// What a copy or a cut asks of the document, once the new layer is on the stack and active: the
/// cut layers get their new pixels, and the new layer is added.
pub fn clip_edits(stack: &LayerStack, mode: ClipMode, layer_ids: &Vec<LayerId>) -> (edits: Vec<
    DocEdit,
>)
    ensures
        edit_views(edits@) == match layer_called(stack@.layers, stack@.active) {
            Some(l) => (match mode {
                ClipMode::Cut => cut_edits(stack@, layer_ids@, layer_ids@.len() as int),
                ClipMode::Copy => Seq::empty(),
            }).push(DocEditView::AddNode(raster_node(stack@, l))),
            None => Seq::empty(),
        },
{
    let mut edits: Vec<DocEdit> = Vec::new();
    assert(edit_views(edits@) =~= Seq::empty());
    let new_layer = match stack.layer(stack.active) {
        Some(l) => l,
        None => {
            return edits;
        },
    };
    if mode == ClipMode::Cut {
        let mut n: usize = 0;
        while n < layer_ids.len()
            invariant
                n <= layer_ids@.len(),
                edit_views(edits@) == cut_edits(stack@, layer_ids@, n as int),
            decreases layer_ids@.len() - n,
        {
            let ghost before = edits@;
            if let Some(l) = stack.layer(layer_ids[n]) {
                if l.kind == LayerKind::Raster {
                    let e = DocEdit::SetPixels {
                        uid: uid_to_string(l.uid),
                        base: l.image.copied(),
                        display: l.image.copied(),
                    };
                    let ghost ev = e@;
                    edits.push(e);
                    assert(edit_views(edits@) =~= edit_views(before).push(ev));
                }
            }
            n += 1;
        }
    }
    let ghost before = edits@;
    let e = DocEdit::AddNode(layer_to_raster_node(stack, new_layer));
    let ghost ev = e@;
    edits.push(e);
    assert(edit_views(edits@) =~= edit_views(before).push(ev));
    edits
}

/// Turns a text into a layer: adds the layer, and asks the document for the exchange.
pub fn rasterize_text(stack: &mut LayerStack, text: &PsTextLayer, uid: u128) -> (edits: Vec<DocEdit>)
    requires
        old(stack).wf(),
        text.image.wf(),
        old(stack)@.next_layer_id < u64::MAX,
    ensures
        final(stack).wf(),
        ({
            let l = new_raster(
                old(stack)@.next_layer_id,
                uid,
                "Запечён: "@ + text@.name,
                text@.image,
                text@.transform,
            );
            &&& final(stack)@ == old(stack)@.with_raster(l)
            &&& edit_views(edits@) == seq![
                DocEditView::RemoveNode { uid: text@.uid },
                DocEditView::AddNode(raster_node(final(stack)@, l)),
            ]
        }),
{
    let mut name = String::from_str("Запечён: ");
    name.append(text.name.as_str());
    let ghost nv = name@;
    stack.add_raster_layer_image(uid, name, text.image.copied(), text.transform);
    let n: usize = stack.layers.len();
    let node = layer_to_raster_node(stack, &stack.layers[n - 1]);
    let mut edits: Vec<DocEdit> = Vec::new();
    edits.push(DocEdit::RemoveNode { uid: text.uid.clone() });
    edits.push(DocEdit::AddNode(node));
    proof {
        let l = new_raster(
            old(stack)@.next_layer_id,
            uid,
            "Запечён: "@ + text@.name,
            text@.image,
            text@.transform,
        );
        assert(stack@.layers[n - 1] == l);
        assert(edit_views(edits@) =~= seq![
            DocEditView::RemoveNode { uid: text@.uid },
            DocEditView::AddNode(raster_node(stack@, l)),
        ]);
    }
    edits
}

} // verus!
