//! Edits of the layers of a page: made, taken back, recorded and stored.

use vstd::prelude::*;
use vstd::string::StringExecFns;
use crate::color::ColorImage;
#[allow(unused_imports)]
use crate::color::Color;
use crate::edit_op::{
    apply_field_patch_to_layer, apply_raster_diff_to_layer, copy_region_premul, AppliedDiff,
    ApplyDirection, ChangedRect, DeltaRef, LayerFieldPatch, LifecycleDir, PsEditOp, PsEditOpError,
    RasterDiffError,
};
#[allow(unused_imports)]
use crate::edit_op::{mirrored, region_bytes, OpView, PatchView};
use crate::ident::uid_to_string;
#[allow(unused_imports)]
use crate::ident::{opt_text, texts, uid_text};
use crate::layer_doc::{layer_to_restored_node, GroupMeta, LayerNode};
#[allow(unused_imports)]
use crate::layer_doc::{restored_node, MetaView, NodeView};
use crate::layers::{
    copy_deform, transform_to_rec, usize_pair_to_u32, DeformRec, Layer, LayerId, LayerKind,
    LayerStack, TransformRec,
};
#[allow(unused_imports)]
use crate::layers::{
    deform_view, layer_called, lemma_layer_from, lemma_same_shape, raster_from, stored_placement,
    DeformView, LayerView, StackView,
};
#[allow(unused_imports)]
use crate::raster::Grid;

verus! {

/// A change of the shared document.
pub enum DocEdit {
    SetVisibility { uid: String, visible: bool },
    SetOpacity { uid: String, opacity: u32 },
    SetTransform { uid: String, transform: TransformRec },
    SetDeform { uid: String, deform: Option<DeformRec> },
    /// New pixels without effects, still to be stored.
    SetPixels { uid: String, base: ColorImage, display: ColorImage },
    AddNode(LayerNode),
    AddNodeAtZ { node: LayerNode, z: u32 },
    RemoveNode { uid: String },
    SetZOrder(Vec<String>),
    ReorderNodeOne { uid: String, up: bool },
    ReorderGroupBlock { uid: String, up: bool },
    AddGroup(GroupMeta),
    RemoveGroup { uid: String },
    SetGroup { uid: String, group: Option<String> },
}

/// A change of the shared document as a mathematical value.
pub enum DocEditView {
    SetVisibility { uid: Seq<char>, visible: bool },
    SetOpacity { uid: Seq<char>, opacity: u32 },
    SetTransform { uid: Seq<char>, transform: TransformRec },
    SetDeform { uid: Seq<char>, deform: Option<DeformView> },
    SetPixels { uid: Seq<char>, base: Grid<Color>, display: Grid<Color> },
    AddNode(NodeView),
    AddNodeAtZ { node: NodeView, z: u32 },
    RemoveNode { uid: Seq<char> },
    SetZOrder(Seq<Seq<char>>),
    ReorderNodeOne { uid: Seq<char>, up: bool },
    ReorderGroupBlock { uid: Seq<char>, up: bool },
    AddGroup(MetaView),
    RemoveGroup { uid: Seq<char> },
    SetGroup { uid: Seq<char>, group: Option<Seq<char>> },
}

impl View for DocEdit {
    type V = DocEditView;

    open spec fn view(&self) -> DocEditView {
        match self {
            DocEdit::SetVisibility { uid, visible } => DocEditView::SetVisibility {
                uid: uid@,
                visible: *visible,
            },
            DocEdit::SetOpacity { uid, opacity } => DocEditView::SetOpacity {
                uid: uid@,
                opacity: *opacity,
            },
            DocEdit::SetTransform { uid, transform } => DocEditView::SetTransform {
                uid: uid@,
                transform: *transform,
            },
            DocEdit::SetDeform { uid, deform } => DocEditView::SetDeform {
                uid: uid@,
                deform: deform_view(*deform),
            },
            DocEdit::SetPixels { uid, base, display } => DocEditView::SetPixels {
                uid: uid@,
                base: base@,
                display: display@,
            },
            DocEdit::AddNode(n) => DocEditView::AddNode(n@),
            DocEdit::AddNodeAtZ { node, z } => DocEditView::AddNodeAtZ { node: node@, z: *z },
            DocEdit::RemoveNode { uid } => DocEditView::RemoveNode { uid: uid@ },
            DocEdit::SetZOrder(v) => DocEditView::SetZOrder(texts(v@)),
            DocEdit::ReorderNodeOne { uid, up } => DocEditView::ReorderNodeOne {
                uid: uid@,
                up: *up,
            },
            DocEdit::ReorderGroupBlock { uid, up } => DocEditView::ReorderGroupBlock {
                uid: uid@,
                up: *up,
            },
            DocEdit::AddGroup(g) => DocEditView::AddGroup(g@),
            DocEdit::RemoveGroup { uid } => DocEditView::RemoveGroup { uid: uid@ },
            DocEdit::SetGroup { uid, group } => DocEditView::SetGroup {
                uid: uid@,
                group: opt_text(*group),
            },
        }
    }
}

pub open spec fn edit_views(v: Seq<DocEdit>) -> Seq<DocEditView> {
    v.map_values(|e: DocEdit| e@)
}

pub open spec fn opt_stack(s: Option<LayerStack>) -> Option<StackView> {
    match s {
        Some(x) => Some(x@),
        None => None,
    }
}

pub open spec fn opt_stack_wf(s: Option<LayerStack>) -> bool {
    s is Some ==> (s->0).wf()
}

/// The place of the layer that an edit is about: its page has to be loaded, and the layer has to
/// be on it.
pub open spec fn resident(s: Option<StackView>, page_idx: usize, uid: Seq<char>) -> Option<int> {
    match s {
        Some(v) => if v.page_idx == page_idx {
            raster_from(v.layers, uid, 0)
        } else {
            None
        },
        None => None,
    }
}

fn find_resident(stack: &Option<LayerStack>, page_idx: usize, uid: &String) -> (r: Option<usize>)
    ensures
        match r {
            Some(i) => resident(opt_stack(*stack), page_idx, uid@) == Some(i as int) && stack
                is Some && i < (stack->0).layers@.len(),
            None => resident(opt_stack(*stack), page_idx, uid@) is None,
        },
{
    match stack {
        Some(s) => {
            if s.page_idx == page_idx {
                s.raster_position(uid)
            } else {
                None
            }
        },
        None => None,
    }
}

/// A rectangle of pixels, its sides included.
#[derive(Clone, Copy, Debug, PartialEq, Eq, Structural)]
pub struct DirtyRect {
    pub min_x: usize,
    pub min_y: usize,
    pub max_x: usize,
    pub max_y: usize,
}

/// The last of some pixels that start at a place, as far as a 32-bit number reaches.
pub open spec fn last_pixel(start: u32, len: u32) -> int {
    let end = if len == 0 {
        start as int
    } else {
        start + len - 1
    };
    if end > u32::MAX {
        u32::MAX as int
    } else {
        end
    }
}

/// The rectangle of the tiles that a change touches.
pub open spec fn tile_rect(r: ChangedRect) -> DirtyRect {
    DirtyRect {
        min_x: r.x as usize,
        min_y: r.y as usize,
        max_x: last_pixel(r.x, r.w) as usize,
        max_y: last_pixel(r.y, r.h) as usize,
    }
}

fn last_pixel_of(start: u32, len: u32) -> (r: u32)
    ensures
        r == last_pixel(start, len),
{
    if len == 0 {
        start
    } else if start > u32::MAX - (len - 1) {
        u32::MAX
    } else {
        start + (len - 1)
    }
}

fn tile_rects(dirty: &Vec<ChangedRect>) -> (out: Vec<DirtyRect>)
    ensures
        out@ == dirty@.map_values(|r: ChangedRect| tile_rect(r)),
{
    let ghost target = dirty@.map_values(|r: ChangedRect| tile_rect(r));
    let mut out: Vec<DirtyRect> = Vec::new();
    let mut i: usize = 0;
    while i < dirty.len()
        invariant
            i <= dirty@.len(),
            target == dirty@.map_values(|r: ChangedRect| tile_rect(r)),
            out@ == target.take(i as int),
        decreases dirty@.len() - i,
    {
        let r = dirty[i];
        out.push(
            DirtyRect {
                min_x: r.x as usize,
                min_y: r.y as usize,
                max_x: last_pixel_of(r.x, r.w) as usize,
                max_y: last_pixel_of(r.y, r.h) as usize,
            },
        );
        i += 1;
        assert(out@ =~= target.take(i as int));
    }
    assert(target.take(target.len() as int) =~= target);
    out
}

/// What follows from an edit of pixels.
pub struct RasterEditDone {
    pub id: LayerId,
    /// The parts of the picture to be sent to the graphics card again.
    pub tiles: Vec<DirtyRect>,
    pub doc: DocEdit,
}

/// The layer after the outcome of a change of pixels was taken over.
pub open spec fn repainted(l: LayerView, image: Grid<Color>, dirty: Seq<ChangedRect>) -> LayerView {
    LayerView {
        image,
        base_image: mirrored(image, l.base_image, dirty),
        pixels_dirty: true,
        ..l
    }
}

/// A stack stays whole when a layer is replaced by another of its kind with its id.
pub proof fn lemma_layer_put(s: StackView, i: int, l: LayerView)
    requires
        s.valid(),
        0 <= i < s.layers.len(),
        l.valid(),
        l.id == s.layers[i].id,
        l.kind == s.layers[i].kind,
    ensures
        (StackView { layers: s.layers.update(i, l), ..s }).valid(),
{
    let t = StackView { layers: s.layers.update(i, l), ..s };
    assert forall|k: int| 0 <= k < s.layers.len() implies (#[trigger] t.layers[k]).valid()
        && t.layers[k].id == s.layers[k].id && t.layers[k].kind == s.layers[k].kind by {
        assert(s.layers[k].valid());
    }
    lemma_same_shape(s, t);
}

/// Takes over the outcome of a change of pixels on the layer that it is about.
pub fn apply_ps_raster_edit(
    stack: &mut Option<LayerStack>,
    page_idx: usize,
    layer_uid: &String,
    applied: Result<AppliedDiff, RasterDiffError>,
) -> (r: Result<RasterEditDone, PsEditOpError>)
    requires
        opt_stack_wf(*old(stack)),
        applied is Ok ==> (applied->Ok_0).image.wf(),
    ensures
        opt_stack_wf(*final(stack)),
        match resident(opt_stack(*old(stack)), page_idx, layer_uid@) {
            None => r is Err && r->Err_0 == (PsEditOpError::NotResident { page_idx }) && opt_stack(
                *final(stack),
            ) == opt_stack(*old(stack)),
            Some(i) => match applied {
                Err(e) => r is Err && r->Err_0 == PsEditOpError::Raster(e) && opt_stack(
                    *final(stack),
                ) == opt_stack(*old(stack)),
                Ok(d) => {
                    let s = opt_stack(*old(stack))->0;
                    let l = s.layers[i];
                    &&& r is Ok
                    &&& (r->Ok_0).id == l.id
                    &&& (r->Ok_0).tiles@ == d.dirty@.map_values(|c: ChangedRect| tile_rect(c))
                    &&& (r->Ok_0).doc@ == (DocEditView::SetPixels {
                        uid: uid_text(l.uid),
                        base: d.image@,
                        display: d.image@,
                    })
                    &&& opt_stack(*final(stack)) == Some(
                        StackView {
                            layers: s.layers.update(i, repainted(l, d.image@, d.dirty@)),
                            ..s
                        },
                    )
                },
            },
        },
{
    match find_resident(stack, page_idx, layer_uid) {
        None => Err(PsEditOpError::NotResident { page_idx }),
        Some(i) => {
            let d = match applied {
                Ok(d) => d,
                Err(e) => {
                    return Err(PsEditOpError::Raster(e));
                },
            };
            let base = d.image.copied();
            let display = d.image.copied();
            match stack {
                None => Err(PsEditOpError::NotResident { page_idx }),
                Some(s) => {
                    let ghost s0 = s@;
                    assert(s0.layers[i as int].valid());
                    let layer = &mut s.layers[i];
                    let ghost lv = layer@;
                    let done = apply_raster_diff_to_layer(layer, Ok(d));
                    layer.pixels_dirty = true;
                    let id: LayerId = layer.id;
                    let uid = uid_to_string(layer.uid);
                    proof {
                        let l2 = repainted(lv, d.image@, d.dirty@);
                        lemma_layer_put(s0, i as int, l2);
                        assert(s@.layers =~= s0.layers.update(i as int, l2));
                    }
                    match done {
                        Ok(dirty) => Ok(
                            RasterEditDone {
                                id,
                                tiles: tile_rects(&dirty),
                                doc: DocEdit::SetPixels { uid, base, display },
                            },
                        ),
                        Err(e) => Err(PsEditOpError::Raster(e)),
                    }
                },
            }
        },
    }
}

/// A layer that was deleted, on which page.
pub struct DeletedRaster {
    pub page_idx: usize,
    pub uid: String,
}

/// The layers that were deleted and whose deletion is not stored yet.
pub struct DeletedRasters {
    pub entries: Vec<DeletedRaster>,
}

pub open spec fn deleted_set(v: Seq<DeletedRaster>) -> Set<(usize, Seq<char>)> {
    Set::new(
        |k: (usize, Seq<char>)|
            exists|i: int| 0 <= i < v.len() && (#[trigger] v[i]).page_idx == k.0 && v[i].uid@ == k.1,
    )
}

impl View for DeletedRasters {
    type V = Set<(usize, Seq<char>)>;

    open spec fn view(&self) -> Set<(usize, Seq<char>)> {
        deleted_set(self.entries@)
    }
}

impl DeletedRasters {
    pub fn new() -> (d: DeletedRasters)
        ensures
            d@ == Set::<(usize, Seq<char>)>::empty(),
    {
        let d = DeletedRasters { entries: Vec::new() };
        assert(d@ =~= Set::empty());
        d
    }

    pub fn insert(&mut self, page_idx: usize, uid: String)
        ensures
            final(self)@ == old(self)@.insert((page_idx, uid@)),
    {
        let ghost before = self.entries@;
        let e = DeletedRaster { page_idx, uid };
        let ghost ev = e;
        self.entries.push(e);
        proof {
            let after = self.entries@;
            assert forall|k: (usize, Seq<char>)|
                deleted_set(after).contains(k) == deleted_set(before).insert(
                    (page_idx, uid@),
                ).contains(k) by {
                if deleted_set(before).contains(k) {
                    let i = choose|i: int|
                        0 <= i < before.len() && (#[trigger] before[i]).page_idx == k.0
                            && before[i].uid@ == k.1;
                    assert(after[i] == before[i]);
                }
                if k == (page_idx, uid@) {
                    assert(after[before.len() as int] == ev);
                }
                if deleted_set(after).contains(k) {
                    let i = choose|i: int|
                        0 <= i < after.len() && (#[trigger] after[i]).page_idx == k.0
                            && after[i].uid@ == k.1;
                    if i < before.len() {
                        assert(before[i] == after[i]);
                    }
                }
            }
            assert(deleted_set(after) =~= deleted_set(before).insert((page_idx, uid@)));
        }
    }

    /// Takes a layer back out.
    pub fn remove(&mut self, page_idx: usize, uid: &String)
        ensures
            final(self)@ == old(self)@.remove((page_idx, uid@)),
    {
        let ghost before = self.entries@;
        let mut i: usize = 0;
        while i < self.entries.len()
            invariant
                i <= self.entries@.len(),
                deleted_set(self.entries@).remove((page_idx, uid@)) == deleted_set(before).remove(
                    (page_idx, uid@),
                ),
                forall|k: int|
                    0 <= k < i ==> !((#[trigger] self.entries@[k]).page_idx == page_idx
                        && self.entries@[k].uid@ == uid@),
            decreases self.entries@.len() - i,
        {
            if self.entries[i].page_idx == page_idx && self.entries[i].uid == *uid {
                let ghost b = self.entries@;
                self.entries.remove(i);
                proof {
                    let a = self.entries@;
                    let key = (page_idx, uid@);
                    assert forall|k: (usize, Seq<char>)| k != key implies deleted_set(a).contains(k)
                        == deleted_set(b).contains(k) by {
                        if deleted_set(b).contains(k) {
                            let j = choose|j: int|
                                0 <= j < b.len() && (#[trigger] b[j]).page_idx == k.0 && b[j].uid@
                                    == k.1;
                            let j2 = if j < i {
                                j
                            } else {
                                j - 1
                            };
                            assert(a[j2] == b[j]);
                        }
                        if deleted_set(a).contains(k) {
                            let j = choose|j: int|
                                0 <= j < a.len() && (#[trigger] a[j]).page_idx == k.0 && a[j].uid@
                                    == k.1;
                            let j2 = if j < i {
                                j
                            } else {
                                j + 1
                            };
                            assert(b[j2] == a[j]);
                        }
                    }
                    assert(deleted_set(a).remove(key) =~= deleted_set(b).remove(key));
                }
            } else {
                i += 1;
            }
        }
        proof {
            let key = (page_idx, uid@);
            assert(!deleted_set(self.entries@).contains(key));
            assert(deleted_set(self.entries@) =~= deleted_set(before).remove(key));
        }
    }

    /// The deleted layers of a page; each at least once.
    pub fn of_page(&self, page_idx: usize) -> (out: Vec<String>)
        ensures
            forall|u: Seq<char>| #[trigger]
                texts(out@).contains(u) <==> self@.contains((page_idx, u)),
    {
        let ghost all = self.entries@;
        let mut out: Vec<String> = Vec::new();
        let mut i: usize = 0;
        while i < self.entries.len()
            invariant
                i <= self.entries@.len(),
                all == self.entries@,
                forall|u: Seq<char>| #[trigger]
                    texts(out@).contains(u) <==> exists|k: int|
                        0 <= k < i && (#[trigger] all[k]).page_idx == page_idx && all[k].uid@ == u,
            decreases self.entries@.len() - i,
        {
            let ghost before = out@;
            if self.entries[i].page_idx == page_idx {
                out.push(self.entries[i].uid.clone());
                assert(texts(out@) =~= texts(before).push(all[i as int].uid@));
            }
            assert forall|u: Seq<char>| #[trigger]
                texts(out@).contains(u) <==> exists|k: int|
                    0 <= k < i + 1 && (#[trigger] all[k]).page_idx == page_idx && all[k].uid@
                        == u by {
                assert(texts(before).contains(u) <==> exists|k: int|
                    0 <= k < i && (#[trigger] all[k]).page_idx == page_idx && all[k].uid@ == u);
                if all[i as int].page_idx == page_idx {
                    assert(texts(out@) == texts(before).push(all[i as int].uid@));
                    if all[i as int].uid@ == u {
                        assert(texts(out@)[before.len() as int] == u);
                    }
                    if texts(before).contains(u) {
                        let j = choose|j: int|
                            0 <= j < texts(before).len() && texts(before)[j] == u;
                        assert(texts(out@)[j] == u);
                    }
                    if texts(out@).contains(u) && all[i as int].uid@ != u {
                        let j = choose|j: int| 0 <= j < texts(out@).len() && texts(out@)[j] == u;
                        assert(texts(before)[j] == u);
                    }
                } else {
                    assert(out@ == before);
                }
            }
            i += 1;
        }
        out
    }

    /// Forgets the deleted layers of a page.
    pub fn clear_page(&mut self, page_idx: usize)
        ensures
            forall|k: (usize, Seq<char>)| #[trigger]
                final(self)@.contains(k) <==> old(self)@.contains(k) && k.0 != page_idx,
    {
        let ghost before = self.entries@;
        let mut out: Vec<DeletedRaster> = Vec::new();
        let mut i: usize = 0;
        while i < self.entries.len()
            invariant
                i <= self.entries@.len(),
                before == self.entries@,
                forall|k: (usize, Seq<char>)| #[trigger]
                    deleted_set(out@).contains(k) <==> k.0 != page_idx && exists|j: int|
                        0 <= j < i && (#[trigger] before[j]).page_idx == k.0 && before[j].uid@
                            == k.1,
            decreases self.entries@.len() - i,
        {
            let ghost o0 = out@;
            if self.entries[i].page_idx != page_idx {
                let e = DeletedRaster {
                    page_idx: self.entries[i].page_idx,
                    uid: self.entries[i].uid.clone(),
                };
                out.push(e);
            }
            assert forall|k: (usize, Seq<char>)| #[trigger]
                deleted_set(out@).contains(k) <==> k.0 != page_idx && exists|j: int|
                    0 <= j < i + 1 && (#[trigger] before[j]).page_idx == k.0 && before[j].uid@
                        == k.1 by {
                assert(deleted_set(o0).contains(k) <==> k.0 != page_idx && exists|j: int|
                    0 <= j < i && (#[trigger] before[j]).page_idx == k.0 && before[j].uid@ == k.1);
                if before[i as int].page_idx != page_idx {
                    if deleted_set(o0).contains(k) {
                        let j = choose|j: int|
                            0 <= j < o0.len() && (#[trigger] o0[j]).page_idx == k.0 && o0[j].uid@
                                == k.1;
                        assert(out@[j] == o0[j]);
                    }
                    if before[i as int].page_idx == k.0 && before[i as int].uid@ == k.1 {
                        assert(out@[o0.len() as int].page_idx == k.0);
                    }
                    if deleted_set(out@).contains(k) {
                        let j = choose|j: int|
                            0 <= j < out@.len() && (#[trigger] out@[j]).page_idx == k.0
                                && out@[j].uid@ == k.1;
                        if j < o0.len() {
                            assert(o0[j] == out@[j]);
                        }
                    }
                }
            }
            i += 1;
        }
        self.entries = out;
    }
}

/// Notes that a layer of the user goes, so that it is not brought back from the disk.
pub fn record_raster_deletion(deleted: &mut DeletedRasters, stack: &LayerStack, id: LayerId)
    ensures
        final(deleted)@ == match layer_called(stack@.layers, id) {
            Some(l) => if l.kind == LayerKind::Raster {
                old(deleted)@.insert((stack@.page_idx, uid_text(l.uid)))
            } else {
                old(deleted)@
            },
            None => old(deleted)@,
        },
{
    if let Some(l) = stack.layer(id) {
        if l.kind == LayerKind::Raster {
            deleted.insert(stack.page_idx, uid_to_string(l.uid));
        }
    }
}

/// The change of the document that brings a layer back or takes it away.  Its page has to be
/// loaded, in the view and in the document.
pub fn layer_lifecycle_edit(
    stack: &Option<LayerStack>,
    doc_has_page: bool,
    page_idx: usize,
    layer: &Layer,
    z: u32,
    dir: LifecycleDir,
) -> (r: Result<DocEdit, PsEditOpError>)
    ensures
        r is Ok <==> doc_has_page && stack is Some && (stack->0).page_idx == page_idx,
        r is Err ==> r->Err_0 == (PsEditOpError::NotResident { page_idx }),
        r is Ok ==> (r->Ok_0)@ == match dir {
            LifecycleDir::Added => DocEditView::AddNodeAtZ {
                node: restored_node((stack->0)@, layer@),
                z,
            },
            LifecycleDir::Removed => DocEditView::RemoveNode { uid: uid_text(layer@.uid) },
        },
{
    match stack {
        Some(s) if s.page_idx == page_idx && doc_has_page => match dir {
            LifecycleDir::Added => Ok(
                DocEdit::AddNodeAtZ { node: layer_to_restored_node(s, layer), z },
            ),
            LifecycleDir::Removed => Ok(DocEdit::RemoveNode { uid: uid_to_string(layer.uid) }),
        },
        _ => Err(PsEditOpError::NotResident { page_idx }),
    }
}

/// Notes what the document made of it: a layer that came back counts as deleted no more, and one
/// that went does.
pub fn apply_ps_layer_lifecycle(
    deleted: &mut DeletedRasters,
    page_idx: usize,
    layer: &Layer,
    dir: LifecycleDir,
    done: bool,
) -> (r: Result<(), PsEditOpError>)
    ensures
        r is Ok <==> done,
        r is Err ==> r->Err_0 == (PsEditOpError::NotResident { page_idx }),
        final(deleted)@ == if !done {
            old(deleted)@
        } else {
            match dir {
                LifecycleDir::Added => old(deleted)@.remove((page_idx, uid_text(layer@.uid))),
                LifecycleDir::Removed => old(deleted)@.insert((page_idx, uid_text(layer@.uid))),
            }
        },
{
    if !done {
        return Err(PsEditOpError::NotResident { page_idx });
    }
    let uid = uid_to_string(layer.uid);
    match dir {
        LifecycleDir::Added => deleted.remove(page_idx, &uid),
        LifecycleDir::Removed => deleted.insert(page_idx, uid),
    }
    Ok(())
}

/// A deletion and its undo leave the notes on deleted layers as they were.
pub proof fn lifecycle_notes_are_taken_back(
    deleted: Set<(usize, Seq<char>)>,
    page_idx: usize,
    uid: Seq<char>,
)
    ensures
        !deleted.contains((page_idx, uid)) ==> deleted.insert((page_idx, uid)).remove(
            (page_idx, uid),
        ) == deleted,
{
    if !deleted.contains((page_idx, uid)) {
        assert(deleted.insert((page_idx, uid)).remove((page_idx, uid)) =~= deleted);
    }
}

/// The change of the document that a change of one field asks for.
pub open spec fn field_edit(uid: Seq<char>, p: PatchView) -> DocEditView {
    match p {
        PatchView::Visibility { after, .. } => DocEditView::SetVisibility { uid, visible: after },
        PatchView::Opacity { after, .. } => DocEditView::SetOpacity { uid, opacity: after },
        PatchView::Transform { after, .. } => DocEditView::SetTransform {
            uid,
            transform: stored_placement(after),
        },
        PatchView::Deform { after, .. } => DocEditView::SetDeform { uid, deform: after },
    }
}

pub fn field_patch_edit(
    stack: &Option<LayerStack>,
    page_idx: usize,
    layer_uid: &String,
    field: &LayerFieldPatch,
) -> (r: Result<DocEdit, PsEditOpError>)
    ensures
        r is Ok <==> resident(opt_stack(*stack), page_idx, layer_uid@) is Some,
        r is Err ==> r->Err_0 == (PsEditOpError::NotResident { page_idx }),
        r is Ok ==> (r->Ok_0)@ == field_edit(layer_uid@, field@),
{
    if find_resident(stack, page_idx, layer_uid).is_none() {
        return Err(PsEditOpError::NotResident { page_idx });
    }
    let uid = layer_uid.clone();
    Ok(
        match field {
            LayerFieldPatch::Visibility { after, .. } => DocEdit::SetVisibility {
                uid,
                visible: *after,
            },
            LayerFieldPatch::Opacity { after, .. } => DocEdit::SetOpacity { uid, opacity: *after },
            LayerFieldPatch::Transform { after, .. } => DocEdit::SetTransform {
                uid,
                transform: transform_to_rec(*after),
            },
            LayerFieldPatch::Deform { after, .. } => DocEdit::SetDeform {
                uid,
                deform: copy_deform(after),
            },
        },
    )
}

/// Makes a change of one field where there is no document: on the layer itself.
pub fn apply_ps_field_patch(
    stack: &mut Option<LayerStack>,
    page_idx: usize,
    layer_uid: &String,
    field: &LayerFieldPatch,
) -> (r: Result<(), PsEditOpError>)
    requires
        opt_stack_wf(*old(stack)),
    ensures
        opt_stack_wf(*final(stack)),
        match resident(opt_stack(*old(stack)), page_idx, layer_uid@) {
            None => r is Err && r->Err_0 == (PsEditOpError::NotResident { page_idx }) && opt_stack(
                *final(stack),
            ) == opt_stack(*old(stack)),
            Some(i) => {
                let s = opt_stack(*old(stack))->0;
                &&& r is Ok
                &&& opt_stack(*final(stack)) == Some(
                    StackView { layers: s.layers.update(i, field@.applied(s.layers[i])), ..s },
                )
            },
        },
{
    match find_resident(stack, page_idx, layer_uid) {
        None => Err(PsEditOpError::NotResident { page_idx }),
        Some(i) => {
            match stack {
                None => Err(PsEditOpError::NotResident { page_idx }),
                Some(s) => {
                    let ghost s0 = s@;
                    assert(s0.layers[i as int].valid());
                    let layer = &mut s.layers[i];
                    apply_field_patch_to_layer(layer, field);
                    proof {
                        let l2 = field@.applied(s0.layers[i as int]);
                        lemma_layer_put(s0, i as int, l2);
                        assert(s@.layers =~= s0.layers.update(i as int, l2));
                    }
                    Ok(())
                },
            }
        },
    }
}

/// The work that an edit of the history asks for.
pub enum OpWork {
    /// A difference of pixels is applied to a layer.
    Pixels { page_idx: usize, layer_uid: String, delta: DeltaRef, dir: ApplyDirection },
    /// The document changes.
    Doc(DocEdit),
}

/// The work that an edit of the history asks for, if its page is loaded and its layer is there.
pub fn op_work(op: &PsEditOp, stack: &Option<LayerStack>, doc_has_page: bool) -> (r: Result<
    OpWork,
    PsEditOpError,
>)
    ensures
        match op@ {
            OpView::RasterPixels { page_idx, layer_uid, delta, dir, .. } => r matches Ok(
                OpWork::Pixels { page_idx: p, layer_uid: u, delta: d, dir: e },
            ) && p == page_idx && u@ == layer_uid && d == delta && e == dir,
            OpView::LayerLifecycle { page_idx, layer, z, dir } => {
                &&& r is Ok <==> doc_has_page && stack is Some && (stack->0).page_idx == page_idx
                &&& r is Err ==> r->Err_0 == (PsEditOpError::NotResident { page_idx })
                &&& r is Ok ==> (r->Ok_0 matches OpWork::Doc(e) && e@ == match dir {
                    LifecycleDir::Added => DocEditView::AddNodeAtZ {
                        node: restored_node((stack->0)@, layer),
                        z,
                    },
                    LifecycleDir::Removed => DocEditView::RemoveNode { uid: uid_text(layer.uid) },
                })
            },
            OpView::FieldPatch { page_idx, layer_uid, field } => {
                &&& r is Ok <==> resident(opt_stack(*stack), page_idx, layer_uid) is Some
                &&& r is Err ==> r->Err_0 == (PsEditOpError::NotResident { page_idx })
                &&& r is Ok ==> (r->Ok_0 matches OpWork::Doc(e) && e@ == field_edit(
                    layer_uid,
                    field,
                ))
            },
        },
{
    match op {
        PsEditOp::RasterPixels { page_idx, layer_uid, delta, dir, .. } => Ok(
            OpWork::Pixels {
                page_idx: *page_idx,
                layer_uid: layer_uid.clone(),
                delta: *delta,
                dir: *dir,
            },
        ),
        PsEditOp::LayerLifecycle { page_idx, layer, z, dir } => match layer_lifecycle_edit(
            stack,
            doc_has_page,
            *page_idx,
            layer,
            *z,
            *dir,
        ) {
            Ok(e) => Ok(OpWork::Doc(e)),
            Err(e) => Err(e),
        },
        PsEditOp::FieldPatch { page_idx, layer_uid, field } => match field_patch_edit(
            stack,
            *page_idx,
            layer_uid,
            field,
        ) {
            Ok(e) => Ok(OpWork::Doc(e)),
            Err(e) => Err(e),
        },
    }
}

/// What follows a step through the history.
pub enum HistoryOutcome {
    /// Something changed; the page is stored.
    Changed,
    /// There was nothing to step to.
    Nothing,
    /// The step failed and changed nothing.
    Failed(PsEditOpError),
}

pub fn finish_history_step(result: Result<bool, PsEditOpError>) -> (o: HistoryOutcome)
    ensures
        match result {
            Ok(true) => o is Changed,
            Ok(false) => o is Nothing,
            Err(e) => o matches HistoryOutcome::Failed(x) && x == e,
        },
{
    match result {
        Ok(changed) => {
            if changed {
                HistoryOutcome::Changed
            } else {
                HistoryOutcome::Nothing
            }
        },
        Err(e) => HistoryOutcome::Failed(e),
    }
}

/// What a brush stroke changed: the pixels of a region before and after it.
pub struct StrokeRegion {
    pub layer_uid: String,
    pub image_size: (u32, u32),
    pub origin: (u32, u32),
    pub region: (u32, u32),
    pub before: Vec<u8>,
    pub after: Vec<u8>,
}

pub open spec fn lesser(a: int, b: int) -> int {
    if a < b {
        a
    } else {
        b
    }
}

/// The last place of a side; zero for an empty one.
pub open spec fn side_end(n: int) -> int {
    if n > 0 {
        n - 1
    } else {
        0
    }
}

/// The stroke's rectangle, kept on the picture.
pub open spec fn stroke_rect(d: DirtyRect, w: int, h: int) -> DirtyRect {
    DirtyRect {
        min_x: lesser(d.min_x as int, side_end(w)) as usize,
        min_y: lesser(d.min_y as int, side_end(h)) as usize,
        max_x: lesser(d.max_x as int, side_end(w)) as usize,
        max_y: lesser(d.max_y as int, side_end(h)) as usize,
    }
}

/// The layer whose stroke is recorded: the active one of the page, if it can be painted on.
pub open spec fn painted_layer(s: Option<StackView>, page_idx: usize) -> Option<LayerView> {
    match s {
        Some(v) => if v.page_idx == page_idx {
            match layer_called(v.layers, v.active) {
                Some(l) => if l.editable() {
                    Some(l)
                } else {
                    None
                },
                None => None,
            }
        } else {
            None
        },
        None => None,
    }
}

/// The stroke can be recorded: its rectangle is one, and all its numbers fit into 32 bits.
pub open spec fn recordable(l: LayerView, r: DirtyRect) -> bool {
    &&& r.min_x <= r.max_x
    &&& r.min_y <= r.max_y
    &&& l.image.w <= u32::MAX
    &&& l.image.h <= u32::MAX
    &&& r.max_x - r.min_x + 1 <= u32::MAX
    &&& r.max_y - r.min_y + 1 <= u32::MAX
    &&& r.min_x <= u32::MAX
    &&& r.min_y <= u32::MAX
}

fn least_of(a: usize, b: usize) -> (r: usize)
    ensures
        r == lesser(a as int, b as int),
{
    if a < b {
        a
    } else {
        b
    }
}

/// Captures what a finished brush stroke changed.  The base of the layer still holds the pixels
/// from before the stroke.
pub fn record_brush_stroke(
    stack: &Option<LayerStack>,
    page_idx: usize,
    dirty: Option<DirtyRect>,
) -> (r: Option<StrokeRegion>)
    requires
        opt_stack_wf(*stack),
        match painted_layer(opt_stack(*stack), page_idx) {
            Some(l) => (side_end(l.image.w) + 1) * (side_end(l.image.h) + 1) * 4 <= usize::MAX,
            None => true,
        },
    ensures
        match (painted_layer(opt_stack(*stack), page_idx), dirty) {
            (Some(l), Some(d)) => {
                let q = stroke_rect(d, l.image.w, l.image.h);
                let w = q.max_x - q.min_x + 1;
                let h = q.max_y - q.min_y + 1;
                &&& r is Some <==> recordable(l, q)
                &&& r is Some ==> {
                    let o = r->0;
                    &&& o.layer_uid@ == uid_text(l.uid)
                    &&& o.image_size.0 == l.image.w && o.image_size.1 == l.image.h
                    &&& o.origin.0 == q.min_x && o.origin.1 == q.min_y
                    &&& o.region.0 == w && o.region.1 == h
                    &&& o.before@ == region_bytes(
                        l.base_image,
                        q.min_x as int,
                        q.min_y as int,
                        w,
                        h,
                    )
                    &&& o.after@ == region_bytes(l.image, q.min_x as int, q.min_y as int, w, h)
                }
            },
            _ => r is None,
        },
{
    let d = match dirty {
        Some(d) => d,
        None => {
            return None;
        },
    };
    let s = match stack {
        Some(s) => s,
        None => {
            return None;
        },
    };
    if s.page_idx != page_idx {
        return None;
    }
    let layer = match s.layer(s.active) {
        Some(l) => l,
        None => {
            return None;
        },
    };
    if !layer.can_edit_pixels() {
        return None;
    }
    let ghost l = layer@;
    proof {
        lemma_layer_from(s@.layers, s@.active, 0);
        assert(l.valid());
    }
    let end_x: usize = if layer.image.w > 0 {
        layer.image.w - 1
    } else {
        0
    };
    let end_y: usize = if layer.image.h > 0 {
        layer.image.h - 1
    } else {
        0
    };
    let x0: usize = least_of(d.min_x, end_x);
    let y0: usize = least_of(d.min_y, end_y);
    let x1: usize = least_of(d.max_x, end_x);
    let y1: usize = least_of(d.max_y, end_y);
    if x1 < x0 || y1 < y0 {
        return None;
    }
    assert(x1 - x0 + 1 <= usize::MAX && y1 - y0 + 1 <= usize::MAX) by {
        if layer.image.w == 0 {
            assert(x1 == 0);
        }
    }
    let w: usize = x1 - x0 + 1;
    let h: usize = y1 - y0 + 1;
    assert(w * h * 4 <= (end_x + 1) * (end_y + 1) * 4) by (nonlinear_arith)
        requires
            0 <= w <= end_x + 1,
            0 <= h <= end_y + 1,
    ;
    let size = usize_pair_to_u32((layer.image.w, layer.image.h));
    let origin = usize_pair_to_u32((x0, y0));
    let region = usize_pair_to_u32((w, h));
    match (origin, region, size) {
        (Some(origin), Some(region), Some(image_size)) => {
            let before = copy_region_premul(&layer.base_image, x0, y0, w, h);
            let after = copy_region_premul(&layer.image, x0, y0, w, h);
            Some(
                StrokeRegion {
                    layer_uid: uid_to_string(layer.uid),
                    image_size,
                    origin,
                    region,
                    before,
                    after,
                },
            )
        },
        _ => None,
    }
}

/// The edit that a recorded stroke is kept as.
pub fn stroke_op(page_idx: usize, region: &StrokeRegion, delta: DeltaRef) -> (op: PsEditOp)
    ensures
        op@ == (OpView::RasterPixels {
            page_idx,
            layer_uid: region.layer_uid@,
            delta,
            dir: ApplyDirection::Forward,
            label: "Кисть"@,
        }),
{
    PsEditOp::RasterPixels {
        page_idx,
        layer_uid: region.layer_uid.clone(),
        delta,
        dir: ApplyDirection::Forward,
        label: String::from_str("Кисть"),
    }
}

} // verus!
