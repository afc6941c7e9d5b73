//! The state of the layer editor: the page that is shown, with all that is kept about it.

use vstd::prelude::*;
use crate::bands::Band;
#[allow(unused_imports)]
use crate::bands::band_views;
use crate::canvas::Gestures;
#[allow(unused_imports)]
use crate::canvas::no_gesture;
use crate::color::ColorImage;
use crate::composite::Selection;
use crate::doc_sync::{retain_page_generations, sync_view_from_doc, Generation};
#[allow(unused_imports)]
use crate::doc_sync::{gen_views, gens_of_page, groups_synced, rasters_synced, texts_synced};
use crate::edit_op::PsEditOpError;
#[allow(unused_imports)]
use crate::ident::texts;
use crate::layer_doc::DocPage;
#[allow(unused_imports)]
use crate::layer_doc::{bands_of, meta_views, node_views};
use crate::layer_ops::{page_save, page_saved, PageSave};
#[allow(unused_imports)]
use crate::layer_ops::{stored_forms, stored_views, stores};
use crate::layers::{LayerId, LayerStack};
#[allow(unused_imports)]
use crate::layers::{bare_page, group_from, stored_layer, GroupView, StackView};
use crate::page_session::{
    CameraSync, LoadDecision, PagePoint, PageRequest, PageSession, PageSizes,
};
#[allow(unused_imports)]
use crate::page_session::{no_page_yet, read_size, size_from};
use crate::panel::{apply_group_op, GroupOp, GroupOutcome, PanelSelection};
#[allow(unused_imports)]
use crate::panel::{
    group_outcome, looks_toggled_twice_are_restored, only_noted, row_views, stack_after,
};
use crate::raster_edits::{finish_history_step, DeletedRasters, HistoryOutcome};
#[allow(unused_imports)]
use crate::raster_edits::{opt_stack, opt_stack_wf};
use crate::text_layers::PsTextLayer;
#[allow(unused_imports)]
use crate::text_layers::text_views;

verus! {

/// The pictures of a page that was loaded.
pub struct LoadedPage {
    pub w: usize,
    pub h: usize,
    pub source: ColorImage,
    pub clean: ColorImage,
}

impl LoadedPage {
    pub open spec fn wf(&self) -> bool {
        self.source.wf() && self.clean.wf() && self.w * self.h <= usize::MAX
    }
}

/// The state of the layer editor.
pub struct PsEditorTabState {
    pub session: PageSession,
    pub stack: Option<LayerStack>,
    pub selection: Option<Selection>,
    /// The layers that were deleted since their pages were stored.
    pub deleted: DeletedRasters,
    /// Something changed that is not stored yet.
    pub layers_dirty: bool,
    pub text_layers: Vec<PsTextLayer>,
    pub bands: Vec<Band>,
    pub panel: PanelSelection,
    pub gestures: Gestures,
    pub node_generations: Vec<Generation>,
    pub page_sizes: PageSizes,
}

/// What taking a view over from elsewhere came to.
pub struct ViewSync {
    /// What became of the request for the page, where it had to be made.
    pub request: Option<PageRequest>,
    /// The view that is taken over at once.
    pub camera: Option<CameraSync>,
}

impl PsEditorTabState {
    /// The layers are whole, and a page that is shown has layers.
    pub open spec fn wf(&self) -> bool {
        &&& opt_stack_wf(self.stack)
        &&& self.session.active_page_idx is Some ==> self.stack is Some
    }

    /// The stored page is clean: nothing of it is to be stored or deleted any more.  The rest of
    /// the state is as it was.
    pub open spec fn stored_since(self, before: PsEditorTabState) -> bool {
        &&& opt_stack(self.stack) == Some((before.stack->0)@.persisted())
        &&& !self.layers_dirty
        &&& forall|k: (usize, Seq<char>)| #[trigger]
            self.deleted@.contains(k) <==> before.deleted@.contains(k) && k.0 != (
            before.stack->0)@.page_idx
        &&& self == (PsEditorTabState {
            stack: self.stack,
            deleted: self.deleted,
            layers_dirty: self.layers_dirty,
            ..before
        })
    }

    /// An operation on groups was made: the stack is the one after it, and the page counts as
    /// changed if the operation is only noted.  The rest of the state is as it was.
    pub open spec fn regrouped_since(
        self,
        before: PsEditorTabState,
        op: GroupOp,
        new_uid: u128,
    ) -> bool {
        let s = (before.stack->0)@;
        let rows = row_views(before.panel.selected@);
        &&& opt_stack(self.stack) == Some(stack_after(s, rows, op, new_uid))
        &&& self.layers_dirty == (before.layers_dirty || only_noted(op))
        &&& self == (PsEditorTabState {
            stack: self.stack,
            layers_dirty: self.layers_dirty,
            ..before
        })
    }

    /// What an operation on the groups of this page hands over.
    pub open spec fn hands_over(self, out: GroupOutcome, op: GroupOp, new_uid: u128) -> bool {
        group_outcome(
            out,
            (self.stack->0)@,
            text_views(self.text_layers@),
            band_views(self.bands@),
            row_views(self.panel.selected@),
            op,
            new_uid,
        )
    }

    /// No page, and nothing kept about one.
    pub fn new() -> (t: PsEditorTabState)
        ensures
            t.wf(),
            t.stack is None,
            t.selection is None,
            t.deleted@ == Set::<(usize, Seq<char>)>::empty(),
            !t.layers_dirty,
            t.text_layers@.len() == 0,
            t.bands@.len() == 0,
            t.panel.selected@.len() == 0 && t.panel.anchor is None && t.panel.primary is None,
            t.gestures@ == no_gesture(),
            t.node_generations@.len() == 0,
            t.page_sizes.entries@.len() == 0,
            t.session == no_page_yet(),
    {
        PsEditorTabState {
            session: PageSession::new(),
            stack: None,
            selection: None,
            deleted: DeletedRasters::new(),
            layers_dirty: false,
            text_layers: Vec::new(),
            bands: Vec::new(),
            panel: PanelSelection { selected: Vec::new(), anchor: None, primary: None },
            gestures: Gestures::new(),
            node_generations: Vec::new(),
            page_sizes: PageSizes::new(),
        }
    }

    /// The page that is shown, or else the one that is being loaded.
    pub fn current_page(&self) -> (p: Option<usize>)
        ensures
            p == self.session.shown_or_loaded(),
    {
        self.session.current_page()
    }

    /// What is to be stored of the page, if one is shown.
    pub fn persist_current_page(&self) -> (job: Option<PageSave>)
        ensures
            job is Some <==> self.stack is Some,
            job is Some ==> stores(job->0, (self.stack->0)@, self.deleted@),
    {
        match &self.stack {
            Some(s) => Some(page_save(s, &self.deleted)),
            None => None,
        }
    }

    /// Notes how storing the page went: only one that was stored is clean.
    pub fn page_persisted(&mut self, saved: bool)
        requires
            old(self).wf(),
        ensures
            final(self).wf(),
            saved && old(self).stack is Some ==> final(self).stored_since(*old(self)),
            !(saved && old(self).stack is Some) ==> *final(self) == *old(self),
    {
        if saved {
            match &mut self.stack {
                Some(s) => {
                    page_saved(s, &mut self.deleted, &mut self.layers_dirty);
                },
                None => {},
            }
        }
    }

    /// What is to be stored when the project is saved.
    pub fn flush_layers(&self) -> (job: Option<PageSave>)
        ensures
            job is Some <==> self.stack is Some,
            job is Some ==> stores(job->0, (self.stack->0)@, self.deleted@),
    {
        self.persist_current_page()
    }

    /// What is to be stored when the tab is left: nothing unless something changed.
    pub fn flush_layers_if_dirty(&self) -> (job: Option<PageSave>)
        ensures
            job is Some <==> self.layers_dirty && self.stack is Some,
            job is Some ==> stores(job->0, (self.stack->0)@, self.deleted@),
    {
        if self.layers_dirty {
            self.flush_layers()
        } else {
            None
        }
    }

    /// Asks for a page of the project.  The page before is stored first; `saved` tells how that
    /// went.  It is then left: what was being done on it is not recorded any more, and
    /// [`PageRequest::drops_history`] tells that what was done on it cannot be undone.
    pub fn request_page(&mut self, pages: &Vec<usize>, page_idx: usize, saved: bool) -> (r:
        PageRequest)
        requires
            old(self).wf(),
            old(self).session.next_job_id < u64::MAX,
        ensures
            final(self).wf(),
            r == old(self).session.answer(pages@, page_idx),
            final(self).session == old(self).session.asked(pages@, page_idx),
            r is Unknown ==> *final(self) == *old(self),
            !(r is Unknown) ==> {
                &&& final(self).gestures@ == no_gesture()
                &&& if saved && old(self).stack is Some {
                    final(self).stored_since(
                        PsEditorTabState {
                            session: final(self).session,
                            gestures: final(self).gestures,
                            ..*old(self)
                        },
                    )
                } else {
                    *final(self) == (PsEditorTabState {
                        session: final(self).session,
                        gestures: final(self).gestures,
                        ..*old(self)
                    })
                }
            },
    {
        let r = self.session.request_page(pages, page_idx);
        match r {
            PageRequest::Unknown => {},
            _ => {
                self.page_persisted(saved);
                self.gestures.clear();
            },
        }
        r
    }

    /// Takes in a page that was loaded.  Only the one that was asked for last is shown: with its
    /// two base layers, the given texts and places, and nothing selected.
    pub fn poll_loader(
        &mut self,
        job_id: u64,
        page_idx: usize,
        outcome: Result<LoadedPage, String>,
        overlay_revision: u64,
        text_layers: Vec<PsTextLayer>,
        bands: Vec<Band>,
    ) -> (d: LoadDecision)
        requires
            old(self).wf(),
            outcome is Ok ==> (outcome->Ok_0).wf(),
        ensures
            final(self).wf(),
            d == old(self).session.decision(job_id, outcome is Ok),
            d is Stale ==> *final(self) == *old(self),
            d is Failed ==> *final(self) == (PsEditorTabState {
                session: old(self).session.failed(outcome->Err_0),
                ..*old(self)
            }),
            d is Show ==> {
                let p = outcome->Ok_0;
                &&& opt_stack(final(self).stack) == Some(
                    bare_page(page_idx, p.w, p.h, p.source@, p.clean@),
                )
                &&& final(self).text_layers == text_layers
                &&& final(self).bands == bands
                &&& final(self).selection is None
                &&& final(self).panel.selected@.len() == 0
                &&& final(self).panel.anchor is None
                &&& final(self).panel.primary is None
                &&& gen_views(final(self).node_generations@) == gens_of_page(
                    gen_views(old(self).node_generations@),
                    page_idx,
                )
                &&& forall|q: usize| #[trigger]
                    size_from(final(self).page_sizes.entries@, q, 0) == if q == page_idx {
                        Some(read_size(page_idx, Some((p.w, p.h))))
                    } else {
                        size_from(old(self).page_sizes.entries@, q, 0)
                    }
                &&& final(self).session == old(self).session.showing(page_idx, overlay_revision)
                &&& final(self).deleted == old(self).deleted
                &&& final(self).layers_dirty == old(self).layers_dirty
                &&& final(self).gestures == old(self).gestures
            },
    {
        match outcome {
            Err(e) => self.session.accept_load(job_id, page_idx, Err(e), overlay_revision),
            Ok(p) => {
                let d = self.session.accept_load(job_id, page_idx, Ok(()), overlay_revision);
                match d {
                    LoadDecision::Show => {
                        self.page_sizes.insert(page_idx, Some((p.w, p.h)));
                        self.stack = Some(LayerStack::new(page_idx, p.w, p.h, p.source, p.clean));
                        self.text_layers = text_layers;
                        self.bands = bands;
                        self.selection = None;
                        self.panel = PanelSelection {
                            selected: Vec::new(),
                            anchor: None,
                            primary: None,
                        };
                        retain_page_generations(&mut self.node_generations, page_idx);
                    },
                    _ => {},
                }
                d
            },
        }
    }

    /// Brings the page in line with the shared document, whose version is noted.  Gives the layers
    /// whose pictures have to be sent to the graphics card again.  Without a document, or where it
    /// does not hold the page, there is no `page`, and nothing changes.
    pub fn sync_view_from_doc(
        &mut self,
        page_idx: usize,
        page: Option<&DocPage>,
        version: u64,
        fresh_groups: &Vec<u128>,
        fresh_nodes: &Vec<u128>,
    ) -> (drops: Vec<LayerId>)
        requires
            old(self).wf(),
            page is Some ==> {
                &&& fresh_groups@.len() == (page->0).groups@.len()
                &&& fresh_nodes@.len() == (page->0).nodes@.len()
                &&& forall|i: int|
                    0 <= i < (page->0).nodes@.len() ==> (#[trigger] (page->0).nodes@[i])@.valid()
            },
            page is Some && old(self).stack is Some ==> {
                let s = (old(self).stack->0)@;
                &&& s.next_group_id + (page->0).groups@.len() < u64::MAX
                &&& s.next_layer_id + (page->0).nodes@.len() < u64::MAX
            },
        ensures
            final(self).wf(),
            page is None || old(self).stack is None ==> *final(self) == *old(self) && drops@.len()
                == 0,
            page is Some && old(self).stack is Some ==> {
                let nodes = node_views((page->0).nodes@);
                let g = groups_synced(
                    (old(self).stack->0)@,
                    meta_views((page->0).groups@),
                    fresh_groups@,
                );
                let r = rasters_synced(
                    g.s,
                    gen_views(old(self).node_generations@),
                    nodes,
                    page_idx,
                    g.gids,
                    fresh_nodes@,
                );
                let t = texts_synced(
                    text_views(old(self).text_layers@),
                    r.gens,
                    nodes,
                    page_idx,
                    nodes.len() as int,
                );
                &&& opt_stack(final(self).stack) == Some(r.s)
                &&& drops@ == r.drops
                &&& text_views(final(self).text_layers@) == t.ts
                &&& gen_views(final(self).node_generations@) == t.gens
                &&& band_views(final(self).bands@) == bands_of(nodes)
                &&& *final(self) == (PsEditorTabState {
                    stack: final(self).stack,
                    text_layers: final(self).text_layers,
                    bands: final(self).bands,
                    node_generations: final(self).node_generations,
                    session: PageSession { last_doc_version: version, ..old(self).session },
                    ..*old(self)
                })
            },
    {
        match page {
            None => Vec::new(),
            Some(page) => match &mut self.stack {
                None => Vec::new(),
                Some(s) => {
                    let drops = sync_view_from_doc(
                        s,
                        &mut self.text_layers,
                        &mut self.bands,
                        &mut self.node_generations,
                        page_idx,
                        page,
                        fresh_groups,
                        fresh_nodes,
                    );
                    self.session.last_doc_version = version;
                    drops
                },
            },
        }
    }

    /// Does something with the groups of the page that is shown.  What concerns the looks of a
    /// group alone marks the page as changed, so that it is stored when the tab is left.
    pub fn apply_group_op(&mut self, op: GroupOp, new_uid: u128) -> (out: Option<GroupOutcome>)
        requires
            old(self).wf(),
            old(self).bands@.len() <= u32::MAX,
            old(self).stack is Some ==> (old(self).stack->0)@.next_group_id < u64::MAX && (old(
                self,
            ).stack->0).groups@.len() < usize::MAX,
        ensures
            final(self).wf(),
            out is Some <==> old(self).session.active_page_idx is Some,
            out is None ==> *final(self) == *old(self),
            out is Some ==> {
                &&& final(self).regrouped_since(*old(self), op, new_uid)
                &&& old(self).hands_over(out->0, op, new_uid)
            },
    {
        if self.session.active_page_idx.is_none() {
            return None;
        }
        match &mut self.stack {
            None => None,
            Some(s) => Some(
                apply_group_op(
                    s,
                    &mut self.layers_dirty,
                    &self.text_layers,
                    &self.bands,
                    &self.panel.selected,
                    op,
                    new_uid,
                ),
            ),
        }
    }

    /// Takes a view over from elsewhere: the page is asked for if another one is shown or its
    /// overlay changed, and the view is kept until the page is there.
    pub fn sync_view_from_canvas(
        &mut self,
        pages: &Vec<usize>,
        page_idx: usize,
        zoom: u32,
        center: Option<PagePoint>,
        overlay_revision: u64,
        saved: bool,
    ) -> (v: ViewSync)
        requires
            old(self).wf(),
            old(self).session.next_job_id < u64::MAX,
        ensures
            final(self).wf(),
            v.request == if old(self).session.outdated(page_idx, overlay_revision) {
                Some(old(self).session.answer(pages@, page_idx))
            } else {
                None
            },
            ({
                let asked = if v.request is Some {
                    old(self).session.asked(pages@, page_idx)
                } else {
                    old(self).session
                };
                let kept = PageSession {
                    pending_camera: Some(CameraSync { page_idx, zoom, center }),
                    ..asked
                };
                let left = v.request is Some && !(v.request->0 is Unknown);
                let moved = PsEditorTabState {
                    session: final(self).session,
                    gestures: final(self).gestures,
                    ..*old(self)
                };
                &&& v.camera == kept.camera_due(old(self).stack is Some)
                &&& final(self).session == kept.camera_taken(old(self).stack is Some)
                &&& left ==> final(self).gestures@ == no_gesture()
                &&& !left ==> final(self).gestures == old(self).gestures
                &&& left && saved && old(self).stack is Some ==> final(self).stored_since(moved)
                &&& !(left && saved && old(self).stack is Some) ==> *final(self) == moved
            }),
    {
        let asking = self.session.sync_view_from_canvas(page_idx, zoom, center, overlay_revision);
        let request = if asking {
            Some(self.request_page(pages, page_idx, saved))
        } else {
            None
        };
        let camera = self.session.apply_pending_camera(self.stack.is_some());
        ViewSync { request, camera }
    }

    /// What follows a step through the history; where something changed the page is stored.
    pub fn finish_history_step(&self, result: Result<bool, PsEditOpError>) -> (r: (
        HistoryOutcome,
        Option<PageSave>,
    ))
        ensures
            match result {
                Ok(true) => r.0 is Changed,
                Ok(false) => r.0 is Nothing,
                Err(e) => r.0 matches HistoryOutcome::Failed(x) && x == e,
            },
            r.1 is Some <==> r.0 is Changed && self.stack is Some,
            r.1 is Some ==> stores(r.1->0, (self.stack->0)@, self.deleted@),
    {
        let o = finish_history_step(result);
        let save = match o {
            HistoryOutcome::Changed => self.persist_current_page(),
            _ => None,
        };
        (o, save)
    }
}

proof fn lemma_persisted_forms(s: StackView, n: int)
    requires
        0 <= n <= s.layers.len(),
    ensures
        stored_forms(s.persisted(), n).len() == stored_forms(s, n).len(),
        forall|i: int|
            0 <= i < stored_forms(s, n).len() ==> !(#[trigger] stored_forms(
                s.persisted(),
                n,
            )[i]).pixels_dirty,
    decreases n,
{
    if n > 0 {
        lemma_persisted_forms(s, n - 1);
        assert(s.persisted().layers[n - 1] == stored_layer(s.layers[n - 1]));
    }
}

/// Once a page is stored there is nothing left to store of it: another job for it would find no
/// changed pixels and no deleted layer.
pub proof fn storing_leaves_nothing_behind(
    before: PsEditorTabState,
    after: PsEditorTabState,
    job: PageSave,
)
    requires
        before.stack is Some,
        after.stored_since(before),
        stores(job, (after.stack->0)@, after.deleted@),
    ensures
        !after.layers_dirty,
        forall|i: int| 0 <= i < job.layers@.len() ==> !(#[trigger] job.layers@[i]).pixels_dirty,
        job.removed_uids@.len() == 0,
{
    let s = (before.stack->0)@;
    assert((after.stack->0)@ == s.persisted());
    lemma_persisted_forms(s, s.layers.len() as int);
    let forms = stored_forms(s.persisted(), s.layers.len() as int);
    assert forall|i: int| 0 <= i < job.layers@.len() implies !(
    #[trigger] job.layers@[i]).pixels_dirty by {
        assert(stored_views(job.layers@)[i] == forms[i]);
    }
    if job.removed_uids@.len() > 0 {
        let u = texts(job.removed_uids@)[0];
        assert(texts(job.removed_uids@).contains(u));
        assert(!after.deleted@.contains((s.page_idx, u)));
    }
}

/// Hiding or folding a group changes that mark of that group alone and makes the page count as
/// changed.  Doing it again takes the mark back and leaves the rest as it was.  Neither hands over
/// anything to be stored.
pub proof fn group_marks_toggle(
    first: PsEditorTabState,
    second: PsEditorTabState,
    third: PsEditorTabState,
    op: GroupOp,
    uids: (u128, u128),
    outs: (GroupOutcome, GroupOutcome),
)
    requires
        op is ToggleCollapse || op is ToggleGroupVisible,
        first.stack is Some,
        second.regrouped_since(first, op, uids.0),
        first.hands_over(outs.0, op, uids.0),
        third.regrouped_since(second, op, uids.1),
        second.hands_over(outs.1, op, uids.1),
    ensures
        ({
            let s = (first.stack->0)@;
            let uid = match op {
                GroupOp::ToggleCollapse(u) => u@,
                GroupOp::ToggleGroupVisible(u) => u@,
                _ => Seq::empty(),
            };
            match group_from(s.groups, uid, 0) {
                Some(k) => {
                    let g = s.groups[k];
                    let marked = if op is ToggleCollapse {
                        GroupView { collapsed: !g.collapsed, ..g }
                    } else {
                        GroupView { visible: !g.visible, ..g }
                    };
                    opt_stack(second.stack) == Some(
                        StackView { groups: s.groups.update(k, marked), ..s },
                    )
                },
                None => opt_stack(second.stack) == Some(s),
            }
        }),
        second == (PsEditorTabState { stack: second.stack, layers_dirty: true, ..first }),
        opt_stack(third.stack) == opt_stack(first.stack),
        third == (PsEditorTabState { stack: third.stack, layers_dirty: true, ..first }),
        outs.0 is Noted && outs.1 is Noted,
{
    let s = (first.stack->0)@;
    let rows = row_views(first.panel.selected@);
    looks_toggled_twice_are_restored(s, rows, op, uids.0);
    assert(stack_after(stack_after(s, rows, op, uids.0), rows, op, uids.1) == s);
}

} // verus!
