//! Bringing the view of a page in line with the shared document.

use vstd::prelude::*;
use crate::bands::Band;
#[allow(unused_imports)]
use crate::bands::band_views;
use crate::ident::{copy_opt_text, parse_uid_or, uid_is, uid_to_string};
#[allow(unused_imports)]
use crate::ident::{uid_or, uid_text};
use crate::json::copy_documents;
use crate::layer_doc::{project_bands, text_content_of, DocPage, GroupMeta, LayerNode, NodeBody};
#[allow(unused_imports)]
use crate::layer_doc::{bands_of, meta_views, node_views, words_of, BodyView, MetaView, NodeView};
use crate::layers::{copy_deform, rec_to_transform, GroupId, LayerId, LayerKind, LayerStack};
#[allow(unused_imports)]
use crate::layers::{
    group_id_from, layer_from, lemma_group_id_from, lemma_layer_from, lemma_same_shape,
    loaded_placement, new_raster, GroupView, LayerView, StackView,
};
#[allow(unused_imports)]
use crate::raster::Grid;
use crate::text_layers::PsTextLayer;
#[allow(unused_imports)]
use crate::text_layers::{text_views, TextView};

verus! {

/// The generation of a node's picture that was last shown.
pub struct Generation {
    pub page_idx: usize,
    pub uid: String,
    pub generation: u64,
}

#[verifier::ext_equal]
pub struct GenView {
    pub page_idx: usize,
    pub uid: Seq<char>,
    pub generation: u64,
}

impl View for Generation {
    type V = GenView;

    open spec fn view(&self) -> GenView {
        GenView { page_idx: self.page_idx, uid: self.uid@, generation: self.generation }
    }
}

pub open spec fn gen_views(v: Seq<Generation>) -> Seq<GenView> {
    v.map_values(|g: Generation| g@)
}

/// The place of the entry of a node, searched from `i` on.
pub open spec fn gen_from(gens: Seq<GenView>, page_idx: usize, uid: Seq<char>, i: int) -> Option<int>
    decreases gens.len() - i,
{
    if i < 0 || i >= gens.len() {
        None
    } else if gens[i].page_idx == page_idx && gens[i].uid == uid {
        Some(i)
    } else {
        gen_from(gens, page_idx, uid, i + 1)
    }
}

/// The generation of a node that was last shown.
pub open spec fn gen_of(gens: Seq<GenView>, page_idx: usize, uid: Seq<char>) -> Option<u64> {
    match gen_from(gens, page_idx, uid, 0) {
        Some(i) => Some(gens[i].generation),
        None => None,
    }
}

/// The entries with the generation of one node noted.
pub open spec fn with_gen(gens: Seq<GenView>, page_idx: usize, uid: Seq<char>, generation: u64) -> Seq<
    GenView,
> {
    let e = GenView { page_idx, uid, generation };
    match gen_from(gens, page_idx, uid, 0) {
        Some(i) => gens.update(i, e),
        None => gens.push(e),
    }
}

fn find_gen(gens: &Vec<Generation>, page_idx: usize, uid: &String) -> (r: Option<usize>)
    ensures
        match r {
            Some(i) => i < gens@.len() && gen_from(gen_views(gens@), page_idx, uid@, 0) == Some(
                i as int,
            ),
            None => gen_from(gen_views(gens@), page_idx, uid@, 0) is None,
        },
{
    let ghost gv = gen_views(gens@);
    let mut i: usize = 0;
    while i < gens.len()
        invariant
            i <= gens@.len(),
            gv == gen_views(gens@),
            gen_from(gv, page_idx, uid@, 0) == gen_from(gv, page_idx, uid@, i as int),
        decreases gens@.len() - i,
    {
        assert(gv[i as int] == gens@[i as int]@);
        if gens[i].page_idx == page_idx && gens[i].uid == *uid {
            return Some(i);
        }
        i += 1;
    }
    None
}

/// Notes the generation of a node, and tells whether it is another one than before.
fn note_gen(gens: &mut Vec<Generation>, page_idx: usize, uid: &String, generation: u64) -> (changed:
    bool)
    ensures
        changed == (gen_of(gen_views(old(gens)@), page_idx, uid@) != Some(generation)),
        gen_views(final(gens)@) == with_gen(gen_views(old(gens)@), page_idx, uid@, generation),
{
    let ghost gv = gen_views(gens@);
    match find_gen(gens, page_idx, uid) {
        Some(i) => {
            let changed = gens[i].generation != generation;
            let e = Generation { page_idx, uid: uid.clone(), generation };
            let ghost ev = e@;
            gens.set(i, e);
            assert(gen_views(gens@) =~= gv.update(i as int, ev));
            changed
        },
        None => {
            let e = Generation { page_idx, uid: uid.clone(), generation };
            let ghost ev = e@;
            gens.push(e);
            assert(gen_views(gens@) =~= gv.push(ev));
            true
        },
    }
}

/// Noting the generation of one node leaves those of the others alone.
pub proof fn noting_a_generation(
    gens: Seq<GenView>,
    page_idx: usize,
    uid: Seq<char>,
    generation: u64,
    page2: usize,
    uid2: Seq<char>,
)
    ensures
        gen_of(with_gen(gens, page_idx, uid, generation), page_idx, uid) == Some(generation),
        (page2 != page_idx || uid2 != uid) ==> gen_of(
            with_gen(gens, page_idx, uid, generation),
            page2,
            uid2,
        ) == gen_of(gens, page2, uid2),
{
    lemma_gen_from(gens, page_idx, uid, 0);
    lemma_gen(gens, page_idx, uid, generation, page_idx, uid, 0);
    lemma_gen(gens, page_idx, uid, generation, page2, uid2, 0);
}

proof fn lemma_gen(
    gens: Seq<GenView>,
    page_idx: usize,
    uid: Seq<char>,
    generation: u64,
    page2: usize,
    uid2: Seq<char>,
    i: int,
)
    requires
        0 <= i <= gens.len(),
        match gen_from(gens, page_idx, uid, 0) {
            Some(k) => gen_from(gens, page_idx, uid, i) == Some(k) || i > k,
            None => gen_from(gens, page_idx, uid, i) is None,
        },
    ensures
        ({
            let after = with_gen(gens, page_idx, uid, generation);
            let hit = gen_from(after, page2, uid2, i);
            if page2 == page_idx && uid2 == uid {
                match gen_from(gens, page_idx, uid, 0) {
                    Some(k) => i <= k ==> hit == Some(k) && after[k].generation == generation,
                    None => hit == Some(gens.len() as int) && after[gens.len() as int].generation
                        == generation,
                }
            } else {
                hit == gen_from(gens, page2, uid2, i) && (hit is Some ==> after[hit->0]
                    == gens[hit->0])
            }
        }),
    decreases gens.len() - i,
{
    let after = with_gen(gens, page_idx, uid, generation);
    lemma_gen_from(gens, page_idx, uid, 0);
    lemma_gen_from(gens, page_idx, uid, i);
    if i < gens.len() {
        lemma_gen(gens, page_idx, uid, generation, page2, uid2, i + 1);
    } else {
        if gen_from(gens, page_idx, uid, 0) is None {
            assert(gen_from(after, page2, uid2, i + 1) is None);
        }
    }
}

proof fn lemma_gen_from(gens: Seq<GenView>, page_idx: usize, uid: Seq<char>, i: int)
    requires
        0 <= i,
    ensures
        match gen_from(gens, page_idx, uid, i) {
            Some(k) => i <= k < gens.len() && gens[k].page_idx == page_idx && gens[k].uid == uid,
            None => true,
        },
    decreases gens.len() - i,
{
    if i < gens.len() && !(gens[i].page_idx == page_idx && gens[i].uid == uid) {
        lemma_gen_from(gens, page_idx, uid, i + 1);
    }
}

/// The entries of one page.
pub open spec fn gens_of_page(gens: Seq<GenView>, page_idx: usize) -> Seq<GenView>
    decreases gens.len(),
{
    if gens.len() == 0 {
        Seq::empty()
    } else {
        let head = gens_of_page(gens.drop_last(), page_idx);
        if gens.last().page_idx == page_idx {
            head.push(gens.last())
        } else {
            head
        }
    }
}

/// Forgets the generations of all other pages.
pub fn retain_page_generations(gens: &mut Vec<Generation>, page_idx: usize)
    ensures
        gen_views(final(gens)@) == gens_of_page(gen_views(old(gens)@), page_idx),
{
    let ghost gv = gen_views(gens@);
    let mut out: Vec<Generation> = Vec::new();
    let mut i: usize = 0;
    assert(gv.take(0) =~= Seq::empty());
    while i < gens.len()
        invariant
            i <= gens@.len(),
            gv == gen_views(gens@),
            gen_views(out@) == gens_of_page(gv.take(i as int), page_idx),
        decreases gens@.len() - i,
    {
        let ghost before = out@;
        assert(gv[i as int] == gens@[i as int]@);
        assert(gv.take(i + 1).drop_last() =~= gv.take(i as int));
        if gens[i].page_idx == page_idx {
            let e = Generation {
                page_idx,
                uid: gens[i].uid.clone(),
                generation: gens[i].generation,
            };
            let ghost ev = e@;
            out.push(e);
            assert(gen_views(out@) =~= gen_views(before).push(ev));
        }
        i += 1;
    }
    assert(gv.take(gv.len() as int) =~= gv);
    *gens = out;
}

pub open spec fn gid_views(v: Seq<(String, GroupId)>) -> Seq<(Seq<char>, GroupId)> {
    v.map_values(|p: (String, GroupId)| (p.0@, p.1))
}

/// The id that the last of the first `n` entries gives an identifier.
pub open spec fn gid_in(gids: Seq<(Seq<char>, GroupId)>, uid: Seq<char>, n: int) -> Option<GroupId>
    decreases n,
{
    if n <= 0 {
        None
    } else if gids[n - 1].0 == uid {
        Some(gids[n - 1].1)
    } else {
        gid_in(gids, uid, n - 1)
    }
}

fn find_gid(gids: &Vec<(String, GroupId)>, uid: &String) -> (r: Option<GroupId>)
    ensures
        r == gid_in(gid_views(gids@), uid@, gids@.len() as int),
{
    let ghost gv = gid_views(gids@);
    let mut n: usize = gids.len();
    while n > 0
        invariant
            n <= gids@.len(),
            gv == gid_views(gids@),
            gid_in(gv, uid@, gids@.len() as int) == gid_in(gv, uid@, n as int),
        decreases n,
    {
        assert(gv[n - 1] == (gids@[n - 1].0@, gids@[n - 1].1));
        if gids[n - 1].0 == *uid {
            return Some(gids[n - 1].1);
        }
        n -= 1;
    }
    None
}

/// The ids of the groups that a stack has, by identifier.
pub open spec fn known_gids(groups: Seq<GroupView>) -> Seq<(Seq<char>, GroupId)> {
    groups.map_values(|g: GroupView| (uid_text(g.uid), g.id))
}

/// A document has a group with this identifier.
pub open spec fn has_meta(metas: Seq<MetaView>, uid: Seq<char>) -> bool {
    exists|i: int| 0 <= i < metas.len() && (#[trigger] metas[i]).uid == uid
}

/// The ids of those of the first `n` groups that are in the document no more.
pub open spec fn stale_groups(groups: Seq<GroupView>, metas: Seq<MetaView>, n: int) -> Seq<GroupId>
    decreases n,
{
    if n <= 0 {
        Seq::empty()
    } else {
        let prev = stale_groups(groups, metas, n - 1);
        if has_meta(metas, uid_text(groups[n - 1].uid)) {
            prev
        } else {
            prev.push(groups[n - 1].id)
        }
    }
}

/// The stack without the first `n` of some groups.
pub open spec fn without_groups(s: StackView, ids: Seq<GroupId>, n: int) -> StackView
    decreases n,
{
    if n <= 0 {
        s
    } else {
        without_groups(s, ids, n - 1).without_group(ids[n - 1])
    }
}

/// The stack with the fields of a group taken from the document.
pub open spec fn with_meta(s: StackView, id: GroupId, m: MetaView) -> StackView {
    StackView {
        groups: match group_id_from(s.groups, id, 0) {
            Some(i) => s.groups.update(
                i,
                GroupView {
                    name: m.name,
                    visible: m.visible,
                    opacity: m.opacity,
                    collapsed: m.collapsed,
                    ..s.groups[i]
                },
            ),
            None => s.groups,
        },
        ..s
    }
}

/// A stack, and the ids of its groups by the identifiers that the document uses.
pub struct GroupSync {
    pub s: StackView,
    pub gids: Seq<(Seq<char>, GroupId)>,
}

/// One group of the document taken over.
pub open spec fn group_step(st: GroupSync, m: MetaView, fresh: u128) -> GroupSync {
    match gid_in(st.gids, m.uid, st.gids.len() as int) {
        Some(g) => GroupSync { s: with_meta(st.s, g, m), gids: st.gids },
        None => GroupSync {
            s: with_meta(
                st.s.with_group(m.name, uid_or(m.uid, fresh)),
                st.s.next_group_id,
                m,
            ),
            gids: st.gids.push((m.uid, st.s.next_group_id)),
        },
    }
}

/// The first `n` groups of the document taken over.
pub open spec fn groups_taken(st: GroupSync, metas: Seq<MetaView>, fresh: Seq<u128>, n: int) -> GroupSync
    decreases n,
{
    if n <= 0 {
        st
    } else {
        group_step(groups_taken(st, metas, fresh, n - 1), metas[n - 1], fresh[n - 1])
    }
}

/// All groups of the document taken over: those that it has no more are gone, the others keep
/// their ids.
pub open spec fn groups_synced(s: StackView, metas: Seq<MetaView>, fresh: Seq<u128>) -> GroupSync {
    let stale = stale_groups(s.groups, metas, s.groups.len() as int);
    groups_taken(
        GroupSync { s: without_groups(s, stale, stale.len() as int), gids: known_gids(s.groups) },
        metas,
        fresh,
        metas.len() as int,
    )
}

fn doc_has_group(metas: &Vec<GroupMeta>, uid: u128) -> (r: bool)
    ensures
        r == has_meta(meta_views(metas@), uid_text(uid)),
{
    let ghost mv = meta_views(metas@);
    let mut i: usize = 0;
    while i < metas.len()
        invariant
            i <= metas@.len(),
            mv == meta_views(metas@),
            forall|k: int| 0 <= k < i ==> (#[trigger] mv[k]).uid != uid_text(uid),
        decreases metas@.len() - i,
    {
        assert(mv[i as int] == metas@[i as int]@);
        if uid_is(uid, &metas[i].uid) {
            assert(mv[i as int].uid == uid_text(uid));
            return true;
        }
        i += 1;
    }
    false
}

proof fn lemma_with_meta(s: StackView, id: GroupId, m: MetaView)
    requires
        s.valid(),
    ensures
        with_meta(s, id, m).valid(),
{
    let t = with_meta(s, id, m);
    lemma_group_id_from(s.groups, id, 0);
    assert forall|i: int| 0 <= i < s.layers.len() implies (#[trigger] t.layers[i]).valid()
        && t.layers[i].id == s.layers[i].id && t.layers[i].kind == s.layers[i].kind by {
        assert(s.layers[i].valid());
    }
    lemma_same_shape(s, t);
}

/// Takes the groups of the document over; `fresh` holds an identifier for each group whose own is
/// not one.  Gives the ids of the groups by the identifiers of the document.
pub fn sync_groups(stack: &mut LayerStack, metas: &Vec<GroupMeta>, fresh: &Vec<u128>) -> (gids: Vec<
    (String, GroupId),
>)
    requires
        old(stack).wf(),
        fresh@.len() == metas@.len(),
        old(stack)@.next_group_id + metas@.len() < u64::MAX,
    ensures
        final(stack).wf(),
        final(stack)@ == groups_synced(old(stack)@, meta_views(metas@), fresh@).s,
        gid_views(gids@) == groups_synced(old(stack)@, meta_views(metas@), fresh@).gids,
        final(stack)@.layers.len() == old(stack)@.layers.len(),
        final(stack)@.next_layer_id == old(stack)@.next_layer_id,
{
    let ghost s0 = stack@;
    let ghost mv = meta_views(metas@);
    let mut gids: Vec<(String, GroupId)> = Vec::new();
    let mut stale: Vec<GroupId> = Vec::new();
    let mut i: usize = 0;
    while i < stack.groups.len()
        invariant
            i <= stack.groups@.len(),
            s0 == stack@,
            mv == meta_views(metas@),
            gid_views(gids@) == known_gids(s0.groups).take(i as int),
            stale@ == stale_groups(s0.groups, mv, i as int),
        decreases stack.groups@.len() - i,
    {
        let ghost before = gids@;
        assert(s0.groups[i as int] == stack.groups@[i as int]@);
        let uid: u128 = stack.groups[i].uid;
        let id: GroupId = stack.groups[i].id;
        let text = uid_to_string(uid);
        let ghost e = (text@, id);
        gids.push((text, id));
        assert(gid_views(gids@) =~= gid_views(before).push(e));
        assert(known_gids(s0.groups)[i as int] == e);
        assert(gid_views(gids@) =~= known_gids(s0.groups).take(i + 1));
        if !doc_has_group(metas, uid) {
            stale.push(id);
        }
        i += 1;
    }
    assert(gid_views(gids@) =~= known_gids(s0.groups));
    let mut k: usize = 0;
    while k < stale.len()
        invariant
            k <= stale@.len(),
            stack.wf(),
            stack@ == without_groups(s0, stale@, k as int),
            stack@.layers.len() == s0.layers.len(),
            stack@.next_layer_id == s0.next_layer_id,
            stack@.next_group_id == s0.next_group_id,
        decreases stale@.len() - k,
    {
        stack.remove_group(stale[k]);
        k += 1;
    }
    let ghost st0 = GroupSync { s: stack@, gids: gid_views(gids@) };
    let mut n: usize = 0;
    while n < metas.len()
        invariant
            n <= metas@.len(),
            fresh@.len() == metas@.len(),
            mv == meta_views(metas@),
            s0.next_group_id + metas@.len() < u64::MAX,
            stack.wf(),
            stack@ == groups_taken(st0, mv, fresh@, n as int).s,
            gid_views(gids@) == groups_taken(st0, mv, fresh@, n as int).gids,
            stack@.layers.len() == s0.layers.len(),
            stack@.next_layer_id == s0.next_layer_id,
            stack@.next_group_id <= s0.next_group_id + n,
        decreases metas@.len() - n,
    {
        let m = &metas[n];
        assert(mv[n as int] == m@);
        let gid: GroupId = match find_gid(&gids, &m.uid) {
            Some(g) => g,
            None => {
                let ghost before = gids@;
                let uid: u128 = parse_uid_or(m.uid.as_str(), fresh[n]);
                let g: GroupId = stack.add_group_with_uid(m.name.clone(), uid);
                let ghost e = (m@.uid, g);
                gids.push((m.uid.clone(), g));
                assert(gid_views(gids@) =~= gid_views(before).push(e));
                g
            },
        };
        let ghost s1 = stack@;
        proof {
            lemma_with_meta(s1, gid, m@);
            lemma_group_id_from(s1.groups, gid, 0);
        }
        if let Some(p) = stack.group_id_position(gid) {
            let g = &mut stack.groups[p];
            g.name = m.name.clone();
            g.visible = m.visible;
            g.opacity = m.opacity;
            g.collapsed = m.collapsed;
        }
        assert(stack@ =~= with_meta(s1, gid, m@));
        n += 1;
    }
    gids
}

/// The id that the last of the first `n` layers has as a layer of the user with this identifier.
pub open spec fn last_raster(layers: Seq<LayerView>, uid: Seq<char>, n: int) -> Option<LayerId>
    decreases n,
{
    if n <= 0 {
        None
    } else if layers[n - 1].raster_called(uid) {
        Some(layers[n - 1].id)
    } else {
        last_raster(layers, uid, n - 1)
    }
}

/// A document has a raster with this identifier.
pub open spec fn has_raster_node(nodes: Seq<NodeView>, uid: Seq<char>) -> bool {
    exists|i: int|
        0 <= i < nodes.len() && (#[trigger] nodes[i]).body is Raster && nodes[i].uid == uid
}

/// The ids of those of the first `n` layers of the user that are in the document no more.
pub open spec fn stale_rasters(layers: Seq<LayerView>, nodes: Seq<NodeView>, n: int) -> Seq<LayerId>
    decreases n,
{
    if n <= 0 {
        Seq::empty()
    } else {
        let l = layers[n - 1];
        let prev = stale_rasters(layers, nodes, n - 1);
        if l.kind == LayerKind::Raster && !has_raster_node(nodes, uid_text(l.uid)) {
            prev.push(l.id)
        } else {
            prev
        }
    }
}

/// The stack without the first `n` of some layers.
pub open spec fn without_layers(s: StackView, ids: Seq<LayerId>, n: int) -> StackView
    decreases n,
{
    if n <= 0 {
        s
    } else {
        without_layers(s, ids, n - 1).without_layer(ids[n - 1])
    }
}

/// A layer brought in line with its node.  Pixels that are being painted and not yet stored stay;
/// all else is taken from the document.
pub open spec fn taken_layer(l: LayerView, node: NodeView, group: Option<GroupId>) -> LayerView {
    let fields = LayerView {
        name: node.name,
        visible: node.visible,
        opacity: node.opacity,
        group,
        deform: node.deform,
        ..l
    };
    if l.pixels_dirty && node.pixels_dirty {
        fields
    } else {
        match node.body {
            BodyView::Raster { base_image, display_image, effects, .. } => LayerView {
                transform: loaded_placement(node.transform),
                image: display_image,
                base_image,
                effects,
                pixels_dirty: node.pixels_dirty,
                ..fields
            },
            BodyView::Text { .. } => fields,
        }
    }
}

/// The layer that a node without one gets.
pub open spec fn layer_of_node(
    id: LayerId,
    node: NodeView,
    group: Option<GroupId>,
    fresh: u128,
) -> LayerView {
    match node.body {
        BodyView::Raster { base_image, display_image, effects, .. } => LayerView {
            visible: node.visible,
            opacity: node.opacity,
            base_image,
            effects,
            group,
            deform: node.deform,
            ..new_raster(
                id,
                uid_or(node.uid, fresh),
                node.name,
                display_image,
                loaded_placement(node.transform),
            )
        },
        BodyView::Text { .. } => new_raster(
            id,
            fresh,
            node.name,
            Grid { w: 0, h: 0, px: Seq::empty() },
            loaded_placement(node.transform),
        ),
    }
}

/// The state while the rasters of a document are taken over.
pub struct RasterSync {
    pub s: StackView,
    pub gens: Seq<GenView>,
    /// The layers whose pictures have to be sent to the graphics card again.
    pub drops: Seq<LayerId>,
    /// The layers in the order of the document.
    pub order: Seq<LayerId>,
}

pub open spec fn node_group(node: NodeView, gids: Seq<(Seq<char>, GroupId)>) -> Option<GroupId> {
    match node.group_uid {
        Some(u) => gid_in(gids, u, gids.len() as int),
        None => None,
    }
}

/// The picture of a layer has to be sent again: its generation or its size is another one, and it
/// is not being painted.
pub open spec fn resend(l: LayerView, node: NodeView, changed: bool) -> bool {
    !(l.pixels_dirty && node.pixels_dirty) && (changed || match node.body {
        BodyView::Raster { display_image, .. } => !l.image.same_size(display_image),
        BodyView::Text { .. } => false,
    })
}

/// One node of the document taken over.
pub open spec fn raster_step(
    st: RasterSync,
    node: NodeView,
    page_idx: usize,
    known: Seq<LayerView>,
    gids: Seq<(Seq<char>, GroupId)>,
    fresh: u128,
) -> RasterSync {
    if !(node.body is Raster) {
        st
    } else {
        let changed = gen_of(st.gens, page_idx, node.uid) != Some(node.generation);
        let gens = with_gen(st.gens, page_idx, node.uid, node.generation);
        let group = node_group(node, gids);
        match last_raster(known, node.uid, known.len() as int) {
            Some(id) => match layer_from(st.s.layers, id, 0) {
                Some(i) => {
                    let l = st.s.layers[i];
                    RasterSync {
                        s: StackView {
                            layers: st.s.layers.update(i, taken_layer(l, node, group)),
                            ..st.s
                        },
                        gens,
                        drops: if resend(l, node, changed) {
                            st.drops.push(id)
                        } else {
                            st.drops
                        },
                        order: st.order.push(id),
                    }
                },
                None => RasterSync { gens, order: st.order.push(id), ..st },
            },
            None => RasterSync {
                s: st.s.with_raster(layer_of_node(st.s.next_layer_id, node, group, fresh)),
                gens,
                drops: st.drops,
                order: st.order.push(st.s.next_layer_id),
            },
        }
    }
}

/// The first `n` nodes of the document taken over.
pub open spec fn rasters_taken(
    st: RasterSync,
    nodes: Seq<NodeView>,
    page_idx: usize,
    known: Seq<LayerView>,
    gids: Seq<(Seq<char>, GroupId)>,
    fresh: Seq<u128>,
    n: int,
) -> RasterSync
    decreases n,
{
    if n <= 0 {
        st
    } else {
        raster_step(
            rasters_taken(st, nodes, page_idx, known, gids, fresh, n - 1),
            nodes[n - 1],
            page_idx,
            known,
            gids,
            fresh[n - 1],
        )
    }
}

/// The stack with a layer made active, if it is there.
pub open spec fn with_active(s: StackView, id: LayerId) -> StackView {
    StackView {
        active: if s.has_layer(id) {
            id
        } else {
            s.active
        },
        ..s
    }
}

/// All rasters of the document taken over: those that it has no more are gone, the others keep
/// their ids, the order is that of the document, and the active layer stays active.
pub open spec fn rasters_synced(
    s: StackView,
    gens: Seq<GenView>,
    nodes: Seq<NodeView>,
    page_idx: usize,
    gids: Seq<(Seq<char>, GroupId)>,
    fresh: Seq<u128>,
) -> RasterSync {
    let stale = stale_rasters(s.layers, nodes, s.layers.len() as int);
    let left = without_layers(s, stale, stale.len() as int);
    let st = rasters_taken(
        RasterSync { s: left, gens, drops: stale, order: Seq::empty() },
        nodes,
        page_idx,
        s.layers,
        gids,
        fresh,
        nodes.len() as int,
    );
    RasterSync { s: with_active(st.s.with_order(st.order), left.active), ..st }
}

fn doc_has_raster(nodes: &Vec<LayerNode>, uid: u128) -> (r: bool)
    ensures
        r == has_raster_node(node_views(nodes@), uid_text(uid)),
{
    let ghost nv = node_views(nodes@);
    let mut i: usize = 0;
    while i < nodes.len()
        invariant
            i <= nodes@.len(),
            nv == node_views(nodes@),
            forall|k: int|
                0 <= k < i ==> !((#[trigger] nv[k]).body is Raster && nv[k].uid == uid_text(uid)),
        decreases nodes@.len() - i,
    {
        assert(nv[i as int] == nodes@[i as int]@);
        let raster = match &nodes[i].body {
            NodeBody::Raster { .. } => true,
            NodeBody::Text { .. } => false,
        };
        if raster && uid_is(uid, &nodes[i].uid) {
            assert(nv[i as int].body is Raster && nv[i as int].uid == uid_text(uid));
            return true;
        }
        i += 1;
    }
    false
}

/// The identifiers and ids of the layers of the user.
fn known_rasters(stack: &LayerStack) -> (r: Vec<(String, LayerId)>)
    ensures
        forall|uid: Seq<char>| #[trigger]
            gid_in(gid_views(r@), uid, r@.len() as int) == last_raster(
                stack@.layers,
                uid,
                stack@.layers.len() as int,
            ),
{
    let ghost ls = stack@.layers;
    let mut out: Vec<(String, LayerId)> = Vec::new();
    let mut i: usize = 0;
    while i < stack.layers.len()
        invariant
            i <= stack.layers@.len(),
            ls == stack@.layers,
            forall|uid: Seq<char>| #[trigger]
                gid_in(gid_views(out@), uid, out@.len() as int) == last_raster(ls, uid, i as int),
        decreases stack.layers@.len() - i,
    {
        let ghost before = out@;
        assert(ls[i as int] == stack.layers@[i as int]@);
        if stack.layers[i].kind == LayerKind::Raster {
            let text = uid_to_string(stack.layers[i].uid);
            let id: LayerId = stack.layers[i].id;
            let ghost e = (text@, id);
            out.push((text, id));
            assert(gid_views(out@) =~= gid_views(before).push(e));
            assert forall|uid: Seq<char>| #[trigger]
                gid_in(gid_views(out@), uid, out@.len() as int) == last_raster(ls, uid, i + 1) by {
                lemma_gid_in_prefix(gid_views(before), e, uid, before.len() as int);
                assert(gid_in(gid_views(before), uid, before.len() as int) == last_raster(
                    ls,
                    uid,
                    i as int,
                ));
            }
        }
        i += 1;
    }
    out
}

proof fn lemma_gid_in_prefix(
    gids: Seq<(Seq<char>, GroupId)>,
    e: (Seq<char>, GroupId),
    uid: Seq<char>,
    n: int,
)
    requires
        0 <= n <= gids.len(),
    ensures
        gid_in(gids.push(e), uid, n) == gid_in(gids, uid, n),
    decreases n,
{
    if n > 0 {
        lemma_gid_in_prefix(gids, e, uid, n - 1);
    }
}

proof fn lemma_taken(s: StackView, i: int, l: LayerView)
    requires
        s.valid(),
        0 <= i < s.layers.len(),
        l.valid(),
        l.id == s.layers[i].id,
        l.kind == s.layers[i].kind,
    ensures
        (StackView { layers: s.layers.update(i, l), ..s }).valid(),
{
    let t = StackView { layers: s.layers.update(i, l), ..s };
    assert forall|k: int| 0 <= k < s.layers.len() implies (#[trigger] t.layers[k]).valid()
        && t.layers[k].id == s.layers[k].id && t.layers[k].kind == s.layers[k].kind by {
        assert(s.layers[k].valid());
    }
    lemma_same_shape(s, t);
}

/// Takes one raster node of the document over.
fn take_raster(
    stack: &mut LayerStack,
    gens: &mut Vec<Generation>,
    drops: &mut Vec<LayerId>,
    order: &mut Vec<LayerId>,
    node: &LayerNode,
    page_idx: usize,
    existing: &Vec<(String, LayerId)>,
    gids: &Vec<(String, GroupId)>,
    fresh: u128,
    Ghost(known): Ghost<Seq<LayerView>>,
)
    requires
        old(stack).wf(),
        node@.valid(),
        old(stack)@.next_layer_id < u64::MAX,
        forall|uid: Seq<char>| #[trigger]
            gid_in(gid_views(existing@), uid, existing@.len() as int) == last_raster(
                known,
                uid,
                known.len() as int,
            ),
    ensures
        final(stack).wf(),
        final(stack)@.next_layer_id <= old(stack)@.next_layer_id + 1,
        ({
            let st = raster_step(
                RasterSync {
                    s: old(stack)@,
                    gens: gen_views(old(gens)@),
                    drops: old(drops)@,
                    order: old(order)@,
                },
                node@,
                page_idx,
                known,
                gid_views(gids@),
                fresh,
            );
            &&& final(stack)@ == st.s
            &&& gen_views(final(gens)@) == st.gens
            &&& final(drops)@ == st.drops
            &&& final(order)@ == st.order
        }),
{
    let ghost s0 = stack@;
    match &node.body {
        NodeBody::Text { .. } => {},
        NodeBody::Raster { base_image, display_image, effects, .. } => {
            let changed = note_gen(gens, page_idx, &node.uid, node.generation);
            let group: Option<GroupId> = match &node.group_uid {
                Some(u) => find_gid(gids, u),
                None => None,
            };
            assert(group == node_group(node@, gid_views(gids@)));
            match find_gid(existing, &node.uid) {
                Some(id) => {
                    proof {
                        lemma_layer_from(s0.layers, id, 0);
                    }
                    if let Some(i) = stack.position(id) {
                        let ghost lv = s0.layers[i as int];
                        assert(lv.valid());
                        let keep = stack.layers[i].pixels_dirty && node.pixels_dirty;
                        let resized = stack.layers[i].image.w != display_image.w
                            || stack.layers[i].image.h != display_image.h;
                        let layer = &mut stack.layers[i];
                        layer.name = node.name.clone();
                        layer.visible = node.visible;
                        layer.opacity = node.opacity;
                        layer.group = group;
                        layer.deform = copy_deform(&node.deform);
                        if !keep {
                            layer.transform = rec_to_transform(node.transform);
                            layer.image = display_image.copied();
                            layer.base_image = base_image.copied();
                            layer.effects = copy_documents(effects);
                            layer.pixels_dirty = node.pixels_dirty;
                        }
                        if !keep && (changed || resized) {
                            drops.push(id);
                        }
                        proof {
                            let l2 = taken_layer(lv, node@, group);
                            lemma_taken(s0, i as int, l2);
                            assert(stack@.layers =~= s0.layers.update(i as int, l2));
                        }
                    }
                    order.push(id);
                },
                None => {
                    let uid: u128 = parse_uid_or(node.uid.as_str(), fresh);
                    let id: LayerId = stack.add_raster_layer_image(
                        uid,
                        node.name.clone(),
                        display_image.copied(),
                        rec_to_transform(node.transform),
                    );
                    let ghost s1 = stack@;
                    let p: usize = stack.layers.len() - 1;
                    let layer = &mut stack.layers[p];
                    layer.visible = node.visible;
                    layer.opacity = node.opacity;
                    layer.base_image = base_image.copied();
                    layer.effects = copy_documents(effects);
                    layer.group = group;
                    layer.deform = copy_deform(&node.deform);
                    proof {
                        let l2 = layer_of_node(id, node@, group, fresh);
                        lemma_taken(s1, p as int, l2);
                        assert(stack@.layers =~= s1.layers.update(p as int, l2));
                        assert(stack@ =~= s0.with_raster(l2));
                    }
                    order.push(id);
                },
            }
        },
    }
}

/// Takes the rasters of the document over; `fresh` holds an identifier for each node whose own is
/// not one.  Gives the layers whose pictures have to be sent to the graphics card again.
pub fn sync_rasters(
    stack: &mut LayerStack,
    gens: &mut Vec<Generation>,
    nodes: &Vec<LayerNode>,
    page_idx: usize,
    gids: &Vec<(String, GroupId)>,
    fresh: &Vec<u128>,
) -> (drops: Vec<LayerId>)
    requires
        old(stack).wf(),
        fresh@.len() == nodes@.len(),
        forall|i: int| 0 <= i < nodes@.len() ==> (#[trigger] nodes@[i])@.valid(),
        old(stack)@.next_layer_id + nodes@.len() < u64::MAX,
    ensures
        final(stack).wf(),
        ({
            let st = rasters_synced(
                old(stack)@,
                gen_views(old(gens)@),
                node_views(nodes@),
                page_idx,
                gid_views(gids@),
                fresh@,
            );
            &&& final(stack)@ == st.s
            &&& gen_views(final(gens)@) == st.gens
            &&& drops@ == st.drops
        }),
{
    let ghost s0 = stack@;
    let ghost nv = node_views(nodes@);
    let existing = known_rasters(stack);
    let mut drops: Vec<LayerId> = Vec::new();
    let mut i: usize = 0;
    while i < stack.layers.len()
        invariant
            i <= stack.layers@.len(),
            s0 == stack@,
            nv == node_views(nodes@),
            drops@ == stale_rasters(s0.layers, nv, i as int),
        decreases stack.layers@.len() - i,
    {
        assert(s0.layers[i as int] == stack.layers@[i as int]@);
        if stack.layers[i].kind == LayerKind::Raster && !doc_has_raster(
            nodes,
            stack.layers[i].uid,
        ) {
            drops.push(stack.layers[i].id);
        }
        i += 1;
    }
    let ghost stale = drops@;
    let mut k: usize = 0;
    while k < drops.len()
        invariant
            k <= drops@.len(),
            stale == drops@,
            stack.wf(),
            stack@ == without_layers(s0, stale, k as int),
            stack@.next_layer_id == s0.next_layer_id,
        decreases drops@.len() - k,
    {
        stack.remove_layer(drops[k]);
        k += 1;
    }
    let active: LayerId = stack.active;
    let mut order: Vec<LayerId> = Vec::new();
    let ghost st0 = RasterSync { s: stack@, gens: gen_views(gens@), drops: stale, order: order@ };
    assert(order@ =~= Seq::empty());
    let mut n: usize = 0;
    while n < nodes.len()
        invariant
            n <= nodes@.len(),
            fresh@.len() == nodes@.len(),
            nv == node_views(nodes@),
            forall|q: int| 0 <= q < nodes@.len() ==> (#[trigger] nodes@[q])@.valid(),
            s0.next_layer_id + nodes@.len() < u64::MAX,
            forall|uid: Seq<char>| #[trigger]
                gid_in(gid_views(existing@), uid, existing@.len() as int) == last_raster(
                    s0.layers,
                    uid,
                    s0.layers.len() as int,
                ),
            stack.wf(),
            stack@.next_layer_id <= s0.next_layer_id + n,
            ({
                let st = rasters_taken(
                    st0,
                    nv,
                    page_idx,
                    s0.layers,
                    gid_views(gids@),
                    fresh@,
                    n as int,
                );
                &&& stack@ == st.s
                &&& gen_views(gens@) == st.gens
                &&& drops@ == st.drops
                &&& order@ == st.order
            }),
        decreases nodes@.len() - n,
    {
        assert(nv[n as int] == nodes@[n as int]@);
        take_raster(
            stack,
            gens,
            &mut drops,
            &mut order,
            &nodes[n],
            page_idx,
            &existing,
            gids,
            fresh[n],
            Ghost(s0.layers),
        );
        n += 1;
    }
    stack.reorder_rasters(&order);
    stack.set_active(active);
    proof {
        let t = stack@;
        assert forall|q: int| 0 <= q < t.layers.len() implies (#[trigger] t.layers[q]).valid() by {
        }
    }
    drops
}

/// Pixels that are being painted, and are not yet stored, are never overwritten from the document;
/// otherwise the layer shows exactly what the document holds.
pub proof fn painting_is_not_overwritten(l: LayerView, node: NodeView, group: Option<GroupId>)
    requires
        node.body is Raster,
    ensures
        ({
            let after = taken_layer(l, node, group);
            &&& after.id == l.id && after.uid == l.uid && after.kind == l.kind
            &&& after.name == node.name
            &&& after.visible == node.visible
            &&& after.opacity == node.opacity
            &&& after.deform == node.deform
            &&& after.group == group
            &&& l.pixels_dirty && node.pixels_dirty ==> after.image == l.image && after.base_image
                == l.base_image && after.pixels_dirty
            &&& !(l.pixels_dirty && node.pixels_dirty) ==> after.image
                == node.body->display_image && after.base_image == node.body->Raster_base_image
                && after.pixels_dirty == node.pixels_dirty
        }),
{
}

proof fn lemma_last_raster(layers: Seq<LayerView>, uid: Seq<char>, n: int)
    requires
        0 <= n <= layers.len(),
    ensures
        match last_raster(layers, uid, n) {
            Some(id) => exists|k: int|
                0 <= k < n && (#[trigger] layers[k]).id == id && layers[k].kind
                    == LayerKind::Raster,
            None => true,
        },
    decreases n,
{
    if n > 0 {
        if layers[n - 1].raster_called(uid) {
            assert(layers[n - 1].id == layers[n - 1].id);
        } else {
            lemma_last_raster(layers, uid, n - 1);
        }
    }
}

/// The two base layers of a stack are those of another.
pub open spec fn same_base(s: StackView, t: StackView) -> bool {
    s.layers.len() >= 2 && t.layers.len() >= 2 && s.layers[0] == t.layers[0] && s.layers[1]
        == t.layers[1]
}

proof fn lemma_base_after_removal(s: StackView, ids: Seq<LayerId>, n: int)
    requires
        s.valid(),
        0 <= n,
    ensures
        without_layers(s, ids, n).valid(),
        same_base(without_layers(s, ids, n), s),
    decreases n,
{
    if n > 0 {
        lemma_base_after_removal(s, ids, n - 1);
        let p = without_layers(s, ids, n - 1);
        crate::layers::lemma_without_layer(p, ids[n - 1]);
        lemma_layer_from(p.layers, ids[n - 1], 0);
    }
}

proof fn lemma_base_after_nodes(
    st: RasterSync,
    s0: StackView,
    nodes: Seq<NodeView>,
    page_idx: usize,
    gids: Seq<(Seq<char>, GroupId)>,
    fresh: Seq<u128>,
    n: int,
)
    requires
        s0.valid(),
        same_base(st.s, s0),
        0 <= n,
    ensures
        same_base(rasters_taken(st, nodes, page_idx, s0.layers, gids, fresh, n).s, s0),
    decreases n,
{
    if n > 0 {
        lemma_base_after_nodes(st, s0, nodes, page_idx, gids, fresh, n - 1);
        let p = rasters_taken(st, nodes, page_idx, s0.layers, gids, fresh, n - 1);
        let uid = nodes[n - 1].uid;
        lemma_last_raster(s0.layers, uid, s0.layers.len() as int);
        match last_raster(s0.layers, uid, s0.layers.len() as int) {
            Some(id) => {
                let k = choose|k: int|
                    0 <= k < s0.layers.len() && (#[trigger] s0.layers[k]).id == id
                        && s0.layers[k].kind == LayerKind::Raster;
                assert(s0.layers[k].id == id && s0.layers[k].kind == LayerKind::Raster);
                assert(k >= 2);
                assert(s0.layers[0].id != s0.layers[k].id && s0.layers[1].id != s0.layers[k].id);
                lemma_layer_from(p.s.layers, id, 0);
            },
            None => {},
        }
    }
}

/// Bringing a page in line with its document never changes the scanned page or the cleaned
/// overlay.
pub proof fn syncing_keeps_the_base_layers(
    s: StackView,
    gens: Seq<GenView>,
    nodes: Seq<NodeView>,
    page_idx: usize,
    gids: Seq<(Seq<char>, GroupId)>,
    fresh: Seq<u128>,
)
    requires
        s.valid(),
    ensures
        same_base(rasters_synced(s, gens, nodes, page_idx, gids, fresh).s, s),
{
    let stale = stale_rasters(s.layers, nodes, s.layers.len() as int);
    lemma_base_after_removal(s, stale, stale.len() as int);
    let left = without_layers(s, stale, stale.len() as int);
    let st = RasterSync { s: left, gens, drops: stale, order: Seq::empty() };
    lemma_base_after_nodes(st, s, nodes, page_idx, gids, fresh, nodes.len() as int);
}

/// The place of the last of the first `n` texts with an identifier.
pub open spec fn last_text(ts: Seq<TextView>, uid: Seq<char>, n: int) -> Option<int>
    decreases n,
{
    if n <= 0 {
        None
    } else if ts[n - 1].uid == uid {
        Some(n - 1)
    } else {
        last_text(ts, uid, n - 1)
    }
}

/// One of the first `n` nodes is a text with this identifier.
pub open spec fn text_before(nodes: Seq<NodeView>, uid: Seq<char>, n: int) -> bool
    decreases n,
{
    n > 0 && ((nodes[n - 1].body is Text && nodes[n - 1].uid == uid) || text_before(
        nodes,
        uid,
        n - 1,
    ))
}

/// The text that a node had so far; a second node of the same identifier had none.
pub open spec fn earlier_text(ts: Seq<TextView>, nodes: Seq<NodeView>, n: int) -> Option<TextView> {
    if text_before(nodes, nodes[n].uid, n) {
        None
    } else {
        match last_text(ts, nodes[n].uid, ts.len() as int) {
            Some(i) => Some(ts[i]),
            None => None,
        }
    }
}

/// The text of a node: all of it is taken from the document, but for its place in the order and,
/// while its picture stays the same, what is on the graphics card.
pub open spec fn text_of_node(node: NodeView, prev: Option<TextView>, changed: bool) -> TextView {
    match node.body {
        BodyView::Text { image, render_data } => TextView {
            uid: node.uid,
            name: node.name,
            visible: node.visible,
            layer_idx: match prev {
                Some(p) => p.layer_idx,
                None => match node.text_layer_idx {
                    Some(i) => i,
                    None => 0,
                },
            },
            group_uid: node.group_uid,
            pinned: match prev {
                Some(p) => p.pinned,
                None => true,
            },
            pinned_by_group: match prev {
                Some(p) => p.pinned_by_group,
                None => false,
            },
            text_content: words_of(render_data),
            image,
            transform: loaded_placement(node.transform),
            deform: node.deform,
            uploaded: match prev {
                Some(p) => !changed && p.uploaded,
                None => false,
            },
        },
        BodyView::Raster { .. } => arbitrary(),
    }
}

/// The texts of the first `n` nodes, and the generations that were noted for them.
pub struct TextSync {
    pub ts: Seq<TextView>,
    pub gens: Seq<GenView>,
}

pub open spec fn texts_synced(
    ts: Seq<TextView>,
    gens: Seq<GenView>,
    nodes: Seq<NodeView>,
    page_idx: usize,
    n: int,
) -> TextSync
    decreases n,
{
    if n <= 0 {
        TextSync { ts: Seq::empty(), gens }
    } else {
        let p = texts_synced(ts, gens, nodes, page_idx, n - 1);
        let node = nodes[n - 1];
        if node.body is Text {
            let changed = gen_of(p.gens, page_idx, node.uid) != Some(node.generation);
            TextSync {
                ts: p.ts.push(text_of_node(node, earlier_text(ts, nodes, n - 1), changed)),
                gens: with_gen(p.gens, page_idx, node.uid, node.generation),
            }
        } else {
            p
        }
    }
}

pub fn find_last_text(ts: &Vec<PsTextLayer>, uid: &String) -> (r: Option<usize>)
    ensures
        match r {
            Some(i) => i < ts@.len() && last_text(text_views(ts@), uid@, ts@.len() as int) == Some(
                i as int,
            ),
            None => last_text(text_views(ts@), uid@, ts@.len() as int) is None,
        },
{
    let ghost tv = text_views(ts@);
    let mut n: usize = ts.len();
    while n > 0
        invariant
            n <= ts@.len(),
            tv == text_views(ts@),
            last_text(tv, uid@, ts@.len() as int) == last_text(tv, uid@, n as int),
        decreases n,
    {
        assert(tv[n - 1] == ts@[n - 1]@);
        if ts[n - 1].uid == *uid {
            return Some(n - 1);
        }
        n -= 1;
    }
    None
}

fn had_text_before(nodes: &Vec<LayerNode>, uid: &String, n: usize) -> (r: bool)
    requires
        n <= nodes@.len(),
    ensures
        r == text_before(node_views(nodes@), uid@, n as int),
{
    let ghost nv = node_views(nodes@);
    let mut k: usize = n;
    while k > 0
        invariant
            k <= n <= nodes@.len(),
            nv == node_views(nodes@),
            text_before(nv, uid@, n as int) == text_before(nv, uid@, k as int),
        decreases k,
    {
        assert(nv[k - 1] == nodes@[k - 1]@);
        let text = match &nodes[k - 1].body {
            NodeBody::Text { .. } => true,
            NodeBody::Raster { .. } => false,
        };
        if text && nodes[k - 1].uid == *uid {
            return true;
        }
        k -= 1;
    }
    false
}

/// Takes the texts of the document over.
pub fn sync_texts(
    text_layers: &Vec<PsTextLayer>,
    gens: &mut Vec<Generation>,
    nodes: &Vec<LayerNode>,
    page_idx: usize,
) -> (out: Vec<PsTextLayer>)
    ensures
        ({
            let st = texts_synced(
                text_views(text_layers@),
                gen_views(old(gens)@),
                node_views(nodes@),
                page_idx,
                nodes@.len() as int,
            );
            &&& text_views(out@) == st.ts
            &&& gen_views(final(gens)@) == st.gens
        }),
{
    let ghost ts = text_views(text_layers@);
    let ghost g0 = gen_views(gens@);
    let ghost nv = node_views(nodes@);
    let mut out: Vec<PsTextLayer> = Vec::new();
    let mut n: usize = 0;
    assert(text_views(out@) =~= Seq::empty());
    while n < nodes.len()
        invariant
            n <= nodes@.len(),
            ts == text_views(text_layers@),
            nv == node_views(nodes@),
            text_views(out@) == texts_synced(ts, g0, nv, page_idx, n as int).ts,
            gen_views(gens@) == texts_synced(ts, g0, nv, page_idx, n as int).gens,
        decreases nodes@.len() - n,
    {
        let node = &nodes[n];
        assert(nv[n as int] == node@);
        if let NodeBody::Text { image, render_data } = &node.body {
            let changed = note_gen(gens, page_idx, &node.uid, node.generation);
            let prev: Option<usize> = if had_text_before(nodes, &node.uid, n) {
                None
            } else {
                find_last_text(text_layers, &node.uid)
            };
            let mut layer_idx: u32 = match node.text_layer_idx {
                Some(i) => i,
                None => 0,
            };
            let mut pinned: bool = true;
            let mut pinned_by_group: bool = false;
            let mut uploaded: bool = false;
            if let Some(p) = prev {
                assert(ts[p as int] == text_layers@[p as int]@);
                layer_idx = text_layers[p].layer_idx;
                pinned = text_layers[p].pinned;
                pinned_by_group = text_layers[p].pinned_by_group;
                uploaded = !changed && text_layers[p].uploaded;
            }
            let t = PsTextLayer {
                uid: node.uid.clone(),
                name: node.name.clone(),
                visible: node.visible,
                layer_idx,
                group_uid: copy_opt_text(&node.group_uid),
                pinned,
                pinned_by_group,
                text_content: text_content_of(render_data),
                image: image.copied(),
                transform: rec_to_transform(node.transform),
                deform: copy_deform(&node.deform),
                uploaded,
            };
            let ghost before = out@;
            let ghost tv = t@;
            assert(tv == text_of_node(node@, earlier_text(ts, nv, n as int), changed));
            out.push(t);
            assert(text_views(out@) =~= text_views(before).push(tv));
        }
        n += 1;
    }
    out
}

/// Brings the view of a page in line with its document: groups, rasters, texts and places.  Gives
/// the layers whose pictures have to be sent to the graphics card again.  `fresh_groups` and
/// `fresh_nodes` hold identifiers for what has none of its own.
pub fn sync_view_from_doc(
    stack: &mut LayerStack,
    text_layers: &mut Vec<PsTextLayer>,
    bands: &mut Vec<Band>,
    generations: &mut Vec<Generation>,
    page_idx: usize,
    page: &DocPage,
    fresh_groups: &Vec<u128>,
    fresh_nodes: &Vec<u128>,
) -> (drops: Vec<LayerId>)
    requires
        old(stack).wf(),
        fresh_groups@.len() == page.groups@.len(),
        fresh_nodes@.len() == page.nodes@.len(),
        forall|i: int| 0 <= i < page.nodes@.len() ==> (#[trigger] page.nodes@[i])@.valid(),
        old(stack)@.next_group_id + page.groups@.len() < u64::MAX,
        old(stack)@.next_layer_id + page.nodes@.len() < u64::MAX,
    ensures
        final(stack).wf(),
        ({
            let nodes = node_views(page.nodes@);
            let g = groups_synced(old(stack)@, meta_views(page.groups@), fresh_groups@);
            let r = rasters_synced(
                g.s,
                gen_views(old(generations)@),
                nodes,
                page_idx,
                g.gids,
                fresh_nodes@,
            );
            let t = texts_synced(
                text_views(old(text_layers)@),
                r.gens,
                nodes,
                page_idx,
                nodes.len() as int,
            );
            &&& final(stack)@ == r.s
            &&& drops@ == r.drops
            &&& text_views(final(text_layers)@) == t.ts
            &&& gen_views(final(generations)@) == t.gens
            &&& band_views(final(bands)@) == bands_of(nodes)
        }),
{
    let gids = sync_groups(stack, &page.groups, fresh_groups);
    let drops = sync_rasters(stack, generations, &page.nodes, page_idx, &gids, fresh_nodes);
    let texts = sync_texts(text_layers, generations, &page.nodes, page_idx);
    *text_layers = texts;
    *bands = project_bands(&page.nodes);
    drops
}

} // verus!
