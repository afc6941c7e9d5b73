//! What taking over the document into a page is for: which layers, groups and texts come, go and
//! change.

use vstd::prelude::*;
#[allow(unused_imports)]
use crate::doc_sync::{
    earlier_text, gen_from, gen_of, gens_of_page, gid_in, group_step, groups_synced, groups_taken,
    known_gids, last_raster, last_text, layer_of_node, node_group, raster_step, rasters_synced,
    rasters_taken, resend, stale_groups, stale_rasters, taken_layer, text_before, text_of_node,
    texts_synced, with_gen, with_meta, without_groups, without_layers, GenView, GroupSync,
    RasterSync,
};
#[allow(unused_imports)]
use crate::ident::{uid_read, uid_text};
#[allow(unused_imports)]
use crate::layer_doc::{words_of, MetaView, NodeView};
#[allow(unused_imports)]
use crate::layers::{layer_from, GroupId, GroupView, LayerId, LayerKind, LayerView, StackView};
#[allow(unused_imports)]
use crate::text_layers::TextView;

verus! {

/// The generation that is known of a node is that of its first entry for the page.
pub proof fn generations_are_known_by_page_and_node(
    gens: Seq<GenView>,
    page_idx: usize,
    uid: Seq<char>,
    k: int,
)
    requires
        0 <= k < gens.len(),
        gens[k].page_idx == page_idx,
        gens[k].uid == uid,
        forall|j: int|
            0 <= j < k ==> (#[trigger] gens[j]).page_idx != page_idx || gens[j].uid != uid,
    ensures
        gen_of(gens, page_idx, uid) == Some(gens[k].generation),
        gen_of(gens.take(k), page_idx, uid) is None,
{
    lemma_gen_first(gens, page_idx, uid, 0, k);
    lemma_gen_none(gens.take(k), page_idx, uid, 0);
}

proof fn lemma_gen_first(gens: Seq<GenView>, page_idx: usize, uid: Seq<char>, i: int, k: int)
    requires
        0 <= i <= k < gens.len(),
        gens[k].page_idx == page_idx,
        gens[k].uid == uid,
        forall|j: int|
            i <= j < k ==> (#[trigger] gens[j]).page_idx != page_idx || gens[j].uid != uid,
    ensures
        gen_from(gens, page_idx, uid, i) == Some(k),
    decreases k - i,
{
    if i < k {
        lemma_gen_first(gens, page_idx, uid, i + 1, k);
    }
}

proof fn lemma_gen_none(gens: Seq<GenView>, page_idx: usize, uid: Seq<char>, i: int)
    requires
        0 <= i,
        forall|j: int|
            i <= j < gens.len() ==> (#[trigger] gens[j]).page_idx != page_idx || gens[j].uid
                != uid,
    ensures
        gen_from(gens, page_idx, uid, i) is None,
    decreases gens.len() - i,
{
    if i < gens.len() {
        lemma_gen_none(gens, page_idx, uid, i + 1);
    }
}

/// The generations of a page are its entries, in their order.
pub proof fn generations_of_a_page(gens: Seq<GenView>, page_idx: usize)
    ensures
        gens_of_page(gens, page_idx) == gens.filter(|g: GenView| g.page_idx == page_idx),
    decreases gens.len(),
{
    reveal(Seq::filter);
    if gens.len() > 0 {
        generations_of_a_page(gens.drop_last(), page_idx);
    }
}

/// The number of a group is what its last entry says; at first those are the groups of the page.
pub proof fn group_numbers_are_known(
    gids: Seq<(Seq<char>, GroupId)>,
    uid: Seq<char>,
    groups: Seq<GroupView>,
    k: int,
    i: int,
)
    requires
        0 <= k < gids.len(),
        gids[k].0 == uid,
        forall|j: int| k < j < gids.len() ==> (#[trigger] gids[j]).0 != uid,
        0 <= i < groups.len(),
    ensures
        gid_in(gids, uid, gids.len() as int) == Some(gids[k].1),
        known_gids(groups).len() == groups.len(),
        known_gids(groups)[i].0 == uid_text(groups[i].uid),
        known_gids(groups)[i].1 == groups[i].id,
{
    lemma_gid_last(gids, uid, gids.len() as int, k);
}

proof fn lemma_gid_last(gids: Seq<(Seq<char>, GroupId)>, uid: Seq<char>, n: int, k: int)
    requires
        0 <= k < n <= gids.len(),
        gids[k].0 == uid,
        forall|j: int| k < j < n ==> (#[trigger] gids[j]).0 != uid,
    ensures
        gid_in(gids, uid, n) == Some(gids[k].1),
    decreases n,
{
    if k < n - 1 {
        lemma_gid_last(gids, uid, n - 1, k);
    }
}

/// A number is known of none without an entry.
pub proof fn unknown_groups_have_no_number(gids: Seq<(Seq<char>, GroupId)>, uid: Seq<char>, n: int)
    requires
        0 <= n <= gids.len(),
        forall|j: int| 0 <= j < n ==> (#[trigger] gids[j]).0 != uid,
    ensures
        gid_in(gids, uid, n) is None,
    decreases n,
{
    if n > 0 {
        unknown_groups_have_no_number(gids, uid, n - 1);
    }
}

/// The groups that go are those that the document does not have, and the layers that go are those of
/// the user that it does not have; the base layers never go.
pub proof fn what_the_document_lacks_goes(
    groups: Seq<GroupView>,
    metas: Seq<MetaView>,
    layers: Seq<LayerView>,
    nodes: Seq<NodeView>,
    n: int,
    m: int,
)
    requires
        0 <= n < groups.len(),
        0 <= m < layers.len(),
    ensures
        ({
            let there = exists|i: int|
                0 <= i < metas.len() && (#[trigger] metas[i]).uid == uid_text(groups[n].uid);
            &&& stale_groups(groups, metas, 0).len() == 0
            &&& there ==> stale_groups(groups, metas, n + 1) == stale_groups(groups, metas, n)
            &&& !there ==> stale_groups(groups, metas, n + 1) == stale_groups(
                groups,
                metas,
                n,
            ).push(groups[n].id)
        }),
        ({
            let l = layers[m];
            let there = exists|i: int|
                0 <= i < nodes.len() && (#[trigger] nodes[i]).body is Raster && nodes[i].uid
                    == uid_text(l.uid);
            &&& stale_rasters(layers, nodes, 0).len() == 0
            &&& l.kind != LayerKind::Raster || there ==> stale_rasters(layers, nodes, m + 1)
                == stale_rasters(layers, nodes, m)
            &&& l.kind == LayerKind::Raster && !there ==> stale_rasters(layers, nodes, m + 1)
                == stale_rasters(layers, nodes, m).push(l.id)
        }),
{
}

/// They go one after the other.
pub proof fn they_go_one_by_one(s: StackView, groups: Seq<GroupId>, layers: Seq<LayerId>, n: int, m: int)
    requires
        0 <= n < groups.len(),
        0 <= m < layers.len(),
    ensures
        without_groups(s, groups, 0) == s,
        without_groups(s, groups, n + 1) == without_groups(s, groups, n).without_group(groups[n]),
        without_layers(s, layers, 0) == s,
        without_layers(s, layers, m + 1) == without_layers(s, layers, m).without_layer(layers[m]),
{
}

/// A group takes its name, visibility, opacity and folding from the document and keeps its number
/// and its identifier; no other group and no layer changes.
pub proof fn groups_take_their_looks(s: StackView, id: GroupId, m: MetaView, k: int, i: int)
    requires
        s.valid(),
        0 <= k < s.groups.len(),
        s.groups[k].id == id,
        0 <= i < s.groups.len(),
    ensures
        ({
            let after = with_meta(s, id, m);
            let g = after.groups[k];
            &&& after.groups.len() == s.groups.len()
            &&& g.id == id
            &&& g.uid == s.groups[k].uid
            &&& g.name == m.name
            &&& g.visible == m.visible
            &&& g.opacity == m.opacity
            &&& g.collapsed == m.collapsed
            &&& i != k ==> after.groups[i] == s.groups[i]
            &&& after.layers == s.layers
            &&& after.active == s.active
            &&& after.next_group_id == s.next_group_id
        }),
{
    crate::layers::lemma_group_id_from(s.groups, id, 0);
}

/// A group of the document that is known takes its looks; one that is not is made, with the number
/// that comes next and the identifier it has, or a fresh one where that cannot be read.
pub proof fn new_groups_are_made(st: GroupSync, m: MetaView, fresh: u128)
    ensures
        ({
            let known = gid_in(st.gids, m.uid, st.gids.len() as int);
            let out = group_step(st, m, fresh);
            let uid = match uid_read(m.uid) {
                Some(u) => u,
                None => fresh,
            };
            &&& known is Some ==> out.s == with_meta(st.s, known->0, m) && out.gids == st.gids
            &&& known is None ==> out.s == with_meta(
                st.s.with_group(m.name, uid),
                st.s.next_group_id,
                m,
            ) && out.gids == st.gids.push((m.uid, st.s.next_group_id))
        }),
{
}

/// The groups of a page become those of the document: what is gone goes first, then each of the
/// document is taken, in its order.
pub proof fn groups_are_taken_in_order(
    s: StackView,
    st: GroupSync,
    metas: Seq<MetaView>,
    fresh: Seq<u128>,
    n: int,
)
    requires
        0 <= n < metas.len(),
    ensures
        groups_taken(st, metas, fresh, 0) == st,
        groups_taken(st, metas, fresh, n + 1) == group_step(
            groups_taken(st, metas, fresh, n),
            metas[n],
            fresh[n],
        ),
        ({
            let stale = stale_groups(s.groups, metas, s.groups.len() as int);
            groups_synced(s, metas, fresh) == groups_taken(
                GroupSync {
                    s: without_groups(s, stale, stale.len() as int),
                    gids: known_gids(s.groups),
                },
                metas,
                fresh,
                metas.len() as int,
            )
        }),
{
}

/// The layer of a node is the last of the user's with its identifier.
pub proof fn nodes_have_their_layers(layers: Seq<LayerView>, uid: Seq<char>, n: int, k: int)
    requires
        0 <= k < n <= layers.len(),
        layers[k].kind == LayerKind::Raster,
        uid_text(layers[k].uid) == uid,
        forall|j: int|
            k < j < n ==> (#[trigger] layers[j]).kind != LayerKind::Raster || uid_text(layers[j].uid)
                != uid,
    ensures
        last_raster(layers, uid, n) == Some(layers[k].id),
    decreases n,
{
    if k < n - 1 {
        nodes_have_their_layers(layers, uid, n - 1, k);
    }
}

/// A layer takes over its node: name, visibility, opacity, group and mesh always; placement, pixels
/// and effects unless both sides were painted on.  What it is stays.
pub proof fn layers_take_over_their_nodes(l: LayerView, node: NodeView, group: Option<GroupId>)
    requires
        node.body is Raster,
    ensures
        ({
            let t = taken_layer(l, node, group);
            let both = l.pixels_dirty && node.pixels_dirty;
            &&& t.id == l.id && t.uid == l.uid && t.kind == l.kind
            &&& t.name == node.name
            &&& t.visible == node.visible
            &&& t.opacity == node.opacity
            &&& t.group == group
            &&& t.deform == node.deform
            &&& both ==> t.transform == l.transform && t.image == l.image && t.base_image
                == l.base_image && t.effects == l.effects && t.pixels_dirty
            &&& !both ==> {
                &&& t.transform.cx == node.transform.cx
                &&& t.transform.cy == node.transform.cy
                &&& t.transform.rotation == node.transform.rotation
                &&& t.transform.scale == node.transform.scale
                &&& t.image == node.body->display_image
                &&& t.base_image == node.body->Raster_base_image
                &&& t.effects == node.body->effects
                &&& t.pixels_dirty == node.pixels_dirty
            }
        }),
{
}

/// A node without a layer gets one: with all that the node has, and its identifier, or a fresh one
/// where that cannot be read.
pub proof fn nodes_without_a_layer_get_one(
    id: LayerId,
    node: NodeView,
    group: Option<GroupId>,
    fresh: u128,
)
    requires
        node.body is Raster,
    ensures
        ({
            let l = layer_of_node(id, node, group, fresh);
            &&& l.id == id
            &&& l.uid == match uid_read(node.uid) {
                Some(u) => u,
                None => fresh,
            }
            &&& l.kind == LayerKind::Raster
            &&& l.name == node.name
            &&& l.visible == node.visible
            &&& l.opacity == node.opacity
            &&& l.group == group
            &&& l.deform == node.deform
            &&& l.transform.cx == node.transform.cx
            &&& l.transform.cy == node.transform.cy
            &&& l.transform.rotation == node.transform.rotation
            &&& l.transform.scale == node.transform.scale
            &&& l.image == node.body->display_image
            &&& l.base_image == node.body->Raster_base_image
            &&& l.effects == node.body->effects
        }),
        node.group_uid is None ==> node_group(node, Seq::empty()) is None,
{
}

/// The group of a node is the one it names, where that is known.
pub proof fn nodes_name_their_groups(node: NodeView, gids: Seq<(Seq<char>, GroupId)>)
    ensures
        node.group_uid is None ==> node_group(node, gids) is None,
        node.group_uid is Some ==> node_group(node, gids) == gid_in(
            gids,
            node.group_uid->0,
            gids.len() as int,
        ),
{
}

/// The picture of a layer is sent to the graphics card again where its node changed or has another
/// size, unless both sides were painted on.
pub proof fn changed_pictures_are_sent_again(l: LayerView, node: NodeView, changed: bool)
    requires
        node.body is Raster,
    ensures
        l.pixels_dirty && node.pixels_dirty ==> !resend(l, node, changed),
        !(l.pixels_dirty && node.pixels_dirty) ==> (resend(l, node, changed) <==> changed
            || l.image.w != node.body->display_image.w || l.image.h != node.body->display_image.h),
{
}

/// A node of the document is taken: its generation is noted, and its layer takes it over or is made.
/// A text is passed over.
pub proof fn nodes_are_taken_one_by_one(
    st: RasterSync,
    node: NodeView,
    page_idx: usize,
    known: Seq<LayerView>,
    gids: Seq<(Seq<char>, GroupId)>,
    fresh: u128,
)
    ensures
        ({
            let out = raster_step(st, node, page_idx, known, gids, fresh);
            let group = node_group(node, gids);
            let changed = gen_of(st.gens, page_idx, node.uid) != Some(node.generation);
            let id = last_raster(known, node.uid, known.len() as int);
            &&& node.body is Text ==> out == st
            &&& node.body is Raster ==> out.gens == with_gen(
                st.gens,
                page_idx,
                node.uid,
                node.generation,
            )
            &&& node.body is Raster && id is None ==> {
                &&& out.s == st.s.with_raster(
                    layer_of_node(st.s.next_layer_id, node, group, fresh),
                )
                &&& out.drops == st.drops
                &&& out.order == st.order.push(st.s.next_layer_id)
            }
            &&& node.body is Raster && id is Some ==> out.order == st.order.push(id->0)
            &&& node.body is Raster && id is Some ==> match layer_from(st.s.layers, id->0, 0) {
                Some(i) => {
                    let l = st.s.layers[i];
                    &&& out.s == (StackView {
                        layers: st.s.layers.update(i, taken_layer(l, node, group)),
                        ..st.s
                    })
                    &&& out.drops == if resend(l, node, changed) {
                        st.drops.push(id->0)
                    } else {
                        st.drops
                    }
                },
                None => out.s == st.s && out.drops == st.drops,
            }
        }),
{
}

/// The layers of a page become those of the document, in its order, and the layer that was active
/// stays so where it is still there.
pub proof fn layers_are_taken_in_order(
    s: StackView,
    st: RasterSync,
    gens: Seq<GenView>,
    nodes: Seq<NodeView>,
    page_idx: usize,
    known: Seq<LayerView>,
    gids: Seq<(Seq<char>, GroupId)>,
    fresh: Seq<u128>,
    n: int,
)
    requires
        0 <= n < nodes.len(),
    ensures
        rasters_taken(st, nodes, page_idx, known, gids, fresh, 0) == st,
        rasters_taken(st, nodes, page_idx, known, gids, fresh, n + 1) == raster_step(
            rasters_taken(st, nodes, page_idx, known, gids, fresh, n),
            nodes[n],
            page_idx,
            known,
            gids,
            fresh[n],
        ),
        ({
            let stale = stale_rasters(s.layers, nodes, s.layers.len() as int);
            let left = without_layers(s, stale, stale.len() as int);
            let all = rasters_taken(
                RasterSync { s: left, gens, drops: stale, order: Seq::empty() },
                nodes,
                page_idx,
                s.layers,
                gids,
                fresh,
                nodes.len() as int,
            );
            let out = rasters_synced(s, gens, nodes, page_idx, gids, fresh);
            let ordered = all.s.with_order(all.order);
            &&& out.gens == all.gens
            &&& out.drops == all.drops
            &&& out.s.layers == ordered.layers
            &&& out.s.groups == ordered.groups
            &&& (exists|i: int|
                0 <= i < ordered.layers.len() && (#[trigger] ordered.layers[i]).id == left.active)
                ==> out.s.active == left.active
        }),
{
    let stale = stale_rasters(s.layers, nodes, s.layers.len() as int);
    let left = without_layers(s, stale, stale.len() as int);
    let all = rasters_taken(
        RasterSync { s: left, gens, drops: stale, order: Seq::empty() },
        nodes,
        page_idx,
        s.layers,
        gids,
        fresh,
        nodes.len() as int,
    );
    let ordered = all.s.with_order(all.order);
    crate::layers::lemma_layer_from(ordered.layers, left.active, 0);
}

/// A text takes all that its node has.  What the page alone knows of it, its text layer and its pins,
/// it keeps from the text it was; a new one lies in the layer that the node names, or the first, and
/// is pinned.  It is sent to the graphics card again where its node changed.
pub proof fn texts_take_over_their_nodes(node: NodeView, p: TextView, changed: bool)
    requires
        node.body is Text,
    ensures
        ({
            let kept = text_of_node(node, Some(p), changed);
            let new = text_of_node(node, None, changed);
            &&& kept.layer_idx == p.layer_idx
            &&& kept.pinned == p.pinned
            &&& kept.pinned_by_group == p.pinned_by_group
            &&& kept.uploaded == (p.uploaded && !changed)
            &&& node.text_layer_idx is Some ==> Some(new.layer_idx) == node.text_layer_idx
            &&& node.text_layer_idx is None ==> new.layer_idx == 0
            &&& new.pinned
            &&& !new.pinned_by_group
            &&& !new.uploaded
            &&& forall|t: TextView|
                t == kept || t == new ==> {
                    &&& t.uid == node.uid
                    &&& t.name == node.name
                    &&& (#[trigger] t.visible) == node.visible
                    &&& t.group_uid == node.group_uid
                    &&& t.text_content == words_of(node.body->render_data)
                    &&& t.image == node.body->image
                    &&& t.transform.cx == node.transform.cx
                    &&& t.transform.cy == node.transform.cy
                    &&& t.transform.rotation == node.transform.rotation
                    &&& t.transform.scale == node.transform.scale
                    &&& t.deform == node.deform
                }
        }),
{
}

/// A node goes on with the text that had its identifier, the first time that it comes.
pub proof fn texts_go_on(ts: Seq<TextView>, nodes: Seq<NodeView>, n: int)
    requires
        0 <= n < nodes.len(),
    ensures
        ({
            let uid = nodes[n].uid;
            let again = exists|j: int|
                0 <= j < n && (#[trigger] nodes[j]).body is Text && nodes[j].uid == uid;
            let e = earlier_text(ts, nodes, n);
            &&& again ==> e is None
            &&& !again && e is None ==> forall|j: int|
                0 <= j < ts.len() ==> (#[trigger] ts[j]).uid != uid
            &&& !again && e is Some ==> exists|j: int|
                {
                    &&& 0 <= j < ts.len()
                    &&& #[trigger] ts[j] == e->0
                    &&& ts[j].uid == uid
                    &&& forall|k: int| j < k < ts.len() ==> (#[trigger] ts[k]).uid != uid
                }
        }),
{
    lemma_text_before(nodes, nodes[n].uid, n);
    lemma_last_text(ts, nodes[n].uid, ts.len() as int);
    if last_text(ts, nodes[n].uid, ts.len() as int) is Some {
        let j = last_text(ts, nodes[n].uid, ts.len() as int)->0;
        assert(ts[j].uid == nodes[n].uid);
    }
}

proof fn lemma_text_before(nodes: Seq<NodeView>, uid: Seq<char>, n: int)
    requires
        0 <= n <= nodes.len(),
    ensures
        text_before(nodes, uid, n) <==> exists|j: int|
            0 <= j < n && (#[trigger] nodes[j]).body is Text && nodes[j].uid == uid,
    decreases n,
{
    if n > 0 {
        lemma_text_before(nodes, uid, n - 1);
        if text_before(nodes, uid, n) {
            if nodes[n - 1].body is Text && nodes[n - 1].uid == uid {
            } else {
                let j = choose|j: int|
                    0 <= j < n - 1 && (#[trigger] nodes[j]).body is Text && nodes[j].uid == uid;
                assert(nodes[j].body is Text);
            }
        }
    }
}

proof fn lemma_last_text(ts: Seq<TextView>, uid: Seq<char>, n: int)
    requires
        0 <= n <= ts.len(),
    ensures
        match last_text(ts, uid, n) {
            Some(j) => 0 <= j < n && ts[j].uid == uid && forall|k: int|
                j < k < n ==> (#[trigger] ts[k]).uid != uid,
            None => forall|k: int| 0 <= k < n ==> (#[trigger] ts[k]).uid != uid,
        },
    decreases n,
{
    if n > 0 {
        lemma_last_text(ts, uid, n - 1);
    }
}

/// The texts of a page become those of the document, in its order; its layers are passed over.
pub proof fn texts_are_taken_in_order(
    ts: Seq<TextView>,
    gens: Seq<GenView>,
    nodes: Seq<NodeView>,
    page_idx: usize,
    n: int,
)
    requires
        0 <= n < nodes.len(),
    ensures
        ({
            let p = texts_synced(ts, gens, nodes, page_idx, n);
            let q = texts_synced(ts, gens, nodes, page_idx, n + 1);
            let node = nodes[n];
            let changed = gen_of(p.gens, page_idx, node.uid) != Some(node.generation);
            &&& texts_synced(ts, gens, nodes, page_idx, 0).ts.len() == 0
            &&& texts_synced(ts, gens, nodes, page_idx, 0).gens == gens
            &&& node.body is Raster ==> q == p
            &&& node.body is Text ==> q.ts == p.ts.push(
                text_of_node(node, earlier_text(ts, nodes, n), changed),
            )
            &&& node.body is Text ==> q.gens == with_gen(
                p.gens,
                page_idx,
                node.uid,
                node.generation,
            )
        }),
{
}

} // verus!
