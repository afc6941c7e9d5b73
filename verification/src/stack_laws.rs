//! What the operations on the layers of a page are for: which layer is meant, what changes in a
//! page and what stays as it was.

use vstd::prelude::*;
#[allow(unused_imports)]
use crate::bands::{
    band_ref, beneath, beneath_is_nearest, best_below, first_raster_z, listed_z, or_top, pinned_z,
    raster_places, raster_z, text_group_z, BandView, RefView,
};
#[allow(unused_imports)]
use crate::color::Color;
#[allow(unused_imports)]
use crate::composite::{
    clip_name, selected, touches, sampled, ClipMode, LocalPixel, SelectionBounds,
};
#[allow(unused_imports)]
use crate::ident::uid_text;
#[allow(unused_imports)]
use crate::json::Json;
#[allow(unused_imports)]
use crate::layer_doc::{bands_of, raster_node, restored_node, words_of, BodyView, NodeView};
#[allow(unused_imports)]
use crate::layer_ops::{cut_edits, merge_pair, uid_from, MergeRefusal};
#[allow(unused_imports)]
use crate::layers::{
    bare_page, group_from, group_id_from, group_uid_of, identity_placement, layer_called,
    layer_from, listed_first, new_raster, raster_from, rasters_in, same_deform, same_mesh,
    same_placement, shown, DeformView, GroupId, GroupView, LayerId, LayerKind, LayerTransform,
    LayerView, StackView,
};
#[allow(unused_imports)]
use crate::order::SortKey;
#[allow(unused_imports)]
use crate::page_laws::{halves_are_exact, is_half_of};
#[allow(unused_imports)]
use crate::raster::Grid;
#[allow(unused_imports)]
use crate::raster_edits::DocEditView;

verus! {

/// A layer is found by its number: the first that carries it, and none where none does.
pub proof fn layers_are_found_by_number(layers: Seq<LayerView>, id: LayerId, k: int)
    requires
        0 <= k < layers.len(),
        layers[k].id == id,
        forall|j: int| 0 <= j < k ==> (#[trigger] layers[j]).id != id,
    ensures
        layer_from(layers, id, 0) == Some(k),
        layer_called(layers, id) == Some(layers[k]),
{
    lemma_layer_first(layers, id, 0, k);
}

proof fn lemma_layer_first(layers: Seq<LayerView>, id: LayerId, i: int, k: int)
    requires
        0 <= i <= k < layers.len(),
        layers[k].id == id,
        forall|j: int| i <= j < k ==> (#[trigger] layers[j]).id != id,
    ensures
        layer_from(layers, id, i) == Some(k),
    decreases k - i,
{
    if i < k {
        lemma_layer_first(layers, id, i + 1, k);
    }
}

/// A number that no layer carries finds none.
pub proof fn unknown_numbers_find_nothing(layers: Seq<LayerView>, id: LayerId)
    requires
        forall|j: int| 0 <= j < layers.len() ==> (#[trigger] layers[j]).id != id,
    ensures
        layer_from(layers, id, 0) is None,
        layer_called(layers, id) is None,
{
    crate::layers::lemma_layer_from(layers, id, 0);
}

/// A layer of the user is found by its identifier: the first of them that carries it.  Neither the
/// scanned page nor the clean layer is meant.
pub proof fn rasters_are_found_by_identifier(layers: Seq<LayerView>, uid: Seq<char>)
    ensures
        match raster_from(layers, uid, 0) {
            Some(k) => {
                &&& 0 <= k < layers.len()
                &&& layers[k].kind == LayerKind::Raster
                &&& uid_text(layers[k].uid) == uid
                &&& forall|j: int|
                    0 <= j < k && (#[trigger] layers[j]).kind == LayerKind::Raster ==> uid_text(
                        layers[j].uid,
                    ) != uid
            },
            None => forall|j: int|
                0 <= j < layers.len() && (#[trigger] layers[j]).kind == LayerKind::Raster
                    ==> uid_text(layers[j].uid) != uid,
        },
        match uid_from(layers, uid, 0) {
            Some(k) => {
                &&& 0 <= k < layers.len()
                &&& uid_text(layers[k].uid) == uid
                &&& forall|j: int| 0 <= j < k ==> uid_text((#[trigger] layers[j]).uid) != uid
            },
            None => forall|j: int|
                0 <= j < layers.len() ==> uid_text((#[trigger] layers[j]).uid) != uid,
        },
{
    lemma_raster_first(layers, uid, 0);
    lemma_uid_first(layers, uid, 0);
}

proof fn lemma_raster_first(layers: Seq<LayerView>, uid: Seq<char>, i: int)
    requires
        0 <= i,
    ensures
        match raster_from(layers, uid, i) {
            Some(k) => {
                &&& i <= k < layers.len()
                &&& layers[k].kind == LayerKind::Raster
                &&& uid_text(layers[k].uid) == uid
                &&& forall|j: int|
                    i <= j < k && (#[trigger] layers[j]).kind == LayerKind::Raster ==> uid_text(
                        layers[j].uid,
                    ) != uid
            },
            None => forall|j: int|
                i <= j < layers.len() && (#[trigger] layers[j]).kind == LayerKind::Raster
                    ==> uid_text(layers[j].uid) != uid,
        },
    decreases layers.len() - i,
{
    if i < layers.len() {
        lemma_raster_first(layers, uid, i + 1);
    }
}

proof fn lemma_uid_first(layers: Seq<LayerView>, uid: Seq<char>, i: int)
    requires
        0 <= i,
    ensures
        match uid_from(layers, uid, i) {
            Some(k) => {
                &&& i <= k < layers.len()
                &&& uid_text(layers[k].uid) == uid
                &&& forall|j: int| i <= j < k ==> uid_text((#[trigger] layers[j]).uid) != uid
            },
            None => forall|j: int|
                i <= j < layers.len() ==> uid_text((#[trigger] layers[j]).uid) != uid,
        },
    decreases layers.len() - i,
{
    if i < layers.len() {
        lemma_uid_first(layers, uid, i + 1);
    }
}

/// A group is found by its number or its identifier: the first that carries it.
pub proof fn groups_are_found(groups: Seq<GroupView>, id: GroupId, uid: Seq<char>)
    ensures
        match group_id_from(groups, id, 0) {
            Some(k) => {
                &&& 0 <= k < groups.len()
                &&& groups[k].id == id
                &&& forall|j: int| 0 <= j < k ==> (#[trigger] groups[j]).id != id
            },
            None => forall|j: int| 0 <= j < groups.len() ==> (#[trigger] groups[j]).id != id,
        },
        match group_from(groups, uid, 0) {
            Some(k) => {
                &&& 0 <= k < groups.len()
                &&& uid_text(groups[k].uid) == uid
                &&& forall|j: int| 0 <= j < k ==> uid_text((#[trigger] groups[j]).uid) != uid
            },
            None => forall|j: int|
                0 <= j < groups.len() ==> uid_text((#[trigger] groups[j]).uid) != uid,
        },
{
    lemma_group_first(groups, id, uid, 0);
}

proof fn lemma_group_first(groups: Seq<GroupView>, id: GroupId, uid: Seq<char>, i: int)
    requires
        0 <= i,
    ensures
        match group_id_from(groups, id, i) {
            Some(k) => {
                &&& i <= k < groups.len()
                &&& groups[k].id == id
                &&& forall|j: int| i <= j < k ==> (#[trigger] groups[j]).id != id
            },
            None => forall|j: int| i <= j < groups.len() ==> (#[trigger] groups[j]).id != id,
        },
        match group_from(groups, uid, i) {
            Some(k) => {
                &&& i <= k < groups.len()
                &&& uid_text(groups[k].uid) == uid
                &&& forall|j: int| i <= j < k ==> uid_text((#[trigger] groups[j]).uid) != uid
            },
            None => forall|j: int|
                i <= j < groups.len() ==> uid_text((#[trigger] groups[j]).uid) != uid,
        },
    decreases groups.len() - i,
{
    if i < groups.len() {
        lemma_group_first(groups, id, uid, i + 1);
    }
}

/// The placement of a layer that covers the page: its middle is the middle of the page, and it is
/// neither turned nor scaled.
pub proof fn covering_the_page_means_its_middle(w: int, h: int)
    requires
        0 <= w < 0x1000000,
        0 <= h < 0x1000000,
    ensures
        is_half_of(identity_placement(w, h).cx as int, w),
        is_half_of(identity_placement(w, h).cy as int, h),
        identity_placement(w, h).rotation == 0,
        identity_placement(w, h).scale == 0x3F80_0000,
{
    halves_are_exact(w as nat);
    halves_are_exact(h as nat);
    crate::page_laws::lemma_half_fits(w as nat);
    crate::page_laws::lemma_half_fits(h as nat);
}

/// A page starts with the scanned page below and the clean layer above it, both shown in full and
/// unchanged, without groups, and with the clean layer active.
pub proof fn a_page_starts_with_two_layers(
    page_idx: usize,
    w: usize,
    h: usize,
    source: Grid<Color>,
    clean: Grid<Color>,
)
    ensures
        ({
            let s = bare_page(page_idx, w, h, source, clean);
            &&& s.page_idx == page_idx
            &&& s.w == w
            &&& s.h == h
            &&& s.layers.len() == 2
            &&& s.layers[0].kind == LayerKind::Source
            &&& s.layers[0].image == source
            &&& s.layers[0].name == "Исходник"@
            &&& s.layers[0].transform == identity_placement(source.w, source.h)
            &&& s.layers[1].kind == LayerKind::Clean
            &&& s.layers[1].image == clean
            &&& s.layers[1].name == "Клин"@
            &&& s.layers[1].transform == identity_placement(clean.w, clean.h)
            &&& s.active == s.layers[1].id
            &&& s.layers[0].id != s.layers[1].id
            &&& s.layers[0].id < s.next_layer_id
            &&& s.layers[1].id < s.next_layer_id
            &&& s.groups.len() == 0
            &&& forall|i: int|
                0 <= i < 2 ==> {
                    let l = #[trigger] s.layers[i];
                    &&& l.base_image == l.image
                    &&& l.visible
                    &&& l.opacity == 0x3F80_0000
                    &&& l.uid == l.id
                    &&& l.deform is None
                    &&& l.group is None
                    &&& l.effects.len() == 0
                    &&& !l.pixels_dirty
                }
        }),
{
}

/// A new layer lies above the others, is active, and shows what it was given in full: with no mesh,
/// no group and no effects, and yet to be stored.  The others stay as they are.
pub proof fn a_new_layer_lies_on_top(
    s: StackView,
    uid: u128,
    name: Seq<char>,
    image: Grid<Color>,
    t: LayerTransform,
)
    requires
        s.next_layer_id < u64::MAX,
    ensures
        ({
            let l = new_raster(s.next_layer_id, uid, name, image, t);
            let after = s.with_raster(l);
            &&& after.layers.len() == s.layers.len() + 1
            &&& forall|i: int|
                0 <= i < s.layers.len() ==> #[trigger] after.layers[i] == s.layers[i]
            &&& after.layers[s.layers.len() as int] == l
            &&& after.active == l.id
            &&& after.next_layer_id == s.next_layer_id + 1
            &&& after.groups == s.groups
            &&& after.next_group_id == s.next_group_id
            &&& after.page_idx == s.page_idx && after.w == s.w && after.h == s.h
            &&& l.id == s.next_layer_id
            &&& l.uid == uid
            &&& l.name == name
            &&& l.kind == LayerKind::Raster
            &&& l.image == image
            &&& l.base_image == image
            &&& l.transform == t
            &&& l.visible
            &&& l.opacity == 0x3F80_0000
            &&& l.deform is None
            &&& l.group is None
            &&& l.effects.len() == 0
            &&& l.pixels_dirty
        }),
{
}

/// Adding a layer and removing it again leaves the layers as they were.
pub proof fn adding_and_removing_cancel(s: StackView, l: LayerView)
    requires
        s.valid(),
        l.kind == LayerKind::Raster,
        l.id == s.next_layer_id,
    ensures
        s.with_raster(l).without_layer(l.id).layers == s.layers,
        s.with_raster(l).without_layer(l.id).groups == s.groups,
        s.with_raster(l).without_layer(l.id).active == s.layers.last().id,
{
    let after = s.with_raster(l);
    assert forall|j: int| 0 <= j < s.layers.len() implies (#[trigger] after.layers[j]).id != l.id by {
        assert(after.layers[j] == s.layers[j]);
    }
    layers_are_found_by_number(after.layers, l.id, s.layers.len() as int);
    assert(after.layers.remove(s.layers.len() as int) =~= s.layers);
}

/// Removing takes out just the layer that is meant, and only a layer of the user: the others keep
/// their order.  Where the active layer goes, the topmost of the rest becomes active.
pub proof fn removing_takes_one_layer(s: StackView, id: LayerId, k: int)
    requires
        s.valid(),
        0 <= k < s.layers.len(),
        s.layers[k].id == id,
    ensures
        ({
            let after = s.without_layer(id);
            &&& k < 2 ==> after == s
            &&& k >= 2 ==> {
                &&& after.layers.len() == s.layers.len() - 1
                &&& forall|i: int| 0 <= i < k ==> #[trigger] after.layers[i] == s.layers[i]
                &&& forall|i: int|
                    k <= i < after.layers.len() ==> #[trigger] after.layers[i] == s.layers[i + 1]
                &&& s.active != id ==> after.active == s.active
                &&& s.active == id ==> after.active == after.layers[after.layers.len() - 1].id
                &&& after.groups == s.groups
                &&& after.next_layer_id == s.next_layer_id
                &&& after.next_group_id == s.next_group_id
                &&& after.page_idx == s.page_idx && after.w == s.w && after.h == s.h
            }
        }),
{
    assert forall|j: int| 0 <= j < k implies (#[trigger] s.layers[j]).id != id by {}
    layers_are_found_by_number(s.layers, id, k);
}

/// Removing a layer that is not there changes nothing.
pub proof fn removing_what_is_not_there(s: StackView, id: LayerId)
    requires
        forall|j: int| 0 <= j < s.layers.len() ==> (#[trigger] s.layers[j]).id != id,
    ensures
        s.without_layer(id) == s,
{
    unknown_numbers_find_nothing(s.layers, id);
}

/// Ordering leaves the scanned page and the clean layer at the bottom and puts the layers that are
/// listed above them, in the order of the list.
pub proof fn ordering_follows_the_list(s: StackView, ids: Seq<LayerId>, at: Seq<int>, k: int)
    requires
        s.valid(),
        at.len() == ids.len(),
        forall|j: int|
            0 <= j < ids.len() ==> 2 <= #[trigger] at[j] < s.layers.len() && s.layers[at[j]].id
                == ids[j],
        forall|i: int, j: int| 0 <= i < j < ids.len() ==> #[trigger] ids[i] != #[trigger] ids[j],
        0 <= k < ids.len(),
    ensures
        s.with_order(ids).layers.len() == s.layers.len(),
        s.with_order(ids).layers[0] == s.layers[0],
        s.with_order(ids).layers[1] == s.layers[1],
        s.with_order(ids).layers[2 + k] == s.layers[at[k]],
        s.with_order(ids).groups == s.groups,
        s.with_order(ids).active == s.active,
{
    let rest = s.layers.skip(2);
    let from = Seq::new(ids.len(), |j: int| at[j] - 2);
    assert forall|j: int| 0 <= j < ids.len() implies 0 <= #[trigger] from[j] < rest.len()
        && rest[from[j]].id == ids[j] by {
        assert(2 <= at[j] < s.layers.len());
    }
    assert forall|i: int, j: int| 0 <= i < j < rest.len() implies (#[trigger] rest[i]).id != (
    #[trigger] rest[j]).id by {
        assert(rest[i] == s.layers[i + 2] && rest[j] == s.layers[j + 2]);
    }
    lemma_listed(rest, ids, from, k);
    crate::layers::ordering_keeps_the_layers(rest, ids);
    assert(2 <= at[k] < s.layers.len());
    assert(rest[from[k]] == s.layers[at[k]]);
    let all = s.layers.take(2) + listed_first(rest, ids);
    assert(all[2 + k] == listed_first(rest, ids)[k]);
}

proof fn lemma_listed(layers: Seq<LayerView>, ids: Seq<LayerId>, at: Seq<int>, k: int)
    requires
        at.len() == ids.len(),
        forall|j: int|
            0 <= j < ids.len() ==> 0 <= #[trigger] at[j] < layers.len() && layers[at[j]].id
                == ids[j],
        forall|i: int, j: int| 0 <= i < j < ids.len() ==> #[trigger] ids[i] != #[trigger] ids[j],
        forall|i: int, j: int|
            0 <= i < j < layers.len() ==> (#[trigger] layers[i]).id != (#[trigger] layers[j]).id,
        0 <= k < ids.len(),
    ensures
        k < layers.len(),
        listed_first(layers, ids).len() == layers.len(),
        listed_first(layers, ids)[k] == layers[at[k]],
    decreases ids.len(),
{
    let a = at[0];
    assert(layers[a].id == ids[0]);
    assert forall|j: int| 0 <= j < a implies (#[trigger] layers[j]).id != ids[0] by {}
    layers_are_found_by_number(layers, ids[0], a);
    let rest = layers.remove(a);
    let tail = ids.drop_first();
    crate::layers::ordering_keeps_the_layers(layers, ids);
    if k > 0 {
        let from = Seq::new(
            tail.len(),
            |j: int|
                if at[j + 1] > a {
                    at[j + 1] - 1
                } else {
                    at[j + 1]
                },
        );
        assert forall|j: int| 0 <= j < tail.len() implies 0 <= #[trigger] from[j] < rest.len()
            && rest[from[j]].id == tail[j] by {
            assert(0 <= at[j + 1] < layers.len() && layers[at[j + 1]].id == ids[j + 1]);
            assert(ids[0] != ids[j + 1]);
            assert(at[j + 1] != a);
        }
        assert forall|i: int, j: int| 0 <= i < j < tail.len() implies #[trigger] tail[i]
            != #[trigger] tail[j] by {
            assert(tail[i] == ids[i + 1] && tail[j] == ids[j + 1]);
        }
        assert forall|i: int, j: int| 0 <= i < j < rest.len() implies (#[trigger] rest[i]).id != (
        #[trigger] rest[j]).id by {
            let u = if i < a { i } else { i + 1 };
            let v = if j < a { j } else { j + 1 };
            assert(rest[i] == layers[u] && rest[j] == layers[v]);
        }
        lemma_listed(rest, tail, from, k - 1);
        assert(0 <= at[k] < layers.len() && layers[at[k]].id == ids[k]);
        assert(ids[0] != ids[k]);
        assert(at[k] != a);
        let f = from[k - 1];
        assert(f == if at[k] > a {
            at[k] - 1
        } else {
            at[k]
        });
        assert(rest[f] == layers[at[k]]);
        let all = seq![layers[a]] + listed_first(rest, tail);
        assert(listed_first(layers, ids) == all);
        assert(all[k] == listed_first(rest, tail)[k - 1]);
    }
}

/// Ordering by an empty list, or by a list that names none of the layers, changes nothing.
pub proof fn ordering_by_nothing_changes_nothing(s: StackView, ids: Seq<LayerId>)
    requires
        s.valid(),
        forall|i: int, j: int|
            2 <= i < s.layers.len() && 0 <= j < ids.len() ==> (#[trigger] s.layers[i]).id
                != #[trigger] ids[j],
    ensures
        s.with_order(ids).layers == s.layers,
{
    let rest = s.layers.skip(2);
    assert forall|i: int, j: int| 0 <= i < rest.len() && 0 <= j < ids.len() implies (
    #[trigger] rest[i]).id != #[trigger] ids[j] by {
        assert(rest[i] == s.layers[i + 2]);
    }
    lemma_listed_nothing(rest, ids);
    assert(s.layers.take(2) + rest =~= s.layers);
}

proof fn lemma_listed_nothing(layers: Seq<LayerView>, ids: Seq<LayerId>)
    requires
        forall|i: int, j: int|
            0 <= i < layers.len() && 0 <= j < ids.len() ==> (#[trigger] layers[i]).id
                != #[trigger] ids[j],
    ensures
        listed_first(layers, ids) == layers,
    decreases ids.len(),
{
    if ids.len() > 0 {
        crate::layers::lemma_layer_from(layers, ids[0], 0);
        let tail = ids.drop_first();
        assert forall|i: int, j: int| 0 <= i < layers.len() && 0 <= j < tail.len() implies (
        #[trigger] layers[i]).id != #[trigger] tail[j] by {
            assert(tail[j] == ids[j + 1]);
        }
        lemma_listed_nothing(layers, tail);
    }
}

/// A new group comes last, is shown in full and unfolded, and holds no layer yet.
pub proof fn a_new_group_comes_last(s: StackView, name: Seq<char>, uid: u128)
    requires
        s.next_group_id < u64::MAX,
    ensures
        ({
            let after = s.with_group(name, uid);
            let g = after.groups[s.groups.len() as int];
            &&& after.groups.len() == s.groups.len() + 1
            &&& forall|i: int|
                0 <= i < s.groups.len() ==> #[trigger] after.groups[i] == s.groups[i]
            &&& g.id == s.next_group_id
            &&& g.uid == uid
            &&& g.name == name
            &&& g.visible
            &&& g.opacity == 0x3F80_0000
            &&& !g.collapsed
            &&& after.next_group_id == s.next_group_id + 1
            &&& after.layers == s.layers
            &&& after.active == s.active
            &&& after.next_layer_id == s.next_layer_id
        }),
{
}

/// Removing a group takes its layers out of it and leaves them and everything else as they are.
pub proof fn removing_a_group_keeps_its_layers(s: StackView, id: GroupId, i: int)
    requires
        s.valid(),
        0 <= i < s.layers.len(),
    ensures
        ({
            let after = s.without_group(id);
            let was = s.layers[i];
            let now = after.layers[i];
            &&& after.layers.len() == s.layers.len()
            &&& now == (LayerView { group: now.group, ..was })
            &&& was.group == Some(id) ==> now.group is None
            &&& was.group != Some(id) ==> now.group == was.group
            &&& after.active == s.active
            &&& after.next_layer_id == s.next_layer_id
            &&& after.next_group_id == s.next_group_id
            &&& forall|k: int|
                0 <= k < s.groups.len() && (#[trigger] s.groups[k]).id == id ==> {
                    &&& after.groups.len() == s.groups.len() - 1
                    &&& forall|j: int| 0 <= j < k ==> #[trigger] after.groups[j] == s.groups[j]
                    &&& forall|j: int|
                        k <= j < after.groups.len() ==> #[trigger] after.groups[j] == s.groups[j
                            + 1]
                }
            &&& (forall|k: int| 0 <= k < s.groups.len() ==> (#[trigger] s.groups[k]).id != id)
                ==> after.groups == s.groups
        }),
{
    groups_are_found(s.groups, id, Seq::empty());
}

/// A layer joins or leaves a group without anything else changing.
pub proof fn joining_a_group_changes_one_layer(
    s: StackView,
    id: LayerId,
    group: Option<GroupId>,
    i: int,
)
    requires
        s.valid(),
        0 <= i < s.layers.len(),
    ensures
        ({
            let after = s.with_membership(id, group);
            &&& after.layers.len() == s.layers.len()
            &&& s.layers[i].id == id ==> after.layers[i] == (LayerView { group, ..s.layers[i] })
            &&& s.layers[i].id != id ==> after.layers[i] == s.layers[i]
            &&& after.groups == s.groups
            &&& after.active == s.active
        }),
{
    crate::layers::lemma_layer_from(s.layers, id, 0);
}

/// Once a page is stored, no layer of the user waits for it any more; nothing else changes.
pub proof fn stored_layers_are_clean(s: StackView, i: int)
    requires
        0 <= i < s.layers.len(),
    ensures
        ({
            let after = s.persisted();
            let was = s.layers[i];
            let now = after.layers[i];
            &&& after.layers.len() == s.layers.len()
            &&& was.kind == LayerKind::Raster ==> !now.pixels_dirty
            &&& was.kind != LayerKind::Raster ==> now.pixels_dirty == was.pixels_dirty
            &&& now == (LayerView { pixels_dirty: now.pixels_dirty, ..was })
            &&& after == (StackView { layers: after.layers, ..s })
        }),
{
}

/// A layer is shown where it is switched on and the group it is in, if that is there, is too.
pub proof fn groups_switch_their_layers(s: StackView, l: LayerView, k: int)
    requires
        0 <= k < s.groups.len(),
        forall|j: int| 0 <= j < k ==> (#[trigger] s.groups[j]).id != s.groups[k].id,
    ensures
        !l.visible ==> !shown(s, l),
        l.group is None ==> shown(s, l) == l.visible,
        l.group is None ==> group_uid_of(s, l) is None,
        l.group == Some(s.groups[k].id) ==> shown(s, l) == (l.visible && s.groups[k].visible),
        l.group == Some(s.groups[k].id) ==> group_uid_of(s, l) == Some(uid_text(s.groups[k].uid)),
        l.group is Some && (forall|j: int|
            0 <= j < s.groups.len() ==> (#[trigger] s.groups[j]).id != l.group->0) ==> shown(s, l)
            == l.visible && group_uid_of(s, l) is None,
{
    if l.group is Some {
        groups_are_found(s.groups, l.group->0, Seq::empty());
    }
}

/// How many layers of the user a page has.
pub proof fn layers_of_the_user_are_counted(layers: Seq<LayerView>)
    ensures
        rasters_in(layers) == layers.filter(|l: LayerView| l.kind == LayerKind::Raster).len(),
    decreases layers.len(),
{
    reveal(Seq::filter);
    if layers.len() > 0 {
        layers_of_the_user_are_counted(layers.drop_last());
    }
}

/// What a layer becomes as a node of the document: the same identifier, name, visibility, opacity,
/// placement, group, pixels and effects, lowest in the order and yet to be stored.  A node that is
/// restored keeps the mesh as well; a new one has none.
pub proof fn nodes_carry_their_layers(s: StackView, l: LayerView)
    ensures
        ({
            let n = raster_node(s, l);
            let r = restored_node(s, l);
            &&& n.uid == uid_text(l.uid)
            &&& n.name == l.name
            &&& n.z == 0
            &&& n.visible == l.visible
            &&& n.opacity == l.opacity
            &&& n.group_uid == group_uid_of(s, l)
            &&& n.text_layer_idx is None
            &&& n.transform.cx == l.transform.cx
            &&& n.transform.cy == l.transform.cy
            &&& n.transform.rotation == l.transform.rotation
            &&& n.transform.scale == l.transform.scale
            &&& n.deform is None
            &&& n.generation == 0
            &&& n.pixels_dirty
            &&& n.body == (BodyView::Raster {
                base_image: l.base_image,
                display_image: l.image,
                effects: l.effects,
                base_file: uid_text(l.uid) + ".png"@,
                mask_clip: None,
            })
            &&& r.deform == l.deform
            &&& r == (NodeView { deform: l.deform, ..n })
        }),
{
}

/// Each node of the document has one band, in the same order: of its kind, with its identifier and
/// its height.
pub proof fn nodes_give_their_bands(nodes: Seq<NodeView>, i: int)
    requires
        0 <= i < nodes.len(),
    ensures
        bands_of(nodes).len() == nodes.len(),
        nodes[i].body is Raster ==> bands_of(nodes)[i] == (BandView::Raster {
            uid: nodes[i].uid,
            z: nodes[i].z,
        }),
        nodes[i].body is Text ==> bands_of(nodes)[i] == (BandView::PinnedText {
            uid: nodes[i].uid,
            z: nodes[i].z,
        }),
{
}

/// The words of a text are its parameter of that name, and none where there is no such parameter.
pub proof fn words_are_the_text_parameter(
    data: Map<Seq<char>, Json>,
    params: Map<Seq<char>, Json>,
    words: Seq<char>,
)
    requires
        data.contains_key("text_params"@),
        data["text_params"@] == Json::Fields(params),
    ensures
        params.contains_key("text"@) && params["text"@] == Json::Text(words) ==> words_of(
            Json::Fields(data),
        ) == words,
        !params.contains_key("text"@) ==> words_of(Json::Fields(data)).len() == 0,
        !data.remove("text_params"@).contains_key("text_params"@) ==> words_of(
            Json::Fields(data.remove("text_params"@)),
        ).len() == 0,
{
}

/// Two placements are the same where the four numbers are, whatever the sign of a zero; one that is
/// no number is never the same.
pub proof fn placements_compare_as_numbers(a: LayerTransform, b: LayerTransform)
    ensures
        same_placement(a, b) <==> crate::float_bits::same_number(a.cx, b.cx)
            && crate::float_bits::same_number(a.cy, b.cy) && crate::float_bits::same_number(
            a.rotation,
            b.rotation,
        ) && crate::float_bits::same_number(a.scale, b.scale),
        same_placement(a, b) == same_placement(b, a),
{
}

/// Two meshes are the same where they have as many columns, rows and points and each point lies at
/// the same place; a mesh and no mesh are not.
pub proof fn meshes_compare_point_by_point(a: DeformView, b: DeformView, i: int)
    requires
        0 <= i < a.points.len(),
    ensures
        same_deform(None, None),
        !same_deform(Some(a), None),
        !same_deform(None, Some(b)),
        same_deform(Some(a), Some(b)) == same_mesh(a, b),
        same_mesh(a, b) ==> {
            &&& a.cols == b.cols
            &&& a.rows == b.rows
            &&& a.points.len() == b.points.len()
            &&& crate::float_bits::same_number(a.points[i].x, b.points[i].x)
            &&& crate::float_bits::same_number(a.points[i].y, b.points[i].y)
        },
        a.cols == b.cols && a.rows == b.rows && a.points == b.points && (forall|k: int|
            0 <= k < a.points.len() ==> !crate::float_bits::is_nan((#[trigger] a.points[k]).x)
                && !crate::float_bits::is_nan(a.points[k].y)) ==> same_mesh(a, b),
{
    if same_mesh(a, b) {
        let p = a.points[i];
    }
}

/// Keys are compared part by part, from the first that differs: of two keys one comes before the
/// other or they are the same, and never both.
pub proof fn keys_are_in_one_order(x: SortKey, y: SortKey, z: SortKey)
    ensures
        x.a < y.a ==> x.before(y),
        x.a == y.a && x.b < y.b ==> x.before(y),
        x.a == y.a && x.b == y.b && x.place < y.place ==> x.before(y),
        x.a == y.a && x.b == y.b && x.place == y.place && x.c < y.c ==> x.before(y),
        x.a == y.a && x.b == y.b && x.place == y.place && x.c == y.c && x.d < y.d ==> x.before(y),
        !x.before(x),
        x.before(y) ==> !y.before(x),
        x.before(y) || y.before(x) || (x.a == y.a && x.b == y.b && x.place == y.place && x.c == y.c
            && x.d == y.d),
        x.before(y) && y.before(z) ==> x.before(z),
{
}

/// The height of a band is that of the last band of its kind with that identifier or number, and
/// there is none where no such band is.
pub proof fn heights_come_from_the_last_band(
    bands: Seq<BandView>,
    uid: Seq<char>,
    layer_idx: u32,
    n: int,
)
    requires
        0 <= n <= bands.len(),
    ensures
        match raster_z(bands, uid, n) {
            Some(z) => exists|k: int|
                0 <= k < n && #[trigger] bands[k] == (BandView::Raster { uid, z }) && forall|j: int|
                    k < j < n ==> !((#[trigger] bands[j]) is Raster && bands[j]->Raster_uid == uid),
            None => forall|j: int|
                0 <= j < n ==> !((#[trigger] bands[j]) is Raster && bands[j]->Raster_uid == uid),
        },
        match text_group_z(bands, layer_idx, n) {
            Some(z) => exists|k: int|
                0 <= k < n && #[trigger] bands[k] == (BandView::TextGroup { layer_idx, z })
                    && forall|j: int|
                    k < j < n ==> !((#[trigger] bands[j]) is TextGroup
                        && bands[j]->TextGroup_layer_idx == layer_idx),
            None => forall|j: int|
                0 <= j < n ==> !((#[trigger] bands[j]) is TextGroup
                    && bands[j]->TextGroup_layer_idx == layer_idx),
        },
        match pinned_z(bands, uid, n) {
            Some(z) => exists|k: int|
                0 <= k < n && #[trigger] bands[k] == (BandView::PinnedText { uid, z })
                    && forall|j: int|
                    k < j < n ==> !((#[trigger] bands[j]) is PinnedText && bands[j]->PinnedText_uid
                        == uid),
            None => forall|j: int|
                0 <= j < n ==> !((#[trigger] bands[j]) is PinnedText && bands[j]->PinnedText_uid
                    == uid),
        },
    decreases n,
{
    if n > 0 {
        heights_come_from_the_last_band(bands, uid, layer_idx, n - 1);
        let last = bands[n - 1];
        match raster_z(bands, uid, n) {
            Some(z) => {
                if last is Raster && last->Raster_uid == uid {
                    assert(bands[n - 1] == (BandView::Raster { uid, z }));
                } else {
                    let k = choose|k: int|
                        0 <= k < n - 1 && #[trigger] bands[k] == (BandView::Raster { uid, z })
                            && forall|j: int|
                            k < j < n - 1 ==> !((#[trigger] bands[j]) is Raster
                                && bands[j]->Raster_uid == uid);
                    assert(bands[k] == (BandView::Raster { uid, z }));
                }
            },
            None => {},
        }
        match text_group_z(bands, layer_idx, n) {
            Some(z) => {
                if last is TextGroup && last->TextGroup_layer_idx == layer_idx {
                    assert(bands[n - 1] == (BandView::TextGroup { layer_idx, z }));
                } else {
                    let k = choose|k: int|
                        0 <= k < n - 1 && #[trigger] bands[k] == (BandView::TextGroup {
                            layer_idx,
                            z,
                        }) && forall|j: int|
                            k < j < n - 1 ==> !((#[trigger] bands[j]) is TextGroup
                                && bands[j]->TextGroup_layer_idx == layer_idx);
                    assert(bands[k] == (BandView::TextGroup { layer_idx, z }));
                }
            },
            None => {},
        }
        match pinned_z(bands, uid, n) {
            Some(z) => {
                if last is PinnedText && last->PinnedText_uid == uid {
                    assert(bands[n - 1] == (BandView::PinnedText { uid, z }));
                } else {
                    let k = choose|k: int|
                        0 <= k < n - 1 && #[trigger] bands[k] == (BandView::PinnedText { uid, z })
                            && forall|j: int|
                            k < j < n - 1 ==> !((#[trigger] bands[j]) is PinnedText
                                && bands[j]->PinnedText_uid == uid);
                    assert(bands[k] == (BandView::PinnedText { uid, z }));
                }
            },
            None => {},
        }
    }
}

/// What has no band lies above all that have one; the height of a layer for an edit is that of its
/// first band, and the lowest without one.
pub proof fn missing_bands_lie_on_top(bands: Seq<BandView>, uid: Seq<char>, z: u32, k: int)
    requires
        bands.len() <= u32::MAX,
        0 <= k < bands.len(),
        bands[k] is Raster,
        bands[k]->Raster_uid == uid,
        forall|j: int|
            0 <= j < k ==> !((#[trigger] bands[j]) is Raster && bands[j]->Raster_uid == uid),
    ensures
        or_top(None, bands) == bands.len(),
        or_top(Some(z), bands) == z,
        first_raster_z(bands, uid, 0) == bands[k]->Raster_z,
        first_raster_z(bands.take(k), uid, 0) == 0,
{
    lemma_first_band(bands, uid, 0, k);
    lemma_no_band(bands.take(k), uid, 0);
}

proof fn lemma_first_band(bands: Seq<BandView>, uid: Seq<char>, i: int, k: int)
    requires
        0 <= i <= k < bands.len(),
        bands[k] is Raster,
        bands[k]->Raster_uid == uid,
        forall|j: int|
            i <= j < k ==> !((#[trigger] bands[j]) is Raster && bands[j]->Raster_uid == uid),
    ensures
        first_raster_z(bands, uid, i) == bands[k]->Raster_z,
    decreases k - i,
{
    if i < k {
        let b = bands[i];
        lemma_first_band(bands, uid, i + 1, k);
    }
}

proof fn lemma_no_band(bands: Seq<BandView>, uid: Seq<char>, i: int)
    requires
        0 <= i,
        forall|j: int|
            i <= j < bands.len() ==> !((#[trigger] bands[j]) is Raster && bands[j]->Raster_uid
                == uid),
    ensures
        first_raster_z(bands, uid, i) == 0,
    decreases bands.len() - i,
{
    if i < bands.len() {
        let b = bands[i];
        lemma_no_band(bands, uid, i + 1);
    }
}

/// A band is referred to by its kind and its identifier or number.
pub proof fn bands_are_referred_to_by_name(uid: Seq<char>, layer_idx: u32, z: u32)
    ensures
        band_ref(BandView::Raster { uid, z }) == RefView::Raster(uid),
        band_ref(BandView::TextGroup { layer_idx, z }) == RefView::TextGroup(layer_idx),
        band_ref(BandView::PinnedText { uid, z }) == RefView::PinnedText(uid),
{
}

/// Every layer of the user, and no other, has its place among the rasters, in their order: its
/// identifier, and the height of its band.
pub proof fn rasters_have_their_places(
    layers: Seq<LayerView>,
    bands: Seq<BandView>,
    n: int,
    i: int,
)
    requires
        0 <= i < n <= layers.len(),
        layers[i].kind == LayerKind::Raster,
    ensures
        ({
            let k = rasters_in(layers.take(i)) as int;
            let uid = uid_text(layers[i].uid);
            let places = raster_places(layers, bands, n);
            &&& places.len() == rasters_in(layers.take(n))
            &&& 0 <= k < places.len()
            &&& places[k].0 == uid
            &&& places[k].1 == match raster_z(bands, uid, bands.len() as int) {
                Some(z) => z,
                None => bands.len() as u32,
            }
        }),
    decreases n,
{
    lemma_places_count(layers, bands, n);
    lemma_places_count(layers, bands, n - 1);
    lemma_places_count(layers, bands, i);
    if i < n - 1 {
        rasters_have_their_places(layers, bands, n - 1, i);
    }
}

proof fn lemma_places_count(layers: Seq<LayerView>, bands: Seq<BandView>, n: int)
    requires
        0 <= n <= layers.len(),
    ensures
        raster_places(layers, bands, n).len() == rasters_in(layers.take(n)),
    decreases n,
{
    if n > 0 {
        lemma_places_count(layers, bands, n - 1);
        assert(layers.take(n).drop_last() =~= layers.take(n - 1));
        assert(layers.take(n).last() == layers[n - 1]);
    } else {
        assert(layers.take(0) =~= Seq::empty());
    }
}

/// The layer beneath another is the highest of those that lie lower than it.  There is none beneath
/// the scanned page, the clean layer or the lowest layer.
pub proof fn beneath_is_the_next_lower(
    s: StackView,
    bands: Seq<BandView>,
    id: LayerId,
    u: int,
    rs: Seq<(Seq<char>, u32)>,
    k: int,
)
    requires
        s.valid(),
        0 <= u < s.layers.len(),
        s.layers[u].id == id,
        rs == raster_places(s.layers, bands, s.layers.len() as int),
        0 <= k < rs.len(),
        rs[k].0 == uid_text(s.layers[u].uid),
        forall|j: int| 0 <= j < k ==> (#[trigger] rs[j]).0 != rs[k].0,
    ensures
        u < 2 ==> beneath(s, bands, id) is None,
        u >= 2 ==> match beneath(s, bands, id) {
            Some(uid) => exists|i: int|
                {
                    &&& 0 <= i < rs.len()
                    &&& (#[trigger] rs[i]).0 == uid
                    &&& rs[i].0 != rs[k].0
                    &&& rs[i].1 < rs[k].1
                    &&& forall|j: int|
                        0 <= j < rs.len() && (#[trigger] rs[j]).0 != rs[k].0 && rs[j].1 < rs[k].1
                            ==> rs[j].1 < rs[i].1 || (rs[j].1 == rs[i].1 && i <= j)
                },
            None => forall|j: int|
                0 <= j < rs.len() && (#[trigger] rs[j]).0 != rs[k].0 ==> rs[j].1 >= rs[k].1,
        },
{
    assert forall|j: int| 0 <= j < u implies (#[trigger] s.layers[j]).id != id by {}
    layers_are_found_by_number(s.layers, id, u);
    lemma_listed_first_z(rs, rs[k].0, 0, k);
    beneath_is_nearest(rs, rs[k].0, rs[k].1, rs.len() as int);
    if u >= 2 {
        match best_below(rs, rs[k].0, rs[k].1, rs.len() as int) {
            Some(i) => {
                assert(rs[i].0 != rs[k].0);
            },
            None => {},
        }
    }
}

proof fn lemma_listed_first_z(rs: Seq<(Seq<char>, u32)>, uid: Seq<char>, i: int, k: int)
    requires
        0 <= i <= k < rs.len(),
        rs[k].0 == uid,
        forall|j: int| i <= j < k ==> (#[trigger] rs[j]).0 != uid,
    ensures
        listed_z(rs, uid, i) == Some(rs[k].1),
    decreases k - i,
{
    if i < k {
        lemma_listed_first_z(rs, uid, i + 1, k);
    }
}

/// Two layers can be merged where both are the user's and neither has effects; effects have to be
/// baked first, and anything else means that there is nothing to merge with.
pub proof fn merging_needs_two_plain_layers(
    s: StackView,
    bands: Seq<BandView>,
    id: LayerId,
    uid: Seq<char>,
    u: int,
    b: int,
)
    requires
        beneath(s, bands, id) == Some(uid),
        layer_from(s.layers, id, 0) == Some(u),
        uid_from(s.layers, uid, 0) == Some(b),
    ensures
        ({
            let upper = s.layers[u];
            let below = s.layers[b];
            let own = upper.kind == LayerKind::Raster && below.kind == LayerKind::Raster;
            let plain = upper.effects.len() == 0 && below.effects.len() == 0;
            &&& own && plain ==> merge_pair(s, bands, id) == Ok::<(int, int), MergeRefusal>((b, u))
            &&& own && !plain ==> merge_pair(s, bands, id) == Err::<(int, int), MergeRefusal>(
                MergeRefusal::BakeFirst,
            )
            &&& !own ==> merge_pair(s, bands, id) == Err::<(int, int), MergeRefusal>(
                MergeRefusal::NothingBeneath,
            )
        }),
{
}

/// Without a layer beneath, or where one of the two is not there, nothing can be merged.
pub proof fn merging_needs_a_layer_beneath(s: StackView, bands: Seq<BandView>, id: LayerId)
    requires
        beneath(s, bands, id) is None || layer_from(s.layers, id, 0) is None || uid_from(
            s.layers,
            beneath(s, bands, id)->0,
            0,
        ) is None,
    ensures
        merge_pair(s, bands, id) == Err::<(int, int), MergeRefusal>(MergeRefusal::NothingBeneath),
{
}

/// After a cut each chosen layer of the user is sent with the pixels it now shows, and nothing else
/// is sent.
pub proof fn cut_layers_are_sent(s: StackView, ids: Seq<LayerId>, n: int, k: int)
    requires
        0 <= k < n <= ids.len(),
    ensures
        ({
            let edits = cut_edits(s, ids, n);
            &&& match layer_called(s.layers, ids[k]) {
                Some(l) => l.kind == LayerKind::Raster ==> edits.contains(
                    DocEditView::SetPixels { uid: uid_text(l.uid), base: l.image, display: l.image },
                ),
                None => true,
            }
            &&& forall|e: int|
                0 <= e < edits.len() ==> exists|j: int|
                    {
                        &&& 0 <= j < n
                        &&& layer_called(s.layers, #[trigger] ids[j]) is Some
                        &&& {
                            let l = layer_called(s.layers, ids[j])->0;
                            &&& l.kind == LayerKind::Raster
                            &&& #[trigger] edits[e] == (DocEditView::SetPixels {
                                uid: uid_text(l.uid),
                                base: l.image,
                                display: l.image,
                            })
                        }
                    }
            &&& edits.len() <= n
        }),
    decreases n,
{
    let edits = cut_edits(s, ids, n);
    let prev = cut_edits(s, ids, n - 1);
    lemma_cut_edits(s, ids, n);
    lemma_cut_edits(s, ids, n - 1);
    if k < n - 1 {
        cut_layers_are_sent(s, ids, n - 1, k);
        match layer_called(s.layers, ids[k]) {
            Some(l) => {
                if l.kind == LayerKind::Raster {
                    let e = DocEditView::SetPixels {
                        uid: uid_text(l.uid),
                        base: l.image,
                        display: l.image,
                    };
                    let j = choose|j: int| 0 <= j < prev.len() && prev[j] == e;
                    assert(edits[j] == e);
                }
            },
            None => {},
        }
    } else {
        match layer_called(s.layers, ids[k]) {
            Some(l) => {
                if l.kind == LayerKind::Raster {
                    assert(edits[edits.len() - 1] == (DocEditView::SetPixels {
                        uid: uid_text(l.uid),
                        base: l.image,
                        display: l.image,
                    }));
                }
            },
            None => {},
        }
    }
}

proof fn lemma_cut_edits(s: StackView, ids: Seq<LayerId>, n: int)
    requires
        0 <= n <= ids.len(),
    ensures
        ({
            let edits = cut_edits(s, ids, n);
            &&& forall|e: int|
                0 <= e < edits.len() ==> exists|j: int|
                    {
                        &&& 0 <= j < n
                        &&& layer_called(s.layers, #[trigger] ids[j]) is Some
                        &&& {
                            let l = layer_called(s.layers, ids[j])->0;
                            &&& l.kind == LayerKind::Raster
                            &&& #[trigger] edits[e] == (DocEditView::SetPixels {
                                uid: uid_text(l.uid),
                                base: l.image,
                                display: l.image,
                            })
                        }
                    }
            &&& edits.len() <= n
        }),
    decreases n,
{
    if n > 0 {
        lemma_cut_edits(s, ids, n - 1);
        let edits = cut_edits(s, ids, n);
        let prev = cut_edits(s, ids, n - 1);
        assert forall|e: int| 0 <= e < edits.len() implies exists|j: int|
            {
                &&& 0 <= j < n
                &&& layer_called(s.layers, #[trigger] ids[j]) is Some
                &&& {
                    let l = layer_called(s.layers, ids[j])->0;
                    &&& l.kind == LayerKind::Raster
                    &&& #[trigger] edits[e] == (DocEditView::SetPixels {
                        uid: uid_text(l.uid),
                        base: l.image,
                        display: l.image,
                    })
                }
            } by {
            if e < prev.len() {
                assert(edits[e] == prev[e]);
            } else {
                assert(layer_called(s.layers, ids[n - 1]) is Some);
            }
        }
    }
}

/// A clip is called a copy or a cutting, by how it was made.
pub proof fn clips_are_called_by_how_they_were_made()
    ensures
        clip_name(ClipMode::Copy) == "Копия"@,
        clip_name(ClipMode::Cut) == "Вырезка"@,
{
}

/// A layer touches the selection where it shows something on a selected pixel inside the bounds.
pub proof fn touching_means_something_shows(
    image: Grid<Color>,
    places: Grid<Option<LocalPixel>>,
    mask: Grid<bool>,
    b: SelectionBounds,
)
    ensures
        touches(image, places, mask, b) <==> exists|x: int, y: int|
            {
                &&& b.min_x <= x <= b.max_x
                &&& b.min_y <= y <= b.max_y
                &&& 0 <= x < mask.w
                &&& 0 <= y < mask.h
                &&& mask.px[y * mask.w + x]
                &&& (#[trigger] sampled(image, places, x, y)).a > 0
            },
{
    if touches(image, places, mask, b) {
        let (x, y) = choose|x: int, y: int|
            b.holds(x, y) && #[trigger] selected(mask, x, y) && sampled(image, places, x, y).a > 0;
        assert(sampled(image, places, x, y).a > 0);
        assert(mask.at(x, y) == mask.px[y * mask.w + x]);
    }
    assert forall|x: int, y: int|
        {
            &&& b.min_x <= x <= b.max_x
            &&& b.min_y <= y <= b.max_y
            &&& 0 <= x < mask.w
            &&& 0 <= y < mask.h
            &&& mask.px[y * mask.w + x]
            &&& (#[trigger] sampled(image, places, x, y)).a > 0
        } implies touches(image, places, mask, b) by {
        assert(selected(mask, x, y));
        assert(b.holds(x, y));
    }
}

} // verus!
