//! The order in which the layers and texts of a page are drawn.

use vstd::prelude::*;
use crate::bands::{find_pinned_z, find_raster_z, find_text_group_z, Band};
#[allow(unused_imports)]
use crate::bands::{band_views, or_top, pinned_z, raster_z, text_group_z, BandView};
use crate::float_bits::{is_not_positive, rank_of, ONE};
#[allow(unused_imports)]
use crate::float_bits::{not_positive, total_rank};
use crate::ident::{uid_is, uid_to_string};
#[allow(unused_imports)]
use crate::ident::uid_text;
use crate::layers::{LayerGroup, LayerId, LayerStack};
#[allow(unused_imports)]
use crate::layers::{group_views, shown, GroupView, LayerView, StackView};
use crate::order::{stable_order, SortKey};
#[allow(unused_imports)]
use crate::order::{comes_first, sorted_places, sorting_is_stable};
use crate::text_layers::PsTextLayer;
#[allow(unused_imports)]
use crate::text_layers::{text_views, TextView};

verus! {

/// One thing to draw, with its opacity as a bit pattern.
#[derive(Clone, Copy, Debug, PartialEq, Eq, Structural)]
pub enum DrawStep {
    Raster { id: LayerId, opacity: u32 },
    Text { index: usize, opacity: u32 },
}

/// What is drawn, from the bottom to the top: the base layers, and then the rest by height.
pub struct DrawPlan {
    pub base: Vec<DrawStep>,
    pub steps: Vec<DrawStep>,
}

/// The layer is drawn at this opacity.
pub open spec fn drawn(s: StackView, l: LayerView, opacity: u32) -> bool {
    shown(s, l) && !not_positive(opacity)
}

/// The base layers among the first `n` that are drawn.
pub open spec fn base_steps(s: StackView, opacities: Seq<u32>, n: int) -> Seq<DrawStep>
    decreases n,
{
    if n <= 0 {
        Seq::empty()
    } else {
        let l = s.layers[n - 1];
        let prev = base_steps(s, opacities, n - 1);
        if drawn(s, l, opacities[n - 1]) && l.kind.base() {
            prev.push(DrawStep::Raster { id: l.id, opacity: opacities[n - 1] })
        } else {
            prev
        }
    }
}

pub open spec fn height_key(z: u32, y: u32) -> SortKey {
    SortKey { a: z as i64, b: total_rank(y) as i64, place: 0, c: 0, d: 0 }
}

/// The layers of the user among the first `n` that are drawn, with their heights.
pub open spec fn raster_steps(s: StackView, bands: Seq<BandView>, opacities: Seq<u32>, n: int) -> Seq<
    (SortKey, DrawStep),
>
    decreases n,
{
    if n <= 0 {
        Seq::empty()
    } else {
        let l = s.layers[n - 1];
        let prev = raster_steps(s, bands, opacities, n - 1);
        if drawn(s, l, opacities[n - 1]) && !l.kind.base() {
            let z = or_top(raster_z(bands, uid_text(l.uid), bands.len() as int), bands);
            prev.push(
                (height_key(z, 0), DrawStep::Raster { id: l.id, opacity: opacities[n - 1] }),
            )
        } else {
            prev
        }
    }
}

/// The last of the first `n` groups with an identifier.
pub open spec fn last_group(groups: Seq<GroupView>, uid: Seq<char>, n: int) -> Option<GroupView>
    decreases n,
{
    if n <= 0 {
        None
    } else if uid_text(groups[n - 1].uid) == uid {
        Some(groups[n - 1])
    } else {
        last_group(groups, uid, n - 1)
    }
}

/// The opacity that a text has from its group; none where the group hides it.
pub open spec fn folded_opacity(groups: Seq<GroupView>, t: TextView) -> Option<u32> {
    let o = match t.group_uid {
        Some(u) => match last_group(groups, u, groups.len() as int) {
            Some(g) => if g.visible {
                Some(g.opacity)
            } else {
                None
            },
            None => Some(ONE),
        },
        None => Some(ONE),
    };
    if o is Some && not_positive(o->0) {
        None
    } else {
        o
    }
}

/// The height of a text: its own, or that of its group of texts.
pub open spec fn text_z(bands: Seq<BandView>, t: TextView) -> u32 {
    or_top(
        if t.pinned {
            pinned_z(bands, t.uid, bands.len() as int)
        } else {
            text_group_z(bands, t.layer_idx, bands.len() as int)
        },
        bands,
    )
}

/// The texts among the first `n` that are drawn, with their heights.
pub open spec fn text_steps(
    ts: Seq<TextView>,
    groups: Seq<GroupView>,
    bands: Seq<BandView>,
    n: int,
) -> Seq<(SortKey, DrawStep)>
    decreases n,
{
    if n <= 0 {
        Seq::empty()
    } else {
        let t = ts[n - 1];
        let prev = text_steps(ts, groups, bands, n - 1);
        match folded_opacity(groups, t) {
            Some(o) => if t.visible {
                prev.push(
                    (
                        height_key(text_z(bands, t), t.transform.cy),
                        DrawStep::Text { index: (n - 1) as usize, opacity: o },
                    ),
                )
            } else {
                prev
            },
            None => prev,
        }
    }
}

/// Everything above the base layers, with its height.
pub open spec fn all_steps(
    s: StackView,
    ts: Seq<TextView>,
    bands: Seq<BandView>,
    opacities: Seq<u32>,
) -> Seq<(SortKey, DrawStep)> {
    raster_steps(s, bands, opacities, s.layers.len() as int) + text_steps(
        ts,
        s.groups,
        bands,
        ts.len() as int,
    )
}

pub open spec fn step_keys(steps: Seq<(SortKey, DrawStep)>) -> Seq<SortKey> {
    steps.map_values(|p: (SortKey, DrawStep)| p.0)
}

/// The steps by height; at equal height by the page, and then as they came.
pub open spec fn sorted_steps(steps: Seq<(SortKey, DrawStep)>) -> Seq<DrawStep> {
    sorted_places(step_keys(steps), steps.len() as int).map_values(|i: usize| steps[i as int].1)
}

fn find_last_group(groups: &Vec<LayerGroup>, uid: &String) -> (r: Option<(bool, u32)>)
    ensures
        match last_group(group_views(groups@), uid@, groups@.len() as int) {
            Some(g) => r == Some((g.visible, g.opacity)),
            None => r is None,
        },
{
    let ghost gv = group_views(groups@);
    let mut n: usize = groups.len();
    while n > 0
        invariant
            n <= groups@.len(),
            gv == group_views(groups@),
            last_group(gv, uid@, groups@.len() as int) == last_group(gv, uid@, n as int),
        decreases n,
    {
        assert(gv[n - 1] == groups@[n - 1]@);
        if uid_is(groups[n - 1].uid, uid) {
            return Some((groups[n - 1].visible, groups[n - 1].opacity));
        }
        n -= 1;
    }
    None
}

fn fold_opacity(groups: &Vec<LayerGroup>, t: &PsTextLayer) -> (r: Option<u32>)
    ensures
        r == folded_opacity(group_views(groups@), t@),
{
    let o: Option<u32> = match &t.group_uid {
        Some(u) => match find_last_group(groups, u) {
            Some(g) => if g.0 {
                Some(g.1)
            } else {
                None
            },
            None => Some(ONE),
        },
        None => Some(ONE),
    };
    match o {
        Some(v) => if is_not_positive(v) {
            None
        } else {
            Some(v)
        },
        None => None,
    }
}

/// Plans the drawing of a page.  `opacities` holds for every layer its opacity with that of its
/// group folded in.
pub fn plan_composite(
    stack: &LayerStack,
    text_layers: &Vec<PsTextLayer>,
    bands: &Vec<Band>,
    opacities: &Vec<u32>,
) -> (plan: DrawPlan)
    requires
        bands@.len() <= u32::MAX,
        opacities@.len() == stack.layers@.len(),
    ensures
        plan.base@ == base_steps(stack@, opacities@, stack@.layers.len() as int),
        plan.steps@ == sorted_steps(
            all_steps(stack@, text_views(text_layers@), band_views(bands@), opacities@),
        ),
{
    let ghost s = stack@;
    let ghost ts = text_views(text_layers@);
    let ghost bv = band_views(bands@);
    let top: u32 = bands.len() as u32;
    let mut base: Vec<DrawStep> = Vec::new();
    let mut entries: Vec<(SortKey, DrawStep)> = Vec::new();
    let mut i: usize = 0;
    while i < stack.layers.len()
        invariant
            i <= stack.layers@.len(),
            opacities@.len() == stack.layers@.len(),
            s == stack@,
            bv == band_views(bands@),
            top == bv.len(),
            base@ == base_steps(s, opacities@, i as int),
            entries@ == raster_steps(s, bv, opacities@, i as int),
        decreases stack.layers@.len() - i,
    {
        let l = &stack.layers[i];
        assert(s.layers[i as int] == l@);
        let opacity: u32 = opacities[i];
        if stack.layer_visible(i) && !is_not_positive(opacity) {
            let step = DrawStep::Raster { id: l.id, opacity };
            if l.kind.is_base() {
                base.push(step);
            } else {
                let uid = uid_to_string(l.uid);
                let z: u32 = match find_raster_z(bands, &uid) {
                    Some(z) => z,
                    None => top,
                };
                entries.push((SortKey { a: z as i64, b: rank_of(0), place: 0, c: 0, d: 0 }, step));
            }
        }
        i += 1;
    }
    let ghost first = entries@;
    let mut k: usize = 0;
    assert(first + text_steps(ts, s.groups, bv, 0) =~= first);
    assert(text_layers.len() <= usize::MAX);
    while k < text_layers.len()
        invariant
            k <= text_layers@.len(),
            text_layers@.len() <= usize::MAX,
            s == stack@,
            ts == text_views(text_layers@),
            bv == band_views(bands@),
            top == bv.len(),
            entries@ == first + text_steps(ts, s.groups, bv, k as int),
        decreases text_layers@.len() - k,
    {
        let t = &text_layers[k];
        assert(ts[k as int] == t@);
        let ghost before = entries@;
        if t.visible {
            if let Some(opacity) = fold_opacity(&stack.groups, t) {
                let own: Option<u32> = if t.pinned {
                    find_pinned_z(bands, &t.uid)
                } else {
                    find_text_group_z(bands, t.layer_idx)
                };
                let z: u32 = match own {
                    Some(z) => z,
                    None => top,
                };
                let e = (
                    SortKey { a: z as i64, b: rank_of(t.transform.cy), place: 0, c: 0, d: 0 },
                    DrawStep::Text { index: k, opacity },
                );
                entries.push(e);
                assert(entries@ =~= first + text_steps(ts, s.groups, bv, k + 1));
            }
        }
        k += 1;
    }
    let ghost all = entries@;
    let mut keys: Vec<SortKey> = Vec::new();
    let mut n: usize = 0;
    while n < entries.len()
        invariant
            n <= entries@.len(),
            all == entries@,
            keys@ == step_keys(all).take(n as int),
        decreases entries@.len() - n,
    {
        keys.push(entries[n].0);
        n += 1;
        assert(keys@ =~= step_keys(all).take(n as int));
    }
    assert(keys@ =~= step_keys(all));
    let places = stable_order(&keys);
    let ghost target = sorted_steps(all);
    let mut steps: Vec<DrawStep> = Vec::new();
    let mut j: usize = 0;
    while j < places.len()
        invariant
            j <= places@.len(),
            all == entries@,
            places@.len() == entries@.len(),
            forall|q: int| 0 <= q < places@.len() ==> #[trigger] places@[q] < entries@.len(),
            target == places@.map_values(|i: usize| all[i as int].1),
            steps@ == target.take(j as int),
        decreases places@.len() - j,
    {
        steps.push(entries[places[j]].1);
        j += 1;
        assert(steps@ =~= target.take(j as int));
    }
    assert(target.take(target.len() as int) =~= target);
    DrawPlan { base, steps }
}

/// What is drawn later never lies lower: of two steps the one with the lower height comes first,
/// and at equal height the one that is higher on the page.
pub proof fn drawing_goes_upwards(steps: Seq<(SortKey, DrawStep)>, i: int, j: int)
    requires
        steps.len() <= usize::MAX,
        0 <= i < j < steps.len(),
    ensures
        ({
            let p = sorted_places(step_keys(steps), steps.len() as int);
            !steps[p[j] as int].0.before(steps[p[i] as int].0)
        }),
{
    let keys = step_keys(steps);
    let p = sorted_places(keys, steps.len() as int);
    sorting_is_stable(keys, steps.len() as int);
    assert(comes_first(keys, p[i] as int, p[j] as int));
}

} // verus!
