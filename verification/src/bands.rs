//! The order of the layers of a page: the places of rasters and texts, and how they move.

use vstd::prelude::*;
#[allow(unused_imports)]
use crate::ident::{opt_text, uid_text};
use crate::ident::uid_to_string;
use crate::layers::{LayerId, LayerStack};
#[allow(unused_imports)]
use crate::layers::{layer_called, LayerView, StackView};

verus! {

/// A place in the order of a page, counted from the bottom.
pub enum Band {
    Raster { uid: String, z: u32 },
    TextGroup { layer_idx: u32, z: u32 },
    PinnedText { uid: String, z: u32 },
}

/// A place as a mathematical value.
pub enum BandView {
    Raster { uid: Seq<char>, z: u32 },
    TextGroup { layer_idx: u32, z: u32 },
    PinnedText { uid: Seq<char>, z: u32 },
}

impl View for Band {
    type V = BandView;

    open spec fn view(&self) -> BandView {
        match self {
            Band::Raster { uid, z } => BandView::Raster { uid: uid@, z: *z },
            Band::TextGroup { layer_idx, z } => BandView::TextGroup { layer_idx: *layer_idx, z: *z },
            Band::PinnedText { uid, z } => BandView::PinnedText { uid: uid@, z: *z },
        }
    }
}

pub open spec fn band_views(v: Seq<Band>) -> Seq<BandView> {
    v.map_values(|b: Band| b@)
}

/// What has a place in the order of a page.
pub enum BandRef {
    Raster(String),
    TextGroup(u32),
    PinnedText(String),
}

/// What has a place, as a mathematical value.
pub enum RefView {
    Raster(Seq<char>),
    TextGroup(u32),
    PinnedText(Seq<char>),
}

impl View for BandRef {
    type V = RefView;

    open spec fn view(&self) -> RefView {
        match self {
            BandRef::Raster(uid) => RefView::Raster(uid@),
            BandRef::TextGroup(i) => RefView::TextGroup(*i),
            BandRef::PinnedText(uid) => RefView::PinnedText(uid@),
        }
    }
}

pub open spec fn ref_views(v: Seq<BandRef>) -> Seq<RefView> {
    v.map_values(|b: BandRef| b@)
}

/// What stands at a place.
pub open spec fn band_ref(b: BandView) -> RefView {
    match b {
        BandView::Raster { uid, .. } => RefView::Raster(uid),
        BandView::TextGroup { layer_idx, .. } => RefView::TextGroup(layer_idx),
        BandView::PinnedText { uid, .. } => RefView::PinnedText(uid),
    }
}

impl Band {
    pub fn to_ref(&self) -> (r: BandRef)
        ensures
            r@ == band_ref(self@),
    {
        match self {
            Band::Raster { uid, .. } => BandRef::Raster(uid.clone()),
            Band::TextGroup { layer_idx, .. } => BandRef::TextGroup(*layer_idx),
            Band::PinnedText { uid, .. } => BandRef::PinnedText(uid.clone()),
        }
    }
}

impl BandRef {
    pub fn copied(&self) -> (r: BandRef)
        ensures
            r@ == self@,
    {
        match self {
            BandRef::Raster(uid) => BandRef::Raster(uid.clone()),
            BandRef::TextGroup(i) => BandRef::TextGroup(*i),
            BandRef::PinnedText(uid) => BandRef::PinnedText(uid.clone()),
        }
    }

    pub fn same(&self, other: &BandRef) -> (r: bool)
        ensures
            r == (self@ == other@),
    {
        match (self, other) {
            (BandRef::Raster(a), BandRef::Raster(b)) => *a == *b,
            (BandRef::TextGroup(a), BandRef::TextGroup(b)) => *a == *b,
            (BandRef::PinnedText(a), BandRef::PinnedText(b)) => *a == *b,
            _ => false,
        }
    }
}

/// The last of the first `n` places of a raster.
pub open spec fn raster_z(bands: Seq<BandView>, uid: Seq<char>, n: int) -> Option<u32>
    decreases n,
{
    if n <= 0 {
        None
    } else {
        match bands[n - 1] {
            BandView::Raster { uid: u, z } => if u == uid {
                Some(z)
            } else {
                raster_z(bands, uid, n - 1)
            },
            _ => raster_z(bands, uid, n - 1),
        }
    }
}

/// The last of the first `n` places of a group of texts.
pub open spec fn text_group_z(bands: Seq<BandView>, layer_idx: u32, n: int) -> Option<u32>
    decreases n,
{
    if n <= 0 {
        None
    } else {
        match bands[n - 1] {
            BandView::TextGroup { layer_idx: i, z } => if i == layer_idx {
                Some(z)
            } else {
                text_group_z(bands, layer_idx, n - 1)
            },
            _ => text_group_z(bands, layer_idx, n - 1),
        }
    }
}

/// The last of the first `n` places of a text of its own.
pub open spec fn pinned_z(bands: Seq<BandView>, uid: Seq<char>, n: int) -> Option<u32>
    decreases n,
{
    if n <= 0 {
        None
    } else {
        match bands[n - 1] {
            BandView::PinnedText { uid: u, z } => if u == uid {
                Some(z)
            } else {
                pinned_z(bands, uid, n - 1)
            },
            _ => pinned_z(bands, uid, n - 1),
        }
    }
}

/// The number, or the place on top of everything.
pub open spec fn or_top(z: Option<u32>, bands: Seq<BandView>) -> u32 {
    match z {
        Some(v) => v,
        None => bands.len() as u32,
    }
}

pub fn find_raster_z(bands: &Vec<Band>, uid: &String) -> (r: Option<u32>)
    ensures
        r == raster_z(band_views(bands@), uid@, bands@.len() as int),
{
    let ghost bv = band_views(bands@);
    let mut n: usize = bands.len();
    while n > 0
        invariant
            n <= bands@.len(),
            bv == band_views(bands@),
            raster_z(bv, uid@, bands@.len() as int) == raster_z(bv, uid@, n as int),
        decreases n,
    {
        assert(bv[n - 1] == bands@[n - 1]@);
        if let Band::Raster { uid: u, z } = &bands[n - 1] {
            if *u == *uid {
                return Some(*z);
            }
        }
        n -= 1;
    }
    None
}

pub fn find_text_group_z(bands: &Vec<Band>, layer_idx: u32) -> (r: Option<u32>)
    ensures
        r == text_group_z(band_views(bands@), layer_idx, bands@.len() as int),
{
    let ghost bv = band_views(bands@);
    let mut n: usize = bands.len();
    while n > 0
        invariant
            n <= bands@.len(),
            bv == band_views(bands@),
            text_group_z(bv, layer_idx, bands@.len() as int) == text_group_z(
                bv,
                layer_idx,
                n as int,
            ),
        decreases n,
    {
        assert(bv[n - 1] == bands@[n - 1]@);
        if let Band::TextGroup { layer_idx: i, z } = &bands[n - 1] {
            if *i == layer_idx {
                return Some(*z);
            }
        }
        n -= 1;
    }
    None
}

pub fn find_pinned_z(bands: &Vec<Band>, uid: &String) -> (r: Option<u32>)
    ensures
        r == pinned_z(band_views(bands@), uid@, bands@.len() as int),
{
    let ghost bv = band_views(bands@);
    let mut n: usize = bands.len();
    while n > 0
        invariant
            n <= bands@.len(),
            bv == band_views(bands@),
            pinned_z(bv, uid@, bands@.len() as int) == pinned_z(bv, uid@, n as int),
        decreases n,
    {
        assert(bv[n - 1] == bands@[n - 1]@);
        if let Band::PinnedText { uid: u, z } = &bands[n - 1] {
            if *u == *uid {
                return Some(*z);
            }
        }
        n -= 1;
    }
    None
}

/// The first place of a raster, searched from `i` on; zero if it has none.
pub open spec fn first_raster_z(bands: Seq<BandView>, uid: Seq<char>, i: int) -> u32
    decreases bands.len() - i,
{
    if i < 0 || i >= bands.len() {
        0
    } else {
        match bands[i] {
            BandView::Raster { uid: u, z } => if u == uid {
                z
            } else {
                first_raster_z(bands, uid, i + 1)
            },
            _ => first_raster_z(bands, uid, i + 1),
        }
    }
}

/// The place of a raster; zero if it has none yet.
pub fn raster_band_z(bands: &Vec<Band>, uid: &String) -> (z: u32)
    ensures
        z == first_raster_z(band_views(bands@), uid@, 0),
{
    let ghost bv = band_views(bands@);
    let mut i: usize = 0;
    while i < bands.len()
        invariant
            i <= bands@.len(),
            bv == band_views(bands@),
            first_raster_z(bv, uid@, 0) == first_raster_z(bv, uid@, i as int),
        decreases bands@.len() - i,
    {
        assert(bv[i as int] == bands@[i as int]@);
        if let Band::Raster { uid: u, z } = &bands[i] {
            if *u == *uid {
                return *z;
            }
        }
        i += 1;
    }
    0
}

pub open spec fn pair_views(v: Seq<(String, u32)>) -> Seq<(Seq<char>, u32)> {
    v.map_values(|p: (String, u32)| (p.0@, p.1))
}

/// The place of the first entry with an identifier, searched from `i` on.
pub open spec fn listed_z(rs: Seq<(Seq<char>, u32)>, uid: Seq<char>, i: int) -> Option<u32>
    decreases rs.len() - i,
{
    if i < 0 || i >= rs.len() {
        None
    } else if rs[i].0 == uid {
        Some(rs[i].1)
    } else {
        listed_z(rs, uid, i + 1)
    }
}

/// The highest of the first `n` entries below a place, the earliest of several.
pub open spec fn best_below(rs: Seq<(Seq<char>, u32)>, uid: Seq<char>, z: u32, n: int) -> Option<int>
    decreases n,
{
    if n <= 0 {
        None
    } else {
        let prev = best_below(rs, uid, z, n - 1);
        if rs[n - 1].0 != uid && rs[n - 1].1 < z && (prev is None || rs[prev->0].1 < rs[n - 1].1) {
            Some(n - 1)
        } else {
            prev
        }
    }
}

/// The raster directly beneath a raster of the list.
pub open spec fn below_in(rs: Seq<(Seq<char>, u32)>, uid: Seq<char>) -> Option<Seq<char>> {
    match listed_z(rs, uid, 0) {
        Some(z) => match best_below(rs, uid, z, rs.len() as int) {
            Some(i) => Some(rs[i].0),
            None => None,
        },
        None => None,
    }
}

/// The raster found beneath another lies strictly lower, none lies between the two, and of those
/// at its height it is the first of the list.  There is none exactly where nothing lies lower.
pub proof fn beneath_is_nearest(rs: Seq<(Seq<char>, u32)>, uid: Seq<char>, z: u32, n: int)
    requires
        0 <= n <= rs.len(),
    ensures
        match best_below(rs, uid, z, n) {
            Some(i) => {
                &&& 0 <= i < n
                &&& rs[i].0 != uid
                &&& rs[i].1 < z
                &&& forall|j: int|
                    0 <= j < n && (#[trigger] rs[j]).0 != uid && rs[j].1 < z ==> rs[j].1 < rs[i].1
                        || (rs[j].1 == rs[i].1 && i <= j)
            },
            None => forall|j: int| 0 <= j < n && (#[trigger] rs[j]).0 != uid ==> rs[j].1 >= z,
        },
    decreases n,
{
    if n > 0 {
        beneath_is_nearest(rs, uid, z, n - 1);
    }
}

/// The raster that lies directly beneath another in the order of the page.
pub fn raster_below_by_band_z(rasters: &Vec<(String, u32)>, target_uid: &str) -> (r: Option<String>)
    ensures
        opt_text(r) == below_in(pair_views(rasters@), target_uid@),
{
    let ghost rs = pair_views(rasters@);
    let uid: String = target_uid.to_owned();
    let mut i: usize = 0;
    let mut found: Option<u32> = None;
    while i < rasters.len() && found.is_none()
        invariant
            i <= rasters@.len(),
            rs == pair_views(rasters@),
            uid@ == target_uid@,
            match found {
                Some(z) => listed_z(rs, uid@, 0) == Some(z),
                None => listed_z(rs, uid@, 0) == listed_z(rs, uid@, i as int),
            },
        decreases rasters@.len() - i, (found is None) as int,
    {
        if rasters[i].0 == uid {
            found = Some(rasters[i].1);
        } else {
            i += 1;
        }
    }
    let z: u32 = match found {
        Some(z) => z,
        None => {
            return None;
        },
    };
    let mut best: Option<usize> = None;
    let mut n: usize = 0;
    while n < rasters.len()
        invariant
            n <= rasters@.len(),
            rs == pair_views(rasters@),
            match best {
                Some(b) => b < rasters@.len() && best_below(rs, uid@, z, n as int) == Some(b as int),
                None => best_below(rs, uid@, z, n as int) is None,
            },
        decreases rasters@.len() - n,
    {
        let entry = &rasters[n];
        if !(entry.0 == uid) && entry.1 < z {
            let better = match best {
                Some(b) => rasters[b].1 < entry.1,
                None => true,
            };
            if better {
                best = Some(n);
            }
        }
        n += 1;
    }
    match best {
        Some(b) => Some(rasters[b].0.clone()),
        None => None,
    }
}

/// The layers of the user with their places, in the order of the stack.
pub open spec fn raster_places(layers: Seq<LayerView>, bands: Seq<BandView>, n: int) -> Seq<
    (Seq<char>, u32),
>
    decreases n,
{
    if n <= 0 {
        Seq::empty()
    } else {
        let prev = raster_places(layers, bands, n - 1);
        if layers[n - 1].kind.base() {
            prev
        } else {
            let uid = uid_text(layers[n - 1].uid);
            prev.push((uid, or_top(raster_z(bands, uid, bands.len() as int), bands)))
        }
    }
}

pub fn non_base_rasters_by_band_z(stack: &LayerStack, bands: &Vec<Band>) -> (r: Vec<(String, u32)>)
    requires
        bands@.len() <= u32::MAX,
    ensures
        pair_views(r@) == raster_places(
            stack@.layers,
            band_views(bands@),
            stack@.layers.len() as int,
        ),
{
    let mut out: Vec<(String, u32)> = Vec::new();
    let top: u32 = bands.len() as u32;
    let ghost bv = band_views(bands@);
    let ghost ls = stack@.layers;
    let mut i: usize = 0;
    while i < stack.layers.len()
        invariant
            i <= stack.layers@.len(),
            bv == band_views(bands@),
            ls == stack@.layers,
            top == bv.len(),
            pair_views(out@) == raster_places(ls, bv, i as int),
        decreases stack.layers@.len() - i,
    {
        let l = &stack.layers[i];
        let ghost before = out@;
        assert(ls[i as int] == l@);
        if !l.kind.is_base() {
            let uid = uid_to_string(l.uid);
            let z: u32 = match find_raster_z(bands, &uid) {
                Some(z) => z,
                None => top,
            };
            let ghost entry = (uid@, z);
            out.push((uid, z));
            assert(pair_views(out@) =~= pair_views(before).push(entry));
        }
        i += 1;
    }
    out
}

/// The raster directly beneath a layer of the user.
pub open spec fn beneath(s: StackView, bands: Seq<BandView>, id: LayerId) -> Option<Seq<char>> {
    match layer_called(s.layers, id) {
        Some(l) => if l.kind.base() {
            None
        } else {
            below_in(raster_places(s.layers, bands, s.layers.len() as int), uid_text(l.uid))
        },
        None => None,
    }
}

pub fn raster_below_uid(stack: &LayerStack, bands: &Vec<Band>, id: LayerId) -> (r: Option<String>)
    requires
        bands@.len() <= u32::MAX,
    ensures
        opt_text(r) == beneath(stack@, band_views(bands@), id),
{
    match stack.layer(id) {
        Some(l) => {
            if l.kind.is_base() {
                return None;
            }
            let uid = uid_to_string(l.uid);
            raster_below_by_band_z(&non_base_rasters_by_band_z(stack, bands), uid.as_str())
        },
        None => None,
    }
}

/// A layer can be merged down where a raster lies beneath it.
pub fn is_mergeable(stack: &LayerStack, bands: &Vec<Band>, id: LayerId) -> (b: bool)
    requires
        bands@.len() <= u32::MAX,
    ensures
        b == (beneath(stack@, band_views(bands@), id) is Some),
{
    raster_below_uid(stack, bands, id).is_some()
}

} // verus!
