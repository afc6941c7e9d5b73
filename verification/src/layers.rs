//! The layers of a page: placements, meshes, groups and the stack they form.

use vstd::prelude::*;
use vstd::string::StringExecFns;
use crate::color::{Color, ColorImage};
#[allow(unused_imports)]
use crate::color::clear;
use crate::float_bits::{half_bits, numbers_equal, ONE, ZERO};
#[allow(unused_imports)]
use crate::float_bits::{half_pattern, same_number};
use crate::ident::{uid_is, uid_to_string};
#[allow(unused_imports)]
use crate::ident::{opt_text, uid_text};
use crate::json::copy_documents;
#[allow(unused_imports)]
use crate::json::{all_of, Json};
use crate::raster::Raster;
#[allow(unused_imports)]
use crate::raster::{grid_of, Grid};
use crate::text::append_decimal;
#[allow(unused_imports)]
use crate::text::decimal;

verus! {

pub type LayerId = u64;

pub type GroupId = u64;

/// The placement of a layer on its page: its centre in page pixels, its rotation in radians and
/// its scale, each as a bit pattern.
#[derive(Clone, Copy, Debug, PartialEq, Eq, Structural)]
pub struct LayerTransform {
    pub cx: u32,
    pub cy: u32,
    pub rotation: u32,
    pub scale: u32,
}

/// The stored form of a placement.
#[derive(Clone, Copy, Debug, PartialEq, Eq, Structural)]
pub struct TransformRec {
    pub cx: u32,
    pub cy: u32,
    pub rotation: u32,
    pub scale: u32,
}

/// The two placements hold equal numbers.
pub open spec fn same_placement(a: LayerTransform, b: LayerTransform) -> bool {
    &&& same_number(a.cx, b.cx)
    &&& same_number(a.cy, b.cy)
    &&& same_number(a.rotation, b.rotation)
    &&& same_number(a.scale, b.scale)
}

pub fn placements_equal(a: LayerTransform, b: LayerTransform) -> (r: bool)
    ensures
        r == same_placement(a, b),
{
    numbers_equal(a.cx, b.cx) && numbers_equal(a.cy, b.cy) && numbers_equal(a.rotation, b.rotation)
        && numbers_equal(a.scale, b.scale)
}

/// The placement of a picture that covers the page from its top left corner.
pub open spec fn identity_placement(w: int, h: int) -> LayerTransform {
    LayerTransform {
        cx: half_pattern(w as nat) as u32,
        cy: half_pattern(h as nat) as u32,
        rotation: ZERO,
        scale: ONE,
    }
}

impl LayerTransform {
    pub fn identity_for(w: usize, h: usize) -> (t: LayerTransform)
        ensures
            t == identity_placement(w as int, h as int),
    {
        LayerTransform { cx: half_bits(w), cy: half_bits(h), rotation: ZERO, scale: ONE }
    }
}

/// The stored form of a placement.
pub open spec fn stored_placement(t: LayerTransform) -> TransformRec {
    TransformRec { cx: t.cx, cy: t.cy, rotation: t.rotation, scale: t.scale }
}

/// The placement that a stored form stands for.
pub open spec fn loaded_placement(r: TransformRec) -> LayerTransform {
    LayerTransform { cx: r.cx, cy: r.cy, rotation: r.rotation, scale: r.scale }
}

pub fn transform_to_rec(t: LayerTransform) -> (r: TransformRec)
    ensures
        r == stored_placement(t),
{
    TransformRec { cx: t.cx, cy: t.cy, rotation: t.rotation, scale: t.scale }
}

pub fn rec_to_transform(r: TransformRec) -> (t: LayerTransform)
    ensures
        t == loaded_placement(r),
{
    LayerTransform { cx: r.cx, cy: r.cy, rotation: r.rotation, scale: r.scale }
}

/// Storing a placement and loading it again changes nothing, and neither does the reverse.
pub proof fn storing_keeps_placements(t: LayerTransform, r: TransformRec)
    ensures
        loaded_placement(stored_placement(t)) == t,
        stored_placement(loaded_placement(r)) == r,
{
}

/// The pair in 32-bit numbers, if both fit.
pub fn usize_pair_to_u32(pair: (usize, usize)) -> (r: Option<(u32, u32)>)
    ensures
        r is Some <==> pair.0 <= u32::MAX && pair.1 <= u32::MAX,
        r is Some ==> (r->0).0 == pair.0 && (r->0).1 == pair.1,
{
    if pair.0 <= u32::MAX as usize && pair.1 <= u32::MAX as usize {
        Some((pair.0 as u32, pair.1 as u32))
    } else {
        None
    }
}

/// A control point of a mesh in page pixels, as bit patterns.
#[derive(Clone, Copy, Debug, PartialEq, Eq, Structural)]
pub struct DeformPoint {
    pub x: u32,
    pub y: u32,
}

/// A mesh of control points, row by row.
pub struct DeformRec {
    pub cols: usize,
    pub rows: usize,
    pub points_px: Vec<DeformPoint>,
}

/// A mesh as a mathematical value.
#[verifier::ext_equal]
pub struct DeformView {
    pub cols: usize,
    pub rows: usize,
    pub points: Seq<DeformPoint>,
}

impl View for DeformRec {
    type V = DeformView;

    open spec fn view(&self) -> DeformView {
        DeformView { cols: self.cols, rows: self.rows, points: self.points_px@ }
    }
}

pub open spec fn deform_view(d: Option<DeformRec>) -> Option<DeformView> {
    match d {
        Some(m) => Some(m@),
        None => None,
    }
}

impl DeformRec {
    pub fn copied(&self) -> (r: DeformRec)
        ensures
            r@ == self@,
    {
        let mut points_px: Vec<DeformPoint> = Vec::new();
        let mut i: usize = 0;
        while i < self.points_px.len()
            invariant
                i <= self.points_px@.len(),
                points_px@ == self.points_px@.take(i as int),
            decreases self.points_px@.len() - i,
        {
            points_px.push(self.points_px[i]);
            i += 1;
            assert(points_px@ =~= self.points_px@.take(i as int));
        }
        assert(points_px@ =~= self.points_px@);
        DeformRec { cols: self.cols, rows: self.rows, points_px }
    }
}

pub fn copy_deform(d: &Option<DeformRec>) -> (r: Option<DeformRec>)
    ensures
        deform_view(r) == deform_view(*d),
{
    match d {
        Some(m) => Some(m.copied()),
        None => None,
    }
}

/// The meshes have the same sides and equal points.
pub open spec fn same_mesh(a: DeformView, b: DeformView) -> bool {
    &&& a.cols == b.cols
    &&& a.rows == b.rows
    &&& a.points.len() == b.points.len()
    &&& forall|i: int|
        0 <= i < a.points.len() ==> same_number((#[trigger] a.points[i]).x, b.points[i].x)
            && same_number(a.points[i].y, b.points[i].y)
}

/// Both meshes are absent, or both are there and the same.
pub open spec fn same_deform(a: Option<DeformView>, b: Option<DeformView>) -> bool {
    match (a, b) {
        (None, None) => true,
        (Some(x), Some(y)) => same_mesh(x, y),
        _ => false,
    }
}

pub fn deform_eq(a: &Option<DeformRec>, b: &Option<DeformRec>) -> (r: bool)
    ensures
        r == same_deform(deform_view(*a), deform_view(*b)),
{
    match (a, b) {
        (None, None) => true,
        (Some(x), Some(y)) => {
            if x.cols != y.cols || x.rows != y.rows || x.points_px.len() != y.points_px.len() {
                return false;
            }
            let mut i: usize = 0;
            while i < x.points_px.len()
                invariant
                    i <= x.points_px@.len(),
                    x.points_px@.len() == y.points_px@.len(),
                    deform_view(*a) == Some(x@),
                    deform_view(*b) == Some(y@),
                    forall|k: int|
                        0 <= k < i ==> same_number(
                            (#[trigger] x@.points[k]).x,
                            y@.points[k].x,
                        ) && same_number(x@.points[k].y, y@.points[k].y),
                decreases x.points_px@.len() - i,
            {
                let p = x.points_px[i];
                let q = y.points_px[i];
                if !(numbers_equal(p.x, q.x) && numbers_equal(p.y, q.y)) {
                    assert(x@.points[i as int] == p);
                    return false;
                }
                i += 1;
            }
            true
        },
        _ => false,
    }
}

#[derive(Clone, Copy, Debug, PartialEq, Eq, Structural)]
pub enum LayerKind {
    /// The page as it was scanned.
    Source,
    /// The cleaned overlay.
    Clean,
    /// A layer of the user.
    Raster,
}

impl LayerKind {
    pub open spec fn base(self) -> bool {
        self != LayerKind::Raster
    }

    pub fn is_base(self) -> (b: bool)
        ensures
            b == self.base(),
    {
        self != LayerKind::Raster
    }
}

/// One layer of a page.
pub struct Layer {
    pub id: LayerId,
    pub uid: u128,
    pub name: String,
    pub kind: LayerKind,
    /// The pixels that are shown.
    pub image: ColorImage,
    /// The pixels before effects.
    pub base_image: ColorImage,
    pub visible: bool,
    /// The opacity as a bit pattern.
    pub opacity: u32,
    pub transform: LayerTransform,
    pub deform: Option<DeformRec>,
    pub group: Option<GroupId>,
    pub effects: Vec<serde_json::Value>,
    pub pixels_dirty: bool,
}

/// A layer as a mathematical value.
#[verifier::ext_equal]
pub struct LayerView {
    pub id: LayerId,
    pub uid: u128,
    pub name: Seq<char>,
    pub kind: LayerKind,
    pub image: Grid<Color>,
    pub base_image: Grid<Color>,
    pub visible: bool,
    pub opacity: u32,
    pub transform: LayerTransform,
    pub deform: Option<DeformView>,
    pub group: Option<GroupId>,
    pub effects: Seq<Json>,
    pub pixels_dirty: bool,
}

impl View for Layer {
    type V = LayerView;

    open spec fn view(&self) -> LayerView {
        LayerView {
            id: self.id,
            uid: self.uid,
            name: self.name@,
            kind: self.kind,
            image: self.image@,
            base_image: self.base_image@,
            visible: self.visible,
            opacity: self.opacity,
            transform: self.transform,
            deform: deform_view(self.deform),
            group: self.group,
            effects: all_of(self.effects@),
            pixels_dirty: self.pixels_dirty,
        }
    }
}

impl LayerView {
    pub open spec fn valid(self) -> bool {
        self.image.valid() && self.base_image.valid()
    }

    /// A layer of the user without effects can be painted on.
    pub open spec fn editable(self) -> bool {
        self.kind == LayerKind::Raster && self.effects.len() == 0
    }

    /// A layer of the user with this identifier.
    pub open spec fn raster_called(self, uid: Seq<char>) -> bool {
        self.kind == LayerKind::Raster && uid_text(self.uid) == uid
    }
}

impl Layer {
    pub open spec fn wf(&self) -> bool {
        self@.valid()
    }

    pub fn copied(&self) -> (r: Layer)
        ensures
            r@ == self@,
    {
        Layer {
            id: self.id,
            uid: self.uid,
            name: self.name.clone(),
            kind: self.kind,
            image: self.image.copied(),
            base_image: self.base_image.copied(),
            visible: self.visible,
            opacity: self.opacity,
            transform: self.transform,
            deform: copy_deform(&self.deform),
            group: self.group,
            effects: copy_documents(&self.effects),
            pixels_dirty: self.pixels_dirty,
        }
    }

    pub fn can_edit_pixels(&self) -> (b: bool)
        ensures
            b == self@.editable(),
    {
        self.kind == LayerKind::Raster && self.effects.len() == 0
    }

    pub fn is_raster_called(&self, uid: &String) -> (b: bool)
        ensures
            b == self@.raster_called(uid@),
    {
        self.kind == LayerKind::Raster && uid_is(self.uid, uid)
    }
}

/// A group of layers.
pub struct LayerGroup {
    pub id: GroupId,
    pub uid: u128,
    pub name: String,
    pub visible: bool,
    /// The opacity as a bit pattern.
    pub opacity: u32,
    pub collapsed: bool,
}

/// A group as a mathematical value.
#[verifier::ext_equal]
pub struct GroupView {
    pub id: GroupId,
    pub uid: u128,
    pub name: Seq<char>,
    pub visible: bool,
    pub opacity: u32,
    pub collapsed: bool,
}

impl View for LayerGroup {
    type V = GroupView;

    open spec fn view(&self) -> GroupView {
        GroupView {
            id: self.id,
            uid: self.uid,
            name: self.name@,
            visible: self.visible,
            opacity: self.opacity,
            collapsed: self.collapsed,
        }
    }
}

/// The layers of one page from the bottom to the top: first the scanned page and the cleaned
/// overlay, then the layers of the user.
pub struct LayerStack {
    pub page_idx: usize,
    pub w: usize,
    pub h: usize,
    pub layers: Vec<Layer>,
    pub groups: Vec<LayerGroup>,
    pub active: LayerId,
    pub next_layer_id: LayerId,
    pub next_group_id: GroupId,
}

/// A stack as a mathematical value.
#[verifier::ext_equal]
pub struct StackView {
    pub page_idx: usize,
    pub w: usize,
    pub h: usize,
    pub layers: Seq<LayerView>,
    pub groups: Seq<GroupView>,
    pub active: LayerId,
    pub next_layer_id: LayerId,
    pub next_group_id: GroupId,
}

pub open spec fn layer_views(v: Seq<Layer>) -> Seq<LayerView> {
    v.map_values(|l: Layer| l@)
}

pub open spec fn group_views(v: Seq<LayerGroup>) -> Seq<GroupView> {
    v.map_values(|g: LayerGroup| g@)
}

impl View for LayerStack {
    type V = StackView;

    open spec fn view(&self) -> StackView {
        StackView {
            page_idx: self.page_idx,
            w: self.w,
            h: self.h,
            layers: layer_views(self.layers@),
            groups: group_views(self.groups@),
            active: self.active,
            next_layer_id: self.next_layer_id,
            next_group_id: self.next_group_id,
        }
    }
}

/// The place of the first layer with an id, searched from `i` on.
pub open spec fn layer_from(layers: Seq<LayerView>, id: LayerId, i: int) -> Option<int>
    decreases layers.len() - i,
{
    if i < 0 || i >= layers.len() {
        None
    } else if layers[i].id == id {
        Some(i)
    } else {
        layer_from(layers, id, i + 1)
    }
}

/// The layer with an id.
pub open spec fn layer_called(layers: Seq<LayerView>, id: LayerId) -> Option<LayerView> {
    match layer_from(layers, id, 0) {
        Some(i) => Some(layers[i]),
        None => None,
    }
}

/// The place of the first layer of the user with an identifier, searched from `i` on.
pub open spec fn raster_from(layers: Seq<LayerView>, uid: Seq<char>, i: int) -> Option<int>
    decreases layers.len() - i,
{
    if i < 0 || i >= layers.len() {
        None
    } else if layers[i].raster_called(uid) {
        Some(i)
    } else {
        raster_from(layers, uid, i + 1)
    }
}

/// The place of the first group with an identifier, searched from `i` on.
pub open spec fn group_from(groups: Seq<GroupView>, uid: Seq<char>, i: int) -> Option<int>
    decreases groups.len() - i,
{
    if i < 0 || i >= groups.len() {
        None
    } else if uid_text(groups[i].uid) == uid {
        Some(i)
    } else {
        group_from(groups, uid, i + 1)
    }
}

/// The place of the first group with an id, searched from `i` on.
pub open spec fn group_id_from(groups: Seq<GroupView>, id: GroupId, i: int) -> Option<int>
    decreases groups.len() - i,
{
    if i < 0 || i >= groups.len() {
        None
    } else if groups[i].id == id {
        Some(i)
    } else {
        group_id_from(groups, id, i + 1)
    }
}

pub proof fn lemma_layer_from(layers: Seq<LayerView>, id: LayerId, i: int)
    requires
        0 <= i,
    ensures
        match layer_from(layers, id, i) {
            Some(k) => i <= k < layers.len() && layers[k].id == id,
            None => forall|k: int| i <= k < layers.len() ==> (#[trigger] layers[k]).id != id,
        },
    decreases layers.len() - i,
{
    if i < layers.len() && layers[i].id != id {
        lemma_layer_from(layers, id, i + 1);
    }
}

pub proof fn lemma_raster_from(layers: Seq<LayerView>, uid: Seq<char>, i: int)
    requires
        0 <= i,
    ensures
        match raster_from(layers, uid, i) {
            Some(k) => i <= k < layers.len() && layers[k].raster_called(uid),
            None => forall|k: int|
                i <= k < layers.len() ==> !(#[trigger] layers[k]).raster_called(uid),
        },
    decreases layers.len() - i,
{
    if i < layers.len() && !layers[i].raster_called(uid) {
        lemma_raster_from(layers, uid, i + 1);
    }
}

impl StackView {
    /// The two base layers are at the bottom, ids are unique, and every picture is whole.
    pub open spec fn valid(self) -> bool {
        &&& self.w * self.h <= usize::MAX
        &&& self.layers.len() >= 2
        &&& self.layers[0].kind == LayerKind::Source
        &&& self.layers[1].kind == LayerKind::Clean
        &&& forall|i: int|
            2 <= i < self.layers.len() ==> (#[trigger] self.layers[i]).kind == LayerKind::Raster
        &&& forall|i: int| 0 <= i < self.layers.len() ==> (#[trigger] self.layers[i]).valid()
        &&& forall|i: int|
            0 <= i < self.layers.len() ==> (#[trigger] self.layers[i]).id < self.next_layer_id
        &&& forall|i: int, j: int|
            0 <= i < j < self.layers.len() ==> (#[trigger] self.layers[i]).id != (
            #[trigger] self.layers[j]).id
        &&& forall|i: int|
            0 <= i < self.groups.len() ==> (#[trigger] self.groups[i]).id < self.next_group_id
        &&& forall|i: int, j: int|
            0 <= i < j < self.groups.len() ==> (#[trigger] self.groups[i]).id != (
            #[trigger] self.groups[j]).id
    }

    pub open spec fn has_layer(self, id: LayerId) -> bool {
        layer_from(self.layers, id, 0) is Some
    }

    /// The stack with a layer of the user added on top and made active.
    pub open spec fn with_raster(self, layer: LayerView) -> StackView {
        StackView {
            layers: self.layers.push(layer),
            active: layer.id,
            next_layer_id: (self.next_layer_id + 1) as u64,
            ..self
        }
    }
}

/// A fresh layer of the user.
pub open spec fn new_raster(
    id: LayerId,
    uid: u128,
    name: Seq<char>,
    image: Grid<Color>,
    transform: LayerTransform,
) -> LayerView {
    LayerView {
        id,
        uid,
        name,
        kind: LayerKind::Raster,
        image,
        base_image: image,
        visible: true,
        opacity: ONE,
        transform,
        deform: None,
        group: None,
        effects: Seq::empty(),
        pixels_dirty: true,
    }
}

/// A layer added on top leaves a stack whole.
pub proof fn lemma_with_raster(s: StackView, l: LayerView)
    requires
        s.valid(),
        l.valid(),
        l.kind == LayerKind::Raster,
        l.id == s.next_layer_id,
        s.next_layer_id < u64::MAX,
    ensures
        s.with_raster(l).valid(),
{
    let t = s.with_raster(l);
    assert(t.layers[0] == s.layers[0] && t.layers[1] == s.layers[1]);
    assert forall|i: int| 0 <= i < t.layers.len() implies (#[trigger] t.layers[i]).valid()
        && t.layers[i].id < t.next_layer_id && (i >= 2 ==> t.layers[i].kind
        == LayerKind::Raster) by {
        if i < s.layers.len() {
            assert(t.layers[i] == s.layers[i]);
        }
    }
    assert forall|i: int, j: int| 0 <= i < j < t.layers.len() implies (#[trigger] t.layers[i]).id
        != (#[trigger] t.layers[j]).id by {
        assert(t.layers[i] == s.layers[i]);
        if j < s.layers.len() {
            assert(t.layers[j] == s.layers[j]);
        }
    }
}

/// How many of the layers are layers of the user.
pub open spec fn rasters_in(layers: Seq<LayerView>) -> nat
    decreases layers.len(),
{
    if layers.len() == 0 {
        0
    } else {
        rasters_in(layers.drop_last()) + if layers.last().kind == LayerKind::Raster {
            1nat
        } else {
            0nat
        }
    }
}

/// A base layer of a page, where the page has it.
pub open spec fn base_view(id: LayerId, kind: LayerKind, name: Seq<char>, image: Grid<Color>) -> LayerView {
    LayerView {
        kind,
        uid: id as u128,
        pixels_dirty: false,
        ..new_raster(id, id as u128, name, image, identity_placement(image.w, image.h))
    }
}

/// The stack of a page that has only its two base layers, the upper one active.
pub open spec fn bare_page(
    page_idx: usize,
    w: usize,
    h: usize,
    source: Grid<Color>,
    clean: Grid<Color>,
) -> StackView {
    StackView {
        page_idx,
        w,
        h,
        layers: seq![
            base_view(1, LayerKind::Source, "Исходник"@, source),
            base_view(2, LayerKind::Clean, "Клин"@, clean),
        ],
        groups: Seq::empty(),
        active: 2,
        next_layer_id: 3,
        next_group_id: 1,
    }
}

fn base_layer(id: LayerId, kind: LayerKind, name: String, image: ColorImage, transform: LayerTransform) -> (l:
    Layer)
    ensures
        l@ == (LayerView {
            kind,
            uid: id as u128,
            pixels_dirty: false,
            ..new_raster(id, id as u128, name@, image@, transform)
        }),
{
    let base_image = image.copied();
    let l = Layer {
        id,
        uid: id as u128,
        name,
        kind,
        image,
        base_image,
        visible: true,
        opacity: ONE,
        transform,
        deform: None,
        group: None,
        effects: Vec::new(),
        pixels_dirty: false,
    };
    assert(all_of(l.effects@) =~= Seq::empty());
    l
}

impl LayerStack {
    pub open spec fn wf(&self) -> bool {
        self@.valid()
    }

    /// The stack of a page that has only its two base layers.
    pub fn new(page_idx: usize, w: usize, h: usize, source: ColorImage, clean: ColorImage) -> (s:
        LayerStack)
        requires
            source.wf(),
            clean.wf(),
            w * h <= usize::MAX,
        ensures
            s.wf(),
            s@ == bare_page(page_idx, w, h, source@, clean@),
    {
        let ghost source_view = source@;
        let ghost clean_view = clean@;
        let st = LayerTransform::identity_for(source.w, source.h);
        let ct = LayerTransform::identity_for(clean.w, clean.h);
        let mut layers: Vec<Layer> = Vec::new();
        layers.push(base_layer(1, LayerKind::Source, String::from_str("Исходник"), source, st));
        layers.push(base_layer(2, LayerKind::Clean, String::from_str("Клин"), clean, ct));
        let s = LayerStack {
            page_idx,
            w,
            h,
            layers,
            groups: Vec::new(),
            active: 2,
            next_layer_id: 3,
            next_group_id: 1,
        };
        assert(s@ =~= bare_page(page_idx, w, h, source_view, clean_view));
        s
    }

    /// The place of the layer with an id.
    pub fn position(&self, id: LayerId) -> (r: Option<usize>)
        ensures
            match r {
                Some(i) => i < self.layers@.len() && layer_from(self@.layers, id, 0) == Some(
                    i as int,
                ) && self.layers@[i as int].id == id,
                None => layer_from(self@.layers, id, 0) is None,
            },
    {
        let mut i: usize = 0;
        while i < self.layers.len()
            invariant
                i <= self.layers@.len(),
                layer_from(self@.layers, id, 0) == layer_from(self@.layers, id, i as int),
            decreases self.layers@.len() - i,
        {
            if self.layers[i].id == id {
                return Some(i);
            }
            i += 1;
        }
        None
    }

    /// The layer with an id.
    pub fn layer(&self, id: LayerId) -> (r: Option<&Layer>)
        ensures
            match r {
                Some(l) => layer_called(self@.layers, id) == Some(l@) && l.id == id,
                None => layer_called(self@.layers, id) is None,
            },
    {
        match self.position(id) {
            Some(i) => Some(&self.layers[i]),
            None => None,
        }
    }

    /// The place of the layer of the user with an identifier.
    pub fn raster_position(&self, uid: &String) -> (r: Option<usize>)
        ensures
            match r {
                Some(i) => i < self.layers@.len() && raster_from(self@.layers, uid@, 0) == Some(
                    i as int,
                ) && self.layers@[i as int]@.raster_called(uid@),
                None => raster_from(self@.layers, uid@, 0) is None,
            },
    {
        let mut i: usize = 0;
        while i < self.layers.len()
            invariant
                i <= self.layers@.len(),
                raster_from(self@.layers, uid@, 0) == raster_from(self@.layers, uid@, i as int),
            decreases self.layers@.len() - i,
        {
            if self.layers[i].is_raster_called(uid) {
                return Some(i);
            }
            i += 1;
        }
        None
    }

    pub fn raster_count(&self) -> (n: usize)
        ensures
            n == rasters_in(self@.layers),
    {
        let mut n: usize = 0;
        let mut i: usize = 0;
        let ghost all = self@.layers;
        assert(all.take(0) =~= Seq::empty());
        while i < self.layers.len()
            invariant
                i <= self.layers@.len(),
                n <= i,
                all == self@.layers,
                n == rasters_in(all.take(i as int)),
            decreases self.layers@.len() - i,
        {
            assert(all.take(i + 1).drop_last() =~= all.take(i as int));
            assert(all.take(i + 1).last() == self.layers@[i as int]@);
            if self.layers[i].kind == LayerKind::Raster {
                n += 1;
            }
            i += 1;
        }
        assert(all.take(all.len() as int) =~= all);
        n
    }

    /// Adds a layer with the given picture on top.
    pub fn add_raster_layer_image(
        &mut self,
        uid: u128,
        name: String,
        image: ColorImage,
        transform: LayerTransform,
    ) -> (id: LayerId)
        requires
            old(self).wf(),
            image.wf(),
            old(self)@.next_layer_id < u64::MAX,
        ensures
            final(self).wf(),
            id == old(self)@.next_layer_id,
            final(self)@ == old(self)@.with_raster(
                new_raster(id, uid, name@, image@, transform),
            ),
    {
        let ghost before = self.layers@;
        let id: LayerId = self.next_layer_id;
        let base_image = image.copied();
        let layer = Layer {
            id,
            uid,
            name,
            kind: LayerKind::Raster,
            image,
            base_image,
            visible: true,
            opacity: ONE,
            transform,
            deform: None,
            group: None,
            effects: Vec::new(),
            pixels_dirty: true,
        };
        assert(all_of(layer.effects@) =~= Seq::empty());
        let ghost lv = layer@;
        self.layers.push(layer);
        self.active = id;
        self.next_layer_id = id + 1;
        assert(layer_views(self.layers@) =~= layer_views(before).push(lv));
        assert(self@.layers =~= old(self)@.layers.push(lv));
        assert(lv.valid());
        proof {
            lemma_with_raster(old(self)@, lv);
        }
        assert(self@ =~= old(self)@.with_raster(lv));
        id
    }

    /// Adds an empty layer of the size of the page on top.
    pub fn add_raster_layer(&mut self, uid: u128) -> (id: LayerId)
        requires
            old(self).wf(),
            old(self)@.next_layer_id < u64::MAX,
        ensures
            final(self).wf(),
            id == old(self)@.next_layer_id,
            final(self)@ == old(self)@.with_raster(
                new_raster(
                    id,
                    uid,
                    "Слой "@ + decimal((rasters_in(old(self)@.layers) + 1) as nat),
                    grid_of(old(self)@.w as int, old(self)@.h as int, |x: int, y: int| clear()),
                    identity_placement(old(self)@.w as int, old(self)@.h as int),
                ),
            ),
    {
        let n: usize = self.raster_count();
        proof {
            lemma_rasters_bound(self@.layers);
            assert(rasters_in(self@.layers) < self@.layers.len()) by {
                lemma_rasters_below(self@.layers);
            }
            assert(self.layers.len() <= usize::MAX);
        }
        let mut name = String::from_str("Слой ");
        append_decimal(&mut name, n + 1);
        let image = Raster::filled(self.w, self.h, Color::transparent());
        let ghost blank = image@;
        proof {
            let f = |x: int, y: int| clear();
            assert(blank =~= grid_of(self@.w as int, self@.h as int, f));
        }
        let transform = LayerTransform::identity_for(self.w, self.h);
        self.add_raster_layer_image(uid, name, image, transform)
    }
}

proof fn lemma_rasters_bound(layers: Seq<LayerView>)
    ensures
        rasters_in(layers) <= layers.len(),
    decreases layers.len(),
{
    if layers.len() > 0 {
        lemma_rasters_bound(layers.drop_last());
    }
}

proof fn lemma_rasters_below(layers: Seq<LayerView>)
    requires
        layers.len() > 0,
        layers[0].kind != LayerKind::Raster,
    ensures
        rasters_in(layers) < layers.len(),
    decreases layers.len(),
{
    if layers.len() > 1 {
        lemma_rasters_below(layers.drop_last());
    } else {
        assert(rasters_in(layers.drop_last()) == 0);
    }
}

/// Mutable access to the group with an identifier.
pub fn group_mut_by_uid<'a>(stack: &'a mut LayerStack, uid: &String) -> (r: Option<
    &'a mut LayerGroup,
>)
    ensures
        match r {
            Some(g) => group_from(old(stack)@.groups, uid@, 0) is Some && {
                let i = group_from(old(stack)@.groups, uid@, 0)->0;
                &&& 0 <= i < old(stack).groups@.len()
                &&& *g == old(stack).groups@[i]
                &&& final(stack).groups@ == old(stack).groups@.update(i, *final(g))
                &&& *final(stack) == (LayerStack { groups: final(stack).groups, ..*old(stack) })
            },
            None => group_from(old(stack)@.groups, uid@, 0) is None && *final(stack) == *old(stack),
        },
{
    match stack.group_position(uid) {
        Some(i) => Some(&mut stack.groups[i]),
        None => None,
    }
}

impl LayerStack {
    /// The place of the group with an identifier.
    pub fn group_position(&self, uid: &String) -> (r: Option<usize>)
        ensures
            match r {
                Some(i) => i < self.groups@.len() && group_from(self@.groups, uid@, 0) == Some(
                    i as int,
                ),
                None => group_from(self@.groups, uid@, 0) is None,
            },
    {
        let mut i: usize = 0;
        while i < self.groups.len()
            invariant
                i <= self.groups@.len(),
                group_from(self@.groups, uid@, 0) == group_from(self@.groups, uid@, i as int),
            decreases self.groups@.len() - i,
        {
            if uid_is(self.groups[i].uid, uid) {
                return Some(i);
            }
            i += 1;
        }
        None
    }

    /// The place of the group with an id.
    pub fn group_id_position(&self, id: GroupId) -> (r: Option<usize>)
        ensures
            match r {
                Some(i) => i < self.groups@.len() && group_id_from(self@.groups, id, 0) == Some(
                    i as int,
                ),
                None => group_id_from(self@.groups, id, 0) is None,
            },
    {
        let mut i: usize = 0;
        while i < self.groups.len()
            invariant
                i <= self.groups@.len(),
                group_id_from(self@.groups, id, 0) == group_id_from(self@.groups, id, i as int),
            decreases self.groups@.len() - i,
        {
            if self.groups[i].id == id {
                return Some(i);
            }
            i += 1;
        }
        None
    }

    /// Makes a layer active, if there is one with that id.
    pub fn set_active(&mut self, id: LayerId)
        ensures
            final(self)@ == (StackView {
                active: if old(self)@.has_layer(id) {
                    id
                } else {
                    old(self)@.active
                },
                ..old(self)@
            }),
    {
        if self.position(id).is_some() {
            self.active = id;
        }
    }

    /// Mutable access to the layer with an id.
    pub fn layer_mut(&mut self, id: LayerId) -> (r: Option<&mut Layer>)
        ensures
            match r {
                Some(l) => layer_from(old(self)@.layers, id, 0) is Some && {
                    let i = layer_from(old(self)@.layers, id, 0)->0;
                    &&& 0 <= i < old(self).layers@.len()
                    &&& *l == old(self).layers@[i]
                    &&& final(self).layers@ == old(self).layers@.update(i, *final(l))
                    &&& *final(self) == (LayerStack { layers: final(self).layers, ..*old(self) })
                },
                None => layer_from(old(self)@.layers, id, 0) is None && *final(self) == *old(self),
            },
    {
        match self.position(id) {
            Some(i) => Some(&mut self.layers[i]),
            None => None,
        }
    }

    /// Removes a layer of the user; the base layers stay.  If it was active, the top layer becomes
    /// active.
    pub fn remove_layer(&mut self, id: LayerId)
        requires
            old(self).wf(),
        ensures
            final(self).wf(),
            final(self)@ == old(self)@.without_layer(id),
    {
        proof {
            lemma_without_layer(self@, id);
            lemma_layer_from(self@.layers, id, 0);
        }
        match self.position(id) {
            Some(i) => {
                if self.layers[i].kind == LayerKind::Raster {
                    self.layers.remove(i);
                    assert(self@.layers =~= old(self)@.layers.remove(i as int));
                    if self.active == id {
                        self.active = self.layers[self.layers.len() - 1].id;
                    }
                    assert(self@ =~= old(self)@.without_layer(id));
                }
            },
            None => {},
        }
    }

    /// Puts the layers of the user into the order of `ids`; those that are not listed follow.
    pub fn reorder_rasters(&mut self, ids: &Vec<LayerId>)
        requires
            old(self).wf(),
        ensures
            final(self).wf(),
            final(self)@ == old(self)@.with_order(ids@),
    {
        let ghost all = self@.layers;
        let ghost top = all.skip(2);
        let mut rest: Vec<Layer> = self.layers.split_off(2);
        assert(layer_views(rest@) =~= top);
        let mut out: Vec<Layer> = Vec::new();
        let mut n: usize = 0;
        assert(ids@.skip(0) =~= ids@);
        assert(layer_views(out@) + listed_first(layer_views(rest@), ids@.skip(0)) =~= listed_first(
            top,
            ids@,
        ));
        while n < ids.len()
            invariant
                n <= ids@.len(),
                layer_views(out@) + listed_first(layer_views(rest@), ids@.skip(n as int))
                    == listed_first(top, ids@),
            decreases ids@.len() - n,
        {
            let id: LayerId = ids[n];
            let ghost r0 = layer_views(rest@);
            let ghost o0 = layer_views(out@);
            assert(ids@.skip(n as int).drop_first() =~= ids@.skip(n + 1));
            assert(ids@.skip(n as int)[0] == id);
            let mut k: usize = 0;
            let mut found: bool = false;
            while k < rest.len() && !found
                invariant
                    k <= rest@.len(),
                    r0 == layer_views(rest@),
                    found ==> k < rest@.len() && rest@[k as int].id == id,
                    layer_from(r0, id, 0) == layer_from(r0, id, k as int),
                decreases rest@.len() - k, !found as int,
            {
                if rest[k].id == id {
                    found = true;
                } else {
                    k += 1;
                }
            }
            if found {
                let l = rest.remove(k);
                let ghost lv = l@;
                out.push(l);
                assert(layer_views(rest@) =~= r0.remove(k as int));
                assert(layer_views(out@) =~= o0.push(lv));
                assert(o0.push(lv) + listed_first(r0.remove(k as int), ids@.skip(n + 1)) =~= o0 + (
                seq![lv] + listed_first(r0.remove(k as int), ids@.skip(n + 1))));
            }
            n += 1;
        }
        assert(ids@.skip(ids@.len() as int) =~= Seq::empty());
        let ghost outs = layer_views(out@);
        let ghost rests = layer_views(rest@);
        out.append(&mut rest);
        assert(layer_views(out@) =~= outs + rests);
        self.layers.append(&mut out);
        assert(self@.layers =~= all.take(2) + listed_first(top, ids@));
        proof {
            lemma_with_order(old(self)@, ids@);
        }
        assert(self@ =~= old(self)@.with_order(ids@));
    }

    /// Adds a group with an identifier of its own.
    pub fn add_group_with_uid(&mut self, name: String, uid: u128) -> (id: GroupId)
        requires
            old(self).wf(),
            old(self)@.next_group_id < u64::MAX,
        ensures
            final(self).wf(),
            id == old(self)@.next_group_id,
            final(self)@ == old(self)@.with_group(name@, uid),
    {
        let id: GroupId = self.next_group_id;
        self.groups.push(
            LayerGroup { id, uid, name, visible: true, opacity: ONE, collapsed: false },
        );
        self.next_group_id = id + 1;
        proof {
            lemma_with_group(old(self)@, name@, uid);
        }
        assert(self@ =~= old(self)@.with_group(name@, uid));
        id
    }

    /// Removes a group; its members are in no group then.
    pub fn remove_group(&mut self, id: GroupId)
        requires
            old(self).wf(),
        ensures
            final(self).wf(),
            final(self)@ == old(self)@.without_group(id),
    {
        proof {
            lemma_without_group(self@, id);
            lemma_group_id_from(self@.groups, id, 0);
        }
        if let Some(i) = self.group_id_position(id) {
            self.groups.remove(i);
        }
        assert(self@.groups =~= old(self)@.without_group(id).groups);
        let ghost before = self.layers@;
        let mut k: usize = 0;
        while k < self.layers.len()
            invariant
                k <= self.layers@.len(),
                self.layers@.len() == before.len(),
                *self == (LayerStack { layers: self.layers, ..*self }),
                self@.groups == old(self)@.without_group(id).groups,
                self.page_idx == old(self).page_idx,
                self.w == old(self).w,
                self.h == old(self).h,
                self.active == old(self).active,
                self.next_layer_id == old(self).next_layer_id,
                self.next_group_id == old(self).next_group_id,
                before == old(self).layers@,
                forall|j: int| k <= j < before.len() ==> #[trigger] self.layers@[j] == before[j],
                forall|j: int|
                    0 <= j < k ==> (#[trigger] self.layers@[j])@ == left_group(before[j]@, id),
            decreases self.layers@.len() - k,
        {
            if self.layers[k].group == Some(id) {
                let l = &mut self.layers[k];
                l.group = None;
            }
            k += 1;
        }
        assert(self@.layers =~= old(self)@.without_group(id).layers);
        assert(self@ =~= old(self)@.without_group(id));
    }

    /// Puts a layer into a group, or into none.
    pub fn set_layer_group(&mut self, id: LayerId, group: Option<GroupId>)
        requires
            old(self).wf(),
        ensures
            final(self).wf(),
            final(self)@ == old(self)@.with_membership(id, group),
    {
        proof {
            lemma_layer_from(self@.layers, id, 0);
            lemma_membership(self@, id, group);
        }
        if let Some(i) = self.position(id) {
            let l = &mut self.layers[i];
            l.group = group;
        }
        assert(self@.layers =~= old(self)@.with_membership(id, group).layers);
    }

    /// The identifier of the group that a layer is in.
    pub fn layer_group_uid(&self, i: usize) -> (r: Option<String>)
        requires
            i < self.layers@.len(),
        ensures
            opt_text(r) == group_uid_of(self@, self@.layers[i as int]),
    {
        self.group_uid_for(&self.layers[i])
    }

    /// The identifier of the group that a layer names, if the stack has it.
    pub fn group_uid_for(&self, layer: &Layer) -> (r: Option<String>)
        ensures
            opt_text(r) == group_uid_of(self@, layer@),
    {
        match layer.group {
            Some(g) => match self.group_id_position(g) {
                Some(k) => Some(uid_to_string(self.groups[k].uid)),
                None => None,
            },
            None => None,
        }
    }

    /// A layer shows if neither it nor its group is hidden.
    pub fn layer_visible(&self, i: usize) -> (b: bool)
        requires
            i < self.layers@.len(),
        ensures
            b == shown(self@, self@.layers[i as int]),
    {
        if !self.layers[i].visible {
            return false;
        }
        match self.layers[i].group {
            Some(g) => match self.group_id_position(g) {
                Some(k) => self.groups[k].visible,
                None => true,
            },
            None => true,
        }
    }

    /// Notes that the pixels of all layers of the user are stored.
    pub fn mark_rasters_persisted(&mut self)
        requires
            old(self).wf(),
        ensures
            final(self).wf(),
            final(self)@ == old(self)@.persisted(),
    {
        let ghost before = self.layers@;
        let mut k: usize = 0;
        while k < self.layers.len()
            invariant
                k <= self.layers@.len(),
                self.layers@.len() == before.len(),
                before == old(self).layers@,
                self.groups == old(self).groups,
                self.page_idx == old(self).page_idx,
                self.w == old(self).w,
                self.h == old(self).h,
                self.active == old(self).active,
                self.next_layer_id == old(self).next_layer_id,
                self.next_group_id == old(self).next_group_id,
                forall|j: int| k <= j < before.len() ==> #[trigger] self.layers@[j] == before[j],
                forall|j: int|
                    0 <= j < k ==> (#[trigger] self.layers@[j])@ == stored_layer(before[j]@),
            decreases self.layers@.len() - k,
        {
            if self.layers[k].kind == LayerKind::Raster {
                let l = &mut self.layers[k];
                l.pixels_dirty = false;
            }
            k += 1;
        }
        assert(self@.layers =~= old(self)@.persisted().layers);
        assert(self@ =~= old(self)@.persisted());
        proof {
            let s = old(self)@;
            assert forall|i: int| 0 <= i < s.layers.len() implies (
            #[trigger] s.persisted().layers[i]).valid() && s.persisted().layers[i].id
                == s.layers[i].id && s.persisted().layers[i].kind == s.layers[i].kind by {
                assert(s.layers[i].valid());
            }
            lemma_same_shape(s, s.persisted());
        }
    }
}

/// The layer with its pixels noted as stored, if it is a layer of the user.
pub open spec fn stored_layer(l: LayerView) -> LayerView {
    LayerView { pixels_dirty: l.pixels_dirty && l.kind != LayerKind::Raster, ..l }
}

/// The layer, in no group if it was in this one.
pub open spec fn left_group(l: LayerView, id: GroupId) -> LayerView {
    LayerView {
        group: if l.group == Some(id) {
            None
        } else {
            l.group
        },
        ..l
    }
}

/// The listed layers in the order of the list, each once, and the others after them.
pub open spec fn listed_first(layers: Seq<LayerView>, ids: Seq<LayerId>) -> Seq<LayerView>
    decreases ids.len(),
{
    if ids.len() == 0 {
        layers
    } else {
        match layer_from(layers, ids[0], 0) {
            Some(k) => seq![layers[k]] + listed_first(layers.remove(k), ids.drop_first()),
            None => listed_first(layers, ids.drop_first()),
        }
    }
}

/// The identifier of the group that a layer of a stack is in.
pub open spec fn group_uid_of(s: StackView, l: LayerView) -> Option<Seq<char>> {
    match l.group {
        Some(g) => match group_id_from(s.groups, g, 0) {
            Some(k) => Some(uid_text(s.groups[k].uid)),
            None => None,
        },
        None => None,
    }
}

/// Neither the layer nor its group is hidden.
pub open spec fn shown(s: StackView, l: LayerView) -> bool {
    l.visible && match l.group {
        Some(g) => match group_id_from(s.groups, g, 0) {
            Some(k) => s.groups[k].visible,
            None => true,
        },
        None => true,
    }
}

impl StackView {
    /// The stack without a layer of the user.
    pub open spec fn without_layer(self, id: LayerId) -> StackView {
        match layer_from(self.layers, id, 0) {
            Some(i) => if self.layers[i].kind == LayerKind::Raster {
                StackView {
                    layers: self.layers.remove(i),
                    active: if self.active == id {
                        self.layers.remove(i).last().id
                    } else {
                        self.active
                    },
                    ..self
                }
            } else {
                self
            },
            None => self,
        }
    }

    /// The stack with the layers of the user in the order of a list.
    pub open spec fn with_order(self, ids: Seq<LayerId>) -> StackView {
        StackView {
            layers: self.layers.take(2) + listed_first(self.layers.skip(2), ids),
            ..self
        }
    }

    pub open spec fn with_group(self, name: Seq<char>, uid: u128) -> StackView {
        StackView {
            groups: self.groups.push(
                GroupView {
                    id: self.next_group_id,
                    uid,
                    name,
                    visible: true,
                    opacity: ONE,
                    collapsed: false,
                },
            ),
            next_group_id: (self.next_group_id + 1) as u64,
            ..self
        }
    }

    pub open spec fn without_group(self, id: GroupId) -> StackView {
        StackView {
            groups: match group_id_from(self.groups, id, 0) {
                Some(i) => self.groups.remove(i),
                None => self.groups,
            },
            layers: self.layers.map_values(|l: LayerView| left_group(l, id)),
            ..self
        }
    }

    pub open spec fn with_membership(self, id: LayerId, group: Option<GroupId>) -> StackView {
        StackView {
            layers: match layer_from(self.layers, id, 0) {
                Some(i) => self.layers.update(i, LayerView { group, ..self.layers[i] }),
                None => self.layers,
            },
            ..self
        }
    }

    pub open spec fn persisted(self) -> StackView {
        StackView { layers: self.layers.map_values(|l: LayerView| stored_layer(l)), ..self }
    }
}

/// A stack whose layers keep their ids, kinds and whole pictures, and whose groups keep their ids,
/// is whole.
pub proof fn lemma_same_shape(s: StackView, t: StackView)
    requires
        s.valid(),
        t.w == s.w,
        t.h == s.h,
        t.next_layer_id == s.next_layer_id,
        t.next_group_id == s.next_group_id,
        t.layers.len() == s.layers.len(),
        forall|i: int|
            0 <= i < s.layers.len() ==> (#[trigger] t.layers[i]).valid() && t.layers[i].id
                == s.layers[i].id && t.layers[i].kind == s.layers[i].kind,
        t.groups.len() == s.groups.len(),
        forall|i: int| 0 <= i < s.groups.len() ==> (#[trigger] t.groups[i]).id == s.groups[i].id,
    ensures
        t.valid(),
{
    assert(t.layers[0].kind == s.layers[0].kind && t.layers[1].kind == s.layers[1].kind);
    assert forall|i: int| 2 <= i < t.layers.len() implies (#[trigger] t.layers[i]).kind
        == LayerKind::Raster by {
        assert(s.layers[i].kind == LayerKind::Raster);
    }
    assert forall|i: int| 0 <= i < t.layers.len() implies (#[trigger] t.layers[i]).id
        < t.next_layer_id by {
        assert(s.layers[i].id < s.next_layer_id);
    }
    assert forall|i: int, j: int| 0 <= i < j < t.layers.len() implies (#[trigger] t.layers[i]).id
        != (#[trigger] t.layers[j]).id by {
        assert(s.layers[i].id != s.layers[j].id);
    }
    assert forall|i: int| 0 <= i < t.groups.len() implies (#[trigger] t.groups[i]).id
        < t.next_group_id by {
        assert(s.groups[i].id < s.next_group_id);
    }
    assert forall|i: int, j: int| 0 <= i < j < t.groups.len() implies (#[trigger] t.groups[i]).id
        != (#[trigger] t.groups[j]).id by {
        assert(s.groups[i].id != s.groups[j].id);
    }
}

pub proof fn lemma_group_id_from(groups: Seq<GroupView>, id: GroupId, i: int)
    requires
        0 <= i,
    ensures
        match group_id_from(groups, id, i) {
            Some(k) => i <= k < groups.len() && groups[k].id == id,
            None => forall|k: int| i <= k < groups.len() ==> (#[trigger] groups[k]).id != id,
        },
    decreases groups.len() - i,
{
    if i < groups.len() && groups[i].id != id {
        lemma_group_id_from(groups, id, i + 1);
    }
}

proof fn lemma_membership(s: StackView, id: LayerId, group: Option<GroupId>)
    requires
        s.valid(),
    ensures
        s.with_membership(id, group).valid(),
{
    let t = s.with_membership(id, group);
    lemma_layer_from(s.layers, id, 0);
    assert forall|i: int| 0 <= i < s.layers.len() implies (#[trigger] t.layers[i]).valid()
        && t.layers[i].id == s.layers[i].id && t.layers[i].kind == s.layers[i].kind by {
        assert(s.layers[i].valid());
    }
    lemma_same_shape(s, t);
}

pub proof fn lemma_without_layer(s: StackView, id: LayerId)
    requires
        s.valid(),
    ensures
        s.without_layer(id).valid(),
{
    let t = s.without_layer(id);
    lemma_layer_from(s.layers, id, 0);
    match layer_from(s.layers, id, 0) {
        Some(k) => {
            if s.layers[k].kind == LayerKind::Raster {
                assert(k >= 2);
                assert(t.layers[0] == s.layers[0] && t.layers[1] == s.layers[1]);
                assert forall|i: int| 0 <= i < t.layers.len() implies (
                #[trigger] t.layers[i]).valid() && t.layers[i].id < t.next_layer_id && (i >= 2
                    ==> t.layers[i].kind == LayerKind::Raster) by {
                    let j = if i < k {
                        i
                    } else {
                        i + 1
                    };
                    assert(t.layers[i] == s.layers[j]);
                }
                assert forall|i: int, j: int| 0 <= i < j < t.layers.len() implies (
                #[trigger] t.layers[i]).id != (#[trigger] t.layers[j]).id by {
                    let i2 = if i < k {
                        i
                    } else {
                        i + 1
                    };
                    let j2 = if j < k {
                        j
                    } else {
                        j + 1
                    };
                    assert(t.layers[i] == s.layers[i2] && t.layers[j] == s.layers[j2]);
                }
            }
        },
        None => {},
    }
}

pub proof fn lemma_with_group(s: StackView, name: Seq<char>, uid: u128)
    requires
        s.valid(),
        s.next_group_id < u64::MAX,
    ensures
        s.with_group(name, uid).valid(),
{
    let t = s.with_group(name, uid);
    assert forall|i: int| 0 <= i < t.groups.len() implies (#[trigger] t.groups[i]).id
        < t.next_group_id by {
        if i < s.groups.len() {
            assert(t.groups[i] == s.groups[i]);
        }
    }
    assert forall|i: int, j: int| 0 <= i < j < t.groups.len() implies (#[trigger] t.groups[i]).id
        != (#[trigger] t.groups[j]).id by {
        assert(t.groups[i] == s.groups[i]);
        if j < s.groups.len() {
            assert(t.groups[j] == s.groups[j]);
        }
    }
}

proof fn lemma_without_group(s: StackView, id: GroupId)
    requires
        s.valid(),
    ensures
        s.without_group(id).valid(),
{
    let t = s.without_group(id);
    let u = StackView { groups: s.groups, ..t };
    assert forall|i: int| 0 <= i < s.layers.len() implies (#[trigger] u.layers[i]).valid()
        && u.layers[i].id == s.layers[i].id && u.layers[i].kind == s.layers[i].kind by {
        assert(s.layers[i].valid());
    }
    lemma_same_shape(s, u);
    lemma_group_id_from(s.groups, id, 0);
    match group_id_from(s.groups, id, 0) {
        Some(k) => {
            assert forall|i: int| 0 <= i < t.groups.len() implies (#[trigger] t.groups[i]).id
                < t.next_group_id by {
                let i2 = if i < k {
                    i
                } else {
                    i + 1
                };
                assert(t.groups[i] == s.groups[i2]);
            }
            assert forall|i: int, j: int| 0 <= i < j < t.groups.len() implies (
            #[trigger] t.groups[i]).id != (#[trigger] t.groups[j]).id by {
                let i2 = if i < k {
                    i
                } else {
                    i + 1
                };
                let j2 = if j < k {
                    j
                } else {
                    j + 1
                };
                assert(t.groups[i] == s.groups[i2] && t.groups[j] == s.groups[j2]);
            }
        },
        None => {
            assert(t.groups == s.groups);
        },
    }
}

/// Ordering layers by a list neither adds nor drops one, and keeps them apart.
pub proof fn ordering_keeps_the_layers(layers: Seq<LayerView>, ids: Seq<LayerId>)
    ensures
        listed_first(layers, ids).to_multiset() == layers.to_multiset(),
        listed_first(layers, ids).len() == layers.len(),
    decreases ids.len(),
{
    broadcast use vstd::seq_lib::group_to_multiset_ensures;

    if ids.len() > 0 {
        lemma_layer_from(layers, ids[0], 0);
        match layer_from(layers, ids[0], 0) {
            Some(k) => {
                let rest = layers.remove(k);
                ordering_keeps_the_layers(rest, ids.drop_first());
                let tail = listed_first(rest, ids.drop_first());
                vstd::seq_lib::lemma_multiset_commutative(seq![layers[k]], tail);
                assert(seq![layers[k]].to_multiset() =~= vstd::multiset::Multiset::singleton(
                    layers[k],
                )) by {
                    assert(seq![layers[k]] =~= Seq::<LayerView>::empty().push(layers[k]));
                }
                assert(listed_first(layers, ids).to_multiset() =~= layers.to_multiset());
            },
            None => {
                ordering_keeps_the_layers(layers, ids.drop_first());
            },
        }
    }
}

/// The ids of the layers are all different.
pub open spec fn distinct_ids(layers: Seq<LayerView>) -> bool {
    forall|i: int, j: int|
        0 <= i < j < layers.len() ==> (#[trigger] layers[i]).id != (#[trigger] layers[j]).id
}

proof fn lemma_listed_first(layers: Seq<LayerView>, ids: Seq<LayerId>)
    requires
        distinct_ids(layers),
    ensures
        distinct_ids(listed_first(layers, ids)),
        listed_first(layers, ids).len() == layers.len(),
        forall|i: int|
            0 <= i < layers.len() ==> layers.contains(#[trigger] listed_first(layers, ids)[i]),
    decreases ids.len(),
{
    let out = listed_first(layers, ids);
    if ids.len() > 0 {
        lemma_layer_from(layers, ids[0], 0);
        match layer_from(layers, ids[0], 0) {
            Some(k) => {
                let rest = layers.remove(k);
                assert forall|i: int| 0 <= i < rest.len() implies (#[trigger] rest[i]).id
                    != layers[k].id && layers.contains(rest[i]) by {
                    let j = if i < k {
                        i
                    } else {
                        i + 1
                    };
                    assert(rest[i] == layers[j]);
                }
                assert(distinct_ids(rest)) by {
                    assert forall|i: int, j: int| 0 <= i < j < rest.len() implies (
                    #[trigger] rest[i]).id != (#[trigger] rest[j]).id by {
                        let i2 = if i < k {
                            i
                        } else {
                            i + 1
                        };
                        let j2 = if j < k {
                            j
                        } else {
                            j + 1
                        };
                        assert(rest[i] == layers[i2] && rest[j] == layers[j2]);
                    }
                }
                lemma_listed_first(rest, ids.drop_first());
                let tail = listed_first(rest, ids.drop_first());
                assert(out == seq![layers[k]] + tail);
                assert forall|i: int| 0 <= i < layers.len() implies layers.contains(
                    #[trigger] out[i],
                ) by {
                    if i > 0 {
                        assert(out[i] == tail[i - 1]);
                        assert(rest.contains(tail[i - 1]));
                        let j = choose|j: int| 0 <= j < rest.len() && rest[j] == tail[i - 1];
                        assert(layers.contains(rest[j]));
                    } else {
                        assert(out[0] == layers[k]);
                    }
                }
                assert forall|i: int, j: int| 0 <= i < j < out.len() implies (
                #[trigger] out[i]).id != (#[trigger] out[j]).id by {
                    assert(out[j] == tail[j - 1]);
                    assert(rest.contains(tail[j - 1]));
                    let r = choose|r: int| 0 <= r < rest.len() && rest[r] == tail[j - 1];
                    assert(rest[r].id != layers[k].id);
                    if i > 0 {
                        assert(out[i] == tail[i - 1]);
                    } else {
                        assert(out[0] == layers[k]);
                    }
                }
            },
            None => {
                lemma_listed_first(layers, ids.drop_first());
            },
        }
    }
}

proof fn lemma_with_order(s: StackView, ids: Seq<LayerId>)
    requires
        s.valid(),
    ensures
        s.with_order(ids).valid(),
{
    let t = s.with_order(ids);
    let top = s.layers.skip(2);
    let out = listed_first(top, ids);
    assert(distinct_ids(top)) by {
        assert forall|i: int, j: int| 0 <= i < j < top.len() implies (#[trigger] top[i]).id != (
        #[trigger] top[j]).id by {
            assert(top[i] == s.layers[i + 2] && top[j] == s.layers[j + 2]);
        }
    }
    lemma_listed_first(top, ids);
    assert(t.layers[0] == s.layers[0] && t.layers[1] == s.layers[1]);
    assert forall|i: int| 0 <= i < t.layers.len() implies (#[trigger] t.layers[i]).valid()
        && t.layers[i].id < t.next_layer_id && (i >= 2 ==> t.layers[i].kind == LayerKind::Raster
        && t.layers[i].id != s.layers[0].id && t.layers[i].id != s.layers[1].id) by {
        if i >= 2 {
            assert(t.layers[i] == out[i - 2]);
            assert(top.contains(out[i - 2]));
            let k = choose|k: int| 0 <= k < top.len() && top[k] == out[i - 2];
            assert(top[k] == s.layers[k + 2]);
            assert(s.layers[0].id != s.layers[k + 2].id && s.layers[1].id != s.layers[k + 2].id);
        } else {
            assert(t.layers[i] == s.layers[i]);
        }
    }
    assert forall|i: int, j: int| 0 <= i < j < t.layers.len() implies (#[trigger] t.layers[i]).id
        != (#[trigger] t.layers[j]).id by {
        if i >= 2 {
            assert(t.layers[i] == out[i - 2] && t.layers[j] == out[j - 2]);
        } else if j < 2 {
            assert(s.layers[0].id != s.layers[1].id);
        }
    }
}

} // verus!
