//! Reversible edits of a page: painted pixels, whole layers, and single fields of a layer.

use vstd::prelude::*;
use vstd::string::StringExecFns;
use crate::color::ColorImage;
#[allow(unused_imports)]
use crate::color::Color;
use crate::layers::{copy_deform, usize_pair_to_u32, DeformRec, Layer, LayerTransform};
#[allow(unused_imports)]
use crate::layers::{deform_view, DeformView, LayerView};
#[allow(unused_imports)]
use crate::mask::capped;
use crate::mask::mul_capped;
#[allow(unused_imports)]
use crate::raster::{grid_of, lemma_grid_eq, lemma_grid_of, lemma_position, lemma_with_at, Grid};
use crate::text::append_decimal;
#[allow(unused_imports)]
use crate::text::decimal;

verus! {

/// Whether a change of pixels is made or taken back.
#[derive(Clone, Copy, Debug, PartialEq, Eq, Structural)]
pub enum ApplyDirection {
    Forward,
    Reverse,
}

impl ApplyDirection {
    pub open spec fn opposite(self) -> ApplyDirection {
        match self {
            ApplyDirection::Forward => ApplyDirection::Reverse,
            ApplyDirection::Reverse => ApplyDirection::Forward,
        }
    }

    pub fn reversed(self) -> (r: ApplyDirection)
        ensures
            r == self.opposite(),
    {
        match self {
            ApplyDirection::Forward => ApplyDirection::Reverse,
            ApplyDirection::Reverse => ApplyDirection::Forward,
        }
    }
}

/// Whether an edit makes a layer present or absent.
#[derive(Clone, Copy, Debug, PartialEq, Eq, Structural)]
pub enum LifecycleDir {
    Added,
    Removed,
}

impl LifecycleDir {
    pub open spec fn opposite(self) -> LifecycleDir {
        match self {
            LifecycleDir::Added => LifecycleDir::Removed,
            LifecycleDir::Removed => LifecycleDir::Added,
        }
    }

    pub fn flipped(self) -> (r: LifecycleDir)
        ensures
            r == self.opposite(),
    {
        match self {
            LifecycleDir::Added => LifecycleDir::Removed,
            LifecycleDir::Removed => LifecycleDir::Added,
        }
    }
}

/// A change of one field of a layer.
pub enum LayerFieldPatch {
    Visibility { before: bool, after: bool },
    Opacity { before: u32, after: u32 },
    Transform { before: LayerTransform, after: LayerTransform },
    Deform { before: Option<DeformRec>, after: Option<DeformRec> },
}

/// A change of one field as a mathematical value.
pub enum PatchView {
    Visibility { before: bool, after: bool },
    Opacity { before: u32, after: u32 },
    Transform { before: LayerTransform, after: LayerTransform },
    Deform { before: Option<DeformView>, after: Option<DeformView> },
}

impl View for LayerFieldPatch {
    type V = PatchView;

    open spec fn view(&self) -> PatchView {
        match self {
            LayerFieldPatch::Visibility { before, after } => PatchView::Visibility {
                before: *before,
                after: *after,
            },
            LayerFieldPatch::Opacity { before, after } => PatchView::Opacity {
                before: *before,
                after: *after,
            },
            LayerFieldPatch::Transform { before, after } => PatchView::Transform {
                before: *before,
                after: *after,
            },
            LayerFieldPatch::Deform { before, after } => PatchView::Deform {
                before: deform_view(*before),
                after: deform_view(*after),
            },
        }
    }
}

impl PatchView {
    /// The change that takes this one back.
    pub open spec fn inverse(self) -> PatchView {
        match self {
            PatchView::Visibility { before, after } => PatchView::Visibility {
                before: after,
                after: before,
            },
            PatchView::Opacity { before, after } => PatchView::Opacity {
                before: after,
                after: before,
            },
            PatchView::Transform { before, after } => PatchView::Transform {
                before: after,
                after: before,
            },
            PatchView::Deform { before, after } => PatchView::Deform {
                before: after,
                after: before,
            },
        }
    }

    /// The layer with the field changed.
    pub open spec fn applied(self, l: LayerView) -> LayerView {
        match self {
            PatchView::Visibility { after, .. } => LayerView { visible: after, ..l },
            PatchView::Opacity { after, .. } => LayerView { opacity: after, ..l },
            PatchView::Transform { after, .. } => LayerView { transform: after, ..l },
            PatchView::Deform { after, .. } => LayerView { deform: after, ..l },
        }
    }

    /// The layer is as the change found it.
    pub open spec fn starts_from(self, l: LayerView) -> bool {
        match self {
            PatchView::Visibility { before, .. } => l.visible == before,
            PatchView::Opacity { before, .. } => l.opacity == before,
            PatchView::Transform { before, .. } => l.transform == before,
            PatchView::Deform { before, .. } => l.deform == before,
        }
    }
}

impl LayerFieldPatch {
    /// The change that takes this one back.
    pub fn inverted(&self) -> (r: LayerFieldPatch)
        ensures
            r@ == self@.inverse(),
    {
        match self {
            LayerFieldPatch::Visibility { before, after } => LayerFieldPatch::Visibility {
                before: *after,
                after: *before,
            },
            LayerFieldPatch::Opacity { before, after } => LayerFieldPatch::Opacity {
                before: *after,
                after: *before,
            },
            LayerFieldPatch::Transform { before, after } => LayerFieldPatch::Transform {
                before: *after,
                after: *before,
            },
            LayerFieldPatch::Deform { before, after } => LayerFieldPatch::Deform {
                before: copy_deform(after),
                after: copy_deform(before),
            },
        }
    }
}

/// Changes the field of a layer that the patch names, and nothing else.
pub fn apply_field_patch_to_layer(layer: &mut Layer, field: &LayerFieldPatch)
    ensures
        final(layer)@ == field@.applied(old(layer)@),
{
    match field {
        LayerFieldPatch::Visibility { after, .. } => {
            layer.visible = *after;
        },
        LayerFieldPatch::Opacity { after, .. } => {
            layer.opacity = *after;
        },
        LayerFieldPatch::Transform { after, .. } => {
            layer.transform = *after;
        },
        LayerFieldPatch::Deform { after, .. } => {
            layer.deform = copy_deform(after);
        },
    }
}

/// A change of a field followed by its inverse leaves the layer as it was, and taking a change
/// back twice is the change itself.
pub proof fn patches_are_taken_back(p: PatchView, l: LayerView)
    ensures
        p.starts_from(l) ==> p.inverse().applied(p.applied(l)) == l,
        p.inverse().starts_from(p.applied(l)),
        p.inverse().inverse() == p,
{
}

/// A change of pixels that is kept elsewhere under a key, and its size in bytes.
#[derive(Clone, Copy, Debug, PartialEq, Eq, Structural)]
pub struct DeltaRef {
    pub key: u64,
    pub compressed_len: usize,
}

/// One reversible edit of a page.
pub enum PsEditOp {
    /// The pixels of a layer changed.
    RasterPixels {
        page_idx: usize,
        layer_uid: String,
        delta: DeltaRef,
        dir: ApplyDirection,
        label: String,
    },
    /// A layer appeared or went.
    LayerLifecycle { page_idx: usize, layer: Box<Layer>, z: u32, dir: LifecycleDir },
    /// One field of a layer changed.
    FieldPatch { page_idx: usize, layer_uid: String, field: LayerFieldPatch },
}

/// One reversible edit as a mathematical value.
pub enum OpView {
    RasterPixels {
        page_idx: usize,
        layer_uid: Seq<char>,
        delta: DeltaRef,
        dir: ApplyDirection,
        label: Seq<char>,
    },
    LayerLifecycle { page_idx: usize, layer: LayerView, z: u32, dir: LifecycleDir },
    FieldPatch { page_idx: usize, layer_uid: Seq<char>, field: PatchView },
}

impl View for PsEditOp {
    type V = OpView;

    open spec fn view(&self) -> OpView {
        match self {
            PsEditOp::RasterPixels { page_idx, layer_uid, delta, dir, label } => OpView::RasterPixels {
                page_idx: *page_idx,
                layer_uid: layer_uid@,
                delta: *delta,
                dir: *dir,
                label: label@,
            },
            PsEditOp::LayerLifecycle { page_idx, layer, z, dir } => OpView::LayerLifecycle {
                page_idx: *page_idx,
                layer: layer@,
                z: *z,
                dir: *dir,
            },
            PsEditOp::FieldPatch { page_idx, layer_uid, field } => OpView::FieldPatch {
                page_idx: *page_idx,
                layer_uid: layer_uid@,
                field: field@,
            },
        }
    }
}

impl OpView {
    /// The edit that takes this one back.
    pub open spec fn inverse(self) -> OpView {
        match self {
            OpView::RasterPixels { page_idx, layer_uid, delta, dir, label } => OpView::RasterPixels {
                page_idx,
                layer_uid,
                delta,
                dir: dir.opposite(),
                label,
            },
            OpView::LayerLifecycle { page_idx, layer, z, dir } => OpView::LayerLifecycle {
                page_idx,
                layer,
                z,
                dir: dir.opposite(),
            },
            OpView::FieldPatch { page_idx, layer_uid, field } => OpView::FieldPatch {
                page_idx,
                layer_uid,
                field: field.inverse(),
            },
        }
    }

    /// The name of the edit in the history.
    pub open spec fn title(self) -> Seq<char> {
        match self {
            OpView::RasterPixels { label, .. } => label,
            OpView::LayerLifecycle { dir, .. } => match dir {
                LifecycleDir::Added => "Добавление слоя"@,
                LifecycleDir::Removed => "Удаление слоя"@,
            },
            OpView::FieldPatch { field, .. } => match field {
                PatchView::Visibility { .. } => "Видимость слоя"@,
                PatchView::Opacity { .. } => "Непрозрачность слоя"@,
                PatchView::Transform { .. } => "Трансформация слоя"@,
                PatchView::Deform { .. } => "Деформация слоя"@,
            },
        }
    }

    /// The bytes that the edit keeps alive.
    pub open spec fn bytes(self) -> int {
        match self {
            OpView::RasterPixels { delta, .. } => delta.compressed_len as int,
            OpView::LayerLifecycle { layer, .. } => capped(layer.image.px.len() as int * 4),
            OpView::FieldPatch { .. } => 0,
        }
    }
}

impl PsEditOp {
    /// The edit that takes this one back.
    pub fn inverse(&self) -> (r: PsEditOp)
        ensures
            r@ == self@.inverse(),
    {
        match self {
            PsEditOp::RasterPixels { page_idx, layer_uid, delta, dir, label } => PsEditOp::RasterPixels {
                page_idx: *page_idx,
                layer_uid: layer_uid.clone(),
                delta: *delta,
                dir: dir.reversed(),
                label: label.clone(),
            },
            PsEditOp::LayerLifecycle { page_idx, layer, z, dir } => PsEditOp::LayerLifecycle {
                page_idx: *page_idx,
                layer: Box::new(layer.copied()),
                z: *z,
                dir: dir.flipped(),
            },
            PsEditOp::FieldPatch { page_idx, layer_uid, field } => PsEditOp::FieldPatch {
                page_idx: *page_idx,
                layer_uid: layer_uid.clone(),
                field: field.inverted(),
            },
        }
    }

    pub fn label(&self) -> (s: &str)
        ensures
            s@ == self@.title(),
    {
        match self {
            PsEditOp::RasterPixels { label, .. } => label.as_str(),
            PsEditOp::LayerLifecycle { dir, .. } => match dir {
                LifecycleDir::Added => "Добавление слоя",
                LifecycleDir::Removed => "Удаление слоя",
            },
            PsEditOp::FieldPatch { field, .. } => match field {
                LayerFieldPatch::Visibility { .. } => "Видимость слоя",
                LayerFieldPatch::Opacity { .. } => "Непрозрачность слоя",
                LayerFieldPatch::Transform { .. } => "Трансформация слоя",
                LayerFieldPatch::Deform { .. } => "Деформация слоя",
            },
        }
    }

    /// What the edit counts against the memory of the history.
    pub fn weight(&self) -> (n: usize)
        ensures
            n == self@.bytes(),
    {
        match self {
            PsEditOp::RasterPixels { delta, .. } => delta.compressed_len,
            PsEditOp::LayerLifecycle { layer, .. } => mul_capped(layer.image.px.len(), 4),
            PsEditOp::FieldPatch { .. } => 0,
        }
    }
}

/// Taking an edit back twice is the edit itself.
pub proof fn inverse_of_inverse(op: OpView)
    ensures
        op.inverse().inverse() == op,
{
    match op {
        OpView::FieldPatch { field, .. } => {
            assert(field.inverse().inverse() == field);
        },
        _ => {},
    }
}

/// Taking an edit back costs no more memory than the edit.
pub proof fn inverse_keeps_the_weight(op: OpView)
    ensures
        op.inverse().bytes() == op.bytes(),
{
}

/// A failure of the change of pixels.
#[derive(Clone, Copy, Debug, PartialEq, Eq, Structural)]
pub enum RasterDiffError {
    /// A side of the picture does not fit into 32 bits.
    DimensionOverflow,
    /// The change does not fit the picture, or its data are damaged.
    Failed,
}

/// A failure of an edit.
#[derive(Clone, Copy, Debug, PartialEq, Eq, Structural)]
pub enum PsEditOpError {
    /// The page or the layer of the edit is not loaded.
    NotResident { page_idx: usize },
    /// The change of pixels failed.
    Raster(RasterDiffError),
}

impl PsEditOpError {
    /// The failure in words; `cause` is what the failed change of pixels said.
    pub fn describe(&self, cause: &str) -> (s: String)
        ensures
            s@ == match *self {
                PsEditOpError::NotResident { page_idx } => "ps_editor page "@ + decimal(
                    page_idx as nat,
                ) + " is not resident for undo/redo"@,
                PsEditOpError::Raster(_) => "raster diff failed: "@ + cause@,
            },
    {
        match *self {
            PsEditOpError::NotResident { page_idx } => {
                let mut s = String::from_str("ps_editor page ");
                append_decimal(&mut s, page_idx);
                s.append(" is not resident for undo/redo");
                s
            },
            PsEditOpError::Raster(_) => {
                let mut s = String::from_str("raster diff failed: ");
                s.append(cause);
                s
            },
        }
    }
}

/// A rectangle of changed pixels.
#[derive(Clone, Copy, Debug, PartialEq, Eq, Structural)]
pub struct ChangedRect {
    pub x: u32,
    pub y: u32,
    pub w: u32,
    pub h: u32,
}

impl ChangedRect {
    pub open spec fn holds(self, px: int, py: int) -> bool {
        self.x <= px < self.x + self.w && self.y <= py < self.y + self.h
    }
}

/// One of the rectangles holds the pixel.
pub open spec fn changed(rects: Seq<ChangedRect>, px: int, py: int) -> bool {
    exists|i: int| 0 <= i < rects.len() && (#[trigger] rects[i]).holds(px, py)
}

/// The base picture with the shown pixels copied over the rectangles; nothing is copied between
/// pictures of different sizes.
pub open spec fn mirrored(image: Grid<Color>, base: Grid<Color>, rects: Seq<ChangedRect>) -> Grid<
    Color,
> {
    if image.same_size(base) {
        grid_of(
            base.w,
            base.h,
            |x: int, y: int|
                if changed(rects, x, y) {
                    image.at(x, y)
                } else {
                    base.at(x, y)
                },
        )
    } else {
        base
    }
}

/// What the pixel `(x, y)` of the base is while the rows of the rectangle `n` are copied: those
/// above row `y0`, and in row `y0` the columns before `x0`.
spec fn part_done(rects: Seq<ChangedRect>, n: int, y0: int, x0: int, x: int, y: int) -> bool {
    changed(rects.take(n), x, y) || (rects[n].holds(x, y) && (y < y0 || (y == y0 && x < x0)))
}

proof fn lemma_changed_step(rects: Seq<ChangedRect>, n: int, x: int, y: int)
    requires
        0 <= n < rects.len(),
    ensures
        changed(rects.take(n + 1), x, y) == (changed(rects.take(n), x, y) || rects[n].holds(x, y)),
{
    let a = rects.take(n);
    let b = rects.take(n + 1);
    if changed(b, x, y) {
        let i = choose|i: int| 0 <= i < b.len() && (#[trigger] b[i]).holds(x, y);
        if i < n {
            assert(a[i].holds(x, y));
        }
    }
    if changed(a, x, y) {
        let i = choose|i: int| 0 <= i < a.len() && (#[trigger] a[i]).holds(x, y);
        assert(b[i].holds(x, y));
    }
    if rects[n].holds(x, y) {
        assert(b[n].holds(x, y));
    }
}

/// Copies the shown pixels into the base picture over the given rectangles.
pub fn mirror_rects_image_to_base(layer: &mut Layer, dirty: &Vec<ChangedRect>)
    requires
        old(layer).wf(),
    ensures
        final(layer).wf(),
        final(layer)@ == (LayerView {
            base_image: mirrored(old(layer)@.image, old(layer)@.base_image, dirty@),
            ..old(layer)@
        }),
{
    if layer.image.w != layer.base_image.w || layer.image.h != layer.base_image.h {
        return;
    }
    let ghost img = layer.image@;
    let ghost base0 = layer.base_image@;
    let w: usize = layer.image.w;
    let h: usize = layer.image.h;
    let mut n: usize = 0;
    assert(dirty@.take(0) =~= Seq::empty());
    while n < dirty.len()
        invariant
            n <= dirty@.len(),
            w == img.w,
            h == img.h,
            img.same_size(base0),
            img.valid(),
            base0.valid(),
            layer.image@ == img,
            layer.base_image@.valid(),
            layer.base_image@.same_size(base0),
            *layer == (Layer { base_image: layer.base_image, ..*old(layer) }),
            img == old(layer)@.image,
            forall|x: int, y: int|
                base0.inside(x, y) ==> #[trigger] layer.base_image@.at(x, y) == if changed(
                    dirty@.take(n as int),
                    x,
                    y,
                ) {
                    img.at(x, y)
                } else {
                    base0.at(x, y)
                },
        decreases dirty@.len() - n,
    {
        let rect = dirty[n];
        let ox: usize = rect.x as usize;
        let oy: usize = rect.y as usize;
        let mut y: usize = oy;
        while y < h && y - oy < rect.h as usize
            invariant
                n < dirty@.len(),
                rect == dirty@[n as int],
                ox == rect.x,
                oy == rect.y,
                oy <= y,
                w == img.w,
                h == img.h,
                img.same_size(base0),
                img.valid(),
                base0.valid(),
                layer.image@ == img,
                layer.base_image@.valid(),
                layer.base_image@.same_size(base0),
                *layer == (Layer { base_image: layer.base_image, ..*old(layer) }),
                img == old(layer)@.image,
                forall|a: int, b: int|
                    base0.inside(a, b) ==> #[trigger] layer.base_image@.at(a, b) == if part_done(
                        dirty@,
                        n as int,
                        y as int,
                        0,
                        a,
                        b,
                    ) {
                        img.at(a, b)
                    } else {
                        base0.at(a, b)
                    },
            decreases h - y,
        {
            let mut x: usize = ox;
            while x < w && x - ox < rect.w as usize
                invariant
                    n < dirty@.len(),
                    rect == dirty@[n as int],
                    ox == rect.x,
                    oy == rect.y,
                    ox <= x,
                    oy <= y < h,
                    y - oy < rect.h,
                    w == img.w,
                    h == img.h,
                    img.same_size(base0),
                    img.valid(),
                    base0.valid(),
                    layer.image@ == img,
                    layer.base_image@.valid(),
                    layer.base_image@.same_size(base0),
                    *layer == (Layer { base_image: layer.base_image, ..*old(layer) }),
                    img == old(layer)@.image,
                    forall|a: int, b: int|
                        base0.inside(a, b) ==> #[trigger] layer.base_image@.at(a, b)
                            == if part_done(dirty@, n as int, y as int, x as int, a, b) {
                            img.at(a, b)
                        } else {
                            base0.at(a, b)
                        },
                decreases w - x,
            {
                let ghost prev = layer.base_image@;
                let c = layer.image.get(x, y);
                layer.base_image.set(x, y, c);
                proof {
                    assert forall|a: int, b: int| base0.inside(a, b) implies #[trigger]
                        layer.base_image@.at(a, b) == if part_done(
                        dirty@,
                        n as int,
                        y as int,
                        x + 1,
                        a,
                        b,
                    ) {
                        img.at(a, b)
                    } else {
                        base0.at(a, b)
                    } by {
                        lemma_with_at(prev, x as int, y as int, c, a, b);
                        assert(prev.at(a, b) == prev.at(a, b));
                        assert(rect.holds(x as int, y as int));
                    }
                }
                x += 1;
            }
            y += 1;
        }
        assert forall|a: int, b: int| base0.inside(a, b) implies #[trigger] layer.base_image@.at(
            a,
            b,
        ) == if changed(dirty@.take(n + 1), a, b) {
            img.at(a, b)
        } else {
            base0.at(a, b)
        } by {
            lemma_changed_step(dirty@, n as int, a, b);
        }
        n += 1;
    }
    assert(dirty@.take(dirty@.len() as int) =~= dirty@);
    proof {
        let f = |x: int, y: int|
            if changed(dirty@, x, y) {
                img.at(x, y)
            } else {
                base0.at(x, y)
            };
        lemma_grid_of(base0.w, base0.h, f);
        assert forall|x: int, y: int| layer.base_image@.inside(x, y) implies #[trigger]
            layer.base_image@.at(x, y) == grid_of(base0.w, base0.h, f).at(x, y) by {
            assert(base0.inside(x, y));
        }
        lemma_grid_eq(layer.base_image@, grid_of(base0.w, base0.h, f));
        assert(layer.base_image@ == mirrored(img, base0, dirty@));
    }
}

/// The size of the picture that a change of pixels is applied to.
pub fn diff_target_size(layer: &Layer) -> (r: Result<(u32, u32), RasterDiffError>)
    ensures
        r is Ok <==> layer.image.w <= u32::MAX && layer.image.h <= u32::MAX,
        r is Ok ==> (r->Ok_0).0 == layer.image.w && (r->Ok_0).1 == layer.image.h,
        r is Err ==> r->Err_0 == RasterDiffError::DimensionOverflow,
{
    match usize_pair_to_u32((layer.image.w, layer.image.h)) {
        Some(size) => Ok(size),
        None => Err(RasterDiffError::DimensionOverflow),
    }
}

/// The outcome of a change of pixels: the picture after it and the rectangles that it changed.
pub struct AppliedDiff {
    pub image: ColorImage,
    pub dirty: Vec<ChangedRect>,
}

/// Takes over the outcome of a change of pixels: the picture is shown, and the changed rectangles
/// are copied into the base.  A failed change leaves the layer as it is.
pub fn apply_raster_diff_to_layer(
    layer: &mut Layer,
    applied: Result<AppliedDiff, RasterDiffError>,
) -> (r: Result<Vec<ChangedRect>, RasterDiffError>)
    requires
        old(layer).wf(),
        applied is Ok ==> (applied->Ok_0).image.wf(),
    ensures
        final(layer).wf(),
        match applied {
            Ok(d) => r is Ok && (r->Ok_0)@ == d.dirty@ && final(layer)@ == (LayerView {
                image: d.image@,
                base_image: mirrored(d.image@, old(layer)@.base_image, d.dirty@),
                ..old(layer)@
            }),
            Err(e) => r == Result::<Vec<ChangedRect>, RasterDiffError>::Err(e) && *final(layer)
                == *old(layer),
        },
{
    match applied {
        Ok(d) => {
            let AppliedDiff { image, dirty } = d;
            layer.image = image;
            mirror_rects_image_to_base(layer, &dirty);
            Ok(dirty)
        },
        Err(e) => Err(e),
    }
}

/// The pictures of one size differ at most inside the rectangles.
pub open spec fn differ_only_in(a: Grid<Color>, b: Grid<Color>, rects: Seq<ChangedRect>) -> bool {
    &&& a.same_size(b)
    &&& forall|x: int, y: int|
        a.inside(x, y) && !changed(rects, x, y) ==> #[trigger] a.at(x, y) == b.at(x, y)
}

/// Where a layer's base agreed with its picture before a change of pixels, or the change covers
/// what was painted since, the base agrees with the picture after it.
pub proof fn mirroring_makes_base_and_image_agree(
    image: Grid<Color>,
    base: Grid<Color>,
    rects: Seq<ChangedRect>,
)
    requires
        image.valid(),
        base.valid(),
        differ_only_in(image, base, rects),
    ensures
        mirrored(image, base, rects) == image,
{
    let f = |x: int, y: int|
        if changed(rects, x, y) {
            image.at(x, y)
        } else {
            base.at(x, y)
        };
    lemma_grid_of(base.w, base.h, f);
    let m = grid_of(base.w, base.h, f);
    assert forall|x: int, y: int| m.inside(x, y) implies #[trigger] m.at(x, y) == image.at(
        x,
        y,
    ) by {
        assert(image.inside(x, y));
        assert(image.at(x, y) == image.at(x, y));
    }
    lemma_grid_eq(m, image);
}

/// Undoing a change and making it again restores both pictures: where the change leads from
/// `before` to `after` inside its rectangles, a layer that shows `after` shows and keeps `before`
/// after the undo, and `after` after the redo.
pub proof fn undo_then_redo_restores(
    before: Grid<Color>,
    after: Grid<Color>,
    base: Grid<Color>,
    rects: Seq<ChangedRect>,
)
    requires
        before.valid(),
        after.valid(),
        base.valid(),
        differ_only_in(before, after, rects),
        differ_only_in(before, base, rects),
    ensures
        mirrored(before, base, rects) == before,
        mirrored(after, before, rects) == after,
{
    mirroring_makes_base_and_image_agree(before, base, rects);
    assert forall|x: int, y: int|
        after.inside(x, y) && !changed(rects, x, y) implies #[trigger] after.at(x, y) == before.at(
        x,
        y,
    ) by {
        assert(before.inside(x, y));
        assert(before.at(x, y) == after.at(x, y));
    }
    mirroring_makes_base_and_image_agree(after, before, rects);
}

/// One of the four bytes of a pixel.
pub open spec fn channel(c: Color, k: int) -> u8 {
    if k == 0 {
        c.r
    } else if k == 1 {
        c.g
    } else if k == 2 {
        c.b
    } else {
        c.a
    }
}

/// The bytes of a region of a picture, row by row; pixels outside the picture are zero.
pub open spec fn region_bytes(image: Grid<Color>, x: int, y: int, w: int, h: int) -> Seq<u8> {
    Seq::new(
        (w * h * 4) as nat,
        |i: int|
            {
                let p = i / 4;
                let px = x + p % w;
                let py = y + p / w;
                if image.inside(px, py) {
                    channel(image.at(px, py), i % 4)
                } else {
                    0u8
                }
            },
    )
}

/// Copies the bytes of a region of a picture.
pub fn copy_region_premul(image: &ColorImage, x: usize, y: usize, w: usize, h: usize) -> (out: Vec<
    u8,
>)
    requires
        image.wf(),
        w * h * 4 <= usize::MAX,
    ensures
        out@ == region_bytes(image@, x as int, y as int, w as int, h as int),
{
    let ghost img = image@;
    let mut out: Vec<u8> = Vec::new();
    assert(w * h <= usize::MAX && w * h * 4 == (w * h) * 4) by (nonlinear_arith)
        requires
            w * h * 4 <= usize::MAX,
    ;
    let n: usize = w * h;
    let mut i: usize = 0;
    let ghost target = region_bytes(img, x as int, y as int, w as int, h as int);
    while i < n
        invariant
            i <= n,
            n == w * h,
            n * 4 <= usize::MAX,
            image.wf(),
            img == image@,
            target == region_bytes(img, x as int, y as int, w as int, h as int),
            target.len() == n * 4,
            out@ == target.take(i * 4),
        decreases n - i,
    {
        proof {
            lemma_position(w as int, h as int, i as int);
        }
        let col: usize = i % w;
        let row: usize = i / w;
        let mut px = crate::color::Color::transparent();
        if x < image.w && col < image.w - x && y < image.h && row < image.h - y {
            px = image.get(x + col, y + row);
        }
        let ghost before = out@;
        out.push(px.r);
        out.push(px.g);
        out.push(px.b);
        out.push(px.a);
        proof {
            assert forall|k: int| 0 <= k < 4 implies #[trigger] target[i * 4 + k] == channel(
                px,
                k,
            ) by {
                assert((i * 4 + k) / 4 == i);
                assert((i * 4 + k) % 4 == k);
            }
            assert(target[i * 4 + 0] == px.r);
            assert(target[i * 4 + 1] == px.g);
            assert(target[i * 4 + 2] == px.b);
            assert(target[i * 4 + 3] == px.a);
            assert(out@ =~= target.take((i + 1) * 4));
        }
        i += 1;
    }
    assert(target.take(n * 4) =~= target);
    out
}

} // verus!
