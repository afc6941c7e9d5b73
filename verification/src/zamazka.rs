//! The paint-over tool: brush, eraser, eyedropper and filled rectangles.

use vstd::prelude::*;
use crate::brush_base::{BrushToolBase, StrokePatch};
use crate::cleaning_tab::ToolGates;
use crate::color::{Color, ColorImage};
#[allow(unused_imports)]
use crate::color::{clear, premultiplied, unmultiplied, Rgba};
use crate::jobs::ProjectPage;
#[allow(unused_imports)]
use crate::jobs::{is_first_with, page_known};
use crate::lists::holds_number;
use crate::mask::{add_capped, mul_capped};
#[allow(unused_imports)]
use crate::mask::capped;
#[allow(unused_imports)]
use crate::overlay_rect::local_chunk;
#[allow(unused_imports)]
use crate::raster::Grid;
use crate::strokes::StrokePoint;

verus! {

#[derive(Clone, Copy, Debug, PartialEq, Eq, Structural)]
pub enum ZamazkaMode {
    Brush,
    Eraser,
    Eyedropper,
    Rect,
}

impl ZamazkaMode {
    pub fn title(self) -> (s: &'static str)
        ensures
            s@ == match self {
                ZamazkaMode::Brush => "Кисть"@,
                ZamazkaMode::Eraser => "Ластик"@,
                ZamazkaMode::Eyedropper => "Пипетка"@,
                ZamazkaMode::Rect => "Прямоуг."@,
            },
    {
        match self {
            ZamazkaMode::Brush => "Кисть",
            ZamazkaMode::Eraser => "Ластик",
            ZamazkaMode::Eyedropper => "Пипетка",
            ZamazkaMode::Rect => "Прямоуг.",
        }
    }
}

/// A page picture kept for the eyedropper.
pub struct BaseImage {
    pub page_idx: usize,
    pub image: ColorImage,
}

/// The paint-over tool.
pub struct ZamazkaTool {
    pub brush_base: BrushToolBase,
    pub color: Color,
    pub mode: ZamazkaMode,
    pub temporary_erase: bool,
    pub rect_erase: bool,
    pub rect_stroke_erase: bool,
    pub rect_start: Option<StrokePoint>,
    pub rect_current: Option<StrokePoint>,
    /// The pages that were painted on directly, each once.
    pub touched_pages: Vec<usize>,
    /// The page pictures at hand, one for each page at most.
    pub base_images: Vec<BaseImage>,
    /// The pages whose pictures are being loaded, each once.
    pub base_load_pending: Vec<usize>,
}

/// What a point of a stroke asks for.
#[derive(Clone, Copy, Debug, PartialEq, Eq, Structural)]
pub enum ZamazkaAction {
    Nothing,
    /// The rectangle was started or moved.
    Rect,
    /// The colour under the point is taken.
    Sample,
    /// The segment goes onto the scratch picture.
    Scratch { erase: bool },
    /// The segment goes straight onto the overlay.
    Direct { erase: bool },
}

/// A rectangle to fill: its corners and its colour.
#[derive(Clone, Copy, Debug, PartialEq, Eq, Structural)]
pub struct RectFill {
    pub start: StrokePoint,
    pub end: StrokePoint,
    pub fill: Color,
}

/// What the end of a stroke commits.
pub struct ZamazkaCommit {
    pub rect: Option<RectFill>,
    pub scratch: Option<StrokePatch>,
    /// The pages to hand over to the model.
    pub pages: Vec<usize>,
}

/// `v` with `x` added unless it is there.
pub open spec fn with_number(v: Seq<usize>, x: usize) -> Seq<usize> {
    if v.contains(x) {
        v
    } else {
        v.push(x)
    }
}

/// `v` without `x`.
pub open spec fn without_number(v: Seq<usize>, x: usize) -> Seq<usize>
    decreases v.len(),
{
    if v.len() == 0 {
        Seq::empty()
    } else {
        let head = without_number(v.drop_last(), x);
        if v.last() == x {
            head
        } else {
            head.push(v.last())
        }
    }
}

fn remove_number(v: &mut Vec<usize>, x: usize)
    ensures
        final(v)@ == without_number(old(v)@, x),
{
    let ghost before = v@;
    let mut out: Vec<usize> = Vec::new();
    let mut i: usize = 0;
    assert(before.take(0) =~= Seq::<usize>::empty());
    while i < v.len()
        invariant
            i <= v@.len(),
            v@ == before,
            out@ == without_number(before.take(i as int), x),
        decreases v@.len() - i,
    {
        let n: usize = v[i];
        if n != x {
            out.push(n);
        }
        i += 1;
        assert(before.take(i as int).drop_last() =~= before.take(i - 1));
        assert(before.take(i as int).last() == n);
    }
    assert(before.take(before.len() as int) =~= before);
    *v = out;
}

/// The colour of a picture at `(x, y)`, if there is one.
pub open spec fn colour_at(image: Grid<Color>, x: int, y: int) -> Option<Color> {
    let i = capped(capped(y * image.w) + x);
    if i < image.px.len() {
        Some(image.px[i])
    } else {
        None
    }
}

fn read_colour(image: &ColorImage, x: usize, y: usize) -> (c: Option<Color>)
    ensures
        c == colour_at(image@, x as int, y as int),
{
    let i: usize = add_capped(mul_capped(y, image.w), x);
    if i < image.px.len() {
        Some(image.px[i])
    } else {
        None
    }
}

/// The colour of the overlay at a pixel, unless it is clear there.
pub fn sample_overlay_color(overlay: &ColorImage, x: usize, y: usize) -> (c: Option<Color>)
    ensures
        c == match colour_at(overlay@, x as int, y as int) {
            Some(px) => if px.a > 0 {
                Some(px)
            } else {
                None
            },
            None => None,
        },
{
    match read_colour(overlay, x, y) {
        Some(px) => if px.a > 0 {
            Some(px)
        } else {
            None
        },
        None => None,
    }
}

/// `after` is `before` with the picture of the page of `b` exchanged for `b`.
pub open spec fn replaces_base(
    before: Seq<BaseImage>,
    after: Seq<BaseImage>,
    b: BaseImage,
) -> bool {
    &&& after.len() == before.len()
    &&& forall|i: int|
        0 <= i < before.len() ==> #[trigger] after[i] == if before[i].page_idx == b.page_idx {
            b
        } else {
            before[i]
        }
}

/// There is one picture for each page at most.
pub open spec fn one_for_each_page(images: Seq<BaseImage>) -> bool {
    forall|i: int, j: int|
        0 <= i < j < images.len() ==> (#[trigger] images[i]).page_idx != (
        #[trigger] images[j]).page_idx
}

proof fn lemma_with_number(v: Seq<usize>, x: usize)
    requires
        v.no_duplicates(),
    ensures
        with_number(v, x).no_duplicates(),
{
}

proof fn lemma_without_number(v: Seq<usize>, x: usize)
    requires
        v.no_duplicates(),
    ensures
        without_number(v, x).no_duplicates(),
        forall|i: int|
            0 <= i < without_number(v, x).len() ==> v.contains(
                #[trigger] without_number(v, x)[i],
            ),
    decreases v.len(),
{
    if v.len() > 0 {
        let head = v.drop_last();
        lemma_without_number(head, x);
        let kept = without_number(head, x);
        assert forall|i: int| 0 <= i < kept.len() implies v.contains(#[trigger] kept[i]) && kept[i]
            != v.last() by {
            let k = choose|k: int| 0 <= k < head.len() && head[k] == kept[i];
            assert(v[k] == kept[i] && k != v.len() - 1);
        }
        assert(v[v.len() - 1] == v.last());
    }
}

impl ZamazkaTool {
    /// The brush is whole, and no page is listed twice.
    pub open spec fn wf(&self) -> bool {
        &&& self.brush_base.wf()
        &&& self.touched_pages@.no_duplicates()
        &&& self.base_load_pending@.no_duplicates()
        &&& one_for_each_page(self.base_images@)
    }

    /// A tool with a red brush.
    pub fn new() -> (t: ZamazkaTool)
        ensures
            t.wf(),
            t.color == (Color { r: 255, g: 0, b: 0, a: 255 }),
            t.mode == ZamazkaMode::Brush,
            !t.temporary_erase,
            !t.rect_erase,
            !t.rect_stroke_erase,
            t.rect_start is None,
            t.rect_current is None,
            t.touched_pages@.len() == 0,
            t.base_images@.len() == 0,
            t.base_load_pending@.len() == 0,
            t.brush_base.radius_px == 24,
            t.brush_base.hardness == 0x3F7D_70A4,
            t.brush_base.blend_colors,
            !t.brush_base.strict_pixel_painting,
            !t.brush_base.space_pan_active,
            t.brush_base.scratch is None,
    {
        ZamazkaTool {
            brush_base: BrushToolBase::default(),
            color: Color::from_rgba_unmultiplied(255, 0, 0, 255),
            mode: ZamazkaMode::Brush,
            temporary_erase: false,
            rect_erase: false,
            rect_stroke_erase: false,
            rect_start: None,
            rect_current: None,
            touched_pages: Vec::new(),
            base_images: Vec::new(),
            base_load_pending: Vec::new(),
        }
    }

    /// Shift, the temporary eraser and the eraser mode erase.
    pub open spec fn erases(&self, point: StrokePoint) -> bool {
        point.modifiers.shift || self.temporary_erase || self.mode == ZamazkaMode::Eraser
    }

    pub fn effective_erase(&self, point: StrokePoint) -> (b: bool)
        ensures
            b == self.erases(point),
    {
        point.modifiers.shift || self.temporary_erase || self.mode == ZamazkaMode::Eraser
    }

    /// The picture of a page is at hand.
    pub open spec fn has_base(&self, page_idx: usize) -> bool {
        exists|i: int|
            0 <= i < self.base_images@.len() && (#[trigger] self.base_images@[i]).page_idx
                == page_idx
    }

    fn base_position(&self, page_idx: usize) -> (r: Option<usize>)
        ensures
            match r {
                Some(i) => i < self.base_images@.len() && self.base_images@[i as int].page_idx
                    == page_idx && forall|k: int|
                    0 <= k < i ==> (#[trigger] self.base_images@[k]).page_idx != page_idx,
                None => !self.has_base(page_idx),
            },
    {
        let mut i: usize = 0;
        while i < self.base_images.len()
            invariant
                i <= self.base_images@.len(),
                forall|k: int| 0 <= k < i ==> (#[trigger] self.base_images@[k]).page_idx != page_idx,
            decreases self.base_images@.len() - i,
        {
            if self.base_images[i].page_idx == page_idx {
                return Some(i);
            }
            i += 1;
        }
        None
    }

    /// Takes in a loaded page picture, or that there is none.
    pub fn poll_base_image(&mut self, page_idx: usize, image: Option<ColorImage>)
        requires
            old(self).wf(),
        ensures
            final(self).wf(),
            final(self).base_load_pending@ == without_number(
                old(self).base_load_pending@,
                page_idx,
            ),
            *final(self) == (ZamazkaTool {
                base_load_pending: final(self).base_load_pending,
                base_images: final(self).base_images,
                ..*old(self)
            }),
            image is None ==> final(self).base_images == old(self).base_images,
            image is Some && !old(self).has_base(page_idx) ==> final(self).base_images@ == old(
                self,
            ).base_images@.push(BaseImage { page_idx, image: image->0 }),
            image is Some && old(self).has_base(page_idx) ==> replaces_base(
                old(self).base_images@,
                final(self).base_images@,
                BaseImage { page_idx, image: image->0 },
            ),
    {
        proof {
            lemma_without_number(self.base_load_pending@, page_idx);
        }
        remove_number(&mut self.base_load_pending, page_idx);
        match image {
            Some(img) => {
                match self.base_position(page_idx) {
                    Some(i) => {
                        let ghost before = self.base_images@;
                        self.base_images.set(i, BaseImage { page_idx, image: img });
                        assert(before[i as int].page_idx == page_idx);
                    },
                    None => {
                        self.base_images.push(BaseImage { page_idx, image: img });
                    },
                }
            },
            None => {},
        }
    }

    /// Whether the picture of a page still has to be asked for.
    pub fn needs_base_image(&self, page_idx: usize) -> (b: bool)
        ensures
            b == (!self.has_base(page_idx) && !self.base_load_pending@.contains(page_idx)),
    {
        self.base_position(page_idx).is_none() && !holds_number(&self.base_load_pending, page_idx)
    }

    /// Where to load the picture of a page from, if it still has to be asked for and the project
    /// has the page.
    pub fn base_request(&self, page_idx: usize, pages: &Vec<ProjectPage>) -> (path: Option<String>)
        ensures
            path is Some <==> page_known(pages@, page_idx) && !self.has_base(page_idx)
                && !self.base_load_pending@.contains(page_idx),
            path is Some ==> exists|i: int|
                is_first_with(pages@, page_idx, i) && (path->0)@ == (#[trigger] pages@[i]).path@,
    {
        let mut i: usize = 0;
        while i < pages.len()
            invariant
                i <= pages@.len(),
                forall|k: int| 0 <= k < i ==> (#[trigger] pages@[k]).idx != page_idx,
            decreases pages@.len() - i,
        {
            if pages[i].idx == page_idx {
                assert(is_first_with(pages@, page_idx, i as int));
                assert(pages@[i as int].idx == page_idx);
                if self.needs_base_image(page_idx) {
                    return Some(pages[i].path.clone());
                }
                return None;
            }
            i += 1;
        }
        None
    }

    /// Records that the picture of a page was asked for, if the loader took the request.
    pub fn queue_base_image_load_if_needed(&mut self, page_idx: usize, sent: bool)
        requires
            old(self).wf(),
            !old(self).has_base(page_idx),
            !old(self).base_load_pending@.contains(page_idx),
        ensures
            final(self).wf(),
            final(self).base_load_pending@ == if sent {
                old(self).base_load_pending@.push(page_idx)
            } else {
                old(self).base_load_pending@
            },
            *final(self) == (ZamazkaTool {
                base_load_pending: final(self).base_load_pending,
                ..*old(self)
            }),
    {
        if sent {
            self.base_load_pending.push(page_idx);
        }
    }

    /// The colour of the page picture at a pixel, if the picture is at hand and has pixels.
    pub fn sample_base_color_from_cache(&self, page_idx: usize, x: usize, y: usize) -> (c: Option<
        Color,
    >)
        requires
            self.wf(),
        ensures
            !self.has_base(page_idx) ==> c is None,
            forall|i: int|
                0 <= i < self.base_images@.len() && (#[trigger] self.base_images@[i]).page_idx
                    == page_idx ==> c == {
                    let base = self.base_images@[i].image;
                    if base.w == 0 || base.h == 0 {
                        None
                    } else {
                        colour_at(base@, x as int, y as int)
                    }
                },
    {
        match self.base_position(page_idx) {
            None => None,
            Some(i) => {
                let base = &self.base_images[i].image;
                let c = if base.w == 0 || base.h == 0 {
                    None
                } else {
                    read_colour(base, x, y)
                };
                assert(self.base_images@[i as int].page_idx == page_idx);
                c
            },
        }
    }

    /// Takes the colour of the overlay, else that of the page; keeps its own where there is
    /// neither.  Tells whether a colour was found.
    pub fn sample_color(&mut self, overlay: Option<Color>, base: Option<Color>) -> (found: bool)
        ensures
            found == (overlay is Some || base is Some),
            *final(self) == (ZamazkaTool {
                color: match overlay {
                    Some(c) => c,
                    None => match base {
                        Some(c) => c,
                        None => old(self).color,
                    },
                },
                ..*old(self)
            }),
    {
        match overlay {
            Some(c) => {
                self.color = c;
                true
            },
            None => match base {
                Some(c) => {
                    self.color = c;
                    true
                },
                None => false,
            },
        }
    }

    /// Sets the opacity of the colour.
    pub fn set_alpha(&mut self, alpha: u8)
        ensures
            final(self).color.a == alpha,
            *final(self) == (ZamazkaTool {
                color: premultiplied(Rgba { a: alpha, ..unmultiplied(old(self).color) }),
                ..*old(self)
            }),
    {
        let c = self.color.to_srgba_unmultiplied();
        self.color = Color::from_rgba_unmultiplied(c.r, c.g, c.b, alpha);
    }

    /// The first point of a stroke.
    pub fn stroke_begin(&mut self, point: StrokePoint) -> (a: ZamazkaAction)
        requires
            old(self).wf(),
        ensures
            final(self).wf(),
            ({
                let off = old(self).brush_base.space_pan_active;
                let rect = point.modifiers.ctrl || old(self).mode == ZamazkaMode::Rect;
                &&& a == if off {
                    ZamazkaAction::Nothing
                } else if rect {
                    ZamazkaAction::Rect
                } else if old(self).mode == ZamazkaMode::Eyedropper {
                    ZamazkaAction::Sample
                } else {
                    ZamazkaAction::Scratch { erase: old(self).erases(point) }
                }
                &&& !off && rect ==> *final(self) == (ZamazkaTool {
                    rect_stroke_erase: (point.modifiers.ctrl && point.modifiers.shift) || (old(
                        self,
                    ).mode == ZamazkaMode::Rect && old(self).rect_erase),
                    rect_start: Some(point),
                    rect_current: Some(point),
                    ..*old(self)
                })
                &&& off || !rect ==> *final(self) == *old(self)
            }),
    {
        if self.brush_base.should_ignore_drawing() {
            return ZamazkaAction::Nothing;
        }
        if point.modifiers.ctrl || self.mode == ZamazkaMode::Rect {
            self.rect_stroke_erase = (point.modifiers.ctrl && point.modifiers.shift) || (self.mode
                == ZamazkaMode::Rect && self.rect_erase);
            self.rect_start = Some(point);
            self.rect_current = Some(point);
            return ZamazkaAction::Rect;
        }
        if self.mode == ZamazkaMode::Eyedropper {
            return ZamazkaAction::Sample;
        }
        ZamazkaAction::Scratch { erase: self.effective_erase(point) }
    }

    /// A further point of a stroke.  Without a scratch picture the segment goes straight onto the
    /// overlay of its page.
    pub fn stroke_update(&mut self, from: StrokePoint, to: StrokePoint) -> (a: ZamazkaAction)
        requires
            old(self).wf(),
        ensures
            final(self).wf(),
            ({
                let off = old(self).brush_base.space_pan_active;
                let rect = old(self).rect_start is Some;
                let direct = !off && !rect && old(self).mode != ZamazkaMode::Eyedropper && old(
                    self,
                ).brush_base.scratch is None;
                &&& a == if off {
                    ZamazkaAction::Nothing
                } else if rect {
                    ZamazkaAction::Rect
                } else if old(self).mode == ZamazkaMode::Eyedropper {
                    ZamazkaAction::Sample
                } else if direct {
                    ZamazkaAction::Direct { erase: old(self).erases(from) }
                } else {
                    ZamazkaAction::Scratch { erase: old(self).erases(from) }
                }
                &&& final(self).touched_pages@ == if direct {
                    with_number(old(self).touched_pages@, to.page_idx)
                } else {
                    old(self).touched_pages@
                }
                &&& *final(self) == (ZamazkaTool {
                    touched_pages: final(self).touched_pages,
                    rect_current: if !off && rect {
                        Some(to)
                    } else {
                        old(self).rect_current
                    },
                    ..*old(self)
                })
            }),
    {
        if self.brush_base.should_ignore_drawing() {
            return ZamazkaAction::Nothing;
        }
        if self.rect_start.is_some() {
            self.rect_current = Some(to);
            return ZamazkaAction::Rect;
        }
        if self.mode == ZamazkaMode::Eyedropper {
            return ZamazkaAction::Sample;
        }
        if self.brush_base.scratch_active() {
            return ZamazkaAction::Scratch { erase: self.effective_erase(from) };
        }
        self.touch_page(to.page_idx);
        ZamazkaAction::Direct { erase: self.effective_erase(from) }
    }

    /// Notes that a page is painted on directly.
    pub fn touch_page(&mut self, page_idx: usize)
        requires
            old(self).wf(),
        ensures
            final(self).wf(),
            final(self).touched_pages@ == with_number(old(self).touched_pages@, page_idx),
            *final(self) == (ZamazkaTool { touched_pages: final(self).touched_pages, ..*old(self) }),
    {
        proof {
            lemma_with_number(self.touched_pages@, page_idx);
        }
        if !holds_number(&self.touched_pages, page_idx) {
            self.touched_pages.push(page_idx);
        }
    }

    /// A segment could not go onto the scratch picture: what is on it is handed over, and the page
    /// of the segment is painted on directly.
    pub fn leave_scratch(&mut self, page_idx: usize) -> (patch: Option<StrokePatch>)
        requires
            old(self).wf(),
        ensures
            final(self).wf(),
            final(self).touched_pages@ == with_number(old(self).touched_pages@, page_idx),
            *final(self) == (ZamazkaTool {
                brush_base: BrushToolBase { scratch: None, ..old(self).brush_base },
                touched_pages: final(self).touched_pages,
                ..*old(self)
            }),
            patch is Some <==> old(self).brush_base.scratch is Some && (old(
                self,
            ).brush_base.scratch->0).dirty_rect is Some,
            patch is Some ==> {
                let s = old(self).brush_base.scratch->0;
                let p = patch->0;
                &&& p.page_idx == s.page_idx
                &&& Some(p.rect) == s.dirty_rect
                &&& p.image@ == local_chunk(s.image@, s.overlay_rect, p.rect)
            },
    {
        let patch = self.brush_base.commit_scratch_stroke();
        self.touch_page(page_idx);
        patch
    }

    /// The rectangle that the stroke has drawn: on one page, in the colour or erased.
    pub fn commit_rect(&self) -> (r: Option<RectFill>)
        ensures
            r == if self.rect_start is Some && self.rect_current is Some && (
            self.rect_start->0).page_idx == (self.rect_current->0).page_idx {
                Some(
                    RectFill {
                        start: self.rect_start->0,
                        end: self.rect_current->0,
                        fill: if self.rect_stroke_erase {
                            clear()
                        } else {
                            self.color
                        },
                    },
                )
            } else {
                None
            },
    {
        match (self.rect_start, self.rect_current) {
            (Some(start), Some(end)) => {
                if start.page_idx != end.page_idx {
                    return None;
                }
                let fill = if self.rect_stroke_erase { Color::transparent() } else { self.color };
                Some(RectFill { start, end, fill })
            },
            _ => None,
        }
    }

    /// The end of a stroke: the rectangle, the scratch picture and the touched pages are handed
    /// over, and nothing of the stroke remains.
    pub fn stroke_end(&mut self) -> (c: ZamazkaCommit)
        requires
            old(self).wf(),
        ensures
            final(self).wf(),
            c.pages@ == old(self).touched_pages@,
            c.pages@.no_duplicates(),
            final(self).touched_pages@.len() == 0,
            c.rect == if old(self).rect_start is Some && old(self).rect_current is Some && (old(
                self,
            ).rect_start->0).page_idx == (old(self).rect_current->0).page_idx {
                Some(
                    RectFill {
                        start: old(self).rect_start->0,
                        end: old(self).rect_current->0,
                        fill: if old(self).rect_stroke_erase {
                            clear()
                        } else {
                            old(self).color
                        },
                    },
                )
            } else {
                None
            },
            c.scratch is Some <==> old(self).brush_base.scratch is Some && (old(
                self,
            ).brush_base.scratch->0).dirty_rect is Some,
            c.scratch is Some ==> {
                let s = old(self).brush_base.scratch->0;
                let p = c.scratch->0;
                &&& p.page_idx == s.page_idx
                &&& Some(p.rect) == s.dirty_rect
                &&& p.image@ == local_chunk(s.image@, s.overlay_rect, p.rect)
            },
            *final(self) == (ZamazkaTool {
                brush_base: BrushToolBase { scratch: None, ..old(self).brush_base },
                rect_stroke_erase: if old(self).rect_start is Some {
                    false
                } else {
                    old(self).rect_stroke_erase
                },
                rect_start: None,
                rect_current: if old(self).rect_start is Some {
                    None
                } else {
                    old(self).rect_current
                },
                touched_pages: final(self).touched_pages,
                ..*old(self)
            }),
    {
        let rect = self.commit_rect();
        if self.rect_start.is_some() {
            self.rect_stroke_erase = false;
            self.rect_start = None;
            self.rect_current = None;
        }
        let scratch = self.brush_base.commit_scratch_stroke();
        let mut pages: Vec<usize> = Vec::new();
        pages.append(&mut self.touched_pages);
        assert(pages@ =~= old(self).touched_pages@);
        ZamazkaCommit { rect, scratch, pages }
    }

    /// Leaves the tool: what was being drawn is dropped.
    pub fn deactivate(&mut self)
        requires
            old(self).wf(),
        ensures
            final(self).wf(),
            *final(self) == (ZamazkaTool {
                brush_base: BrushToolBase {
                    space_pan_active: false,
                    scratch: None,
                    ..old(self).brush_base
                },
                rect_stroke_erase: false,
                rect_start: None,
                rect_current: None,
                ..*old(self)
            }),
    {
        self.brush_base.set_space_pan_active(false);
        self.brush_base.cancel_scratch_stroke();
        self.rect_stroke_erase = false;
        self.rect_start = None;
        self.rect_current = None;
    }

    /// What the canvas must leave to the tool.
    pub fn gates(&self) -> (g: ToolGates)
        ensures
            g == (ToolGates {
                blocks_zoom: false,
                blocks_zoom_on_ctrl_primary: true,
                blocks_drag_on_primary: !self.brush_base.space_pan_active,
                blocks_drag_on_secondary: !self.brush_base.space_pan_active,
                space_pan_active: self.brush_base.space_pan_active,
            }),
    {
        let panning: bool = self.brush_base.space_pan_active();
        ToolGates {
            blocks_zoom: false,
            blocks_zoom_on_ctrl_primary: true,
            blocks_drag_on_primary: !panning,
            blocks_drag_on_secondary: !panning,
            space_pan_active: panning,
        }
    }

    /// Whether the circle of the brush is under the pointer: it hides bubbles, and the overlay of
    /// its page is made ready.
    pub fn brush_shown(&self) -> (b: bool)
        ensures
            b == (!self.brush_base.space_pan_active && self.mode != ZamazkaMode::Rect),
    {
        !self.brush_base.should_ignore_drawing() && self.mode != ZamazkaMode::Rect
    }

    /// Whether a secondary click takes a colour.
    pub fn secondary_click(&self) -> (b: bool)
        ensures
            b == !self.brush_base.space_pan_active,
    {
        !self.brush_base.should_ignore_drawing()
    }
}

} // verus!
