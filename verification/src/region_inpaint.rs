//! Painting masks over a region and having the region filled in under them.

use vstd::prelude::*;
use vstd::string::StringExecFns;
use crate::color::{Color, ColorImage};
#[allow(unused_imports)]
use crate::color::clear;
#[allow(unused_imports)]
use crate::jobs::says;
use crate::mask::mul_capped;
#[allow(unused_imports)]
use crate::mask::capped;
use crate::raster::{Grid, Raster};
#[allow(unused_imports)]
use crate::raster::grid_of;
use crate::region_edit::{
    image_stroke_segment, ImageStrokeInput, RegionEditToolBase, RegionEditorSession,
    SelectionPoints,
};
#[allow(unused_imports)]
use crate::region_edit::{idle_tool, segment_of};
use crate::strokes::{RegionEditorStrokeSegment, StrokePoint};
use crate::text::append_decimal;
#[allow(unused_imports)]
use crate::text::decimal;

verus! {

/// The mask that is being painted: what to remove, or what to take as a sample.
#[derive(Clone, Copy, Debug, PartialEq, Eq, Structural)]
pub enum RegionInpaintMaskTarget {
    Inpaint,
    Sample,
}

/// The detector that finds text for a mask.
#[derive(Clone, Copy, Debug, PartialEq, Eq, Structural)]
pub enum RegionMaskGenerationMethod {
    ComicTextDetector,
    PaddleOcr,
    Surya,
}

impl RegionMaskGenerationMethod {
    pub open spec fn name(self) -> Seq<char> {
        match self {
            RegionMaskGenerationMethod::ComicTextDetector => "ComicTextDetector"@,
            RegionMaskGenerationMethod::PaddleOcr => "PaddleOCR"@,
            RegionMaskGenerationMethod::Surya => "Surya"@,
        }
    }

    /// The detector runs on PyTorch.
    pub open spec fn on_torch(self) -> bool {
        !(self is PaddleOcr)
    }

    pub fn label(self) -> (s: &'static str)
        ensures
            s@ == self.name(),
    {
        match self {
            RegionMaskGenerationMethod::ComicTextDetector => "ComicTextDetector",
            RegionMaskGenerationMethod::PaddleOcr => "PaddleOCR",
            RegionMaskGenerationMethod::Surya => "Surya",
        }
    }

    pub fn needs_torch(self) -> (b: bool)
        ensures
            b == self.on_torch(),
    {
        match self {
            RegionMaskGenerationMethod::PaddleOcr => false,
            _ => true,
        }
    }
}

/// Which detector to use, and how far to grow its mask.
#[derive(Clone, Copy, Debug, PartialEq, Eq, Structural)]
pub struct RegionMaskGenerationParams {
    pub method: RegionMaskGenerationMethod,
    pub dilate_size: i32,
}

impl Default for RegionMaskGenerationParams {
    fn default() -> (p: RegionMaskGenerationParams)
        ensures
            p.method == RegionMaskGenerationMethod::ComicTextDetector,
            p.dilate_size == 7,
    {
        RegionMaskGenerationParams {
            method: RegionMaskGenerationMethod::ComicTextDetector,
            dilate_size: 7,
        }
    }
}

/// What a run starts from: the picture and the masks over it.
pub struct RegionInpaintRunSource {
    pub image: ColorImage,
    pub mask: ColorImage,
    pub sample_mask: Option<ColorImage>,
}

/// The picture and the masks as mathematical values.
#[verifier::ext_equal]
pub struct SourceView {
    pub image: Grid<Color>,
    pub mask: Grid<Color>,
    pub sample: Option<Grid<Color>>,
}

pub open spec fn optional_view(o: Option<ColorImage>) -> Option<Grid<Color>> {
    match o {
        Some(i) => Some(i@),
        None => None,
    }
}

impl View for RegionInpaintRunSource {
    type V = SourceView;

    open spec fn view(&self) -> SourceView {
        SourceView {
            image: self.image@,
            mask: self.mask@,
            sample: optional_view(self.sample_mask),
        }
    }
}

impl RegionInpaintRunSource {
    pub open spec fn wf(&self) -> bool {
        self.image.wf() && self.mask.wf() && (self.sample_mask is Some ==> (
        self.sample_mask->0).wf())
    }

    pub fn copied(&self) -> (s: RegionInpaintRunSource)
        ensures
            s@ == self@,
            s.wf() == self.wf(),
    {
        let sample_mask = match &self.sample_mask {
            Some(m) => Some(m.copied()),
            None => None,
        };
        RegionInpaintRunSource { image: self.image.copied(), mask: self.mask.copied(), sample_mask }
    }
}

/// What became of filling in.
pub enum ProcessingEvent {
    Done { source: RegionInpaintRunSource, result: Result<ColorImage, String> },
    Disconnected,
}

/// What became of generating a mask.
pub enum MaskGenerationEvent {
    Done(Result<ColorImage, String>),
    Disconnected,
}

/// The masks over a region, the runs that can be undone, and what is running.
pub struct RegionInpaintEditorState {
    pub session_scroll_id: u64,
    pub sample_mask_enabled: bool,
    pub active_mask_target: RegionInpaintMaskTarget,
    pub mask: ColorImage,
    pub mask_texture_dirty: bool,
    pub sample_mask: Option<ColorImage>,
    pub sample_mask_texture_dirty: bool,
    pub last_drag_px: Option<(i32, i32)>,
    pub undo_stack: Vec<RegionInpaintRunSource>,
    pub rerun_source: Option<RegionInpaintRunSource>,
    pub processing: bool,
    pub generating: bool,
}

/// The buttons that can be pressed.
#[derive(Clone, Copy, Debug, PartialEq, Eq, Structural)]
pub struct InpaintButtons {
    pub generate_mask: bool,
    pub run: bool,
    pub rerun: bool,
    pub undo: bool,
    pub apply: bool,
}

/// A clear mask of the given size.
pub open spec fn blank(w: int, h: int) -> Grid<Color> {
    grid_of(w, h, |x: int, y: int| clear())
}

pub open spec fn stack_view(stack: Seq<RegionInpaintRunSource>) -> Seq<SourceView> {
    stack.map_values(|s: RegionInpaintRunSource| s@)
}

pub open spec fn optional_source(o: Option<RegionInpaintRunSource>) -> Option<SourceView> {
    match o {
        Some(s) => Some(s@),
        None => None,
    }
}

/// The region, its masks and its history as mathematical values.
#[verifier::ext_equal]
pub struct InpaintView {
    pub current: SourceView,
    pub undo: Seq<SourceView>,
    pub rerun: Option<SourceView>,
}

/// The editor and its state seen together.
pub open spec fn inpaint_view(editor: RegionEditorSession, state: RegionInpaintEditorState) -> InpaintView {
    InpaintView {
        current: SourceView {
            image: editor.image@,
            mask: state.mask@,
            sample: optional_view(state.sample_mask),
        },
        undo: stack_view(state.undo_stack@),
        rerun: optional_source(state.rerun_source),
    }
}

/// The view after a run that started from `source` brought `out`: the masks are clear, and the
/// source can be returned to and run again.
pub open spec fn processed(v: InpaintView, source: SourceView, out: Grid<Color>, sample_enabled: bool) -> InpaintView {
    InpaintView {
        current: SourceView {
            image: out,
            mask: blank(out.w, out.h),
            sample: if sample_enabled {
                Some(blank(out.w, out.h))
            } else {
                None
            },
        },
        undo: v.undo.push(source),
        rerun: Some(source),
    }
}

/// The view after going back to the source of the last run.
pub open spec fn undone(v: InpaintView, sample_enabled: bool) -> InpaintView {
    let source = v.undo.last();
    InpaintView {
        current: SourceView {
            image: source.image,
            mask: source.mask,
            sample: if sample_enabled {
                match source.sample {
                    Some(s) => Some(s),
                    None => Some(blank(source.image.w, source.image.h)),
                }
            } else {
                None
            },
        },
        undo: v.undo.drop_last(),
        rerun: Some(source),
    }
}

/// Going back after a run restores the picture, the masks and the older history.
pub proof fn undo_restores_what_was_processed(v: InpaintView, out: Grid<Color>, sample_enabled: bool)
    requires
        v.current.sample is Some <==> sample_enabled,
    ensures
        undone(processed(v, v.current, out, sample_enabled), sample_enabled).current == v.current,
        undone(processed(v, v.current, out, sample_enabled), sample_enabled).undo == v.undo,
        processed(v, v.current, out, sample_enabled).rerun == Some(v.current),
{
    assert(v.undo.push(v.current).drop_last() =~= v.undo);
}

/// The message about a changed size.
pub open spec fn size_message(a: Grid<Color>, b: Grid<Color>) -> Seq<char> {
    "Внимание: размер после обработки изменился ("@ + decimal(a.w as nat) + "x"@ + decimal(
        a.h as nat,
    ) + " -> "@ + decimal(b.w as nat) + "x"@ + decimal(b.h as nat) + ")."@
}

/// The message about a mask of the wrong size.
pub open spec fn mask_size_message(mask: Grid<Color>, image: Grid<Color>) -> Seq<char> {
    "Ошибка генерации маски: backend вернул размер "@ + decimal(mask.w as nat) + "x"@ + decimal(
        mask.h as nat,
    ) + ", ожидалось "@ + decimal(image.w as nat) + "x"@ + decimal(image.h as nat) + "."@
}

fn append_size(s: &mut String, w: usize, h: usize)
    ensures
        final(s)@ == old(s)@ + decimal(w as nat) + "x"@ + decimal(h as nat),
{
    append_decimal(s, w);
    s.append("x");
    append_decimal(s, h);
}

impl RegionInpaintEditorState {
    /// Every picture that the state holds has its pixels.
    pub open spec fn wf(&self) -> bool {
        &&& self.mask.wf()
        &&& self.sample_mask is Some ==> (self.sample_mask->0).wf()
        &&& self.rerun_source is Some ==> (self.rerun_source->0).wf()
        &&& forall|i: int| 0 <= i < self.undo_stack@.len() ==> (#[trigger] self.undo_stack@[i]).wf()
    }

    /// The state of a session in which nothing was done yet: clear masks, no history, and nothing
    /// running.
    pub open spec fn untouched(
        self,
        session_scroll_id: u64,
        w: int,
        h: int,
        sample_mask_enabled: bool,
    ) -> bool {
        &&& self.session_scroll_id == session_scroll_id
        &&& self.sample_mask_enabled == sample_mask_enabled
        &&& self.active_mask_target == RegionInpaintMaskTarget::Inpaint
        &&& self.mask@ == blank(w, h)
        &&& self.mask_texture_dirty
        &&& optional_view(self.sample_mask) == if sample_mask_enabled {
            Some(blank(w, h))
        } else {
            None
        }
        &&& self.sample_mask_texture_dirty == sample_mask_enabled
        &&& self.last_drag_px is None
        &&& self.undo_stack@.len() == 0
        &&& self.rerun_source is None
        &&& !self.processing
        &&& !self.generating
    }

    /// The state with clear masks of a size, and otherwise as before.
    pub open spec fn cleared_since(self, before: RegionInpaintEditorState, w: int, h: int) -> bool {
        &&& self.mask@ == blank(w, h)
        &&& optional_view(self.sample_mask) == if before.sample_mask_enabled {
            Some(blank(w, h))
        } else {
            None
        }
        &&& self == (RegionInpaintEditorState {
            mask: self.mask,
            mask_texture_dirty: true,
            sample_mask: self.sample_mask,
            sample_mask_texture_dirty: before.sample_mask_enabled,
            last_drag_px: None,
            ..before
        })
    }

    pub fn new(session_scroll_id: u64, w: usize, h: usize, sample_mask_enabled: bool) -> (s:
        RegionInpaintEditorState)
        requires
            w * h <= usize::MAX,
        ensures
            s.wf(),
            s.untouched(session_scroll_id, w as int, h as int, sample_mask_enabled),
    {
        let sample_mask = if sample_mask_enabled {
            Some(Raster::filled(w, h, Color::transparent()))
        } else {
            None
        };
        RegionInpaintEditorState {
            session_scroll_id,
            sample_mask_enabled,
            active_mask_target: RegionInpaintMaskTarget::Inpaint,
            mask: Raster::filled(w, h, Color::transparent()),
            mask_texture_dirty: true,
            sample_mask,
            sample_mask_texture_dirty: sample_mask_enabled,
            last_drag_px: None,
            undo_stack: Vec::new(),
            rerun_source: None,
            processing: false,
            generating: false,
        }
    }

    /// Clears the masks and gives them a size.
    pub fn reset_masks(&mut self, w: usize, h: usize)
        requires
            old(self).wf(),
            w * h <= usize::MAX,
        ensures
            final(self).wf(),
            final(self).cleared_since(*old(self), w as int, h as int),
    {
        self.mask = Raster::filled(w, h, Color::transparent());
        self.mask_texture_dirty = true;
        if self.sample_mask_enabled {
            self.sample_mask = Some(Raster::filled(w, h, Color::transparent()));
            self.sample_mask_texture_dirty = true;
        } else {
            self.sample_mask = None;
            self.sample_mask_texture_dirty = false;
        }
        self.last_drag_px = None;
    }

    /// The state for an editor: a new one where the last one belonged to another session or had
    /// another kind of masks, with clear masks where those do not fit the picture.
    pub fn ensure_editor_state(
        slot: Option<RegionInpaintEditorState>,
        editor: &RegionEditorSession,
        sample_mask_enabled: bool,
    ) -> (s: RegionInpaintEditorState)
        requires
            slot is Some ==> (slot->0).wf(),
            editor.image.wf(),
        ensures
            s.wf(),
            ({
                let fresh = slot is None || (slot->0).session_scroll_id != editor.scroll_id || (
                slot->0).sample_mask_enabled != sample_mask_enabled;
                let fits = (slot->0).mask.w == editor.image.w && (slot->0).mask.h == editor.image.h;
                &&& !fresh && fits ==> s == slot->0
                &&& fresh ==> s.untouched(
                    editor.scroll_id,
                    editor.image@.w,
                    editor.image@.h,
                    sample_mask_enabled,
                )
                &&& !fresh && !fits ==> s.cleared_since(slot->0, editor.image@.w, editor.image@.h)
            }),
            s.mask@.same_size(editor.image@),
    {
        assert(editor.image.px.len() <= usize::MAX);
        match slot {
            None => RegionInpaintEditorState::new(
                editor.scroll_id,
                editor.image.w,
                editor.image.h,
                sample_mask_enabled,
            ),
            Some(state) => {
                if state.session_scroll_id != editor.scroll_id || state.sample_mask_enabled
                    != sample_mask_enabled {
                    return RegionInpaintEditorState::new(
                        editor.scroll_id,
                        editor.image.w,
                        editor.image.h,
                        sample_mask_enabled,
                    );
                }
                let mut state = state;
                if state.mask.w != editor.image.w || state.mask.h != editor.image.h {
                    state.reset_masks(editor.image.w, editor.image.h);
                }
                state
            },
        }
    }

    /// The mask that strokes are drawn into.
    pub open spec fn stroke_target(&self) -> Option<RegionInpaintMaskTarget> {
        if !self.sample_mask_enabled || self.active_mask_target != RegionInpaintMaskTarget::Sample {
            Some(RegionInpaintMaskTarget::Inpaint)
        } else if self.sample_mask is Some {
            Some(RegionInpaintMaskTarget::Sample)
        } else {
            None
        }
    }

    /// Whether strokes go to the sample mask.
    pub fn paints_into_sample(&self) -> (b: bool)
        ensures
            b == (self.sample_mask_enabled && self.active_mask_target
                == RegionInpaintMaskTarget::Sample),
    {
        self.sample_mask_enabled && self.active_mask_target == RegionInpaintMaskTarget::Sample
    }

    /// Follows input over the picture: returns the segment to draw and the mask to draw it into.
    /// Without a sample mask there is nothing to draw a sample into.
    pub fn mask_stroke(&mut self, i: ImageStrokeInput) -> (s: Option<MaskStroke>)
        ensures
            ({
                let (segment, last) = segment_of(old(self).last_drag_px, i);
                let target = old(self).stroke_target();
                let drawn = segment is Some;
                &&& s == if drawn {
                    Some(MaskStroke { segment: segment->0, target })
                } else {
                    None
                }
                &&& *final(self) == (RegionInpaintEditorState {
                    last_drag_px: last,
                    mask_texture_dirty: old(self).mask_texture_dirty || (drawn && target == Some(
                        RegionInpaintMaskTarget::Inpaint,
                    )),
                    sample_mask_texture_dirty: old(self).sample_mask_texture_dirty || (drawn
                        && target == Some(RegionInpaintMaskTarget::Sample)),
                    ..*old(self)
                })
            }),
    {
        let segment = match image_stroke_segment(&mut self.last_drag_px, i) {
            Some(s) => s,
            None => {
                return None;
            },
        };
        if self.paints_into_sample() {
            if self.sample_mask.is_none() {
                return Some(MaskStroke { segment, target: None });
            }
            self.sample_mask_texture_dirty = true;
            Some(MaskStroke { segment, target: Some(RegionInpaintMaskTarget::Sample) })
        } else {
            self.mask_texture_dirty = true;
            Some(MaskStroke { segment, target: Some(RegionInpaintMaskTarget::Inpaint) })
        }
    }

    /// The buttons that can be pressed: none that starts work while work is running.
    pub fn buttons(
        &self,
        ai_backend_available: bool,
        ai_backend_torch_available: bool,
        method: RegionMaskGenerationMethod,
    ) -> (b: InpaintButtons)
        ensures
            ({
                let idle = !self.processing && !self.generating;
                b == (InpaintButtons {
                    generate_mask: idle && ai_backend_available && (method.on_torch()
                        ==> ai_backend_torch_available),
                    run: idle,
                    rerun: idle && self.rerun_source is Some,
                    undo: idle && self.undo_stack@.len() > 0,
                    apply: idle,
                })
            }),
    {
        let idle: bool = !self.processing && !self.generating;
        InpaintButtons {
            generate_mask: idle && ai_backend_available && (!method.needs_torch()
                || ai_backend_torch_available),
            run: idle,
            rerun: idle && self.rerun_source.is_some(),
            undo: idle && self.undo_stack.len() > 0,
            apply: idle,
        }
    }

    /// Starts filling in from the picture as it is, or from the source of the last run.  Returns
    /// what to run on.
    pub fn run_processing(&mut self, editor: &mut RegionEditorSession, use_rerun_source: bool) -> (source: Option<
        RegionInpaintRunSource,
    >)
        requires
            old(self).wf(),
            old(editor).image.wf(),
        ensures
            final(self).wf(),
            ({
                let wanted = if use_rerun_source {
                    inpaint_view(*old(editor), *old(self)).rerun
                } else {
                    Some(inpaint_view(*old(editor), *old(self)).current)
                };
                &&& source is Some <==> !old(self).processing && wanted is Some
                &&& source is Some ==> (source->0).wf() && (source->0)@ == wanted->0
                &&& *final(self) == (RegionInpaintEditorState {
                    processing: old(self).processing || source is Some,
                    ..*old(self)
                })
                &&& *final(editor) == (RegionEditorSession {
                    status: final(editor).status,
                    ..*old(editor)
                })
                &&& says(
                    final(editor).status,
                    if old(self).processing {
                        "Обработка уже выполняется..."@
                    } else if wanted is None {
                        "Нет сохранённого состояния для «Переделать»."@
                    } else {
                        "Обработка в фоне..."@
                    },
                )
            }),
    {
        if self.processing {
            editor.status = Some(String::from_str("Обработка уже выполняется..."));
            return None;
        }
        let source = if use_rerun_source {
            match &self.rerun_source {
                Some(s) => Some(s.copied()),
                None => None,
            }
        } else {
            let sample_mask = match &self.sample_mask {
                Some(m) => Some(m.copied()),
                None => None,
            };
            Some(
                RegionInpaintRunSource {
                    image: editor.image.copied(),
                    mask: self.mask.copied(),
                    sample_mask,
                },
            )
        };
        if source.is_none() {
            editor.status = Some(String::from_str("Нет сохранённого состояния для «Переделать»."));
            return None;
        }
        self.processing = true;
        editor.status = Some(String::from_str("Обработка в фоне..."));
        source
    }

    /// Starts generating a mask for the picture unless something is running.
    pub fn run_mask_generation(&mut self, editor: &mut RegionEditorSession) -> (started: bool)
        ensures
            started == (!old(self).processing && !old(self).generating),
            *final(self) == (RegionInpaintEditorState {
                generating: old(self).generating || started,
                ..*old(self)
            }),
            *final(editor) == (RegionEditorSession { status: final(editor).status, ..*old(editor) }),
            says(
                final(editor).status,
                if started {
                    "Генерация маски в фоне..."@
                } else {
                    "Фоновая операция уже выполняется..."@
                },
            ),
    {
        if self.processing || self.generating {
            editor.status = Some(String::from_str("Фоновая операция уже выполняется..."));
            return false;
        }
        self.generating = true;
        editor.status = Some(String::from_str("Генерация маски в фоне..."));
        true
    }

    /// Takes in what became of filling in.
    pub fn poll_processing_result(&mut self, editor: &mut RegionEditorSession, event: ProcessingEvent)
        requires
            old(self).wf(),
            old(editor).image.wf(),
            event matches ProcessingEvent::Done { source, result } ==> source.wf() && (result is Ok ==> (
            result->Ok_0).wf()),
        ensures
            final(self).wf(),
            final(editor).image.wf(),
            !final(self).processing,
            final(self).generating == old(self).generating,
            final(self).session_scroll_id == old(self).session_scroll_id,
            final(self).sample_mask_enabled == old(self).sample_mask_enabled,
            final(self).active_mask_target == old(self).active_mask_target,
            match event {
                ProcessingEvent::Done { source, result } => match result {
                    Ok(out) => {
                        &&& inpaint_view(*final(editor), *final(self)) == processed(
                            inpaint_view(*old(editor), *old(self)),
                            source@,
                            out@,
                            old(self).sample_mask_enabled,
                        )
                        &&& final(self).mask_texture_dirty
                        &&& final(self).sample_mask_texture_dirty == old(self).sample_mask_enabled
                        &&& final(self).last_drag_px is None
                        &&& *final(editor) == (RegionEditorSession {
                            image: out,
                            texture_dirty: true,
                            status: final(editor).status,
                            ..*old(editor)
                        })
                        &&& says(
                            final(editor).status,
                            if source.image@.same_size(out@) {
                                "Обработка завершена."@
                            } else {
                                size_message(source.image@, out@)
                            },
                        )
                    },
                    Err(err) => {
                        &&& *final(self) == (RegionInpaintEditorState {
                            processing: false,
                            ..*old(self)
                        })
                        &&& *final(editor) == (RegionEditorSession {
                            status: final(editor).status,
                            ..*old(editor)
                        })
                        &&& says(final(editor).status, "Ошибка обработки: "@ + err@)
                    },
                },
                ProcessingEvent::Disconnected => {
                    &&& *final(self) == (RegionInpaintEditorState {
                        processing: false,
                        ..*old(self)
                    })
                    &&& *final(editor) == (RegionEditorSession {
                        status: final(editor).status,
                        ..*old(editor)
                    })
                    &&& says(
                        final(editor).status,
                        "Обработка прервана: фоновой поток завершился неожиданно."@,
                    )
                },
            },
    {
        self.processing = false;
        match event {
            ProcessingEvent::Done { source, result } => match result {
                Ok(out) => {
                    let ghost before = stack_view(self.undo_stack@);
                    let w0: usize = source.image.w;
                    let h0: usize = source.image.h;
                    let w: usize = out.w;
                    let h: usize = out.h;
                    assert(out.px.len() <= usize::MAX);
                    self.undo_stack.push(source.copied());
                    editor.image = out;
                    editor.texture_dirty = true;
                    self.rerun_source = Some(source);
                    self.reset_masks(w, h);
                    assert(stack_view(self.undo_stack@) =~= before.push(source@));
                    if w0 != w || h0 != h {
                        let mut s = String::from_str(
                            "Внимание: размер после обработки изменился (",
                        );
                        append_size(&mut s, w0, h0);
                        s.append(" -> ");
                        append_size(&mut s, w, h);
                        s.append(").");
                        assert(s@ =~= size_message(source.image@, out@));
                        editor.status = Some(s);
                    } else {
                        editor.status = Some(String::from_str("Обработка завершена."));
                    }
                },
                Err(err) => {
                    let mut s = String::from_str("Ошибка обработки: ");
                    s.append(err.as_str());
                    editor.status = Some(s);
                },
            },
            ProcessingEvent::Disconnected => {
                editor.status = Some(
                    String::from_str("Обработка прервана: фоновой поток завершился неожиданно."),
                );
            },
        }
    }

    /// Takes in what became of generating a mask.  A mask of another size is refused.
    pub fn poll_mask_generation_result(
        &mut self,
        editor: &mut RegionEditorSession,
        event: MaskGenerationEvent,
    )
        requires
            old(self).wf(),
            event matches MaskGenerationEvent::Done(Ok(mask)) ==> mask.wf(),
        ensures
            final(self).wf(),
            *final(editor) == (RegionEditorSession { status: final(editor).status, ..*old(editor) }),
            match event {
                MaskGenerationEvent::Done(Ok(mask)) => if mask@.same_size(old(editor).image@) {
                    &&& *final(self) == (RegionInpaintEditorState {
                        generating: false,
                        mask,
                        mask_texture_dirty: true,
                        last_drag_px: None,
                        ..*old(self)
                    })
                    &&& says(final(editor).status, "Маска сгенерирована."@)
                } else {
                    &&& *final(self) == (RegionInpaintEditorState {
                        generating: false,
                        ..*old(self)
                    })
                    &&& says(final(editor).status, mask_size_message(mask@, old(editor).image@))
                },
                MaskGenerationEvent::Done(Err(err)) => {
                    &&& *final(self) == (RegionInpaintEditorState {
                        generating: false,
                        ..*old(self)
                    })
                    &&& says(final(editor).status, "Ошибка генерации маски: "@ + err@)
                },
                MaskGenerationEvent::Disconnected => {
                    &&& *final(self) == (RegionInpaintEditorState {
                        generating: false,
                        ..*old(self)
                    })
                    &&& says(
                        final(editor).status,
                        "Генерация маски прервана: фоновой поток завершился неожиданно."@,
                    )
                },
            },
    {
        self.generating = false;
        match event {
            MaskGenerationEvent::Done(Ok(mask)) => {
                if mask.w != editor.image.w || mask.h != editor.image.h {
                    let mut s = String::from_str("Ошибка генерации маски: backend вернул размер ");
                    append_size(&mut s, mask.w, mask.h);
                    s.append(", ожидалось ");
                    append_size(&mut s, editor.image.w, editor.image.h);
                    s.append(".");
                    assert(s@ =~= mask_size_message(mask@, editor.image@));
                    editor.status = Some(s);
                    return;
                }
                self.mask = mask;
                self.mask_texture_dirty = true;
                self.last_drag_px = None;
                editor.status = Some(String::from_str("Маска сгенерирована."));
            },
            MaskGenerationEvent::Done(Err(err)) => {
                let mut s = String::from_str("Ошибка генерации маски: ");
                s.append(err.as_str());
                editor.status = Some(s);
            },
            MaskGenerationEvent::Disconnected => {
                editor.status = Some(
                    String::from_str(
                        "Генерация маски прервана: фоновой поток завершился неожиданно.",
                    ),
                );
            },
        }
    }

    /// Goes back to the source of the last run.
    pub fn undo_processing(&mut self, editor: &mut RegionEditorSession) -> (ok: bool)
        requires
            old(self).wf(),
            old(editor).image.wf(),
        ensures
            final(self).wf(),
            final(editor).image.wf(),
            ok == (old(self).undo_stack@.len() > 0),
            !ok ==> *final(self) == *old(self) && *final(editor) == (RegionEditorSession {
                status: final(editor).status,
                ..*old(editor)
            }) && says(final(editor).status, "Нет состояния для отката."@),
            ok ==> {
                &&& inpaint_view(*final(editor), *final(self)) == undone(
                    inpaint_view(*old(editor), *old(self)),
                    old(self).sample_mask_enabled,
                )
                &&& final(self).processing == old(self).processing
                &&& final(self).generating == old(self).generating
                &&& final(self).session_scroll_id == old(self).session_scroll_id
                &&& final(self).sample_mask_enabled == old(self).sample_mask_enabled
                &&& final(self).active_mask_target == old(self).active_mask_target
                &&& final(self).mask_texture_dirty
                &&& final(self).sample_mask_texture_dirty == old(self).sample_mask_enabled
                &&& final(self).last_drag_px is None
                &&& *final(editor) == (RegionEditorSession {
                    image: final(editor).image,
                    texture_dirty: true,
                    status: final(editor).status,
                    ..*old(editor)
                })
                &&& says(final(editor).status, "Возврат к состоянию до обработки."@)
            },
    {
        let ghost before = stack_view(self.undo_stack@);
        if self.undo_stack.len() == 0 {
            editor.status = Some(String::from_str("Нет состояния для отката."));
            return false;
        }
        let source = match self.undo_stack.pop() {
            Some(s) => s,
            None => {
                return false;
            },
        };
        assert(source@ == before.last());
        assert(stack_view(self.undo_stack@) =~= before.drop_last());
        editor.image = source.image.copied();
        editor.texture_dirty = true;
        self.mask = source.mask.copied();
        self.mask_texture_dirty = true;
        if self.sample_mask_enabled {
            assert(editor.image.px.len() <= usize::MAX);
            let sample = match &source.sample_mask {
                Some(m) => m.copied(),
                None => Raster::filled(editor.image.w, editor.image.h, Color::transparent()),
            };
            self.sample_mask = Some(sample);
            self.sample_mask_texture_dirty = true;
        } else {
            self.sample_mask = None;
            self.sample_mask_texture_dirty = false;
        }
        self.last_drag_px = None;
        self.rerun_source = Some(source);
        editor.status = Some(String::from_str("Возврат к состоянию до обработки."));
        true
    }

    /// Gives up filling in.  The button for it is shown while anything runs, and says that filling in
    /// was given up even where only a mask is being generated; that mask is still waited for.
    pub fn cancel_background(&mut self, editor: &mut RegionEditorSession)
        ensures
            *final(editor) == (RegionEditorSession { status: final(editor).status, ..*old(editor) }),
            old(self).processing || old(self).generating ==> *final(self) == (
            RegionInpaintEditorState { processing: false, ..*old(self) }) && says(
                final(editor).status,
                "Обработка отменена."@,
            ),
            !old(self).processing && !old(self).generating ==> *final(self) == *old(self)
                && final(editor).status == old(editor).status,
    {
        if self.processing || self.generating {
            self.processing = false;
            editor.status = Some(String::from_str("Обработка отменена."));
        }
    }
}

/// A segment of a stroke and the mask that it is drawn into.
#[derive(Clone, Copy, Debug, PartialEq, Eq, Structural)]
pub struct MaskStroke {
    pub segment: RegionEditorStrokeSegment,
    pub target: Option<RegionInpaintMaskTarget>,
}

/// What the button for generating a mask tells about itself.
pub fn generate_mask_hint(
    ai_backend_available: bool,
    ai_backend_torch_available: bool,
    method: RegionMaskGenerationMethod,
) -> (s: &'static str)
    ensures
        s@ == if !ai_backend_available {
            "Недоступно: ИИ бэкенд не отвечает."@
        } else if method.on_torch() && !ai_backend_torch_available {
            "PyTorch не установлен"@
        } else {
            "Отправить текущий регион в выбранный backend-детектор и заполнить маску найденным текстом."@
        },
{
    if !ai_backend_available {
        "Недоступно: ИИ бэкенд не отвечает."
    } else if method.needs_torch() && !ai_backend_torch_available {
        "PyTorch не установлен"
    } else {
        "Отправить текущий регион в выбранный backend-детектор и заполнить маску найденным текстом."
    }
}

/// Why a detected mask is refused.
pub open spec fn detection_refusal(
    label: Seq<char>,
    w: int,
    h: int,
    mask_w: int,
    mask_h: int,
    len: int,
) -> Option<Seq<char>> {
    if mask_w != w || mask_h != h {
        Some(
            label + " backend вернул размер маски "@ + decimal(mask_w as nat) + "x"@ + decimal(
                mask_h as nat,
            ) + ", ожидалось "@ + decimal(w as nat) + "x"@ + decimal(h as nat) + "."@,
        )
    } else if capped(mask_w * mask_h) != len {
        Some(
            label + " backend вернул некорректную длину маски: "@ + decimal(len as nat)
                + " вместо "@ + decimal(capped(mask_w * mask_h) as nat) + "."@,
        )
    } else {
        None
    }
}

/// The mask that a detector found: white where it is set.
pub open spec fn detected_mask(w: int, h: int, alpha: Seq<u8>) -> Grid<Color> {
    Grid {
        w,
        h,
        px: Seq::new(
            alpha.len(),
            |i: int|
                if alpha[i] != 0 {
                    Color { r: 255, g: 255, b: 255, a: 255 }
                } else {
                    clear()
                },
        ),
    }
}

/// Turns what a detector found into a mask for a picture of the given size.
pub fn mask_from_detection(
    method: RegionMaskGenerationMethod,
    image_w: usize,
    image_h: usize,
    mask_size: (u32, u32),
    mask_alpha: &Vec<u8>,
) -> (r: Result<ColorImage, String>)
    ensures
        ({
            let refusal = detection_refusal(
                method.name(),
                image_w as int,
                image_h as int,
                mask_size.0 as int,
                mask_size.1 as int,
                mask_alpha@.len() as int,
            );
            &&& r is Err <==> refusal is Some
            &&& r is Err ==> (r->Err_0)@ == refusal->0
            &&& r is Ok ==> (r->Ok_0)@ == detected_mask(
                image_w as int,
                image_h as int,
                mask_alpha@,
            )
            &&& r is Ok && image_w * image_h <= usize::MAX ==> (r->Ok_0).wf()
        }),
{
    let mask_w: usize = mask_size.0 as usize;
    let mask_h: usize = mask_size.1 as usize;
    if mask_w != image_w || mask_h != image_h {
        let mut s = String::from_str(method.label());
        s.append(" backend вернул размер маски ");
        append_size(&mut s, mask_w, mask_h);
        s.append(", ожидалось ");
        append_size(&mut s, image_w, image_h);
        s.append(".");
        return Err(s);
    }
    let expected: usize = mul_capped(mask_w, mask_h);
    if expected != mask_alpha.len() {
        let mut s = String::from_str(method.label());
        s.append(" backend вернул некорректную длину маски: ");
        append_decimal(&mut s, mask_alpha.len());
        s.append(" вместо ");
        append_decimal(&mut s, expected);
        s.append(".");
        return Err(s);
    }
    let mut px: Vec<Color> = Vec::new();
    let mut i: usize = 0;
    while i < mask_alpha.len()
        invariant
            i <= mask_alpha@.len(),
            px@.len() == i,
            forall|k: int|
                0 <= k < i ==> #[trigger] px@[k] == detected_mask(
                    image_w as int,
                    image_h as int,
                    mask_alpha@,
                ).px[k],
        decreases mask_alpha@.len() - i,
    {
        if mask_alpha[i] != 0 {
            px.push(Color::from_rgba_unmultiplied(255, 255, 255, 255));
        } else {
            px.push(Color::transparent());
        }
        i += 1;
    }
    let out = Raster { w: image_w, h: image_h, px };
    assert(out@ =~= detected_mask(image_w as int, image_h as int, mask_alpha@));
    Ok(out)
}

/// The status of an editor that has none yet.
pub open spec fn editor_greeting() -> Seq<char> {
    "Нарисуйте маску и нажмите «Обработать»."@
}

/// Tells in an editor without a status what to do.
pub fn greet_editor(editor: &mut RegionEditorSession)
    ensures
        *final(editor) == (RegionEditorSession { status: final(editor).status, ..*old(editor) }),
        old(editor).status is Some ==> final(editor).status == old(editor).status,
        old(editor).status is None ==> says(final(editor).status, editor_greeting()),
{
    if editor.status.is_none() {
        editor.status = Some(String::from_str("Нарисуйте маску и нажмите «Обработать»."));
    }
}

/// The tool that selects a region and has it filled in under painted masks.
pub struct RegionMaskInpaintToolBase {
    pub region_base: RegionEditToolBase,
    pub editor_state: Option<RegionInpaintEditorState>,
    pub ai_backend_available: bool,
    pub ai_backend_torch_available: bool,
    pub mask_generation_params: RegionMaskGenerationParams,
}

impl RegionMaskInpaintToolBase {
    pub fn new(selection_multiple: Option<usize>) -> (t: RegionMaskInpaintToolBase)
        ensures
            t.region_base == idle_tool(selection_multiple),
            t.editor_state is None,
            !t.ai_backend_available,
            !t.ai_backend_torch_available,
            t.mask_generation_params.method == RegionMaskGenerationMethod::ComicTextDetector,
            t.mask_generation_params.dilate_size == 7,
    {
        RegionMaskInpaintToolBase {
            region_base: RegionEditToolBase::new(selection_multiple),
            editor_state: None,
            ai_backend_available: false,
            ai_backend_torch_available: false,
            mask_generation_params: RegionMaskGenerationParams {
                method: RegionMaskGenerationMethod::ComicTextDetector,
                dilate_size: 7,
            },
        }
    }

    pub fn wants_primary_stroke(&self, point: StrokePoint) -> (b: bool)
        ensures
            b == point.modifiers.shift,
    {
        self.region_base.wants_primary_stroke(point)
    }

    pub fn begin_selection(&mut self, point: StrokePoint, points: Option<SelectionPoints>)
        requires
            points is Some ==> (points->0).fits(old(self).region_base.selection_multiple),
        ensures
            *final(self) == (RegionMaskInpaintToolBase {
                region_base: old(self).region_base.begun(point, points),
                ..*old(self)
            }),
    {
        self.region_base.begin_selection(point, points);
    }

    pub fn update_selection(&mut self, point: StrokePoint, points: Option<SelectionPoints>)
        requires
            points is Some ==> (points->0).fits(old(self).region_base.selection_multiple),
        ensures
            *final(self) == (RegionMaskInpaintToolBase {
                region_base: old(self).region_base.followed(point, points),
                ..*old(self)
            }),
    {
        self.region_base.update_selection(point, points);
    }

    pub fn end_selection(
        &mut self,
        points: Option<SelectionPoints>,
        overlay_chunk: Option<ColorImage>,
    )
        requires
            points is Some ==> (points->0).fits(old(self).region_base.selection_multiple),
        ensures
            *final(self) == (RegionMaskInpaintToolBase {
                region_base: old(self).region_base.ended(points, overlay_chunk),
                ..*old(self)
            }),
    {
        self.region_base.end_selection(points, overlay_chunk);
    }

    /// Drops the selection and the masks.
    pub fn cancel_selection(&mut self)
        ensures
            *final(self) == (RegionMaskInpaintToolBase {
                region_base: old(self).region_base.cancelled(),
                editor_state: None,
                ..*old(self)
            }),
    {
        self.region_base.cancel_selection();
        self.editor_state = None;
    }

    pub fn set_ai_backend_available(&mut self, available: bool)
        ensures
            *final(self) == (RegionMaskInpaintToolBase {
                ai_backend_available: available,
                ..*old(self)
            }),
    {
        self.ai_backend_available = available;
    }

    pub fn set_ai_backend_torch_available(&mut self, available: bool)
        ensures
            *final(self) == (RegionMaskInpaintToolBase {
                ai_backend_torch_available: available,
                ..*old(self)
            }),
    {
        self.ai_backend_torch_available = available;
    }

    /// The keys of a frame: escape drops the selection.  `brush_changed` tells whether the size of
    /// the brush took a key.
    pub fn on_key_event(&mut self, brush_changed: bool, escape: bool) -> (handled: bool)
        ensures
            handled == (brush_changed || escape),
            *final(self) == if escape {
                RegionMaskInpaintToolBase {
                    region_base: old(self).region_base.cancelled(),
                    editor_state: None,
                    ..*old(self)
                }
            } else {
                *old(self)
            },
    {
        if escape {
            self.cancel_selection();
        }
        brush_changed || escape
    }

    pub fn has_open_editor(&self) -> (b: bool)
        ensures
            b == (self.region_base.editor is Some),
    {
        self.region_base.has_open_editor()
    }
}

} // verus!
