//! Background work of the cleaning tab: its progress and what the user is told of it.

use vstd::prelude::*;
use vstd::string::StringExecFns;
use crate::color::{Color, ColorImage};
#[allow(unused_imports)]
use crate::color::clear;
use crate::lists::holds_number;
use crate::mask::{resize_color_image_nearest, text_detection_mask_file_path};
#[allow(unused_imports)]
use crate::mask::{capped, mask_file_path, scaled};
use crate::quick_clean::{QuickTextCleanPageResult, TextMaskLoadPage};
#[allow(unused_imports)]
use crate::quick_clean::binary_value;
use crate::raster::{Grid, Raster};
#[allow(unused_imports)]
use crate::raster::grid_of;
use crate::text::append_decimal;
#[allow(unused_imports)]
use crate::text::decimal;

verus! {

/// Counters of a running quick clean.
#[derive(Clone, Copy, Debug, PartialEq, Eq, Structural)]
pub struct QuickTextCleanProgress {
    pub total_pages: usize,
    pub done_pages: usize,
    pub regions_total: usize,
    pub regions_filled: usize,
    pub regions_skipped: usize,
    pub failed_pages: usize,
    pub missing_masks: usize,
}

pub open spec fn no_progress() -> QuickTextCleanProgress {
    QuickTextCleanProgress {
        total_pages: 0,
        done_pages: 0,
        regions_total: 0,
        regions_filled: 0,
        regions_skipped: 0,
        failed_pages: 0,
        missing_masks: 0,
    }
}

impl Default for QuickTextCleanProgress {
    fn default() -> (p: QuickTextCleanProgress)
        ensures
            p == no_progress(),
    {
        QuickTextCleanProgress {
            total_pages: 0,
            done_pages: 0,
            regions_total: 0,
            regions_filled: 0,
            regions_skipped: 0,
            failed_pages: 0,
            missing_masks: 0,
        }
    }
}

/// What the worker of a quick clean reports.
pub enum QuickTextCleanJobEvent {
    Started { total_pages: usize },
    PageProcessed(QuickTextCleanPageResult),
    Finished,
    /// The worker went away without finishing.
    Disconnected,
}

/// The counters after one more page.
pub open spec fn progress_after(
    p: QuickTextCleanProgress,
    r: QuickTextCleanPageResult,
) -> QuickTextCleanProgress {
    QuickTextCleanProgress {
        total_pages: p.total_pages,
        done_pages: capped(p.done_pages + 1) as usize,
        regions_total: capped(p.regions_total + r.regions_total) as usize,
        regions_filled: capped(p.regions_filled + r.regions_filled) as usize,
        regions_skipped: capped(p.regions_skipped + r.regions_skipped) as usize,
        failed_pages: if r.error is Some {
            capped(p.failed_pages + 1) as usize
        } else {
            p.failed_pages
        },
        missing_masks: if r.missing_mask {
            capped(p.missing_masks + 1) as usize
        } else {
            p.missing_masks
        },
    }
}

/// The message after a page was processed.
pub open spec fn page_message(r: QuickTextCleanPageResult) -> Seq<char> {
    "Быстрый клин: страница "@ + decimal(r.page_idx as nat) + " обработана (областей: "@ + decimal(
        r.regions_total as nat,
    ) + ", заполнено: "@ + decimal(r.regions_filled as nat) + ", пропущено: "@ + decimal(
        r.regions_skipped as nat,
    ) + ")."@
}

/// The message after all pages were processed.
pub open spec fn finished_message(p: QuickTextCleanProgress) -> Seq<char> {
    "Быстрый клин завершён: страниц "@ + decimal(p.done_pages as nat) + "/"@ + decimal(
        p.total_pages as nat,
    ) + ", заполнено областей "@ + decimal(p.regions_filled as nat) + ", пропущено "@ + decimal(
        p.regions_skipped as nat,
    ) + ", ошибок "@ + decimal(p.failed_pages as nat) + ", без маски "@ + decimal(
        p.missing_masks as nat,
    ) + "."@
}

/// The quick clean as the tab sees it.
pub struct QuickCleanJob {
    pub in_progress: bool,
    pub progress: QuickTextCleanProgress,
    pub status_text: Option<String>,
}

/// The lines below the progress bar: the pages, and what became of their regions.
pub struct ProgressLines {
    pub pages: String,
    pub regions: String,
}

impl QuickTextCleanProgress {
    /// The lines of the panel; there are none before a run has pages.
    pub fn lines(&self) -> (l: Option<ProgressLines>)
        ensures
            l is Some <==> self.total_pages > 0,
            l is Some ==> (l->0).pages@ == "Страницы: "@ + decimal(self.done_pages as nat) + "/"@
                + decimal(self.total_pages as nat) && (l->0).regions@ == "Области: заполнено "@
                + decimal(self.regions_filled as nat) + ", пропущено "@ + decimal(
                self.regions_skipped as nat,
            ) + ", ошибок страниц "@ + decimal(self.failed_pages as nat) + ", без маски "@
                + decimal(self.missing_masks as nat),
    {
        if self.total_pages == 0 {
            return None;
        }
        let mut pages = String::from_str("Страницы: ");
        append_decimal(&mut pages, self.done_pages);
        pages.append("/");
        append_decimal(&mut pages, self.total_pages);
        let mut regions = String::from_str("Области: заполнено ");
        append_decimal(&mut regions, self.regions_filled);
        regions.append(", пропущено ");
        append_decimal(&mut regions, self.regions_skipped);
        regions.append(", ошибок страниц ");
        append_decimal(&mut regions, self.failed_pages);
        regions.append(", без маски ");
        append_decimal(&mut regions, self.missing_masks);
        Some(ProgressLines { pages, regions })
    }
}

/// `status` says `text`.
pub open spec fn says(status: Option<String>, text: Seq<char>) -> bool {
    status is Some && (status->0)@ == text
}

/// A page of the project.
pub struct ProjectPage {
    pub idx: usize,
    pub path: String,
}

/// A page to be cleaned: where its picture and its stored mask are.
pub struct QuickTextCleanTask {
    pub page_idx: usize,
    pub page_path: String,
    pub mask_path: String,
}

/// The first page of the project with the given number.
pub open spec fn is_first_with(pages: Seq<ProjectPage>, idx: usize, i: int) -> bool {
    &&& 0 <= i < pages.len()
    &&& pages[i].idx == idx
    &&& forall|k: int| 0 <= k < i ==> (#[trigger] pages[k]).idx != idx
}

pub open spec fn page_known(pages: Seq<ProjectPage>, idx: usize) -> bool {
    exists|i: int| 0 <= i < pages.len() && (#[trigger] pages[i]).idx == idx
}

/// The numbers among the first `n` that belong to pages of the project.
pub open spec fn known_pages(wanted: Seq<usize>, pages: Seq<ProjectPage>, n: nat) -> Seq<usize>
    decreases n,
{
    if n == 0 {
        Seq::empty()
    } else {
        let head = known_pages(wanted, pages, (n - 1) as nat);
        if page_known(pages, wanted[n - 1]) {
            head.push(wanted[n - 1])
        } else {
            head
        }
    }
}

/// `t` is the task for the page with the number `idx`.
pub open spec fn is_task(t: QuickTextCleanTask, idx: usize, pages: Seq<ProjectPage>, dir: Seq<char>) -> bool {
    &&& t.page_idx == idx
    &&& t.mask_path@ == mask_file_path(dir, idx as nat)
    &&& exists|i: int| is_first_with(pages, idx, i) && t.page_path@ == (#[trigger] pages[i]).path@
}

fn find_page(pages: &Vec<ProjectPage>, idx: usize) -> (r: Option<usize>)
    ensures
        match r {
            Some(i) => is_first_with(pages@, idx, i as int),
            None => !page_known(pages@, idx),
        },
{
    let mut i: usize = 0;
    while i < pages.len()
        invariant
            i <= pages@.len(),
            forall|k: int| 0 <= k < i ==> (#[trigger] pages@[k]).idx != idx,
        decreases pages@.len() - i,
    {
        if pages[i].idx == idx {
            return Some(i);
        }
        i += 1;
    }
    None
}

/// The tasks for the wanted pages, without those that the project does not have.
pub fn plan_tasks(wanted: &Vec<usize>, pages: &Vec<ProjectPage>, text_detection_dir: &str) -> (tasks: Vec<
    QuickTextCleanTask,
>)
    ensures
        tasks@.len() == known_pages(wanted@, pages@, wanted@.len()).len(),
        forall|i: int|
            0 <= i < tasks@.len() ==> is_task(
                #[trigger] tasks@[i],
                known_pages(wanted@, pages@, wanted@.len())[i],
                pages@,
                text_detection_dir@,
            ),
{
    let mut tasks: Vec<QuickTextCleanTask> = Vec::new();
    let mut i: usize = 0;
    while i < wanted.len()
        invariant
            i <= wanted@.len(),
            tasks@.len() == known_pages(wanted@, pages@, i as nat).len(),
            forall|k: int|
                0 <= k < tasks@.len() ==> is_task(
                    #[trigger] tasks@[k],
                    known_pages(wanted@, pages@, i as nat)[k],
                    pages@,
                    text_detection_dir@,
                ),
        decreases wanted@.len() - i,
    {
        let idx: usize = wanted[i];
        let ghost tasks0 = tasks@;
        match find_page(pages, idx) {
            Some(k) => {
                let t = QuickTextCleanTask {
                    page_idx: idx,
                    page_path: pages[k].path.clone(),
                    mask_path: text_detection_mask_file_path(text_detection_dir, idx),
                };
                assert(pages@[k as int].idx == idx);
                assert(is_task(t, idx, pages@, text_detection_dir@));
                tasks.push(t);
            },
            None => {},
        }
        assert forall|k: int| 0 <= k < tasks@.len() implies is_task(
            #[trigger] tasks@[k],
            known_pages(wanted@, pages@, (i + 1) as nat)[k],
            pages@,
            text_detection_dir@,
        ) by {
            if k < tasks0.len() {
                assert(tasks@[k] == tasks0[k]);
            }
        }
        i += 1;
    }
    tasks
}

/// How many workers share the tasks: one fewer than the processors, but one at least, and no more
/// than there are tasks.
pub fn worker_count(available: Option<usize>, tasks: usize) -> (n: usize)
    ensures
        ({
            let free = match available {
                Some(c) => if c > 1 {
                    c - 1
                } else {
                    1
                },
                None => 1,
            };
            let most = if tasks == 0 {
                1
            } else {
                tasks as int
            };
            n == if free < most {
                free
            } else {
                most
            }
        }),
{
    let free: usize = match available {
        Some(c) => if c > 1 {
            c - 1
        } else {
            1
        },
        None => 1,
    };
    let most: usize = if tasks == 0 { 1 } else { tasks };
    if free < most {
        free
    } else {
        most
    }
}

impl QuickCleanJob {
    pub fn new() -> (j: QuickCleanJob)
        ensures
            !j.in_progress,
            j.progress == no_progress(),
            j.status_text is None,
    {
        QuickCleanJob {
            in_progress: false,
            progress: QuickTextCleanProgress::default(),
            status_text: None,
        }
    }

    /// Starts a quick clean of the wanted pages and returns the tasks to run.  Nothing starts
    /// while one is running, without pages, or without a place for the result.
    pub fn start_quick_text_clean_job(
        &mut self,
        wanted: &Vec<usize>,
        overlays_connected: bool,
        pages: &Vec<ProjectPage>,
        text_detection_dir: &str,
    ) -> (tasks: Option<Vec<QuickTextCleanTask>>)
        ensures
            ({
                let known = known_pages(wanted@, pages@, wanted@.len());
                &&& tasks is Some <==> !old(self).in_progress && overlays_connected && known.len() > 0
                &&& tasks is Some ==> (tasks->0)@.len() == known.len() && (forall|i: int|
                    0 <= i < known.len() ==> is_task(
                        #[trigger] (tasks->0)@[i],
                        known[i],
                        pages@,
                        text_detection_dir@,
                    ))
                &&& tasks is Some ==> final(self).in_progress && final(self).progress == no_progress()
                    && says(final(self).status_text, "Запущен быстрый клин..."@)
                &&& tasks is None ==> final(self).in_progress == old(self).in_progress
                    && final(self).progress == old(self).progress
                &&& old(self).in_progress ==> final(self).status_text == old(self).status_text
                &&& !old(self).in_progress && wanted@.len() == 0 ==> says(
                    final(self).status_text,
                    "Нет страниц для обработки."@,
                )
                &&& !old(self).in_progress && wanted@.len() > 0 && !overlays_connected ==> says(
                    final(self).status_text,
                    "Быстрый клин недоступен: модель оверлеев не подключена."@,
                )
                &&& !old(self).in_progress && wanted@.len() > 0 && overlays_connected && known.len()
                    == 0 ==> says(final(self).status_text, "Нет доступных страниц для обработки."@)
            }),
    {
        if self.in_progress {
            return None;
        }
        if wanted.len() == 0 {
            self.status_text = Some(String::from_str("Нет страниц для обработки."));
            return None;
        }
        if !overlays_connected {
            self.status_text = Some(
                String::from_str("Быстрый клин недоступен: модель оверлеев не подключена."),
            );
            return None;
        }
        let tasks = plan_tasks(wanted, pages, text_detection_dir);
        if tasks.len() == 0 {
            self.status_text = Some(String::from_str("Нет доступных страниц для обработки."));
            return None;
        }
        self.in_progress = true;
        self.progress = QuickTextCleanProgress::default();
        self.status_text = Some(String::from_str("Запущен быстрый клин..."));
        Some(tasks)
    }

    /// Takes in one report of the worker.  Returns the patch to apply and its page, if the report
    /// brings one.
    pub fn poll_quick_text_clean_job(&mut self, event: QuickTextCleanJobEvent) -> (patch: Option<
        (usize, ColorImage),
    >)
        ensures
            match event {
                QuickTextCleanJobEvent::Started { total_pages } => {
                    &&& patch is None
                    &&& final(self).in_progress == old(self).in_progress
                    &&& final(self).progress == (QuickTextCleanProgress {
                        total_pages,
                        ..no_progress()
                    })
                    &&& says(
                        final(self).status_text,
                        "Быстрый клин: чтение страниц и анализ маски..."@,
                    )
                },
                QuickTextCleanJobEvent::PageProcessed(r) => {
                    &&& final(self).in_progress == old(self).in_progress
                    &&& final(self).progress == progress_after(old(self).progress, r)
                    &&& says(final(self).status_text, page_message(r))
                    &&& patch is Some <==> r.patch is Some
                    &&& patch is Some ==> patch == Some((r.page_idx, r.patch->0))
                },
                QuickTextCleanJobEvent::Finished => {
                    &&& patch is None
                    &&& !final(self).in_progress
                    &&& final(self).progress == old(self).progress
                    &&& says(final(self).status_text, finished_message(old(self).progress))
                },
                QuickTextCleanJobEvent::Disconnected => {
                    &&& patch is None
                    &&& !final(self).in_progress
                    &&& final(self).progress == old(self).progress
                    &&& says(final(self).status_text, "Быстрый клин прерван: канал job закрыт."@)
                },
            },
    {
        match event {
            QuickTextCleanJobEvent::Started { total_pages } => {
                let mut p = QuickTextCleanProgress::default();
                p.total_pages = total_pages;
                self.progress = p;
                self.status_text = Some(
                    String::from_str("Быстрый клин: чтение страниц и анализ маски..."),
                );
                None
            },
            QuickTextCleanJobEvent::PageProcessed(r) => {
                let p = self.progress;
                self.progress = QuickTextCleanProgress {
                    total_pages: p.total_pages,
                    done_pages: p.done_pages.saturating_add(1),
                    regions_total: p.regions_total.saturating_add(r.regions_total),
                    regions_filled: p.regions_filled.saturating_add(r.regions_filled),
                    regions_skipped: p.regions_skipped.saturating_add(r.regions_skipped),
                    failed_pages: if r.error.is_some() {
                        p.failed_pages.saturating_add(1)
                    } else {
                        p.failed_pages
                    },
                    missing_masks: if r.missing_mask {
                        p.missing_masks.saturating_add(1)
                    } else {
                        p.missing_masks
                    },
                };
                let mut s = String::from_str("Быстрый клин: страница ");
                append_decimal(&mut s, r.page_idx);
                s.append(" обработана (областей: ");
                append_decimal(&mut s, r.regions_total);
                s.append(", заполнено: ");
                append_decimal(&mut s, r.regions_filled);
                s.append(", пропущено: ");
                append_decimal(&mut s, r.regions_skipped);
                s.append(").");
                self.status_text = Some(s);
                match r.patch {
                    Some(img) => Some((r.page_idx, img)),
                    None => None,
                }
            },
            QuickTextCleanJobEvent::Finished => {
                self.in_progress = false;
                let p = self.progress;
                let mut s = String::from_str("Быстрый клин завершён: страниц ");
                append_decimal(&mut s, p.done_pages);
                s.append("/");
                append_decimal(&mut s, p.total_pages);
                s.append(", заполнено областей ");
                append_decimal(&mut s, p.regions_filled);
                s.append(", пропущено ");
                append_decimal(&mut s, p.regions_skipped);
                s.append(", ошибок ");
                append_decimal(&mut s, p.failed_pages);
                s.append(", без маски ");
                append_decimal(&mut s, p.missing_masks);
                s.append(".");
                self.status_text = Some(s);
                None
            },
            QuickTextCleanJobEvent::Disconnected => {
                self.in_progress = false;
                self.status_text = Some(
                    String::from_str("Быстрый клин прерван: канал job закрыт."),
                );
                None
            },
        }
    }
}

/// The overlay with the visible pixels of the patch laid over it.
pub open spec fn patched(base: Grid<Color>, patch: Grid<Color>) -> Grid<Color> {
    Grid {
        w: base.w,
        h: base.h,
        px: Seq::new(
            base.px.len(),
            |i: int|
                if i < patch.px.len() && patch.px[i].a != 0 {
                    patch.px[i]
                } else {
                    base.px[i]
                },
        ),
    }
}

/// What the patch is laid over: the overlay of the page at the size of the patch, or a clear one.
pub open spec fn patch_base(overlay: Option<Grid<Color>>, patch: Grid<Color>) -> Grid<Color> {
    match overlay {
        None => grid_of(patch.w, patch.h, |x: int, y: int| clear()),
        Some(o) => if o.same_size(patch) {
            o
        } else if o.w == 0 || o.h == 0 {
            grid_of(patch.w, patch.h, |x: int, y: int| clear())
        } else {
            scaled(o, patch.w, patch.h)
        },
    }
}

pub open spec fn overlay_picture(overlay: Option<ColorImage>) -> Option<Grid<Color>> {
    match overlay {
        Some(o) => Some(o@),
        None => None,
    }
}

/// Lays a patch over the overlay of its page.  Returns the new overlay, or nothing where the
/// patch shows nothing.
pub fn apply_quick_text_patch_to_overlay(overlay: Option<ColorImage>, patch: &ColorImage) -> (out:
    Option<ColorImage>)
    requires
        patch.wf(),
        overlay is Some ==> (overlay->0).wf(),
    ensures
        out is Some <==> exists|i: int| 0 <= i < patch@.px.len() && (#[trigger] patch@.px[i]).a != 0,
        out is Some ==> (out->0).wf() && (out->0)@ == patched(
            patch_base(overlay_picture(overlay), patch@),
            patch@,
        ),
{
    if patch.w == 0 || patch.h == 0 {
        assert(patch@.px.len() == 0) by (nonlinear_arith)
            requires
                patch@.px.len() == patch.w * patch.h,
                patch.w == 0 || patch.h == 0,
        ;
        return None;
    }
    assert(patch.px.len() <= usize::MAX);
    let ghost want = patch_base(overlay_picture(overlay), patch@);
    let mut base: ColorImage = match overlay {
        Some(o) => if o.w == patch.w && o.h == patch.h {
            o
        } else {
            resize_color_image_nearest(&o, patch.w, patch.h)
        },
        None => Raster::filled(patch.w, patch.h, Color::transparent()),
    };
    assert(base@ == want);
    let mut applied: bool = false;
    let mut i: usize = 0;
    let n: usize = patch.px.len();
    while i < n
        invariant
            i <= n,
            n == patch@.px.len(),
            n == want.px.len(),
            base.wf(),
            base@.same_size(want),
            base@.px.len() == n,
            applied == exists|k: int| 0 <= k < i && (#[trigger] patch@.px[k]).a != 0,
            forall|k: int|
                0 <= k < n ==> #[trigger] base@.px[k] == if k < i && patch@.px[k].a != 0 {
                    patch@.px[k]
                } else {
                    want.px[k]
                },
        decreases n - i,
    {
        let c: Color = patch.px[i];
        if c.a != 0 {
            base.px.set(i, c);
            assert(patch@.px[i as int].a != 0);
            applied = true;
        }
        i += 1;
    }
    if applied {
        assert(base@ =~= patched(want, patch@));
        Some(base)
    } else {
        None
    }
}

/// Laying a patch over an overlay twice changes no more than laying it once.
pub proof fn patching_twice_is_patching_once(base: Grid<Color>, patch: Grid<Color>)
    ensures
        patched(patched(base, patch), patch) == patched(base, patch),
{
    assert(patched(patched(base, patch), patch) =~= patched(base, patch));
}

/// What was found where the mask of a page should be stored.
pub enum StoredMask {
    Missing,
    Unreadable,
    Picture { w: u32, h: u32, luma: Vec<u8> },
}

/// The masks that were found, and how many were not.
pub struct TextMaskLoadResult {
    pub pages: Vec<TextMaskLoadPage>,
    pub loaded: usize,
    pub missing: usize,
    pub failed: usize,
}

/// The stored picture is a mask: it was read and has pixels.
pub open spec fn usable(m: StoredMask) -> bool {
    m matches StoredMask::Picture { w, h, luma } && w != 0 && h != 0
}

/// `page` is the mask of page `idx` made of a stored picture: every lit pixel is set.
pub open spec fn is_loaded_page(page: TextMaskLoadPage, idx: usize, m: StoredMask) -> bool {
    &&& page.page_idx == idx
    &&& m matches StoredMask::Picture { w, h, luma } && page.mask_size == (w, h)
        && page.mask_alpha@ == Seq::new(luma@.len(), |i: int| binary_value(luma@[i]))
}

/// The positions among the first `n` whose pictures are masks.
pub open spec fn usable_positions(found: Seq<StoredMask>, n: nat) -> Seq<int>
    decreases n,
{
    if n == 0 {
        Seq::empty()
    } else {
        let head = usable_positions(found, (n - 1) as nat);
        if usable(found[n - 1]) {
            head.push(n - 1)
        } else {
            head
        }
    }
}

/// How many of the first `n` were not stored at all.
pub open spec fn missing_count(found: Seq<StoredMask>, n: nat) -> nat
    decreases n,
{
    if n == 0 {
        0
    } else {
        missing_count(found, (n - 1) as nat) + if found[n - 1] is Missing {
            1nat
        } else {
            0nat
        }
    }
}

/// Turns a grey picture into clear and set pixels.
pub fn binarize(luma: &Vec<u8>) -> (alpha: Vec<u8>)
    ensures
        alpha@ == Seq::new(luma@.len(), |i: int| binary_value(luma@[i])),
{
    let mut alpha: Vec<u8> = Vec::new();
    let mut i: usize = 0;
    while i < luma.len()
        invariant
            i <= luma@.len(),
            alpha@.len() == i,
            forall|k: int| 0 <= k < i ==> #[trigger] alpha@[k] == binary_value(luma@[k]),
        decreases luma@.len() - i,
    {
        let v: u8 = if luma[i] > 0 { 255 } else { 0 };
        alpha.push(v);
        i += 1;
    }
    assert(alpha@ =~= Seq::new(luma@.len(), |i: int| binary_value(luma@[i])));
    alpha
}

/// The mask of a page: the one that is held in memory, or else the stored one.
pub fn resolve_quick_clean_mask_page(
    page_idx: usize,
    from_model: Option<TextMaskLoadPage>,
    stored: &StoredMask,
) -> (r: Option<TextMaskLoadPage>)
    ensures
        from_model is Some ==> r == from_model,
        from_model is None ==> (r is Some <==> usable(*stored)) && (r is Some ==> is_loaded_page(
            r->0,
            page_idx,
            *stored,
        )),
{
    match from_model {
        Some(m) => Some(m),
        None => match stored {
            StoredMask::Picture { w, h, luma } => {
                if *w == 0 || *h == 0 {
                    return None;
                }
                Some(
                    TextMaskLoadPage { page_idx, mask_size: (*w, *h), mask_alpha: binarize(luma) },
                )
            },
            _ => None,
        },
    }
}

/// The result of a page whose picture could not be opened.
pub fn page_not_opened(page_idx: usize, page_path: &str, error: &str) -> (r: QuickTextCleanPageResult)
    ensures
        r.page_idx == page_idx,
        r.patch is None,
        r.regions_total == 0 && r.regions_filled == 0 && r.regions_skipped == 0,
        !r.missing_mask,
        says(r.error, "Не удалось открыть страницу "@ + page_path@ + ": "@ + error@),
{
    let mut s = String::from_str("Не удалось открыть страницу ");
    s.append(page_path);
    s.append(": ");
    s.append(error);
    QuickTextCleanPageResult {
        page_idx,
        patch: None,
        regions_total: 0,
        regions_filled: 0,
        regions_skipped: 0,
        error: Some(s),
        missing_mask: false,
    }
}

/// Sorts out what was found for the pages: the masks, and the counts of the rest.
pub fn load_text_masks_from_storage(page_indices: &Vec<usize>, found: &Vec<StoredMask>) -> (r:
    TextMaskLoadResult)
    requires
        page_indices@.len() == found@.len(),
    ensures
        r.loaded == r.pages@.len(),
        r.loaded + r.missing + r.failed == found@.len(),
        r.missing == missing_count(found@, found@.len()),
        r.pages@.len() == usable_positions(found@, found@.len()).len(),
        forall|k: int|
            0 <= k < r.pages@.len() ==> {
                let at = usable_positions(found@, found@.len())[k];
                is_loaded_page(#[trigger] r.pages@[k], page_indices@[at], found@[at])
            },
{
    let mut pages: Vec<TextMaskLoadPage> = Vec::new();
    let mut missing: usize = 0;
    let mut failed: usize = 0;
    let mut i: usize = 0;
    while i < found.len()
        invariant
            i <= found@.len(),
            page_indices@.len() == found@.len(),
            pages@.len() + missing + failed == i,
            missing == missing_count(found@, i as nat),
            pages@.len() == usable_positions(found@, i as nat).len(),
            forall|k: int|
                0 <= k < pages@.len() ==> {
                    let at = usable_positions(found@, i as nat)[k];
                    is_loaded_page(#[trigger] pages@[k], page_indices@[at], found@[at])
                },
        decreases found@.len() - i,
    {
        let ghost pages0 = pages@;
        match &found[i] {
            StoredMask::Missing => {
                missing += 1;
            },
            StoredMask::Unreadable => {
                failed += 1;
            },
            StoredMask::Picture { w, h, luma } => {
                if *w == 0 || *h == 0 {
                    failed += 1;
                } else {
                    pages.push(
                        TextMaskLoadPage {
                            page_idx: page_indices[i],
                            mask_size: (*w, *h),
                            mask_alpha: binarize(luma),
                        },
                    );
                }
            },
        }
        assert forall|k: int| 0 <= k < pages@.len() implies {
            let at = usable_positions(found@, (i + 1) as nat)[k];
            is_loaded_page(#[trigger] pages@[k], page_indices@[at], found@[at])
        } by {
            if k < pages0.len() {
                assert(pages@[k] == pages0[k]);
            }
        }
        i += 1;
    }
    let loaded: usize = pages.len();
    TextMaskLoadResult { pages, loaded, missing, failed }
}

/// The loading of stored masks as the tab sees it.
pub struct MaskLoadJob {
    pub in_progress: bool,
    pub status: Option<String>,
}

/// What became of loading the stored masks.
pub enum MaskLoadEvent {
    Loaded { applied: usize, loaded: usize, missing: usize, failed: usize },
    Failed(String),
    Disconnected,
}

/// The numbers among the first `n` pages for which no mask is known.
pub open spec fn unmasked(pages: Seq<ProjectPage>, masked: Seq<usize>, n: nat) -> Seq<usize>
    decreases n,
{
    if n == 0 {
        Seq::empty()
    } else {
        let head = unmasked(pages, masked, (n - 1) as nat);
        if masked.contains(pages[n - 1].idx) {
            head
        } else {
            head.push(pages[n - 1].idx)
        }
    }
}

/// The message after the masks were loaded.
pub open spec fn loaded_message(applied: nat, loaded: nat, missing: nat, failed: nat) -> Seq<char> {
    "Загрузка маски: загружено "@ + decimal(applied) + "/"@ + decimal(
        capped(capped((loaded + missing) as int) + failed) as nat,
    ) + " (в хранилище: "@ + decimal(loaded) + ", пропущено: "@ + decimal(missing) + ", ошибок: "@
        + decimal(failed) + ")."@
}

impl MaskLoadJob {
    pub fn new() -> (j: MaskLoadJob)
        ensures
            !j.in_progress,
            j.status is None,
    {
        MaskLoadJob { in_progress: false, status: None }
    }

    /// Starts loading the masks of the pages that have none yet; returns their numbers.
    pub fn start_text_mask_load_job_if_needed(
        &mut self,
        model_connected: bool,
        pages: &Vec<ProjectPage>,
        masked: &Vec<usize>,
    ) -> (missing: Option<Vec<usize>>)
        ensures
            ({
                let rest = unmasked(pages@, masked@, pages@.len());
                let idle = !old(self).in_progress && model_connected;
                &&& missing is Some <==> idle && rest.len() > 0
                &&& missing is Some ==> (missing->0)@ == rest && final(self).in_progress && says(
                    final(self).status,
                    "Пробую загрузить маску из text_detection..."@,
                )
                &&& missing is None ==> final(self).in_progress == old(self).in_progress
                &&& idle && rest.len() == 0 ==> says(final(self).status, "Маска уже загружена."@)
                &&& !idle ==> final(self).status == old(self).status
            }),
    {
        if self.in_progress || !model_connected {
            return None;
        }
        let mut rest: Vec<usize> = Vec::new();
        let mut i: usize = 0;
        while i < pages.len()
            invariant
                i <= pages@.len(),
                rest@ == unmasked(pages@, masked@, i as nat),
            decreases pages@.len() - i,
        {
            if !holds_number(masked, pages[i].idx) {
                rest.push(pages[i].idx);
            }
            i += 1;
        }
        if rest.len() == 0 {
            self.status = Some(String::from_str("Маска уже загружена."));
            return None;
        }
        self.in_progress = true;
        self.status = Some(String::from_str("Пробую загрузить маску из text_detection..."));
        Some(rest)
    }

    /// Takes in what became of the loading.
    pub fn poll_text_mask_load_job(&mut self, event: MaskLoadEvent)
        ensures
            !final(self).in_progress,
            match event {
                MaskLoadEvent::Loaded { applied, loaded, missing, failed } => says(
                    final(self).status,
                    loaded_message(applied as nat, loaded as nat, missing as nat, failed as nat),
                ),
                MaskLoadEvent::Failed(error) => says(
                    final(self).status,
                    "Ошибка загрузки маски: "@ + error@,
                ),
                MaskLoadEvent::Disconnected => says(
                    final(self).status,
                    "Загрузка маски прервана: канал закрыт."@,
                ),
            },
    {
        self.in_progress = false;
        match event {
            MaskLoadEvent::Loaded { applied, loaded, missing, failed } => {
                let mut s = String::from_str("Загрузка маски: загружено ");
                append_decimal(&mut s, applied);
                s.append("/");
                append_decimal(&mut s, loaded.saturating_add(missing).saturating_add(failed));
                s.append(" (в хранилище: ");
                append_decimal(&mut s, loaded);
                s.append(", пропущено: ");
                append_decimal(&mut s, missing);
                s.append(", ошибок: ");
                append_decimal(&mut s, failed);
                s.append(").");
                self.status = Some(s);
            },
            MaskLoadEvent::Failed(error) => {
                let mut s = String::from_str("Ошибка загрузки маски: ");
                s.append(error.as_str());
                self.status = Some(s);
            },
            MaskLoadEvent::Disconnected => {
                self.status = Some(String::from_str("Загрузка маски прервана: канал закрыт."));
            },
        }
    }
}

/// Whether the overlays of the project can be read.
#[derive(Clone, Copy, Debug, PartialEq, Eq, Structural)]
pub enum OverlaysAccess {
    NotConnected,
    Locked,
    Ready,
}

/// What became of saving the overlays.
pub enum SaveEvent {
    Saved,
    Failed(String),
    Disconnected,
}

/// The saving of the overlays as the tab sees it.
pub struct SaveJob {
    pub in_progress: bool,
    pub status_text: Option<String>,
}

impl SaveJob {
    pub fn new() -> (j: SaveJob)
        ensures
            !j.in_progress,
            j.status_text is None,
    {
        SaveJob { in_progress: false, status_text: None }
    }

    /// Starts saving unless a save is running or the overlays cannot be read.
    pub fn start_save_job(&mut self, access: OverlaysAccess) -> (started: bool)
        ensures
            started == (!old(self).in_progress && access is Ready),
            final(self).in_progress == (old(self).in_progress || started),
            old(self).in_progress ==> final(self).status_text == old(self).status_text,
            !old(self).in_progress ==> says(
                final(self).status_text,
                match access {
                    OverlaysAccess::NotConnected =>
                        "Сохранение недоступно: модель оверлеев не подключена."@,
                    OverlaysAccess::Locked => "Не удалось получить lock модели оверлеев."@,
                    OverlaysAccess::Ready => "Сохранение клина..."@,
                },
            ),
    {
        if self.in_progress {
            return false;
        }
        match access {
            OverlaysAccess::NotConnected => {
                self.status_text = Some(
                    String::from_str("Сохранение недоступно: модель оверлеев не подключена."),
                );
                false
            },
            OverlaysAccess::Locked => {
                self.status_text = Some(
                    String::from_str("Не удалось получить lock модели оверлеев."),
                );
                false
            },
            OverlaysAccess::Ready => {
                self.in_progress = true;
                self.status_text = Some(String::from_str("Сохранение клина..."));
                true
            },
        }
    }

    /// Takes in what became of the save.
    pub fn poll_save_job(&mut self, event: SaveEvent)
        ensures
            !final(self).in_progress,
            match event {
                SaveEvent::Saved => says(
                    final(self).status_text,
                    "Клин сохранён в папку clean_layers."@,
                ),
                SaveEvent::Failed(err) => says(
                    final(self).status_text,
                    "Ошибка сохранения клина: "@ + err@,
                ),
                SaveEvent::Disconnected => says(
                    final(self).status_text,
                    "Сохранение прервано: канал закрыт."@,
                ),
            },
    {
        self.in_progress = false;
        match event {
            SaveEvent::Saved => {
                self.status_text = Some(String::from_str("Клин сохранён в папку clean_layers."));
            },
            SaveEvent::Failed(err) => {
                let mut s = String::from_str("Ошибка сохранения клина: ");
                s.append(err.as_str());
                self.status_text = Some(s);
            },
            SaveEvent::Disconnected => {
                self.status_text = Some(String::from_str("Сохранение прервано: канал закрыт."));
            },
        }
    }
}

} // verus!
