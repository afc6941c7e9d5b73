//! Which page is shown, which one is being loaded, and when the view has to be renewed.

use vstd::prelude::*;
use vstd::string::StringExecFns;
use crate::text::append_decimal;
#[allow(unused_imports)]
use crate::text::decimal;

verus! {

/// A point of a page, as bit patterns.
#[derive(Clone, Copy, Debug, PartialEq, Eq, Structural)]
pub struct PagePoint {
    pub x: u32,
    pub y: u32,
}

/// A view that is taken over from elsewhere as soon as its page is loaded.
#[derive(Clone, Copy, Debug, PartialEq, Eq, Structural)]
pub struct CameraSync {
    pub page_idx: usize,
    pub zoom: u32,
    /// The point in the middle; the middle of the page if there is none.
    pub center: Option<PagePoint>,
}

/// What became of a request for a page.
#[derive(Clone, Copy, Debug, PartialEq, Eq, Structural)]
pub enum PageRequest {
    /// The project has no such page.
    Unknown,
    /// The page before is left, but nothing can be loaded.
    NoLoader,
    /// The page before is left, and the new one is loaded under this number.
    Load { job_id: u64 },
}

impl PageRequest {
    /// Whether the steps that can be undone are forgotten: they are as soon as the page before is
    /// left, so that no undo reaches the pixels of another page.
    pub fn drops_history(self) -> (b: bool)
        ensures
            b == !(self is Unknown),
    {
        match self {
            PageRequest::Unknown => false,
            _ => true,
        }
    }
}

/// What became of a finished load.
#[derive(Clone, Copy, Debug, PartialEq, Eq, Structural)]
pub enum LoadDecision {
    /// Another page was asked for in the meantime.
    Stale,
    /// The page is shown.
    Show,
    /// The page could not be loaded.
    Failed,
}

/// The page that is shown or loaded.
pub struct PageSession {
    pub has_loader: bool,
    pub active_page_idx: Option<usize>,
    pub requested_page_idx: Option<usize>,
    pub pending_job_id: Option<u64>,
    pub next_job_id: u64,
    pub load_error: Option<String>,
    pub last_overlay_revision: u64,
    pub last_doc_version: u64,
    pub pending_camera: Option<CameraSync>,
}

/// The place of a page among the pages of a project, searched from `i` on.
pub open spec fn page_from(pages: Seq<usize>, page_idx: usize, i: int) -> Option<int>
    decreases pages.len() - i,
{
    if i < 0 || i >= pages.len() {
        None
    } else if pages[i] == page_idx {
        Some(i)
    } else {
        page_from(pages, page_idx, i + 1)
    }
}

fn find_page(pages: &Vec<usize>, page_idx: usize) -> (r: Option<usize>)
    ensures
        match r {
            Some(i) => i < pages@.len() && page_from(pages@, page_idx, 0) == Some(i as int),
            None => page_from(pages@, page_idx, 0) is None,
        },
{
    let mut i: usize = 0;
    while i < pages.len()
        invariant
            i <= pages@.len(),
            page_from(pages@, page_idx, 0) == page_from(pages@, page_idx, i as int),
        decreases pages@.len() - i,
    {
        if pages[i] == page_idx {
            return Some(i);
        }
        i += 1;
    }
    None
}

/// The session before any page was asked for: there is no loader yet, nothing is shown or awaited,
/// no revision or version was seen, and the first load gets the number one.
pub open spec fn no_page_yet() -> PageSession {
    PageSession {
        has_loader: false,
        active_page_idx: None,
        requested_page_idx: None,
        pending_job_id: None,
        next_job_id: 1,
        load_error: None,
        last_overlay_revision: 0,
        last_doc_version: 0,
        pending_camera: None,
    }
}

impl PageSession {
    pub fn new() -> (s: PageSession)
        ensures
            s == no_page_yet(),
    {
        PageSession {
            has_loader: false,
            active_page_idx: None,
            requested_page_idx: None,
            pending_job_id: None,
            next_job_id: 1,
            load_error: None,
            last_overlay_revision: 0,
            last_doc_version: 0,
            pending_camera: None,
        }
    }

    pub open spec fn shown_or_loaded(&self) -> Option<usize> {
        match self.active_page_idx {
            Some(p) => Some(p),
            None => self.requested_page_idx,
        }
    }

    /// The page that is shown, or else the one that is being loaded.
    pub fn current_page(&self) -> (p: Option<usize>)
        ensures
            p == self.shown_or_loaded(),
    {
        match self.active_page_idx {
            Some(p) => Some(p),
            None => self.requested_page_idx,
        }
    }

    /// What becomes of a request for a page.
    pub open spec fn answer(self, pages: Seq<usize>, page_idx: usize) -> PageRequest {
        if page_from(pages, page_idx, 0) is None {
            PageRequest::Unknown
        } else if !self.has_loader {
            PageRequest::NoLoader
        } else {
            PageRequest::Load { job_id: self.next_job_id }
        }
    }

    /// The session after a request for a page.
    pub open spec fn asked(self, pages: Seq<usize>, page_idx: usize) -> PageSession {
        if self.answer(pages, page_idx) is Load {
            PageSession {
                next_job_id: (self.next_job_id + 1) as u64,
                pending_job_id: Some(self.next_job_id),
                requested_page_idx: Some(page_idx),
                load_error: None,
                ..self
            }
        } else {
            self
        }
    }

    /// Asks for a page of the project.
    pub fn request_page(&mut self, pages: &Vec<usize>, page_idx: usize) -> (r: PageRequest)
        requires
            old(self).next_job_id < u64::MAX,
        ensures
            r == old(self).answer(pages@, page_idx),
            *final(self) == old(self).asked(pages@, page_idx),
    {
        if find_page(pages, page_idx).is_none() {
            return PageRequest::Unknown;
        }
        if !self.has_loader {
            return PageRequest::NoLoader;
        }
        let job_id: u64 = self.next_job_id;
        self.next_job_id = job_id + 1;
        self.pending_job_id = Some(job_id);
        self.requested_page_idx = Some(page_idx);
        self.load_error = None;
        PageRequest::Load { job_id }
    }

    /// What becomes of a finished load.
    pub open spec fn decision(self, job_id: u64, loaded: bool) -> LoadDecision {
        if Some(job_id) != self.pending_job_id {
            LoadDecision::Stale
        } else if loaded {
            LoadDecision::Show
        } else {
            LoadDecision::Failed
        }
    }

    /// The session after a page was loaded under the awaited number.
    pub open spec fn showing(self, page_idx: usize, overlay_revision: u64) -> PageSession {
        PageSession {
            pending_job_id: None,
            active_page_idx: Some(page_idx),
            last_overlay_revision: overlay_revision,
            load_error: None,
            ..self
        }
    }

    /// The session after the awaited load failed.
    pub open spec fn failed(self, error: String) -> PageSession {
        PageSession { pending_job_id: None, load_error: Some(error), ..self }
    }

    /// Takes in a finished load; only the one that was asked for last counts.
    pub fn accept_load(
        &mut self,
        job_id: u64,
        page_idx: usize,
        outcome: Result<(), String>,
        overlay_revision: u64,
    ) -> (d: LoadDecision)
        ensures
            d == old(self).decision(job_id, outcome is Ok),
            *final(self) == match d {
                LoadDecision::Stale => *old(self),
                LoadDecision::Show => old(self).showing(page_idx, overlay_revision),
                LoadDecision::Failed => old(self).failed(outcome->Err_0),
            },
    {
        let wanted = match self.pending_job_id {
            Some(j) => j == job_id,
            None => false,
        };
        if !wanted {
            return LoadDecision::Stale;
        }
        self.pending_job_id = None;
        match outcome {
            Ok(_) => {
                self.active_page_idx = Some(page_idx);
                self.last_overlay_revision = overlay_revision;
                self.load_error = None;
                LoadDecision::Show
            },
            Err(e) => {
                self.load_error = Some(e);
                LoadDecision::Failed
            },
        }
    }

    /// Another page is shown, or its overlay changed since.
    pub open spec fn outdated(self, page_idx: usize, overlay_revision: u64) -> bool {
        self.active_page_idx != Some(page_idx) || overlay_revision != self.last_overlay_revision
    }

    /// Takes a view over from elsewhere.  Tells whether the page has to be loaded: it is another
    /// one, or its overlay changed.
    pub fn sync_view_from_canvas(
        &mut self,
        page_idx: usize,
        zoom: u32,
        center: Option<PagePoint>,
        overlay_revision: u64,
    ) -> (load: bool)
        ensures
            load == old(self).outdated(page_idx, overlay_revision),
            *final(self) == (PageSession {
                pending_camera: Some(CameraSync { page_idx, zoom, center }),
                ..*old(self)
            }),
    {
        let same_page = match self.active_page_idx {
            Some(p) => p == page_idx,
            None => false,
        };
        self.pending_camera = Some(CameraSync { page_idx, zoom, center });
        !same_page || overlay_revision != self.last_overlay_revision
    }

    /// The view to be taken over now: its page is shown and nothing is being loaded.
    pub open spec fn camera_due(self, has_stack: bool) -> Option<CameraSync> {
        match self.pending_camera {
            Some(c) => if self.pending_job_id is None && self.active_page_idx == Some(c.page_idx)
                && has_stack {
                Some(c)
            } else {
                None
            },
            None => None,
        }
    }

    /// The session after the view that is due was taken over.
    pub open spec fn camera_taken(self, has_stack: bool) -> PageSession {
        PageSession {
            pending_camera: if self.camera_due(has_stack) is Some {
                None
            } else {
                self.pending_camera
            },
            ..self
        }
    }

    /// Takes over the view that is due.
    pub fn apply_pending_camera(&mut self, has_stack: bool) -> (r: Option<CameraSync>)
        ensures
            r == old(self).camera_due(has_stack),
            *final(self) == old(self).camera_taken(has_stack),
    {
        match self.pending_camera {
            None => None,
            Some(c) => {
                let shown = match self.active_page_idx {
                    Some(p) => p == c.page_idx,
                    None => false,
                };
                if self.pending_job_id.is_some() || !shown || !has_stack {
                    return None;
                }
                self.pending_camera = None;
                Some(c)
            },
        }
    }

    /// The page to be renewed because the shared document changed.  While a text is dragged
    /// nothing is renewed; without a page the change is only noted.
    pub fn refresh_view_if_doc_version_changed(&mut self, current: Option<u64>, dragging: bool) -> (r:
        Option<usize>)
        ensures
            ({
                let news = current is Some && current->0 != old(self).last_doc_version && !dragging;
                &&& r == if news {
                    old(self).active_page_idx
                } else {
                    None
                }
                &&& *final(self) == (PageSession {
                    last_doc_version: if news && old(self).active_page_idx is None {
                        current->0
                    } else {
                        old(self).last_doc_version
                    },
                    ..*old(self)
                })
            }),
    {
        match current {
            None => None,
            Some(v) => {
                if v == self.last_doc_version || dragging {
                    return None;
                }
                match self.active_page_idx {
                    Some(p) => Some(p),
                    None => {
                        self.last_doc_version = v;
                        None
                    },
                }
            },
        }
    }

    /// The first page of the project, if no page was asked for yet and one can be loaded.
    pub fn first_page(&self, pages: &Vec<usize>) -> (r: Option<usize>)
        ensures
            r == if self.active_page_idx is None && self.pending_job_id is None && self.has_loader
                && pages@.len() > 0 {
                Some(pages@[0])
            } else {
                None
            },
    {
        if self.active_page_idx.is_none() && self.pending_job_id.is_none() && self.has_loader
            && pages.len() > 0 {
            Some(pages[0])
        } else {
            None
        }
    }

    /// The place of the current page among the pages of the project.
    pub open spec fn place(&self, pages: Seq<usize>) -> Option<int> {
        match self.shown_or_loaded() {
            Some(p) => page_from(pages, p, 0),
            None => None,
        }
    }

    /// The pages before and after the current one.
    pub fn neighbours(&self, pages: &Vec<usize>) -> (r: (Option<usize>, Option<usize>))
        ensures
            r.0 == match self.place(pages@) {
                Some(i) => if i > 0 {
                    Some(pages@[i - 1])
                } else {
                    None
                },
                None => None,
            },
            r.1 == match self.place(pages@) {
                Some(i) => if i + 1 < pages@.len() {
                    Some(pages@[i + 1])
                } else {
                    None
                },
                None => None,
            },
    {
        let place: Option<usize> = match self.current_page() {
            Some(p) => find_page(pages, p),
            None => None,
        };
        assert(pages.len() <= usize::MAX);
        match place {
            None => (None, None),
            Some(i) => {
                let prev: Option<usize> = if i > 0 {
                    Some(pages[i - 1])
                } else {
                    None
                };
                let next: Option<usize> = if i + 1 < pages.len() {
                    Some(pages[i + 1])
                } else {
                    None
                };
                (prev, next)
            },
        }
    }

    /// The number of the current page out of how many; a dash where there is none.
    pub fn page_label(&self, page_count: usize) -> (s: String)
        requires
            self.shown_or_loaded() is Some ==> self.shown_or_loaded()->0 < usize::MAX,
        ensures
            s@ == (match self.shown_or_loaded() {
                Some(p) => decimal((p + 1) as nat),
                None => "—"@,
            }) + " / "@ + decimal(
                if page_count == 0 {
                    1
                } else {
                    page_count as nat
                },
            ),
    {
        let mut s = match self.current_page() {
            Some(p) => {
                let mut t = String::new();
                append_decimal(&mut t, p + 1);
                assert(t@ =~= decimal((p + 1) as nat));
                t
            },
            None => String::from_str("—"),
        };
        s.append(" / ");
        append_decimal(&mut s, if page_count == 0 { 1 } else { page_count });
        s
    }
}

/// A load counts only if nothing was asked for after it: once another page is asked for, the
/// number of the earlier load is never the awaited one again.
pub proof fn later_requests_win(
    s: PageSession,
    pages: Seq<usize>,
    page_idx: usize,
    job_id: u64,
    loaded: bool,
)
    requires
        job_id < s.next_job_id,
        s.next_job_id < u64::MAX,
        s.answer(pages, page_idx) is Load,
    ensures
        s.asked(pages, page_idx).decision(job_id, loaded) is Stale,
        s.asked(pages, page_idx).pending_job_id is Some,
        s.asked(pages, page_idx).pending_job_id->0 < s.asked(pages, page_idx).next_job_id,
        job_id < s.asked(pages, page_idx).next_job_id,
{
}

/// The size of a page in pixels.
#[derive(Clone, Copy, Debug, PartialEq, Eq, Structural)]
pub struct PageSize {
    pub page_idx: usize,
    pub w: usize,
    pub h: usize,
}

/// The sizes of pages that are known.
pub struct PageSizes {
    pub entries: Vec<PageSize>,
}

/// The size of a page as it was read; one that could not be read counts as a single pixel.
pub open spec fn read_size(page_idx: usize, size: Option<(usize, usize)>) -> PageSize {
    match size {
        Some(s) => PageSize { page_idx, w: s.0, h: s.1 },
        None => PageSize { page_idx, w: 1, h: 1 },
    }
}

/// The known size of a page, searched from `i` on.
pub open spec fn size_from(entries: Seq<PageSize>, page_idx: usize, i: int) -> Option<PageSize>
    decreases entries.len() - i,
{
    if i < 0 || i >= entries.len() {
        None
    } else if entries[i].page_idx == page_idx {
        Some(entries[i])
    } else {
        size_from(entries, page_idx, i + 1)
    }
}

/// The pages among the first `n` whose size is not known.
pub open spec fn unknown_pages(entries: Seq<PageSize>, pages: Seq<usize>, n: int) -> Seq<usize>
    decreases n,
{
    if n <= 0 {
        Seq::empty()
    } else if size_from(entries, pages[n - 1], 0) is None {
        unknown_pages(entries, pages, n - 1).push(pages[n - 1])
    } else {
        unknown_pages(entries, pages, n - 1)
    }
}

proof fn lemma_size_pushed(entries: Seq<PageSize>, e: PageSize, page_idx: usize, i: int)
    requires
        0 <= i <= entries.len(),
    ensures
        size_from(entries.push(e), page_idx, i) == match size_from(entries, page_idx, i) {
            Some(s) => Some(s),
            None => if e.page_idx == page_idx {
                Some(e)
            } else {
                None
            },
        },
    decreases entries.len() - i,
{
    if i < entries.len() {
        assert(entries.push(e)[i] == entries[i]);
        lemma_size_pushed(entries, e, page_idx, i + 1);
    } else {
        assert(size_from(entries.push(e), page_idx, i + 1) is None);
    }
}

proof fn lemma_size_updated(entries: Seq<PageSize>, k: int, e: PageSize, page_idx: usize, i: int)
    requires
        0 <= i <= entries.len(),
        0 <= k < entries.len(),
        entries[k].page_idx == e.page_idx,
        forall|j: int| 0 <= j < k ==> (#[trigger] entries[j]).page_idx != e.page_idx,
    ensures
        page_idx != e.page_idx ==> size_from(entries.update(k, e), page_idx, i) == size_from(
            entries,
            page_idx,
            i,
        ),
        page_idx == e.page_idx && i <= k ==> size_from(entries.update(k, e), page_idx, i) == Some(
            e,
        ),
    decreases entries.len() - i,
{
    if i < entries.len() {
        lemma_size_updated(entries, k, e, page_idx, i + 1);
    }
}

impl PageSizes {
    pub fn new() -> (s: PageSizes)
        ensures
            s.entries@.len() == 0,
    {
        PageSizes { entries: Vec::new() }
    }

    /// The size of a page, if it is known.
    pub fn get(&self, page_idx: usize) -> (r: Option<PageSize>)
        ensures
            r == size_from(self.entries@, page_idx, 0),
    {
        let mut i: usize = 0;
        while i < self.entries.len()
            invariant
                i <= self.entries@.len(),
                size_from(self.entries@, page_idx, 0) == size_from(
                    self.entries@,
                    page_idx,
                    i as int,
                ),
            decreases self.entries@.len() - i,
        {
            if self.entries[i].page_idx == page_idx {
                return Some(self.entries[i]);
            }
            i += 1;
        }
        None
    }

    /// The pages whose sizes have to be read.
    pub fn missing(&self, pages: &Vec<usize>) -> (out: Vec<usize>)
        ensures
            out@ == unknown_pages(self.entries@, pages@, pages@.len() as int),
    {
        let mut out: Vec<usize> = Vec::new();
        let mut n: usize = 0;
        while n < pages.len()
            invariant
                n <= pages@.len(),
                out@ == unknown_pages(self.entries@, pages@, n as int),
            decreases pages@.len() - n,
        {
            if self.get(pages[n]).is_none() {
                out.push(pages[n]);
            }
            n += 1;
        }
        out
    }

    /// Notes the size of a page; one that could not be read counts as a single pixel.
    pub fn insert(&mut self, page_idx: usize, size: Option<(usize, usize)>)
        ensures
            forall|p: usize| #[trigger]
                size_from(final(self).entries@, p, 0) == if p == page_idx {
                    Some(read_size(page_idx, size))
                } else {
                    size_from(old(self).entries@, p, 0)
                },
    {
        let e = match size {
            Some(s) => PageSize { page_idx, w: s.0, h: s.1 },
            None => PageSize { page_idx, w: 1, h: 1 },
        };
        let ghost before = self.entries@;
        let mut i: usize = 0;
        while i < self.entries.len()
            invariant
                i <= self.entries@.len(),
                self.entries@ == before,
                before == old(self).entries@,
                size_from(before, page_idx, 0) == size_from(before, page_idx, i as int),
                e == read_size(page_idx, size),
                forall|j: int| 0 <= j < i ==> (#[trigger] before[j]).page_idx != page_idx,
            decreases self.entries@.len() - i,
        {
            if self.entries[i].page_idx == page_idx {
                self.entries.set(i, e);
                assert forall|p: usize| #[trigger]
                    size_from(self.entries@, p, 0) == if p == page_idx {
                        Some(e)
                    } else {
                        size_from(before, p, 0)
                    } by {
                    lemma_size_updated(before, i as int, e, p, 0);
                }
                return;
            }
            i += 1;
        }
        self.entries.push(e);
        assert forall|p: usize| #[trigger]
            size_from(self.entries@, p, 0) == if p == page_idx {
                Some(e)
            } else {
                size_from(before, p, 0)
            } by {
            lemma_size_pushed(before, e, p, 0);
        }
    }
}

} // verus!
