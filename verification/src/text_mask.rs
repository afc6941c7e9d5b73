//! How the text mask of a page is shown, and the cache of its uploaded tiles.

use vstd::prelude::*;
use vstd::string::StringExecFns;
use crate::color::{Color, ColorImage};
use crate::lists::holds_number;
use crate::mask::{add_capped, mul_capped};
#[allow(unused_imports)]
use crate::mask::capped;
use crate::raster::{Grid, Raster};
#[allow(unused_imports)]
use crate::raster::{grid_of, lemma_position};
use crate::text::append_decimal;
#[allow(unused_imports)]
use crate::text::decimal;
use crate::tiles::{tile_grid, TileRect};
#[allow(unused_imports)]
use crate::tiles::tiles_of;

verus! {

/// The alpha at which a fully set mask pixel is shown.
pub const TEXT_MASK_VISUAL_ALPHA_MAX: u8 = 96;

pub open spec fn shown_alpha(a: u8) -> u8 {
    (a as int * TEXT_MASK_VISUAL_ALPHA_MAX / 255) as u8
}

/// The red picture of a tile of the mask; clear past the end of the mask.
pub open spec fn tile_picture(full_w: int, alpha: Seq<u8>, t: TileRect) -> Grid<Color> {
    grid_of(
        t.w as int,
        t.h as int,
        |x: int, y: int|
            {
                let i = capped(capped((t.y + y) * full_w) + t.x + x);
                let a = if i < alpha.len() {
                    shown_alpha(alpha[i])
                } else {
                    0u8
                };
                Color { r: a, g: 0, b: 0, a }
            },
    )
}

/// Draws one tile of the mask in red.
pub fn build_text_mask_tile_image(full_w: usize, alpha: &[u8], t: TileRect) -> (img: ColorImage)
    requires
        t.w * t.h <= usize::MAX,
        t.x + t.w <= usize::MAX,
        t.y + t.h <= usize::MAX,
    ensures
        img.wf(),
        img@ == tile_picture(full_w as int, alpha@, t),
{
    let n: usize = t.w * t.h;
    let mut px: Vec<Color> = Vec::new();
    let mut i: usize = 0;
    let ghost target = tile_picture(full_w as int, alpha@, t);
    while i < n
        invariant
            i <= n,
            n == t.w * t.h,
            t.x + t.w <= usize::MAX,
            t.y + t.h <= usize::MAX,
            target == tile_picture(full_w as int, alpha@, t),
            px@.len() == i,
            forall|k: int| 0 <= k < i ==> #[trigger] px@[k] == target.px[k],
        decreases n - i,
    {
        proof {
            lemma_position(t.w as int, t.h as int, i as int);
        }
        let x: usize = i % t.w;
        let y: usize = i / t.w;
        let row: usize = mul_capped(t.y + y, full_w);
        let j: usize = add_capped(row, t.x + x);
        let src: u8 = if j < alpha.len() { alpha[j] } else { 0 };
        let a: u8 = (src as u16 * 96 / 255) as u8;
        px.push(Color { r: a, g: 0, b: 0, a });
        i += 1;
    }
    let img = Raster { w: t.w, h: t.h, px };
    assert(img@ =~= target);
    img
}

/// The uploaded mask of a page: its size, its tiles, when it was last drawn, and whether it is
/// sampled without smoothing.
#[derive(Debug)]
pub struct TextMaskTexturePage {
    pub page_idx: usize,
    pub size: (usize, usize),
    pub tiles: Vec<TileRect>,
    pub last_used_frame: u64,
    pub nearest: bool,
}

/// The bytes of the first `n` tiles, four for each pixel, as far as they can be counted.
pub open spec fn tiles_bytes(tiles: Seq<TileRect>, n: nat) -> int
    decreases n,
{
    if n == 0 {
        0
    } else {
        let t = tiles[n - 1];
        capped(tiles_bytes(tiles, (n - 1) as nat) + capped(capped(t.w * t.h) * 4))
    }
}

/// An estimate of the memory that an uploaded mask takes.
pub fn text_mask_texture_page_estimated_bytes(page: &TextMaskTexturePage) -> (bytes: u64)
    ensures
        bytes == tiles_bytes(page.tiles@, page.tiles@.len()),
{
    let mut sum: usize = 0;
    let mut i: usize = 0;
    while i < page.tiles.len()
        invariant
            i <= page.tiles@.len(),
            sum == tiles_bytes(page.tiles@, i as nat),
        decreases page.tiles@.len() - i,
    {
        let t = page.tiles[i];
        sum = add_capped(sum, mul_capped(mul_capped(t.w, t.h), 4));
        i += 1;
    }
    sum as u64
}

/// The uploaded masks, one for each page at most.
#[derive(Debug)]
pub struct TextMaskTextures {
    pub pages: Vec<TextMaskTexturePage>,
}

/// What the memory manager learns of an uploaded mask.  It can always be rebuilt from the model,
/// and is never the only copy of anything.
#[derive(Debug)]
pub struct CacheResourceInfo {
    pub id: String,
    pub page_idx: usize,
    pub estimated_bytes: u64,
    pub last_used_frame: u64,
    pub visible: bool,
    pub dirty: bool,
    pub reconstructable: bool,
}

/// Which masks went, and the bytes that this freed.
#[derive(Debug)]
pub struct CacheEvictionReport {
    pub resources: Vec<CacheResourceInfo>,
    pub estimated_freed_bytes: u64,
}

pub open spec fn resource_id(page_idx: nat) -> Seq<char> {
    "cleaning-mask-gpu:"@ + decimal(page_idx)
}

/// `r` describes the uploaded mask `p` while the pages in `pinned` are on screen.
pub open spec fn describes(r: CacheResourceInfo, p: TextMaskTexturePage, pinned: Seq<usize>) -> bool {
    &&& r.id@ == resource_id(p.page_idx as nat)
    &&& r.page_idx == p.page_idx
    &&& r.estimated_bytes == tiles_bytes(p.tiles@, p.tiles@.len())
    &&& r.last_used_frame == p.last_used_frame
    &&& r.visible == pinned.contains(p.page_idx)
    &&& !r.dirty
    &&& r.reconstructable
}

/// What is drawn of the mask of a page.
#[derive(Clone, Copy, Debug, PartialEq, Eq, Structural)]
pub enum MaskDraw {
    /// The mask has no pixels, or its size does not fit its pixels.
    Nothing,
    /// The tiles have to be built first.
    Rebuild,
    /// The uploaded tiles are up to date.
    Draw,
}

fn position_of(pages: &Vec<TextMaskTexturePage>, page_idx: usize) -> (r: Option<usize>)
    ensures
        match r {
            Some(i) => i < pages@.len() && pages@[i as int].page_idx == page_idx && forall|k: int|
                0 <= k < i ==> (#[trigger] pages@[k]).page_idx != page_idx,
            None => forall|k: int|
                0 <= k < pages@.len() ==> (#[trigger] pages@[k]).page_idx != page_idx,
        },
{
    let mut i: usize = 0;
    while i < pages.len()
        invariant
            i <= pages@.len(),
            forall|k: int| 0 <= k < i ==> (#[trigger] pages@[k]).page_idx != page_idx,
        decreases pages@.len() - i,
    {
        if pages[i].page_idx == page_idx {
            return Some(i);
        }
        i += 1;
    }
    None
}

impl TextMaskTextures {
    /// No page occurs twice.
    pub open spec fn wf(&self) -> bool {
        forall|i: int, j: int|
            0 <= i < j < self.pages@.len() ==> (#[trigger] self.pages@[i]).page_idx != (
            #[trigger] self.pages@[j]).page_idx
    }

    pub fn new() -> (t: TextMaskTextures)
        ensures
            t.wf(),
            t.pages@.len() == 0,
    {
        TextMaskTextures { pages: Vec::new() }
    }

    /// Lists the uploaded masks for the memory manager.
    pub fn cleaning_mask_gpu_memory_snapshot(&self, pinned_pages: &Vec<usize>) -> (out: Vec<
        CacheResourceInfo,
    >)
        ensures
            out@.len() == self.pages@.len(),
            forall|i: int|
                0 <= i < out@.len() ==> describes(
                    #[trigger] out@[i],
                    self.pages@[i],
                    pinned_pages@,
                ),
    {
        let mut out: Vec<CacheResourceInfo> = Vec::new();
        let mut i: usize = 0;
        while i < self.pages.len()
            invariant
                i <= self.pages@.len(),
                out@.len() == i,
                forall|k: int|
                    0 <= k < i ==> describes(#[trigger] out@[k], self.pages@[k], pinned_pages@),
            decreases self.pages@.len() - i,
        {
            let page = &self.pages[i];
            let mut id = String::from_str("cleaning-mask-gpu:");
            append_decimal(&mut id, page.page_idx);
            let visible: bool = holds_number(pinned_pages, page.page_idx);
            out.push(
                CacheResourceInfo {
                    id,
                    page_idx: page.page_idx,
                    estimated_bytes: text_mask_texture_page_estimated_bytes(page),
                    last_used_frame: page.last_used_frame,
                    visible,
                    dirty: false,
                    reconstructable: true,
                },
            );
            i += 1;
        }
        out
    }

    /// Drops the masks that the memory manager chose, as far as they are uploaded.
    pub fn evict_cleaning_mask_gpu_cache(&mut self, candidates: Vec<CacheResourceInfo>) -> (report:
        CacheEvictionReport)
        requires
            old(self).wf(),
        ensures
            final(self).wf(),
            final(self).pages@ == kept(old(self).pages@, chosen(candidates@, candidates@.len())),
            report.resources@ == evicted(old(self).pages@, candidates@, candidates@.len()),
            report.estimated_freed_bytes == freed(report.resources@, report.resources@.len()),
    {
        let ghost before = self.pages@;
        let ghost all = candidates@;
        let n: usize = candidates.len();
        let mut rest = candidates;
        let mut taken: Vec<CacheResourceInfo> = Vec::new();
        let mut sum: u64 = 0;
        let mut i: usize = 0;
        proof {
            lemma_kept_none(before);
        }
        while i < n
            invariant
                i <= n,
                n == all.len(),
                rest@ == all.subrange(i as int, n as int),
                self.wf(),
                self.pages@ == kept(before, chosen(all, i as nat)),
                taken@ == evicted(before, all, i as nat),
                sum == freed(taken@, taken@.len()),
            decreases n - i,
        {
            let ghost pages0 = self.pages@;
            let r = rest.remove(0);
            assert(r == all[i as int]);
            assert(rest@ =~= all.subrange(i + 1, n as int));
            proof {
                lemma_kept_members(before, chosen(all, i as nat));
            }
            match position_of(&self.pages, r.page_idx) {
                Some(k) => {
                    let gone = self.pages.remove(k);
                    proof {
                        lemma_kept_remove(before, chosen(all, i as nat), r.page_idx, k as int);
                    }
                    sum = sum.saturating_add(r.estimated_bytes);
                    let ghost taken0 = taken@;
                    taken.push(r);
                    proof {
                        lemma_freed_push(taken0, r);
                        assert(exists|j: int| 0 <= j < before.len() && (#[trigger] before[j]).page_idx == r.page_idx) by {
                            let j = choose|j: int| 0 <= j < before.len() && before[j] == pages0[k as int];
                            assert(before[j].page_idx == r.page_idx);
                        }
                    }
                },
                None => {
                    proof {
                        lemma_kept_absent(before, chosen(all, i as nat), r.page_idx);
                        assert forall|j: int| 0 <= j < before.len() && !chosen(all, i as nat).contains(r.page_idx) implies (
                        #[trigger] before[j]).page_idx != r.page_idx by {
                            if before[j].page_idx == r.page_idx {
                                let k = choose|k: int| 0 <= k < pages0.len() && pages0[k] == before[j];
                                assert(pages0[k].page_idx == r.page_idx);
                            }
                        }
                    }
                },
            }
            i += 1;
        }
        CacheEvictionReport { resources: taken, estimated_freed_bytes: sum }
    }

    /// Empties the cache when the model has changed since it was filled.
    pub fn sync_revision(&mut self, synced: u64, revision: u64) -> (now: u64)
        ensures
            now == revision,
            synced == revision ==> final(self).pages@ == old(self).pages@,
            synced != revision ==> final(self).pages@.len() == 0,
    {
        if synced != revision {
            self.pages.clear();
        }
        revision
    }

    /// What has to be done to draw the mask of a page.
    pub fn plan_draw(&self, page_idx: usize, mask_w: usize, mask_h: usize, alpha_len: usize, nearest: bool) -> (d:
        MaskDraw)
        requires
            self.wf(),
        ensures
            d is Nothing <==> alpha_len == 0 || mask_w == 0 || mask_h == 0 || capped(
                mask_w * mask_h,
            ) != alpha_len,
            d is Draw <==> !(d is Nothing) && exists|i: int|
                0 <= i < self.pages@.len() && {
                    let p = #[trigger] self.pages@[i];
                    p.page_idx == page_idx && p.size == (mask_w, mask_h) && p.nearest == nearest
                },
    {
        if alpha_len == 0 || mask_w == 0 || mask_h == 0 || mul_capped(mask_w, mask_h) != alpha_len {
            return MaskDraw::Nothing;
        }
        match position_of(&self.pages, page_idx) {
            Some(i) => {
                let p = &self.pages[i];
                if p.size.0 == mask_w && p.size.1 == mask_h && p.nearest == nearest {
                    assert(self.pages@[i as int].size == (mask_w, mask_h));
                    MaskDraw::Draw
                } else {
                    MaskDraw::Rebuild
                }
            },
            None => MaskDraw::Rebuild,
        }
    }

    /// Replaces the uploaded mask of a page by one cut into tiles, drawn in the current frame.
    pub fn put_page(&mut self, page_idx: usize, size: (usize, usize), nearest: bool, frame: u64)
        requires
            old(self).wf(),
            size.0 * size.1 <= usize::MAX,
        ensures
            final(self).wf(),
            final(self).pages@.len() > 0,
            final(self).pages@.drop_last() == kept(old(self).pages@, set![page_idx]),
            final(self).pages@.last().page_idx == page_idx,
            final(self).pages@.last().size == size,
            final(self).pages@.last().tiles@ == if size.0 == 0 || size.1 == 0 {
                Seq::<TileRect>::empty()
            } else {
                tiles_of(size.0 as int, size.1 as int)
            },
            final(self).pages@.last().nearest == nearest,
            final(self).pages@.last().last_used_frame == frame,
    {
        let ghost before = self.pages@;
        proof {
            lemma_kept_none(before);
        }
        match position_of(&self.pages, page_idx) {
            Some(k) => {
                let gone = self.pages.remove(k);
                proof {
                    lemma_kept_remove(before, Set::empty(), page_idx, k as int);
                }
            },
            None => {
                proof {
                    lemma_kept_absent(before, Set::empty(), page_idx);
                }
            },
        }
        proof {
            assert(Set::<usize>::empty().insert(page_idx) =~= set![page_idx]);
            lemma_kept_members(before, set![page_idx]);
        }
        let tiles = if size.0 == 0 || size.1 == 0 {
            Vec::new()
        } else {
            tile_grid(size.0, size.1)
        };
        let ghost mid = self.pages@;
        self.pages.push(TextMaskTexturePage { page_idx, size, tiles, last_used_frame: frame, nearest });
        assert(self.pages@.drop_last() =~= mid);
        assert(size.0 == 0 || size.1 == 0 ==> self.pages@.last().tiles@ =~= Seq::<TileRect>::empty());
    }

    /// Records that the mask of a page was drawn in the given frame.
    pub fn touch(&mut self, page_idx: usize, frame: u64)
        requires
            old(self).wf(),
        ensures
            final(self).wf(),
            final(self).pages@.len() == old(self).pages@.len(),
            forall|i: int|
                0 <= i < old(self).pages@.len() ==> {
                    let a = #[trigger] final(self).pages@[i];
                    let b = old(self).pages@[i];
                    &&& a.page_idx == b.page_idx && a.size == b.size && a.tiles == b.tiles
                        && a.nearest == b.nearest
                    &&& a.last_used_frame == if b.page_idx == page_idx {
                        frame
                    } else {
                        b.last_used_frame
                    }
                },
    {
        match position_of(&self.pages, page_idx) {
            Some(k) => {
                let ghost before = self.pages@;
                let mut p = self.pages.remove(k);
                p.last_used_frame = frame;
                self.pages.insert(k, p);
                assert(forall|i: int| 0 <= i < before.len() && i != k ==> #[trigger] self.pages@[i] == before[i]);
            },
            None => {},
        }
    }
}

/// The pages named by the first `n` candidates.
pub open spec fn chosen(candidates: Seq<CacheResourceInfo>, n: nat) -> Set<usize>
    decreases n,
{
    if n == 0 {
        Set::empty()
    } else {
        chosen(candidates, (n - 1) as nat).insert(candidates[n - 1].page_idx)
    }
}

/// The uploaded masks of the pages that are not in `gone`, in order.
pub open spec fn kept(pages: Seq<TextMaskTexturePage>, gone: Set<usize>) -> Seq<TextMaskTexturePage>
    decreases pages.len(),
{
    if pages.len() == 0 {
        Seq::empty()
    } else {
        let head = kept(pages.drop_last(), gone);
        if gone.contains(pages.last().page_idx) {
            head
        } else {
            head.push(pages.last())
        }
    }
}

/// The candidates among the first `n` that named an uploaded mask not named before.
pub open spec fn evicted(
    pages: Seq<TextMaskTexturePage>,
    candidates: Seq<CacheResourceInfo>,
    n: nat,
) -> Seq<CacheResourceInfo>
    decreases n,
{
    if n == 0 {
        Seq::empty()
    } else {
        let m = (n - 1) as nat;
        let head = evicted(pages, candidates, m);
        let r = candidates[n - 1];
        if !chosen(candidates, m).contains(r.page_idx) && exists|j: int|
            0 <= j < pages.len() && (#[trigger] pages[j]).page_idx == r.page_idx {
            head.push(r)
        } else {
            head
        }
    }
}

/// The sum of the estimates, stopping at the largest machine number.
pub open spec fn freed(resources: Seq<CacheResourceInfo>, n: nat) -> int
    decreases n,
{
    if n == 0 {
        0
    } else {
        let sum = freed(resources, (n - 1) as nat) + resources[n - 1].estimated_bytes;
        if sum > u64::MAX {
            u64::MAX as int
        } else {
            sum
        }
    }
}

proof fn lemma_kept_none(pages: Seq<TextMaskTexturePage>)
    ensures
        kept(pages, Set::empty()) == pages,
    decreases pages.len(),
{
    if pages.len() > 0 {
        lemma_kept_none(pages.drop_last());
    }
    assert(kept(pages, Set::empty()) =~= pages);
}

proof fn lemma_kept_members(pages: Seq<TextMaskTexturePage>, gone: Set<usize>)
    ensures
        forall|i: int|
            0 <= i < kept(pages, gone).len() ==> pages.contains(#[trigger] kept(pages, gone)[i])
                && !gone.contains(kept(pages, gone)[i].page_idx),
        forall|j: int|
            0 <= j < pages.len() && !gone.contains((#[trigger] pages[j]).page_idx) ==> kept(
                pages,
                gone,
            ).contains(pages[j]),
    decreases pages.len(),
{
    if pages.len() > 0 {
        let d = pages.drop_last();
        lemma_kept_members(d, gone);
        let all = kept(pages, gone);
        assert forall|j: int| 0 <= j < pages.len() && !gone.contains((#[trigger] pages[j]).page_idx) implies all.contains(
            pages[j],
        ) by {
            if j < d.len() {
                assert(d[j] == pages[j]);
                let k = choose|k: int| 0 <= k < kept(d, gone).len() && kept(d, gone)[k] == pages[j];
                assert(all[k] == pages[j]);
            } else {
                assert(all[all.len() - 1] == pages[j]);
            }
        }
        assert forall|i: int| 0 <= i < kept(pages, gone).len() implies pages.contains(
            #[trigger] kept(pages, gone)[i],
        ) && !gone.contains(kept(pages, gone)[i].page_idx) by {
            if i < kept(d, gone).len() {
                assert(d.contains(kept(d, gone)[i]));
                let j = choose|j: int| 0 <= j < d.len() && d[j] == kept(d, gone)[i];
                assert(pages[j] == d[j]);
            } else {
                assert(pages[pages.len() - 1] == pages.last());
            }
        }
    }
}

/// Dropping one more page from what was kept.
proof fn lemma_kept_remove(
    pages: Seq<TextMaskTexturePage>,
    gone: Set<usize>,
    page_idx: usize,
    k: int,
)
    requires
        0 <= k < kept(pages, gone).len(),
        kept(pages, gone)[k].page_idx == page_idx,
        forall|i: int|
            0 <= i < kept(pages, gone).len() && i != k ==> (#[trigger] kept(pages, gone)[i]).page_idx
                != page_idx,
    ensures
        kept(pages, gone.insert(page_idx)) == kept(pages, gone).remove(k),
    decreases pages.len(),
{
    let d = pages.drop_last();
    let head = kept(d, gone);
    let all = kept(pages, gone);
    let more = gone.insert(page_idx);
    if gone.contains(pages.last().page_idx) {
        lemma_kept_remove(d, gone, page_idx, k);
    } else if k < head.len() {
        assert(all[all.len() - 1] == pages.last());
        assert forall|i: int| 0 <= i < head.len() implies #[trigger] head[i] == all[i] by {
        }
        lemma_kept_remove(d, gone, page_idx, k);
        assert(kept(pages, more) =~= all.remove(k));
    } else {
        assert forall|i: int| 0 <= i < head.len() implies (#[trigger] head[i]).page_idx != page_idx by {
            assert(head[i] == all[i]);
        }
        lemma_kept_absent(d, gone, page_idx);
        assert(kept(pages, more) =~= all.remove(k));
    }
}

proof fn lemma_kept_absent(pages: Seq<TextMaskTexturePage>, gone: Set<usize>, page_idx: usize)
    requires
        forall|i: int|
            0 <= i < kept(pages, gone).len() ==> (#[trigger] kept(pages, gone)[i]).page_idx
                != page_idx,
    ensures
        kept(pages, gone.insert(page_idx)) == kept(pages, gone),
    decreases pages.len(),
{
    if pages.len() > 0 {
        let d = pages.drop_last();
        let head = kept(d, gone);
        let all = kept(pages, gone);
        assert forall|i: int| 0 <= i < head.len() implies (#[trigger] head[i]).page_idx != page_idx by {
            assert(head[i] == all[i]);
        }
        lemma_kept_absent(d, gone, page_idx);
        if !gone.contains(pages.last().page_idx) {
            assert(all[all.len() - 1] == pages.last());
        }
    }
}

proof fn lemma_freed_push(s: Seq<CacheResourceInfo>, r: CacheResourceInfo)
    ensures
        freed(s.push(r), (s.len() + 1) as nat) == {
            let sum = freed(s, s.len()) + r.estimated_bytes;
            if sum > u64::MAX {
                u64::MAX as int
            } else {
                sum
            }
        },
{
    lemma_freed_prefix(s, r, s.len());
}

proof fn lemma_freed_prefix(s: Seq<CacheResourceInfo>, r: CacheResourceInfo, n: nat)
    requires
        n <= s.len(),
    ensures
        freed(s.push(r), n) == freed(s, n),
    decreases n,
{
    if n > 0 {
        lemma_freed_prefix(s, r, (n - 1) as nat);
    }
}

} // verus!
