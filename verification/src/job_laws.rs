//! What the background jobs, the shown masks and the settings are for.

use vstd::prelude::*;
#[allow(unused_imports)]
use crate::color::Color;
#[allow(unused_imports)]
use crate::jobs::{
    finished_message, is_first_with, is_loaded_page, is_task, known_pages, loaded_message,
    missing_count, no_progress, page_message, patch_base, patched, progress_after, unmasked, usable,
    usable_positions, ProjectPage, QuickTextCleanProgress, QuickTextCleanTask, StoredMask,
};
#[allow(unused_imports)]
use crate::json::{parsed_json, Json};
#[allow(unused_imports)]
use crate::quick_clean::{QuickTextCleanPageResult, TextMaskLoadPage};
#[allow(unused_imports)]
use crate::raster::{grid_of, lemma_grid_of, Grid};
#[allow(unused_imports)]
use crate::settings::{stored_at, with_text};
#[allow(unused_imports)]
use crate::text::{decimal, padded_decimal};
#[allow(unused_imports)]
use crate::text_mask::{
    chosen, describes, evicted, freed, kept, shown_alpha, tile_picture, tiles_bytes,
    CacheResourceInfo, TextMaskTexturePage,
};
#[allow(unused_imports)]
use crate::tiles::TileRect;

verus! {

/// A job starts with nothing done.  Each page that is done adds itself, its regions, and itself to
/// the failed or to those without a mask where it is one; how many pages there are does not change.
pub proof fn progress_adds_up(p: QuickTextCleanProgress, r: QuickTextCleanPageResult)
    requires
        p.done_pages < usize::MAX,
        p.failed_pages < usize::MAX,
        p.missing_masks < usize::MAX,
        p.regions_total + r.regions_total <= usize::MAX,
        p.regions_filled + r.regions_filled <= usize::MAX,
        p.regions_skipped + r.regions_skipped <= usize::MAX,
    ensures
        ({
            let q = progress_after(p, r);
            &&& q.total_pages == p.total_pages
            &&& q.done_pages == p.done_pages + 1
            &&& q.regions_total == p.regions_total + r.regions_total
            &&& q.regions_filled == p.regions_filled + r.regions_filled
            &&& q.regions_skipped == p.regions_skipped + r.regions_skipped
            &&& r.error is Some ==> q.failed_pages == p.failed_pages + 1
            &&& r.error is None ==> q.failed_pages == p.failed_pages
            &&& r.missing_mask ==> q.missing_masks == p.missing_masks + 1
            &&& !r.missing_mask ==> q.missing_masks == p.missing_masks
        }),
        ({
            let n = no_progress();
            &&& n.total_pages == 0 && n.done_pages == 0 && n.regions_total == 0
            &&& n.regions_filled == 0 && n.regions_skipped == 0 && n.failed_pages == 0
            &&& n.missing_masks == 0
        }),
{
}

/// The messages of a job name its counts in this order.
pub proof fn messages_name_the_counts(
    r: QuickTextCleanPageResult,
    p: QuickTextCleanProgress,
    applied: nat,
    loaded: nat,
    missing: nat,
    failed: nat,
)
    requires
        loaded + missing + failed <= usize::MAX,
    ensures
        page_message(r) == "Быстрый клин: страница "@ + decimal(r.page_idx as nat)
            + " обработана (областей: "@ + decimal(r.regions_total as nat) + ", заполнено: "@
            + decimal(r.regions_filled as nat) + ", пропущено: "@ + decimal(r.regions_skipped as nat)
            + ")."@,
        finished_message(p) == "Быстрый клин завершён: страниц "@ + decimal(p.done_pages as nat)
            + "/"@ + decimal(p.total_pages as nat) + ", заполнено областей "@ + decimal(
            p.regions_filled as nat,
        ) + ", пропущено "@ + decimal(p.regions_skipped as nat) + ", ошибок "@ + decimal(
            p.failed_pages as nat,
        ) + ", без маски "@ + decimal(p.missing_masks as nat) + "."@,
        loaded_message(applied, loaded, missing, failed) == "Загрузка маски: загружено "@ + decimal(
            applied,
        ) + "/"@ + decimal((loaded + missing + failed) as nat) + " (в хранилище: "@ + decimal(loaded)
            + ", пропущено: "@ + decimal(missing) + ", ошибок: "@ + decimal(failed) + ")."@,
{
}

/// The pages of a job are those that were asked for and are there, in the order in which they were
/// asked for.
pub proof fn jobs_take_the_known_pages(wanted: Seq<usize>, pages: Seq<ProjectPage>, n: nat)
    requires
        n <= wanted.len(),
    ensures
        known_pages(wanted, pages, n) == wanted.take(n as int).filter(
            |idx: usize|
                exists|i: int| 0 <= i < pages.len() && (#[trigger] pages[i]).idx == idx,
        ),
    decreases n,
{
    reveal(Seq::filter);
    if n > 0 {
        jobs_take_the_known_pages(wanted, pages, (n - 1) as nat);
        assert(wanted.take(n as int).drop_last() =~= wanted.take(n - 1));
        assert(wanted.take(n as int).last() == wanted[n - 1]);
    } else {
        assert(wanted.take(0) =~= Seq::empty());
    }
}

/// A task reads the page from where the project has it first, and the mask from the file of that
/// page: its number with five digits, in the directory of the masks.
pub proof fn tasks_name_their_files(
    t: QuickTextCleanTask,
    idx: usize,
    pages: Seq<ProjectPage>,
    dir: Seq<char>,
    i: int,
)
    requires
        is_task(t, idx, pages, dir),
        0 <= i < pages.len(),
        pages[i].idx == idx,
        forall|k: int| 0 <= k < i ==> (#[trigger] pages[k]).idx != idx,
    ensures
        t.page_idx == idx,
        t.page_path@ == pages[i].path@,
        dir.len() > 0 && dir[dir.len() - 1] != '/' ==> t.mask_path@ == dir + "/"@ + padded_decimal(
            idx as nat,
            5,
        ) + "_mask.png"@,
        dir.len() == 0 || dir[dir.len() - 1] == '/' ==> t.mask_path@ == dir + padded_decimal(
            idx as nat,
            5,
        ) + "_mask.png"@,
{
    let j = choose|j: int|
        is_first_with(pages, idx, j) && t.page_path@ == (#[trigger] pages[j]).path@;
    assert(i == j) by {
        if i < j {
            assert(pages[i].idx != idx);
        }
        if j < i {
            assert(pages[j].idx != idx);
        }
    }
    let name = padded_decimal(idx as nat, 5);
    assert(dir + (name + "_mask.png"@) =~= dir + name + "_mask.png"@);
    assert(dir + "/"@ + (name + "_mask.png"@) =~= dir + "/"@ + name + "_mask.png"@);
}

/// A patch replaces the pixels where it is not clear and leaves the others.
pub proof fn patches_replace_where_they_show(base: Grid<Color>, patch: Grid<Color>, i: int)
    requires
        0 <= i < base.px.len(),
    ensures
        patched(base, patch).w == base.w,
        patched(base, patch).h == base.h,
        patched(base, patch).px.len() == base.px.len(),
        i < patch.px.len() && patch.px[i].a > 0 ==> patched(base, patch).px[i] == patch.px[i],
        i < patch.px.len() && patch.px[i].a == 0 ==> patched(base, patch).px[i] == base.px[i],
        i >= patch.px.len() ==> patched(base, patch).px[i] == base.px[i],
{
}

/// What a patch is laid on has the size of the patch: the overlay where it has that size, a clear
/// one where there is none or it is empty, and else the overlay scaled to it.
pub proof fn patches_lie_on_the_overlay(overlay: Grid<Color>, patch: Grid<Color>, x: int, y: int)
    requires
        0 <= x < patch.w,
        0 <= y < patch.h,
    ensures
        patch_base(None, patch).w == patch.w,
        patch_base(None, patch).h == patch.h,
        patch_base(None, patch).px[y * patch.w + x] == (Color { r: 0, g: 0, b: 0, a: 0 }),
        overlay.w == patch.w && overlay.h == patch.h ==> patch_base(Some(overlay), patch)
            == overlay,
        (overlay.w == 0 || overlay.h == 0) ==> patch_base(Some(overlay), patch) == patch_base(
            None,
            patch,
        ),
        overlay.w > 0 && overlay.h > 0 && (overlay.w != patch.w || overlay.h != patch.h)
            ==> patch_base(Some(overlay), patch) == crate::mask::scaled(overlay, patch.w, patch.h),
{
    let f = |a: int, b: int| crate::color::clear();
    lemma_grid_of(patch.w, patch.h, f);
    assert(patch_base(None, patch) == grid_of(patch.w, patch.h, f));
    assert(patch_base(None, patch).at(x, y) == f(x, y));
}

/// A stored mask can be used where it could be read and has an extent.  It is loaded with its size,
/// and set to the full where it is not black.
pub proof fn stored_masks_are_loaded(
    page: TextMaskLoadPage,
    idx: usize,
    w: u32,
    h: u32,
    luma: Vec<u8>,
    i: int,
)
    requires
        is_loaded_page(page, idx, StoredMask::Picture { w, h, luma }),
        0 <= i < luma@.len(),
    ensures
        page.page_idx == idx,
        page.mask_size == (w, h),
        page.mask_alpha@.len() == luma@.len(),
        page.mask_alpha@[i] == if luma@[i] == 0 {
            0int
        } else {
            255int
        },
        usable(StoredMask::Picture { w, h, luma }) <==> w > 0 && h > 0,
        !usable(StoredMask::Missing),
        !usable(StoredMask::Unreadable),
{
}

/// The usable masks are loaded in their order, and the missing ones are counted.
pub proof fn masks_are_loaded_in_order(found: Seq<StoredMask>, n: nat)
    requires
        n <= found.len(),
    ensures
        usable_positions(found, n) == Seq::new(n, |i: int| i).filter(
            |i: int|
                found[i] is Picture && found[i]->w > 0 && found[i]->h > 0,
        ),
        missing_count(found, n) == found.take(n as int).filter(
            |m: StoredMask| m is Missing,
        ).len(),
    decreases n,
{
    reveal(Seq::filter);
    let s = Seq::new(n, |i: int| i);
    if n > 0 {
        masks_are_loaded_in_order(found, (n - 1) as nat);
        assert(s.drop_last() =~= Seq::new((n - 1) as nat, |i: int| i));
        assert(s.last() == n - 1);
        assert(found.take(n as int).drop_last() =~= found.take(n - 1));
        assert(found.take(n as int).last() == found[n - 1]);
    } else {
        assert(s =~= Seq::empty());
        assert(found.take(0) =~= Seq::empty());
    }
}

/// The pages without a mask are those that are not listed as having one, in the order of the
/// project.
pub proof fn pages_without_a_mask_are_listed(
    pages: Seq<ProjectPage>,
    masked: Seq<usize>,
    n: nat,
    k: int,
)
    requires
        0 <= k < n <= pages.len(),
    ensures
        unmasked(pages, masked, n).contains(pages[k].idx) <==> !masked.contains(pages[k].idx),
    decreases n,
{
    let prev = unmasked(pages, masked, (n - 1) as nat);
    let now = unmasked(pages, masked, n);
    lemma_unmasked(pages, masked, n);
    if !masked.contains(pages[k].idx) {
        if k < n - 1 {
            pages_without_a_mask_are_listed(pages, masked, (n - 1) as nat, k);
            let j = choose|j: int| 0 <= j < prev.len() && prev[j] == pages[k].idx;
            assert(now[j] == pages[k].idx);
        } else {
            assert(now[now.len() - 1] == pages[k].idx);
        }
    }
}

proof fn lemma_unmasked(pages: Seq<ProjectPage>, masked: Seq<usize>, n: nat)
    requires
        n <= pages.len(),
    ensures
        forall|j: int|
            0 <= j < unmasked(pages, masked, n).len() ==> !masked.contains(
                #[trigger] unmasked(pages, masked, n)[j],
            ),
    decreases n,
{
    if n > 0 {
        lemma_unmasked(pages, masked, (n - 1) as nat);
        let prev = unmasked(pages, masked, (n - 1) as nat);
        let now = unmasked(pages, masked, n);
        assert forall|j: int| 0 <= j < now.len() implies !masked.contains(#[trigger] now[j]) by {
            if j < prev.len() {
                assert(now[j] == prev[j]);
            }
        }
    }
}

/// A mask is shown in red, at 96 of 255 where it is full and weaker in proportion.
pub proof fn masks_are_shown_in_red(full_w: int, alpha: Seq<u8>, t: TileRect, x: int, y: int)
    requires
        alpha.len() <= usize::MAX,
        t.x + t.w <= full_w,
        (t.y + t.h) * full_w <= alpha.len(),
        0 <= x < t.w,
        0 <= y < t.h,
    ensures
        ({
            let out = tile_picture(full_w, alpha, t);
            let p = out.px[y * t.w + x];
            let a = alpha[(t.y + y) * full_w + t.x + x];
            &&& out.w == t.w
            &&& out.h == t.h
            &&& p.r == a * 96 / 255
            &&& p.g == 0
            &&& p.b == 0
            &&& p.a == p.r
            &&& a == 255 ==> p.a == 96
            &&& a == 0 ==> p.a == 0
        }),
{
    let f = |u: int, v: int|
        {
            let i = crate::mask::capped(crate::mask::capped((t.y + v) * full_w) + t.x + u);
            let a = if i < alpha.len() {
                shown_alpha(alpha[i])
            } else {
                0u8
            };
            Color { r: a, g: 0, b: 0, a }
        };
    lemma_grid_of(t.w as int, t.h as int, f);
    assert(tile_picture(full_w, alpha, t) == grid_of(t.w as int, t.h as int, f));
    assert(tile_picture(full_w, alpha, t).at(x, y) == f(x, y));
    assert(0 <= (t.y + y) * full_w && (t.y + y) * full_w + full_w <= (t.y + t.h) * full_w)
        by (nonlinear_arith)
        requires
            0 <= y < t.h,
            0 <= full_w,
            0 <= t.y,
    ;
}

/// A texture takes four bytes for each pixel of its tiles.
pub proof fn textures_take_four_bytes_a_pixel(tiles: Seq<TileRect>, n: nat)
    requires
        n < tiles.len(),
        tiles_bytes(tiles, n) + tiles[n as int].w * tiles[n as int].h * 4 <= usize::MAX,
    ensures
        tiles_bytes(tiles, 0) == 0,
        tiles_bytes(tiles, n + 1) == tiles_bytes(tiles, n) + tiles[n as int].w * tiles[n as int].h
            * 4,
{
    lemma_bytes_positive(tiles, n);
    let t = tiles[n as int];
    assert(0 <= t.w * t.h) by (nonlinear_arith)
        requires
            0 <= t.w,
            0 <= t.h,
    ;
}

proof fn lemma_bytes_positive(tiles: Seq<TileRect>, n: nat)
    requires
        n <= tiles.len(),
    ensures
        0 <= tiles_bytes(tiles, n),
    decreases n,
{
    if n > 0 {
        lemma_bytes_positive(tiles, (n - 1) as nat);
        let t = tiles[n - 1];
        assert(0 <= t.w * t.h) by (nonlinear_arith)
            requires
                0 <= t.w,
                0 <= t.h,
        ;
    }
}

/// The cache is told of each texture: which page it is for, what it takes, when it was last used,
/// whether it is pinned, and that it can be made again.
pub proof fn the_cache_is_told_of_textures(
    r: CacheResourceInfo,
    p: TextMaskTexturePage,
    pinned: Seq<usize>,
)
    requires
        describes(r, p, pinned),
    ensures
        r.id@ == "cleaning-mask-gpu:"@ + decimal(p.page_idx as nat),
        r.page_idx == p.page_idx,
        r.estimated_bytes == tiles_bytes(p.tiles@, p.tiles@.len()),
        r.last_used_frame == p.last_used_frame,
        r.visible <==> pinned.contains(p.page_idx),
        !r.dirty,
        r.reconstructable,
{
}

/// The pages that are to go are those of the candidates, and those that stay keep their order.
pub proof fn eviction_takes_the_candidates(
    pages: Seq<TextMaskTexturePage>,
    candidates: Seq<CacheResourceInfo>,
    n: nat,
    idx: usize,
)
    requires
        n <= candidates.len(),
    ensures
        chosen(candidates, n).contains(idx) <==> exists|i: int|
            0 <= i < n && (#[trigger] candidates[i]).page_idx == idx,
    decreases n,
{
    if n > 0 {
        eviction_takes_the_candidates(pages, candidates, (n - 1) as nat, idx);
        if candidates[n - 1].page_idx != idx && chosen(candidates, n).contains(idx) {
            let i = choose|i: int| 0 <= i < n - 1 && (#[trigger] candidates[i]).page_idx == idx;
            assert(candidates[i].page_idx == idx);
        }
    }
}

/// What is kept is all but the pages that go, in their order.
pub proof fn the_rest_is_kept(pages: Seq<TextMaskTexturePage>, gone: Set<usize>)
    ensures
        kept(pages, gone) == pages.filter(|p: TextMaskTexturePage| !gone.contains(p.page_idx)),
    decreases pages.len(),
{
    reveal(Seq::filter);
    if pages.len() > 0 {
        the_rest_is_kept(pages.drop_last(), gone);
    }
}

/// A candidate is reported as gone the first time it is named, where there was such a page; the
/// bytes that were freed are those of all that are reported.
pub proof fn eviction_reports_what_went(
    pages: Seq<TextMaskTexturePage>,
    candidates: Seq<CacheResourceInfo>,
    n: nat,
)
    requires
        n < candidates.len(),
    ensures
        ({
            let r = candidates[n as int];
            let again = exists|i: int|
                0 <= i < n && (#[trigger] candidates[i]).page_idx == r.page_idx;
            let there = exists|j: int|
                0 <= j < pages.len() && (#[trigger] pages[j]).page_idx == r.page_idx;
            &&& evicted(pages, candidates, 0).len() == 0
            &&& !again && there ==> evicted(pages, candidates, n + 1) == evicted(
                pages,
                candidates,
                n,
            ).push(r)
            &&& again || !there ==> evicted(pages, candidates, n + 1) == evicted(
                pages,
                candidates,
                n,
            )
        }),
        freed(candidates, 0) == 0,
        freed(candidates, n) + candidates[n as int].estimated_bytes <= u64::MAX ==> freed(
            candidates,
            n + 1,
        ) == freed(candidates, n) + candidates[n as int].estimated_bytes,
{
    eviction_takes_the_candidates(pages, candidates, n, candidates[n as int].page_idx);
}

/// A setting is read from its section under its key, and a text that is no document, or no text,
/// has none.
pub proof fn settings_are_read_by_section_and_key(
    text: Seq<char>,
    root: Map<Seq<char>, Json>,
    inner: Map<Seq<char>, Json>,
    section: Seq<char>,
    key: Seq<char>,
)
    ensures
        stored_at(None, section, key) is None,
        parsed_json(text) is None ==> stored_at(Some(text), section, key) is None,
        parsed_json(text) == Some(Json::Fields(root)) && root.contains_key(section)
            && root[section] == Json::Fields(inner) && inner.contains_key(key) ==> stored_at(
            Some(text),
            section,
            key,
        ) == Some(inner[key]),
        parsed_json(text) == Some(Json::Fields(root)) && root.contains_key(section)
            && root[section] == Json::Fields(inner) && !inner.contains_key(key) ==> stored_at(
            Some(text),
            section,
            key,
        ) is None,
        parsed_json(text) == Some(Json::Fields(root)) && !root.contains_key(section) ==> stored_at(
            Some(text),
            section,
            key,
        ) is None,
{
}

/// Writing a setting puts its text under its section and key and keeps all other settings; where
/// there was no document, or no such section, it is made.
pub proof fn writing_keeps_other_settings(
    root: Map<Seq<char>, Json>,
    inner: Map<Seq<char>, Json>,
    section: Seq<char>,
    key: Seq<char>,
    value: Seq<char>,
)
    ensures
        root.contains_key(section) && root[section] == Json::Fields(inner) ==> with_text(
            Some(Json::Fields(root)),
            section,
            key,
            value,
        ) == Json::Fields(
            root.insert(section, Json::Fields(inner.insert(key, Json::Text(value)))),
        ),
        !root.contains_key(section) ==> with_text(Some(Json::Fields(root)), section, key, value)
            == Json::Fields(
            root.insert(
                section,
                Json::Fields(Map::<Seq<char>, Json>::empty().insert(key, Json::Text(value))),
            ),
        ),
        with_text(None, section, key, value) == Json::Fields(
            Map::<Seq<char>, Json>::empty().insert(
                section,
                Json::Fields(Map::<Seq<char>, Json>::empty().insert(key, Json::Text(value))),
            ),
        ),
{
}

/// The settings that are kept for a user, by the sections and keys under which a settings file has
/// them.
pub proof fn settings_have_their_places()
    ensures
        crate::settings::GENERAL_SECTION@ == "General"@,
        crate::settings::TEXT_TAB_SECTION@ == "TextTab"@,
        crate::settings::CANVAS_SECTION@ == "Canvas"@,
        crate::settings::GENERAL_TYPING_PANEL_LAYOUT_KEY@ == "typing_panel_layout"@,
        crate::settings::CANVAS_CACHE_PAGES_KEY@ == "cache_pages"@,
{
}

} // verus!
