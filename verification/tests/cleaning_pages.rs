//! The text cleaner against a direct computation with floating point numbers.

use manga_editor::autoclean::{
    autoclean_try_mask_fill, box_interior_fillable, chan_dist, clip_fill_to_bubble_interior,
    crop_rgb_from_rgba, dilate_gray_inplace, erode_around, fill_holes, gray_mask_bbox,
    grow_until_homogeneous, has_foreground, has_text_structure, median_u8, outer_ring,
    paint_autoclean_fill, paint_patch_from_mask, probe_outward_bg, ring_background, Bounds,
};
use manga_editor::color::{Color, GrayImage, Rgb, RgbImage, Rgba, RgbaImage};
use manga_editor::components::extract_connected_components;
use manga_editor::mask::{
    dilate_binary_mask, resize_binary_mask_nearest, resize_color_image_nearest,
    text_detection_mask_file_path,
};
use manga_editor::quick_clean::{
    autoclean_page, quick_clean_page, TextMaskLoadPage, UnevenBackgroundTool,
};
use manga_editor::raster::Raster;
use manga_editor::ratio::{is_edge_share, is_sparse_share, more_than_share, SHARE_30, SHARE_45};

struct Dice(u64);

impl Dice {
    fn roll(&mut self, n: u64) -> u64 {
        self.0 = self.0.wrapping_mul(6364136223846793005).wrapping_add(1442695040888963407);
        (self.0 >> 33) % n
    }
}

fn gray(w: usize, h: usize, px: Vec<u8>) -> GrayImage {
    Raster { w, h, px }
}

fn dist(a: Rgb, b: Rgb) -> i32 {
    let d = |x: u8, y: u8| (x as i32 - y as i32).abs();
    d(a.r, b.r).max(d(a.g, b.g)).max(d(a.b, b.b))
}

const SIDES: [(i32, i32); 4] = [(-1, 0), (1, 0), (0, -1), (0, 1)];

fn set(m: &GrayImage, x: i32, y: i32) -> bool {
    x >= 0 && y >= 0 && x < m.w as i32 && y < m.h as i32 && m.get(x as usize, y as usize) != 0
}

fn ring_of(m: &GrayImage) -> Vec<(usize, usize)> {
    let mut out = Vec::new();
    for y in 0..m.h as i32 {
        for x in 0..m.w as i32 {
            if !set(m, x, y) && SIDES.iter().any(|(dx, dy)| set(m, x + dx, y + dy)) {
                out.push((x as usize, y as usize));
            }
        }
    }
    out
}

fn median(v: &mut Vec<u8>) -> u8 {
    v.sort();
    v[v.len() / 2]
}

fn background(rgb: &RgbImage, ring: &[(usize, usize)]) -> Rgb {
    let ps: Vec<Rgb> = ring.iter().map(|(x, y)| rgb.get(*x, *y)).collect();
    Rgb {
        r: median(&mut ps.iter().map(|p| p.r).collect()),
        g: median(&mut ps.iter().map(|p| p.g).collect()),
        b: median(&mut ps.iter().map(|p| p.b).collect()),
    }
}

fn probe(rgb: &RgbImage, m: &GrayImage, x: usize, y: usize, bg: Rgb, reach: i32) -> bool {
    let (xi, yi) = (x as i32, y as i32);
    let Some((dx, dy)) = SIDES.iter().find(|(dx, dy)| set(m, xi + dx, yi + dy)) else {
        return true;
    };
    for k in 1..=reach {
        let (px, py) = (xi - dx * k, yi - dy * k);
        if px < 0 || py < 0 || px >= m.w as i32 || py >= m.h as i32 {
            return false;
        }
        if dist(rgb.get(px as usize, py as usize), bg) <= 16 {
            return true;
        }
    }
    false
}

fn grow(rgb: &RgbImage, m: &mut GrayImage, expand: i32, retreat: i32, reach: i32) -> Option<(Rgb, bool)> {
    let (mut grown, mut drawn, mut retreated) = (0, 0, false);
    loop {
        let ring = ring_of(m);
        if ring.is_empty() {
            return None;
        }
        let bg = background(rgb, &ring);
        let odd: Vec<(usize, usize)> =
            ring.iter().copied().filter(|(x, y)| dist(rgb.get(*x, *y), bg) > 16).collect();
        let (spread, back): (Vec<(usize, usize)>, Vec<(usize, usize)>) =
            odd.iter().copied().partition(|(x, y)| probe(rgb, m, *x, *y, bg, reach));
        if odd.is_empty() {
            return Some((bg, retreated));
        }
        if odd.len() as f32 > 0.30f32 * ring.len() as f32 {
            return None;
        }
        let mut acted = false;
        if grown < expand && !spread.is_empty() {
            for (x, y) in spread {
                m.set(x, y, 255);
            }
            grown += 1;
            acted = true;
        }
        if drawn < retreat && !back.is_empty() {
            for (x, y) in back {
                for (dx, dy) in SIDES {
                    let (nx, ny) = (x as i32 + dx, y as i32 + dy);
                    if set(m, nx, ny) {
                        m.set(nx as usize, ny as usize, 0);
                    }
                }
            }
            drawn += 1;
            retreated = true;
            acted = true;
        }
        if !acted {
            return None;
        }
    }
}

fn reach_from(open: &dyn Fn(usize, usize) -> bool, w: usize, h: usize, seeds: Vec<(usize, usize)>) -> Vec<bool> {
    let mut seen = vec![false; w * h];
    let mut todo = Vec::new();
    for (x, y) in seeds {
        if open(x, y) && !seen[y * w + x] {
            seen[y * w + x] = true;
            todo.push((x, y));
        }
    }
    while let Some((x, y)) = todo.pop() {
        for (dx, dy) in SIDES {
            let (nx, ny) = (x as i32 + dx, y as i32 + dy);
            if nx >= 0 && ny >= 0 && (nx as usize) < w && (ny as usize) < h {
                let (nx, ny) = (nx as usize, ny as usize);
                if open(nx, ny) && !seen[ny * w + nx] {
                    seen[ny * w + nx] = true;
                    todo.push((nx, ny));
                }
            }
        }
    }
    seen
}

fn border(w: usize, h: usize) -> Vec<(usize, usize)> {
    let mut v = Vec::new();
    for y in 0..h {
        for x in 0..w {
            if x == 0 || y == 0 || x + 1 == w || y + 1 == h {
                v.push((x, y));
            }
        }
    }
    v
}

fn holes_filled(m: &GrayImage) -> GrayImage {
    let seen = reach_from(&|x, y| m.get(x, y) == 0, m.w, m.h, border(m.w, m.h));
    let mut out = m.copied();
    for (i, v) in out.px.iter_mut().enumerate() {
        if *v == 0 && !seen[i] {
            *v = 255;
        }
    }
    out
}

fn thickened(m: &GrayImage, r: i32) -> GrayImage {
    let mut out = m.copied();
    for _ in 0..r {
        let src = out.copied();
        for y in 0..m.h as i32 {
            for x in 0..m.w as i32 {
                if set(&src, x, y) {
                    continue;
                }
                if (-1..=1).any(|dy| (-1..=1).any(|dx| set(&src, x + dx, y + dy))) {
                    out.set(x as usize, y as usize, 255);
                }
            }
        }
    }
    out
}

fn text_like(rgb: &RgbImage, m: &GrayImage, bg: Rgb) -> bool {
    let ink_at = |x: i32, y: i32| set(m, x, y) && dist(rgb.get(x as usize, y as usize), bg) > 16;
    let (mut area, mut ink, mut edge) = (0u64, 0u64, 0u64);
    for y in 0..m.h as i32 {
        for x in 0..m.w as i32 {
            if !set(m, x, y) {
                continue;
            }
            area += 1;
            if !ink_at(x, y) {
                continue;
            }
            ink += 1;
            if SIDES.iter().any(|(dx, dy)| !ink_at(x + dx, y + dy)) {
                edge += 1;
            }
        }
    }
    if area == 0 || ink == 0 {
        return false;
    }
    let ink_frac = ink as f32 / area as f32;
    let edge_ratio = edge as f32 / ink as f32;
    (0.02f32..=0.65f32).contains(&ink_frac) && edge_ratio >= 0.16f32
}

fn box_ok(rgb: &RgbImage, x1: usize, y1: usize, x2: usize, y2: usize, bg: Rgb) -> bool {
    let (mut total, mut ink) = (0u64, 0u64);
    for y in y1..y2.min(rgb.h) {
        for x in x1..x2.min(rgb.w) {
            total += 1;
            if dist(rgb.get(x, y), bg) > 16 {
                ink += 1;
            }
        }
    }
    total > 0 && (ink as f32) <= 0.45f32 * (total as f32)
}

fn clipped(fill: &GrayImage, rgb: &RgbImage, text: &GrayImage, bg: Rgb) -> GrayImage {
    let (w, h) = (rgb.w, rgb.h);
    let mut seeds = Vec::new();
    for y in 0..h as i32 {
        for x in 0..w as i32 {
            if SIDES.iter().any(|(dx, dy)| set(text, x + dx, y + dy)) {
                seeds.push((x as usize, y as usize));
            }
        }
    }
    let inner = reach_from(&|x, y| dist(rgb.get(x, y), bg) <= 16, w, h, seeds);
    if !inner.iter().any(|v| *v) {
        return fill.copied();
    }
    let outside = reach_from(&|x, y| !inner[y * w + x], w, h, border(w, h));
    let mut out = fill.copied();
    for (i, v) in out.px.iter_mut().enumerate() {
        if outside[i] {
            *v = 0;
        }
    }
    out
}

struct Page {
    patch: Vec<Color>,
    total: usize,
    filled: usize,
}

fn clean(base: &RgbaImage, mask: &[u8], radius: usize) -> Page {
    let (w, h) = (base.w, base.h);
    let mut patch = vec![Color { r: 0, g: 0, b: 0, a: 0 }; w * h];
    let radius = radius.min(128) as i32;
    let pad = radius + 6;
    let near = |x: i32, y: i32| {
        (-4..=4).any(|dy: i32| {
            (-4..=4).any(|dx: i32| {
                let (nx, ny) = (x + dx, y + dy);
                nx >= 0
                    && ny >= 0
                    && nx < w as i32
                    && ny < h as i32
                    && mask[ny as usize * w + nx as usize] != 0
            })
        })
    };
    let wide: Vec<bool> =
        (0..w * h).map(|i| near((i % w) as i32, (i / w) as i32)).collect();
    let mut label = vec![0usize; w * h];
    let (mut total, mut filled) = (0, 0);
    for seed in 0..w * h {
        if !wide[seed] || label[seed] != 0 {
            continue;
        }
        total += 1;
        label[seed] = total;
        let mut cluster = vec![seed];
        let mut k = 0;
        while k < cluster.len() {
            let (x, y) = ((cluster[k] % w) as i32, (cluster[k] / w) as i32);
            for dy in -1..=1 {
                for dx in -1..=1 {
                    let (nx, ny) = (x + dx, y + dy);
                    if nx < 0 || ny < 0 || nx >= w as i32 || ny >= h as i32 {
                        continue;
                    }
                    let j = ny as usize * w + nx as usize;
                    if wide[j] && label[j] == 0 {
                        label[j] = total;
                        cluster.push(j);
                    }
                }
            }
            k += 1;
        }
        let x1 = cluster.iter().map(|i| i % w).min().unwrap() as i32;
        let y1 = cluster.iter().map(|i| i / w).min().unwrap() as i32;
        let x2 = cluster.iter().map(|i| i % w + 1).max().unwrap() as i32;
        let y2 = cluster.iter().map(|i| i / w + 1).max().unwrap() as i32;
        let (ox, oy) = ((x1 - pad).max(0), (y1 - pad).max(0));
        let (ex, ey) = ((x2 + pad).min(w as i32), (y2 + pad).min(h as i32));
        let (cw, ch) = ((ex - ox) as usize, (ey - oy) as usize);
        let mut rgb = Raster { w: cw, h: ch, px: vec![Rgb { r: 0, g: 0, b: 0 }; cw * ch] };
        for y in 0..ch {
            for x in 0..cw {
                let p = base.get(x + ox as usize, y + oy as usize);
                rgb.set(x, y, Rgb { r: p.r, g: p.g, b: p.b });
            }
        }
        let mut text = gray(cw, ch, vec![0; cw * ch]);
        for i in &cluster {
            if mask[*i] != 0 {
                text.set(i % w - ox as usize, i / w - oy as usize, 255);
            }
        }
        let mut put = |m: &GrayImage, bg: Rgb| {
            for y in 0..ch {
                for x in 0..cw {
                    if m.get(x, y) != 0 {
                        patch[(y + oy as usize) * w + x + ox as usize] =
                            Color { r: bg.r, g: bg.g, b: bg.b, a: 255 };
                    }
                }
            }
        };
        let attempt = {
            let mut m = thickened(&holes_filled(&text), 2);
            let ring = ring_of(&m);
            if !text.px.iter().any(|v| *v != 0) || ring.is_empty() {
                None
            } else if !text_like(&rgb, &m, background(&rgb, &ring)) {
                None
            } else {
                grow(&rgb, &mut m, radius, radius, radius).map(|(bg, back)| (m, bg, back))
            }
        };
        if let Some((m, bg, back)) = attempt {
            if back {
                put(&m, bg);
            } else {
                let on: Vec<(usize, usize)> = (0..cw * ch)
                    .filter(|i| m.px[*i] != 0)
                    .map(|i| (i % cw, i / cw))
                    .collect();
                let bx1 = on.iter().map(|p| p.0).min().unwrap().saturating_sub(2);
                let by1 = on.iter().map(|p| p.1).min().unwrap().saturating_sub(2);
                let bx2 = (on.iter().map(|p| p.0).max().unwrap() + 3).min(cw);
                let by2 = (on.iter().map(|p| p.1).max().unwrap() + 3).min(ch);
                let mut b = gray(cw, ch, vec![0; cw * ch]);
                for y in by1..by2 {
                    for x in bx1..bx2 {
                        b.set(x, y, 255);
                    }
                }
                put(&b, bg);
            }
            filled += 1;
            continue;
        }
        let mut b = gray(cw, ch, vec![0; cw * ch]);
        let (bx1, by1) = ((x1 - ox) as usize, (y1 - oy) as usize);
        let (bx2, by2) = ((x2 - ox) as usize, (y2 - oy) as usize);
        for y in by1..by2 {
            for x in bx1..bx2 {
                b.set(x, y, 255);
            }
        }
        if let Some((bg, _)) = grow(&rgb, &mut b, radius, radius, radius) {
            if box_ok(&rgb, bx1, by1, bx2, by2, bg) {
                let b = clipped(&thickened(&b, 2), &rgb, &text, bg);
                put(&b, bg);
                filled += 1;
            }
        }
    }
    Page { patch, total, filled }
}

/// A page with a light background, letters, an outline and stray objects.
fn random_page(dice: &mut Dice, w: usize, h: usize) -> (RgbaImage, Vec<u8>) {
    let paper = 200 + dice.roll(40) as u8;
    let mut base = Raster { w, h, px: vec![Rgba { r: paper, g: paper, b: paper, a: 255 }; w * h] };
    let mut mask = vec![0u8; w * h];
    for p in base.px.iter_mut() {
        let n = dice.roll(9) as u8;
        p.r = p.r.saturating_add(n);
        p.g = p.g.saturating_sub(n / 2);
    }
    for _ in 0..1 + dice.roll(3) {
        let x0 = 4 + dice.roll(w as u64 - 14) as usize;
        let y0 = 4 + dice.roll(h as u64 - 12) as usize;
        for _ in 0..3 + dice.roll(6) {
            let (sx, sy) = (x0 + dice.roll(6) as usize, y0 + dice.roll(4) as usize);
            let across = dice.roll(2) == 0;
            for k in 0..1 + dice.roll(5) as usize {
                let (x, y) = if across { (sx + k, sy) } else { (sx, sy + k) };
                if x < w && y < h {
                    base.set(x, y, Rgba { r: 10, g: 12, b: 20, a: 255 });
                    if dice.roll(8) != 0 {
                        mask[y * w + x] = 1 + dice.roll(255) as u8;
                    }
                }
            }
        }
    }
    if dice.roll(2) == 0 {
        let (x1, y1) = (1 + dice.roll(5) as usize, 1 + dice.roll(4) as usize);
        let (x2, y2) = (w - 2 - dice.roll(5) as usize, h - 2 - dice.roll(4) as usize);
        for x in x1..=x2 {
            base.set(x, y1, Rgba { r: 0, g: 0, b: 0, a: 255 });
            base.set(x, y2, Rgba { r: 0, g: 0, b: 0, a: 255 });
        }
        for y in y1..=y2 {
            base.set(x1, y, Rgba { r: 0, g: 0, b: 0, a: 255 });
            base.set(x2, y, Rgba { r: 0, g: 0, b: 0, a: 255 });
        }
    }
    if dice.roll(3) == 0 {
        let (bx, by) = (dice.roll(w as u64 - 6) as usize, dice.roll(h as u64 - 6) as usize);
        for y in by..by + 6 {
            for x in bx..bx + 6 {
                base.set(x, y, Rgba { r: 90, g: 40, b: 160, a: 255 });
            }
        }
    }
    (base, mask)
}

#[test]
fn whole_pages_agree_with_the_direct_computation() {
    let mut dice = Dice(20260101);
    let (mut filled, mut skipped) = (0, 0);
    for round in 0..120 {
        let (w, h) = (26 + dice.roll(14) as usize, 22 + dice.roll(10) as usize);
        let (base, mask) = random_page(&mut dice, w, h);
        let radius = [0, 1, 3, 6, 12][round % 5];
        let want = clean(&base, &mask, radius);
        let got =
            autoclean_page(&base, &mask, w, h, radius, UnevenBackgroundTool::NoProcessing);
        assert_eq!(got.regions_total, want.total, "regions of page {round}");
        assert_eq!(got.regions_filled, want.filled, "fills of page {round}");
        assert_eq!(got.regions_skipped, want.total - want.filled);
        assert!(got.patch.px == want.patch, "patch of page {round}");
        filled += want.filled;
        skipped += want.total - want.filled;
    }
    assert!(filled > 20 && skipped > 5, "{filled} filled, {skipped} skipped");
}

#[test]
fn parts_of_the_cleaner_agree_with_the_direct_computation() {
    let mut dice = Dice(7);
    for _ in 0..300 {
        let (w, h) = (1 + dice.roll(12) as usize, 1 + dice.roll(10) as usize);
        let mask = gray(w, h, (0..w * h).map(|_| if dice.roll(3) == 0 { 255 } else { 0 }).collect());
        let rgb = Raster {
            w,
            h,
            px: (0..w * h)
                .map(|_| {
                    let v = (200 + dice.roll(30)) as u8;
                    if dice.roll(4) == 0 { Rgb { r: 5, g: 9, b: v } } else { Rgb { r: v, g: v, b: v } }
                })
                .collect(),
        };
        assert_eq!(has_foreground(&mask), mask.px.iter().any(|v| *v != 0));
        let mut filled = mask.copied();
        fill_holes(&mut filled);
        assert_eq!(filled.px, holes_filled(&mask).px);
        let r = dice.roll(4) as i32;
        let mut thick = mask.copied();
        dilate_gray_inplace(&mut thick, r);
        assert_eq!(thick.px, thickened(&mask, r).px);
        let ring = outer_ring(&mask);
        assert_eq!(ring, ring_of(&mask));
        let bg = Rgb { r: 210, g: 212, b: 208 };
        assert_eq!(has_text_structure(&rgb, &mask, bg), text_like(&rgb, &mask, bg));
        let (x1, x2) = (dice.roll(w as u64) as usize, dice.roll(w as u64 + 4) as usize);
        let (y1, y2) = (dice.roll(h as u64) as usize, dice.roll(h as u64 + 4) as usize);
        assert_eq!(
            box_interior_fillable(&rgb, x1, y1, x2, y2, bg),
            box_ok(&rgb, x1, y1, x2, y2, bg)
        );
        let mut fill = gray(w, h, vec![255; w * h]);
        clip_fill_to_bubble_interior(&mut fill, &rgb, &mask, bg);
        assert_eq!(fill.px, clipped(&gray(w, h, vec![255; w * h]), &rgb, &mask, bg).px);
        if !ring.is_empty() {
            assert_eq!(ring_background(&rgb, &ring), background(&rgb, &ring));
            let (x, y) = ring[dice.roll(ring.len() as u64) as usize];
            let reach = dice.roll(6) as i32;
            assert_eq!(
                probe_outward_bg(&rgb, &mask, x, y, bg, reach),
                probe(&rgb, &mask, x, y, bg, reach)
            );
        }
        let (mut a, mut b) = (mask.copied(), mask.copied());
        let (e, t, p) = (dice.roll(4) as i32, dice.roll(4) as i32, dice.roll(5) as i32);
        assert_eq!(grow_until_homogeneous(&rgb, &mut a, e, t, p), grow(&rgb, &mut b, e, t, p));
        assert_eq!(a.px, b.px);
    }
}

#[test]
fn shares_are_those_of_single_precision() {
    let mut dice = Dice(99);
    let check = |part: u64, whole: u64| {
        let (p, w) = (part as f32, whole as f32);
        assert_eq!(more_than_share(part, whole, SHARE_30), p > 0.30f32 * w, "{part} of {whole}");
        assert_eq!(more_than_share(part, whole, SHARE_45), p > 0.45f32 * w, "{part} of {whole}");
        if whole > 0 {
            assert_eq!(is_sparse_share(part, whole), (0.02f32..=0.65f32).contains(&(p / w)));
            assert_eq!(is_edge_share(part, whole), p / w >= 0.16f32);
        }
    };
    for whole in 0..400 {
        for part in 0..=whole {
            check(part, whole);
        }
    }
    for _ in 0..40000 {
        let whole = 1 + dice.roll(1 << 31);
        for share in [0.02f64, 0.16, 0.3, 0.45, 0.65] {
            let near = (whole as f64 * share) as u64;
            let part = (near + dice.roll(40)).saturating_sub(20).min(whole);
            check(part, whole);
        }
    }
}

#[test]
fn distances_and_medians() {
    let a = Rgb { r: 10, g: 200, b: 30 };
    assert_eq!(chan_dist(a, Rgb { r: 12, g: 190, b: 30 }), 10);
    assert_eq!(chan_dist(a, a), 0);
    assert_eq!(median_u8(&mut [9, 1, 5]), 5);
    assert_eq!(median_u8(&mut [4, 1, 9, 7]), 7);
    let mut v = [3, 1, 2];
    median_u8(&mut v);
    assert_eq!(v, [1, 2, 3]);
}

#[test]
fn eroding_clears_the_four_neighbours() {
    let mut m = gray(3, 3, vec![255; 9]);
    erode_around(&mut m, 1, 1);
    assert_eq!(m.px, vec![255, 0, 255, 0, 255, 0, 255, 0, 255]);
    let mut corner = gray(3, 3, vec![255; 9]);
    erode_around(&mut corner, 0, 0);
    assert_eq!(corner.px, vec![255, 0, 255, 0, 255, 255, 255, 255, 255]);
}

#[test]
fn boxes_around_masks() {
    let mut m = gray(5, 4, vec![0; 20]);
    assert_eq!(gray_mask_bbox(&m), None);
    m.set(1, 2, 9);
    m.set(3, 1, 255);
    assert_eq!(gray_mask_bbox(&m), Some(Bounds { x1: 1, y1: 1, x2: 4, y2: 3 }));
}

#[test]
fn crops_are_black_outside_the_page() {
    let base = Raster { w: 2, h: 2, px: vec![Rgba { r: 1, g: 2, b: 3, a: 4 }; 4] };
    let out = crop_rgb_from_rgba(&base, 1, 1, 2, 1);
    assert_eq!(out.px, vec![Rgb { r: 1, g: 2, b: 3 }, Rgb { r: 0, g: 0, b: 0 }]);
}

#[test]
fn fills_stay_on_the_patch() {
    let clear = Color { r: 0, g: 0, b: 0, a: 0 };
    let bg = Rgb { r: 7, g: 8, b: 9 };
    let ink = Color { r: 7, g: 8, b: 9, a: 255 };
    let mut patch = Raster { w: 4, h: 3, px: vec![clear; 12] };
    paint_patch_from_mask(&mut patch, 3, 2, &gray(2, 2, vec![255; 4]), bg);
    assert_eq!(patch.px.iter().filter(|c| **c == ink).count(), 1);
    assert_eq!(patch.get(3, 2), ink);
    let mut patch = Raster { w: 8, h: 8, px: vec![clear; 64] };
    let mut m = gray(7, 7, vec![0; 49]);
    m.set(3, 3, 255);
    paint_autoclean_fill(&mut patch, 0, 1, &m, bg);
    for y in 0..8 {
        for x in 0..8 {
            let inside = (1..6).contains(&x) && (2..7).contains(&y);
            assert_eq!(patch.get(x, y), if inside { ink } else { clear });
        }
    }
}

#[test]
fn masks_without_text_are_not_filled() {
    let rgb = Raster { w: 9, h: 9, px: vec![Rgb { r: 250, g: 250, b: 250 }; 81] };
    assert!(autoclean_try_mask_fill(&rgb, gray(9, 9, vec![0; 81]), 3, 3, 3).is_none());
    let mut m = gray(9, 9, vec![0; 81]);
    m.set(4, 4, 255);
    assert!(autoclean_try_mask_fill(&rgb, m, 3, 3, 3).is_none(), "no ink under the mask");
}

#[test]
fn components_touch_by_corners() {
    let mask = [1, 0, 0, 0, 0, 1, 0, 0, 0, 0, 0, 1];
    let cc = extract_connected_components(&mask, 4, 3);
    assert_eq!(cc.pixels, vec![vec![0, 5], vec![11]]);
    assert_eq!(cc.labels, vec![0, -1, -1, -1, -1, 0, -1, -1, -1, -1, -1, 1]);
    let none = extract_connected_components(&[], 2, 2);
    assert!(none.pixels.is_empty());
    assert_eq!(none.labels, vec![-1; 4]);
}

#[test]
fn components_come_breadth_first() {
    let cc = extract_connected_components(&[1; 9], 3, 3);
    assert_eq!(cc.pixels, vec![vec![0, 1, 3, 4, 2, 5, 6, 7, 8]]);
}

#[test]
fn masks_are_widened_by_squares() {
    let mask = [0, 0, 0, 0, 0, 0, 0, 7, 0, 0, 0, 0, 0, 0, 0];
    let out = dilate_binary_mask(&mask, 5, 3, 1);
    assert_eq!(out, vec![0, 255, 255, 255, 0, 0, 255, 255, 255, 0, 0, 255, 255, 255, 0]);
    assert_eq!(dilate_binary_mask(&mask, 5, 3, 0), mask.to_vec());
    assert!(dilate_binary_mask(&[], 5, 3, 1).is_empty());
    assert!(dilate_binary_mask(&mask, 0, 3, 1).is_empty());
}

#[test]
fn masks_are_resized_by_the_nearest_pixel() {
    assert_eq!(resize_binary_mask_nearest(&[1, 2, 3, 4], 2, 2, 4, 1), vec![1, 1, 2, 2]);
    assert_eq!(resize_binary_mask_nearest(&[1, 2, 3, 4], 2, 2, 1, 2), vec![1, 3]);
    assert_eq!(resize_binary_mask_nearest(&[], 2, 2, 2, 1), vec![0, 0]);
    assert_eq!(resize_binary_mask_nearest(&[5], 2, 2, 2, 2), vec![5, 0, 0, 0]);
    assert!(resize_binary_mask_nearest(&[1], 1, 1, 0, 3).is_empty());
}

#[test]
fn pictures_are_resized_by_the_nearest_pixel() {
    let c = |v: u8| Color { r: v, g: v, b: v, a: 255 };
    let src = Raster { w: 2, h: 1, px: vec![c(1), c(2)] };
    let out = resize_color_image_nearest(&src, 4, 2);
    assert_eq!(out.px, vec![c(1), c(1), c(2), c(2), c(1), c(1), c(2), c(2)]);
    let none = resize_color_image_nearest(&src, 0, 5);
    assert_eq!((none.w, none.h), (1, 5));
}

#[test]
fn mask_files_have_five_digits() {
    assert_eq!(text_detection_mask_file_path("/tmp/x", 7), "/tmp/x/00007_mask.png");
    assert_eq!(text_detection_mask_file_path("/tmp/x", 123456), "/tmp/x/123456_mask.png");
}

#[test]
fn pages_without_masks_are_reported() {
    let base = Raster { w: 3, h: 3, px: vec![Rgba { r: 1, g: 1, b: 1, a: 255 }; 9] };
    let tool = UnevenBackgroundTool::NoProcessing;
    let r = quick_clean_page(4, &base, None, 3, tool);
    assert!(r.missing_mask && r.patch.is_none() && r.page_idx == 4);
    let empty = TextMaskLoadPage { page_idx: 4, mask_size: (3, 3), mask_alpha: vec![] };
    assert!(quick_clean_page(4, &base, Some(empty), 3, tool).missing_mask);
    let clear = TextMaskLoadPage { page_idx: 4, mask_size: (2, 2), mask_alpha: vec![0; 4] };
    let r = quick_clean_page(4, &base, Some(clear), 3, tool);
    assert!(!r.missing_mask && r.patch.is_none() && r.regions_total == 0 && r.error.is_none());
    assert_eq!(tool.title(), "Не обрабатывать");
}
