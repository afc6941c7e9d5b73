//! The brush, the rectangles of overlays and the tiles they are uploaded in.

use manga_editor::brush_base::{apply_cleaning_brush_stroke, BrushToolBase, ScratchStroke};
use manga_editor::color::{Color, ColorImage};
use manga_editor::float_bits::half_bits;
use manga_editor::overlay_rect::{
    build_local_tile_image, expand_overlay_rect, extract_local_chunk, extract_overlay_chunk,
    intersect_overlay_bounds, overlay_rect_to_local_rect, scratch_tile_indices_for_overlay_rect,
    segment_dirty_overlay_rect, snap_selection_end, union_overlay_rect, OverlayRectPx,
};
use manga_editor::raster::Raster;
use manga_editor::tiles::tile_grid;

fn rect(x: usize, y: usize, w: usize, h: usize) -> OverlayRectPx {
    OverlayRectPx { x, y, w, h }
}

fn grey(v: u8) -> Color {
    Color { r: v, g: v, b: v, a: 255 }
}

/// A picture whose pixel at (x, y) is told by its channels.
fn marked(w: usize, h: usize) -> ColorImage {
    let mut px = Vec::new();
    for y in 0..h {
        for x in 0..w {
            px.push(Color { r: x as u8, g: y as u8, b: 7, a: 255 });
        }
    }
    Raster { w, h, px }
}

fn holds(r: OverlayRectPx, x: usize, y: usize) -> bool {
    r.x <= x && x < r.x + r.w && r.y <= y && y < r.y + r.h
}

#[test]
fn selections_snap_to_multiples() {
    assert_eq!(snap_selection_end(10, 10, 100, 8), 10);
    assert_eq!(snap_selection_end(10, 11, 100, 8), 18);
    assert_eq!(snap_selection_end(10, 18, 100, 8), 18);
    assert_eq!(snap_selection_end(10, 19, 100, 8), 26);
    assert_eq!(snap_selection_end(50, 45, 100, 8), 42);
    assert_eq!(snap_selection_end(95, 97, 100, 8), 100);
    assert_eq!(snap_selection_end(3, 1, 100, 8), 0);
    // At the border there is no room for a multiple.
    assert_eq!(snap_selection_end(100, 99, 100, 8), 92);
    assert_eq!(snap_selection_end(0, 1, 0, 8), 0);
    for start in 0..30 {
        for end in 0..30 {
            let e = snap_selection_end(start, end, 29, 4);
            if 0 < e && e < 29 {
                assert_eq!((e - start).abs() % 4, 0);
                assert!((e - start).abs() >= (end - start).abs());
            }
        }
    }
}

#[test]
fn expanded_rects_stay_on_the_overlay() {
    assert_eq!(expand_overlay_rect(rect(10, 20, 5, 6), 100, 100, 3), rect(7, 17, 11, 12));
    assert_eq!(expand_overlay_rect(rect(1, 2, 5, 6), 100, 100, 3), rect(0, 0, 9, 11));
    assert_eq!(expand_overlay_rect(rect(95, 96, 5, 4), 100, 100, 3), rect(92, 93, 8, 7));
    assert_eq!(expand_overlay_rect(rect(1, 2, 3, 4), 0, 100, 3), rect(1, 2, 3, 4));
    // A rectangle off the overlay keeps one pixel.
    assert_eq!(expand_overlay_rect(rect(200, 5, 2, 2), 100, 100, 1), rect(199, 4, 1, 4));
}

#[test]
fn bounds_are_cut_to_the_clip() {
    let clip = rect(10, 10, 20, 20);
    assert_eq!(intersect_overlay_bounds(clip, 12, 13, 14, 15), Some(rect(12, 13, 3, 3)));
    assert_eq!(intersect_overlay_bounds(clip, -5, -5, 10, 10), Some(rect(10, 10, 1, 1)));
    assert_eq!(intersect_overlay_bounds(clip, 29, 29, 99, 99), Some(rect(29, 29, 1, 1)));
    assert_eq!(intersect_overlay_bounds(clip, 30, 12, 40, 15), None);
    assert_eq!(intersect_overlay_bounds(clip, 14, 15, 12, 13), None);
}

#[test]
fn dirty_rects_hold_the_brush() {
    let clip = rect(0, 0, 100, 80);
    assert_eq!(segment_dirty_overlay_rect(20, 30, 25, 28, 4, clip), Some(rect(16, 24, 14, 11)));
    assert_eq!(segment_dirty_overlay_rect(1, 1, 2, 2, 4, clip), Some(rect(0, 0, 7, 7)));
    assert_eq!(segment_dirty_overlay_rect(98, 79, 99, 79, 4, clip), Some(rect(94, 75, 6, 5)));
    assert_eq!(segment_dirty_overlay_rect(300, 300, 310, 310, 4, clip), None);
    let d = segment_dirty_overlay_rect(40, 40, 50, 45, 6, clip).unwrap();
    for x in 34..57 {
        for y in 34..52 {
            assert!(holds(d, x, y));
        }
    }
}

#[test]
fn unions_are_least() {
    let u = union_overlay_rect(rect(3, 4, 5, 6), rect(10, 1, 2, 2));
    assert_eq!(u, rect(3, 1, 9, 9));
    assert_eq!(union_overlay_rect(rect(3, 4, 5, 6), rect(4, 5, 1, 1)), rect(3, 4, 5, 6));
}

#[test]
fn local_rects_are_moved_intersections() {
    let source = rect(10, 20, 30, 40);
    assert_eq!(overlay_rect_to_local_rect(source, rect(15, 25, 5, 5)), Some(rect(5, 5, 5, 5)));
    assert_eq!(overlay_rect_to_local_rect(source, rect(9, 25, 10, 10)), None);
    assert_eq!(overlay_rect_to_local_rect(source, rect(15, 19, 10, 10)), None);
    assert_eq!(overlay_rect_to_local_rect(source, rect(35, 55, 50, 50)), Some(rect(25, 35, 5, 5)));
    assert_eq!(overlay_rect_to_local_rect(source, rect(40, 20, 5, 5)), Some(rect(30, 0, 0, 5)));
}

#[test]
fn chunks_are_copies_of_the_overlay() {
    let img = marked(6, 5);
    let c = extract_overlay_chunk(&img, rect(2, 1, 3, 2));
    assert_eq!((c.w, c.h), (3, 2));
    for y in 0..2 {
        for x in 0..3 {
            assert_eq!(c.get(x, y), img.get(x + 2, y + 1));
        }
    }
    // What lies off the overlay is transparent.
    let e = extract_overlay_chunk(&img, rect(4, 4, 3, 2));
    assert_eq!(e.get(0, 0), img.get(4, 4));
    assert_eq!(e.get(1, 0), img.get(5, 4));
    assert_eq!(e.get(2, 0), Color::transparent());
    assert_eq!(e.get(0, 1), Color::transparent());
    let off = extract_overlay_chunk(&img, rect(6, 0, 2, 2));
    assert!(off.px.iter().all(|c| *c == Color::transparent()));
}

#[test]
fn local_chunks_give_back_the_overlay_pixels() {
    let img = marked(9, 8);
    let stroke = rect(2, 3, 5, 4);
    let local = extract_overlay_chunk(&img, stroke);
    let dirty = rect(3, 4, 2, 2);
    let chunk = extract_local_chunk(&local, stroke, dirty);
    for y in 0..2 {
        for x in 0..2 {
            assert_eq!(chunk.get(x, y), img.get(x + 3, y + 4));
        }
    }
}

#[test]
fn tile_pictures_are_parts_of_the_source() {
    let img = marked(7, 6);
    let t = build_local_tile_image(&img, 4, 2, 3, 4);
    for y in 0..4 {
        for x in 0..3 {
            assert_eq!(t.get(x, y), img.get(x + 4, y + 2));
        }
    }
}

#[test]
fn tiles_partition_pictures() {
    for (w, h) in [(0, 0), (1, 1), (1024, 1024), (1025, 1024), (2048, 3000), (5, 2049)] {
        let tiles = tile_grid(w, h);
        assert_eq!(tiles.len(), ((w + 1023) / 1024) * ((h + 1023) / 1024));
        let area: usize = tiles.iter().map(|t| t.w * t.h).sum();
        assert_eq!(area, w * h);
        for t in &tiles {
            assert!(t.w > 0 && t.h > 0 && t.w <= 1024 && t.h <= 1024);
            assert!(t.x + t.w <= w && t.y + t.h <= h);
        }
        for (i, a) in tiles.iter().enumerate() {
            for b in tiles.iter().skip(i + 1) {
                let apart = a.x + a.w <= b.x
                    || b.x + b.w <= a.x
                    || a.y + a.h <= b.y
                    || b.y + b.h <= a.y;
                assert!(apart);
            }
        }
    }
}

#[test]
fn touched_tiles_cover_the_change() {
    let stroke = rect(100, 50, 3000, 1500);
    assert_eq!(scratch_tile_indices_for_overlay_rect(stroke, 3000, rect(100, 50, 1, 1)), vec![0]);
    assert_eq!(
        scratch_tile_indices_for_overlay_rect(stroke, 3000, rect(1120, 1070, 10, 10)),
        vec![0, 1, 3, 4]
    );
    assert_eq!(
        scratch_tile_indices_for_overlay_rect(stroke, 3000, rect(3099, 1549, 50, 50)),
        vec![5]
    );
    assert!(scratch_tile_indices_for_overlay_rect(stroke, 3000, rect(99, 50, 5, 5)).is_empty());
    assert!(scratch_tile_indices_for_overlay_rect(stroke, 3000, rect(3100, 50, 5, 5)).is_empty());
}

#[test]
fn radii_follow_the_keys_as_numbers_do() {
    for r in 1..=200usize {
        let mut b = BrushToolBase::default();
        b.set_radius_px(r);
        b.handle_size_shortcuts(true, false);
        let mut down = (r as f32 * 0.9).floor() as usize;
        if down >= r && r > 1 {
            down = r - 1;
        }
        assert_eq!(b.radius_px(), down.clamp(1, 200), "shrinking {r}");
        let mut b = BrushToolBase::default();
        b.set_radius_px(r);
        b.handle_size_shortcuts(false, true);
        let mut up = (r as f32 * 1.1).ceil() as usize;
        if up <= r && r < 200 {
            up = r + 1;
        }
        assert_eq!(b.radius_px(), up.clamp(1, 200), "widening {r}");
        assert!(r == 200 || b.radius_px() > r);
    }
}

#[test]
fn halves_are_the_numbers_they_stand_for() {
    for n in (0..70_000i64).chain([1 << 24, (1 << 24) + 1, (1 << 30) + 77, i32::MAX as i64]) {
        assert_eq!(f32::from_bits(half_bits(n as usize)), n as f32 * 0.5, "{n}");
    }
}

#[test]
fn brush_settings_have_bounds() {
    let mut b = BrushToolBase::default();
    assert_eq!(b.radius_px(), 24);
    assert_eq!(f32::from_bits(b.hardness()), 0.99);
    assert!(b.blend_colors() && !b.strict_pixel_painting() && !b.should_ignore_drawing());
    assert!(b.set_radius_px(0));
    assert_eq!(b.radius_px(), 1);
    assert!(b.set_radius_px(1000));
    assert_eq!(b.radius_px(), 200);
    assert!(!b.set_radius_px(500));
    assert!(b.set_blend_colors(false) && !b.set_blend_colors(false));
    assert!(b.set_strict_pixel_painting(true) && !b.set_strict_pixel_painting(true));
    assert_eq!(b.paint_dirty_margin(), 200);
    b.set_strict_pixel_painting(false);
    assert_eq!(b.paint_dirty_margin(), 201);
    b.set_space_pan_active(true);
    assert!(b.space_pan_active() && b.should_ignore_drawing());
}

#[test]
fn wheels_change_the_radius_with_shift() {
    let mut b = BrushToolBase::default();
    assert!(!b.handle_wheel(false, 3));
    assert_eq!(b.radius_px(), 24);
    assert!(b.handle_wheel(true, 1));
    let step = b.radius_px() - 24;
    assert!(step > 0);
    assert!(b.handle_wheel(true, -2));
    assert_eq!(b.radius_px(), 24 - step);
    assert!(b.handle_wheel(true, -1000));
    assert_eq!(b.radius_px(), 1);
    assert!(b.handle_wheel(true, i32::MAX));
    assert_eq!(b.radius_px(), 200);
}

#[test]
fn strokes_brush_only_their_rect() {
    let base = marked(4, 3);
    let mut dst = Raster::filled(4, 3, grey(1));
    let painted = Raster::filled(4, 3, grey(200));
    let eps = f32::EPSILON.to_bits();
    let strengths: Vec<u32> = (0..12)
        .map(|i| match i % 3 {
            0 => 0.0f32.to_bits(),
            1 => eps,
            _ => 0.5f32.to_bits(),
        })
        .collect();
    apply_cleaning_brush_stroke(&mut dst, &base, &strengths, &painted, Some(rect(1, 1, 2, 2)));
    for y in 0..3 {
        for x in 0..4 {
            let i = y * 4 + x;
            let want = if (1..3).contains(&x) && (1..3).contains(&y) {
                if i % 3 == 2 {
                    grey(200)
                } else {
                    base.get(x, y)
                }
            } else {
                grey(1)
            };
            assert_eq!(dst.get(x, y), want);
        }
    }
    // Pictures that do not fit together are left alone.
    let mut other = Raster::filled(2, 2, grey(9));
    let small = Raster::filled(2, 2, grey(200));
    apply_cleaning_brush_stroke(&mut other, &base, &strengths, &small, None);
    assert!(other.px.iter().all(|c| *c == grey(9)));
}

#[test]
fn a_stroke_is_committed_as_its_changed_rect() {
    let overlay = marked(60, 50);
    let mut b = BrushToolBase::default();
    b.set_radius_px(2);
    assert!(b.begin_scratch_stroke(7, &overlay, rect(10, 10, 20, 20)));
    assert!(b.scratch_active());
    let s = b.scratch.as_ref().unwrap();
    assert_eq!(s.overlay_rect, rect(6, 6, 28, 28));
    assert_eq!(s.image.get(0, 0), overlay.get(6, 6));
    let n = s.image.px.len();
    let painted = Raster::filled(28, 28, grey(250));
    let strengths = vec![1.0f32.to_bits(); n];
    // Another page, or a point off the overlay, paints nothing.
    assert!(!b.paint_scratch_segment(7, 8, Some((12, 12)), Some((13, 12)), strengths.clone(), &painted));
    assert!(!b.paint_scratch_segment(7, 7, None, Some((13, 12)), strengths.clone(), &painted));
    assert!(b.paint_scratch_segment(7, 7, Some((12, 12)), Some((14, 13)), strengths, &painted));
    let patch = b.commit_scratch_stroke().unwrap();
    assert!(!b.scratch_active());
    assert_eq!(patch.page_idx, 7);
    assert_eq!(patch.rect, rect(9, 9, 9, 8));
    assert!(patch.image.px.iter().all(|c| *c == grey(250)));
    assert!(b.commit_scratch_stroke().is_none());
}

#[test]
fn a_cancelled_stroke_leaves_the_brush() {
    let overlay = marked(30, 30);
    let mut b = BrushToolBase::default();
    b.begin_scratch_stroke(0, &overlay, rect(0, 0, 30, 30));
    b.cancel_scratch_stroke();
    assert!(!b.scratch_active());
    assert_eq!(b.radius_px(), 24);
    assert!(b.commit_scratch_stroke().is_none());
    // A stroke that painted nothing commits nothing.
    b.begin_scratch_stroke(0, &overlay, rect(0, 0, 30, 30));
    assert!(b.commit_scratch_stroke().is_none());
}

fn long_stroke() -> ScratchStroke {
    let overlay = Raster::filled(2100, 40, grey(3));
    let mut b = BrushToolBase::default();
    b.begin_scratch_stroke(1, &overlay, rect(0, 0, 2100, 40));
    b.scratch.unwrap()
}

#[test]
fn changed_tiles_are_uploaded_once() {
    let mut s = long_stroke();
    s.ensure_scratch_tiles(false);
    assert_eq!(s.tiles.len(), 3);
    assert!(s.dirty_tiles.is_empty());
    let n = s.image.px.len();
    let painted = Raster::filled(2100, 40, grey(99));
    s.paint_segment((1500, 20), (1510, 20), 3, vec![1.0f32.to_bits(); n], &painted);
    assert_eq!(s.dirty_tiles, vec![1]);
    let up = s.upload_dirty_scratch_tiles(false);
    assert_eq!(up.len(), 1);
    assert_eq!(up[0].tile, 1);
    assert_eq!((up[0].image.w, up[0].image.h), (1024, 40));
    assert_eq!(up[0].image.get(1500 - 1024, 20), grey(99));
    assert_eq!(up[0].image.get(0, 0), grey(3));
    assert!(s.upload_dirty_scratch_tiles(false).is_empty());
    // Another sampling makes every tile of the old one change.
    s.ensure_scratch_tiles(true);
    let mut dirty = s.dirty_tiles.clone();
    dirty.sort();
    assert_eq!(dirty, vec![0, 1, 2]);
    assert_eq!(s.upload_dirty_scratch_tiles(true).len(), 3);
    assert!(s.tiles.iter().all(|t| t.nearest));
    s.ensure_scratch_tiles(true);
    assert!(s.dirty_tiles.is_empty());
}

#[test]
fn single_segments_give_their_patch() {
    let overlay = marked(40, 40);
    let mut b = BrushToolBase::default();
    b.set_radius_px(3);
    let p = b.paint_overlay_segment(2, 2, Some((20, 20)), Some((22, 21)), &overlay).unwrap();
    assert_eq!(p.page_idx, 2);
    assert_eq!(p.rect, rect(16, 16, 11, 10));
    assert_eq!(p.image.get(0, 0), overlay.get(16, 16));
    assert!(b.paint_overlay_segment(2, 3, Some((20, 20)), Some((22, 21)), &overlay).is_none());
    assert!(b.paint_overlay_segment(2, 2, Some((20, 20)), None, &overlay).is_none());
}
