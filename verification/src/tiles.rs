//! Cutting a picture into square tiles.

use vstd::prelude::*;

verus! {

/// The side of a tile, in pixels.
pub const TILE_SIDE: usize = 1024;

/// A tile: the position of its corner and its size.
#[derive(Clone, Copy, Debug, PartialEq, Eq, Structural)]
pub struct TileRect {
    pub x: usize,
    pub y: usize,
    pub w: usize,
    pub h: usize,
}

/// How many tiles a side of `n` pixels needs.
pub open spec fn tile_count(n: int) -> int {
    (n + TILE_SIDE - 1) / TILE_SIDE as int
}

/// The extent of the tile that starts at `start` on a side of `n` pixels.
pub open spec fn tile_extent(n: int, start: int) -> int {
    if n - start < TILE_SIDE {
        n - start
    } else {
        TILE_SIDE as int
    }
}

/// The tile in column `c` and row `r`.
pub open spec fn tile_at(w: int, h: int, c: int, r: int) -> TileRect {
    let x = c * TILE_SIDE;
    let y = r * TILE_SIDE;
    TileRect {
        x: x as usize,
        y: y as usize,
        w: tile_extent(w, x) as usize,
        h: tile_extent(h, y) as usize,
    }
}

/// The tiles of a picture, row by row.
pub open spec fn tiles_of(w: int, h: int) -> Seq<TileRect> {
    let cols = tile_count(w);
    Seq::new((cols * tile_count(h)) as nat, |k: int| tile_at(w, h, k % cols, k / cols))
}

pub open spec fn tile_holds(t: TileRect, x: int, y: int) -> bool {
    t.x <= x < t.x + t.w && t.y <= y < t.y + t.h
}

fn count_tiles(n: usize) -> (c: usize)
    ensures
        c == tile_count(n as int),
{
    if n % TILE_SIDE == 0 {
        n / TILE_SIDE
    } else {
        n / TILE_SIDE + 1
    }
}

/// Cuts a picture into tiles, row by row.
pub fn tile_grid(w: usize, h: usize) -> (tiles: Vec<TileRect>)
    requires
        w * h <= usize::MAX,
    ensures
        tiles@ == tiles_of(w as int, h as int),
{
    let cols: usize = count_tiles(w);
    let rows: usize = count_tiles(h);
    let ghost iw = w as int;
    let ghost ih = h as int;
    proof {
        assert(cols * rows <= w * h) by (nonlinear_arith)
            requires
                0 <= cols <= w,
                0 <= rows <= h,
        ;
    }
    let n: usize = cols * rows;
    let mut tiles: Vec<TileRect> = Vec::new();
    let mut k: usize = 0;
    while k < n
        invariant
            k <= n,
            n == cols * rows,
            cols == tile_count(w as int),
            rows == tile_count(h as int),
            iw == w,
            ih == h,
            tiles@ == tiles_of(iw, ih).take(k as int),
        decreases n - k,
    {
        proof {
            crate::raster::lemma_position(cols as int, rows as int, k as int);
        }
        let c: usize = k % cols;
        let r: usize = k / cols;
        let x: usize = c * TILE_SIDE;
        let y: usize = r * TILE_SIDE;
        let tw: usize = if w - x < TILE_SIDE { w - x } else { TILE_SIDE };
        let th: usize = if h - y < TILE_SIDE { h - y } else { TILE_SIDE };
        tiles.push(TileRect { x, y, w: tw, h: th });
        k += 1;
        assert(tiles@ =~= tiles_of(iw, ih).take(k as int));
    }
    assert(tiles@ =~= tiles_of(iw, ih));
    tiles
}

/// Every pixel of the picture lies in exactly one of its tiles, and tiles hold no other pixels.
pub proof fn tiles_partition_the_picture(w: usize, h: usize, x: int, y: int)
    ensures
        (0 <= x < w && 0 <= y < h) <==> (exists|k: int|
            0 <= k < tiles_of(w as int, h as int).len() && tile_holds(
                #[trigger] tiles_of(w as int, h as int)[k],
                x,
                y,
            )),
        forall|k: int, l: int|
            0 <= k < tiles_of(w as int, h as int).len() && 0 <= l < tiles_of(
                w as int,
                h as int,
            ).len() && tile_holds(#[trigger] tiles_of(w as int, h as int)[k], x, y) && tile_holds(
                #[trigger] tiles_of(w as int, h as int)[l],
                x,
                y,
            ) ==> k == l,
{
    let iw = w as int;
    let ih = h as int;
    let cols = tile_count(iw);
    let rows = tile_count(ih);
    let ts = tiles_of(iw, ih);
    assert(0 <= cols * rows) by (nonlinear_arith)
        requires
            0 <= cols,
            0 <= rows,
    ;
    if 0 <= x < w && 0 <= y < h {
        let c = x / TILE_SIDE as int;
        let r = y / TILE_SIDE as int;
        crate::raster::lemma_offset(cols, rows, c, r);
        let k = r * cols + c;
        assert(ts[k] == tile_at(iw, ih, c, r));
        assert(tile_holds(ts[k], x, y));
    }
    assert forall|k: int| 0 <= k < ts.len() && tile_holds(#[trigger] ts[k], x, y) implies 0 <= x < w && 0
        <= y < h && k % cols == x / TILE_SIDE as int && k / cols == y / TILE_SIDE as int by {
        crate::raster::lemma_position(cols, rows, k);
    }
    assert forall|k: int, l: int|
        0 <= k < ts.len() && 0 <= l < ts.len() && tile_holds(#[trigger] ts[k], x, y) && tile_holds(
            #[trigger] ts[l],
            x,
            y,
        ) implies k == l by {
        crate::raster::lemma_position(cols, rows, k);
        crate::raster::lemma_position(cols, rows, l);
    }
}

} // verus!
