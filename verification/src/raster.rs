use vstd::prelude::*;

verus! {

/// A rectangle of pixels stored row by row, as a mathematical value.
#[verifier::ext_equal]
pub struct Grid<T> {
    pub w: int,
    pub h: int,
    pub px: Seq<T>,
}

impl<T> Grid<T> {
    /// The pixel count agrees with the two sides.
    pub open spec fn valid(self) -> bool {
        &&& 0 <= self.w
        &&& 0 <= self.h
        &&& self.px.len() == self.w * self.h
    }

    pub open spec fn inside(self, x: int, y: int) -> bool {
        0 <= x < self.w && 0 <= y < self.h
    }

    pub open spec fn at(self, x: int, y: int) -> T {
        self.px[y * self.w + x]
    }

    /// The same picture with one pixel replaced.
    pub open spec fn with(self, x: int, y: int, v: T) -> Grid<T> {
        Grid { w: self.w, h: self.h, px: self.px.update(y * self.w + x, v) }
    }

    pub open spec fn same_size<U>(self, other: Grid<U>) -> bool {
        self.w == other.w && self.h == other.h
    }
}

/// The picture of the given size whose pixel at `(x, y)` is `f(x, y)`.
pub open spec fn grid_of<T>(w: int, h: int, f: spec_fn(int, int) -> T) -> Grid<T> {
    Grid { w, h, px: Seq::new((w * h) as nat, |i: int| f(i % w, i / w)) }
}

/// A position inside a rectangle has an offset inside its row-major storage, and the offset
/// determines the position.
pub proof fn lemma_offset(w: int, h: int, x: int, y: int)
    by (nonlinear_arith)
    requires
        0 <= x < w,
        0 <= y < h,
    ensures
        0 <= y * w + x < w * h,
        (y * w + x) % w == x,
        (y * w + x) / w == y,
        y * w <= w * h,
{
    assert(y * w + w <= h * w);
    assert((y * w + x) % w == x) by {
        vstd::arithmetic::div_mod::lemma_fundamental_div_mod_converse(y * w + x, w, y, x);
    }
    assert((y * w + x) / w == y) by {
        vstd::arithmetic::div_mod::lemma_fundamental_div_mod_converse(y * w + x, w, y, x);
    }
}

/// An offset inside the storage belongs to exactly one position.
pub proof fn lemma_position(w: int, h: int, i: int)
    requires
        0 <= w,
        0 <= h,
        0 <= i < w * h,
    ensures
        0 < w,
        0 <= i % w < w,
        0 <= i / w < h,
        (i / w) * w + i % w == i,
{
    assert(0 < w) by (nonlinear_arith)
        requires
            0 <= w,
            0 <= h,
            0 <= i < w * h,
    ;
    vstd::arithmetic::div_mod::lemma_fundamental_div_mod(i, w);
    assert(i / w < h) by (nonlinear_arith)
        requires
            0 < w,
            0 <= i < w * h,
    ;
    assert(0 <= i / w) by (nonlinear_arith)
        requires
            0 < w,
            0 <= i,
    ;
    assert((i / w) * w == w * (i / w)) by (nonlinear_arith);
}

/// Reading a picture after one pixel was replaced.
pub broadcast proof fn lemma_with_at<T>(g: Grid<T>, x: int, y: int, v: T, x2: int, y2: int)
    requires
        g.valid(),
        g.inside(x, y),
        g.inside(x2, y2),
    ensures
        #[trigger] g.with(x, y, v).at(x2, y2) == if x2 == x && y2 == y {
            v
        } else {
            g.at(x2, y2)
        },
{
    lemma_offset(g.w, g.h, x, y);
    lemma_offset(g.w, g.h, x2, y2);
}

/// Two pictures of one size that agree at every position are equal.
pub proof fn lemma_grid_eq<T>(a: Grid<T>, b: Grid<T>)
    requires
        a.valid(),
        b.valid(),
        a.same_size(b),
        forall|x: int, y: int| a.inside(x, y) ==> #[trigger] a.at(x, y) == b.at(x, y),
    ensures
        a == b,
{
    assert forall|i: int| 0 <= i < a.px.len() implies a.px[i] == b.px[i] by {
        lemma_position(a.w, a.h, i);
        assert(a.inside(i % a.w, i / a.w));
        assert(a.at(i % a.w, i / a.w) == b.at(i % a.w, i / a.w));
    }
    assert(a =~= b);
}

/// `grid_of` is a valid picture with the promised pixels.
pub proof fn lemma_grid_of<T>(w: int, h: int, f: spec_fn(int, int) -> T)
    requires
        0 <= w,
        0 <= h,
    ensures
        grid_of(w, h, f).valid(),
        forall|x: int, y: int|
            0 <= x < w && 0 <= y < h ==> #[trigger] grid_of(w, h, f).at(x, y) == f(x, y),
{
    assert(0 <= w * h) by (nonlinear_arith)
        requires
            0 <= w,
            0 <= h,
    ;
    assert forall|x: int, y: int| 0 <= x < w && 0 <= y < h implies #[trigger] grid_of(w, h, f).at(
        x,
        y,
    ) == f(x, y) by {
        lemma_offset(w, h, x, y);
    }
}

/// A rectangle of pixels stored row by row.
pub struct Raster<T> {
    pub w: usize,
    pub h: usize,
    pub px: Vec<T>,
}

impl<T> View for Raster<T> {
    type V = Grid<T>;

    open spec fn view(&self) -> Grid<T> {
        Grid { w: self.w as int, h: self.h as int, px: self.px@ }
    }
}

impl<T: Copy> Raster<T> {
    pub open spec fn wf(&self) -> bool {
        self@.valid()
    }

    /// A picture of one colour.
    pub fn filled(w: usize, h: usize, v: T) -> (r: Raster<T>)
        requires
            w * h <= usize::MAX,
        ensures
            r.wf(),
            r@ == grid_of(w as int, h as int, |x: int, y: int| v),
    {
        let n: usize = w * h;
        let mut px: Vec<T> = Vec::new();
        let mut i: usize = 0;
        while i < n
            invariant
                i <= n,
                px@ == Seq::new(i as nat, |k: int| v),
            decreases n - i,
        {
            px.push(v);
            i += 1;
            assert(px@ =~= Seq::new(i as nat, |k: int| v));
        }
        let r = Raster { w, h, px };
        assert(r@ =~= grid_of(w as int, h as int, |x: int, y: int| v));
        r
    }

    pub fn get(&self, x: usize, y: usize) -> (v: T)
        requires
            self.wf(),
            self@.inside(x as int, y as int),
        ensures
            v == self@.at(x as int, y as int),
    {
        proof {
            lemma_offset(self.w as int, self.h as int, x as int, y as int);
            assert(self.px.len() <= usize::MAX);
        }
        self.px[y * self.w + x]
    }

    pub fn set(&mut self, x: usize, y: usize, v: T)
        requires
            old(self).wf(),
            old(self)@.inside(x as int, y as int),
        ensures
            final(self).wf(),
            final(self)@ == old(self)@.with(x as int, y as int, v),
    {
        proof {
            lemma_offset(self.w as int, self.h as int, x as int, y as int);
            assert(self.px.len() <= usize::MAX);
        }
        let i: usize = y * self.w + x;
        self.px.set(i, v);
    }

    /// A copy with the same pixels.
    pub fn copied(&self) -> (r: Raster<T>)
        ensures
            r@ == self@,
    {
        let mut px: Vec<T> = Vec::new();
        let mut i: usize = 0;
        while i < self.px.len()
            invariant
                i <= self.px.len(),
                px@ == self.px@.subrange(0, i as int),
            decreases self.px.len() - i,
        {
            px.push(self.px[i]);
            i += 1;
            assert(px@ =~= self.px@.subrange(0, i as int));
        }
        assert(px@ =~= self.px@);
        Raster { w: self.w, h: self.h, px }
    }
}

} // verus!
