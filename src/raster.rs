use vstd::prelude::*;

verus! {

/// An RGB color, one byte per channel.
#[derive(Clone, Copy, Debug, PartialEq, Eq, Structural)]
pub struct Rgb {
    pub r: u8,
    pub g: u8,
    pub b: u8,
}

/// The background color of a fresh canvas.
pub open spec fn black() -> Rgb {
    Rgb { r: 0, g: 0, b: 0 }
}

/// A width × height grid of colors stored row by row.
#[derive(Clone, Debug)]
pub struct Raster {
    pub width: u32,
    pub height: u32,
    pub pixels: Vec<Rgb>,
}

/// The first three items of `slice`, as an array.
pub fn owned_array<T: Copy>(slice: &[T]) -> (a: [T; 3])
    requires
        slice@.len() >= 3,
    ensures
        a@ == slice@.take(3),
{
    let a = [slice[0], slice[1], slice[2]];
    assert(a@ =~= slice@.take(3));
    a
}

/// The color stored at bytes 3i, 3i + 1, 3i + 2 of an interleaved RGB buffer.
pub open spec fn rgb_at(raw: Seq<u8>, i: int) -> Rgb {
    Rgb { r: raw[3 * i], g: raw[3 * i + 1], b: raw[3 * i + 2] }
}

impl Raster {
    /// The pixel buffer holds exactly one color per cell.
    pub open spec fn wf(&self) -> bool {
        self.pixels@.len() == self.width as int * self.height as int
    }

    pub open spec fn contains(&self, x: int, y: int) -> bool {
        0 <= x < self.width && 0 <= y < self.height
    }

    /// Index of cell (x, y) in the row-major buffer.
    pub open spec fn index_of(&self, x: int, y: int) -> int {
        y * self.width + x
    }

    pub open spec fn at(&self, x: int, y: int) -> Rgb {
        self.pixels@[self.index_of(x, y)]
    }

    /// Two rasters have the same shape.
    pub open spec fn same_shape(&self, o: &Raster) -> bool {
        self.width == o.width && self.height == o.height
    }

    pub proof fn lemma_index_in_range(&self, x: int, y: int)
        requires
            self.wf(),
            self.contains(x, y),
        ensures
            0 <= self.index_of(x, y) < self.pixels@.len(),
    {
        assert(0 <= y * self.width) by (nonlinear_arith)
            requires
                0 <= y,
                0 <= self.width,
        ;
        assert(y * self.width + self.width <= self.height * self.width) by (nonlinear_arith)
            requires
                y < self.height,
                0 <= self.width,
        ;
        assert(self.width as int * self.height as int == self.height as int * self.width as int)
            by (nonlinear_arith);
    }

    /// Distinct cells have distinct buffer positions.
    pub proof fn lemma_index_injective(&self, x1: int, y1: int, x2: int, y2: int)
        requires
            self.contains(x1, y1),
            self.contains(x2, y2),
            self.index_of(x1, y1) == self.index_of(x2, y2),
        ensures
            x1 == x2 && y1 == y2,
    {
        if y1 < y2 {
            assert(y1 * self.width + self.width <= y2 * self.width) by (nonlinear_arith)
                requires
                    y1 < y2,
                    0 <= self.width,
            ;
        } else if y2 < y1 {
            assert(y2 * self.width + self.width <= y1 * self.width) by (nonlinear_arith)
                requires
                    y2 < y1,
                    0 <= self.width,
            ;
        }
    }

    /// Wraps a row-major pixel buffer; `None` when its length is not
    /// `width * height`.
    pub fn from_pixels(width: u32, height: u32, pixels: Vec<Rgb>) -> (r: Option<Raster>)
        ensures
            r is Some <==> pixels@.len() == width as int * height as int,
            r matches Some(ras) ==> ras.wf() && ras.width == width && ras.height == height
                && ras.pixels@ == pixels@,
    {
        let w = width as u64;
        let h = height as u64;
        assert(w * h <= u64::MAX) by (nonlinear_arith)
            requires
                w <= u32::MAX,
                h <= u32::MAX,
        ;
        if pixels.len() as u64 == w * h {
            Some(Raster { width, height, pixels })
        } else {
            None
        }
    }

    /// Reads an interleaved, row-major RGB byte buffer; `None` when its
    /// length is not `3 * width * height`.
    pub fn from_rgb_bytes(width: u32, height: u32, raw: &Vec<u8>) -> (r: Option<Raster>)
        ensures
            r is Some <==> raw@.len() == 3 * (width as int * height as int),
            r matches Some(ras) ==> ras.wf() && ras.width == width && ras.height == height
                && forall|i: int| 0 <= i < ras.pixels@.len() ==> #[trigger] ras.pixels@[i] == rgb_at(raw@, i),
    {
        let w = width as u128;
        let h = height as u128;
        assert(3 * w * h <= 3 * 0xFFFF_FFFFu128 * 0xFFFF_FFFFu128) by (nonlinear_arith)
            requires
                w <= u32::MAX,
                h <= u32::MAX,
        ;
        assert(3 * w * h == 3 * (w * h)) by (nonlinear_arith);
        if raw.len() as u128 != 3 * w * h {
            return None;
        }
        let n: usize = raw.len() / 3;
        assert(n == w * h);
        let mut pixels: Vec<Rgb> = Vec::new();
        let mut i: usize = 0;
        while i < n
            invariant
                n == raw@.len() / 3,
                raw@.len() == 3 * n,
                raw@.len() <= usize::MAX,
                i <= n,
                pixels@.len() == i,
                forall|j: int| 0 <= j < i ==> #[trigger] pixels@[j] == rgb_at(raw@, j),
            decreases n - i,
        {
            let px = vstd::slice::slice_subrange(raw.as_slice(), 3 * i, 3 * i + 3);
            let a = owned_array(px);
            pixels.push(Rgb { r: a[0], g: a[1], b: a[2] });
            i = i + 1;
        }
        Some(Raster { width, height, pixels })
    }

    /// The interleaved, row-major RGB bytes of the raster.
    pub fn to_rgb_bytes(&self) -> (raw: Vec<u8>)
        ensures
            raw@.len() == 3 * self.pixels@.len(),
            forall|i: int| 0 <= i < self.pixels@.len() ==> rgb_at(raw@, i) == #[trigger] self.pixels@[i],
    {
        let mut raw: Vec<u8> = Vec::new();
        let mut i: usize = 0;
        while i < self.pixels.len()
            invariant
                i <= self.pixels@.len(),
                raw@.len() == 3 * i,
                forall|j: int| 0 <= j < i ==> rgb_at(raw@, j) == #[trigger] self.pixels@[j],
            decreases self.pixels@.len() - i,
        {
            let c = self.pixels[i];
            raw.push(c.r);
            raw.push(c.g);
            raw.push(c.b);
            i = i + 1;
        }
        raw
    }

    /// A raster of the given shape filled with black.
    pub fn blank(width: u32, height: u32) -> (r: Raster)
        requires
            width as int * height as int <= usize::MAX,
        ensures
            r.wf(),
            r.width == width,
            r.height == height,
            forall|i: int| 0 <= i < r.pixels@.len() ==> r.pixels@[i] == black(),
    {
        let n: usize = (width as usize) * (height as usize);
        let mut pixels: Vec<Rgb> = Vec::new();
        let mut i: usize = 0;
        while i < n
            invariant
                i <= n,
                pixels@.len() == i,
                forall|j: int| 0 <= j < i ==> pixels@[j] == black(),
            decreases n - i,
        {
            pixels.push(Rgb { r: 0, g: 0, b: 0 });
            i = i + 1;
        }
        Raster { width, height, pixels }
    }

    fn index(&self, x: u32, y: u32) -> (i: usize)
        requires
            self.wf(),
            self.contains(x as int, y as int),
        ensures
            i as int == self.index_of(x as int, y as int),
            i < self.pixels@.len(),
    {
        let n = self.pixels.len();
        proof {
            self.lemma_index_in_range(x as int, y as int);
            assert(0 <= (y as int) * (self.width as int) <= (y as int) * (self.width as int) + x);
        }
        (y as usize) * (self.width as usize) + (x as usize)
    }

    /// Whether (x, y) lies on the raster.
    pub fn in_bounds(&self, x: u32, y: u32) -> (r: bool)
        ensures
            r == self.contains(x as int, y as int),
    {
        x < self.width && y < self.height
    }

    /// The color at (x, y).
    pub fn get(&self, x: u32, y: u32) -> (r: Rgb)
        requires
            self.wf(),
            self.contains(x as int, y as int),
        ensures
            r == self.at(x as int, y as int),
    {
        let i = self.index(x, y);
        self.pixels[i]
    }

    /// Paints (x, y) with `c`, leaving every other cell as it was.
    pub fn set(&mut self, x: u32, y: u32, c: Rgb)
        requires
            old(self).wf(),
            old(self).contains(x as int, y as int),
        ensures
            final(self).wf(),
            final(self).same_shape(old(self)),
            final(self).at(x as int, y as int) == c,
            forall|u: int, v: int|
                final(self).contains(u, v) && !(u == x && v == y) ==> final(self).at(u, v)
                    == old(self).at(u, v),
    {
        let i = self.index(x, y);
        self.pixels.set(i, c);
        proof {
            assert forall|u: int, v: int|
                self.contains(u, v) && !(u == x && v == y) implies self.at(u, v) == old(
                    self,
                ).at(u, v) by {
                old(self).lemma_index_in_range(u, v);
                if self.index_of(u, v) == i as int {
                    self.lemma_index_injective(u, v, x as int, y as int);
                }
            }
        }
    }
}

} // verus!
