//! A render target with a depth test.
//!
//! Each pixel holds a colour and, once something has been drawn there, the
//! depth key of the nearest fragment drawn so far. Depth keys are unsigned
//! integers ordered like the distances they stand for (the bit pattern of a
//! non-negative IEEE distance has that property); smaller is nearer.
use vstd::prelude::*;

verus! {

/// Pixels of a target, in row-major order.
#[derive(Debug, Clone)]
pub struct DepthTarget<C> {
    width: usize,
    height: usize,
    depths: Vec<Option<u32>>,
    colors: Vec<C>,
}

/// Row-major position of pixel `(x, y)` in a target of width `w`.
pub open spec fn pixel_index(x: nat, y: nat, w: nat) -> nat {
    x + w * y
}

/// A fragment at `depth` passes the depth test against what `stored` holds.
pub open spec fn passes(stored: Option<u32>, depth: u32) -> bool {
    match stored {
        None => true,
        Some(d) => depth < d,
    }
}

impl<C: Copy> DepthTarget<C> {
    pub closed spec fn width(&self) -> nat {
        self.width as nat
    }

    pub closed spec fn height(&self) -> nat {
        self.height as nat
    }

    /// Depth key of every pixel, `None` where nothing was drawn.
    pub closed spec fn depths(&self) -> Seq<Option<u32>> {
        self.depths@
    }

    /// Colour of every pixel.
    pub closed spec fn colors(&self) -> Seq<C> {
        self.colors@
    }

    pub open spec fn wf(&self) -> bool {
        &&& self.width() * self.height() <= usize::MAX
        &&& self.depths().len() == self.width() * self.height()
        &&& self.colors().len() == self.width() * self.height()
    }

    /// A `width × height` target filled with `background`, with nothing drawn.
    pub fn new(width: usize, height: usize, background: C) -> (r: Self)
        requires
            width * height <= usize::MAX,
        ensures
            r.wf(),
            r.width() == width,
            r.height() == height,
            forall|i: int| 0 <= i < r.depths().len() ==> r.depths()[i].is_none(),
            forall|i: int| 0 <= i < r.colors().len() ==> r.colors()[i] == background,
    {
        let count = width * height;
        let mut depths: Vec<Option<u32>> = Vec::with_capacity(count);
        let mut colors: Vec<C> = Vec::with_capacity(count);
        let mut i: usize = 0;
        while i < count
            invariant
                i <= count,
                depths@.len() == i,
                colors@.len() == i,
                forall|j: int| 0 <= j < i ==> depths@[j].is_none(),
                forall|j: int| 0 <= j < i ==> colors@[j] == background,
            decreases count - i,
        {
            depths.push(None);
            colors.push(background);
            i = i + 1;
        }
        DepthTarget { width, height, depths, colors }
    }

    pub fn dimensions(&self) -> (r: (usize, usize))
        ensures
            r.0 == self.width(),
            r.1 == self.height(),
    {
        (self.width, self.height)
    }

    fn index(&self, x: usize, y: usize) -> (r: usize)
        requires
            self.wf(),
            x < self.width(),
            y < self.height(),
        ensures
            r == pixel_index(x as nat, y as nat, self.width()),
            r < self.width() * self.height(),
    {
        proof {
            assert(x + self.width * y < self.width * (y + 1)) by (nonlinear_arith)
                requires
                    x < self.width,
            ;
            assert(self.width * (y + 1) <= self.width * self.height) by (nonlinear_arith)
                requires
                    y < self.height,
            ;
            assert(self.width * y <= x + self.width * y);
        }
        x + self.width * y
    }

    /// Draws `color` at `(x, y)` if the pixel is on the target and the
    /// fragment at `depth` is nearer than whatever was drawn there; returns
    /// whether it was drawn. Nothing else changes.
    pub fn write(&mut self, x: usize, y: usize, depth: u32, color: C) -> (r: bool)
        requires
            old(self).wf(),
        ensures
            final(self).wf(),
            final(self).width() == old(self).width(),
            final(self).height() == old(self).height(),
            r == (x < old(self).width() && y < old(self).height() && passes(
                old(self).depths()[pixel_index(x as nat, y as nat, old(self).width()) as int],
                depth,
            )),
            r ==> final(self).depths() == old(self).depths().update(
                pixel_index(x as nat, y as nat, old(self).width()) as int,
                Some(depth),
            ) && final(self).colors() == old(self).colors().update(
                pixel_index(x as nat, y as nat, old(self).width()) as int,
                color,
            ),
            !r ==> final(self).depths() == old(self).depths() && final(self).colors() == old(
                self,
            ).colors(),
    {
        if x >= self.width || y >= self.height {
            return false;
        }
        let i = self.index(x, y);
        let nearer = match self.depths[i] {
            None => true,
            Some(d) => depth < d,
        };
        if nearer {
            self.depths.set(i, Some(depth));
            self.colors.set(i, color);
        }
        nearer
    }

    /// Depth key at `(x, y)`, `None` where nothing was drawn.
    pub fn depth_at(&self, x: usize, y: usize) -> (r: Option<u32>)
        requires
            self.wf(),
            x < self.width(),
            y < self.height(),
        ensures
            r == self.depths()[pixel_index(x as nat, y as nat, self.width()) as int],
    {
        let i = self.index(x, y);
        self.depths[i]
    }

    /// Colour at `(x, y)`.
    pub fn color_at(&self, x: usize, y: usize) -> (r: C)
        requires
            self.wf(),
            x < self.width(),
            y < self.height(),
        ensures
            r == self.colors()[pixel_index(x as nat, y as nat, self.width()) as int],
    {
        let i = self.index(x, y);
        self.colors[i]
    }

    /// The colours, in row-major order.
    pub fn into_colors(self) -> (r: Vec<C>)
        ensures
            r@ == self.colors(),
    {
        self.colors
    }
}

/// Two fragments drawn at the same pixel leave the nearer one, whichever
/// comes first, when their depths differ.
pub proof fn lemma_depth_test_order_independent(stored: Option<u32>, d1: u32, d2: u32)
    requires
        d1 != d2,
    ensures
        ({
            let after_12 = if passes(if passes(stored, d1) { Some(d1) } else { stored }, d2) {
                Some(d2)
            } else if passes(stored, d1) {
                Some(d1)
            } else {
                stored
            };
            let after_21 = if passes(if passes(stored, d2) { Some(d2) } else { stored }, d1) {
                Some(d1)
            } else if passes(stored, d2) {
                Some(d2)
            } else {
                stored
            };
            after_12 == after_21
        }),
{
}

} // verus!
