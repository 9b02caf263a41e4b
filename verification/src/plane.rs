//! A raster that the library computes: `height` rows of `width` cells.
use vstd::prelude::*;

verus! {

/// A raster stored row by row. The cell of row `y` and column `x` is
/// `cells[y * width + x]`.
pub struct Plane<T> {
    pub height: usize,
    pub width: usize,
    pub cells: Vec<T>,
}

/// The place of cell `(y, x)` in a row-major store of rows `width` wide.
pub open spec fn cell_index(width: int, y: int, x: int) -> int {
    y * width + x
}

pub proof fn lemma_cell_index(height: int, width: int, y: int, x: int)
    requires
        0 <= y < height,
        0 <= x < width,
    ensures
        0 <= cell_index(width, y, x) < height * width,
        cell_index(width, y, x) / width == y,
        cell_index(width, y, x) % width == x,
{
    assert(0 <= y * width + x < height * width && (y * width + x) / width == y && (y * width + x)
        % width == x) by (nonlinear_arith)
        requires
            0 <= y < height,
            0 <= x < width,
    ;
}

pub proof fn lemma_cell_index_injective(width: int, y1: int, x1: int, y2: int, x2: int)
    requires
        0 <= x1 < width,
        0 <= x2 < width,
        0 <= y1,
        0 <= y2,
        cell_index(width, y1, x1) == cell_index(width, y2, x2),
    ensures
        y1 == y2,
        x1 == x2,
{
    lemma_cell_index(y1 + 1, width, y1, x1);
    lemma_cell_index(y2 + 1, width, y2, x2);
}

impl<T: Copy> Plane<T> {
    pub open spec fn wf(&self) -> bool {
        &&& self.cells@.len() == self.height * self.width
        &&& self.height * self.width <= usize::MAX
    }

    pub open spec fn inside(&self, y: int, x: int) -> bool {
        0 <= y < self.height && 0 <= x < self.width
    }

    /// The cell of row `y` and column `x`.
    pub open spec fn at(&self, y: int, x: int) -> T {
        self.cells@[cell_index(self.width as int, y, x)]
    }

    /// A plane whose cells all hold `value`.
    pub fn filled(height: usize, width: usize, value: T) -> (p: Plane<T>)
        requires
            height * width <= usize::MAX,
        ensures
            p.wf(),
            p.height == height,
            p.width == width,
            forall|y: int, x: int| p.inside(y, x) ==> #[trigger] p.at(y, x) == value,
            forall|i: int| 0 <= i < p.cells@.len() ==> p.cells@[i] == value,
    {
        let total: usize = height * width;
        let mut cells: Vec<T> = Vec::new();
        let mut i: usize = 0;
        while i < total
            invariant
                i <= total,
                cells@.len() == i,
                forall|k: int| 0 <= k < i ==> cells@[k] == value,
            decreases total - i,
        {
            cells.push(value);
            i += 1;
        }
        let p = Plane { height, width, cells };
        proof {
            assert forall|y: int, x: int| p.inside(y, x) implies #[trigger] p.at(y, x) == value by {
                lemma_cell_index(height as int, width as int, y, x);
            }
        }
        p
    }

    /// The part of the raster that starts at the cell `(top, left)` and has
    /// `height` rows and `width` columns.
    #[verifier::loop_isolation(false)]
    pub fn crop(&self, top: usize, left: usize, height: usize, width: usize) -> (part: Plane<T>)
        requires
            self.wf(),
            top + height <= self.height,
            left + width <= self.width,
        ensures
            part.wf(),
            part.height == height,
            part.width == width,
            forall|y: int, x: int|
                part.inside(y, x) ==> #[trigger] part.at(y, x) == self.at(top + y, left + x),
    {
        if height == 0 || width == 0 {
            assert(height * width == 0) by (nonlinear_arith)
                requires
                    height == 0 || width == 0,
            ;
            return Plane { height, width, cells: Vec::new() };
        }
        assert(height * width <= self.height * self.width) by (nonlinear_arith)
            requires
                0 <= height <= self.height,
                0 <= width <= self.width,
        ;
        let mut part: Plane<T> = Plane::filled(height, width, self.get(top, left));
        let mut y: usize = 0;
        while y < height
            invariant
                y <= height,
                part.wf(),
                part.height == height,
                part.width == width,
                forall|v: int, u: int|
                    part.inside(v, u) && v < y ==> #[trigger] part.at(v, u) == self.at(
                        top + v,
                        left + u,
                    ),
            decreases height - y,
        {
            let mut x: usize = 0;
            while x < width
                invariant
                    y < height,
                    x <= width,
                    part.wf(),
                    part.height == height,
                    part.width == width,
                    forall|v: int, u: int|
                        part.inside(v, u) && (v < y || (v == y && u < x)) ==> #[trigger] part.at(
                            v,
                            u,
                        ) == self.at(top + v, left + u),
                decreases width - x,
            {
                part.set(y, x, self.get(top + y, left + x));
                x += 1;
            }
            y += 1;
        }
        part
    }

    pub fn get(&self, y: usize, x: usize) -> (v: T)
        requires
            self.wf(),
            self.inside(y as int, x as int),
        ensures
            v == self.at(y as int, x as int),
    {
        proof {
            lemma_cell_index(self.height as int, self.width as int, y as int, x as int);
            assert(0 <= y * self.width + x < self.cells@.len());
            assert(y * self.width >= 0) by (nonlinear_arith)
                requires
                    y >= 0,
                    self.width >= 0,
            ;
        }
        self.cells[y * self.width + x]
    }

    pub fn set(&mut self, y: usize, x: usize, value: T)
        requires
            old(self).wf(),
            old(self).inside(y as int, x as int),
        ensures
            final(self).wf(),
            final(self).height == old(self).height,
            final(self).width == old(self).width,
            final(self).at(y as int, x as int) == value,
            forall|v: int, u: int|
                old(self).inside(v, u) && (v != y || u != x) ==> #[trigger] final(self).at(v, u)
                    == old(self).at(v, u),
            final(self).cells@ == old(self).cells@.update(
                cell_index(old(self).width as int, y as int, x as int),
                value,
            ),
    {
        proof {
            lemma_cell_index(self.height as int, self.width as int, y as int, x as int);
            assert(0 <= y * self.width + x < self.cells@.len());
            assert(y * self.width >= 0) by (nonlinear_arith)
                requires
                    y >= 0,
                    self.width >= 0,
            ;
        }
        let i: usize = y * self.width + x;
        self.cells.set(i, value);
        proof {
            assert forall|v: int, u: int|
                old(self).inside(v, u) && (v != y || u != x) implies #[trigger] self.at(v, u)
                == old(self).at(v, u) by {
                lemma_cell_index(self.height as int, self.width as int, v, u);
                if cell_index(self.width as int, v, u) == i as int {
                    lemma_cell_index_injective(self.width as int, v, u, y as int, x as int);
                }
            }
        }
    }
}

impl Plane<i64> {
    /// No cell is larger in magnitude than `bound`.
    pub open spec fn bounded(&self, bound: int) -> bool {
        forall|y: int, x: int| self.inside(y, x) ==> -bound <= #[trigger] self.at(y, x) <= bound
    }

    /// Every cell lies between `low` and `high`.
    pub open spec fn between(&self, low: int, high: int) -> bool {
        forall|y: int, x: int| self.inside(y, x) ==> low <= #[trigger] self.at(y, x) <= high
    }
}

} // verus!
