use vstd::prelude::*;

verus! {

/// A small screen of byte-sized cells, stored row by row.
pub struct Asciireen {
    arr: Vec<u8>,
    width: u8,
    height: u8,
}

impl Asciireen {
    /// Number of cells in a row.
    pub closed spec fn spec_width(&self) -> int {
        self.width as int
    }

    /// Number of rows.
    pub closed spec fn spec_height(&self) -> int {
        self.height as int
    }

    /// The cells, row by row.
    pub closed spec fn spec_cells(&self) -> Seq<u8> {
        self.arr@
    }

    /// Well-formedness: there is one cell for each column of each row.
    pub open spec fn wf(&self) -> bool {
        self.spec_cells().len() == self.spec_width() * self.spec_height()
    }

    /// Index of the cell in column `x` of row `y`.
    pub open spec fn spec_index(&self, x: int, y: int) -> int {
        x + self.spec_width() * y
    }

    /// The value in column `x` of row `y`.
    pub open spec fn spec_get(&self, x: int, y: int) -> u8 {
        self.spec_cells()[self.spec_index(x, y)]
    }

    /// A screen of the given size with 0 in every cell.
    pub fn new(width: u8, height: u8) -> (screen: Asciireen)
        ensures
            screen.wf(),
            screen.spec_width() == width,
            screen.spec_height() == height,
            forall|i: int| 0 <= i < screen.spec_cells().len() ==> screen.spec_cells()[i] == 0,
    {
        assert(width * height <= 255 * 255) by (nonlinear_arith)
            requires
                0 <= width <= 255,
                0 <= height <= 255,
        ;
        let cap: usize = width as usize * height as usize;
        let mut v: Vec<u8> = Vec::new();
        let mut i: usize = 0;
        while i < cap
            invariant
                0 <= i <= cap,
                v@.len() == i,
                forall|k: int| 0 <= k < i ==> v@[k] == 0,
            decreases cap - i,
        {
            v.push(0);
            i = i + 1;
        }
        Asciireen { arr: v, width, height }
    }

    /// Number of cells in a row.
    pub fn width(&self) -> (w: u8)
        ensures
            w == self.spec_width(),
    {
        self.width
    }

    /// Number of rows.
    pub fn height(&self) -> (h: u8)
        ensures
            h == self.spec_height(),
    {
        self.height
    }

    /// Index of the cell in column `x` of row `y`.
    fn index(&self, x: u8, y: u8) -> (index: usize)
        requires
            self.wf(),
            x < self.spec_width(),
            y < self.spec_height(),
        ensures
            index == self.spec_index(x as int, y as int),
            index < self.spec_cells().len(),
    {
        let width = self.width as usize;
        let row = y as usize;
        proof {
            lemma_cell_index_fits(x as int, y as int, width as int, self.height as int);
            assert(width * row <= 255 * 255) by (nonlinear_arith)
                requires
                    0 <= width <= 255,
                    0 <= row <= 255,
            ;
        }
        x as usize + (width * row)
    }

    /// Writes `val` into column `x` of row `y`; every other cell keeps its
    /// value.
    pub fn set(&mut self, x: u8, y: u8, val: u8)
        requires
            old(self).wf(),
            x < old(self).spec_width(),
            y < old(self).spec_height(),
        ensures
            final(self).wf(),
            final(self).spec_width() == old(self).spec_width(),
            final(self).spec_height() == old(self).spec_height(),
            final(self).spec_cells() == old(self).spec_cells().update(
                old(self).spec_index(x as int, y as int),
                val,
            ),
    {
        let index = self.index(x, y);
        self.arr.set(index, val);
    }

    /// The value in column `x` of row `y`.
    pub fn get(&self, x: u8, y: u8) -> (val: u8)
        requires
            self.wf(),
            x < self.spec_width(),
            y < self.spec_height(),
        ensures
            val == self.spec_get(x as int, y as int),
    {
        self.arr[self.index(x, y)]
    }
}

/// On a screen `width` wide and `height` high, the index of a cell lies below
/// the number of cells.
pub proof fn lemma_cell_index_fits(x: int, y: int, width: int, height: int)
    requires
        0 <= x < width,
        0 <= y < height,
    ensures
        0 <= x + width * y < width * height,
{
    assert(x + width * y < width * height) by (nonlinear_arith)
        requires
            0 <= x < width,
            0 <= y < height,
    {
        assert(width * (y + 1) <= width * height);
    }
    assert(0 <= width * y) by (nonlinear_arith)
        requires
            0 <= y,
            0 <= width,
    ;
}

} // verus!
