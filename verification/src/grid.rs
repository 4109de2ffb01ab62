use vstd::prelude::*;
use crate::points::DPoint2;

verus! {

/// The cell that holds the element with a given index in a row-major grid of
/// a given width.
pub open spec fn spec_cell_from_index(width: int, index: int) -> DPoint2 {
    DPoint2 { x: (index % width) as i32, y: (index / width) as i32 }
}

/// The cell that holds the element with index `index` in a row-major grid
/// `width` cells wide.
pub fn cell_from_index(width: i32, index: i32) -> (cell: DPoint2)
    requires
        width > 0,
        index >= 0,
    ensures
        cell == spec_cell_from_index(width as int, index as int),
        0 <= cell.x < width,
        0 <= cell.y,
        cell.y * width + cell.x == index,
{
    proof {
        vstd::arithmetic::div_mod::lemma_fundamental_div_mod(index as int, width as int);
        vstd::arithmetic::div_mod::lemma_div_pos_is_pos(index as int, width as int);
        vstd::arithmetic::div_mod::lemma_mod_bound(index as int, width as int);
        vstd::arithmetic::mul::lemma_mul_is_commutative(width as int, index as int / width as int);
    }
    DPoint2::new(index % width, index / width)
}

/// A dense two-dimensional grid, stored row by row.
pub struct TotalGrid<T> {
    elements: Vec<T>,
    width: i32,
    height: i32,
}

impl<T> View for TotalGrid<T> {
    type V = Seq<T>;

    /// The elements, row by row.
    closed spec fn view(&self) -> Seq<T> {
        self.elements@
    }
}

impl<T> TotalGrid<T> {
    /// Well-formedness: the dimensions are not negative and there is exactly
    /// one element for each cell.
    pub closed spec fn wf(&self) -> bool {
        &&& 0 <= self.width
        &&& 0 <= self.height
        &&& self.elements@.len() == self.height * self.width
    }

    /// Number of cells in a row.
    pub closed spec fn spec_width(&self) -> int {
        self.width as int
    }

    /// Number of rows.
    pub closed spec fn spec_height(&self) -> int {
        self.height as int
    }

    /// Whether `(x, y)` is a cell of the grid.
    pub open spec fn spec_has_cell(&self, x: int, y: int) -> bool {
        0 <= x < self.spec_width() && 0 <= y < self.spec_height()
    }

    /// Index of the element of cell `(x, y)`.
    pub open spec fn spec_index(&self, x: int, y: int) -> int {
        y * self.spec_width() + x
    }

    /// The element of cell `(x, y)`.
    pub open spec fn spec_get(&self, x: int, y: int) -> T {
        self@[self.spec_index(x, y)]
    }

    /// A grid holds exactly one element for each of its cells, and every cell
    /// has an index of its own below the number of elements.
    pub proof fn lemma_shape(&self)
        requires
            self.wf(),
        ensures
            0 <= self.spec_width() <= i32::MAX,
            0 <= self.spec_height() <= i32::MAX,
            self@.len() == self.spec_height() * self.spec_width(),
            self@.len() <= usize::MAX,
            forall|x: int, y: int| #[trigger]
                self.spec_has_cell(x, y) ==> 0 <= self.spec_index(x, y) < self@.len(),
    {
        assert(self.elements@.len() == self.elements.len());
        assert forall|x: int, y: int| #[trigger] self.spec_has_cell(x, y) implies 0
            <= self.spec_index(x, y) < self@.len() by {
            lemma_index_in_range(x, y, self.spec_width(), self.spec_height());
        }
    }

    /// The element with a given index lies in the cell that the index stands
    /// for, and that cell is a cell of the grid.
    pub proof fn lemma_cell_at(&self, index: int)
        requires
            self.wf(),
            0 <= index < self@.len(),
        ensures
            ({
                let cell = spec_cell_from_index(self.spec_width(), index);
                &&& self.spec_has_cell(cell.x as int, cell.y as int)
                &&& self.spec_index(cell.x as int, cell.y as int) == index
                &&& self.spec_get(cell.x as int, cell.y as int) == self@[index]
            }),
    {
        lemma_cells_fit(self.width as int, self.height as int);
        lemma_cell_of_index(index, self.width as int, self.height as int);
    }

    /// A cell of the grid is the cell that its index stands for.
    pub proof fn lemma_index_names_cell(&self, x: int, y: int)
        requires
            self.wf(),
            self.spec_has_cell(x, y),
        ensures
            0 <= self.spec_index(x, y) < self@.len(),
            spec_cell_from_index(self.spec_width(), self.spec_index(x, y)) == (DPoint2 {
                x: x as i32,
                y: y as i32,
            }),
    {
        let width = self.width as int;
        lemma_index_in_range(x, y, width, self.height as int);
        vstd::arithmetic::div_mod::lemma_fundamental_div_mod_converse(y * width + x, width, y, x);
    }

    /// Number of cells in a row.
    pub fn get_width(&self) -> (w: i32)
        requires
            self.wf(),
        ensures
            w == self.spec_width(),
            w >= 0,
    {
        self.width
    }

    /// Number of rows.
    pub fn get_height(&self) -> (h: i32)
        requires
            self.wf(),
        ensures
            h == self.spec_height(),
            h >= 0,
    {
        self.height
    }

    /// The grid of the given dimensions whose cell `(x, y)` holds what
    /// `f(x, y)` returned; the cells are filled row by row. A negative
    /// dimension counts as zero.
    pub fn new_from_func<F: Fn(usize, usize) -> T>(dimensions: DPoint2, f: &F) -> (grid: Self)
        requires
            forall|x: usize, y: usize|
                x < dimensions.x && y < dimensions.y ==> #[trigger] f.requires((x, y)),
        ensures
            grid.wf(),
            grid.spec_width() == if dimensions.x < 0 { 0 } else { dimensions.x as int },
            grid.spec_height() == if dimensions.y < 0 { 0 } else { dimensions.y as int },
            forall|x: int, y: int| #[trigger]
                grid.spec_has_cell(x, y) ==> f.ensures(
                    (x as usize, y as usize),
                    grid.spec_get(x, y),
                ),
    {
        let width: i32 = if dimensions.x < 0 { 0 } else { dimensions.x };
        let height: i32 = if dimensions.y < 0 { 0 } else { dimensions.y };
        let mut v: Vec<T> = Vec::new();
        let mut y: i32 = 0;
        while y < height
            invariant
                0 <= y <= height,
                0 <= width,
                v@.len() == y * width,
                forall|x: usize, y: usize| x < width && y < height ==> #[trigger] f.requires((x, y)),
                forall|i: int, j: int|
                    0 <= i < width && 0 <= j < y ==> f.ensures(
                        (i as usize, j as usize),
                        #[trigger] v@[j * width + i],
                    ),
            decreases height - y,
        {
            let mut x: i32 = 0;
            while x < width
                invariant
                    0 <= y < height,
                    0 <= x <= width,
                    v@.len() == y * width + x,
                    forall|x: usize, y: usize|
                        x < width && y < height ==> #[trigger] f.requires((x, y)),
                    forall|i: int, j: int|
                        0 <= i < width && 0 <= j < y ==> f.ensures(
                            (i as usize, j as usize),
                            #[trigger] v@[j * width + i],
                        ),
                    forall|i: int|
                        0 <= i < x ==> f.ensures(
                            (i as usize, y as usize),
                            #[trigger] v@[y * width + i],
                        ),
                decreases width - x,
            {
                let ghost before = v@;
                let element = f(x as usize, y as usize);
                v.push(element);
                proof {
                    assert forall|i: int, j: int| 0 <= i < width && 0 <= j < y implies f.ensures(
                        (i as usize, j as usize),
                        #[trigger] v@[j * width + i],
                    ) by {
                        lemma_index_in_range(i, j, width as int, y as int);
                        assert(v@[j * width + i] == before[j * width + i]);
                    }
                    assert forall|i: int| 0 <= i < x + 1 implies f.ensures(
                        (i as usize, y as usize),
                        #[trigger] v@[y * width + i],
                    ) by {
                        if i < x {
                            assert(v@[y * width + i] == before[y * width + i]);
                        }
                    }
                }
                x = x + 1;
            }
            proof {
                assert((y + 1) * width == y * width + width) by (nonlinear_arith);
            }
            y = y + 1;
        }
        let grid = TotalGrid { elements: v, width, height };
        proof {
            assert forall|x: int, y: int| #[trigger] grid.spec_has_cell(x, y) implies f.ensures(
                (x as usize, y as usize),
                grid.spec_get(x, y),
            ) by {
                assert(grid.spec_get(x, y) == v@[y * width + x]);
            }
        }
        grid
    }

    /// The element of cell `(x, y)`.
    pub fn get(&self, x: usize, y: usize) -> (element: &T)
        requires
            self.wf(),
            self.spec_has_cell(x as int, y as int),
        ensures
            *element == self.spec_get(x as int, y as int),
    {
        let index = self.index_of(x, y);
        &self.elements[index]
    }

    /// Index of the element of cell `(x, y)`.
    fn index_of(&self, x: usize, y: usize) -> (index: usize)
        requires
            self.wf(),
            self.spec_has_cell(x as int, y as int),
        ensures
            index == self.spec_index(x as int, y as int),
            index < self@.len(),
    {
        let width = self.width as usize;
        proof {
            self.lemma_shape();
            lemma_index_in_range(x as int, y as int, width as int, self.height as int);
        }
        y * width + x
    }

    /// The element of cell `(x, y)`, if the grid has such a cell.
    pub fn maybe_get(&self, x: usize, y: usize) -> (element: Option<&T>)
        requires
            self.wf(),
        ensures
            self.spec_has_cell(x as int, y as int) ==> element == Some(
                &self.spec_get(x as int, y as int),
            ),
            !self.spec_has_cell(x as int, y as int) ==> element is None,
    {
        if x < self.width as usize && y < self.height as usize {
            Some(self.get(x, y))
        } else {
            None
        }
    }

    /// The element of cell `(x, y)`, to be changed in place; every other cell
    /// keeps its element.
    pub fn get_mut(&mut self, x: usize, y: usize) -> (element: &mut T)
        requires
            old(self).wf(),
            old(self).spec_has_cell(x as int, y as int),
        ensures
            *element == old(self).spec_get(x as int, y as int),
            final(self).wf(),
            final(self)@ == old(self)@.update(
                old(self).spec_index(x as int, y as int),
                *final(element),
            ),
            final(self).spec_width() == old(self).spec_width(),
            final(self).spec_height() == old(self).spec_height(),
    {
        let index = self.index_of(x, y);
        &mut self.elements[index]
    }

    /// The element of cell `(x, y)`, to be changed in place, if the grid has
    /// such a cell.
    pub fn maybe_get_mut(&mut self, x: usize, y: usize) -> (element: Option<&mut T>)
        requires
            old(self).wf(),
        ensures
            old(self).spec_has_cell(x as int, y as int) ==> {
                &&& element is Some
                &&& *element->0 == old(self).spec_get(x as int, y as int)
                &&& final(self)@ == old(self)@.update(
                    old(self).spec_index(x as int, y as int),
                    *final(element->0),
                )
            },
            !old(self).spec_has_cell(x as int, y as int) ==> {
                &&& element is None
                &&& final(self)@ == old(self)@
            },
            final(self).wf(),
            final(self).spec_width() == old(self).spec_width(),
            final(self).spec_height() == old(self).spec_height(),
    {
        if x < self.width as usize && y < self.height as usize {
            Some(self.get_mut(x, y))
        } else {
            None
        }
    }

    /// Puts `element` into cell `(x, y)`; every other cell keeps its element.
    pub fn put(&mut self, x: usize, y: usize, element: T)
        requires
            old(self).wf(),
            old(self).spec_has_cell(x as int, y as int),
        ensures
            final(self).wf(),
            final(self)@ == old(self)@.update(old(self).spec_index(x as int, y as int), element),
            final(self).spec_width() == old(self).spec_width(),
            final(self).spec_height() == old(self).spec_height(),
    {
        let index = self.index_of(x, y);
        self.elements.set(index, element);
    }

    /// Every cell of the grid, row by row.
    pub fn cell_iterator(&self) -> (cells: Vec<DPoint2>)
        requires
            self.wf(),
        ensures
            cells@.len() == self@.len(),
            forall|i: int|
                0 <= i < cells@.len() ==> #[trigger] cells@[i] == spec_cell_from_index(
                    self.spec_width(),
                    i,
                ),
    {
        let mut cells: Vec<DPoint2> = Vec::new();
        let n = self.elements.len();
        let mut i: usize = 0;
        while i < n
            invariant
                self.wf(),
                n == self@.len(),
                0 <= i <= n,
                cells@.len() == i,
                forall|k: int|
                    0 <= k < i ==> #[trigger] cells@[k] == spec_cell_from_index(
                        self.spec_width(),
                        k,
                    ),
            decreases n - i,
        {
            cells.push(self.cell_of(i));
            i = i + 1;
        }
        cells
    }

    /// The cell that holds the element with index `index`.
    fn cell_of(&self, index: usize) -> (cell: DPoint2)
        requires
            self.wf(),
            index < self@.len(),
        ensures
            cell == spec_cell_from_index(self.spec_width(), index as int),
            self.spec_has_cell(cell.x as int, cell.y as int),
            self.spec_index(cell.x as int, cell.y as int) == index,
    {
        proof {
            lemma_cells_fit(self.width as int, self.height as int);
            lemma_cell_of_index(index as int, self.width as int, self.height as int);
        }
        let width = self.width as usize;
        DPoint2 { x: (index % width) as i32, y: (index / width) as i32 }
    }

    /// A walk over the cells of the grid, row by row, that starts at the
    /// first cell.
    pub fn iter(&self) -> (walk: TotalGridIterator<'_, T>)
        requires
            self.wf(),
        ensures
            walk.wf(),
            walk.spec_grid() == *self,
            walk.spec_position() == 0,
    {
        TotalGridIterator { grid: self, next_element: 0 }
    }

    /// Width and height as one point.
    pub fn get_dimensions(&self) -> (d: DPoint2)
        requires
            self.wf(),
        ensures
            d.x == self.spec_width(),
            d.y == self.spec_height(),
    {
        DPoint2 { x: self.get_width(), y: self.get_height() }
    }
}

/// A walk over the cells of a grid, row by row.
pub struct TotalGridIterator<'a, T> {
    grid: &'a TotalGrid<T>,
    next_element: usize,
}

impl<'a, T> TotalGridIterator<'a, T> {
    /// The grid that is walked.
    pub closed spec fn spec_grid(&self) -> TotalGrid<T> {
        *self.grid
    }

    /// Number of cells that the walk has passed.
    pub closed spec fn spec_position(&self) -> int {
        self.next_element as int
    }

    /// Well-formedness: the grid is well formed and the walk has not left it.
    pub closed spec fn wf(&self) -> bool {
        &&& self.grid.wf()
        &&& self.next_element <= self.grid@.len()
    }

    /// The next cell with its element, or `None` once every cell has been
    /// passed.
    pub fn next(&mut self) -> (item: Option<(DPoint2, &'a T)>)
        requires
            old(self).wf(),
        ensures
            final(self).wf(),
            final(self).spec_grid() == old(self).spec_grid(),
            old(self).spec_position() < old(self).spec_grid()@.len() ==> {
                &&& item matches Some((cell, element))
                &&& cell == spec_cell_from_index(
                    old(self).spec_grid().spec_width(),
                    old(self).spec_position(),
                )
                &&& *element == old(self).spec_grid()@[old(self).spec_position()]
                &&& final(self).spec_position() == old(self).spec_position() + 1
            },
            old(self).spec_position() >= old(self).spec_grid()@.len() ==> {
                &&& item is None
                &&& final(self).spec_position() == old(self).spec_position()
            },
    {
        let grid: &'a TotalGrid<T> = self.grid;
        if self.next_element < grid.elements.len() {
            let index = self.next_element;
            self.next_element = index + 1;
            Some((grid.cell_of(index), &grid.elements[index]))
        } else {
            None
        }
    }
}

/// Collects the elements of a grid one by one, and hands the grid over once
/// their number fits its dimensions.
pub struct TotalGridBuilder<T> {
    elements: Vec<T>,
}

impl<T> View for TotalGridBuilder<T> {
    type V = Seq<T>;

    /// The elements collected so far, in the order in which they came.
    closed spec fn view(&self) -> Seq<T> {
        self.elements@
    }
}

/// Whether `count` elements fill a grid of the given dimensions: neither
/// dimension is negative and their product is `count`.
pub open spec fn spec_fills(dimensions: DPoint2, count: int) -> bool {
    &&& dimensions.x >= 0
    &&& dimensions.y >= 0
    &&& dimensions.y * dimensions.x == count
}

impl<T> TotalGridBuilder<T> {
    /// A builder that holds no element.
    pub fn new() -> (builder: TotalGridBuilder<T>)
        ensures
            builder@ == Seq::<T>::empty(),
    {
        TotalGridBuilder { elements: Vec::new() }
    }

    /// Adds `element` behind those collected so far.
    pub fn append(&mut self, element: T)
        ensures
            final(self)@ == old(self)@.push(element),
    {
        self.elements.push(element);
    }

    /// Adds `element` behind those collected so far, as `append` does.
    pub fn replace(&mut self, element: T)
        ensures
            final(self)@ == old(self)@.push(element),
    {
        self.elements.push(element);
    }

    /// Whether the elements collected so far fill a grid of the given
    /// dimensions.
    pub fn ready(&self, dimensions: DPoint2) -> (r: bool)
        ensures
            r == spec_fills(dimensions, self@.len() as int),
    {
        if dimensions.x < 0 || dimensions.y < 0 {
            return false;
        }
        let width = dimensions.x as u64;
        let height = dimensions.y as u64;
        proof {
            lemma_cells_fit(width as int, height as int);
        }
        let count = self.elements.len();
        count as u64 == height * width
    }

    /// The grid of the given dimensions that holds the collected elements row
    /// by row; fails if their number does not fill such a grid.
    pub fn finalize(self, dimensions: DPoint2) -> (r: Result<TotalGrid<T>, ()>)
        ensures
            spec_fills(dimensions, self@.len() as int) ==> {
                &&& r is Ok
                &&& r->Ok_0.wf()
                &&& r->Ok_0@ == self@
                &&& r->Ok_0.spec_width() == dimensions.x
                &&& r->Ok_0.spec_height() == dimensions.y
            },
            !spec_fills(dimensions, self@.len() as int) ==> r is Err,
    {
        if self.ready(dimensions) {
            Ok(TotalGrid { elements: self.elements, width: dimensions.x, height: dimensions.y })
        } else {
            Err(())
        }
    }
}

/// In a grid `width` wide and `height` high, the row-major index of a cell
/// lies below the number of cells.
pub proof fn lemma_index_in_range(x: int, y: int, width: int, height: int)
    requires
        0 <= x < width,
        0 <= y < height,
    ensures
        0 <= y * width + x < height * width,
{
    assert(y * width + x < height * width) by (nonlinear_arith)
        requires
            0 <= x < width,
            0 <= y < height,
    {
        assert((y + 1) * width <= height * width);
    }
    assert(0 <= y * width) by (nonlinear_arith)
        requires
            0 <= y,
            0 <= width,
    ;
}

/// In a grid `width` wide and `height` high, the element with a given index
/// lies in a cell of the grid, and that cell has this index.
pub proof fn lemma_cell_of_index(index: int, width: int, height: int)
    requires
        0 < width,
        0 <= height,
        0 <= index < height * width,
    ensures
        0 <= index % width < width,
        0 <= index / width < height,
        (index / width) * width + index % width == index,
{
    vstd::arithmetic::div_mod::lemma_fundamental_div_mod(index, width);
    vstd::arithmetic::div_mod::lemma_div_pos_is_pos(index, width);
    vstd::arithmetic::div_mod::lemma_mod_bound(index, width);
    vstd::arithmetic::mul::lemma_mul_is_commutative(width, index / width);
    let q = index / width;
    assert(q < height) by (nonlinear_arith)
        requires
            0 < width,
            0 <= q,
            q * width <= index,
            index < height * width,
    {
        if q >= height {
            assert(q * width >= height * width);
        }
    }
}

/// A grid whose dimensions are 32-bit numbers and which holds an element has
/// a positive width and a positive height, and it has no more cells than the
/// square of the largest such number.
pub proof fn lemma_cells_fit(width: int, height: int)
    requires
        0 <= width <= i32::MAX,
        0 <= height <= i32::MAX,
    ensures
        0 < height * width ==> 0 < width && 0 < height,
        height * width <= i32::MAX * i32::MAX,
{
    assert(0 < height * width ==> 0 < width && 0 < height) by (nonlinear_arith)
        requires
            0 <= width,
            0 <= height,
    ;
    assert(height * width <= i32::MAX * i32::MAX) by (nonlinear_arith)
        requires
            0 <= width <= i32::MAX,
            0 <= height <= i32::MAX,
    ;
}

} // verus!
