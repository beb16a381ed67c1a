use vstd::prelude::*;

verus! {

/// `v` clamped into the range of `i64`.
pub open spec fn clamp_i64(v: int) -> i64 {
    if v > i64::MAX as int {
        i64::MAX
    } else if v < i64::MIN as int {
        i64::MIN
    } else {
        v as i64
    }
}

/// `a + n`, saturating at the bounds of `i64`.
pub fn offset(a: i64, n: usize) -> (r: i64)
    ensures
        r == clamp_i64(a + n),
{
    if n as u128 > (i64::MAX as i128 - a as i128) as u128 {
        i64::MAX
    } else {
        (a as i128 + n as i128) as i64
    }
}

/// `a - n`, saturating at the bounds of `i64`.
pub fn offset_back(a: i64, n: usize) -> (r: i64)
    ensures
        r == clamp_i64(a - n),
{
    if n as u128 > (a as i128 - i64::MIN as i128) as u128 {
        i64::MIN
    } else {
        (a as i128 - n as i128) as i64
    }
}

/// An axis-aligned rectangle. Its origin may be negative while layout math is
/// under way; `width` and `height` never are.
#[derive(Clone, Copy, Debug, PartialEq, Eq)]
pub struct Rect {
    pub x: i64,
    pub y: i64,
    pub width: usize,
    pub height: usize,
}

impl Rect {
    pub fn new(x: i64, y: i64, width: usize, height: usize) -> (r: Self)
        ensures
            r == (Rect { x, y, width, height }),
    {
        Self { x, y, width, height }
    }

    pub fn zero() -> (r: Self)
        ensures
            r == (Rect { x: 0, y: 0, width: 0, height: 0 }),
    {
        Rect { x: 0, y: 0, width: 0, height: 0 }
    }

    pub fn sized(width: usize, height: usize) -> (r: Self)
        ensures
            r == (Rect { x: 0, y: 0, width, height }),
    {
        Self { x: 0, y: 0, width, height }
    }

    pub fn from_size(size: &Size) -> (r: Self)
        ensures
            r == (Rect { x: 0, y: 0, width: size.width, height: size.height }),
    {
        Self { x: 0, y: 0, width: size.width, height: size.height }
    }

    /// The right edge, `x + width`, saturating at `i64::MAX`.
    pub open spec fn spec_max_x(self) -> i64 {
        clamp_i64(self.x + self.width)
    }

    /// The bottom edge, `y + height`, saturating at `i64::MAX`.
    pub open spec fn spec_max_y(self) -> i64 {
        clamp_i64(self.y + self.height)
    }

    pub fn max_x(&self) -> (r: i64)
        ensures
            r == self.spec_max_x(),
    {
        offset(self.x, self.width)
    }

    pub fn max_y(&self) -> (r: i64)
        ensures
            r == self.spec_max_y(),
    {
        offset(self.y, self.height)
    }

    pub fn size(&self) -> (r: Size)
        ensures
            r == (Size { width: self.width, height: self.height }),
    {
        Size::new(self.width, self.height)
    }
}

impl Default for Rect {
    fn default() -> (r: Self)
        ensures
            r == (Rect { x: 0, y: 0, width: 0, height: 0 }),
    {
        Self::zero()
    }
}

/// A displacement in the plane.
#[derive(Clone, Copy, Debug, PartialEq, Eq)]
pub struct Vector {
    x: i64,
    y: i64,
}

impl Vector {
    pub closed spec fn spec_x(self) -> i64 {
        self.x
    }

    pub closed spec fn spec_y(self) -> i64 {
        self.y
    }

    pub fn zero() -> (r: Vector)
        ensures
            r.spec_x() == 0 && r.spec_y() == 0,
    {
        Vector { x: 0, y: 0 }
    }

    pub fn new(x: i64, y: i64) -> (r: Vector)
        ensures
            r.spec_x() == x && r.spec_y() == y,
    {
        Vector { x, y }
    }

    /// The difference `vec1 - vec2`, component by component.
    pub fn sub(vec1: &Vector, vec2: &Vector) -> (r: Vector)
        requires
            i64::MIN <= vec1.spec_x() - vec2.spec_x() <= i64::MAX,
            i64::MIN <= vec1.spec_y() - vec2.spec_y() <= i64::MAX,
        ensures
            r.spec_x() == vec1.spec_x() - vec2.spec_x(),
            r.spec_y() == vec1.spec_y() - vec2.spec_y(),
    {
        Vector { x: vec1.x - vec2.x, y: vec1.y - vec2.y }
    }

    pub fn x(&self) -> (r: i64)
        ensures
            r == self.spec_x(),
    {
        self.x
    }

    pub fn y(&self) -> (r: i64)
        ensures
            r == self.spec_y(),
    {
        self.y
    }
}

/// A width and a height.
#[derive(Clone, Copy, Debug, PartialEq, Eq)]
pub struct Size {
    pub width: usize,
    pub height: usize,
}

impl Size {
    pub fn new(width: usize, height: usize) -> (r: Self)
        ensures
            r == (Size { width, height }),
    {
        Size { width, height }
    }

    pub fn zero() -> (r: Self)
        ensures
            r == (Size { width: 0, height: 0 }),
    {
        Size { width: 0, height: 0 }
    }

    /// The size as a vector from the origin to the far corner.
    pub fn to_vector(&self) -> (r: Vector)
        requires
            self.width <= i64::MAX,
            self.height <= i64::MAX,
        ensures
            r.spec_x() == self.width,
            r.spec_y() == self.height,
    {
        Vector::new(self.width as i64, self.height as i64)
    }
}

/// A grid of items stored row by row; its shape is `(columns, rows)`.
#[derive(Clone, PartialEq, PartialOrd)]
pub struct Matrix<Item: Clone> {
    columns: usize,
    rows: usize,
    data: Vec<Item>,
}

impl<Item: Clone> Matrix<Item> {
    pub closed spec fn spec_shape(&self) -> (usize, usize) {
        (self.columns, self.rows)
    }

    pub closed spec fn spec_data(&self) -> Seq<Item> {
        self.data@
    }

    /// Every item has a place in the grid, and every place an item.
    pub closed spec fn wf(&self) -> bool {
        self.data@.len() == self.columns * self.rows
    }

    /// The index of column `x`, row `y` in the row-by-row storage.
    pub closed spec fn index_of(&self, x: int, y: int) -> int {
        y * self.columns + x
    }

    /// A place inside the grid has its item.
    pub proof fn lemma_index_in_range(&self, x: int, y: int)
        requires
            self.wf(),
            0 <= x < self.spec_shape().0,
            0 <= y < self.spec_shape().1,
        ensures
            0 <= self.index_of(x, y) < self.spec_data().len(),
    {
        lemma_grid_index(x, y, self.columns as int, self.rows as int);
    }

    /// Lays `data` out in `row_count` rows of equal length.
    pub fn with_rows(data: &[Item], row_count: usize) -> (r: Self)
        requires
            row_count > 0,
            (data@.len() as int) % (row_count as int) == 0,
        ensures
            r.wf(),
            r.spec_shape().0 == (data@.len() as int) / (row_count as int),
            r.spec_shape().1 == row_count,
            r.spec_data().len() == data@.len(),
            forall|i: int| 0 <= i < data@.len() ==> cloned(data@[i], #[trigger] r.spec_data()[i]),
    {
        let col_count = data.len() / row_count;
        let mut copied: Vec<Item> = Vec::new();
        let mut i: usize = 0;
        while i < data.len()
            invariant
                i <= data@.len(),
                copied@.len() == i,
                forall|j: int| 0 <= j < i ==> cloned(data@[j], #[trigger] copied@[j]),
            decreases data@.len() - i,
        {
            copied.push(data[i].clone());
            i += 1;
        }
        proof {
            let n = data@.len() as int;
            vstd::arithmetic::div_mod::lemma_fundamental_div_mod(n, row_count as int);
            vstd::arithmetic::mul::lemma_mul_is_commutative(row_count as int, n / (row_count as int));
        }
        Matrix { columns: col_count, rows: row_count, data: copied }
    }

    pub fn data(&self) -> (r: &[Item])
        ensures
            r@ == self.spec_data(),
    {
        self.data.as_slice()
    }

    pub fn shape(&self) -> (r: (usize, usize))
        ensures
            r == self.spec_shape(),
    {
        (self.columns, self.rows)
    }

    /// The item in column `x`, row `y`.
    pub fn get(&self, x: usize, y: usize) -> (r: &Item)
        requires
            self.wf(),
            x < self.spec_shape().0,
            y < self.spec_shape().1,
        ensures
            *r == self.spec_data()[self.index_of(x as int, y as int)],
    {
        proof {
            lemma_grid_index(x as int, y as int, self.columns as int, self.rows as int);
        }
        let _len = self.data.len();
        &self.data[y * self.columns + x]
    }

    /// The item in column `x`, row `y`, to be changed in place.
    pub fn get_mut(&mut self, x: usize, y: usize) -> (r: &mut Item)
        requires
            old(self).wf(),
            x < old(self).spec_shape().0,
            y < old(self).spec_shape().1,
        ensures
            *r == old(self).spec_data()[old(self).index_of(x as int, y as int)],
            final(self).spec_shape() == old(self).spec_shape(),
            final(self).spec_data() == old(self).spec_data().update(
                old(self).index_of(x as int, y as int),
                *final(r),
            ),
    {
        proof {
            lemma_grid_index(x as int, y as int, self.columns as int, self.rows as int);
        }
        let _len = self.data.len();
        let index = y * self.columns + x;
        &mut self.data[index]
    }
}

/// A place inside a `cols` by `rows` grid has a row-by-row index inside it.
pub proof fn lemma_grid_index(x: int, y: int, cols: int, rows: int)
    requires
        0 <= x < cols,
        0 <= y < rows,
    ensures
        0 <= y * cols + x < cols * rows,
{
    assert(y * cols + x < cols * rows) by (nonlinear_arith)
        requires
            0 <= x < cols,
            0 <= y < rows,
    ;
    assert(0 <= y * cols) by (nonlinear_arith)
        requires
            0 <= y,
            0 <= cols,
    ;
}

} // verus!
