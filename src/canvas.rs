use vstd::prelude::*;
use vstd::string::StringExecFns;

use crate::layout::geometry::{clamp_i64, Rect, Size};
use crate::layout::{nest, Layout, LayoutContext};
use crate::rendering::{draw_ops, ops_of, DrawCommand, DrawOp};
use crate::text::{blank, cells_view, graphemes, graphemes_of, is_blank, is_line_break, line_break};

verus! {

/// What a surface holds: its size and its cells, row by row.
pub struct Surface {
    pub size: Size,
    pub cells: Seq<Seq<char>>,
}

/// The index of the cell at column `x`, row `y` of a grid `size` wide and
/// high, if that cell exists.
pub open spec fn cell_at(size: Size, x: int, y: int) -> Option<int> {
    if 0 <= x < size.width && 0 <= y < size.height {
        Some(y * size.width + x)
    } else {
        None
    }
}

/// The column of cell `i` in a grid `width` wide.
pub open spec fn column_of(i: int, width: usize) -> int {
    i % (width as int)
}

/// The row of cell `i` in a grid `width` wide.
pub open spec fn row_of(i: int, width: usize) -> int {
    i / (width as int)
}

/// Cell `i` of a grid `width` wide lies inside `r`.
pub open spec fn in_rect(i: int, width: usize, r: Rect) -> bool {
    r.x <= column_of(i, width) < r.x + r.width && r.y <= row_of(i, width) < r.y + r.height
}

/// `cells` after writing `g` at column `x`, row `y`; nothing changes off the grid.
pub open spec fn written(size: Size, cells: Seq<Seq<char>>, g: Seq<char>, x: int, y: int) -> Seq<
    Seq<char>,
> {
    match cell_at(size, x, y) {
        Some(i) => cells.update(i, g),
        None => cells,
    }
}

/// `cells` after filling the part of `r` that lies on the grid with `g`.
pub open spec fn filled(size: Size, cells: Seq<Seq<char>>, r: Rect, g: Seq<char>) -> Seq<Seq<char>> {
    Seq::new(cells.len(), |i: int| if in_rect(i, size.width, r) { g } else { cells[i] })
}

/// `cells` after copying `other` so that its top left cell lands on column
/// `x`, row `y`; what falls off the grid is dropped.
pub open spec fn pasted(size: Size, cells: Seq<Seq<char>>, other: Surface, x: int, y: int) -> Seq<
    Seq<char>,
> {
    Seq::new(
        cells.len(),
        |i: int|
            match cell_at(other.size, column_of(i, size.width) - x, row_of(i, size.width) - y) {
                Some(j) => other.cells[j],
                None => cells[i],
            },
    )
}

/// The surface is not the size its contents expect.
#[derive(Clone, Copy, Debug, PartialEq, Eq)]
pub struct SizeMismatch {
    pub expected: Size,
    pub found: Size,
}

/// A grid of grapheme cells, stored row by row.
pub struct TextCanvas {
    size: Size,
    contents: Vec<String>,
}

impl View for TextCanvas {
    type V = Surface;

    closed spec fn view(&self) -> Surface {
        Surface { size: self.size, cells: cells_view(self.contents@) }
    }
}

proof fn lemma_cell_coords(idx: int, width: usize, x: int, y: int)
    requires
        width > 0,
        0 <= x < width,
        0 <= y,
        idx == y * width + x,
    ensures
        column_of(idx, width) == x,
        row_of(idx, width) == y,
{
    vstd::arithmetic::div_mod::lemma_fundamental_div_mod_converse(idx, width as int, y, x);
}

/// `x` lies in `[start, start + len)`, computed without overflow.
fn within(x: usize, start: i64, len: usize) -> (r: bool)
    ensures
        r == (start <= x < start + len),
{
    let v = x as i128;
    v >= start as i128 && v < start as i128 + len as i128
}

impl Default for TextCanvas {
    fn default() -> (r: Self)
        ensures
            r@.size == (Size { width: 0, height: 0 }),
            r@.cells.len() == 0,
    {
        Self::new()
    }
}

impl TextCanvas {
    /// Every cell of the grid is stored, and nothing else.
    #[verifier::type_invariant]
    pub closed spec fn wf(&self) -> bool {
        self.contents@.len() == self.size.width * self.size.height
    }

    /// An empty canvas.
    pub fn new() -> (r: Self)
        ensures
            r@.size == (Size { width: 0, height: 0 }),
            r@.cells.len() == 0,
    {
        TextCanvas { size: Size::zero(), contents: Vec::new() }
    }

    /// A canvas of `size`, every cell blank.
    pub fn create_in_bounds(size: &Size) -> (r: Self)
        requires
            size.width * size.height <= usize::MAX,
        ensures
            r@.size == *size,
            r@.cells.len() == size.width * size.height,
            forall|i: int| 0 <= i < r@.cells.len() ==> r@.cells[i] == seq![' '],
    {
        Self::create(size.width, size.height)
    }

    /// A canvas `width` wide and `height` high, every cell blank.
    pub fn create(width: usize, height: usize) -> (r: Self)
        requires
            width * height <= usize::MAX,
        ensures
            r@.size == (Size { width, height }),
            r@.cells.len() == width * height,
            forall|i: int| 0 <= i < r@.cells.len() ==> r@.cells[i] == seq![' '],
    {
        let n = width * height;
        let mut contents: Vec<String> = Vec::new();
        let mut i: usize = 0;
        while i < n
            invariant
                i <= n,
                contents@.len() == i,
                forall|j: int| 0 <= j < i ==> (#[trigger] contents@[j])@ == seq![' '],
            decreases n - i,
        {
            let blank = " ".to_owned();
            proof {
                reveal_strlit(" ");
            }
            contents.push(blank);
            i = i + 1;
        }
        TextCanvas { size: Size::new(width, height), contents }
    }

    pub fn size(&self) -> (r: Size)
        ensures
            r == self@.size,
    {
        self.size
    }

    /// The grapheme at column `x`, row `y`, if that cell exists.
    pub fn get_at(&self, x: usize, y: usize) -> (r: Option<&str>)
        ensures
            r is None <==> cell_at(self@.size, x as int, y as int) is None,
            r is Some ==> r->0@ == self@.cells[cell_at(self@.size, x as int, y as int)->0],
    {
        proof {
            use_type_invariant(self);
        }
        if x >= self.size.width || y >= self.size.height {
            return None;
        }
        proof {
            crate::layout::geometry::lemma_grid_index(
                x as int,
                y as int,
                self.size.width as int,
                self.size.height as int,
            );
        }
        let _len = self.contents.len();
        let index = y * self.size.width + x;
        Some(self.contents[index].as_str())
    }

    /// Writes `grapheme` at column `x`, row `y`; nothing happens off the grid.
    pub fn write(&mut self, grapheme: &str, x: usize, y: usize)
        ensures
            final(self)@.size == old(self)@.size,
            final(self)@.cells == written(old(self)@.size, old(self)@.cells, grapheme@, x as int, y as int),
    {
        let (size, mut contents) = self.take_cells();
        write_cell(size, &mut contents, grapheme, x, y);
        *self = TextCanvas { size, contents };
    }

    /// Moves the cells out, leaving an empty canvas behind.
    fn take_cells(&mut self) -> (r: (Size, Vec<String>))
        ensures
            r.0 == old(self)@.size,
            cells_view(r.1@) == old(self)@.cells,
            r.1@.len() == r.0.width * r.0.height,
    {
        proof {
            use_type_invariant(&*self);
        }
        let mut taken = TextCanvas::new();
        core::mem::swap(self, &mut taken);
        proof {
            use_type_invariant(&taken);
        }
        let TextCanvas { size, contents } = taken;
        (size, contents)
    }
}

/// Writes `grapheme` into `contents`, a grid of `size`, at column `x`, row `y`.
fn write_cell(size: Size, contents: &mut Vec<String>, grapheme: &str, x: usize, y: usize)
    requires
        old(contents)@.len() == size.width * size.height,
    ensures
        final(contents)@.len() == old(contents)@.len(),
        cells_view(final(contents)@) == written(size, cells_view(old(contents)@), grapheme@, x as int, y as int),
{
    if x >= size.width || y >= size.height {
        return;
    }
    proof {
        crate::layout::geometry::lemma_grid_index(
            x as int,
            y as int,
            size.width as int,
            size.height as int,
        );
    }
    let _len = contents.len();
    let index = y * size.width + x;
    let ghost prev = cells_view(contents@);
    contents.set(index, grapheme.to_owned());
    proof {
        assert(cells_view(contents@) =~= prev.update(index as int, grapheme@));
    }
}

/// Fills the part of `bounds` that lies on `contents`, a grid of `size`, with `grapheme`.
fn fill_cells(size: Size, contents: &mut Vec<String>, bounds: &Rect, grapheme: &str)
    requires
        old(contents)@.len() == size.width * size.height,
    ensures
        final(contents)@.len() == old(contents)@.len(),
        cells_view(final(contents)@) == filled(size, cells_view(old(contents)@), *bounds, grapheme@),
{
    let ghost before = cells_view(contents@);
    let _n = contents.len();
    let w = size.width;
    let h = size.height;
    let mut idx: usize = 0;
    let mut y: usize = 0;
    while y < h
        invariant
            contents@.len() == size.width * size.height,
            size.width == w,
            size.height == h,
            before == cells_view(old(contents)@),
            y <= h,
            idx == y * w,
            before.len() == w * h,
            before.len() <= usize::MAX,
            cells_view(contents@).len() == before.len(),
            forall|j: int|
                0 <= j < idx ==> #[trigger] cells_view(contents@)[j] == filled(
                    size,
                    before,
                    *bounds,
                    grapheme@,
                )[j],
            forall|j: int| idx <= j < before.len() ==> #[trigger] cells_view(contents@)[j] == before[j],
        decreases h - y,
    {
        let mut x: usize = 0;
        while x < w
            invariant
                contents@.len() == size.width * size.height,
                size.width == w,
                size.height == h,
                before == cells_view(old(contents)@),
                y < h,
                x <= w,
                idx == y * w + x,
                before.len() == w * h,
                before.len() <= usize::MAX,
                cells_view(contents@).len() == before.len(),
                forall|j: int|
                    0 <= j < idx ==> #[trigger] cells_view(contents@)[j] == filled(
                        size,
                        before,
                        *bounds,
                        grapheme@,
                    )[j],
                forall|j: int|
                    idx <= j < before.len() ==> #[trigger] cells_view(contents@)[j] == before[j],
            decreases w - x,
        {
            proof {
                crate::layout::geometry::lemma_grid_index(x as int, y as int, w as int, h as int);
                lemma_cell_coords(idx as int, w, x as int, y as int);
            }
            let ghost prev = cells_view(contents@);
            if within(x, bounds.x, bounds.width) && within(y, bounds.y, bounds.height) {
                contents.set(idx, grapheme.to_owned());
                proof {
                    assert(cells_view(contents@) =~= prev.update(idx as int, grapheme@));
                }
            }
            proof {
                let f = filled(size, before, *bounds, grapheme@);
                assert(cells_view(contents@)[idx as int] == f[idx as int]);
            }
            idx = idx + 1;
            x = x + 1;
        }
        proof {
            assert(idx == (y + 1) * w) by (nonlinear_arith)
                requires
                    idx == y * w + w,
            ;
        }
        y = y + 1;
    }
    proof {
        assert(idx == before.len()) by (nonlinear_arith)
            requires
                idx == y * w,
                y == h,
                before.len() == w * h,
        ;
        assert(cells_view(contents@) =~= filled(size, before, *bounds, grapheme@));
    }
}

/// Copies `other` into the part of `contents`, a grid of `size`, that `bounds` covers.
fn paste_cells(size: Size, contents: &mut Vec<String>, other: &TextCanvas, bounds: &Rect)
    requires
        old(contents)@.len() == size.width * size.height,
        other@.size.width == bounds.width,
        other@.size.height == bounds.height,
    ensures
        final(contents)@.len() == old(contents)@.len(),
        cells_view(final(contents)@) == pasted(
            size,
            cells_view(old(contents)@),
            other@,
            bounds.x as int,
            bounds.y as int,
        ),
{
    proof {
        use_type_invariant(other);
    }
    let ghost before = cells_view(contents@);
    let _n = contents.len();
    let _m = other.contents.len();
    let w = size.width;
    let h = size.height;
    let ow = other.size.width;
    let oh = other.size.height;
    let mut idx: usize = 0;
    let mut y: usize = 0;
    while y < h
        invariant
            contents@.len() == size.width * size.height,
            size.width == w,
            size.height == h,
            other.size.width == ow,
            other.size.height == oh,
            before == cells_view(old(contents)@),
            y <= h,
            idx == y * w,
            before.len() == w * h,
            before.len() <= usize::MAX,
            other@.cells.len() <= usize::MAX,
            other.contents@.len() == ow * oh,
            cells_view(contents@).len() == before.len(),
            forall|j: int|
                0 <= j < idx ==> #[trigger] cells_view(contents@)[j] == pasted(
                    size,
                    before,
                    other@,
                    bounds.x as int,
                    bounds.y as int,
                )[j],
            forall|j: int| idx <= j < before.len() ==> #[trigger] cells_view(contents@)[j] == before[j],
        decreases h - y,
    {
        let mut x: usize = 0;
        while x < w
            invariant
                contents@.len() == size.width * size.height,
                    size.width == w,
                size.height == h,
                other.size.width == ow,
                other.size.height == oh,
                before == cells_view(old(contents)@),
                y < h,
                x <= w,
                idx == y * w + x,
                before.len() == w * h,
                before.len() <= usize::MAX,
                other@.cells.len() <= usize::MAX,
            other.contents@.len() == ow * oh,
                cells_view(contents@).len() == before.len(),
                forall|j: int|
                    0 <= j < idx ==> #[trigger] cells_view(contents@)[j] == pasted(
                        size,
                        before,
                        other@,
                        bounds.x as int,
                        bounds.y as int,
                    )[j],
                forall|j: int|
                    idx <= j < before.len() ==> #[trigger] cells_view(contents@)[j] == before[j],
            decreases w - x,
        {
            proof {
                crate::layout::geometry::lemma_grid_index(x as int, y as int, w as int, h as int);
                lemma_cell_coords(idx as int, w, x as int, y as int);
            }
            let ox = x as i128 - bounds.x as i128;
            let oy = y as i128 - bounds.y as i128;
            let ghost prev = cells_view(contents@);
            if 0 <= ox && ox < ow as i128 && 0 <= oy && oy < oh as i128 {
                proof {
                    crate::layout::geometry::lemma_grid_index(
                        ox as int,
                        oy as int,
                        ow as int,
                        oh as int,
                    );
                }
                let oi = oy as usize * ow + ox as usize;
                let cell = other.contents[oi].clone();
                contents.set(idx, cell);
                proof {
                    assert(cells_view(contents@) =~= prev.update(idx as int, other@.cells[oi as int]));
                }
            }
            proof {
                let f = pasted(size, before, other@, bounds.x as int, bounds.y as int);
                assert(cells_view(contents@)[idx as int] == f[idx as int]);
            }
            idx = idx + 1;
            x = x + 1;
        }
        proof {
            assert(idx == (y + 1) * w) by (nonlinear_arith)
                requires
                    idx == y * w + w,
            ;
        }
        y = y + 1;
    }
    proof {
        assert(idx == before.len()) by (nonlinear_arith)
            requires
                idx == y * w,
                y == h,
                before.len() == w * h,
        ;
        assert(cells_view(contents@) =~= pasted(size, before, other@, bounds.x as int, bounds.y as int));
    }
}

/// Sets every cell of `contents` to `grapheme`.
fn clear_cells(size: Size, contents: &mut Vec<String>, grapheme: &str)
    requires
        old(contents)@.len() == size.width * size.height,
    ensures
        final(contents)@.len() == old(contents)@.len(),
        cells_view(final(contents)@).len() == cells_view(old(contents)@).len(),
        forall|i: int| 0 <= i < cells_view(final(contents)@).len() ==> cells_view(final(contents)@)[i] == grapheme@,
{
    let n = contents.len();
    let mut i: usize = 0;
    while i < n
        invariant
            contents@.len() == size.width * size.height,
            n == cells_view(contents@).len(),
            n == cells_view(old(contents)@).len(),
            i <= n,
            forall|j: int| 0 <= j < i ==> #[trigger] cells_view(contents@)[j] == grapheme@,
        decreases n - i,
    {
        let ghost prev = cells_view(contents@);
        contents.set(i, grapheme.to_owned());
        proof {
            assert(cells_view(contents@) =~= prev.update(i as int, grapheme@));
        }
        i = i + 1;
    }
}

impl TextCanvas {
    /// Fills the part of `bounds` that lies on the canvas with `grapheme`.
    pub fn draw_rect(&mut self, bounds: &Rect, grapheme: &str)
        ensures
            final(self)@.size == old(self)@.size,
            final(self)@.cells == filled(old(self)@.size, old(self)@.cells, *bounds, grapheme@),
    {
        let (size, mut contents) = self.take_cells();
        fill_cells(size, &mut contents, bounds, grapheme);
        *self = TextCanvas { size, contents };
    }

    /// Copies `other` into the part of this canvas that `bounds` covers.
    /// `other` must be exactly the size of `bounds`; when it is not, nothing
    /// is drawn and the mismatch is returned.
    pub fn paste_canvas(&mut self, other: &TextCanvas, bounds: &Rect) -> (r: Result<(), SizeMismatch>)
        ensures
            final(self)@.size == old(self)@.size,
            r is Err <==> (other@.size.width != bounds.width || other@.size.height != bounds.height),
            r is Err ==> final(self)@.cells == old(self)@.cells && r == Err::<(), SizeMismatch>(
                SizeMismatch {
                    expected: Size { width: bounds.width, height: bounds.height },
                    found: other@.size,
                },
            ),
            r is Ok ==> final(self)@.cells == pasted(
                old(self)@.size,
                old(self)@.cells,
                other@,
                bounds.x as int,
                bounds.y as int,
            ),
    {
        if other.size.width != bounds.width || other.size.height != bounds.height {
            return Err(
                SizeMismatch {
                    expected: Size::new(bounds.width, bounds.height),
                    found: other.size,
                },
            );
        }
        let (size, mut contents) = self.take_cells();
        paste_cells(size, &mut contents, other, bounds);
        *self = TextCanvas { size, contents };
        Ok(())
    }

    /// Sets every cell to `grapheme`.
    pub fn clear_with(&mut self, grapheme: &str)
        ensures
            final(self)@.size == old(self)@.size,
            final(self)@.cells.len() == old(self)@.cells.len(),
            forall|i: int| 0 <= i < final(self)@.cells.len() ==> final(self)@.cells[i] == grapheme@,
    {
        let (size, mut contents) = self.take_cells();
        clear_cells(size, &mut contents, grapheme);
        *self = TextCanvas { size, contents };
    }
}

/// Where text stands after some graphemes: the cells, the column and row
/// of the next grapheme from the top left corner of its rectangle, and
/// whether the last grapheme filled its row.
pub struct TextCursor {
    pub cells: Seq<Seq<char>>,
    pub column: nat,
    pub row: nat,
    pub wrapped: bool,
}

/// Lays out one more grapheme of text in `bounds`. A line break starts the
/// next row, unless the row just wrapped, which it then completes; any other
/// grapheme is written, but for a blank one, which leaves its cell as it was,
/// and a grapheme that fills the width of `bounds` wraps to the next row.
pub open spec fn text_step(size: Size, bounds: Rect, at: TextCursor, g: Seq<char>) -> TextCursor {
    if is_line_break(g) {
        if at.wrapped {
            TextCursor { wrapped: false, ..at }
        } else {
            TextCursor { column: 0, row: at.row + 1, wrapped: false, ..at }
        }
    } else {
        let cells = if is_blank(g) {
            at.cells
        } else {
            written(size, at.cells, g, bounds.x + at.column, bounds.y + at.row)
        };
        if at.column + 1 >= bounds.width {
            TextCursor { cells, column: 0, row: at.row + 1, wrapped: true }
        } else {
            TextCursor { cells, column: at.column + 1, row: at.row, wrapped: false }
        }
    }
}

/// Lays out the graphemes `gs` in `bounds` from its top left corner.
pub open spec fn text_layout(size: Size, cells: Seq<Seq<char>>, bounds: Rect, gs: Seq<Seq<char>>) -> TextCursor
    decreases gs.len(),
{
    if gs.len() == 0 {
        TextCursor { cells, column: 0, row: 0, wrapped: false }
    } else {
        text_step(size, bounds, text_layout(size, cells, bounds, gs.drop_last()), gs.last())
    }
}

/// `cells` after a frame `n` thick is drawn just inside `r`.
pub open spec fn stroked(size: Size, cells: Seq<Seq<char>>, r: Rect, n: usize, g: Seq<char>) -> Seq<Seq<char>> {
    let top = Rect { height: n, ..r };
    let bottom = Rect { y: clamp_i64(r.y + r.height - n), height: n, ..r };
    let left = Rect { width: n, ..r };
    let right = Rect { x: clamp_i64(r.x + r.width - n), width: n, ..r };
    filled(size, filled(size, filled(size, filled(size, cells, top, g), bottom, g), left, g), right, g)
}

/// A surface after one draw operation, or the size mismatch that stops it.
pub open spec fn apply_op(s: Surface, op: DrawOp) -> Result<Surface, SizeMismatch> {
    match op {
        DrawOp::Text(r, t) => Ok(
            Surface { cells: text_layout(s.size, s.cells, r, graphemes_of(t)).cells, ..s },
        ),
        DrawOp::Fill(r, g) => Ok(Surface { cells: filled(s.size, s.cells, r, g), ..s }),
        DrawOp::Stroke(r, n, g) => Ok(Surface { cells: stroked(s.size, s.cells, r, n, g), ..s }),
        DrawOp::Paste(r, other) => if other.size.width != r.width || other.size.height != r.height {
            Err(SizeMismatch { expected: Size { width: r.width, height: r.height }, found: other.size })
        } else {
            Ok(Surface { cells: pasted(s.size, s.cells, other, r.x as int, r.y as int), ..s })
        },
    }
}

/// A surface after the operations `ops` in order: the surface when the
/// first mismatch stopped them, with that mismatch, or the final surface.
pub open spec fn run_ops(s: Surface, ops: Seq<DrawOp>) -> (Surface, Option<SizeMismatch>)
    decreases ops.len(),
{
    if ops.len() == 0 {
        (s, None)
    } else {
        let (before, failed) = run_ops(s, ops.drop_last());
        if failed is Some {
            (before, failed)
        } else {
            match apply_op(before, ops.last()) {
                Ok(after) => (after, None),
                Err(e) => (before, Some(e)),
            }
        }
    }
}

/// The result that reports `failed`.
pub open spec fn outcome(failed: Option<SizeMismatch>) -> Result<(), SizeMismatch> {
    match failed {
        Some(e) => Err(e),
        None => Ok(()),
    }
}

impl TextCanvas {
    /// Lays out text, given as graphemes, from the top left corner of
    /// `bounds`, wrapping at its width.
    pub fn draw_graphemes(&mut self, bounds: &Rect, gs: &Vec<String>)
        ensures
            final(self)@.size == old(self)@.size,
            final(self)@.cells == text_layout(old(self)@.size, old(self)@.cells, *bounds, cells_view(gs@)).cells,
    {
        let ghost start = self@.cells;
        let mut column: usize = 0;
        let mut row: usize = 0;
        let mut wrapped = false;
        let mut i: usize = 0;
        while i < gs.len()
            invariant
                i <= gs@.len(),
                column <= i,
                row <= i,
                self@.size == old(self)@.size,
                start == old(self)@.cells,
                text_layout(self@.size, start, *bounds, cells_view(gs@).take(i as int))
                    == (TextCursor { cells: self@.cells, column: column as nat, row: row as nat, wrapped }),
            decreases gs@.len() - i,
        {
            proof {
                assert(cells_view(gs@).take(i as int + 1).drop_last() == cells_view(gs@).take(i as int));
            }
            let g = gs[i].as_str();
            if line_break(g) {
                if wrapped {
                    wrapped = false;
                } else {
                    column = 0;
                    row = row + 1;
                }
            } else {
                if !blank(g) {
                    let x = bounds.x as i128 + column as i128;
                    let y = bounds.y as i128 + row as i128;
                    let size = self.size();
                    if 0 <= x && x < size.width as i128 && 0 <= y && y < size.height as i128 {
                        self.write(g, x as usize, y as usize);
                    }
                }
                if column as u128 + 1 >= bounds.width as u128 {
                    column = 0;
                    row = row + 1;
                    wrapped = true;
                } else {
                    column = column + 1;
                    wrapped = false;
                }
            }
            i = i + 1;
        }
        proof {
            assert(cells_view(gs@).take(gs@.len() as int) == cells_view(gs@));
        }
    }

    /// Lays out `text` from the top left corner of `bounds`, wrapping at its
    /// width, one grapheme cluster per cell.
    pub fn draw_text(&mut self, bounds: &Rect, text: &str)
        ensures
            final(self)@.size == old(self)@.size,
            final(self)@.cells == text_layout(old(self)@.size, old(self)@.cells, *bounds, graphemes_of(text@)).cells,
    {
        let gs = graphemes(text);
        self.draw_graphemes(bounds, &gs);
    }

    /// Draws a frame `n` thick just inside `bounds`.
    pub fn stroke_rect(&mut self, bounds: &Rect, n: usize, grapheme: &str)
        ensures
            final(self)@.size == old(self)@.size,
            final(self)@.cells == stroked(old(self)@.size, old(self)@.cells, *bounds, n, grapheme@),
    {
        self.draw_rect(&Rect { height: n, ..*bounds }, grapheme);
        let bottom = crate::rendering::clamp_wide(bounds.y as i128 + bounds.height as i128 - n as i128);
        self.draw_rect(&Rect { y: bottom, height: n, ..*bounds }, grapheme);
        self.draw_rect(&Rect { width: n, ..*bounds }, grapheme);
        let right = crate::rendering::clamp_wide(bounds.x as i128 + bounds.width as i128 - n as i128);
        self.draw_rect(&Rect { x: right, width: n, ..*bounds }, grapheme);
    }

    /// Runs draw commands in order. A surface to paste that does not match
    /// its rectangle stops the run: that mismatch is returned and the
    /// commands after it are not run.
    pub fn execute_draw_commands(&mut self, commands: &[DrawCommand]) -> (r: Result<(), SizeMismatch>)
        ensures
            final(self)@ == run_ops(old(self)@, ops_of(commands@)).0,
            r == outcome(run_ops(old(self)@, ops_of(commands@)).1),
    {
        let mut i: usize = 0;
        while i < commands.len()
            invariant
                i <= commands@.len(),
                run_ops(old(self)@, ops_of(commands@.take(i as int))) == (self@, None::<SizeMismatch>),
            decreases commands@.len() - i,
        {
            proof {
                assert(ops_of(commands@.take(i as int + 1)).drop_last() == ops_of(commands@.take(i as int)));
                assert(ops_of(commands@.take(i as int + 1)).last() == commands@[i as int]@);
            }
            let ghost before = self@;
            match &commands[i] {
                DrawCommand::Text(bounds, text) => self.draw_text(bounds, text.as_str()),
                DrawCommand::FillRect(bounds, g) => self.draw_rect(bounds, g.as_str()),
                DrawCommand::StrokeRect(bounds, n, g) => self.stroke_rect(bounds, *n, g.as_str()),
                DrawCommand::Paste(bounds, other) => {
                    let res = self.paste_canvas(other, bounds);
                    if let Err(e) = res {
                        proof {
                            let ops = ops_of(commands@);
                            assert(ops.take(i as int + 1) =~= ops_of(commands@.take(i as int + 1)));
                            assert(self@ == before);
                            assert(run_ops(old(self)@, ops.take(i as int + 1)) == (
                                before,
                                Some(e),
                            ));
                            lemma_run_stops(old(self)@, ops, i as int);
                            assert(ops.take(ops.len() as int) =~= ops);
                        }
                        return Err(e);
                    }
                },
            }
            i = i + 1;
        }
        proof {
            assert(commands@.take(commands@.len() as int) == commands@);
        }
        Ok(())
    }

    /// Renders `layout` over the whole canvas: resolves its sizing against
    /// the canvas, places it at the top left corner, and runs its commands.
    pub fn render_layout<C: LayoutContext>(&mut self, layout: &Layout, context: &C) -> (r: Result<
        (),
        SizeMismatch,
    >)
        ensures
            exists|sized| {
                &&& #[trigger] layout.resolves(
                    Rect { x: 0, y: 0, width: old(self)@.size.width, height: old(self)@.size.height },
                    context,
                    layout.context_depth(nest(context)),
                    sized,
                )
                &&& final(self)@ == run_ops(
                    old(self)@,
                    draw_ops(
                        sized,
                        sized.sizing.spec_fit(Rect { x: 0, y: 0, width: old(self)@.size.width, height: old(self)@.size.height }),
                        context,
                    ),
                ).0
                &&& r == outcome(
                    run_ops(
                        old(self)@,
                        draw_ops(
                            sized,
                            sized.sizing.spec_fit(Rect { x: 0, y: 0, width: old(self)@.size.width, height: old(self)@.size.height }),
                            context,
                        ),
                    ).1,
                )
            },
    {
        let size = self.size();
        let self_bounds = Rect::sized(size.width, size.height);
        let sized = layout.resolve_size(&self_bounds, context);
        let bounds = sized.sizing.fit_into(&self_bounds);
        let commands = sized.resolve_draw_commands(&bounds, context);
        self.execute_draw_commands(commands.as_slice())
    }
}

/// Once a mismatch stops a run, the operations after it change nothing.
proof fn lemma_run_stops(s: Surface, ops: Seq<DrawOp>, i: int)
    requires
        0 <= i < ops.len(),
        run_ops(s, ops.take(i + 1)).1 is Some,
    ensures
        run_ops(s, ops) == run_ops(s, ops.take(i + 1)),
    decreases ops.len() - i,
{
    if i + 1 < ops.len() {
        assert(ops.take(i + 2).drop_last() == ops.take(i + 1));
        assert(run_ops(s, ops.take(i + 2)) == run_ops(s, ops.take(i + 1)));
        lemma_run_stops(s, ops, i + 1);
    } else {
        assert(ops.take(i + 1) == ops);
    }
}

/// The cells of a grid `width` wide as text: row after row, with a line
/// feed between two rows.
pub open spec fn grid_text(cells: Seq<Seq<char>>, width: usize) -> Seq<char>
    decreases cells.len(),
{
    if cells.len() == 0 {
        Seq::empty()
    } else {
        let n = cells.len() - 1;
        grid_text(cells.drop_last(), width) + (if n > 0 && n % (width as int) == 0 {
            seq!['\n']
        } else {
            Seq::empty()
        }) + cells.last()
    }
}

impl TextCanvas {
    /// The canvas as text: its rows, one per line.
    pub fn to_text(&self) -> (r: String)
        ensures
            r@ == grid_text(self@.cells, self@.size.width),
    {
        proof {
            use_type_invariant(self);
        }
        let mut out = String::new();
        let n = self.contents.len();
        let w = self.size.width;
        let mut i: usize = 0;
        while i < n
            invariant
                n == self@.cells.len(),
                w == self@.size.width,
                i <= n,
                out@ == grid_text(self@.cells.take(i as int), w),
                w == 0 ==> n == 0,
            decreases n - i,
        {
            proof {
                assert(self@.cells.take(i as int + 1).drop_last() == self@.cells.take(i as int));
                assert(self@.cells.take(i as int + 1).last() == self.contents@[i as int]@);
            }
            if i > 0 && w > 0 && i % w == 0 {
                out.append("\n");
                proof {
                    reveal_strlit("\n");
                }
            }
            out.append(self.contents[i].as_str());
            proof {
                let prefix = self@.cells.take(i as int + 1);
                assert(out@ == grid_text(prefix.drop_last(), w) + (if i > 0 && (i as int) % (w as int) == 0 {
                    seq!['\n']
                } else {
                    Seq::empty()
                }) + prefix.last());
            }
            i = i + 1;
        }
        proof {
            assert(self@.cells.take(n as int) == self@.cells);
        }
        out
    }
}

/// Blank graphemes are transparent: once text is laid out, every cell holds
/// what it held before or a grapheme of the text that is not blank, so a
/// blank grapheme never overwrites what earlier drawing left.
pub proof fn lemma_blank_text_is_transparent(
    size: Size,
    cells: Seq<Seq<char>>,
    bounds: Rect,
    gs: Seq<Seq<char>>,
)
    requires
        cells.len() == size.width * size.height,
    ensures
        text_layout(size, cells, bounds, gs).cells.len() == cells.len(),
        forall|i: int|
            0 <= i < cells.len() ==> {
                let after = #[trigger] text_layout(size, cells, bounds, gs).cells[i];
                after == cells[i] || exists|k: int|
                    0 <= k < gs.len() && !is_blank(gs[k]) && after == gs[k]
            },
    decreases gs.len(),
{
    if gs.len() > 0 {
        let rest = gs.drop_last();
        lemma_blank_text_is_transparent(size, cells, bounds, rest);
        let prev = text_layout(size, cells, bounds, rest);
        let now = text_layout(size, cells, bounds, gs);
        let g = gs.last();
        assert(now == text_step(size, bounds, prev, g));
        let target = cell_at(size, bounds.x + prev.column, bounds.y + prev.row);
        if !is_line_break(g) && !is_blank(g) {
            assert(now.cells == written(size, prev.cells, g, bounds.x + prev.column, bounds.y + prev.row));
            if target is Some {
                crate::layout::geometry::lemma_grid_index(
                    bounds.x + prev.column,
                    bounds.y + prev.row,
                    size.width as int,
                    size.height as int,
                );
                assert(now.cells == prev.cells.update(target->0, g));
            } else {
                assert(now.cells == prev.cells);
            }
        } else {
            assert(now.cells == prev.cells);
        }
        assert forall|i: int| 0 <= i < cells.len() implies {
            let after = #[trigger] now.cells[i];
            after == cells[i] || exists|k: int| 0 <= k < gs.len() && !is_blank(gs[k]) && after == gs[k]
        } by {
            if now.cells[i] != prev.cells[i] {
                assert(target is Some && i == target->0);
                assert(now.cells[i] == g);
                assert(!is_blank(gs[gs.len() - 1]));
            } else if prev.cells[i] != cells[i] {
                let k = choose|k: int|
                    0 <= k < rest.len() && !is_blank(rest[k]) && prev.cells[i] == rest[k];
                assert(rest[k] == gs[k]);
            }
        }
    }
}

} // verus!
