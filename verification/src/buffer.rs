//! A fixed-size grid of glyphs with bounds-checked writes.
//!
//! The grid is modelled as a sequence of rows, each a sequence of glyphs.
//! Every write goes through [`FrameBuffer::plot`], which ignores positions
//! outside the grid, so no drawing routine can touch memory it does not own.

use vstd::prelude::*;

verus! {

/// What a cell of the grid shows.
#[derive(Clone, Copy, Debug, PartialEq, Eq, Structural)]
pub enum Glyph {
    /// Nothing drawn here.
    Blank,
    /// A projected vertex.
    Marker,
    /// Part of an edge.
    Line,
}

impl Glyph {
    /// The ASCII byte that stands for this glyph on a terminal:
    /// a space, `$` or `#`.
    pub open spec fn byte(self) -> u8 {
        match self {
            Glyph::Blank => 0x20u8,
            Glyph::Marker => 0x24u8,
            Glyph::Line => 0x23u8,
        }
    }

    /// Returns the ASCII byte for this glyph. It is always printable, so a
    /// row of glyphs is always valid text.
    pub fn to_byte(self) -> (b: u8)
        ensures
            b == self.byte(),
            0x20 <= b < 0x7f,
    {
        match self {
            Glyph::Blank => 0x20u8,
            Glyph::Marker => 0x24u8,
            Glyph::Line => 0x23u8,
        }
    }
}

/// A grid of the given size with every cell blank.
pub open spec fn blank_grid(width: nat, height: nat) -> Seq<Seq<Glyph>> {
    Seq::new(height, |y: int| Seq::new(width, |x: int| Glyph::Blank))
}

/// The grid `grid` with `glyph` written at every position `(x, y)` of
/// `region` that lies inside it. Positions outside the grid are ignored.
pub open spec fn paint(grid: Seq<Seq<Glyph>>, region: Set<(int, int)>, glyph: Glyph) -> Seq<
    Seq<Glyph>,
> {
    Seq::new(
        grid.len(),
        |y: int|
            Seq::new(
                grid[y].len(),
                |x: int|
                    if region.contains((x, y)) {
                        glyph
                    } else {
                        grid[y][x]
                    },
            ),
    )
}

/// The union of the regions `parts(lo)`, `parts(lo + 1)` and so on up to,
/// but not including, `parts(hi)`.
pub open spec fn union_of(parts: spec_fn(int) -> Set<(int, int)>, lo: int, hi: int) -> Set<
    (int, int),
> {
    Set::new(|p: (int, int)| exists|i: int| lo <= i < hi && (#[trigger] parts(i)).contains(p))
}

/// A union of no regions is empty, and a union grows by one region when
/// its upper end moves up by one.
pub proof fn lemma_union_step(parts: spec_fn(int) -> Set<(int, int)>, lo: int, hi: int)
    requires
        lo <= hi,
    ensures
        union_of(parts, lo, lo) == Set::<(int, int)>::empty(),
        union_of(parts, lo, hi + 1) == union_of(parts, lo, hi).union(parts(hi)),
{
    assert(union_of(parts, lo, lo) =~= Set::<(int, int)>::empty());
    let more = union_of(parts, lo, hi + 1);
    let less = union_of(parts, lo, hi).union(parts(hi));
    assert forall|p: (int, int)| more.contains(p) <==> less.contains(p) by {
        if more.contains(p) {
            let i = choose|i: int| lo <= i < hi + 1 && (#[trigger] parts(i)).contains(p);
            if i < hi {
                assert(union_of(parts, lo, hi).contains(p));
            }
        }
        if union_of(parts, lo, hi).contains(p) {
            let i = choose|i: int| lo <= i < hi && (#[trigger] parts(i)).contains(p);
            assert(lo <= i < hi + 1 && parts(i).contains(p));
        }
        if parts(hi).contains(p) {
            assert(more.contains(p));
        }
    }
    assert(more =~= less);
}

/// Painting nothing leaves a grid as it was.
pub proof fn lemma_paint_nothing(grid: Seq<Seq<Glyph>>, glyph: Glyph)
    ensures
        paint(grid, Set::empty(), glyph) == grid,
{
    assert(paint(grid, Set::empty(), glyph) =~~= grid);
}

/// Painting one region and then another with the same glyph is painting
/// their union once, so the order of strokes of one glyph does not matter.
pub proof fn lemma_paint_union(
    grid: Seq<Seq<Glyph>>,
    first: Set<(int, int)>,
    second: Set<(int, int)>,
    glyph: Glyph,
)
    ensures
        paint(paint(grid, first, glyph), second, glyph) == paint(grid, first.union(second), glyph),
{
    assert(paint(paint(grid, first, glyph), second, glyph) =~~= paint(
        grid,
        first.union(second),
        glyph,
    ));
}

/// Only the part of a region that lies inside the grid matters: two
/// regions that hold the same cells of the grid paint it alike.
pub proof fn lemma_paint_inside(
    grid: Seq<Seq<Glyph>>,
    first: Set<(int, int)>,
    second: Set<(int, int)>,
    glyph: Glyph,
)
    requires
        forall|x: int, y: int|
            0 <= y < grid.len() && 0 <= x < grid[y].len() ==> (first.contains((x, y))
                <==> second.contains((x, y))),
    ensures
        paint(grid, first, glyph) == paint(grid, second, glyph),
{
    assert(paint(grid, first, glyph) =~~= paint(grid, second, glyph));
}

/// Painting keeps the shape of the grid and changes only cells of the
/// region.
pub proof fn lemma_paint_cells(grid: Seq<Seq<Glyph>>, region: Set<(int, int)>, glyph: Glyph)
    ensures
        paint(grid, region, glyph).len() == grid.len(),
        forall|y: int|
            0 <= y < grid.len() ==> (#[trigger] paint(grid, region, glyph)[y]).len()
                == grid[y].len(),
        forall|x: int, y: int|
            0 <= y < grid.len() && 0 <= x < grid[y].len() ==> #[trigger] paint(
                grid,
                region,
                glyph,
            )[y][x] == if region.contains((x, y)) {
                glyph
            } else {
                grid[y][x]
            },
{
}

/// The bytes that a row of glyphs is printed as.
pub open spec fn row_text(row: Seq<Glyph>) -> Seq<u8> {
    Seq::new(row.len(), |x: int| row[x].byte())
}

/// A character grid of fixed width and height, stored row by row.
pub struct FrameBuffer {
    width: u16,
    height: u16,
    cells: Vec<Glyph>,
}

impl View for FrameBuffer {
    type V = Seq<Seq<Glyph>>;

    /// The rows of the grid from top to bottom; `self@[y][x]` is the glyph
    /// in column `x` of row `y`.
    closed spec fn view(&self) -> Seq<Seq<Glyph>> {
        Seq::new(
            self.height as nat,
            |y: int| Seq::new(self.width as nat, |x: int| self.cells@[y * self.width + x]),
        )
    }
}

impl FrameBuffer {
    /// The storage holds exactly one glyph per cell.
    pub closed spec fn wf(&self) -> bool {
        self.cells@.len() == self.width * self.height
    }

    /// Number of columns.
    pub closed spec fn cols(&self) -> nat {
        self.width as nat
    }

    /// Number of rows.
    pub closed spec fn rows(&self) -> nat {
        self.height as nat
    }

    /// Whether `(x, y)` names a cell of the grid.
    pub open spec fn in_bounds(&self, x: int, y: int) -> bool {
        0 <= x < self.cols() && 0 <= y < self.rows()
    }

    /// The view has `rows()` rows of `cols()` glyphs each.
    pub proof fn lemma_shape(&self)
        ensures
            self@.len() == self.rows(),
            forall|y: int| 0 <= y < self.rows() ==> (#[trigger] self@[y]).len() == self.cols(),
    {
    }

    /// A grid of any size fits the address space.
    proof fn lemma_capacity(width: u16, height: u16)
        by (nonlinear_arith)
        ensures
            0 <= width * height <= 0xffff_ffff,
    {
    }

    /// A cell's place in the row-major storage lies inside the storage.
    proof fn lemma_index(width: int, height: int, x: int, y: int)
        by (nonlinear_arith)
        requires
            0 <= x < width,
            0 <= y < height,
        ensures
            0 <= y * width,
            y * width + x < width * height,
    {
    }

    /// A buffer whose storage holds nothing but blanks shows the blank
    /// grid.
    proof fn lemma_all_blank(&self)
        requires
            self.wf(),
            forall|i: int| 0 <= i < self.cells@.len() ==> self.cells@[i] == Glyph::Blank,
        ensures
            self@ == blank_grid(self.cols(), self.rows()),
    {
        let width = self.width;
        let height = self.height;
        assert forall|y: int| 0 <= y < height implies #[trigger] self@[y] == Seq::new(
            width as nat,
            |x: int| Glyph::Blank,
        ) by {
            assert forall|x: int| 0 <= x < width implies self@[y][x] == Glyph::Blank by {
                Self::lemma_index(width as int, height as int, x, y);
            }
            assert(self@[y] =~= Seq::new(width as nat, |x: int| Glyph::Blank));
        }
        assert(self@ =~= blank_grid(width as nat, height as nat));
    }

    /// Creates a grid of `width` columns and `height` rows, all blank.
    pub fn new(width: u16, height: u16) -> (buf: Self)
        ensures
            buf.wf(),
            buf.cols() == width,
            buf.rows() == height,
            buf@ == blank_grid(width as nat, height as nat),
    {
        proof {
            Self::lemma_capacity(width, height);
        }
        let total: usize = width as usize * height as usize;
        let mut cells: Vec<Glyph> = Vec::new();
        while cells.len() < total
            invariant
                cells@.len() <= total,
                forall|i: int| 0 <= i < cells@.len() ==> cells@[i] == Glyph::Blank,
            decreases total - cells@.len(),
        {
            cells.push(Glyph::Blank);
        }
        let buf = FrameBuffer { width, height, cells };
        proof {
            buf.lemma_all_blank();
        }
        buf
    }

    /// Returns the number of columns.
    pub fn width(&self) -> (w: u16)
        ensures
            w == self.cols(),
    {
        self.width
    }

    /// Returns the number of rows.
    pub fn height(&self) -> (h: u16)
        ensures
            h == self.rows(),
    {
        self.height
    }

    /// Resets every cell to blank, keeping the size.
    pub fn clear(&mut self)
        requires
            old(self).wf(),
        ensures
            final(self).wf(),
            final(self).cols() == old(self).cols(),
            final(self).rows() == old(self).rows(),
            final(self)@ == blank_grid(old(self).cols(), old(self).rows()),
    {
        let total: usize = self.cells.len();
        let mut i: usize = 0;
        while i < total
            invariant
                i <= total,
                self.cells@.len() == total,
                self.width == old(self).width,
                self.height == old(self).height,
                forall|j: int| 0 <= j < i ==> self.cells@[j] == Glyph::Blank,
            decreases total - i,
        {
            self.cells.set(i, Glyph::Blank);
            i += 1;
        }
        proof {
            self.lemma_all_blank();
        }
    }

    /// Reads the glyph at column `x` of row `y`, or `None` when the position
    /// is outside the grid.
    pub fn get(&self, x: i32, y: i32) -> (g: Option<Glyph>)
        requires
            self.wf(),
        ensures
            g == if self.in_bounds(x as int, y as int) {
                Some(self@[y as int][x as int])
            } else {
                None
            },
    {
        if x < 0 || y < 0 {
            return None;
        }
        let col: usize = x as usize;
        let row: usize = y as usize;
        if col >= self.width as usize || row >= self.height as usize {
            return None;
        }
        proof {
            Self::lemma_capacity(self.width, self.height);
            Self::lemma_index(self.width as int, self.height as int, col as int, row as int);
        }
        Some(self.cells[row * self.width as usize + col])
    }

    /// Writes `glyph` at column `x` of row `y`. A position outside the grid
    /// is ignored and the grid is left as it was.
    pub fn plot(&mut self, x: i32, y: i32, glyph: Glyph)
        requires
            old(self).wf(),
        ensures
            final(self).wf(),
            final(self).cols() == old(self).cols(),
            final(self).rows() == old(self).rows(),
            final(self)@ == paint(old(self)@, set![(x as int, y as int)], glyph),
    {
        let ghost region: Set<(int, int)> = set![(x as int, y as int)];
        if x < 0 || y < 0 || x as usize >= self.width as usize || y as usize
            >= self.height as usize {
            proof {
                assert forall|r: int| 0 <= r < self.height implies #[trigger] self@[r] == paint(
                    self@,
                    region,
                    glyph,
                )[r] by {
                    assert(self@[r] =~= paint(self@, region, glyph)[r]);
                }
                assert(self@ =~= paint(self@, region, glyph));
            }
            return ;
        }
        let col: usize = x as usize;
        let row: usize = y as usize;
        let width: usize = self.width as usize;
        proof {
            Self::lemma_capacity(self.width, self.height);
            Self::lemma_index(width as int, self.height as int, col as int, row as int);
        }
        let at: usize = row * width + col;
        self.cells.set(at, glyph);
        proof {
            let before = old(self)@;
            let after = self@;
            let height = self.height;
            assert forall|r: int| 0 <= r < height implies #[trigger] after[r] == paint(
                before,
                region,
                glyph,
            )[r] by {
                assert forall|c: int| 0 <= c < width implies after[r][c] == paint(
                    before,
                    region,
                    glyph,
                )[r][c] by {
                    Self::lemma_index(width as int, height as int, c, r);
                    Self::lemma_distinct(width as int, c, r, col as int, row as int);
                }
                assert(after[r] =~= paint(before, region, glyph)[r]);
            }
            assert(after =~= paint(before, region, glyph));
        }
    }

    /// Two cells share a place in the storage only if they are the same cell.
    proof fn lemma_distinct(width: int, x1: int, y1: int, x2: int, y2: int)
        by (nonlinear_arith)
        requires
            0 <= x1 < width,
            0 <= x2 < width,
        ensures
            y1 * width + x1 == y2 * width + x2 ==> x1 == x2 && y1 == y2,
    {
    }

    /// Returns the bytes of row `y` for printing, one printable ASCII byte
    /// per cell, or `None` when the grid has no such row.
    pub fn row(&self, y: u16) -> (text: Option<Vec<u8>>)
        requires
            self.wf(),
        ensures
            y < self.rows() ==> text.is_some() && text.unwrap()@ == row_text(self@[y as int]),
            y >= self.rows() ==> text.is_none(),
    {
        if y >= self.height {
            return None;
        }
        let mut text: Vec<u8> = Vec::new();
        let mut x: u16 = 0;
        while x < self.width
            invariant
                self.wf(),
                y < self.height,
                x <= self.width,
                text@.len() == x,
                forall|c: int| 0 <= c < x ==> text@[c] == self@[y as int][c].byte(),
            decreases self.width - x,
        {
            proof {
                Self::lemma_capacity(self.width, self.height);
                Self::lemma_index(self.width as int, self.height as int, x as int, y as int);
            }
            let glyph = self.cells[y as usize * self.width as usize + x as usize];
            text.push(glyph.to_byte());
            x += 1;
        }
        assert(text@ =~= row_text(self@[y as int]));
        Some(text)
    }
}

} // verus!
