use vstd::prelude::*;
use vstd::bytes::{
    lemma_auto_spec_u32_to_from_le_bytes, spec_u32_from_le_bytes, spec_u32_to_le_bytes,
    u32_from_le_bytes, u32_to_le_bytes,
};
use vstd::slice::slice_subrange;

verus! {

/// Bytes before the first cell: two `u32` dimensions and five `f32` bounds.
pub const HEADER_LEN: usize = 28;

/// Workspace bounds and cell edge, each the bit pattern of an IEEE-754
/// single-precision number as it stands in the grid record.
#[derive(Clone, Copy, Debug, PartialEq, Eq, Structural)]
pub struct FloatBounds {
    pub min_x: u32,
    pub max_x: u32,
    pub min_y: u32,
    pub max_y: u32,
    pub step_size: u32,
}

/// The read-only occupancy grid loaded at run time.
///
/// `grid` is row-major: cell `(x, y)` is `grid[y * width + x]`, `true` when
/// obstructed.
#[derive(Debug)]
pub struct CollisionGrid {
    pub width: u32,
    pub height: u32,
    pub bounds: FloatBounds,
    pub grid: Vec<bool>,
}

/// What a grid holds, with its cells as a sequence.
pub struct GridView {
    pub width: u32,
    pub height: u32,
    pub bounds: FloatBounds,
    pub cells: Seq<bool>,
}

impl View for CollisionGrid {
    type V = GridView;

    open spec fn view(&self) -> GridView {
        GridView { width: self.width, height: self.height, bounds: self.bounds, cells: self.grid@ }
    }
}

/// Why a grid record could not be read.
#[derive(Clone, Copy, Debug, PartialEq, Eq, Structural)]
pub enum DecodeError {
    /// Fewer bytes than the header declares.
    Truncated,
    /// The bytes could not be read from storage at all.
    Io,
}

/// A grid whose cell sequence has the declared `width × height` length.
pub open spec fn grid_wf(g: GridView) -> bool {
    g.cells.len() == g.width * g.height
}

/// Index of cell `(x, y)` in the row-major cell sequence.
pub open spec fn cell_index(width: int, x: int, y: int) -> int {
    y * width + x
}

/// The fixed-layout header: dimensions, then bounds, little-endian.
pub open spec fn header_bytes(g: GridView) -> Seq<u8> {
    spec_u32_to_le_bytes(g.width) + spec_u32_to_le_bytes(g.height) + spec_u32_to_le_bytes(
        g.bounds.min_x,
    ) + spec_u32_to_le_bytes(g.bounds.max_x) + spec_u32_to_le_bytes(g.bounds.min_y)
        + spec_u32_to_le_bytes(g.bounds.max_y) + spec_u32_to_le_bytes(g.bounds.step_size)
}

/// One byte per cell: 1 when obstructed, 0 when free.
pub open spec fn cell_bytes(cells: Seq<bool>) -> Seq<u8> {
    cells.map_values(|c: bool| if c { 1u8 } else { 0u8 })
}

/// The record written for a grid.
pub open spec fn encoding(g: GridView) -> Seq<u8> {
    header_bytes(g) + cell_bytes(g.cells)
}

/// The `k`-th little-endian `u32` word of a record.
pub open spec fn word(b: Seq<u8>, k: int) -> u32 {
    spec_u32_from_le_bytes(b.subrange(4 * k, 4 * k + 4))
}

/// Number of cell bytes that a record's header declares.
pub open spec fn declared_cells(b: Seq<u8>) -> int {
    word(b, 0) * word(b, 1)
}

/// The grid a record holds, or `None` when it is shorter than its header
/// declares. Bytes after the declared cells are ignored; any nonzero cell
/// byte reads as obstructed.
pub open spec fn decoding(b: Seq<u8>) -> Option<GridView> {
    if b.len() < HEADER_LEN || b.len() < HEADER_LEN + declared_cells(b) {
        None
    } else {
        Some(
            GridView {
                width: word(b, 0),
                height: word(b, 1),
                bounds: FloatBounds {
                    min_x: word(b, 2),
                    max_x: word(b, 3),
                    min_y: word(b, 4),
                    max_y: word(b, 5),
                    step_size: word(b, 6),
                },
                cells: Seq::new(declared_cells(b) as nat, |i: int| b[HEADER_LEN + i] != 0u8),
            },
        )
    }
}

/// Decoding the record of a well-formed grid gives back that grid, every
/// dimension, bound bit pattern and cell included.
pub proof fn lemma_round_trip(g: GridView)
    requires
        grid_wf(g),
    ensures
        decoding(encoding(g)) == Some(g),
{
    lemma_auto_spec_u32_to_from_le_bytes();
    let b = encoding(g);
    let h = header_bytes(g);
    assert(h.len() == HEADER_LEN);
    assert(b.subrange(0, 4) =~= spec_u32_to_le_bytes(g.width));
    assert(b.subrange(4, 8) =~= spec_u32_to_le_bytes(g.height));
    assert(b.subrange(8, 12) =~= spec_u32_to_le_bytes(g.bounds.min_x));
    assert(b.subrange(12, 16) =~= spec_u32_to_le_bytes(g.bounds.max_x));
    assert(b.subrange(16, 20) =~= spec_u32_to_le_bytes(g.bounds.min_y));
    assert(b.subrange(20, 24) =~= spec_u32_to_le_bytes(g.bounds.max_y));
    assert(b.subrange(24, 28) =~= spec_u32_to_le_bytes(g.bounds.step_size));
    assert(declared_cells(b) == g.cells.len());
    let d = decoding(b).unwrap();
    assert(d.cells =~= g.cells);
    assert(d.bounds == g.bounds);
}

impl CollisionGrid {
    /// Whether the cell sequence has the declared `width × height` length.
    pub open spec fn wf(&self) -> bool {
        grid_wf(self@)
    }

    /// A grid of the given dimensions and bounds over the given cells.
    pub fn new(width: u32, height: u32, bounds: FloatBounds, grid: Vec<bool>) -> (r: CollisionGrid)
        requires
            grid@.len() == width * height,
        ensures
            r.wf(),
            r@ == (GridView { width, height, bounds, cells: grid@ }),
    {
        CollisionGrid { width, height, bounds, grid }
    }

    /// The fixed-layout record of this grid: a 28-byte header, then one byte
    /// per cell in row-major order.
    pub fn encode(&self) -> (r: Vec<u8>)
        requires
            self.wf(),
        ensures
            r@ == encoding(self@),
    {
        let mut out = u32_to_le_bytes(self.width);
        let mut part = u32_to_le_bytes(self.height);
        out.append(&mut part);
        let mut part = u32_to_le_bytes(self.bounds.min_x);
        out.append(&mut part);
        let mut part = u32_to_le_bytes(self.bounds.max_x);
        out.append(&mut part);
        let mut part = u32_to_le_bytes(self.bounds.min_y);
        out.append(&mut part);
        let mut part = u32_to_le_bytes(self.bounds.max_y);
        out.append(&mut part);
        let mut part = u32_to_le_bytes(self.bounds.step_size);
        out.append(&mut part);
        assert(out@ =~= header_bytes(self@));
        let n = self.grid.len();
        let mut i: usize = 0;
        while i < n
            invariant
                n == self.grid@.len(),
                i <= n,
                out@ =~= header_bytes(self@) + cell_bytes(self.grid@.subrange(0, i as int)),
            decreases n - i,
        {
            let byte: u8 = if self.grid[i] {
                1
            } else {
                0
            };
            out.push(byte);
            i = i + 1;
            assert(self.grid@.subrange(0, i as int) =~= self.grid@.subrange(0, i - 1).push(
                self.grid@[i - 1],
            ));
        }
        assert(self.grid@.subrange(0, n as int) =~= self.grid@);
        out
    }

    /// Reads a grid record. Fails with `Truncated` exactly when the bytes
    /// are fewer than the header plus the cells it declares; never reads
    /// past the end of `b`.
    pub fn decode(b: &[u8]) -> (r: Result<CollisionGrid, DecodeError>)
        ensures
            match r {
                Ok(g) => g.wf() && decoding(b@) == Some(g@),
                Err(e) => e == DecodeError::Truncated && decoding(b@).is_none(),
            },
    {
        if b.len() < HEADER_LEN {
            return Err(DecodeError::Truncated);
        }
        let width = u32_from_le_bytes(slice_subrange(b, 0, 4));
        let height = u32_from_le_bytes(slice_subrange(b, 4, 8));
        let min_x = u32_from_le_bytes(slice_subrange(b, 8, 12));
        let max_x = u32_from_le_bytes(slice_subrange(b, 12, 16));
        let min_y = u32_from_le_bytes(slice_subrange(b, 16, 20));
        let max_y = u32_from_le_bytes(slice_subrange(b, 20, 24));
        let step_size = u32_from_le_bytes(slice_subrange(b, 24, 28));
        assert(width == word(b@, 0));
        assert(height == word(b@, 1));
        proof {
            assert(width * height <= u32::MAX * u32::MAX) by (nonlinear_arith)
                requires
                    width <= u32::MAX,
                    height <= u32::MAX,
            ;
        }
        let count: u64 = width as u64 * height as u64;
        let available: u64 = (b.len() - HEADER_LEN) as u64;
        if available < count {
            return Err(DecodeError::Truncated);
        }
        let n = count as usize;
        let mut grid: Vec<bool> = Vec::with_capacity(n);
        let mut i: usize = 0;
        while i < n
            invariant
                n == width * height,
                HEADER_LEN + n <= b@.len(),
                b@.len() <= usize::MAX,
                i <= n,
                grid@.len() == i,
                forall|k: int| 0 <= k < i ==> grid@[k] == (b@[HEADER_LEN + k] != 0u8),
            decreases n - i,
        {
            grid.push(b[HEADER_LEN + i] != 0);
            i = i + 1;
        }
        let bounds = FloatBounds { min_x, max_x, min_y, max_y, step_size };
        let g = CollisionGrid { width, height, bounds, grid };
        assert(g@.cells =~= decoding(b@).unwrap().cells);
        Ok(g)
    }

    /// Whether cell `(x, y)` is obstructed.
    pub fn is_obstructed(&self, x: u32, y: u32) -> (r: bool)
        requires
            self.wf(),
            x < self.width,
            y < self.height,
        ensures
            r == self@.cells[cell_index(self.width as int, x as int, y as int)],
    {
        let i = self.index_of(x, y);
        self.grid[i]
    }

    fn index_of(&self, x: u32, y: u32) -> (i: usize)
        requires
            self.wf(),
            x < self.width,
            y < self.height,
        ensures
            i == cell_index(self.width as int, x as int, y as int),
            i < self.grid@.len(),
    {
        proof {
            assert(y * self.width + x < self.width * self.height && y * self.width <= y
                * self.width + x) by (nonlinear_arith)
                requires
                    x < self.width,
                    y < self.height,
            ;
        }
        let n = self.grid.len();
        assert(n == self.width * self.height);
        y as usize * self.width as usize + x as usize
    }

    /// Whether cell indices name a sampled, unobstructed cell. Indices
    /// outside `[0, width) × [0, height)` are never free, whatever the
    /// cells hold.
    pub fn is_free(&self, x: i64, y: i64) -> (r: bool)
        requires
            self.wf(),
        ensures
            r == cell_free(self@, x as int, y as int),
    {
        if x < 0 || y < 0 || x >= self.width as i64 || y >= self.height as i64 {
            false
        } else {
            !self.is_obstructed(x as u32, y as u32)
        }
    }
}

/// Cell `(x, y)` lies inside the grid and is not obstructed.
pub open spec fn cell_free(g: GridView, x: int, y: int) -> bool {
    0 <= x < g.width && 0 <= y < g.height && !g.cells[cell_index(g.width as int, x, y)]
}

/// A cell outside the grid's index range is never free, whatever the grid
/// holds.
pub proof fn lemma_outside_never_free(g: GridView, x: int, y: int)
    requires
        !(0 <= x < g.width && 0 <= y < g.height),
    ensures
        !cell_free(g, x, y),
{
}

/// With no grid loaded the obstruction state is unknown, so every cell is
/// refused.
pub fn is_free_in(grid: Option<&CollisionGrid>, x: i64, y: i64) -> (r: bool)
    requires
        grid matches Some(g) ==> g.wf(),
    ensures
        r == match grid {
            Some(g) => cell_free(g@, x as int, y as int),
            None => false,
        },
{
    match grid {
        Some(g) => g.is_free(x, y),
        None => false,
    }
}

} // verus!
