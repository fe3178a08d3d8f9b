use vstd::prelude::*;
use crate::codec::{CollisionGrid, FloatBounds, GridView};

verus! {

// Lengths in the sweep are counted in hundredths of a world unit.
/// Length of the arm from its pivot to its tip.
pub const ARM_LENGTH: i32 = 3937;

/// Edge of one grid cell.
pub const GRID_RESOLUTION: i32 = 200;

/// Lowest pivot height that the elevator reaches.
pub const ELEVATOR_MIN: i32 = -1365;

/// Highest pivot height that the elevator reaches.
pub const ELEVATOR_MAX: i32 = 3175;

/// Whether a sweep has more samples to take.
#[derive(Clone, Copy, Debug, PartialEq, Eq, Structural)]
pub enum BuildStatus {
    InProgress,
    Complete,
}

/// A grid sweep in progress: the bounds it covers, the sample it stands at,
/// and the cells marked so far.
///
/// Samples run row by row from `(min_x, min_y)`, `step_size` apart, while
/// they stay within `max_x` and `max_y`. `collision_grid` is row-major:
/// cell `(x, y)` is `collision_grid[y * width + x]`, `true` when obstructed.
#[derive(Debug)]
pub struct GridState {
    pub current_x: i64,
    pub current_y: i64,
    pub step_size: i64,
    pub min_x: i64,
    pub max_x: i64,
    pub min_y: i64,
    pub max_y: i64,
    pub completed: bool,
    pub width: u32,
    pub height: u32,
    pub collision_grid: Vec<bool>,
}

/// What a sweep holds, with its cells as a sequence.
pub struct SweepView {
    pub current_x: int,
    pub current_y: int,
    pub step_size: int,
    pub min_x: int,
    pub max_x: int,
    pub min_y: int,
    pub max_y: int,
    pub completed: bool,
    pub width: int,
    pub height: int,
    pub cells: Seq<bool>,
}

impl View for GridState {
    type V = SweepView;

    open spec fn view(&self) -> SweepView {
        SweepView {
            current_x: self.current_x as int,
            current_y: self.current_y as int,
            step_size: self.step_size as int,
            min_x: self.min_x as int,
            max_x: self.max_x as int,
            min_y: self.min_y as int,
            max_y: self.max_y as int,
            completed: self.completed,
            width: self.width as int,
            height: self.height as int,
            cells: self.collision_grid@,
        }
    }
}

/// Cells needed along one axis: `ceil((max - min) / step) + 1`.
pub open spec fn span_cells(min: int, max: int, step: int) -> int {
    (max - min + step - 1) / step + 1
}

/// Bounds and step that a sweep can be built over: the step is positive,
/// each range is nonempty, and all of them are 32-bit values.
pub open spec fn valid_bounds(min_x: int, max_x: int, min_y: int, max_y: int, step: int) -> bool {
    &&& 0 < step <= i32::MAX
    &&& i32::MIN <= min_x <= max_x <= i32::MAX
    &&& i32::MIN <= min_y <= max_y <= i32::MAX
}

/// The dimensions of such bounds fit a grid record and memory.
pub open spec fn dims_fit(min_x: int, max_x: int, min_y: int, max_y: int, step: int) -> bool {
    &&& span_cells(min_x, max_x, step) <= u32::MAX
    &&& span_cells(min_y, max_y, step) <= u32::MAX
    &&& span_cells(min_x, max_x, step) * span_cells(min_y, max_y, step) <= usize::MAX
}

/// The sweep invariant: dimensions follow the bounds, the cell sequence has
/// `width × height` entries, and the cursor lies within the bounds (the row
/// may have run one step past `max_y` once the sweep is complete).
pub open spec fn sweep_wf(s: SweepView) -> bool {
    &&& valid_bounds(s.min_x, s.max_x, s.min_y, s.max_y, s.step_size)
    &&& s.width == span_cells(s.min_x, s.max_x, s.step_size)
    &&& s.height == span_cells(s.min_y, s.max_y, s.step_size)
    &&& dims_fit(s.min_x, s.max_x, s.min_y, s.max_y, s.step_size)
    &&& s.cells.len() == s.width * s.height
    &&& s.min_x <= s.current_x <= s.max_x
    &&& s.min_y <= s.current_y
    &&& (s.current_x - s.min_x) % s.step_size == 0
    &&& (s.current_y - s.min_y) % s.step_size == 0
    &&& if s.completed {
        s.current_y <= s.max_y + s.step_size
    } else {
        s.current_y <= s.max_y
    }
}

/// The cell holding world point `(x, y)`: `floor((p - min) / step)` on each
/// axis, when both fall within `[0, width) × [0, height)`.
pub open spec fn grid_indices(s: SweepView, x: int, y: int) -> Option<(int, int)> {
    let ix = (x - s.min_x) / s.step_size;
    let iy = (y - s.min_y) / s.step_size;
    if 0 <= ix < s.width && 0 <= iy < s.height {
        Some((ix, iy))
    } else {
        None
    }
}

/// The cells after marking the one that holds `(x, y)`; unchanged when no
/// cell holds it.
pub open spec fn marked_cells(s: SweepView, x: int, y: int) -> Seq<bool> {
    match grid_indices(s, x, y) {
        Some((ix, iy)) => s.cells.update(iy * s.width + ix, true),
        None => s.cells,
    }
}

/// The sweep after the sample at its cursor: the cell is marked when the
/// sample was obstructed, and the cursor moves one step along the row, or
/// to the start of the next row past `max_x`; the sweep is complete once
/// the next row lies past `max_y`.
pub open spec fn after_sample(s: SweepView, obstructed: bool) -> SweepView {
    let cells = if obstructed {
        marked_cells(s, s.current_x, s.current_y)
    } else {
        s.cells
    };
    let nx = s.current_x + s.step_size;
    if nx > s.max_x {
        let ny = s.current_y + s.step_size;
        SweepView { current_x: s.min_x, current_y: ny, completed: ny > s.max_y, cells, ..s }
    } else {
        SweepView { current_x: nx, cells, ..s }
    }
}

/// The sweep after a run of samples with the given outcomes; samples that
/// arrive after completion change nothing.
pub open spec fn sweep(s: SweepView, outcomes: Seq<bool>) -> SweepView
    decreases outcomes.len(),
{
    if outcomes.len() == 0 || s.completed {
        s
    } else {
        sweep(after_sample(s, outcomes[0]), outcomes.drop_first())
    }
}

/// A sweep keeps its invariant from one sample to the next.
pub proof fn lemma_after_sample_wf(s: SweepView, obstructed: bool)
    requires
        sweep_wf(s),
        !s.completed,
    ensures
        sweep_wf(after_sample(s, obstructed)),
        forall|i: int|
            0 <= i < s.cells.len() && #[trigger] s.cells[i] ==> after_sample(s, obstructed).cells[i],
{
    lemma_marked_cells(s, s.current_x, s.current_y);
    lemma_multiple_step(s.current_x - s.min_x, s.max_x - s.min_x, s.step_size);
    lemma_multiple_step(s.current_y - s.min_y, s.max_y - s.min_y, s.step_size);
}

/// Marking changes one cell at most, and only from free to obstructed.
pub proof fn lemma_marked_cells(s: SweepView, x: int, y: int)
    requires
        sweep_wf(s),
    ensures
        marked_cells(s, x, y).len() == s.cells.len(),
        forall|i: int|
            0 <= i < s.cells.len() && #[trigger] s.cells[i] ==> marked_cells(s, x, y)[i],
{
    if let Some((ix, iy)) = grid_indices(s, x, y) {
        let w = s.width;
        assert(0 <= iy * w + ix < w * s.height) by (nonlinear_arith)
            requires
                0 <= ix < w,
                0 <= iy < s.height,
        ;
    }
}

/// Sample points along one axis: `floor((max - min) / step) + 1`.
pub open spec fn span_samples(min: int, max: int, step: int) -> int {
    (max - min) / step + 1
}

/// Samples that a sweep has yet to take: the rest of the current row and
/// every row above it.
pub open spec fn samples_left(s: SweepView) -> int {
    if s.completed {
        0
    } else {
        let cols = span_samples(s.min_x, s.max_x, s.step_size);
        let rows = span_samples(s.min_y, s.max_y, s.step_size);
        let c = (s.current_x - s.min_x) / s.step_size;
        let r = (s.current_y - s.min_y) / s.step_size;
        (rows - 1 - r) * cols + (cols - c)
    }
}

/// A new sweep takes one sample per point of the bound rectangle, row by
/// row.
pub proof fn lemma_samples_at_start(s: SweepView)
    requires
        sweep_wf(s),
        !s.completed,
        s.current_x == s.min_x,
        s.current_y == s.min_y,
    ensures
        samples_left(s) == span_samples(s.min_x, s.max_x, s.step_size) * span_samples(
            s.min_y,
            s.max_y,
            s.step_size,
        ),
{
    let cols = span_samples(s.min_x, s.max_x, s.step_size);
    let rows = span_samples(s.min_y, s.max_y, s.step_size);
    assert((rows - 1) * cols + cols == rows * cols) by (nonlinear_arith);
}

/// Each sample brings the sweep one sample nearer completion, and it is
/// complete exactly when none is left: it covers the whole rectangle and
/// stops there.
pub proof fn lemma_sample_counts_down(s: SweepView, obstructed: bool)
    requires
        sweep_wf(s),
        !s.completed,
    ensures
        samples_left(after_sample(s, obstructed)) == samples_left(s) - 1,
        after_sample(s, obstructed).completed <==> samples_left(s) == 1,
{
    let step = s.step_size;
    let cols = span_samples(s.min_x, s.max_x, step);
    let rows = span_samples(s.min_y, s.max_y, step);
    let dx = s.current_x - s.min_x;
    let dy = s.current_y - s.min_y;
    let c = dx / step;
    let r = dy / step;
    let sx = s.max_x - s.min_x;
    let sy = s.max_y - s.min_y;
    lemma_multiple_step(dx, sx, step);
    lemma_multiple_step(dy, sy, step);
    assert(c < cols && r < rows);
    assert(0 <= c && 0 <= r);
    let t = after_sample(s, obstructed);
    if dx + step > sx {
        assert(c == cols - 1);
        assert(t.current_x == s.min_x);
        assert((t.current_x - s.min_x) / step == 0);
        if dy + step > sy {
            assert(r == rows - 1);
            assert((rows - 1 - r) * cols == 0) by (nonlinear_arith)
                requires
                    r == rows - 1,
            ;
            assert(samples_left(s) == 1);
        } else {
            assert((t.current_y - s.min_y) / step == r + 1);
            assert(r + 1 < rows);
            assert((rows - 1 - r) * cols + 1 == (rows - 1 - (r + 1)) * cols + cols + 1)
                by (nonlinear_arith);
            assert((rows - 1 - r) * cols >= cols) by (nonlinear_arith)
                requires
                    r + 1 < rows,
                    cols >= 1,
            ;
        }
    } else {
        assert((t.current_x - s.min_x) / step == c + 1);
        assert((rows - 1 - r) * cols >= 0) by (nonlinear_arith)
            requires
                r < rows,
                cols >= 1,
        ;
    }
}

/// For an offset `d` that is a multiple of `step` within a span: the next
/// multiple has the next quotient, and it passes the span exactly when `d`
/// is the last multiple.
proof fn lemma_multiple_step(d: int, span: int, step: int)
    requires
        0 <= d <= span,
        0 < step,
        d % step == 0,
    ensures
        0 <= d / step <= span / step,
        (d + step) / step == d / step + 1,
        (d + step) % step == 0,
        d + step > span <==> d / step == span / step,
        0int / step == 0,
        0int % step == 0,
{
    assert(0 <= d / step <= span / step) by (nonlinear_arith)
        requires
            0 <= d <= span,
            0 < step,
    ;
    vstd::arithmetic::div_mod::lemma_fundamental_div_mod(d, step);
    vstd::arithmetic::div_mod::lemma_fundamental_div_mod(span, step);
    let q = d / step;
    assert(d == step * q);
    vstd::arithmetic::div_mod::lemma_div_multiples_vanish_fancy(q + 1, 0, step);
    vstd::arithmetic::div_mod::lemma_mod_multiples_basic(q + 1, step);
    vstd::arithmetic::div_mod::lemma_mod_multiples_basic(0, step);
    vstd::arithmetic::div_mod::lemma_div_multiples_vanish_fancy(0, 0, step);
    assert((q + 1) * step == step * (q + 1)) by (nonlinear_arith);
    assert(step * (q + 1) == d + step) by (nonlinear_arith)
        requires
            d == step * q,
    ;
    let p = span / step;
    assert(span == step * p + span % step);
    assert(0 <= span % step < step);
    if q < p {
        assert(step * (q + 1) <= step * p) by (nonlinear_arith)
            requires
                q < p,
                step > 0,
        ;
    } else {
        assert(step * (q + 1) == step * p + step) by (nonlinear_arith)
            requires
                q == p,
        ;
    }
}

/// Every sample of a sweep in progress lies in a cell of its grid: the
/// dimensions leave no sample point without a cell.
pub proof fn lemma_sample_in_grid(s: SweepView)
    requires
        sweep_wf(s),
        !s.completed,
    ensures
        grid_indices(s, s.current_x, s.current_y).is_some(),
{
    lemma_axis_in_range(s.current_x - s.min_x, s.max_x - s.min_x, s.step_size);
    lemma_axis_in_range(s.current_y - s.min_y, s.max_y - s.min_y, s.step_size);
}

proof fn lemma_axis_in_range(d: int, span: int, step: int)
    requires
        0 <= d <= span,
        0 < step,
    ensures
        0 <= d / step < (span + step - 1) / step + 1,
{
    assert(0 <= d / step <= span / step) by (nonlinear_arith)
        requires
            0 <= d <= span,
            0 < step,
    ;
    assert(span / step <= (span + step - 1) / step) by (nonlinear_arith)
        requires
            0 <= span,
            0 < step,
    ;
}

/// Marking is monotonic: over any run of samples, a cell once obstructed
/// stays obstructed, whichever later samples map to it.
pub proof fn lemma_marking_monotonic(s: SweepView, outcomes: Seq<bool>, i: int)
    requires
        sweep_wf(s),
        0 <= i < s.cells.len(),
        s.cells[i],
    ensures
        sweep(s, outcomes).cells.len() == s.cells.len(),
        sweep(s, outcomes).cells[i],
    decreases outcomes.len(),
{
    if outcomes.len() > 0 && !s.completed {
        lemma_after_sample_wf(s, outcomes[0]);
        lemma_marking_monotonic(after_sample(s, outcomes[0]), outcomes.drop_first(), i);
    }
}

impl GridState {
    /// The sweep invariant.
    pub open spec fn wf(&self) -> bool {
        sweep_wf(self@)
    }

    /// An empty sweep over the mechanism's workspace: twice the arm length
    /// wide, and from one arm length below the lowest pivot height to one
    /// above the highest, at the default resolution.
    pub fn new() -> (r: GridState)
        ensures
            r.wf(),
            r@.min_x == -ARM_LENGTH,
            r@.max_x == ARM_LENGTH,
            r@.min_y == ELEVATOR_MIN - ARM_LENGTH,
            r@.max_y == ELEVATOR_MAX + ARM_LENGTH,
            r@.step_size == GRID_RESOLUTION,
            r@.width == 41,
            r@.height == 64,
            r@.current_x == r@.min_x,
            r@.current_y == r@.min_y,
            !r@.completed,
            forall|i: int| 0 <= i < r@.cells.len() ==> !r@.cells[i],
    {
        assert(span_cells(-3937, 3937, 200) == 41);
        assert(span_cells(-5302, 7112, 200) == 64);
        let r = GridState::with_bounds(
            -ARM_LENGTH,
            ARM_LENGTH,
            ELEVATOR_MIN - ARM_LENGTH,
            ELEVATOR_MAX + ARM_LENGTH,
            GRID_RESOLUTION,
        );
        r.unwrap()
    }

    /// An empty sweep over the given bounds and step, its cursor at
    /// `(min_x, min_y)` and every cell free. The dimensions are
    /// `ceil((max - min) / step) + 1` on each axis; `None` when they exceed
    /// what a grid record or memory can hold.
    pub fn with_bounds(min_x: i32, max_x: i32, min_y: i32, max_y: i32, step_size: i32) -> (r:
        Option<GridState>)
        requires
            valid_bounds(min_x as int, max_x as int, min_y as int, max_y as int, step_size as int),
        ensures
            r.is_some() <==> dims_fit(
                min_x as int,
                max_x as int,
                min_y as int,
                max_y as int,
                step_size as int,
            ),
            r matches Some(r) ==> {
                &&& r.wf()
                &&& r@.min_x == min_x
                &&& r@.max_x == max_x
                &&& r@.min_y == min_y
                &&& r@.max_y == max_y
                &&& r@.step_size == step_size
                &&& r@.width == span_cells(min_x as int, max_x as int, step_size as int)
                &&& r@.height == span_cells(min_y as int, max_y as int, step_size as int)
                &&& r@.current_x == min_x
                &&& r@.current_y == min_y
                &&& !r@.completed
                &&& forall|i: int| 0 <= i < r@.cells.len() ==> !r@.cells[i]
            },
    {
        let step = step_size as i64;
        let w = span_len(min_x as i64, max_x as i64, step);
        let h = span_len(min_y as i64, max_y as i64, step);
        if w > u32::MAX as i64 || h > u32::MAX as i64 {
            return None;
        }
        let width = w as u32;
        let height = h as u32;
        proof {
            assert(width * height <= u32::MAX * u32::MAX) by (nonlinear_arith)
                requires
                    width <= u32::MAX,
                    height <= u32::MAX,
            ;
        }
        let count: u64 = width as u64 * height as u64;
        if count > usize::MAX as u64 {
            return None;
        }
        let n = count as usize;
        let mut collision_grid: Vec<bool> = Vec::with_capacity(n);
        let mut i: usize = 0;
        while i < n
            invariant
                i <= n,
                collision_grid@.len() == i,
                forall|k: int| 0 <= k < i ==> !collision_grid@[k],
            decreases n - i,
        {
            collision_grid.push(false);
            i = i + 1;
        }
        Some(GridState {
            current_x: min_x as i64,
            current_y: min_y as i64,
            step_size: step,
            min_x: min_x as i64,
            max_x: max_x as i64,
            min_y: min_y as i64,
            max_y: max_y as i64,
            completed: false,
            width,
            height,
            collision_grid,
        })
    }

    /// The cell holding world point `(x, y)`, if the grid has one there.
    pub fn get_grid_indices(&self, x: i64, y: i64) -> (r: Option<(u32, u32)>)
        requires
            self.wf(),
        ensures
            match r {
                Some((ix, iy)) => grid_indices(self@, x as int, y as int) == Some(
                    (ix as int, iy as int),
                ),
                None => grid_indices(self@, x as int, y as int).is_none(),
            },
    {
        let ix = axis_index(x, self.min_x, self.step_size, self.width);
        let iy = axis_index(y, self.min_y, self.step_size, self.height);
        match (ix, iy) {
            (Some(ix), Some(iy)) => Some((ix, iy)),
            _ => None,
        }
    }

    /// Marks the cell holding `(x, y)` as obstructed; a point outside the
    /// grid changes nothing. No cell is ever unmarked.
    pub fn mark_collision(&mut self, x: i64, y: i64)
        requires
            old(self).wf(),
        ensures
            final(self).wf(),
            final(self)@ == (SweepView { cells: marked_cells(old(self)@, x as int, y as int), ..old(self)@ }),
            forall|i: int|
                0 <= i < old(self)@.cells.len() && #[trigger] old(self)@.cells[i]
                    ==> final(self)@.cells[i],
    {
        if let Some((ix, iy)) = self.get_grid_indices(x, y) {
            proof {
                let w = self.width as int;
                assert(iy * w + ix < w * self.height && 0 <= iy * w) by (nonlinear_arith)
                    requires
                        ix < w,
                        iy < self.height,
                        0 <= ix,
                        0 <= iy,
                ;
            }
            let i = iy as usize * self.width as usize + ix as usize;
            self.collision_grid.set(i, true);
        }
    }

    /// The finished grid, labelled with the given record bounds; `None`
    /// while the sweep is still in progress, so that a partial sweep is never
    /// persisted.
    pub fn into_collision_grid(self, bounds: FloatBounds) -> (r: Option<CollisionGrid>)
        requires
            self.wf(),
        ensures
            match r {
                Some(g) => self.completed && g.wf() && g@ == (GridView {
                    width: self.width,
                    height: self.height,
                    bounds,
                    cells: self@.cells,
                }),
                None => !self.completed,
            },
    {
        if self.completed {
            Some(CollisionGrid::new(self.width, self.height, bounds, self.collision_grid))
        } else {
            None
        }
    }

    /// The world point of the next sample.
    pub fn current_sample(&self) -> (r: (i64, i64))
        ensures
            r == (self.current_x, self.current_y),
    {
        (self.current_x, self.current_y)
    }

    /// Records the outcome of the sample at the cursor and moves the cursor
    /// on; reports whether the sweep is now complete.
    pub fn record_sample(&mut self, obstructed: bool) -> (r: BuildStatus)
        requires
            old(self).wf(),
            !old(self).completed,
        ensures
            final(self).wf(),
            final(self)@ == after_sample(old(self)@, obstructed),
            r == (if final(self).completed {
                BuildStatus::Complete
            } else {
                BuildStatus::InProgress
            }),
            forall|i: int|
                0 <= i < old(self)@.cells.len() && #[trigger] old(self)@.cells[i]
                    ==> final(self)@.cells[i],
    {
        proof {
            lemma_after_sample_wf(self@, obstructed);
        }
        if obstructed {
            self.mark_collision(self.current_x, self.current_y);
        }
        self.current_x = self.current_x + self.step_size;
        if self.current_x > self.max_x {
            self.current_x = self.min_x;
            self.current_y = self.current_y + self.step_size;
            if self.current_y > self.max_y {
                self.completed = true;
            }
        }
        if self.completed {
            BuildStatus::Complete
        } else {
            BuildStatus::InProgress
        }
    }
}

/// `ceil((max - min) / step) + 1`.
fn span_len(min: i64, max: i64, step: i64) -> (r: i64)
    requires
        i32::MIN <= min <= max <= i32::MAX,
        0 < step <= i32::MAX,
    ensures
        r == span_cells(min as int, max as int, step as int),
{
    (max - min + step - 1) / step + 1
}

/// `floor((v - min) / step)` when it lies in `[0, n)`.
fn axis_index(v: i64, min: i64, step: i64, n: u32) -> (r: Option<u32>)
    requires
        i32::MIN <= min <= i32::MAX,
        0 < step <= i32::MAX,
    ensures
        match r {
            Some(i) => i == (v - min) / (step as int) && i < n,
            None => !(0 <= (v - min) / (step as int) < n),
        },
{
    if v < min {
        proof {
            assert((v - min) / (step as int) < 0) by (nonlinear_arith)
                requires
                    v - min < 0,
                    step > 0,
            ;
        }
        return None;
    }
    let d: i128 = v as i128 - min as i128;
    let q: i128 = d / (step as i128);
    if q < n as i128 {
        Some(q as u32)
    } else {
        None
    }
}

} // verus!
