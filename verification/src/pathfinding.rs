//! Exhaustive depth-first exploration of a maze and its animated playback.
//!
//! The recorder walks the grid from the entry cell and emits a trace of
//! [`AnimationStep`] values: `Add` when the cursor steps onto a cell, `Remove`
//! when it backtracks off it. The trace replays the whole exploration,
//! including dead ends, not just a final path.

use vstd::prelude::*;
use vstd::seq_lib::*;
use vstd::set_lib::lemma_len_subset;
use vstd::string::*;

use crate::format::{cell_at, grid_bounded, in_grid};
use crate::Coord;

verus! {

/// One move of the exploration cursor, as `(col, row)`.
///
/// `Add` steps onto a cell; `Remove` backtracks off it.
#[derive(Clone, Copy, Debug, PartialEq, Eq, Structural)]
pub enum AnimationStep {
    /// The cursor steps onto the cell.
    Add(usize, usize),
    /// The cursor backtracks off the cell.
    Remove(usize, usize),
}

/// The recorder was invoked on a grid without an entry cell.
#[derive(Clone, Copy, Debug, PartialEq, Eq, Structural)]
pub struct NoEntryError;

/// The coordinate transform was invoked on a degenerate or oversized grid.
#[derive(Clone, Copy, Debug, PartialEq, Eq, Structural)]
pub enum DimensionError {
    /// The grid has no rows.
    NoRows,
    /// The first row of the grid is empty.
    EmptyFirstRow,
    /// A dimension or coordinate does not fit the exactly-representable range.
    TooLarge,
}

/// Total number of cells over all rows.
pub open spec fn total_cells(g: Seq<Seq<char>>) -> int
    decreases g.len(),
{
    if g.len() == 0 {
        0
    } else {
        total_cells(g.drop_last()) + g.last().len()
    }
}

/// The set of all in-grid coordinates.
pub open spec fn cells_set(g: Seq<Seq<char>>) -> Set<Coord> {
    Set::new(|p: Coord| in_grid(g, p))
}

proof fn lemma_cells_set_card_helper(g: Seq<Seq<char>>, w: int)
    requires
        grid_bounded(g),
        g.len() > 0,
        0 <= w <= g.last().len(),
    ensures
        partial_cells_set(g, w).finite(),
        partial_cells_set(g, w).len() == total_cells(g.drop_last()) + w,
    decreases g.len(), w + 1,
{
    if w == 0 {
        assert(grid_bounded(g.drop_last())) by {
            assert(forall|r: int|
                0 <= r < g.len() - 1 ==> g.drop_last()[r] == #[trigger] g[r]);
        }
        lemma_cells_set_card(g.drop_last());
        assert(partial_cells_set(g, 0) =~= cells_set(g.drop_last()));
    } else {
        lemma_cells_set_card_helper(g, w - 1);
        let p: Coord = (((w - 1) as usize), ((g.len() - 1) as usize));
        assert(!partial_cells_set(g, w - 1).contains(p));
        assert(partial_cells_set(g, w) =~= partial_cells_set(g, w - 1).insert(p));
    }
}

/// The in-grid cells of all rows but the last, plus the first `w` cells of the
/// last row.
spec fn partial_cells_set(g: Seq<Seq<char>>, w: int) -> Set<Coord> {
    Set::new(
        |p: Coord|
            in_grid(g.drop_last(), p) || (g.len() > 0 && p.1 == g.len() - 1 && p.0 < w),
    )
}

pub proof fn lemma_cells_set_card(g: Seq<Seq<char>>)
    requires
        grid_bounded(g),
    ensures
        cells_set(g).finite(),
        cells_set(g).len() == total_cells(g),
    decreases g.len(),
        (if g.len() == 0 {
            0int
        } else {
            g.last().len() + 2int
        }),
{
    if g.len() == 0 {
        assert(cells_set(g) =~= Set::<Coord>::empty());
    } else {
        lemma_cells_set_card_helper(g, g.last().len() as int);
        assert(cells_set(g) =~= partial_cells_set(g, g.last().len() as int));
    }
}

/// A sequence of distinct in-grid coordinates is no longer than the grid has
/// cells.
pub proof fn lemma_path_len_le_cells(g: Seq<Seq<char>>, path: Seq<Coord>)
    requires
        grid_bounded(g),
        path.no_duplicates(),
        forall|i: int| 0 <= i < path.len() ==> in_grid(g, #[trigger] path[i]),
    ensures
        path.len() <= total_cells(g),
{
    path.unique_seq_to_set();
    lemma_cells_set_card(g);
    assert(path.to_set().subset_of(cells_set(g)));
    lemma_len_subset(path.to_set(), cells_set(g));
}

/// A cell the cursor may step onto: open or exit.
pub open spec fn walkable(g: Seq<Seq<char>>, p: Coord) -> bool {
    cell_at(g, p) == '3' || cell_at(g, p) == '4'
}

/// The exploration path so far: distinct cells, all inside the grid.
pub open spec fn path_ok(g: Seq<Seq<char>>, path: Seq<Coord>) -> bool {
    path.no_duplicates() && (forall|i: int| 0 <= i < path.len() ==> in_grid(g, #[trigger] path[i]))
}

/// Well-formed recorder call: a representable grid, a sound path, and a fresh
/// in-grid start cell.
pub open spec fn step_ok(g: Seq<Seq<char>>, start: Coord, path: Seq<Coord>) -> bool {
    grid_bounded(g) && path_ok(g, path) && in_grid(g, start) && !path.contains(start)
}

/// Whether the cursor, with `p1` as its current path, may recurse into `n`.
pub open spec fn enter_ok(g: Seq<Seq<char>>, p1: Seq<Coord>, n: Coord) -> bool {
    in_grid(g, n) && walkable(g, n) && !p1.contains(n)
}

/// The cell directly above `p`.
pub open spec fn north_of(p: Coord) -> Coord {
    (p.0, (p.1 - 1) as usize)
}

/// The cell directly below `p`.
pub open spec fn south_of(p: Coord) -> Coord {
    (p.0, (p.1 + 1) as usize)
}

/// The cell directly right of `p`.
pub open spec fn east_of(p: Coord) -> Coord {
    ((p.0 + 1) as usize, p.1)
}

/// The cell directly left of `p`.
pub open spec fn west_of(p: Coord) -> Coord {
    ((p.0 - 1) as usize, p.1)
}

pub proof fn lemma_push_ok(g: Seq<Seq<char>>, start: Coord, path: Seq<Coord>)
    requires
        step_ok(g, start, path),
    ensures
        path_ok(g, path.push(start)),
        path.push(start).len() <= total_cells(g),
{
    let p1 = path.push(start);
    assert forall|i: int, j: int| 0 <= i < j < p1.len() implies p1[i] != p1[j] by {
        if j < p1.len() - 1 {
            assert(path[i] != path[j]);
        } else {
            assert(path.contains(path[i]));
        }
    }
    assert forall|i: int| 0 <= i < p1.len() implies in_grid(g, #[trigger] p1[i]) by {
        if i < p1.len() - 1 {
            assert(in_grid(g, path[i]));
        }
    }
    lemma_path_len_le_cells(g, p1);
}

/// The full exploration trace from `start`, with `path` the cells already on
/// the current branch.
///
/// The cursor enters `start`; an exit ends the branch at once; otherwise the
/// four neighbours are tried in the order north, south, east, west, entering
/// each walkable cell that is not already on the branch; finally the cursor
/// backtracks off `start`.
pub open spec fn spec_trace(g: Seq<Seq<char>>, start: Coord, path: Seq<Coord>) -> Seq<AnimationStep>
    decreases total_cells(g) - path.len(),
        when step_ok(g, start, path)
{
    let p1 = path.push(start);
    let enter = seq![AnimationStep::Add(start.0, start.1)];
    let leave = seq![AnimationStep::Remove(start.0, start.1)];
    if cell_at(g, start) == '4' {
        enter + leave
    } else {
        proof {
            lemma_push_ok(g, start, path);
        }
        let tn = if start.1 > 0 && enter_ok(g, p1, north_of(start)) {
            spec_trace(g, north_of(start), p1)
        } else {
            Seq::empty()
        };
        let ts = if enter_ok(g, p1, south_of(start)) {
            spec_trace(g, south_of(start), p1)
        } else {
            Seq::empty()
        };
        let te = if enter_ok(g, p1, east_of(start)) {
            spec_trace(g, east_of(start), p1)
        } else {
            Seq::empty()
        };
        let tw = if start.0 > 0 && enter_ok(g, p1, west_of(start)) {
            spec_trace(g, west_of(start), p1)
        } else {
            Seq::empty()
        };
        enter + tn + ts + te + tw + leave
    }
}

/// Occurrences of `Add(p)` in a trace.
pub open spec fn count_adds(t: Seq<AnimationStep>, p: Coord) -> int
    decreases t.len(),
{
    if t.len() == 0 {
        0
    } else {
        count_adds(t.drop_last(), p) + if t.last() == AnimationStep::Add(p.0, p.1) {
            1int
        } else {
            0int
        }
    }
}

/// Occurrences of `Remove(p)` in a trace.
pub open spec fn count_removes(t: Seq<AnimationStep>, p: Coord) -> int
    decreases t.len(),
{
    if t.len() == 0 {
        0
    } else {
        count_removes(t.drop_last(), p) + if t.last() == AnimationStep::Remove(p.0, p.1) {
            1int
        } else {
            0int
        }
    }
}

proof fn lemma_count_concat(a: Seq<AnimationStep>, b: Seq<AnimationStep>, p: Coord)
    ensures
        count_adds(a + b, p) == count_adds(a, p) + count_adds(b, p),
        count_removes(a + b, p) == count_removes(a, p) + count_removes(b, p),
    decreases b.len(),
{
    if b.len() == 0 {
        assert(a + b =~= a);
    } else {
        assert((a + b).drop_last() =~= a + b.drop_last());
        assert((a + b).last() == b.last());
        lemma_count_concat(a, b.drop_last(), p);
    }
}

proof fn lemma_count_singleton(s: AnimationStep, p: Coord)
    ensures
        count_adds(seq![s], p) == if s == AnimationStep::Add(p.0, p.1) {
            1int
        } else {
            0int
        },
        count_removes(seq![s], p) == if s == AnimationStep::Remove(p.0, p.1) {
            1int
        } else {
            0int
        },
{
    assert(seq![s].drop_last() =~= Seq::<AnimationStep>::empty());
    assert(count_adds(Seq::<AnimationStep>::empty(), p) == 0);
    assert(count_removes(Seq::<AnimationStep>::empty(), p) == 0);
    assert(seq![s].last() == s);
}

/// Law: the recorded trace is never empty and is balanced. It opens by
/// entering `start`, closes by backtracking off `start`, and every coordinate
/// is added exactly as often as it is removed.
pub proof fn lemma_trace_balanced(g: Seq<Seq<char>>, start: Coord, path: Seq<Coord>)
    requires
        step_ok(g, start, path),
    ensures
        spec_trace(g, start, path).len() >= 2,
        spec_trace(g, start, path).first() == AnimationStep::Add(start.0, start.1),
        spec_trace(g, start, path).last() == AnimationStep::Remove(start.0, start.1),
        forall|p: Coord|
            count_adds(spec_trace(g, start, path), p) == count_removes(
                spec_trace(g, start, path),
                p,
            ),
    decreases total_cells(g) - path.len(),
{
    let tr = spec_trace(g, start, path);
    let p1 = path.push(start);
    let enter = seq![AnimationStep::Add(start.0, start.1)];
    let leave = seq![AnimationStep::Remove(start.0, start.1)];
    lemma_push_ok(g, start, path);
    if cell_at(g, start) == '4' {
        assert(tr == enter + leave);
        assert forall|p: Coord| count_adds(tr, p) == count_removes(tr, p) by {
            lemma_count_concat(enter, leave, p);
            lemma_count_singleton(AnimationStep::Add(start.0, start.1), p);
            lemma_count_singleton(AnimationStep::Remove(start.0, start.1), p);
        }
    } else {
        let tn = if start.1 > 0 && enter_ok(g, p1, north_of(start)) {
            spec_trace(g, north_of(start), p1)
        } else {
            Seq::<AnimationStep>::empty()
        };
        let ts = if enter_ok(g, p1, south_of(start)) {
            spec_trace(g, south_of(start), p1)
        } else {
            Seq::<AnimationStep>::empty()
        };
        let te = if enter_ok(g, p1, east_of(start)) {
            spec_trace(g, east_of(start), p1)
        } else {
            Seq::<AnimationStep>::empty()
        };
        let tw = if start.0 > 0 && enter_ok(g, p1, west_of(start)) {
            spec_trace(g, west_of(start), p1)
        } else {
            Seq::<AnimationStep>::empty()
        };
        assert(tr == enter + tn + ts + te + tw + leave);
        if start.1 > 0 && enter_ok(g, p1, north_of(start)) {
            lemma_trace_balanced(g, north_of(start), p1);
        }
        if enter_ok(g, p1, south_of(start)) {
            lemma_trace_balanced(g, south_of(start), p1);
        }
        if enter_ok(g, p1, east_of(start)) {
            lemma_trace_balanced(g, east_of(start), p1);
        }
        if start.0 > 0 && enter_ok(g, p1, west_of(start)) {
            lemma_trace_balanced(g, west_of(start), p1);
        }
        assert forall|p: Coord| count_adds(tr, p) == count_removes(tr, p) by {
            lemma_count_singleton(AnimationStep::Add(start.0, start.1), p);
            lemma_count_singleton(AnimationStep::Remove(start.0, start.1), p);
            lemma_count_concat(enter, tn, p);
            lemma_count_concat(enter + tn, ts, p);
            lemma_count_concat(enter + tn + ts, te, p);
            lemma_count_concat(enter + tn + ts + te, tw, p);
            lemma_count_concat(enter + tn + ts + te + tw, leave, p);
        }
        assert(tr.last() == leave[0]);
    }
}

/// Column of the first entry cell (`'1'`) in a row, or the row's length if
/// the row has none.
pub open spec fn entry_col(row: Seq<char>) -> int
    decreases row.len(),
{
    if row.len() == 0 {
        0
    } else if row[0] == '1' {
        0
    } else {
        1 + entry_col(row.drop_first())
    }
}

/// Whether a row holds an entry cell.
pub open spec fn row_has_entry(row: Seq<char>) -> bool {
    entry_col(row) < row.len()
}

/// Index of the first row holding an entry cell, or `g.len()` if none does.
pub open spec fn entry_row(g: Seq<Seq<char>>) -> int
    decreases g.len(),
{
    if g.len() == 0 {
        0
    } else if row_has_entry(g[0]) {
        0
    } else {
        1 + entry_row(g.drop_first())
    }
}

/// Whether the grid holds an entry cell at all.
pub open spec fn has_entry(g: Seq<Seq<char>>) -> bool {
    entry_row(g) < g.len()
}

/// The first entry cell in row-major order.
pub open spec fn entry_cell(g: Seq<Seq<char>>) -> Coord {
    (entry_col(g[entry_row(g)]) as usize, entry_row(g) as usize)
}

pub proof fn lemma_entry_col_bounds(row: Seq<char>)
    ensures
        0 <= entry_col(row) <= row.len(),
        forall|j: int| 0 <= j < entry_col(row) ==> row[j] != '1',
        entry_col(row) < row.len() ==> row[entry_col(row)] == '1',
    decreases row.len(),
{
    if row.len() == 0 {
    } else if row[0] == '1' {
    } else {
        lemma_entry_col_bounds(row.drop_first());
        assert forall|j: int| 0 <= j < entry_col(row) implies row[j] != '1' by {
            if j > 0 {
                assert(row.drop_first()[j - 1] == row[j]);
            }
        }
        if entry_col(row) < row.len() {
            assert(row.drop_first()[entry_col(row) - 1] == row[entry_col(row)]);
        }
    }
}

pub proof fn lemma_entry_col_unique(row: Seq<char>, i: int)
    requires
        0 <= i <= row.len(),
        forall|j: int| 0 <= j < i ==> row[j] != '1',
        i < row.len() ==> row[i] == '1',
    ensures
        entry_col(row) == i,
    decreases row.len(),
{
    if row.len() == 0 {
    } else if row[0] == '1' {
    } else {
        assert forall|j: int| 0 <= j < i - 1 implies row.drop_first()[j] != '1' by {
            assert(row.drop_first()[j] == row[j + 1]);
        }
        if i - 1 < row.drop_first().len() {
            assert(row.drop_first()[i - 1] == row[i]);
        }
        lemma_entry_col_unique(row.drop_first(), i - 1);
    }
}

pub proof fn lemma_entry_row_bounds(g: Seq<Seq<char>>)
    ensures
        0 <= entry_row(g) <= g.len(),
        forall|k: int| 0 <= k < entry_row(g) ==> !row_has_entry(#[trigger] g[k]),
        entry_row(g) < g.len() ==> row_has_entry(g[entry_row(g)]),
    decreases g.len(),
{
    if g.len() == 0 {
    } else if row_has_entry(g[0]) {
    } else {
        lemma_entry_row_bounds(g.drop_first());
        assert forall|k: int| 0 <= k < entry_row(g) implies !row_has_entry(#[trigger] g[k]) by {
            if k > 0 {
                assert(g.drop_first()[k - 1] == g[k]);
            }
        }
        if entry_row(g) < g.len() {
            assert(g.drop_first()[entry_row(g) - 1] == g[entry_row(g)]);
        }
    }
}

pub proof fn lemma_entry_row_unique(g: Seq<Seq<char>>, r: int)
    requires
        0 <= r <= g.len(),
        forall|k: int| 0 <= k < r ==> !row_has_entry(#[trigger] g[k]),
        r < g.len() ==> row_has_entry(g[r]),
    ensures
        entry_row(g) == r,
    decreases g.len(),
{
    if g.len() == 0 {
    } else if row_has_entry(g[0]) {
    } else {
        assert forall|k: int| 0 <= k < r - 1 implies !row_has_entry(#[trigger] g.drop_first()[k]) by {
            assert(g.drop_first()[k] == g[k + 1]);
        }
        if r - 1 < g.drop_first().len() {
            assert(g.drop_first()[r - 1] == g[r]);
        }
        lemma_entry_row_unique(g.drop_first(), r - 1);
    }
}

/// Finds the first entry cell of the grid in row-major order.
pub fn find_entry_point(map_data: &Vec<String>) -> (res: Option<Coord>)
    ensures
        res == if has_entry(map_data.deep_view()) {
            Some(entry_cell(map_data.deep_view()))
        } else {
            None::<Coord>
        },
{
    let ghost g = map_data.deep_view();
    let mut r: usize = 0;
    while r < map_data.len()
        invariant
            g == map_data.deep_view(),
            r <= map_data.len(),
            g.len() == map_data@.len(),
            forall|k: int| 0 <= k < r ==> !row_has_entry(#[trigger] g[k]),
        decreases map_data.len() - r,
    {
        let row = map_data[r].as_str();
        proof {
            assert(g[r as int] == row@);
        }
        let l = row.unicode_len();
        let mut c: usize = 0;
        while c < l
            invariant
                g == map_data.deep_view(),
                r < map_data.len(),
                g.len() == map_data@.len(),
                row@ == g[r as int],
                l == row@.len(),
                c <= l,
                forall|j: int| 0 <= j < c ==> row@[j] != '1',
                forall|k: int| 0 <= k < r ==> !row_has_entry(#[trigger] g[k]),
            decreases l - c,
        {
            if row.get_char(c) == '1' {
                proof {
                    lemma_entry_col_unique(row@, c as int);
                    lemma_entry_row_unique(g, r as int);
                }
                return Some((c, r));
            }
            c += 1;
        }
        proof {
            lemma_entry_col_unique(row@, row@.len() as int);
        }
        r += 1;
    }
    proof {
        lemma_entry_row_unique(g, g.len() as int);
    }
    None
}

/// Runs the recorder over a whole grid: finds the entry cell and records the
/// complete exploration trace from it. Fails exactly when the grid has no
/// entry cell.
pub fn record_trace(map_data: &Vec<String>) -> (res: Result<Vec<AnimationStep>, NoEntryError>)
    ensures
        match res {
            Ok(steps) => has_entry(map_data.deep_view()) && steps@ == spec_trace(
                map_data.deep_view(),
                entry_cell(map_data.deep_view()),
                Seq::empty(),
            ),
            Err(_) => !has_entry(map_data.deep_view()),
        },
{
    let ghost g = map_data.deep_view();
    let mut r: usize = 0;
    while r < map_data.len()
        invariant
            g == map_data.deep_view(),
            r <= map_data.len(),
            g.len() == map_data@.len(),
            forall|k: int| 0 <= k < r ==> (#[trigger] g[k]).len() <= usize::MAX,
        decreases map_data.len() - r,
    {
        let l = map_data[r].as_str().unicode_len();
        proof {
            assert(g[r as int].len() == l);
        }
        r += 1;
    }
    proof {
        assert(grid_bounded(g));
    }
    match find_entry_point(map_data) {
        None => Err(NoEntryError),
        Some(p) => {
            proof {
                lemma_entry_row_bounds(g);
                lemma_entry_col_bounds(g[entry_row(g)]);
                assert(in_grid(g, p));
                assert(step_ok(g, p, Seq::<Coord>::empty()));
            }
            let mut path: Vec<Coord> = Vec::new();
            let mut steps: Vec<AnimationStep> = Vec::new();
            record_animation_steps(map_data, p, &mut path, &mut steps);
            proof {
                assert(steps@ =~= Seq::<AnimationStep>::empty() + spec_trace(g, p, Seq::empty()));
                assert(steps@ == spec_trace(g, p, Seq::empty()));
            }
            Ok(steps)
        },
    }
}

/// Whether `p` already lies on the recorded path.
fn path_contains(v: &Vec<Coord>, p: Coord) -> (res: bool)
    ensures
        res == v@.contains(p),
{
    let mut i: usize = 0;
    while i < v.len()
        invariant
            i <= v.len(),
            forall|j: int| 0 <= j < i ==> v@[j] != p,
        decreases v.len() - i,
    {
        let q = v[i];
        if q.0 == p.0 && q.1 == p.1 {
            assert(v@[i as int] == p);
            return true;
        }
        i += 1;
    }
    assert(!v@.contains(p));
    false
}

/// Tries to continue the exploration into the neighbour cell `n`: recurses
/// exactly when `n` is in the grid, walkable, and not already on the path.
fn explore_neighbor(
    map_data: &Vec<String>,
    n: Coord,
    current_path: &mut Vec<Coord>,
    animation_steps: &mut Vec<AnimationStep>,
)
    requires
        grid_bounded(map_data.deep_view()),
        path_ok(map_data.deep_view(), old(current_path)@),
        old(current_path)@.len() <= total_cells(map_data.deep_view()),
    ensures
        final(current_path)@ == old(current_path)@,
        final(animation_steps)@ == old(animation_steps)@ + (if enter_ok(
            map_data.deep_view(),
            old(current_path)@,
            n,
        ) {
            spec_trace(map_data.deep_view(), n, old(current_path)@)
        } else {
            Seq::<AnimationStep>::empty()
        }),
    decreases total_cells(map_data.deep_view()) - current_path@.len(), 1int,
{
    let ghost g = map_data.deep_view();
    let ghost p1 = current_path@;
    proof {
        assert(g.len() == map_data@.len());
        assert(animation_steps@ + Seq::<AnimationStep>::empty() =~= animation_steps@);
    }
    if path_contains(current_path, n) {
        return;
    }
    if n.1 >= map_data.len() {
        return;
    }
    let nrow = &map_data[n.1];
    proof {
        assert(g[n.1 as int] == nrow@);
    }
    let nl = nrow.as_str().unicode_len();
    if n.0 >= nl {
        return;
    }
    let nch = nrow.as_str().get_char(n.0);
    if nch == '3' || nch == '4' {
        proof {
            assert(in_grid(g, n));
            assert(cell_at(g, n) == nch);
            assert(step_ok(g, n, p1));
        }
        record_animation_steps(map_data, n, current_path, animation_steps);
    } else {
        proof {
            assert(!walkable(g, n));
        }
    }
}

/// Records the full exploration trace from `start` into `animation_steps`.
///
/// `current_path` holds the cells of the branch being explored; it is used
/// only to avoid cycles within one branch and is returned as it was. The steps
/// appended are exactly [`spec_trace`] of the grid, `start` and the incoming
/// path.
#[verifier::rlimit(90)]
pub fn record_animation_steps(
    map_data: &Vec<String>,
    start: Coord,
    current_path: &mut Vec<Coord>,
    animation_steps: &mut Vec<AnimationStep>,
)
    requires
        step_ok(map_data.deep_view(), start, old(current_path)@),
    ensures
        final(current_path)@ == old(current_path)@,
        final(animation_steps)@ == old(animation_steps)@ + spec_trace(
            map_data.deep_view(),
            start,
            old(current_path)@,
        ),
    decreases total_cells(map_data.deep_view()) - current_path@.len(), 0int,
{
    let ghost g = map_data.deep_view();
    let ghost p0 = current_path@;
    let ghost base = animation_steps@;
    let ghost tr = spec_trace(g, start, p0);
    proof {
        lemma_push_ok(g, start, p0);
        assert(g.len() == map_data@.len());
    }

    current_path.push(start);
    animation_steps.push(AnimationStep::Add(start.0, start.1));
    let ghost p1 = current_path@;
    let ghost enter = seq![AnimationStep::Add(start.0, start.1)];
    let ghost leave = seq![AnimationStep::Remove(start.0, start.1)];

    let row = &map_data[start.1];
    proof {
        assert(g[start.1 as int] == row@);
    }
    let rl = row.as_str().unicode_len();
    let ch = row.as_str().get_char(start.0);
    proof {
        assert(cell_at(g, start) == ch);
    }

    if ch == '4' {
        let _ = current_path.pop();
        animation_steps.push(AnimationStep::Remove(start.0, start.1));
        proof {
            assert(current_path@ =~= p0);
            assert(tr == enter + leave);
            assert(animation_steps@ =~= base + tr);
        }
        return;
    }

    let ghost tn = if start.1 > 0 && enter_ok(g, p1, north_of(start)) {
        spec_trace(g, north_of(start), p1)
    } else {
        Seq::<AnimationStep>::empty()
    };
    let ghost ts = if enter_ok(g, p1, south_of(start)) {
        spec_trace(g, south_of(start), p1)
    } else {
        Seq::<AnimationStep>::empty()
    };
    let ghost te = if enter_ok(g, p1, east_of(start)) {
        spec_trace(g, east_of(start), p1)
    } else {
        Seq::<AnimationStep>::empty()
    };
    let ghost tw = if start.0 > 0 && enter_ok(g, p1, west_of(start)) {
        spec_trace(g, west_of(start), p1)
    } else {
        Seq::<AnimationStep>::empty()
    };
    proof {
        assert(tr == enter + tn + ts + te + tw + leave);
    }

    if start.1 > 0 {
        let n: Coord = (start.0, start.1 - 1);
        proof {
            assert(n == north_of(start));
        }
        explore_neighbor(map_data, n, current_path, animation_steps);
    }
    proof {
        assert(animation_steps@ == base + enter + tn);
    }

    let n_south: Coord = (start.0, start.1 + 1);
    proof {
        assert(n_south == south_of(start));
    }
    explore_neighbor(map_data, n_south, current_path, animation_steps);
    proof {
        assert(animation_steps@ =~= (base + enter + tn) + ts);
    }

    let n_east: Coord = (start.0 + 1, start.1);
    proof {
        assert(n_east == east_of(start));
    }
    explore_neighbor(map_data, n_east, current_path, animation_steps);
    proof {
        assert(animation_steps@ =~= ((base + enter + tn) + ts) + te);
    }

    if start.0 > 0 {
        let n: Coord = (start.0 - 1, start.1);
        proof {
            assert(n == west_of(start));
        }
        explore_neighbor(map_data, n, current_path, animation_steps);
    }
    proof {
        assert(animation_steps@ =~= (((base + enter + tn) + ts) + te) + tw);
    }

    let _ = current_path.pop();
    animation_steps.push(AnimationStep::Remove(start.0, start.1));
    proof {
        assert(current_path@ =~= p0);
        assert(animation_steps@ =~= base + (enter + tn + ts + te + tw + leave));
    }
}

/// Doubled screen coordinates of the cell `p = (col, row)` in a grid of
/// `rows_n` by `cols_n` cells.
///
/// The exact centered position of a cell is `(col - (cols_n - 1) / 2,
/// (rows_n - 1) / 2 - row)`; doubling keeps it integral, so `(x, y)` here is
/// twice the screen coordinate. Row 0 maps to the top (largest `y`), column 0
/// to the left (smallest `x`).
pub open spec fn to_screen_doubled(p: Coord, rows_n: int, cols_n: int) -> (int, int) {
    (2 * p.0 - (cols_n - 1), (rows_n - 1) - 2 * p.1)
}

/// Law: in an odd `n`-by-`n` grid the center cell maps exactly to the screen
/// origin.
pub proof fn lemma_center_cell_maps_to_origin(n: usize)
    requires
        n >= 1,
        n % 2 == 1,
    ensures
        to_screen_doubled(((((n - 1) / 2) as usize), (((n - 1) / 2) as usize)), n as int, n as int)
            == (0int, 0int),
{
    assert(2 * (((n - 1) as int) / 2) == (n - 1) as int);
}

/// Transforms maze cells to doubled screen coordinates for rendering.
///
/// Each `(col, row)` maps to twice its centered screen position, as
/// [`to_screen_doubled`] states; the caller halves the values for actual
/// screen positions. Fails when the grid has no rows or an empty first row,
/// or when a dimension or coordinate exceeds the exactly-representable range
/// of the renderer's conversions.
pub fn transform_maze_to_screen_coords(maze_coords: &Vec<Coord>, map_data: &Vec<String>) -> (res:
    Result<Vec<(i64, i64)>, DimensionError>)
    ensures
        match res {
            Ok(v) => {
                &&& 1 <= map_data@.len() <= u16::MAX
                &&& 1 <= map_data.deep_view()[0].len() <= u16::MAX
                &&& (forall|i: int|
                    0 <= i < maze_coords@.len() ==> (#[trigger] maze_coords@[i]).0 <= u16::MAX
                        && maze_coords@[i].1 <= u16::MAX)
                &&& v@.len() == maze_coords@.len()
                &&& (forall|i: int|
                    0 <= i < v@.len() ==> ((#[trigger] v@[i]).0 as int, v@[i].1 as int)
                        == to_screen_doubled(
                        maze_coords@[i],
                        map_data@.len() as int,
                        map_data.deep_view()[0].len() as int,
                    ))
            },
            Err(DimensionError::NoRows) => map_data@.len() == 0,
            Err(DimensionError::EmptyFirstRow) => 1 <= map_data@.len() <= u16::MAX
                && map_data.deep_view()[0].len() == 0,
            Err(DimensionError::TooLarge) => map_data@.len() > u16::MAX || (1 <= map_data@.len()
                <= u16::MAX && map_data.deep_view()[0].len() > u16::MAX) || (1 <= map_data@.len()
                <= u16::MAX && 1 <= map_data.deep_view()[0].len() <= u16::MAX && exists|i: int|
                0 <= i < maze_coords@.len() && ((#[trigger] maze_coords@[i]).0 > u16::MAX
                    || maze_coords@[i].1 > u16::MAX)),
        },
{
    let ghost g = map_data.deep_view();
    let rows = map_data.len();
    if rows == 0 {
        return Err(DimensionError::NoRows);
    }
    if rows > u16::MAX as usize {
        return Err(DimensionError::TooLarge);
    }
    let cols = map_data[0].as_str().unicode_len();
    proof {
        assert(g[0] == map_data@[0]@);
    }
    if cols == 0 {
        return Err(DimensionError::EmptyFirstRow);
    }
    if cols > u16::MAX as usize {
        return Err(DimensionError::TooLarge);
    }
    let mut out: Vec<(i64, i64)> = Vec::new();
    let mut i: usize = 0;
    while i < maze_coords.len()
        invariant
            g == map_data.deep_view(),
            rows == map_data@.len(),
            1 <= rows <= u16::MAX,
            cols == g[0].len(),
            1 <= cols <= u16::MAX,
            i <= maze_coords@.len(),
            out@.len() == i,
            forall|k: int|
                0 <= k < i ==> (#[trigger] maze_coords@[k]).0 <= u16::MAX && maze_coords@[k].1
                    <= u16::MAX,
            forall|k: int|
                0 <= k < i ==> ((#[trigger] out@[k]).0 as int, out@[k].1 as int)
                    == to_screen_doubled(maze_coords@[k], rows as int, cols as int),
        decreases maze_coords.len() - i,
    {
        let p = maze_coords[i];
        if p.0 > u16::MAX as usize || p.1 > u16::MAX as usize {
            return Err(DimensionError::TooLarge);
        }
        let x: i64 = 2 * (p.0 as i64) - (cols as i64 - 1);
        let y: i64 = (rows as i64 - 1) - 2 * (p.1 as i64);
        out.push((x, y));
        i += 1;
    }
    Ok(out)
}

/// The wall cells of a row, each as `(col, r)`, in column order.
pub open spec fn row_walls(row: Seq<char>, r: usize) -> Seq<Coord>
    decreases row.len(),
{
    if row.len() == 0 {
        Seq::empty()
    } else {
        row_walls(row.drop_last(), r) + if row.last() == '2' {
            seq![(((row.len() - 1) as usize), r)]
        } else {
            Seq::empty()
        }
    }
}

/// All wall cells of the grid, in row-major order.
pub open spec fn grid_walls(g: Seq<Seq<char>>) -> Seq<Coord>
    decreases g.len(),
{
    if g.len() == 0 {
        Seq::empty()
    } else {
        grid_walls(g.drop_last()) + row_walls(g.last(), ((g.len() - 1) as usize))
    }
}

proof fn lemma_row_walls_take_succ(row: Seq<char>, r: usize, k: int)
    requires
        0 <= k < row.len(),
        row.len() <= usize::MAX,
    ensures
        row_walls(row.take(k + 1), r) == row_walls(row.take(k), r) + (if row[k] == '2' {
            seq![((k as usize), r)]
        } else {
            Seq::<Coord>::empty()
        }),
{
    assert(row.take(k + 1).drop_last() =~= row.take(k));
    assert(row.take(k + 1).last() == row[k]);
}

proof fn lemma_grid_walls_take_succ(g: Seq<Seq<char>>, k: int)
    requires
        0 <= k < g.len(),
        g.len() <= usize::MAX,
    ensures
        grid_walls(g.take(k + 1)) == grid_walls(g.take(k)) + row_walls(g[k], k as usize),
{
    assert(g.take(k + 1).drop_last() =~= g.take(k));
    assert(g.take(k + 1).last() == g[k]);
}

/// Collects the coordinates of all wall cells, in row-major order.
pub fn collect_wall_coords(map_data: &Vec<String>) -> (res: Vec<Coord>)
    ensures
        res@ == grid_walls(map_data.deep_view()),
{
    let ghost g = map_data.deep_view();
    let mut out: Vec<Coord> = Vec::new();
    let mut r: usize = 0;
    while r < map_data.len()
        invariant
            g == map_data.deep_view(),
            r <= map_data.len(),
            g.len() == map_data@.len(),
            out@ == grid_walls(g.take(r as int)),
        decreases map_data.len() - r,
    {
        let row = map_data[r].as_str();
        proof {
            assert(g[r as int] == row@);
        }
        let l = row.unicode_len();
        let mut c: usize = 0;
        while c < l
            invariant
                g == map_data.deep_view(),
                r < map_data.len(),
                g.len() == map_data@.len(),
                row@ == g[r as int],
                l == row@.len(),
                c <= l,
                out@ == grid_walls(g.take(r as int)) + row_walls(row@.take(c as int), r),
            decreases l - c,
        {
            let ch = row.get_char(c);
            proof {
                lemma_row_walls_take_succ(row@, r, c as int);
            }
            if ch == '2' {
                let ghost before = out@;
                out.push((c, r));
                proof {
                    assert(out@ =~= before + seq![((c as usize), r)]);
                }
            } else {
                proof {
                    assert(out@ + Seq::<Coord>::empty() =~= out@);
                }
            }
            proof {
                assert(out@ =~= grid_walls(g.take(r as int)) + row_walls(
                    row@.take(c + 1),
                    r,
                ));
            }
            c += 1;
        }
        proof {
            assert(row@.take(l as int) =~= row@);
            lemma_grid_walls_take_succ(g, r as int);
        }
        r += 1;
    }
    proof {
        assert(g.take(map_data@.len() as int) =~= g);
    }
    out
}

/// Animation frame delay in milliseconds: the minimum time between two
/// applied playback steps.
pub const ANIMATION_FRAME_DELAY_MS: u64 = 200;

/// Index of the first occurrence of `p` on the path, or the path's length.
pub open spec fn find_coord(path: Seq<Coord>, p: Coord) -> int
    decreases path.len(),
{
    if path.len() == 0 {
        0
    } else if path[0] == p {
        0
    } else {
        1 + find_coord(path.drop_first(), p)
    }
}

pub proof fn lemma_find_coord_unique(path: Seq<Coord>, p: Coord, i: int)
    requires
        0 <= i <= path.len(),
        forall|j: int| 0 <= j < i ==> path[j] != p,
        i < path.len() ==> path[i] == p,
    ensures
        find_coord(path, p) == i,
    decreases path.len(),
{
    if path.len() == 0 {
    } else if path[0] == p {
    } else {
        assert forall|j: int| 0 <= j < i - 1 implies path.drop_first()[j] != p by {
            assert(path.drop_first()[j] == path[j + 1]);
        }
        if i - 1 < path.drop_first().len() {
            assert(path.drop_first()[i - 1] == path[i]);
        }
        lemma_find_coord_unique(path.drop_first(), p, i - 1);
    }
}

/// One playback step applied to the visible path: `Add` appends the
/// coordinate, `Remove` deletes its first occurrence, if any.
pub open spec fn apply_step(path: Seq<Coord>, step: AnimationStep) -> Seq<Coord> {
    match step {
        AnimationStep::Add(x, y) => path.push((x, y)),
        AnimationStep::Remove(x, y) => {
            let i = find_coord(path, (x, y));
            if i < path.len() {
                path.remove(i)
            } else {
                path
            }
        },
    }
}

/// Whether a tick at `now` falls on or after the next frame boundary.
pub open spec fn tick_fires(last: u64, now: u64) -> bool {
    now >= last && now - last >= ANIMATION_FRAME_DELAY_MS
}

/// Cursor and visible path after one firing tick: the step under the cursor
/// is applied and the cursor advances; exhausting the trace returns the
/// player to idle.
pub open spec fn spec_advance(steps: Seq<AnimationStep>, idx: usize, path: Seq<Coord>) -> (
    usize,
    Seq<Coord>,
) {
    if (idx as int) < steps.len() {
        if idx as int + 1 == steps.len() {
            (0usize, Seq::<Coord>::empty())
        } else {
            ((idx + 1) as usize, apply_step(path, steps[idx as int]))
        }
    } else {
        (0usize, Seq::<Coord>::empty())
    }
}

/// The full player state after one tick at time `now`: cursor, visible path,
/// and time of the last applied frame.
pub open spec fn spec_tick(
    steps: Seq<AnimationStep>,
    idx: usize,
    path: Seq<Coord>,
    last: u64,
    now: u64,
) -> (usize, Seq<Coord>, u64) {
    if tick_fires(last, now) {
        let a = spec_advance(steps, idx, path);
        (a.0, a.1, now)
    } else {
        (idx, path, last)
    }
}

/// The player state after a sequence of ticks at the given times.
pub open spec fn run_timed(
    steps: Seq<AnimationStep>,
    idx: usize,
    path: Seq<Coord>,
    last: u64,
    times: Seq<u64>,
) -> (usize, Seq<Coord>, u64)
    decreases times.len(),
{
    if times.len() == 0 {
        (idx, path, last)
    } else {
        let s = spec_tick(steps, idx, path, last, times[0]);
        run_timed(steps, s.0, s.1, s.2, times.drop_first())
    }
}

proof fn lemma_run_to_idle(
    steps: Seq<AnimationStep>,
    idx: usize,
    path: Seq<Coord>,
    last: u64,
    times: Seq<u64>,
)
    requires
        steps.len() <= usize::MAX,
        (idx as int) < steps.len(),
        times.len() == steps.len() - idx,
        tick_fires(last, times[0]),
        forall|i: int| 0 <= i < times.len() - 1 ==> tick_fires(#[trigger] times[i], times[i + 1]),
    ensures
        run_timed(steps, idx, path, last, times).0 == 0,
        run_timed(steps, idx, path, last, times).1 == Seq::<Coord>::empty(),
    decreases times.len(),
{
    let s = spec_tick(steps, idx, path, last, times[0]);
    assert(run_timed(steps, idx, path, last, times) == run_timed(
        steps,
        s.0,
        s.1,
        s.2,
        times.drop_first(),
    ));
    if idx as int + 1 == steps.len() {
        assert(times.drop_first().len() == 0);
        assert(run_timed(steps, s.0, s.1, s.2, times.drop_first()) == (s.0, s.1, s.2));
    } else {
        assert(tick_fires(times[0], times[1]));
        assert forall|i: int|
            0 <= i < times.drop_first().len() - 1 implies tick_fires(
            #[trigger] times.drop_first()[i],
            times.drop_first()[i + 1],
        ) by {
            assert(times.drop_first()[i] == times[i + 1]);
            assert(times.drop_first()[i + 1] == times[i + 2]);
            assert(tick_fires(times[i + 1], times[i + 2]));
        }
        assert(times.drop_first()[0] == times[1]);
        lemma_run_to_idle(steps, (idx + 1) as usize, s.1, times[0], times.drop_first());
    }
}

/// Law: from the idle state, exactly `len(steps)` ticks, each falling on or
/// after its frame boundary, play the whole trace and return the player to
/// idle: cursor 0 and an empty visible path.
pub proof fn lemma_player_loop_closure(steps: Seq<AnimationStep>, last: u64, times: Seq<u64>)
    requires
        steps.len() <= usize::MAX,
        times.len() == steps.len(),
        steps.len() > 0 ==> tick_fires(last, times[0]),
        forall|i: int| 0 <= i < times.len() - 1 ==> tick_fires(#[trigger] times[i], times[i + 1]),
    ensures
        run_timed(steps, 0, Seq::empty(), last, times).0 == 0,
        run_timed(steps, 0, Seq::empty(), last, times).1 == Seq::<Coord>::empty(),
{
    if steps.len() > 0 {
        lemma_run_to_idle(steps, 0, Seq::empty(), last, times);
    }
}

/// A whole trace applied to the visible path, step by step.
pub open spec fn apply_all(path: Seq<Coord>, t: Seq<AnimationStep>) -> Seq<Coord>
    decreases t.len(),
{
    if t.len() == 0 {
        path
    } else {
        apply_all(apply_step(path, t[0]), t.drop_first())
    }
}

proof fn lemma_apply_all_concat(path: Seq<Coord>, a: Seq<AnimationStep>, b: Seq<AnimationStep>)
    ensures
        apply_all(path, a + b) == apply_all(apply_all(path, a), b),
    decreases a.len(),
{
    if a.len() == 0 {
        assert(a + b =~= b);
    } else {
        assert((a + b)[0] == a[0]);
        assert((a + b).drop_first() =~= a.drop_first() + b);
        lemma_apply_all_concat(apply_step(path, a[0]), a.drop_first(), b);
    }
}

proof fn lemma_apply_all_singleton(path: Seq<Coord>, s: AnimationStep)
    ensures
        apply_all(path, seq![s]) == apply_step(path, s),
{
    assert(seq![s].drop_first() =~= Seq::<AnimationStep>::empty());
    assert(apply_all(apply_step(path, s), Seq::<AnimationStep>::empty()) == apply_step(path, s));
}

proof fn lemma_remove_fresh_push(path: Seq<Coord>, s: Coord)
    requires
        !path.contains(s),
    ensures
        apply_step(path.push(s), AnimationStep::Remove(s.0, s.1)) == path,
{
    let p1 = path.push(s);
    assert forall|j: int| 0 <= j < path.len() implies p1[j] != s by {
        assert(p1[j] == path[j]);
        assert(path.contains(path[j]));
    }
    assert(p1[path.len() as int] == s);
    lemma_find_coord_unique(p1, s, path.len() as int);
    assert(p1.remove(path.len() as int) =~= path);
}

/// Law: replaying the recorded trace leaves the visible path exactly as it
/// started — every cell the cursor enters it also leaves. In particular, a
/// full playback starting from the empty visible path ends with it empty.
pub proof fn lemma_trace_replay_restores(g: Seq<Seq<char>>, start: Coord, path: Seq<Coord>)
    requires
        step_ok(g, start, path),
    ensures
        apply_all(path, spec_trace(g, start, path)) == path,
    decreases total_cells(g) - path.len(),
{
    let tr = spec_trace(g, start, path);
    let p1 = path.push(start);
    let enter = seq![AnimationStep::Add(start.0, start.1)];
    let leave = seq![AnimationStep::Remove(start.0, start.1)];
    lemma_push_ok(g, start, path);
    lemma_apply_all_singleton(path, AnimationStep::Add(start.0, start.1));
    lemma_apply_all_singleton(p1, AnimationStep::Remove(start.0, start.1));
    lemma_remove_fresh_push(path, start);
    if cell_at(g, start) == '4' {
        assert(tr == enter + leave);
        lemma_apply_all_concat(path, enter, leave);
    } else {
        let tn = if start.1 > 0 && enter_ok(g, p1, north_of(start)) {
            spec_trace(g, north_of(start), p1)
        } else {
            Seq::<AnimationStep>::empty()
        };
        let ts = if enter_ok(g, p1, south_of(start)) {
            spec_trace(g, south_of(start), p1)
        } else {
            Seq::<AnimationStep>::empty()
        };
        let te = if enter_ok(g, p1, east_of(start)) {
            spec_trace(g, east_of(start), p1)
        } else {
            Seq::<AnimationStep>::empty()
        };
        let tw = if start.0 > 0 && enter_ok(g, p1, west_of(start)) {
            spec_trace(g, west_of(start), p1)
        } else {
            Seq::<AnimationStep>::empty()
        };
        assert(tr == enter + tn + ts + te + tw + leave);
        if start.1 > 0 && enter_ok(g, p1, north_of(start)) {
            lemma_trace_replay_restores(g, north_of(start), p1);
        }
        if enter_ok(g, p1, south_of(start)) {
            lemma_trace_replay_restores(g, south_of(start), p1);
        }
        if enter_ok(g, p1, east_of(start)) {
            lemma_trace_replay_restores(g, east_of(start), p1);
        }
        if start.0 > 0 && enter_ok(g, p1, west_of(start)) {
            lemma_trace_replay_restores(g, west_of(start), p1);
        }
        lemma_apply_all_concat(path, enter, tn);
        lemma_apply_all_concat(path, enter + tn, ts);
        lemma_apply_all_concat(path, enter + tn + ts, te);
        lemma_apply_all_concat(path, enter + tn + ts + te, tw);
        lemma_apply_all_concat(path, enter + tn + ts + te + tw, leave);
    }
}

/// Playback state for the recorded exploration trace.
///
/// Ticks are driven from outside with an explicit clock value in
/// milliseconds, so playback is deterministic for any scheduler.
pub struct AnimationManager {
    /// The recorded exploration trace being replayed.
    pub steps: Vec<AnimationStep>,
    /// Cursor into `steps`: the next step to apply.
    pub current_index: usize,
    /// Clock value, in milliseconds, of the last applied frame.
    pub last_update_time: u64,
    /// The coordinates currently lit during playback.
    pub current_path: Vec<Coord>,
}

/// Deletes the first occurrence of `p` from the visible path, if any.
fn remove_first_match(path: &mut Vec<Coord>, p: Coord)
    ensures
        final(path)@ == ({
            let i = find_coord(old(path)@, p);
            if i < old(path)@.len() {
                old(path)@.remove(i)
            } else {
                old(path)@
            }
        }),
{
    let mut i: usize = 0;
    while i < path.len()
        invariant
            i <= path.len(),
            path@ == old(path)@,
            forall|j: int| 0 <= j < i ==> path@[j] != p,
        decreases path.len() - i,
    {
        let q = path[i];
        if q.0 == p.0 && q.1 == p.1 {
            proof {
                lemma_find_coord_unique(path@, p, i as int);
            }
            let _ = path.remove(i);
            return;
        }
        i += 1;
    }
    proof {
        lemma_find_coord_unique(path@, p, path@.len() as int);
    }
}

impl AnimationManager {
    /// Creates a new, idle manager with an empty trace.
    pub fn new() -> (res: AnimationManager)
        ensures
            res.steps@ == Seq::<AnimationStep>::empty(),
            res.current_index == 0,
            res.last_update_time == 0,
            res.current_path@ == Seq::<Coord>::empty(),
    {
        AnimationManager {
            steps: Vec::new(),
            current_index: 0,
            last_update_time: 0,
            current_path: Vec::new(),
        }
    }

    /// Rewinds playback to the start of the trace without touching the trace
    /// itself.
    pub fn reset(&mut self)
        ensures
            final(self).steps == old(self).steps,
            final(self).last_update_time == old(self).last_update_time,
            final(self).current_index == 0,
            final(self).current_path@ == Seq::<Coord>::empty(),
    {
        self.current_index = 0;
        self.current_path.clear();
    }

    /// Discards the trace and rewinds playback.
    pub fn clear(&mut self)
        ensures
            final(self).steps@ == Seq::<AnimationStep>::empty(),
            final(self).last_update_time == old(self).last_update_time,
            final(self).current_index == 0,
            final(self).current_path@ == Seq::<Coord>::empty(),
    {
        self.steps.clear();
        self.reset();
    }

    /// Advances playback by one tick of the external clock.
    ///
    /// Before the next frame boundary the tick is a no-op. On or after it,
    /// the step under the cursor is applied to the visible path and the
    /// cursor advances; when the trace is exhausted the player returns to
    /// idle and playback loops.
    pub fn update(&mut self, now_ms: u64)
        ensures
            final(self).steps == old(self).steps,
            !tick_fires(old(self).last_update_time, now_ms) ==> *final(self) == *old(self),
            tick_fires(old(self).last_update_time, now_ms) ==> {
                &&& final(self).last_update_time == now_ms
                &&& (final(self).current_index, final(self).current_path@) == spec_advance(
                    old(self).steps@,
                    old(self).current_index,
                    old(self).current_path@,
                )
            },
    {
        if now_ms >= self.last_update_time && now_ms - self.last_update_time
            >= ANIMATION_FRAME_DELAY_MS {
            self.last_update_time = now_ms;
            if self.current_index < self.steps.len() {
                let step = self.steps[self.current_index];
                match step {
                    AnimationStep::Add(x, y) => {
                        self.current_path.push((x, y));
                    },
                    AnimationStep::Remove(x, y) => {
                        remove_first_match(&mut self.current_path, (x, y));
                    },
                }
                self.current_index += 1;
                if self.current_index == self.steps.len() {
                    self.reset();
                }
            } else {
                self.reset();
            }
        }
    }
}

impl Default for AnimationManager {
    /// Same state as [`AnimationManager::new`].
    fn default() -> (res: AnimationManager)
        ensures
            res.steps@ == Seq::<AnimationStep>::empty(),
            res.current_index == 0,
            res.last_update_time == 0,
            res.current_path@ == Seq::<Coord>::empty(),
    {
        AnimationManager::new()
    }
}

} // verus!
