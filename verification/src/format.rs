//! Validation of the textual maze format.
//!
//! A grid is a sequence of rows of cell characters: `'1'` marks the single
//! entry, `'2'` a wall, `'3'` an open cell, `'4'` an exit. A well-formed grid
//! is at least 3 by 3, rectangular, walled along its border except for exits,
//! and has no exit in its interior.

use vstd::prelude::*;
use vstd::string::*;

use crate::text::{spec_lines, split_lines};

verus! {

/// The four cell characters of the maze alphabet.
pub open spec fn valid_cell_char(c: char) -> bool {
    c == '1' || c == '2' || c == '3' || c == '4'
}

/// Whether `p = (col, row)` lies inside the grid.
pub open spec fn in_grid(g: Seq<Seq<char>>, p: crate::Coord) -> bool {
    p.1 < g.len() && p.0 < g[p.1 as int].len()
}

/// Whether the grid fits the machine's address space: row indices and column
/// indices are representable as `usize`. Every grid held in actual vectors and
/// strings satisfies this.
pub open spec fn grid_bounded(g: Seq<Seq<char>>) -> bool {
    g.len() <= usize::MAX && (forall|r: int| 0 <= r < g.len() ==> (#[trigger] g[r]).len() <= usize::MAX)
}

/// The cell character at `p = (col, row)`.
pub open spec fn cell_at(g: Seq<Seq<char>>, p: crate::Coord) -> char {
    g[p.1 as int][p.0 as int]
}

/// Whether `(col = c, row = r)` lies on the border of the grid.
pub open spec fn on_edge(g: Seq<Seq<char>>, r: int, c: int) -> bool {
    r == 0 || r == g.len() - 1 || c == 0 || c == g[r].len() - 1
}

/// How many entry cells (`'1'`) a row holds.
pub open spec fn count_entries_row(row: Seq<char>) -> int
    decreases row.len(),
{
    if row.len() == 0 {
        0
    } else {
        count_entries_row(row.drop_last()) + if row.last() == '1' {
            1int
        } else {
            0int
        }
    }
}

/// How many entry cells (`'1'`) the whole grid holds.
pub open spec fn count_entries(g: Seq<Seq<char>>) -> int
    decreases g.len(),
{
    if g.len() == 0 {
        0
    } else {
        count_entries(g.drop_last()) + count_entries_row(g.last())
    }
}

/// The structural invariant of an accepted grid.
pub open spec fn grid_valid(g: Seq<Seq<char>>) -> bool {
    &&& g.len() >= 3
    &&& g[0].len() >= 3
    &&& (forall|r: int| 0 <= r < g.len() ==> (#[trigger] g[r]).len() == g[0].len())
    &&& (forall|r: int, c: int|
        0 <= r < g.len() && 0 <= c < g[r].len() ==> valid_cell_char(#[trigger] g[r][c]))
    &&& count_entries(g) == 1
    &&& (forall|r: int, c: int|
        0 <= r < g.len() && 0 <= c < g[r].len() && on_edge(g, r, c) ==> #[trigger] g[r][c] == '2'
            || g[r][c] == '4')
    &&& (forall|r: int, c: int|
        0 <= r < g.len() && 0 <= c < g[r].len() && !on_edge(g, r, c) ==> #[trigger] g[r][c]
            != '4')
}

proof fn lemma_count_row_nonneg(row: Seq<char>)
    ensures
        count_entries_row(row) >= 0,
    decreases row.len(),
{
    if row.len() > 0 {
        lemma_count_row_nonneg(row.drop_last());
    }
}

proof fn lemma_count_row_take_succ(row: Seq<char>, k: int)
    requires
        0 <= k < row.len(),
    ensures
        count_entries_row(row.take(k + 1)) == count_entries_row(row.take(k)) + if row[k] == '1' {
            1int
        } else {
            0int
        },
{
    assert(row.take(k + 1).drop_last() =~= row.take(k));
    assert(row.take(k + 1).last() == row[k]);
}

proof fn lemma_count_row_prefix_le(row: Seq<char>, k: int)
    requires
        0 <= k <= row.len(),
    ensures
        count_entries_row(row.take(k)) <= count_entries_row(row),
    decreases row.len() - k,
{
    if k == row.len() {
        assert(row.take(k) =~= row);
    } else {
        lemma_count_row_take_succ(row, k);
        lemma_count_row_prefix_le(row, k + 1);
    }
}

proof fn lemma_count_take_succ(g: Seq<Seq<char>>, k: int)
    requires
        0 <= k < g.len(),
    ensures
        count_entries(g.take(k + 1)) == count_entries(g.take(k)) + count_entries_row(g[k]),
{
    assert(g.take(k + 1).drop_last() =~= g.take(k));
    assert(g.take(k + 1).last() == g[k]);
}

proof fn lemma_count_prefix_le(g: Seq<Seq<char>>, k: int)
    requires
        0 <= k <= g.len(),
    ensures
        count_entries(g.take(k)) <= count_entries(g),
    decreases g.len() - k,
{
    if k == g.len() {
        assert(g.take(k) =~= g);
    } else {
        lemma_count_take_succ(g, k);
        lemma_count_row_nonneg(g[k]);
        lemma_count_prefix_le(g, k + 1);
    }
}

/// Law: every grid the validator accepts has at least 3 rows and 3 columns,
/// uniform row length, exactly one entry cell, and no exit cell in its
/// interior.
pub proof fn lemma_accepted_grid_shape(g: Seq<Seq<char>>)
    requires
        grid_valid(g),
    ensures
        g.len() >= 3,
        g[0].len() >= 3,
        forall|r: int| 0 <= r < g.len() ==> (#[trigger] g[r]).len() == g[0].len(),
        count_entries(g) == 1,
        forall|r: int, c: int|
            0 < r < g.len() - 1 && 0 < c < g[r].len() - 1 ==> #[trigger] g[r][c] != '4',
{
}

/// Validates the format and content of a textual maze grid.
///
/// The input is accepted exactly when its rows form a well-formed grid: at
/// least 3 rows of equal length at least 3, cell characters only, exactly one
/// entry, border cells wall or exit, and no exit in the interior.
#[verifier::rlimit(60)]
pub fn parse_file_contents(input: &str) -> (res: bool)
    ensures
        res == grid_valid(spec_lines(input@)),
{
    let lines = split_lines(input);
    let ghost g = spec_lines(input@);

    if lines.len() < 3 {
        return false;
    }
    let width = lines[0].as_str().unicode_len();
    if width < 3 {
        return false;
    }

    let mut counter: usize = 0;
    let mut r: usize = 0;
    while r < lines.len()
        invariant
            g == spec_lines(input@),
            lines.deep_view() == g,
            3 <= lines.len(),
            width == g[0].len(),
            r <= lines.len(),
            forall|k: int| 0 <= k < r ==> (#[trigger] g[k]).len() == width,
            forall|k: int, c: int|
                0 <= k < r && 0 <= c < g[k].len() ==> valid_cell_char(#[trigger] g[k][c]),
            counter == count_entries(g.take(r as int)),
            counter <= 1,
        decreases lines.len() - r,
    {
        let line = lines[r].as_str();
        assert(line@ == g[r as int]);
        if line.unicode_len() != width {
            proof {
                assert(!grid_valid(g)) by {
                    assert(g[r as int].len() != g[0].len());
                }
            }
            return false;
        }
        let mut c: usize = 0;
        while c < width
            invariant
                g == spec_lines(input@),
                lines.deep_view() == g,
                r < lines.len(),
                line@ == g[r as int],
                width == g[0].len(),
                line@.len() == width,
                c <= width,
                forall|j: int| 0 <= j < c ==> valid_cell_char(#[trigger] line@[j]),
                counter == count_entries(g.take(r as int)) + count_entries_row(
                    line@.take(c as int),
                ),
                counter <= 1,
            decreases width - c,
        {
            let ch = line.get_char(c);
            if !(ch == '1' || ch == '2' || ch == '3' || ch == '4') {
                proof {
                    assert(!grid_valid(g)) by {
                        assert(0 <= r < g.len() && 0 <= c < g[r as int].len());
                        assert(!valid_cell_char(g[r as int][c as int]));
                    }
                }
                return false;
            }
            proof {
                lemma_count_row_take_succ(line@, c as int);
            }
            if ch == '1' {
                counter += 1;
                if counter > 1 {
                    proof {
                        lemma_count_row_prefix_le(line@, c + 1);
                        lemma_count_take_succ(g, r as int);
                        lemma_count_prefix_le(g, r as int + 1);
                    }
                    return false;
                }
            }
            c += 1;
        }
        proof {
            assert(line@.take(width as int) =~= line@);
            lemma_count_take_succ(g, r as int);
        }
        r += 1;
    }
    proof {
        assert(g.take(lines.len() as int) =~= g);
    }
    if counter != 1 {
        return false;
    }

    let last_row = lines.len() - 1;
    let last_col = width - 1;
    let mut r: usize = 0;
    while r < lines.len()
        invariant
            g == spec_lines(input@),
            lines.deep_view() == g,
            3 <= lines.len(),
            width == g[0].len(),
            3 <= width,
            last_row == lines.len() - 1,
            last_col == width - 1,
            r <= lines.len(),
            forall|k: int| 0 <= k < g.len() ==> (#[trigger] g[k]).len() == width,
            forall|k: int, c: int|
                0 <= k < r && 0 <= c < g[k].len() && on_edge(g, k, c) ==> #[trigger] g[k][c] == '2'
                    || g[k][c] == '4',
            forall|k: int, c: int|
                0 <= k < r && 0 <= c < g[k].len() && !on_edge(g, k, c) ==> #[trigger] g[k][c]
                    != '4',
        decreases lines.len() - r,
    {
        let line = lines[r].as_str();
        assert(line@ == g[r as int]);
        let mut c: usize = 0;
        while c < width
            invariant
                g == spec_lines(input@),
                lines.deep_view() == g,
                r < lines.len(),
                line@ == g[r as int],
                width == g[0].len(),
                line@.len() == width,
                last_row == lines.len() - 1,
                last_col == width - 1,
                c <= width,
                forall|j: int|
                    0 <= j < c && on_edge(g, r as int, j) ==> #[trigger] g[r as int][j] == '2'
                        || g[r as int][j] == '4',
                forall|j: int|
                    0 <= j < c && !on_edge(g, r as int, j) ==> #[trigger] g[r as int][j] != '4',
            decreases width - c,
        {
            let ch = line.get_char(c);
            let is_edge = r == 0 || r == last_row || c == 0 || c == last_col;
            assert(is_edge == on_edge(g, r as int, c as int));
            if is_edge {
                if !(ch == '2' || ch == '4') {
                    proof {
                        assert(!grid_valid(g)) by {
                            assert(0 <= r < g.len() && 0 <= c < g[r as int].len());
                            assert(on_edge(g, r as int, c as int));
                            assert(g[r as int][c as int] != '2' && g[r as int][c as int] != '4');
                        }
                    }
                    return false;
                }
            } else {
                if ch == '4' {
                    proof {
                        assert(!grid_valid(g)) by {
                            assert(0 <= r < g.len() && 0 <= c < g[r as int].len());
                            assert(!on_edge(g, r as int, c as int));
                            assert(g[r as int][c as int] == '4');
                        }
                    }
                    return false;
                }
            }
            c += 1;
        }
        r += 1;
    }

    true
}

} // verus!
