//! The grid engine: a 4x4 board of tiles and a cumulative score, created
//! empty or from caller-supplied data and mutated only by directional shifts.

use vstd::prelude::*;
use crate::row_model::{
    nonzeros, pad_row, row_sum, spec_compress, spec_flip, spec_merge_gain, spec_merge_row,
    first_pair_from, merge_list, lemma_first_pair_from_spec, lemma_first_pair_pad,
    lemma_merge_shorter, lemma_merge_step, lemma_nonzeros_pad,
    lemma_nonzeros_zero_free, lemma_nonzeros_len, lemma_row_sum_nonzeros, lemma_row_sum_nonneg,
    lemma_elem_le_sum, lemma_pair_le_sum, lemma_nonzeros_all_zero, lemma_merge_row_props,
};
use crate::grid_model::{
    grid_seq, grid_wf, grid_sum, grid_occupied, grid_update, spec_transpose, flip_rows,
    merge_rows, gains_upto, merge_rows_gain, sums_from, spec_shift_grid,
    spec_shift_gain, lemma_grid_sum_rows, lemma_grid_update, lemma_flip_rows_preserve,
    lemma_transpose_preserve, lemma_shift_grid_props,
};
use rand::Rng;

verus! {

/// One row of the board.
pub type RowType = [usize; 4];

/// The whole board.
pub type GridType = [[usize; 4]; 4];

/// The four directions a shift can slide the tiles toward.
#[derive(Debug, Clone, PartialEq, Eq)]
pub enum ShiftDirection {
    Up,
    Down,
    Left,
    Right,
}

/// The grid engine: the board and the score accumulated by merges.
#[derive(Debug, Clone)]
pub struct Backend {
    grid: GridType,
    score: usize,
}

impl Backend {
    /// The board, as a mathematical value.
    pub closed spec fn spec_grid(&self) -> GridType {
        self.grid
    }

    /// The score, as a mathematical value.
    pub closed spec fn spec_score(&self) -> usize {
        self.score
    }

    /// An engine restored from caller-supplied data.  No validation happens
    /// here: keeping every non-zero cell a power of two is the caller's
    /// responsibility.
    pub fn load(grid: GridType, score: usize) -> (backend: Self)
        ensures
            backend.spec_grid() == grid,
            backend.spec_score() == score,
    {
        Self { grid, score }
    }

    /// An engine built from a caller-supplied board, with the score reset.
    /// As with `load`, the board is taken as given, unvalidated.
    pub fn load_grid(grid: GridType) -> (backend: Self)
        ensures
            backend.spec_grid() == grid,
            backend.spec_score() == 0,
    {
        Self { grid, score: 0 }
    }

    /// A copy of the board.
    pub fn grid(&self) -> (g: GridType)
        ensures
            g == self.spec_grid(),
    {
        self.grid
    }

    /// The board, borrowed for rendering.
    pub fn grid_ref(&self) -> (g: &GridType)
        ensures
            *g == self.spec_grid(),
    {
        &self.grid
    }

    /// The current score.
    pub fn score(&self) -> (s: usize)
        ensures
            s == self.spec_score(),
    {
        self.score
    }

    /// Slide the non-zero cells of a row toward index 0, closing the gaps.
    #[verifier::loop_isolation(false)]
    pub fn compress(input: &RowType) -> (out: RowType)
        ensures
            out@ == spec_compress(input@),
    {
        let mut out: RowType = [0; 4];
        let mut inserted: usize = 0;
        let mut i: usize = 0;
        while i < 4
            invariant
                i <= 4,
                inserted <= i,
                out@.take(inserted as int) == nonzeros(input@.take(i as int)),
                forall|k: int| inserted <= k < 4 ==> out@[k] == 0,
            decreases 4 - i,
        {
            proof {
                assert(input@.take(i + 1).drop_last() =~= input@.take(i as int));
                assert(input@.take(i + 1).last() == input@[i as int]);
            }
            if input[i] != 0 {
                out[inserted] = input[i];
                proof {
                    assert(out@.take(inserted + 1) =~= nonzeros(input@.take(i as int)).push(
                        input@[i as int],
                    ));
                }
                inserted = inserted + 1;
            }
            i = i + 1;
        }
        proof {
            assert(input@.take(4) =~= input@);
            let l = nonzeros(input@);
            lemma_nonzeros_zero_free(input@);
            lemma_nonzeros_len(input@);
            lemma_nonzeros_pad(l, 4);
            assert(l.len() == inserted);
            assert(out@ =~= pad_row(l, 4));
        }
        out
    }

    /// Shift one row toward index 0: compress, merge the earliest equal
    /// adjacent pair into a doubled tile whose value is added to the score,
    /// and restart from the front until no merge remains.
    #[verifier::loop_isolation(false)]
    pub fn merge_row(input: &RowType, score: &mut usize) -> (out: RowType)
        requires
            2 * row_sum(input@) <= usize::MAX,
            *old(score) + 3 * row_sum(input@) <= usize::MAX,
        ensures
            out@ == spec_merge_row(input@),
            *final(score) == *old(score) + spec_merge_gain(input@),
    {
        let ghost l0 = nonzeros(input@);
        let ghost total = row_sum(input@);
        proof {
            lemma_row_sum_nonneg(input@);
            lemma_nonzeros_zero_free(input@);
            lemma_nonzeros_len(input@);
            lemma_nonzeros_pad(l0, 4);
            lemma_row_sum_nonzeros(input@);
        }
        let mut out = Self::compress(input);
        let mut gained: usize = 0;
        let mut done = false;
        while !done
            invariant
                out@.len() == 4,
                out@ == pad_row(nonzeros(out@), 4),
                merge_list(nonzeros(out@)).0 == merge_list(l0).0,
                gained + merge_list(nonzeros(out@)).1 == merge_list(l0).1,
                row_sum(out@) == total,
                nonzeros(out@).len() <= l0.len(),
                gained <= (l0.len() - nonzeros(out@).len()) * total,
                gained <= 3 * total,
                done ==> merge_list(nonzeros(out@)) == (nonzeros(out@), 0int),
            decreases nonzeros(out@).len() + (if done {
                0int
            } else {
                1int
            }),
        {
            let ghost cur = nonzeros(out@);
            proof {
                lemma_nonzeros_zero_free(out@);
                lemma_nonzeros_len(out@);
                lemma_first_pair_pad(cur, 4, 0);
            }
            match Self::find_pair(&out) {
                None => {
                    proof {
                        assert(merge_list(cur) == (cur, 0int));
                    }
                    done = true;
                },
                Some(idx) => {
                    proof {
                        lemma_first_pair_from_spec(cur, 0);
                        lemma_nonzeros_pad(cur, 4);
                        lemma_elem_le_sum(out@, idx as int);
                        lemma_pair_le_sum(out@, idx as int, idx as int + 1);
                        lemma_row_sum_nonzeros(out@);
                    }
                    let doubled: usize = out[idx] * 2;
                    proof {
                        assert(gained + doubled <= 3 * total) by (nonlinear_arith)
                            requires
                                gained <= (l0.len() - cur.len()) * total,
                                l0.len() - cur.len() <= 2,
                                doubled <= total,
                                0 <= total,
                        ;
                        assert(gained + doubled <= (l0.len() - (cur.len() - 1)) * total)
                            by (nonlinear_arith)
                            requires
                                gained <= (l0.len() - cur.len()) * total,
                                doubled <= total,
                        ;
                    }
                    gained = gained + doubled;
                    out[idx] = doubled;
                    out[idx + 1] = 0;
                    proof {
                        lemma_merge_shorter(cur, idx as int);
                        lemma_merge_step(cur, idx as int, 4);
                    }
                    out = Self::compress(&out);
                    proof {
                        let v = (2 * cur[idx as int]) as usize;
                        let shorter = cur.take(idx as int) + seq![v] + cur.skip(idx as int + 2);
                        lemma_nonzeros_pad(shorter, 4);
                        assert(nonzeros(out@) == shorter);
                        assert(merge_list(cur).0 == merge_list(shorter).0);
                        assert(merge_list(cur).1 == merge_list(shorter).1 + v);
                        lemma_row_sum_nonzeros(out@);
                    }
                },
            }
        }
        proof {
            assert(merge_list(l0).0 == nonzeros(out@));
            assert(gained == merge_list(l0).1);
            assert(out@ == spec_merge_row(input@));
        }
        *score = *score + gained;
        out
    }

    /// The position of the earliest equal adjacent non-zero pair of a row.
    fn find_pair(row: &RowType) -> (r: Option<usize>)
        ensures
            match r {
                Some(k) => 0 <= k < 3 && first_pair_from(row@, 0) == Some(k as int),
                None => first_pair_from(row@, 0) == Option::<int>::None,
            },
    {
        let mut idx: usize = 0;
        while idx < 3
            invariant
                idx <= 3,
                forall|k: int|
                    0 <= k < idx ==> !((#[trigger] row@[k]) != 0 && row@[k] == row@[k + 1]),
            decreases 3 - idx,
        {
            if row[idx] != 0 && row[idx] == row[idx + 1] {
                proof {
                    lemma_first_pair_from_spec(row@, 0);
                }
                return Some(idx);
            }
            idx = idx + 1;
        }
        proof {
            lemma_first_pair_from_spec(row@, 0);
        }
        None
    }
}

/// Relies on rand::Rng::gen_range on the thread-local generator of the rand
/// crate: the result is uniformly distributed over `0..n`, and any single
/// call promises only that its result is below the bound.
#[verifier::external_body]
fn random_below(n: usize) -> (r: usize)
    requires
        n >= 1,
    ensures
        r < n,
{
    rand::thread_rng().gen_range(0..n)
}

/// How one shift relates the engine state before and after it: the board
/// merges in the given direction and the score grows by the gained value; a
/// changed board then receives exactly one new 2-or-4 tile in a previously
/// empty cell, while an unchanged board stays exactly as it was.
pub open spec fn shift_spec(pre: Backend, post: Backend, direction: ShiftDirection) -> bool {
    let gv = grid_seq(pre.spec_grid());
    let merged = spec_shift_grid(gv, direction);
    &&& post.spec_score() == pre.spec_score() + spec_shift_gain(gv, direction)
    &&& (merged == gv ==> grid_seq(post.spec_grid()) == gv)
    &&& (merged != gv ==> exists|r: int, c: int|
        0 <= r < 4 && 0 <= c < 4 && #[trigger] merged[r][c] == 0 && (grid_seq(post.spec_grid())
            == grid_update(merged, r, c, 2usize) || grid_seq(post.spec_grid()) == grid_update(
            merged,
            r,
            c,
            4usize,
        )))
}

impl Backend {
    /// Cell-by-cell equality of two boards.
    fn grids_equal(a: &GridType, b: &GridType) -> (r: bool)
        ensures
            r == (grid_seq(*a) == grid_seq(*b)),
    {
        let mut i: usize = 0;
        while i < 4
            invariant
                i <= 4,
                forall|p: int, q: int|
                    0 <= p < i && 0 <= q < 4 ==> #[trigger] a@[p]@[q] == b@[p]@[q],
            decreases 4 - i,
        {
            let mut j: usize = 0;
            while j < 4
                invariant
                    i < 4,
                    j <= 4,
                    forall|p: int, q: int|
                        0 <= p < i && 0 <= q < 4 ==> #[trigger] a@[p]@[q] == b@[p]@[q],
                    forall|q: int| 0 <= q < j ==> #[trigger] a@[i as int]@[q] == b@[i as int]@[q],
                decreases 4 - j,
            {
                if a[i][j] != b[i][j] {
                    proof {
                        assert(grid_seq(*a)[i as int][j as int] != grid_seq(*b)[i as int][j as int]);
                    }
                    return false;
                }
                j = j + 1;
            }
            i = i + 1;
        }
        proof {
            assert forall|p: int| 0 <= p < 4 implies grid_seq(*a)[p] == grid_seq(*b)[p] by {
                assert(grid_seq(*a)[p] =~= grid_seq(*b)[p]);
            }
            assert(grid_seq(*a) =~= grid_seq(*b));
        }
        true
    }

    /// Shift every row of a board toward index 0, flipping each row before
    /// and after the row algorithm when the shift goes toward the high end.
    #[verifier::loop_isolation(false)]
    fn half_merge(g: &GridType, score: &mut usize, toward_high: bool) -> (out: GridType)
        requires
            2 * grid_sum(grid_seq(*g)) <= usize::MAX,
            *old(score) + 3 * grid_sum(grid_seq(*g)) <= usize::MAX,
        ensures
            grid_seq(out) == (if toward_high {
                flip_rows(merge_rows(flip_rows(grid_seq(*g))))
            } else {
                merge_rows(grid_seq(*g))
            }),
            *final(score) == *old(score) + merge_rows_gain(
                if toward_high {
                    flip_rows(grid_seq(*g))
                } else {
                    grid_seq(*g)
                },
            ),
    {
        let ghost gv = grid_seq(*g);
        let ghost w = if toward_high {
            flip_rows(gv)
        } else {
            gv
        };
        proof {
            assert(grid_wf(gv));
            if toward_high {
                lemma_flip_rows_preserve(gv);
            }
            lemma_grid_sum_rows(w);
        }
        let mut out: GridType = *g;
        let mut sc: usize = *score;
        let mut i: usize = 0;
        while i < 4
            invariant
                i <= 4,
                forall|k: int|
                    0 <= k < i ==> #[trigger] grid_seq(out)[k] == (if toward_high {
                        spec_flip(spec_merge_row(w[k]))
                    } else {
                        spec_merge_row(w[k])
                    }),
                forall|k: int| i <= k < 4 ==> #[trigger] grid_seq(out)[k] == gv[k],
                sc == *old(score) + gains_upto(w, i as int),
                sc + 3 * sums_from(w, i as int) <= usize::MAX,
            decreases 4 - i,
        {
            let row: RowType = out[i];
            let wrow: RowType = if toward_high {
                flip(&row)
            } else {
                row
            };
            proof {
                assert(row@ == grid_seq(out)[i as int]);
                assert(grid_seq(out)[i as int] == gv[i as int]);
                if toward_high {
                    assert(w[i as int] == spec_flip(gv[i as int]));
                }
                assert(wrow@ == w[i as int]);
                assert(sums_from(w, i as int) == row_sum(w[i as int]) + sums_from(w, i + 1));
                assert(row_sum(w[i as int]) <= grid_sum(w));
                lemma_merge_row_props(w[i as int]);
            }
            let merged = Self::merge_row(&wrow, &mut sc);
            let newrow: RowType = if toward_high {
                flip(&merged)
            } else {
                merged
            };
            let ghost outpre = grid_seq(out);
            out[i] = newrow;
            proof {
                assert(grid_seq(out)[i as int] == newrow@);
                assert(forall|k: int|
                    0 <= k < 4 && k != i ==> #[trigger] grid_seq(out)[k] == outpre[k]);
                assert(gains_upto(w, i + 1) == gains_upto(w, i as int) + spec_merge_gain(
                    w[i as int],
                ));
            }
            i = i + 1;
        }
        *score = sc;
        proof {
            let target = if toward_high {
                flip_rows(merge_rows(w))
            } else {
                merge_rows(w)
            };
            assert(grid_seq(out) =~= target);
        }
        out
    }

    /// Slide and merge the whole board in the given direction, adding every
    /// merged tile's value to the score.  Returns whether the board changed.
    pub fn merge(&mut self, direction: ShiftDirection) -> (changed: bool)
        requires
            2 * grid_sum(grid_seq(old(self).spec_grid())) <= usize::MAX,
            old(self).spec_score() + 3 * grid_sum(grid_seq(old(self).spec_grid()))
                <= usize::MAX,
        ensures
            grid_seq(final(self).spec_grid()) == spec_shift_grid(
                grid_seq(old(self).spec_grid()),
                direction,
            ),
            final(self).spec_score() == old(self).spec_score() + spec_shift_gain(
                grid_seq(old(self).spec_grid()),
                direction,
            ),
            changed == (grid_seq(final(self).spec_grid()) != grid_seq(old(self).spec_grid())),
    {
        let ghost gv = grid_seq(self.grid);
        let og = self.grid;
        let mut sc: usize = self.score;
        match direction {
            ShiftDirection::Left => {
                self.grid = Self::half_merge(&og, &mut sc, false);
            },
            ShiftDirection::Right => {
                self.grid = Self::half_merge(&og, &mut sc, true);
            },
            ShiftDirection::Up => {
                proof {
                    lemma_transpose_preserve(gv);
                }
                let t = transpose(&og);
                let m = Self::half_merge(&t, &mut sc, false);
                self.grid = transpose(&m);
            },
            ShiftDirection::Down => {
                proof {
                    lemma_transpose_preserve(gv);
                }
                let t = transpose(&og);
                let m = Self::half_merge(&t, &mut sc, true);
                self.grid = transpose(&m);
            },
        }
        self.score = sc;
        let changed: bool = !Self::grids_equal(&self.grid, &og);
        changed
    }

    /// Every empty cell of the board, listed as (column, row) pairs.
    fn empty_cells(&self) -> (cells: Vec<(usize, usize)>)
        ensures
            forall|t: int|
                0 <= t < cells@.len() ==> (#[trigger] cells@[t]).1 < 4 && cells@[t].0 < 4
                    && grid_seq(self.spec_grid())[cells@[t].1 as int][cells@[t].0 as int] == 0,
            forall|r: int, c: int|
                0 <= r < 4 && 0 <= c < 4 && #[trigger] grid_seq(self.spec_grid())[r][c] == 0
                    ==> cells@.contains((c as usize, r as usize)),
    {
        let mut cells: Vec<(usize, usize)> = Vec::new();
        let mut row: usize = 0;
        while row < 4
            invariant
                row <= 4,
                forall|t: int|
                    0 <= t < cells@.len() ==> (#[trigger] cells@[t]).1 < 4 && cells@[t].0 < 4
                        && grid_seq(self.spec_grid())[cells@[t].1 as int][cells@[t].0 as int]
                        == 0,
                forall|r: int, c: int|
                    0 <= r < row && 0 <= c < 4 && #[trigger] grid_seq(self.spec_grid())[r][c]
                        == 0 ==> cells@.contains((c as usize, r as usize)),
            decreases 4 - row,
        {
            let mut col: usize = 0;
            while col < 4
                invariant
                    row < 4,
                    col <= 4,
                    forall|t: int|
                        0 <= t < cells@.len() ==> (#[trigger] cells@[t]).1 < 4 && cells@[t].0 < 4
                            && grid_seq(self.spec_grid())[cells@[t].1 as int][cells@[t].0 as int]
                            == 0,
                    forall|r: int, c: int|
                        0 <= r < row && 0 <= c < 4 && #[trigger] grid_seq(self.spec_grid())[r][c]
                            == 0 ==> cells@.contains((c as usize, r as usize)),
                    forall|c: int|
                        0 <= c < col && #[trigger] grid_seq(self.spec_grid())[row as int][c] == 0
                            ==> cells@.contains((c as usize, row as usize)),
                decreases 4 - col,
            {
                let ghost before = cells@;
                if self.grid[row][col] == 0 {
                    cells.push((col, row));
                    proof {
                        assert(cells@ == before.push((col, row)));
                        assert(cells@[before.len() as int] == (col, row));
                        assert(cells@.contains((col, row)));
                        assert forall|x: (usize, usize)|
                            before.contains(x) implies #[trigger] cells@.contains(x) by {
                            let t = choose|t: int| 0 <= t < before.len() && before[t] == x;
                            assert(cells@[t] == x);
                        }
                    }
                }
                col = col + 1;
            }
            row = row + 1;
        }
        cells
    }

    /// Place a 2 or a 4, each half the time, into an empty cell chosen
    /// uniformly among all empty cells of the board.
    fn spawn(&mut self)
        requires
            exists|r: int, c: int|
                0 <= r < 4 && 0 <= c < 4 && #[trigger] grid_seq(old(self).spec_grid())[r][c]
                    == 0,
        ensures
            final(self).spec_score() == old(self).spec_score(),
            exists|r: int, c: int|
                0 <= r < 4 && 0 <= c < 4 && #[trigger] grid_seq(old(self).spec_grid())[r][c] == 0
                    && (grid_seq(final(self).spec_grid()) == grid_update(
                    grid_seq(old(self).spec_grid()),
                    r,
                    c,
                    2usize,
                ) || grid_seq(final(self).spec_grid()) == grid_update(
                    grid_seq(old(self).spec_grid()),
                    r,
                    c,
                    4usize,
                )),
    {
        let ghost gv = grid_seq(self.grid);
        let cells = self.empty_cells();
        proof {
            let (r, c) = choose|r: int, c: int|
                0 <= r < 4 && 0 <= c < 4 && #[trigger] gv[r][c] == 0;
            assert(cells@.contains((c as usize, r as usize)));
            assert(cells@.len() >= 1);
        }
        let pick: usize = random_below(cells.len());
        let chosen = cells[pick];
        let x: usize = chosen.0;
        let y: usize = chosen.1;
        let v: usize = if random_below(2) == 0 {
            2
        } else {
            4
        };
        self.grid[y][x] = v;
        proof {
            assert(grid_seq(self.grid)[y as int] =~= gv[y as int].update(x as int, v));
            assert(grid_seq(self.grid) =~= grid_update(gv, y as int, x as int, v));
        }
    }

    /// The primary operation: slide and merge the board in the given
    /// direction; if and only if that changed the board, spawn one new tile.
    /// A shift that can move nothing is a legal no-op.
    pub fn shift(&mut self, direction: ShiftDirection)
        requires
            2 * grid_sum(grid_seq(old(self).spec_grid())) <= usize::MAX,
            old(self).spec_score() + 3 * grid_sum(grid_seq(old(self).spec_grid()))
                <= usize::MAX,
        ensures
            shift_spec(*old(self), *final(self), direction),
            final(self).spec_score() >= old(self).spec_score(),
            grid_occupied(grid_seq(final(self).spec_grid())) <= grid_occupied(
                grid_seq(old(self).spec_grid()),
            ) + 1,
            spec_shift_grid(grid_seq(old(self).spec_grid()), direction) != grid_seq(
                old(self).spec_grid(),
            ) ==> grid_occupied(grid_seq(final(self).spec_grid())) == grid_occupied(
                spec_shift_grid(grid_seq(old(self).spec_grid()), direction),
            ) + 1,
            grid_sum(grid_seq(final(self).spec_grid())) >= grid_sum(
                grid_seq(old(self).spec_grid()),
            ),
    {
        let ghost gv = grid_seq(self.grid);
        proof {
            assert(grid_wf(gv));
            lemma_shift_grid_props(gv, direction);
        }
        let ghost merged = spec_shift_grid(gv, direction);
        if self.merge(direction) {
            self.spawn();
            proof {
                let (r, c) = choose|r: int, c: int|
                    0 <= r < 4 && 0 <= c < 4 && #[trigger] merged[r][c] == 0 && (grid_seq(
                        self.spec_grid(),
                    ) == grid_update(merged, r, c, 2usize) || grid_seq(self.spec_grid())
                        == grid_update(merged, r, c, 4usize));
                lemma_grid_update(merged, r, c, 2usize);
                lemma_grid_update(merged, r, c, 4usize);
            }
        }
    }

    /// A fresh game: an empty board and a zero score, then two spawned
    /// tiles.  Exactly two cells are occupied and each holds a 2 or a 4.
    pub fn new() -> (backend: Self)
        ensures
            backend.spec_score() == 0,
            grid_occupied(grid_seq(backend.spec_grid())) == 2,
            forall|r: int, c: int|
                0 <= r < 4 && 0 <= c < 4 ==> ((#[trigger] grid_seq(backend.spec_grid())[r][c])
                    == 0 || grid_seq(backend.spec_grid())[r][c] == 2 || grid_seq(
                    backend.spec_grid(),
                )[r][c] == 4),
    {
        let mut backend = Self { grid: [[0; 4]; 4], score: 0 };
        let ghost g0 = grid_seq(backend.grid);
        proof {
            assert(forall|r: int, c: int| 0 <= r < 4 && 0 <= c < 4 ==> #[trigger] g0[r][c] == 0);
            lemma_nonzeros_all_zero(g0[0]);
            lemma_nonzeros_all_zero(g0[1]);
            lemma_nonzeros_all_zero(g0[2]);
            lemma_nonzeros_all_zero(g0[3]);
            assert(grid_occupied(g0) == 0);
            assert(grid_seq(backend.spec_grid())[0][0] == 0);
            assert(exists|r: int, c: int|
                0 <= r < 4 && 0 <= c < 4 && #[trigger] grid_seq(backend.spec_grid())[r][c] == 0);
        }
        backend.spawn();
        let ghost g1 = grid_seq(backend.grid);
        proof {
            let (r, c) = choose|r: int, c: int|
                0 <= r < 4 && 0 <= c < 4 && #[trigger] g0[r][c] == 0 && (g1 == grid_update(
                    g0,
                    r,
                    c,
                    2usize,
                ) || g1 == grid_update(g0, r, c, 4usize));
            lemma_grid_update(g0, r, c, 2usize);
            lemma_grid_update(g0, r, c, 4usize);
            assert(grid_occupied(g1) == 1);
            if r == 0 && c == 0 {
                assert(grid_seq(backend.spec_grid())[1][0] == 0);
            } else {
                assert(grid_seq(backend.spec_grid())[0][0] == 0);
            }
            assert(exists|r: int, c: int|
                0 <= r < 4 && 0 <= c < 4 && #[trigger] grid_seq(backend.spec_grid())[r][c] == 0);
        }
        backend.spawn();
        let ghost g2 = grid_seq(backend.grid);
        proof {
            let (r, c) = choose|r: int, c: int|
                0 <= r < 4 && 0 <= c < 4 && #[trigger] g1[r][c] == 0 && (g2 == grid_update(
                    g1,
                    r,
                    c,
                    2usize,
                ) || g2 == grid_update(g1, r, c, 4usize));
            lemma_grid_update(g1, r, c, 2usize);
            lemma_grid_update(g1, r, c, 4usize);
            assert(grid_occupied(g2) == 2);
        }
        backend
    }
}

/// The board mirrored along its main diagonal: rows become columns.
pub fn transpose(input: &GridType) -> (out: GridType)
    ensures
        grid_seq(out) == spec_transpose(
            grid_seq(*input),
        ),
{
    let mut transposed: GridType = [[0; 4]; 4];
    let mut i: usize = 0;
    while i < 4
        invariant
            i <= 4,
            forall|a: int, b: int|
                0 <= a < 4 && 0 <= b < 4 && a < i ==> transposed@[b as int]@[a as int]
                    == #[trigger] input@[a]@[b],
        decreases 4 - i,
    {
        let mut j: usize = 0;
        while j < 4
            invariant
                i < 4,
                j <= 4,
                forall|a: int, b: int|
                    0 <= a < 4 && 0 <= b < 4 && a < i ==> transposed@[b as int]@[a as int]
                        == #[trigger] input@[a]@[b],
                forall|b: int|
                    0 <= b < j ==> transposed@[b]@[i as int] == #[trigger] input@[i as int]@[b],
            decreases 4 - j,
        {
            transposed[j][i] = input[i][j];
            j = j + 1;
        }
        i = i + 1;
    }
    proof {
        let gv = grid_seq(*input);
        let tv = grid_seq(transposed);
        assert forall|b: int| 0 <= b < 4 implies tv[b] == spec_transpose(gv)[b] by {
            assert(tv[b] =~= spec_transpose(gv)[b]);
        }
        assert(tv =~= spec_transpose(gv));
    }
    transposed
}

/// A row read end to start.
pub fn flip(input: &RowType) -> (out: RowType)
    ensures
        out@ == spec_flip(input@),
{
    let mut out: RowType = [0; 4];
    out[0] = input[3];
    out[1] = input[2];
    out[2] = input[1];
    out[3] = input[0];
    proof {
        assert(out@ =~= spec_flip(input@));
    }
    out
}

} // verus!
