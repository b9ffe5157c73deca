//! The mathematical model of the 4x4 board: the structural transforms
//! (transpose, row flip) and the effect of a shift in each direction.

use vstd::prelude::*;
use crate::game_backend::ShiftDirection;
use crate::row_model::{
    nonzeros, row_sum, spec_flip, spec_merge_gain, spec_merge_row, lemma_merge_row_props,
    lemma_row_sum_nonneg, lemma_row_update,
};

verus! {

/// The board as a sequence of four rows of four cells.
pub open spec fn grid_seq(g: [[usize; 4]; 4]) -> Seq<Seq<usize>> {
    Seq::new(4, |i: int| g@[i]@)
}

/// A well-formed board value: four rows of four cells.
pub open spec fn grid_wf(gv: Seq<Seq<usize>>) -> bool {
    gv.len() == 4 && (forall|i: int| 0 <= i < 4 ==> (#[trigger] gv[i]).len() == 4)
}

/// The board mirrored along its main diagonal.
pub open spec fn spec_transpose(gv: Seq<Seq<usize>>) -> Seq<Seq<usize>> {
    Seq::new(4, |j: int| Seq::new(4, |i: int| gv[i][j]))
}

/// Every row read end to start.
pub open spec fn flip_rows(gv: Seq<Seq<usize>>) -> Seq<Seq<usize>> {
    Seq::new(4, |i: int| spec_flip(gv[i]))
}

/// Every row shifted toward index 0.
pub open spec fn merge_rows(gv: Seq<Seq<usize>>) -> Seq<Seq<usize>> {
    Seq::new(4, |i: int| spec_merge_row(gv[i]))
}

/// The score gained by shifting the first `i` rows toward index 0.
pub open spec fn gains_upto(gv: Seq<Seq<usize>>, i: int) -> int
    decreases i,
{
    if i <= 0 {
        0
    } else {
        gains_upto(gv, i - 1) + spec_merge_gain(gv[i - 1])
    }
}

/// The score gained by shifting every row toward index 0.
pub open spec fn merge_rows_gain(gv: Seq<Seq<usize>>) -> int {
    gains_upto(gv, 4)
}

/// The total value of the tiles on the rows from `i` on.
pub open spec fn sums_from(gv: Seq<Seq<usize>>, i: int) -> int
    decreases 4 - i,
{
    if i < 0 || i >= 4 {
        0
    } else {
        row_sum(gv[i]) + sums_from(gv, i + 1)
    }
}

/// The total value of all tiles on the board.
pub open spec fn grid_sum(gv: Seq<Seq<usize>>) -> int {
    row_sum(gv[0]) + row_sum(gv[1]) + row_sum(gv[2]) + row_sum(gv[3])
}

/// The number of occupied (non-zero) cells of the board.
pub open spec fn grid_occupied(gv: Seq<Seq<usize>>) -> int {
    nonzeros(gv[0]).len() + nonzeros(gv[1]).len() + nonzeros(gv[2]).len() + nonzeros(
        gv[3],
    ).len() as int
}

/// The board with the cell at row `i`, column `j` replaced by `v`.
pub open spec fn grid_update(gv: Seq<Seq<usize>>, i: int, j: int, v: usize) -> Seq<Seq<usize>> {
    gv.update(i, gv[i].update(j, v))
}

/// The board as the row algorithm sees it for the given direction: flipped
/// and transposed so that every shift becomes a shift toward index 0.
pub open spec fn working_grid(gv: Seq<Seq<usize>>, direction: ShiftDirection) -> Seq<Seq<usize>> {
    match direction {
        ShiftDirection::Left => gv,
        ShiftDirection::Right => flip_rows(gv),
        ShiftDirection::Up => spec_transpose(gv),
        ShiftDirection::Down => flip_rows(spec_transpose(gv)),
    }
}

/// The board after the tiles slide and merge in the given direction: the
/// other three directions reduce to the leftward row algorithm through the
/// two structural transforms.
pub open spec fn spec_shift_grid(gv: Seq<Seq<usize>>, direction: ShiftDirection) -> Seq<
    Seq<usize>,
> {
    match direction {
        ShiftDirection::Left => merge_rows(gv),
        ShiftDirection::Right => flip_rows(merge_rows(flip_rows(gv))),
        ShiftDirection::Up => spec_transpose(merge_rows(spec_transpose(gv))),
        ShiftDirection::Down => spec_transpose(
            flip_rows(merge_rows(flip_rows(spec_transpose(gv)))),
        ),
    }
}

/// The score gained by a shift in the given direction.
pub open spec fn spec_shift_gain(gv: Seq<Seq<usize>>, direction: ShiftDirection) -> int {
    merge_rows_gain(working_grid(gv, direction))
}

/// The sum of a four-cell row, cell by cell.
pub proof fn lemma_row_sum4(s: Seq<usize>)
    requires
        s.len() == 4,
    ensures
        row_sum(s) == s[0] + s[1] + s[2] + s[3],
{
    let s3 = s.drop_last();
    let s2 = s3.drop_last();
    let s1 = s2.drop_last();
    let s0 = s1.drop_last();
    assert(s0.len() == 0);
    assert(row_sum(s0) == 0);
    assert(row_sum(s1) == s[0]);
    assert(row_sum(s2) == s[0] + s[1]);
    assert(row_sum(s3) == s[0] + s[1] + s[2]);
}

/// The occupied cells of a four-cell row, cell by cell.
pub proof fn lemma_row_occupied4(s: Seq<usize>)
    requires
        s.len() == 4,
    ensures
        nonzeros(s).len() == (if s[0] != 0 {
            1int
        } else {
            0int
        }) + (if s[1] != 0 {
            1int
        } else {
            0int
        }) + (if s[2] != 0 {
            1int
        } else {
            0int
        }) + (if s[3] != 0 {
            1int
        } else {
            0int
        }),
{
    let s3 = s.drop_last();
    let s2 = s3.drop_last();
    let s1 = s2.drop_last();
    let s0 = s1.drop_last();
    assert(s0.len() == 0);
    assert(nonzeros(s0).len() == 0);
    assert(nonzeros(s1).len() == if s[0] != 0 {
        1int
    } else {
        0int
    });
    assert(nonzeros(s2).len() == nonzeros(s1).len() + if s[1] != 0 {
        1int
    } else {
        0int
    });
    assert(nonzeros(s3).len() == nonzeros(s2).len() + if s[2] != 0 {
        1int
    } else {
        0int
    });
}

/// Mirroring the board along its diagonal twice restores it.
pub proof fn lemma_transpose_involutive(gv: Seq<Seq<usize>>)
    requires
        grid_wf(gv),
    ensures
        spec_transpose(spec_transpose(gv)) == gv,
{
    let t = spec_transpose(spec_transpose(gv));
    assert forall|i: int| 0 <= i < 4 implies t[i] == gv[i] by {
        assert(t[i] =~= gv[i]);
    }
    assert(t =~= gv);
}

/// Flipping every row twice restores the board.
pub proof fn lemma_flip_rows_involutive(gv: Seq<Seq<usize>>)
    requires
        grid_wf(gv),
    ensures
        flip_rows(flip_rows(gv)) == gv,
{
    let t = flip_rows(flip_rows(gv));
    assert forall|i: int| 0 <= i < 4 implies t[i] == gv[i] by {
        assert(t[i] =~= gv[i]);
    }
    assert(t =~= gv);
}

/// Transposing keeps the board well formed and preserves its total tile
/// value and its number of occupied cells.
#[verifier::rlimit(50)]
pub proof fn lemma_transpose_preserve(gv: Seq<Seq<usize>>)
    requires
        grid_wf(gv),
    ensures
        grid_wf(spec_transpose(gv)),
        grid_sum(spec_transpose(gv)) == grid_sum(gv),
        grid_occupied(spec_transpose(gv)) == grid_occupied(gv),
{
    let t = spec_transpose(gv);
    lemma_row_sum4(gv[0]);
    lemma_row_sum4(gv[1]);
    lemma_row_sum4(gv[2]);
    lemma_row_sum4(gv[3]);
    lemma_row_sum4(t[0]);
    lemma_row_sum4(t[1]);
    lemma_row_sum4(t[2]);
    lemma_row_sum4(t[3]);
    lemma_row_occupied4(gv[0]);
    lemma_row_occupied4(gv[1]);
    lemma_row_occupied4(gv[2]);
    lemma_row_occupied4(gv[3]);
    lemma_row_occupied4(t[0]);
    lemma_row_occupied4(t[1]);
    lemma_row_occupied4(t[2]);
    lemma_row_occupied4(t[3]);
}

/// Flipping the rows keeps the board well formed and preserves its total
/// tile value and its number of occupied cells.
#[verifier::rlimit(50)]
pub proof fn lemma_flip_rows_preserve(gv: Seq<Seq<usize>>)
    requires
        grid_wf(gv),
    ensures
        grid_wf(flip_rows(gv)),
        grid_sum(flip_rows(gv)) == grid_sum(gv),
        grid_occupied(flip_rows(gv)) == grid_occupied(gv),
{
    let f = flip_rows(gv);
    lemma_row_sum4(gv[0]);
    lemma_row_sum4(gv[1]);
    lemma_row_sum4(gv[2]);
    lemma_row_sum4(gv[3]);
    lemma_row_sum4(f[0]);
    lemma_row_sum4(f[1]);
    lemma_row_sum4(f[2]);
    lemma_row_sum4(f[3]);
    lemma_row_occupied4(gv[0]);
    lemma_row_occupied4(gv[1]);
    lemma_row_occupied4(gv[2]);
    lemma_row_occupied4(gv[3]);
    lemma_row_occupied4(f[0]);
    lemma_row_occupied4(f[1]);
    lemma_row_occupied4(f[2]);
    lemma_row_occupied4(f[3]);
}

/// Row sums of a well-formed board: each row carries at most the board's
/// total, the remaining-rows sums decompose one row at a time, and the whole
/// board's total is the total over all remaining rows from the start.
pub proof fn lemma_grid_sum_rows(gv: Seq<Seq<usize>>)
    requires
        grid_wf(gv),
    ensures
        sums_from(gv, 0) == grid_sum(gv),
        forall|i: int| 0 <= i < 4 ==> #[trigger] row_sum(gv[i]) <= grid_sum(gv),
        forall|i: int| 0 <= i < 4 ==> #[trigger] sums_from(gv, i) <= grid_sum(gv),
        forall|i: int| 0 <= i < 4 ==> #[trigger] row_sum(gv[i]) <= sums_from(gv, i),
        0 <= grid_sum(gv),
{
    lemma_row_sum_nonneg(gv[0]);
    lemma_row_sum_nonneg(gv[1]);
    lemma_row_sum_nonneg(gv[2]);
    lemma_row_sum_nonneg(gv[3]);
    assert(sums_from(gv, 4) == 0);
    assert(sums_from(gv, 3) == row_sum(gv[3]));
    assert(sums_from(gv, 2) == row_sum(gv[2]) + row_sum(gv[3]));
    assert(sums_from(gv, 1) == row_sum(gv[1]) + row_sum(gv[2]) + row_sum(gv[3]));
    assert(sums_from(gv, 0) == grid_sum(gv));
}

/// Shifting every row toward index 0 keeps the board well formed, conserves
/// the total tile value, never increases the number of occupied cells, gains
/// between zero and three times the board total, and leaves a trailing zero
/// in some row whenever it changed the board at all.
pub proof fn lemma_merge_rows_props(gv: Seq<Seq<usize>>)
    requires
        grid_wf(gv),
        2 * grid_sum(gv) <= usize::MAX,
    ensures
        grid_wf(merge_rows(gv)),
        grid_sum(merge_rows(gv)) == grid_sum(gv),
        grid_occupied(merge_rows(gv)) <= grid_occupied(gv),
        0 <= merge_rows_gain(gv),
        merge_rows_gain(gv) <= 3 * grid_sum(gv),
        merge_rows(gv) != gv ==> exists|k: int| 0 <= k < 4 && #[trigger] merge_rows(gv)[k][3]
            == 0,
{
    let m = merge_rows(gv);
    lemma_grid_sum_rows(gv);
    lemma_merge_row_props(gv[0]);
    lemma_merge_row_props(gv[1]);
    lemma_merge_row_props(gv[2]);
    lemma_merge_row_props(gv[3]);
    assert(gains_upto(gv, 0) == 0);
    assert(gains_upto(gv, 1) == spec_merge_gain(gv[0]));
    assert(gains_upto(gv, 2) == gains_upto(gv, 1) + spec_merge_gain(gv[1]));
    assert(gains_upto(gv, 3) == gains_upto(gv, 2) + spec_merge_gain(gv[2]));
    assert(gains_upto(gv, 4) == gains_upto(gv, 3) + spec_merge_gain(gv[3]));
    if m != gv {
        assert(!(forall|k: int| 0 <= k < 4 ==> m[k] == gv[k])) by {
            if forall|k: int| 0 <= k < 4 ==> m[k] == gv[k] {
                assert(m =~= gv);
            }
        }
        let k = choose|k: int| 0 <= k < 4 && m[k] != gv[k];
        assert(m[k][3] == 0);
    }
}

/// What a shift does to the board: well-formedness and the total tile value
/// are preserved, the number of occupied cells never grows, the gained score
/// is between zero and three times the board total, and a shift that changed
/// the board always leaves at least one empty cell behind.
pub proof fn lemma_shift_grid_props(gv: Seq<Seq<usize>>, direction: ShiftDirection)
    requires
        grid_wf(gv),
        2 * grid_sum(gv) <= usize::MAX,
    ensures
        grid_wf(spec_shift_grid(gv, direction)),
        grid_sum(spec_shift_grid(gv, direction)) == grid_sum(gv),
        grid_occupied(spec_shift_grid(gv, direction)) <= grid_occupied(gv),
        0 <= spec_shift_gain(gv, direction),
        spec_shift_gain(gv, direction) <= 3 * grid_sum(gv),
        spec_shift_grid(gv, direction) != gv ==> exists|i: int, j: int|
            0 <= i < 4 && 0 <= j < 4 && #[trigger] spec_shift_grid(gv, direction)[i][j] == 0,
{
    let w = working_grid(gv, direction);
    let r = spec_shift_grid(gv, direction);
    match direction {
        ShiftDirection::Left => {
        },
        ShiftDirection::Right => {
            lemma_flip_rows_preserve(gv);
        },
        ShiftDirection::Up => {
            lemma_transpose_preserve(gv);
        },
        ShiftDirection::Down => {
            lemma_transpose_preserve(gv);
            lemma_flip_rows_preserve(spec_transpose(gv));
        },
    }
    lemma_merge_rows_props(w);
    let m = merge_rows(w);
    match direction {
        ShiftDirection::Left => {
            if r != gv {
                let k = choose|k: int| 0 <= k < 4 && #[trigger] m[k][3] == 0;
                assert(r[k][3] == 0);
            }
        },
        ShiftDirection::Right => {
            lemma_flip_rows_preserve(m);
            lemma_flip_rows_involutive(gv);
            if r != gv {
                assert(m != w) by {
                    if m == w {
                        assert(r == gv);
                    }
                }
                let k = choose|k: int| 0 <= k < 4 && #[trigger] m[k][3] == 0;
                assert(r[k][0] == 0);
            }
        },
        ShiftDirection::Up => {
            lemma_transpose_preserve(m);
            lemma_transpose_involutive(gv);
            if r != gv {
                assert(m != w) by {
                    if m == w {
                        assert(r == gv);
                    }
                }
                let k = choose|k: int| 0 <= k < 4 && #[trigger] m[k][3] == 0;
                assert(r[3][k] == 0);
            }
        },
        ShiftDirection::Down => {
            lemma_flip_rows_preserve(m);
            lemma_transpose_preserve(flip_rows(m));
            lemma_flip_rows_involutive(spec_transpose(gv));
            lemma_transpose_involutive(gv);
            if r != gv {
                assert(m != w) by {
                    if m == w {
                        assert(flip_rows(m) == spec_transpose(gv));
                        assert(r == gv);
                    }
                }
                let k = choose|k: int| 0 <= k < 4 && #[trigger] m[k][3] == 0;
                assert(flip_rows(m)[k][0] == 0);
                assert(r[0][k] == 0);
            }
        },
    }
}

/// Replacing one cell of a well-formed board keeps it well formed, changes
/// the total by the difference, and, when a zero cell takes a non-zero value,
/// raises the number of occupied cells by one.
pub proof fn lemma_grid_update(gv: Seq<Seq<usize>>, i: int, j: int, v: usize)
    requires
        grid_wf(gv),
        0 <= i < 4,
        0 <= j < 4,
    ensures
        grid_wf(grid_update(gv, i, j, v)),
        grid_sum(grid_update(gv, i, j, v)) == grid_sum(gv) - gv[i][j] + v,
        gv[i][j] == 0 && v != 0 ==> grid_occupied(grid_update(gv, i, j, v)) == grid_occupied(gv)
            + 1,
{
    lemma_row_update(gv[i], j, v);
}

} // verus!
