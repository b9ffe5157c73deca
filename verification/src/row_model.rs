//! The mathematical model of a single row of the grid: compression (sliding
//! the tiles toward index 0) and the repeated merge pass that a shift applies.

use vstd::prelude::*;

verus! {

/// The non-zero entries of a row, in their original order.
pub open spec fn nonzeros(s: Seq<usize>) -> Seq<usize>
    decreases s.len(),
{
    if s.len() == 0 {
        Seq::empty()
    } else {
        let rest = nonzeros(s.drop_last());
        if s.last() != 0 {
            rest.push(s.last())
        } else {
            rest
        }
    }
}

/// Holds when no entry of the sequence is zero.
pub open spec fn zero_free(s: Seq<usize>) -> bool {
    forall|i: int| 0 <= i < s.len() ==> s[i] != 0
}

/// The entries of `l` followed by as many zeros as it takes to reach length `n`.
pub open spec fn pad_row(l: Seq<usize>, n: nat) -> Seq<usize>
    recommends
        l.len() <= n,
{
    l + Seq::new((n - l.len()) as nat, |i: int| 0usize)
}

/// Compression: the non-zero entries slide toward index 0 and zeros fill the tail.
pub open spec fn spec_compress(s: Seq<usize>) -> Seq<usize> {
    pad_row(nonzeros(s), s.len())
}

/// The sum of all entries of a row.
pub open spec fn row_sum(s: Seq<usize>) -> int
    decreases s.len(),
{
    if s.len() == 0 {
        0
    } else {
        row_sum(s.drop_last()) + s.last()
    }
}

/// The smallest index `j >= i` where positions `j` and `j + 1` hold equal
/// non-zero values, if any.
pub open spec fn first_pair_from(s: Seq<usize>, i: int) -> Option<int>
    decreases s.len() - i,
{
    if i + 1 >= s.len() {
        None
    } else if s[i] != 0 && s[i] == s[i + 1] {
        Some(i)
    } else {
        first_pair_from(s, i + 1)
    }
}

/// Characterizes `first_pair_from`: a found index carries an equal non-zero
/// pair and nothing earlier does; `None` means no such pair exists at all.
pub proof fn lemma_first_pair_from_spec(s: Seq<usize>, i: int)
    ensures
        match first_pair_from(s, i) {
            Some(j) => i <= j && j + 1 < s.len() && s[j] != 0 && s[j] == s[j + 1] && (forall|
                k: int,
            |
                i <= k < j ==> !((#[trigger] s[k]) != 0 && s[k] == s[k + 1])),
            None => forall|k: int|
                i <= k && k + 1 < s.len() ==> !((#[trigger] s[k]) != 0 && s[k] == s[k + 1]),
        },
    decreases s.len() - i,
{
    if i + 1 >= s.len() {
    } else if s[i] != 0 && s[i] == s[i + 1] {
    } else {
        lemma_first_pair_from_spec(s, i + 1);
    }
}

/// The merge pass on the list of non-zero values of a row: as long as two
/// adjacent equal values remain, the earliest such pair becomes a single
/// doubled value, that value is added to the gained score, and the scan
/// restarts from the front.  Returns the final list and the total gain.
pub open spec fn merge_list(l: Seq<usize>) -> (Seq<usize>, int)
    decreases l.len(),
    via merge_list_decreases
{
    match first_pair_from(l, 0) {
        None => (l, 0),
        Some(i) => {
            let merged = (2 * l[i]) as usize;
            let keep = if merged == 0 {
                Seq::<usize>::empty()
            } else {
                seq![merged]
            };
            let rest = merge_list(l.take(i) + keep + l.skip(i + 2));
            (rest.0, rest.1 + merged)
        },
    }
}

#[via_fn]
proof fn merge_list_decreases(l: Seq<usize>) {
    lemma_first_pair_from_spec(l, 0);
}

/// The row after a shift toward index 0: compress, then merge until no
/// adjacent equal pair is left, with zeros refilling the tail.
pub open spec fn spec_merge_row(s: Seq<usize>) -> Seq<usize> {
    pad_row(merge_list(nonzeros(s)).0, s.len())
}

/// The score gained by shifting a row toward index 0.
pub open spec fn spec_merge_gain(s: Seq<usize>) -> int {
    merge_list(nonzeros(s)).1
}

/// The row read from its far end back to its start.
pub open spec fn spec_flip(s: Seq<usize>) -> Seq<usize> {
    Seq::new(s.len(), |i: int| s[s.len() - 1 - i])
}

/// A row never has more non-zero entries than entries.
pub proof fn lemma_nonzeros_len(s: Seq<usize>)
    ensures
        nonzeros(s).len() <= s.len(),
    decreases s.len(),
{
    if s.len() > 0 {
        lemma_nonzeros_len(s.drop_last());
    }
}

/// The list of non-zero entries contains no zero.
pub proof fn lemma_nonzeros_zero_free(s: Seq<usize>)
    ensures
        zero_free(nonzeros(s)),
    decreases s.len(),
{
    if s.len() > 0 {
        lemma_nonzeros_zero_free(s.drop_last());
    }
}

/// On a row without zeros, taking the non-zero entries changes nothing.
pub proof fn lemma_nonzeros_of_zero_free(s: Seq<usize>)
    requires
        zero_free(s),
    ensures
        nonzeros(s) == s,
    decreases s.len(),
{
    if s.len() > 0 {
        lemma_nonzeros_of_zero_free(s.drop_last());
        assert(s.drop_last().push(s.last()) =~= s);
    }
}

/// A row of zeros has no non-zero entries.
pub proof fn lemma_nonzeros_all_zero(s: Seq<usize>)
    requires
        forall|i: int| 0 <= i < s.len() ==> s[i] == 0,
    ensures
        nonzeros(s) == Seq::<usize>::empty(),
    decreases s.len(),
{
    if s.len() > 0 {
        lemma_nonzeros_all_zero(s.drop_last());
    }
}

/// Taking non-zero entries distributes over concatenation.
pub proof fn lemma_nonzeros_add(a: Seq<usize>, b: Seq<usize>)
    ensures
        nonzeros(a + b) == nonzeros(a) + nonzeros(b),
    decreases b.len(),
{
    if b.len() == 0 {
        assert(a + b =~= a);
        assert(nonzeros(a) + b =~= nonzeros(a));
    } else {
        lemma_nonzeros_add(a, b.drop_last());
        assert((a + b).drop_last() =~= a + b.drop_last());
        assert((a + b).last() == b.last());
        if b.last() != 0 {
            assert((nonzeros(a) + nonzeros(b.drop_last())).push(b.last()) =~= nonzeros(a)
                + nonzeros(b.drop_last()).push(b.last()));
        }
    }
}

/// The non-zero entries of a single-entry row.
pub proof fn lemma_nonzeros_singleton(v: usize)
    ensures
        v != 0 ==> nonzeros(seq![v]) == seq![v],
        v == 0 ==> nonzeros(seq![v]) == Seq::<usize>::empty(),
{
    let s = seq![v];
    let e = Seq::<usize>::empty();
    assert(s.drop_last() =~= e);
    assert(nonzeros(e) == e);
    assert(s.last() == v);
    if v != 0 {
        assert(e.push(v) =~= seq![v]);
    }
}

/// The sum of a row distributes over concatenation.
pub proof fn lemma_row_sum_add(a: Seq<usize>, b: Seq<usize>)
    ensures
        row_sum(a + b) == row_sum(a) + row_sum(b),
    decreases b.len(),
{
    if b.len() == 0 {
        assert(a + b =~= a);
    } else {
        lemma_row_sum_add(a, b.drop_last());
        assert((a + b).drop_last() =~= a + b.drop_last());
        assert((a + b).last() == b.last());
    }
}

/// A sum of machine integers is never negative.
pub proof fn lemma_row_sum_nonneg(s: Seq<usize>)
    ensures
        0 <= row_sum(s),
    decreases s.len(),
{
    if s.len() > 0 {
        lemma_row_sum_nonneg(s.drop_last());
    }
}

/// Every entry of a row is at most the row's sum.
pub proof fn lemma_elem_le_sum(s: Seq<usize>, i: int)
    requires
        0 <= i < s.len(),
    ensures
        s[i] <= row_sum(s),
    decreases s.len(),
{
    if i + 1 == s.len() {
        lemma_row_sum_nonneg(s.drop_last());
    } else {
        lemma_elem_le_sum(s.drop_last(), i);
    }
}

/// Two entries at distinct positions together are at most the row's sum.
pub proof fn lemma_pair_le_sum(s: Seq<usize>, i: int, j: int)
    requires
        0 <= i < j < s.len(),
    ensures
        s[i] + s[j] <= row_sum(s),
    decreases s.len(),
{
    if j + 1 == s.len() {
        lemma_elem_le_sum(s.drop_last(), i);
    } else {
        lemma_pair_le_sum(s.drop_last(), i, j);
    }
}

/// Zeros contribute nothing: the non-zero entries carry the whole sum.
pub proof fn lemma_row_sum_nonzeros(s: Seq<usize>)
    ensures
        row_sum(nonzeros(s)) == row_sum(s),
    decreases s.len(),
{
    if s.len() > 0 {
        lemma_row_sum_nonzeros(s.drop_last());
        if s.last() != 0 {
            let r = nonzeros(s.drop_last());
            assert(r.push(s.last()).drop_last() =~= r);
            assert(r.push(s.last()).last() == s.last());
        }
    }
}

/// A row of zeros sums to zero.
pub proof fn lemma_row_sum_all_zero(s: Seq<usize>)
    requires
        forall|i: int| 0 <= i < s.len() ==> s[i] == 0,
    ensures
        row_sum(s) == 0,
    decreases s.len(),
{
    if s.len() > 0 {
        lemma_row_sum_all_zero(s.drop_last());
    }
}

/// The sum of a single-entry row is that entry.
pub proof fn lemma_row_sum_singleton(v: usize)
    ensures
        row_sum(seq![v]) == v,
{
    let e = Seq::<usize>::empty();
    assert(seq![v].drop_last() =~= e);
    assert(row_sum(e) == 0);
}

/// A row whose entries are all non-zero is exactly its own non-zero list.
pub proof fn lemma_nonzeros_full(s: Seq<usize>)
    requires
        nonzeros(s).len() == s.len(),
    ensures
        nonzeros(s) == s,
        zero_free(s),
    decreases s.len(),
{
    if s.len() > 0 {
        lemma_nonzeros_len(s.drop_last());
        if s.last() == 0 {
            assert(false);
        } else {
            lemma_nonzeros_full(s.drop_last());
            assert(s.drop_last().push(s.last()) =~= s);
        }
    }
}

/// Padding a zero-free list with zeros neither adds non-zero entries nor
/// changes the sum.
pub proof fn lemma_nonzeros_pad(l: Seq<usize>, n: nat)
    requires
        zero_free(l),
        l.len() <= n,
    ensures
        pad_row(l, n).len() == n,
        nonzeros(pad_row(l, n)) == l,
        row_sum(pad_row(l, n)) == row_sum(l),
        forall|k: int| 0 <= k < l.len() ==> pad_row(l, n)[k] == l[k],
        forall|k: int| l.len() <= k < n ==> pad_row(l, n)[k] == 0,
{
    let z = Seq::new((n - l.len()) as nat, |i: int| 0usize);
    lemma_nonzeros_add(l, z);
    lemma_nonzeros_of_zero_free(l);
    lemma_nonzeros_all_zero(z);
    assert(l + Seq::<usize>::empty() =~= l);
    lemma_row_sum_add(l, z);
    lemma_row_sum_all_zero(z);
}

/// Compression keeps the non-zero entries and their order: it only removes
/// zeros, and it never changes the length of the row.
pub proof fn lemma_compress_preserves_entries(s: Seq<usize>)
    ensures
        nonzeros(spec_compress(s)) == nonzeros(s),
        spec_compress(s).len() == s.len(),
{
    lemma_nonzeros_len(s);
    lemma_nonzeros_zero_free(s);
    lemma_nonzeros_pad(nonzeros(s), s.len());
}

/// Compressing a row twice gives the same result as compressing it once.
pub proof fn lemma_compress_idempotent(s: Seq<usize>)
    ensures
        spec_compress(spec_compress(s)) == spec_compress(s),
{
    lemma_compress_preserves_entries(s);
}

/// Reading a row end to start twice restores the row.
pub proof fn lemma_flip_involutive(s: Seq<usize>)
    ensures
        spec_flip(spec_flip(s)) == s,
{
    assert(spec_flip(spec_flip(s)) =~= s);
}

/// The merge pass on a zero-free list keeps it zero-free, never lengthens it,
/// conserves the sum, and gains a non-negative score of at most one sum per
/// merge; a pass that removes nothing changes nothing.
pub proof fn lemma_merge_list_props(l: Seq<usize>)
    requires
        zero_free(l),
        2 * row_sum(l) <= usize::MAX,
    ensures
        zero_free(merge_list(l).0),
        merge_list(l).0.len() <= l.len(),
        row_sum(merge_list(l).0) == row_sum(l),
        0 <= merge_list(l).1,
        l.len() >= 1 ==> merge_list(l).1 <= (l.len() - 1) * row_sum(l),
        merge_list(l).0.len() == l.len() ==> merge_list(l) == (l, 0int),
    decreases l.len(),
{
    lemma_first_pair_from_spec(l, 0);
    lemma_row_sum_nonneg(l);
    match first_pair_from(l, 0) {
        None => {
            assert(l.len() >= 1 ==> 0 <= (l.len() - 1) * row_sum(l)) by (nonlinear_arith)
                requires
                    0 <= row_sum(l),
            ;
        },
        Some(i) => {
            let v = l[i];
            lemma_pair_le_sum(l, i, i + 1);
            let merged = (2 * v) as usize;
            assert(merged == 2 * v);
            assert(merged != 0);
            let shorter = l.take(i) + seq![merged] + l.skip(i + 2);
            assert(zero_free(shorter)) by {
                assert(forall|k: int|
                    0 <= k < shorter.len() ==> #[trigger] shorter[k] != 0) by {
                    assert forall|k: int| 0 <= k < shorter.len() implies #[trigger] shorter[k]
                        != 0 by {
                        if k < i {
                            assert(shorter[k] == l[k]);
                        } else if k == i {
                            assert(shorter[k] == merged);
                        } else {
                            assert(shorter[k] == l[k + 1]);
                        }
                    }
                }
            }
            assert(l =~= l.take(i) + seq![v] + seq![v] + l.skip(i + 2));
            lemma_row_sum_add(l.take(i) + seq![v] + seq![v], l.skip(i + 2));
            lemma_row_sum_add(l.take(i) + seq![v], seq![v]);
            lemma_row_sum_add(l.take(i), seq![v]);
            lemma_row_sum_singleton(v);
            lemma_row_sum_add(l.take(i) + seq![merged], l.skip(i + 2));
            lemma_row_sum_add(l.take(i), seq![merged]);
            lemma_row_sum_singleton(merged);
            assert(row_sum(shorter) == row_sum(l));
            lemma_merge_list_props(shorter);
            assert(merge_list(l).0 == merge_list(shorter).0);
            assert(merge_list(l).1 == merge_list(shorter).1 + merged);
            assert(shorter.len() == l.len() - 1);
            assert(merge_list(shorter).1 + merged <= (l.len() - 1) * row_sum(l)) by (nonlinear_arith)
                requires
                    shorter.len() >= 1,
                    merge_list(shorter).1 <= (shorter.len() - 1) * row_sum(shorter),
                    shorter.len() == l.len() - 1,
                    row_sum(shorter) == row_sum(l),
                    merged <= row_sum(l),
                    0 <= row_sum(l),
            ;
        },
    }
}

/// Padding a zero-free list with zeros adds no mergeable pair: the earliest
/// equal adjacent pair of the padded row is that of the list itself.
pub proof fn lemma_first_pair_pad(l: Seq<usize>, n: nat, i: int)
    requires
        zero_free(l),
        l.len() <= n,
        0 <= i,
    ensures
        first_pair_from(pad_row(l, n), i) == first_pair_from(l, i),
    decreases n - i,
{
    let p = pad_row(l, n);
    lemma_nonzeros_pad(l, n);
    if i + 1 >= n {
    } else if i + 1 < l.len() {
        if p[i] != 0 && p[i] == p[i + 1] {
        } else {
            lemma_first_pair_pad(l, n, i + 1);
        }
    } else {
        assert(!(p[i] != 0 && p[i] == p[i + 1]));
        lemma_first_pair_pad(l, n, i + 1);
    }
}

/// Merging the pair at position `i` of a zero-free list: the two equal values
/// become one doubled value, the list shortens by one, stays zero-free, and
/// keeps its sum.
pub proof fn lemma_merge_shorter(l: Seq<usize>, i: int)
    requires
        zero_free(l),
        0 <= i,
        i + 1 < l.len(),
        l[i] == l[i + 1],
        2 * row_sum(l) <= usize::MAX,
    ensures
        ({
            let v = (2 * l[i]) as usize;
            let shorter = l.take(i) + seq![v] + l.skip(i + 2);
            &&& v == 2 * l[i]
            &&& v != 0
            &&& zero_free(shorter)
            &&& shorter.len() == l.len() - 1
            &&& row_sum(shorter) == row_sum(l)
        }),
{
    let w = l[i];
    lemma_pair_le_sum(l, i, i + 1);
    let v = (2 * w) as usize;
    let shorter = l.take(i) + seq![v] + l.skip(i + 2);
    assert forall|k: int| 0 <= k < shorter.len() implies #[trigger] shorter[k] != 0 by {
        if k < i {
            assert(shorter[k] == l[k]);
        } else if k == i {
            assert(shorter[k] == v);
        } else {
            assert(shorter[k] == l[k + 1]);
        }
    }
    assert(l =~= l.take(i) + seq![w] + seq![w] + l.skip(i + 2));
    lemma_row_sum_add(l.take(i) + seq![w] + seq![w], l.skip(i + 2));
    lemma_row_sum_add(l.take(i) + seq![w], seq![w]);
    lemma_row_sum_add(l.take(i), seq![w]);
    lemma_row_sum_singleton(w);
    lemma_row_sum_add(l.take(i) + seq![v], l.skip(i + 2));
    lemma_row_sum_add(l.take(i), seq![v]);
    lemma_row_sum_singleton(v);
}

/// Doubling the earlier cell of a merging pair and clearing the later one, on
/// the padded row, leaves exactly the shortened list as non-zero entries.
pub proof fn lemma_merge_step(l: Seq<usize>, i: int, n: nat)
    requires
        zero_free(l),
        l.len() <= n,
        0 <= i,
        i + 1 < l.len(),
        l[i] == l[i + 1],
        2 * row_sum(l) <= usize::MAX,
    ensures
        ({
            let v = (2 * l[i]) as usize;
            nonzeros(pad_row(l, n).update(i, v).update(i + 1, 0usize)) == l.take(i) + seq![v]
                + l.skip(i + 2)
        }),
{
    lemma_merge_shorter(l, i);
    lemma_nonzeros_pad(l, n);
    let v = (2 * l[i]) as usize;
    let z = Seq::new((n - l.len()) as nat, |k: int| 0usize);
    let p2 = pad_row(l, n).update(i, v).update(i + 1, 0usize);
    let a = l.take(i);
    let b = l.skip(i + 2);
    assert(p2 =~= a + seq![v] + seq![0usize] + b + z);
    lemma_nonzeros_add(a + seq![v] + seq![0usize] + b, z);
    lemma_nonzeros_add(a + seq![v] + seq![0usize], b);
    lemma_nonzeros_add(a + seq![v], seq![0usize]);
    lemma_nonzeros_add(a, seq![v]);
    lemma_nonzeros_singleton(v);
    lemma_nonzeros_singleton(0usize);
    lemma_nonzeros_all_zero(z);
    assert(zero_free(a)) by {
        assert(forall|k: int| 0 <= k < a.len() ==> #[trigger] a[k] == l[k]);
    }
    assert(zero_free(b)) by {
        assert(forall|k: int| 0 <= k < b.len() ==> #[trigger] b[k] == l[k + i + 2]);
    }
    lemma_nonzeros_of_zero_free(a);
    lemma_nonzeros_of_zero_free(b);
    assert(nonzeros(p2) =~= a + seq![v] + b);
}

/// Replacing one cell of a row changes the sum by the difference and, when a
/// zero cell takes a non-zero value, raises the number of occupied cells by one.
pub proof fn lemma_row_update(s: Seq<usize>, k: int, v: usize)
    requires
        0 <= k < s.len(),
    ensures
        row_sum(s.update(k, v)) == row_sum(s) - s[k] + v,
        s[k] == 0 && v != 0 ==> nonzeros(s.update(k, v)).len() == nonzeros(s).len() + 1,
{
    let a = s.take(k);
    let b = s.skip(k + 1);
    let w = s[k];
    assert(s =~= a + seq![w] + b);
    assert(s.update(k, v) =~= a + seq![v] + b);
    lemma_row_sum_add(a + seq![w], b);
    lemma_row_sum_add(a, seq![w]);
    lemma_row_sum_singleton(w);
    lemma_row_sum_add(a + seq![v], b);
    lemma_row_sum_add(a, seq![v]);
    lemma_row_sum_singleton(v);
    lemma_nonzeros_add(a + seq![w], b);
    lemma_nonzeros_add(a, seq![w]);
    lemma_nonzeros_add(a + seq![v], b);
    lemma_nonzeros_add(a, seq![v]);
    lemma_nonzeros_singleton(w);
    lemma_nonzeros_singleton(v);
}

/// Shifting a row keeps its length, conserves the total value of its tiles,
/// gains a non-negative score of at most three sums, and leaves a trailing
/// zero whenever it changed the row at all.
pub proof fn lemma_merge_row_props(s: Seq<usize>)
    requires
        s.len() == 4,
        2 * row_sum(s) <= usize::MAX,
    ensures
        spec_merge_row(s).len() == 4,
        row_sum(spec_merge_row(s)) == row_sum(s),
        0 <= spec_merge_gain(s),
        spec_merge_gain(s) <= 3 * row_sum(s),
        nonzeros(spec_merge_row(s)).len() <= nonzeros(s).len(),
        spec_merge_row(s) != s ==> spec_merge_row(s)[3] == 0,
{
    let l = nonzeros(s);
    lemma_nonzeros_len(s);
    lemma_nonzeros_zero_free(s);
    lemma_row_sum_nonzeros(s);
    lemma_merge_list_props(l);
    let r0 = merge_list(l).0;
    lemma_nonzeros_pad(r0, 4);
    lemma_row_sum_nonneg(s);
    if l.len() >= 1 {
        assert((l.len() - 1) * row_sum(l) <= 3 * row_sum(s)) by (nonlinear_arith)
            requires
                l.len() <= 4,
                1 <= l.len(),
                row_sum(l) == row_sum(s),
                0 <= row_sum(s),
        ;
    }
    if spec_merge_row(s) != s {
        if r0.len() == 4 {
            assert(l.len() == 4);
            lemma_nonzeros_full(s);
            assert(merge_list(l) == (l, 0int));
            assert(spec_merge_row(s) =~= s);
            assert(false);
        }
        assert(spec_merge_row(s)[3] == 0);
    }
}

} // verus!
