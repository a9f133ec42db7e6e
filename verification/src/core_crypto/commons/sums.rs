//! Finite sums of integers.
use vstd::prelude::*;

verus! {

/// The sum `f(0) + ... + f(count - 1)`.
pub open spec fn sum_to(f: spec_fn(int) -> int, count: int) -> int
    decreases count,
{
    if count <= 0 {
        0
    } else {
        sum_to(f, count - 1) + f(count - 1)
    }
}

/// The sum `g(i, 0) + ... + g(i, count - 1)` of a row of a table.
pub open spec fn row_sum(g: spec_fn(int, int) -> int, i: int, count: int) -> int
    decreases count,
{
    if count <= 0 {
        0
    } else {
        row_sum(g, i, count - 1) + g(i, count - 1)
    }
}

/// The sum `g(0, j) + ... + g(count - 1, j)` of a column of a table.
pub open spec fn column_sum(g: spec_fn(int, int) -> int, j: int, count: int) -> int
    decreases count,
{
    if count <= 0 {
        0
    } else {
        column_sum(g, j, count - 1) + g(count - 1, j)
    }
}

/// The sum of the first `rows` rows of a table of `columns` columns.
pub open spec fn sum_of_rows(g: spec_fn(int, int) -> int, rows: int, columns: int) -> int
    decreases rows,
{
    if rows <= 0 {
        0
    } else {
        sum_of_rows(g, rows - 1, columns) + row_sum(g, rows - 1, columns)
    }
}

/// The sum of the first `columns` columns of a table of `rows` rows.
pub open spec fn sum_of_columns(g: spec_fn(int, int) -> int, rows: int, columns: int) -> int
    decreases columns,
{
    if columns <= 0 {
        0
    } else {
        sum_of_columns(g, rows, columns - 1) + column_sum(g, columns - 1, rows)
    }
}

/// Sums of functions that agree on the indices of the sum are equal.
pub proof fn lemma_sum_equal(f: spec_fn(int) -> int, g: spec_fn(int) -> int, count: int)
    requires
        forall|i: int| 0 <= i < count ==> #[trigger] f(i) == g(i),
    ensures
        sum_to(f, count) == sum_to(g, count),
    decreases count,
{
    if count > 0 {
        lemma_sum_equal(f, g, count - 1);
    }
}

/// The sum of a function that is the sum of two others is the sum of their sums.
pub proof fn lemma_sum_of_sum(
    h: spec_fn(int) -> int,
    f: spec_fn(int) -> int,
    g: spec_fn(int) -> int,
    count: int,
)
    requires
        forall|i: int| 0 <= i < count ==> #[trigger] h(i) == f(i) + g(i),
    ensures
        sum_to(h, count) == sum_to(f, count) + sum_to(g, count),
    decreases count,
{
    if count > 0 {
        lemma_sum_of_sum(h, f, g, count - 1);
    }
}

/// The sum of a function that is the difference of two others is the difference of their
/// sums.
pub proof fn lemma_sum_of_difference(
    h: spec_fn(int) -> int,
    f: spec_fn(int) -> int,
    g: spec_fn(int) -> int,
    count: int,
)
    requires
        forall|i: int| 0 <= i < count ==> #[trigger] h(i) == f(i) - g(i),
    ensures
        sum_to(h, count) == sum_to(f, count) - sum_to(g, count),
    decreases count,
{
    if count > 0 {
        lemma_sum_of_difference(h, f, g, count - 1);
    }
}

/// The sum of a function that is `factor` times another is `factor` times its sum.
pub proof fn lemma_sum_of_scaled(
    h: spec_fn(int) -> int,
    f: spec_fn(int) -> int,
    factor: int,
    count: int,
)
    requires
        forall|i: int| 0 <= i < count ==> #[trigger] h(i) == factor * f(i),
    ensures
        sum_to(h, count) == factor * sum_to(f, count),
    decreases count,
{
    if count > 0 {
        lemma_sum_of_scaled(h, f, factor, count - 1);
        assert(factor * (sum_to(f, count - 1) + f(count - 1)) == factor * sum_to(f, count - 1)
            + factor * f(count - 1)) by (nonlinear_arith);
    } else {
        assert(factor * 0 == 0) by (nonlinear_arith);
    }
}

/// The sum of a function that is zero on the indices of the sum is zero.
pub proof fn lemma_sum_of_zeros(f: spec_fn(int) -> int, count: int)
    requires
        forall|i: int| 0 <= i < count ==> #[trigger] f(i) == 0,
    ensures
        sum_to(f, count) == 0,
    decreases count,
{
    if count > 0 {
        lemma_sum_of_zeros(f, count - 1);
    }
}

/// The sum of a function that is zero but at one index is its value there.
pub proof fn lemma_sum_of_single(f: spec_fn(int) -> int, count: int, index: int)
    requires
        0 <= index < count,
        forall|i: int| 0 <= i < count && i != index ==> #[trigger] f(i) == 0,
    ensures
        sum_to(f, count) == f(index),
    decreases count,
{
    if count - 1 == index {
        lemma_sum_of_zeros(f, count - 1);
    } else {
        lemma_sum_of_single(f, count - 1, index);
    }
}

/// The sum of a function that stays within `bound` stays within `count` times `bound`.
pub proof fn lemma_sum_bound(f: spec_fn(int) -> int, count: int, bound: int)
    requires
        count >= 0,
        forall|i: int| 0 <= i < count ==> -bound <= #[trigger] f(i) <= bound,
    ensures
        -(count * bound) <= sum_to(f, count) <= count * bound,
    decreases count,
{
    if count > 0 {
        lemma_sum_bound(f, count - 1, bound);
        assert(count * bound == (count - 1) * bound + bound) by (nonlinear_arith);
    } else {
        assert(count * bound == 0) by (nonlinear_arith)
            requires
                count == 0,
        ;
    }
}

/// A sum is a row sum of the table whose row holds the values of the function.
pub proof fn lemma_sum_is_row_sum(
    f: spec_fn(int) -> int,
    g: spec_fn(int, int) -> int,
    i: int,
    count: int,
)
    requires
        forall|j: int| 0 <= j < count ==> #[trigger] f(j) == g(i, j),
    ensures
        sum_to(f, count) == row_sum(g, i, count),
    decreases count,
{
    if count > 0 {
        lemma_sum_is_row_sum(f, g, i, count - 1);
    }
}

/// A sum is a column sum of the table whose column holds the values of the function.
pub proof fn lemma_sum_is_column_sum(
    f: spec_fn(int) -> int,
    g: spec_fn(int, int) -> int,
    j: int,
    count: int,
)
    requires
        forall|i: int| 0 <= i < count ==> #[trigger] f(i) == g(i, j),
    ensures
        sum_to(f, count) == column_sum(g, j, count),
    decreases count,
{
    if count > 0 {
        lemma_sum_is_column_sum(f, g, j, count - 1);
    }
}

/// The sum of the sums of the rows is a sum of the function that gives the sum of each row.
pub proof fn lemma_sum_of_rows(
    f: spec_fn(int) -> int,
    g: spec_fn(int, int) -> int,
    rows: int,
    columns: int,
)
    requires
        forall|i: int| 0 <= i < rows ==> #[trigger] f(i) == row_sum(g, i, columns),
    ensures
        sum_to(f, rows) == sum_of_rows(g, rows, columns),
    decreases rows,
{
    if rows > 0 {
        lemma_sum_of_rows(f, g, rows - 1, columns);
    }
}

/// The sum of the sums of the columns is a sum of the function that gives the sum of each
/// column.
pub proof fn lemma_sum_of_columns(
    f: spec_fn(int) -> int,
    g: spec_fn(int, int) -> int,
    rows: int,
    columns: int,
)
    requires
        forall|j: int| 0 <= j < columns ==> #[trigger] f(j) == column_sum(g, j, rows),
    ensures
        sum_to(f, columns) == sum_of_columns(g, rows, columns),
    decreases columns,
{
    if columns > 0 {
        lemma_sum_of_columns(f, g, rows, columns - 1);
    }
}

/// Adding a row to a table adds its entries to the sums of the columns.
proof fn lemma_columns_with_one_more_row(g: spec_fn(int, int) -> int, rows: int, columns: int)
    requires
        rows >= 1,
    ensures
        sum_of_columns(g, rows, columns) == sum_of_columns(g, rows - 1, columns) + row_sum(
            g,
            rows - 1,
            columns,
        ),
    decreases columns,
{
    if columns > 0 {
        lemma_columns_with_one_more_row(g, rows, columns - 1);
    }
}

/// The sum of a table by rows is its sum by columns.
pub proof fn lemma_sum_swap(g: spec_fn(int, int) -> int, rows: int, columns: int)
    ensures
        sum_of_rows(g, rows, columns) == sum_of_columns(g, rows, columns),
    decreases rows,
{
    if rows > 0 {
        lemma_sum_swap(g, rows - 1, columns);
        lemma_columns_with_one_more_row(g, rows, columns);
    } else {
        lemma_columns_of_no_row(g, rows, columns);
    }
}

/// The columns of a table without rows sum to zero.
proof fn lemma_columns_of_no_row(g: spec_fn(int, int) -> int, rows: int, columns: int)
    requires
        rows <= 0,
    ensures
        sum_of_columns(g, rows, columns) == 0,
    decreases columns,
{
    if columns > 0 {
        lemma_columns_of_no_row(g, rows, columns - 1);
    }
}

/// Moving a sum by one index drops the first value and takes the next.
pub proof fn lemma_sum_moved_by_one(
    shifted: spec_fn(int) -> int,
    f: spec_fn(int) -> int,
    start: int,
    count: int,
)
    requires
        count >= 0,
        forall|i: int| 0 <= i <= count ==> #[trigger] shifted(i) == f(start + i),
    ensures
        sum_to(|i: int| shifted(i + 1), count) == sum_to(shifted, count) - f(start) + f(
            start + count,
        ),
    decreases count,
{
    let moved = |i: int| shifted(i + 1);
    if count > 0 {
        lemma_sum_moved_by_one(shifted, f, start, count - 1);
        assert(moved(count - 1) == shifted(count));
    } else {
        assert(shifted(0) == f(start + 0));
    }
}

/// The sum of a periodic function over one period does not depend on where the period
/// starts.
pub proof fn lemma_sum_over_period(
    shifted: spec_fn(int) -> int,
    f: spec_fn(int) -> int,
    period: int,
    start: int,
)
    requires
        period >= 0,
        forall|i: int| #[trigger] f(i + period) == f(i),
        forall|i: int| 0 <= i < period ==> #[trigger] shifted(i) == f(start + i),
    ensures
        sum_to(shifted, period) == sum_to(f, period),
    decreases
            if start >= 0 {
                start
            } else {
                -start
            },
{
    if start == 0 {
        lemma_sum_equal(shifted, f, period);
    } else if start > 0 {
        // the sum that starts one index earlier
        let earlier = |i: int| f(start - 1 + i);
        lemma_sum_over_period(earlier, f, period, start - 1);
        lemma_sum_moved_by_one(earlier, f, start - 1, period);
        let moved = |i: int| earlier(i + 1);
        assert forall|i: int| 0 <= i < period implies #[trigger] shifted(i) == moved(i) by {
            assert(earlier(i + 1) == f(start - 1 + (i + 1)));
        }
        lemma_sum_equal(shifted, moved, period);
        assert(f(start - 1 + period) == f(start - 1));
    } else {
        // the sum that starts one index later
        let later = |i: int| f(start + 1 + i);
        lemma_sum_over_period(later, f, period, start + 1);
        let here = |i: int| f(start + i);
        lemma_sum_moved_by_one(here, f, start, period);
        let moved = |i: int| here(i + 1);
        assert forall|i: int| 0 <= i < period implies #[trigger] later(i) == moved(i) by {
            assert(here(i + 1) == f(start + (i + 1)));
        }
        lemma_sum_equal(later, moved, period);
        lemma_sum_equal(shifted, here, period);
        assert(f(start + period) == f(start));
    }
}


/// A sum read from its last index down is the same sum.
pub proof fn lemma_sum_reversed(reversed: spec_fn(int) -> int, f: spec_fn(int) -> int, count: int)
    requires
        count >= 0,
        forall|i: int| 0 <= i < count ==> #[trigger] reversed(i) == f(count - 1 - i),
    ensures
        sum_to(reversed, count) == sum_to(f, count),
    decreases count,
{
    if count > 0 {
        // the last `count - 1` values of `reversed` are the first `count - 1` of `f`, reversed
        let tail = |i: int| reversed(i + 1);
        assert forall|i: int| 0 <= i < count - 1 implies #[trigger] tail(i) == f(
            count - 1 - 1 - i,
        ) by {
            assert(reversed(i + 1) == f(count - 1 - (i + 1)));
        }
        lemma_sum_reversed(tail, f, count - 1);
        lemma_sum_without_first(reversed, count);
        assert(reversed(0) == f(count - 1 - 0));
    }
}

/// A sum is its first value plus the sum of the others.
pub proof fn lemma_sum_without_first(f: spec_fn(int) -> int, count: int)
    requires
        count >= 1,
    ensures
        sum_to(f, count) == f(0) + sum_to(|i: int| f(i + 1), count - 1),
    decreases count,
{
    let tail = |i: int| f(i + 1);
    if count > 1 {
        lemma_sum_without_first(f, count - 1);
        assert(tail(count - 2) == f(count - 1));
    } else {
        assert(sum_to(f, 0) == 0);
        assert(sum_to(tail, 0) == 0);
    }
}

} // verus!
