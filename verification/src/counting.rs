//! Counting panels in a grid that satisfy a predicate, with the lemmas the
//! board proofs need: how a count changes under a single-cell update, that it
//! only depends on the predicate's value at each cell, and its bounds.

use vstd::prelude::*;
use crate::panel::Panel;

verus! {

/// How many of `row[0], .., row[n-1]` satisfy `f`.
pub open spec fn count_row_upto(row: Seq<Panel>, f: spec_fn(Panel) -> bool, n: int) -> int
    decreases n,
{
    if n <= 0 {
        0
    } else {
        count_row_upto(row, f, n - 1) + if f(row[n - 1]) {
            1int
        } else {
            0int
        }
    }
}

/// How many panels of the whole row satisfy `f`.
pub open spec fn count_row(row: Seq<Panel>, f: spec_fn(Panel) -> bool) -> int {
    count_row_upto(row, f, row.len() as int)
}

/// How many panels in the first `m` rows of `g` satisfy `f`.
pub open spec fn count_upto(g: Seq<Seq<Panel>>, f: spec_fn(Panel) -> bool, m: int) -> int
    decreases m,
{
    if m <= 0 {
        0
    } else {
        count_upto(g, f, m - 1) + count_row(g[m - 1], f)
    }
}

/// How many panels in the whole grid satisfy `f`.
pub open spec fn count_grid(g: Seq<Seq<Panel>>, f: spec_fn(Panel) -> bool) -> int {
    count_upto(g, f, g.len() as int)
}

pub proof fn lemma_count_row_upto_nonneg(row: Seq<Panel>, f: spec_fn(Panel) -> bool, n: int)
    ensures
        0 <= count_row_upto(row, f, n),
        n >= 0 ==> count_row_upto(row, f, n) <= n,
    decreases n,
{
    if n > 0 {
        lemma_count_row_upto_nonneg(row, f, n - 1);
    }
}

pub proof fn lemma_count_upto_nonneg(g: Seq<Seq<Panel>>, f: spec_fn(Panel) -> bool, m: int)
    ensures
        0 <= count_upto(g, f, m),
    decreases m,
{
    if m > 0 {
        lemma_count_upto_nonneg(g, f, m - 1);
        lemma_count_row_upto_nonneg(g[m - 1], f, g[m - 1].len() as int);
    }
}

pub proof fn lemma_count_grid_nonneg(g: Seq<Seq<Panel>>, f: spec_fn(Panel) -> bool)
    ensures
        0 <= count_grid(g, f),
{
    lemma_count_upto_nonneg(g, f, g.len() as int);
}

proof fn lemma_count_row_upto_update(
    row: Seq<Panel>,
    f: spec_fn(Panel) -> bool,
    c: int,
    q: Panel,
    n: int,
)
    requires
        0 <= c < row.len(),
        n <= row.len(),
    ensures
        count_row_upto(row.update(c, q), f, n) == count_row_upto(row, f, n) + if c < n {
            (if f(q) {
                1int
            } else {
                0int
            }) - (if f(row[c]) {
                1int
            } else {
                0int
            })
        } else {
            0int
        },
    decreases n,
{
    if n > 0 {
        lemma_count_row_upto_update(row, f, c, q, n - 1);
    }
}

/// Replacing one panel of a row changes the row's count by the difference of
/// the predicate's value on the new and the old panel.
pub proof fn lemma_count_row_update(row: Seq<Panel>, f: spec_fn(Panel) -> bool, c: int, q: Panel)
    requires
        0 <= c < row.len(),
    ensures
        count_row(row.update(c, q), f) == count_row(row, f) + (if f(q) {
            1int
        } else {
            0int
        }) - (if f(row[c]) {
            1int
        } else {
            0int
        }),
{
    lemma_count_row_upto_update(row, f, c, q, row.len() as int);
}

proof fn lemma_count_upto_update(
    g: Seq<Seq<Panel>>,
    f: spec_fn(Panel) -> bool,
    r: int,
    c: int,
    q: Panel,
    m: int,
)
    requires
        0 <= r < g.len(),
        0 <= c < g[r].len(),
        m <= g.len(),
    ensures
        count_upto(g.update(r, g[r].update(c, q)), f, m) == count_upto(g, f, m) + if r < m {
            (if f(q) {
                1int
            } else {
                0int
            }) - (if f(g[r][c]) {
                1int
            } else {
                0int
            })
        } else {
            0int
        },
    decreases m,
{
    if m > 0 {
        lemma_count_upto_update(g, f, r, c, q, m - 1);
        if r == m - 1 {
            lemma_count_row_update(g[r], f, c, q);
        }
    }
}

/// Replacing one panel of a grid changes the grid's count by the difference
/// of the predicate's value on the new and the old panel.
pub proof fn lemma_count_grid_update(
    g: Seq<Seq<Panel>>,
    f: spec_fn(Panel) -> bool,
    r: int,
    c: int,
    q: Panel,
)
    requires
        0 <= r < g.len(),
        0 <= c < g[r].len(),
    ensures
        count_grid(g.update(r, g[r].update(c, q)), f) == count_grid(g, f) + (if f(q) {
            1int
        } else {
            0int
        }) - (if f(g[r][c]) {
            1int
        } else {
            0int
        }),
{
    lemma_count_upto_update(g, f, r, c, q, g.len() as int);
}

proof fn lemma_count_row_upto_pointwise(
    a: Seq<Panel>,
    b: Seq<Panel>,
    f: spec_fn(Panel) -> bool,
    n: int,
)
    requires
        n <= a.len(),
        n <= b.len(),
        forall|i: int| 0 <= i < n ==> f(a[i]) == f(#[trigger] b[i]),
    ensures
        count_row_upto(a, f, n) == count_row_upto(b, f, n),
    decreases n,
{
    if n > 0 {
        lemma_count_row_upto_pointwise(a, b, f, n - 1);
    }
}

proof fn lemma_count_upto_pointwise(
    a: Seq<Seq<Panel>>,
    b: Seq<Seq<Panel>>,
    f: spec_fn(Panel) -> bool,
    m: int,
)
    requires
        m <= a.len(),
        m <= b.len(),
        forall|r: int| 0 <= r < m ==> a[r].len() == (#[trigger] b[r]).len(),
        forall|r: int, i: int|
            0 <= r < m && 0 <= i < a[r].len() ==> f(a[r][i]) == f(#[trigger] b[r][i]),
    ensures
        count_upto(a, f, m) == count_upto(b, f, m),
    decreases m,
{
    if m > 0 {
        lemma_count_upto_pointwise(a, b, f, m - 1);
        lemma_count_row_upto_pointwise(a[m - 1], b[m - 1], f, a[m - 1].len() as int);
    }
}

/// The count only depends on the predicate's value at each position: grids
/// that agree on it cell by cell have the same count.
pub proof fn lemma_count_grid_pointwise(
    a: Seq<Seq<Panel>>,
    b: Seq<Seq<Panel>>,
    f: spec_fn(Panel) -> bool,
)
    requires
        a.len() == b.len(),
        forall|r: int| 0 <= r < a.len() ==> a[r].len() == (#[trigger] b[r]).len(),
        forall|r: int, i: int|
            0 <= r < a.len() && 0 <= i < a[r].len() ==> f(a[r][i]) == f(#[trigger] b[r][i]),
    ensures
        count_grid(a, f) == count_grid(b, f),
{
    lemma_count_upto_pointwise(a, b, f, a.len() as int);
}

proof fn lemma_count_row_upto_zero(row: Seq<Panel>, f: spec_fn(Panel) -> bool, n: int)
    requires
        forall|i: int| 0 <= i < n ==> !f(#[trigger] row[i]),
    ensures
        count_row_upto(row, f, n) == 0,
    decreases n,
{
    if n > 0 {
        lemma_count_row_upto_zero(row, f, n - 1);
    }
}

proof fn lemma_count_upto_zero(g: Seq<Seq<Panel>>, f: spec_fn(Panel) -> bool, m: int)
    requires
        forall|r: int, i: int| 0 <= r < m && 0 <= i < g[r].len() ==> !f(#[trigger] g[r][i]),
    ensures
        count_upto(g, f, m) == 0,
    decreases m,
{
    if m > 0 {
        lemma_count_upto_zero(g, f, m - 1);
        lemma_count_row_upto_zero(g[m - 1], f, g[m - 1].len() as int);
    }
}

/// A grid with no panel satisfying the predicate counts zero.
pub proof fn lemma_count_grid_zero(g: Seq<Seq<Panel>>, f: spec_fn(Panel) -> bool)
    requires
        forall|r: int, i: int| 0 <= r < g.len() && 0 <= i < g[r].len() ==> !f(#[trigger] g[r][i]),
    ensures
        count_grid(g, f) == 0,
{
    lemma_count_upto_zero(g, f, g.len() as int);
}

} // verus!
