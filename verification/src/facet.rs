//! Splitting rows into panels (facets, or the series of a line), and the
//! arithmetic of facet grids.
use vstd::prelude::*;
use crate::aesthetic::AestheticFamily;
use crate::ast::ScaleFreedom;
use crate::distinct::{distinct_in_order, lemma_insert_new_from};
use crate::scale::position_of;

verus! {

/// The positions of `s` that hold `k`, in increasing order.
pub open spec fn indices_of(s: Seq<Seq<char>>, k: Seq<char>) -> Seq<usize>
    decreases s.len(),
{
    if s.len() == 0 {
        seq![]
    } else if s.last() == k {
        indices_of(s.drop_last(), k).push((s.len() - 1) as usize)
    } else {
        indices_of(s.drop_last(), k)
    }
}

/// Rows split by value: each distinct value in order of first appearance,
/// with the rows that hold it, in increasing order.
pub struct Partition {
    pub keys: Vec<String>,
    pub rows: Vec<Vec<usize>>,
}

/// What splitting `values` gives: `keys` are the distinct values in order of
/// first appearance, and `rows[p]` the positions that hold `keys[p]`.
pub open spec fn is_partition_of(keys: Seq<Seq<char>>, rows: Seq<Seq<usize>>, values: Seq<Seq<char>>) -> bool {
    &&& keys == distinct_in_order(values)
    &&& rows.len() == keys.len()
    &&& forall|p: int| 0 <= p < keys.len() ==> #[trigger] rows[p] == indices_of(values, keys[p])
}

proof fn lemma_indices_absent(s: Seq<Seq<char>>, k: Seq<char>)
    requires
        !s.contains(k),
    ensures
        indices_of(s, k) == Seq::<usize>::empty(),
    decreases s.len(),
{
    if s.len() > 0 {
        assert(s.last() == s[s.len() - 1]);
        assert forall|i: int| 0 <= i < s.drop_last().len() implies s.drop_last()[i] != k by {
            assert(s.drop_last()[i] == s[i]);
        }
        lemma_indices_absent(s.drop_last(), k);
    }
}

/// Splits rows by their value (see `is_partition_of`).
pub fn partition_rows(values: &Vec<String>) -> (r: Partition)
    ensures
        is_partition_of(r.keys.deep_view(), r.rows.deep_view(), values.deep_view()),
{
    let ghost d = values.deep_view();
    let mut keys: Vec<String> = Vec::new();
    let mut rows: Vec<Vec<usize>> = Vec::new();
    let mut i: usize = 0;
    proof {
        assert(d.take(0) =~= Seq::<Seq<char>>::empty());
        assert(keys.deep_view() =~= Seq::<Seq<char>>::empty());
        assert(rows.deep_view() =~= Seq::<Seq<usize>>::empty());
    }
    while i < values.len()
        invariant
            i <= values.len(),
            d == values.deep_view(),
            is_partition_of(keys.deep_view(), rows.deep_view(), d.take(i as int)),
        decreases values.len() - i,
    {
        let ghost pre = d.take(i as int);
        let ghost cur = d.take(i as int + 1);
        let ghost v = d[i as int];
        let ghost kd = keys.deep_view();
        let ghost rd = rows.deep_view();
        proof {
            assert(cur.drop_last() =~= pre);
            assert(cur.last() == v);
            assert(v == values[i as int]@);
            lemma_insert_new_from(Seq::<Seq<char>>::empty(), pre);
        }
        match position_of(&keys, &values[i]) {
            Some(j) => {
                let ghost before = rows@;
                let mut row = rows.remove(j);
                row.push(i);
                let ghost new_row = row;
                rows.insert(j, row);
                assert(rows@ =~= before.update(j as int, new_row));
                proof {
                    assert(kd[j as int] == v);
                    assert(kd.contains(v));
                    assert(distinct_in_order(cur) == kd);
                    assert forall|p: int| 0 <= p < kd.len() implies #[trigger] rows.deep_view()[p] == indices_of(cur, kd[p]) by {
                        assert(rows.deep_view()[p] == rows@[p]@);
                        if p == j {
                            assert(rd[p] == before[p]@);
                            assert(rows@[p]@ =~= rd[p].push(i));
                        } else {
                            assert(rows@[p] == before[p]);
                            assert(rd[p] == before[p]@);
                            assert(kd[p] != v);
                        }
                    }
                    assert(rows.deep_view().len() == kd.len());
                }
            },
            None => {
                keys.push(values[i].clone());
                let ghost before = rows@;
                let mut row: Vec<usize> = Vec::new();
                row.push(i);
                rows.push(row);
                proof {
                    assert(!kd.contains(v));
                    assert(!pre.contains(v));
                    lemma_indices_absent(pre, v);
                    assert(keys.deep_view() =~= kd.push(v));
                    assert(distinct_in_order(cur) == kd.push(v));
                    assert forall|p: int| 0 <= p < kd.len() + 1 implies #[trigger] rows.deep_view()[p] == indices_of(cur, keys.deep_view()[p]) by {
                        assert(rows.deep_view()[p] == rows@[p]@);
                        if p == kd.len() {
                            assert(rows@[p]@ =~= seq![i]);
                            assert(indices_of(pre, v).push(i) =~= seq![i]);
                        } else {
                            assert(keys.deep_view()[p] == kd[p]);
                            assert(kd[p] != v);
                            assert(rows@[p] == before[p]);
                            assert(rd[p] == before[p]@);
                            assert(rd[p] == indices_of(pre, kd[p]));
                        }
                    }
                }
            },
        }
        i = i + 1;
    }
    assert(d.take(i as int) =~= d);
    Partition { keys, rows }
}

} // verus!

verus! {

proof fn lemma_indices_contains(s: Seq<Seq<char>>, k: Seq<char>, i: int)
    requires
        s.len() <= usize::MAX,
    ensures
        indices_of(s, k).contains(i as usize) && 0 <= i <= usize::MAX <==> (0 <= i < s.len() && s[i] == k),
    decreases s.len(),
{
    if s.len() > 0 {
        let d = indices_of(s.drop_last(), k);
        lemma_indices_contains(s.drop_last(), k, i);
        lemma_indices_bound(s.drop_last(), k);
        if s.last() == k {
            let last = (s.len() - 1) as usize;
            if d.push(last).contains(i as usize) && 0 <= i <= usize::MAX {
                let j = choose|j: int| 0 <= j < d.push(last).len() && d.push(last)[j] == i as usize;
                if j < d.len() {
                    assert(d[j] == i as usize);
                    assert(d.contains(i as usize));
                }
            }
            if 0 <= i < s.len() && s[i] == k {
                if i == s.len() - 1 {
                    assert(d.push(last)[d.len() as int] == i as usize);
                } else {
                    assert(s.drop_last()[i] == s[i]);
                    let j = choose|j: int| 0 <= j < d.len() && d[j] == i as usize;
                    assert(d.push(last)[j] == i as usize);
                }
            }
        } else {
            if 0 <= i < s.len() && s[i] == k {
                assert(i != s.len() - 1);
                assert(s.drop_last()[i] == s[i]);
            }
            if d.contains(i as usize) && 0 <= i <= usize::MAX {
                assert(s.drop_last()[i] == s[i]);
            }
        }
    }
}

proof fn lemma_indices_bound(s: Seq<Seq<char>>, k: Seq<char>)
    requires
        s.len() <= usize::MAX,
    ensures
        forall|j: int| 0 <= j < indices_of(s, k).len() ==> (#[trigger] indices_of(s, k)[j]) < s.len(),
    decreases s.len(),
{
    if s.len() > 0 {
        lemma_indices_bound(s.drop_last(), k);
        let d = indices_of(s.drop_last(), k);
        assert forall|j: int| 0 <= j < indices_of(s, k).len() implies (#[trigger] indices_of(s, k)[j]) < s.len() by {
            if s.last() == k {
                if j < d.len() {
                    assert(indices_of(s, k)[j] == d[j]);
                }
            } else {
                assert(indices_of(s, k)[j] == d[j]);
            }
        }
    }
}

/// Splitting rows by value puts every row in exactly one part: the one of
/// its value.
pub proof fn law_partition_exact(keys: Seq<Seq<char>>, rows: Seq<Seq<usize>>, values: Seq<Seq<char>>, i: int)
    requires
        is_partition_of(keys, rows, values),
        values.len() <= usize::MAX,
        0 <= i < values.len(),
    ensures
        exists|p: int| 0 <= p < keys.len() && keys[p] == values[i] && (#[trigger] rows[p]).contains(i as usize),
        forall|p: int| 0 <= p < keys.len() && (#[trigger] rows[p]).contains(i as usize) ==> keys[p] == values[i],
        keys.no_duplicates(),
{
    lemma_insert_new_from(Seq::<Seq<char>>::empty(), values);
    assert(values.contains(values[i]));
    assert(keys.contains(values[i]));
    let p = choose|p: int| 0 <= p < keys.len() && keys[p] == values[i];
    lemma_indices_contains(values, keys[p], i);
    assert(rows[p].contains(i as usize));
    assert forall|q: int| 0 <= q < keys.len() && (#[trigger] rows[q]).contains(i as usize) implies keys[q] == values[i] by {
        lemma_indices_contains(values, keys[q], i);
    }
}

} // verus!

verus! {

// ---------------------------------------------------------------------------
// Facet arithmetic

/// Whether panels have x scales of their own.
pub open spec fn spec_x_free(f: ScaleFreedom) -> bool {
    f == ScaleFreedom::Free || f == ScaleFreedom::FreeX
}

/// Whether panels have y scales of their own.
pub open spec fn spec_y_free(f: ScaleFreedom) -> bool {
    f == ScaleFreedom::Free || f == ScaleFreedom::FreeY
}

/// Whether panels have x scales of their own (`SCALES FREE` or `SCALES FREE X`).
pub fn x_free(f: ScaleFreedom) -> (r: bool)
    ensures
        r == spec_x_free(f),
{
    f == ScaleFreedom::Free || f == ScaleFreedom::FreeX
}

/// Whether panels have y scales of their own (`SCALES FREE` or `SCALES FREE Y`).
pub fn y_free(f: ScaleFreedom) -> (r: bool)
    ensures
        r == spec_y_free(f),
{
    f == ScaleFreedom::Free || f == ScaleFreedom::FreeY
}

/// The smallest `c >= 1` whose square is at least `n`: the ceiling of the
/// square root of `n`, or 1 for no panels.
pub open spec fn is_wrap_width(c: int, n: int) -> bool {
    c >= 1 && c * c >= n && (c == 1 || (c - 1) * (c - 1) < n)
}

/// The number of columns of a wrapped facet: the number asked for (at
/// least one), else the ceiling of the square root of the panel count.
pub open spec fn spec_wrap_columns(num_panels: int, columns: Option<u32>) -> int {
    match columns {
        Some(c) => if c == 0 { 1 } else { c as int },
        None => choose|c: int| is_wrap_width(c, num_panels),
    }
}

/// There is one wrap width for each panel count.
pub proof fn lemma_wrap_width_unique(c1: int, c2: int, n: int)
    requires
        is_wrap_width(c1, n),
        is_wrap_width(c2, n),
    ensures
        c1 == c2,
{
    if c1 < c2 {
        assert(c1 * c1 <= (c2 - 1) * (c2 - 1)) by (nonlinear_arith)
            requires
                1 <= c1 <= c2 - 1,
        ;
    }
    if c2 < c1 {
        assert(c2 * c2 <= (c1 - 1) * (c1 - 1)) by (nonlinear_arith)
            requires
                1 <= c2 <= c1 - 1,
        ;
    }
}

/// The number of rows that `n` panels fill, `c` to a row.
pub open spec fn ceil_div(n: int, c: int) -> int {
    (n + c - 1) / c
}

/// The number of columns of a wrapped facet (see `spec_wrap_columns`).
pub fn wrap_columns(num_panels: usize, columns: Option<u32>) -> (r: usize)
    ensures
        r as int == spec_wrap_columns(num_panels as int, columns),
        r >= 1,
{
    match columns {
        Some(c) => if c == 0 { 1 } else { c as usize },
        None => {
            let n: u128 = num_panels as u128;
            let mut c: u128 = 1;
            loop
                invariant
                    n == num_panels as u128,
                    n <= usize::MAX,
                    1 <= c <= 0x1_0000_0000,
                    c <= n + 1,
                    c == 1 || (c - 1) * (c - 1) < n,
                ensures
                    1 <= c,
                    c * c >= n,
                    c == 1 || (c - 1) * (c - 1) < n,
                decreases n + 1 - c,
            {
                assert(c * c <= 0x1_0000_0000_0000_0000) by (nonlinear_arith)
                    requires
                        1 <= c <= 0x1_0000_0000,
                ;
                if c * c >= n {
                    break;
                }
                assert(c < n) by (nonlinear_arith)
                    requires
                        c * c < n,
                        1 <= c,
                ;
                assert(c <= 0xffff_ffff) by (nonlinear_arith)
                    requires
                        c * c < n,
                        n <= 0xffff_ffff_ffff_ffff,
                        1 <= c,
                ;
                c = c + 1;
            }
            assert(c <= n || c == 1) by (nonlinear_arith)
                requires
                    c >= 1,
                    c == 1 || (c - 1) * (c - 1) < n,
            ;
            proof {
                let w = choose|w: int| is_wrap_width(w, num_panels as int);
                assert(is_wrap_width(c as int, num_panels as int));
                lemma_wrap_width_unique(w, c as int, num_panels as int);
            }
            c as usize
        },
    }
}

/// The number of rows that `n` panels fill, `c` to a row: `n / c` rounded up.
pub fn wrap_rows(num_panels: usize, num_cols: usize) -> (r: usize)
    requires
        num_cols >= 1,
    ensures
        r as int == ceil_div(num_panels as int, num_cols as int),
        r * num_cols >= num_panels,
        r == 0 || (r - 1) * num_cols < num_panels,
{
    let q = num_panels / num_cols;
    let m = num_panels % num_cols;
    proof {
        vstd::arithmetic::div_mod::lemma_fundamental_div_mod(num_panels as int, num_cols as int);
        vstd::arithmetic::div_mod::lemma_mod_bound(num_panels as int, num_cols as int);
    }
    if m == 0 {
        assert(q * num_cols == num_panels) by (nonlinear_arith)
            requires
                num_panels == num_cols * q + m,
                m == 0,
        ;
        assert(q == 0 || (q - 1) * num_cols < num_panels) by (nonlinear_arith)
            requires
                num_panels == num_cols * q,
                num_cols >= 1,
        ;
        proof {
            vstd::arithmetic::div_mod::lemma_fundamental_div_mod_converse_div(
                num_panels + num_cols - 1, num_cols as int, q as int, num_cols - 1);
        }
        q
    } else {
        assert((q + 1) * num_cols >= num_panels && q * num_cols < num_panels) by (nonlinear_arith)
            requires
                num_panels == num_cols * q + m,
                0 < m < num_cols,
        ;
        assert(q + 1 <= num_panels) by (nonlinear_arith)
            requires
                num_panels == num_cols * q + m,
                0 < m,
                num_cols >= 1,
                q >= 0,
        ;
        proof {
            assert(num_panels + num_cols - 1 == num_cols * (q + 1) + (m - 1)) by (nonlinear_arith)
                requires
                    num_panels == num_cols * q + m,
            ;
            vstd::arithmetic::div_mod::lemma_fundamental_div_mod_converse_div(
                num_panels + num_cols - 1, num_cols as int, q + 1, m - 1);
        }
        q + 1
    }
}

/// The rows of `r` that are also in `c`, in the order of `r`.
pub open spec fn rows_also_in(r: Seq<usize>, c: Seq<usize>) -> Seq<usize>
    decreases r.len(),
{
    if r.len() == 0 {
        seq![]
    } else if c.contains(r.last()) {
        rows_also_in(r.drop_last(), c).push(r.last())
    } else {
        rows_also_in(r.drop_last(), c)
    }
}

/// The rows of a facet grid's panel: those of its row value and of its
/// column value (all rows where the grid has neither).
pub open spec fn spec_panel_rows(row_rows: Option<Seq<usize>>, col_rows: Option<Seq<usize>>, num_rows: nat) -> Seq<usize> {
    match (row_rows, col_rows) {
        (None, None) => Seq::new(num_rows, |i: int| i as usize),
        (Some(r), None) => r,
        (None, Some(c)) => c,
        (Some(r), Some(c)) => rows_also_in(r, c),
    }
}

fn contains_row(v: &Vec<usize>, x: usize) -> (r: bool)
    ensures
        r == v@.contains(x),
{
    let mut k: usize = 0;
    while k < v.len()
        invariant
            k <= v.len(),
            forall|j: int| 0 <= j < k ==> v@[j] != x,
        decreases v.len() - k,
    {
        if v[k] == x {
            return true;
        }
        k = k + 1;
    }
    false
}

/// The rows of a facet grid's panel (see `spec_panel_rows`).
pub fn panel_rows(row_rows: Option<&Vec<usize>>, col_rows: Option<&Vec<usize>>, num_rows: usize) -> (r: Vec<usize>)
    ensures
        r@ == spec_panel_rows(
            match row_rows { Some(v) => Some(v@), None => None },
            match col_rows { Some(v) => Some(v@), None => None },
            num_rows as nat,
        ),
{
    match (row_rows, col_rows) {
        (None, None) => {
            let mut r: Vec<usize> = Vec::new();
            let mut i: usize = 0;
            while i < num_rows
                invariant
                    i <= num_rows,
                    r@ == Seq::new(i as nat, |j: int| j as usize),
                decreases num_rows - i,
            {
                r.push(i);
                assert(r@ =~= Seq::new((i + 1) as nat, |j: int| j as usize));
                i = i + 1;
            }
            r
        },
        (Some(rr), None) => rr.clone(),
        (None, Some(cr)) => cr.clone(),
        (Some(rr), Some(cr)) => {
            let mut r: Vec<usize> = Vec::new();
            let mut i: usize = 0;
            assert(rr@.take(0) =~= Seq::<usize>::empty());
            while i < rr.len()
                invariant
                    i <= rr.len(),
                    r@ == rows_also_in(rr@.take(i as int), cr@),
                decreases rr.len() - i,
            {
                assert(rr@.take(i as int + 1).drop_last() =~= rr@.take(i as int));
                assert(rr@.take(i as int + 1).last() == rr@[i as int]);
                if contains_row(cr, rr[i]) {
                    r.push(rr[i]);
                }
                i = i + 1;
            }
            assert(rr@.take(i as int) =~= rr@);
            r
        },
    }
}

/// How the scales of a facet grid's panels are shared: with `SCALES FREE X`
/// each column has its x scale (each row, where there are no column values),
/// and with `SCALES FREE Y` each row its y scale (each column, where there
/// are no row values).
#[derive(Debug, Clone, Copy, PartialEq, Eq, Structural)]
pub struct GridScaleSharing {
    pub x_per_col: bool,
    pub x_per_row: bool,
    pub y_per_row: bool,
    pub y_per_col: bool,
}

/// How a facet grid's panels share scales (see `GridScaleSharing`).
pub fn grid_scale_sharing(f: ScaleFreedom, has_row_var: bool, has_col_var: bool) -> (r: GridScaleSharing)
    ensures
        r.x_per_col == (spec_x_free(f) && has_col_var),
        r.x_per_row == (spec_x_free(f) && !has_col_var),
        r.y_per_row == (spec_y_free(f) && has_row_var),
        r.y_per_col == (spec_y_free(f) && !has_row_var),
{
    let xf = x_free(f);
    let yf = y_free(f);
    GridScaleSharing {
        x_per_col: xf && has_col_var,
        x_per_row: xf && !has_col_var,
        y_per_row: yf && has_row_var,
        y_per_col: yf && !has_row_var,
    }
}

/// The rows of several parts, part after part.
pub open spec fn rows_in_order(parts: Seq<Seq<usize>>) -> Seq<usize>
    decreases parts.len(),
{
    if parts.len() == 0 {
        seq![]
    } else {
        rows_in_order(parts.drop_last()) + parts.last()
    }
}

/// The order in which filled bars are stacked: rows grouped by fill value,
/// groups in order of first appearance, rows in increasing order within a
/// group.
pub open spec fn stacking_order(fill: Seq<Seq<char>>) -> Seq<usize> {
    let keys = distinct_in_order(fill);
    rows_in_order(Seq::new(keys.len(), |p: int| indices_of(fill, keys[p])))
}

/// The rows among `rows` whose slot is `s`, in their order.
pub open spec fn rows_in_slot(rows: Seq<usize>, slots: Seq<usize>, s: usize) -> Seq<usize>
    decreases rows.len(),
{
    if rows.len() == 0 {
        seq![]
    } else {
        let before = rows_in_slot(rows.drop_last(), slots, s);
        if slots[rows.last() as int] == s {
            before.push(rows.last())
        } else {
            before
        }
    }
}

/// One bar of a stack: its row, and the rows stacked below it in the same
/// slot, bottom first.
pub struct StackedBar {
    pub row: usize,
    pub below: Vec<usize>,
}

/// Plans stacked bars: the bars in stacking order (see `stacking_order`),
/// each with the rows stacked below it, those earlier in that order whose
/// slot (`slots[row]`, the bar's x position) is its own.
pub fn stack_bars(slots: &Vec<usize>, fill: &Vec<String>) -> (r: Vec<StackedBar>)
    requires
        fill.len() <= slots.len(),
    ensures
        r.len() == stacking_order(fill.deep_view()).len(),
        forall|k: int| 0 <= k < r.len() ==> {
            let order = stacking_order(fill.deep_view());
            &&& (#[trigger] r@[k]).row == order[k]
            &&& r@[k].row < fill.len()
            &&& r@[k].below@ == rows_in_slot(order.take(k), slots@, slots@[order[k] as int])
        },
{
    let ghost fv = fill.deep_view();
    let parts = partition_rows(fill);
    let ghost keys = parts.keys.deep_view();
    let ghost pv = parts.rows.deep_view();
    proof {
        assert(pv =~= Seq::new(keys.len(), |p: int| indices_of(fv, keys[p])));
    }
    let mut order: Vec<usize> = Vec::new();
    let mut p: usize = 0;
    while p < parts.rows.len()
        invariant
            p <= parts.rows.len(),
            pv == parts.rows.deep_view(),
            keys == parts.keys.deep_view(),
            fv == fill.deep_view(),
            is_partition_of(keys, pv, fv),
            order@ == rows_in_order(pv.take(p as int)),
            forall|m: int| 0 <= m < order.len() ==> #[trigger] order@[m] < fill.len(),
        decreases parts.rows.len() - p,
    {
        let part = &parts.rows[p];
        proof {
            assert(pv[p as int] == part.deep_view());
            assert(part.deep_view() =~= part@);
            assert(pv[p as int] == indices_of(fv, keys[p as int]));
            assert(fv.len() == fill.len());
            lemma_indices_bound(fv, keys[p as int]);
        }
        let ghost start = order@;
        let mut q: usize = 0;
        while q < part.len()
            invariant
                q <= part.len(),
                part@ == pv[p as int],
                start == rows_in_order(pv.take(p as int)),
                order@ == start + part@.take(q as int),
                forall|j: int| 0 <= j < part@.len() ==> #[trigger] part@[j] < fill.len(),
                forall|m: int| 0 <= m < order.len() ==> #[trigger] order@[m] < fill.len(),
            decreases part.len() - q,
        {
            order.push(part[q]);
            proof {
                assert(part@.take(q as int + 1) =~= part@.take(q as int).push(part@[q as int]));
            }
            q = q + 1;
        }
        proof {
            assert(part@.take(q as int) =~= part@);
            assert(pv.take(p as int + 1).drop_last() =~= pv.take(p as int));
            assert(pv.take(p as int + 1).last() == pv[p as int]);
        }
        p = p + 1;
    }
    proof {
        assert(pv.take(p as int) =~= pv);
        assert(order@ == stacking_order(fv));
    }
    let ghost ov = order@;
    let mut r: Vec<StackedBar> = Vec::new();
    let mut k: usize = 0;
    while k < order.len()
        invariant
            k <= order.len(),
            ov == order@,
            ov == stacking_order(fv),
            fv == fill.deep_view(),
            fill.len() <= slots.len(),
            forall|m: int| 0 <= m < order.len() ==> #[trigger] order@[m] < fill.len(),
            r.len() == k,
            forall|m: int| 0 <= m < k ==> {
                &&& (#[trigger] r@[m]).row == ov[m]
                &&& r@[m].row < fill.len()
                &&& r@[m].below@ == rows_in_slot(ov.take(m), slots@, slots@[ov[m] as int])
            },
        decreases order.len() - k,
    {
        let s = slots[order[k]];
        let mut below: Vec<usize> = Vec::new();
        let mut j: usize = 0;
        while j < k
            invariant
                j <= k,
                k < order.len(),
                ov == order@,
                fill.len() <= slots.len(),
                forall|m: int| 0 <= m < order.len() ==> #[trigger] order@[m] < fill.len(),
                below@ == rows_in_slot(ov.take(j as int), slots@, s),
            decreases k - j,
        {
            proof {
                assert(ov.take(j as int + 1).drop_last() =~= ov.take(j as int));
                assert(ov.take(j as int + 1).last() == ov[j as int]);
            }
            if slots[order[j]] == s {
                below.push(order[j]);
            }
            j = j + 1;
        }
        r.push(StackedBar { row: order[k], below });
        proof {
            assert(r@[k as int].row == ov[k as int]);
        }
        k = k + 1;
    }
    r
}

/// The rows of each series of a line: one series per group value, in
/// order of first appearance, where there is a group column; otherwise one
/// series of all `n` rows.
pub open spec fn series_of(group: Option<Seq<Seq<char>>>, n: nat) -> Seq<Seq<usize>> {
    match group {
        Some(g) => {
            let keys = distinct_in_order(g);
            Seq::new(keys.len(), |p: int| indices_of(g, keys[p]))
        },
        None => seq![Seq::new(n, |i: int| i as usize)],
    }
}

/// The series of at least two rows, in order.
pub open spec fn drawable_series(s: Seq<Seq<usize>>) -> Seq<Seq<usize>>
    decreases s.len(),
{
    if s.len() == 0 {
        seq![]
    } else if s.last().len() >= 2 {
        drawable_series(s.drop_last()).push(s.last())
    } else {
        drawable_series(s.drop_last())
    }
}

/// The series that a line draws: those of at least two rows.
pub open spec fn line_series(group: Option<Seq<Seq<char>>>, n: nat) -> Seq<Seq<usize>> {
    drawable_series(series_of(group, n))
}

/// The series that a line layer draws (see `line_series`).
pub fn line_series_rows(group: Option<&Vec<String>>, n: usize) -> (r: Vec<Vec<usize>>)
    ensures
        r.deep_view() == line_series(
            match group {
                Some(g) => Some(g.deep_view()),
                None => None,
            },
            n as nat,
        ),
{
    let ghost gv = match group {
        Some(g) => Some(g.deep_view()),
        None => None::<Seq<Seq<char>>>,
    };
    let all: Vec<Vec<usize>> = match group {
        Some(g) => {
            let parts = partition_rows(g);
            proof {
                let keys = parts.keys.deep_view();
                assert(parts.rows.deep_view() =~= Seq::new(keys.len(), |p: int| indices_of(g.deep_view(), keys[p])));
            }
            parts.rows
        },
        None => {
            let mut rows: Vec<usize> = Vec::new();
            let mut i: usize = 0;
            while i < n
                invariant
                    i <= n,
                    rows@ == Seq::new(i as nat, |k: int| k as usize),
                decreases n - i,
            {
                rows.push(i);
                proof {
                    assert(rows@ =~= Seq::new(i as nat + 1, |k: int| k as usize));
                }
                i = i + 1;
            }
            let mut all: Vec<Vec<usize>> = Vec::new();
            all.push(rows);
            proof {
                assert(all@[0].deep_view() =~= all@[0]@);
                assert(all.deep_view() =~= seq![Seq::new(n as nat, |k: int| k as usize)]);
            }
            all
        },
    };
    let ghost sv = all.deep_view();
    assert(sv == series_of(gv, n as nat));
    let mut r: Vec<Vec<usize>> = Vec::new();
    let mut p: usize = 0;
    while p < all.len()
        invariant
            p <= all.len(),
            sv == all.deep_view(),
            r.deep_view() == drawable_series(sv.take(p as int)),
        decreases all.len() - p,
    {
        proof {
            assert(sv.take(p as int + 1).drop_last() =~= sv.take(p as int));
            assert(sv.take(p as int + 1).last() == sv[p as int]);
            assert(sv[p as int] == all@[p as int].deep_view());
            assert(all@[p as int].deep_view() =~= all@[p as int]@);
        }
        if all[p].len() >= 2 {
            let ghost before = r.deep_view();
            let rows = all[p].clone();
            r.push(rows);
            proof {
                assert(r@[r.len() - 1].deep_view() =~= sv[p as int]);
                assert(r.deep_view() =~= before.push(sv[p as int]));
            }
        }
        p = p + 1;
    }
    proof {
        assert(sv.take(p as int) =~= sv);
    }
    r
}

} // verus!

verus! {

/// Whether panels have scales of their own for the family: positions along
/// a free axis do, everything else is shared.
pub fn family_is_free(f: ScaleFreedom, family: AestheticFamily) -> (r: bool)
    ensures
        r == ((spec_x_free(f) && family == AestheticFamily::HorizontalPosition)
            || (spec_y_free(f) && family == AestheticFamily::VerticalPosition)),
{
    (x_free(f) && family == AestheticFamily::HorizontalPosition) || (y_free(f) && family == AestheticFamily::VerticalPosition)
}

/// Whether a wrapped panel draws its x axis: with free x scales every panel
/// does; otherwise only the last panel of each column.
pub fn wrap_panel_has_x_axis(panel: usize, num_cols: usize, num_panels: usize, x_free: bool) -> (r: bool)
    ensures
        r == (x_free || panel + num_cols >= num_panels),
{
    x_free || panel as u128 + num_cols as u128 >= num_panels as u128
}

/// Where a facet panel stands: panels fill rows of `ncols` columns, left to
/// right and top to bottom, and a panel draws its x axis where `x_axis` says.
pub struct PanelCell {
    pub panel: usize,
    pub row: usize,
    pub col: usize,
    pub x_axis: bool,
}

/// The cells of `n` panels in rows of `ncols` columns: panel `p` stands in
/// row `p / ncols`, column `p % ncols`, and draws its x axis where x scales
/// are free or no panel stands below it (see `wrap_panel_has_x_axis`).
pub fn panel_cells(n: usize, ncols: usize, x_free: bool) -> (r: Vec<PanelCell>)
    requires
        ncols > 0,
    ensures
        r.len() == n,
        forall|p: int| 0 <= p < n ==> {
            &&& (#[trigger] r@[p]).panel == p
            &&& r@[p].row == p / (ncols as int)
            &&& r@[p].col == p % (ncols as int)
            &&& r@[p].x_axis == (x_free || p + ncols >= n)
        },
{
    let mut r: Vec<PanelCell> = Vec::new();
    let mut row: usize = 0;
    let mut col: usize = 0;
    let mut p: usize = 0;
    while p < n
        invariant
            p <= n,
            ncols > 0,
            col < ncols,
            p == row * ncols + col,
            r.len() == p,
            forall|q: int| 0 <= q < p ==> {
                &&& (#[trigger] r@[q]).panel == q
                &&& r@[q].row == q / (ncols as int)
                &&& r@[q].col == q % (ncols as int)
                &&& r@[q].x_axis == (x_free || q + ncols >= n)
            },
        decreases n - p,
    {
        proof {
            vstd::arithmetic::div_mod::lemma_fundamental_div_mod_converse(p as int, ncols as int, row as int, col as int);
        }
        let x_axis = wrap_panel_has_x_axis(p, ncols, n, x_free);
        r.push(PanelCell { panel: p, row, col, x_axis });
        if col + 1 == ncols {
            proof {
                assert((row + 1) * ncols == row * ncols + ncols) by (nonlinear_arith);
            }
            row = row + 1;
            col = 0;
        } else {
            col = col + 1;
        }
        p = p + 1;
    }
    r
}

/// In a facet grid of `nr` rows of `nc` panels, the panels with none below
/// them are exactly those of the bottom row.
pub proof fn law_grid_bottom_row(nr: nat, nc: nat, p: int)
    requires
        nc > 0,
        0 <= p < nr * nc,
    ensures
        (p + nc >= nr * nc) <==> (p / (nc as int) + 1 == nr),
{
    let row = p / (nc as int);
    let col = p % (nc as int);
    vstd::arithmetic::div_mod::lemma_fundamental_div_mod(p, nc as int);
    assert(0 <= col < nc);
    assert(p == nc * row + col);
    assert(nr * nc == nc * nr) by (nonlinear_arith);
    assert(nc * (row + 1) == nc * row + nc) by (nonlinear_arith);
    if row + 1 < nr {
        assert(nc * (row + 1) <= nc * (nr - 1)) by (nonlinear_arith)
            requires
                row + 1 <= nr - 1,
                nc > 0,
        ;
        assert(nc * (nr - 1) + nc == nc * nr) by (nonlinear_arith);
        assert(p + nc < nr * nc);
    } else {
        assert(row < nr) by (nonlinear_arith)
            requires
                p == nc * row + col,
                0 <= col,
                p < nr * nc,
                nc > 0,
        ;
        assert(row + 1 == nr);
        assert(p + nc >= nr * nc);
    }
}

/// Whether the panels of a facet grid's row draw their x axes: with free x
/// scales every row does; otherwise only the bottom row.
pub fn grid_row_has_x_axis(row: usize, num_rows: usize, x_free: bool) -> (r: bool)
    ensures
        r == (x_free || row + 1 == num_rows),
{
    x_free || row as u128 + 1 == num_rows as u128
}

} // verus!
