//! What holds of every resolution, proved over the models.

use vstd::prelude::*;
use crate::classify::Category;
use crate::classify::classify;
use crate::index::{Columns, classify_row, has_column, observe, observe_row};
use crate::scan::{rows_fit, row_fits, scan};
use crate::schema::{
    Primitive,
    has_categorical,
    has_missing,
    levels_of,
    resolve_all,
    resolve_column,
    resolve_primitive,
};

verus! {

/// Resolution is a function of the observations alone: the same
/// observations always give the same schema.
pub proof fn law_resolution_is_pure(a: Columns, b: Columns)
    requires
        a == b,
    ensures
        resolve_all(a) == resolve_all(b),
{
}

/// A column with at least one categorical observation is categorical,
/// however many integer or real observations it also has.
pub proof fn law_categorical_precedence(name: Seq<char>, cs: Seq<Category>, i: int)
    requires
        0 <= i < cs.len(),
        cs[i] is Categorical,
    ensures
        resolve_column(name, cs).primitive == Primitive::Categorical,
{
    assert(has_categorical(cs));
}

/// A column is optional exactly when one of its observations is missing.
pub proof fn law_optional_iff_missing(name: Seq<char>, cs: Seq<Category>)
    ensures
        resolve_column(name, cs).optional <==> exists|i: int|
            0 <= i < cs.len() && #[trigger] cs[i] == Category::Missing,
{
    if resolve_column(name, cs).optional {
        let i = choose|i: int| 0 <= i < cs.len() && #[trigger] cs[i] is Missing;
        assert(cs[i] == Category::Missing);
    }
}

proof fn lemma_levels_ignore_missing(cs: Seq<Category>, k: int)
    requires
        0 <= k <= cs.len(),
    ensures
        levels_of(cs.insert(k, Category::Missing)) == levels_of(cs),
    decreases cs.len(),
{
    let ins = cs.insert(k, Category::Missing);
    if k == cs.len() {
        assert(ins.drop_last() =~= cs);
    } else {
        assert(ins.drop_last() =~= cs.drop_last().insert(k, Category::Missing));
        assert(ins.last() == cs.last());
        lemma_levels_ignore_missing(cs.drop_last(), k);
    }
}

/// A missing observation makes a column optional and changes nothing else:
/// neither its primitive type nor its levels.
pub proof fn law_missing_only_adds_optional(name: Seq<char>, cs: Seq<Category>, k: int)
    requires
        0 <= k <= cs.len(),
    ensures
        resolve_column(name, cs.insert(k, Category::Missing)).optional,
        resolve_column(name, cs.insert(k, Category::Missing)).primitive == resolve_column(
            name,
            cs,
        ).primitive,
        resolve_column(name, cs.insert(k, Category::Missing)).levels == resolve_column(
            name,
            cs,
        ).levels,
{
    let ins = cs.insert(k, Category::Missing);
    assert(ins[k] is Missing);
    lemma_levels_ignore_missing(cs, k);
    assert forall|i: int| 0 <= i < cs.len() implies #[trigger] cs[i] == ins[if i < k {
        i
    } else {
        i + 1
    }] by {}
    assert forall|i: int| 0 <= i < ins.len() && i != k implies #[trigger] ins[i] == cs[if i < k {
        i
    } else {
        i - 1
    }] by {}
}

proof fn lemma_level_members(cs: Seq<Category>)
    ensures
        levels_of(cs).no_duplicates(),
        forall|t: Seq<char>|
            levels_of(cs).contains(t) <==> exists|i: int|
                0 <= i < cs.len() && #[trigger] cs[i] == Category::Categorical(t),
    decreases cs.len(),
{
    if cs.len() > 0 {
        let init = cs.drop_last();
        lemma_level_members(init);
        let prev = levels_of(init);
        let lv = levels_of(cs);
        let n = init.len() as int;
        assert forall|i: int| 0 <= i < n implies #[trigger] init[i] == cs[i] by {}
        let grew = cs[n] is Categorical && !prev.contains(cs[n]->Categorical_0);
        if grew {
            assert(lv =~= prev.push(cs[n]->Categorical_0));
            assert forall|x: int, y: int| 0 <= x < lv.len() && 0 <= y < lv.len() && x != y implies lv[x] != lv[y] by {
                if x < n && y == prev.len() {
                    assert(prev.contains(prev[x]));
                } else if y < n && x == prev.len() {
                    assert(prev.contains(prev[y]));
                }
            }
        } else {
            assert(lv == prev);
        }
        assert forall|t: Seq<char>|
            lv.contains(t) <==> exists|i: int|
                0 <= i < cs.len() && #[trigger] cs[i] == Category::Categorical(t) by {
            if lv.contains(t) {
                if prev.contains(t) {
                    let i = choose|i: int|
                        0 <= i < init.len() && #[trigger] init[i] == Category::Categorical(t);
                    assert(cs[i] == Category::Categorical(t));
                } else {
                    assert(grew);
                    assert(lv[prev.len() as int] == t);
                    assert(cs[n] == Category::Categorical(t));
                }
            }
            if exists|i: int| 0 <= i < cs.len() && #[trigger] cs[i] == Category::Categorical(t) {
                let i = choose|i: int| 0 <= i < cs.len() && #[trigger] cs[i] == Category::Categorical(t);
                if i < n {
                    assert(init[i] == Category::Categorical(t));
                    assert(prev.contains(t));
                    let x = choose|x: int| 0 <= x < prev.len() && prev[x] == t;
                    assert(lv[x] == t);
                } else if grew {
                    assert(lv[prev.len() as int] == t);
                } else {
                    assert(prev.contains(t));
                }
            }
        }
    }
}

proof fn lemma_level_order(cs: Seq<Category>, a: int, b: int, q: int)
    requires
        0 <= a < b < levels_of(cs).len(),
        0 <= q < cs.len(),
        cs[q] == Category::Categorical(levels_of(cs)[b]),
    ensures
        occurs_before(cs, levels_of(cs)[a], q),
    decreases cs.len(),
{
    let init = cs.drop_last();
    lemma_level_members(init);
    let prev = levels_of(init);
    let lv = levels_of(cs);
    let n = init.len() as int;
    assert forall|i: int| 0 <= i < n implies #[trigger] init[i] == cs[i] by {}
    let grew = cs[n] is Categorical && !prev.contains(cs[n]->Categorical_0);
    if grew {
        assert(lv =~= prev.push(cs[n]->Categorical_0));
    } else {
        assert(lv == prev);
    }
    assert(lv[a] == prev[a]);
    assert(prev.contains(prev[a]));
    let pa = choose|i: int| 0 <= i < init.len() && #[trigger] init[i] == Category::Categorical(prev[a]);
    assert(cs[pa] == Category::Categorical(lv[a]));
    if q < n {
        assert(init[q] == cs[q]);
        if b < prev.len() {
            assert(lv[b] == prev[b]);
            lemma_level_order(init, a, b, q);
            let p = choose|p: int| 0 <= p < q && #[trigger] init[p] == Category::Categorical(prev[a]);
            assert(cs[p] == init[p]);
        } else {
            assert(init[q] == Category::Categorical(lv[b]));
            assert(prev.contains(lv[b]));
        }
    } else {
        assert(pa < q);
    }
}

/// Of any two texts in `lv`, the earlier one occurs in `cs` before any
/// occurrence of the later one.
pub open spec fn in_first_seen_order(cs: Seq<Category>, lv: Seq<Seq<char>>) -> bool {
    forall|a: int, b: int, q: int|
        #![trigger lv[a], lv[b], cs[q]]
        0 <= a < b < lv.len() && 0 <= q < cs.len() && cs[q] == Category::Categorical(lv[b])
            ==> occurs_before(cs, lv[a], q)
}

/// The text `t` occurs in `cs` before position `q`.
pub open spec fn occurs_before(cs: Seq<Category>, t: Seq<char>, q: int) -> bool {
    exists|p: int| 0 <= p < q && #[trigger] cs[p] == Category::Categorical(t)
}

/// The levels of a column: each categorical text exactly once, nothing else,
/// in the order in which the texts first occur.
pub proof fn law_levels(cs: Seq<Category>)
    ensures
        levels_of(cs).no_duplicates(),
        forall|t: Seq<char>|
            levels_of(cs).contains(t) <==> exists|i: int|
                0 <= i < cs.len() && #[trigger] cs[i] == Category::Categorical(t),
        in_first_seen_order(cs, levels_of(cs)),
{
    lemma_level_members(cs);
    let lv = levels_of(cs);
    assert forall|a: int, b: int, q: int|
        #![trigger lv[a], lv[b], cs[q]]
        (0 <= a < b < lv.len() && 0 <= q < cs.len() && cs[q] == Category::Categorical(lv[b])
            ==> occurs_before(cs, lv[a], q)) by {
        if 0 <= a < b < lv.len() && 0 <= q < cs.len() && cs[q] == Category::Categorical(lv[b]) {
            lemma_level_order(cs, a, b, q);
        }
    }
}

/// No two headers have the same text.
pub open spec fn distinct_headers(h: Seq<String>) -> bool {
    forall|i: int, j: int| 0 <= i < h.len() && 0 <= j < h.len() && i != j ==> #[trigger] h[i]@ != #[trigger] h[j]@
}

/// The categories of column `j`, one per row, in row order.
pub open spec fn column_cells(rows: Seq<Vec<String>>, j: int) -> Seq<Category> {
    Seq::new(rows.len(), |k: int| classify(rows[k]@[j]@))
}

proof fn lemma_first_row(h: Seq<String>, cells: Seq<String>, m: int)
    requires
        distinct_headers(h),
        cells.len() == h.len(),
        0 <= m <= h.len(),
    ensures
        observe_row(Seq::empty(), classify_row(h, cells).take(m)) == Seq::new(
            m as nat,
            |j: int| (h[j]@, seq![classify(cells[j]@)]),
        ),
    decreases m,
{
    let row = classify_row(h, cells);
    let want = Seq::new(m as nat, |j: int| (h[j]@, seq![classify(cells[j]@)]));
    if m == 0 {
        assert(row.take(0) =~= Seq::<(Seq<char>, Category)>::empty());
        assert(want =~= Seq::<(Seq<char>, Seq<Category>)>::empty());
    } else {
        lemma_first_row(h, cells, m - 1);
        assert(row.take(m).drop_last() =~= row.take(m - 1));
        let prev = observe_row(Seq::empty(), row.take(m - 1));
        assert(!has_column(prev, h[m - 1]@)) by {
            if has_column(prev, h[m - 1]@) {
                let i = choose|i: int| 0 <= i < prev.len() && #[trigger] prev[i].0 == h[m - 1]@;
                assert(h[i]@ == h[m - 1]@);
            }
        }
        assert(observe_row(Seq::empty(), row.take(m)) =~= want);
    }
}

proof fn lemma_next_row(h: Seq<String>, cells: Seq<String>, cols: Columns, m: int)
    requires
        distinct_headers(h),
        cells.len() == h.len(),
        cols.len() == h.len(),
        forall|j: int| 0 <= j < h.len() ==> #[trigger] cols[j].0 == h[j]@,
        0 <= m <= h.len(),
    ensures
        observe_row(cols, classify_row(h, cells).take(m)) == Seq::new(
            h.len(),
            |j: int|
                if j < m {
                    (cols[j].0, cols[j].1.push(classify(cells[j]@)))
                } else {
                    cols[j]
                },
        ),
    decreases m,
{
    let row = classify_row(h, cells);
    if m == 0 {
        assert(row.take(0) =~= Seq::<(Seq<char>, Category)>::empty());
        assert(cols =~= Seq::new(
            h.len(),
            |j: int|
                if j < 0 {
                    (cols[j].0, cols[j].1.push(classify(cells[j]@)))
                } else {
                    cols[j]
                },
        ));
    } else {
        lemma_next_row(h, cells, cols, m - 1);
        assert(row.take(m).drop_last() =~= row.take(m - 1));
        let prev = observe_row(cols, row.take(m - 1));
        let name = h[m - 1]@;
        assert(prev[m - 1].0 == name);
        assert(has_column(prev, name));
        let i = choose|i: int| 0 <= i < prev.len() && #[trigger] prev[i].0 == name;
        assert(prev[i].0 == h[i]@);
        assert(i == m - 1);
        assert(observe(prev, name, classify(cells[m - 1]@)) =~= Seq::new(
            h.len(),
            |j: int|
                if j < m {
                    (cols[j].0, cols[j].1.push(classify(cells[j]@)))
                } else {
                    cols[j]
                },
        ));
    }
}

/// After a scan of at least one row, each header has one column, in header
/// order, holding the category of its cell in every row, in row order.
pub proof fn law_scan_collects_columns(headers: Seq<String>, rows: Seq<Vec<String>>)
    requires
        distinct_headers(headers),
        rows_fit(headers, rows),
        rows.len() > 0,
    ensures
        scan(headers, rows).len() == headers.len(),
        forall|j: int|
            0 <= j < headers.len() ==> #[trigger] scan(headers, rows)[j] == (
                headers[j]@,
                column_cells(rows, j),
            ),
    decreases rows.len(),
{
    let init = rows.drop_last();
    let last = rows.last()@;
    assert(row_fits(headers, rows, rows.len() - 1));
    let full = classify_row(headers, last);
    assert(full.take(headers.len() as int) =~= full);
    if init.len() == 0 {
        lemma_first_row(headers, last, headers.len() as int);
        assert(scan(headers, init) == Seq::<(Seq<char>, Seq<Category>)>::empty());
        assert(scan(headers, rows) == observe_row(Seq::empty(), full));
        assert forall|j: int| 0 <= j < headers.len() implies #[trigger] scan(headers, rows)[j] == (
            headers[j]@,
            column_cells(rows, j),
        ) by {
            assert(scan(headers, rows)[j] == (headers[j]@, seq![classify(last[j]@)]));
            assert(column_cells(rows, j) =~= seq![classify(last[j]@)]);
        }
    } else {
        assert forall|k: int| 0 <= k < init.len() implies #[trigger] row_fits(headers, init, k) by {
            assert(row_fits(headers, rows, k));
        }
        law_scan_collects_columns(headers, init);
        let cols = scan(headers, init);
        lemma_next_row(headers, last, cols, headers.len() as int);
        assert(init =~= rows.drop_last());
        assert(scan(headers, rows) == observe_row(cols, full));
        assert forall|j: int| 0 <= j < headers.len() implies #[trigger] scan(headers, rows)[j] == (
            headers[j]@,
            column_cells(rows, j),
        ) by {
            assert(cols[j] == (headers[j]@, column_cells(init, j)));
            assert(scan(headers, rows)[j] == (cols[j].0, cols[j].1.push(classify(last[j]@))));
            assert(column_cells(rows, j) =~= column_cells(init, j).push(classify(last[j]@)));
        }
    }
}

} // verus!
