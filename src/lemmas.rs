//! Facts about the table operations taken together: selection, updates
//! applied twice, deletion, column changes, and writing then reading a sheet.
use vstd::prelude::*;

use crate::table::{
    grid_of, kept, line_of, row_from, rows_of_grid, satisfies, selected, updated, with_column,
    without_column, RowMap,
};

verus! {

/// Every row that a query selects satisfies the query, and the selection is
/// no longer than the table.
pub proof fn lemma_selected_satisfy(s: Seq<RowMap>, q: RowMap)
    ensures
        selected(s, q).len() <= s.len(),
        forall|i: int| 0 <= i < selected(s, q).len() ==> satisfies(#[trigger] selected(s, q)[i], q),
    decreases s.len(),
{
    if s.len() > 0 {
        lemma_selected_satisfy(s.drop_last(), q);
    }
}

/// A row that does not satisfy a query is never selected by it.
pub proof fn lemma_select_excludes(s: Seq<RowMap>, q: RowMap, r: RowMap)
    requires
        !satisfies(r, q),
    ensures
        !selected(s, q).contains(r),
{
    lemma_selected_satisfy(s, q);
}

/// The empty query selects every row, in order; so nothing is selected
/// exactly when the table is empty.
pub proof fn lemma_select_all(s: Seq<RowMap>)
    ensures
        selected(s, Map::empty()) == s,
        selected(s, Map::empty()).len() == 0 <==> s.len() == 0,
    decreases s.len(),
{
    if s.len() > 0 {
        lemma_select_all(s.drop_last());
        assert(Map::<Seq<char>, Seq<char>>::empty().submap_of(s.last()));
        assert(s.drop_last().push(s.last()) =~= s);
    }
}

/// Applying the same update twice leaves the rows as applying it once.
pub proof fn lemma_update_idempotent(s: Seq<RowMap>, q: RowMap, p: RowMap)
    ensures
        updated(updated(s, q, p), q, p) == updated(s, q, p),
{
    let once = updated(s, q, p);
    assert forall|i: int| 0 <= i < s.len() implies #[trigger] updated(once, q, p)[i] == once[i] by {
        if satisfies(once[i], q) && satisfies(s[i], q) {
            assert(once[i].union_prefer_right(p) =~= once[i]);
        }
    }
    assert(updated(once, q, p) =~= once);
}

/// No row left after a delete satisfies the query.
pub proof fn lemma_kept_unsatisfied(s: Seq<RowMap>, q: RowMap)
    ensures
        forall|i: int| 0 <= i < kept(s, q).len() ==> !satisfies(#[trigger] kept(s, q)[i], q),
    decreases s.len(),
{
    if s.len() > 0 {
        let rest = kept(s.drop_last(), q);
        lemma_kept_unsatisfied(s.drop_last(), q);
        assert forall|i: int| 0 <= i < kept(s, q).len() implies !satisfies(
            #[trigger] kept(s, q)[i],
            q,
        ) by {
            if i < rest.len() {
                assert(kept(s, q)[i] == rest[i]);
            }
        }
    }
}

/// After deleting the rows that satisfy a query, the same query selects nothing.
pub proof fn lemma_delete_complete(s: Seq<RowMap>, q: RowMap)
    ensures
        selected(kept(s, q), q).len() == 0,
{
    let k = kept(s, q);
    lemma_kept_unsatisfied(s, q);
    lemma_none_selected(k, q);
}

proof fn lemma_none_selected(s: Seq<RowMap>, q: RowMap)
    requires
        forall|i: int| 0 <= i < s.len() ==> !satisfies(#[trigger] s[i], q),
    ensures
        selected(s, q).len() == 0,
    decreases s.len(),
{
    if s.len() > 0 {
        assert(!satisfies(s[s.len() - 1], q));
        lemma_none_selected(s.drop_last(), q);
    }
}

/// After adding a column every row has it; after then removing it no row
/// has it, the number of rows is unchanged, and every other column of every
/// row is as it was.
pub proof fn lemma_column_lifecycle(s: Seq<RowMap>, name: Seq<char>, d: Seq<char>)
    ensures
        forall|i: int| 0 <= i < s.len() ==> (#[trigger] with_column(s, name, d)[i]).contains_key(name),
        without_column(with_column(s, name, d), name).len() == s.len(),
        forall|i: int|
            0 <= i < s.len() ==> !(#[trigger] without_column(with_column(s, name, d), name)[i]).contains_key(
                name,
            ),
        forall|i: int|
            0 <= i < s.len() ==> (#[trigger] without_column(with_column(s, name, d), name)[i]) == s[i].remove(
                name,
            ),
{
    let w = with_column(s, name, d);
    assert forall|i: int| 0 <= i < s.len() implies (#[trigger] without_column(w, name)[i]) == s[i].remove(
        name,
    ) by {
        if !s[i].contains_key(name) {
            assert(s[i].insert(name, d).remove(name) =~= s[i].remove(name));
        }
    }
}

/// The row read back from the line written for `r` under `h`, after `j` columns,
/// is `r` limited to those columns.
proof fn lemma_row_from_line(h: Seq<Seq<char>>, r: RowMap, j: nat)
    requires
        j <= h.len(),
        forall|k: int| 0 <= k < h.len() ==> r.contains_key(#[trigger] h[k]),
    ensures
        row_from(h, line_of(h, r), j) == r.restrict(h.take(j as int).to_set()),
    decreases j,
{
    if j == 0 {
        assert(r.restrict(h.take(0).to_set()) =~= Map::empty());
    } else {
        lemma_row_from_line(h, r, (j - 1) as nat);
        let t1 = h.take(j as int);
        let t0 = h.take(j - 1);
        assert forall|x: Seq<char>| #[trigger] t1.to_set().contains(x) <==> (t0.to_set().contains(x)
            || x == h[j - 1]) by {
            if t1.to_set().contains(x) {
                let m = choose|m: int| 0 <= m < t1.len() && t1[m] == x;
                if m < j - 1 {
                    assert(t0[m] == x);
                }
            }
            if t0.to_set().contains(x) {
                let m = choose|m: int| 0 <= m < t0.len() && t0[m] == x;
                assert(t1[m] == x);
            }
            if x == h[j - 1] {
                assert(t1[j - 1] == x);
            }
        }
        assert(row_from(h, line_of(h, r), j) =~= r.restrict(t1.to_set()));
    }
}

/// Saving rows that all have exactly the header's columns and reading the
/// written sheet back gives the same rows, in the same order.
pub proof fn lemma_round_trip(h: Seq<Seq<char>>, s: Seq<RowMap>)
    requires
        s.len() > 0,
        forall|i: int| 0 <= i < s.len() ==> (#[trigger] s[i]).dom() == h.to_set(),
    ensures
        rows_of_grid(grid_of(h, s)) == s,
{
    let g = grid_of(h, s);
    assert forall|i: int| 0 <= i < s.len() implies #[trigger] rows_of_grid(g)[i] == s[i] by {
        assert(g[i + 1] == line_of(h, s[i]));
        assert forall|k: int| 0 <= k < h.len() implies s[i].contains_key(#[trigger] h[k]) by {
            assert(h.to_set().contains(h[k]));
        }
        lemma_row_from_line(h, s[i], h.len());
        assert(h.take(h.len() as int) =~= h);
        assert(s[i].restrict(h.to_set()) =~= s[i]);
    }
    assert(rows_of_grid(g) =~= s);
}

} // verus!
