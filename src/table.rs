//! The meaning of rows, queries and sheets as mathematical values: what
//! each table operation computes, stated over maps and sequences.
use vstd::prelude::*;

verus! {

/// A row as a map from column name to cell text.
pub type RowMap = Map<Seq<char>, Seq<char>>;

/// A row satisfies a query when it holds every queried column with the
/// queried value; a missing column never satisfies a query.
pub open spec fn satisfies(row: RowMap, q: RowMap) -> bool {
    q.submap_of(row)
}

/// The rows of `s` that satisfy `q`, in their order.
pub open spec fn selected(s: Seq<RowMap>, q: RowMap) -> Seq<RowMap>
    decreases s.len(),
{
    if s.len() == 0 {
        Seq::empty()
    } else {
        let rest = selected(s.drop_last(), q);
        if satisfies(s.last(), q) {
            rest.push(s.last())
        } else {
            rest
        }
    }
}

/// The rows of `s` that do not satisfy `q`, in their order.
pub open spec fn kept(s: Seq<RowMap>, q: RowMap) -> Seq<RowMap>
    decreases s.len(),
{
    if s.len() == 0 {
        Seq::empty()
    } else {
        let rest = kept(s.drop_last(), q);
        if satisfies(s.last(), q) {
            rest
        } else {
            rest.push(s.last())
        }
    }
}

/// One row after an update: the patch is merged in when the row satisfies
/// the query, overwriting the columns it names.
pub open spec fn patched(r: RowMap, q: RowMap, p: RowMap) -> RowMap {
    if satisfies(r, q) {
        r.union_prefer_right(p)
    } else {
        r
    }
}

/// Every row after an update.
pub open spec fn updated(s: Seq<RowMap>, q: RowMap, p: RowMap) -> Seq<RowMap> {
    Seq::new(s.len(), |i: int| patched(s[i], q, p))
}

/// Every row after adding column `name` with value `d` to the rows lacking it.
pub open spec fn with_column(s: Seq<RowMap>, name: Seq<char>, d: Seq<char>) -> Seq<RowMap> {
    Seq::new(
        s.len(),
        |i: int|
            if s[i].contains_key(name) {
                s[i]
            } else {
                s[i].insert(name, d)
            },
    )
}

/// Every row after removing column `name`.
pub open spec fn without_column(s: Seq<RowMap>, name: Seq<char>) -> Seq<RowMap> {
    Seq::new(s.len(), |i: int| s[i].remove(name))
}

/// The value of column `k` in `r`, if present.
pub open spec fn lookup(r: RowMap, k: Seq<char>) -> Option<Seq<char>> {
    if r.contains_key(k) {
        Some(r[k])
    } else {
        None
    }
}

/// Whether row `r` holds `v` in column `c`.
pub open spec fn holds(r: RowMap, c: Seq<char>, v: Seq<char>) -> bool {
    r.contains_key(c) && r[c] == v
}

/// Cell `j` of a sheet row, or empty text past the row's end.
pub open spec fn cell_or_empty(cells: Seq<Seq<char>>, j: int) -> Seq<char> {
    if 0 <= j < cells.len() {
        cells[j]
    } else {
        Seq::empty()
    }
}

/// The row read from sheet row `cells` under header `h`, after its first `j`
/// columns; a later duplicate header name overrides an earlier one.
pub open spec fn row_from(h: Seq<Seq<char>>, cells: Seq<Seq<char>>, j: nat) -> RowMap
    decreases j,
{
    if j == 0 {
        Map::empty()
    } else {
        row_from(h, cells, (j - 1) as nat).insert(h[j - 1], cell_or_empty(cells, j - 1))
    }
}

/// The rows read from a sheet whose first row is the header.
pub open spec fn rows_of_grid(g: Seq<Seq<Seq<char>>>) -> Seq<RowMap> {
    Seq::new((g.len() - 1) as nat, |i: int| row_from(g[0], g[i + 1], g[0].len()))
}

/// The value of column `k` of `r`, or empty text when `r` lacks it.
pub open spec fn value_or_empty(r: RowMap, k: Seq<char>) -> Seq<char> {
    if r.contains_key(k) {
        r[k]
    } else {
        Seq::empty()
    }
}

/// The line written for row `r` under header `h`: a cell per header column.
pub open spec fn line_of(h: Seq<Seq<char>>, r: RowMap) -> Seq<Seq<char>> {
    Seq::new(h.len(), |j: int| value_or_empty(r, h[j]))
}

/// The sheet written for rows `s` under header `h`: the header row, then one
/// row per row of `s` with a cell per header column; nothing when `s` is empty.
pub open spec fn grid_of(h: Seq<Seq<char>>, s: Seq<RowMap>) -> Seq<Seq<Seq<char>>> {
    if s.len() == 0 {
        Seq::empty()
    } else {
        Seq::new(
            s.len() + 1,
            |i: int|
                if i == 0 {
                    h
                } else {
                    line_of(h, s[i - 1])
                },
        )
    }
}

/// The text of `s` with leading and trailing whitespace taken off.
pub uninterp spec fn trimmed(s: Seq<char>) -> Seq<char>;

/// Relies on `str::trim`: the result is the text without the whitespace at
/// both ends, and depends on the text alone.
#[verifier::external_body]
pub(crate) fn trim_text(s: &str) -> (r: &str)
    ensures
        r@ == trimmed(s@),
{
    s.trim()
}

/// Whether column `c` of row `r` holds text that is not only whitespace.
pub open spec fn filled(r: RowMap, c: Seq<char>) -> bool {
    r.contains_key(c) && trimmed(r[c]).len() > 0
}

/// How many rows of `s` have column `c` filled.
pub open spec fn filled_count(s: Seq<RowMap>, c: Seq<char>) -> nat
    decreases s.len(),
{
    if s.len() == 0 {
        0
    } else {
        filled_count(s.drop_last(), c) + if filled(s.last(), c) {
            1nat
        } else {
            0nat
        }
    }
}

/// The index of the first row of `s` that holds `v` in column `c`.
pub open spec fn first_hit(s: Seq<RowMap>, c: Seq<char>, v: Seq<char>, i: int) -> bool {
    0 <= i < s.len() && holds(s[i], c, v) && forall|j: int| 0 <= j < i ==> !holds(s[j], c, v)
}

} // verus!
