//! Treats one sheet of a spreadsheet as an in-memory table with
//! database-style queries and schema changes.
use vstd::prelude::*;

pub mod lemmas;
pub mod row;
pub mod table;

pub use crate::row::{CellValue, Row};
use crate::row::texts;
use crate::table::{
    cell_or_empty, filled_count, first_hit, grid_of, holds, kept, line_of, lookup, patched,
    row_from, rows_of_grid, satisfies, selected, trim_text, updated, with_column, without_column,
    RowMap,
};

verus! {

/// What can go wrong when loading or saving a table.
#[derive(Debug)]
pub enum ExcelDbError {
    /// The file could not be read or written.
    Io(String),
    /// The file is not a spreadsheet that can be read or written.
    SpreadsheetError(String),
    /// The sheet is absent, or a sheet to create already exists.
    SheetNotFound(String),
    /// The sheet has no rows at all, so it has no header row.
    NoHeaders(String),
}

/// The text of every cell of a sheet, row by row.
pub open spec fn grid_texts(g: Seq<Vec<CellValue>>) -> Seq<Seq<Seq<char>>> {
    Seq::new(g.len(), |i: int| Seq::new(g[i]@.len(), |j: int| g[i]@[j]@))
}

/// The rows of `v`, as maps.
pub open spec fn row_maps(v: Seq<Row>) -> Seq<RowMap> {
    Seq::new(v.len(), |i: int| v[i]@)
}

/// The column names of the first row of `v`, or none when `v` is empty.
pub open spec fn first_keys(v: Seq<Row>) -> Seq<Seq<char>> {
    if v.len() == 0 {
        Seq::empty()
    } else {
        v[0].keys()
    }
}

/// Every row of `v` is well formed.
pub open spec fn all_wf(v: Seq<Row>) -> bool {
    forall|i: int| 0 <= i < v.len() ==> #[trigger] v[i].wf()
}

/// `r` is the error for a missing (or, on creation, already present) sheet `name`.
pub open spec fn is_sheet_not_found<T>(r: Result<T, ExcelDbError>, name: Seq<char>) -> bool {
    match r {
        Err(ExcelDbError::SheetNotFound(n)) => n@ == name,
        _ => false,
    }
}

/// `r` is the error for sheet `name` having no header row.
pub open spec fn is_no_headers<T>(r: Result<T, ExcelDbError>, name: Seq<char>) -> bool {
    match r {
        Err(ExcelDbError::NoHeaders(n)) => n@ == name,
        _ => false,
    }
}

/// The sheet name used when none is given.
pub open spec fn default_sheet_name() -> Seq<char> {
    "Sheet1"@
}

/// The sheet name asked for, or the default one.
pub open spec fn sheet_or_default(sheet_name: Option<String>) -> Seq<char> {
    match sheet_name {
        Some(s) => s@,
        None => default_sheet_name(),
    }
}

/// The text of each cell of `cells`.
fn cell_texts(cells: &Vec<CellValue>) -> (r: Vec<String>)
    ensures
        texts(r@) == Seq::new(cells@.len(), |j: int| cells@[j]@),
{
    let mut r: Vec<String> = Vec::new();
    let mut j: usize = 0;
    while j < cells.len()
        invariant
            j <= cells.len(),
            r@.len() == j,
            forall|k: int| 0 <= k < j ==> #[trigger] r@[k]@ == cells@[k]@,
        decreases cells.len() - j,
    {
        match &cells[j] {
            CellValue::Text(t) => r.push(t.clone()),
        }
        j += 1;
    }
    assert(texts(r@) =~= Seq::new(cells@.len(), |j: int| cells@[j]@));
    r
}

/// The row read from sheet row `cells` under the header names `header`.
fn row_of_cells(header: &Vec<String>, cells: &Vec<CellValue>) -> (r: Row)
    ensures
        r.wf(),
        r@ == row_from(texts(header@), Seq::new(cells@.len(), |j: int| cells@[j]@), header@.len()),
{
    let ghost cv = Seq::new(cells@.len(), |j: int| cells@[j]@);
    let mut row = Row::new();
    let mut j: usize = 0;
    while j < header.len()
        invariant
            j <= header.len(),
            row.wf(),
            cv == Seq::new(cells@.len(), |j: int| cells@[j]@),
            row@ == row_from(texts(header@), cv, j as nat),
        decreases header.len() - j,
    {
        let v = if j < cells.len() {
            cells[j].clone()
        } else {
            CellValue::empty()
        };
        assert(v@ == cell_or_empty(cv, j as int));
        row.insert(header[j].clone(), v);
        j += 1;
    }
    row
}

/// The sheet that holds `rows`: a header row taken from the first row's
/// columns, then each row's values under those columns.
fn grid_from_rows(rows: &Vec<Row>) -> (r: Vec<Vec<CellValue>>)
    requires
        all_wf(rows@),
    ensures
        grid_texts(r@) == grid_of(first_keys(rows@), row_maps(rows@)),
{
    let mut grid: Vec<Vec<CellValue>> = Vec::new();
    if rows.len() == 0 {
        assert(grid_texts(grid@) =~= grid_of(first_keys(rows@), row_maps(rows@)));
        return grid;
    }
    assert(rows@[0].wf());
    let header = rows[0].columns();
    let ghost h = texts(header@);
    let mut head: Vec<CellValue> = Vec::new();
    let mut j: usize = 0;
    while j < header.len()
        invariant
            j <= header.len(),
            h == texts(header@),
            head@.len() == j,
            forall|k: int| 0 <= k < j ==> #[trigger] head@[k]@ == h[k],
        decreases header.len() - j,
    {
        head.push(CellValue::Text(header[j].clone()));
        j += 1;
    }
    grid.push(head);
    let mut i: usize = 0;
    while i < rows.len()
        invariant
            i <= rows.len(),
            all_wf(rows@),
            h == texts(header@),
            h == first_keys(rows@),
            grid@.len() == i + 1,
            grid_texts(grid@)[0] == h,
            forall|k: int|
                1 <= k <= i ==> #[trigger] grid_texts(grid@)[k] == line_of(h, rows@[k - 1]@),
        decreases rows.len() - i,
    {
        assert(rows@[i as int].wf());
        let ghost gprev = grid@;
        let mut line: Vec<CellValue> = Vec::new();
        let mut j: usize = 0;
        while j < header.len()
            invariant
                j <= header.len(),
                i < rows.len(),
                rows@[i as int].wf(),
                h == texts(header@),
                line@.len() == j,
                forall|k: int|
                    0 <= k < j ==> #[trigger] line@[k]@ == crate::table::value_or_empty(
                        rows@[i as int]@,
                        h[k],
                    ),
            decreases header.len() - j,
        {
            let v = match rows[i].get(header[j].as_str()) {
                Some(c) => c.clone(),
                None => CellValue::empty(),
            };
            line.push(v);
            j += 1;
        }
        grid.push(line);
        proof {
            assert forall|k: int| 0 <= k <= i implies grid_texts(grid@)[k] == grid_texts(gprev)[k] by {
                assert(grid@[k] == gprev[k]);
            }
            assert(grid_texts(grid@)[i + 1] =~= line_of(h, rows@[i as int]@));
            assert forall|k: int| 1 <= k <= i + 1 implies #[trigger] grid_texts(grid@)[k] == line_of(
                h,
                rows@[k - 1]@,
            ) by {
                if k <= i {
                    assert(grid_texts(grid@)[k] == grid_texts(gprev)[k]);
                }
            }
        }
        i += 1;
    }
    assert(grid_texts(grid@) =~= grid_of(first_keys(rows@), row_maps(rows@)));
    grid
}

/// Whether `row` satisfies `query`.
pub fn row_matches(row: &Row, query: &Row) -> (r: bool)
    requires
        row.wf(),
        query.wf(),
    ensures
        r == satisfies(row@, query@),
{
    proof {
        query.lemma_wf();
    }
    let cols = query.columns();
    let mut j: usize = 0;
    while j < cols.len()
        invariant
            j <= cols.len(),
            row.wf(),
            query.wf(),
            crate::row::texts(cols@) == query.keys(),
            query@.dom() == query.keys().to_set(),
            forall|jj: int| 0 <= jj < j ==> holds(row@, #[trigger] query.keys()[jj], query@[query.keys()[jj]]),
        decreases cols.len() - j,
    {
        let k = cols[j].as_str();
        assert(query.keys()[j as int] == k@);
        let wanted = query.get(k);
        match row.get(k) {
            Some(v) => {
                if !v.eq(wanted.unwrap()) {
                    return false;
                }
            },
            None => {
                return false;
            },
        }
        j += 1;
    }
    assert forall|k: Seq<char>| query@.contains_key(k) implies holds(row@, k, query@[k]) by {
        assert(query.keys().to_set().contains(k));
        let jj = choose|jj: int| 0 <= jj < query.keys().len() && query.keys()[jj] == k;
        assert(holds(row@, query.keys()[jj], query@[query.keys()[jj]]));
    }
    true
}

/// Merges every column of `patch` into `row`, overwriting the values it names.
fn merge_into(row: &mut Row, patch: &Row)
    requires
        old(row).wf(),
        patch.wf(),
    ensures
        final(row).wf(),
        final(row)@ == old(row)@.union_prefer_right(patch@),
{
    proof {
        patch.lemma_wf();
    }
    let cols = patch.columns();
    let ghost keys = patch.keys();
    let mut j: usize = 0;
    while j < cols.len()
        invariant
            j <= cols.len(),
            row.wf(),
            patch.wf(),
            crate::row::texts(cols@) == keys,
            keys == patch.keys(),
            patch@.dom() == keys.to_set(),
            row@ == old(row)@.union_prefer_right(patch@.restrict(keys.take(j as int).to_set())),
        decreases cols.len() - j,
    {
        let k = cols[j].as_str();
        assert(keys[j as int] == k@);
        let v = patch.get(k).unwrap().clone();
        row.insert(cols[j].clone(), v);
        proof {
            assert(keys.take(j + 1) =~= keys.take(j as int).push(k@));
            let t1 = keys.take(j + 1);
            let t0 = keys.take(j as int);
            assert forall|x: Seq<char>| #[trigger] t1.to_set().contains(x) <==> (t0.to_set().contains(x)
                || x == k@) by {
                if t1.to_set().contains(x) {
                    let m = choose|m: int| 0 <= m < t1.len() && t1[m] == x;
                    if m < j {
                        assert(t0[m] == x);
                    }
                }
                if t0.to_set().contains(x) {
                    let m = choose|m: int| 0 <= m < t0.len() && t0[m] == x;
                    assert(t1[m] == x);
                }
                if x == k@ {
                    assert(t1[j as int] == x);
                }
            }
            assert(keys.take(j + 1).to_set() =~= keys.take(j as int).to_set().insert(k@));
            assert(row@ =~= old(row)@.union_prefer_right(
                patch@.restrict(keys.take(j + 1).to_set()),
            ));
        }
        j += 1;
    }
    assert(keys.take(j as int) =~= keys);
    assert(patch@.restrict(keys.to_set()) =~= patch@);
}

/// One sheet of a spreadsheet file, held in memory as a sequence of rows.
pub struct ExcelDatabase {
    file_path: String,
    sheet_name: String,
    data: Vec<Row>,
}

impl ExcelDatabase {
    /// The rows of the table, as maps.
    pub closed spec fn rows(&self) -> Seq<RowMap> {
        Seq::new(self.data@.len(), |i: int| self.data@[i]@)
    }

    /// Every row is well formed.
    pub closed spec fn wf(&self) -> bool {
        forall|i: int| 0 <= i < self.data@.len() ==> #[trigger] self.data@[i].wf()
    }

    /// The path of the file the table belongs to.
    pub closed spec fn path(&self) -> Seq<char> {
        self.file_path@
    }

    /// The name of the sheet the table is read from and written to.
    pub closed spec fn sheet(&self) -> Seq<char> {
        self.sheet_name@
    }

    /// The header written for the table: the first row's columns.
    pub closed spec fn header(&self) -> Seq<Seq<char>> {
        first_keys(self.data@)
    }

    /// Reads the rows of sheet `sheet_name` from its cells, `None` when the
    /// document has no such sheet. The first row names the columns; each
    /// later row becomes a row with every header column, empty text filling
    /// cells past its end.
    pub fn load_data(sheet_name: &str, sheet: Option<Vec<Vec<CellValue>>>) -> (r: Result<
        Vec<Row>,
        ExcelDbError,
    >)
        ensures
            sheet is None ==> is_sheet_not_found(r, sheet_name@),
            sheet is Some && sheet->0@.len() == 0 ==> is_no_headers(r, sheet_name@),
            sheet is Some && sheet->0@.len() > 0 ==> r is Ok && all_wf(r->Ok_0@) && row_maps(r->Ok_0@)
                == rows_of_grid(grid_texts(sheet->0@)),
    {
        let grid = match sheet {
            None => {
                return Err(ExcelDbError::SheetNotFound(sheet_name.to_owned()));
            },
            Some(g) => g,
        };
        if grid.len() == 0 {
            return Err(ExcelDbError::NoHeaders(sheet_name.to_owned()));
        }
        let header = cell_texts(&grid[0]);
        let ghost g = grid_texts(grid@);
        assert(texts(header@) == g[0]);
        let mut data: Vec<Row> = Vec::new();
        let mut i: usize = 1;
        while i < grid.len()
            invariant
                1 <= i <= grid.len(),
                g == grid_texts(grid@),
                texts(header@) == g[0],
                data@.len() == i - 1,
                all_wf(data@),
                forall|k: int| 0 <= k < i - 1 ==> #[trigger] data@[k]@ == row_from(g[0], g[k + 1], g[0].len()),
            decreases grid.len() - i,
        {
            let row = row_of_cells(&header, &grid[i]);
            assert(g[i as int] == Seq::new(grid@[i as int]@.len(), |j: int| grid@[i as int]@[j]@));
            data.push(row);
            i += 1;
        }
        assert(row_maps(data@) =~= rows_of_grid(g));
        Ok(data)
    }

    /// Opens the table held in sheet `sheet_name` (`"Sheet1"` when none is
    /// given) of the file at `file_path`, from that sheet's cells, or `None`
    /// when the file has no such sheet.
    pub fn new(file_path: String, sheet_name: Option<String>, sheet: Option<Vec<Vec<CellValue>>>) -> (r:
        Result<ExcelDatabase, ExcelDbError>)
        ensures
            sheet is None ==> is_sheet_not_found(r, sheet_or_default(sheet_name)),
            sheet is Some && sheet->0@.len() == 0 ==> is_no_headers(r, sheet_or_default(sheet_name)),
            sheet is Some && sheet->0@.len() > 0 ==> r is Ok && r->Ok_0.wf() && r->Ok_0.rows()
                == rows_of_grid(grid_texts(sheet->0@)) && r->Ok_0.path() == file_path@
                && r->Ok_0.sheet() == sheet_or_default(sheet_name),
    {
        let name = match sheet_name {
            Some(s) => s,
            None => "Sheet1".to_owned(),
        };
        let data = Self::load_data(name.as_str(), sheet)?;
        let db = ExcelDatabase { file_path, sheet_name: name, data };
        assert(db.rows() =~= row_maps(db.data@));
        Ok(db)
    }

    /// Reads the rows again from the sheet's current cells; the rows are kept
    /// as they were when that fails.
    pub fn refresh_data(&mut self, sheet: Option<Vec<Vec<CellValue>>>) -> (r: Result<(), ExcelDbError>)
        requires
            old(self).wf(),
        ensures
            final(self).wf(),
            final(self).path() == old(self).path(),
            final(self).sheet() == old(self).sheet(),
            sheet is None ==> is_sheet_not_found(r, old(self).sheet()),
            sheet is Some && sheet->0@.len() == 0 ==> is_no_headers(r, old(self).sheet()),
            r is Err ==> final(self).rows() == old(self).rows(),
            sheet is Some && sheet->0@.len() > 0 ==> r is Ok && final(self).rows()
                == rows_of_grid(grid_texts(sheet->0@)),
    {
        let data = Self::load_data(self.sheet_name.as_str(), sheet)?;
        self.data = data;
        assert(self.rows() =~= row_maps(self.data@));
        Ok(())
    }

    /// The cells to write back to the sheet, given whether the sheet is still
    /// in the file: the header row (the first row's columns), then one line
    /// per row; nothing when the table is empty.
    pub fn save_data(&self, sheet_present: bool) -> (r: Result<Vec<Vec<CellValue>>, ExcelDbError>)
        requires
            self.wf(),
        ensures
            !sheet_present ==> is_sheet_not_found(r, self.sheet()),
            sheet_present ==> r is Ok && grid_texts(r->Ok_0@) == grid_of(self.header(), self.rows()),
    {
        if !sheet_present {
            return Err(ExcelDbError::SheetNotFound(self.sheet_name.clone()));
        }
        assert(self.rows() =~= row_maps(self.data@));
        Ok(grid_from_rows(&self.data))
    }

    /// Whether `sheet_name` is among the sheet names of the file.
    pub fn is_sheet_exists(sheet_names: &Vec<String>, sheet_name: &str) -> (r: bool)
        ensures
            r == texts(sheet_names@).contains(sheet_name@),
    {
        let want = sheet_name.to_owned();
        let mut i: usize = 0;
        while i < sheet_names.len()
            invariant
                i <= sheet_names.len(),
                want@ == sheet_name@,
                forall|k: int| 0 <= k < i ==> #[trigger] texts(sheet_names@)[k] != sheet_name@,
            decreases sheet_names.len() - i,
        {
            if sheet_names[i] == want {
                assert(texts(sheet_names@)[i as int] == sheet_name@);
                return true;
            }
            i += 1;
        }
        false
    }

    /// The cells of a new sheet `new_sheet_name` for a file whose sheets are
    /// `sheet_names`: refused when the name is taken; otherwise the header and
    /// lines of `initial_data` as a save would write them, or nothing.
    pub fn add_sheet(
        &self,
        new_sheet_name: &str,
        sheet_names: &Vec<String>,
        initial_data: Option<Vec<Row>>,
    ) -> (r: Result<Vec<Vec<CellValue>>, ExcelDbError>)
        requires
            initial_data is Some ==> all_wf(initial_data->0@),
        ensures
            texts(sheet_names@).contains(new_sheet_name@) ==> is_sheet_not_found(r, new_sheet_name@),
            !texts(sheet_names@).contains(new_sheet_name@) ==> r is Ok && grid_texts(r->Ok_0@) == match initial_data {
                Some(v) => grid_of(first_keys(v@), row_maps(v@)),
                None => Seq::empty(),
            },
    {
        if Self::is_sheet_exists(sheet_names, new_sheet_name) {
            return Err(ExcelDbError::SheetNotFound(new_sheet_name.to_owned()));
        }
        match initial_data {
            Some(rows) => Ok(grid_from_rows(&rows)),
            None => {
                let g: Vec<Vec<CellValue>> = Vec::new();
                assert(grid_texts(g@) =~= Seq::empty());
                Ok(g)
            },
        }
    }

    /// The path of the file the table belongs to.
    pub fn file_path(&self) -> (r: &str)
        ensures
            r@ == self.path(),
    {
        self.file_path.as_str()
    }

    /// The name of the sheet the table is read from and written to.
    pub fn sheet_name(&self) -> (r: &str)
        ensures
            r@ == self.sheet(),
    {
        self.sheet_name.as_str()
    }

    /// The rows that satisfy every column and value of `query`, in table order;
    /// no query selects every row. `None` when no row satisfies it.
    pub fn select(&self, query: Option<&Row>) -> (r: Option<Vec<Row>>)
        requires
            self.wf(),
            query is Some ==> query->0.wf(),
        ensures
            ({
                let q = match query {
                    Some(q) => q@,
                    None => Map::empty(),
                };
                let want = selected(self.rows(), q);
                match r {
                    None => want.len() == 0,
                    Some(v) => want.len() > 0 && v@.len() == want.len() && forall|i: int|
                        0 <= i < v@.len() ==> (#[trigger] v@[i]).wf() && v@[i]@ == want[i],
                }
            }),
    {
        let empty = Row::new();
        let q = match query {
            Some(q) => q,
            None => &empty,
        };
        let mut result: Vec<Row> = Vec::new();
        let mut i: usize = 0;
        while i < self.data.len()
            invariant
                i <= self.data.len(),
                self.wf(),
                q.wf(),
                q@ == (match query {
                    Some(q) => q@,
                    None => Map::<Seq<char>, Seq<char>>::empty(),
                }),
                result@.len() == selected(self.rows().take(i as int), q@).len(),
                forall|k: int|
                    0 <= k < result@.len() ==> (#[trigger] result@[k]).wf() && result@[k]@
                        == selected(self.rows().take(i as int), q@)[k],
            decreases self.data.len() - i,
        {
            assert(self.rows().take(i + 1).drop_last() =~= self.rows().take(i as int));
            assert(self.data@[i as int].wf());
            if row_matches(&self.data[i], q) {
                result.push(self.data[i].clone());
            }
            i += 1;
        }
        assert(self.rows().take(i as int) =~= self.rows());
        if result.len() == 0 {
            None
        } else {
            Some(result)
        }
    }

    /// The `target_column` value of the first row whose `search_column` holds
    /// `search_value`; `None` when no row does or that row lacks the target.
    pub fn get_column_value(
        &self,
        search_column: &str,
        search_value: &CellValue,
        target_column: &str,
    ) -> (r: Option<CellValue>)
        requires
            self.wf(),
        ensures
            (forall|i: int| 0 <= i < self.rows().len() ==> !holds(
                #[trigger] self.rows()[i],
                search_column@,
                search_value@,
            )) ==> r is None,
            forall|i: int|
                #[trigger] first_hit(self.rows(), search_column@, search_value@, i) ==> match r {
                    Some(v) => lookup(self.rows()[i], target_column@) == Some(v@),
                    None => lookup(self.rows()[i], target_column@) is None,
                },
    {
        let mut i: usize = 0;
        while i < self.data.len()
            invariant
                i <= self.data.len(),
                self.wf(),
                forall|j: int| 0 <= j < i ==> !holds(#[trigger] self.rows()[j], search_column@, search_value@),
            decreases self.data.len() - i,
        {
            let row = &self.data[i];
            assert(self.data@[i as int].wf());
            assert(self.rows()[i as int] == row@);
            match row.get(search_column) {
                Some(v) => {
                    if v.eq(search_value) {
                        assert(first_hit(self.rows(), search_column@, search_value@, i as int));
                        return match row.get(target_column) {
                            Some(t) => Some(t.clone()),
                            None => None,
                        };
                    }
                },
                None => {},
            }
            i += 1;
        }
        None
    }

    /// Appends `new_row` as the last row.
    pub fn insert(&mut self, new_row: Row)
        requires
            old(self).wf(),
            new_row.wf(),
        ensures
            final(self).wf(),
            final(self).rows() == old(self).rows().push(new_row@),
    {
        self.data.push(new_row);
        assert(self.rows() =~= old(self).rows().push(new_row@));
    }

    /// Merges `update_data` into every row that satisfies `query`.
    pub fn update(&mut self, query: &Row, update_data: &Row)
        requires
            old(self).wf(),
            query.wf(),
            update_data.wf(),
        ensures
            final(self).wf(),
            final(self).rows() == updated(old(self).rows(), query@, update_data@),
    {
        let ghost before = self.rows();
        let mut i: usize = 0;
        while i < self.data.len()
            invariant
                i <= self.data.len(),
                self.data@.len() == before.len(),
                self.wf(),
                query.wf(),
                update_data.wf(),
                forall|k: int| 0 <= k < i ==> #[trigger] self.data@[k]@ == patched(before[k], query@, update_data@),
                forall|k: int| i <= k < before.len() ==> #[trigger] self.data@[k]@ == before[k],
            decreases self.data.len() - i,
        {
            assert(self.data@[i as int].wf());
            assert(self.data@[i as int]@ == before[i as int]);
            if row_matches(&self.data[i], query) {
                let mut r = self.data[i].clone();
                merge_into(&mut r, update_data);
                self.data.set(i, r);
                assert(self.data@[i as int].wf());
            }
            i += 1;
        }
        assert(self.rows() =~= updated(before, query@, update_data@));
    }

    /// Removes every row that satisfies `query`.
    pub fn delete(&mut self, query: &Row)
        requires
            old(self).wf(),
            query.wf(),
        ensures
            final(self).wf(),
            final(self).rows() == kept(old(self).rows(), query@),
    {
        let mut rest: Vec<Row> = Vec::new();
        let mut i: usize = 0;
        while i < self.data.len()
            invariant
                i <= self.data.len(),
                self.wf(),
                query.wf(),
                rest@.len() == kept(self.rows().take(i as int), query@).len(),
                forall|k: int|
                    0 <= k < rest@.len() ==> (#[trigger] rest@[k]).wf() && rest@[k]@ == kept(
                        self.rows().take(i as int),
                        query@,
                    )[k],
            decreases self.data.len() - i,
        {
            assert(self.rows().take(i + 1).drop_last() =~= self.rows().take(i as int));
            assert(self.data@[i as int].wf());
            if !row_matches(&self.data[i], query) {
                rest.push(self.data[i].clone());
            }
            i += 1;
        }
        assert(self.rows().take(i as int) =~= self.rows());
        let ghost want = kept(self.rows(), query@);
        self.data = rest;
        assert(self.rows() =~= want);
    }

    /// How many rows hold, in `column_name`, text that is not only whitespace.
    pub fn get_column_datas_number(&self, column_name: &str) -> (r: usize)
        requires
            self.wf(),
        ensures
            r == filled_count(self.rows(), column_name@),
    {
        let mut n: usize = 0;
        let mut i: usize = 0;
        while i < self.data.len()
            invariant
                i <= self.data.len(),
                self.wf(),
                n == filled_count(self.rows().take(i as int), column_name@),
                n <= i,
            decreases self.data.len() - i,
        {
            assert(self.rows().take(i + 1).drop_last() =~= self.rows().take(i as int));
            assert(self.data@[i as int].wf());
            let row = &self.data[i];
            match row.get(column_name) {
                Some(CellValue::Text(s)) => {
                    if !trim_text(s.as_str()).is_empty() {
                        n += 1;
                    }
                },
                None => {},
            }
            i += 1;
        }
        assert(self.rows().take(i as int) =~= self.rows());
        n
    }

    /// Gives every row lacking `column_name` that column, set to
    /// `default_value` or to empty text; rows that have it keep their value.
    pub fn add_column(&mut self, column_name: &str, default_value: Option<CellValue>)
        requires
            old(self).wf(),
        ensures
            final(self).wf(),
            final(self).rows() == with_column(
                old(self).rows(),
                column_name@,
                match default_value {
                    Some(v) => v@,
                    None => Seq::empty(),
                },
            ),
    {
        let default_val = match default_value {
            Some(v) => v,
            None => CellValue::empty(),
        };
        let ghost d = default_val@;
        let ghost before = self.rows();
        let mut i: usize = 0;
        while i < self.data.len()
            invariant
                i <= self.data.len(),
                self.data@.len() == before.len(),
                self.wf(),
                default_val@ == d,
                forall|k: int| 0 <= k < i ==> #[trigger] self.data@[k]@ == (if before[k].contains_key(column_name@) {
                    before[k]
                } else {
                    before[k].insert(column_name@, d)
                }),
                forall|k: int| i <= k < before.len() ==> #[trigger] self.data@[k]@ == before[k],
            decreases self.data.len() - i,
        {
            assert(self.data@[i as int].wf());
            assert(self.data@[i as int]@ == before[i as int]);
            if !self.data[i].contains_key(column_name) {
                let mut r = self.data[i].clone();
                r.insert(column_name.to_owned(), default_val.clone());
                self.data.set(i, r);
                assert(self.data@[i as int].wf());
            }
            i += 1;
        }
        assert(self.rows() =~= with_column(before, column_name@, d));
    }

    /// Removes `column_name` from every row that has it.
    pub fn remove_column(&mut self, column_name: &str)
        requires
            old(self).wf(),
        ensures
            final(self).wf(),
            final(self).rows() == without_column(old(self).rows(), column_name@),
    {
        let ghost before = self.rows();
        let mut i: usize = 0;
        while i < self.data.len()
            invariant
                i <= self.data.len(),
                self.data@.len() == before.len(),
                self.wf(),
                forall|k: int| 0 <= k < i ==> #[trigger] self.data@[k]@ == before[k].remove(column_name@),
                forall|k: int| i <= k < before.len() ==> #[trigger] self.data@[k]@ == before[k],
            decreases self.data.len() - i,
        {
            assert(self.data@[i as int].wf());
            assert(self.data@[i as int]@ == before[i as int]);
            let mut r = self.data[i].clone();
            r.remove(column_name);
            self.data.set(i, r);
            assert(self.data@[i as int].wf());
            i += 1;
        }
        assert(self.rows() =~= without_column(before, column_name@));
    }
}

} // verus!
