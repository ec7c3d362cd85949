//! Cell values and rows: a row is a map from column name to value that
//! remembers the order in which its columns were added.
use vstd::prelude::*;

verus! {

/// The value held by one cell. Only text is supported for now; further kinds
/// (numbers, booleans, dates) would be added as new variants.
#[derive(Debug)]
pub enum CellValue {
    /// A text cell.
    Text(String),
}

impl View for CellValue {
    type V = Seq<char>;

    open spec fn view(&self) -> Seq<char> {
        match self {
            CellValue::Text(s) => s@,
        }
    }
}

impl CellValue {
    /// An empty text cell.
    pub fn empty() -> (r: CellValue)
        ensures
            r@ == Seq::<char>::empty(),
    {
        CellValue::Text(String::new())
    }
}

impl Clone for CellValue {
    fn clone(&self) -> (r: Self)
        ensures
            r@ == self@,
    {
        match self {
            CellValue::Text(s) => CellValue::Text(s.clone()),
        }
    }
}

impl PartialEq for CellValue {
    fn eq(&self, other: &CellValue) -> (r: bool) {
        match self {
            CellValue::Text(a) => match other {
                CellValue::Text(b) => a.eq(b),
            },
        }
    }
}

impl vstd::std_specs::cmp::PartialEqSpecImpl for CellValue {
    open spec fn obeys_eq_spec() -> bool {
        true
    }

    open spec fn eq_spec(&self, other: &CellValue) -> bool {
        self@ == other@
    }
}

/// One row of a table: a map from column name to cell value that also keeps
/// the order in which its columns were first added.
#[derive(Debug)]
pub struct Row {
    cols: Vec<String>,
    vals: Vec<CellValue>,
}

/// The text of each string in `v`.
pub open spec fn texts(v: Seq<String>) -> Seq<Seq<char>> {
    Seq::new(v.len(), |i: int| v[i]@)
}

/// The position of a column name in a sequence without duplicates is the one
/// `index_of` picks.
pub proof fn lemma_index_of_unique(s: Seq<Seq<char>>, k: Seq<char>, i: int)
    requires
        s.no_duplicates(),
        0 <= i < s.len(),
        s[i] == k,
    ensures
        s.index_of(k) == i,
{
    assert(s.contains(k));
    let j = s.index_of(k);
    assert(0 <= j < s.len() && s[j] == k);
}

impl Row {
    /// The column names of this row, in the order they were added.
    pub closed spec fn keys(&self) -> Seq<Seq<char>> {
        texts(self.cols@)
    }

    closed spec fn cells(&self) -> Seq<Seq<char>> {
        Seq::new(self.vals@.len(), |i: int| self.vals@[i]@)
    }

    /// Column names are unique and each has exactly one value.
    pub closed spec fn wf(&self) -> bool {
        &&& self.cols.len() == self.vals.len()
        &&& self.keys().no_duplicates()
    }

    /// The row as a map from column name to cell text.
    pub closed spec fn view(&self) -> Map<Seq<char>, Seq<char>> {
        Map::new(
            |k: Seq<char>| self.keys().contains(k),
            |k: Seq<char>| self.cells()[self.keys().index_of(k)],
        )
    }

    /// What a well-formed row's column list says of its map.
    pub proof fn lemma_wf(&self)
        requires
            self.wf(),
        ensures
            self.keys().no_duplicates(),
            self@.dom() =~= self.keys().to_set(),
    {
        assert(self@.dom() =~= self.keys().to_set());
    }

    /// A row with no columns.
    pub fn new() -> (r: Row)
        ensures
            r.wf(),
            r@ == Map::<Seq<char>, Seq<char>>::empty(),
            r.keys() == Seq::<Seq<char>>::empty(),
    {
        let r = Row { cols: Vec::new(), vals: Vec::new() };
        assert(r@ =~= Map::<Seq<char>, Seq<char>>::empty());
        assert(r.keys() =~= Seq::<Seq<char>>::empty());
        r
    }

    /// The number of columns in this row.
    pub fn len(&self) -> (r: usize)
        requires
            self.wf(),
        ensures
            r == self@.len(),
    {
        proof {
            self.lemma_wf();
            self.keys().unique_seq_to_set();
        }
        self.cols.len()
    }

    fn find(&self, key: &str) -> (r: Option<usize>)
        requires
            self.wf(),
        ensures
            match r {
                Some(i) => i < self.cols.len() && self.keys()[i as int] == key@,
                None => !self.keys().contains(key@),
            },
    {
        let k = key.to_owned();
        let mut i: usize = 0;
        while i < self.cols.len()
            invariant
                i <= self.cols.len(),
                k@ == key@,
                forall|j: int| 0 <= j < i ==> self.keys()[j] != key@,
            decreases self.cols.len() - i,
        {
            if self.cols[i] == k {
                return Some(i);
            }
            i += 1;
        }
        None
    }

    /// Whether the row has a column named `key`.
    pub fn contains_key(&self, key: &str) -> (r: bool)
        requires
            self.wf(),
        ensures
            r == self@.contains_key(key@),
    {
        self.find(key).is_some()
    }

    /// The value of column `key`, if the row has it.
    pub fn get(&self, key: &str) -> (r: Option<&CellValue>)
        requires
            self.wf(),
        ensures
            r is Some == self@.contains_key(key@),
            r is Some ==> r->0@ == self@[key@],
    {
        match self.find(key) {
            Some(i) => {
                proof {
                    lemma_index_of_unique(self.keys(), key@, i as int);
                }
                Some(&self.vals[i])
            },
            None => None,
        }
    }

    /// Sets column `key` to `value`, adding the column at the end if the row
    /// does not have it yet.
    pub fn insert(&mut self, key: String, value: CellValue)
        requires
            old(self).wf(),
        ensures
            final(self).wf(),
            final(self)@ == old(self)@.insert(key@, value@),
            final(self).keys() == if old(self).keys().contains(key@) {
                old(self).keys()
            } else {
                old(self).keys().push(key@)
            },
    {
        let ghost old_keys = self.keys();
        let ghost old_cells = self.cells();
        match self.find(key.as_str()) {
            Some(i) => {
                self.vals.set(i, value);
                proof {
                    assert(self.keys() =~= old_keys);
                    assert(self.cells() =~= old_cells.update(i as int, value@));
                    assert forall|k: Seq<char>| self.keys().contains(k) implies
                        self.cells()[self.keys().index_of(k)] == (if k == key@ { value@ } else {
                            old_cells[old_keys.index_of(k)]
                        }) by {
                        let j = choose|j: int| 0 <= j < self.keys().len() && self.keys()[j] == k;
                        lemma_index_of_unique(self.keys(), k, j);
                        lemma_index_of_unique(self.keys(), key@, i as int);
                    }
                    assert(self@ =~= old(self)@.insert(key@, value@));
                }
            },
            None => {
                let ghost k0 = key@;
                self.cols.push(key);
                self.vals.push(value);
                proof {
                    assert(self.keys() =~= old_keys.push(k0));
                    assert(self.cells() =~= old_cells.push(value@));
                    assert forall|k: Seq<char>| self.keys().contains(k) implies
                        self.cells()[self.keys().index_of(k)] == (if k == k0 { value@ } else {
                            old_cells[old_keys.index_of(k)]
                        }) by {
                        let j = choose|j: int| 0 <= j < self.keys().len() && self.keys()[j] == k;
                        lemma_index_of_unique(self.keys(), k, j);
                        if k != k0 {
                            lemma_index_of_unique(old_keys, k, j);
                        }
                    }
                    assert forall|k: Seq<char>| self.keys().contains(k) <==> (old_keys.contains(k)
                        || k == k0) by {
                        if old_keys.contains(k) {
                            let j = choose|j: int| 0 <= j < old_keys.len() && old_keys[j] == k;
                            assert(self.keys()[j] == k);
                        }
                        if k == k0 {
                            assert(self.keys()[old_keys.len() as int] == k);
                        }
                    }
                    assert(self@ =~= old(self)@.insert(key@, value@));
                }
            },
        }
    }

    /// Removes column `key` from the row; does nothing if it is absent.
    pub fn remove(&mut self, key: &str)
        requires
            old(self).wf(),
        ensures
            final(self).wf(),
            final(self)@ == old(self)@.remove(key@),
    {
        match self.find(key) {
            Some(i) => {
                let ghost old_keys = self.keys();
                let ghost old_cells = self.cells();
                self.cols.remove(i);
                self.vals.remove(i);
                proof {
                    let ii = i as int;
                    assert(self.keys() =~= old_keys.remove(ii));
                    assert(self.cells() =~= old_cells.remove(ii));
                    assert forall|a: int, b: int|
                        0 <= a < b < self.keys().len() implies self.keys()[a] != self.keys()[b] by {
                        let oa = if a < ii { a } else { a + 1 };
                        let ob = if b < ii { b } else { b + 1 };
                        assert(old_keys[oa] != old_keys[ob]);
                    }
                    assert forall|k: Seq<char>| #[trigger] self.keys().contains(k) <==> (
                    old_keys.contains(k) && k != key@) by {
                        if self.keys().contains(k) {
                            let j = choose|j: int| 0 <= j < self.keys().len() && self.keys()[j] == k;
                            let oj = if j < ii { j } else { j + 1 };
                            assert(old_keys[oj] == k);
                            assert(oj != ii);
                        }
                        if old_keys.contains(k) && k != key@ {
                            let oj = choose|j: int| 0 <= j < old_keys.len() && old_keys[j] == k;
                            let j = if oj < ii { oj } else { oj - 1 };
                            assert(self.keys()[j] == k);
                        }
                    }
                    assert forall|k: Seq<char>| self.keys().contains(k) implies
                        self.cells()[self.keys().index_of(k)] == old_cells[old_keys.index_of(
                            k,
                        )] by {
                        let j = choose|j: int| 0 <= j < self.keys().len() && self.keys()[j] == k;
                        lemma_index_of_unique(self.keys(), k, j);
                        let oj = if j < ii { j } else { j + 1 };
                        assert(old_keys[oj] == k);
                        lemma_index_of_unique(old_keys, k, oj);
                    }
                    assert(self@ =~= old(self)@.remove(key@));
                }
            },
            None => {
                assert(self@ =~= old(self)@.remove(key@));
            },
        }
    }

    /// The column names of the row, in the order they were added.
    pub fn columns(&self) -> (r: Vec<String>)
        requires
            self.wf(),
        ensures
            texts(r@) == self.keys(),
    {
        let mut r: Vec<String> = Vec::new();
        let mut i: usize = 0;
        while i < self.cols.len()
            invariant
                i <= self.cols.len(),
                r@.len() == i,
                texts(r@) == self.keys().take(i as int),
            decreases self.cols.len() - i,
        {
            let c = self.cols[i].clone();
            r.push(c);
            proof {
                assert(c@ == self.keys()[i as int]);
                assert(texts(r@)[i as int] == c@);
            }
            i += 1;
            assert(texts(r@) =~= self.keys().take(i as int));
        }
        assert(self.keys().take(i as int) =~= self.keys());
        r
    }
}

impl Clone for Row {
    fn clone(&self) -> (r: Self)
        ensures
            self.wf() ==> r.wf(),
            r.keys() == self.keys(),
            r@ == self@,
    {
        let mut cols: Vec<String> = Vec::new();
        let mut i: usize = 0;
        while i < self.cols.len()
            invariant
                i <= self.cols.len(),
                cols@.len() == i,
                texts(cols@) == self.keys().take(i as int),
            decreases self.cols.len() - i,
        {
            cols.push(self.cols[i].clone());
            i += 1;
            assert(texts(cols@) =~= self.keys().take(i as int));
        }
        let mut vals: Vec<CellValue> = Vec::new();
        let mut j: usize = 0;
        while j < self.vals.len()
            invariant
                j <= self.vals.len(),
                vals@.len() == j,
                Seq::new(vals@.len(), |i: int| vals@[i]@) == self.cells().take(j as int),
            decreases self.vals.len() - j,
        {
            vals.push(self.vals[j].clone());
            j += 1;
            assert(Seq::new(vals@.len(), |i: int| vals@[i]@) =~= self.cells().take(j as int));
        }
        assert(self.keys().take(i as int) =~= self.keys());
        assert(self.cells().take(j as int) =~= self.cells());
        let r = Row { cols, vals };
        assert(r.keys() =~= self.keys());
        r
    }
}

} // verus!
