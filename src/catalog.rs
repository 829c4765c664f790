use crate::text::{chars_of, same_chars};
use vstd::prelude::*;

verus! {

/// A named column of values.
#[derive(Clone, Debug)]
pub struct ColumnData {
    pub name: String,
    pub values: Vec<u64>,
}

/// A named table, stored column by column.
#[derive(Clone, Debug)]
pub struct TableData {
    pub name: String,
    pub columns: Vec<ColumnData>,
}

/// The tables a query is compiled against, looked up by name.
#[derive(Clone, Debug)]
pub struct Catalog {
    pub tables: Vec<TableData>,
}

/// `i` is the first table of `tables` named `name`.
pub open spec fn is_first_table(tables: Seq<TableData>, name: Seq<char>, i: int) -> bool {
    0 <= i < tables.len() && tables[i].name@ == name && forall|j: int| 0 <= j < i ==> tables[j].name@ != name
}

/// `i` is the first column of `columns` named `name`.
pub open spec fn is_first_column(columns: Seq<ColumnData>, name: Seq<char>, i: int) -> bool {
    0 <= i < columns.len() && columns[i].name@ == name && forall|j: int| 0 <= j < i ==> columns[j].name@ != name
}

/// The table named `name`, if there is one.
pub open spec fn table_of(c: Catalog, name: Seq<char>) -> Option<TableData> {
    if exists|i: int| is_first_table(c.tables@, name, i) {
        Some(c.tables@[choose|i: int| is_first_table(c.tables@, name, i)])
    } else {
        None
    }
}

/// The values of the column named `column` of a table.
pub open spec fn column_in(t: TableData, column: Seq<char>) -> Option<Seq<u64>> {
    if exists|i: int| is_first_column(t.columns@, column, i) {
        Some(t.columns@[choose|i: int| is_first_column(t.columns@, column, i)].values@)
    } else {
        None
    }
}

/// The values of column `column` of table `table`, if both exist.
pub open spec fn column_of(c: Catalog, table: Seq<char>, column: Seq<char>) -> Option<Seq<u64>> {
    match table_of(c, table) {
        Some(t) => column_in(t, column),
        None => None,
    }
}

/// The values of a table's first column; empty when it has none.
pub open spec fn first_column_of(t: TableData) -> Seq<u64> {
    if t.columns@.len() > 0 {
        t.columns@[0].values@
    } else {
        Seq::empty()
    }
}

/// A table whose column names are distinct and whose columns all hold one
/// value per row.
pub open spec fn table_wf(t: TableData) -> bool {
    &&& forall|i: int, j: int| 0 <= i < j < t.columns@.len() ==> t.columns@[i].name@ != t.columns@[j].name@
    &&& forall|i: int, j: int| 0 <= i < t.columns@.len() && 0 <= j < t.columns@.len()
        ==> t.columns@[i].values@.len() == t.columns@[j].values@.len()
}

/// A catalog whose table names are distinct and whose tables are well formed.
pub open spec fn catalog_wf(c: Catalog) -> bool {
    &&& forall|i: int, j: int| 0 <= i < j < c.tables@.len() ==> c.tables@[i].name@ != c.tables@[j].name@
    &&& forall|i: int| 0 <= i < c.tables@.len() ==> table_wf(#[trigger] c.tables@[i])
}

/// In a well-formed catalog, two columns of one table have the same length.
pub proof fn lemma_columns_same_length(c: Catalog, table: Seq<char>, a: Seq<char>, b: Seq<char>)
    requires
        catalog_wf(c),
        column_of(c, table, a) is Some,
        column_of(c, table, b) is Some,
    ensures
        column_of(c, table, a)->Some_0.len() == column_of(c, table, b)->Some_0.len(),
{
    let k = choose|k: int| is_first_table(c.tables@, table, k);
    let t = c.tables@[k];
    assert(table_wf(t));
    let x = choose|x: int| is_first_column(t.columns@, a, x);
    let y = choose|y: int| is_first_column(t.columns@, b, y);
    assert(t.columns@[x].values@.len() == t.columns@[y].values@.len());
}

fn same_string(a: &String, b: &String) -> (r: bool)
    ensures
        r == (a@ == b@),
{
    let x = chars_of(a.as_str());
    let y = chars_of(b.as_str());
    same_chars(x.as_slice(), y.as_slice())
}

impl TableData {
    /// Whether the column names are distinct and the columns have one length.
    pub fn is_well_formed(&self) -> (r: bool)
        ensures
            r == table_wf(*self),
    {
        let n = self.columns.len();
        let mut i: usize = 0;
        while i < n
            invariant
                n == self.columns@.len(),
                i <= n,
                forall|a: int, b: int| 0 <= a < b < i ==> self.columns@[a].name@ != self.columns@[b].name@,
                forall|a: int, b: int| 0 <= a < i && 0 <= b < i ==> self.columns@[a].values@.len() == self.columns@[b].values@.len(),
            decreases n - i,
        {
            let mut j: usize = 0;
            while j < i
                invariant
                    n == self.columns@.len(),
                    j <= i < n,
                    forall|b: int| 0 <= b < j ==> self.columns@[b].name@ != self.columns@[i as int].name@,
                    forall|b: int| 0 <= b < j ==> self.columns@[b].values@.len() == self.columns@[i as int].values@.len(),
                decreases i - j,
            {
                if same_string(&self.columns[j].name, &self.columns[i].name) {
                    return false;
                }
                if self.columns[j].values.len() != self.columns[i].values.len() {
                    return false;
                }
                j = j + 1;
            }
            i = i + 1;
        }
        true
    }

    /// The position of the first column named `name`.
    pub fn find_column(&self, name: &String) -> (r: Option<usize>)
        ensures
            r matches Some(i) ==> is_first_column(self.columns@, name@, i as int),
            r is None ==> column_in(*self, name@) is None,
            r is None ==> forall|j: int| 0 <= j < self.columns@.len() ==> self.columns@[j].name@ != name@,
            r matches Some(i) ==> column_in(*self, name@) == Some(self.columns@[i as int].values@),
    {
        let mut i: usize = 0;
        while i < self.columns.len()
            invariant
                i <= self.columns@.len(),
                forall|j: int| 0 <= j < i ==> self.columns@[j].name@ != name@,
            decreases self.columns@.len() - i,
        {
            if same_string(&self.columns[i].name, name) {
                assert(is_first_column(self.columns@, name@, i as int));
                let ghost k = choose|k: int| is_first_column(self.columns@, name@, k);
                assert(k == i);
                return Some(i);
            }
            i = i + 1;
        }
        None
    }
}

impl Catalog {
    /// An empty catalog.
    pub fn new() -> (c: Catalog)
        ensures
            c.tables@.len() == 0,
    {
        Catalog { tables: Vec::new() }
    }

    /// Whether the table names are distinct and every table is well formed.
    pub fn is_well_formed(&self) -> (r: bool)
        ensures
            r == catalog_wf(*self),
    {
        let n = self.tables.len();
        let mut i: usize = 0;
        while i < n
            invariant
                n == self.tables@.len(),
                i <= n,
                forall|a: int, b: int| 0 <= a < b < i ==> self.tables@[a].name@ != self.tables@[b].name@,
                forall|a: int| 0 <= a < i ==> table_wf(#[trigger] self.tables@[a]),
            decreases n - i,
        {
            if !self.tables[i].is_well_formed() {
                return false;
            }
            let mut j: usize = 0;
            while j < i
                invariant
                    n == self.tables@.len(),
                    j <= i < n,
                    forall|b: int| 0 <= b < j ==> self.tables@[b].name@ != self.tables@[i as int].name@,
                decreases i - j,
            {
                if same_string(&self.tables[j].name, &self.tables[i].name) {
                    return false;
                }
                j = j + 1;
            }
            i = i + 1;
        }
        true
    }

    /// The position of the first table named `name`.
    pub fn find_table(&self, name: &String) -> (r: Option<usize>)
        ensures
            r matches Some(i) ==> is_first_table(self.tables@, name@, i as int),
            r is None ==> table_of(*self, name@) is None,
            r is None ==> forall|j: int| 0 <= j < self.tables@.len() ==> self.tables@[j].name@ != name@,
            r matches Some(i) ==> table_of(*self, name@) == Some(self.tables@[i as int]),
    {
        let mut i: usize = 0;
        while i < self.tables.len()
            invariant
                i <= self.tables@.len(),
                forall|j: int| 0 <= j < i ==> self.tables@[j].name@ != name@,
            decreases self.tables@.len() - i,
        {
            if same_string(&self.tables[i].name, name) {
                assert(is_first_table(self.tables@, name@, i as int));
                let ghost k = choose|k: int| is_first_table(self.tables@, name@, k);
                assert(k == i);
                return Some(i);
            }
            i = i + 1;
        }
        None
    }

    /// The values of column `column` of table `table`.
    pub fn column(&self, table: &String, column: &String) -> (r: Option<&Vec<u64>>)
        ensures
            r is None <==> column_of(*self, table@, column@) is None,
            r matches Some(v) ==> column_of(*self, table@, column@) == Some(v@),
    {
        match self.find_table(table) {
            Some(i) => match self.tables[i].find_column(column) {
                Some(j) => Some(&self.tables[i].columns[j].values),
                None => None,
            },
            None => None,
        }
    }
}

} // verus!
