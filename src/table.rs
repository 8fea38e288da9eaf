use vstd::prelude::*;

use crate::error::RemoteError;

verus! {

/// One named column. Cell values are carried as IEEE-754 bit patterns: the
/// orchestration moves them around but never computes with them.
#[derive(Clone, Debug)]
pub struct Column {
    pub name: String,
    pub values: Vec<u64>,
}

/// A materialised dataset: named columns of equal length.
#[derive(Clone, Debug)]
pub struct Table {
    pub columns: Vec<Column>,
}

/// The mathematical view of a column list: names and cells.
pub type ColumnsView = Seq<(Seq<char>, Seq<u64>)>;

pub open spec fn column_view(c: Column) -> (Seq<char>, Seq<u64>) {
    (c.name@, c.values@)
}

pub open spec fn pair_view(c: (String, Vec<u64>)) -> (Seq<char>, Seq<u64>) {
    (c.0@, c.1@)
}

impl View for Table {
    type V = ColumnsView;

    open spec fn view(&self) -> ColumnsView {
        self.columns@.map_values(|c: Column| column_view(c))
    }
}

/// Every column has as many cells as the first, and no two share a name.
pub open spec fn is_rectangular(cols: ColumnsView) -> bool {
    &&& forall|i: int| 0 <= i < cols.len() ==> (#[trigger] cols[i]).1.len() == cols[0].1.len()
    &&& forall|i: int, j: int|
        0 <= i < j < cols.len() ==> (#[trigger] cols[i]).0 != (#[trigger] cols[j]).0
}

/// The number of rows of a well-formed column list.
pub open spec fn row_count(cols: ColumnsView) -> nat {
    if cols.len() == 0 {
        0
    } else {
        cols[0].1.len()
    }
}

/// The table a column list stands for, or the reason it stands for none.
pub open spec fn table_of_columns(cols: ColumnsView) -> Result<ColumnsView, RemoteError> {
    if is_rectangular(cols) {
        Ok(cols)
    } else {
        Err(RemoteError::Decode)
    }
}

fn same_name(a: &String, b: &String) -> (r: bool)
    ensures
        r == (a@ == b@),
{
    let ab = a.as_str();
    let bb = b.as_str();
    let n = ab.unicode_len();
    if n != bb.unicode_len() {
        return false;
    }
    let mut i: usize = 0;
    while i < n
        invariant
            n == a@.len(),
            n == b@.len(),
            ab@ == a@,
            bb@ == b@,
            i <= n,
            forall|k: int| 0 <= k < i ==> a@[k] == b@[k],
        decreases n - i,
    {
        if ab.get_char(i) != bb.get_char(i) {
            return false;
        }
        i = i + 1;
    }
    proof {
        assert(a@ =~= b@);
    }
    true
}

impl Table {
    /// A table with no columns and no rows.
    pub fn empty() -> (r: Table)
        ensures
            r@ == Seq::<(Seq<char>, Seq<u64>)>::empty(),
    {
        let r = Table { columns: Vec::new() };
        proof {
            assert(r@ =~= Seq::<(Seq<char>, Seq<u64>)>::empty());
        }
        r
    }

    /// The number of rows.
    pub fn height(&self) -> (r: usize)
        ensures
            r == row_count(self@),
    {
        if self.columns.len() == 0 {
            0
        } else {
            self.columns[0].values.len()
        }
    }

    /// Builds a table from decoded columns, refusing ragged columns or
    /// repeated names as a decode failure.
    pub fn from_columns(cols: Vec<(String, Vec<u64>)>) -> (r: Result<Table, RemoteError>)
        ensures
            match (r, table_of_columns(cols@.map_values(|c: (String, Vec<u64>)| pair_view(c)))) {
                (Ok(t), Ok(v)) => t@ == v,
                (Err(e), Err(f)) => e == f,
                _ => false,
            },
    {
        let ghost cv = cols@.map_values(|c: (String, Vec<u64>)| pair_view(c));
        let n = cols.len();
        let mut i: usize = 0;
        while i < n
            invariant
                n == cols.len(),
                cv == cols@.map_values(|c: (String, Vec<u64>)| pair_view(c)),
                i <= n,
                forall|k: int| 0 <= k < i ==> (#[trigger] cv[k]).1.len() == cv[0].1.len(),
                forall|k: int, l: int| 0 <= k < l < i ==> (#[trigger] cv[k]).0 != (#[trigger] cv[l]).0,
            decreases n - i,
        {
            if cols[i].1.len() != cols[0].1.len() {
                proof {
                    assert(cv[i as int].1.len() != cv[0].1.len());
                    assert(!is_rectangular(cv));
                }
                return Err(RemoteError::Decode);
            }
            let mut j: usize = 0;
            while j < i
                invariant
                    n == cols.len(),
                    cv == cols@.map_values(|c: (String, Vec<u64>)| pair_view(c)),
                    i < n,
                    j <= i,
                    forall|l: int| 0 <= l < j ==> (#[trigger] cv[l]).0 != cv[i as int].0,
                decreases i - j,
            {
                if same_name(&cols[j].0, &cols[i].0) {
                    proof {
                        assert(cv[j as int].0 == cv[i as int].0);
                        assert(!is_rectangular(cv));
                    }
                    return Err(RemoteError::Decode);
                }
                j = j + 1;
            }
            i = i + 1;
        }
        let mut columns: Vec<Column> = Vec::new();
        let mut rest = cols;
        while rest.len() > 0
            invariant
                columns@.map_values(|c: Column| column_view(c)) + rest@.map_values(
                    |c: (String, Vec<u64>)| pair_view(c),
                ) == cv,
            decreases rest.len(),
        {
            let ghost before = rest@;
            let (name, values) = rest.remove(0);
            columns.push(Column { name, values });
            proof {
                assert(rest@ == before.subrange(1, before.len() as int));
                assert(columns@.map_values(|c: Column| column_view(c)) + rest@.map_values(
                    |c: (String, Vec<u64>)| pair_view(c),
                ) =~= cv);
            }
        }
        proof {
            assert(columns@.map_values(|c: Column| column_view(c)) =~= cv);
        }
        Ok(Table { columns })
    }
}

} // verus!
