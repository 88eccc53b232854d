use vstd::prelude::*;

use crate::data_vector::{
    cells_of, copy_values, opt_view, Cell, Column, ColumnElement, DType, DataVector, TDataVector,
};
use crate::dense::DenseMatrix;
use crate::errors::DataLoaderError;
use crate::index_map::{
    key_entries, keys_of, map_clone, map_insert, map_key_at, map_len, map_new, map_position,
};
use indexmap::IndexMap;

verus! {

/// The character of a decimal digit.
pub open spec fn digit_char(d: nat) -> char {
    if d == 0 {
        '0'
    } else if d == 1 {
        '1'
    } else if d == 2 {
        '2'
    } else if d == 3 {
        '3'
    } else if d == 4 {
        '4'
    } else if d == 5 {
        '5'
    } else if d == 6 {
        '6'
    } else if d == 7 {
        '7'
    } else if d == 8 {
        '8'
    } else {
        '9'
    }
}

/// The decimal digits of `n`, most significant first, without leading zeros.
pub open spec fn decimal(n: nat) -> Seq<char>
    decreases n,
{
    if n < 10 {
        seq![digit_char(n)]
    } else {
        decimal(n / 10).push(digit_char(n % 10))
    }
}

proof fn lemma_digit_injective(a: nat, b: nat)
    requires
        a < 10,
        b < 10,
        digit_char(a) == digit_char(b),
    ensures
        a == b,
{
}

proof fn lemma_decimal_len(n: nat)
    ensures
        decimal(n).len() >= 1,
        n >= 10 ==> decimal(n).len() >= 2,
    decreases n,
{
    if n >= 10 {
        lemma_decimal_len(n / 10);
    }
}

/// Two numbers with the same decimal digits are equal.
proof fn lemma_decimal_injective(a: nat, b: nat)
    requires
        decimal(a) == decimal(b),
    ensures
        a == b,
    decreases a,
{
    lemma_decimal_len(a);
    lemma_decimal_len(b);
    if a < 10 && b < 10 {
        assert(decimal(a)[0] == digit_char(a));
        assert(decimal(b)[0] == digit_char(b));
        lemma_digit_injective(a, b);
    } else if a < 10 {
        assert(decimal(a).len() == 1);
    } else if b < 10 {
        assert(decimal(b).len() == 1);
    } else {
        let da = decimal(a);
        assert(da.drop_last() =~= decimal(a / 10));
        assert(decimal(b).drop_last() =~= decimal(b / 10));
        assert(da.last() == digit_char(a % 10));
        assert(decimal(b).last() == digit_char(b % 10));
        lemma_digit_injective(a % 10, b % 10);
        lemma_decimal_injective(a / 10, b / 10);
        assert(a == 10 * (a / 10) + a % 10);
        assert(b == 10 * (b / 10) + b % 10);
    }
}

/// The digit `d` as a one-character string.
fn digit_string(d: usize) -> (r: String)
    requires
        d < 10,
    ensures
        r@ == seq![digit_char(d as nat)],
{
    proof {
        reveal_strlit("0");
        reveal_strlit("1");
        reveal_strlit("2");
        reveal_strlit("3");
        reveal_strlit("4");
        reveal_strlit("5");
        reveal_strlit("6");
        reveal_strlit("7");
        reveal_strlit("8");
        reveal_strlit("9");
    }
    let s = if d == 0 {
        "0"
    } else if d == 1 {
        "1"
    } else if d == 2 {
        "2"
    } else if d == 3 {
        "3"
    } else if d == 4 {
        "4"
    } else if d == 5 {
        "5"
    } else if d == 6 {
        "6"
    } else if d == 7 {
        "7"
    } else if d == 8 {
        "8"
    } else {
        "9"
    };
    let r = s.to_string();
    proof {
        assert(r@ =~= seq![digit_char(d as nat)]);
    }
    r
}

/// The decimal digits of `n`.
fn decimal_string(n: usize) -> (r: String)
    ensures
        r@ == decimal(n as nat),
    decreases n,
{
    if n < 10 {
        digit_string(n)
    } else {
        let head = decimal_string(n / 10);
        let last = digit_string(n % 10);
        let r = head.concat(last.as_str());
        proof {
            assert(r@ =~= decimal((n / 10) as nat).push(digit_char((n % 10) as nat)));
        }
        r
    }
}

/// Each cell of `row` has the type tag of its column.
pub open spec fn row_types_match(
    columns: Seq<(DType, Option<Seq<char>>, Seq<Cell>)>,
    row: Seq<Cell>,
) -> bool {
    forall|j: int| 0 <= j < row.len() ==> #[trigger] row[j].dtype_spec() == columns[j].0
}

/// The views of a sequence of string slices.
pub open spec fn str_views(v: Seq<&str>) -> Seq<Seq<char>> {
    v.map_values(|s: &str| s@)
}

fn cell_fits(c: &Cell, dt: DType) -> (r: bool)
    ensures
        r == (c.dtype_spec() == dt),
{
    match c {
        Cell::Bool(_) => dt == DType::Bool,
        Cell::Int(_) => dt == DType::Int,
        Cell::Float(_) => dt == DType::Float,
        Cell::Text(_) => dt == DType::Text,
    }
}

/// The keys that the first `n` columns of `cols` get in a table made from
/// them, each as `add_column` picks it.
pub open spec fn vec_keys(cols: Seq<Column>, n: nat) -> Seq<Seq<char>>
    decreases n,
{
    if n == 0 {
        Seq::empty()
    } else {
        let prev = vec_keys(cols, (n - 1) as nat);
        prev.push(new_key(prev, opt_view(cols[n - 1].label_of()), (n - 1) as nat))
    }
}

/// The key that column `j` of `cols` gets in a table made from them.
pub open spec fn vec_key(cols: Seq<Column>, j: int) -> Seq<char> {
    new_key(vec_keys(cols, j as nat), opt_view(cols[j].label_of()), j as nat)
}

/// Column `j` of `cols` has the first column's length and a key unlike those
/// before it.
pub open spec fn column_fits(cols: Seq<Column>, j: int) -> bool {
    &&& cols[j].len_spec() == cols[0].len_spec()
    &&& !vec_keys(cols, j as nat).contains(vec_key(cols, j))
}

/// The views of a sequence of strings.
pub open spec fn views_of(v: Seq<String>) -> Seq<Seq<char>> {
    v.map_values(|s: String| s@)
}

/// The length of the longest key.
pub open spec fn max_len(keys: Seq<Seq<char>>) -> nat
    decreases keys.len(),
{
    if keys.len() == 0 {
        0
    } else {
        let m = max_len(keys.drop_last());
        if keys.last().len() > m {
            keys.last().len()
        } else {
            m
        }
    }
}

proof fn lemma_max_len(keys: Seq<Seq<char>>)
    ensures
        forall|i: int| 0 <= i < keys.len() ==> #[trigger] keys[i].len() <= max_len(keys),
    decreases keys.len(),
{
    if keys.len() > 0 {
        lemma_max_len(keys.drop_last());
        assert forall|i: int| 0 <= i < keys.len() implies #[trigger] keys[i].len() <= max_len(keys) by {
            if i < keys.len() - 1 {
                assert(keys[i] == keys.drop_last()[i]);
            }
        }
    }
}

/// `n` underscores.
pub open spec fn underscores(n: nat) -> Seq<char> {
    Seq::new(n, |i: int| '_')
}

/// The fewest underscores, from `m` on, that make the position's decimal
/// digits followed by them a key not among `keys`.
pub open spec fn free_suffix(keys: Seq<Seq<char>>, position: nat, m: nat) -> nat
    decreases max_len(keys) + 1 - (decimal(position).len() + m),
{
    if !keys.contains(decimal(position) + underscores(m)) || decimal(position).len() + m > max_len(keys) {
        m
    } else {
        free_suffix(keys, position, m + 1)
    }
}

/// The key an unnamed column gets: its position in decimal, followed by as
/// few underscores as make it unlike every key in `keys`.
pub open spec fn unnamed_key(keys: Seq<Seq<char>>, position: nat) -> Seq<char> {
    decimal(position) + underscores(free_suffix(keys, position, 0))
}

proof fn lemma_free_suffix(keys: Seq<Seq<char>>, position: nat, m: nat)
    ensures
        free_suffix(keys, position, m) >= m,
        !keys.contains(decimal(position) + underscores(free_suffix(keys, position, m))),
    decreases max_len(keys) + 1 - (decimal(position).len() + m),
{
    if !keys.contains(decimal(position) + underscores(m)) {
    } else if decimal(position).len() + m > max_len(keys) {
        lemma_max_len(keys);
        let k = choose|k: int| 0 <= k < keys.len() && keys[k] == decimal(position) + underscores(m);
        assert(keys[k].len() <= max_len(keys));
    } else {
        lemma_free_suffix(keys, position, m + 1);
    }
}

/// The key that a new column gets: its name, or else its free position key.
pub open spec fn new_key(keys: Seq<Seq<char>>, label: Option<Seq<char>>, position: nat) -> Seq<char> {
    match label {
        Some(l) => l,
        None => unnamed_key(keys, position),
    }
}

/// An ordered mapping from column keys to columns, with an optional row index.
#[derive(Debug)]
pub struct DataMatrix {
    /// Each column key, mapped to the column's position.
    keys: IndexMap<String, usize>,
    columns: Vec<Column>,
    index: Vec<String>,
}

impl DataMatrix {
    /// The column keys, in insertion order.
    pub closed spec fn key_views(&self) -> Seq<Seq<char>> {
        keys_of(self.keys)
    }

    /// Each key maps to the position of its column.
    pub closed spec fn positions_ok(&self) -> bool {
        forall|j: int| 0 <= j < key_entries(self.keys).len() ==> #[trigger] key_entries(self.keys)[j].1 == j
    }

    /// The columns, in insertion order.
    pub closed spec fn column_views(&self) -> Seq<(DType, Option<Seq<char>>, Seq<Cell>)> {
        self.columns@.map_values(|c: Column| c@)
    }

    /// The row index; empty where the table has none.
    pub closed spec fn index_views(&self) -> Seq<Seq<char>> {
        views_of(self.index@)
    }

    pub open spec fn ncols_spec(&self) -> nat {
        self.column_views().len()
    }

    /// The number of rows: the length of the first column, or 0.
    pub open spec fn nrows_spec(&self) -> nat {
        if self.column_views().len() == 0 {
            0
        } else {
            self.column_views()[0].2.len()
        }
    }

    /// The table's invariant: one key per column, keys unique, all columns of one
    /// length, and an index that is absent or unique with one key per row.
    pub open spec fn wf(&self) -> bool {
        &&& self.key_views().len() == self.column_views().len()
        &&& self.key_views().no_duplicates()
        &&& forall|j: int|
            0 <= j < self.column_views().len() ==> #[trigger] self.column_views()[j].2.len()
                == self.nrows_spec()
        &&& (self.index_views().len() == 0 || self.index_views().len() == self.nrows_spec())
        &&& self.index_views().no_duplicates()
        &&& self.positions_ok()
    }

    proof fn lemma_views(&self)
        ensures
            self.key_views().len() == key_entries(self.keys).len(),
            self.column_views().len() == self.columns@.len(),
            self.index_views().len() == self.index@.len(),
            forall|j: int|
                0 <= j < self.columns@.len() ==> #[trigger] self.column_views()[j] == self.columns@[j]@,
            forall|j: int|
                0 <= j < self.columns@.len() ==> #[trigger] self.column_views()[j].2.len()
                    == self.columns@[j].len_spec(),
            forall|j: int|
                0 <= j < key_entries(self.keys).len() ==> #[trigger] self.key_views()[j] == key_entries(
                    self.keys,
                )[j].0,
            forall|j: int|
                0 <= j < self.index@.len() ==> #[trigger] self.index_views()[j] == self.index@[j]@,
    {
    }

    /// An empty table.
    pub fn new() -> (r: Self)
        ensures
            r.wf(),
            r.key_views() == Seq::<Seq<char>>::empty(),
            r.column_views() == Seq::<(DType, Option<Seq<char>>, Seq<Cell>)>::empty(),
            r.index_views() == Seq::<Seq<char>>::empty(),
    {
        let r = DataMatrix { keys: map_new(), columns: Vec::new(), index: Vec::new() };
        assert(r.key_views() =~= Seq::<Seq<char>>::empty());
        assert(r.column_views() =~= Seq::<(DType, Option<Seq<char>>, Seq<Cell>)>::empty());
        assert(r.index_views() =~= Seq::<Seq<char>>::empty());
        r
    }

    /// The position of the column with key `name`.
    fn find_key(&self, name: &String) -> (r: Option<usize>)
        ensures
            r matches Some(j) ==> j < self.key_views().len() && self.key_views()[j as int] == name@,
            r is None ==> !self.key_views().contains(name@),
    {
        proof {
            self.lemma_views();
        }
        let r = map_position(&self.keys, name.as_str());
        proof {
            if r is None && self.key_views().contains(name@) {
                let j = choose|j: int| 0 <= j < self.key_views().len() && self.key_views()[j] == name@;
                assert(key_entries(self.keys)[j].0 != name@);
            }
        }
        r
    }

    /// The number of rows: the length of the first column, or 0 for a table
    /// without columns.
    pub fn nrows(&self) -> (r: usize)
        requires
            self.wf(),
        ensures
            r == self.nrows_spec(),
    {
        proof {
            self.lemma_views();
        }
        if self.columns.len() == 0 {
            0
        } else {
            self.columns[0].len()
        }
    }

    /// The number of columns.
    pub fn ncols(&self) -> (r: usize)
        ensures
            r == self.ncols_spec(),
    {
        proof {
            self.lemma_views();
        }
        self.columns.len()
    }

    /// The key for an unnamed column at `position`: the position in decimal,
    /// with underscores appended while that is a key already.
    fn unnamed_key(&self, position: usize) -> (r: String)
        ensures
            r@ == unnamed_key(self.key_views(), position as nat),
    {
        let ghost keys = self.key_views();
        let mut s = decimal_string(position);
        let ghost mut m: nat = 0;
        proof {
            assert(s@ =~= decimal(position as nat) + underscores(0));
        }
        while self.find_key(&s).is_some()
            invariant
                keys == self.key_views(),
                s@ == decimal(position as nat) + underscores(m),
                free_suffix(keys, position as nat, m) == free_suffix(keys, position as nat, 0),
            decreases max_len(keys) + 1 - s@.len(),
        {
            proof {
                lemma_max_len(keys);
                let k = choose|k: int| 0 <= k < keys.len() && keys[k] == s@;
                assert(keys.contains(s@));
                assert(keys[k].len() <= max_len(keys));
                assert(decimal(position as nat).len() + m <= max_len(keys));
            }
            let ghost before = s@;
            s = s.concat("_");
            proof {
                reveal_strlit("_");
                assert(s@ =~= decimal(position as nat) + underscores(m + 1));
                m = m + 1;
            }
        }
        proof {
            assert(free_suffix(keys, position as nat, m) == m);
        }
        s
    }

    /// Adds a column holding `data`, under `label` or, without one, under its
    /// position written in decimal, with underscores appended while that is a
    /// key already.
    pub fn add_column<T: ColumnElement>(&mut self, data: Vec<T>, label: Option<&str>) -> (r: Result<
        (),
        DataLoaderError,
    >)
        requires
            old(self).wf(),
        ensures
            final(self).wf(),
            label is None ==> !old(self).key_views().contains(
                unnamed_key(old(self).key_views(), old(self).ncols_spec()),
            ),
            label is None && (old(self).ncols_spec() == 0 || data@.len() == old(self).nrows_spec()) ==> r is Ok,
            ({
                let key = new_key(
                    old(self).key_views(),
                    match label {
                        Some(l) => Some(l@),
                        None => None,
                    },
                    old(self).ncols_spec(),
                );
                if old(self).ncols_spec() > 0 && data@.len() != old(self).nrows_spec() {
                    r == Err::<(), _>(DataLoaderError::RowCountMismatch) && *final(self) == *old(self)
                } else if old(self).key_views().contains(key) {
                    r == Err::<(), _>(DataLoaderError::DuplicateLabel) && *final(self) == *old(self)
                } else {
                    &&& r is Ok
                    &&& final(self).key_views() == old(self).key_views().push(key)
                    &&& final(self).column_views() == old(self).column_views().push(
                        (
                            T::elem_dtype(),
                            match label {
                                Some(l) => Some(l@),
                                None => None,
                            },
                            cells_of(data@),
                        ),
                    )
                    &&& final(self).index_views() == old(self).index_views()
                }
            }),
    {
        proof {
            self.lemma_views();
        }
        let ncols = self.columns.len();
        proof {
            lemma_free_suffix(self.key_views(), ncols as nat, 0);
        }
        if ncols > 0 && data.len() != self.nrows() {
            return Err(DataLoaderError::RowCountMismatch);
        }
        let key: String = match label {
            Some(l) => l.to_string(),
            None => self.unnamed_key(ncols),
        };
        if self.find_key(&key).is_some() {
            return Err(DataLoaderError::DuplicateLabel);
        }
        let ghost old_self = *self;
        let mut column_data: DataVector<T> = match DataVector::from_vec(data) {
            Ok(v) => v,
            Err(e) => {
                return Err(e);
            },
        };
        match label {
            Some(l) => column_data.add_label(l),
            None => {},
        }
        let col = T::wrap(column_data);
        proof {
            T::lemma_wrapped(column_data);
            assert(col@.2 =~= cells_of(data@));
        }
        let ghost key_view = key@;
        map_insert(&mut self.keys, key, ncols);
        self.columns.push(col);
        proof {
            self.lemma_views();
            old_self.lemma_views();
            assert(self.key_views() =~= old_self.key_views().push(key_view));
            assert(self.column_views() =~= old_self.column_views().push(col@));
            assert(self.index_views() =~= old_self.index_views());
        }
        Ok(())
    }


    /// Appends one row: `row[j]` goes to column `j`. The key `index` is recorded
    /// where the table carries an index (one key per row so far).
    #[verifier::loop_isolation(false)]
    pub fn add_row(&mut self, row: Vec<Cell>, index: &str) -> (r: Result<(), DataLoaderError>)
        requires
            old(self).wf(),
        ensures
            final(self).wf(),
            r is Err ==> *final(self) == *old(self),
            row@.len() != old(self).ncols_spec() ==> r matches Err(DataLoaderError::GenericError(_)),
            row@.len() == old(self).ncols_spec() && old(self).ncols_spec() == 0 ==> r == Err::<(), _>(
                DataLoaderError::NoData,
            ),
            row@.len() == old(self).ncols_spec() && old(self).ncols_spec() > 0 && !row_types_match(
                old(self).column_views(),
                row@,
            ) ==> r == Err::<(), _>(DataLoaderError::TypeMismatch),
            row@.len() == old(self).ncols_spec() && old(self).ncols_spec() > 0 && row_types_match(
                old(self).column_views(),
                row@,
            ) && old(self).index_views().len() == old(self).nrows_spec() && old(
                self,
            ).index_views().contains(index@) ==> r == Err::<(), _>(DataLoaderError::DuplicateIndex),
            row@.len() == old(self).ncols_spec() && old(self).ncols_spec() > 0 && row_types_match(
                old(self).column_views(),
                row@,
            ) && !(old(self).index_views().len() == old(self).nrows_spec() && old(
                self,
            ).index_views().contains(index@)) ==> r is Ok,
            r is Ok ==> {
                &&& final(self).key_views() == old(self).key_views()
                &&& final(self).column_views().len() == old(self).column_views().len()
                &&& forall|j: int|
                    0 <= j < old(self).ncols_spec() ==> #[trigger] final(self).column_views()[j] == (
                        old(self).column_views()[j].0,
                        old(self).column_views()[j].1,
                        old(self).column_views()[j].2.push(row@[j]),
                    )
                &&& final(self).index_views() == if old(self).index_views().len()
                    == old(self).nrows_spec() {
                    old(self).index_views().push(index@)
                } else {
                    old(self).index_views()
                }
            },
    {
        proof {
            self.lemma_views();
        }
        let ncols = self.columns.len();
        if row.len() != ncols {
            return Err(DataLoaderError::GenericError("the row's arity differs from the column count".to_string()));
        }
        if ncols == 0 {
            return Err(DataLoaderError::NoData);
        }
        let mut j: usize = 0;
        while j < ncols
            invariant
                j <= ncols,
                ncols == self.columns@.len(),
                row@.len() == ncols,
                self.column_views().len() == self.columns@.len(),
                forall|c: int| 0 <= c < self.columns@.len() ==> #[trigger] self.column_views()[c] == self.columns@[c]@,
                forall|c: int| 0 <= c < j ==> #[trigger] row@[c].dtype_spec() == self.column_views()[c].0,
            decreases ncols - j,
        {
            if !cell_fits(&row[j], self.columns[j].dtype()) {
                return Err(DataLoaderError::TypeMismatch);
            }
            j = j + 1;
        }
        let nrows = self.nrows();
        let key = index.to_string();
        let present = self.index.len() == nrows;
        if present {
            let mut k: usize = 0;
            while k < self.index.len()
                invariant
                    k <= self.index@.len(),
                    self.index_views().len() == self.index@.len(),
                    forall|i: int| 0 <= i < self.index@.len() ==> #[trigger] self.index_views()[i] == self.index@[i]@,
                    forall|i: int| 0 <= i < k ==> self.index_views()[i] != key@,
                decreases self.index@.len() - k,
            {
                if self.index[k] == key {
                    proof {
                        assert(self.index_views()[k as int] == index@);
                    }
                    return Err(DataLoaderError::DuplicateIndex);
                }
                k = k + 1;
            }
        }
        let ghost old_self = *self;
        let ghost old_row = row@;
        let mut row = row;
        let mut j: usize = ncols;
        while j > 0
            invariant
                j <= ncols,
                ncols == self.columns@.len(),
                ncols == old_self.columns@.len(),
                row@.len() == j,
                forall|c: int| 0 <= c < j ==> row@[c] == old_row[c],
                forall|c: int| 0 <= c < j ==> #[trigger] self.columns@[c] == old_self.columns@[c],
                forall|c: int|
                    j <= c < ncols ==> #[trigger] self.columns@[c]@ == (
                        old_self.columns@[c]@.0,
                        old_self.columns@[c]@.1,
                        old_self.columns@[c]@.2.push(old_row[c]),
                    ),
                forall|c: int| 0 <= c < ncols ==> #[trigger] old_row[c].dtype_spec() == old_self.columns@[c]@.0,
                self.keys == old_self.keys,
                self.index == old_self.index,
            decreases j,
        {
            let cell = match row.pop() {
                Some(c) => c,
                None => {
                    return Err(DataLoaderError::NoData);
                },
            };
            j = j - 1;
            let ghost before = self.columns@[j as int];
            let _ = self.columns[j].append(cell);
            proof {
                let after = self.columns@[j as int];
                assert forall|i: int| 0 <= i < after@.2.len() implies after@.2[i] == before@.2.push(
                    old_row[j as int],
                )[i] by {
                    if i < before.len_spec() {
                        assert(after.cell_view(i) == before.cell_view(i));
                    } else {
                        assert(after.cell_view(i) == old_row[j as int]);
                    }
                }
                assert(after@.2 =~= before@.2.push(old_row[j as int]));
            }
        }
        if present {
            self.index.push(key);
        }
        proof {
            self.lemma_views();
            old_self.lemma_views();
            assert(self.key_views() =~= old_self.key_views());
            if present {
                assert(self.index_views() =~= old_self.index_views().push(index@));
            } else {
                assert(self.index_views() =~= old_self.index_views());
            }
            assert(self.column_views()[0].2.len() == old_self.column_views()[0].2.len() + 1);
            assert(self.nrows_spec() == old_self.nrows_spec() + 1);
            assert forall|c: int| 0 <= c < self.column_views().len() implies #[trigger] self.column_views()[c].2.len()
                == self.nrows_spec() by {
                assert(self.column_views()[c].2.len() == old_self.column_views()[c].2.len() + 1);
            }
            if present {
                assert(!old_self.index_views().contains(index@));
            }
        }
        Ok(())
    }

    /// Replaces the row index; `index` needs one unique key per row.
    #[verifier::loop_isolation(false)]
    pub fn set_index(&mut self, index: Vec<&str>) -> (r: Result<(), DataLoaderError>)
        requires
            old(self).wf(),
        ensures
            final(self).wf(),
            r is Err ==> *final(self) == *old(self),
            index@.len() != old(self).nrows_spec() ==> r == Err::<(), _>(DataLoaderError::RowCountMismatch),
            index@.len() == old(self).nrows_spec() && !str_views(index@).no_duplicates() ==> r == Err::<
                (),
                _,
            >(DataLoaderError::DuplicateIndex),
            index@.len() == old(self).nrows_spec() && str_views(index@).no_duplicates() ==> r is Ok,
            r is Ok ==> final(self).index_views() == str_views(index@) && final(self).key_views()
                == old(self).key_views() && final(self).column_views() == old(self).column_views(),
    {
        proof {
            self.lemma_views();
        }
        if index.len() != self.nrows() {
            return Err(DataLoaderError::RowCountMismatch);
        }
        let mut keys: Vec<String> = Vec::with_capacity(index.len());
        let mut i: usize = 0;
        while i < index.len()
            invariant
                i <= index@.len(),
                keys@.len() == i,
                forall|k: int| 0 <= k < i ==> #[trigger] keys@[k]@ == index@[k]@,
            decreases index@.len() - i,
        {
            keys.push(index[i].to_string());
            i = i + 1;
        }
        let mut a: usize = 0;
        while a < keys.len()
            invariant
                a <= keys@.len(),
                keys@.len() == index@.len(),
                forall|k: int| 0 <= k < keys@.len() ==> #[trigger] keys@[k]@ == index@[k]@,
                forall|x: int, y: int| 0 <= x < a && x < y < keys@.len() ==> keys@[x]@ != keys@[y]@,
            decreases keys@.len() - a,
        {
            let mut b: usize = a + 1;
            while b < keys.len()
                invariant
                    a < b <= keys@.len(),
                    a < keys@.len(),
                    keys@.len() == index@.len(),
                    forall|k: int| 0 <= k < keys@.len() ==> #[trigger] keys@[k]@ == index@[k]@,
                    forall|x: int, y: int| 0 <= x < a && x < y < keys@.len() ==> keys@[x]@ != keys@[y]@,
                    forall|y: int| a < y < b ==> keys@[a as int]@ != keys@[y]@,
                decreases keys@.len() - b,
            {
                if keys[a] == keys[b] {
                    proof {
                        assert(str_views(index@)[a as int] == str_views(index@)[b as int]);
                    }
                    return Err(DataLoaderError::DuplicateIndex);
                }
                b = b + 1;
            }
            a = a + 1;
        }
        let ghost old_self = *self;
        self.index = keys;
        proof {
            self.lemma_views();
            assert(self.index_views() =~= str_views(index@));
            assert(self.key_views() =~= old_self.key_views());
            assert(self.column_views() =~= old_self.column_views());
        }
        Ok(())
    }

    /// A copy of the column under key `column_name`, viewed as holding `T`.
    pub fn get_column<T: ColumnElement>(&self, column_name: &str) -> (r: Result<
        DataVector<T>,
        DataLoaderError,
    >)
        requires
            self.wf(),
        ensures
            !self.key_views().contains(column_name@) ==> r matches Err(DataLoaderError::GenericError(_)),
            forall|j: int|
                0 <= j < self.ncols_spec() && #[trigger] self.key_views()[j] == column_name@ ==> {
                    &&& self.column_views()[j].0 != T::elem_dtype() ==> r == Err::<DataVector<T>, _>(
                        DataLoaderError::TypeMismatch,
                    )
                    &&& self.column_views()[j].0 == T::elem_dtype() ==> (r matches Ok(v) && cells_of(v@)
                        == self.column_views()[j].2 && opt_view(v.label_spec())
                        == self.column_views()[j].1)
                },
    {
        proof {
            self.lemma_views();
        }
        let name = column_name.to_string();
        match self.find_key(&name) {
            None => Err(DataLoaderError::GenericError("column not found".to_string())),
            Some(j) => {
                proof {
                    T::lemma_typed(self.columns@[j as int]);
                    assert forall|k: int|
                        0 <= k < self.ncols_spec() && #[trigger] self.key_views()[k] == column_name@ implies k
                        == j by {
                        assert(self.key_views()[k] == self.key_views()[j as int]);
                    }
                }
                match T::downcast(&self.columns[j]) {
                    None => Err(DataLoaderError::TypeMismatch),
                    Some(v) => {
                        let c = v.duplicate();
                        proof {
                            let col = self.columns@[j as int];
                            assert(cells_of(c@) =~= col@.2);
                        }
                        Ok(c)
                    },
                }
            },
        }
    }

    /// A copy of the column at position `idx`, in insertion order.
    pub fn column_at(&self, idx: usize) -> (r: Option<Column>)
        ensures
            idx < self.ncols_spec() ==> (r matches Some(c) && c@ == self.column_views()[idx as int]),
            idx >= self.ncols_spec() ==> r is None,
    {
        proof {
            self.lemma_views();
        }
        if idx < self.columns.len() {
            Some(self.columns[idx].duplicate())
        } else {
            None
        }
    }

    /// A copy of the row index.
    pub fn get_index(&self) -> (r: Vec<String>)
        ensures
            views_of(r@) == self.index_views(),
    {
        proof {
            self.lemma_views();
        }
        let r = copy_values(&self.index);
        r
    }

    /// A copy of the column keys, in insertion order.
    pub fn get_keys(&self) -> (r: Vec<String>)
        ensures
            views_of(r@) == self.key_views(),
    {
        proof {
            self.lemma_views();
        }
        let n = map_len(&self.keys);
        let mut out: Vec<String> = Vec::with_capacity(n);
        let mut j: usize = 0;
        while j < n
            invariant
                j <= n,
                n == self.key_views().len(),
                n == key_entries(self.keys).len(),
                out@.len() == j,
                forall|x: int| 0 <= x < n ==> #[trigger] self.key_views()[x] == key_entries(self.keys)[x].0,
                forall|x: int| 0 <= x < j ==> #[trigger] out@[x]@ == self.key_views()[x],
            decreases n - j,
        {
            out.push(map_key_at(&self.keys, j).clone());
            j = j + 1;
        }
        proof {
            assert(views_of(out@) =~= self.key_views());
        }
        out
    }


    /// The table made of the columns at `pos`, in that order, sharing this
    /// table's index where it has a column.
    fn select_positions(&self, pos: &Vec<usize>) -> (r: DataMatrix)
        requires
            self.wf(),
            pos@.no_duplicates(),
            forall|m: int| 0 <= m < pos@.len() ==> #[trigger] pos@[m] < self.ncols_spec(),
        ensures
            drawn_from(*self, r),
            r.key_views() == keys_at(self.key_views(), pos@),
    {
        proof {
            self.lemma_views();
        }
        let mut keys = map_new();
        let mut columns: Vec<Column> = Vec::with_capacity(pos.len());
        let mut m: usize = 0;
        while m < pos.len()
            invariant
                self.wf(),
                m <= pos@.len(),
                pos@.no_duplicates(),
                forall|x: int| 0 <= x < pos@.len() ==> #[trigger] pos@[x] < self.ncols_spec(),
                key_entries(keys).len() == m,
                columns@.len() == m,
                self.key_views().len() == key_entries(self.keys).len(),
                self.column_views().len() == self.columns@.len(),
                forall|c: int| 0 <= c < self.columns@.len() ==> #[trigger] self.column_views()[c] == self.columns@[c]@,
                forall|c: int|
                    0 <= c < key_entries(self.keys).len() ==> #[trigger] self.key_views()[c] == key_entries(
                        self.keys,
                    )[c].0,
                forall|x: int| 0 <= x < m ==> #[trigger] key_entries(keys)[x] == (self.key_views()[pos@[x] as int], x as usize),
                forall|x: int| 0 <= x < m ==> #[trigger] columns@[x]@ == self.column_views()[pos@[x] as int],
            decreases pos@.len() - m,
        {
            let k = pos[m];
            let key = map_key_at(&self.keys, k).clone();
            proof {
                if keys_of(keys).contains(key@) {
                    let x = choose|x: int| 0 <= x < keys_of(keys).len() && keys_of(keys)[x] == key@;
                    assert(self.key_views()[pos@[x] as int] == self.key_views()[k as int]);
                    assert(pos@[x] != pos@[m as int]);
                }
            }
            let ghost before = key_entries(keys);
            map_insert(&mut keys, key, m);
            proof {
                assert forall|x: int| 0 <= x < m + 1 implies #[trigger] key_entries(keys)[x] == (
                    self.key_views()[pos@[x] as int],
                    x as usize,
                ) by {
                    if x < m {
                        assert(key_entries(keys)[x] == before[x]);
                    }
                }
            }
            columns.push(self.columns[k].duplicate());
            m = m + 1;
        }
        let index = if pos.len() > 0 {
            copy_values(&self.index)
        } else {
            Vec::new()
        };
        let r = DataMatrix { keys, columns, index };
        proof {
            r.lemma_views();
            assert(r.key_views() =~= keys_at(self.key_views(), pos@));
            assert forall|x: int, y: int|
                0 <= x < r.key_views().len() && 0 <= y < r.key_views().len() && x != y implies r.key_views()[x]
                != r.key_views()[y] by {
                assert(pos@[x] != pos@[y]);
            }
            if pos@.len() > 0 {
                assert(r.index_views() =~= self.index_views());
                assert(r.nrows_spec() == self.nrows_spec());
            } else {
                assert(r.index_views() =~= Seq::<Seq<char>>::empty());
            }
            assert forall|j: int| 0 <= j < r.ncols_spec() implies #[trigger] r.column_views()[j]
                == self.column_views()[self.key_views().index_of(r.key_views()[j])] by {
                let k = pos@[j] as int;
                assert(self.key_views()[k] == r.key_views()[j]);
                lemma_index_of_unique(self.key_views(), k);
            }
            assert forall|j: int| 0 <= j < r.ncols_spec() implies self.key_views().contains(
                #[trigger] r.key_views()[j],
            ) by {
                assert(self.key_views()[pos@[j] as int] == r.key_views()[j]);
            }
        }
        r
    }

    /// The table of the columns under `column_names`, in that order (a name given
    /// twice counts once), sharing this table's index. Every name must be a key.
    #[verifier::loop_isolation(false)]
    pub fn get_columns(&self, column_names: Vec<&str>) -> (r: Result<DataMatrix, DataLoaderError>)
        requires
            self.wf(),
        ensures
            (r is Ok) == (forall|i: int|
                0 <= i < column_names@.len() ==> self.key_views().contains(#[trigger] column_names@[i]@)),
            r is Err ==> r matches Err(DataLoaderError::GenericError(_)),
            r matches Ok(t) ==> select_post(*self, str_views(column_names@), t),
    {
        proof {
            self.lemma_views();
        }
        let ghost sv = str_views(column_names@);
        let mut pos: Vec<usize> = Vec::new();
        let mut i: usize = 0;
        while i < column_names.len()
            invariant
                i <= column_names@.len(),
                sv == str_views(column_names@),
                pos@.no_duplicates(),
                forall|x: int| 0 <= x < pos@.len() ==> #[trigger] pos@[x] < self.ncols_spec(),
                keys_at(self.key_views(), pos@) == first_occurrences(sv.subrange(0, i as int)),
                forall|x: int| 0 <= x < i ==> self.key_views().contains(#[trigger] column_names@[x]@),
            decreases column_names@.len() - i,
        {
            let name = column_names[i].to_string();
            let k = match self.find_key(&name) {
                Some(k) => k,
                None => {
                    return Err(DataLoaderError::GenericError("column not found".to_string()));
                },
            };
            let mut seen = false;
            let mut m: usize = 0;
            while m < pos.len()
                invariant
                    m <= pos@.len(),
                    seen == exists|x: int| 0 <= x < m && pos@[x] == k,
                decreases pos@.len() - m,
            {
                if pos[m] == k {
                    seen = true;
                }
                m = m + 1;
            }
            let ghost prev = keys_at(self.key_views(), pos@);
            proof {
                assert(sv.subrange(0, i + 1).drop_last() =~= sv.subrange(0, i as int));
                assert(sv.subrange(0, i + 1).last() == name@);
                if seen {
                    let x = choose|x: int| 0 <= x < pos@.len() && pos@[x] == k;
                    assert(prev[x] == name@);
                } else {
                    if prev.contains(name@) {
                        let x = choose|x: int| 0 <= x < prev.len() && prev[x] == name@;
                        assert(self.key_views()[pos@[x] as int] == self.key_views()[k as int]);
                    }
                }
            }
            if !seen {
                pos.push(k);
                proof {
                    assert(keys_at(self.key_views(), pos@) =~= prev.push(name@));
                }
            }
            i = i + 1;
        }
        proof {
            assert(sv.subrange(0, column_names@.len() as int) =~= sv);
        }
        Ok(self.select_positions(&pos))
    }

    /// The table without the columns whose keys are in `column_names`; names
    /// that are not keys are ignored. The index is kept.
    #[verifier::loop_isolation(false)]
    pub fn exclude_columns(&self, column_names: Vec<&str>) -> (r: Result<DataMatrix, DataLoaderError>)
        requires
            self.wf(),
        ensures
            r matches Ok(t) && exclude_post(*self, str_views(column_names@), t),
    {
        proof {
            self.lemma_views();
        }
        let ghost sv = str_views(column_names@);
        let mut names: Vec<String> = Vec::with_capacity(column_names.len());
        let mut i: usize = 0;
        while i < column_names.len()
            invariant
                i <= column_names@.len(),
                names@.len() == i,
                forall|x: int| 0 <= x < i ==> #[trigger] names@[x]@ == column_names@[x]@,
            decreases column_names@.len() - i,
        {
            names.push(column_names[i].to_string());
            i = i + 1;
        }
        proof {
            assert(views_of(names@) =~= sv);
        }
        let mut pos: Vec<usize> = Vec::new();
        let mut k: usize = 0;
        let nkeys = map_len(&self.keys);
        while k < nkeys
            invariant
                nkeys == key_entries(self.keys).len(),
                nkeys == self.key_views().len(),
                forall|c: int|
                    0 <= c < nkeys ==> #[trigger] self.key_views()[c] == key_entries(self.keys)[c].0,
                k <= nkeys,
                views_of(names@) == sv,
                pos@.no_duplicates(),
                forall|x: int| 0 <= x < pos@.len() ==> #[trigger] pos@[x] < k,
                keys_at(self.key_views(), pos@) == self.key_views().subrange(0, k as int).filter(
                    not_in(sv),
                ),
            decreases nkeys - k,
        {
            let current = map_key_at(&self.keys, k);
            let mut excluded = false;
            let mut m: usize = 0;
            while m < names.len()
                invariant
                    m <= names@.len(),
                    excluded == exists|x: int| 0 <= x < m && names@[x]@ == current@,
                decreases names@.len() - m,
            {
                if names[m] == *current {
                    excluded = true;
                }
                m = m + 1;
            }
            let ghost key = self.key_views()[k as int];
            proof {
                assert(self.key_views().subrange(0, k + 1) =~= self.key_views().subrange(0, k as int).push(
                    key,
                ));
                self.key_views().subrange(0, k as int).lemma_filter_push(key, not_in(sv));
                if excluded {
                    let x = choose|x: int| 0 <= x < names@.len() && names@[x]@ == current@;
                    assert(sv[x] == key);
                } else {
                    if sv.contains(key) {
                        let x = choose|x: int| 0 <= x < sv.len() && sv[x] == key;
                        assert(names@[x]@ == key);
                    }
                }
            }
            let ghost prev = keys_at(self.key_views(), pos@);
            if !excluded {
                pos.push(k);
                proof {
                    assert(keys_at(self.key_views(), pos@) =~= prev.push(key));
                }
            }
            k = k + 1;
        }
        proof {
            assert(self.key_views().subrange(0, nkeys as int) =~= self.key_views());
        }
        Ok(self.select_positions(&pos))
    }

    /// The table without the column under `column_name`, if there is one.
    pub fn exclude_column(&self, column_name: &str) -> (r: Result<DataMatrix, DataLoaderError>)
        requires
            self.wf(),
        ensures
            r matches Ok(t) && exclude_post(*self, seq![column_name@], t),
    {
        let names: Vec<&str> = vec![column_name];
        proof {
            assert(str_views(names@) =~= seq![column_name@]);
        }
        self.exclude_columns(names)
    }


    /// A table of the given columns, in order, each under its name or else its
    /// position in decimal, with underscores appended while that is a key
    /// already. All must have one length and distinct names.
    pub fn from_vec(vec: Vec<Column>) -> (r: Result<DataMatrix, DataLoaderError>)
        ensures
            (r is Ok) == (forall|j: int| 0 <= j < vec@.len() ==> #[trigger] column_fits(vec@, j)),
            r matches Err(e) ==> exists|j: int|
                0 <= j < vec@.len() && (forall|k: int| 0 <= k < j ==> #[trigger] column_fits(vec@, k))
                    && !column_fits(vec@, j) && e == (if vec@[j].len_spec() != vec@[0].len_spec() {
                    DataLoaderError::RowCountMismatch
                } else {
                    DataLoaderError::DuplicateLabel
                }),
            r matches Ok(t) ==> {
                &&& t.wf()
                &&& t.key_views() == vec_keys(vec@, vec@.len())
                &&& t.column_views() == vec@.map_values(|c: Column| c@)
                &&& t.index_views().len() == 0
            },
    {
        let ghost cols = vec@;
        let n = vec.len();
        let mut t = DataMatrix::new();
        let mut rest = vec;
        let mut i: usize = 0;
        while rest.len() > 0
            invariant
                t.wf(),
                t.index@.len() == 0,
                i + rest@.len() == cols.len(),
                cols.len() == n,
                cols == vec@,
                rest@ == cols.subrange(i as int, cols.len() as int),
                key_entries(t.keys).len() == i,
                t.columns@.len() == i,
                forall|k: int| 0 <= k < i ==> #[trigger] column_fits(cols, k),
                t.key_views() == vec_keys(cols, i as nat),
                forall|k: int| 0 <= k < i ==> #[trigger] key_entries(t.keys)[k].1 == k as usize,
                forall|k: int| 0 <= k < i ==> #[trigger] t.columns@[k]@ == cols[k]@,
            decreases rest@.len(),
        {
            proof {
                t.lemma_views();
            }
            let col = rest.remove(0);
            proof {
                assert(col == cols[i as int]);
            }
            if i > 0 && col.len() != t.nrows() {
                proof {
                    assert(t.columns@[0]@ == cols[0]@);
                    assert(t.column_views()[0].2.len() == cols[0].len_spec());
                    assert(!column_fits(cols, i as int));
                }
                return Err(DataLoaderError::RowCountMismatch);
            }
            let key: String = match col.get_label() {
                Some(l) => l,
                None => t.unnamed_key(i),
            };
            proof {
                assert(key@ == vec_key(cols, i as int));
            }
            if t.find_key(&key).is_some() {
                proof {
                    if i > 0 {
                        assert(t.columns@[0]@ == cols[0]@);
                    }
                    assert(!column_fits(cols, i as int));
                    assert(cols[i as int].len_spec() == cols[0].len_spec());
                }
                return Err(DataLoaderError::DuplicateLabel);
            }
            proof {
                if i > 0 {
                    assert(t.columns@[0]@ == cols[0]@);
                }
                assert(column_fits(cols, i as int));
            }
            let ghost before = t;
            let ghost key_view = key@;
            map_insert(&mut t.keys, key, i);
            t.columns.push(col);
            proof {
                t.lemma_views();
                before.lemma_views();
                assert(t.key_views() =~= before.key_views().push(key@));
                assert(vec_keys(cols, (i + 1) as nat) == vec_keys(cols, i as nat).push(vec_key(cols, i as int)));
                assert(t.index_views() =~= before.index_views());
                assert(t.column_views() =~= before.column_views().push(col@));
                if i > 0 {
                    assert(t.column_views()[0] == before.column_views()[0]);
                }
                assert forall|c: int| 0 <= c < t.column_views().len() implies #[trigger] t.column_views()[c].2.len()
                    == t.nrows_spec() by {
                    if c < i {
                        assert(t.column_views()[c] == before.column_views()[c]);
                    }
                }
            }
            i = i + 1;
        }
        proof {
            t.lemma_views();
            assert(t.column_views() =~= cols.map_values(|c: Column| c@));
        }
        Ok(t)
    }


    /// A copy of the table.
    pub fn duplicate(&self) -> (r: DataMatrix)
        ensures
            self.wf() ==> r.wf(),
            r.key_views() == self.key_views(),
            r.column_views() == self.column_views(),
            r.index_views() == self.index_views(),
    {
        let keys = map_clone(&self.keys);
        let index = copy_values(&self.index);
        let mut columns: Vec<Column> = Vec::with_capacity(self.columns.len());
        let mut j: usize = 0;
        while j < self.columns.len()
            invariant
                j <= self.columns@.len(),
                columns@.len() == j,
                forall|c: int| 0 <= c < j ==> #[trigger] columns@[c]@ == self.columns@[c]@,
            decreases self.columns@.len() - j,
        {
            columns.push(self.columns[j].duplicate());
            j = j + 1;
        }
        let r = DataMatrix { keys, columns, index };
        proof {
            assert(r.key_views() =~= self.key_views());
            assert(r.column_views() =~= self.column_views());
            assert(r.index_views() =~= self.index_views());
        }
        r
    }

    /// The rows of the float columns under `names`, in that order, each value
    /// as its bit pattern. Every name must be the key of a float column.
    pub fn feature_rows(&self, names: &Vec<String>) -> (r: Result<Vec<Vec<u64>>, DataLoaderError>)
        requires
            self.wf(),
        ensures
            (r is Ok) == (forall|j: int|
                0 <= j < names@.len() ==> float_key(*self, #[trigger] names@[j]@)),
            r matches Ok(rows) ==> feature_rows_post(*self, views_of(names@), rows@),
    {
        proof {
            self.lemma_views();
        }
        let mut cols: Vec<&Vec<u64>> = Vec::with_capacity(names.len());
        let mut j: usize = 0;
        while j < names.len()
            invariant
                self.wf(),
                j <= names@.len(),
                cols@.len() == j,
                self.key_views().len() == key_entries(self.keys).len(),
                self.column_views().len() == self.columns@.len(),
                forall|c: int| 0 <= c < self.columns@.len() ==> #[trigger] self.column_views()[c] == self.columns@[c]@,
                forall|x: int| 0 <= x < j ==> float_key(*self, #[trigger] names@[x]@),
                forall|x: int|
                    0 <= x < j ==> cells_of(#[trigger] cols@[x]@) == self.column_views()[self.key_views().index_of(
                        names@[x]@,
                    )].2,
            decreases names@.len() - j,
        {
            let k = match self.find_key(&names[j]) {
                Some(k) => k,
                None => {
                    return Err(DataLoaderError::GenericError("column not found".to_string()));
                },
            };
            proof {
                lemma_index_of_unique(self.key_views(), k as int);
                <u64 as ColumnElement>::lemma_typed(self.columns@[k as int]);
            }
            match <u64 as ColumnElement>::downcast(&self.columns[k]) {
                Some(v) => {
                    proof {
                        let col = self.columns@[k as int];
                        assert(cells_of(v@) =~= col@.2);
                    }
                    cols.push(v.get_data());
                },
                None => {
                    proof {
                        assert(self.column_views()[k as int].0 != DType::Float);
                    }
                    return Err(DataLoaderError::TypeMismatch);
                },
            }
            j = j + 1;
        }
        let n = self.nrows();
        let mut rows: Vec<Vec<u64>> = Vec::with_capacity(n);
        let mut i: usize = 0;
        while i < n
            invariant
                self.wf(),
                n == self.nrows_spec(),
                i <= n,
                cols@.len() == names@.len(),
                rows@.len() == i,
                forall|x: int| 0 <= x < names@.len() ==> float_key(*self, #[trigger] names@[x]@),
                forall|x: int|
                    0 <= x < names@.len() ==> cells_of(#[trigger] cols@[x]@) == self.column_views()[self.key_views().index_of(
                        names@[x]@,
                    )].2,
                forall|a: int| 0 <= a < i ==> #[trigger] rows@[a]@.len() == names@.len(),
                forall|a: int, b: int|
                    0 <= a < i && 0 <= b < names@.len() ==> Cell::Float(#[trigger] rows@[a]@[b])
                        == self.column_views()[self.key_views().index_of(names@[b]@)].2[a],
            decreases n - i,
        {
            let mut row: Vec<u64> = Vec::with_capacity(cols.len());
            let mut b: usize = 0;
            while b < cols.len()
                invariant
                    self.wf(),
                    n == self.nrows_spec(),
                    i < n,
                    b <= cols@.len(),
                    cols@.len() == names@.len(),
                    row@.len() == b,
                    forall|x: int| 0 <= x < names@.len() ==> float_key(*self, #[trigger] names@[x]@),
                    forall|x: int|
                        0 <= x < names@.len() ==> cells_of(#[trigger] cols@[x]@)
                            == self.column_views()[self.key_views().index_of(names@[x]@)].2,
                    forall|c: int|
                        0 <= c < b ==> Cell::Float(#[trigger] row@[c]) == self.column_views()[self.key_views().index_of(
                            names@[c]@,
                        )].2[i as int],
                decreases cols@.len() - b,
            {
                proof {
                    let k = self.key_views().index_of(names@[b as int]@);
                    assert(self.column_views()[k].2.len() == n);
                    assert(cells_of(cols@[b as int]@).len() == cols@[b as int]@.len());
                }
                row.push(cols[b][i]);
                b = b + 1;
            }
            rows.push(row);
            i = i + 1;
        }
        proof {
            assert(views_of(names@).len() == names@.len());
        }
        Ok(rows)
    }

    /// Every column has type tag `dt`, and there is at least one column.
    pub open spec fn homogeneous_of(&self, dt: DType) -> bool {
        &&& self.ncols_spec() > 0
        &&& forall|j: int| 0 <= j < self.ncols_spec() ==> #[trigger] self.column_views()[j].0 == dt
    }

    /// Some column's type tag differs from the first column's.
    pub open spec fn heterogeneous(&self) -> bool {
        exists|j: int|
            0 <= j < self.ncols_spec() && #[trigger] self.column_views()[j].0 != self.column_views()[0].0
    }

    /// Whether the columns hold more than one element type; a table without
    /// columns has no answer.
    pub fn is_type_heterogeneous(&self) -> (r: Result<bool, DataLoaderError>)
        ensures
            self.ncols_spec() == 0 ==> r == Err::<bool, _>(DataLoaderError::NoData),
            self.ncols_spec() > 0 ==> r == Ok::<bool, DataLoaderError>(self.heterogeneous()),
    {
        proof {
            self.lemma_views();
        }
        if self.columns.len() == 0 {
            return Err(DataLoaderError::NoData);
        }
        let first = self.columns[0].dtype();
        let mut j: usize = 0;
        while j < self.columns.len()
            invariant
                j <= self.columns@.len(),
                self.columns@.len() > 0,
                first == self.column_views()[0].0,
                self.column_views().len() == self.columns@.len(),
                forall|i: int| 0 <= i < self.columns@.len() ==> #[trigger] self.column_views()[i] == self.columns@[i]@,
                forall|i: int| 0 <= i < j ==> #[trigger] self.column_views()[i].0 == first,
            decreases self.columns@.len() - j,
        {
            if self.columns[j].dtype() != first {
                proof {
                    assert(self.column_views()[j as int].0 != self.column_views()[0].0);
                }
                return Ok(true);
            }
            j = j + 1;
        }
        Ok(false)
    }

    /// The table as a dense matrix with one row per table row and one column per
    /// table column, in column order. All columns must hold `T`.
    pub fn to_dense_matrix<T: ColumnElement>(&self) -> (r: Result<DenseMatrix<T>, DataLoaderError>)
        requires
            self.wf(),
        ensures
            self.ncols_spec() == 0 ==> r == Err::<DenseMatrix<T>, _>(DataLoaderError::NoData),
            self.ncols_spec() > 0 && self.heterogeneous() ==> r == Err::<DenseMatrix<T>, _>(
                DataLoaderError::HeterogeneousDataTypes,
            ),
            self.ncols_spec() > 0 && !self.heterogeneous() && self.column_views()[0].0
                != T::elem_dtype() ==> r == Err::<DenseMatrix<T>, _>(DataLoaderError::TypeMismatch),
            (r is Ok) == self.homogeneous_of(T::elem_dtype()),
            r matches Ok(d) ==> to_dense_post(*self, d),
    {
        proof {
            self.lemma_views();
        }
        match self.is_type_heterogeneous() {
            Err(e) => {
                return Err(e);
            },
            Ok(true) => {
                return Err(DataLoaderError::HeterogeneousDataTypes);
            },
            Ok(false) => {},
        }
        if self.columns[0].dtype() != T::dtype_of() {
            proof {
                assert(self.column_views()[0] == self.columns@[0]@);
                assert(self.column_views()[0].0 != T::elem_dtype());
            }
            return Err(DataLoaderError::TypeMismatch);
        }
        proof {
            assert forall|j: int| 0 <= j < self.ncols_spec() implies #[trigger] self.column_views()[j].0
                == T::elem_dtype() by {
                if self.column_views()[j].0 != self.column_views()[0].0 {
                    assert(self.heterogeneous());
                }
            }
        }
        let nrows = self.nrows();
        let ncols = self.columns.len();
        let mut rows: Vec<Vec<T>> = Vec::with_capacity(nrows);
        let mut i: usize = 0;
        while i < nrows
            invariant
                self.wf(),
                self.homogeneous_of(T::elem_dtype()),
                nrows == self.nrows_spec(),
                ncols == self.columns@.len(),
                ncols == self.ncols_spec(),
                i <= nrows,
                rows@.len() == i,
                self.column_views().len() == self.columns@.len(),
                forall|c: int| 0 <= c < self.columns@.len() ==> #[trigger] self.column_views()[c] == self.columns@[c]@,
                forall|k: int| 0 <= k < i ==> #[trigger] rows@[k]@.len() == ncols,
                forall|k: int, c: int|
                    0 <= k < i && 0 <= c < ncols ==> T::to_cell(#[trigger] rows@[k]@[c])
                        == self.column_views()[c].2[k],
            decreases nrows - i,
        {
            let mut row: Vec<T> = Vec::with_capacity(ncols);
            let mut j: usize = 0;
            while j < ncols
                invariant
                    self.wf(),
                    self.homogeneous_of(T::elem_dtype()),
                    nrows == self.nrows_spec(),
                    ncols == self.columns@.len(),
                    ncols == self.ncols_spec(),
                    i < nrows,
                    j <= ncols,
                    row@.len() == j,
                    self.column_views().len() == self.columns@.len(),
                    forall|c: int| 0 <= c < self.columns@.len() ==> #[trigger] self.column_views()[c] == self.columns@[c]@,
                    forall|c: int| 0 <= c < j ==> T::to_cell(#[trigger] row@[c]) == self.column_views()[c].2[i as int],
                decreases ncols - j,
            {
                let col = &self.columns[j];
                proof {
                    T::lemma_typed(*col);
                    assert(self.column_views()[j as int].0 == T::elem_dtype());
                    assert(self.column_views()[j as int].2.len() == nrows);
                }
                match T::downcast(col) {
                    Some(v) => {
                        let x = v.get_data()[i].duplicate();
                        proof {
                            assert(col@.2[i as int] == col.cell(i as int));
                        }
                        row.push(x);
                    },
                    None => {
                        proof {
                            assert(false);
                        }
                    },
                }
                j = j + 1;
            }
            rows.push(row);
            i = i + 1;
        }
        let d = match DenseMatrix::from_rows(ncols, rows) {
            Ok(d) => d,
            Err(e) => {
                return Err(e);
            },
        };
        Ok(d)
    }

    /// A table with one unnamed column per row of `arr`: row `j` becomes the
    /// column under key `j` in decimal.
    pub fn from_dense_matrix<T: ColumnElement>(arr: &DenseMatrix<T>) -> (r: Result<
        DataMatrix,
        DataLoaderError,
    >)
        requires
            arr.wf(),
        ensures
            r matches Ok(t) && from_dense_post(*arr, t),
    {
        let mut t = DataMatrix::new();
        let n = arr.nrows();
        let mut i: usize = 0;
        while i < n
            invariant
                arr.wf(),
                n == arr.nrows_view(),
                i <= n,
                t.wf(),
                t.index_views().len() == 0,
                t.ncols_spec() == i,
                i > 0 ==> t.nrows_spec() == arr.ncols_view(),
                forall|j: int| 0 <= j < i ==> #[trigger] t.key_views()[j] == decimal(j as nat),
                forall|j: int|
                    0 <= j < i ==> #[trigger] t.column_views()[j] == (
                        T::elem_dtype(),
                        None::<Seq<char>>,
                        cells_of(arr.rows_view()[j]),
                    ),
            decreases n - i,
        {
            let row = arr.row(i);
            proof {
                assert(row@.len() == arr.ncols_view());
                if t.key_views().contains(decimal(i as nat)) {
                    let k = choose|k: int| 0 <= k < t.key_views().len() && t.key_views()[k] == decimal(i as nat);
                    assert(t.key_views()[k] == decimal(k as nat));
                    lemma_decimal_injective(k as nat, i as nat);
                }
            }
            let ghost before = t;
            match t.add_column(row, None) {
                Ok(()) => {},
                Err(e) => {
                    return Err(e);
                },
            }
            proof {
                assert(t.key_views()[i as int] == decimal(i as nat));
                assert forall|j: int| 0 <= j < i + 1 implies #[trigger] t.key_views()[j] == decimal(j as nat) by {
                    if j < i {
                        assert(t.key_views()[j] == before.key_views()[j]);
                    }
                }
                assert forall|j: int| 0 <= j < i + 1 implies #[trigger] t.column_views()[j] == (
                    T::elem_dtype(),
                    None::<Seq<char>>,
                    cells_of(arr.rows_view()[j]),
                ) by {
                    if j < i {
                        assert(t.column_views()[j] == before.column_views()[j]);
                    }
                }
                assert(t.nrows_spec() == t.column_views()[0].2.len());
            }
            i = i + 1;
        }
        Ok(t)
    }

}

/// What `to_dense_matrix` returns on success: the table's shape, and entry
/// `(i, j)` holding row `i` of column `j`.
pub open spec fn to_dense_post<T: ColumnElement>(t: DataMatrix, d: DenseMatrix<T>) -> bool {
    &&& d.wf()
    &&& d.nrows_view() == t.nrows_spec()
    &&& d.ncols_view() == t.ncols_spec()
    &&& forall|i: int, j: int|
        0 <= i < d.nrows_view() && 0 <= j < d.ncols_view() ==> T::to_cell(#[trigger] d.at(i, j))
            == t.column_views()[j].2[i]
}

/// What `from_dense_matrix` returns: one unnamed column per matrix row, keyed
/// by its position, and no index.
pub open spec fn from_dense_post<T: ColumnElement>(m: DenseMatrix<T>, t: DataMatrix) -> bool {
    &&& t.wf()
    &&& t.ncols_spec() == m.nrows_view()
    &&& t.index_views().len() == 0
    &&& forall|j: int| 0 <= j < m.nrows_view() ==> #[trigger] t.key_views()[j] == decimal(j as nat)
    &&& forall|j: int|
        0 <= j < m.nrows_view() ==> #[trigger] t.column_views()[j] == (
            T::elem_dtype(),
            None::<Seq<char>>,
            cells_of(m.rows_view()[j]),
        )
}

/// Turning a non-empty matrix into a table and that table back into a matrix
/// succeeds and transposes it: each matrix row became a table column.
pub proof fn lemma_dense_round_trip<T: ColumnElement>(
    m: DenseMatrix<T>,
    t: DataMatrix,
    d: DenseMatrix<T>,
)
    requires
        m.wf(),
        m.nrows_view() > 0,
        from_dense_post(m, t),
        to_dense_post(t, d),
    ensures
        t.homogeneous_of(T::elem_dtype()),
        d.nrows_view() == m.ncols_view(),
        d.ncols_view() == m.nrows_view(),
        forall|i: int, j: int|
            0 <= i < d.nrows_view() && 0 <= j < d.ncols_view() ==> #[trigger] d.at(i, j) == m.at(j, i),
{
    assert(t.column_views()[0] == (T::elem_dtype(), None::<Seq<char>>, cells_of(m.rows_view()[0])));
    assert forall|i: int, j: int|
        0 <= i < d.nrows_view() && 0 <= j < d.ncols_view() implies #[trigger] d.at(i, j) == m.at(j, i) by {
        assert(t.column_views()[j] == (T::elem_dtype(), None::<Seq<char>>, cells_of(m.rows_view()[j])));
        assert(m.rows_view()[j].len() == m.ncols_view());
        assert(T::to_cell(d.at(i, j)) == T::to_cell(m.at(j, i)));
        T::lemma_cell(d.at(i, j));
        T::lemma_cell(m.at(j, i));
    }
}

/// The keys at positions `pos`.
pub open spec fn keys_at(keys: Seq<Seq<char>>, pos: Seq<usize>) -> Seq<Seq<char>> {
    pos.map_values(|p: usize| keys[p as int])
}

/// `s` without repeats, each element where it first occurs.
pub open spec fn first_occurrences(s: Seq<Seq<char>>) -> Seq<Seq<char>>
    decreases s.len(),
{
    if s.len() == 0 {
        s
    } else {
        let p = first_occurrences(s.drop_last());
        if p.contains(s.last()) {
            p
        } else {
            p.push(s.last())
        }
    }
}

/// Keys that are not among `names`.
pub open spec fn not_in(names: Seq<Seq<char>>) -> spec_fn(Seq<char>) -> bool {
    |k: Seq<char>| !names.contains(k)
}

/// `r` draws its columns from `t`: each key of `r` is a key of `t` and carries
/// the same column, and `r` has `t`'s index where it has a column.
pub open spec fn drawn_from(t: DataMatrix, r: DataMatrix) -> bool {
    &&& r.wf()
    &&& forall|j: int| 0 <= j < r.ncols_spec() ==> t.key_views().contains(#[trigger] r.key_views()[j])
    &&& forall|j: int|
        0 <= j < r.ncols_spec() ==> #[trigger] r.column_views()[j] == t.column_views()[t.key_views().index_of(
            r.key_views()[j],
        )]
    &&& r.index_views() == if r.ncols_spec() > 0 {
        t.index_views()
    } else {
        Seq::<Seq<char>>::empty()
    }
}

/// What `get_columns(names)` returns on success.
pub open spec fn select_post(t: DataMatrix, names: Seq<Seq<char>>, r: DataMatrix) -> bool {
    &&& drawn_from(t, r)
    &&& r.key_views() == first_occurrences(names)
}

/// What `exclude_columns(names)` returns.
pub open spec fn exclude_post(t: DataMatrix, names: Seq<Seq<char>>, r: DataMatrix) -> bool {
    &&& drawn_from(t, r)
    &&& r.key_views() == t.key_views().filter(not_in(names))
}

proof fn lemma_index_of_unique(s: Seq<Seq<char>>, k: int)
    requires
        s.no_duplicates(),
        0 <= k < s.len(),
    ensures
        s.index_of(s[k]) == k,
{
    assert(s.contains(s[k]));
}

proof fn lemma_filter_no_duplicates(s: Seq<Seq<char>>, p: spec_fn(Seq<char>) -> bool)
    requires
        s.no_duplicates(),
    ensures
        s.filter(p).no_duplicates(),
    decreases s.len(),
{
    reveal(Seq::filter);
    if s.len() > 0 {
        let rest = s.drop_last();
        assert(rest.no_duplicates());
        lemma_filter_no_duplicates(rest, p);
        if p(s.last()) {
            if rest.filter(p).contains(s.last()) {
                rest.lemma_filter_contains_rev(p, s.last());
                let k = choose|k: int| 0 <= k < rest.len() && rest[k] == s.last();
                assert(s[k] == s[s.len() - 1]);
            }
        }
    }
}

proof fn lemma_first_occurrences_of_distinct(s: Seq<Seq<char>>)
    requires
        s.no_duplicates(),
    ensures
        first_occurrences(s) == s,
    decreases s.len(),
{
    if s.len() > 0 {
        let rest = s.drop_last();
        assert(rest.no_duplicates());
        lemma_first_occurrences_of_distinct(rest);
        if rest.contains(s.last()) {
            let k = choose|k: int| 0 <= k < rest.len() && rest[k] == s.last();
            assert(s[k] == s[s.len() - 1]);
        }
        assert(rest.push(s.last()) =~= s);
    }
}

/// Excluding `names` gives the same table as selecting, in table order, the
/// keys that are not among `names`: the same keys, columns and index. That
/// selection names only keys of the table, so it succeeds.
pub proof fn lemma_exclude_is_select_of_rest(
    t: DataMatrix,
    names: Seq<Seq<char>>,
    ex: DataMatrix,
    sel: DataMatrix,
)
    requires
        t.wf(),
        exclude_post(t, names, ex),
        select_post(t, t.key_views().filter(not_in(names)), sel),
    ensures
        forall|i: int|
            0 <= i < t.key_views().filter(not_in(names)).len() ==> t.key_views().contains(
                #[trigger] t.key_views().filter(not_in(names))[i],
            ),
        ex.key_views() == sel.key_views(),
        ex.column_views() == sel.column_views(),
        ex.index_views() == sel.index_views(),
{
    let rest = t.key_views().filter(not_in(names));
    lemma_filter_no_duplicates(t.key_views(), not_in(names));
    lemma_first_occurrences_of_distinct(rest);
    assert forall|i: int| 0 <= i < rest.len() implies t.key_views().contains(#[trigger] rest[i]) by {
        assert(rest.contains(rest[i]));
        t.key_views().lemma_filter_contains_rev(not_in(names), rest[i]);
    }
    assert(ex.column_views().len() == sel.column_views().len());
    assert forall|j: int| 0 <= j < ex.column_views().len() implies ex.column_views()[j]
        == sel.column_views()[j] by {
        assert(ex.column_views()[j] == t.column_views()[t.key_views().index_of(ex.key_views()[j])]);
        assert(sel.column_views()[j] == t.column_views()[t.key_views().index_of(sel.key_views()[j])]);
    }
    assert(ex.column_views() =~= sel.column_views());
}

/// Every column of a table has the length of every other, whatever sequence of
/// its operations built it: each of them keeps `wf`.
pub proof fn lemma_columns_equal_length(t: DataMatrix)
    requires
        t.wf(),
    ensures
        forall|i: int, j: int|
            0 <= i < t.ncols_spec() && 0 <= j < t.ncols_spec() ==> #[trigger] t.column_views()[i].2.len()
                == #[trigger] t.column_views()[j].2.len(),
{
}

/// `name` is the key of a float column of `t`.
pub open spec fn float_key(t: DataMatrix, name: Seq<char>) -> bool {
    t.key_views().contains(name) && t.column_views()[t.key_views().index_of(name)].0 == DType::Float
}

/// `rows` holds, row by row, the values of the columns of `t` under `names`.
pub open spec fn feature_rows_post(t: DataMatrix, names: Seq<Seq<char>>, rows: Seq<Vec<u64>>) -> bool {
    &&& rows.len() == t.nrows_spec()
    &&& forall|a: int| 0 <= a < rows.len() ==> #[trigger] rows[a]@.len() == names.len()
    &&& forall|a: int, b: int|
        0 <= a < rows.len() && 0 <= b < names.len() ==> Cell::Float(#[trigger] rows[a]@[b])
            == t.column_views()[t.key_views().index_of(names[b])].2[a]
}

} // verus!
