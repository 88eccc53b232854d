use vstd::prelude::*;

use crate::errors::DataLoaderError;

verus! {

/// The element type of a column.
#[derive(Clone, Copy, Debug, PartialEq, Eq, Structural)]
pub enum DType {
    Bool,
    Int,
    /// 64-bit IEEE-754 floats, held as their bit patterns.
    Float,
    Text,
}

/// One value of a row, tagged with its element type.
#[derive(Debug)]
pub enum Cell {
    Bool(bool),
    Int(i64),
    /// A 64-bit IEEE-754 float given by its bit pattern.
    Float(u64),
    Text(String),
}

impl Cell {
    pub open spec fn dtype_spec(&self) -> DType {
        match self {
            Cell::Bool(_) => DType::Bool,
            Cell::Int(_) => DType::Int,
            Cell::Float(_) => DType::Float,
            Cell::Text(_) => DType::Text,
        }
    }
}

/// A homogeneous sequence of values of one type, with an optional name.
#[derive(Debug)]
pub struct DataVector<T> {
    label: Option<String>,
    data: Vec<T>,
}

/// The view of an optional string.
pub open spec fn opt_view(s: Option<String>) -> Option<Seq<char>> {
    match s {
        Some(t) => Some(t@),
        None => None,
    }
}

fn copy_label(label: &Option<String>) -> (r: Option<String>)
    ensures
        r == *label,
{
    match label {
        Some(s) => Some(s.clone()),
        None => None,
    }
}

impl<T> View for DataVector<T> {
    type V = Seq<T>;

    closed spec fn view(&self) -> Seq<T> {
        self.data@
    }
}

impl<T> DataVector<T> {
    /// The column's name, if it has one.
    pub closed spec fn label_spec(&self) -> Option<String> {
        self.label
    }

    /// An empty, unnamed column.
    pub fn new() -> (r: Self)
        ensures
            r@ == Seq::<T>::empty(),
            r.label_spec() is None,
    {
        DataVector { label: None, data: Vec::new() }
    }

    /// An unnamed column holding `vec`.
    pub fn from_vec(vec: Vec<T>) -> (r: Result<Self, DataLoaderError>)
        ensures
            r matches Ok(v) && v@ == vec@ && v.label_spec() is None,
    {
        Ok(DataVector { label: None, data: vec })
    }

    /// The number of values.
    pub fn len(&self) -> (r: usize)
        ensures
            r == self@.len(),
    {
        self.data.len()
    }

    /// Names the column `label`.
    pub fn add_label(&mut self, label: &str)
        ensures
            final(self)@ == old(self)@,
            opt_view(final(self).label_spec()) == Some(label@),
    {
        self.label = Some(label.to_string());
    }

    /// The column's name, if it has one.
    pub fn get_label(&self) -> (r: Option<String>)
        ensures
            r == self.label_spec(),
    {
        copy_label(&self.label)
    }

    /// The values, borrowed.
    pub fn get_data(&self) -> (r: &Vec<T>)
        ensures
            r@ == self@,
    {
        &self.data
    }

    /// The value at `index`, if there is one.
    pub fn get(&self, index: usize) -> (r: Option<&T>)
        ensures
            index < self@.len() ==> r == Some(&self@[index as int]),
            index >= self@.len() ==> r is None,
    {
        if index < self.data.len() {
            Some(&self.data[index])
        } else {
            None
        }
    }

    /// Appends one value.
    pub fn push(&mut self, value: T)
        ensures
            final(self)@ == old(self)@.push(value),
            final(self).label_spec() == old(self).label_spec(),
    {
        self.data.push(value);
    }
}

impl<T: ColumnElement> DataVector<T> {
    /// A copy of the values.
    pub fn to_vec(&self) -> (r: Vec<T>)
        ensures
            r@ == self@,
    {
        copy_values(&self.data)
    }

    /// A copy of the column, name included.
    pub fn duplicate(&self) -> (r: Self)
        ensures
            r@ == self@,
            r.label_spec() == self.label_spec(),
    {
        DataVector { label: copy_label(&self.label), data: copy_values(&self.data) }
    }
}

/// The cells that hold the values of `s`.
pub open spec fn cells_of<T: ColumnElement>(s: Seq<T>) -> Seq<Cell> {
    s.map_values(|x: T| T::to_cell(x))
}

/// A copy of `v`, value by value.
pub fn copy_values<T: ColumnElement>(v: &Vec<T>) -> (r: Vec<T>)
    ensures
        r@ == v@,
{
    let mut out: Vec<T> = Vec::with_capacity(v.len());
    let mut i: usize = 0;
    while i < v.len()
        invariant
            i <= v@.len(),
            out@ == v@.subrange(0, i as int),
        decreases v@.len() - i,
    {
        out.push(v[i].duplicate());
        i = i + 1;
    }
    assert(out@ =~= v@);
    out
}

/// A column of any of the supported element types.
#[derive(Debug)]
pub enum Column {
    Bool(DataVector<bool>),
    Int(DataVector<i64>),
    Float(DataVector<u64>),
    Text(DataVector<String>),
}

/// A column as the contracts see it: its type tag, its name and its values.
impl View for Column {
    type V = (DType, Option<Seq<char>>, Seq<Cell>);

    open spec fn view(&self) -> (DType, Option<Seq<char>>, Seq<Cell>) {
        (self.dtype_spec(), opt_view(self.label_of()), self.cells())
    }
}

impl Column {
    /// The values, each tagged with the column's type.
    pub open spec fn cells(&self) -> Seq<Cell> {
        Seq::new(self.len_spec(), |i: int| self.cell(i))
    }

    pub open spec fn dtype_spec(&self) -> DType {
        match self {
            Column::Bool(_) => DType::Bool,
            Column::Int(_) => DType::Int,
            Column::Float(_) => DType::Float,
            Column::Text(_) => DType::Text,
        }
    }

    pub open spec fn len_spec(&self) -> nat {
        match self {
            Column::Bool(v) => v@.len(),
            Column::Int(v) => v@.len(),
            Column::Float(v) => v@.len(),
            Column::Text(v) => v@.len(),
        }
    }

    pub open spec fn label_of(&self) -> Option<String> {
        match self {
            Column::Bool(v) => v.label_spec(),
            Column::Int(v) => v.label_spec(),
            Column::Float(v) => v.label_spec(),
            Column::Text(v) => v.label_spec(),
        }
    }

    /// The value at row `i`, tagged with the column's type.
    pub open spec fn cell(&self, i: int) -> Cell {
        match self {
            Column::Bool(v) => Cell::Bool(v@[i]),
            Column::Int(v) => Cell::Int(v@[i]),
            Column::Float(v) => Cell::Float(v@[i]),
            Column::Text(v) => Cell::Text(v@[i]),
        }
    }

    /// A copy of the column, name included.
    pub fn duplicate(&self) -> (r: Column)
        ensures
            r@ == self@,
    {
        match self {
            Column::Bool(v) => {
                let c = v.duplicate();
                proof { assert(Column::Bool(c)@.2 =~= self@.2); }
                Column::Bool(c)
            },
            Column::Int(v) => {
                let c = v.duplicate();
                proof { assert(Column::Int(c)@.2 =~= self@.2); }
                Column::Int(c)
            },
            Column::Float(v) => {
                let c = v.duplicate();
                proof { assert(Column::Float(c)@.2 =~= self@.2); }
                Column::Float(c)
            },
            Column::Text(v) => {
                let c = v.duplicate();
                proof { assert(Column::Text(c)@.2 =~= self@.2); }
                Column::Text(c)
            },
        }
    }
}

/// An element type that a column can hold: the typed side of a [`Column`].
pub trait ColumnElement: Sized {
    /// The type tag of a column of this element type.
    spec fn elem_dtype() -> DType;

    /// The typed view of `c`, where `c` holds this element type.
    spec fn typed(c: Column) -> Option<DataVector<Self>>;

    /// The column that holds `v`.
    spec fn wrapped(v: DataVector<Self>) -> Column;

    /// The value of this type that a cell holds, where it holds one.
    spec fn from_cell(c: Cell) -> Option<Self>;

    /// The cell that holds `x`.
    spec fn to_cell(x: Self) -> Cell;

    proof fn lemma_cell(x: Self)
        ensures
            Self::from_cell(Self::to_cell(x)) == Some(x),
            Self::to_cell(x).dtype_spec() == Self::elem_dtype(),
    ;

    proof fn lemma_wrapped(v: DataVector<Self>)
        ensures
            Self::typed(Self::wrapped(v)) == Some(v),
            Self::wrapped(v).dtype_spec() == Self::elem_dtype(),
            Self::wrapped(v).len_spec() == v@.len(),
            Self::wrapped(v).label_of() == v.label_spec(),
            forall|i: int|
                0 <= i < v@.len() ==> #[trigger] Self::wrapped(v).cell(i) == Self::to_cell(v@[i]),
    ;

    proof fn lemma_typed(c: Column)
        ensures
            (Self::typed(c) is Some) == (c.dtype_spec() == Self::elem_dtype()),
            Self::typed(c) is Some ==> Self::wrapped(Self::typed(c).unwrap()) == c,
            Self::typed(c) is Some ==> Self::typed(c).unwrap()@.len() == c.len_spec(),
            Self::typed(c) is Some ==> Self::typed(c).unwrap().label_spec() == c.label_of(),
            forall|i: int|
                0 <= i < c.len_spec() && Self::typed(c) is Some ==> #[trigger] c.cell(i)
                    == Self::to_cell(Self::typed(c).unwrap()@[i]),
    ;

    fn dtype_of() -> (r: DType)
        ensures
            r == Self::elem_dtype(),
    ;

    fn duplicate(&self) -> (r: Self)
        ensures
            r == *self,
    ;

    fn wrap(v: DataVector<Self>) -> (c: Column)
        ensures
            c == Self::wrapped(v),
    ;

    fn downcast(c: &Column) -> (r: Option<&DataVector<Self>>)
        ensures
            (r is Some) == (Self::typed(*c) is Some),
            r is Some ==> *r.unwrap() == Self::typed(*c).unwrap(),
    ;
}

impl ColumnElement for bool {
    open spec fn elem_dtype() -> DType {
        DType::Bool
    }

    open spec fn typed(c: Column) -> Option<DataVector<bool>> {
        match c {
            Column::Bool(v) => Some(v),
            _ => None,
        }
    }

    open spec fn wrapped(v: DataVector<bool>) -> Column {
        Column::Bool(v)
    }

    open spec fn from_cell(c: Cell) -> Option<bool> {
        match c {
            Cell::Bool(b) => Some(b),
            _ => None,
        }
    }

    open spec fn to_cell(x: bool) -> Cell {
        Cell::Bool(x)
    }

    proof fn lemma_cell(x: bool) {
    }

    proof fn lemma_wrapped(v: DataVector<bool>) {
    }

    proof fn lemma_typed(c: Column) {
    }

    fn dtype_of() -> DType {
        DType::Bool
    }

    fn duplicate(&self) -> bool {
        *self
    }

    fn wrap(v: DataVector<bool>) -> Column {
        Column::Bool(v)
    }

    fn downcast(c: &Column) -> Option<&DataVector<bool>> {
        match c {
            Column::Bool(v) => Some(v),
            _ => None,
        }
    }
}

impl ColumnElement for i64 {
    open spec fn elem_dtype() -> DType {
        DType::Int
    }

    open spec fn typed(c: Column) -> Option<DataVector<i64>> {
        match c {
            Column::Int(v) => Some(v),
            _ => None,
        }
    }

    open spec fn wrapped(v: DataVector<i64>) -> Column {
        Column::Int(v)
    }

    open spec fn from_cell(c: Cell) -> Option<i64> {
        match c {
            Cell::Int(b) => Some(b),
            _ => None,
        }
    }

    open spec fn to_cell(x: i64) -> Cell {
        Cell::Int(x)
    }

    proof fn lemma_cell(x: i64) {
    }

    proof fn lemma_wrapped(v: DataVector<i64>) {
    }

    proof fn lemma_typed(c: Column) {
    }

    fn dtype_of() -> DType {
        DType::Int
    }

    fn duplicate(&self) -> i64 {
        *self
    }

    fn wrap(v: DataVector<i64>) -> Column {
        Column::Int(v)
    }

    fn downcast(c: &Column) -> Option<&DataVector<i64>> {
        match c {
            Column::Int(v) => Some(v),
            _ => None,
        }
    }
}

/// Float columns hold the IEEE-754 bit patterns of their values.
impl ColumnElement for u64 {
    open spec fn elem_dtype() -> DType {
        DType::Float
    }

    open spec fn typed(c: Column) -> Option<DataVector<u64>> {
        match c {
            Column::Float(v) => Some(v),
            _ => None,
        }
    }

    open spec fn wrapped(v: DataVector<u64>) -> Column {
        Column::Float(v)
    }

    open spec fn from_cell(c: Cell) -> Option<u64> {
        match c {
            Cell::Float(b) => Some(b),
            _ => None,
        }
    }

    open spec fn to_cell(x: u64) -> Cell {
        Cell::Float(x)
    }

    proof fn lemma_cell(x: u64) {
    }

    proof fn lemma_wrapped(v: DataVector<u64>) {
    }

    proof fn lemma_typed(c: Column) {
    }

    fn dtype_of() -> DType {
        DType::Float
    }

    fn duplicate(&self) -> u64 {
        *self
    }

    fn wrap(v: DataVector<u64>) -> Column {
        Column::Float(v)
    }

    fn downcast(c: &Column) -> Option<&DataVector<u64>> {
        match c {
            Column::Float(v) => Some(v),
            _ => None,
        }
    }
}

impl ColumnElement for String {
    open spec fn elem_dtype() -> DType {
        DType::Text
    }

    open spec fn typed(c: Column) -> Option<DataVector<String>> {
        match c {
            Column::Text(v) => Some(v),
            _ => None,
        }
    }

    open spec fn wrapped(v: DataVector<String>) -> Column {
        Column::Text(v)
    }

    open spec fn from_cell(c: Cell) -> Option<String> {
        match c {
            Cell::Text(b) => Some(b),
            _ => None,
        }
    }

    open spec fn to_cell(x: String) -> Cell {
        Cell::Text(x)
    }

    proof fn lemma_cell(x: String) {
    }

    proof fn lemma_wrapped(v: DataVector<String>) {
    }

    proof fn lemma_typed(c: Column) {
    }

    fn dtype_of() -> DType {
        DType::Text
    }

    fn duplicate(&self) -> String {
        self.clone()
    }

    fn wrap(v: DataVector<String>) -> Column {
        Column::Text(v)
    }

    fn downcast(c: &Column) -> Option<&DataVector<String>> {
        match c {
            Column::Text(v) => Some(v),
            _ => None,
        }
    }
}

/// The typed view of a column, where it holds values of type `T`.
pub fn downcast_ref<T: ColumnElement>(v: &Column) -> (r: Option<&DataVector<T>>)
    ensures
        (r is Some) == (T::typed(*v) is Some),
        r is Some ==> *r.unwrap() == T::typed(*v).unwrap(),
        (r is Some) == (v.dtype_spec() == T::elem_dtype()),
{
    proof {
        T::lemma_typed(*v);
    }
    T::downcast(v)
}

/// What every column offers whatever its element type.
pub trait TDataVector: Sized {
    spec fn len_view(&self) -> nat;

    spec fn dtype_view(&self) -> DType;

    spec fn label_view(&self) -> Option<String>;

    /// The value at row `i`.
    spec fn cell_view(&self, i: int) -> Cell;

    fn len(&self) -> (r: usize)
        ensures
            r == self.len_view(),
    ;

    fn dtype(&self) -> (r: DType)
        ensures
            r == self.dtype_view(),
    ;

    fn add_label(&mut self, label: &str)
        ensures
            final(self).len_view() == old(self).len_view(),
            final(self).dtype_view() == old(self).dtype_view(),
            opt_view(final(self).label_view()) == Some(label@),
            forall|i: int| 0 <= i < old(self).len_view() ==> #[trigger] final(self).cell_view(i) == old(self).cell_view(i),
    ;

    fn get_label(&self) -> (r: Option<String>)
        ensures
            r == self.label_view(),
    ;

    /// Appends `value`, which must be of the column's element type.
    fn append(&mut self, value: Cell) -> (r: Result<(), DataLoaderError>)
        ensures
            final(self).dtype_view() == old(self).dtype_view(),
            final(self).label_view() == old(self).label_view(),
            (r is Ok) == (value.dtype_spec() == old(self).dtype_view()),
            r is Ok ==> final(self).len_view() == old(self).len_view() + 1,
            r is Ok ==> final(self).cell_view(old(self).len_view() as int) == value,
            r is Err ==> r == Err::<(), _>(DataLoaderError::TypeMismatch) && *final(self) == *old(self),
            forall|i: int| 0 <= i < old(self).len_view() ==> #[trigger] final(self).cell_view(i) == old(self).cell_view(i),
    ;
}

impl TDataVector for Column {
    open spec fn len_view(&self) -> nat {
        self.len_spec()
    }

    open spec fn dtype_view(&self) -> DType {
        self.dtype_spec()
    }

    open spec fn label_view(&self) -> Option<String> {
        self.label_of()
    }

    open spec fn cell_view(&self, i: int) -> Cell {
        self.cell(i)
    }

    fn len(&self) -> usize {
        match self {
            Column::Bool(v) => v.len(),
            Column::Int(v) => v.len(),
            Column::Float(v) => v.len(),
            Column::Text(v) => v.len(),
        }
    }

    fn dtype(&self) -> DType {
        match self {
            Column::Bool(_) => DType::Bool,
            Column::Int(_) => DType::Int,
            Column::Float(_) => DType::Float,
            Column::Text(_) => DType::Text,
        }
    }

    fn add_label(&mut self, label: &str) {
        match self {
            Column::Bool(v) => v.add_label(label),
            Column::Int(v) => v.add_label(label),
            Column::Float(v) => v.add_label(label),
            Column::Text(v) => v.add_label(label),
        }
    }

    fn get_label(&self) -> Option<String> {
        match self {
            Column::Bool(v) => v.get_label(),
            Column::Int(v) => v.get_label(),
            Column::Float(v) => v.get_label(),
            Column::Text(v) => v.get_label(),
        }
    }

    fn append(&mut self, value: Cell) -> Result<(), DataLoaderError> {
        match (self, value) {
            (Column::Bool(v), Cell::Bool(x)) => {
                v.push(x);
                Ok(())
            },
            (Column::Int(v), Cell::Int(x)) => {
                v.push(x);
                Ok(())
            },
            (Column::Float(v), Cell::Float(x)) => {
                v.push(x);
                Ok(())
            },
            (Column::Text(v), Cell::Text(x)) => {
                v.push(x);
                Ok(())
            },
            _ => Err(DataLoaderError::TypeMismatch),
        }
    }
}

} // verus!
