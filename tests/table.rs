use veracity::data_matrix::DataMatrix;
use veracity::data_vector::{downcast_ref, Cell, Column, DType, DataVector, TDataVector};
use veracity::dense::DenseMatrix;
use veracity::errors::DataLoaderError;

fn bits(v: &[f64]) -> Vec<u64> {
    v.iter().map(|x| x.to_bits()).collect()
}

fn two_column_table() -> DataMatrix {
    let mut t = DataMatrix::new();
    t.add_column(bits(&[1.0, 2.0, 3.0]), Some("a")).unwrap();
    t.add_column(vec![10i64, 20, 30], Some("b")).unwrap();
    t
}

#[test]
fn add_column_keeps_lengths_equal() {
    let mut t = two_column_table();
    assert_eq!(t.nrows(), 3);
    assert_eq!(t.ncols(), 2);
    let r = t.add_column(vec![true, false], Some("c"));
    assert!(matches!(r, Err(DataLoaderError::RowCountMismatch)));
    assert_eq!(t.ncols(), 2);
    t.add_column(vec![true, false, true], Some("c")).unwrap();
    for j in 0..t.ncols() {
        assert_eq!(t.column_at(j).unwrap().len(), 3);
    }
}

#[test]
fn add_column_rejects_duplicate_label() {
    let mut t = two_column_table();
    let r = t.add_column(vec![1i64, 2, 3], Some("a"));
    assert!(matches!(r, Err(DataLoaderError::DuplicateLabel)));
    assert_eq!(t.ncols(), 2);
}

#[test]
fn unnamed_columns_are_keyed_by_position() {
    let mut t = DataMatrix::new();
    t.add_column(vec![1i64], None).unwrap();
    t.add_column(vec![2i64], None).unwrap();
    assert_eq!(t.get_keys(), vec!["0".to_string(), "1".to_string()]);
    let c = t.get_column::<i64>("1").unwrap();
    assert_eq!(c.to_vec(), vec![2i64]);
    assert_eq!(c.get_label(), None);
}

#[test]
fn add_row_appends_to_every_column() {
    let mut t = two_column_table();
    t.add_row(vec![Cell::Float(4.0f64.to_bits()), Cell::Int(40)], "r3").unwrap();
    assert_eq!(t.nrows(), 4);
    assert_eq!(t.get_column::<i64>("b").unwrap().to_vec(), vec![10i64, 20, 30, 40]);
    // the table had no index, so the key is not recorded
    assert!(t.get_index().is_empty());
}

#[test]
fn add_row_checks_arity_and_types() {
    let mut t = two_column_table();
    let r = t.add_row(vec![Cell::Int(1)], "x");
    assert!(matches!(r, Err(DataLoaderError::GenericError(_))));
    let r = t.add_row(vec![Cell::Int(1), Cell::Int(2)], "x");
    assert!(matches!(r, Err(DataLoaderError::TypeMismatch)));
    assert_eq!(t.nrows(), 3);
    let mut empty = DataMatrix::new();
    assert!(matches!(empty.add_row(vec![], "x"), Err(DataLoaderError::NoData)));
}

#[test]
fn add_row_records_key_in_index() {
    let mut t = two_column_table();
    t.set_index(vec!["x", "y", "z"]).unwrap();
    let r = t.add_row(vec![Cell::Float(0), Cell::Int(0)], "y");
    assert!(matches!(r, Err(DataLoaderError::DuplicateIndex)));
    t.add_row(vec![Cell::Float(0), Cell::Int(0)], "w").unwrap();
    assert_eq!(t.get_index(), vec!["x", "y", "z", "w"]);
}

#[test]
fn set_index_checks_length_and_uniqueness() {
    let mut t = two_column_table();
    assert!(matches!(t.set_index(vec!["x", "y"]), Err(DataLoaderError::RowCountMismatch)));
    assert!(matches!(t.set_index(vec!["x", "y", "x"]), Err(DataLoaderError::DuplicateIndex)));
    assert!(t.get_index().is_empty());
    t.set_index(vec!["x", "y", "z"]).unwrap();
    assert_eq!(t.get_index(), vec!["x", "y", "z"]);
}

#[test]
fn type_heterogeneity() {
    let empty = DataMatrix::new();
    assert!(matches!(empty.is_type_heterogeneous(), Err(DataLoaderError::NoData)));
    let t = two_column_table();
    assert_eq!(t.is_type_heterogeneous().unwrap(), true);
    let mut h = DataMatrix::new();
    h.add_column(vec![1i64], Some("a")).unwrap();
    h.add_column(vec![2i64], Some("b")).unwrap();
    assert_eq!(h.is_type_heterogeneous().unwrap(), false);
}

#[test]
fn to_dense_matrix_errors() {
    let empty = DataMatrix::new();
    assert!(matches!(empty.to_dense_matrix::<u64>(), Err(DataLoaderError::NoData)));
    let t = two_column_table();
    assert!(matches!(t.to_dense_matrix::<u64>(), Err(DataLoaderError::HeterogeneousDataTypes)));
    let mut h = DataMatrix::new();
    h.add_column(vec![1i64], Some("a")).unwrap();
    assert!(matches!(h.to_dense_matrix::<u64>(), Err(DataLoaderError::TypeMismatch)));
}

#[test]
fn to_dense_matrix_is_row_major() {
    let mut t = DataMatrix::new();
    t.add_column(vec![1i64, 2, 3], Some("a")).unwrap();
    t.add_column(vec![4i64, 5, 6], Some("b")).unwrap();
    let d = t.to_dense_matrix::<i64>().unwrap();
    assert_eq!(d.nrows(), 3);
    assert_eq!(d.ncols(), 2);
    assert_eq!(d.rows(), &vec![vec![1i64, 4], vec![2, 5], vec![3, 6]]);
}

#[test]
fn dense_round_trip_transposes() {
    let m = DenseMatrix::from_rows(3, vec![bits(&[1.0, 2.0, 3.0]), bits(&[4.0, 5.0, 6.0])]).unwrap();
    let t = DataMatrix::from_dense_matrix(&m).unwrap();
    assert_eq!(t.ncols(), 2);
    assert_eq!(t.nrows(), 3);
    assert_eq!(t.get_keys(), vec!["0".to_string(), "1".to_string()]);
    let d = t.to_dense_matrix::<u64>().unwrap();
    assert_eq!(d.nrows(), 3);
    assert_eq!(d.ncols(), 2);
    for i in 0..3 {
        for j in 0..2 {
            assert_eq!(d.get(i, j), m.get(j, i));
        }
    }
    assert_eq!(f64::from_bits(*d.get(2, 1)), 6.0);
}

#[test]
fn from_dense_matrix_keys_reach_two_digits() {
    let rows: Vec<Vec<i64>> = (0..11).map(|i| vec![i as i64]).collect();
    let m = DenseMatrix::from_rows(1, rows).unwrap();
    let t = DataMatrix::from_dense_matrix(&m).unwrap();
    let keys = t.get_keys();
    assert_eq!(keys.len(), 11);
    assert_eq!(keys[10], "10");
    assert_eq!(t.get_column::<i64>("10").unwrap().to_vec(), vec![10i64]);
}

#[test]
fn dense_rows_must_have_equal_length() {
    let r = DenseMatrix::from_rows(2, vec![vec![1i64, 2], vec![3i64]]);
    assert!(matches!(r, Err(DataLoaderError::HeterogeneousColumnLengths)));
}

#[test]
fn exclude_equals_select_of_rest() {
    let mut t = two_column_table();
    t.add_column(vec![true, false, true], Some("c")).unwrap();
    t.set_index(vec!["x", "y", "z"]).unwrap();
    let ex = t.exclude_columns(vec!["b", "missing"]).unwrap();
    let sel = t.get_columns(vec!["a", "c"]).unwrap();
    assert_eq!(ex.get_keys(), sel.get_keys());
    assert_eq!(ex.get_keys(), vec!["a".to_string(), "c".to_string()]);
    assert_eq!(ex.get_index(), sel.get_index());
    assert_eq!(ex.get_column::<bool>("c").unwrap().to_vec(), sel.get_column::<bool>("c").unwrap().to_vec());
    let one = t.exclude_column("a").unwrap();
    assert_eq!(one.get_keys(), vec!["b".to_string(), "c".to_string()]);
}

#[test]
fn get_columns_requires_known_names_and_dedups() {
    let t = two_column_table();
    assert!(matches!(t.get_columns(vec!["a", "zz"]), Err(DataLoaderError::GenericError(_))));
    let s = t.get_columns(vec!["b", "a", "b"]).unwrap();
    assert_eq!(s.get_keys(), vec!["b".to_string(), "a".to_string()]);
}

#[test]
fn get_column_checks_type() {
    let t = two_column_table();
    assert!(matches!(t.get_column::<i64>("a"), Err(DataLoaderError::TypeMismatch)));
    assert!(matches!(t.get_column::<i64>("q"), Err(DataLoaderError::GenericError(_))));
    let a = t.get_column::<u64>("a").unwrap();
    assert_eq!(a.get_label(), Some("a".to_string()));
    assert_eq!(f64::from_bits(a.to_vec()[1]), 2.0);
}

#[test]
fn column_handle_append_and_downcast() {
    let mut c = Column::Text(DataVector::from_vec(vec!["x".to_string()]).unwrap());
    assert_eq!(c.dtype(), DType::Text);
    assert!(matches!(c.append(Cell::Int(3)), Err(DataLoaderError::TypeMismatch)));
    c.append(Cell::Text("y".to_string())).unwrap();
    assert_eq!(c.len(), 2);
    c.add_label("names");
    assert_eq!(c.get_label(), Some("names".to_string()));
    assert!(downcast_ref::<i64>(&c).is_none());
    let v = downcast_ref::<String>(&c).unwrap();
    assert_eq!(v.to_vec(), vec!["x".to_string(), "y".to_string()]);
}

#[test]
fn from_vec_keys_and_errors() {
    let mut named = DataVector::from_vec(vec![1i64, 2]).unwrap();
    named.add_label("n");
    let cols = vec![Column::Int(named), Column::Bool(DataVector::from_vec(vec![true, false]).unwrap())];
    let t = DataMatrix::from_vec(cols).unwrap();
    assert_eq!(t.get_keys(), vec!["n".to_string(), "1".to_string()]);
    let bad = vec![
        Column::Int(DataVector::from_vec(vec![1i64, 2]).unwrap()),
        Column::Int(DataVector::from_vec(vec![1i64]).unwrap()),
    ];
    assert!(matches!(DataMatrix::from_vec(bad), Err(DataLoaderError::RowCountMismatch)));
    let mut one = DataVector::from_vec(vec![1i64]).unwrap();
    one.add_label("0");
    let dup = vec![Column::Int(DataVector::from_vec(vec![1i64]).unwrap()), Column::Int(one)];
    assert!(matches!(DataMatrix::from_vec(dup), Err(DataLoaderError::DuplicateLabel)));
}

#[test]
fn dense_matrix_rows_and_entries() {
    let m = DenseMatrix::from_rows(2, vec![vec![1i64, 2], vec![3, 4], vec![5, 6]]).unwrap();
    assert_eq!(m.nrows(), 3);
    assert_eq!(m.row(1), vec![3i64, 4]);
    assert_eq!(*m.get(2, 0), 5);
}

#[test]
fn unnamed_column_never_collides_with_a_name() {
    let mut t = DataMatrix::new();
    t.add_column(vec![1i64], Some("1")).unwrap();
    t.add_column(vec![2i64], None).unwrap();
    t.add_column(vec![3i64], Some("1_")).unwrap_err();
    t.add_column(vec![4i64], Some("2_")).unwrap();
    t.add_column(vec![5i64], None).unwrap();
    assert_eq!(t.get_keys(), vec!["1".to_string(), "1_".to_string(), "2_".to_string(), "3".to_string()]);
    let mut u = DataMatrix::new();
    u.add_column(vec![1i64], Some("0")).unwrap();
    u.add_column(vec![2i64], Some("1")).unwrap();
    u.add_column(vec![3i64], Some("2")).unwrap();
    u.add_column(vec![4i64], Some("3_")).unwrap();
    u.add_column(vec![5i64], Some("4")).unwrap();
    u.add_column(vec![6i64], None).unwrap();
    assert_eq!(u.get_keys()[5], "5");
}

#[test]
fn from_vec_gives_unnamed_columns_free_keys() {
    let mut named = DataVector::from_vec(vec![1i64]).unwrap();
    named.add_label("1");
    let cols = vec![Column::Int(named), Column::Int(DataVector::from_vec(vec![2i64]).unwrap())];
    let t = DataMatrix::from_vec(cols).unwrap();
    assert_eq!(t.get_keys(), vec!["1".to_string(), "1_".to_string()]);
}
