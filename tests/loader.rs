use veracity::csv_loader::{bool_values, is_bool_column, split_fields, trim, CSVLoader, CSVLoaderSettings};
use veracity::errors::DataLoaderError;

fn lines(v: &[&str]) -> Vec<String> {
    v.iter().map(|s| s.to_string()).collect()
}

#[test]
fn split_fields_keeps_empty_pieces() {
    assert_eq!(split_fields("a,b,,c", ','), vec!["a", "b", "", "c"]);
    assert_eq!(split_fields("", ','), vec![""]);
    assert_eq!(split_fields("x;y", ';'), vec!["x", "y"]);
}

#[test]
fn trim_cuts_unicode_white_space() {
    assert_eq!(trim("  a b \t"), "a b");
    assert_eq!(trim("\u{3000}x\u{a0}"), "x");
    assert_eq!(trim("   "), "");
}

#[test]
fn headers_from_the_first_line() {
    let l = CSVLoader::new(CSVLoaderSettings::default());
    assert_eq!(l.get_headers(&lines(&["a,b,c", "1,2,3"])).unwrap(), vec!["a", "b", "c"]);
    assert!(matches!(l.get_headers(&vec![]), Err(DataLoaderError::GenericError(_))));
}

#[test]
fn headers_given_by_name() {
    let l = CSVLoader::new(CSVLoaderSettings { header_names: lines(&["x", "y"]), ..CSVLoaderSettings::default() });
    assert_eq!(l.get_headers(&lines(&["1,2"])).unwrap(), vec!["x", "y"]);
    assert!(matches!(l.get_headers(&lines(&["1,2,3"])), Err(DataLoaderError::ColumnCountMismatch(_))));
}

#[test]
fn headers_placed_by_index() {
    let l = CSVLoader::new(CSVLoaderSettings { header_indices: vec![2, 0, 1], ..CSVLoaderSettings::default() });
    assert_eq!(l.get_headers(&lines(&["a,b,c"])).unwrap(), vec!["b", "c", "a"]);
    let far = CSVLoader::new(CSVLoaderSettings { header_indices: vec![9, 0], ..CSVLoaderSettings::default() });
    assert!(matches!(far.get_headers(&lines(&["a,b"])), Err(DataLoaderError::GenericError(_))));
    let twice = CSVLoader::new(CSVLoaderSettings { header_indices: vec![0, 0], ..CSVLoaderSettings::default() });
    assert!(matches!(twice.get_headers(&lines(&["a,b"])), Err(DataLoaderError::GenericError(_))));
    let short = CSVLoader::new(CSVLoaderSettings { header_indices: vec![0], ..CSVLoaderSettings::default() });
    assert!(matches!(short.get_headers(&lines(&["a,b"])), Err(DataLoaderError::ColumnCountMismatch(_))));
}

#[test]
fn records_are_split_and_trimmed() {
    let l = CSVLoader::new(CSVLoaderSettings::default());
    let recs = l.split_records(&lines(&["a,b", " 1 , 2", "   ", "3,4"]), 2).unwrap();
    assert_eq!(recs, vec![vec!["1", "2"], vec!["3", "4"]]);
    assert!(matches!(l.split_records(&lines(&["a,b", "1,2,3"]), 2), Err(DataLoaderError::ColumnCountMismatch(_))));
    let keep = CSVLoader::new(CSVLoaderSettings { skip_blank_lines: false, ..CSVLoaderSettings::default() });
    assert!(keep.split_records(&lines(&["a,b", ""]), 2).is_err());
}

#[test]
fn kept_range_skips_leading_and_trailing_records() {
    let l = CSVLoader::new(CSVLoaderSettings { skip_rows: 2, skip_footer: 1, n_rows: 10, ..CSVLoaderSettings::default() });
    assert_eq!(l.kept_range(8), (2, 7));
    assert_eq!(l.kept_range(1), (1, 1));
    let capped = CSVLoader::new(CSVLoaderSettings { skip_rows: 1, n_rows: 3, ..CSVLoaderSettings::default() });
    assert_eq!(capped.kept_range(8), (1, 4));
    let plain = CSVLoader::new(CSVLoaderSettings::default());
    assert_eq!(plain.kept_range(8), (0, 8));
    let footer = CSVLoader::new(CSVLoaderSettings { skip_rows: 5, skip_footer: 5, ..CSVLoaderSettings::default() });
    assert_eq!(footer.kept_range(8), (5, 5));
}

#[test]
fn boolean_columns_are_recognised() {
    assert!(is_bool_column(&lines(&["true", "false", "true"])));
    assert!(!is_bool_column(&lines(&["true", "yes"])));
    assert!(!is_bool_column(&lines(&["True"])));
    assert!(is_bool_column(&vec![]));
    assert_eq!(bool_values(&lines(&["true", "false"])), vec![true, false]);
}
