use ggc::data::parse_csv;

#[test]
fn test_load_csv_mixed_types() {
    let table = parse_csv("x,y,species\n1,2,setosa\n3,4,versicolor\n5,6,setosa\n").expect("Should load CSV");
    assert!(table.columns.contains(&"x".to_string()));
    assert!(table.columns.contains(&"species".to_string()));
    assert_eq!(table.values[0], vec!["1", "3", "5"]);
    let xs: Vec<f64> = table.values[0].iter().map(|s| s.parse::<f64>().unwrap()).collect();
    assert_eq!(xs, vec![1.0, 3.0, 5.0]);
    assert_eq!(table.values[2], vec!["setosa", "versicolor", "setosa"]);
}

#[test]
fn test_load_csv() {
    let table = parse_csv("x,y\n1.0,2.0\n3.0,4.0\n").expect("Should load CSV");
    assert_eq!(table.columns, vec!["x", "y"]);
    assert_eq!(table.values[1], vec!["2.0", "4.0"]);
}

#[test]
fn csv_trims_and_skips_blank_lines() {
    let table = parse_csv(" a , b \r\n\n  1 ,2\r\n   \n3,  4").unwrap();
    assert_eq!(table.columns, vec!["a", "b"]);
    assert_eq!(table.values, vec![vec!["1", "3"], vec!["2", "4"]]);
}

#[test]
fn csv_empty_is_an_error() {
    let err = parse_csv("").err().expect("Expected an error");
    assert_eq!(err.describe(), "Data error: CSV file is empty");
}

#[test]
fn csv_row_width_error() {
    let err = parse_csv("a,b\n1,2\n\n3\n").err().expect("Expected an error");
    assert_eq!(err.describe(), "Data error: Row 4 has 1 columns, expected 2");
}

#[test]
fn csv_header_only() {
    let table = parse_csv("a,b").unwrap();
    assert_eq!(table.columns, vec!["a", "b"]);
    assert_eq!(table.values, vec![Vec::<String>::new(), Vec::new()]);
}
