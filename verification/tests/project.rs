use fp_study::project::{category_groups, data_lines, filter_by_category, record_fields, Record};

const SAMPLE_CSV: &str = "name,category,value
Alice,food,100.0
Bob,food,200.0
Carol,tech,500.0
Dave,food,50.0
Eve,tech,300.0
Frank,travel,150.0";

fn rec(name: &str, category: &str, value: f64) -> Record<f64> {
    Record { name: name.to_string(), category: category.to_string(), value }
}

#[test]
fn test_data_lines_skip_header_and_blanks() {
    assert_eq!(data_lines(SAMPLE_CSV).len(), 6);
    assert_eq!(data_lines("h\r\na\r\n  \n\nb"), vec!["a", "b"]);
    assert_eq!(data_lines(""), Vec::<String>::new());
    assert_eq!(data_lines("only header\n"), Vec::<String>::new());
}

#[test]
fn test_record_fields_split_and_trim() {
    assert_eq!(
        record_fields("Alice, food, 100.0"),
        Some(("Alice".to_string(), "food".to_string(), "100.0".to_string()))
    );
    assert_eq!(
        record_fields("a,b,c,d"),
        Some(("a".to_string(), "b".to_string(), "c,d".to_string()))
    );
    assert_eq!(record_fields("invalid"), None);
    assert_eq!(record_fields("one,comma"), None);
}

#[test]
fn test_filter_and_group_by_category() {
    let records = vec![
        rec("Alice", "food", 100.0),
        rec("Carol", "tech", 500.0),
        rec("Bob", "food", 200.0),
        rec("Frank", "travel", 150.0),
    ];
    let food = filter_by_category(&records, "food");
    assert_eq!(food.len(), 2);
    assert_eq!(food[1].name, "Bob");
    let groups = category_groups(&records);
    assert_eq!(
        groups,
        vec![
            ("food".to_string(), vec![0, 2]),
            ("tech".to_string(), vec![1]),
            ("travel".to_string(), vec![3]),
        ]
    );
    assert_eq!(category_groups::<f64>(&[]), vec![]);
}
