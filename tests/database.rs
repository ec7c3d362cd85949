use excel_database::{CellValue, ExcelDatabase, ExcelDbError, Row};

fn text(s: &str) -> CellValue {
    CellValue::Text(s.to_string())
}

fn row(pairs: &[(&str, &str)]) -> Row {
    let mut r = Row::new();
    for (k, v) in pairs {
        r.insert(k.to_string(), text(v));
    }
    r
}

fn grid(lines: &[&[&str]]) -> Vec<Vec<CellValue>> {
    lines.iter().map(|l| l.iter().map(|c| text(c)).collect()).collect()
}

fn people() -> ExcelDatabase {
    let g = grid(&[&["name", "age"], &["John Doe", "20"], &["Jane Doe", "29"]]);
    ExcelDatabase::new("people.xlsx".to_string(), None, Some(g)).unwrap()
}

fn texts_of(g: &[Vec<CellValue>]) -> Vec<Vec<String>> {
    g.iter()
        .map(|l| l.iter().map(|c| match c { CellValue::Text(s) => s.clone() }).collect())
        .collect()
}

#[test]
fn scenario_select_update_delete_lookup() {
    let mut db = people();
    let found = db.select(Some(&row(&[("name", "Jane Doe")]))).unwrap();
    assert_eq!(found.len(), 1);
    assert_eq!(found[0].get("age"), Some(&text("29")));

    db.update(&row(&[("name", "Jane Doe")]), &row(&[("age", "30")]));
    let found = db.select(Some(&row(&[("name", "Jane Doe")]))).unwrap();
    assert_eq!(found.len(), 1);
    assert_eq!(found[0].get("age"), Some(&text("30")));

    db.delete(&row(&[("name", "John Doe")]));
    assert!(db.select(Some(&row(&[("name", "John Doe")]))).is_none());

    assert_eq!(db.get_column_value("name", &text("Jane Doe"), "age"), Some(text("30")));
}

#[test]
fn new_uses_default_sheet_and_path() {
    let db = people();
    assert_eq!(db.sheet_name(), "Sheet1");
    assert_eq!(db.file_path(), "people.xlsx");
    let g = grid(&[&["a"]]);
    let db = ExcelDatabase::new("f.xlsx".to_string(), Some("Data".to_string()), Some(g)).unwrap();
    assert_eq!(db.sheet_name(), "Data");
    assert!(db.select(None).is_none());
}

#[test]
fn missing_sheet_is_sheet_not_found() {
    match ExcelDatabase::new("f.xlsx".to_string(), Some("Nope".to_string()), None) {
        Err(ExcelDbError::SheetNotFound(n)) => assert_eq!(n, "Nope"),
        _ => panic!("expected SheetNotFound"),
    }
}

#[test]
fn empty_sheet_has_no_headers() {
    match ExcelDatabase::new("f.xlsx".to_string(), None, Some(Vec::new())) {
        Err(ExcelDbError::NoHeaders(n)) => assert_eq!(n, "Sheet1"),
        _ => panic!("expected NoHeaders"),
    }
}

#[test]
fn short_rows_are_filled_with_empty_text() {
    let g = grid(&[&["a", "b", "c"], &["1"]]);
    let rows = ExcelDatabase::load_data("S", Some(g)).unwrap();
    assert_eq!(rows.len(), 1);
    assert_eq!(rows[0].get("a"), Some(&text("1")));
    assert_eq!(rows[0].get("b"), Some(&text("")));
    assert_eq!(rows[0].get("c"), Some(&text("")));
    assert_eq!(rows[0].len(), 3);
}

#[test]
fn duplicate_header_keeps_last_value() {
    let g = grid(&[&["a", "a"], &["1", "2"]]);
    let rows = ExcelDatabase::load_data("S", Some(g)).unwrap();
    assert_eq!(rows[0].len(), 1);
    assert_eq!(rows[0].get("a"), Some(&text("2")));
}

#[test]
fn select_all_and_filtered() {
    let db = people();
    let all = db.select(None).unwrap();
    assert_eq!(all.len(), 2);
    assert_eq!(all[0].get("name"), Some(&text("John Doe")));
    assert_eq!(all[1].get("name"), Some(&text("Jane Doe")));
    let empty_query = Row::new();
    assert_eq!(db.select(Some(&empty_query)).unwrap().len(), 2);
    assert!(db.select(Some(&row(&[("name", "Nobody")]))).is_none());
    assert!(db.select(Some(&row(&[("city", "Paris")]))).is_none());
    let both = db.select(Some(&row(&[("name", "John Doe"), ("age", "20")]))).unwrap();
    assert_eq!(both.len(), 1);
    assert!(db.select(Some(&row(&[("name", "John Doe"), ("age", "29")]))).is_none());
}

#[test]
fn get_column_value_takes_first_hit() {
    let mut db = people();
    db.insert(row(&[("name", "Jane Doe"), ("age", "99")]));
    assert_eq!(db.get_column_value("name", &text("Jane Doe"), "age"), Some(text("29")));
    assert_eq!(db.get_column_value("name", &text("Jane Doe"), "city"), None);
    assert_eq!(db.get_column_value("name", &text("Nobody"), "age"), None);
    assert_eq!(db.get_column_value("city", &text("Jane Doe"), "age"), None);
}

#[test]
fn insert_appends_row() {
    let mut db = people();
    db.insert(row(&[("name", "Max"), ("city", "Oslo")]));
    let all = db.select(None).unwrap();
    assert_eq!(all.len(), 3);
    assert_eq!(all[2].get("city"), Some(&text("Oslo")));
}

#[test]
fn update_adds_new_column_and_is_idempotent() {
    let mut db = people();
    let q = row(&[("name", "John Doe")]);
    let p = row(&[("age", "21"), ("city", "Rome")]);
    db.update(&q, &p);
    let once = texts_of(&db.save_data(true).unwrap());
    db.update(&q, &p);
    let twice = texts_of(&db.save_data(true).unwrap());
    assert_eq!(once, twice);
    let john = db.select(Some(&q)).unwrap();
    assert_eq!(john[0].get("age"), Some(&text("21")));
    assert_eq!(john[0].get("city"), Some(&text("Rome")));
    let jane = db.select(Some(&row(&[("name", "Jane Doe")]))).unwrap();
    assert_eq!(jane[0].get("city"), None);
}

#[test]
fn update_with_no_match_changes_nothing() {
    let mut db = people();
    let before = texts_of(&db.save_data(true).unwrap());
    db.update(&row(&[("name", "Nobody")]), &row(&[("age", "1")]));
    assert_eq!(texts_of(&db.save_data(true).unwrap()), before);
}

#[test]
fn delete_removes_all_matches_and_keeps_rows_lacking_column() {
    let mut db = people();
    db.insert(row(&[("name", "Other")]));
    db.insert(row(&[("age", "20")]));
    db.delete(&row(&[("age", "20")]));
    assert!(db.select(Some(&row(&[("age", "20")]))).is_none());
    let all = db.select(None).unwrap();
    assert_eq!(all.len(), 2);
    assert_eq!(all[0].get("name"), Some(&text("Jane Doe")));
    assert_eq!(all[1].get("name"), Some(&text("Other")));
}

#[test]
fn counts_non_blank_values() {
    let mut db = people();
    db.insert(row(&[("name", "   "), ("age", " 7 ")]));
    db.insert(row(&[("age", "")]));
    assert_eq!(db.get_column_datas_number("name"), 2);
    assert_eq!(db.get_column_datas_number("age"), 3);
    assert_eq!(db.get_column_datas_number("city"), 0);
}

#[test]
fn add_then_remove_column() {
    let mut db = people();
    db.insert(row(&[("name", "Max"), ("city", "Oslo")]));
    db.add_column("city", Some(text("Paris")));
    let all = db.select(None).unwrap();
    assert_eq!(all[0].get("city"), Some(&text("Paris")));
    assert_eq!(all[2].get("city"), Some(&text("Oslo")));
    db.add_column("note", None);
    assert_eq!(db.select(None).unwrap()[1].get("note"), Some(&text("")));
    db.remove_column("city");
    db.remove_column("note");
    db.remove_column("absent");
    let all = db.select(None).unwrap();
    assert_eq!(all.len(), 3);
    for r in &all {
        assert!(!r.contains_key("city"));
        assert!(!r.contains_key("note"));
    }
    assert_eq!(all[1].get("age"), Some(&text("29")));
    assert_eq!(all[2].get("name"), Some(&text("Max")));
}

#[test]
fn save_writes_header_and_lines() {
    let mut db = people();
    db.insert(row(&[("name", "Max"), ("city", "Oslo")]));
    let g = texts_of(&db.save_data(true).unwrap());
    assert_eq!(g.len(), 4);
    assert_eq!(g[0], vec!["name", "age"]);
    assert_eq!(g[1], vec!["John Doe", "20"]);
    assert_eq!(g[3], vec!["Max", ""]);
}

#[test]
fn save_of_empty_table_and_missing_sheet() {
    let mut db = people();
    db.delete(&Row::new());
    assert!(db.save_data(true).unwrap().is_empty());
    match db.save_data(false) {
        Err(ExcelDbError::SheetNotFound(n)) => assert_eq!(n, "Sheet1"),
        _ => panic!("expected SheetNotFound"),
    }
}

#[test]
fn load_save_load_round_trip() {
    let db = people();
    let g = db.save_data(true).unwrap();
    let again = ExcelDatabase::new("people.xlsx".to_string(), None, Some(g)).unwrap();
    assert_eq!(
        texts_of(&again.save_data(true).unwrap()),
        texts_of(&db.save_data(true).unwrap())
    );
    let all = again.select(None).unwrap();
    assert_eq!(all.len(), 2);
    assert_eq!(all[1].get("age"), Some(&text("29")));
}

#[test]
fn refresh_replaces_rows() {
    let mut db = people();
    db.refresh_data(Some(grid(&[&["x"], &["1"]]))).unwrap();
    assert_eq!(db.select(None).unwrap()[0].get("x"), Some(&text("1")));
    assert!(db.refresh_data(None).is_err());
    assert_eq!(db.select(None).unwrap().len(), 1);
}

#[test]
fn sheet_existence_and_add_sheet() {
    let db = people();
    let names = vec!["Sheet1".to_string(), "Other".to_string()];
    assert!(ExcelDatabase::is_sheet_exists(&names, "Other"));
    assert!(!ExcelDatabase::is_sheet_exists(&names, "Third"));
    match db.add_sheet("Other", &names, None) {
        Err(ExcelDbError::SheetNotFound(n)) => assert_eq!(n, "Other"),
        _ => panic!("expected SheetNotFound"),
    }
    assert!(db.add_sheet("Third", &names, None).unwrap().is_empty());
    assert!(db.add_sheet("Third", &names, Some(Vec::new())).unwrap().is_empty());
    let seed = vec![row(&[("k", "v")]), row(&[("z", "q")])];
    let g = texts_of(&db.add_sheet("Third", &names, Some(seed)).unwrap());
    assert_eq!(g, vec![vec!["k"], vec!["v"], vec![""]]);
}

#[test]
fn cell_equality_is_by_text() {
    assert_eq!(text("a"), text("a"));
    assert_ne!(text("a"), text("b"));
    assert_eq!(CellValue::empty(), text(""));
}
