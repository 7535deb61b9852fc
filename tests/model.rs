use tabledb::table::{DataType, Database, Table};

#[test]
fn table_append_creates_and_extends_columns() {
    let mut t = Table::new("t".to_string());
    t.append("b".to_string(), DataType::Integer32(1));
    t.append("a".to_string(), DataType::String("x".to_string()));
    t.append("b".to_string(), DataType::Integer32(2));
    assert_eq!(t.columns.len(), 2);
    assert_eq!(t.columns[0].name, "a");
    assert_eq!(t.columns[1].name, "b");
    assert_eq!(t.columns[1].values.len(), 2);
    assert_eq!(t.find_column("b"), (1, true));
    assert_eq!(t.find_column("c"), (2, false));
}

#[test]
fn database_append_to_existing_table() {
    let mut db = Database::new();
    db.create_table("t".to_string());
    db.append_to("t", "c".to_string(), DataType::Float32("1.5".to_string()));
    assert_eq!(db.find_table("t"), (0, true));
    assert!(matches!(db.tables[0].columns[0].values[0], DataType::Float32(ref s) if s == "1.5"));
}
