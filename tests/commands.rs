use tabledb::command::{classify_value, finish_insert, finish_load, finish_save, handle_command, Step};
use tabledb::table::{DataType, Database};

/// Files written by `save`, kept in memory.
type Disk = Vec<(String, Database)>;

/// Runs one command to its reply, doing the float reading and the file work
/// that the library hands back.
fn run(command: &str, db: &mut Database, disk: &mut Disk) -> String {
    match handle_command(command, db) {
        Step::Reply(r) => r,
        Step::Insert { table, column, raw } => {
            let float_text = raw.parse::<f32>().ok().map(|f| format!("{:?}", f));
            finish_insert(db, &table, column, raw, float_text)
        }
        Step::Save { file } => {
            disk.retain(|(name, _)| *name != file);
            disk.push((file.clone(), db.clone()));
            finish_save(&file, Ok(()))
        }
        Step::Load { file } => {
            let found = disk.iter().find(|(name, _)| *name == file).map(|(_, d)| d.clone());
            let loaded = found.ok_or_else(|| "No such file or directory (os error 2)".to_string());
            finish_load(db, &file, loaded)
        }
    }
}

#[test]
fn test_create_table() {
    let mut tables = Database::new();
    let mut disk = Disk::new();
    let command = "create test_table";
    let result = run(command, &mut tables, &mut disk);
    assert_eq!(result, "Table test_table created");
    assert!(tables.contains_table("test_table"));
}

#[test]
fn test_insert_and_select() {
    let mut tables = Database::new();
    let mut disk = Disk::new();
    run("create test_table", &mut tables, &mut disk);
    run("insert test_table name Alice", &mut tables, &mut disk);
    run("insert test_table age 30", &mut tables, &mut disk);

    let select_name = run("select test_table name", &mut tables, &mut disk);
    assert_eq!(select_name, "name: [String(\"Alice\")]\n");

    let select_age = run("select test_table age", &mut tables, &mut disk);
    assert_eq!(select_age, "age: [Integer32(30)]\n");
}

#[test]
fn test_insert_multiple_values() {
    let mut tables = Database::new();
    let mut disk = Disk::new();
    run("create test_table", &mut tables, &mut disk);
    run("insert test_table name Alice", &mut tables, &mut disk);
    run("insert test_table name Bob", &mut tables, &mut disk);

    let select_name = run("select test_table name", &mut tables, &mut disk);
    assert_eq!(select_name, "name: [String(\"Alice\"), String(\"Bob\")]\n");
}

#[test]
fn test_select_non_existent_column() {
    let mut tables = Database::new();
    let mut disk = Disk::new();
    run("create test_table", &mut tables, &mut disk);
    let result = run("select test_table non_existent", &mut tables, &mut disk);
    assert_eq!(result, "Column non_existent not found in table test_table");
}

#[test]
fn test_save_and_load() {
    let mut tables = Database::new();
    let mut disk = Disk::new();
    run("create test_table", &mut tables, &mut disk);
    run("insert test_table name Alice", &mut tables, &mut disk);
    run("save test_db.json", &mut tables, &mut disk);

    let mut new_tables = Database::new();
    run("load test_db.json", &mut new_tables, &mut disk);
    let select_name = run("select test_table name", &mut new_tables, &mut disk);
    assert_eq!(select_name, "name: [String(\"Alice\")]\n");
}

#[test]
fn create_then_select_all_is_empty() {
    let mut db = Database::new();
    let mut disk = Disk::new();
    run("create people", &mut db, &mut disk);
    assert_eq!(run("select people", &mut db, &mut disk), "");
}

#[test]
fn insert_into_missing_table() {
    let mut db = Database::new();
    let mut disk = Disk::new();
    assert_eq!(run("insert ghost c 1", &mut db, &mut disk), "Table ghost not found");
    assert!(!db.contains_table("ghost"));
    assert_eq!(db.tables.len(), 0);
}

#[test]
fn select_from_missing_table() {
    let mut db = Database::new();
    let mut disk = Disk::new();
    run("create other", &mut db, &mut disk);
    assert_eq!(run("select ghost", &mut db, &mut disk), "Table ghost not found");
    assert_eq!(run("select ghost c", &mut db, &mut disk), "Table ghost not found");
    assert_eq!(db.tables.len(), 1);
}

#[test]
fn values_of_each_kind_render() {
    let mut db = Database::new();
    let mut disk = Disk::new();
    run("create t", &mut db, &mut disk);
    assert_eq!(run("insert t c 5", &mut db, &mut disk), "Inserted into t c");
    assert_eq!(run("select t c", &mut db, &mut disk), "c: [Integer32(5)]\n");
    run("insert t f 5.5", &mut db, &mut disk);
    assert_eq!(run("select t f", &mut db, &mut disk), "f: [Float32(5.5)]\n");
    run("insert t h hello", &mut db, &mut disk);
    assert_eq!(run("select t h", &mut db, &mut disk), "h: [String(\"hello\")]\n");
}

#[test]
fn integer_literal_classifies_before_float() {
    let v = classify_value("42".to_string(), Some("42.0".to_string()));
    assert!(matches!(v, DataType::Integer32(42)));
    let w = classify_value("42.0".to_string(), Some("42.0".to_string()));
    assert!(matches!(w, DataType::Float32(ref t) if t == "42.0"));
    let x = classify_value("42x".to_string(), None);
    assert!(matches!(x, DataType::String(ref t) if t == "42x"));
}

#[test]
fn classification_through_commands() {
    let mut db = Database::new();
    let mut disk = Disk::new();
    run("create t", &mut db, &mut disk);
    run("insert t c 42", &mut db, &mut disk);
    run("insert t c 42.0", &mut db, &mut disk);
    run("insert t c -7", &mut db, &mut disk);
    run("insert t c +8", &mut db, &mut disk);
    run("insert t c 3abc", &mut db, &mut disk);
    assert_eq!(
        run("select t c", &mut db, &mut disk),
        "c: [Integer32(42), Float32(42.0), Integer32(-7), Integer32(8), String(\"3abc\")]\n"
    );
}

#[test]
fn integer_limits() {
    let mut db = Database::new();
    let mut disk = Disk::new();
    run("create t", &mut db, &mut disk);
    run("insert t c 2147483647", &mut db, &mut disk);
    run("insert t c -2147483648", &mut db, &mut disk);
    run("insert t c 2147483648", &mut db, &mut disk);
    assert_eq!(
        run("select t c", &mut db, &mut disk),
        "c: [Integer32(2147483647), Integer32(-2147483648), Float32(2147483600.0)]\n"
    );
}

#[test]
fn empty_and_unknown_commands() {
    let mut db = Database::new();
    let mut disk = Disk::new();
    assert_eq!(run("", &mut db, &mut disk), "Please specify a command");
    assert_eq!(run("   \t ", &mut db, &mut disk), "Please specify a command");
    assert_eq!(run("drop t", &mut db, &mut disk), "Unknown Command");
    assert_eq!(run("CREATE t", &mut db, &mut disk), "Unknown Command");
}

#[test]
fn usage_messages() {
    let mut db = Database::new();
    let mut disk = Disk::new();
    assert_eq!(run("create", &mut db, &mut disk), "Usage: create <table_name>");
    assert_eq!(run("select", &mut db, &mut disk), "Usage: select <table_name> <column>");
    assert_eq!(run("save", &mut db, &mut disk), "Usage: save <file_name>");
    assert_eq!(run("load", &mut db, &mut disk), "Usage: load <file_name>");
    let usage = "Usage: insert <table_name> <column_name> <value>";
    assert_eq!(run("insert", &mut db, &mut disk), usage);
    assert_eq!(run("insert t", &mut db, &mut disk), usage);
    run("create t", &mut db, &mut disk);
    assert_eq!(run("insert t c", &mut db, &mut disk), usage);
    assert_eq!(run("select t", &mut db, &mut disk), "");
}

#[test]
fn insert_joins_value_words() {
    let mut db = Database::new();
    let mut disk = Disk::new();
    run("create t", &mut db, &mut disk);
    run("insert t c hello   big world", &mut db, &mut disk);
    run("insert t n 1 2", &mut db, &mut disk);
    assert_eq!(run("select t c", &mut db, &mut disk), "c: [String(\"hellobigworld\")]\n");
    assert_eq!(run("select t n", &mut db, &mut disk), "n: [Integer32(12)]\n");
}

#[test]
fn select_all_lists_columns_by_name() {
    let mut db = Database::new();
    let mut disk = Disk::new();
    run("create t", &mut db, &mut disk);
    run("insert t zeta 1", &mut db, &mut disk);
    run("insert t alpha x", &mut db, &mut disk);
    run("insert t mid 2", &mut db, &mut disk);
    run("insert t alpha y", &mut db, &mut disk);
    let all = "alpha: [String(\"x\"), String(\"y\")]\nmid: [Integer32(2)]\nzeta: [Integer32(1)]\n";
    assert_eq!(run("select t", &mut db, &mut disk), all);
    assert_eq!(run("select t alpha zeta", &mut db, &mut disk), all);
}

#[test]
fn create_replaces_existing_table() {
    let mut db = Database::new();
    let mut disk = Disk::new();
    run("create t", &mut db, &mut disk);
    run("insert t c 1", &mut db, &mut disk);
    assert_eq!(run("create t", &mut db, &mut disk), "Table t created");
    assert_eq!(run("select t", &mut db, &mut disk), "");
    assert_eq!(db.tables.len(), 1);
}

#[test]
fn tables_are_kept_in_name_order() {
    let mut db = Database::new();
    let mut disk = Disk::new();
    run("create b", &mut db, &mut disk);
    run("create a", &mut db, &mut disk);
    run("create c", &mut db, &mut disk);
    let names: Vec<&str> = db.tables.iter().map(|t| t.name.as_str()).collect();
    assert_eq!(names, vec!["a", "b", "c"]);
}

#[test]
fn text_values_are_escaped() {
    let mut db = Database::new();
    let mut disk = Disk::new();
    run("create t", &mut db, &mut disk);
    run("insert t c a\"b\\c", &mut db, &mut disk);
    assert_eq!(run("select t c", &mut db, &mut disk), "c: [String(\"a\\\"b\\\\c\")]\n");
}

#[test]
fn load_replaces_collection_whole() {
    let mut db = Database::new();
    let mut disk = Disk::new();
    run("create saved", &mut db, &mut disk);
    run("insert saved c 1", &mut db, &mut disk);
    assert_eq!(run("save snap", &mut db, &mut disk), "Database saved to snap");
    run("create later", &mut db, &mut disk);
    assert_eq!(run("load snap", &mut db, &mut disk), "Successfully loaded database from snap");
    assert!(db.contains_table("saved"));
    assert!(!db.contains_table("later"));
    assert_eq!(run("select saved c", &mut db, &mut disk), "c: [Integer32(1)]\n");
}

#[test]
fn load_failure_keeps_collection() {
    let mut db = Database::new();
    let mut disk = Disk::new();
    run("create t", &mut db, &mut disk);
    assert_eq!(
        run("load missing.json", &mut db, &mut disk),
        "Failed to load Database: No such file or directory (os error 2)"
    );
    assert!(db.contains_table("t"));
}

#[test]
fn save_failure_message() {
    assert_eq!(
        finish_save("x.json", Err("Permission denied".to_string())),
        "Failed to save Database: Permission denied"
    );
    assert_eq!(finish_save("x.json", Ok(())), "Database saved to x.json");
}
