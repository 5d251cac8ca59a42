use sqlite_reader::cell::{Cell, LeafTableCell};
use sqlite_reader::database::{Database, ObjectSchema};
use sqlite_reader::error::{HeaderField, MyError};
use sqlite_reader::header::{FormatVersion, Header, TextEncoding};
use sqlite_reader::page::{Page, PageHeader};
use sqlite_reader::page_type::{BTreePageType, PageType};
use sqlite_reader::query::{pick_index, Query};
use sqlite_reader::record::{Record, RecordType, Value};
use sqlite_reader::varint::read_varint;
use sqlite_reader::sql::DataType;
use sqlite_reader::sqlite::{LazyPage, SQLite};
use sqlite_reader::text::{decimal, join};

const PAGE_SIZE: usize = 512;

enum Val {
    Null,
    Int(i64),
    Text(String),
}

fn text(s: &str) -> Val {
    Val::Text(s.to_owned())
}

fn varint(v: u64) -> Vec<u8> {
    assert!(v < 1 << 56);
    let mut groups = vec![(v & 0x7f) as u8];
    let mut rest = v >> 7;
    while rest > 0 {
        groups.push(0x80 | (rest & 0x7f) as u8);
        rest >>= 7;
    }
    groups.reverse();
    groups
}

fn record(values: &[Val]) -> Vec<u8> {
    let mut types = Vec::new();
    let mut body = Vec::new();
    for value in values {
        match value {
            Val::Null => types.extend(varint(0)),
            Val::Int(0) => types.extend(varint(8)),
            Val::Int(1) => types.extend(varint(9)),
            Val::Int(n) if i8::try_from(*n).is_ok() => {
                types.extend(varint(1));
                body.extend((*n as i8).to_be_bytes());
            }
            Val::Int(n) if i16::try_from(*n).is_ok() => {
                types.extend(varint(2));
                body.extend((*n as i16).to_be_bytes());
            }
            Val::Int(n) if i32::try_from(*n).is_ok() => {
                types.extend(varint(4));
                body.extend((*n as i32).to_be_bytes());
            }
            Val::Int(n) => {
                types.extend(varint(6));
                body.extend(n.to_be_bytes());
            }
            Val::Text(s) => {
                types.extend(varint(13 + 2 * s.len() as u64));
                body.extend(s.as_bytes());
            }
        }
    }
    assert!(types.len() < 127);
    let mut bytes = vec![types.len() as u8 + 1];
    bytes.extend(types);
    bytes.extend(body);
    bytes
}

fn table_leaf_cell(row_id: i64, values: &[Val]) -> Vec<u8> {
    let payload = record(values);
    let mut cell = varint(payload.len() as u64);
    cell.extend(varint(row_id as u64));
    cell.extend(payload);
    cell
}

fn table_interior_cell(child: u32, key: i64) -> Vec<u8> {
    let mut cell = child.to_be_bytes().to_vec();
    cell.extend(varint(key as u64));
    cell
}

fn index_leaf_cell(values: &[Val]) -> Vec<u8> {
    let payload = record(values);
    let mut cell = varint(payload.len() as u64);
    cell.extend(payload);
    cell
}

fn index_interior_cell(child: u32, values: &[Val]) -> Vec<u8> {
    let mut cell = child.to_be_bytes().to_vec();
    cell.extend(index_leaf_cell(values));
    cell
}

// Lays the cells out from the end of the page towards its start, in the
// order given, behind a page header at `header_start`.
fn page(kind: u8, cells: &[Vec<u8>], right_most: Option<u32>, header_start: usize) -> Vec<u8> {
    let mut bytes = vec![0u8; PAGE_SIZE];
    let mut offset = PAGE_SIZE;
    let mut pointers = Vec::new();
    for cell in cells {
        offset -= cell.len();
        bytes[offset..offset + cell.len()].copy_from_slice(cell);
        pointers.push(offset as u16);
    }
    let mut header = vec![kind, 0, 0];
    header.extend((cells.len() as u16).to_be_bytes());
    header.extend((offset as u16).to_be_bytes());
    header.push(0);
    if let Some(number) = right_most {
        header.extend(number.to_be_bytes());
    }
    for pointer in pointers {
        header.extend(pointer.to_be_bytes());
    }
    assert!(header_start + header.len() <= offset);
    bytes[header_start..header_start + header.len()].copy_from_slice(&header);
    bytes
}

fn file_header(page_count: u32) -> Vec<u8> {
    let mut header = b"SQLite format 3\0".to_vec();
    header.extend((PAGE_SIZE as u16).to_be_bytes());
    header.extend([1, 1, 0, 64, 32, 32]);
    header.extend(7u32.to_be_bytes()); // file change counter
    header.extend(page_count.to_be_bytes());
    header.extend([0; 8]); // freelist
    header.extend(3u32.to_be_bytes()); // schema cookie
    header.extend(4u32.to_be_bytes()); // schema format
    header.extend([0; 8]); // cache size, largest root page
    header.extend(1u32.to_be_bytes()); // text encoding
    header.extend(11u32.to_be_bytes()); // user version
    header.extend([0; 4]); // incremental vacuum
    header.extend(0x1234u32.to_be_bytes()); // application id
    header.extend([0; 20]);
    header.extend(7u32.to_be_bytes());
    header.extend(3_045_000u32.to_be_bytes());
    assert_eq!(header.len(), 100);
    header
}

fn database(pages: Vec<Vec<u8>>) -> Vec<u8> {
    let mut file = Vec::new();
    let count = pages.len() as u32;
    for bytes in pages {
        file.extend(bytes);
    }
    file[..100].copy_from_slice(&file_header(count));
    file
}

const USERS_SQL: &str =
    "CREATE TABLE users (id INTEGER PRIMARY KEY AUTOINCREMENT, username TEXT, age INTEGER, email TEXT)";
const SEQUENCE_SQL: &str = "CREATE TABLE sqlite_sequence(name,seq)";
const INDEX_SQL: &str = "CREATE INDEX idx_email ON users (email)";

fn schema_page(users_root: i64, index_root: i64, sequence_root: i64) -> Vec<u8> {
    let rows = vec![
        table_leaf_cell(
            1,
            &[text("table"), text("users"), text("users"), Val::Int(users_root), text(USERS_SQL)],
        ),
        table_leaf_cell(
            2,
            &[
                text("table"),
                text("sqlite_sequence"),
                text("sqlite_sequence"),
                Val::Int(sequence_root),
                text(SEQUENCE_SQL),
            ],
        ),
        table_leaf_cell(
            3,
            &[text("index"), text("idx_email"), text("users"), Val::Int(index_root), text(INDEX_SQL)],
        ),
    ];
    page(0x0d, &rows, None, 100)
}

struct User {
    id: i64,
    username: String,
    age: i64,
    email: String,
}

fn user(id: i64, username: &str, age: i64) -> User {
    User { id, username: username.to_owned(), age, email: format!("{}@example.com", username.to_lowercase()) }
}

fn user_cell(user: &User) -> Vec<u8> {
    table_leaf_cell(
        user.id,
        &[Val::Null, text(&user.username), Val::Int(user.age), text(&user.email)],
    )
}

fn index_entry(user: &User) -> Vec<Val> {
    vec![text(&user.email), Val::Int(user.id)]
}

fn sequence_page(last: i64) -> Vec<u8> {
    page(0x0d, &[table_leaf_cell(1, &[text("users"), Val::Int(last)])], None, 0)
}

fn four_users() -> Vec<User> {
    vec![user(1, "Alice", 29), user(2, "Bob", 45), user(3, "Charlie", 15), user(4, "Dave", 105)]
}

fn many_users() -> Vec<User> {
    let mut users = four_users();
    for n in 2..=18 {
        users.push(user(n + 3, &format!("Dave{}", n), 105));
    }
    users.push(user(22, "Celestino", 25));
    users
}

// One page per b-tree: the schema on page 1, the table on page 2, the index
// on page 3, the sequence table on page 4.
fn leaf_db() -> Vec<u8> {
    let users = four_users();
    let mut by_email: Vec<&User> = users.iter().collect();
    by_email.sort_by(|a, b| a.email.cmp(&b.email));
    database(vec![
        schema_page(2, 3, 4),
        page(0x0d, &users.iter().map(user_cell).collect::<Vec<_>>(), None, 0),
        page(
            0x0a,
            &by_email.iter().map(|u| index_leaf_cell(&index_entry(u))).collect::<Vec<_>>(),
            None,
            0,
        ),
        sequence_page(4),
    ])
}

// The table has an interior root on page 2 with leaves on pages 4, 5 and 6;
// the index has an interior root on page 3 with leaves on pages 7 and 8.
fn interior_db() -> Vec<u8> {
    let users = many_users();
    let leaf = |from: usize, to: usize| {
        page(0x0d, &users[from..to].iter().map(user_cell).collect::<Vec<_>>(), None, 0)
    };
    let mut by_email: Vec<&User> = users.iter().collect();
    by_email.sort_by(|a, b| a.email.cmp(&b.email));
    let index_leaf = |from: usize, to: usize| {
        page(
            0x0a,
            &by_email[from..to].iter().map(|u| index_leaf_cell(&index_entry(u))).collect::<Vec<_>>(),
            None,
            0,
        )
    };
    database(vec![
        schema_page(2, 3, 9),
        page(0x05, &[table_interior_cell(4, 8), table_interior_cell(5, 16)], Some(6), 0),
        page(0x02, &[index_interior_cell(7, &index_entry(by_email[10]))], Some(8), 0),
        leaf(0, 8),
        leaf(8, 16),
        leaf(16, 22),
        index_leaf(0, 10),
        index_leaf(11, 22),
        sequence_page(22),
    ])
}

fn render(rows: &Vec<Vec<Value>>) -> String {
    let lines: Vec<String> = rows
        .iter()
        .map(|row| {
            let cells: Vec<String> = row.iter().map(|value| value.to_text().unwrap()).collect();
            join(&cells, "|")
        })
        .collect();
    join(&lines, "\n")
}

fn process_sql(file: Vec<u8>, sql: &str) -> Result<String, MyError> {
    let mut db = Database::parse_header_and_schema(file)?;
    let query = Query::parse(sql)?;
    let rows = query.execute(&mut db)?;
    Ok(render(&rows))
}

#[test]
fn test_only_leaf_pages_process_sql_select_columns() {
    let result = process_sql(leaf_db(), "SELECT id, username, age FROM users;").unwrap();
    assert_eq!(result, "1|Alice|29\n2|Bob|45\n3|Charlie|15\n4|Dave|105");
}

#[test]
fn test_only_leaf_pages_process_sql_count_function() {
    assert_eq!(process_sql(leaf_db(), "SELECT COUNT(*) FROM users;").unwrap(), "4");
}

#[test]
fn test_only_leaf_pages_process_sql_table_not_found() {
    match process_sql(leaf_db(), "SELECT name FROM non_existent_table;") {
        Err(MyError::UnknownTable(name)) => assert_eq!(name, "non_existent_table"),
        other => panic!("expected an unknown table, got {:?}", other),
    }
}

#[test]
fn test_only_leaf_pages_process_sql_where_clause_equal_integer() {
    let result = process_sql(leaf_db(), "SELECT username FROM users WHERE age = 105;").unwrap();
    assert_eq!(result, "Dave");
}

#[test]
fn test_only_leaf_pages_process_sql_count_with_where_clause_equal_integer() {
    let result = process_sql(leaf_db(), "SELECT COUNT(*) FROM users WHERE age = 105;").unwrap();
    assert_eq!(result, "1");
}

#[test]
fn test_interior_page_process_sql_select_columns() {
    let result = process_sql(interior_db(), "SELECT username, age FROM users;").unwrap();
    let expected = vec![
        "Alice|29",
        "Bob|45",
        "Charlie|15",
        "Dave|105",
        "Dave2|105",
        "Dave3|105",
        "Dave4|105",
        "Dave5|105",
        "Dave6|105",
        "Dave7|105",
        "Dave8|105",
        "Dave9|105",
        "Dave10|105",
        "Dave11|105",
        "Dave12|105",
        "Dave13|105",
        "Dave14|105",
        "Dave15|105",
        "Dave16|105",
        "Dave17|105",
        "Dave18|105",
        "Celestino|25",
    ]
    .join("\n");
    assert_eq!(result, expected);
}

#[test]
fn test_interior_page_process_sql_count_function() {
    assert_eq!(process_sql(interior_db(), "SELECT COUNT(*) FROM users;").unwrap(), "22");
}

#[test]
fn test_interior_page_process_sql_table_not_found() {
    match process_sql(interior_db(), "SELECT name FROM non_existent_table;") {
        Err(MyError::UnknownTable(name)) => assert_eq!(name, "non_existent_table"),
        other => panic!("expected an unknown table, got {:?}", other),
    }
}

#[test]
fn test_interior_page_process_sql_where_clause_equal_integer() {
    let result = process_sql(interior_db(), "SELECT username FROM users WHERE age = 25;").unwrap();
    assert_eq!(result, "Celestino");
}

#[test]
fn test_interior_page_process_sql_count_with_where_clause_equal_integer() {
    let result = process_sql(interior_db(), "SELECT COUNT(*) FROM users WHERE age = 105;").unwrap();
    assert_eq!(result, "18");
}

#[test]
fn test_process_as_none_if_no_index() {
    let db = Database::parse_header_and_schema(interior_db()).unwrap();
    assert_eq!(pick_index(&db.schema, "users", "age"), None);
    assert_eq!(pick_index(&db.schema, "users", "email"), Some(3));
    assert_eq!(pick_index(&db.schema, "other", "email"), None);
}

#[test]
fn test_process_index_first_interior_page() {
    let mut db = Database::parse_header_and_schema(interior_db()).unwrap();
    let key = Value::Text("dave@example.com".to_owned());
    assert_eq!(db.search_index(3, &key).unwrap(), vec![4]);
}

#[test]
fn test_process_index_last_interior_page() {
    let mut db = Database::parse_header_and_schema(interior_db()).unwrap();
    let key = Value::Text("dave18@example.com".to_owned());
    assert_eq!(db.search_index(3, &key).unwrap(), vec![21]);
}

#[test]
fn index_lookup_then_rows_by_id() {
    let sql = "SELECT id, username FROM users WHERE email = 'dave18@example.com';";
    assert_eq!(process_sql(interior_db(), sql).unwrap(), "21|Dave18");
    let sql = "SELECT id, username FROM users WHERE email = 'dave@example.com'";
    assert_eq!(process_sql(leaf_db(), sql).unwrap(), "4|Dave");
}

#[test]
fn a_column_that_the_table_lacks_is_reported() {
    let sql = "SELECT id, name FROM users WHERE email = 'dave18@example.com';";
    match process_sql(interior_db(), sql) {
        Err(MyError::UnknownColumn(name)) => assert_eq!(name, "name"),
        other => panic!("expected an unknown column, got {:?}", other),
    }
    match process_sql(interior_db(), "SELECT id FROM users WHERE nickname = 'x'") {
        Err(MyError::UnknownColumn(name)) => assert_eq!(name, "nickname"),
        other => panic!("expected an unknown column, got {:?}", other),
    }
}

#[test]
fn the_entry_in_the_interior_index_cell_is_found() {
    let users = many_users();
    let mut by_email: Vec<&User> = users.iter().collect();
    by_email.sort_by(|a, b| a.email.cmp(&b.email));
    let middle = by_email[10];
    let mut db = Database::parse_header_and_schema(interior_db()).unwrap();
    let key = Value::Text(middle.email.clone());
    assert_eq!(db.search_index(3, &key).unwrap(), vec![middle.id]);
    let sql = format!("SELECT username FROM users WHERE email = '{}'", middle.email);
    assert_eq!(process_sql(interior_db(), &sql).unwrap(), middle.username);
}

#[test]
fn indexed_path_and_scan_path_agree() {
    let users = many_users();
    for wanted in &users {
        let mut db = Database::parse_header_and_schema(interior_db()).unwrap();
        let key = Value::Text(wanted.email.clone());
        let ids = db.search_index(3, &key).unwrap();
        let by_index = db.get_by_row_ids(2, &ids).unwrap();
        let all = db.get_full_table(2).unwrap();
        let by_scan: Vec<_> = all.iter().filter(|r| r.values[3].equals(&key)).collect();
        assert_eq!(by_index.len(), 1);
        assert_eq!(by_scan.len(), 1);
        assert_eq!(by_index[0].values[0].as_integer(), by_scan[0].values[0].as_integer());
        assert_eq!(by_index[0].values[1].as_text(), by_scan[0].values[1].as_text());
        assert_eq!(by_index[0].values[0].as_integer(), Some(wanted.id));
    }
}

#[test]
fn different_keys_give_different_row_ids() {
    let mut db = Database::parse_header_and_schema(interior_db()).unwrap();
    let first = db.search_index(3, &Value::Text("alice@example.com".to_owned())).unwrap();
    let second = db.search_index(3, &Value::Text("bob@example.com".to_owned())).unwrap();
    assert_eq!(first, vec![1]);
    assert_eq!(second, vec![2]);
    assert!(first.iter().all(|id| !second.contains(id)));
}

#[test]
fn the_same_query_gives_the_same_output() {
    let sql = "SELECT id, username, age, email FROM users WHERE age = 105";
    let first = process_sql(interior_db(), sql).unwrap();
    let second = process_sql(interior_db(), sql).unwrap();
    assert_eq!(first, second);
    let mut db = Database::parse_header_and_schema(interior_db()).unwrap();
    let query = Query::parse(sql).unwrap();
    let cold = render(&query.execute(&mut db).unwrap());
    let warm = render(&query.execute(&mut db).unwrap());
    assert_eq!(cold, warm);
    assert_eq!(cold, first);
}

#[test]
fn an_empty_result_has_no_lines() {
    let mut db = Database::parse_header_and_schema(leaf_db()).unwrap();
    let query = Query::parse("SELECT username FROM users WHERE age = 7").unwrap();
    let rows = query.execute(&mut db).unwrap();
    assert!(rows.is_empty());
    assert_eq!(render(&rows), "");
    let sql = "SELECT username FROM users WHERE email = 'nobody@example.com'";
    assert_eq!(process_sql(interior_db(), sql).unwrap(), "");
    assert_eq!(process_sql(leaf_db(), "SELECT COUNT(*) FROM users WHERE age = 7").unwrap(), "0");
}

#[test]
fn a_value_of_another_type_matches_nothing() {
    assert_eq!(process_sql(leaf_db(), "SELECT id FROM users WHERE age = '105'").unwrap(), "");
    assert_eq!(process_sql(leaf_db(), "SELECT id FROM users WHERE username = 29").unwrap(), "");
    let sql = "SELECT id FROM users WHERE age = 99999999999999999999";
    assert_eq!(process_sql(leaf_db(), sql).unwrap(), "");
}

#[test]
fn row_id_stands_for_the_primary_key_stored_as_null() {
    let mut db = Database::parse_header_and_schema(leaf_db()).unwrap();
    let rows = db.get_full_table(2).unwrap();
    let ids: Vec<Option<i64>> = rows.iter().map(|r| r.values[0].as_integer()).collect();
    assert_eq!(ids, vec![Some(1), Some(2), Some(3), Some(4)]);
    assert_eq!(process_sql(leaf_db(), "SELECT id FROM users WHERE id = 3").unwrap(), "3");
}

#[test]
fn an_interior_page_with_one_cell_has_two_children() {
    let users = four_users();
    let leaf = |from: usize, to: usize| {
        page(0x0d, &users[from..to].iter().map(user_cell).collect::<Vec<_>>(), None, 0)
    };
    let file = database(vec![
        schema_page(2, 3, 6),
        page(0x05, &[table_interior_cell(4, 2)], Some(5), 0),
        page(0x0a, &[], None, 0),
        leaf(0, 2),
        leaf(2, 4),
        sequence_page(4),
    ]);
    assert_eq!(
        process_sql(file.clone(), "SELECT username FROM users").unwrap(),
        "Alice\nBob\nCharlie\nDave"
    );
    let mut db = Database::parse_header_and_schema(file).unwrap();
    let found = db.get_by_row_ids(2, &vec![2, 3]).unwrap();
    let names: Vec<_> = found.iter().map(|r| r.values[1].as_text().unwrap().to_owned()).collect();
    assert_eq!(names, vec!["Bob", "Charlie"]);
    let found = db.get_by_row_ids(2, &vec![4]).unwrap();
    assert_eq!(found.len(), 1);
    assert_eq!(found[0].values[1].as_text(), Some("Dave"));
    assert!(db.get_by_row_ids(2, &vec![]).unwrap().is_empty());
    assert!(db.get_by_row_ids(2, &vec![9]).unwrap().is_empty());
}

#[test]
fn rows_by_id_visit_only_the_children_that_can_hold_them() {
    let mut db = Database::parse_header_and_schema(interior_db()).unwrap();
    let found = db.get_by_row_ids(2, &vec![21]).unwrap();
    assert_eq!(found.len(), 1);
    assert_eq!(found[0].values[1].as_text(), Some("Dave18"));
    // only the schema page, the root of the table and its last leaf were read
    let loaded: Vec<usize> = db
        .sqlite
        .pages
        .iter()
        .enumerate()
        .filter(|(_, slot)| matches!(slot, LazyPage::Loaded(_)))
        .map(|(i, _)| i + 1)
        .collect();
    assert_eq!(loaded, vec![1, 2, 6]);
}

#[test]
fn catalog_of_the_database() {
    let db = Database::parse_header_and_schema(interior_db()).unwrap();
    assert_eq!(db.header().page_size, 512);
    assert_eq!(db.schema.table_count(), 2);
    assert_eq!(db.schema.table_names(), vec!["users", "sqlite_sequence"]);
    assert_eq!(db.schema.table_root_page("users").unwrap(), 2);
    assert_eq!(db.schema.table_root_page("sqlite_sequence").unwrap(), 9);
    match db.schema.table_root_page("idx_email") {
        Err(MyError::UnknownTable(name)) => assert_eq!(name, "idx_email"),
        other => panic!("expected an unknown table, got {:?}", other),
    }
    assert!(db.schema.duplicates.is_empty());
    let users = db.schema.objects[0].as_table().unwrap();
    assert_eq!(users.sql, USERS_SQL);
    let names: Vec<&str> = users.column_defs.iter().map(|c| c.name.as_str()).collect();
    assert_eq!(names, vec!["id", "username", "age", "email"]);
    assert_eq!(users.column_defs[2].data_type, DataType::Integer);
    assert!(db.schema.objects[0].as_index().is_none());
    // a statement outside the dialect leaves the table without known columns
    let sequence = db.schema.objects[1].as_table().unwrap();
    assert!(sequence.column_defs.is_empty());
    let index = db.schema.objects[2].as_index().unwrap();
    assert_eq!(index.name, "idx_email");
    assert_eq!(index.table_name, "users");
    assert_eq!(index.root_page, 3);
    assert_eq!(index.column_names, vec!["email".to_owned()]);
    assert!(!index.unique);
    assert!(db.schema.objects[2].as_table().is_none());
}

#[test]
fn of_two_objects_with_one_name_the_first_wins() {
    let row = |id: i64, kind: &str, name: &str, root: i64, sql: &str| {
        table_leaf_cell(id, &[text(kind), text(name), text(name), Val::Int(root), text(sql)])
    };
    let rows = vec![
        row(1, "table", "t", 2, "CREATE TABLE t (a TEXT)"),
        row(2, "view", "v", 0, "CREATE VIEW v AS SELECT a FROM t"),
        row(3, "table", "t", 3, "CREATE TABLE t (b TEXT)"),
        row(4, "trigger", "g", 0, "CREATE TRIGGER g"),
    ];
    let file = database(vec![page(0x0d, &rows, None, 100), sequence_page(1), sequence_page(2)]);
    let db = Database::parse_header_and_schema(file).unwrap();
    assert_eq!(db.schema.objects.len(), 3);
    assert_eq!(db.schema.table_count(), 1);
    assert_eq!(db.schema.table_root_page("t").unwrap(), 2);
    assert!(matches!(db.schema.objects[1], ObjectSchema::View));
    assert!(matches!(db.schema.objects[2], ObjectSchema::Trigger));
    assert_eq!(db.schema.duplicates, vec!["t".to_owned()]);
}

#[test]
fn a_schema_row_of_unknown_kind_is_refused() {
    let rows = vec![table_leaf_cell(
        1,
        &[text("sequence"), text("s"), text("s"), Val::Int(2), text("")],
    )];
    let file = database(vec![page(0x0d, &rows, None, 100)]);
    assert!(matches!(Database::parse_header_and_schema(file), Err(MyError::InvalidRecord)));
    let rows = vec![table_leaf_cell(1, &[text("table"), text("s")])];
    let file = database(vec![page(0x0d, &rows, None, 100)]);
    assert!(matches!(Database::parse_header_and_schema(file), Err(MyError::InvalidRecord)));
}

#[test]
fn pages_are_decoded_once_and_kept() {
    let mut db = SQLite::new(interior_db()).unwrap();
    assert_eq!(db.pages.len(), 9);
    assert!(db.pages.iter().all(|slot| matches!(slot, LazyPage::Unloaded)));
    assert_eq!(db.page(2).unwrap().page_type, BTreePageType::TableInterior);
    assert!(matches!(db.pages[1], LazyPage::Loaded(_)));
    assert_eq!(db.page(2).unwrap().cells.len(), 3);
    assert!(matches!(db.page(0), Err(MyError::Truncated)));
    assert!(matches!(db.page(10), Err(MyError::Truncated)));
    assert!(db.load(9).is_ok());
    assert!(matches!(db.pages[8], LazyPage::Loaded(_)));
}

#[test]
fn interior_pages_end_with_the_right_most_child() {
    let mut db = SQLite::new(interior_db()).unwrap();
    let table: Vec<(i64, u32)> = db
        .page(2)
        .unwrap()
        .cells
        .iter()
        .map(|cell| match cell {
            Cell::InteriorTable(cell) => (cell.left_ptr, cell.child_page),
            other => panic!("unexpected cell {:?}", other),
        })
        .collect();
    assert_eq!(table, vec![(8, 3), (16, 4), (i64::MAX, 5)]);
    let index = db.page(3).unwrap();
    assert_eq!(index.page_type, BTreePageType::IndexInterior);
    assert_eq!(index.cells.len(), 2);
    match &index.cells[1] {
        Cell::InteriorIndex(cell) => {
            assert!(cell.payload.values.is_empty());
            assert_eq!(cell.child_page, 7);
        }
        other => panic!("unexpected cell {:?}", other),
    }
}

#[test]
fn routing_cells_are_exposed_in_key_order() {
    let cells = vec![table_interior_cell(5, 16), table_interior_cell(4, 8)];
    let bytes = page(0x05, &cells, Some(6), 0);
    let decoded = Page::from_bytes(TextEncoding::Utf8, &bytes, 0).unwrap();
    let keys: Vec<i64> = decoded
        .cells
        .iter()
        .map(|cell| match cell {
            Cell::InteriorTable(cell) => cell.left_ptr,
            other => panic!("unexpected cell {:?}", other),
        })
        .collect();
    assert_eq!(keys, vec![8, 16, i64::MAX]);
}

#[test]
fn leaf_cells_are_exposed_from_the_end_of_the_page() {
    // the pointer array lists the cells in the opposite order
    let users = four_users();
    let mut bytes = page(0x0d, &users.iter().map(user_cell).collect::<Vec<_>>(), None, 0);
    let pointers: Vec<u8> = bytes[8..16].to_vec();
    for (i, pair) in pointers.chunks(2).rev().enumerate() {
        bytes[8 + 2 * i..10 + 2 * i].copy_from_slice(pair);
    }
    let decoded = Page::parse(&bytes, false, TextEncoding::Utf8).unwrap();
    let ids: Vec<i64> = decoded
        .cells
        .iter()
        .map(|cell| match cell {
            Cell::LeafTable(cell) => cell.row_id,
            other => panic!("unexpected cell {:?}", other),
        })
        .collect();
    assert_eq!(ids, vec![1, 2, 3, 4]);
}

#[test]
fn page_errors() {
    let decode = |bytes: &[u8]| Page::from_bytes(TextEncoding::Utf8, bytes, 0);
    let good = page(0x0d, &[table_leaf_cell(1, &[Val::Int(5)])], None, 0);
    assert!(decode(&good).is_ok());
    assert!(matches!(decode(&good[..7]), Err(MyError::Truncated)));
    let mut unknown = good.clone();
    unknown[0] = 0x07;
    assert!(matches!(decode(&unknown), Err(MyError::InvalidPageType(0x07))));
    assert!(matches!(PageType::try_from(0x07), Err(MyError::InvalidPageType(0x07))));
    assert_eq!(PageType::try_from(0x0a).unwrap(), PageType::BTree(BTreePageType::IndexLeaf));
    // a pointer before the cell content area
    let mut before = good.clone();
    before[8..10].copy_from_slice(&20u16.to_be_bytes());
    assert!(matches!(decode(&before), Err(MyError::CellOffsetOutOfBounds(20))));
    // a pointer beyond the page
    let mut beyond = good.clone();
    beyond[8..10].copy_from_slice(&600u16.to_be_bytes());
    assert!(matches!(decode(&beyond), Err(MyError::CellOffsetOutOfBounds(600))));
    // more pointers than the page has room for
    let mut crowded = good.clone();
    crowded[3..5].copy_from_slice(&400u16.to_be_bytes());
    assert!(matches!(decode(&crowded), Err(MyError::Truncated)));
    // a pointer into the page header and the pointer array
    let tiny = [0x0d, 0x00, 0x01, 0x00, 0x01, 0x00, 0x01, 0x00, 0x00, 0x02];
    assert!(matches!(decode(&tiny), Err(MyError::CellOffsetOutOfBounds(2))));
    let mut into_header = good.clone();
    into_header[5..7].copy_from_slice(&4u16.to_be_bytes());
    into_header[8..10].copy_from_slice(&9u16.to_be_bytes());
    assert!(matches!(decode(&into_header), Err(MyError::CellOffsetOutOfBounds(9))));
    // an interior page whose right-most pointer names no page
    let broken = page(0x05, &[table_interior_cell(4, 8)], Some(0), 0);
    assert!(matches!(decode(&broken), Err(MyError::InvalidRecord)));
}

#[test]
fn a_fault_in_a_page_comes_with_its_place() {
    // a table leaf whose only cell claims a record header longer than the cell
    let cell = vec![3, 1, 9, 1, 5];
    let broken = page(0x0d, &[cell], None, 0);
    match Page::from_bytes(TextEncoding::Utf8, &broken, 0) {
        Err(MyError::AtOffset { offset, fault }) => {
            assert_eq!(offset, PAGE_SIZE - 5);
            assert!(matches!(*fault, MyError::Truncated));
        }
        other => panic!("expected a fault in a cell, got {:?}", other),
    }
    let file = database(vec![schema_page(2, 3, 4), broken, page(0x07, &[], None, 0), sequence_page(1)]);
    let mut db = Database::parse_header_and_schema(file).unwrap();
    let error = db.get_full_table(2).unwrap_err();
    assert_eq!(error.message(), "Page 2: Byte 507: Unexpected end of bytes");
    match error {
        MyError::InPage { page, fault } => {
            assert_eq!(page, 2);
            assert!(matches!(*fault, MyError::AtOffset { offset: 507, .. }));
        }
        other => panic!("expected a fault in a page, got {:?}", other),
    }
    let error = db.search_index(3, &Value::Integer(1)).unwrap_err();
    assert_eq!(error.message(), "Page 3: Invalid page type: 7");
    let error = process_sql(db.sqlite.file.clone(), "SELECT id FROM users").unwrap_err();
    assert_eq!(error.message(), "Page 2: Byte 507: Unexpected end of bytes");
}

#[test]
fn a_tree_that_leads_back_to_itself_is_refused() {
    let file = database(vec![
        schema_page(2, 3, 4),
        page(0x05, &[table_interior_cell(2, 8)], Some(2), 0),
        page(0x02, &[], Some(3), 0),
        sequence_page(1),
    ]);
    let mut db = Database::parse_header_and_schema(file).unwrap();
    assert!(matches!(db.get_full_table(2), Err(MyError::TreeTooDeep)));
    assert!(matches!(db.get_by_row_ids(2, &vec![1]), Err(MyError::TreeTooDeep)));
    assert!(matches!(db.search_index(3, &Value::Integer(1)), Err(MyError::TreeTooDeep)));
}

#[test]
fn a_page_of_the_wrong_tree_is_refused() {
    let mut db = Database::parse_header_and_schema(leaf_db()).unwrap();
    assert!(matches!(db.get_full_table(3), Err(MyError::InvalidPageType(0x0a))));
    assert!(matches!(db.search_index(2, &Value::Integer(1)), Err(MyError::InvalidPageType(0x0d))));
    assert!(matches!(db.get_full_table(0), Err(MyError::Truncated)));
    assert!(matches!(db.get_full_table(5), Err(MyError::Truncated)));
}

#[test]
fn queries_that_are_not_planned() {
    let mut db = Database::parse_header_and_schema(leaf_db()).unwrap();
    let create = Query::parse("CREATE TABLE t (a TEXT)").unwrap();
    assert!(matches!(create.execute(&mut db), Err(MyError::UnsupportedQuery)));
}

#[test]
fn header_fields() {
    let file = leaf_db();
    let (rest, header) = Header::parse(&file).unwrap();
    assert_eq!(rest.len(), file.len() - 100);
    assert_eq!(header.page_size, 512);
    assert_eq!(header.write_version, FormatVersion::Legacy);
    assert_eq!(header.read_version, FormatVersion::Legacy);
    assert_eq!(header.end_page_reserved_bytes, 0);
    assert_eq!(header.usable_page_size(), 512);
    assert_eq!(header.file_change_counter, 7);
    assert_eq!(header.size_in_pages, 4);
    assert_eq!(header.schema_cookie, 3);
    assert_eq!(header.schema_format, 4);
    assert_eq!(header.text_encoding, TextEncoding::Utf8);
    assert_eq!(header.user_version, 11);
    assert!(!header.incremental_vacuum_mode);
    assert_eq!(header.application_id, 0x1234);
    assert_eq!(header.version_valid_for, 7);
    assert_eq!(header.sqlite_version_number, 3_045_000);
}

fn header_fault(at: usize, bytes: &[u8]) -> (HeaderField, u32) {
    let mut header = file_header(1);
    header[at..at + bytes.len()].copy_from_slice(bytes);
    match Header::parse(&header) {
        Err(MyError::InvalidHeader(fault)) => (fault.field, fault.value),
        other => panic!("expected an invalid header, got {:?}", other),
    }
}

#[test]
fn header_validation() {
    assert!(matches!(Header::parse(&file_header(1)[..99]), Err(MyError::Truncated)));
    assert_eq!(header_fault(3, b"l"), (HeaderField::Magic, 3));
    assert_eq!(header_fault(16, &[0x03, 0x00]), (HeaderField::PageSize, 768));
    assert_eq!(header_fault(16, &[0x01, 0x00]), (HeaderField::PageSize, 256));
    assert_eq!(header_fault(18, &[3]), (HeaderField::WriteVersion, 3));
    assert_eq!(header_fault(19, &[0]), (HeaderField::ReadVersion, 0));
    assert_eq!(header_fault(21, &[65]), (HeaderField::MaxPayloadFraction, 65));
    assert_eq!(header_fault(22, &[31]), (HeaderField::MinPayloadFraction, 31));
    assert_eq!(header_fault(23, &[33]), (HeaderField::LeafPayloadFraction, 33));
    assert_eq!(header_fault(44, &[0, 0, 0, 5]), (HeaderField::SchemaFormat, 5));
    assert_eq!(header_fault(56, &[0, 0, 0, 4]), (HeaderField::TextEncoding, 4));
    assert_eq!(header_fault(64, &[0, 0, 0, 2]), (HeaderField::IncrementalVacuum, 2));
    assert_eq!(header_fault(80, &[1]), (HeaderField::Reserved, 80));
    // the first fault in file order is the one reported
    let mut header = file_header(1);
    header[21] = 0;
    header[16] = 0xff;
    match Header::parse(&header) {
        Err(MyError::InvalidHeader(fault)) => assert_eq!(fault.field, HeaderField::PageSize),
        other => panic!("expected an invalid header, got {:?}", other),
    }
}

#[test]
fn page_size_one_stands_for_65536() {
    let mut header = file_header(1);
    header[16..18].copy_from_slice(&[0, 1]);
    header[20] = 16;
    let (_, header) = Header::parse(&header).unwrap();
    assert_eq!(header.page_size, 65536);
    assert_eq!(header.end_page_reserved_bytes, 16);
    assert_eq!(header.usable_page_size(), 65520);
    assert_eq!(FormatVersion::try_from(2), Some(FormatVersion::WriteAheadLog));
    assert_eq!(FormatVersion::try_from(0), None);
    assert_eq!(TextEncoding::try_from(3), Some(TextEncoding::Utf16be));
    assert_eq!(TextEncoding::try_from(0), None);
}

#[test]
fn errors_are_reported_in_one_line() {
    let error = process_sql(leaf_db(), "SELECT name FROM non_existent_table;").unwrap_err();
    assert_eq!(error.message(), "Table not found: non_existent_table");
    assert!(error.message().contains("non_existent_table"));
    let error = process_sql(leaf_db(), "SELECT nickname FROM users").unwrap_err();
    assert_eq!(error.message(), "Column not found: nickname");
    assert_eq!(MyError::Truncated.message(), "Unexpected end of bytes");
    assert_eq!(MyError::InvalidPageType(7).message(), "Invalid page type: 7");
    assert_eq!(MyError::CellOffsetOutOfBounds(600).message(), "Cell offset out of bounds: 600");
    assert_eq!(MyError::UnsupportedSerialType(11).message(), "Unsupported serial type: 11");
    assert_eq!(MyError::SqlParseError.message(), "Invalid SQL");
    assert_eq!(MyError::UnsupportedQuery.message(), "Unsupported query");
    assert_eq!(MyError::InvalidRecord.message(), "Invalid record");
    assert_eq!(MyError::UnsupportedTextEncoding.message(), "Unsupported text encoding");
    assert_eq!(MyError::TreeTooDeep.message(), "B-tree deeper than the file has pages");
    let mut header = file_header(1);
    header[16..18].copy_from_slice(&[0x03, 0x00]);
    let error = Header::parse(&header).unwrap_err();
    assert_eq!(error.message(), "Invalid header: page size 768");
    let overflow = LeafTableCell::from_bytes(TextEncoding::Utf8, &[8, 9, 2, 1, 0x2a, 0, 0, 0, 5]);
    assert_eq!(overflow.unwrap_err().message(), "Payload overflows to page 5, bytes not read: 5");
}

#[test]
fn cell_pointers_lie_in_the_cell_content_area() {
    let file = interior_db();
    for (number, bytes) in file.chunks(PAGE_SIZE).enumerate() {
        let start = if number == 0 { 100 } else { 0 };
        assert!(Page::from_bytes(TextEncoding::Utf8, bytes, start).is_ok());
        let header = PageHeader::parse(bytes, start).unwrap();
        let header_len = if header.right_most_pointer.is_some() { 12 } else { 8 };
        let array = &bytes[start + header_len..];
        let pointers: Vec<usize> = (0..header.cell_count as usize)
            .map(|i| u16::from_be_bytes([array[2 * i], array[2 * i + 1]]) as usize)
            .collect();
        assert_eq!(pointers.len(), header.cell_count as usize);
        let header_end = start + header_len + 2 * pointers.len();
        for pointer in pointers {
            assert!(header_end <= pointer && pointer < PAGE_SIZE);
            assert!(pointer >= header.cell_content_start);
        }
    }
}

#[test]
fn records_have_one_value_per_serial_type() {
    let bytes = record(&[Val::Null, text("Celestino"), Val::Int(25), text("celestino@example.com")]);
    let record = Record::parse(TextEncoding::Utf8, 22, &bytes, RecordType::Table).unwrap();
    let (header_size, mut types, _) = read_varint(&bytes).unwrap();
    let mut count = 0;
    let mut body = 0;
    while bytes.len() - types.len() < header_size as usize {
        let (serial, rest, _) = read_varint(types).unwrap();
        body += sqlite_reader::record::ColumnType::try_from(serial).unwrap().size();
        count += 1;
        types = rest;
    }
    assert_eq!(record.values.len(), count);
    assert_eq!(count, 4);
    assert_eq!(body, bytes.len() - header_size as usize);
}

// An index on `age` whose entries for one key stand in the order in which a
// probe must not return them.
fn age_index_db() -> Vec<u8> {
    let users = many_users();
    let row = |id: i64, kind: &str, name: &str, root: i64, sql: &str| {
        table_leaf_cell(id, &[text(kind), text(name), text("users"), Val::Int(root), text(sql)])
    };
    let schema = vec![
        row(1, "table", "users", 2, USERS_SQL),
        row(2, "index", "idx_age", 3, "CREATE INDEX idx_age ON users (age)"),
    ];
    let entry = |u: &User| index_leaf_cell(&[Val::Int(u.age), Val::Int(u.id)]);
    let mut young: Vec<&User> = users.iter().filter(|u| u.age < 105).collect();
    young.sort_by_key(|u| u.age);
    let mut old: Vec<&User> = users.iter().filter(|u| u.age == 105).collect();
    old.reverse();
    database(vec![
        page(0x0d, &schema, None, 100),
        page(0x05, &[table_interior_cell(4, 8), table_interior_cell(5, 16)], Some(6), 0),
        page(
            0x02,
            &[index_interior_cell(7, &[Val::Int(old[0].age), Val::Int(old[0].id)])],
            Some(8),
            0,
        ),
        page(0x0d, &users[0..8].iter().map(user_cell).collect::<Vec<_>>(), None, 0),
        page(0x0d, &users[8..16].iter().map(user_cell).collect::<Vec<_>>(), None, 0),
        page(0x0d, &users[16..22].iter().map(user_cell).collect::<Vec<_>>(), None, 0),
        page(0x0a, &young.iter().map(|u| entry(u)).collect::<Vec<_>>(), None, 0),
        page(0x0a, &old[1..].iter().map(|u| entry(u)).collect::<Vec<_>>(), None, 0),
    ])
}

#[test]
fn row_ids_of_a_probe_come_in_ascending_order() {
    let mut db = Database::parse_header_and_schema(age_index_db()).unwrap();
    let ids = db.search_index(3, &Value::Integer(105)).unwrap();
    let mut expected: Vec<i64> = (4..=21).collect();
    assert_eq!(ids, expected);
    expected.clear();
    assert_eq!(db.search_index(3, &Value::Integer(104)).unwrap(), expected);
    assert_eq!(db.search_index(3, &Value::Integer(25)).unwrap(), vec![22]);
    assert_eq!(db.search_index(3, &Value::Text("105".to_owned())).unwrap(), expected);
    assert_eq!(db.search_index(3, &Value::Null).unwrap(), expected);
}

#[test]
fn a_probe_finds_every_entry_of_its_key_once() {
    let users = many_users();
    let mut db = Database::parse_header_and_schema(age_index_db()).unwrap();
    for age in [15, 25, 29, 45, 105, 7] {
        let mut expected: Vec<i64> = users.iter().filter(|u| u.age == age).map(|u| u.id).collect();
        expected.sort();
        assert_eq!(db.search_index(3, &Value::Integer(age)).unwrap(), expected);
    }
    // where no two entries have the same key, a key has at most one row id
    let mut db = Database::parse_header_and_schema(interior_db()).unwrap();
    for user in &users {
        let ids = db.search_index(3, &Value::Text(user.email.clone())).unwrap();
        assert_eq!(ids, vec![user.id]);
    }
}

#[test]
fn an_index_on_the_filter_column_is_used() {
    let sql = "SELECT COUNT(*) FROM users WHERE age = 105";
    assert_eq!(process_sql(age_index_db(), sql).unwrap(), "18");
    let sql = "SELECT id, username FROM users WHERE age = 15";
    assert_eq!(process_sql(age_index_db(), sql).unwrap(), "3|Charlie");
    // with the index in place the leaves without a match are not read
    let mut db = Database::parse_header_and_schema(age_index_db()).unwrap();
    let query = Query::parse("SELECT username FROM users WHERE age = 25").unwrap();
    assert_eq!(render(&query.execute(&mut db).unwrap()), "Celestino");
    assert!(matches!(db.sqlite.pages[3], LazyPage::Unloaded));
    assert!(matches!(db.sqlite.pages[4], LazyPage::Unloaded));
    assert!(matches!(db.sqlite.pages[5], LazyPage::Loaded(_)));
}

#[test]
fn integers_in_decimal() {
    assert_eq!(decimal(0), "0");
    assert_eq!(decimal(7), "7");
    assert_eq!(decimal(105), "105");
    assert_eq!(decimal(-1), "-1");
    assert_eq!(decimal(i64::MAX), "9223372036854775807");
    assert_eq!(decimal(i64::MIN), "-9223372036854775808");
    assert_eq!(join(&vec![], "|"), "");
    assert_eq!(join(&vec!["a".to_owned()], "|"), "a");
    assert_eq!(join(&vec!["a".to_owned(), "".to_owned(), "c".to_owned()], ", "), "a, , c");
    assert_eq!(Value::Null.to_text(), Some("null".to_owned()));
    assert_eq!(Value::Blob("raw".to_owned()).to_text(), Some("raw".to_owned()));
    assert_eq!(Value::Real(0).to_text(), None);
}
