use sqlite_reader::error::MyError;
use sqlite_reader::query::{Column, Query};
use sqlite_reader::record::Value;
use sqlite_reader::sql::{
    parse_create_index_sql, parse_create_table_sql, parse_select_sql, ColumnConstraint,
    ColumnDefinition, CreateIndexStatement, CreateTableStatement, DataType, Operator,
    SelectClause, SelectExpression, WhereClause, WhereValue,
};

#[test]
fn test_parse_select_sql_with_columns() {
    let sql = "SELECT id, name FROM users";
    let expected = SelectExpression {
        select_clause: SelectClause::Columns(vec!["id".to_owned(), "name".to_owned()]),
        table: "users".to_owned(),
        where_clause: None,
    };
    assert_eq!(parse_select_sql(sql).unwrap(), expected);
}

#[test]
fn test_parse_select_sql_with_function_call() {
    let sql = "SELECT COUNT(*) FROM users";
    let expected = SelectExpression {
        select_clause: SelectClause::FunctionCall {
            name: "COUNT".to_owned(),
            args: vec!["*".to_owned()],
        },
        table: "users".to_owned(),
        where_clause: None,
    };
    assert_eq!(parse_select_sql(sql).unwrap(), expected);
}

#[test]
fn test_parse_select_sql_with_where_clause() {
    let sql = "SELECT id FROM users WHERE name = 'Alice'";
    let expected = SelectExpression {
        select_clause: SelectClause::Columns(vec!["id".to_owned()]),
        table: "users".to_owned(),
        where_clause: Some(WhereClause {
            column: "name".to_owned(),
            operator: Operator::Equal,
            value: WhereValue::String("Alice".to_owned()),
        }),
    };
    assert_eq!(parse_select_sql(sql).unwrap(), expected);
}

#[test]
fn test_parse_select_sql_with_invalid_syntax() {
    let sql = "SELECT FROM users";
    assert!(parse_select_sql(sql).is_err());
}

#[test]
fn test_parse_select_sql_with_invalid_where_clause() {
    let sql = "SELECT id FROM users WHERE name 'Alice'";
    assert!(parse_select_sql(sql).is_err());
}

fn apples(id_constraints: Vec<ColumnConstraint>) -> CreateTableStatement {
    CreateTableStatement {
        table_name: "apples".to_owned(),
        columns: vec![
            ColumnDefinition {
                name: "id".to_owned(),
                data_type: DataType::Integer,
                constraints: id_constraints,
            },
            ColumnDefinition {
                name: "name".to_owned(),
                data_type: DataType::Text,
                constraints: vec![],
            },
            ColumnDefinition {
                name: "color".to_owned(),
                data_type: DataType::Text,
                constraints: vec![],
            },
        ],
        if_not_exists: false,
    }
}

#[test]
fn test_create_table_statement_type_only_single_line() {
    let sql = "CREATE TABLE apples (id INTEGER, name TEXT, color TEXT)";
    assert_eq!(parse_create_table_sql(sql).unwrap(), apples(vec![]));
}

#[test]
fn test_create_table_statement_type_only_multi_line() {
    let sql = "CREATE TABLE apples (id INTEGER, name TEXT, color TEXT)";
    assert_eq!(parse_create_table_sql(sql).unwrap(), apples(vec![]));
}

#[test]
fn test_create_table_statement_type_with_constraints() {
    let sql = "CREATE TABLE apples (id INTEGER PRIMARY KEY AUTOINCREMENT, name TEXT, color TEXT)";
    let expected = apples(vec![ColumnConstraint::PrimaryKey { auto_increment: true }]);
    assert_eq!(parse_create_table_sql(sql).unwrap(), expected);
}

fn text_column(name: &str, constraints: Vec<ColumnConstraint>) -> ColumnDefinition {
    ColumnDefinition { name: name.to_owned(), data_type: DataType::Text, constraints }
}

fn id_column() -> ColumnDefinition {
    ColumnDefinition {
        name: "id".to_owned(),
        data_type: DataType::Integer,
        constraints: vec![ColumnConstraint::PrimaryKey { auto_increment: true }],
    }
}

#[test]
fn test_superheroes() {
    let sql = "CREATE TABLE IF NOT EXISTS \"superheroes\" (id integer primary key autoincrement, name text not null, eye_color text, hair_color text, appearance_count integer, first_appearance text, first_appearance_year text);";
    let expected = CreateTableStatement {
        table_name: "superheroes".to_owned(),
        columns: vec![
            id_column(),
            text_column("name", vec![ColumnConstraint::NotNull]),
            text_column("eye_color", vec![]),
            text_column("hair_color", vec![]),
            ColumnDefinition {
                name: "appearance_count".to_owned(),
                data_type: DataType::Integer,
                constraints: vec![],
            },
            text_column("first_appearance", vec![]),
            text_column("first_appearance_year", vec![]),
        ],
        if_not_exists: true,
    };
    assert_eq!(parse_create_table_sql(sql).unwrap(), expected);
}

#[test]
fn test_companies() {
    let sql = "CREATE TABLE companies (id integer primary key autoincrement, name text, \"size range\" text)";
    let expected = CreateTableStatement {
        table_name: "companies".to_owned(),
        columns: vec![id_column(), text_column("name", vec![]), text_column("size range", vec![])],
        if_not_exists: false,
    };
    assert_eq!(parse_create_table_sql(sql).unwrap(), expected);
}

#[test]
fn test_eye_color() {
    let sql = "SELECT id, name FROM superheroes WHERE eye_color = 'Pink Eyes'";
    let expected = SelectExpression {
        select_clause: SelectClause::Columns(vec!["id".to_owned(), "name".to_owned()]),
        table: "superheroes".to_owned(),
        where_clause: Some(WhereClause {
            column: "eye_color".to_owned(),
            operator: Operator::Equal,
            value: WhereValue::String("Pink Eyes".to_owned()),
        }),
    };
    assert_eq!(parse_select_sql(sql).unwrap(), expected);
}

#[test]
fn test_create_index_1() {
    let sql = "CREATE UNIQUE INDEX idx_users_email ON users (email);";
    let expected = CreateIndexStatement {
        index_name: "idx_users_email".to_owned(),
        table_name: "users".to_owned(),
        columns: vec!["email".to_owned()],
        unique: true,
        if_not_exists: false,
    };
    assert_eq!(parse_create_index_sql(sql).unwrap(), expected);
}

#[test]
fn test_create_index_2() {
    let sql = "CREATE INDEX idx_companies_country on companies (country)";
    let expected = CreateIndexStatement {
        index_name: "idx_companies_country".to_owned(),
        table_name: "companies".to_owned(),
        columns: vec!["country".to_owned()],
        unique: false,
        if_not_exists: false,
    };
    assert_eq!(parse_create_index_sql(sql).unwrap(), expected);
}

#[test]
fn every_comparison_operator_is_read() {
    for (text, operator) in [
        ("=", Operator::Equal),
        ("!=", Operator::NotEqual),
        ("<", Operator::LessThan),
        ("<=", Operator::LessThanOrEqual),
        (">", Operator::GreaterThan),
        (">=", Operator::GreaterThanOrEqual),
    ] {
        let sql = format!("select a from t where b {} 17;", text);
        let parsed = parse_select_sql(&sql).unwrap();
        let clause = parsed.where_clause.unwrap();
        assert_eq!(clause.operator, operator);
        assert_eq!(clause.column, "b");
        assert_eq!(clause.value, WhereValue::Number("17".to_owned()));
    }
}

#[test]
fn function_names_are_kept_in_upper_case() {
    let parsed = parse_select_sql("select count(*) from users").unwrap();
    assert_eq!(
        parsed.select_clause,
        SelectClause::FunctionCall { name: "COUNT".to_owned(), args: vec!["*".to_owned()] }
    );
}

#[test]
fn trailing_text_is_refused() {
    assert!(matches!(parse_select_sql("SELECT a FROM t; x"), Err(MyError::SqlParseError)));
    assert!(matches!(
        parse_create_table_sql("CREATE TABLE t (a TEXT) x"),
        Err(MyError::SqlParseError)
    ));
    assert!(matches!(
        parse_create_index_sql("CREATE INDEX i ON t (a)) "),
        Err(MyError::SqlParseError)
    ));
}

#[test]
fn default_constraints_keep_their_value() {
    let sql = "CREATE TABLE t (a TEXT DEFAULT 'x y', b INTEGER DEFAULT 42 NOT NULL, c TIMESTAMP default current_timestamp unique)";
    let parsed = parse_create_table_sql(sql).unwrap();
    assert_eq!(parsed.columns[0].constraints, vec![ColumnConstraint::Default("x y".to_owned())]);
    assert_eq!(
        parsed.columns[1].constraints,
        vec![ColumnConstraint::Default("42".to_owned()), ColumnConstraint::NotNull]
    );
    assert_eq!(parsed.columns[2].data_type, DataType::Timestamp);
    assert_eq!(
        parsed.columns[2].constraints,
        vec![ColumnConstraint::Default("CURRENT_TIMESTAMP".to_owned()), ColumnConstraint::Unique]
    );
}

#[test]
fn a_query_is_a_select_or_a_create() {
    match Query::parse("SELECT id, name FROM users WHERE age = 105;").unwrap() {
        Query::Select(select) => {
            assert_eq!(select.table_name, "users");
            assert_eq!(select.columns.len(), 2);
            assert_eq!(select.columns[0].as_name(), Some("id"));
            assert_eq!(select.columns[1].as_name(), Some("name"));
            let filter = select.filter.unwrap();
            assert_eq!(filter.column_name, "age");
            assert_eq!(filter.column_value.as_integer(), Some(105));
        }
        Query::Create(_) => panic!("a SELECT was read as a CREATE"),
    }
    let create = Query::parse("CREATE TABLE t (a TEXT, b INTEGER)").unwrap();
    assert_eq!(create.as_create().unwrap().column_names, vec!["a".to_owned(), "b".to_owned()]);
    let index = Query::parse("CREATE INDEX i ON t (b)").unwrap();
    assert_eq!(index.as_create().unwrap().column_names, vec!["b".to_owned()]);
}

#[test]
fn count_is_the_only_function_and_equality_the_only_filter() {
    match Query::parse("SELECT COUNT(*) FROM users").unwrap() {
        Query::Select(select) => {
            assert!(matches!(select.columns[0], Column::Count));
            assert_eq!(select.columns[0].as_name(), None);
        }
        Query::Create(_) => panic!("a SELECT was read as a CREATE"),
    }
    assert!(matches!(Query::parse("SELECT max(*) FROM users"), Err(MyError::UnsupportedQuery)));
    assert!(matches!(
        Query::parse("SELECT a FROM users WHERE a < 3"),
        Err(MyError::UnsupportedQuery)
    ));
    assert!(matches!(Query::parse("DROP TABLE users"), Err(MyError::SqlParseError)));
}

#[test]
fn a_number_too_large_for_a_row_equals_nothing() {
    match Query::parse("SELECT a FROM t WHERE a = 9223372036854775808").unwrap() {
        Query::Select(select) => {
            assert!(matches!(select.filter.unwrap().column_value, Value::Null));
        }
        Query::Create(_) => panic!("a SELECT was read as a CREATE"),
    }
    match Query::parse("SELECT a FROM t WHERE a = 9223372036854775807").unwrap() {
        Query::Select(select) => {
            assert_eq!(select.filter.unwrap().column_value.as_integer(), Some(i64::MAX));
        }
        Query::Create(_) => panic!("a SELECT was read as a CREATE"),
    }
}
