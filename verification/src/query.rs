//! Queries: from a parsed statement to its rows.
//!
//! A `SELECT` is first brought into the form that the executor plans: the
//! table, the columns or a single `COUNT(*)`, and an optional filter
//! `column = value`. The executor resolves the names in the catalog, looks
//! the filter value up in an index on the filter column if the table has
//! one, and scans the table otherwise.

use crate::database::{
    first_table, records_view, spec_by_row_ids, spec_full_table, spec_search_index,
    Database, ObjectSchema, ObjectSchemaView, Schema, TableSchemaView,
};
use crate::error::{ErrorView, MyError};
use crate::header::Header;
use crate::record::{value_eq, Record, Value, ValueView, values_view};
use crate::sorting::lemma_filter_last;
use crate::sql::{
    columns_view, parse_create_index_sql, parse_create_table_sql, parse_select_sql,
    spec_create_index, spec_create_table, spec_select, strings_view, ColumnDefinition,
    ColumnDefinitionView, Operator, SelectClause, SelectClauseView, SelectExpression,
    SelectExpressionView, WhereClauseView, WhereValue, WhereValueView,
};
use crate::text::str_eq;
use vstd::prelude::*;
use vstd::string::StringSliceAdditionalSpecFns;
use vstd::utf8::encode_utf8;

verus! {

/// What a query selects.
#[derive(Debug)]
pub enum Column {
    Count,
    ColumnName(String),
}

/// The filter of a query: the rows whose column equals the value.
#[derive(Debug)]
pub struct Filter {
    pub column_name: String,
    pub column_value: Value,
}

/// A `SELECT` in the form that the executor plans.
#[derive(Debug)]
pub struct SelectQuery {
    pub table_name: String,
    pub columns: Vec<Column>,
    pub filter: Option<Filter>,
}

/// What the executor keeps of a `CREATE` statement: the names of the
/// columns.
#[derive(Debug)]
pub struct CreateQuery {
    pub column_names: Vec<String>,
}

/// A parsed statement.
#[derive(Debug)]
pub enum Query {
    Select(SelectQuery),
    Create(CreateQuery),
}

pub enum ColumnView {
    Count,
    ColumnName(Seq<char>),
}

pub struct FilterView {
    pub column_name: Seq<char>,
    pub column_value: ValueView,
}

pub struct SelectQueryView {
    pub table_name: Seq<char>,
    pub columns: Seq<ColumnView>,
    pub filter: Option<FilterView>,
}

pub enum QueryView {
    Select(SelectQueryView),
    Create(Seq<Seq<char>>),
}

impl View for Column {
    type V = ColumnView;

    open spec fn view(&self) -> ColumnView {
        match self {
            Column::Count => ColumnView::Count,
            Column::ColumnName(name) => ColumnView::ColumnName(name@),
        }
    }
}

impl View for Filter {
    type V = FilterView;

    open spec fn view(&self) -> FilterView {
        FilterView { column_name: self.column_name@, column_value: self.column_value@ }
    }
}

/// The views of selected columns, one for one.
pub open spec fn selection_view(columns: Seq<Column>) -> Seq<ColumnView> {
    Seq::new(columns.len(), |i: int| columns[i]@)
}

impl View for SelectQuery {
    type V = SelectQueryView;

    open spec fn view(&self) -> SelectQueryView {
        SelectQueryView {
            table_name: self.table_name@,
            columns: selection_view(self.columns@),
            filter: match self.filter {
                Some(filter) => Some(filter@),
                None => None,
            },
        }
    }
}

impl View for Query {
    type V = QueryView;

    open spec fn view(&self) -> QueryView {
        match self {
            Query::Select(select) => QueryView::Select(select@),
            Query::Create(create) => QueryView::Create(strings_view(create.column_names@)),
        }
    }
}

/// The number that decimal digits spell.
pub open spec fn decimal_value(bytes: Seq<u8>) -> nat
    decreases bytes.len(),
{
    if bytes.len() == 0 {
        0
    } else {
        decimal_value(bytes.drop_last()) * 10 + (bytes.last() - 48) as nat
    }
}

/// Whether every byte is a decimal digit.
pub open spec fn all_digits(bytes: Seq<u8>) -> bool {
    forall|i: int| 0 <= i < bytes.len() ==> 48 <= #[trigger] bytes[i] <= 57
}

/// The value of a number literal: the integer that its digits spell. A
/// number that no stored integer can equal is NULL, which equals nothing.
pub open spec fn spec_number_value(digits: Seq<char>) -> ValueView {
    let bytes = encode_utf8(digits);
    if all_digits(bytes) && decimal_value(bytes) <= i64::MAX {
        ValueView::Integer(decimal_value(bytes) as i64)
    } else {
        ValueView::Null
    }
}

/// The columns that a select clause asks for. `COUNT(*)` is the only
/// function.
pub open spec fn spec_selection(clause: SelectClauseView) -> Result<Seq<ColumnView>, ErrorView> {
    match clause {
        SelectClauseView::Columns(names) => Ok(
            Seq::new(names.len(), |i: int| ColumnView::ColumnName(names[i])),
        ),
        SelectClauseView::FunctionCall { name, args } => if name == "COUNT"@ {
            Ok(seq![ColumnView::Count])
        } else {
            Err(ErrorView::UnsupportedQuery)
        },
    }
}

/// The filter that a `WHERE` clause asks for. Equality is the only
/// comparison.
pub open spec fn spec_filter(clause: Option<WhereClauseView>) -> Result<
    Option<FilterView>,
    ErrorView,
> {
    match clause {
        None => Ok(None),
        Some(clause) => if clause.operator != Operator::Equal {
            Err(ErrorView::UnsupportedQuery)
        } else {
            Ok(
                Some(
                    FilterView {
                        column_name: clause.column,
                        column_value: match clause.value {
                            WhereValueView::String(text) => ValueView::Text(text),
                            WhereValueView::Number(digits) => spec_number_value(digits),
                        },
                    },
                ),
            )
        },
    }
}

/// A parsed `SELECT` in the form that the executor plans.
pub open spec fn spec_normalize(select: SelectExpressionView) -> Result<
    SelectQueryView,
    ErrorView,
> {
    match spec_selection(select.select_clause) {
        Err(e) => Err(e),
        Ok(columns) => match spec_filter(select.where_clause) {
            Err(e) => Err(e),
            Ok(filter) => Ok(SelectQueryView { table_name: select.table, columns, filter }),
        },
    }
}

/// The names of columns, one for one.
pub open spec fn column_names(columns: Seq<ColumnDefinitionView>) -> Seq<Seq<char>> {
    Seq::new(columns.len(), |i: int| columns[i].name)
}

/// The query that a statement stands for: a `SELECT`, or else a
/// `CREATE TABLE`, or else a `CREATE INDEX`.
pub open spec fn spec_parse_query(bytes: Seq<u8>) -> Result<QueryView, ErrorView> {
    match spec_select(bytes) {
        Some(select) => match spec_normalize(select) {
            Ok(query) => Ok(QueryView::Select(query)),
            Err(e) => Err(e),
        },
        None => match spec_create_table(bytes) {
            Some(statement) => Ok(QueryView::Create(column_names(statement.columns))),
            None => match spec_create_index(bytes) {
                Some(statement) => Ok(QueryView::Create(statement.columns)),
                None => Err(ErrorView::SqlParseError),
            },
        },
    }
}

/// The number of a digit string stays at least what its first digits spell.
proof fn lemma_decimal_value_grows(bytes: Seq<u8>, i: int)
    requires
        0 <= i <= bytes.len(),
        all_digits(bytes),
    ensures
        decimal_value(bytes.subrange(0, i)) <= decimal_value(bytes),
    decreases bytes.len(),
{
    if i == bytes.len() {
        assert(bytes.subrange(0, i) =~= bytes);
    } else {
        assert(bytes.drop_last().subrange(0, i) =~= bytes.subrange(0, i));
        assert(all_digits(bytes.drop_last()));
        lemma_decimal_value_grows(bytes.drop_last(), i);
        assert(48 <= bytes[bytes.len() - 1] <= 57);
    }
}

/// The value of a number literal.
pub fn number_value(digits: &str) -> (r: Value)
    ensures
        r@ == spec_number_value(digits@),
{
    let bytes = digits.as_bytes();
    let mut value: u64 = 0;
    let mut i: usize = 0;
    assert(bytes@.subrange(0, 0) =~= Seq::<u8>::empty());
    while i < bytes.len()
        invariant
            i <= bytes@.len(),
            bytes@ == encode_utf8(digits@),
            all_digits(bytes@.subrange(0, i as int)),
            value == decimal_value(bytes@.subrange(0, i as int)),
            value <= i64::MAX,
        decreases bytes@.len() - i,
    {
        let b = bytes[i];
        if b < 48 || b > 57 {
            assert(!all_digits(bytes@));
            return Value::Null;
        }
        let d = (b - 48) as u64;
        assert(bytes@.subrange(0, i + 1).drop_last() =~= bytes@.subrange(0, i as int));
        assert(bytes@.subrange(0, i + 1).last() == b);
        assert(all_digits(bytes@.subrange(0, i + 1))) by {
            assert forall|j: int| 0 <= j < i + 1 implies 48 <= #[trigger] bytes@.subrange(
                0,
                i + 1,
            )[j] <= 57 by {
                if j < i {
                    assert(bytes@.subrange(0, i as int)[j] == bytes@[j]);
                }
            }
        }
        if value > (0x7fff_ffff_ffff_ffff - d) / 10 {
            proof {
                if all_digits(bytes@) {
                    lemma_decimal_value_grows(bytes@, i + 1);
                }
            }
            return Value::Null;
        }
        value = value * 10 + d;
        i = i + 1;
    }
    assert(bytes@.subrange(0, i as int) =~= bytes@);
    Value::Integer(value as i64)
}

impl Column {
    /// The name of the column, if a column is selected.
    pub fn as_name(&self) -> (r: Option<&str>)
        ensures
            match r {
                Some(name) => self@ == ColumnView::ColumnName(name@),
                None => self@ is Count,
            },
    {
        match self {
            Column::ColumnName(name) => Some(name.as_str()),
            _ => None,
        }
    }
}

/// Brings a parsed `SELECT` into the form that the executor plans.
pub fn normalize(select: SelectExpression) -> (r: Result<SelectQuery, MyError>)
    ensures
        match r {
            Ok(query) => spec_normalize(select@) == Ok::<SelectQueryView, ErrorView>(query@),
            Err(e) => spec_normalize(select@) == Err::<SelectQueryView, ErrorView>(e@),
        },
{
    let mut columns: Vec<Column> = Vec::new();
    match select.select_clause {
        SelectClause::Columns(names) => {
            let mut names = names;
            let ghost all = strings_view(names@);
            let mut i: usize = 0;
            while i < names.len()
                invariant
                    i <= names@.len(),
                    all == strings_view(names@),
                    columns@.len() == i,
                    forall|j: int|
                        0 <= j < i ==> (#[trigger] columns@[j])@ == ColumnView::ColumnName(all[j]),
                decreases names@.len() - i,
            {
                columns.push(Column::ColumnName(names[i].clone()));
                i = i + 1;
            }
            assert(selection_view(columns@) =~= Seq::new(
                all.len(),
                |i: int| ColumnView::ColumnName(all[i]),
            ));
        },
        SelectClause::FunctionCall { name, args } => {
            if !str_eq(name.as_str(), "COUNT") {
                return Err(MyError::UnsupportedQuery);
            }
            columns.push(Column::Count);
            assert(selection_view(columns@) =~= seq![ColumnView::Count]);
        },
    }
    let filter = match select.where_clause {
        None => None,
        Some(clause) => {
            if !matches!(clause.operator, Operator::Equal) {
                return Err(MyError::UnsupportedQuery);
            }
            let column_value = match clause.value {
                WhereValue::String(text) => Value::Text(text),
                WhereValue::Number(digits) => number_value(digits.as_str()),
            };
            Some(Filter { column_name: clause.column, column_value })
        },
    };
    Ok(SelectQuery { table_name: select.table, columns, filter })
}

/// The index of the first column from `from` on that has the name.
pub open spec fn first_column(columns: Seq<ColumnDefinitionView>, name: Seq<char>, from: int) -> Option<
    int,
>
    decreases columns.len() - from,
{
    if from < 0 || from >= columns.len() {
        None
    } else if columns[from].name == name {
        Some(from)
    } else {
        first_column(columns, name, from + 1)
    }
}

/// Puts the columns resolved so far in front of what the rest resolves to.
pub open spec fn prepend_indices(done: Seq<int>, rest: Result<Seq<int>, ErrorView>) -> Result<
    Seq<int>,
    ErrorView,
> {
    match rest {
        Ok(more) => Ok(done + more),
        Err(e) => Err(e),
    }
}

/// Where the selected columns from `from` on stand in the table. A name
/// that the table does not have is an `UnknownColumn`.
pub open spec fn spec_projection(
    columns: Seq<ColumnDefinitionView>,
    selected: Seq<ColumnView>,
    from: int,
) -> Result<Seq<int>, ErrorView>
    decreases selected.len() - from,
{
    if from < 0 || from >= selected.len() {
        Ok(Seq::empty())
    } else {
        match selected[from] {
            ColumnView::Count => spec_projection(columns, selected, from + 1),
            ColumnView::ColumnName(name) => match first_column(columns, name, 0) {
                None => Err(ErrorView::UnknownColumn(name)),
                Some(index) => prepend_indices(
                    seq![index],
                    spec_projection(columns, selected, from + 1),
                ),
            },
        }
    }
}

/// Where the filter column stands in the table.
pub open spec fn spec_filter_column(
    columns: Seq<ColumnDefinitionView>,
    filter: Option<FilterView>,
) -> Result<Option<int>, ErrorView> {
    match filter {
        None => Ok(None),
        Some(filter) => match first_column(columns, filter.column_name, 0) {
            None => Err(ErrorView::UnknownColumn(filter.column_name)),
            Some(index) => Ok(Some(index)),
        },
    }
}

/// Whether an object is an index on `table` whose first column is `column`.
pub open spec fn is_index_on(object: ObjectSchemaView, table: Seq<char>, column: Seq<char>) -> bool {
    object matches ObjectSchemaView::Index(index) && index.table_name == table
        && index.column_names.len() > 0 && index.column_names[0] == column
}

/// The first index, in the order of the schema, on `table` whose first
/// column is `column`.
pub open spec fn first_index(
    objects: Seq<ObjectSchemaView>,
    table: Seq<char>,
    column: Seq<char>,
    from: int,
) -> Option<int>
    decreases objects.len() - from,
{
    if from < 0 || from >= objects.len() {
        None
    } else if is_index_on(objects[from], table, column) {
        Some(from)
    } else {
        first_index(objects, table, column, from + 1)
    }
}

/// The rows whose value in `column` equals `key`.
pub open spec fn row_matches(column: int, key: ValueView) -> spec_fn(Seq<ValueView>) -> bool {
    |row: Seq<ValueView>| 0 <= column < row.len() && value_eq(row[column], key)
}

/// The rows of a table that an index has for a key: the row ids of the
/// index probe, looked up in the table.
pub open spec fn spec_indexed_rows(
    file: Seq<u8>,
    header: Header,
    index_root: usize,
    table_root: usize,
    key: ValueView,
) -> Result<Seq<Seq<ValueView>>, MyError> {
    match spec_search_index(file, header, index_root, key) {
        Err(e) => Err(e),
        Ok(ids) => spec_by_row_ids(file, header, table_root, ids),
    }
}

/// The rows of a table whose value in `column` equals `key`, found by
/// reading all rows.
pub open spec fn spec_scanned_rows(
    file: Seq<u8>,
    header: Header,
    table_root: usize,
    column: int,
    key: ValueView,
) -> Result<Seq<Seq<ValueView>>, MyError> {
    match spec_full_table(file, header, table_root) {
        Err(e) => Err(e),
        Ok(rows) => Ok(rows.filter(row_matches(column, key))),
    }
}

/// The rows that pass the filter of a query: through the first index on the
/// filter column if the table has one, else by reading all rows.
pub open spec fn spec_matching_rows(
    file: Seq<u8>,
    header: Header,
    schema: Seq<ObjectSchemaView>,
    table: TableSchemaView,
    filter: Option<FilterView>,
    filter_column: Option<int>,
) -> Result<Seq<Seq<ValueView>>, MyError> {
    match filter {
        None => spec_full_table(file, header, table.root_page),
        Some(filter) => match first_index(schema, table.name, filter.column_name, 0) {
            Some(i) => spec_indexed_rows(
                file,
                header,
                schema[i]->Index_0.root_page,
                table.root_page,
                filter.column_value,
            ),
            None => spec_scanned_rows(
                file,
                header,
                table.root_page,
                filter_column->0,
                filter.column_value,
            ),
        },
    }
}

/// The values of a row at the places `projection`; NULL where the row is
/// too short.
pub open spec fn project(row: Seq<ValueView>, projection: Seq<int>) -> Seq<ValueView> {
    Seq::new(
        projection.len(),
        |j: int|
            if 0 <= projection[j] < row.len() {
                row[projection[j]]
            } else {
                ValueView::Null
            },
    )
}

/// Every row projected.
pub open spec fn project_all(rows: Seq<Seq<ValueView>>, projection: Seq<int>) -> Seq<
    Seq<ValueView>,
> {
    Seq::new(rows.len(), |i: int| project(rows[i], projection))
}

/// Whether `COUNT(*)` is among the selected columns.
pub open spec fn has_count(columns: Seq<ColumnView>) -> bool {
    exists|i: int| 0 <= i < columns.len() && #[trigger] columns[i] is Count
}

/// The number of rows as a value.
pub open spec fn count_value(n: nat) -> ValueView {
    if n <= i64::MAX {
        ValueView::Integer(n as i64)
    } else {
        ValueView::Integer(i64::MAX)
    }
}

/// The errors of the storage layer as errors of a query.
pub open spec fn lift<T>(r: Result<T, MyError>) -> Result<T, ErrorView> {
    match r {
        Ok(value) => Ok(value),
        Err(e) => Err(e@),
    }
}

/// The result of a `SELECT` on a table of the catalog.
pub open spec fn spec_select_rows(
    file: Seq<u8>,
    header: Header,
    schema: Seq<ObjectSchemaView>,
    table: TableSchemaView,
    query: SelectQueryView,
) -> Result<Seq<Seq<ValueView>>, ErrorView> {
    match spec_projection(table.column_defs, query.columns, 0) {
        Err(e) => Err(e),
        Ok(projection) => match spec_filter_column(table.column_defs, query.filter) {
            Err(e) => Err(e),
            Ok(filter_column) => match lift(
                spec_matching_rows(file, header, schema, table, query.filter, filter_column),
            ) {
                Err(e) => Err(e),
                Ok(rows) => if has_count(query.columns) {
                    Ok(seq![seq![count_value(rows.len())]])
                } else {
                    Ok(project_all(rows, projection))
                },
            },
        },
    }
}

/// The rows that a query returns on the database in `file` with the catalog
/// `schema`. A `CREATE` statement is not executed, `COUNT(*)` has to be
/// selected alone, and the table has to be in the catalog.
pub open spec fn spec_execute(
    file: Seq<u8>,
    header: Header,
    schema: Seq<ObjectSchemaView>,
    query: QueryView,
) -> Result<Seq<Seq<ValueView>>, ErrorView> {
    match query {
        QueryView::Create(_) => Err(ErrorView::UnsupportedQuery),
        QueryView::Select(select) => if has_count(select.columns) && select.columns.len() != 1 {
            Err(ErrorView::UnsupportedQuery)
        } else {
            match first_table(schema, select.table_name, 0) {
                None => Err(ErrorView::UnknownTable(select.table_name)),
                Some(i) => spec_select_rows(file, header, schema, schema[i]->Table_0, select),
            }
        },
    }
}

/// Running a query twice on the same file gives the same rows: the result
/// depends on nothing but the bytes of the file, the catalog read from them
/// and the query, whatever pages the first run left decoded.
pub proof fn lemma_execute_is_repeatable(
    first: Database,
    second: Database,
    query: Query,
    other: Query,
)
    requires
        first.wf(),
        second.wf(),
        first.sqlite.file@ == second.sqlite.file@,
        query@ == other@,
    ensures
        first.sqlite.header == second.sqlite.header,
        first.schema@ == second.schema@,
        spec_execute(first.sqlite.file@, first.sqlite.header, first.schema@.objects, query@)
            == spec_execute(
            second.sqlite.file@,
            second.sqlite.header,
            second.schema@.objects,
            other@,
        ),
{
}

/// The views of result rows, one for one.
pub open spec fn table_view(rows: Seq<Vec<Value>>) -> Seq<Seq<ValueView>> {
    Seq::new(rows.len(), |i: int| values_view(rows[i]@))
}

/// Finds the first column with the name.
pub fn column_index(columns: &Vec<ColumnDefinition>, name: &str) -> (r: Option<usize>)
    ensures
        match r {
            Some(index) => first_column(columns_view(columns@), name@, 0) == Some(index as int)
                && index < columns@.len(),
            None => first_column(columns_view(columns@), name@, 0) is None,
        },
{
    let mut i: usize = 0;
    while i < columns.len()
        invariant
            i <= columns@.len(),
            first_column(columns_view(columns@), name@, i as int) == first_column(
                columns_view(columns@),
                name@,
                0,
            ),
        decreases columns@.len() - i,
    {
        if str_eq(columns[i].name.as_str(), name) {
            return Some(i);
        }
        i = i + 1;
    }
    None
}

/// The places as integers.
pub open spec fn places(projection: Seq<usize>) -> Seq<int> {
    Seq::new(projection.len(), |i: int| projection[i] as int)
}

/// Resolves the selected columns in the table.
pub fn projection(columns: &Vec<ColumnDefinition>, selected: &Vec<Column>) -> (r: Result<
    Vec<usize>,
    MyError,
>)
    ensures
        match r {
            Ok(found) => spec_projection(columns_view(columns@), selection_view(selected@), 0)
                == Ok::<Seq<int>, ErrorView>(places(found@)),
            Err(e) => spec_projection(columns_view(columns@), selection_view(selected@), 0)
                == Err::<Seq<int>, ErrorView>(e@),
        },
{
    let mut found: Vec<usize> = Vec::new();
    let mut i: usize = 0;
    let ghost defs = columns_view(columns@);
    let ghost wanted = selection_view(selected@);
    let ghost whole = spec_projection(defs, wanted, 0);
    proof {
        match whole {
            Ok(all) => {
                assert(places(found@) + all =~= all);
            },
            Err(_) => {},
        }
    }
    while i < selected.len()
        invariant
            i <= selected@.len(),
            defs == columns_view(columns@),
            wanted == selection_view(selected@),
            whole == spec_projection(defs, wanted, 0),
            whole == prepend_indices(places(found@), spec_projection(defs, wanted, i as int)),
        decreases selected@.len() - i,
    {
        let ghost before = places(found@);
        assert(wanted[i as int] == selected@[i as int]@);
        match &selected[i] {
            Column::Count => {},
            Column::ColumnName(name) => {
                let index = match column_index(columns, name.as_str()) {
                    Some(index) => index,
                    None => { return Err(MyError::UnknownColumn(name.clone())); },
                };
                found.push(index);
                proof {
                    assert(places(found@) =~= before.push(index as int));
                    match spec_projection(defs, wanted, i + 1) {
                        Ok(more) => {
                            assert(before + (seq![index as int] + more) =~= before.push(
                                index as int,
                            ) + more);
                        },
                        Err(_) => {},
                    }
                }
            },
        }
        i = i + 1;
    }
    assert(places(found@) + Seq::<int>::empty() =~= places(found@));
    Ok(found)
}

/// Whether `COUNT(*)` is among the selected columns.
pub fn selects_count(selected: &Vec<Column>) -> (r: bool)
    ensures
        r == has_count(selection_view(selected@)),
{
    let mut i: usize = 0;
    while i < selected.len()
        invariant
            i <= selected@.len(),
            forall|j: int| 0 <= j < i ==> !(#[trigger] selection_view(selected@)[j] is Count),
        decreases selected@.len() - i,
    {
        if let Column::Count = &selected[i] {
            assert(selection_view(selected@)[i as int] is Count);
            return true;
        }
        i = i + 1;
    }
    false
}

/// Finds the root page of the first index on `table` whose first column is
/// `column`.
pub fn pick_index(schema: &Schema, table: &str, column: &str) -> (r: Option<usize>)
    ensures
        match r {
            Some(root_page) => first_index(schema@.objects, table@, column@, 0) matches Some(i)
                && schema@.objects[i]->Index_0.root_page == root_page,
            None => first_index(schema@.objects, table@, column@, 0) is None,
        },
{
    let mut i: usize = 0;
    while i < schema.objects.len()
        invariant
            i <= schema.objects@.len(),
            first_index(schema@.objects, table@, column@, i as int) == first_index(
                schema@.objects,
                table@,
                column@,
                0,
            ),
        decreases schema.objects@.len() - i,
    {
        if let ObjectSchema::Index(index) = &schema.objects[i] {
            assert(schema@.objects[i as int] == ObjectSchemaView::Index(index@));
            if str_eq(index.table_name.as_str(), table) && index.column_names.len() > 0 && str_eq(
                index.column_names[0].as_str(),
                column,
            ) {
                return Some(index.root_page);
            }
        }
        i = i + 1;
    }
    None
}

/// Keeps the records whose value in `column` equals `key`.
pub fn keep_matching(records: &Vec<Record>, column: usize, key: &Value) -> (r: Vec<Record>)
    ensures
        records_view(r@) == records_view(records@).filter(row_matches(column as int, key@)),
{
    let mut kept: Vec<Record> = Vec::new();
    let mut i: usize = 0;
    let ghost all = records_view(records@);
    let ghost wanted = row_matches(column as int, key@);
    proof {
        reveal(Seq::filter);
        assert(all.subrange(0, 0) =~= Seq::<Seq<ValueView>>::empty());
        assert(records_view(kept@) =~= all.subrange(0, 0).filter(wanted));
    }
    while i < records.len()
        invariant
            i <= records@.len(),
            all == records_view(records@),
            wanted == row_matches(column as int, key@),
            records_view(kept@) == all.subrange(0, i as int).filter(wanted),
        decreases records@.len() - i,
    {
        let ghost before = records_view(kept@);
        proof {
            assert(all.subrange(0, i + 1).drop_last() =~= all.subrange(0, i as int));
            assert(all.subrange(0, i + 1).last() == records@[i as int]@);
            lemma_filter_last(all.subrange(0, i + 1), wanted);
        }
        let record = &records[i];
        if column < record.values.len() && record.values[column].equals(key) {
            kept.push(record.clone());
            assert(records_view(kept@) =~= before.push(record@));
        }
        i = i + 1;
    }
    assert(all.subrange(0, i as int) =~= all);
    kept
}

/// Projects every record to the places `projection`.
pub fn project_records(records: &Vec<Record>, projection: &Vec<usize>) -> (r: Vec<Vec<Value>>)
    ensures
        table_view(r@) == project_all(records_view(records@), places(projection@)),
{
    let mut rows: Vec<Vec<Value>> = Vec::new();
    let mut i: usize = 0;
    while i < records.len()
        invariant
            i <= records@.len(),
            rows@.len() == i,
            forall|k: int|
                0 <= k < i ==> values_view((#[trigger] rows@[k])@) == project(
                    records@[k]@,
                    places(projection@),
                ),
        decreases records@.len() - i,
    {
        let record = &records[i];
        let mut row: Vec<Value> = Vec::new();
        let mut j: usize = 0;
        while j < projection.len()
            invariant
                j <= projection@.len(),
                row@.len() == j,
                forall|k: int|
                    0 <= k < j ==> (#[trigger] row@[k])@ == project(
                        record@,
                        places(projection@),
                    )[k],
            decreases projection@.len() - j,
        {
            let place = projection[j];
            if place < record.values.len() {
                row.push(record.values[place].clone());
            } else {
                row.push(Value::Null);
            }
            j = j + 1;
        }
        assert(values_view(row@) =~= project(record@, places(projection@)));
        rows.push(row);
        i = i + 1;
    }
    assert(table_view(rows@) =~= project_all(records_view(records@), places(projection@)));
    rows
}

impl Query {
    /// Parses a statement: a `SELECT`, or else a `CREATE TABLE`, or else a
    /// `CREATE INDEX`.
    pub fn parse(query_str: &str) -> (r: Result<Query, MyError>)
        ensures
            match r {
                Ok(query) => spec_parse_query(query_str.spec_bytes()) == Ok::<
                    QueryView,
                    ErrorView,
                >(query@),
                Err(e) => spec_parse_query(query_str.spec_bytes()) == Err::<QueryView, ErrorView>(
                    e@,
                ),
            },
    {
        if let Ok(select) = parse_select_sql(query_str) {
            return match normalize(select) {
                Ok(query) => Ok(Query::Select(query)),
                Err(e) => Err(e),
            };
        }
        if let Ok(statement) = parse_create_table_sql(query_str) {
            let mut names: Vec<String> = Vec::new();
            let mut i: usize = 0;
            while i < statement.columns.len()
                invariant
                    i <= statement.columns@.len(),
                    names@.len() == i,
                    forall|j: int|
                        0 <= j < i ==> (#[trigger] names@[j])@ == statement.columns@[j].name@,
                decreases statement.columns@.len() - i,
            {
                names.push(statement.columns[i].name.clone());
                i = i + 1;
            }
            assert(strings_view(names@) =~= column_names(statement@.columns));
            return Ok(Query::Create(CreateQuery { column_names: names }));
        }
        match parse_create_index_sql(query_str) {
            Ok(statement) => Ok(Query::Create(CreateQuery { column_names: statement.columns })),
            Err(_) => Err(MyError::SqlParseError),
        }
    }

    /// The `CREATE` statement, if the query is one.
    pub fn as_create(&self) -> (r: Option<&CreateQuery>)
        ensures
            match r {
                Some(create) => self@ == QueryView::Create(strings_view(create.column_names@)),
                None => self@ is Select,
            },
    {
        match self {
            Query::Create(create) => Some(create),
            _ => None,
        }
    }

    /// Runs the query on the database and returns its rows: the selected
    /// values of every row that passes the filter, in the order in which the
    /// table is read, or the number of those rows for `COUNT(*)`.
    pub fn execute(&self, db: &mut Database) -> (r: Result<Vec<Vec<Value>>, MyError>)
        requires
            old(db).wf(),
        ensures
            final(db).wf(),
            final(db).sqlite.file@ == old(db).sqlite.file@,
            final(db).schema == old(db).schema,
            match r {
                Ok(rows) => spec_execute(
                    old(db).sqlite.file@,
                    old(db).sqlite.header,
                    old(db).schema@.objects,
                    self@,
                ) == Ok::<Seq<Seq<ValueView>>, ErrorView>(table_view(rows@)),
                Err(e) => spec_execute(
                    old(db).sqlite.file@,
                    old(db).sqlite.header,
                    old(db).schema@.objects,
                    self@,
                ) == Err::<Seq<Seq<ValueView>>, ErrorView>(e@),
            },
    {
        let select = match self {
            Query::Select(select) => select,
            Query::Create(_) => { return Err(MyError::UnsupportedQuery); },
        };
        let counting = selects_count(&select.columns);
        if counting && select.columns.len() != 1 {
            return Err(MyError::UnsupportedQuery);
        }
        let table = match db.schema.find_table(select.table_name.as_str()) {
            Some(table) => table,
            None => { return Err(MyError::UnknownTable(select.table_name.clone())); },
        };
        let root_page = table.root_page;
        let places = match projection(&table.column_defs, &select.columns) {
            Ok(places) => places,
            Err(e) => { return Err(e); },
        };
        let mut filter_column: usize = 0;
        let mut index_root: Option<usize> = None;
        if let Some(filter) = &select.filter {
            filter_column = match column_index(&table.column_defs, filter.column_name.as_str()) {
                Some(index) => index,
                None => { return Err(MyError::UnknownColumn(filter.column_name.clone())); },
            };
            index_root = pick_index(&db.schema, table.name.as_str(), filter.column_name.as_str());
        }
        let records = match &select.filter {
            None => match db.get_full_table(root_page) {
                Ok(records) => records,
                Err(e) => { return Err(e); },
            },
            Some(filter) => match index_root {
                Some(index_root) => {
                    let ids = match db.search_index(index_root, &filter.column_value) {
                        Ok(ids) => ids,
                        Err(e) => { return Err(e); },
                    };
                    match db.get_by_row_ids(root_page, &ids) {
                        Ok(records) => records,
                        Err(e) => { return Err(e); },
                    }
                },
                None => match db.get_full_table(root_page) {
                    Ok(records) => keep_matching(&records, filter_column, &filter.column_value),
                    Err(e) => { return Err(e); },
                },
            },
        };
        if counting {
            let n = records.len();
            let count: i64 = if n as u64 <= 0x7fff_ffff_ffff_ffff {
                n as i64
            } else {
                0x7fff_ffff_ffff_ffff
            };
            let mut row: Vec<Value> = Vec::new();
            row.push(Value::Integer(count));
            let mut rows: Vec<Vec<Value>> = Vec::new();
            rows.push(row);
            assert(table_view(rows@) =~= seq![seq![count_value(records_view(records@).len())]]) by {
                assert(values_view(rows@[0]@) =~= seq![count_value(records_view(records@).len())]);
            }
            Ok(rows)
        } else {
            Ok(project_records(&records, &places))
        }
    }
}

} // verus!
