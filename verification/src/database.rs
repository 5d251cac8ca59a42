//! The catalog of a database and the lookups that a query needs.

use crate::btree::{
    code_of, index_probe, rows_by_ids, rows_view, spec_index_probe, spec_rows_by_ids,
    spec_table_rows, table_rows, type_code, page_rows,
};
use crate::cell::{Cell, LeafTableCell, LeafTableCellView};
use crate::error::MyError;
use crate::header::{spec_parse_header, Header};
use crate::page::Page;
use crate::page_type::BTreePageType;
use crate::record::{Record, Value, ValueView};
use crate::sorting::{sort_ascending, sorted_ascending};
use crate::sql::{
    columns_view, parse_create_index_sql, parse_create_table_sql, spec_create_index,
    spec_create_table, strings_view, ColumnDefinition, ColumnDefinitionView,
};
use crate::sqlite::{spec_page, spec_page_count, SQLite};
use crate::text::str_eq;
use vstd::prelude::*;
use vstd::utf8::encode_utf8;

verus! {

/// A table of the catalog.
#[derive(Debug)]
pub struct TableSchema {
    pub name: String,
    /// The number of the root page of the table, counted from one.
    pub root_page: usize,
    pub sql: String,
    /// The columns that the `CREATE TABLE` statement declares; none where
    /// the statement is outside the dialect.
    pub column_defs: Vec<ColumnDefinition>,
}

/// An index of the catalog.
#[derive(Debug)]
pub struct IndexSchema {
    pub name: String,
    pub table_name: String,
    /// The number of the root page of the index, counted from one.
    pub root_page: usize,
    pub sql: String,
    /// The columns that the `CREATE INDEX` statement names; none where the
    /// statement is outside the dialect.
    pub column_names: Vec<String>,
    pub unique: bool,
}

/// An object of the catalog. Views and triggers are known by their kind
/// only.
#[derive(Debug)]
pub enum ObjectSchema {
    Table(TableSchema),
    Index(IndexSchema),
    View,
    Trigger,
}

/// The catalog: the objects of the schema table in its order. Of the
/// tables and indexes with one name only the first is an object; the name
/// of each one that came later is listed under `duplicates`.
#[derive(Debug)]
pub struct Schema {
    pub objects: Vec<ObjectSchema>,
    pub duplicates: Vec<String>,
}

/// An open database with its catalog.
#[derive(Debug)]
pub struct Database {
    pub sqlite: SQLite,
    pub schema: Schema,
}

pub struct TableSchemaView {
    pub name: Seq<char>,
    pub root_page: usize,
    pub sql: Seq<char>,
    pub column_defs: Seq<ColumnDefinitionView>,
}

pub struct IndexSchemaView {
    pub name: Seq<char>,
    pub table_name: Seq<char>,
    pub root_page: usize,
    pub sql: Seq<char>,
    pub column_names: Seq<Seq<char>>,
    pub unique: bool,
}

pub enum ObjectSchemaView {
    Table(TableSchemaView),
    Index(IndexSchemaView),
    View,
    Trigger,
}

impl View for TableSchema {
    type V = TableSchemaView;

    open spec fn view(&self) -> TableSchemaView {
        TableSchemaView {
            name: self.name@,
            root_page: self.root_page,
            sql: self.sql@,
            column_defs: columns_view(self.column_defs@),
        }
    }
}

impl View for IndexSchema {
    type V = IndexSchemaView;

    open spec fn view(&self) -> IndexSchemaView {
        IndexSchemaView {
            name: self.name@,
            table_name: self.table_name@,
            root_page: self.root_page,
            sql: self.sql@,
            column_names: strings_view(self.column_names@),
            unique: self.unique,
        }
    }
}

impl View for ObjectSchema {
    type V = ObjectSchemaView;

    open spec fn view(&self) -> ObjectSchemaView {
        match self {
            ObjectSchema::Table(table) => ObjectSchemaView::Table(table@),
            ObjectSchema::Index(index) => ObjectSchemaView::Index(index@),
            ObjectSchema::View => ObjectSchemaView::View,
            ObjectSchema::Trigger => ObjectSchemaView::Trigger,
        }
    }
}

/// The views of a sequence of objects, one for one.
pub open spec fn objects_view(objects: Seq<ObjectSchema>) -> Seq<ObjectSchemaView> {
    Seq::new(objects.len(), |i: int| objects[i]@)
}

pub struct SchemaView {
    pub objects: Seq<ObjectSchemaView>,
    pub duplicates: Seq<Seq<char>>,
}

impl View for Schema {
    type V = SchemaView;

    open spec fn view(&self) -> SchemaView {
        SchemaView {
            objects: objects_view(self.objects@),
            duplicates: strings_view(self.duplicates@),
        }
    }
}

/// The columns that a `CREATE TABLE` statement declares; none if the text
/// is no such statement of the dialect.
pub open spec fn spec_table_columns(sql: Seq<char>) -> Seq<ColumnDefinitionView> {
    match spec_create_table(encode_utf8(sql)) {
        Some(statement) => statement.columns,
        None => Seq::empty(),
    }
}

/// The columns that a `CREATE INDEX` statement names and whether it says
/// `UNIQUE`; no columns if the text is no such statement of the dialect.
pub open spec fn spec_index_columns(sql: Seq<char>) -> (Seq<Seq<char>>, bool) {
    match spec_create_index(encode_utf8(sql)) {
        Some(statement) => (statement.columns, statement.unique),
        None => (Seq::empty(), false),
    }
}

/// The object that a row of the schema table describes. The row holds the
/// kind of the object, its name, the name of its table, the number of its
/// root page and the text of the statement that made it, which may be NULL.
pub open spec fn spec_object(row: Seq<ValueView>) -> Result<ObjectSchemaView, MyError> {
    if row.len() < 5 {
        Err(MyError::InvalidRecord)
    } else {
        match (row[0], row[1], row[2], row[3]) {
            (
                ValueView::Text(kind),
                ValueView::Text(name),
                ValueView::Text(table_name),
                ValueView::Integer(root),
            ) => {
                let sql = match row[4] {
                    ValueView::Text(text) => Some(text),
                    ValueView::Null => Some(Seq::empty()),
                    _ => None,
                };
                if root < 0 || root > usize::MAX || sql is None {
                    Err(MyError::InvalidRecord)
                } else if kind == "table"@ {
                    Ok(
                        ObjectSchemaView::Table(
                            TableSchemaView {
                                name,
                                root_page: root as usize,
                                sql: sql->0,
                                column_defs: spec_table_columns(sql->0),
                            },
                        ),
                    )
                } else if kind == "index"@ {
                    Ok(
                        ObjectSchemaView::Index(
                            IndexSchemaView {
                                name,
                                table_name,
                                root_page: root as usize,
                                sql: sql->0,
                                column_names: spec_index_columns(sql->0).0,
                                unique: spec_index_columns(sql->0).1,
                            },
                        ),
                    )
                } else if kind == "view"@ {
                    Ok(ObjectSchemaView::View)
                } else if kind == "trigger"@ {
                    Ok(ObjectSchemaView::Trigger)
                } else {
                    Err(MyError::InvalidRecord)
                }
            },
            _ => Err(MyError::InvalidRecord),
        }
    }
}

/// The name of a table or an index.
pub open spec fn object_name(object: ObjectSchemaView) -> Option<Seq<char>> {
    match object {
        ObjectSchemaView::Table(table) => Some(table.name),
        ObjectSchemaView::Index(index) => Some(index.name),
        _ => None,
    }
}

/// Whether one of the objects has the name.
pub open spec fn has_name(objects: Seq<ObjectSchemaView>, name: Option<Seq<char>>) -> bool {
    name is Some && exists|i: int| 0 <= i < objects.len() && object_name(#[trigger] objects[i]) == name
}

/// The objects that the rows of the schema table describe, in their order.
/// Of the objects with one name only the first is kept.
pub open spec fn spec_objects(rows: Seq<LeafTableCellView>) -> Result<
    Seq<ObjectSchemaView>,
    MyError,
>
    decreases rows.len(),
{
    if rows.len() == 0 {
        Ok(Seq::empty())
    } else {
        match spec_objects(rows.drop_last()) {
            Err(e) => Err(e),
            Ok(objects) => match spec_object(rows.last().payload) {
                Err(e) => Err(e),
                Ok(object) => if has_name(objects, object_name(object)) {
                    Ok(objects)
                } else {
                    Ok(objects.push(object))
                },
            },
        }
    }
}

/// The names that the rows of the schema table give to more than one
/// object, once for every object that came too late.
pub open spec fn spec_duplicates(rows: Seq<LeafTableCellView>) -> Seq<Seq<char>>
    decreases rows.len(),
{
    if rows.len() == 0 {
        Seq::empty()
    } else {
        match (spec_objects(rows.drop_last()), spec_object(rows.last().payload)) {
            (Ok(objects), Ok(object)) => if has_name(objects, object_name(object)) {
                spec_duplicates(rows.drop_last()).push(object_name(object)->0)
            } else {
                spec_duplicates(rows.drop_last())
            },
            _ => spec_duplicates(rows.drop_last()),
        }
    }
}

/// The catalog of the database in `file`: the objects that the rows of page
/// one describe. Page one has to be a table leaf.
pub open spec fn spec_schema(file: Seq<u8>, header: Header) -> Result<
    Seq<ObjectSchemaView>,
    MyError,
> {
    match spec_page(file, header, 1) {
        Err(e) => Err(e),
        Ok(page) => if page.page_type == BTreePageType::TableLeaf {
            spec_objects(page_rows(page.cells))
        } else {
            Err(MyError::InvalidPageType(type_code(page.page_type)))
        },
    }
}

/// The names of the objects of page one that came too late.
pub open spec fn spec_schema_duplicates(file: Seq<u8>, header: Header) -> Seq<Seq<char>> {
    match spec_page(file, header, 1) {
        Ok(page) => spec_duplicates(page_rows(page.cells)),
        Err(_) => Seq::empty(),
    }
}

/// The index of the first table from `from` on that has the name.
pub open spec fn first_table(objects: Seq<ObjectSchemaView>, name: Seq<char>, from: int) -> Option<
    int,
>
    decreases objects.len() - from,
{
    if from < 0 || from >= objects.len() {
        None
    } else if objects[from] matches ObjectSchemaView::Table(table) && table.name == name {
        Some(from)
    } else {
        first_table(objects, name, from + 1)
    }
}

/// The number of tables among the objects.
pub open spec fn spec_table_count(objects: Seq<ObjectSchemaView>) -> nat
    decreases objects.len(),
{
    if objects.len() == 0 {
        0
    } else if objects.last() is Table {
        spec_table_count(objects.drop_last()) + 1
    } else {
        spec_table_count(objects.drop_last())
    }
}

/// The names of the tables among the objects, in their order.
pub open spec fn spec_table_names(objects: Seq<ObjectSchemaView>) -> Seq<Seq<char>>
    decreases objects.len(),
{
    if objects.len() == 0 {
        Seq::empty()
    } else {
        match objects.last() {
            ObjectSchemaView::Table(table) => spec_table_names(objects.drop_last()).push(
                table.name,
            ),
            _ => spec_table_names(objects.drop_last()),
        }
    }
}

/// The payloads of rows, one for one.
pub open spec fn payloads(rows: Seq<LeafTableCellView>) -> Seq<Seq<ValueView>> {
    Seq::new(rows.len(), |i: int| rows[i].payload)
}

/// The views of records, one for one.
pub open spec fn records_view(records: Seq<Record>) -> Seq<Seq<ValueView>> {
    Seq::new(records.len(), |i: int| records[i]@)
}

/// The payloads of what a walk of a table found.
pub open spec fn payloads_of(found: Result<Seq<LeafTableCellView>, MyError>) -> Result<
    Seq<Seq<ValueView>>,
    MyError,
> {
    match found {
        Ok(rows) => Ok(payloads(rows)),
        Err(e) => Err(e),
    }
}

/// The zero-based index of the page with number `root_page`, or the error
/// for a number that names no page.
pub open spec fn spec_root_index(root_page: usize) -> Result<int, MyError> {
    if root_page == 0 {
        Err(MyError::Truncated)
    } else {
        Ok(root_page - 1)
    }
}

/// All records of the table with root page `root_page`.
pub open spec fn spec_full_table(file: Seq<u8>, header: Header, root_page: usize) -> Result<
    Seq<Seq<ValueView>>,
    MyError,
> {
    match spec_root_index(root_page) {
        Err(e) => Err(e),
        Ok(index) => payloads_of(
            spec_table_rows(file, header, index, spec_page_count(file, header) as nat),
        ),
    }
}

/// The records of the table with root page `root_page` that a walk for the
/// row ids `row_ids` finds.
pub open spec fn spec_by_row_ids(
    file: Seq<u8>,
    header: Header,
    root_page: usize,
    row_ids: Seq<i64>,
) -> Result<Seq<Seq<ValueView>>, MyError> {
    match spec_root_index(root_page) {
        Err(e) => Err(e),
        Ok(index) => payloads_of(
            spec_rows_by_ids(file, header, index, row_ids, spec_page_count(file, header) as nat),
        ),
    }
}

/// The row ids that the index with root page `root_page` has for `key`, in
/// ascending order.
pub open spec fn spec_search_index(
    file: Seq<u8>,
    header: Header,
    root_page: usize,
    key: ValueView,
) -> Result<Seq<i64>, MyError> {
    match spec_root_index(root_page) {
        Err(e) => Err(e),
        Ok(index) => match spec_index_probe(
            file,
            header,
            index,
            key,
            spec_page_count(file, header) as nat,
        ) {
            Ok(ids) => Ok(sorted_ascending(ids)),
            Err(e) => Err(e),
        },
    }
}

impl ObjectSchema {
    /// The table, if the object is one.
    pub fn as_table(&self) -> (r: Option<&TableSchema>)
        ensures
            match r {
                Some(table) => self@ == ObjectSchemaView::Table(table@),
                None => !(self@ is Table),
            },
    {
        match self {
            ObjectSchema::Table(table) => Some(table),
            _ => None,
        }
    }

    /// The index, if the object is one.
    pub fn as_index(&self) -> (r: Option<&IndexSchema>)
        ensures
            match r {
                Some(index) => self@ == ObjectSchemaView::Index(index@),
                None => !(self@ is Index),
            },
    {
        match self {
            ObjectSchema::Index(index) => Some(index),
            _ => None,
        }
    }
}

impl Schema {
    /// The number of tables.
    pub fn table_count(&self) -> (r: usize)
        ensures
            r == spec_table_count(self@.objects),
    {
        let mut count: usize = 0;
        let mut i: usize = 0;
        let ghost all = self@.objects;
        assert(all.subrange(0, 0) =~= Seq::<ObjectSchemaView>::empty());
        while i < self.objects.len()
            invariant
                i <= self.objects@.len(),
                all == objects_view(self.objects@),
                count == spec_table_count(all.subrange(0, i as int)),
                count <= i,
            decreases self.objects@.len() - i,
        {
            assert(all.subrange(0, i + 1).drop_last() =~= all.subrange(0, i as int));
            assert(all.subrange(0, i + 1).last() == self.objects@[i as int]@);
            if let ObjectSchema::Table(_) = &self.objects[i] {
                count = count + 1;
            }
            i = i + 1;
        }
        assert(all.subrange(0, i as int) =~= all);
        count
    }

    /// The names of the tables, in the order of the schema.
    pub fn table_names(&self) -> (r: Vec<&str>)
        ensures
            r@.len() == spec_table_names(self@.objects).len(),
            forall|i: int| 0 <= i < r@.len() ==> (#[trigger] r@[i])@ == spec_table_names(self@.objects)[i],
    {
        let mut names: Vec<&str> = Vec::new();
        let mut i: usize = 0;
        let ghost all = self@.objects;
        assert(all.subrange(0, 0) =~= Seq::<ObjectSchemaView>::empty());
        while i < self.objects.len()
            invariant
                i <= self.objects@.len(),
                all == objects_view(self.objects@),
                names@.len() == spec_table_names(all.subrange(0, i as int)).len(),
                forall|j: int|
                    0 <= j < names@.len() ==> (#[trigger] names@[j])@ == spec_table_names(
                        all.subrange(0, i as int),
                    )[j],
            decreases self.objects@.len() - i,
        {
            assert(all.subrange(0, i + 1).drop_last() =~= all.subrange(0, i as int));
            assert(all.subrange(0, i + 1).last() == self.objects@[i as int]@);
            if let ObjectSchema::Table(table) = &self.objects[i] {
                names.push(table.name.as_str());
            }
            i = i + 1;
        }
        assert(all.subrange(0, i as int) =~= all);
        names
    }

    /// The first table with the name, if there is one.
    pub fn find_table(&self, table_name: &str) -> (r: Option<&TableSchema>)
        ensures
            match r {
                Some(table) => first_table(self@.objects, table_name@, 0) matches Some(i) && self@.objects[i]
                    == ObjectSchemaView::Table(table@),
                None => first_table(self@.objects, table_name@, 0) is None,
            },
    {
        let mut i: usize = 0;
        while i < self.objects.len()
            invariant
                i <= self.objects@.len(),
                first_table(self@.objects, table_name@, i as int) == first_table(self@.objects, table_name@, 0),
            decreases self.objects@.len() - i,
        {
            if let ObjectSchema::Table(table) = &self.objects[i] {
                if str_eq(table.name.as_str(), table_name) {
                    return Some(table);
                }
            }
            i = i + 1;
        }
        None
    }

    /// The number of the root page of the first table with the name.
    pub fn table_root_page(&self, table_name: &str) -> (r: Result<usize, MyError>)
        ensures
            match r {
                Ok(root_page) => first_table(self@.objects, table_name@, 0) matches Some(i) && (self@.objects[i]
                    matches ObjectSchemaView::Table(table) && table.root_page == root_page),
                Err(e) => first_table(self@.objects, table_name@, 0) is None && (e
                    matches MyError::UnknownTable(name) && name@ == table_name@),
            },
    {
        match self.find_table(table_name) {
            Some(table) => Ok(table.root_page),
            None => Err(MyError::UnknownTable(table_name.to_owned())),
        }
    }
}

/// Whether one of the objects is a table or an index with the name.
fn is_known(objects: &Vec<ObjectSchema>, name: &str) -> (r: bool)
    ensures
        r == has_name(objects_view(objects@), Some(name@)),
{
    let mut i: usize = 0;
    while i < objects.len()
        invariant
            i <= objects@.len(),
            forall|j: int|
                0 <= j < i ==> object_name(#[trigger] objects_view(objects@)[j]) != Some(name@),
        decreases objects@.len() - i,
    {
        let known = match &objects[i] {
            ObjectSchema::Table(table) => str_eq(table.name.as_str(), name),
            ObjectSchema::Index(index) => str_eq(index.name.as_str(), name),
            _ => false,
        };
        if known {
            assert(object_name(objects_view(objects@)[i as int]) == Some(name@));
            return true;
        }
        i = i + 1;
    }
    false
}

/// Reads the object that a row of the schema table describes.
fn read_object(row: &Record) -> (r: Result<ObjectSchema, MyError>)
    ensures
        match r {
            Ok(object) => spec_object(row@) == Ok::<ObjectSchemaView, MyError>(object@),
            Err(e) => spec_object(row@) == Err::<ObjectSchemaView, MyError>(e),
        },
{
    if row.values.len() < 5 {
        return Err(MyError::InvalidRecord);
    }
    let kind = match &row.values[0] {
        Value::Text(kind) => kind,
        _ => { return Err(MyError::InvalidRecord); },
    };
    let name = match &row.values[1] {
        Value::Text(name) => name,
        _ => { return Err(MyError::InvalidRecord); },
    };
    let table_name = match &row.values[2] {
        Value::Text(table_name) => table_name,
        _ => { return Err(MyError::InvalidRecord); },
    };
    let root = match &row.values[3] {
        Value::Integer(root) => *root,
        _ => { return Err(MyError::InvalidRecord); },
    };
    let sql = match &row.values[4] {
        Value::Text(text) => text.clone(),
        Value::Null => String::new(),
        _ => { return Err(MyError::InvalidRecord); },
    };
    if root < 0 || root as u64 > usize::MAX as u64 {
        return Err(MyError::InvalidRecord);
    }
    let root_page = root as usize;
    if str_eq(kind.as_str(), "table") {
        let column_defs = match parse_create_table_sql(sql.as_str()) {
            Ok(statement) => statement.columns,
            Err(_) => {
                let none: Vec<ColumnDefinition> = Vec::new();
                assert(columns_view(none@) =~= Seq::<ColumnDefinitionView>::empty());
                none
            },
        };
        Ok(ObjectSchema::Table(TableSchema { name: name.clone(), root_page, sql, column_defs }))
    } else if str_eq(kind.as_str(), "index") {
        let (column_names, unique) = match parse_create_index_sql(sql.as_str()) {
            Ok(statement) => (statement.columns, statement.unique),
            Err(_) => {
                let none: Vec<String> = Vec::new();
                assert(strings_view(none@) =~= Seq::<Seq<char>>::empty());
                (none, false)
            },
        };
        Ok(
            ObjectSchema::Index(
                IndexSchema {
                    name: name.clone(),
                    table_name: table_name.clone(),
                    root_page,
                    sql,
                    column_names,
                    unique,
                },
            ),
        )
    } else if str_eq(kind.as_str(), "view") {
        Ok(ObjectSchema::View)
    } else if str_eq(kind.as_str(), "trigger") {
        Ok(ObjectSchema::Trigger)
    } else {
        Err(MyError::InvalidRecord)
    }
}

/// Reads the objects that the rows of the schema table describe.
fn read_objects(page: &Page) -> (r: Result<(Vec<ObjectSchema>, Vec<String>), MyError>)
    ensures
        match r {
            Ok((objects, duplicates)) => spec_objects(page_rows(page@.cells)) == Ok::<
                Seq<ObjectSchemaView>,
                MyError,
            >(objects_view(objects@)) && strings_view(duplicates@) == spec_duplicates(
                page_rows(page@.cells),
            ),
            Err(e) => spec_objects(page_rows(page@.cells)) == Err::<
                Seq<ObjectSchemaView>,
                MyError,
            >(e),
        },
{
    let mut objects: Vec<ObjectSchema> = Vec::new();
    let mut duplicates: Vec<String> = Vec::new();
    let mut i: usize = 0;
    let ghost cells = page@.cells;
    proof {
        assert(cells.subrange(0, 0) =~= Seq::<crate::cell::CellView>::empty());
        assert(objects_view(objects@) =~= Seq::<ObjectSchemaView>::empty());
        assert(strings_view(duplicates@) =~= Seq::<Seq<char>>::empty());
    }
    while i < page.cells.len()
        invariant
            i <= page.cells@.len(),
            cells == crate::page::cells_view(page.cells@),
            spec_objects(page_rows(cells.subrange(0, i as int))) == Ok::<
                Seq<ObjectSchemaView>,
                MyError,
            >(objects_view(objects@)),
            strings_view(duplicates@) == spec_duplicates(page_rows(cells.subrange(0, i as int))),
        decreases page.cells@.len() - i,
    {
        let ghost before = objects_view(objects@);
        let ghost late = strings_view(duplicates@);
        let ghost seen = page_rows(cells.subrange(0, i as int));
        assert(cells.subrange(0, i + 1).drop_last() =~= cells.subrange(0, i as int));
        assert(cells.subrange(0, i + 1).last() == page.cells@[i as int]@);
        match &page.cells[i] {
            Cell::LeafTable(row) => {
                assert(seen.push(row@).drop_last() =~= seen);
                let object = match read_object(&row.payload) {
                    Ok(object) => object,
                    Err(e) => {
                        proof {
                            lemma_objects_error(cells, i as int, e);
                        }
                        return Err(e);
                    },
                };
                let known = match &object {
                    ObjectSchema::Table(table) => is_known(&objects, table.name.as_str()),
                    ObjectSchema::Index(index) => is_known(&objects, index.name.as_str()),
                    _ => false,
                };
                if known {
                    let name = match &object {
                        ObjectSchema::Table(table) => table.name.clone(),
                        ObjectSchema::Index(index) => index.name.clone(),
                        _ => String::new(),
                    };
                    let ghost name_view = name@;
                    duplicates.push(name);
                    assert(strings_view(duplicates@) =~= late.push(name_view));
                } else {
                    let ghost view = object@;
                    objects.push(object);
                    assert(objects_view(objects@) =~= before.push(view));
                }
            },
            _ => {},
        }
        i = i + 1;
    }
    assert(cells.subrange(0, i as int) =~= cells);
    Ok((objects, duplicates))
}

/// An error among the first rows is the error of all rows.
proof fn lemma_objects_error(cells: Seq<crate::cell::CellView>, i: int, e: MyError)
    requires
        0 <= i < cells.len(),
        spec_objects(page_rows(cells.subrange(0, i + 1))) == Err::<Seq<ObjectSchemaView>, MyError>(
            e,
        ),
    ensures
        spec_objects(page_rows(cells)) == Err::<Seq<ObjectSchemaView>, MyError>(e),
    decreases cells.len() - i,
{
    if i + 1 < cells.len() {
        assert(cells.subrange(0, i + 2).drop_last() =~= cells.subrange(0, i + 1));
        let rows = page_rows(cells.subrange(0, i + 2));
        match cells.subrange(0, i + 2).last() {
            crate::cell::CellView::LeafTable(row) => {
                assert(rows.drop_last() =~= page_rows(cells.subrange(0, i + 1)));
            },
            _ => {},
        }
        lemma_objects_error(cells, i + 1, e);
    } else {
        assert(cells.subrange(0, i + 1) =~= cells);
    }
}

/// Takes the records out of rows.
fn into_records(rows: Vec<LeafTableCell>) -> (r: Vec<Record>)
    ensures
        records_view(r@) == payloads(rows_view(rows@)),
{
    let mut records: Vec<Record> = Vec::new();
    let mut rows = rows;
    let ghost all = rows_view(rows@);
    let mut i: usize = 0;
    while i < rows.len()
        invariant
            i <= rows@.len(),
            rows@.len() == all.len(),
            records@.len() == i,
            forall|j: int| 0 <= j < i ==> (#[trigger] records@[j])@ == all[j].payload,
            forall|j: int| i <= j < rows@.len() ==> (#[trigger] rows@[j])@ == all[j],
        decreases rows@.len() - i,
    {
        records.push(rows[i].payload.clone());
        i = i + 1;
    }
    assert(records_view(records@) =~= payloads(all));
    records
}

impl Database {
    /// The database is open on its file and the catalog is that of the
    /// file.
    pub open spec fn wf(&self) -> bool {
        &&& self.sqlite.wf()
        &&& spec_schema(self.sqlite.file@, self.sqlite.header) == Ok::<
            Seq<ObjectSchemaView>,
            MyError,
        >(self.schema@.objects)
        &&& self.schema@.duplicates == spec_schema_duplicates(
            self.sqlite.file@,
            self.sqlite.header,
        )
    }

    /// The header of the file.
    pub fn header(&self) -> (r: &Header)
        ensures
            *r == self.sqlite.header,
    {
        &self.sqlite.header
    }

    /// Opens the database that the bytes of `file` hold: reads the header
    /// and the catalog on page one.
    pub fn parse_header_and_schema(file: Vec<u8>) -> (r: Result<Database, MyError>)
        ensures
            match r {
                Ok(db) => db.wf() && db.sqlite.file@ == file@,
                Err(e) => match spec_parse_header(file@) {
                    Err(header_error) => e == header_error,
                    Ok(header) => spec_schema(file@, header) == Err::<
                        Seq<ObjectSchemaView>,
                        MyError,
                    >(e),
                },
            },
    {
        let mut sqlite = match SQLite::new(file) {
            Ok(sqlite) => sqlite,
            Err(e) => { return Err(e); },
        };
        let (objects, duplicates) = {
            let page = match sqlite.page(1) {
                Ok(page) => page,
                Err(e) => { return Err(e); },
            };
            match page.page_type {
                BTreePageType::TableLeaf => match read_objects(page) {
                    Ok(found) => found,
                    Err(e) => { return Err(e); },
                },
                other => { return Err(MyError::InvalidPageType(code_of(other))); },
            }
        };
        Ok(Database { sqlite, schema: Schema { objects, duplicates } })
    }

    /// All records of the table with root page `root_page`, leaf by leaf.
    pub fn get_full_table(&mut self, root_page: usize) -> (r: Result<Vec<Record>, MyError>)
        requires
            old(self).wf(),
        ensures
            final(self).wf(),
            final(self).sqlite.file@ == old(self).sqlite.file@,
            final(self).schema == old(self).schema,
            match r {
                Ok(records) => spec_full_table(
                    old(self).sqlite.file@,
                    old(self).sqlite.header,
                    root_page,
                ) == Ok::<Seq<Seq<ValueView>>, MyError>(records_view(records@)),
                Err(e) => spec_full_table(
                    old(self).sqlite.file@,
                    old(self).sqlite.header,
                    root_page,
                ) == Err::<Seq<Seq<ValueView>>, MyError>(e),
            },
    {
        if root_page == 0 {
            return Err(MyError::Truncated);
        }
        let depth = self.sqlite.pages.len();
        match table_rows(&mut self.sqlite, root_page - 1, depth) {
            Ok(rows) => Ok(into_records(rows)),
            Err(e) => Err(e),
        }
    }

    /// The row ids that the index with root page `root_page` has for `key`,
    /// in ascending order.
    pub fn search_index(&mut self, root_page: usize, key: &Value) -> (r: Result<Vec<i64>, MyError>)
        requires
            old(self).wf(),
        ensures
            final(self).wf(),
            final(self).sqlite.file@ == old(self).sqlite.file@,
            final(self).schema == old(self).schema,
            match r {
                Ok(ids) => spec_search_index(
                    old(self).sqlite.file@,
                    old(self).sqlite.header,
                    root_page,
                    key@,
                ) == Ok::<Seq<i64>, MyError>(ids@),
                Err(e) => spec_search_index(
                    old(self).sqlite.file@,
                    old(self).sqlite.header,
                    root_page,
                    key@,
                ) == Err::<Seq<i64>, MyError>(e),
            },
    {
        if root_page == 0 {
            return Err(MyError::Truncated);
        }
        let depth = self.sqlite.pages.len();
        match index_probe(&mut self.sqlite, root_page - 1, key, depth) {
            Ok(ids) => {
                let mut ids = ids;
                sort_ascending(&mut ids);
                Ok(ids)
            },
            Err(e) => Err(e),
        }
    }

    /// The records of the table with root page `root_page` whose row id is
    /// one of `row_ids`, found by visiting only the children that can hold
    /// one of them.
    pub fn get_by_row_ids(&mut self, root_page: usize, row_ids: &Vec<i64>) -> (r: Result<
        Vec<Record>,
        MyError,
    >)
        requires
            old(self).wf(),
        ensures
            final(self).wf(),
            final(self).sqlite.file@ == old(self).sqlite.file@,
            final(self).schema == old(self).schema,
            match r {
                Ok(records) => spec_by_row_ids(
                    old(self).sqlite.file@,
                    old(self).sqlite.header,
                    root_page,
                    row_ids@,
                ) == Ok::<Seq<Seq<ValueView>>, MyError>(records_view(records@)),
                Err(e) => spec_by_row_ids(
                    old(self).sqlite.file@,
                    old(self).sqlite.header,
                    root_page,
                    row_ids@,
                ) == Err::<Seq<Seq<ValueView>>, MyError>(e),
            },
    {
        if root_page == 0 {
            return Err(MyError::Truncated);
        }
        let depth = self.sqlite.pages.len();
        match rows_by_ids(&mut self.sqlite, root_page - 1, row_ids, depth) {
            Ok(rows) => Ok(into_records(rows)),
            Err(e) => Err(e),
        }
    }
}

} // verus!
