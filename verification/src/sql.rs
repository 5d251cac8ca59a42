//! The SQL dialect of the engine: `SELECT`, `CREATE TABLE` and
//! `CREATE INDEX` statements, read from the bytes of their text.
//!
//! The grammar is a parsing expression grammar: alternatives are tried in
//! order, repetitions take as much as they can, and a statement has to take
//! the whole input. Keywords are matched without regard to ASCII case.

use crate::error::MyError;
use crate::record::str_from_utf8;
use vstd::prelude::*;
use vstd::slice::slice_subrange;
use vstd::string::StringSliceAdditionalSpecFns;
use vstd::utf8::{decode_utf8, valid_utf8};

verus! {

/// The type that a column is declared with.
#[derive(Clone, Copy, Debug, PartialEq, Eq, Structural)]
pub enum DataType {
    Integer,
    Text,
    Timestamp,
}

/// A constraint on a column.
#[derive(Clone, Debug, PartialEq, Eq)]
pub enum ColumnConstraint {
    PrimaryKey { auto_increment: bool },
    NotNull,
    Unique,
    Default(String),
}

/// One column of a `CREATE TABLE` statement.
#[derive(Clone, Debug, PartialEq, Eq)]
pub struct ColumnDefinition {
    pub name: String,
    pub data_type: DataType,
    pub constraints: Vec<ColumnConstraint>,
}

/// A parsed `CREATE TABLE` statement.
#[derive(Clone, Debug, PartialEq, Eq)]
pub struct CreateTableStatement {
    pub table_name: String,
    pub columns: Vec<ColumnDefinition>,
    pub if_not_exists: bool,
}

/// A parsed `CREATE INDEX` statement.
#[derive(Clone, Debug, PartialEq, Eq)]
pub struct CreateIndexStatement {
    pub index_name: String,
    pub table_name: String,
    pub columns: Vec<String>,
    pub unique: bool,
    pub if_not_exists: bool,
}

/// What a `SELECT` asks for: columns by name, or a function of all rows.
#[derive(Clone, Debug, PartialEq, Eq)]
pub enum SelectClause {
    Columns(Vec<String>),
    FunctionCall { name: String, args: Vec<String> },
}

/// The comparison of a `WHERE` clause.
#[derive(Clone, Copy, Debug, PartialEq, Eq, Structural)]
pub enum Operator {
    Equal,
    NotEqual,
    LessThan,
    LessThanOrEqual,
    GreaterThan,
    GreaterThanOrEqual,
}

/// The literal of a `WHERE` clause: the text between single quotes, or the
/// digits of a number.
#[derive(Clone, Debug, PartialEq, Eq)]
pub enum WhereValue {
    String(String),
    Number(String),
}

/// `WHERE column operator value`.
#[derive(Clone, Debug, PartialEq, Eq)]
pub struct WhereClause {
    pub column: String,
    pub operator: Operator,
    pub value: WhereValue,
}

/// A parsed `SELECT` statement.
#[derive(Clone, Debug, PartialEq, Eq)]
pub struct SelectExpression {
    pub select_clause: SelectClause,
    pub table: String,
    pub where_clause: Option<WhereClause>,
}

pub enum ColumnConstraintView {
    PrimaryKey { auto_increment: bool },
    NotNull,
    Unique,
    Default(Seq<char>),
}

pub struct ColumnDefinitionView {
    pub name: Seq<char>,
    pub data_type: DataType,
    pub constraints: Seq<ColumnConstraintView>,
}

pub struct CreateTableStatementView {
    pub table_name: Seq<char>,
    pub columns: Seq<ColumnDefinitionView>,
    pub if_not_exists: bool,
}

pub struct CreateIndexStatementView {
    pub index_name: Seq<char>,
    pub table_name: Seq<char>,
    pub columns: Seq<Seq<char>>,
    pub unique: bool,
    pub if_not_exists: bool,
}

pub enum SelectClauseView {
    Columns(Seq<Seq<char>>),
    FunctionCall { name: Seq<char>, args: Seq<Seq<char>> },
}

pub enum WhereValueView {
    String(Seq<char>),
    Number(Seq<char>),
}

pub struct WhereClauseView {
    pub column: Seq<char>,
    pub operator: Operator,
    pub value: WhereValueView,
}

pub struct SelectExpressionView {
    pub select_clause: SelectClauseView,
    pub table: Seq<char>,
    pub where_clause: Option<WhereClauseView>,
}

/// The characters of each string of a sequence.
pub open spec fn strings_view(strings: Seq<String>) -> Seq<Seq<char>> {
    Seq::new(strings.len(), |i: int| strings[i]@)
}

pub open spec fn constraints_view(constraints: Seq<ColumnConstraint>) -> Seq<ColumnConstraintView> {
    Seq::new(constraints.len(), |i: int| constraints[i]@)
}

pub open spec fn columns_view(columns: Seq<ColumnDefinition>) -> Seq<ColumnDefinitionView> {
    Seq::new(columns.len(), |i: int| columns[i]@)
}

impl View for ColumnConstraint {
    type V = ColumnConstraintView;

    open spec fn view(&self) -> ColumnConstraintView {
        match self {
            ColumnConstraint::PrimaryKey { auto_increment } => ColumnConstraintView::PrimaryKey {
                auto_increment: *auto_increment,
            },
            ColumnConstraint::NotNull => ColumnConstraintView::NotNull,
            ColumnConstraint::Unique => ColumnConstraintView::Unique,
            ColumnConstraint::Default(value) => ColumnConstraintView::Default(value@),
        }
    }
}

impl View for ColumnDefinition {
    type V = ColumnDefinitionView;

    open spec fn view(&self) -> ColumnDefinitionView {
        ColumnDefinitionView {
            name: self.name@,
            data_type: self.data_type,
            constraints: constraints_view(self.constraints@),
        }
    }
}

impl View for CreateTableStatement {
    type V = CreateTableStatementView;

    open spec fn view(&self) -> CreateTableStatementView {
        CreateTableStatementView {
            table_name: self.table_name@,
            columns: columns_view(self.columns@),
            if_not_exists: self.if_not_exists,
        }
    }
}

impl View for CreateIndexStatement {
    type V = CreateIndexStatementView;

    open spec fn view(&self) -> CreateIndexStatementView {
        CreateIndexStatementView {
            index_name: self.index_name@,
            table_name: self.table_name@,
            columns: strings_view(self.columns@),
            unique: self.unique,
            if_not_exists: self.if_not_exists,
        }
    }
}

impl View for SelectClause {
    type V = SelectClauseView;

    open spec fn view(&self) -> SelectClauseView {
        match self {
            SelectClause::Columns(names) => SelectClauseView::Columns(strings_view(names@)),
            SelectClause::FunctionCall { name, args } => SelectClauseView::FunctionCall {
                name: name@,
                args: strings_view(args@),
            },
        }
    }
}

impl View for WhereValue {
    type V = WhereValueView;

    open spec fn view(&self) -> WhereValueView {
        match self {
            WhereValue::String(text) => WhereValueView::String(text@),
            WhereValue::Number(digits) => WhereValueView::Number(digits@),
        }
    }
}

impl View for WhereClause {
    type V = WhereClauseView;

    open spec fn view(&self) -> WhereClauseView {
        WhereClauseView { column: self.column@, operator: self.operator, value: self.value@ }
    }
}

impl View for SelectExpression {
    type V = SelectExpressionView;

    open spec fn view(&self) -> SelectExpressionView {
        SelectExpressionView {
            select_clause: self.select_clause@,
            table: self.table@,
            where_clause: match self.where_clause {
                Some(clause) => Some(clause@),
                None => None,
            },
        }
    }
}

/// The bytes that the grammar names.
pub const DOUBLE_QUOTE: u8 = 34;

pub const QUOTE: u8 = 39;

pub const OPEN: u8 = 40;

pub const CLOSE: u8 = 41;

pub const STAR: u8 = 42;

pub const COMMA: u8 = 44;

pub const SEMICOLON: u8 = 59;

pub const LESS: u8 = 60;

pub const EQUALS: u8 = 61;

pub const GREATER: u8 = 62;

pub const BANG: u8 = 33;

/// A class of bytes that a run is made of.
#[derive(Clone, Copy, Debug, PartialEq, Eq, Structural)]
pub enum Class {
    /// Space, newline and tab.
    Space,
    /// ASCII letters and the underscore.
    Letter,
    /// ASCII letters, the underscore and the space.
    LetterOrSpace,
    /// Decimal digits.
    Digit,
    /// Every byte but the single quote.
    NotQuote,
}

pub open spec fn is_letter(b: u8) -> bool {
    (97 <= b <= 122) || (65 <= b <= 90) || b == 95
}

impl Class {
    /// Whether the class holds the byte.
    pub open spec fn spec_has(self, b: u8) -> bool {
        match self {
            Class::Space => b == 32 || b == 10 || b == 9,
            Class::Letter => is_letter(b),
            Class::LetterOrSpace => is_letter(b) || b == 32,
            Class::Digit => 48 <= b <= 57,
            Class::NotQuote => b != QUOTE,
        }
    }

    /// Whether the class holds the byte.
    pub fn has(&self, b: u8) -> (r: bool)
        ensures
            r == self.spec_has(b),
    {
        match self {
            Class::Space => b == 32 || b == 10 || b == 9,
            Class::Letter => (97 <= b && b <= 122) || (65 <= b && b <= 90) || b == 95,
            Class::LetterOrSpace => (97 <= b && b <= 122) || (65 <= b && b <= 90) || b == 95 || b
                == 32,
            Class::Digit => 48 <= b && b <= 57,
            Class::NotQuote => b != QUOTE,
        }
    }
}

/// Where the longest run of bytes of `class` that starts at `pos` ends.
pub open spec fn run_end(s: Seq<u8>, pos: int, class: Class) -> int
    decreases s.len() - pos,
{
    if 0 <= pos < s.len() && class.spec_has(s[pos]) {
        run_end(s, pos + 1, class)
    } else {
        pos
    }
}

/// Whether the byte at `pos` is `b`.
pub open spec fn byte_is(s: Seq<u8>, pos: int, b: u8) -> bool {
    0 <= pos < s.len() && s[pos] == b
}

/// An ASCII letter in lower case; any other byte as it is.
pub open spec fn lower(b: u8) -> u8 {
    if 65 <= b <= 90 {
        (b + 32) as u8
    } else {
        b
    }
}

/// An ASCII letter in upper case; any other byte as it is.
pub open spec fn upper(b: u8) -> u8 {
    if 97 <= b <= 122 {
        (b - 32) as u8
    } else {
        b
    }
}

/// Every byte in upper case.
pub open spec fn upper_bytes(bytes: Seq<u8>) -> Seq<u8> {
    Seq::new(bytes.len(), |i: int| upper(bytes[i]))
}

/// Where the keyword `word` ends if it stands at `pos`, in any mix of upper
/// and lower case.
pub open spec fn spec_kw(s: Seq<u8>, pos: int, word: Seq<u8>) -> Option<int> {
    if 0 <= pos && pos + word.len() <= s.len() && (forall|i: int|
        0 <= i < word.len() ==> lower(#[trigger] s[pos + i]) == lower(word[i])) {
        Some(pos + word.len())
    } else {
        None
    }
}

/// Where the white space that starts at `pos` ends, if there is any.
pub open spec fn spec_ws(s: Seq<u8>, pos: int) -> Option<int> {
    if run_end(s, pos, Class::Space) > pos {
        Some(run_end(s, pos, Class::Space))
    } else {
        None
    }
}

/// The characters that bytes spell in UTF-8.
pub open spec fn spec_text(bytes: Seq<u8>) -> Option<Seq<char>> {
    if valid_utf8(bytes) {
        Some(decode_utf8(bytes))
    } else {
        None
    }
}

/// The bytes of the identifier at `pos`, from the first of the triple to
/// the second, and where the input goes on behind it. An identifier is a run
/// of letters, or a run of letters and spaces between double quotes.
pub open spec fn spec_identifier_span(s: Seq<u8>, pos: int) -> Option<(int, int, int)> {
    let plain_end = run_end(s, pos, Class::Letter);
    let quoted_end = run_end(s, pos + 1, Class::LetterOrSpace);
    if plain_end > pos {
        Some((pos, plain_end, plain_end))
    } else if byte_is(s, pos, DOUBLE_QUOTE) && quoted_end > pos + 1 && byte_is(s, quoted_end, DOUBLE_QUOTE) {
        Some((pos + 1, quoted_end, quoted_end + 1))
    } else {
        None
    }
}

/// The identifier at `pos` and where the input goes on behind it.
pub open spec fn spec_identifier(s: Seq<u8>, pos: int) -> Option<(Seq<char>, int)> {
    match spec_identifier_span(s, pos) {
        Some((from, to, next)) => match spec_text(s.subrange(from, to)) {
            Some(name) => Some((name, next)),
            None => None,
        },
        None => None,
    }
}

/// The text between single quotes at `pos`.
pub open spec fn spec_quoted_string(s: Seq<u8>, pos: int) -> Option<(Seq<char>, int)> {
    let end = run_end(s, pos + 1, Class::NotQuote);
    if byte_is(s, pos, QUOTE) && byte_is(s, end, QUOTE) {
        match spec_text(s.subrange(pos + 1, end)) {
            Some(text) => Some((text, end + 1)),
            None => None,
        }
    } else {
        None
    }
}

/// The digits of the unsigned number at `pos`.
pub open spec fn spec_number(s: Seq<u8>, pos: int) -> Option<(Seq<char>, int)> {
    let end = run_end(s, pos, Class::Digit);
    if end > pos {
        match spec_text(s.subrange(pos, end)) {
            Some(digits) => Some((digits, end)),
            None => None,
        }
    } else {
        None
    }
}

/// The comparison operator at `pos`; of two that start alike the longer one.
pub open spec fn spec_operator(s: Seq<u8>, pos: int) -> Option<(Operator, int)> {
    if byte_is(s, pos, LESS) && byte_is(s, pos + 1, EQUALS) {
        Some((Operator::LessThanOrEqual, pos + 2))
    } else if byte_is(s, pos, GREATER) && byte_is(s, pos + 1, EQUALS) {
        Some((Operator::GreaterThanOrEqual, pos + 2))
    } else if byte_is(s, pos, BANG) && byte_is(s, pos + 1, EQUALS) {
        Some((Operator::NotEqual, pos + 2))
    } else if byte_is(s, pos, EQUALS) {
        Some((Operator::Equal, pos + 1))
    } else if byte_is(s, pos, LESS) {
        Some((Operator::LessThan, pos + 1))
    } else if byte_is(s, pos, GREATER) {
        Some((Operator::GreaterThan, pos + 1))
    } else {
        None
    }
}

/// The literal of a `WHERE` clause at `pos`.
pub open spec fn spec_where_value(s: Seq<u8>, pos: int) -> Option<(WhereValueView, int)> {
    match spec_quoted_string(s, pos) {
        Some((text, next)) => Some((WhereValueView::String(text), next)),
        None => match spec_number(s, pos) {
            Some((digits, next)) => Some((WhereValueView::Number(digits), next)),
            None => None,
        },
    }
}

/// White space, `WHERE`, white space, a column, an operator and a literal,
/// the last three with or without white space between them.
pub open spec fn spec_where_clause(s: Seq<u8>, pos: int) -> Option<(WhereClauseView, int)> {
    match spec_ws(s, pos) {
        None => None,
        Some(at1) => match spec_kw(s, at1, "WHERE".spec_bytes()) {
            None => None,
            Some(at2) => match spec_ws(s, at2) {
                None => None,
                Some(at3) => match spec_identifier(s, at3) {
                    None => None,
                    Some((column, at4)) => match spec_operator(s, run_end(s, at4, Class::Space)) {
                        None => None,
                        Some((operator, at5)) => match spec_where_value(
                            s,
                            run_end(s, at5, Class::Space),
                        ) {
                            None => None,
                            Some((value, at6)) => Some(
                                (WhereClauseView { column, operator, value }, at6),
                            ),
                        },
                    },
                },
            },
        },
    }
}

/// Puts a name in front of the names that follow it.
pub open spec fn cons_names(name: Seq<char>, rest: (Seq<Seq<char>>, int)) -> (
    Seq<Seq<char>>,
    int,
) {
    (seq![name] + rest.0, rest.1)
}

/// The names that follow a name of a list, each behind a comma and any
/// white space, and where the list ends.
pub open spec fn spec_more_names(s: Seq<u8>, pos: int) -> (Seq<Seq<char>>, int)
    decreases s.len() - pos,
{
    if byte_is(s, pos, COMMA) {
        match spec_identifier(s, run_end(s, pos + 1, Class::Space)) {
            Some((name, next)) => if pos < next <= s.len() {
                cons_names(name, spec_more_names(s, next))
            } else {
                (Seq::empty(), pos)
            },
            None => (Seq::empty(), pos),
        }
    } else {
        (Seq::empty(), pos)
    }
}

/// A list of names with commas between them; it may be empty.
pub open spec fn spec_column_list(s: Seq<u8>, pos: int) -> (Seq<Seq<char>>, int) {
    match spec_identifier(s, pos) {
        Some((name, next)) => cons_names(name, spec_more_names(s, next)),
        None => (Seq::empty(), pos),
    }
}

/// A name with `(*)` behind it: a function of all rows. The name is kept in
/// upper case.
pub open spec fn spec_function_call(s: Seq<u8>, pos: int) -> Option<(SelectClauseView, int)> {
    match spec_identifier_span(s, pos) {
        Some((from, to, next)) => if byte_is(s, next, OPEN) && byte_is(s, next + 1, STAR) && byte_is(
            s,
            next + 2,
            CLOSE) {
            match spec_text(upper_bytes(s.subrange(from, to))) {
                Some(name) => Some(
                    (SelectClauseView::FunctionCall { name, args: seq!["*"@] }, next + 3),
                ),
                None => None,
            }
        } else {
            None
        },
        None => None,
    }
}

/// What is selected: a function call if there is one, else a list of names.
pub open spec fn spec_select_clause(s: Seq<u8>, pos: int) -> (SelectClauseView, int) {
    match spec_function_call(s, pos) {
        Some(found) => found,
        None => (
            SelectClauseView::Columns(spec_column_list(s, pos).0),
            spec_column_list(s, pos).1,
        ),
    }
}

/// Where a statement ends that may close with a semicolon at `pos`.
pub open spec fn spec_statement_end(s: Seq<u8>, pos: int) -> int {
    if byte_is(s, pos, SEMICOLON) {
        pos + 1
    } else {
        pos
    }
}

/// `SELECT` what `FROM` table, then an optional `WHERE` clause and an
/// optional semicolon, and nothing more.
pub open spec fn spec_select(s: Seq<u8>) -> Option<SelectExpressionView> {
    match spec_kw(s, 0, "SELECT".spec_bytes()) {
        None => None,
        Some(at1) => match spec_ws(s, at1) {
            None => None,
            Some(at2) => match spec_ws(s, spec_select_clause(s, at2).1) {
                None => None,
                Some(at3) => match spec_kw(s, at3, "FROM".spec_bytes()) {
                    None => None,
                    Some(at4) => match spec_ws(s, at4) {
                        None => None,
                        Some(at5) => match spec_identifier(s, at5) {
                            None => None,
                            Some((table, at6)) => {
                                let filter = spec_where_clause(s, at6);
                                let at7 = match filter {
                                    Some((_, next)) => next,
                                    None => at6,
                                };
                                if spec_statement_end(s, at7) == s.len() {
                                    Some(
                                        SelectExpressionView {
                                            select_clause: spec_select_clause(s, at2).0,
                                            table,
                                            where_clause: match filter {
                                                Some((clause, _)) => Some(clause),
                                                None => None,
                                            },
                                        },
                                    )
                                } else {
                                    None
                                }
                            },
                        },
                    },
                },
            },
        },
    }
}

/// Runs over the bytes of `class` from `pos` on.
pub fn skip(s: &[u8], pos: usize, class: Class) -> (r: usize)
    requires
        pos <= s@.len(),
    ensures
        r == run_end(s@, pos as int, class),
        pos <= r <= s@.len(),
{
    let mut i: usize = pos;
    while i < s.len() && class.has(s[i])
        invariant
            pos <= i <= s@.len(),
            run_end(s@, i as int, class) == run_end(s@, pos as int, class),
        decreases s@.len() - i,
    {
        i = i + 1;
    }
    i
}

/// Matches a keyword at `pos` without regard to case.
pub fn kw(s: &[u8], pos: usize, word: &str) -> (r: Option<usize>)
    requires
        pos <= s@.len(),
    ensures
        match r {
            Some(next) => spec_kw(s@, pos as int, word.spec_bytes()) == Some(next as int) && pos
                <= next <= s@.len(),
            None => spec_kw(s@, pos as int, word.spec_bytes()) is None,
        },
{
    let w = word.as_bytes();
    let n = w.len();
    if n > s.len() - pos {
        return None;
    }
    let mut i: usize = 0;
    while i < n
        invariant
            i <= n,
            n == w@.len(),
            pos + n <= s@.len() <= usize::MAX,
            w@ == word.spec_bytes(),
            forall|j: int| 0 <= j < i ==> lower(#[trigger] s@[pos + j]) == lower(w@[j]),
        decreases n - i,
    {
        if to_lower(s[pos + i]) != to_lower(w[i]) {
            return None;
        }
        i = i + 1;
    }
    Some(pos + n)
}

fn to_lower(b: u8) -> (r: u8)
    ensures
        r == lower(b),
{
    if 65 <= b && b <= 90 {
        b + 32
    } else {
        b
    }
}

fn to_upper(b: u8) -> (r: u8)
    ensures
        r == upper(b),
{
    if 97 <= b && b <= 122 {
        b - 32
    } else {
        b
    }
}

/// Matches white space at `pos`.
pub fn ws(s: &[u8], pos: usize) -> (r: Option<usize>)
    requires
        pos <= s@.len(),
    ensures
        match r {
            Some(next) => spec_ws(s@, pos as int) == Some(next as int) && pos < next <= s@.len(),
            None => spec_ws(s@, pos as int) is None,
        },
{
    let end = skip(s, pos, Class::Space);
    if end > pos {
        Some(end)
    } else {
        None
    }
}

/// The string that bytes spell in UTF-8.
pub fn text(bytes: &[u8]) -> (r: Option<String>)
    ensures
        match r {
            Some(t) => spec_text(bytes@) == Some(t@),
            None => spec_text(bytes@) is None,
        },
{
    match str_from_utf8(bytes) {
        Some(s) => Some(s.to_owned()),
        None => None,
    }
}

/// Whether the byte at `pos` is `b`.
pub fn at(s: &[u8], pos: usize, b: u8) -> (r: bool)
    ensures
        r == byte_is(s@, pos as int, b),
        r ==> pos < s@.len() <= usize::MAX,
{
    pos < s.len() && s[pos] == b
}

/// Finds the bytes of the identifier at `pos`.
pub fn identifier_span(s: &[u8], pos: usize) -> (r: Option<(usize, usize, usize)>)
    requires
        pos <= s@.len(),
    ensures
        match r {
            Some((from, to, next)) => spec_identifier_span(s@, pos as int) == Some(
                (from as int, to as int, next as int),
            ) && pos <= from <= to <= next <= s@.len() && pos < next,
            None => spec_identifier_span(s@, pos as int) is None,
        },
{
    let plain_end = skip(s, pos, Class::Letter);
    if plain_end > pos {
        return Some((pos, plain_end, plain_end));
    }
    if at(s, pos, DOUBLE_QUOTE) {
        let quoted_end = skip(s, pos + 1, Class::LetterOrSpace);
        if quoted_end > pos + 1 && at(s, quoted_end, DOUBLE_QUOTE) {
            return Some((pos + 1, quoted_end, quoted_end + 1));
        }
    }
    None
}

/// Reads the identifier at `pos`.
pub fn identifier(s: &[u8], pos: usize) -> (r: Option<(String, usize)>)
    requires
        pos <= s@.len(),
    ensures
        match r {
            Some((name, next)) => spec_identifier(s@, pos as int) == Some((name@, next as int))
                && pos < next <= s@.len(),
            None => spec_identifier(s@, pos as int) is None,
        },
{
    match identifier_span(s, pos) {
        Some((from, to, next)) => match text(slice_subrange(s, from, to)) {
            Some(name) => Some((name, next)),
            None => None,
        },
        None => None,
    }
}

/// Reads the text between single quotes at `pos`.
pub fn quoted_string(s: &[u8], pos: usize) -> (r: Option<(String, usize)>)
    requires
        pos <= s@.len(),
    ensures
        match r {
            Some((found, next)) => spec_quoted_string(s@, pos as int) == Some(
                (found@, next as int),
            ) && pos < next <= s@.len(),
            None => spec_quoted_string(s@, pos as int) is None,
        },
{
    if !at(s, pos, QUOTE) {
        return None;
    }
    let end = skip(s, pos + 1, Class::NotQuote);
    if !at(s, end, QUOTE) {
        return None;
    }
    match text(slice_subrange(s, pos + 1, end)) {
        Some(found) => Some((found, end + 1)),
        None => None,
    }
}

/// Reads the digits of the number at `pos`.
pub fn number(s: &[u8], pos: usize) -> (r: Option<(String, usize)>)
    requires
        pos <= s@.len(),
    ensures
        match r {
            Some((digits, next)) => spec_number(s@, pos as int) == Some((digits@, next as int))
                && pos < next <= s@.len(),
            None => spec_number(s@, pos as int) is None,
        },
{
    let end = skip(s, pos, Class::Digit);
    if end <= pos {
        return None;
    }
    match text(slice_subrange(s, pos, end)) {
        Some(digits) => Some((digits, end)),
        None => None,
    }
}

/// Reads the comparison operator at `pos`.
pub fn operator(s: &[u8], pos: usize) -> (r: Option<(Operator, usize)>)
    requires
        pos <= s@.len(),
    ensures
        match r {
            Some((op, next)) => spec_operator(s@, pos as int) == Some((op, next as int)) && pos
                < next <= s@.len(),
            None => spec_operator(s@, pos as int) is None,
        },
{
    if pos >= s.len() {
        return None;
    }
    let second = pos + 1 < s.len() && s[pos + 1] == EQUALS;
    if s[pos] == LESS && second {
        Some((Operator::LessThanOrEqual, pos + 2))
    } else if s[pos] == GREATER && second {
        Some((Operator::GreaterThanOrEqual, pos + 2))
    } else if s[pos] == BANG && second {
        Some((Operator::NotEqual, pos + 2))
    } else if s[pos] == EQUALS {
        Some((Operator::Equal, pos + 1))
    } else if s[pos] == LESS {
        Some((Operator::LessThan, pos + 1))
    } else if s[pos] == GREATER {
        Some((Operator::GreaterThan, pos + 1))
    } else {
        None
    }
}

/// Reads the literal of a `WHERE` clause at `pos`.
pub fn where_value(s: &[u8], pos: usize) -> (r: Option<(WhereValue, usize)>)
    requires
        pos <= s@.len(),
    ensures
        match r {
            Some((value, next)) => spec_where_value(s@, pos as int) == Some(
                (value@, next as int),
            ) && pos < next <= s@.len(),
            None => spec_where_value(s@, pos as int) is None,
        },
{
    match quoted_string(s, pos) {
        Some((found, next)) => Some((WhereValue::String(found), next)),
        None => match number(s, pos) {
            Some((digits, next)) => Some((WhereValue::Number(digits), next)),
            None => None,
        },
    }
}

/// Reads a `WHERE` clause with the white space before it.
pub fn where_clause(s: &[u8], pos: usize) -> (r: Option<(WhereClause, usize)>)
    requires
        pos <= s@.len(),
    ensures
        match r {
            Some((clause, next)) => spec_where_clause(s@, pos as int) == Some(
                (clause@, next as int),
            ) && pos < next <= s@.len(),
            None => spec_where_clause(s@, pos as int) is None,
        },
{
    let at1 = match ws(s, pos) {
        Some(p) => p,
        None => { return None; },
    };
    let at2 = match kw(s, at1, "WHERE") {
        Some(p) => p,
        None => { return None; },
    };
    let at3 = match ws(s, at2) {
        Some(p) => p,
        None => { return None; },
    };
    let (column, at4) = match identifier(s, at3) {
        Some(found) => found,
        None => { return None; },
    };
    let (operator, at5) = match operator(s, skip(s, at4, Class::Space)) {
        Some(found) => found,
        None => { return None; },
    };
    let (value, at6) = match where_value(s, skip(s, at5, Class::Space)) {
        Some(found) => found,
        None => { return None; },
    };
    Some((WhereClause { column, operator, value }, at6))
}

proof fn lemma_cons_names(done: Seq<Seq<char>>, name: Seq<char>, rest: (Seq<Seq<char>>, int))
    ensures
        (done + cons_names(name, rest).0, cons_names(name, rest).1) == (
            done.push(name) + rest.0,
            rest.1,
        ),
{
    assert(done + (seq![name] + rest.0) =~= done.push(name) + rest.0);
}

/// Reads a list of names with commas between them.
pub fn column_list(s: &[u8], pos: usize) -> (r: (Vec<String>, usize))
    requires
        pos <= s@.len(),
    ensures
        spec_column_list(s@, pos as int) == (strings_view(r.0@), r.1 as int),
        pos <= r.1 <= s@.len(),
{
    let mut names: Vec<String> = Vec::new();
    let mut cur: usize = match identifier(s, pos) {
        Some((name, next)) => {
            names.push(name);
            next
        },
        None => {
            assert(strings_view(names@) =~= Seq::<Seq<char>>::empty());
            return (names, pos);
        },
    };
    assert(strings_view(names@) =~= seq![names@[0]@]);
    loop
        invariant
            pos <= cur <= s@.len(),
            spec_column_list(s@, pos as int) == (
                strings_view(names@) + spec_more_names(s@, cur as int).0,
                spec_more_names(s@, cur as int).1,
            ),
        decreases s@.len() - cur,
    {
        let ghost before = strings_view(names@);
        if !at(s, cur, COMMA) {
            assert(before + Seq::<Seq<char>>::empty() =~= before);
            return (names, cur);
        }
        match identifier(s, skip(s, cur + 1, Class::Space)) {
            Some((name, next)) => {
                proof {
                    lemma_cons_names(before, name@, spec_more_names(s@, next as int));
                }
                names.push(name);
                assert(strings_view(names@) =~= before.push(name@));
                cur = next;
            },
            None => {
                assert(before + Seq::<Seq<char>>::empty() =~= before);
                return (names, cur);
            },
        }
    }
}

/// Reads a name with `(*)` behind it.
pub fn function_call(s: &[u8], pos: usize) -> (r: Option<(SelectClause, usize)>)
    requires
        pos <= s@.len(),
    ensures
        match r {
            Some((clause, next)) => spec_function_call(s@, pos as int) == Some(
                (clause@, next as int),
            ) && pos < next <= s@.len(),
            None => spec_function_call(s@, pos as int) is None,
        },
{
    let (from, to, next) = match identifier_span(s, pos) {
        Some(found) => found,
        None => { return None; },
    };
    if !(at(s, next, OPEN) && s.len() - next > 2 && s[next + 1] == STAR && s[next + 2] == CLOSE) {
        return None;
    }
    let mut raised: Vec<u8> = Vec::new();
    let mut i: usize = from;
    while i < to
        invariant
            from <= i <= to <= s@.len(),
            raised@.len() == i - from,
            forall|j: int| 0 <= j < i - from ==> raised@[j] == upper(s@[from + j]),
        decreases to - i,
    {
        raised.push(to_upper(s[i]));
        i = i + 1;
    }
    assert(raised@ =~= upper_bytes(s@.subrange(from as int, to as int)));
    let name = match text(raised.as_slice()) {
        Some(name) => name,
        None => { return None; },
    };
    let mut args: Vec<String> = Vec::new();
    args.push("*".to_owned());
    assert(strings_view(args@) =~= seq!["*"@]);
    Some((SelectClause::FunctionCall { name, args }, next + 3))
}

/// Parses a `SELECT` statement.
pub fn parse_select_sql(input: &str) -> (r: Result<SelectExpression, MyError>)
    ensures
        match r {
            Ok(select) => spec_select(input.spec_bytes()) == Some(select@),
            Err(e) => e == MyError::SqlParseError && spec_select(input.spec_bytes()) is None,
        },
{
    let s = input.as_bytes();
    let at1 = match kw(s, 0, "SELECT") {
        Some(p) => p,
        None => { return Err(MyError::SqlParseError); },
    };
    let at2 = match ws(s, at1) {
        Some(p) => p,
        None => { return Err(MyError::SqlParseError); },
    };
    let (select_clause, after_clause) = match function_call(s, at2) {
        Some(found) => found,
        None => {
            let (names, end) = column_list(s, at2);
            (SelectClause::Columns(names), end)
        },
    };
    let at3 = match ws(s, after_clause) {
        Some(p) => p,
        None => { return Err(MyError::SqlParseError); },
    };
    let at4 = match kw(s, at3, "FROM") {
        Some(p) => p,
        None => { return Err(MyError::SqlParseError); },
    };
    let at5 = match ws(s, at4) {
        Some(p) => p,
        None => { return Err(MyError::SqlParseError); },
    };
    let (table, at6) = match identifier(s, at5) {
        Some(found) => found,
        None => { return Err(MyError::SqlParseError); },
    };
    let (filter, at7) = match where_clause(s, at6) {
        Some((clause, next)) => (Some(clause), next),
        None => (None, at6),
    };
    let end = if at(s, at7, SEMICOLON) {
        at7 + 1
    } else {
        at7
    };
    if end != s.len() {
        return Err(MyError::SqlParseError);
    }
    Ok(SelectExpression { select_clause, table, where_clause: filter })
}

/// Puts an item in front of the items that follow it.
pub open spec fn cons<T>(item: T, rest: (Seq<T>, int)) -> (Seq<T>, int) {
    (seq![item] + rest.0, rest.1)
}

proof fn lemma_cons<T>(done: Seq<T>, item: T, rest: (Seq<T>, int))
    ensures
        (done + cons(item, rest).0, cons(item, rest).1) == (done.push(item) + rest.0, rest.1),
{
    assert(done + (seq![item] + rest.0) =~= done.push(item) + rest.0);
}

/// `IF NOT EXISTS` with white space behind it, and any before it.
pub open spec fn spec_if_not_exists(s: Seq<u8>, pos: int) -> Option<int> {
    match spec_kw(s, run_end(s, pos, Class::Space), "IF".spec_bytes()) {
        None => None,
        Some(at1) => match spec_ws(s, at1) {
            None => None,
            Some(at2) => match spec_kw(s, at2, "NOT".spec_bytes()) {
                None => None,
                Some(at3) => match spec_ws(s, at3) {
                    None => None,
                    Some(at4) => match spec_kw(s, at4, "EXISTS".spec_bytes()) {
                        None => None,
                        Some(at5) => spec_ws(s, at5),
                    },
                },
            },
        },
    }
}

/// The type of a column: `INTEGER`, `TEXT` or `TIMESTAMP`.
pub open spec fn spec_data_type(s: Seq<u8>, pos: int) -> Option<(DataType, int)> {
    match spec_kw(s, pos, "INTEGER".spec_bytes()) {
        Some(next) => Some((DataType::Integer, next)),
        None => match spec_kw(s, pos, "TEXT".spec_bytes()) {
            Some(next) => Some((DataType::Text, next)),
            None => match spec_kw(s, pos, "TIMESTAMP".spec_bytes()) {
                Some(next) => Some((DataType::Timestamp, next)),
                None => None,
            },
        },
    }
}

/// The value of a `DEFAULT`: a quoted string, a number, or
/// `CURRENT_TIMESTAMP`, which is kept in upper case.
pub open spec fn spec_default_value(s: Seq<u8>, pos: int) -> Option<(Seq<char>, int)> {
    match spec_quoted_string(s, pos) {
        Some(found) => Some(found),
        None => match spec_number(s, pos) {
            Some(found) => Some(found),
            None => match spec_kw(s, pos, "CURRENT_TIMESTAMP".spec_bytes()) {
                Some(next) => Some(("CURRENT_TIMESTAMP"@, next)),
                None => None,
            },
        },
    }
}

/// `PRIMARY KEY`, with `AUTOINCREMENT` behind it or without.
pub open spec fn spec_primary_key(s: Seq<u8>, pos: int) -> Option<(ColumnConstraintView, int)> {
    match spec_kw(s, pos, "PRIMARY".spec_bytes()) {
        None => None,
        Some(at1) => match spec_ws(s, at1) {
            None => None,
            Some(at2) => match spec_kw(s, at2, "KEY".spec_bytes()) {
                None => None,
                Some(at3) => {
                    let at4 = match spec_ws(s, at3) {
                        Some(next) => next,
                        None => at3,
                    };
                    match spec_kw(s, at4, "AUTOINCREMENT".spec_bytes()) {
                        Some(at5) => Some(
                            (ColumnConstraintView::PrimaryKey { auto_increment: true }, at5),
                        ),
                        None => Some(
                            (ColumnConstraintView::PrimaryKey { auto_increment: false }, at4),
                        ),
                    }
                },
            },
        },
    }
}

/// `NOT NULL`.
pub open spec fn spec_not_null(s: Seq<u8>, pos: int) -> Option<(ColumnConstraintView, int)> {
    match spec_kw(s, pos, "NOT".spec_bytes()) {
        None => None,
        Some(at1) => match spec_ws(s, at1) {
            None => None,
            Some(at2) => match spec_kw(s, at2, "NULL".spec_bytes()) {
                None => None,
                Some(at3) => Some((ColumnConstraintView::NotNull, at3)),
            },
        },
    }
}

/// `DEFAULT` and a value.
pub open spec fn spec_default(s: Seq<u8>, pos: int) -> Option<(ColumnConstraintView, int)> {
    match spec_kw(s, pos, "DEFAULT".spec_bytes()) {
        None => None,
        Some(at1) => match spec_ws(s, at1) {
            None => None,
            Some(at2) => match spec_default_value(s, at2) {
                None => None,
                Some((value, at3)) => Some((ColumnConstraintView::Default(value), at3)),
            },
        },
    }
}

/// One column constraint.
pub open spec fn spec_constraint(s: Seq<u8>, pos: int) -> Option<(ColumnConstraintView, int)> {
    match spec_primary_key(s, pos) {
        Some(found) => Some(found),
        None => match spec_not_null(s, pos) {
            Some(found) => Some(found),
            None => match spec_kw(s, pos, "UNIQUE".spec_bytes()) {
                Some(next) => Some((ColumnConstraintView::Unique, next)),
                None => spec_default(s, pos),
            },
        },
    }
}

/// The constraints that follow a constraint, each behind any white space.
pub open spec fn spec_more_constraints(s: Seq<u8>, pos: int) -> (Seq<ColumnConstraintView>, int)
    decreases s.len() - pos,
{
    match spec_constraint(s, run_end(s, pos, Class::Space)) {
        Some((constraint, next)) => if pos < next <= s.len() {
            cons(constraint, spec_more_constraints(s, next))
        } else {
            (Seq::empty(), pos)
        },
        None => (Seq::empty(), pos),
    }
}

/// The constraints of a column; there may be none.
pub open spec fn spec_constraints(s: Seq<u8>, pos: int) -> (Seq<ColumnConstraintView>, int) {
    match spec_constraint(s, pos) {
        Some((constraint, next)) => cons(constraint, spec_more_constraints(s, next)),
        None => (Seq::empty(), pos),
    }
}

/// A column: its name, its type and its constraints.
pub open spec fn spec_column_definition(s: Seq<u8>, pos: int) -> Option<
    (ColumnDefinitionView, int),
> {
    match spec_identifier(s, pos) {
        None => None,
        Some((name, at1)) => match spec_data_type(s, run_end(s, at1, Class::Space)) {
            None => None,
            Some((data_type, at2)) => {
                let found = spec_constraints(s, run_end(s, at2, Class::Space));
                Some((ColumnDefinitionView { name, data_type, constraints: found.0 }, found.1))
            },
        },
    }
}

/// The columns that follow a column, each behind a comma with any white
/// space around it.
pub open spec fn spec_more_columns(s: Seq<u8>, pos: int) -> (Seq<ColumnDefinitionView>, int)
    decreases s.len() - pos,
{
    let comma = run_end(s, pos, Class::Space);
    if byte_is(s, comma, COMMA) {
        match spec_column_definition(s, run_end(s, comma + 1, Class::Space)) {
            Some((column, next)) => if pos < next <= s.len() {
                cons(column, spec_more_columns(s, next))
            } else {
                (Seq::empty(), pos)
            },
            None => (Seq::empty(), pos),
        }
    } else {
        (Seq::empty(), pos)
    }
}

/// The columns of a table; there may be none.
pub open spec fn spec_columns(s: Seq<u8>, pos: int) -> (Seq<ColumnDefinitionView>, int) {
    match spec_column_definition(s, pos) {
        Some((column, next)) => cons(column, spec_more_columns(s, next)),
        None => (Seq::empty(), pos),
    }
}

/// Where the input goes on behind an optional `IF NOT EXISTS`, and whether
/// it was there.
pub open spec fn spec_optional_if_not_exists(s: Seq<u8>, pos: int) -> (bool, int) {
    match spec_if_not_exists(s, pos) {
        Some(next) => (true, next),
        None => (false, pos),
    }
}

/// `CREATE TABLE`, an optional `IF NOT EXISTS`, the name of the table,
/// white space, the columns in parentheses and an optional semicolon.
pub open spec fn spec_create_table(s: Seq<u8>) -> Option<CreateTableStatementView> {
    match spec_kw(s, 0, "CREATE".spec_bytes()) {
        None => None,
        Some(at1) => match spec_ws(s, at1) {
            None => None,
            Some(at2) => match spec_kw(s, at2, "TABLE".spec_bytes()) {
                None => None,
                Some(at3) => match spec_ws(s, at3) {
                    None => None,
                    Some(at4) => match spec_identifier(s, spec_optional_if_not_exists(s, at4).1) {
                        None => None,
                        Some((table_name, at5)) => match spec_ws(s, at5) {
                            None => None,
                            Some(at6) => {
                                let columns = spec_columns(
                                    s,
                                    run_end(s, at6 + 1, Class::Space),
                                );
                                let close = run_end(s, columns.1, Class::Space);
                                if byte_is(s, at6, OPEN) && byte_is(s, close, CLOSE)
                                    && spec_statement_end(s, close + 1) == s.len() {
                                    Some(
                                        CreateTableStatementView {
                                            table_name,
                                            columns: columns.0,
                                            if_not_exists: spec_optional_if_not_exists(s, at4).0,
                                        },
                                    )
                                } else {
                                    None
                                }
                            },
                        },
                    },
                },
            },
        },
    }
}

/// Where the input goes on behind an optional `UNIQUE` with white space
/// behind it, and whether it was there.
pub open spec fn spec_optional_unique(s: Seq<u8>, pos: int) -> (bool, int) {
    match spec_kw(s, pos, "UNIQUE".spec_bytes()) {
        Some(at1) => match spec_ws(s, at1) {
            Some(at2) => (true, at2),
            None => (false, pos),
        },
        None => (false, pos),
    }
}

/// `CREATE`, an optional `UNIQUE`, `INDEX`, an optional `IF NOT EXISTS`,
/// the name of the index, `ON`, the name of the table, the columns in
/// parentheses and an optional semicolon.
pub open spec fn spec_create_index(s: Seq<u8>) -> Option<CreateIndexStatementView> {
    match spec_kw(s, 0, "CREATE".spec_bytes()) {
        None => None,
        Some(at1) => match spec_ws(s, at1) {
            None => None,
            Some(at2) => match spec_kw(s, spec_optional_unique(s, at2).1, "INDEX".spec_bytes()) {
                None => None,
                Some(at3) => match spec_ws(s, at3) {
                    None => None,
                    Some(at4) => match spec_identifier(s, spec_optional_if_not_exists(s, at4).1) {
                        None => None,
                        Some((index_name, at5)) => match spec_kw(
                            s,
                            run_end(s, at5, Class::Space),
                            "ON".spec_bytes(),
                        ) {
                            None => None,
                            Some(at6) => match spec_ws(s, at6) {
                                None => None,
                                Some(at7) => match spec_identifier(s, at7) {
                                    None => None,
                                    Some((table_name, at8)) => {
                                        let open = run_end(s, at8, Class::Space);
                                        let columns = spec_column_list(
                                            s,
                                            run_end(s, open + 1, Class::Space),
                                        );
                                        if byte_is(s, open, OPEN) && byte_is(s, columns.1, CLOSE)
                                            && spec_statement_end(s, columns.1 + 1) == s.len() {
                                            Some(
                                                CreateIndexStatementView {
                                                    index_name,
                                                    table_name,
                                                    columns: columns.0,
                                                    unique: spec_optional_unique(s, at2).0,
                                                    if_not_exists: spec_optional_if_not_exists(
                                                        s,
                                                        at4,
                                                    ).0,
                                                },
                                            )
                                        } else {
                                            None
                                        }
                                    },
                                },
                            },
                        },
                    },
                },
            },
        },
    }
}

/// Matches `IF NOT EXISTS` with the white space around it.
pub fn if_not_exists(s: &[u8], pos: usize) -> (r: Option<usize>)
    requires
        pos <= s@.len(),
    ensures
        match r {
            Some(next) => spec_if_not_exists(s@, pos as int) == Some(next as int) && pos < next
                <= s@.len(),
            None => spec_if_not_exists(s@, pos as int) is None,
        },
{
    let at1 = match kw(s, skip(s, pos, Class::Space), "IF") {
        Some(p) => p,
        None => { return None; },
    };
    let at2 = match ws(s, at1) {
        Some(p) => p,
        None => { return None; },
    };
    let at3 = match kw(s, at2, "NOT") {
        Some(p) => p,
        None => { return None; },
    };
    let at4 = match ws(s, at3) {
        Some(p) => p,
        None => { return None; },
    };
    let at5 = match kw(s, at4, "EXISTS") {
        Some(p) => p,
        None => { return None; },
    };
    ws(s, at5)
}

/// Reads the type of a column.
pub fn data_type(s: &[u8], pos: usize) -> (r: Option<(DataType, usize)>)
    requires
        pos <= s@.len(),
    ensures
        match r {
            Some((ty, next)) => spec_data_type(s@, pos as int) == Some((ty, next as int)) && pos
                <= next <= s@.len(),
            None => spec_data_type(s@, pos as int) is None,
        },
{
    match kw(s, pos, "INTEGER") {
        Some(next) => Some((DataType::Integer, next)),
        None => match kw(s, pos, "TEXT") {
            Some(next) => Some((DataType::Text, next)),
            None => match kw(s, pos, "TIMESTAMP") {
                Some(next) => Some((DataType::Timestamp, next)),
                None => None,
            },
        },
    }
}

/// Reads a column constraint.
pub fn constraint(s: &[u8], pos: usize) -> (r: Option<(ColumnConstraint, usize)>)
    requires
        pos <= s@.len(),
    ensures
        match r {
            Some((found, next)) => spec_constraint(s@, pos as int) == Some(
                (found@, next as int),
            ) && pos <= next <= s@.len(),
            None => spec_constraint(s@, pos as int) is None,
        },
{
    if let Some(at1) = kw(s, pos, "PRIMARY") {
        if let Some(at2) = ws(s, at1) {
            if let Some(at3) = kw(s, at2, "KEY") {
                let at4 = match ws(s, at3) {
                    Some(next) => next,
                    None => at3,
                };
                return match kw(s, at4, "AUTOINCREMENT") {
                    Some(at5) => Some((ColumnConstraint::PrimaryKey { auto_increment: true }, at5)),
                    None => Some((ColumnConstraint::PrimaryKey { auto_increment: false }, at4)),
                };
            }
        }
    }
    if let Some(at1) = kw(s, pos, "NOT") {
        if let Some(at2) = ws(s, at1) {
            if let Some(at3) = kw(s, at2, "NULL") {
                return Some((ColumnConstraint::NotNull, at3));
            }
        }
    }
    if let Some(next) = kw(s, pos, "UNIQUE") {
        return Some((ColumnConstraint::Unique, next));
    }
    let at1 = match kw(s, pos, "DEFAULT") {
        Some(p) => p,
        None => { return None; },
    };
    let at2 = match ws(s, at1) {
        Some(p) => p,
        None => { return None; },
    };
    if let Some((found, next)) = quoted_string(s, at2) {
        return Some((ColumnConstraint::Default(found), next));
    }
    if let Some((digits, next)) = number(s, at2) {
        return Some((ColumnConstraint::Default(digits), next));
    }
    match kw(s, at2, "CURRENT_TIMESTAMP") {
        Some(next) => Some((ColumnConstraint::Default("CURRENT_TIMESTAMP".to_owned()), next)),
        None => None,
    }
}

/// Reads the constraints of a column.
pub fn constraints(s: &[u8], pos: usize) -> (r: (Vec<ColumnConstraint>, usize))
    requires
        pos <= s@.len(),
    ensures
        spec_constraints(s@, pos as int) == (constraints_view(r.0@), r.1 as int),
        pos <= r.1 <= s@.len(),
{
    let mut found: Vec<ColumnConstraint> = Vec::new();
    let mut cur: usize = match constraint(s, pos) {
        Some((first, next)) => {
            found.push(first);
            next
        },
        None => {
            assert(constraints_view(found@) =~= Seq::<ColumnConstraintView>::empty());
            return (found, pos);
        },
    };
    assert(constraints_view(found@) =~= seq![found@[0]@]);
    loop
        invariant
            pos <= cur <= s@.len(),
            spec_constraints(s@, pos as int) == (
                constraints_view(found@) + spec_more_constraints(s@, cur as int).0,
                spec_more_constraints(s@, cur as int).1,
            ),
        decreases s@.len() - cur,
    {
        let ghost before = constraints_view(found@);
        match constraint(s, skip(s, cur, Class::Space)) {
            Some((next_one, next)) => {
                if next <= cur {
                    assert(before + Seq::<ColumnConstraintView>::empty() =~= before);
                    return (found, cur);
                }
                proof {
                    lemma_cons(before, next_one@, spec_more_constraints(s@, next as int));
                }
                found.push(next_one);
                assert(constraints_view(found@) =~= before.push(next_one@));
                cur = next;
            },
            None => {
                assert(before + Seq::<ColumnConstraintView>::empty() =~= before);
                return (found, cur);
            },
        }
    }
}

/// Reads one column of a `CREATE TABLE` statement.
pub fn column_definition(s: &[u8], pos: usize) -> (r: Option<(ColumnDefinition, usize)>)
    requires
        pos <= s@.len(),
    ensures
        match r {
            Some((column, next)) => spec_column_definition(s@, pos as int) == Some(
                (column@, next as int),
            ) && pos < next <= s@.len(),
            None => spec_column_definition(s@, pos as int) is None,
        },
{
    let (name, at1) = match identifier(s, pos) {
        Some(found) => found,
        None => { return None; },
    };
    let (data_type, at2) = match data_type(s, skip(s, at1, Class::Space)) {
        Some(found) => found,
        None => { return None; },
    };
    let (constraints, at3) = constraints(s, skip(s, at2, Class::Space));
    Some((ColumnDefinition { name, data_type, constraints }, at3))
}

/// Reads the columns of a `CREATE TABLE` statement.
pub fn columns(s: &[u8], pos: usize) -> (r: (Vec<ColumnDefinition>, usize))
    requires
        pos <= s@.len(),
    ensures
        spec_columns(s@, pos as int) == (columns_view(r.0@), r.1 as int),
        pos <= r.1 <= s@.len(),
{
    let mut found: Vec<ColumnDefinition> = Vec::new();
    let mut cur: usize = match column_definition(s, pos) {
        Some((first, next)) => {
            found.push(first);
            next
        },
        None => {
            assert(columns_view(found@) =~= Seq::<ColumnDefinitionView>::empty());
            return (found, pos);
        },
    };
    assert(columns_view(found@) =~= seq![found@[0]@]);
    loop
        invariant
            pos <= cur <= s@.len(),
            spec_columns(s@, pos as int) == (
                columns_view(found@) + spec_more_columns(s@, cur as int).0,
                spec_more_columns(s@, cur as int).1,
            ),
        decreases s@.len() - cur,
    {
        let ghost before = columns_view(found@);
        let comma = skip(s, cur, Class::Space);
        if !at(s, comma, COMMA) {
            assert(before + Seq::<ColumnDefinitionView>::empty() =~= before);
            return (found, cur);
        }
        match column_definition(s, skip(s, comma + 1, Class::Space)) {
            Some((column, next)) => {
                proof {
                    lemma_cons(before, column@, spec_more_columns(s@, next as int));
                }
                found.push(column);
                assert(columns_view(found@) =~= before.push(column@));
                cur = next;
            },
            None => {
                assert(before + Seq::<ColumnDefinitionView>::empty() =~= before);
                return (found, cur);
            },
        }
    }
}

/// Parses a `CREATE TABLE` statement.
pub fn parse_create_table_sql(input: &str) -> (r: Result<CreateTableStatement, MyError>)
    ensures
        match r {
            Ok(statement) => spec_create_table(input.spec_bytes()) == Some(statement@),
            Err(e) => e == MyError::SqlParseError && spec_create_table(input.spec_bytes()) is None,
        },
{
    let s = input.as_bytes();
    let at1 = match kw(s, 0, "CREATE") {
        Some(p) => p,
        None => { return Err(MyError::SqlParseError); },
    };
    let at2 = match ws(s, at1) {
        Some(p) => p,
        None => { return Err(MyError::SqlParseError); },
    };
    let at3 = match kw(s, at2, "TABLE") {
        Some(p) => p,
        None => { return Err(MyError::SqlParseError); },
    };
    let at4 = match ws(s, at3) {
        Some(p) => p,
        None => { return Err(MyError::SqlParseError); },
    };
    let (if_not_exists, after) = match if_not_exists(s, at4) {
        Some(next) => (true, next),
        None => (false, at4),
    };
    let (table_name, at5) = match identifier(s, after) {
        Some(found) => found,
        None => { return Err(MyError::SqlParseError); },
    };
    let at6 = match ws(s, at5) {
        Some(p) => p,
        None => { return Err(MyError::SqlParseError); },
    };
    if !at(s, at6, OPEN) {
        return Err(MyError::SqlParseError);
    }
    let (columns, at7) = columns(s, skip(s, at6 + 1, Class::Space));
    let close = skip(s, at7, Class::Space);
    if !at(s, close, CLOSE) {
        return Err(MyError::SqlParseError);
    }
    let end = if at(s, close + 1, SEMICOLON) {
        close + 2
    } else {
        close + 1
    };
    if end != s.len() {
        return Err(MyError::SqlParseError);
    }
    Ok(CreateTableStatement { table_name, columns, if_not_exists })
}

/// Parses a `CREATE INDEX` statement.
pub fn parse_create_index_sql(input: &str) -> (r: Result<CreateIndexStatement, MyError>)
    ensures
        match r {
            Ok(statement) => spec_create_index(input.spec_bytes()) == Some(statement@),
            Err(e) => e == MyError::SqlParseError && spec_create_index(input.spec_bytes()) is None,
        },
{
    let s = input.as_bytes();
    let at1 = match kw(s, 0, "CREATE") {
        Some(p) => p,
        None => { return Err(MyError::SqlParseError); },
    };
    let at2 = match ws(s, at1) {
        Some(p) => p,
        None => { return Err(MyError::SqlParseError); },
    };
    let (unique, after_unique) = match kw(s, at2, "UNIQUE") {
        Some(next1) => match ws(s, next1) {
            Some(next2) => (true, next2),
            None => (false, at2),
        },
        None => (false, at2),
    };
    let at3 = match kw(s, after_unique, "INDEX") {
        Some(p) => p,
        None => { return Err(MyError::SqlParseError); },
    };
    let at4 = match ws(s, at3) {
        Some(p) => p,
        None => { return Err(MyError::SqlParseError); },
    };
    let (if_not_exists, after) = match if_not_exists(s, at4) {
        Some(next) => (true, next),
        None => (false, at4),
    };
    let (index_name, at5) = match identifier(s, after) {
        Some(found) => found,
        None => { return Err(MyError::SqlParseError); },
    };
    let at6 = match kw(s, skip(s, at5, Class::Space), "ON") {
        Some(p) => p,
        None => { return Err(MyError::SqlParseError); },
    };
    let at7 = match ws(s, at6) {
        Some(p) => p,
        None => { return Err(MyError::SqlParseError); },
    };
    let (table_name, at8) = match identifier(s, at7) {
        Some(found) => found,
        None => { return Err(MyError::SqlParseError); },
    };
    let open = skip(s, at8, Class::Space);
    if !at(s, open, OPEN) {
        return Err(MyError::SqlParseError);
    }
    let (columns, close) = column_list(s, skip(s, open + 1, Class::Space));
    if !at(s, close, CLOSE) {
        return Err(MyError::SqlParseError);
    }
    let end = if at(s, close + 1, SEMICOLON) {
        close + 2
    } else {
        close + 1
    };
    if end != s.len() {
        return Err(MyError::SqlParseError);
    }
    Ok(CreateIndexStatement { index_name, table_name, columns, unique, if_not_exists })
}

} // verus!
