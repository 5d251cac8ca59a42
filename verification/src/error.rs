//! The failure kinds of the engine.

use vstd::prelude::*;

verus! {

/// A field of the 100-byte file header that is validated when it is read.
#[derive(Clone, Copy, Debug, PartialEq, Eq, Structural)]
pub enum HeaderField {
    Magic,
    PageSize,
    WriteVersion,
    ReadVersion,
    MaxPayloadFraction,
    MinPayloadFraction,
    LeafPayloadFraction,
    SchemaFormat,
    TextEncoding,
    IncrementalVacuum,
    Reserved,
}

/// A header field together with the value that was found in it and refused.
#[derive(Clone, Copy, Debug, PartialEq, Eq, Structural)]
pub struct InvalidValueError {
    pub field: HeaderField,
    pub value: u32,
}

/// Where the payload of a cell continues once it no longer fits its page.
#[derive(Clone, Copy, Debug, PartialEq, Eq, Structural)]
pub struct Overflow {
    /// Number of the first overflow page, as written in the cell.
    pub page: u32,
    /// How many payload bytes live outside the cell.
    pub spilled_length: usize,
}

/// Everything that can go wrong while a query runs. Every error ends the
/// query. A fault found while a page is decoded comes with the number of
/// the page and, where it lies in a cell, with the offset of the cell.
#[derive(Debug)]
pub enum MyError {
    /// The input ended before the value being read was complete.
    Truncated,
    /// A field of the file header holds a value the format does not allow.
    InvalidHeader(InvalidValueError),
    /// The first byte of a page header is none of the four B-tree page codes.
    InvalidPageType(u8),
    /// A cell pointer lies before the cell content area or beyond the page.
    CellOffsetOutOfBounds(usize),
    /// The database stores text in an encoding other than UTF-8.
    UnsupportedTextEncoding,
    /// A record is inconsistent with its own header.
    InvalidRecord,
    /// A serial type that the format reserves.
    UnsupportedSerialType(u64),
    /// A payload continues on overflow pages, which are not followed.
    OverflowUnsupported(Overflow),
    /// The query names a table that the schema does not hold.
    UnknownTable(String),
    /// The query names a column that its table does not have.
    UnknownColumn(String),
    /// The statement parses but asks for something the engine does not plan.
    UnsupportedQuery,
    /// The statement is not in the accepted dialect.
    SqlParseError,
    /// A chain of child pointers is longer than the file has pages.
    TreeTooDeep,
    /// A fault in the cell that starts at byte `offset` of its page.
    AtOffset { offset: usize, fault: Box<MyError> },
    /// A fault in the page with number `page`, counted from one.
    InPage { page: usize, fault: Box<MyError> },
}

/// An error with its names by their characters.
pub enum ErrorView {
    Truncated,
    InvalidHeader(InvalidValueError),
    InvalidPageType(u8),
    CellOffsetOutOfBounds(usize),
    UnsupportedTextEncoding,
    InvalidRecord,
    UnsupportedSerialType(u64),
    OverflowUnsupported(Overflow),
    UnknownTable(Seq<char>),
    UnknownColumn(Seq<char>),
    UnsupportedQuery,
    SqlParseError,
    TreeTooDeep,
    AtOffset { offset: usize, fault: Box<ErrorView> },
    InPage { page: usize, fault: Box<ErrorView> },
}

impl View for MyError {
    type V = ErrorView;

    open spec fn view(&self) -> ErrorView
        decreases self,
    {
        match self {
            MyError::Truncated => ErrorView::Truncated,
            MyError::InvalidHeader(e) => ErrorView::InvalidHeader(*e),
            MyError::InvalidPageType(code) => ErrorView::InvalidPageType(*code),
            MyError::CellOffsetOutOfBounds(offset) => ErrorView::CellOffsetOutOfBounds(*offset),
            MyError::UnsupportedTextEncoding => ErrorView::UnsupportedTextEncoding,
            MyError::InvalidRecord => ErrorView::InvalidRecord,
            MyError::UnsupportedSerialType(serial) => ErrorView::UnsupportedSerialType(*serial),
            MyError::OverflowUnsupported(overflow) => ErrorView::OverflowUnsupported(*overflow),
            MyError::UnknownTable(name) => ErrorView::UnknownTable(name@),
            MyError::UnknownColumn(name) => ErrorView::UnknownColumn(name@),
            MyError::UnsupportedQuery => ErrorView::UnsupportedQuery,
            MyError::SqlParseError => ErrorView::SqlParseError,
            MyError::TreeTooDeep => ErrorView::TreeTooDeep,
            MyError::AtOffset { offset, fault } => ErrorView::AtOffset {
                offset: *offset,
                fault: Box::new((**fault).view()),
            },
            MyError::InPage { page, fault } => ErrorView::InPage {
                page: *page,
                fault: Box::new((**fault).view()),
            },
        }
    }
}

} // verus!
