//! The four kinds of cell that a b-tree page holds.

use crate::bytes::{be_u32, spec_be_u32, u32_at};
use crate::error::{MyError, Overflow};
use crate::header::TextEncoding;
use crate::page_type::BTreePageType;
use crate::record::{spec_record, Record, RecordType, Value, ValueView, values_view};
use crate::varint::{as_row_id, read_varint, spec_read_varint, to_row_id};
use vstd::prelude::*;
use vstd::slice::slice_subrange;

verus! {

/// A row of a table: its row id and its record.
#[derive(Debug)]
pub struct LeafTableCell {
    pub row_id: i64,
    pub payload: Record,
}

/// An entry of an index on a leaf page: the key values and the row id of the
/// row they belong to.
#[derive(Debug)]
pub struct LeafIndexCell {
    pub row_id: i64,
    pub payload: Record,
}

/// A routing entry of a table: every row id in the subtree of `child_page`
/// is at most `left_ptr`. `child_page` counts pages from zero: it is the page
/// number written in the file less one.
#[derive(Clone, Copy, Debug, PartialEq, Eq, Structural)]
pub struct InteriorTableCell {
    pub left_ptr: i64,
    pub child_page: u32,
}

/// An entry of an index on an interior page, with the child that holds the
/// entries before it. `child_page` counts pages from zero. The entry that
/// stands for the right-most child has no key values.
#[derive(Debug)]
pub struct InteriorIndexCell {
    pub row_id: i64,
    pub child_page: u32,
    pub payload: Record,
}

/// One cell of a b-tree page.
#[derive(Debug)]
pub enum Cell {
    LeafTable(LeafTableCell),
    LeafIndex(LeafIndexCell),
    InteriorTable(InteriorTableCell),
    InteriorIndex(InteriorIndexCell),
}

pub struct LeafTableCellView {
    pub row_id: i64,
    pub payload: Seq<ValueView>,
}

pub struct LeafIndexCellView {
    pub row_id: i64,
    pub payload: Seq<ValueView>,
}

pub struct InteriorIndexCellView {
    pub row_id: i64,
    pub child_page: u32,
    pub payload: Seq<ValueView>,
}

pub enum CellView {
    LeafTable(LeafTableCellView),
    LeafIndex(LeafIndexCellView),
    InteriorTable(InteriorTableCell),
    InteriorIndex(InteriorIndexCellView),
}

impl View for LeafTableCell {
    type V = LeafTableCellView;

    open spec fn view(&self) -> LeafTableCellView {
        LeafTableCellView { row_id: self.row_id, payload: self.payload@ }
    }
}

impl View for LeafIndexCell {
    type V = LeafIndexCellView;

    open spec fn view(&self) -> LeafIndexCellView {
        LeafIndexCellView { row_id: self.row_id, payload: self.payload@ }
    }
}

impl View for InteriorIndexCell {
    type V = InteriorIndexCellView;

    open spec fn view(&self) -> InteriorIndexCellView {
        InteriorIndexCellView {
            row_id: self.row_id,
            child_page: self.child_page,
            payload: self.payload@,
        }
    }
}

impl View for Cell {
    type V = CellView;

    open spec fn view(&self) -> CellView {
        match self {
            Cell::LeafTable(cell) => CellView::LeafTable(cell@),
            Cell::LeafIndex(cell) => CellView::LeafIndex(cell@),
            Cell::InteriorTable(cell) => CellView::InteriorTable(*cell),
            Cell::InteriorIndex(cell) => CellView::InteriorIndex(cell@),
        }
    }
}

impl Clone for LeafTableCell {
    fn clone(&self) -> (r: LeafTableCell)
        ensures
            r@ == self@,
    {
        LeafTableCell { row_id: self.row_id, payload: self.payload.clone() }
    }
}

impl Clone for LeafIndexCell {
    fn clone(&self) -> (r: LeafIndexCell)
        ensures
            r@ == self@,
    {
        LeafIndexCell { row_id: self.row_id, payload: self.payload.clone() }
    }
}

impl Clone for InteriorIndexCell {
    fn clone(&self) -> (r: InteriorIndexCell)
        ensures
            r@ == self@,
    {
        InteriorIndexCell {
            row_id: self.row_id,
            child_page: self.child_page,
            payload: self.payload.clone(),
        }
    }
}

impl Clone for Cell {
    fn clone(&self) -> (r: Cell)
        ensures
            r@ == self@,
    {
        match self {
            Cell::LeafTable(cell) => Cell::LeafTable(cell.clone()),
            Cell::LeafIndex(cell) => Cell::LeafIndex(cell.clone()),
            Cell::InteriorTable(cell) => Cell::InteriorTable(*cell),
            Cell::InteriorIndex(cell) => Cell::InteriorIndex(cell.clone()),
        }
    }
}

/// The part of a payload of `payload_size` bytes that lies in its cell, of
/// which `rest` is what remains. A payload that fits is its first
/// `payload_size` bytes. One that does not continues on overflow pages: the
/// last four bytes of the cell name the first of them, and the cell is
/// refused with that descriptor.
pub open spec fn spec_payload(payload_size: u64, rest: Seq<u8>) -> Result<Seq<u8>, MyError> {
    if payload_size <= rest.len() {
        Ok(rest.subrange(0, payload_size as int))
    } else if payload_size > usize::MAX {
        Err(MyError::InvalidRecord)
    } else if rest.len() < 4 {
        Err(MyError::Truncated)
    } else {
        Err(
            MyError::OverflowUnsupported(
                Overflow {
                    page: spec_be_u32(rest.subrange(rest.len() - 4, rest.len() as int)),
                    spilled_length: (payload_size - (rest.len() - 4)) as usize,
                },
            ),
        )
    }
}

/// The zero-based page index that a page number written in the file stands
/// for. Page numbers start at one, so zero names no page.
pub open spec fn spec_page_index(number: u32) -> Result<u32, MyError> {
    if number == 0 {
        Err(MyError::InvalidRecord)
    } else {
        Ok((number - 1) as u32)
    }
}

/// An index record split into its key values and the row id that its last
/// value holds.
pub open spec fn spec_index_entry(values: Seq<ValueView>) -> Result<
    (i64, Seq<ValueView>),
    MyError,
> {
    if values.len() > 0 && values.last() is Integer {
        Ok((values.last()->Integer_0, values.drop_last()))
    } else {
        Err(MyError::InvalidRecord)
    }
}

/// The table-leaf cell at the start of `bytes`: payload size, row id, record.
pub open spec fn spec_leaf_table_cell(encoding: TextEncoding, bytes: Seq<u8>) -> Result<
    LeafTableCellView,
    MyError,
> {
    match spec_read_varint(bytes) {
        None => Err(MyError::Truncated),
        Some((payload_size, n)) => {
            let after_size = bytes.subrange(n as int, bytes.len() as int);
            match spec_read_varint(after_size) {
                None => Err(MyError::Truncated),
                Some((raw_row_id, m)) => {
                    let rest = after_size.subrange(m as int, after_size.len() as int);
                    let row_id = as_row_id(raw_row_id);
                    match spec_payload(payload_size, rest) {
                        Err(e) => Err(e),
                        Ok(payload) => match spec_record(
                            encoding,
                            row_id,
                            payload,
                            RecordType::Table,
                        ) {
                            Err(e) => Err(e),
                            Ok(values) => Ok(LeafTableCellView { row_id, payload: values }),
                        },
                    }
                },
            }
        },
    }
}

/// The index record at the start of `bytes`, after any child pointer: the
/// payload size and the record, split into key values and row id.
pub open spec fn spec_index_payload(encoding: TextEncoding, bytes: Seq<u8>) -> Result<
    (i64, Seq<ValueView>),
    MyError,
> {
    match spec_read_varint(bytes) {
        None => Err(MyError::Truncated),
        Some((payload_size, n)) => match spec_payload(
            payload_size,
            bytes.subrange(n as int, bytes.len() as int),
        ) {
            Err(e) => Err(e),
            Ok(payload) => match spec_record(encoding, 0, payload, RecordType::Index) {
                Err(e) => Err(e),
                Ok(values) => spec_index_entry(values),
            },
        },
    }
}

/// The index-leaf cell at the start of `bytes`.
pub open spec fn spec_leaf_index_cell(encoding: TextEncoding, bytes: Seq<u8>) -> Result<
    LeafIndexCellView,
    MyError,
> {
    match spec_index_payload(encoding, bytes) {
        Err(e) => Err(e),
        Ok((row_id, payload)) => Ok(LeafIndexCellView { row_id, payload }),
    }
}

/// The table-interior cell at the start of `bytes`: child page, then key.
pub open spec fn spec_interior_table_cell(bytes: Seq<u8>) -> Result<InteriorTableCell, MyError> {
    if bytes.len() < 4 {
        Err(MyError::Truncated)
    } else {
        match spec_page_index(spec_be_u32(bytes.subrange(0, 4))) {
            Err(e) => Err(e),
            Ok(child_page) => match spec_read_varint(bytes.subrange(4, bytes.len() as int)) {
                None => Err(MyError::Truncated),
                Some((key, _)) => Ok(InteriorTableCell { left_ptr: as_row_id(key), child_page }),
            },
        }
    }
}

/// The index-interior cell at the start of `bytes`: child page, then an
/// index record.
pub open spec fn spec_interior_index_cell(encoding: TextEncoding, bytes: Seq<u8>) -> Result<
    InteriorIndexCellView,
    MyError,
> {
    if bytes.len() < 4 {
        Err(MyError::Truncated)
    } else {
        match spec_page_index(spec_be_u32(bytes.subrange(0, 4))) {
            Err(e) => Err(e),
            Ok(child_page) => match spec_index_payload(
                encoding,
                bytes.subrange(4, bytes.len() as int),
            ) {
                Err(e) => Err(e),
                Ok((row_id, payload)) => Ok(InteriorIndexCellView { row_id, child_page, payload }),
            },
        }
    }
}

/// The cell of a page of kind `ty` that starts at the start of `bytes`.
#[verifier::opaque]
pub open spec fn spec_cell(encoding: TextEncoding, bytes: Seq<u8>, ty: BTreePageType) -> Result<
    CellView,
    MyError,
> {
    match ty {
        BTreePageType::TableLeaf => match spec_leaf_table_cell(encoding, bytes) {
            Ok(cell) => Ok(CellView::LeafTable(cell)),
            Err(e) => Err(e),
        },
        BTreePageType::IndexLeaf => match spec_leaf_index_cell(encoding, bytes) {
            Ok(cell) => Ok(CellView::LeafIndex(cell)),
            Err(e) => Err(e),
        },
        BTreePageType::TableInterior => match spec_interior_table_cell(bytes) {
            Ok(cell) => Ok(CellView::InteriorTable(cell)),
            Err(e) => Err(e),
        },
        BTreePageType::IndexInterior => match spec_interior_index_cell(encoding, bytes) {
            Ok(cell) => Ok(CellView::InteriorIndex(cell)),
            Err(e) => Err(e),
        },
    }
}

/// The kind of page that a cell belongs to.
pub open spec fn cell_kind(cell: CellView) -> BTreePageType {
    match cell {
        CellView::LeafTable(_) => BTreePageType::TableLeaf,
        CellView::LeafIndex(_) => BTreePageType::IndexLeaf,
        CellView::InteriorTable(_) => BTreePageType::TableInterior,
        CellView::InteriorIndex(_) => BTreePageType::IndexInterior,
    }
}

/// Cuts the in-page payload out of what remains of a cell.
fn payload(payload_size: u64, rest: &[u8]) -> (r: Result<&[u8], MyError>)
    ensures
        match r {
            Ok(bytes) => spec_payload(payload_size, rest@) == Ok::<Seq<u8>, MyError>(bytes@),
            Err(e) => spec_payload(payload_size, rest@) == Err::<Seq<u8>, MyError>(e),
        },
{
    let len = rest.len();
    if payload_size <= len as u64 {
        Ok(slice_subrange(rest, 0, payload_size as usize))
    } else if payload_size > usize::MAX as u64 {
        Err(MyError::InvalidRecord)
    } else if len < 4 {
        Err(MyError::Truncated)
    } else {
        let page = u32_at(rest, len - 4);
        Err(
            MyError::OverflowUnsupported(
                Overflow { page, spilled_length: payload_size as usize - (len - 4) },
            ),
        )
    }
}

/// Turns a page number of the file into a zero-based page index.
pub fn page_index(number: u32) -> (r: Result<u32, MyError>)
    ensures
        r == spec_page_index(number),
{
    if number == 0 {
        Err(MyError::InvalidRecord)
    } else {
        Ok(number - 1)
    }
}

/// Reads an index record and takes the row id off its end.
fn index_payload(encoding: TextEncoding, bytes: &[u8]) -> (r: Result<(i64, Record), MyError>)
    ensures
        match r {
            Ok((row_id, record)) => spec_index_payload(encoding, bytes@) == Ok::<
                (i64, Seq<ValueView>),
                MyError,
            >((row_id, record@)),
            Err(e) => spec_index_payload(encoding, bytes@) == Err::<
                (i64, Seq<ValueView>),
                MyError,
            >(e),
        },
{
    let (payload_size, rest, _) = match read_varint(bytes) {
        Ok(found) => found,
        Err(e) => { return Err(e); },
    };
    let in_page = match payload(payload_size, rest) {
        Ok(in_page) => in_page,
        Err(e) => { return Err(e); },
    };
    let record = match Record::parse(encoding, 0, in_page, RecordType::Index) {
        Ok(record) => record,
        Err(e) => { return Err(e); },
    };
    let mut values = record.values;
    let ghost all = values_view(values@);
    match values.pop() {
        Some(Value::Integer(row_id)) => {
            assert(values_view(values@) =~= all.drop_last());
            Ok((row_id, Record { values }))
        },
        _ => Err(MyError::InvalidRecord),
    }
}

impl LeafTableCell {
    /// Decodes a table-leaf cell from the bytes that the page has for it.
    pub fn from_bytes(encoding: TextEncoding, bytes: &[u8]) -> (r: Result<LeafTableCell, MyError>)
        ensures
            match r {
                Ok(cell) => spec_leaf_table_cell(encoding, bytes@) == Ok::<
                    LeafTableCellView,
                    MyError,
                >(cell@),
                Err(e) => spec_leaf_table_cell(encoding, bytes@) == Err::<
                    LeafTableCellView,
                    MyError,
                >(e),
            },
    {
        let (payload_size, after_size, _) = match read_varint(bytes) {
            Ok(found) => found,
            Err(e) => { return Err(e); },
        };
        let (raw_row_id, rest, _) = match read_varint(after_size) {
            Ok(found) => found,
            Err(e) => { return Err(e); },
        };
        let row_id = to_row_id(raw_row_id);
        let in_page = match payload(payload_size, rest) {
            Ok(in_page) => in_page,
            Err(e) => { return Err(e); },
        };
        match Record::parse(encoding, row_id, in_page, RecordType::Table) {
            Ok(record) => Ok(LeafTableCell { row_id, payload: record }),
            Err(e) => Err(e),
        }
    }
}

impl LeafIndexCell {
    /// Decodes an index-leaf cell from the bytes that the page has for it.
    pub fn from_bytes(encoding: TextEncoding, bytes: &[u8]) -> (r: Result<LeafIndexCell, MyError>)
        ensures
            match r {
                Ok(cell) => spec_leaf_index_cell(encoding, bytes@) == Ok::<
                    LeafIndexCellView,
                    MyError,
                >(cell@),
                Err(e) => spec_leaf_index_cell(encoding, bytes@) == Err::<
                    LeafIndexCellView,
                    MyError,
                >(e),
            },
    {
        match index_payload(encoding, bytes) {
            Ok((row_id, payload)) => Ok(LeafIndexCell { row_id, payload }),
            Err(e) => Err(e),
        }
    }
}

impl InteriorTableCell {
    /// Decodes a table-interior cell from the bytes that the page has for it.
    pub fn from_bytes(bytes: &[u8]) -> (r: Result<InteriorTableCell, MyError>)
        ensures
            r == spec_interior_table_cell(bytes@),
    {
        let (rest, number) = match be_u32(bytes) {
            Ok(found) => found,
            Err(e) => { return Err(e); },
        };
        assert(spec_be_u32(bytes@) == spec_be_u32(bytes@.subrange(0, 4)));
        let child_page = match page_index(number) {
            Ok(index) => index,
            Err(e) => { return Err(e); },
        };
        match read_varint(rest) {
            Ok((key, _, _)) => Ok(InteriorTableCell { left_ptr: to_row_id(key), child_page }),
            Err(e) => Err(e),
        }
    }
}

impl InteriorIndexCell {
    /// Decodes an index-interior cell from the bytes that the page has for it.
    pub fn from_bytes(encoding: TextEncoding, bytes: &[u8]) -> (r: Result<
        InteriorIndexCell,
        MyError,
    >)
        ensures
            match r {
                Ok(cell) => spec_interior_index_cell(encoding, bytes@) == Ok::<
                    InteriorIndexCellView,
                    MyError,
                >(cell@),
                Err(e) => spec_interior_index_cell(encoding, bytes@) == Err::<
                    InteriorIndexCellView,
                    MyError,
                >(e),
            },
    {
        let (rest, number) = match be_u32(bytes) {
            Ok(found) => found,
            Err(e) => { return Err(e); },
        };
        assert(spec_be_u32(bytes@) == spec_be_u32(bytes@.subrange(0, 4)));
        let child_page = match page_index(number) {
            Ok(index) => index,
            Err(e) => { return Err(e); },
        };
        match index_payload(encoding, rest) {
            Ok((row_id, payload)) => Ok(InteriorIndexCell { row_id, child_page, payload }),
            Err(e) => Err(e),
        }
    }
}

impl Cell {
    /// Decodes the cell of a page of kind `ty` from the bytes that the page
    /// has for it.
    pub fn parse(encoding: TextEncoding, input: &[u8], ty: BTreePageType) -> (r: Result<
        Cell,
        MyError,
    >)
        ensures
            match r {
                Ok(cell) => spec_cell(encoding, input@, ty) == Ok::<CellView, MyError>(cell@)
                    && cell_kind(cell@) == ty,
                Err(e) => spec_cell(encoding, input@, ty) == Err::<CellView, MyError>(e),
            },
    {
        reveal(spec_cell);
        match ty {
            BTreePageType::TableLeaf => match LeafTableCell::from_bytes(encoding, input) {
                Ok(cell) => Ok(Cell::LeafTable(cell)),
                Err(e) => Err(e),
            },
            BTreePageType::IndexLeaf => match LeafIndexCell::from_bytes(encoding, input) {
                Ok(cell) => Ok(Cell::LeafIndex(cell)),
                Err(e) => Err(e),
            },
            BTreePageType::TableInterior => match InteriorTableCell::from_bytes(input) {
                Ok(cell) => Ok(Cell::InteriorTable(cell)),
                Err(e) => Err(e),
            },
            BTreePageType::IndexInterior => match InteriorIndexCell::from_bytes(encoding, input) {
                Ok(cell) => Ok(Cell::InteriorIndex(cell)),
                Err(e) => Err(e),
            },
        }
    }

    /// The record of a table row; other cells have none to give.
    pub fn as_record(&self) -> (r: Option<&Record>)
        ensures
            match r {
                Some(record) => self@ matches CellView::LeafTable(cell) && cell.payload
                    == record@,
                None => !(self@ is LeafTable),
            },
    {
        match self {
            Cell::LeafTable(cell) => Some(&cell.payload),
            _ => None,
        }
    }
}

} // verus!
