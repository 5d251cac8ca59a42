//! Values and records: the serial-type format in which a cell's payload
//! stores one row.

use crate::error::MyError;
use crate::header::TextEncoding;
use crate::varint::{read_varint, spec_read_varint, to_row_id};
use vstd::prelude::*;
use vstd::slice::slice_subrange;
use vstd::utf8::{decode_utf8, encode_utf8, valid_utf8};

verus! {

/// One stored value. A `Real` holds the 64 bits of its IEEE-754 double.
#[derive(Debug)]
pub enum Value {
    Null,
    Integer(i64),
    Real(u64),
    Text(String),
    Blob(String),
}

/// What a `Value` stands for: strings by their characters.
pub enum ValueView {
    Null,
    Integer(i64),
    Real(u64),
    Text(Seq<char>),
    Blob(Seq<char>),
}

impl View for Value {
    type V = ValueView;

    open spec fn view(&self) -> ValueView {
        match self {
            Value::Null => ValueView::Null,
            Value::Integer(n) => ValueView::Integer(*n),
            Value::Real(bits) => ValueView::Real(*bits),
            Value::Text(s) => ValueView::Text(s@),
            Value::Blob(s) => ValueView::Blob(s@),
        }
    }
}

/// The views of a sequence of values, one for one.
pub open spec fn values_view(values: Seq<Value>) -> Seq<ValueView> {
    Seq::new(values.len(), |i: int| values[i]@)
}

impl Clone for Value {
    fn clone(&self) -> (r: Value)
        ensures
            r@ == self@,
    {
        match self {
            Value::Null => Value::Null,
            Value::Integer(n) => Value::Integer(*n),
            Value::Real(bits) => Value::Real(*bits),
            Value::Text(s) => Value::Text(s.clone()),
            Value::Blob(s) => Value::Blob(s.clone()),
        }
    }
}

impl Value {
    /// The integer, if this is one.
    pub fn as_integer(&self) -> (r: Option<i64>)
        ensures
            r == (match self@ {
                ValueView::Integer(n) => Some(n),
                _ => None,
            }),
    {
        match self {
            Value::Integer(n) => Some(*n),
            _ => None,
        }
    }

    /// The bits of the double, if this is one.
    pub fn as_real(&self) -> (r: Option<u64>)
        ensures
            r == (match self@ {
                ValueView::Real(bits) => Some(bits),
                _ => None,
            }),
    {
        match self {
            Value::Real(bits) => Some(*bits),
            _ => None,
        }
    }

    /// The text, if this is text.
    pub fn as_text(&self) -> (r: Option<&str>)
        ensures
            match r {
                Some(s) => self@ == ValueView::Text(s@),
                None => !(self@ is Text),
            },
    {
        match self {
            Value::Text(s) => Some(s.as_str()),
            _ => None,
        }
    }

    /// The contents of the blob, if this is one.
    pub fn as_blob(&self) -> (r: Option<&str>)
        ensures
            match r {
                Some(s) => self@ == ValueView::Blob(s@),
                None => !(self@ is Blob),
            },
    {
        match self {
            Value::Blob(s) => Some(s.as_str()),
            _ => None,
        }
    }
}

/// How a serial type lays a value out in the record body.
#[derive(Clone, Copy, Debug, PartialEq, Eq, Structural)]
pub enum ColumnType {
    Null,
    I8,
    I16,
    I24,
    I32,
    I48,
    I64,
    F64,
    Zero,
    One,
    Blob(usize),
    Text(usize),
}

/// Whether a record belongs to a table cell or to an index cell.
#[derive(Clone, Copy, Debug, PartialEq, Eq, Structural)]
pub enum RecordType {
    Table,
    Index,
}

/// The layout that a serial type stands for. Types 10 and 11 are reserved;
/// a length that no `usize` holds is refused in the same way.
pub open spec fn spec_column_type(serial: u64) -> Result<ColumnType, MyError> {
    if serial == 0 {
        Ok(ColumnType::Null)
    } else if serial == 1 {
        Ok(ColumnType::I8)
    } else if serial == 2 {
        Ok(ColumnType::I16)
    } else if serial == 3 {
        Ok(ColumnType::I24)
    } else if serial == 4 {
        Ok(ColumnType::I32)
    } else if serial == 5 {
        Ok(ColumnType::I48)
    } else if serial == 6 {
        Ok(ColumnType::I64)
    } else if serial == 7 {
        Ok(ColumnType::F64)
    } else if serial == 8 {
        Ok(ColumnType::Zero)
    } else if serial == 9 {
        Ok(ColumnType::One)
    } else if serial == 10 || serial == 11 {
        Err(MyError::UnsupportedSerialType(serial))
    } else if (serial - 12) / 2 > usize::MAX {
        Err(MyError::UnsupportedSerialType(serial))
    } else if serial % 2 == 0 {
        Ok(ColumnType::Blob(((serial - 12) / 2) as usize))
    } else {
        Ok(ColumnType::Text(((serial - 13) / 2) as usize))
    }
}

/// The number of body bytes a value of this layout occupies.
pub open spec fn spec_size(ty: ColumnType) -> nat {
    match ty {
        ColumnType::Null => 0,
        ColumnType::I8 => 1,
        ColumnType::I16 => 2,
        ColumnType::I24 => 3,
        ColumnType::I32 => 4,
        ColumnType::I48 => 6,
        ColumnType::I64 => 8,
        ColumnType::F64 => 8,
        ColumnType::Zero => 0,
        ColumnType::One => 0,
        ColumnType::Blob(size) => size as nat,
        ColumnType::Text(size) => size as nat,
    }
}

impl ColumnType {
    /// The number of body bytes a value of this layout occupies.
    pub fn size(&self) -> (r: usize)
        ensures
            r == spec_size(*self),
    {
        match self {
            ColumnType::Null => 0,
            ColumnType::I8 => 1,
            ColumnType::I16 => 2,
            ColumnType::I24 => 3,
            ColumnType::I32 => 4,
            ColumnType::I48 => 6,
            ColumnType::I64 => 8,
            ColumnType::F64 => 8,
            ColumnType::Zero => 0,
            ColumnType::One => 0,
            ColumnType::Blob(size) => *size,
            ColumnType::Text(size) => *size,
        }
    }

    /// The layout that a serial type stands for.
    pub fn try_from(value: u64) -> (r: Result<ColumnType, MyError>)
        ensures
            r == spec_column_type(value),
    {
        if value == 0 {
            Ok(ColumnType::Null)
        } else if value == 1 {
            Ok(ColumnType::I8)
        } else if value == 2 {
            Ok(ColumnType::I16)
        } else if value == 3 {
            Ok(ColumnType::I24)
        } else if value == 4 {
            Ok(ColumnType::I32)
        } else if value == 5 {
            Ok(ColumnType::I48)
        } else if value == 6 {
            Ok(ColumnType::I64)
        } else if value == 7 {
            Ok(ColumnType::F64)
        } else if value == 8 {
            Ok(ColumnType::Zero)
        } else if value == 9 {
            Ok(ColumnType::One)
        } else if value == 10 || value == 11 {
            Err(MyError::UnsupportedSerialType(value))
        } else if (value - 12) / 2 > usize::MAX as u64 {
            Err(MyError::UnsupportedSerialType(value))
        } else if value % 2 == 0 {
            Ok(ColumnType::Blob(((value - 12) / 2) as usize))
        } else {
            Ok(ColumnType::Text(((value - 13) / 2) as usize))
        }
    }
}

/// 256 to the power `n`.
pub open spec fn pow256(n: nat) -> nat
    decreases n,
{
    if n == 0 {
        1
    } else {
        256 * pow256((n - 1) as nat)
    }
}

/// The unsigned integer that the first `width` bytes spell, high byte first.
pub open spec fn be_uint(bytes: Seq<u8>, width: nat) -> nat
    decreases width,
{
    if width == 0 {
        0
    } else {
        be_uint(bytes, (width - 1) as nat) * 256 + bytes[width - 1] as nat
    }
}

/// The signed integer that the first `width` bytes spell in two's complement,
/// high byte first.
pub open spec fn be_int(bytes: Seq<u8>, width: nat) -> int {
    let unsigned = be_uint(bytes, width);
    if 2 * unsigned >= pow256(width) {
        unsigned - pow256(width)
    } else {
        unsigned as int
    }
}

proof fn lemma_pow256_values()
    ensures
        pow256(0) == 1,
        pow256(1) == 0x100,
        pow256(2) == 0x1_0000,
        pow256(3) == 0x100_0000,
        pow256(4) == 0x1_0000_0000,
        pow256(5) == 0x100_0000_0000,
        pow256(6) == 0x1_0000_0000_0000,
        pow256(7) == 0x100_0000_0000_0000,
        pow256(8) == 0x1_0000_0000_0000_0000,
{
    reveal_with_fuel(pow256, 10);
}

/// An integer of `width` bytes stays below `256^width`.
pub proof fn lemma_be_uint_bound(bytes: Seq<u8>, width: nat)
    ensures
        be_uint(bytes, width) < pow256(width),
    decreases width,
{
    if width > 0 {
        lemma_be_uint_bound(bytes, (width - 1) as nat);
    }
}

/// The value that a field of the record body holds under a layout. `field`
/// is the bytes of the value, as many as the layout asks for.
pub open spec fn spec_value(encoding: TextEncoding, ty: ColumnType, field: Seq<u8>) -> Result<
    ValueView,
    MyError,
> {
    match ty {
        ColumnType::Null => Ok(ValueView::Null),
        ColumnType::Zero => Ok(ValueView::Integer(0)),
        ColumnType::One => Ok(ValueView::Integer(1)),
        ColumnType::F64 => Ok(ValueView::Real(be_uint(field, 8) as u64)),
        ColumnType::Blob(_) => if valid_utf8(field) {
            Ok(ValueView::Blob(decode_utf8(field)))
        } else {
            Err(MyError::InvalidRecord)
        },
        ColumnType::Text(_) => if encoding != TextEncoding::Utf8 {
            Err(MyError::UnsupportedTextEncoding)
        } else if valid_utf8(field) {
            Ok(ValueView::Text(decode_utf8(field)))
        } else {
            Err(MyError::InvalidRecord)
        },
        _ => Ok(ValueView::Integer(be_int(field, spec_size(ty)) as i64)),
    }
}

/// Puts the values decoded so far in front of what the rest decodes to.
pub open spec fn prepend(done: Seq<ValueView>, rest: Result<Seq<ValueView>, MyError>) -> Result<
    Seq<ValueView>,
    MyError,
> {
    match rest {
        Ok(values) => Ok(done + values),
        Err(e) => Err(e),
    }
}

/// The values of a record whose serial types are the varints of `header` and
/// whose values lie one after another in `body`. One value is decoded per
/// serial type, in order; the body has to end where the last value ends.
pub open spec fn spec_values(encoding: TextEncoding, header: Seq<u8>, body: Seq<u8>) -> Result<
    Seq<ValueView>,
    MyError,
>
    decreases header.len(),
{
    if header.len() == 0 {
        if body.len() == 0 {
            Ok(Seq::empty())
        } else {
            Err(MyError::InvalidRecord)
        }
    } else {
        match spec_read_varint(header) {
            None => Err(MyError::Truncated),
            Some((serial, n)) => match spec_column_type(serial) {
                Err(e) => Err(e),
                Ok(ty) => if body.len() < spec_size(ty) {
                    Err(MyError::Truncated)
                } else {
                    match spec_value(encoding, ty, body.subrange(0, spec_size(ty) as int)) {
                        Err(e) => Err(e),
                        Ok(value) => if 1 <= n <= header.len() {
                            prepend(
                                seq![value],
                                spec_values(
                                    encoding,
                                    header.subrange(n as int, header.len() as int),
                                    body.subrange(spec_size(ty) as int, body.len() as int),
                                ),
                            )
                        } else {
                            Err(MyError::Truncated)
                        },
                    }
                },
            },
        }
    }
}

/// The number of serial types in a record header.
pub open spec fn serial_type_count(header: Seq<u8>) -> nat
    decreases header.len(),
{
    if header.len() == 0 {
        0
    } else {
        match spec_read_varint(header) {
            Some((_, n)) => if 1 <= n <= header.len() {
                1 + serial_type_count(header.subrange(n as int, header.len() as int))
            } else {
                0
            },
            None => 0,
        }
    }
}

/// The number of body bytes that the serial types of a record header ask
/// for.
pub open spec fn spec_body_size(header: Seq<u8>) -> nat
    decreases header.len(),
{
    if header.len() == 0 {
        0
    } else {
        match spec_read_varint(header) {
            Some((serial, n)) => match spec_column_type(serial) {
                Ok(ty) => if 1 <= n <= header.len() {
                    spec_size(ty) + spec_body_size(header.subrange(n as int, header.len() as int))
                } else {
                    0
                },
                Err(_) => 0,
            },
            None => 0,
        }
    }
}

/// Values that decode have one value for every serial type of the header,
/// and the body is as long as the serial types say.
pub proof fn lemma_values_shape(encoding: TextEncoding, header: Seq<u8>, body: Seq<u8>)
    requires
        spec_values(encoding, header, body) is Ok,
    ensures
        spec_values(encoding, header, body)->Ok_0.len() == serial_type_count(header),
        body.len() == spec_body_size(header),
    decreases header.len(),
{
    if header.len() > 0 {
        let (serial, n) = spec_read_varint(header)->0;
        let ty = spec_column_type(serial)->Ok_0;
        let value = spec_value(encoding, ty, body.subrange(0, spec_size(ty) as int))->Ok_0;
        let rest_header = header.subrange(n as int, header.len() as int);
        let rest_body = body.subrange(spec_size(ty) as int, body.len() as int);
        lemma_values_shape(encoding, rest_header, rest_body);
        assert(spec_values(encoding, header, body)->Ok_0 == seq![value] + spec_values(
            encoding,
            rest_header,
            rest_body,
        )->Ok_0);
    }
}

/// Every record that decodes has as many values as its header has serial
/// types, and its values take up exactly the bytes behind its header.
pub proof fn lemma_record_shape(
    encoding: TextEncoding,
    row_id: i64,
    bytes: Seq<u8>,
    record_type: RecordType,
)
    requires
        spec_record(encoding, row_id, bytes, record_type) is Ok,
    ensures
        ({
            let (header_size, n) = spec_read_varint(bytes)->0;
            let header = bytes.subrange(n as int, header_size as int);
            &&& n <= header_size <= bytes.len()
            &&& spec_record(encoding, row_id, bytes, record_type)->Ok_0.len() == serial_type_count(
                header,
            )
            &&& bytes.len() - header_size == spec_body_size(header)
        }),
{
    let (header_size, n) = spec_read_varint(bytes)->0;
    lemma_values_shape(
        encoding,
        bytes.subrange(n as int, header_size as int),
        bytes.subrange(header_size as int, bytes.len() as int),
    );
}

/// The row-id alias: in a table record whose first value is stored as NULL,
/// that value is the row id of the cell.
pub open spec fn with_row_id_alias(
    values: Seq<ValueView>,
    row_id: i64,
    record_type: RecordType,
) -> Seq<ValueView> {
    if record_type == RecordType::Table && values.len() > 0 && values[0] == ValueView::Null {
        values.update(0, ValueView::Integer(row_id))
    } else {
        values
    }
}

/// The values of the record that `bytes` holds: the varint of the header
/// size (which counts its own bytes), the serial types, then the values.
pub open spec fn spec_record(
    encoding: TextEncoding,
    row_id: i64,
    bytes: Seq<u8>,
    record_type: RecordType,
) -> Result<Seq<ValueView>, MyError> {
    match spec_read_varint(bytes) {
        None => Err(MyError::Truncated),
        Some((header_size, n)) => if header_size < n {
            Err(MyError::InvalidRecord)
        } else if header_size > bytes.len() {
            Err(MyError::Truncated)
        } else {
            match spec_values(
                encoding,
                bytes.subrange(n as int, header_size as int),
                bytes.subrange(header_size as int, bytes.len() as int),
            ) {
                Err(e) => Err(e),
                Ok(values) => Ok(with_row_id_alias(values, row_id, record_type)),
            }
        },
    }
}

/// `std::str::from_utf8`: the bytes as a string slice if they are valid
/// UTF-8, and nothing if they are not.
#[verifier::external_body]
pub(crate) fn str_from_utf8(bytes: &[u8]) -> (r: Option<&str>)
    ensures
        match r {
            Some(s) => valid_utf8(bytes@) && s@ == decode_utf8(bytes@),
            None => !valid_utf8(bytes@),
        },
{
    match std::str::from_utf8(bytes) {
        Ok(s) => Some(s),
        Err(_) => None,
    }
}

/// Reads the first `width` bytes as an unsigned big-endian integer.
fn read_uint(field: &[u8], width: usize) -> (r: u64)
    requires
        width <= 8,
        width <= field@.len(),
    ensures
        r == be_uint(field@, width as nat),
{
    let mut value: u64 = 0;
    let mut i: usize = 0;
    while i < width
        invariant
            i <= width <= 8,
            width <= field@.len(),
            value == be_uint(field@, i as nat),
        decreases width - i,
    {
        proof {
            lemma_pow256_values();
            lemma_be_uint_bound(field@, i as nat);
            lemma_pow256_monotonic(i as nat, 7);
        }
        value = value * 256 + field[i] as u64;
        i = i + 1;
    }
    value
}

proof fn lemma_pow256_monotonic(a: nat, b: nat)
    requires
        a <= b,
    ensures
        pow256(a) <= pow256(b),
    decreases b,
{
    if a < b {
        lemma_pow256_monotonic(a, (b - 1) as nat);
    }
}

/// Reads the first `width` bytes as a signed big-endian integer.
fn read_int(field: &[u8], width: usize) -> (r: i64)
    requires
        width == 1 || width == 2 || width == 3 || width == 4 || width == 6 || width == 8,
        width <= field@.len(),
    ensures
        r == be_int(field@, width as nat),
{
    let unsigned = read_uint(field, width);
    proof {
        lemma_pow256_values();
        lemma_be_uint_bound(field@, width as nat);
    }
    if width == 8 {
        to_row_id(unsigned)
    } else {
        let half: u64 = if width == 1 {
            0x80
        } else if width == 2 {
            0x8000
        } else if width == 3 {
            0x80_0000
        } else if width == 4 {
            0x8000_0000
        } else {
            0x8000_0000_0000
        };
        if unsigned >= half {
            (unsigned as i64) - (half as i64) - (half as i64)
        } else {
            unsigned as i64
        }
    }
}

/// Decodes one value from the bytes that its layout asks for.
fn decode_value(encoding: TextEncoding, ty: ColumnType, field: &[u8]) -> (r: Result<
    Value,
    MyError,
>)
    requires
        field@.len() == spec_size(ty),
    ensures
        match r {
            Ok(value) => spec_value(encoding, ty, field@) == Ok::<ValueView, MyError>(value@),
            Err(e) => spec_value(encoding, ty, field@) == Err::<ValueView, MyError>(e),
        },
{
    match ty {
        ColumnType::Null => Ok(Value::Null),
        ColumnType::Zero => Ok(Value::Integer(0)),
        ColumnType::One => Ok(Value::Integer(1)),
        ColumnType::F64 => Ok(Value::Real(read_uint(field, 8))),
        ColumnType::Blob(_) => match str_from_utf8(field) {
            Some(s) => Ok(Value::Blob(s.to_owned())),
            None => Err(MyError::InvalidRecord),
        },
        ColumnType::Text(_) => {
            if !matches!(encoding, TextEncoding::Utf8) {
                return Err(MyError::UnsupportedTextEncoding);
            }
            match str_from_utf8(field) {
                Some(s) => Ok(Value::Text(s.to_owned())),
                None => Err(MyError::InvalidRecord),
            }
        },
        _ => Ok(Value::Integer(read_int(field, ty.size()))),
    }
}

/// One row as a cell stores it.
#[derive(Debug)]
pub struct Record {
    pub values: Vec<Value>,
}

impl View for Record {
    type V = Seq<ValueView>;

    open spec fn view(&self) -> Seq<ValueView> {
        values_view(self.values@)
    }
}

impl Clone for Record {
    fn clone(&self) -> (r: Record)
        ensures
            r@ == self@,
    {
        let mut values: Vec<Value> = Vec::new();
        let mut i: usize = 0;
        while i < self.values.len()
            invariant
                i <= self.values@.len(),
                values@.len() == i,
                forall|j: int| 0 <= j < i ==> values@[j]@ == self.values@[j]@,
            decreases self.values@.len() - i,
        {
            values.push(self.values[i].clone());
            i = i + 1;
        }
        assert(values_view(values@) =~= values_view(self.values@));
        Record { values }
    }
}

/// Decodes the values of a record body, one per serial type of `header`.
fn decode_values(encoding: TextEncoding, header: &[u8], body: &[u8]) -> (r: Result<
    Vec<Value>,
    MyError,
>)
    ensures
        match r {
            Ok(values) => spec_values(encoding, header@, body@) == Ok::<Seq<ValueView>, MyError>(
                values_view(values@),
            ),
            Err(e) => spec_values(encoding, header@, body@) == Err::<Seq<ValueView>, MyError>(e),
        },
{
    let mut values: Vec<Value> = Vec::new();
    let mut types_left: &[u8] = header;
    let mut body_left: &[u8] = body;
    assert(prepend(values_view(values@), spec_values(encoding, header@, body@)) == spec_values(
        encoding,
        header@,
        body@,
    )) by {
        match spec_values(encoding, header@, body@) {
            Ok(vs) => {
                assert(values_view(values@) + vs =~= vs);
            },
            Err(_) => {},
        }
    }
    while types_left.len() > 0
        invariant
            spec_values(encoding, header@, body@) == prepend(
                values_view(values@),
                spec_values(encoding, types_left@, body_left@),
            ),
        decreases types_left@.len(),
    {
        let ghost before = values_view(values@);
        let (serial, types_rest, n) = match read_varint(types_left) {
            Ok(found) => found,
            Err(e) => { return Err(e); },
        };
        let ty = match ColumnType::try_from(serial) {
            Ok(ty) => ty,
            Err(e) => { return Err(e); },
        };
        let size = ty.size();
        if body_left.len() < size {
            return Err(MyError::Truncated);
        }
        let value = match decode_value(encoding, ty, slice_subrange(body_left, 0, size)) {
            Ok(value) => value,
            Err(e) => { return Err(e); },
        };
        let ghost rest_result = spec_values(
            encoding,
            types_left@.subrange(n as int, types_left@.len() as int),
            body_left@.subrange(size as int, body_left@.len() as int),
        );
        assert(spec_values(encoding, types_left@, body_left@) == prepend(
            seq![value@],
            rest_result,
        ));
        values.push(value);
        assert(values_view(values@) =~= before + seq![value@]);
        assert(prepend(before, prepend(seq![value@], rest_result)) == prepend(
            values_view(values@),
            rest_result,
        )) by {
            match rest_result {
                Ok(vs) => {
                    assert(before + (seq![value@] + vs) =~= (before + seq![value@]) + vs);
                },
                Err(_) => {},
            }
        }
        body_left = slice_subrange(body_left, size, body_left.len());
        types_left = types_rest;
    }
    if body_left.len() > 0 {
        return Err(MyError::InvalidRecord);
    }
    assert(values_view(values@) + Seq::<ValueView>::empty() =~= values_view(values@));
    Ok(values)
}

impl Record {
    /// Decodes the record that `bytes` holds. `row_id` is the row id of the
    /// owning table cell; in a table record whose first value is stored as
    /// NULL it takes that value's place.
    pub fn parse(
        encoding: TextEncoding,
        row_id: i64,
        bytes: &[u8],
        record_type: RecordType,
    ) -> (r: Result<Record, MyError>)
        ensures
            match r {
                Ok(record) => spec_record(encoding, row_id, bytes@, record_type) == Ok::<
                    Seq<ValueView>,
                    MyError,
                >(record@),
                Err(e) => spec_record(encoding, row_id, bytes@, record_type) == Err::<
                    Seq<ValueView>,
                    MyError,
                >(e),
            },
    {
        let (header_size, after_size, n) = match read_varint(bytes) {
            Ok(found) => found,
            Err(e) => { return Err(e); },
        };
        if header_size < n as u64 {
            return Err(MyError::InvalidRecord);
        }
        if header_size > bytes.len() as u64 {
            return Err(MyError::Truncated);
        }
        let header_end = header_size as usize;
        let header = slice_subrange(bytes, n, header_end);
        let body = slice_subrange(bytes, header_end, bytes.len());
        let mut values = match decode_values(encoding, header, body) {
            Ok(values) => values,
            Err(e) => { return Err(e); },
        };
        let ghost decoded = values_view(values@);
        if matches!(record_type, RecordType::Table) && values.len() > 0 {
            if matches!(values[0], Value::Null) {
                values.set(0, Value::Integer(row_id));
                assert(values_view(values@) =~= decoded.update(0, ValueView::Integer(row_id)));
            }
        }
        Ok(Record { values })
    }
}

/// Whether `a` comes before `b`, or is `b`, when the two are compared byte
/// by byte and a sequence comes before every sequence that it starts.
pub open spec fn lex_le(a: Seq<u8>, b: Seq<u8>) -> bool
    decreases a.len(),
{
    if a.len() == 0 {
        true
    } else if b.len() == 0 {
        false
    } else if a[0] != b[0] {
        a[0] < b[0]
    } else {
        lex_le(a.drop_first(), b.drop_first())
    }
}

/// Whether a stored value equals a key: integers as numbers, text by its
/// characters. Values of different types are never equal, and neither NULL
/// nor a double nor a blob equals anything.
pub open spec fn value_eq(stored: ValueView, key: ValueView) -> bool {
    match (stored, key) {
        (ValueView::Integer(a), ValueView::Integer(b)) => a == b,
        (ValueView::Text(a), ValueView::Text(b)) => a == b,
        _ => false,
    }
}

/// Whether a stored value is at least a key: integers as numbers, text by
/// the bytes of its UTF-8 form. Values of different types are not ordered.
pub open spec fn value_ge(stored: ValueView, key: ValueView) -> bool {
    match (stored, key) {
        (ValueView::Integer(a), ValueView::Integer(b)) => a >= b,
        (ValueView::Text(a), ValueView::Text(b)) => lex_le(encode_utf8(b), encode_utf8(a)),
        _ => false,
    }
}

/// Compares two byte strings in lexicographic order.
pub fn bytes_le(a: &[u8], b: &[u8]) -> (r: bool)
    ensures
        r == lex_le(a@, b@),
{
    let mut i: usize = 0;
    assert(a@.subrange(0, a@.len() as int) =~= a@);
    assert(b@.subrange(0, b@.len() as int) =~= b@);
    while i < a.len()
        invariant
            i <= a@.len(),
            i <= b@.len(),
            lex_le(a@, b@) == lex_le(
                a@.subrange(i as int, a@.len() as int),
                b@.subrange(i as int, b@.len() as int),
            ),
        decreases a@.len() - i,
    {
        if i >= b.len() {
            return false;
        }
        if a[i] != b[i] {
            return a[i] < b[i];
        }
        assert(a@.subrange(i as int, a@.len() as int).drop_first() =~= a@.subrange(
            i + 1,
            a@.len() as int,
        ));
        assert(b@.subrange(i as int, b@.len() as int).drop_first() =~= b@.subrange(
            i + 1,
            b@.len() as int,
        ));
        i = i + 1;
    }
    true
}

impl Value {
    /// Whether this stored value equals `key`.
    pub fn equals(&self, key: &Value) -> (r: bool)
        ensures
            r == value_eq(self@, key@),
    {
        match (self, key) {
            (Value::Integer(a), Value::Integer(b)) => *a == *b,
            (Value::Text(a), Value::Text(b)) => *a == *b,
            _ => false,
        }
    }

    /// Whether this stored value is at least `key`.
    pub fn at_least(&self, key: &Value) -> (r: bool)
        ensures
            r == value_ge(self@, key@),
    {
        match (self, key) {
            (Value::Integer(a), Value::Integer(b)) => *a >= *b,
            (Value::Text(a), Value::Text(b)) => bytes_le(
                b.as_str().as_bytes(),
                a.as_str().as_bytes(),
            ),
            _ => false,
        }
    }
}

} // verus!
