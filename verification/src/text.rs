//! Text helpers: comparing strings, writing integers in decimal, joining.

use crate::error::{ErrorView, HeaderField, MyError};
use crate::record::{Value, ValueView};
use crate::sql::strings_view;
use vstd::prelude::*;
use vstd::string::{StringExecFns, StringSliceAdditionalSpecFns};
use vstd::utf8::{encode_utf8, encode_utf8_decode_utf8};

verus! {

/// Two strings with the same UTF-8 bytes have the same characters.
pub proof fn lemma_same_bytes_same_chars(a: Seq<char>, b: Seq<char>)
    requires
        encode_utf8(a) == encode_utf8(b),
    ensures
        a == b,
{
    encode_utf8_decode_utf8(a);
    encode_utf8_decode_utf8(b);
}

/// Whether two strings are the same.
pub fn str_eq(a: &str, b: &str) -> (r: bool)
    ensures
        r == (a@ == b@),
{
    let x = a.as_bytes();
    let y = b.as_bytes();
    if x.len() != y.len() {
        return false;
    }
    let mut i: usize = 0;
    while i < x.len()
        invariant
            i <= x@.len(),
            x@.len() == y@.len(),
            x@ == a.spec_bytes(),
            y@ == b.spec_bytes(),
            forall|j: int| 0 <= j < i ==> x@[j] == y@[j],
        decreases x@.len() - i,
    {
        if x[i] != y[i] {
            return false;
        }
        i = i + 1;
    }
    proof {
        assert(x@ =~= y@);
        lemma_same_bytes_same_chars(a@, b@);
    }
    true
}

/// The character of a decimal digit.
pub open spec fn digit_char(d: int) -> char {
    ((48 + d) as u8) as char
}

/// The decimal digits of a natural number, without leading zeros.
pub open spec fn spec_digits(n: nat) -> Seq<char>
    decreases n,
{
    if n < 10 {
        seq![digit_char(n as int)]
    } else {
        spec_digits(n / 10).push(digit_char((n % 10) as int))
    }
}

/// An integer in decimal, with a minus sign if it is negative.
pub open spec fn spec_decimal(n: int) -> Seq<char> {
    if n < 0 {
        seq!['-'] + spec_digits((-n) as nat)
    } else {
        spec_digits(n as nat)
    }
}

/// `String::push`: puts one character at the end of the string.
#[verifier::external_body]
fn push_char(s: &mut String, c: char)
    ensures
        final(s)@ == old(s)@.push(c),
{
    s.push(c);
}

fn push_digits(s: &mut String, n: u64)
    ensures
        final(s)@ == old(s)@ + spec_digits(n as nat),
    decreases n,
{
    if n >= 10 {
        push_digits(s, n / 10);
    }
    let ghost before = s@;
    let d: u8 = (n % 10) as u8;
    push_char(s, (48 + d) as char);
    proof {
        if n >= 10 {
            assert(s@ =~= old(s)@ + spec_digits((n / 10) as nat).push(digit_char((n % 10) as int)));
        } else {
            assert(s@ =~= old(s)@ + seq![digit_char(n as int)]);
        }
    }
}

/// Writes an integer in decimal.
pub fn decimal(n: i64) -> (r: String)
    ensures
        r@ == spec_decimal(n as int),
{
    let mut s = String::new();
    if n < 0 {
        push_char(&mut s, '-');
        let magnitude: u64 = (-(n + 1)) as u64 + 1;
        push_digits(&mut s, magnitude);
        assert(s@ =~= seq!['-'] + spec_digits((-n) as nat));
    } else {
        push_digits(&mut s, n as u64);
        assert(s@ =~= spec_digits(n as nat));
    }
    s
}

/// The strings one after another with `separator` between them.
pub open spec fn spec_join(parts: Seq<Seq<char>>, separator: Seq<char>) -> Seq<char>
    decreases parts.len(),
{
    if parts.len() == 0 {
        Seq::empty()
    } else if parts.len() == 1 {
        parts[0]
    } else {
        spec_join(parts.drop_last(), separator) + separator + parts.last()
    }
}

/// Joins strings with a separator between them.
pub fn join(parts: &Vec<String>, separator: &str) -> (r: String)
    ensures
        r@ == spec_join(strings_view(parts@), separator@),
{
    let mut out = String::new();
    let mut i: usize = 0;
    let ghost all = strings_view(parts@);
    assert(all.subrange(0, 0) =~= Seq::<Seq<char>>::empty());
    while i < parts.len()
        invariant
            i <= parts@.len(),
            all == strings_view(parts@),
            out@ == spec_join(all.subrange(0, i as int), separator@),
        decreases parts@.len() - i,
    {
        let ghost before = out@;
        assert(all.subrange(0, i + 1).drop_last() =~= all.subrange(0, i as int));
        assert(all.subrange(0, i + 1).last() == parts@[i as int]@);
        if i > 0 {
            out.append(separator);
        }
        out.append(parts[i].as_str());
        proof {
            if i == 0 {
                assert(out@ =~= parts@[0]@);
                assert(all.subrange(0, 1)[0] == parts@[0]@);
            }
        }
        i = i + 1;
    }
    assert(all.subrange(0, i as int) =~= all);
    out
}

/// How a value is shown: `null`, an integer in decimal, text and blobs as
/// they are. A double has no text here: its decimal form is computed from
/// its bits where floating point is at hand.
pub open spec fn spec_value_text(value: ValueView) -> Option<Seq<char>> {
    match value {
        ValueView::Null => Some("null"@),
        ValueView::Integer(n) => Some(spec_decimal(n as int)),
        ValueView::Real(_) => None,
        ValueView::Text(s) => Some(s),
        ValueView::Blob(s) => Some(s),
    }
}

impl Value {
    /// The text that stands for the value in a result.
    pub fn to_text(&self) -> (r: Option<String>)
        ensures
            match r {
                Some(s) => spec_value_text(self@) == Some(s@),
                None => spec_value_text(self@) is None,
            },
    {
        match self {
            Value::Null => Some("null".to_owned()),
            Value::Integer(n) => Some(decimal(*n)),
            Value::Real(_) => None,
            Value::Text(s) => Some(s.clone()),
            Value::Blob(s) => Some(s.clone()),
        }
    }
}

/// Writes an unsigned integer in decimal.
pub fn decimal_unsigned(n: u64) -> (r: String)
    ensures
        r@ == spec_digits(n as nat),
{
    let mut s = String::new();
    push_digits(&mut s, n);
    assert(s@ =~= spec_digits(n as nat));
    s
}

/// The name of a header field in a message.
pub open spec fn spec_field_name(field: HeaderField) -> Seq<char> {
    match field {
        HeaderField::Magic => "magic string"@,
        HeaderField::PageSize => "page size"@,
        HeaderField::WriteVersion => "write version"@,
        HeaderField::ReadVersion => "read version"@,
        HeaderField::MaxPayloadFraction => "maximum payload fraction"@,
        HeaderField::MinPayloadFraction => "minimum payload fraction"@,
        HeaderField::LeafPayloadFraction => "leaf payload fraction"@,
        HeaderField::SchemaFormat => "schema format"@,
        HeaderField::TextEncoding => "text encoding"@,
        HeaderField::IncrementalVacuum => "incremental vacuum mode"@,
        HeaderField::Reserved => "reserved region"@,
    }
}

/// The name of a header field in a message.
pub fn field_name(field: HeaderField) -> (r: &'static str)
    ensures
        r@ == spec_field_name(field),
{
    match field {
        HeaderField::Magic => "magic string",
        HeaderField::PageSize => "page size",
        HeaderField::WriteVersion => "write version",
        HeaderField::ReadVersion => "read version",
        HeaderField::MaxPayloadFraction => "maximum payload fraction",
        HeaderField::MinPayloadFraction => "minimum payload fraction",
        HeaderField::LeafPayloadFraction => "leaf payload fraction",
        HeaderField::SchemaFormat => "schema format",
        HeaderField::TextEncoding => "text encoding",
        HeaderField::IncrementalVacuum => "incremental vacuum mode",
        HeaderField::Reserved => "reserved region",
    }
}

/// The one line that reports an error.
pub open spec fn spec_message(e: ErrorView) -> Seq<char>
    decreases e,
{
    match e {
        ErrorView::Truncated => "Unexpected end of bytes"@,
        ErrorView::InvalidHeader(fault) => "Invalid header: "@ + spec_field_name(fault.field)
            + " "@ + spec_digits(fault.value as nat),
        ErrorView::InvalidPageType(code) => "Invalid page type: "@ + spec_digits(code as nat),
        ErrorView::CellOffsetOutOfBounds(offset) => "Cell offset out of bounds: "@ + spec_digits(
            offset as nat,
        ),
        ErrorView::UnsupportedTextEncoding => "Unsupported text encoding"@,
        ErrorView::InvalidRecord => "Invalid record"@,
        ErrorView::UnsupportedSerialType(serial) => "Unsupported serial type: "@ + spec_digits(
            serial as nat,
        ),
        ErrorView::OverflowUnsupported(overflow) => "Payload overflows to page "@ + spec_digits(
            overflow.page as nat,
        ) + ", bytes not read: "@ + spec_digits(overflow.spilled_length as nat),
        ErrorView::UnknownTable(name) => "Table not found: "@ + name,
        ErrorView::UnknownColumn(name) => "Column not found: "@ + name,
        ErrorView::UnsupportedQuery => "Unsupported query"@,
        ErrorView::SqlParseError => "Invalid SQL"@,
        ErrorView::TreeTooDeep => "B-tree deeper than the file has pages"@,
        ErrorView::AtOffset { offset, fault } => "Byte "@ + spec_digits(offset as nat) + ": "@
            + spec_message(*fault),
        ErrorView::InPage { page, fault } => "Page "@ + spec_digits(page as nat) + ": "@
            + spec_message(*fault),
    }
}

/// A literal followed by more text.
fn with_prefix(prefix: &str, rest: &str) -> (r: String)
    ensures
        r@ == prefix@ + rest@,
{
    let mut s = String::new();
    s.append(prefix);
    s.append(rest);
    assert(s@ =~= prefix@ + rest@);
    s
}

impl MyError {
    /// The one line that reports the error.
    pub fn message(&self) -> (r: String)
        ensures
            r@ == spec_message(self@),
        decreases self,
    {
        match self {
            MyError::Truncated => "Unexpected end of bytes".to_owned(),
            MyError::InvalidHeader(fault) => {
                let mut s = with_prefix("Invalid header: ", field_name(fault.field));
                s.append(" ");
                s.append(decimal_unsigned(fault.value as u64).as_str());
                s
            },
            MyError::InvalidPageType(code) => with_prefix(
                "Invalid page type: ",
                decimal_unsigned(*code as u64).as_str(),
            ),
            MyError::CellOffsetOutOfBounds(offset) => with_prefix(
                "Cell offset out of bounds: ",
                decimal_unsigned(*offset as u64).as_str(),
            ),
            MyError::UnsupportedTextEncoding => "Unsupported text encoding".to_owned(),
            MyError::InvalidRecord => "Invalid record".to_owned(),
            MyError::UnsupportedSerialType(serial) => with_prefix(
                "Unsupported serial type: ",
                decimal_unsigned(*serial).as_str(),
            ),
            MyError::OverflowUnsupported(overflow) => {
                let mut s = with_prefix(
                    "Payload overflows to page ",
                    decimal_unsigned(overflow.page as u64).as_str(),
                );
                s.append(", bytes not read: ");
                s.append(decimal_unsigned(overflow.spilled_length as u64).as_str());
                s
            },
            MyError::UnknownTable(name) => with_prefix("Table not found: ", name.as_str()),
            MyError::UnknownColumn(name) => with_prefix("Column not found: ", name.as_str()),
            MyError::UnsupportedQuery => "Unsupported query".to_owned(),
            MyError::SqlParseError => "Invalid SQL".to_owned(),
            MyError::TreeTooDeep => "B-tree deeper than the file has pages".to_owned(),
            MyError::AtOffset { offset, fault } => {
                let mut s = with_prefix("Byte ", decimal_unsigned(*offset as u64).as_str());
                s.append(": ");
                s.append((**fault).message().as_str());
                s
            },
            MyError::InPage { page, fault } => {
                let mut s = with_prefix("Page ", decimal_unsigned(*page as u64).as_str());
                s.append(": ");
                s.append((**fault).message().as_str());
                s
            },
        }
    }
}

} // verus!
