use sqlite_reader::cell::{
    Cell, InteriorIndexCell, InteriorTableCell, LeafIndexCell, LeafTableCell,
};
use sqlite_reader::error::MyError;
use sqlite_reader::header::TextEncoding;
use sqlite_reader::page_type::BTreePageType;
use sqlite_reader::record::{ColumnType, Record, RecordType, Value};

#[test]
fn test_interior_table_cell_from_bytes() {
    let bytes = [0x00, 0x00, 0x00, 0x02, 0x81, 0x04];
    let expected = InteriorTableCell { left_ptr: 132, child_page: 1 };
    let result = InteriorTableCell::from_bytes(&bytes);
    assert!(result.is_ok());
    assert_eq!(result.unwrap(), expected);
}

#[test]
fn test_interior_table_cell_from_bytes_invalid_length() {
    let bytes = [0x00, 0x00, 0x00];
    let result = InteriorTableCell::from_bytes(&bytes);
    assert!(result.is_err());
}

#[test]
fn test_interior_table_cell_from_bytes_with_extra_data() {
    let bytes = [0x00, 0x00, 0x00, 0x03, 0x81, 0x04, 0xFF];
    let expected = InteriorTableCell { left_ptr: 132, child_page: 2 };
    let result = InteriorTableCell::from_bytes(&bytes);
    assert!(result.is_ok());
    assert_eq!(result.unwrap(), expected);
}

#[test]
fn child_page_zero_names_no_page() {
    let bytes = [0x00, 0x00, 0x00, 0x00, 0x05];
    assert!(matches!(InteriorTableCell::from_bytes(&bytes), Err(MyError::InvalidRecord)));
}

fn texts(record: &Record) -> Vec<String> {
    record
        .values
        .iter()
        .map(|value| match value.to_text() {
            Some(text) => text,
            None => format!("real:{:016x}", value.as_real().unwrap()),
        })
        .collect()
}

#[test]
fn serial_types_map_to_layouts() {
    assert_eq!(ColumnType::try_from(0).unwrap(), ColumnType::Null);
    assert_eq!(ColumnType::try_from(1).unwrap(), ColumnType::I8);
    assert_eq!(ColumnType::try_from(5).unwrap(), ColumnType::I48);
    assert_eq!(ColumnType::try_from(6).unwrap(), ColumnType::I64);
    assert_eq!(ColumnType::try_from(7).unwrap(), ColumnType::F64);
    assert_eq!(ColumnType::try_from(8).unwrap(), ColumnType::Zero);
    assert_eq!(ColumnType::try_from(9).unwrap(), ColumnType::One);
    assert_eq!(ColumnType::try_from(12).unwrap(), ColumnType::Blob(0));
    assert_eq!(ColumnType::try_from(13).unwrap(), ColumnType::Text(0));
    assert_eq!(ColumnType::try_from(20).unwrap(), ColumnType::Blob(4));
    assert_eq!(ColumnType::try_from(21).unwrap(), ColumnType::Text(4));
    assert!(matches!(ColumnType::try_from(10), Err(MyError::UnsupportedSerialType(10))));
    assert!(matches!(ColumnType::try_from(11), Err(MyError::UnsupportedSerialType(11))));
    assert_eq!(ColumnType::I24.size(), 3);
    assert_eq!(ColumnType::I48.size(), 6);
    assert_eq!(ColumnType::F64.size(), 8);
    assert_eq!(ColumnType::One.size(), 0);
    assert_eq!(ColumnType::Text(7).size(), 7);
}

#[test]
fn record_values_of_every_serial_type() {
    // Header of 12 bytes: its own size, then eleven serial types.
    let mut bytes = vec![12, 0, 1, 2, 3, 4, 5, 6, 7, 8, 9, 19];
    bytes.extend([0xff]); // -1 in one byte
    bytes.extend([0x80, 0x00]); // -32768
    bytes.extend([0xff, 0xff, 0xfe]); // -2 in three bytes
    bytes.extend([0x7f, 0xff, 0xff, 0xff]); // 2147483647
    bytes.extend([0x80, 0, 0, 0, 0, 0]); // -2^47
    bytes.extend([0x80, 0, 0, 0, 0, 0, 0, 0]); // -2^63
    bytes.extend([0x3f, 0xf0, 0, 0, 0, 0, 0, 0]); // the bits of 1.0
    bytes.extend(*b"abc"); // text of (19 - 13) / 2 bytes
    let record = Record::parse(TextEncoding::Utf8, 77, &bytes, RecordType::Index).unwrap();
    assert_eq!(
        texts(&record),
        vec![
            "null",
            "-1",
            "-32768",
            "-2",
            "2147483647",
            "-140737488355328",
            "-9223372036854775808",
            "real:3ff0000000000000",
            "0",
            "1",
            "abc"
        ]
    );
    assert_eq!(f64::from_bits(record.values[7].as_real().unwrap()), 1.0);
}

#[test]
fn row_id_takes_the_place_of_a_null_first_value_in_table_records() {
    let bytes = [3, 0, 0];
    let table = Record::parse(TextEncoding::Utf8, 42, &bytes, RecordType::Table).unwrap();
    assert_eq!(texts(&table), vec!["42", "null"]);
    let index = Record::parse(TextEncoding::Utf8, 42, &bytes, RecordType::Index).unwrap();
    assert_eq!(texts(&index), vec!["null", "null"]);
}

#[test]
fn record_errors() {
    let parse = |bytes: &[u8]| Record::parse(TextEncoding::Utf8, 0, bytes, RecordType::Index);
    assert!(matches!(parse(&[]), Err(MyError::Truncated)));
    // a header that claims to be shorter than its own size field
    assert!(matches!(parse(&[0, 1]), Err(MyError::InvalidRecord)));
    // a header that claims more bytes than there are
    assert!(matches!(parse(&[5, 1, 1]), Err(MyError::Truncated)));
    // a value that is cut short
    assert!(matches!(parse(&[2, 2, 7]), Err(MyError::Truncated)));
    // bytes behind the last value
    assert!(matches!(parse(&[2, 1, 7, 9]), Err(MyError::InvalidRecord)));
    // the reserved serial types
    assert!(matches!(parse(&[2, 10]), Err(MyError::UnsupportedSerialType(10))));
    // text that is not UTF-8
    assert!(matches!(parse(&[2, 15, 0xff]), Err(MyError::InvalidRecord)));
    // a blob that is not UTF-8
    assert!(matches!(parse(&[2, 14, 0xff]), Err(MyError::InvalidRecord)));
    // text in a database that does not store UTF-8
    assert!(matches!(
        Record::parse(TextEncoding::Utf16le, 0, &[2, 15, b'a'], RecordType::Index),
        Err(MyError::UnsupportedTextEncoding)
    ));
}

#[test]
fn number_of_values_is_number_of_serial_types() {
    let bytes = [4, 8, 9, 1, 5];
    let record = Record::parse(TextEncoding::Utf8, 0, &bytes, RecordType::Index).unwrap();
    assert_eq!(record.values.len(), 3);
    assert_eq!(texts(&record), vec!["0", "1", "5"]);
}

#[test]
fn table_leaf_cell_with_payload_that_fits_exactly() {
    // payload size 3, row id 9, record [2, 1, 0x2a]
    let bytes = [3, 9, 2, 1, 0x2a];
    let cell = LeafTableCell::from_bytes(TextEncoding::Utf8, &bytes).unwrap();
    assert_eq!(cell.row_id, 9);
    assert_eq!(texts(&cell.payload), vec!["42"]);
}

#[test]
fn table_leaf_cell_with_one_byte_too_many_overflows() {
    // the payload claims 8 bytes; the cell holds 7 after the two varints
    let bytes = [8, 9, 2, 1, 0x2a, 0, 0, 0, 5];
    match LeafTableCell::from_bytes(TextEncoding::Utf8, &bytes) {
        Err(MyError::OverflowUnsupported(overflow)) => {
            assert_eq!(overflow.page, 5);
            assert_eq!(overflow.spilled_length, 8 - 3);
        }
        other => panic!("expected an overflow, got {:?}", other),
    }
    // with fewer than four bytes there is no room for the overflow pointer
    assert!(matches!(
        LeafTableCell::from_bytes(TextEncoding::Utf8, &[8, 9, 2, 1]),
        Err(MyError::Truncated)
    ));
}

#[test]
fn index_cells_expose_the_row_id() {
    // payload size 5: header [3, 15, 1], text "a", row id 7
    let leaf = [5, 3, 15, 1, b'a', 7];
    let cell = LeafIndexCell::from_bytes(TextEncoding::Utf8, &leaf).unwrap();
    assert_eq!(cell.row_id, 7);
    assert_eq!(texts(&cell.payload), vec!["a"]);
    let interior = [0, 0, 0, 9, 5, 3, 15, 1, b'a', 7];
    let cell = InteriorIndexCell::from_bytes(TextEncoding::Utf8, &interior).unwrap();
    assert_eq!(cell.child_page, 8);
    assert_eq!(cell.row_id, 7);
    assert_eq!(texts(&cell.payload), vec!["a"]);
    // the last value has to be an integer
    let no_row_id = [3, 2, 15, b'a'];
    assert!(matches!(
        LeafIndexCell::from_bytes(TextEncoding::Utf8, &no_row_id),
        Err(MyError::InvalidRecord)
    ));
}

#[test]
fn cells_are_parsed_by_page_kind() {
    let leaf = [3, 9, 2, 1, 0x2a];
    let cell = Cell::parse(TextEncoding::Utf8, &leaf, BTreePageType::TableLeaf).unwrap();
    assert!(matches!(cell, Cell::LeafTable(_)));
    assert_eq!(texts(cell.as_record().unwrap()), vec!["42"]);
    let interior = [0x00, 0x00, 0x00, 0x02, 0x81, 0x04];
    let cell = Cell::parse(TextEncoding::Utf8, &interior, BTreePageType::TableInterior).unwrap();
    assert!(matches!(cell, Cell::InteriorTable(InteriorTableCell { left_ptr: 132, child_page: 1 })));
    assert!(cell.as_record().is_none());
}

#[test]
fn values_compare_by_type() {
    let five = Value::Integer(5);
    let seven = Value::Integer(7);
    let abc = Value::Text("abc".to_owned());
    let abd = Value::Text("abd".to_owned());
    let ab = Value::Text("ab".to_owned());
    assert!(five.equals(&Value::Integer(5)));
    assert!(!five.equals(&seven));
    assert!(seven.at_least(&five) && five.at_least(&five) && !five.at_least(&seven));
    assert!(abc.equals(&Value::Text("abc".to_owned())));
    assert!(abd.at_least(&abc) && abc.at_least(&ab) && !ab.at_least(&abc));
    // values of different types are neither equal nor ordered
    assert!(!five.equals(&Value::Text("5".to_owned())));
    assert!(!Value::Text("5".to_owned()).at_least(&five));
    assert!(!Value::Blob("abc".to_owned()).equals(&abc));
    // NULL equals nothing, not even NULL
    assert!(!Value::Null.equals(&Value::Null));
    assert!(!Value::Null.at_least(&Value::Null));
    assert!(!Value::Real(0).equals(&Value::Real(0)));
}

#[test]
fn getters_give_the_value_of_their_type_only() {
    assert_eq!(Value::Integer(3).as_integer(), Some(3));
    assert_eq!(Value::Null.as_integer(), None);
    assert_eq!(Value::Real(17).as_real(), Some(17));
    assert_eq!(Value::Integer(3).as_real(), None);
    assert_eq!(Value::Text("t".to_owned()).as_text(), Some("t"));
    assert_eq!(Value::Blob("t".to_owned()).as_text(), None);
    assert_eq!(Value::Blob("b".to_owned()).as_blob(), Some("b"));
    assert_eq!(Value::Text("b".to_owned()).as_blob(), None);
}
