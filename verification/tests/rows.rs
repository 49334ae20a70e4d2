use csvlib::errors::CsvError;
use csvlib::row::Field;
use csvlib::row::Row;

fn sample_row() -> Row {
    let mut row = Row::new();
    row.add("Hi");
    row.add("there");
    row.add("partner.");
    row
}

#[test]
fn test_csv_row_remove() {
    let mut row = sample_row();
    assert_eq!(row.get::<String>(0).unwrap(), "Hi");
    assert_eq!(row.get::<String>(1).unwrap(), "there");
    assert_eq!(row.get::<String>(2).unwrap(), "partner.");

    // Now remove item
    row.remove(1);
    assert_eq!(row.get::<String>(0).unwrap(), "Hi");
    assert_eq!(row.get::<String>(1).unwrap(), "partner.");
}

#[test]
fn test_csv_row_replace() {
    let mut row = sample_row();
    assert_eq!(row.get::<String>(0).unwrap(), "Hi");
    assert_eq!(row.get::<String>(1).unwrap(), "there");
    assert_eq!(row.get::<String>(2).unwrap(), "partner.");

    // Now remove item
    row.replace(1, "nameless person");
    assert_eq!(row.get::<String>(0).unwrap(), "Hi");
    assert_eq!(row.get::<String>(1).unwrap(), "nameless person");
    assert_eq!(row.get::<String>(2).unwrap(), "partner.");
}

#[test]
fn test_row_count_tracks_edits() {
    let mut row = Row::new();
    assert_eq!(row.count(), 0);
    row.add("a");
    assert_eq!(row.count(), 1);
    row.add_bytes(b"b");
    assert_eq!(row.count(), 2);
    row.replace(0, "changed");
    assert_eq!(row.count(), 2);
    row.remove(0);
    assert_eq!(row.count(), 1);
    assert_eq!(row.get_value(0), Some("b".to_string()));
    // removing or replacing out of range changes nothing
    row.remove(7);
    row.replace(7, "x");
    assert_eq!(row.count(), 1);
}

#[test]
fn test_row_out_of_range_get() {
    let row = sample_row();
    assert_eq!(row.count(), 3);
    assert_eq!(row.get::<String>(3), Err(CsvError::NotAField(3)));
    assert_eq!(row.get::<String>(100), Err(CsvError::NotAField(100)));
    assert_eq!(row.get_value(3), None);
    assert!(row.get_range(3).is_none());
}

#[test]
fn test_row_cast_failure_is_isolated() {
    let mut row = Row::new();
    row.add("hello");
    row.add("42");
    let bad = row.get::<i32>(0);
    match bad {
        Err(CsvError::ConversionError(index, value, _)) => {
            assert_eq!(index, 0);
            assert_eq!(value, "hello");
        }
        other => panic!("expected a conversion error, got {:?}", other),
    }
    // the neighbouring field still casts fine
    assert_eq!(row.get::<i32>(1).unwrap(), 42);
    assert_eq!(row.get::<String>(0).unwrap(), "hello");
}

#[test]
fn test_row_iter_and_fields() {
    let row = sample_row();
    let mut iter = row.iter();
    let mut seen: Vec<String> = Vec::new();
    while let Some(field) = iter.next() {
        seen.push(field.to_text());
    }
    assert_eq!(seen, vec!["Hi".to_string(), "there".to_string(), "partner.".to_string()]);
}

#[test]
fn test_field_new_cast_and_bytes() {
    let field = Field::new(b"123");
    assert_eq!(field.as_bytes(), &b"123".to_vec());
    assert_eq!(field.cast::<u32>().unwrap(), 123);
    assert_eq!(field.to_text(), "123");
    let text = Field::new(b"not a number");
    match text.cast::<u8>() {
        Err(CsvError::FieldParseError(value, _)) => assert_eq!(value, "not a number"),
        other => panic!("expected a parse error, got {:?}", other),
    }
    let cloned = field.clone();
    assert_eq!(cloned.as_bytes(), field.as_bytes());
}

#[test]
fn test_field_cast_rejects_invalid_utf8() {
    let field = Field::new(&[0xFF, 0x61]);
    assert_eq!(field.cast::<String>(), Err(CsvError::InvalidString));
    // display-style decoding still tolerates the same bytes
    assert_eq!(field.to_text(), "\u{FFFD}a");
}

#[test]
fn test_row_tolerates_malformed_utf8() {
    let mut row = Row::new();
    row.add_bytes(&[0xFF, 0xFE]);
    row.add("ok");
    // lossy decoding replaces the bad bytes instead of failing
    let text = row.get_value(0).unwrap();
    assert_eq!(text, "\u{FFFD}\u{FFFD}");
    assert_eq!(row.get_value(1).unwrap(), "ok");
}

#[test]
fn test_row_non_ascii_text() {
    let mut row = Row::new();
    row.add("héllo wörld");
    assert_eq!(row.get_value(0).unwrap(), "héllo wörld");
    assert_eq!(row.get::<String>(0).unwrap(), "héllo wörld");
}

#[test]
fn test_row_clone_keeps_content() {
    let row = sample_row();
    let copy = row.clone();
    assert_eq!(copy.count(), row.count());
    for k in 0..row.count() {
        assert_eq!(copy.get_value(k), row.get_value(k));
    }
}
