use csvlib::errors::CsvError;

#[test]
fn test_message_texts() {
    assert_eq!(
        CsvError::NotAField(3).message(),
        "Not field at given index `3`."
    );
    assert_eq!(
        CsvError::RecordError("a,b".to_string()).message(),
        "Error parsing CSV row\n\t`a,b`."
    );
    assert_eq!(
        CsvError::ReadError("closed".to_string()).message(),
        "Error reading from source `closed`."
    );
    assert_eq!(
        CsvError::InvalidString.message(),
        "Cannot convert field to a valid string."
    );
    assert_eq!(
        CsvError::FieldParseError("abc".to_string(), "u32".to_string()).message(),
        "Error parsing field `abc` to `u32`."
    );
    assert_eq!(
        CsvError::ConversionError(12, "abc".to_string(), "u32".to_string()).message(),
        "Error parsing field  `12` with value `abc` into `u32`."
    );
    assert_eq!(
        CsvError::IOError("denied".to_string()).message(),
        "Error accessing resource `denied`."
    );
    assert_eq!(
        CsvError::FileAccessError("f.csv".to_string(), "denied".to_string()).message(),
        "Error accessing file `f.csv`: denied."
    );
    assert_eq!(
        CsvError::InvalidColumn("Age".to_string()).message(),
        "Invalid Column: `Age`. Not found in document."
    );
    assert_eq!(
        CsvError::InvalidColumnIndex(7).message(),
        "Invalid Column: `7`. Not found in document."
    );
    assert_eq!(
        CsvError::InvalidRow(205).message(),
        "Invalid Row: `205`. Not found in document."
    );
    assert_eq!(CsvError::Generic("boom".to_string()).message(), "boom");
}

#[test]
fn test_message_large_numbers() {
    assert_eq!(
        CsvError::NotAField(1234567890).message(),
        "Not field at given index `1234567890`."
    );
    assert_eq!(CsvError::InvalidRow(0).message(), "Invalid Row: `0`. Not found in document.");
}
