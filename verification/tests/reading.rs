use csvlib::errors::CsvError;
use csvlib::parser::read_fields;
use csvlib::reader::Reader;
use csvlib::row::Row;

fn collect_rows(data: &str, has_header: bool) -> (Option<Row>, Vec<Row>) {
    let reader = Reader::builder()
        .with_header(has_header)
        .with_reader(data.as_bytes().to_vec())
        .build()
        .expect("could not create reader.");
    let header = reader.headers();
    let mut entries = reader.entries();
    let mut rows: Vec<Row> = Vec::new();
    while let Some(row) = entries.next() {
        rows.push(row);
    }
    (header, rows)
}

#[test]
fn test_well_formed_csv_no_commas_no_quotes() {
    let data = "header1,header2,header3,header4\nr1c1,r1c2,r1c3,r1c4\nr2c1,r2c2,r2c3,r2c4\nr3c1,r3c2,r3c3,r3c4";
    let (header, rows) = collect_rows(data, true);

    assert_eq!(header.unwrap().count(), 4);
    assert_eq!(rows.len(), 3);
    assert_eq!(rows[0].count(), 4);
    assert_eq!(rows[0].get::<String>(0).unwrap(), "r1c1".to_owned());
    assert_eq!(rows[1].get::<String>(1).unwrap(), "r2c2".to_owned());
}

#[test]
fn test_well_formed_csv_with_number_fields() {
    let data = "header1,header2,header3,header4\n11,12,13,14\n21,22,23,24\n31,32,33,34";
    let (_, rows) = collect_rows(data, true);
    assert_eq!(rows.len(), 3);
    assert_eq!(rows[0].count(), 4);
    assert_eq!(rows[0].get::<i32>(0).unwrap(), 11);
    assert_eq!(rows[1].count(), 4);
    assert_eq!(rows[1].get::<i32>(1).unwrap(), 22);
    assert_eq!(rows[2].get::<i32>(2).unwrap(), 33);
}

#[test]
fn test_well_formed_csv_with_quoted_strings() {
    let data = "header1,header2,header3,header4\n\"test,\",12,13,\"com,ma\"\n\"\"\"wow\"\"\",22,23,24\n\"b\"\"d\",32,33,34";
    let (_, rows) = collect_rows(data, true);
    assert_eq!(rows.len(), 3);
    assert_eq!(rows[0].count(), 4);
    assert_eq!(rows[0].get::<String>(0).unwrap(), "test,".to_owned());
    assert_eq!(rows[0].get::<String>(3).unwrap(), "com,ma".to_owned());
    assert_eq!(rows[1].count(), 4);
    assert_eq!(rows[1].get::<String>(0).unwrap(), "\"wow\"".to_owned());
    assert_eq!(rows[2].count(), 4);
    assert_eq!(rows[2].get::<String>(0).unwrap(), "b\"d".to_owned());
}

#[test]
fn test_empty_fields() {
    let data = "header1,header2,header3,header4\n,,,\n,,,\n,,,";
    let (_, rows) = collect_rows(data, true);
    assert_eq!(rows.len(), 3);
    assert_eq!(rows[0].count(), 4);
    assert!(rows[0].get::<String>(0).unwrap().is_empty());
    assert!(rows[0].get::<String>(3).unwrap().is_empty());
    assert_eq!(rows[1].count(), 4);
    assert!(rows[1].get::<String>(0).unwrap().is_empty());
    assert_eq!(rows[2].count(), 4);
    assert!(rows[2].get::<String>(0).unwrap().is_empty());
}

#[test]
fn test_multi_line_field() {
    // a line feed inside quotes is data, so one record spans two lines
    let (_, rows) = collect_rows("\"a\nb\",c\n", false);
    assert_eq!(rows.len(), 1);
    assert_eq!(rows[0].count(), 2);
    assert_eq!(rows[0].get_value(0).unwrap(), "a\nb");
    assert_eq!(rows[0].get_value(1).unwrap(), "c");
}

#[test]
fn test_embedded_delimiter() {
    let (_, rows) = collect_rows("\"x,y\",z\n", false);
    assert_eq!(rows.len(), 1);
    assert_eq!(rows[0].count(), 2);
    assert_eq!(rows[0].get_value(0).unwrap(), "x,y");
    assert_eq!(rows[0].get_value(1).unwrap(), "z");
}

#[test]
fn test_embedded_doubled_quote() {
    let (_, rows) = collect_rows("\"a\"\"b\",c\n", false);
    assert_eq!(rows.len(), 1);
    assert_eq!(rows[0].count(), 2);
    assert_eq!(rows[0].get_value(0).unwrap(), "a\"b");
    assert_eq!(rows[0].get_value(1).unwrap(), "c");
}

#[test]
fn test_empty_fields_single_record() {
    let (_, rows) = collect_rows(",,,\n", false);
    assert_eq!(rows.len(), 1);
    assert_eq!(rows[0].count(), 4);
    for k in 0..4 {
        assert_eq!(rows[0].get_value(k).unwrap(), "");
    }
}

#[test]
fn test_header_caching() {
    let data = "name,age\nada,36\ngrace,45\n";
    let reader = Reader::builder()
        .with_header(true)
        .with_reader(data.as_bytes().to_vec())
        .build()
        .expect("could not create reader.");
    // asking for the headers twice consumes nothing and returns equal content
    let first = reader.headers().unwrap();
    let second = reader.headers().unwrap();
    assert_eq!(first.get_value(0), second.get_value(0));
    assert_eq!(first.get_value(1), second.get_value(1));
    assert_eq!(first.count(), second.count());
    let mut entries = reader.entries();
    let mut n = 0;
    while let Some(_) = entries.next() {
        n += 1;
    }
    assert_eq!(n, 2, "both data rows are still there to iterate");
}

#[test]
fn test_crlf_line_endings() {
    let (_, rows) = collect_rows("a,b\r\nc,d\r\n", false);
    assert_eq!(rows.len(), 2);
    assert_eq!(rows[0].get_value(0).unwrap(), "a");
    assert_eq!(rows[0].get_value(1).unwrap(), "b");
    assert_eq!(rows[1].get_value(0).unwrap(), "c");
    assert_eq!(rows[1].get_value(1).unwrap(), "d");
}

#[test]
fn test_custom_delimiter_reading() {
    let reader = Reader::builder()
        .with_header(false)
        .with_delimiter(b';')
        .with_reader(b"a;b\nc;d\n".to_vec())
        .build()
        .unwrap();
    let mut entries = reader.entries();
    let first = entries.next().unwrap();
    assert_eq!(first.count(), 2);
    assert_eq!(first.get_value(0).unwrap(), "a");
    assert_eq!(first.get_value(1).unwrap(), "b");
}

#[test]
fn test_build_without_input_fails() {
    let built = Reader::builder().with_header(true).build();
    match built {
        Err(CsvError::ReadError(_)) => {}
        other => panic!("expected a read error, got {:?}", other.map(|_| ())),
    }
}

#[test]
fn test_build_with_empty_input_and_header_fails() {
    let built = Reader::builder()
        .with_header(true)
        .with_reader(Vec::new())
        .build();
    match built {
        Err(CsvError::RecordError(_)) => {}
        other => panic!("expected a record error, got {:?}", other.map(|_| ())),
    }
}

#[test]
fn test_read_fields_directly() {
    let input = b"one,two\nthree\n".to_vec();
    let (row, next) = read_fields(&input, 0, b',').unwrap();
    assert_eq!(row.count(), 2);
    assert_eq!(row.get_value(0).unwrap(), "one");
    assert_eq!(row.get_value(1).unwrap(), "two");
    let (row2, end) = read_fields(&input, next, b',').unwrap();
    assert_eq!(row2.count(), 1);
    assert_eq!(row2.get_value(0).unwrap(), "three");
    assert_eq!(end, input.len());
    assert!(read_fields(&input, end, b',').is_err());
}

#[test]
fn test_unterminated_quote_fails() {
    let input = b"\"open quote never ends".to_vec();
    match read_fields(&input, 0, b',') {
        Err(CsvError::RecordError(_)) => {}
        other => panic!("expected a record error, got {:?}", other.map(|_| ())),
    }
}

#[test]
fn test_trailing_delimiter_yields_empty_field() {
    let input = b"a,b,".to_vec();
    let (row, _) = read_fields(&input, 0, b',').unwrap();
    assert_eq!(row.count(), 3);
    assert_eq!(row.get_value(2).unwrap(), "");
}
