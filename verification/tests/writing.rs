use csvlib::parser::read_fields;
use csvlib::row::Row;
use csvlib::writer::Writer;

fn row_of(fields: &[&str]) -> Row {
    let mut row = Row::new();
    for f in fields {
        row.add(f);
    }
    row
}

fn written(row: &Row) -> Vec<u8> {
    let mut w = Writer::new();
    w.write(row).unwrap();
    w.into_bytes()
}

#[test]
fn test_plain_row_written_verbatim() {
    let row = row_of(&["a", "b", "c"]);
    assert_eq!(written(&row), b"a,b,c\r\n".to_vec());
}

#[test]
fn test_field_with_delimiter_is_quoted() {
    let row = row_of(&["com,ma", "z"]);
    assert_eq!(written(&row), b"\"com,ma\",z\r\n".to_vec());
}

#[test]
fn test_field_with_quote_is_wrapped_and_doubled() {
    let row = row_of(&["a\"b", "c"]);
    assert_eq!(written(&row), b"\"a\"\"b\",c\r\n".to_vec());
}

#[test]
fn test_field_with_newline_is_quoted() {
    let row = row_of(&["a\nb", "c"]);
    assert_eq!(written(&row), b"\"a\nb\",c\r\n".to_vec());
}

#[test]
fn test_writer_delimiter_override() {
    let row = row_of(&["a", "b;c"]);
    let mut w = Writer::new().with_delimiter(b';');
    w.write(&row).unwrap();
    assert_eq!(w.as_bytes().as_slice(), b"a;\"b;c\"\r\n");
}

#[test]
fn test_write_all_appends_every_row() {
    let rows = vec![row_of(&["a", "b"]), row_of(&["c", "d"])];
    let mut w = Writer::new();
    w.write_all(&rows).unwrap();
    assert_eq!(w.into_bytes(), b"a,b\r\nc,d\r\n".to_vec());
}

#[test]
fn test_display_matches_writer() {
    // the row's own text rendering must escape exactly as the writer does
    let samples: Vec<Row> = vec![
        row_of(&["plain", "x"]),
        row_of(&["com,ma", "q\"uote", "multi\nline"]),
        row_of(&["", ""]),
    ];
    for row in &samples {
        let mut bytes = row.render_bytes();
        bytes.push(b'\r');
        bytes.push(b'\n');
        assert_eq!(bytes, written(row));
        let text = row.to_text();
        let mut text_bytes = text.into_bytes();
        text_bytes.push(b'\r');
        text_bytes.push(b'\n');
        assert_eq!(text_bytes, written(row));
    }
}

#[test]
fn test_round_trip_tricky_fields() {
    // arbitrary text fields, with embedded delimiters, quotes and newlines,
    // survive a write followed by a parse
    let cases: Vec<Vec<&str>> = vec![
        vec!["a", "b", "c"],
        vec!["com,ma", "q\"uote", "new\nline"],
        vec!["\"", "\"\"", "a\"", "\"b"],
        vec!["", "", ""],
        vec!["crlf\r\ninside", "x"],
        vec!["ünïcode", "naïve"],
    ];
    for fields in &cases {
        let row = row_of(fields);
        let bytes = written(&row);
        let (parsed, consumed) = read_fields(&bytes, 0, b',').unwrap();
        assert_eq!(consumed, bytes.len(), "the whole record is consumed");
        assert_eq!(parsed.count(), fields.len());
        for (k, f) in fields.iter().enumerate() {
            assert_eq!(parsed.get_value(k).unwrap(), *f);
        }
    }
}

#[test]
fn test_round_trip_single_empty_field() {
    let row = row_of(&[""]);
    let bytes = written(&row);
    assert_eq!(bytes, b"\r\n".to_vec());
    let (parsed, _) = read_fields(&bytes, 0, b',').unwrap();
    assert_eq!(parsed.count(), 1);
    assert_eq!(parsed.get_value(0).unwrap(), "");
}

#[test]
fn test_stream_round_trip() {
    // write several rows, then read the whole stream back
    let rows = vec![
        row_of(&["plain", "x"]),
        row_of(&["com,ma", "q\"uote"]),
        row_of(&["multi\nline", ""]),
    ];
    let mut w = Writer::new();
    w.write_all(&rows).unwrap();
    let reader = csvlib::reader::Reader::builder()
        .with_header(false)
        .with_reader(w.into_bytes())
        .build()
        .unwrap();
    let mut entries = reader.entries();
    let mut parsed: Vec<Row> = Vec::new();
    while let Some(row) = entries.next() {
        parsed.push(row);
    }
    assert_eq!(parsed.len(), rows.len());
    for (p, r) in parsed.iter().zip(rows.iter()) {
        assert_eq!(p.count(), r.count());
        for k in 0..r.count() {
            assert_eq!(p.get_value(k), r.get_value(k));
        }
    }
}

#[test]
fn test_row_delimiter_changes_rendering() {
    let mut row = row_of(&["a", "b,c"]);
    row.delimiter(b'|');
    assert_eq!(row.delimiter_byte(), b'|');
    // the comma no longer forces quoting, the pipe separates
    assert_eq!(row.render_bytes(), b"a|b,c".to_vec());
    assert_eq!(row.to_text(), "a|b,c");
}
