use csvlib::doc::DocEntry;
use csvlib::doc::Document;
use csvlib::errors::CsvError;
use csvlib::reader::Reader;
use csvlib::row::FromRow;
use csvlib::row::Row;

fn number_doc() -> Document {
    let data = "header1,header2,header3,header4\n11,12,13,14\n21,22,23,24\n31,32,33,34";
    let input = data.as_bytes().to_vec();
    let csv_reader = Reader::builder()
        .with_reader(input)
        .with_header(true)
        .build()
        .expect("Creating document reader");
    Document::from_reader(csv_reader)
}

fn row_of(fields: &[&str]) -> Row {
    let mut row = Row::new();
    for f in fields {
        row.add(f);
    }
    row
}

#[test]
fn test_csv_doc_remove_row() {
    let mut doc = number_doc();
    doc.remove_where("header1", "21");
    assert_eq!(doc.get::<i32>(0, "header1"), Ok(11));
    assert_eq!(doc.get::<i32>(1, "header1"), Ok(31));
    assert_eq!(doc.count(), 2);
}

#[test]
fn test_doc_lookup_by_name_and_index() {
    let doc = number_doc();
    assert_eq!(doc.count(), 3);
    assert_eq!(doc.get_indexed::<i32>(1, 2), Ok(23));
    assert_eq!(doc.get::<i32>(2, "header4"), Ok(34));
    assert!(doc.is_valid_row_index(2));
    assert!(!doc.is_valid_row_index(3));
    assert!(doc.is_valid_column("header3"));
    assert!(!doc.is_valid_column("no such column"));
    assert!(doc.is_valid_column_index(3));
    assert!(!doc.is_valid_column_index(4));
}

#[test]
fn test_doc_error_cases() {
    let doc = number_doc();
    assert_eq!(
        doc.get::<i32>(0, "nope"),
        Err(CsvError::InvalidColumn("nope".to_string()))
    );
    assert_eq!(doc.get_indexed::<i32>(9, 0), Err(CsvError::InvalidRow(9)));
    assert_eq!(doc.get_indexed::<i32>(0, 9), Err(CsvError::NotAField(9)));
    match doc.get_column::<i32>("missing") {
        Err(CsvError::InvalidColumn(name)) => assert_eq!(name, "missing"),
        other => panic!("expected an invalid column error, got {:?}", other),
    }
}

#[test]
fn test_doc_get_column() {
    let doc = number_doc();
    assert_eq!(doc.get_column::<i32>("header2").unwrap(), vec![12, 22, 32]);
    assert_eq!(doc.get_column_by_index::<i32>(0).unwrap(), vec![11, 21, 31]);
}

#[test]
fn test_doc_headers() {
    let doc = number_doc();
    let names = doc.get_header_names().unwrap();
    assert_eq!(
        names,
        vec![
            "header1".to_string(),
            "header2".to_string(),
            "header3".to_string(),
            "header4".to_string()
        ]
    );
    assert!(doc.get_header_row().is_some());
}

#[test]
fn test_doc_with_headers_and_edits() {
    let mut doc = Document::with_headers(&["Name", "Age"]);
    assert_eq!(doc.count(), 0);
    doc.insert(row_of(&["Mike", "15"]));
    doc.insert(row_of(&["Jenny", "16"]));
    assert_eq!(doc.count(), 2);
    assert_eq!(doc.get::<String>(0, "Name").unwrap(), "Mike");
    assert_eq!(doc.get::<u32>(1, "Age").unwrap(), 16);

    doc.set(0, "Age", "17");
    assert_eq!(doc.get::<u32>(0, "Age").unwrap(), 17);
    doc.set_indexed(1, 0, "Jen");
    assert_eq!(doc.get::<String>(1, "Name").unwrap(), "Jen");

    doc.remove_row(0);
    assert_eq!(doc.count(), 1);
    assert_eq!(doc.get::<String>(0, "Name").unwrap(), "Jen");
}

#[test]
fn test_doc_insert_all_and_append() {
    let mut doc = Document::with_headers(&["a", "b"]);
    let extra = vec![row_of(&["1", "2"]), row_of(&["3", "4"])];
    doc.insert_all(&extra);
    assert_eq!(doc.count(), 2);

    let mut other = Document::with_headers(&["a", "b"]);
    other.insert(row_of(&["5", "6"]));
    doc.append(&other);
    assert_eq!(doc.count(), 3);
    assert_eq!(doc.get_indexed::<i32>(2, 1), Ok(6));
}

#[test]
fn test_doc_rows_iteration() {
    let doc = number_doc();
    let mut iter = doc.rows();
    let mut firsts: Vec<String> = Vec::new();
    while let Some(entry) = iter.next() {
        firsts.push(entry.get::<String>("header1").unwrap());
    }
    assert_eq!(firsts, vec!["11".to_string(), "21".to_string(), "31".to_string()]);
}

#[test]
fn test_doc_entry_lookup() {
    let doc = number_doc();
    let mut iter = doc.rows();
    let entry = iter.next().unwrap();
    assert_eq!(entry.get::<i32>("header2").unwrap(), 12);
    assert_eq!(entry.get_value("header2").unwrap(), "12");
    assert_eq!(entry.get_value("absent"), None);
    let mut columns = entry.columns();
    columns.sort();
    assert_eq!(
        columns,
        vec![
            "header1".to_string(),
            "header2".to_string(),
            "header3".to_string(),
            "header4".to_string()
        ]
    );
}

#[test]
fn test_doc_get_rows_where() {
    let mut doc = Document::with_headers(&["city", "n"]);
    doc.insert(row_of(&["springfield", "1"]));
    doc.insert(row_of(&["shelbyville", "2"]));
    doc.insert(row_of(&["springfield", "3"]));
    let hits = doc.get_rows_where("city", "springfield");
    assert_eq!(hits.len(), 2);
    assert_eq!(hits[0].get::<i32>("n").unwrap(), 1);
    assert_eq!(hits[1].get::<i32>("n").unwrap(), 3);
    assert_eq!(doc.get_rows_where("no column", "x").len(), 0);
}

#[test]
fn test_doc_retain() {
    let mut doc = number_doc();
    doc.retain(|entry: DocEntry| entry.get::<i32>("header1").unwrap_or(0) > 15);
    assert_eq!(doc.count(), 2);
    assert_eq!(doc.get::<i32>(0, "header1"), Ok(21));
    assert_eq!(doc.get::<i32>(1, "header1"), Ok(31));
}

#[test]
fn test_doc_from_reader_filtered() {
    let data = "header1,header2,header3,header4\n11,12,13,14\n21,22,23,24\n31,32,33,34";
    let reader = Reader::builder()
        .with_reader(data.as_bytes().to_vec())
        .with_header(true)
        .build()
        .unwrap();
    let doc = Document::from_reader_filtered(reader, |entry: DocEntry| {
        entry.get::<i32>("header1").unwrap_or(0) != 21
    });
    assert_eq!(doc.count(), 2);
    assert_eq!(doc.get::<i32>(1, "header1"), Ok(31));
}

#[test]
fn test_doc_to_bytes() {
    let mut doc = Document::with_headers(&["a", "b"]);
    doc.insert(row_of(&["1", "x,y"]));
    assert_eq!(doc.to_bytes(), b"a,b\r\n1,\"x,y\"\r\n".to_vec());
}

struct Person {
    name: String,
    age: u32,
}

impl FromRow for Person {
    fn from(row: &Row) -> Result<Self, CsvError> {
        Ok(Person { name: row.get::<String>(0)?, age: row.get::<u32>(1)? })
    }
}

#[test]
fn test_doc_rows_decoded() {
    let mut doc = Document::with_headers(&["name", "age"]);
    doc.insert(row_of(&["ada", "36"]));
    doc.insert(row_of(&["grace", "not a number"]));
    let people = doc.rows_decoded::<Person>();
    assert_eq!(people.len(), 2);
    let first = people[0].as_ref().unwrap();
    assert_eq!(first.name, "ada");
    assert_eq!(first.age, 36);
    assert!(people[1].is_err());
}

#[test]
fn test_doc_from_entries() {
    let doc = number_doc();
    let mut iter = doc.rows();
    let mut entries: Vec<DocEntry> = Vec::new();
    while let Some(entry) = iter.next() {
        entries.push(entry);
    }
    let rebuilt = Document::from_entries(entries);
    assert_eq!(rebuilt.count(), doc.count());
    assert_eq!(rebuilt.get_header_names(), doc.get_header_names());
    for k in 0..doc.count() {
        assert_eq!(rebuilt.get_indexed::<i32>(k, 0), doc.get_indexed::<i32>(k, 0));
    }
}

#[test]
fn test_doc_empty() {
    let doc = Document::empty();
    assert_eq!(doc.count(), 0);
    assert!(doc.get_header_row().is_none());
    assert_eq!(doc.get_header_names(), None);
}
