//! The error taxonomy.
//!
//! Every fallible operation of the library reports one of these variants.
//! `message` renders the human-readable description; its exact text is part
//! of the contract.

use crate::text::decimal_of;
use crate::text::usize_string;
use vstd::prelude::*;
use vstd::string::StringExecFns;

verus! {

/// Everything that can go wrong while reading, converting or writing CSV.
#[derive(Debug, PartialEq)]
pub enum CsvError {
    /// A record could not be parsed from the source (including running out
    /// of input where a record was expected).
    RecordError(String),
    /// The byte source could not be read.
    ReadError(String),
    /// A field's text failed to parse into the requested type; carries the
    /// field index, the offending text and the target type's name.
    ConversionError(usize, String, String),
    /// Field bytes were not valid text where strict decoding was required.
    InvalidString,
    /// A free-standing field failed to parse; carries the offending text
    /// and the target type's name.
    FieldParseError(String, String),
    /// No field exists at the given index.
    NotAField(usize),
    /// A resource could not be accessed.
    IOError(String),
    /// A file could not be accessed; carries the file name and the reason.
    FileAccessError(String, String),
    /// No column with the given name exists in the document.
    InvalidColumn(String),
    /// No row with the given index exists in the document.
    InvalidRow(usize),
    /// No column with the given index exists in the document.
    InvalidColumnIndex(usize),
    /// Any other failure, described by its message.
    Generic(String),
}

impl CsvError {
    /// The text that `message` returns for each variant.
    pub open spec fn message_spec(&self) -> Seq<char> {
        match self {
            CsvError::RecordError(line) => "Error parsing CSV row\n\t`"@ + line@ + "`."@,
            CsvError::ReadError(error) => "Error reading from source `"@ + error@ + "`."@,
            CsvError::ConversionError(field, value, target) => "Error parsing field  `"@
                + decimal_of(*field as nat) + "` with value `"@ + value@ + "` into `"@
                + target@ + "`."@,
            CsvError::InvalidString => "Cannot convert field to a valid string."@,
            CsvError::FieldParseError(value, target) => "Error parsing field `"@ + value@
                + "` to `"@ + target@ + "`."@,
            CsvError::NotAField(index) => "Not field at given index `"@ + decimal_of(
                *index as nat,
            ) + "`."@,
            CsvError::IOError(error) => "Error accessing resource `"@ + error@ + "`."@,
            CsvError::FileAccessError(file, reason) => "Error accessing file `"@ + file@ + "`: "@
                + reason@ + "."@,
            CsvError::InvalidColumn(column) => "Invalid Column: `"@ + column@
                + "`. Not found in document."@,
            CsvError::InvalidColumnIndex(column) => "Invalid Column: `"@ + decimal_of(
                *column as nat,
            ) + "`. Not found in document."@,
            CsvError::InvalidRow(row) => "Invalid Row: `"@ + decimal_of(*row as nat)
                + "`. Not found in document."@,
            CsvError::Generic(msg) => msg@,
        }
    }

    /// Renders the error as human-readable text.
    pub fn message(&self) -> (r: String)
        ensures
            r@ == self.message_spec(),
    {
        match self {
            CsvError::RecordError(line) => {
                let mut s = "Error parsing CSV row\n\t`".to_owned();
                s.append(line.as_str());
                s.append("`.");
                s
            },
            CsvError::ReadError(error) => {
                let mut s = "Error reading from source `".to_owned();
                s.append(error.as_str());
                s.append("`.");
                s
            },
            CsvError::ConversionError(field, value, target) => {
                let mut s = "Error parsing field  `".to_owned();
                let num = usize_string(*field);
                s.append(num.as_str());
                s.append("` with value `");
                s.append(value.as_str());
                s.append("` into `");
                s.append(target.as_str());
                s.append("`.");
                s
            },
            CsvError::InvalidString => "Cannot convert field to a valid string.".to_owned(),
            CsvError::FieldParseError(value, target) => {
                let mut s = "Error parsing field `".to_owned();
                s.append(value.as_str());
                s.append("` to `");
                s.append(target.as_str());
                s.append("`.");
                s
            },
            CsvError::NotAField(index) => {
                let mut s = "Not field at given index `".to_owned();
                let num = usize_string(*index);
                s.append(num.as_str());
                s.append("`.");
                s
            },
            CsvError::IOError(error) => {
                let mut s = "Error accessing resource `".to_owned();
                s.append(error.as_str());
                s.append("`.");
                s
            },
            CsvError::FileAccessError(file, reason) => {
                let mut s = "Error accessing file `".to_owned();
                s.append(file.as_str());
                s.append("`: ");
                s.append(reason.as_str());
                s.append(".");
                s
            },
            CsvError::InvalidColumn(column) => {
                let mut s = "Invalid Column: `".to_owned();
                s.append(column.as_str());
                s.append("`. Not found in document.");
                s
            },
            CsvError::InvalidColumnIndex(column) => {
                let mut s = "Invalid Column: `".to_owned();
                let num = usize_string(*column);
                s.append(num.as_str());
                s.append("`. Not found in document.");
                s
            },
            CsvError::InvalidRow(row) => {
                let mut s = "Invalid Row: `".to_owned();
                let num = usize_string(*row);
                s.append(num.as_str());
                s.append("`. Not found in document.");
                s
            },
            CsvError::Generic(msg) => {
                let s = msg.as_str().to_owned();
                s
            },
        }
    }
}

} // verus!
