//! The library's error type.

use vstd::prelude::*;

verus! {

/// What can go wrong while a workbook is read, written or updated.
///
/// `Io` and `Zip` carry the text of a fault met by the code that moves bytes in
/// and out of files and archives.
#[derive(Debug)]
pub enum SpreadsheetError {
    Io(String),
    Zip(String),
    SheetNotFound(String),
    InvalidFormat(String),
    UnsupportedExtension(String),
    RowLengthMismatch { expected: usize, got: usize },
    NotStreaming,
    AlreadyStreaming,
    StreamingSheetOpen,
    DestinationExists(String),
    UnsupportedPlatform(String),
    Other(String),
}

pub type SpreadsheetResult<T> = Result<T, SpreadsheetError>;

impl SpreadsheetError {
    /// The value is the malformed-input error with exactly this message.
    pub open spec fn says(self, message: Seq<char>) -> bool {
        self matches SpreadsheetError::InvalidFormat(m) && m@ == message
    }

    /// The text that reports the error.
    pub open spec fn text(self) -> Seq<char> {
        match self {
            SpreadsheetError::Io(m) => "I/O error: "@ + m@,
            SpreadsheetError::Zip(m) => "ZIP error: "@ + m@,
            SpreadsheetError::SheetNotFound(m) => "sheet not found: "@ + m@,
            SpreadsheetError::InvalidFormat(m) => "invalid format: "@ + m@,
            SpreadsheetError::UnsupportedExtension(m) => "unsupported extension: "@ + m@,
            SpreadsheetError::RowLengthMismatch { expected, got } => {
                "row length mismatch: expected "@ + crate::text::decimal(expected as int)
                    + " columns, got "@ + crate::text::decimal(got as int)
            },
            SpreadsheetError::NotStreaming => {
                "not in streaming mode; call start_sheet() first"@
            },
            SpreadsheetError::AlreadyStreaming => {
                "already in streaming mode; call end_sheet() first"@
            },
            SpreadsheetError::StreamingSheetOpen => {
                "a streaming worksheet is still open; call end_sheet() first"@
            },
            SpreadsheetError::DestinationExists(m) => {
                "destination already exists (pass overwrite=true to replace it): "@ + m@
            },
            SpreadsheetError::UnsupportedPlatform(m) => {
                "operation not supported on this platform: "@ + m@
            },
            SpreadsheetError::Other(m) => m@,
        }
    }

    /// The text that reports the error.
    pub fn message(&self) -> (s: String)
        ensures
            s@ == self.text(),
    {
        match self {
            SpreadsheetError::Io(m) => labelled("I/O error: ", m.as_str()),
            SpreadsheetError::Zip(m) => labelled("ZIP error: ", m.as_str()),
            SpreadsheetError::SheetNotFound(m) => labelled("sheet not found: ", m.as_str()),
            SpreadsheetError::InvalidFormat(m) => labelled("invalid format: ", m.as_str()),
            SpreadsheetError::UnsupportedExtension(m) => labelled(
                "unsupported extension: ",
                m.as_str(),
            ),
            SpreadsheetError::RowLengthMismatch { expected, got } => {
                let mut s = "row length mismatch: expected ".to_owned();
                crate::text::push_decimal(&mut s, *expected as i128);
                s.append(" columns, got ");
                crate::text::push_decimal(&mut s, *got as i128);
                s
            },
            SpreadsheetError::NotStreaming => {
                "not in streaming mode; call start_sheet() first".to_owned()
            },
            SpreadsheetError::AlreadyStreaming => {
                "already in streaming mode; call end_sheet() first".to_owned()
            },
            SpreadsheetError::StreamingSheetOpen => {
                "a streaming worksheet is still open; call end_sheet() first".to_owned()
            },
            SpreadsheetError::DestinationExists(m) => labelled(
                "destination already exists (pass overwrite=true to replace it): ",
                m.as_str(),
            ),
            SpreadsheetError::UnsupportedPlatform(m) => labelled(
                "operation not supported on this platform: ",
                m.as_str(),
            ),
            SpreadsheetError::Other(m) => m.as_str().to_owned(),
        }
    }

    /// The value is the error for a sheet of this name that is not there.
    pub open spec fn misses(self, name: Seq<char>) -> bool {
        self matches SpreadsheetError::SheetNotFound(n) && n@ == name
    }
}

fn labelled(label: &str, text: &str) -> (s: String)
    ensures
        s@ == label@ + text@,
{
    let mut s = label.to_owned();
    s.append(text);
    s
}

/// The result is the malformed-input error with the given message.
pub open spec fn fails<T>(r: SpreadsheetResult<T>, message: Seq<char>) -> bool {
    r matches Err(e) && e.says(message)
}

/// The result is the given value, or the malformed-input error with the given
/// message.
pub open spec fn agrees<T>(r: SpreadsheetResult<T>, model: Result<T, Seq<char>>) -> bool {
    match (r, model) {
        (Ok(value), Ok(expected)) => value == expected,
        (Err(e), Err(message)) => e.says(message),
        _ => false,
    }
}

/// The malformed-input error with the given message.
pub fn invalid(message: &str) -> (e: SpreadsheetError)
    ensures
        e.says(message@),
{
    SpreadsheetError::InvalidFormat(message.to_owned())
}

} // verus!
