//! Errors of document preparation and rendering.

use vstd::prelude::*;

verus! {

/// Errors that can occur while preparing or rendering a document.
#[derive(Debug)]
pub enum Error {
    /// The entry file was not found in the embedded templates.
    EntryNotFound(String),
    /// Embedded text is not valid UTF-8.
    InvalidUtf8,
    /// Compilation failed, with the collected diagnostics.
    Compilation(String),
    /// PDF generation failed.
    PdfGeneration(String),
    /// PNG encoding failed.
    PngEncoding(String),
    /// Decompression of embedded content failed.
    Decompression,
}

impl Error {
    /// A short description of the error.
    pub fn message(&self) -> (r: String)
        ensures
            r@ == match self {
                Error::EntryNotFound(p) => "entry file not found: "@ + p@,
                Error::InvalidUtf8 => "entry file is not valid UTF-8"@,
                Error::Compilation(d) => "compilation failed:\n"@ + d@,
                Error::PdfGeneration(d) => "PDF generation failed: "@ + d@,
                Error::PngEncoding(d) => "PNG encoding failed: "@ + d@,
                Error::Decompression => "decompression failed"@,
            },
    {
        match self {
            Error::EntryNotFound(p) => {
                let mut s = "entry file not found: ".to_owned();
                s.append(p.as_str());
                s
            },
            Error::InvalidUtf8 => "entry file is not valid UTF-8".to_owned(),
            Error::Compilation(d) => {
                let mut s = "compilation failed:\n".to_owned();
                s.append(d.as_str());
                s
            },
            Error::PdfGeneration(d) => {
                let mut s = "PDF generation failed: ".to_owned();
                s.append(d.as_str());
                s
            },
            Error::PngEncoding(d) => {
                let mut s = "PNG encoding failed: ".to_owned();
                s.append(d.as_str());
                s
            },
            Error::Decompression => "decompression failed".to_owned(),
        }
    }
}

} // verus!
