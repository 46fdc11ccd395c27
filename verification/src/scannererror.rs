//! Error kinds shared by every component of the library.

use vstd::prelude::*;
use vstd::string::*;

verus! {

/// The kind of a failure, mirroring the protocol's failure surface: transport
/// failures, protocol-shape failures, filesystem failures, failures of the
/// page-merge algorithm, discovery exhaustion and a device that is not ready.
#[derive(Clone, Copy, Debug, PartialEq, Eq, Structural)]
pub enum ErrorCode {
    FilesystemError,
    NetworkError,
    NoFileExtension,
    NoMorePages,
    NoScannerFound,
    PdfError,
    ProtocolError,
    ScannerNotReady,
}

/// An error: its kind together with a human-readable payload.
#[derive(Debug)]
pub struct ScannerError {
    pub code: ErrorCode,
    pub message: String,
}

/// Two errors carry the same information.
pub open spec fn error_like(a: &ScannerError, b: &ScannerError) -> bool {
    a.code == b.code && a.message@ == b.message@
}

impl Clone for ScannerError {
    fn clone(&self) -> (r: Self)
        ensures
            error_like(self, &r),
    {
        ScannerError { code: self.code, message: self.message.clone() }
    }
}

impl ScannerError {
    /// Builds an error of the given kind around a message.
    pub fn new(code: ErrorCode, message: String) -> (r: ScannerError)
        ensures
            r.code == code,
            r.message@ == message@,
    {
        ScannerError { code, message }
    }

    /// The user-facing text of this error.
    pub open spec fn spec_display_message(&self) -> Seq<char> {
        match self.code {
            ErrorCode::FilesystemError => "File System Error: "@ + self.message@,
            ErrorCode::NetworkError => "Network Error: "@ + self.message@,
            ErrorCode::NoFileExtension => "Specified output file does not have a file extension: "@
                + self.message@,
            ErrorCode::NoMorePages => "There are no more scanned pages available for download"@,
            ErrorCode::NoScannerFound => "No scanner found where name contains \""@ + self.message@
                + "\""@,
            ErrorCode::PdfError => "PDF processing error: "@ + self.message@,
            ErrorCode::ProtocolError => "eSCL Protocol Error: "@ + self.message@,
            ErrorCode::ScannerNotReady => "The scanner is not ready to scan"@,
        }
    }

    /// Renders the error as one line of text, kind first.
    pub fn display_message(&self) -> (r: String)
        ensures
            r@ == self.spec_display_message(),
    {
        match self.code {
            ErrorCode::FilesystemError => {
                String::from_str("File System Error: ").concat(self.message.as_str())
            },
            ErrorCode::NetworkError => {
                String::from_str("Network Error: ").concat(self.message.as_str())
            },
            ErrorCode::NoFileExtension => {
                String::from_str("Specified output file does not have a file extension: ").concat(
                    self.message.as_str(),
                )
            },
            ErrorCode::NoMorePages => {
                String::from_str("There are no more scanned pages available for download")
            },
            ErrorCode::NoScannerFound => {
                String::from_str("No scanner found where name contains \"").concat(
                    self.message.as_str(),
                ).concat("\"")
            },
            ErrorCode::PdfError => {
                String::from_str("PDF processing error: ").concat(self.message.as_str())
            },
            ErrorCode::ProtocolError => {
                String::from_str("eSCL Protocol Error: ").concat(self.message.as_str())
            },
            ErrorCode::ScannerNotReady => {
                String::from_str("The scanner is not ready to scan")
            },
        }
    }
}

} // verus!
