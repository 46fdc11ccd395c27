use escl_scan::scannererror::{ErrorCode, ScannerError};

fn err(code: ErrorCode, message: &str) -> ScannerError {
    ScannerError { code, message: message.to_string() }
}

#[test]
fn error_messages_lead_with_their_kind() {
    assert_eq!(
        err(ErrorCode::FilesystemError, "disk full").display_message(),
        "File System Error: disk full"
    );
    assert_eq!(
        err(ErrorCode::NetworkError, "timed out").display_message(),
        "Network Error: timed out"
    );
    assert_eq!(
        err(ErrorCode::NoFileExtension, "scan").display_message(),
        "Specified output file does not have a file extension: scan"
    );
    assert_eq!(
        err(ErrorCode::NoMorePages, "").display_message(),
        "There are no more scanned pages available for download"
    );
    assert_eq!(
        err(ErrorCode::NoScannerFound, "Office").display_message(),
        "No scanner found where name contains \"Office\""
    );
    assert_eq!(
        err(ErrorCode::PdfError, "bad xref").display_message(),
        "PDF processing error: bad xref"
    );
    assert_eq!(
        err(ErrorCode::ProtocolError, "no location").display_message(),
        "eSCL Protocol Error: no location"
    );
    assert_eq!(
        err(ErrorCode::ScannerNotReady, "").display_message(),
        "The scanner is not ready to scan"
    );
}

#[test]
fn cloning_keeps_code_and_message() {
    let original = err(ErrorCode::ProtocolError, "no location header");
    let copy = original.clone();
    assert!(matches!(copy.code, ErrorCode::ProtocolError));
    assert_eq!(copy.message, original.message);
}
