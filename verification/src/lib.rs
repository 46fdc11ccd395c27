//! A verified client core for the eSCL network scanning protocol: scanner
//! capability and status decoding, scan-session orchestration decisions,
//! page-file naming, PDF page merging on an object-graph model, and device
//! discovery bookkeeping.

pub mod pdf;
pub mod pdfproof;
pub mod scanner;
pub mod scannererror;
pub mod scannerfinder;
pub mod strutil;
pub mod structs;
