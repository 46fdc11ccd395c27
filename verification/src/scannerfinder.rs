//! Bookkeeping for device discovery: the shared list of scanners found so
//! far, the name filter, and the rules for accepting a discovered service
//! record. The browse loop itself — the multicast event source and its
//! timeout — runs outside; every mutation of the list goes through
//! [`ScannerFinder::add_scanner`], which only ever appends.

use vstd::prelude::*;
use vstd::string::*;

use crate::scanner::{scanner_like, Scanner};
use crate::scannererror::{ErrorCode, ScannerError};
use crate::strutil::{is_substring, str_contains};

verus! {

/// A scanner matches a filter when the filter is a substring of its base
/// address or of its human-readable name.
pub open spec fn matches_filter(s: &Scanner, name: Seq<char>) -> bool {
    is_substring(s.base_url@, name) || is_substring(s.device_name@, name)
}

/// Some scanner of the list matches the filter.
pub open spec fn spec_scanner_found(scanners: Seq<Scanner>, name: Seq<char>) -> bool {
    exists|i: int| 0 <= i < scanners.len() && matches_filter(&scanners[i], name)
}

/// The scanners discovered by one browse, in the order they were accepted.
#[derive(Debug)]
pub struct ScannerFinder {
    pub scanners: Vec<Scanner>,
}

impl ScannerFinder {
    /// A fresh browse: no scanners found yet.
    pub fn new() -> (r: ScannerFinder)
        ensures
            r.scanners@.len() == 0,
    {
        ScannerFinder { scanners: Vec::new() }
    }

    /// Whether some scanner found so far matches the filter; the browse
    /// loop may stop as soon as this holds.
    pub fn scanner_found(&self, name: &str) -> (r: bool)
        ensures
            r == spec_scanner_found(self.scanners@, name@),
    {
        let mut i: usize = 0;
        while i < self.scanners.len()
            invariant
                i <= self.scanners@.len(),
                forall|j: int| 0 <= j < i ==> !matches_filter(&self.scanners@[j], name@),
            decreases self.scanners@.len() - i,
        {
            let s = &self.scanners[i];
            if str_contains(s.base_url.as_str(), name) || str_contains(
                s.device_name.as_str(),
                name,
            ) {
                return true;
            }
            i += 1;
        }
        false
    }

    /// Appends one accepted scanner: entries found earlier keep their
    /// places and their order.
    pub fn add_scanner(&mut self, scanner: Scanner)
        ensures
            final(self).scanners@ == old(self).scanners@.push(scanner),
    {
        self.scanners.push(scanner);
    }

    /// What one browse hands back once it stops: with a filter that
    /// nothing matched, the browse was exhausted; otherwise the list found
    /// so far, in discovery order.
    pub fn find_outcome(&self, name: Option<&str>) -> (r: Result<Vec<Scanner>, ScannerError>)
        ensures
            r is Ok <==> (name is None || spec_scanner_found(
                self.scanners@,
                name.unwrap()@,
            )),
            r matches Err(e) ==> e.code == ErrorCode::NoScannerFound && e.message@
                == name.unwrap()@,
            r matches Ok(list) ==> list@.len() == self.scanners@.len() && forall|i: int|
                0 <= i < list@.len() ==> scanner_like(&list@[i], &self.scanners@[i]),
    {
        if let Some(filter) = name {
            if !self.scanner_found(filter) {
                return Err(
                    ScannerError {
                        code: ErrorCode::NoScannerFound,
                        message: String::from_str(filter),
                    },
                );
            }
        }
        let list = self.scanners.clone();
        proof {
            assert forall|i: int| 0 <= i < list@.len() implies scanner_like(
                &list@[i],
                &self.scanners@[i],
            ) by {
                assert(cloned::<Scanner>(self.scanners@[i], list@[i]));
            }
        }
        Ok(list)
    }
}

/// Accepts or drops one discovered service record: a record missing its
/// resource-root hint (`rs`) or its human-readable name (`ty`) is dropped,
/// and the browse goes on; a complete record yields the name and root a
/// scanner handle is built from.
pub fn record_identity(url_root: Option<String>, device_name: Option<String>) -> (r: Option<
    (String, String),
>)
    ensures
        r is Some <==> url_root is Some && device_name is Some,
        r matches Some(pair) ==> pair.0@ == device_name.unwrap()@ && pair.1@
            == url_root.unwrap()@,
{
    match (device_name, url_root) {
        (Some(name), Some(root)) => Some((name, root)),
        _ => None,
    }
}

} // verus!
