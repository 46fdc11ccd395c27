//! One scanner and one scan session: the session settings built from a
//! capabilities snapshot, the decisions of the job-submission step, the
//! page-retrieval loop, and the naming of page files on disk.

use vstd::prelude::*;
use vstd::string::*;

use crate::scannererror::{ErrorCode, ScannerError};
use crate::structs::{
    capabilities_like, spec_region_units, FeedDirection, ScanRegion, ScanSettings,
    ScannerCapabilities, ScannerState,
};
use crate::strutil::{dec_str, is_substring, rfind_dot, str_contains, str_eq, u32_to_string};

verus! {

/// A reachable scanner: its name, its base address, and its most recently
/// fetched capabilities snapshot.
#[derive(Debug)]
pub struct Scanner {
    pub base_url: String,
    pub device_name: String,
    pub capabilities: ScannerCapabilities,
}

/// Two scanner handles carry the same information.
pub open spec fn scanner_like(a: &Scanner, b: &Scanner) -> bool {
    a.base_url@ == b.base_url@ && a.device_name@ == b.device_name@ && capabilities_like(
        &a.capabilities,
        &b.capabilities,
    )
}

impl Clone for Scanner {
    fn clone(&self) -> (r: Self)
        ensures
            scanner_like(self, &r),
    {
        Scanner {
            base_url: self.base_url.clone(),
            device_name: self.device_name.clone(),
            capabilities: self.capabilities.clone(),
        }
    }
}

impl Scanner {
    /// The base address of a device reached over plain HTTP on the default
    /// port, rooted at the given resource path.
    pub fn make_base_url(ip_or_host: &str, root: &str) -> (r: String)
        ensures
            r@ == "http://"@ + ip_or_host@ + ":80/"@ + root@,
    {
        String::from_str("http://").concat(ip_or_host).concat(":80/").concat(root)
    }

    /// Builds a scanner handle around an already fetched capabilities
    /// snapshot; fetching the snapshot is the caller's network step.
    pub fn new(
        device_name: &str,
        ip_or_host: &str,
        resource_root: &str,
        capabilities: ScannerCapabilities,
    ) -> (r: Scanner)
        ensures
            r.device_name@ == device_name@,
            r.base_url@ == "http://"@ + ip_or_host@ + ":80/"@ + resource_root@,
            capabilities_like(&r.capabilities, &capabilities),
    {
        let base_url = Scanner::make_base_url(ip_or_host, resource_root);
        Scanner { device_name: String::from_str(device_name), base_url, capabilities }
    }

    /// The default settings of one scan job: protocol version 2.6, the full
    /// platen at 300 DPI, automatic content, RGB color, JPEG output.
    pub fn make_settings(&self) -> (r: ScanSettings)
        ensures
            r.version@ == "2.6"@,
            r.scan_regions.x_offset == 0,
            r.scan_regions.y_offset == 0,
            r.scan_regions.width == self.capabilities.platen.platen_input_caps.max_width,
            r.scan_regions.height == self.capabilities.platen.platen_input_caps.max_height,
            r.scan_regions.content_region_units@ == spec_region_units(),
            r.content_type@ == "Auto"@,
            r.input_source@ == "Platen"@,
            r.color_mode@ == "RGB24"@,
            r.document_format@ == "image/jpeg"@,
            r.feed_direction@ == FeedDirection::ShortEdgeFeed.spec_wire_name(),
            r.x_resolution == 300,
            r.y_resolution == 300,
    {
        ScanSettings {
            version: String::from_str("2.6"),
            scan_regions: ScanRegion {
                x_offset: 0,
                y_offset: 0,
                width: self.capabilities.platen.platen_input_caps.max_width,
                height: self.capabilities.platen.platen_input_caps.max_height,
                content_region_units: String::from_str("escl:ThreeHundredthsOfInches"),
            },
            content_type: String::from_str("Auto"),
            input_source: String::from_str("Platen"),
            color_mode: String::from_str("RGB24"),
            document_format: String::from_str("image/jpeg"),
            feed_direction: FeedDirection::ShortEdgeFeed.wire_name(),
            x_resolution: 300,
            y_resolution: 300,
        }
    }

    /// Whether a scan may be submitted: the device must be idle, and its
    /// capabilities snapshot must advertise at least one color mode (an
    /// empty snapshot means the capabilities could not be determined).
    pub fn check_ready(&self, state: ScannerState) -> (r: Result<(), ScannerError>)
        ensures
            r is Ok <==> state == ScannerState::Idle && self.capabilities.spec_has_color_modes(),
            r matches Err(e) ==> e.code == ErrorCode::ScannerNotReady,
    {
        if !(state == ScannerState::Idle) {
            Err(ScannerError { code: ErrorCode::ScannerNotReady, message: String::new() })
        } else if !self.capabilities.has_color_modes() {
            Err(
                ScannerError {
                    code: ErrorCode::ScannerNotReady,
                    message: String::from_str("no color modes advertised"),
                },
            )
        } else {
            Ok(())
        }
    }
}

/// Decides the outcome of the job-submission step from what the device
/// answered: an error status is a network failure carrying the response
/// text, a success without a `location` header is a protocol failure, and
/// a success with one yields the page-fetch address.
pub fn scan_job_url(
    status_is_error: bool,
    status_desc: &str,
    body_text: &str,
    location: Option<&str>,
    response_desc: &str,
) -> (r: Result<String, ScannerError>)
    ensures
        status_is_error ==> (r matches Err(e) && e.code == ErrorCode::NetworkError && e.message@
            == "Status Code: "@ + status_desc@ + ", Text: "@ + body_text@),
        !status_is_error && location is None ==> (r matches Err(e) && e.code
            == ErrorCode::ProtocolError && e.message@
            == "Failed to get 'location' header from response:\n"@ + response_desc@),
        !status_is_error ==> (location matches Some(loc) ==> (r matches Ok(url) && url@ == loc@
            + "/NextDocument"@)),
        r is Ok <==> !status_is_error && location is Some,
{
    if status_is_error {
        return Err(
            ScannerError {
                code: ErrorCode::NetworkError,
                message: String::from_str("Status Code: ").concat(status_desc).concat(
                    ", Text: ",
                ).concat(body_text),
            },
        );
    }
    match location {
        None => Err(
            ScannerError {
                code: ErrorCode::ProtocolError,
                message: String::from_str(
                    "Failed to get 'location' header from response:\n",
                ).concat(response_desc),
            },
        ),
        Some(loc) => Ok(String::from_str(loc).concat("/NextDocument")),
    }
}

/// A file name is among the names already taken on disk.
pub open spec fn name_taken(taken: Seq<String>, name: Seq<char>) -> bool {
    exists|i: int| 0 <= i < taken.len() && taken[i]@ == name
}

/// `j` is the position of the last `.` of `s`.
pub open spec fn is_last_dot(s: Seq<char>, j: int) -> bool {
    0 <= j < s.len() && s[j] == '.' && forall|t: int| j < t < s.len() ==> s[t] != '.'
}

/// `s` holds a `.` somewhere.
pub open spec fn has_dot(s: Seq<char>) -> bool {
    exists|j: int| 0 <= j < s.len() && s[j] == '.'
}

/// The page file name with `_<idx>` inserted before the extension.
pub open spec fn numbered_name(stem: Seq<char>, ext: Seq<char>, idx: u16) -> Seq<char> {
    stem + "_"@ + dec_str(idx as nat) + ext
}

/// The fallback page file name with a second counter appended.
pub open spec fn fallback_name(stem: Seq<char>, ext: Seq<char>, idx: u16, i: u16) -> Seq<char> {
    stem + "_"@ + dec_str(idx as nat) + "_"@ + dec_str(i as nat) + ext
}

/// Checks whether a name is taken.
fn contains_name(taken: &Vec<String>, name: &str) -> (r: bool)
    ensures
        r == name_taken(taken@, name@),
{
    let mut i: usize = 0;
    while i < taken.len()
        invariant
            i <= taken@.len(),
            forall|j: int| 0 <= j < i ==> taken@[j]@ != name@,
        decreases taken@.len() - i,
    {
        if str_eq(taken[i].as_str(), name) {
            return true;
        }
        i += 1;
    }
    false
}

impl Scanner {
    /// Picks the file name of one scanned page: the destination itself when
    /// that name is free, else the destination with `_<page>` inserted
    /// before its extension, else the first free `_<page>_<n>` variant.
    /// A destination whose name is taken but has no extension leaves the
    /// naming scheme no place for a disambiguator.
    ///
    /// `taken` lists the file names that exist on disk; probing the disk is
    /// the caller's filesystem step.
    pub fn make_jpg_file_name(
        &self,
        destination_file: &str,
        new_page_idx: u16,
        taken: &Vec<String>,
    ) -> (r: Result<String, ScannerError>)
        ensures
            !name_taken(taken@, destination_file@) ==> (r matches Ok(name) && name@
                == destination_file@),
            (r matches Err(e) && e.code == ErrorCode::NoFileExtension) <==> (name_taken(
                taken@,
                destination_file@,
            ) && !has_dot(destination_file@)),
            r matches Err(e) ==> (e.code == ErrorCode::NoFileExtension ==> e.message@
                == destination_file@),
            forall|j: int|
                #![trigger is_last_dot(destination_file@, j)]
                name_taken(taken@, destination_file@) && is_last_dot(destination_file@, j) ==> {
                    let stem = destination_file@.subrange(0, j);
                    let ext = destination_file@.subrange(j, destination_file@.len() as int);
                    &&& (!name_taken(taken@, numbered_name(stem, ext, new_page_idx)) ==> (
                    r matches Ok(name) && name@ == numbered_name(stem, ext, new_page_idx)))
                    &&& forall|i: int|
                        #![trigger fallback_name(stem, ext, new_page_idx, i as u16)]
                        name_taken(taken@, numbered_name(stem, ext, new_page_idx)) && 1 <= i
                            < u16::MAX && !name_taken(
                            taken@,
                            fallback_name(stem, ext, new_page_idx, i as u16),
                        ) && (forall|i2: int|
                            #![trigger fallback_name(stem, ext, new_page_idx, i2 as u16)]
                            1 <= i2 < i ==> name_taken(
                                taken@,
                                fallback_name(stem, ext, new_page_idx, i2 as u16),
                            )) ==> (r matches Ok(name) && name@ == fallback_name(
                            stem,
                            ext,
                            new_page_idx,
                            i as u16,
                        ))
                },
    {
        if !contains_name(taken, destination_file) {
            return Ok(String::from_str(destination_file));
        }
        let len: usize = destination_file.unicode_len();
        match rfind_dot(destination_file) {
            None => {
                assert(!has_dot(destination_file@));
                Err(
                    ScannerError {
                        code: ErrorCode::NoFileExtension,
                        message: String::from_str(destination_file),
                    },
                )
            },
            Some(j) => {
                assert(is_last_dot(destination_file@, j as int));
                assert forall|j2: int| is_last_dot(destination_file@, j2) implies j2
                    == j as int by {}
                let stem: &str = destination_file.substring_char(0, j);
                let ext: &str = destination_file.substring_char(j, len);
                let idx_text = u32_to_string(new_page_idx as u32);
                let base = String::from_str(stem).concat("_").concat(idx_text.as_str());
                let page_file_name = base.clone().concat(ext);
                assert(page_file_name@ == numbered_name(stem@, ext@, new_page_idx));
                if !contains_name(taken, page_file_name.as_str()) {
                    return Ok(page_file_name);
                }
                let mut i: u16 = 1;
                while i < u16::MAX
                    invariant
                        1 <= i,
                        name_taken(taken@, destination_file@),
                        is_last_dot(destination_file@, j as int),
                        forall|j2: int| is_last_dot(destination_file@, j2) ==> j2 == j as int,
                        name_taken(
                            taken@,
                            numbered_name(
                                destination_file@.subrange(0, j as int),
                                destination_file@.subrange(
                                    j as int,
                                    destination_file@.len() as int,
                                ),
                                new_page_idx,
                            ),
                        ),
                        base@ == destination_file@.subrange(0, j as int) + "_"@ + dec_str(
                            new_page_idx as nat,
                        ),
                        ext@ == destination_file@.subrange(
                            j as int,
                            destination_file@.len() as int,
                        ),
                        forall|i2: int|
                            #![trigger fallback_name(
                                destination_file@.subrange(0, j as int),
                                ext@,
                                new_page_idx,
                                i2 as u16,
                            )]
                            1 <= i2 < i ==> name_taken(
                                taken@,
                                fallback_name(
                                    destination_file@.subrange(0, j as int),
                                    ext@,
                                    new_page_idx,
                                    i2 as u16,
                                ),
                            ),
                    decreases u16::MAX - i,
                {
                    let fallback = base.clone().concat("_").concat(
                        u32_to_string(i as u32).as_str(),
                    ).concat(ext);
                    assert(fallback@ == fallback_name(
                        destination_file@.subrange(0, j as int),
                        ext@,
                        new_page_idx,
                        i,
                    ));
                    if !contains_name(taken, fallback.as_str()) {
                        proof {
                            let stem_spec = destination_file@.subrange(0, j as int);
                            let ext_spec = destination_file@.subrange(
                                j as int,
                                destination_file@.len() as int,
                            );
                            assert forall|iq: int|
                                #![trigger fallback_name(stem_spec, ext_spec, new_page_idx, iq as u16)]
                                1 <= iq < u16::MAX && !name_taken(
                                    taken@,
                                    fallback_name(stem_spec, ext_spec, new_page_idx, iq as u16),
                                ) && (forall|i2: int|
                                    1 <= i2 < iq ==> name_taken(
                                        taken@,
                                        #[trigger] fallback_name(
                                            stem_spec,
                                            ext_spec,
                                            new_page_idx,
                                            i2 as u16,
                                        ),
                                    )) implies iq == i as int by {
                                if iq < i {
                                    assert(name_taken(
                                        taken@,
                                        fallback_name(stem_spec, ext_spec, new_page_idx, iq as u16),
                                    ));
                                } else if iq > i {
                                    let ii: int = i as int;
                                    assert(1 <= ii < iq);
                                    assert(name_taken(
                                        taken@,
                                        fallback_name(stem_spec, ext_spec, new_page_idx, ii as u16),
                                    ));
                                    assert((ii as u16) == i);
                                }
                            }
                        }
                        return Ok(fallback);
                    }
                    i += 1;
                }
                Err(
                    ScannerError {
                        code: ErrorCode::FilesystemError,
                        message: String::from_str(
                            "Failed to determine an alternative to existing destination file: \"",
                        ).concat(destination_file).concat("\""),
                    },
                )
            },
        }
    }
}

/// What one turn of the page-retrieval loop observed: the page was fetched
/// and assembled into the output, the device said there is no such page, or
/// a transfer or assembly failure.
#[derive(Debug)]
pub enum PageEvent {
    Assembled,
    NoSuchPage,
    Failed(ScannerError),
}

/// What the page-retrieval loop does next.
#[derive(Debug)]
pub enum PageStep {
    Continue,
    Done,
    Fail(ScannerError),
}

/// The page-loop decision: a fetched page continues the loop; "no such
/// page" on the very first page means the device produced nothing, and on
/// any later page it is the expected termination signal; any failure is
/// terminal.
pub fn next_page_action(new_page_idx: u16, event: PageEvent) -> (r: PageStep)
    ensures
        event is Assembled ==> r is Continue,
        event is NoSuchPage && new_page_idx == 1 ==> (r matches PageStep::Fail(e) && e.code
            == ErrorCode::NoMorePages && e.message@ == Seq::<char>::empty()),
        event is NoSuchPage && new_page_idx != 1 ==> r is Done,
        event matches PageEvent::Failed(e) ==> r == PageStep::Fail(e),
{
    match event {
        PageEvent::Assembled => PageStep::Continue,
        PageEvent::NoSuchPage => {
            if new_page_idx == 1 {
                PageStep::Fail(
                    ScannerError { code: ErrorCode::NoMorePages, message: String::new() },
                )
            } else {
                PageStep::Done
            }
        },
        PageEvent::Failed(e) => PageStep::Fail(e),
    }
}

/// Replays a whole page-retrieval session over the events a device served,
/// page by page, and returns how many pages were assembled: a device that
/// serves `N` pages and then "no such page" yields exactly `N` assembled
/// pages, while "no such page" on the very first page fails with
/// `NoMorePages`; the loop always probes one page past the last one it
/// assembled. A finite replay needs some event that ends the loop, and the
/// page counter asks for fewer events than the counter can hold.
pub fn drive_page_loop(events: Vec<PageEvent>) -> (r: Result<u16, ScannerError>)
    requires
        events@.len() < u16::MAX,
        exists|i: int| 0 <= i < events@.len() && !(events@[i] is Assembled),
    ensures
        forall|i: int|
            0 <= i < events@.len() && !(#[trigger] events@[i] is Assembled) && (forall|t: int|
                0 <= t < i ==> events@[t] is Assembled) ==> match events@[i] {
                PageEvent::NoSuchPage => {
                    if i == 0 {
                        r matches Err(e) && e.code == ErrorCode::NoMorePages && e.message@
                            == Seq::<char>::empty()
                    } else {
                        r == Ok::<u16, ScannerError>(i as u16)
                    }
                },
                PageEvent::Failed(e) => r == Err::<u16, ScannerError>(e),
                PageEvent::Assembled => true,
            },
{
    let ghost all = events@;
    let mut remaining = events;
    let mut new_page_idx: u16 = 1;
    while remaining.len() > 0
        invariant
            all == events@,
            all.len() < u16::MAX,
            1 <= new_page_idx,
            new_page_idx - 1 + remaining@.len() == all.len(),
            remaining@ == all.subrange(new_page_idx - 1, all.len() as int),
            forall|t: int| 0 <= t < new_page_idx - 1 ==> all[t] is Assembled,
            exists|i: int| 0 <= i < all.len() && !(all[i] is Assembled),
        decreases remaining@.len(),
    {
        let ghost k = new_page_idx - 1int;
        let event = remaining.remove(0);
        proof {
            assert(event == all[k]);
            assert(remaining@ =~= all.subrange(k + 1, all.len() as int));
        }
        match next_page_action(new_page_idx, event) {
            PageStep::Continue => {
                new_page_idx += 1;
            },
            PageStep::Done => {
                proof {
                    assert(!(all[k] is Assembled));
                    assert forall|i: int|
                        0 <= i < all.len() && !(#[trigger] all[i] is Assembled) && (forall|t: int|
                            0 <= t < i ==> all[t] is Assembled) implies i == k by {
                        if i < k {
                            assert(all[i] is Assembled);
                        } else if i > k {
                            assert(all[k] is Assembled);
                        }
                    }
                }
                return Ok(new_page_idx - 1);
            },
            PageStep::Fail(e) => {
                proof {
                    assert(!(all[k] is Assembled));
                    assert forall|i: int|
                        0 <= i < all.len() && !(#[trigger] all[i] is Assembled) && (forall|t: int|
                            0 <= t < i ==> all[t] is Assembled) implies i == k by {
                        if i < k {
                            assert(all[i] is Assembled);
                        } else if i > k {
                            assert(all[k] is Assembled);
                        }
                    }
                }
                return Err(e);
            },
        }
    }
    proof {
        let i = choose|i: int| 0 <= i < all.len() && !(all[i] is Assembled);
        assert(all[i] is Assembled);
    }
    vstd::pervasive::unreached()
}

/// What the document assembler should do with a newly downloaded page.
#[derive(Debug)]
pub enum PageAction {
    /// Merge the page into the existing output document (PDF mode, a later
    /// page).
    MergeIntoOutput,
    /// The page becomes the output document (PDF mode, first page).
    ReplaceOutput,
    /// Move the page to this file name (image mode).
    StoreAs(String),
}

impl Scanner {
    /// Decides how one downloaded page is assembled into the output: a
    /// PDF-family output format merges into the existing output (or becomes
    /// it, for the first page on disk); any other format stores the page
    /// under the next free page file name.
    pub fn process_scanned_page(
        &self,
        scan_settings: &ScanSettings,
        destination_exists: bool,
        destination_file: &str,
        page_idx: u16,
        taken: &Vec<String>,
    ) -> (r: Result<PageAction, ScannerError>)
        ensures
            is_substring(scan_settings.document_format@, "pdf"@) ==> r == (if destination_exists {
                Ok::<PageAction, ScannerError>(PageAction::MergeIntoOutput)
            } else {
                Ok::<PageAction, ScannerError>(PageAction::ReplaceOutput)
            }),
            !is_substring(scan_settings.document_format@, "pdf"@) ==> {
                &&& (r matches Ok(a) ==> a is StoreAs)
                &&& (!name_taken(taken@, destination_file@) ==> (r matches Ok(a) && a matches
                    PageAction::StoreAs(name) && name@ == destination_file@))
                &&& ((r matches Err(e) && e.code == ErrorCode::NoFileExtension) <==> (name_taken(
                    taken@,
                    destination_file@,
                ) && !has_dot(destination_file@)))
                &&& forall|j: int|
                    name_taken(taken@, destination_file@) && is_last_dot(destination_file@, j)
                        ==> {
                        let stem = destination_file@.subrange(0, j);
                        let ext = destination_file@.subrange(j, destination_file@.len() as int);
                        !name_taken(taken@, numbered_name(stem, ext, page_idx)) ==> (r matches Ok(
                            a,
                        ) && a matches PageAction::StoreAs(name) && name@ == numbered_name(
                            stem,
                            ext,
                            page_idx,
                        ))
                    }
            },
    {
        if str_contains(scan_settings.document_format.as_str(), "pdf") {
            if destination_exists {
                Ok(PageAction::MergeIntoOutput)
            } else {
                Ok(PageAction::ReplaceOutput)
            }
        } else {
            match self.make_jpg_file_name(destination_file, page_idx, taken) {
                Ok(name) => Ok(PageAction::StoreAs(name)),
                Err(e) => Err(e),
            }
        }
    }
}

} // verus!
