//! The protocol's data model: capability snapshots, scanner state, scan
//! regions and the settings of one scan job.
//!
//! Absent fields of a capability response decode to the `Default` values
//! given here, so a partially filled response is still a usable snapshot.

use vstd::prelude::*;
use vstd::string::*;

use crate::strutil::str_eq;

verus! {

/// One advertised color mode, by its wire name (`RGB24`, `Grayscale8`, ...).
#[derive(Debug)]
pub struct ColorMode {
    pub mode_name: String,
}

/// The ordered list of color modes of one setting profile.
#[derive(Debug)]
pub struct ColorModes {
    pub entries: Vec<ColorMode>,
}

/// One setting profile advertised by the device.
#[derive(Debug)]
pub struct SettingProfile {
    pub color_modes: ColorModes,
}

/// The setting profiles advertised for the platen source.
#[derive(Debug)]
pub struct SettingProfiles {
    pub entries: Vec<SettingProfile>,
}

/// Geometry and resolution bounds of the platen input source, in the
/// protocol's fixed length unit.
#[derive(Debug)]
pub struct PlatenInputCaps {
    pub min_width: u16,
    pub max_width: u16,
    pub min_height: u16,
    pub max_height: u16,
    pub max_scan_regions: u16,
    pub setting_profiles: SettingProfiles,
    pub max_optical_xresolution: u16,
    pub max_optical_yresolution: u16,
    pub risky_left_margin: u16,
    pub risky_right_margin: u16,
    pub risky_top_margin: u16,
    pub risky_bottom_margin: u16,
}

/// The platen section of a capabilities snapshot.
#[derive(Debug)]
pub struct Platen {
    pub platen_input_caps: PlatenInputCaps,
}

/// The advertised compression adjustment range.
#[derive(Clone, Copy, Debug, PartialEq, Eq, Structural)]
pub struct CompressionFactorSupport {
    pub min: i8,
    pub max: i8,
    pub normal: i8,
    pub step: i8,
}

/// The media types the device accepts.
#[derive(Debug)]
pub struct SupportedMediaTypes {
    pub media_types: Vec<String>,
}

/// The advertised sharpening adjustment range.
#[derive(Clone, Copy, Debug, PartialEq, Eq, Structural)]
pub struct SharpenSupport {
    pub min: i8,
    pub max: i8,
    pub normal: i8,
    pub step: i8,
}

/// A device's static scanning envelope, fetched once per session.
#[derive(Debug)]
pub struct ScannerCapabilities {
    pub version: String,
    pub make_and_model: String,
    pub serial_number: String,
    pub uuid: String,
    pub admin_uri: String,
    pub icon_uri: String,
    pub platen: Platen,
    pub compression_factor_support: CompressionFactorSupport,
    pub supported_media_types: SupportedMediaTypes,
    pub sharpen_support: SharpenSupport,
}

/// The live state of a scanner. `Down` is the safe reading when the device's
/// answer cannot be understood.
#[derive(Clone, Copy, Debug, PartialEq, Eq, Structural)]
pub enum ScannerState {
    Idle,
    Processing,
    Testing,
    Stopped,
    Down,
}

/// A status response: the device state and the state of the document feeder.
#[derive(Debug)]
pub struct ScannerStatus {
    pub state: ScannerState,
    pub adf_state: String,
}

impl Default for ColorMode {
    /// An absent color mode decodes to an empty name.
    fn default() -> (r: Self)
        ensures
            r.mode_name@ == Seq::<char>::empty(),
    {
        ColorMode { mode_name: String::new() }
    }
}

impl Default for ColorModes {
    /// An absent list decodes to no entries.
    fn default() -> (r: Self)
        ensures
            r.entries@.len() == 0,
    {
        ColorModes { entries: Vec::new() }
    }
}

impl Default for SettingProfiles {
    /// An absent list decodes to no entries.
    fn default() -> (r: Self)
        ensures
            r.entries@.len() == 0,
    {
        SettingProfiles { entries: Vec::new() }
    }
}

impl Default for PlatenInputCaps {
    /// Absent numeric fields decode to zero; absent profiles to none.
    fn default() -> (r: Self)
        ensures
            r.min_width == 0,
            r.max_width == 0,
            r.min_height == 0,
            r.max_height == 0,
            r.max_scan_regions == 0,
            r.setting_profiles.entries@.len() == 0,
            r.max_optical_xresolution == 0,
            r.max_optical_yresolution == 0,
            r.risky_left_margin == 0,
            r.risky_right_margin == 0,
            r.risky_top_margin == 0,
            r.risky_bottom_margin == 0,
    {
        PlatenInputCaps {
            min_width: 0,
            max_width: 0,
            min_height: 0,
            max_height: 0,
            max_scan_regions: 0,
            setting_profiles: SettingProfiles::default(),
            max_optical_xresolution: 0,
            max_optical_yresolution: 0,
            risky_left_margin: 0,
            risky_right_margin: 0,
            risky_top_margin: 0,
            risky_bottom_margin: 0,
        }
    }
}

impl Default for Platen {
    /// An absent platen section decodes to default input capabilities.
    fn default() -> (r: Self)
        ensures
            r.platen_input_caps.min_width == 0,
            r.platen_input_caps.max_width == 0,
            r.platen_input_caps.min_height == 0,
            r.platen_input_caps.max_height == 0,
            r.platen_input_caps.setting_profiles.entries@.len() == 0,
    {
        Platen { platen_input_caps: PlatenInputCaps::default() }
    }
}

impl Default for CompressionFactorSupport {
    /// Absent numeric fields decode to zero.
    fn default() -> (r: Self)
        ensures
            r == (CompressionFactorSupport { min: 0, max: 0, normal: 0, step: 0 }),
    {
        CompressionFactorSupport { min: 0, max: 0, normal: 0, step: 0 }
    }
}

impl Default for SupportedMediaTypes {
    /// An absent list decodes to no entries.
    fn default() -> (r: Self)
        ensures
            r.media_types@.len() == 0,
    {
        SupportedMediaTypes { media_types: Vec::new() }
    }
}

impl Default for SharpenSupport {
    /// Absent numeric fields decode to zero.
    fn default() -> (r: Self)
        ensures
            r == (SharpenSupport { min: 0, max: 0, normal: 0, step: 0 }),
    {
        SharpenSupport { min: 0, max: 0, normal: 0, step: 0 }
    }
}

impl Default for ScannerState {
    /// The safe reading of an unknown state.
    fn default() -> (r: Self)
        ensures
            r == ScannerState::Down,
    {
        ScannerState::Down
    }
}

impl PlatenInputCaps {
    /// The advertised bounds are ordered on both dimensions.
    pub open spec fn bounds_ordered(&self) -> bool {
        self.min_width <= self.max_width && self.min_height <= self.max_height
    }

    /// Checks that the advertised bounds are ordered on both dimensions.
    pub fn bounds_ok(&self) -> (r: bool)
        ensures
            r == self.bounds_ordered(),
    {
        self.min_width <= self.max_width && self.min_height <= self.max_height
    }
}

/// A capabilities snapshot whose fields were all absent or malformed (and so
/// decoded to the defaults) still satisfies the bound ordering: zero bounds
/// are trivially ordered.
pub proof fn lemma_default_bounds_ordered(caps: PlatenInputCaps)
    requires
        caps.min_width == 0,
        caps.min_height == 0,
    ensures
        caps.bounds_ordered(),
{
}

impl ScannerCapabilities {
    /// Some setting profile advertises at least one color mode.
    pub open spec fn spec_has_color_modes(&self) -> bool {
        exists|i: int|
            0 <= i < self.platen.platen_input_caps.setting_profiles.entries@.len()
                && self.platen.platen_input_caps.setting_profiles.entries@[i].color_modes.entries@.len()
                > 0
    }

    /// Whether any color mode was advertised. A snapshot without color modes
    /// means the capabilities could not be determined, and scanning must be
    /// blocked.
    pub fn has_color_modes(&self) -> (r: bool)
        ensures
            r == self.spec_has_color_modes(),
    {
        let profiles = &self.platen.platen_input_caps.setting_profiles.entries;
        let mut i: usize = 0;
        while i < profiles.len()
            invariant
                profiles == &self.platen.platen_input_caps.setting_profiles.entries,
                i <= profiles@.len(),
                forall|j: int| 0 <= j < i ==> profiles@[j].color_modes.entries@.len() == 0,
            decreases profiles@.len() - i,
        {
            if profiles[i].color_modes.entries.len() > 0 {
                return true;
            }
            i += 1;
        }
        false
    }
}

/// The state an `Idle` wire value decodes to, and so on for each recognized
/// value; everything else decodes to `Down`.
pub open spec fn spec_state_from_wire(s: Seq<char>) -> ScannerState {
    if s == "Idle"@ {
        ScannerState::Idle
    } else if s == "Processing"@ {
        ScannerState::Processing
    } else if s == "Testing"@ {
        ScannerState::Testing
    } else if s == "Stopped"@ {
        ScannerState::Stopped
    } else {
        ScannerState::Down
    }
}

impl ScannerState {
    /// Decodes a wire value; an unrecognized value reads as `Down`, never as
    /// an error.
    pub fn from_wire(s: &str) -> (r: ScannerState)
        ensures
            r == spec_state_from_wire(s@),
    {
        if str_eq(s, "Idle") {
            ScannerState::Idle
        } else if str_eq(s, "Processing") {
            ScannerState::Processing
        } else if str_eq(s, "Testing") {
            ScannerState::Testing
        } else if str_eq(s, "Stopped") {
            ScannerState::Stopped
        } else {
            ScannerState::Down
        }
    }

    /// The wire name of this state.
    pub open spec fn spec_wire_name(&self) -> Seq<char> {
        match self {
            ScannerState::Idle => "Idle"@,
            ScannerState::Processing => "Processing"@,
            ScannerState::Testing => "Testing"@,
            ScannerState::Stopped => "Stopped"@,
            ScannerState::Down => "Down"@,
        }
    }

    /// Renders this state under its wire name.
    pub fn wire_name(&self) -> (r: String)
        ensures
            r@ == self.spec_wire_name(),
    {
        match self {
            ScannerState::Idle => String::from_str("Idle"),
            ScannerState::Processing => String::from_str("Processing"),
            ScannerState::Testing => String::from_str("Testing"),
            ScannerState::Stopped => String::from_str("Stopped"),
            ScannerState::Down => String::from_str("Down"),
        }
    }
}

/// Decoding gives back each recognized state, and `Down` for everything
/// else: decoding the wire name of any state yields that state again,
/// except that nothing ever decodes to `Down` but `Down` itself and
/// unrecognized values.
pub proof fn lemma_state_wire_round_trip(state: ScannerState)
    ensures
        spec_state_from_wire(state.spec_wire_name()) == state,
{
    reveal_strlit("Idle");
    reveal_strlit("Processing");
    reveal_strlit("Testing");
    reveal_strlit("Stopped");
    reveal_strlit("Down");
    assert("Processing"@[0] != "Idle"@[0]);
    assert("Testing"@[0] != "Idle"@[0]);
    assert("Testing"@[0] != "Processing"@[0]);
    assert("Stopped"@[0] != "Idle"@[0]);
    assert("Stopped"@[0] != "Processing"@[0]);
    assert("Stopped"@[0] != "Testing"@[0]);
    assert("Down"@[0] != "Idle"@[0]);
    assert("Down"@[0] != "Processing"@[0]);
    assert("Down"@[0] != "Testing"@[0]);
    assert("Down"@[0] != "Stopped"@[0]);
}

/// The fixed wire name of the protocol's length unit, 1/300 inch.
pub open spec fn spec_region_units() -> Seq<char> {
    "escl:ThreeHundredthsOfInches"@
}

/// A rectangular capture area in the protocol's fixed length unit.
#[derive(Debug)]
pub struct ScanRegion {
    pub x_offset: i16,
    pub y_offset: i16,
    pub width: u16,
    pub height: u16,
    pub content_region_units: String,
}

/// One millimetre is 0.03937 inch, so 11.811 of the protocol's 1/300-inch
/// units; the conversion works in fixed point, scaled by 1000.
pub const MM_TO_UNIT_NUMERATOR: u64 = 11811;

/// The fixed-point scale of [`MM_TO_UNIT_NUMERATOR`].
pub const MM_TO_UNIT_DENOMINATOR: u64 = 1000;

/// The length in protocol units of `mm` millimetres, rounded down.
pub open spec fn spec_mm_to_unit(mm: int) -> int {
    mm * 11811 / 1000
}

impl ScanRegion {
    /// Converts a paper size given in millimetres into a full region at the
    /// platen origin.
    pub fn from_mm(width: usize, height: usize) -> (r: ScanRegion)
        requires
            spec_mm_to_unit(width as int) <= u16::MAX,
            spec_mm_to_unit(height as int) <= u16::MAX,
        ensures
            r.x_offset == 0,
            r.y_offset == 0,
            r.width == spec_mm_to_unit(width as int),
            r.height == spec_mm_to_unit(height as int),
            r.content_region_units@ == spec_region_units(),
    {
        proof {
            vstd::arithmetic::div_mod::lemma_fundamental_div_mod(width as int * 11811, 1000);
            vstd::arithmetic::div_mod::lemma_mod_bound(width as int * 11811, 1000);
            vstd::arithmetic::div_mod::lemma_fundamental_div_mod(height as int * 11811, 1000);
            vstd::arithmetic::div_mod::lemma_mod_bound(height as int * 11811, 1000);
        }
        let w: u64 = (width as u64) * MM_TO_UNIT_NUMERATOR / MM_TO_UNIT_DENOMINATOR;
        let h: u64 = (height as u64) * MM_TO_UNIT_NUMERATOR / MM_TO_UNIT_DENOMINATOR;
        ScanRegion {
            x_offset: 0,
            y_offset: 0,
            width: w as u16,
            height: h as u16,
            content_region_units: String::from_str("escl:ThreeHundredthsOfInches"),
        }
    }

    /// A full A4 sheet, long edge vertical.
    pub fn a4_portrait() -> (r: ScanRegion)
        ensures
            r.x_offset == 0,
            r.y_offset == 0,
            r.width == 2480,
            r.height == 3507,
            r.content_region_units@ == spec_region_units(),
    {
        Self::from_mm(210, 297)
    }

    /// A full A5 sheet, long edge vertical.
    pub fn a5_portrait() -> (r: ScanRegion)
        ensures
            r.x_offset == 0,
            r.y_offset == 0,
            r.width == 1748,
            r.height == 2480,
            r.content_region_units@ == spec_region_units(),
    {
        Self::from_mm(148, 210)
    }

    /// A full A5 sheet, long edge horizontal.
    pub fn a5_landscape() -> (r: ScanRegion)
        ensures
            r.x_offset == 0,
            r.y_offset == 0,
            r.width == 2480,
            r.height == 1748,
            r.content_region_units@ == spec_region_units(),
    {
        Self::from_mm(210, 148)
    }

    /// A full US Letter sheet, long edge vertical, from slightly rounded
    /// millimetre values.
    pub fn us_letter_portrait() -> (r: ScanRegion)
        ensures
            r.x_offset == 0,
            r.y_offset == 0,
            r.width == 2551,
            r.height == 3295,
            r.content_region_units@ == spec_region_units(),
    {
        Self::from_mm(216, 279)
    }
}

/// The fixed-point conversion stays within one unit of the exact product
/// `mm × 11.811`: scaled by the fixed-point denominator, the result is the
/// floor of the product, so it never undershoots it by a full unit.
pub proof fn lemma_mm_conversion_within_one_unit(mm: int)
    requires
        0 <= mm,
    ensures
        1000 * spec_mm_to_unit(mm) <= mm * 11811,
        mm * 11811 < 1000 * (spec_mm_to_unit(mm) + 1),
{
    vstd::arithmetic::div_mod::lemma_fundamental_div_mod(mm * 11811, 1000);
    vstd::arithmetic::div_mod::lemma_mod_bound(mm * 11811, 1000);
}

/// The direction sheets run through a feeder.
#[derive(Clone, Copy, Debug, PartialEq, Eq, Structural)]
pub enum FeedDirection {
    LongEdgeFeed,
    ShortEdgeFeed,
}

impl Default for FeedDirection {
    /// The direction assumed when none is chosen.
    fn default() -> (r: Self)
        ensures
            r == FeedDirection::ShortEdgeFeed,
    {
        FeedDirection::ShortEdgeFeed
    }
}

impl FeedDirection {
    /// The wire name of this direction.
    pub open spec fn spec_wire_name(&self) -> Seq<char> {
        match self {
            FeedDirection::LongEdgeFeed => "LongEdgeFeed"@,
            FeedDirection::ShortEdgeFeed => "ShortEdgeFeed"@,
        }
    }

    /// Renders this direction under its wire name.
    pub fn wire_name(&self) -> (r: String)
        ensures
            r@ == self.spec_wire_name(),
    {
        match self {
            FeedDirection::LongEdgeFeed => String::from_str("LongEdgeFeed"),
            FeedDirection::ShortEdgeFeed => String::from_str("ShortEdgeFeed"),
        }
    }
}

/// The negotiated request for one scan job, immutable for the job's life.
#[derive(Debug)]
pub struct ScanSettings {
    pub version: String,
    pub content_type: String,
    pub input_source: String,
    pub scan_regions: ScanRegion,
    pub color_mode: String,
    pub document_format: String,
    pub feed_direction: String,
    pub x_resolution: i16,
    pub y_resolution: i16,
}

/// Two color modes carry the same information.
pub open spec fn color_mode_like(a: &ColorMode, b: &ColorMode) -> bool {
    a.mode_name@ == b.mode_name@
}

/// Two color mode lists carry the same information.
pub open spec fn color_modes_like(a: &ColorModes, b: &ColorModes) -> bool {
    a.entries@.len() == b.entries@.len() && forall|i: int|
        0 <= i < a.entries@.len() ==> color_mode_like(&a.entries@[i], &b.entries@[i])
}

/// Two setting profiles carry the same information.
pub open spec fn setting_profile_like(a: &SettingProfile, b: &SettingProfile) -> bool {
    color_modes_like(&a.color_modes, &b.color_modes)
}

/// Two profile lists carry the same information.
pub open spec fn setting_profiles_like(a: &SettingProfiles, b: &SettingProfiles) -> bool {
    a.entries@.len() == b.entries@.len() && forall|i: int|
        0 <= i < a.entries@.len() ==> setting_profile_like(&a.entries@[i], &b.entries@[i])
}

/// Two platen bound sections carry the same information.
pub open spec fn platen_input_caps_like(a: &PlatenInputCaps, b: &PlatenInputCaps) -> bool {
    &&& a.min_width == b.min_width
    &&& a.max_width == b.max_width
    &&& a.min_height == b.min_height
    &&& a.max_height == b.max_height
    &&& a.max_scan_regions == b.max_scan_regions
    &&& setting_profiles_like(&a.setting_profiles, &b.setting_profiles)
    &&& a.max_optical_xresolution == b.max_optical_xresolution
    &&& a.max_optical_yresolution == b.max_optical_yresolution
    &&& a.risky_left_margin == b.risky_left_margin
    &&& a.risky_right_margin == b.risky_right_margin
    &&& a.risky_top_margin == b.risky_top_margin
    &&& a.risky_bottom_margin == b.risky_bottom_margin
}

/// Two media type lists carry the same information.
pub open spec fn media_types_like(a: &SupportedMediaTypes, b: &SupportedMediaTypes) -> bool {
    a.media_types@.len() == b.media_types@.len() && forall|i: int|
        0 <= i < a.media_types@.len() ==> a.media_types@[i]@ == b.media_types@[i]@
}

/// Two capability snapshots carry the same information.
pub open spec fn capabilities_like(a: &ScannerCapabilities, b: &ScannerCapabilities) -> bool {
    &&& a.version@ == b.version@
    &&& a.make_and_model@ == b.make_and_model@
    &&& a.serial_number@ == b.serial_number@
    &&& a.uuid@ == b.uuid@
    &&& a.admin_uri@ == b.admin_uri@
    &&& a.icon_uri@ == b.icon_uri@
    &&& platen_input_caps_like(&a.platen.platen_input_caps, &b.platen.platen_input_caps)
    &&& a.compression_factor_support == b.compression_factor_support
    &&& media_types_like(&a.supported_media_types, &b.supported_media_types)
    &&& a.sharpen_support == b.sharpen_support
}

impl Clone for ColorMode {
    fn clone(&self) -> (r: Self)
        ensures
            color_mode_like(self, &r),
    {
        ColorMode { mode_name: self.mode_name.clone() }
    }
}

impl Clone for ColorModes {
    fn clone(&self) -> (r: Self)
        ensures
            color_modes_like(self, &r),
    {
        let r = ColorModes { entries: self.entries.clone() };
        proof {
            assert forall|i: int| 0 <= i < self.entries@.len() implies color_mode_like(
                &self.entries@[i],
                &r.entries@[i],
            ) by {
                assert(cloned::<ColorMode>(self.entries@[i], r.entries@[i]));
            }
        }
        r
    }
}

impl Clone for SettingProfile {
    fn clone(&self) -> (r: Self)
        ensures
            setting_profile_like(self, &r),
    {
        SettingProfile { color_modes: self.color_modes.clone() }
    }
}

impl Clone for SettingProfiles {
    fn clone(&self) -> (r: Self)
        ensures
            setting_profiles_like(self, &r),
    {
        let r = SettingProfiles { entries: self.entries.clone() };
        proof {
            assert forall|i: int| 0 <= i < self.entries@.len() implies setting_profile_like(
                &self.entries@[i],
                &r.entries@[i],
            ) by {
                assert(cloned::<SettingProfile>(self.entries@[i], r.entries@[i]));
            }
        }
        r
    }
}

impl Clone for PlatenInputCaps {
    fn clone(&self) -> (r: Self)
        ensures
            platen_input_caps_like(self, &r),
    {
        PlatenInputCaps {
            min_width: self.min_width,
            max_width: self.max_width,
            min_height: self.min_height,
            max_height: self.max_height,
            max_scan_regions: self.max_scan_regions,
            setting_profiles: self.setting_profiles.clone(),
            max_optical_xresolution: self.max_optical_xresolution,
            max_optical_yresolution: self.max_optical_yresolution,
            risky_left_margin: self.risky_left_margin,
            risky_right_margin: self.risky_right_margin,
            risky_top_margin: self.risky_top_margin,
            risky_bottom_margin: self.risky_bottom_margin,
        }
    }
}

impl Clone for Platen {
    fn clone(&self) -> (r: Self)
        ensures
            platen_input_caps_like(&self.platen_input_caps, &r.platen_input_caps),
    {
        Platen { platen_input_caps: self.platen_input_caps.clone() }
    }
}

impl Clone for SupportedMediaTypes {
    fn clone(&self) -> (r: Self)
        ensures
            media_types_like(self, &r),
    {
        let r = SupportedMediaTypes { media_types: self.media_types.clone() };
        proof {
            assert forall|i: int| 0 <= i < self.media_types@.len() implies self.media_types@[i]@
                == r.media_types@[i]@ by {
                assert(cloned::<String>(self.media_types@[i], r.media_types@[i]));
            }
        }
        r
    }
}

impl Clone for ScannerCapabilities {
    fn clone(&self) -> (r: Self)
        ensures
            capabilities_like(self, &r),
    {
        ScannerCapabilities {
            version: self.version.clone(),
            make_and_model: self.make_and_model.clone(),
            serial_number: self.serial_number.clone(),
            uuid: self.uuid.clone(),
            admin_uri: self.admin_uri.clone(),
            icon_uri: self.icon_uri.clone(),
            platen: self.platen.clone(),
            compression_factor_support: self.compression_factor_support,
            supported_media_types: self.supported_media_types.clone(),
            sharpen_support: self.sharpen_support,
        }
    }
}

} // verus!
