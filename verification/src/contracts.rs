//! The values exchanged between the WebSocket protocol, the tray and the
//! signing backend.
use vstd::prelude::*;
use crate::text::equals;

verus! {

/// Error code reported when no signing backend exists on this platform.
pub const SIGNING_BACKEND_UNAVAILABLE: &'static str = "SIGNING_BACKEND_UNAVAILABLE";

/// A certificate as listed to clients.
pub struct CertificateSummary {
    /// 1-based position in the certificate list.
    pub index: usize,
    pub subject: String,
    pub issuer: String,
    pub thumbprint: String,
    pub is_hardware_token: bool,
    pub provider_name: String,
    pub valid_now: bool,
    pub supports_digital_signature: bool,
}

/// A certificate chosen for one request.
#[derive(Debug)]
pub struct CertSelectionRequest {
    pub thumbprint: Option<String>,
    pub index: Option<usize>,
}

impl Default for CertSelectionRequest {
    fn default() -> (r: Self)
        ensures
            r.thumbprint is None,
            r.index is None,
    {
        CertSelectionRequest { thumbprint: None, index: None }
    }
}

/// Where a visible signature is drawn on the first page.
#[derive(Clone, Copy, PartialEq, Eq, Debug, Structural)]
pub enum VisibleSignaturePlacement {
    TopLeftHorizontal,
    TopLeftVertical,
    TopRightHorizontal,
    TopRightVertical,
    BottomLeftHorizontal,
    BottomLeftVertical,
    BottomRightHorizontal,
    BottomRightVertical,
    BottomCenterHorizontal,
    BottomCenterVertical,
    CenterHorizontal,
    CenterVertical,
}

pub open spec fn placement_name(p: VisibleSignaturePlacement) -> Seq<char> {
    match p {
        VisibleSignaturePlacement::TopLeftHorizontal => "top_left_horizontal"@,
        VisibleSignaturePlacement::TopLeftVertical => "top_left_vertical"@,
        VisibleSignaturePlacement::TopRightHorizontal => "top_right_horizontal"@,
        VisibleSignaturePlacement::TopRightVertical => "top_right_vertical"@,
        VisibleSignaturePlacement::BottomLeftHorizontal => "bottom_left_horizontal"@,
        VisibleSignaturePlacement::BottomLeftVertical => "bottom_left_vertical"@,
        VisibleSignaturePlacement::BottomRightHorizontal => "bottom_right_horizontal"@,
        VisibleSignaturePlacement::BottomRightVertical => "bottom_right_vertical"@,
        VisibleSignaturePlacement::BottomCenterHorizontal => "bottom_center_horizontal"@,
        VisibleSignaturePlacement::BottomCenterVertical => "bottom_center_vertical"@,
        VisibleSignaturePlacement::CenterHorizontal => "center_horizontal"@,
        VisibleSignaturePlacement::CenterVertical => "center_vertical"@,
    }
}

pub open spec fn placement_is_vertical(p: VisibleSignaturePlacement) -> bool {
    match p {
        VisibleSignaturePlacement::TopLeftVertical | VisibleSignaturePlacement::TopRightVertical
        | VisibleSignaturePlacement::BottomLeftVertical
        | VisibleSignaturePlacement::BottomRightVertical
        | VisibleSignaturePlacement::BottomCenterVertical
        | VisibleSignaturePlacement::CenterVertical => true,
        _ => false,
    }
}

/// The placement whose snake_case name is `name`, if any.
pub open spec fn placement_named(name: Seq<char>) -> Option<VisibleSignaturePlacement> {
    if name == "top_left_horizontal"@ {
        Some(VisibleSignaturePlacement::TopLeftHorizontal)
    } else if name == "top_left_vertical"@ {
        Some(VisibleSignaturePlacement::TopLeftVertical)
    } else if name == "top_right_horizontal"@ {
        Some(VisibleSignaturePlacement::TopRightHorizontal)
    } else if name == "top_right_vertical"@ {
        Some(VisibleSignaturePlacement::TopRightVertical)
    } else if name == "bottom_left_horizontal"@ {
        Some(VisibleSignaturePlacement::BottomLeftHorizontal)
    } else if name == "bottom_left_vertical"@ {
        Some(VisibleSignaturePlacement::BottomLeftVertical)
    } else if name == "bottom_right_horizontal"@ {
        Some(VisibleSignaturePlacement::BottomRightHorizontal)
    } else if name == "bottom_right_vertical"@ {
        Some(VisibleSignaturePlacement::BottomRightVertical)
    } else if name == "bottom_center_horizontal"@ {
        Some(VisibleSignaturePlacement::BottomCenterHorizontal)
    } else if name == "bottom_center_vertical"@ {
        Some(VisibleSignaturePlacement::BottomCenterVertical)
    } else if name == "center_horizontal"@ {
        Some(VisibleSignaturePlacement::CenterHorizontal)
    } else if name == "center_vertical"@ {
        Some(VisibleSignaturePlacement::CenterVertical)
    } else {
        None
    }
}

impl VisibleSignaturePlacement {
    /// The snake_case name used by the protocol.
    pub fn name(&self) -> (r: &'static str)
        ensures
            r@ == placement_name(*self),
    {
        match self {
            VisibleSignaturePlacement::TopLeftHorizontal => "top_left_horizontal",
            VisibleSignaturePlacement::TopLeftVertical => "top_left_vertical",
            VisibleSignaturePlacement::TopRightHorizontal => "top_right_horizontal",
            VisibleSignaturePlacement::TopRightVertical => "top_right_vertical",
            VisibleSignaturePlacement::BottomLeftHorizontal => "bottom_left_horizontal",
            VisibleSignaturePlacement::BottomLeftVertical => "bottom_left_vertical",
            VisibleSignaturePlacement::BottomRightHorizontal => "bottom_right_horizontal",
            VisibleSignaturePlacement::BottomRightVertical => "bottom_right_vertical",
            VisibleSignaturePlacement::BottomCenterHorizontal => "bottom_center_horizontal",
            VisibleSignaturePlacement::BottomCenterVertical => "bottom_center_vertical",
            VisibleSignaturePlacement::CenterHorizontal => "center_horizontal",
            VisibleSignaturePlacement::CenterVertical => "center_vertical",
        }
    }

    /// Reads a snake_case placement name; any other text is refused.
    pub fn from_name(raw: &str) -> (r: Option<VisibleSignaturePlacement>)
        ensures
            r == placement_named(raw@),
    {
        if equals(raw, "top_left_horizontal") {
            Some(VisibleSignaturePlacement::TopLeftHorizontal)
        } else if equals(raw, "top_left_vertical") {
            Some(VisibleSignaturePlacement::TopLeftVertical)
        } else if equals(raw, "top_right_horizontal") {
            Some(VisibleSignaturePlacement::TopRightHorizontal)
        } else if equals(raw, "top_right_vertical") {
            Some(VisibleSignaturePlacement::TopRightVertical)
        } else if equals(raw, "bottom_left_horizontal") {
            Some(VisibleSignaturePlacement::BottomLeftHorizontal)
        } else if equals(raw, "bottom_left_vertical") {
            Some(VisibleSignaturePlacement::BottomLeftVertical)
        } else if equals(raw, "bottom_right_horizontal") {
            Some(VisibleSignaturePlacement::BottomRightHorizontal)
        } else if equals(raw, "bottom_right_vertical") {
            Some(VisibleSignaturePlacement::BottomRightVertical)
        } else if equals(raw, "bottom_center_horizontal") {
            Some(VisibleSignaturePlacement::BottomCenterHorizontal)
        } else if equals(raw, "bottom_center_vertical") {
            Some(VisibleSignaturePlacement::BottomCenterVertical)
        } else if equals(raw, "center_horizontal") {
            Some(VisibleSignaturePlacement::CenterHorizontal)
        } else if equals(raw, "center_vertical") {
            Some(VisibleSignaturePlacement::CenterVertical)
        } else {
            None
        }
    }

    /// Whether the signature box is taller than it is wide.
    pub fn is_vertical(&self) -> (r: bool)
        ensures
            r == placement_is_vertical(*self),
    {
        match self {
            VisibleSignaturePlacement::TopLeftVertical
            | VisibleSignaturePlacement::TopRightVertical
            | VisibleSignaturePlacement::BottomLeftVertical
            | VisibleSignaturePlacement::BottomRightVertical
            | VisibleSignaturePlacement::BottomCenterVertical
            | VisibleSignaturePlacement::CenterVertical => true,
            _ => false,
        }
    }
}

/// How a visible signature is laid out.
#[derive(Clone, Copy, PartialEq, Eq, Debug, Structural)]
pub enum VisibleSignatureStyle {
    Default,
    Compact,
}

impl Default for VisibleSignatureStyle {
    fn default() -> (r: Self)
        ensures
            r == VisibleSignatureStyle::Default,
    {
        VisibleSignatureStyle::Default
    }
}

pub open spec fn style_named(name: Seq<char>) -> Option<VisibleSignatureStyle> {
    if name == "default"@ {
        Some(VisibleSignatureStyle::Default)
    } else if name == "compact"@ {
        Some(VisibleSignatureStyle::Compact)
    } else {
        None
    }
}

pub open spec fn style_name(s: VisibleSignatureStyle) -> Seq<char> {
    match s {
        VisibleSignatureStyle::Default => "default"@,
        VisibleSignatureStyle::Compact => "compact"@,
    }
}

impl VisibleSignatureStyle {
    pub fn name(&self) -> (r: &'static str)
        ensures
            r@ == style_name(*self),
    {
        match self {
            VisibleSignatureStyle::Default => "default",
            VisibleSignatureStyle::Compact => "compact",
        }
    }

    /// Reads a snake_case style name; any other text is refused.
    pub fn from_name(raw: &str) -> (r: Option<VisibleSignatureStyle>)
        ensures
            r == style_named(raw@),
    {
        if equals(raw, "default") {
            Some(VisibleSignatureStyle::Default)
        } else if equals(raw, "compact") {
            Some(VisibleSignatureStyle::Compact)
        } else {
            None
        }
    }
}

/// The style a request asks for: `default` when it names none, else the
/// style it names, or nothing when that name is not accepted.
pub fn style_or_default(name: Option<&str>) -> (r: Option<VisibleSignatureStyle>)
    ensures
        r == match name {
            Some(n) => style_named(n@),
            None => Some(VisibleSignatureStyle::Default),
        },
{
    match name {
        Some(n) => VisibleSignatureStyle::from_name(n),
        None => Some(VisibleSignatureStyle::Default),
    }
}

/// The time zone in which the signing time is printed.
#[derive(Clone, Copy, PartialEq, Eq, Debug, Structural)]
pub enum VisibleSignatureTimezone {
    Utc,
    Local,
}

impl Default for VisibleSignatureTimezone {
    fn default() -> (r: Self)
        ensures
            r == VisibleSignatureTimezone::Local,
    {
        VisibleSignatureTimezone::Local
    }
}

pub open spec fn timezone_named(name: Seq<char>) -> Option<VisibleSignatureTimezone> {
    if name == "utc"@ {
        Some(VisibleSignatureTimezone::Utc)
    } else if name == "local"@ {
        Some(VisibleSignatureTimezone::Local)
    } else {
        None
    }
}

pub open spec fn timezone_name(t: VisibleSignatureTimezone) -> Seq<char> {
    match t {
        VisibleSignatureTimezone::Utc => "utc"@,
        VisibleSignatureTimezone::Local => "local"@,
    }
}

impl VisibleSignatureTimezone {
    pub fn name(&self) -> (r: &'static str)
        ensures
            r@ == timezone_name(*self),
    {
        match self {
            VisibleSignatureTimezone::Utc => "utc",
            VisibleSignatureTimezone::Local => "local",
        }
    }

    /// Reads a snake_case time zone name; any other text is refused.
    pub fn from_name(raw: &str) -> (r: Option<VisibleSignatureTimezone>)
        ensures
            r == timezone_named(raw@),
    {
        if equals(raw, "utc") {
            Some(VisibleSignatureTimezone::Utc)
        } else if equals(raw, "local") {
            Some(VisibleSignatureTimezone::Local)
        } else {
            None
        }
    }
}

/// The time zone a request asks for: local time when it names none, else
/// the zone it names, or nothing when that name is not accepted.
pub fn timezone_or_default(name: Option<&str>) -> (r: Option<VisibleSignatureTimezone>)
    ensures
        r == match name {
            Some(n) => timezone_named(n@),
            None => Some(VisibleSignatureTimezone::Local),
        },
{
    match name {
        Some(n) => VisibleSignatureTimezone::from_name(n),
        None => Some(VisibleSignatureTimezone::Local),
    }
}

/// The result of signing one PDF for a WebSocket client.
pub struct WsSignResult {
    pub signed_pdf: Vec<u8>,
    pub cert_subject: String,
    pub cert_issuer: String,
    pub cert_thumbprint: String,
    pub cert_is_hardware_token: bool,
    pub cert_provider_name: String,
}

/// The outcome for one file of a batch.
pub struct BatchFileResult {
    pub filename: String,
    pub ok: bool,
    pub signed_pdf: Option<Vec<u8>>,
    pub error: Option<String>,
}

/// The outcome of a batch, signed with one certificate.
pub struct BatchSignResult {
    pub files: Vec<BatchFileResult>,
    pub cert_subject: String,
    pub cert_issuer: String,
    pub cert_thumbprint: String,
    pub cert_is_hardware_token: bool,
    pub cert_provider_name: String,
}

/// The files signed and the errors met when signing from the tray.
pub struct SignReport {
    pub signed: Vec<String>,
    pub errors: Vec<String>,
}

/// Reading back the name of a placement gives that placement, and every
/// name that is read is the name of what it reads to.
pub proof fn placement_names_round_trip(p: VisibleSignaturePlacement, name: Seq<char>)
    ensures
        placement_named(placement_name(p)) == Some(p),
        placement_named(name) matches Some(q) ==> placement_name(q) == name,
{
    reveal_strlit("top_left_horizontal");
    reveal_strlit("top_left_vertical");
    reveal_strlit("top_right_horizontal");
    reveal_strlit("top_right_vertical");
    reveal_strlit("bottom_left_horizontal");
    reveal_strlit("bottom_left_vertical");
    reveal_strlit("bottom_right_horizontal");
    reveal_strlit("bottom_right_vertical");
    reveal_strlit("bottom_center_horizontal");
    reveal_strlit("bottom_center_vertical");
    reveal_strlit("center_horizontal");
    reveal_strlit("center_vertical");
    assert("top_left_horizontal"@.len() == 19 && "top_left_horizontal"@[0] == 't');
    assert("top_left_vertical"@.len() == 17 && "top_left_vertical"@[0] == 't');
    assert("top_right_horizontal"@.len() == 20 && "top_right_horizontal"@[0] == 't');
    assert("top_right_vertical"@.len() == 18 && "top_right_vertical"@[0] == 't');
    assert("bottom_left_horizontal"@.len() == 22 && "bottom_left_horizontal"@[0] == 'b');
    assert("bottom_left_vertical"@.len() == 20 && "bottom_left_vertical"@[0] == 'b');
    assert("bottom_right_horizontal"@.len() == 23 && "bottom_right_horizontal"@[0] == 'b');
    assert("bottom_right_vertical"@.len() == 21 && "bottom_right_vertical"@[0] == 'b');
    assert("bottom_center_horizontal"@.len() == 24 && "bottom_center_horizontal"@[0] == 'b');
    assert("bottom_center_vertical"@.len() == 22 && "bottom_center_vertical"@[0] == 'b');
    assert("center_horizontal"@.len() == 17 && "center_horizontal"@[0] == 'c');
    assert("center_vertical"@.len() == 15 && "center_vertical"@[0] == 'c');
    assert("bottom_left_horizontal"@[7] == 'l' && "bottom_center_vertical"@[7] == 'c');
}

/// Reading back the name of a style gives that style, and every name that
/// is read is the name of what it reads to.
pub proof fn style_names_round_trip(s: VisibleSignatureStyle, name: Seq<char>)
    ensures
        style_named(style_name(s)) == Some(s),
        style_named(name) matches Some(q) ==> style_name(q) == name,
{
    reveal_strlit("default");
    reveal_strlit("compact");
    assert("default"@[0] == 'd' && "compact"@[0] == 'c');
}

/// Reading back the name of a time zone gives that time zone, and every
/// name that is read is the name of what it reads to.
pub proof fn timezone_names_round_trip(t: VisibleSignatureTimezone, name: Seq<char>)
    ensures
        timezone_named(timezone_name(t)) == Some(t),
        timezone_named(name) matches Some(q) ==> timezone_name(q) == name,
{
    reveal_strlit("utc");
    reveal_strlit("local");
    assert("utc"@.len() == 3 && "local"@.len() == 5);
}

} // verus!
