//! The text of a visible signature: its lines, escaped for a PDF literal
//! string, the content stream that draws them, and the signing times as
//! written in the signature dictionary and in the appearance.
use vstd::prelude::*;
use crate::contracts::{VisibleSignaturePlacement, VisibleSignatureTimezone};
use crate::text::{chars_of, push_all, push_char, string_from_chars, trim, trim_seq};

verus! {

/// A visible signature to draw: where, the signer's name, and the time zone
/// of the signing time it shows.
pub struct VisibleSignatureAppearance {
    pub placement: VisibleSignaturePlacement,
    pub timezone: VisibleSignatureTimezone,
    pub signer_name: String,
}

/// The first `limit` characters of `s`.
pub open spec fn take_chars(s: Seq<char>, limit: nat) -> Seq<char> {
    if s.len() <= limit {
        s
    } else {
        s.take(limit as int)
    }
}

/// The first `limit` characters of `input`.
pub fn truncate_text(input: &str, limit: usize) -> (r: String)
    ensures
        r@ == take_chars(input@, limit as nat),
{
    let v = chars_of(input);
    if v.len() <= limit {
        return string_from_chars(v.as_slice());
    }
    let head = &v.as_slice()[0..limit];
    assert(head@ =~= input@.take(limit as int));
    string_from_chars(head)
}

/// One character as written inside a PDF literal string: `\`, `(` and `)`
/// get a backslash before them.
pub open spec fn escaped_char(c: char) -> Seq<char> {
    if c == '\\' || c == '(' || c == ')' {
        seq!['\\', c]
    } else {
        seq![c]
    }
}

/// `s` as written inside a PDF literal string.
pub open spec fn escape_seq(s: Seq<char>) -> Seq<char>
    decreases s.len(),
{
    if s.len() == 0 {
        Seq::empty()
    } else {
        escape_seq(s.drop_last()) + escaped_char(s.last())
    }
}

/// `input` as written inside a PDF literal string.
pub fn escape_pdf_literal(input: &str) -> (r: String)
    ensures
        r@ == escape_seq(input@),
{
    let v = chars_of(input);
    let mut out = String::new();
    let mut i: usize = 0;
    while i < v.len()
        invariant
            i <= v@.len(),
            v@ == input@,
            out@ == escape_seq(v@.take(i as int)),
        decreases v.len() - i,
    {
        let c = v[i];
        if c == '\\' || c == '(' || c == ')' {
            push_char(&mut out, '\\');
        }
        push_char(&mut out, c);
        assert(v@.take(i + 1).drop_last() =~= v@.take(i as int));
        assert(v@.take(i + 1).last() == c);
        i = i + 1;
    }
    assert(v@.take(i as int) =~= v@);
    out
}

/// The longest signer line, in characters.
pub const SIGNER_LINE_LIMIT: usize = 80;

/// The three lines of a visible signature, before escaping: a fixed
/// heading, the signer (at most 80 characters) and the signing time.
pub open spec fn appearance_lines(signer_name: Seq<char>, signed_at: Seq<char>) -> (
    Seq<char>,
    Seq<char>,
    Seq<char>,
) {
    (
        "Assinado digitalmente"@,
        take_chars("Assinante: "@ + trim_seq(signer_name), SIGNER_LINE_LIMIT as nat),
        "Data/Hora: "@ + signed_at,
    )
}

/// The content stream of a visible signature: a light box of the given
/// size with a border, and the three lines from `baseline` down.
pub open spec fn appearance_stream_text(
    width: Seq<char>,
    height: Seq<char>,
    baseline: Seq<char>,
    signer_name: Seq<char>,
    signed_at: Seq<char>,
) -> Seq<char> {
    let (l1, l2, l3) = appearance_lines(signer_name, signed_at);
    "q\n1 1 0.93 rg\n0 0 "@ + width + " "@ + height + " re\nf\n0 0 0 RG\n1 w\n0 0 "@ + width + " "@
        + height + " re\nS\nBT\n/F1 11 Tf\n0 0 0 rg\n8 "@ + baseline + " Td\n("@ + escape_seq(l1)
        + ") Tj\n0 -15 Td\n("@ + escape_seq(l2) + ") Tj\n0 -15 Td\n("@ + escape_seq(l3)
        + ") Tj\nET\nQ\n"@
}

/// The content stream of a visible signature; the box's width, height and
/// the first baseline come already written with two decimals.
pub fn appearance_stream(
    width: &str,
    height: &str,
    baseline: &str,
    signer_name: &str,
    signed_at: &str,
) -> (r: String)
    ensures
        r@ == appearance_stream_text(width@, height@, baseline@, signer_name@, signed_at@),
{
    let l1 = escape_pdf_literal("Assinado digitalmente");
    let mut signer = String::from_str("Assinante: ");
    let name = trim(signer_name);
    push_all(&mut signer, name.as_str());
    let signer = truncate_text(signer.as_str(), SIGNER_LINE_LIMIT);
    let l2 = escape_pdf_literal(signer.as_str());
    let mut when = String::from_str("Data/Hora: ");
    push_all(&mut when, signed_at);
    let l3 = escape_pdf_literal(when.as_str());
    let mut t = String::from_str("q\n1 1 0.93 rg\n0 0 ");
    push_all(&mut t, width);
    push_all(&mut t, " ");
    push_all(&mut t, height);
    push_all(&mut t, " re\nf\n0 0 0 RG\n1 w\n0 0 ");
    push_all(&mut t, width);
    push_all(&mut t, " ");
    push_all(&mut t, height);
    push_all(&mut t, " re\nS\nBT\n/F1 11 Tf\n0 0 0 rg\n8 ");
    push_all(&mut t, baseline);
    push_all(&mut t, " Td\n(");
    push_all(&mut t, l1.as_str());
    push_all(&mut t, ") Tj\n0 -15 Td\n(");
    push_all(&mut t, l2.as_str());
    push_all(&mut t, ") Tj\n0 -15 Td\n(");
    push_all(&mut t, l3.as_str());
    push_all(&mut t, ") Tj\nET\nQ\n");
    t
}

/// How the signature dictionary writes the signing time after `D:`.
pub const PDF_DATE_PATTERN: &'static str = "%Y%m%d%H%M%S+00'00'";

/// How the visible signature writes the signing time.
pub const APPEARANCE_TIME_PATTERN: &'static str = "%d/%m/%Y %H:%M:%S UTC";

/// What chrono writes for the instant `secs` seconds after the Unix epoch,
/// in UTC, with the strftime `pattern`.
pub uninterp spec fn chrono_utc_text(secs: int, pattern: Seq<char>) -> Seq<char>;

/// The last second of the year 9999, in seconds after the Unix epoch.
pub const LAST_SECOND_OF_9999: i64 = 253_402_300_799;

/// chrono's `DateTime::<Utc>::from_timestamp(secs, 0)` formatted with
/// `pattern`: `None` where chrono has no date for `secs`, else the text
/// named by `chrono_utc_text`. chrono has a date for every instant from the
/// epoch to the end of the year 9999.
#[verifier::external_body]
fn utc_text(secs: i64, pattern: &str) -> (r: Option<String>)
    requires
        pattern@ == PDF_DATE_PATTERN@ || pattern@ == APPEARANCE_TIME_PATTERN@,
    ensures
        r matches Some(t) ==> t@ == chrono_utc_text(secs as int, pattern@),
        0 <= secs <= LAST_SECOND_OF_9999 ==> r is Some,
{
    chrono::DateTime::<chrono::Utc>::from_timestamp(secs, 0).map(|d| d.format(pattern).to_string())
}

/// The signing time as the signature dictionary writes it after `D:`,
/// such as `20240102030405+00'00'`.
pub fn pdf_date_text(secs: i64) -> (r: Option<String>)
    ensures
        r matches Some(t) ==> t@ == chrono_utc_text(secs as int, PDF_DATE_PATTERN@),
        0 <= secs <= LAST_SECOND_OF_9999 ==> r is Some,
{
    utc_text(secs, PDF_DATE_PATTERN)
}

/// The signing time as the visible signature writes it, such as
/// `02/01/2024 03:04:05 UTC`.
pub fn appearance_time_text(secs: i64) -> (r: Option<String>)
    ensures
        r matches Some(t) ==> t@ == chrono_utc_text(secs as int, APPEARANCE_TIME_PATTERN@),
        0 <= secs <= LAST_SECOND_OF_9999 ==> r is Some,
{
    utc_text(secs, APPEARANCE_TIME_PATTERN)
}

/// How the visible signature writes the signing time in local time: the
/// offset from UTC follows the time.
pub const LOCAL_APPEARANCE_TIME_PATTERN: &'static str = "%d/%m/%Y %H:%M:%S %:z";

/// What chrono writes for the instant `secs` seconds after the Unix epoch,
/// seen at `offset` seconds east of UTC, with the strftime `pattern`.
pub uninterp spec fn chrono_offset_text(secs: int, offset: int, pattern: Seq<char>) -> Seq<char>;

/// chrono's `FixedOffset::east_opt(offset)` and
/// `DateTime::<Utc>::from_timestamp(secs, 0)`, the instant seen at that
/// offset (`with_timezone`) and formatted with `pattern`: `None` where
/// chrono has no such offset (a whole day or more) or no date for `secs`.
#[verifier::external_body]
fn offset_text(secs: i64, offset: i32, pattern: &str) -> (r: Option<String>)
    requires
        pattern@ == LOCAL_APPEARANCE_TIME_PATTERN@,
    ensures
        r matches Some(t) ==> t@ == chrono_offset_text(secs as int, offset as int, pattern@),
        0 <= secs <= LAST_SECOND_OF_9999 && -86_400 < offset < 86_400 ==> r is Some,
{
    let zone = chrono::FixedOffset::east_opt(offset)?;
    chrono::DateTime::<chrono::Utc>::from_timestamp(secs, 0).map(|d| d.with_timezone(&zone).format(pattern).to_string())
}

/// The signing time as the visible signature writes it in `timezone`:
/// in UTC, such as `02/01/2024 03:04:05 UTC`; in local time, at
/// `local_offset` seconds east of UTC, such as `02/01/2024 00:04:05 -03:00`.
pub open spec fn appearance_time_spec(
    secs: int,
    timezone: VisibleSignatureTimezone,
    local_offset: int,
) -> Seq<char> {
    match timezone {
        VisibleSignatureTimezone::Utc => chrono_utc_text(secs, APPEARANCE_TIME_PATTERN@),
        VisibleSignatureTimezone::Local => chrono_offset_text(secs, local_offset, LOCAL_APPEARANCE_TIME_PATTERN@),
    }
}

/// The signing time as the visible signature writes it in `timezone`, the
/// local one being `local_offset` seconds east of UTC.
pub fn appearance_time_in(secs: i64, timezone: VisibleSignatureTimezone, local_offset: i32) -> (r: Option<String>)
    ensures
        r matches Some(t) ==> t@ == appearance_time_spec(secs as int, timezone, local_offset as int),
        0 <= secs <= LAST_SECOND_OF_9999 && -86_400 < local_offset < 86_400 ==> r is Some,
{
    match timezone {
        VisibleSignatureTimezone::Utc => utc_text(secs, APPEARANCE_TIME_PATTERN),
        VisibleSignatureTimezone::Local => offset_text(secs, local_offset, LOCAL_APPEARANCE_TIME_PATTERN),
    }
}

} // verus!
