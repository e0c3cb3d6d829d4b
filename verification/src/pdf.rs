//! The incremental update that adds a detached CMS signature to a PDF: the
//! object numbers it uses, the objects it appends, its cross-reference
//! section, the byte range that the signature covers and the embedding of
//! the signature itself.
use vstd::prelude::*;
use vstd::utf8::{decode_utf8, encode_utf8, valid_utf8};
use crate::text::{
    decimal, decimal_seq, decimal_zero_padded, is_white_space, pad_left, parse_unsigned,
    parse_unsigned_chars, push_all, push_repeated, repeat_char, white_space,
};

verus! {

/// What `String::from_utf8_lossy` makes of `bytes`.
pub uninterp spec fn utf8_lossy(bytes: Seq<u8>) -> Seq<char>;

/// `String::from_utf8_lossy`: the text of `bytes`, with each invalid
/// sequence replaced; valid UTF-8 is decoded unchanged.
#[verifier::external_body]
fn lossy_text(bytes: &[u8]) -> (r: String)
    ensures
        r@ == utf8_lossy(bytes@),
        valid_utf8(bytes@) ==> r@ == decode_utf8(bytes@),
{
    String::from_utf8_lossy(bytes).into_owned()
}

/// Splitting into words, one character at a time: the finished words and
/// the word in progress.
pub open spec fn words_state(s: Seq<char>) -> (Seq<Seq<char>>, Seq<char>)
    decreases s.len(),
{
    if s.len() == 0 {
        (Seq::empty(), Seq::empty())
    } else {
        let (words, cur) = words_state(s.drop_last());
        let c = s.last();
        if is_white_space(c) {
            if cur.len() > 0 {
                (words.push(cur), Seq::empty())
            } else {
                (words, Seq::empty())
            }
        } else {
            (words, cur.push(c))
        }
    }
}

/// `str::split_whitespace`: the maximal runs of non-whitespace characters.
pub open spec fn split_ws(s: Seq<char>) -> Seq<Seq<char>> {
    let (words, cur) = words_state(s);
    if cur.len() > 0 {
        words.push(cur)
    } else {
        words
    }
}

/// The object number declared by a line of the form `N 0 obj ...`, or 0.
pub open spec fn line_object_number(line: Seq<char>) -> nat {
    let w = split_ws(line);
    if w.len() >= 3 && w[2] == "obj"@ && parse_unsigned(w[1], u32::MAX as nat) == Some(0nat)
        && parse_unsigned(w[0], u32::MAX as nat) is Some {
        parse_unsigned(w[0], u32::MAX as nat)->0
    } else {
        0
    }
}

pub open spec fn max_nat(a: nat, b: nat) -> nat {
    if a >= b {
        a
    } else {
        b
    }
}

/// Reading text line by line: the highest object number of the finished
/// lines and the line in progress.
pub open spec fn lines_state(text: Seq<char>) -> (nat, Seq<char>)
    decreases text.len(),
{
    if text.len() == 0 {
        (0, Seq::empty())
    } else {
        let (high, line) = lines_state(text.drop_last());
        if text.last() == '\n' {
            (max_nat(high, line_object_number(line)), Seq::empty())
        } else {
            (high, line.push(text.last()))
        }
    }
}

/// The highest object number declared in `text`, or 0 when there is none.
pub open spec fn highest_object_number(text: Seq<char>) -> nat {
    let (high, line) = lines_state(text);
    max_nat(high, line_object_number(line))
}

pub open spec fn words_view(v: Seq<Vec<char>>) -> Seq<Seq<char>> {
    v.map_values(|w: Vec<char>| w@)
}

/// `str::split_whitespace` on a line.
fn split_words(line: &[char]) -> (r: Vec<Vec<char>>)
    ensures
        words_view(r@) == split_ws(line@),
{
    let mut words: Vec<Vec<char>> = Vec::new();
    let mut cur: Vec<char> = Vec::new();
    let mut i: usize = 0;
    while i < line.len()
        invariant
            i <= line.len(),
            (words_view(words@), cur@) == words_state(line@.subrange(0, i as int)),
        decreases line.len() - i,
    {
        let c = line[i];
        let ghost prefix = line@.subrange(0, i + 1);
        assert(prefix.drop_last() == line@.subrange(0, i as int));
        assert(prefix.last() == c);
        if white_space(c) {
            if cur.len() > 0 {
                let ghost before = words@;
                let ghost done = cur@;
                words.push(cur);
                assert(words_view(words@) == words_view(before).push(done));
                cur = Vec::new();
            }
        } else {
            cur.push(c);
        }
        i = i + 1;
    }
    assert(line@.subrange(0, line@.len() as int) == line@);
    if cur.len() > 0 {
        let ghost before = words@;
        let ghost done = cur@;
        words.push(cur);
        assert(words_view(words@) == words_view(before).push(done));
    }
    words
}

fn is_obj_word(w: &Vec<char>) -> (r: bool)
    ensures
        r == (w@ == "obj"@),
{
    let s = crate::text::string_from_chars(w.as_slice());
    crate::text::equals(s.as_str(), "obj")
}

/// The object number declared by a line of the form `N 0 obj ...`, or 0.
fn line_number(line: &[char]) -> (r: u32)
    ensures
        r == line_object_number(line@),
{
    let words = split_words(line);
    if words.len() < 3 {
        return 0;
    }
    assert(words_view(words@)[2] == words@[2]@);
    assert(words_view(words@)[1] == words@[1]@);
    assert(words_view(words@)[0] == words@[0]@);
    if !is_obj_word(&words[2]) {
        return 0;
    }
    match parse_unsigned_chars(words[1].as_slice(), u32::MAX as u64) {
        Some(0) => {},
        _ => {
            return 0;
        },
    }
    match parse_unsigned_chars(words[0].as_slice(), u32::MAX as u64) {
        Some(n) => n as u32,
        None => 0,
    }
}

/// The highest object number declared in `text`, or 0 when there is none.
fn highest_object_number_in(text: &str) -> (r: u32)
    ensures
        r == highest_object_number(text@),
{
    let mut high: u32 = 0;
    let mut line: Vec<char> = Vec::new();
    let ghost mut consumed: Seq<char> = Seq::empty();
    for c in it: text.chars()
        invariant
            consumed == it.seq().take(it.index() as int),
            (high as nat, line@) == lines_state(consumed),
    {
        let ghost prefix = consumed.push(c);
        assert(prefix.drop_last() == consumed);
        proof {
            consumed = prefix;
        }
        if c == '\n' {
            let n = line_number(line.as_slice());
            if n > high {
                high = n;
            }
            line = Vec::new();
        } else {
            line.push(c);
        }
    }
    assert(consumed == text@);
    let n = line_number(line.as_slice());
    if n > high {
        n
    } else {
        high
    }
}

/// Bytes reserved for the CMS signature.
pub const SIG_BYTES: usize = 12_288;

/// Hexadecimal digits reserved for the CMS signature.
pub const HEX_LEN: usize = 24_576;

/// The `/ByteRange` entry as first written, before the offsets are known.
pub const BYTE_RANGE_PLACEHOLDER: &'static str = "/ByteRange [0 AAAAAAAAAA BBBBBBBBBB CCCCCCCCCC]";

/// Why a PDF could not be signed.
#[derive(Debug)]
pub enum PdfSignError {
    /// No line of the PDF declares an object with a number above 0.
    NoObjectNumber,
    /// The new objects would need numbers beyond `u32::MAX`.
    ObjectNumberOverflow,
    /// An offset of the signed PDF needs more than ten decimal digits, or
    /// more than `usize` holds.
    DocumentTooLarge,
    /// The CMS signature is longer than the space reserved for it.
    SignatureTooLarge { len: usize },
    /// The document has no catalog that lopdf can read.
    MissingCatalog,
    /// The document has no first page that lopdf can read.
    MissingFirstPage,
    /// lopdf cannot load the document.
    Unreadable,
    /// A page, or a parent of one, is not a dictionary lopdf can read.
    MissingPageObject,
    /// The page's `/MediaBox` is not an array, directly or by reference.
    MediaBoxNotArray,
    /// The page's `/MediaBox` does not hold four numbers.
    MediaBoxWrongSize { len: usize },
    /// Neither the first page nor its parents, within the depth searched,
    /// has a `/MediaBox`.
    MissingMediaBox,
}

pub open spec fn pdf_error_message(e: PdfSignError) -> Seq<char> {
    match e {
        PdfSignError::NoObjectNumber => "Nao foi possivel determinar o maior numero de objeto do PDF"@,
        PdfSignError::ObjectNumberOverflow => "Numeros de objeto do PDF esgotados"@,
        PdfSignError::DocumentTooLarge => "ByteRange placeholder com comprimento incorreto - verifique BR_PLACEHOLDER"@,
        PdfSignError::SignatureTooLarge { len } => "Assinatura CMS tem "@ + decimal_seq(len as nat)
            + " bytes; limite reservado e 12288. Aumente SIG_BYTES e recompile."@,
        PdfSignError::MissingCatalog => "/Catalog nao encontrado"@,
        PdfSignError::MissingFirstPage => "PDF nao possui paginas"@,
        PdfSignError::Unreadable => "Falha ao abrir PDF em memoria"@,
        PdfSignError::MissingPageObject => "Objeto de pagina nao encontrado"@,
        PdfSignError::MediaBoxNotArray => "MediaBox nao e array"@,
        PdfSignError::MediaBoxWrongSize { len } => "Retangulo invalido: esperado 4 numeros, recebido "@
            + decimal_seq(len as nat),
        PdfSignError::MissingMediaBox => "Primeira pagina sem MediaBox"@,
    }
}

impl PdfSignError {
    /// The message shown to the user.
    pub fn message(&self) -> (r: String)
        ensures
            r@ == pdf_error_message(*self),
    {
        match self {
            PdfSignError::NoObjectNumber => String::from_str(
                "Nao foi possivel determinar o maior numero de objeto do PDF",
            ),
            PdfSignError::ObjectNumberOverflow => String::from_str("Numeros de objeto do PDF esgotados"),
            PdfSignError::DocumentTooLarge => String::from_str(
                "ByteRange placeholder com comprimento incorreto - verifique BR_PLACEHOLDER",
            ),
            PdfSignError::SignatureTooLarge { len } => {
                let mut m = String::from_str("Assinatura CMS tem ");
                let d = decimal(*len as u64);
                push_all(&mut m, d.as_str());
                push_all(&mut m, " bytes; limite reservado e 12288. Aumente SIG_BYTES e recompile.");
                m
            },
            PdfSignError::MissingCatalog => String::from_str("/Catalog nao encontrado"),
            PdfSignError::MissingFirstPage => String::from_str("PDF nao possui paginas"),
            PdfSignError::Unreadable => String::from_str("Falha ao abrir PDF em memoria"),
            PdfSignError::MissingPageObject => String::from_str("Objeto de pagina nao encontrado"),
            PdfSignError::MediaBoxNotArray => String::from_str("MediaBox nao e array"),
            PdfSignError::MediaBoxWrongSize { len } => {
                let mut m = String::from_str("Retangulo invalido: esperado 4 numeros, recebido ");
                let d = decimal(*len as u64);
                push_all(&mut m, d.as_str());
                m
            },
            PdfSignError::MissingMediaBox => String::from_str("Primeira pagina sem MediaBox"),
        }
    }
}

/// The object number after the highest one declared in the PDF.
pub fn next_free_obj_num(pdf: &[u8]) -> (r: Result<u32, PdfSignError>)
    ensures
        ({
            let high = highest_object_number(utf8_lossy(pdf@));
            if high == 0 {
                r matches Err(PdfSignError::NoObjectNumber)
            } else if high >= u32::MAX {
                r matches Err(PdfSignError::ObjectNumberOverflow)
            } else {
                r == Ok::<u32, PdfSignError>((high + 1) as u32)
            }
        }),
{
    let text = lossy_text(pdf);
    let high = highest_object_number_in(text.as_str());
    if high == 0 {
        return Err(PdfSignError::NoObjectNumber);
    }
    if high == u32::MAX {
        return Err(PdfSignError::ObjectNumberOverflow);
    }
    Ok(high + 1)
}

/// The object numbers of an incremental signature update.
#[derive(Clone, Copy, PartialEq, Eq, Debug, Structural)]
pub struct ObjectNumbers {
    pub signature: u32,
    pub field: u32,
    pub acro_form: u32,
    /// The font of a visible signature.
    pub font: Option<u32>,
    /// The appearance stream of a visible signature.
    pub appearance: Option<u32>,
    /// The `/Size` of the updated cross-reference table.
    pub size: u32,
}

/// Consecutive numbers from `next`: signature, field, form, then font and
/// appearance for a visible signature.
pub open spec fn numbers_from(next: nat, visible: bool) -> ObjectNumbers {
    ObjectNumbers {
        signature: next as u32,
        field: (next + 1) as u32,
        acro_form: (next + 2) as u32,
        font: if visible {
            Some((next + 3) as u32)
        } else {
            None
        },
        appearance: if visible {
            Some((next + 4) as u32)
        } else {
            None
        },
        size: if visible {
            (next + 5) as u32
        } else {
            (next + 3) as u32
        },
    }
}

/// Numbers the objects of the signature update after those of the PDF.
pub fn allocate_object_numbers(pdf: &[u8], visible: bool) -> (r: Result<ObjectNumbers, PdfSignError>)
    ensures
        ({
            let high = highest_object_number(utf8_lossy(pdf@));
            let last = if visible {
                high + 6
            } else {
                high + 4
            };
            if high == 0 {
                r matches Err(PdfSignError::NoObjectNumber)
            } else if last > u32::MAX {
                r matches Err(PdfSignError::ObjectNumberOverflow)
            } else {
                r == Ok::<ObjectNumbers, PdfSignError>(numbers_from(high + 1, visible))
            }
        }),
{
    let next = match next_free_obj_num(pdf) {
        Ok(n) => n,
        Err(e) => {
            return Err(e);
        },
    };
    let extra: u32 = if visible {
        5
    } else {
        3
    };
    if next > u32::MAX - extra {
        return Err(PdfSignError::ObjectNumberOverflow);
    }
    Ok(
        ObjectNumbers {
            signature: next,
            field: next + 1,
            acro_form: next + 2,
            font: if visible {
                Some(next + 3)
            } else {
                None
            },
            appearance: if visible {
                Some(next + 4)
            } else {
                None
            },
            size: next + extra,
        },
    )
}

/// What the rest of the document gives the signature update: the
/// catalog and first page, the existing form fields, the signing time and
/// the geometry of the widget, each already written in PDF syntax.
pub struct SignatureUpdateParts {
    /// Object number and generation of the document catalog.
    pub catalog_id: (u32, u16),
    /// Object number and generation of the first page.
    pub page_id: (u32, u16),
    /// The signing time as written after `D:`, such as `20240102030405+00'00'`.
    pub signing_time: String,
    /// The widget rectangle: four numbers separated by spaces.
    pub widget_rect: String,
    /// The form fields of the document, the new signature field last.
    pub fields: Vec<String>,
    /// The first page's dictionary with the signature widget among its annotations.
    pub page_dictionary: String,
    /// The catalog's dictionary with `/AcroForm` pointing at the new form.
    pub catalog_dictionary: String,
    /// The appearance of a visible signature.
    pub appearance: Option<AppearanceParts>,
}

/// The appearance of a visible signature.
pub struct AppearanceParts {
    /// Width and height of the bounding box, separated by a space.
    pub bbox: String,
    /// The content stream that draws the signature.
    pub stream: String,
}

pub open spec fn dec(n: nat) -> Seq<char> {
    decimal_seq(n)
}

/// The key that opens the signature's hexadecimal contents.
pub const CONTENTS_KEY: &'static str = "/Contents <";

/// The signature object up to its `/ByteRange` entry.
pub open spec fn sig_head(n: ObjectNumbers) -> Seq<char> {
    dec(n.signature as nat) + " 0 obj\n<<\n/Type /Sig\n/Filter /Adobe.PPKLite\n/SubFilter /adbe.pkcs7.detached\n"@
}

/// What follows the reserved hexadecimal digits in the signature object.
pub open spec fn sig_tail(signing_time: Seq<char>) -> Seq<char> {
    ">\n/Reason (Assinado digitalmente com Token A3)\n/Location (Brasil)\n/M (D:"@ + signing_time
        + ")\n>>\nendobj\n"@
}

pub open spec fn sig_object_text(n: ObjectNumbers, signing_time: Seq<char>) -> Seq<char> {
    sig_head(n) + BYTE_RANGE_PLACEHOLDER@ + "\n"@ + CONTENTS_KEY@ + repeat_char('0', HEX_LEN as nat)
        + sig_tail(signing_time)
}

pub open spec fn field_object_text(n: ObjectNumbers, p: SignatureUpdateParts) -> Seq<char> {
    dec(n.field as nat) + " 0 obj\n<<\n/Type /Annot\n/Subtype /Widget\n/FT /Sig\n/T (Assinatura_Digital_A3)\n/V "@
        + dec(n.signature as nat) + " 0 R\n/Rect ["@ + p.widget_rect@ + "]\n/P "@ + dec(
        p.page_id.0 as nat,
    ) + " "@ + dec(p.page_id.1 as nat) + " R\n"@ + match n.appearance {
        Some(a) => "/F 4\n/AP << /N "@ + dec(a as nat) + " 0 R >>\n"@,
        None => Seq::<char>::empty(),
    } + ">>\nendobj\n"@
}

/// `words` separated by `sep`.
pub open spec fn join_seq(words: Seq<Seq<char>>, sep: Seq<char>) -> Seq<char>
    decreases words.len(),
{
    if words.len() == 0 {
        Seq::empty()
    } else if words.len() == 1 {
        words[0]
    } else {
        join_seq(words.drop_last(), sep) + sep + words.last()
    }
}

pub open spec fn strings_view(v: Seq<String>) -> Seq<Seq<char>> {
    v.map_values(|s: String| s@)
}

pub open spec fn acro_form_object_text(n: ObjectNumbers, p: SignatureUpdateParts) -> Seq<char> {
    dec(n.acro_form as nat) + " 0 obj\n<<\n/Fields ["@ + join_seq(strings_view(p.fields@), " "@)
        + "]\n/SigFlags 3\n>>\nendobj\n"@
}

pub open spec fn font_object_text(font: nat) -> Seq<char> {
    dec(font) + " 0 obj\n<<\n/Type /Font\n/Subtype /Type1\n/BaseFont /Helvetica\n>>\nendobj\n"@
}

pub open spec fn appearance_object_text(appearance: nat, font: nat, a: AppearanceParts) -> Seq<char> {
    dec(appearance) + " 0 obj\n<<\n/Type /XObject\n/Subtype /Form\n/BBox [0 0 "@ + a.bbox@
        + "]\n/Resources << /Font << /F1 "@ + dec(font) + " 0 R >> >>\n/Length "@ + dec(
        encode_utf8(a.stream@).len(),
    ) + "\n>>\nstream\n"@ + a.stream@ + "\nendstream\nendobj\n"@
}

/// An object rewritten in the update: its number, generation and dictionary.
pub open spec fn rewritten_object_text(id: (u32, u16), dictionary: Seq<char>) -> Seq<char> {
    dec(id.0 as nat) + " "@ + dec(id.1 as nat) + " obj\n"@ + dictionary + "\nendobj\n"@
}

/// The objects of the update, in the order written, with their numbers and
/// generations.
pub open spec fn update_objects(n: ObjectNumbers, p: SignatureUpdateParts) -> Seq<(Seq<char>, (u32, u16))> {
    let visible = match (n.font, n.appearance, p.appearance) {
        (Some(f), Some(a), Some(ap)) => seq![
            (font_object_text(f as nat), (f, 0u16)),
            (appearance_object_text(a as nat, f as nat, ap), (a, 0u16)),
        ],
        (Some(f), _, _) => seq![(font_object_text(f as nat), (f, 0u16))],
        _ => Seq::empty(),
    };
    seq![
        (sig_object_text(n, p.signing_time@), (n.signature, 0u16)),
        (field_object_text(n, p), (n.field, 0u16)),
        (acro_form_object_text(n, p), (n.acro_form, 0u16)),
    ] + visible + seq![
        (rewritten_object_text(p.page_id, p.page_dictionary@), p.page_id),
        (rewritten_object_text(p.catalog_id, p.catalog_dictionary@), p.catalog_id),
    ]
}

/// The bytes of the first `k` objects.
pub open spec fn objects_bytes(objs: Seq<(Seq<char>, (u32, u16))>, k: int) -> Seq<u8>
    decreases k,
{
    if k <= 0 {
        Seq::empty()
    } else {
        objects_bytes(objs, k - 1) + encode_utf8(objs[k - 1].0)
    }
}

/// One line of the cross-reference table.
pub struct XrefEntry {
    pub obj_num: u32,
    pub generation: u16,
    pub offset: usize,
}

impl XrefEntry {
    pub fn new(obj_num: u32, generation: u16, offset: usize) -> (r: Self)
        ensures
            r == (XrefEntry { obj_num, generation, offset }),
    {
        XrefEntry { obj_num, generation, offset }
    }
}

/// The cross-reference entries, in the order written, of objects placed
/// after `base` bytes.
pub open spec fn entries_of(objs: Seq<(Seq<char>, (u32, u16))>, base: nat) -> Seq<XrefEntry> {
    Seq::new(
        objs.len(),
        |i: int|
            XrefEntry {
                obj_num: objs[i].1.0,
                generation: objs[i].1.1,
                offset: (base + objects_bytes(objs, i).len()) as usize,
            },
    )
}

pub proof fn lemma_encode_utf8_concat(a: Seq<char>, b: Seq<char>)
    ensures
        encode_utf8(a + b) == encode_utf8(a) + encode_utf8(b),
    decreases a.len(),
{
    if a.len() > 0 {
        lemma_encode_utf8_concat(a.drop_first(), b);
        assert((a + b).drop_first() == a.drop_first() + b);
        assert((a + b)[0] == a[0]);
    } else {
        assert(a + b == b);
    }
}

/// Appends the UTF-8 bytes of `t`.
fn append_text(buf: &mut Vec<u8>, t: &str)
    ensures
        final(buf)@ == old(buf)@ + encode_utf8(t@),
{
    let b = t.as_bytes();
    buf.extend_from_slice(b);
    assert(buf@ == old(buf)@ + encode_utf8(t@));
}

fn number_text(n: u64) -> (r: String)
    ensures
        r@ == dec(n as nat),
{
    decimal(n)
}

fn sig_object(n: &ObjectNumbers, signing_time: &str) -> (r: String)
    ensures
        r@ == sig_object_text(*n, signing_time@),
{
    let mut t = number_text(n.signature as u64);
    push_all(&mut t, " 0 obj\n<<\n/Type /Sig\n/Filter /Adobe.PPKLite\n/SubFilter /adbe.pkcs7.detached\n");
    push_all(&mut t, BYTE_RANGE_PLACEHOLDER);
    push_all(&mut t, "\n");
    push_all(&mut t, CONTENTS_KEY);
    push_repeated(&mut t, '0', HEX_LEN);
    let ghost body = t@;
    push_all(&mut t, ">\n/Reason (Assinado digitalmente com Token A3)\n/Location (Brasil)\n/M (D:");
    push_all(&mut t, signing_time);
    push_all(&mut t, ")\n>>\nendobj\n");
    assert(t@ == body + sig_tail(signing_time@));
    t
}

fn field_object(n: &ObjectNumbers, p: &SignatureUpdateParts) -> (r: String)
    ensures
        r@ == field_object_text(*n, *p),
{
    let mut t = number_text(n.field as u64);
    push_all(&mut t, " 0 obj\n<<\n/Type /Annot\n/Subtype /Widget\n/FT /Sig\n/T (Assinatura_Digital_A3)\n/V ");
    let s = number_text(n.signature as u64);
    push_all(&mut t, s.as_str());
    push_all(&mut t, " 0 R\n/Rect [");
    push_all(&mut t, p.widget_rect.as_str());
    push_all(&mut t, "]\n/P ");
    let p0 = number_text(p.page_id.0 as u64);
    push_all(&mut t, p0.as_str());
    push_all(&mut t, " ");
    let p1 = number_text(p.page_id.1 as u64);
    push_all(&mut t, p1.as_str());
    push_all(&mut t, " R\n");
    let ghost before = t@;
    match n.appearance {
        Some(a) => {
            push_all(&mut t, "/F 4\n/AP << /N ");
            let d = number_text(a as u64);
            push_all(&mut t, d.as_str());
            push_all(&mut t, " 0 R >>\n");
        },
        None => {
            assert(t@ == before + Seq::<char>::empty());
        },
    }
    push_all(&mut t, ">>\nendobj\n");
    t
}

pub(crate) fn join_strings(words: &Vec<String>, sep: &str) -> (r: String)
    ensures
        r@ == join_seq(strings_view(words@), sep@),
{
    let mut t = String::new();
    let mut i: usize = 0;
    while i < words.len()
        invariant
            i <= words.len(),
            t@ == join_seq(strings_view(words@).take(i as int), sep@),
        decreases words.len() - i,
    {
        let ghost next = strings_view(words@).take(i + 1);
        assert(next.drop_last() == strings_view(words@).take(i as int));
        assert(next.last() == words@[i as int]@);
        if i > 0 {
            push_all(&mut t, sep);
        } else {
            assert(strings_view(words@).take(0) == Seq::<Seq<char>>::empty());
            assert(next.len() == 1 && next[0] == words@[0]@);
            assert(t@ == Seq::<char>::empty());
        }
        push_all(&mut t, words[i].as_str());
        i = i + 1;
    }
    assert(strings_view(words@).take(i as int) == strings_view(words@));
    t
}

fn acro_form_object(n: &ObjectNumbers, p: &SignatureUpdateParts) -> (r: String)
    ensures
        r@ == acro_form_object_text(*n, *p),
{
    let mut t = number_text(n.acro_form as u64);
    push_all(&mut t, " 0 obj\n<<\n/Fields [");
    let fields = join_strings(&p.fields, " ");
    push_all(&mut t, fields.as_str());
    push_all(&mut t, "]\n/SigFlags 3\n>>\nendobj\n");
    t
}

fn font_object(font: u32) -> (r: String)
    ensures
        r@ == font_object_text(font as nat),
{
    let mut t = number_text(font as u64);
    push_all(&mut t, " 0 obj\n<<\n/Type /Font\n/Subtype /Type1\n/BaseFont /Helvetica\n>>\nendobj\n");
    t
}

fn appearance_object(appearance: u32, font: u32, a: &AppearanceParts) -> (r: String)
    ensures
        r@ == appearance_object_text(appearance as nat, font as nat, *a),
{
    let mut t = number_text(appearance as u64);
    push_all(&mut t, " 0 obj\n<<\n/Type /XObject\n/Subtype /Form\n/BBox [0 0 ");
    push_all(&mut t, a.bbox.as_str());
    push_all(&mut t, "]\n/Resources << /Font << /F1 ");
    let f = number_text(font as u64);
    push_all(&mut t, f.as_str());
    push_all(&mut t, " 0 R >> >>\n/Length ");
    let len = a.stream.as_str().as_bytes().len();
    let l = number_text(len as u64);
    push_all(&mut t, l.as_str());
    push_all(&mut t, "\n>>\nstream\n");
    push_all(&mut t, a.stream.as_str());
    push_all(&mut t, "\nendstream\nendobj\n");
    t
}

fn rewritten_object(id: (u32, u16), dictionary: &str) -> (r: String)
    ensures
        r@ == rewritten_object_text(id, dictionary@),
{
    let mut t = number_text(id.0 as u64);
    push_all(&mut t, " ");
    let g = number_text(id.1 as u64);
    push_all(&mut t, g.as_str());
    push_all(&mut t, " obj\n");
    push_all(&mut t, dictionary);
    push_all(&mut t, "\nendobj\n");
    t
}

pub open spec fn texts_and_ids_view(texts: Seq<String>, ids: Seq<(u32, u16)>) -> Seq<(Seq<char>, (u32, u16))> {
    Seq::new(texts.len(), |i: int| (texts[i]@, ids[i]))
}

/// The objects of the update, in the order written.
fn objects_of_update(n: &ObjectNumbers, p: &SignatureUpdateParts) -> (r: (Vec<String>, Vec<(u32, u16)>))
    ensures
        r.0@.len() == r.1@.len(),
        texts_and_ids_view(r.0@, r.1@) == update_objects(*n, *p),
{
    let mut texts: Vec<String> = Vec::new();
    let mut ids: Vec<(u32, u16)> = Vec::new();
    texts.push(sig_object(n, p.signing_time.as_str()));
    ids.push((n.signature, 0));
    texts.push(field_object(n, p));
    ids.push((n.field, 0));
    texts.push(acro_form_object(n, p));
    ids.push((n.acro_form, 0));
    match n.font {
        Some(f) => {
            texts.push(font_object(f));
            ids.push((f, 0));
            match (n.appearance, &p.appearance) {
                (Some(a), Some(ap)) => {
                    texts.push(appearance_object(a, f, ap));
                    ids.push((a, 0));
                },
                _ => {},
            }
        },
        None => {},
    }
    texts.push(rewritten_object(p.page_id, p.page_dictionary.as_str()));
    ids.push(p.page_id);
    texts.push(rewritten_object(p.catalog_id, p.catalog_dictionary.as_str()));
    ids.push(p.catalog_id);
    assert(texts_and_ids_view(texts@, ids@) == update_objects(*n, *p));
    (texts, ids)
}

/// The first position at or after `from` where an entry numbered above
/// `num` stands, or the length when there is none.
pub open spec fn first_above(s: Seq<XrefEntry>, num: u32, i: int) -> int
    decreases s.len() - i,
{
    if i >= s.len() {
        s.len() as int
    } else if s[i].obj_num > num {
        i
    } else {
        first_above(s, num, i + 1)
    }
}

/// The entries ordered by object number; entries with equal numbers keep
/// the order in which they were written (a stable insertion sort).
pub open spec fn sort_entries(e: Seq<XrefEntry>) -> Seq<XrefEntry>
    decreases e.len(),
{
    if e.len() == 0 {
        e
    } else {
        let s = sort_entries(e.drop_last());
        s.insert(first_above(s, e.last().obj_num, 0), e.last())
    }
}

proof fn lemma_first_above_bounds(s: Seq<XrefEntry>, num: u32, i: int)
    requires
        0 <= i <= s.len(),
    ensures
        i <= first_above(s, num, i) <= s.len(),
    decreases s.len() - i,
{
    if i < s.len() && s[i].obj_num <= num {
        lemma_first_above_bounds(s, num, i + 1);
    }
}

proof fn lemma_sort_entries_len(e: Seq<XrefEntry>)
    ensures
        sort_entries(e).len() == e.len(),
    decreases e.len(),
{
    if e.len() > 0 {
        lemma_sort_entries_len(e.drop_last());
        lemma_first_above_bounds(sort_entries(e.drop_last()), e.last().obj_num, 0);
    }
}

/// Entries in order of object number.
pub open spec fn entries_sorted(s: Seq<XrefEntry>) -> bool {
    forall|i: int, j: int| 0 <= i <= j < s.len() ==> #[trigger] s[i].obj_num <= #[trigger] s[j].obj_num
}

proof fn lemma_first_above_split(s: Seq<XrefEntry>, num: u32, i: int)
    requires
        0 <= i <= s.len(),
    ensures
        forall|k: int| i <= k < first_above(s, num, i) ==> #[trigger] s[k].obj_num <= num,
        first_above(s, num, i) < s.len() ==> s[first_above(s, num, i)].obj_num > num,
    decreases s.len() - i,
{
    if i < s.len() && s[i].obj_num <= num {
        lemma_first_above_split(s, num, i + 1);
    }
}

/// The cross-reference entries are written in order of object number, and
/// they are exactly the objects of the update.
pub proof fn xref_entries_are_sorted(e: Seq<XrefEntry>)
    ensures
        entries_sorted(sort_entries(e)),
        sort_entries(e).to_multiset() == e.to_multiset(),
    decreases e.len(),
{
    if e.len() > 0 {
        let s = sort_entries(e.drop_last());
        let x = e.last();
        xref_entries_are_sorted(e.drop_last());
        lemma_first_above_bounds(s, x.obj_num, 0);
        lemma_first_above_split(s, x.obj_num, 0);
        let p = first_above(s, x.obj_num, 0);
        let r = s.insert(p, x);
        assert forall|i: int, j: int| 0 <= i <= j < r.len() implies #[trigger] r[i].obj_num
            <= #[trigger] r[j].obj_num by {
            if i < p && j < p {
                assert(r[i] == s[i] && r[j] == s[j]);
            } else if i < p && j == p {
                assert(r[i] == s[i]);
            } else if i < p {
                assert(r[i] == s[i] && r[j] == s[j - 1]);
            } else if i == p && j == p {
            } else if i == p {
                assert(r[j] == s[j - 1]);
                assert(s[p].obj_num <= s[j - 1].obj_num);
            } else {
                assert(r[i] == s[i - 1] && r[j] == s[j - 1]);
            }
        }
        vstd::seq_lib::to_multiset_insert(s, p, x);
        vstd::seq_lib::to_multiset_build(e.drop_last(), x);
        assert(e.drop_last().push(x) =~= e);
    } else {
        assert(sort_entries(e) == e);
    }
}

fn sort_xref_entries(entries: Vec<XrefEntry>) -> (r: Vec<XrefEntry>)
    ensures
        r@ == sort_entries(entries@),
{
    let mut sorted: Vec<XrefEntry> = Vec::new();
    let mut k: usize = 0;
    while k < entries.len()
        invariant
            k <= entries.len(),
            sorted@ == sort_entries(entries@.take(k as int)),
        decreases entries.len() - k,
    {
        let e = XrefEntry::new(entries[k].obj_num, entries[k].generation, entries[k].offset);
        let mut p: usize = 0;
        proof {
            lemma_sort_entries_len(entries@.take(k as int));
        }
        while p < sorted.len() && sorted[p].obj_num <= e.obj_num
            invariant
                p <= sorted.len(),
                first_above(sorted@, e.obj_num, 0) == first_above(sorted@, e.obj_num, p as int),
            decreases sorted.len() - p,
        {
            p = p + 1;
        }
        assert(entries@.take(k + 1).drop_last() == entries@.take(k as int));
        assert(entries@.take(k + 1).last() == e);
        sorted.insert(p, e);
        k = k + 1;
    }
    assert(entries@.take(k as int) == entries@);
    sorted
}

/// The end of the run of consecutive object numbers that reaches `j`.
pub open spec fn run_end(e: Seq<XrefEntry>, j: int) -> int
    decreases e.len() - j,
{
    if 0 < j < e.len() && e[j].obj_num == e[j - 1].obj_num + 1 {
        run_end(e, j + 1)
    } else {
        j
    }
}

pub proof fn lemma_run_end_bounds(e: Seq<XrefEntry>, j: int)
    requires
        0 < j <= e.len(),
    ensures
        j <= run_end(e, j) <= e.len(),
    decreases e.len() - j,
{
    if j < e.len() && e[j].obj_num == e[j - 1].obj_num + 1 {
        lemma_run_end_bounds(e, j + 1);
    }
}

/// One cross-reference line: `oooooooooo ggggg n `.
pub open spec fn xref_line(x: XrefEntry) -> Seq<char> {
    pad_left(dec(x.offset as nat), 10, '0') + " "@ + pad_left(dec(x.generation as nat), 5, '0')
        + " n \n"@
}

/// The lines of entries `from` to `to`.
pub open spec fn xref_lines(e: Seq<XrefEntry>, from: int, to: int) -> Seq<char>
    decreases to - from,
{
    if to <= from {
        Seq::empty()
    } else {
        xref_lines(e, from, to - 1) + xref_line(e[to - 1])
    }
}

/// The subsections of the cross-reference table from entry `i` on: each
/// run of consecutive object numbers under a `first count` header.
pub open spec fn xref_sections(e: Seq<XrefEntry>, i: int) -> Seq<char>
    decreases e.len() - i,
{
    if i < 0 || i >= e.len() {
        Seq::empty()
    } else {
        let end = run_end(e, i + 1);
        proof {
            lemma_run_end_bounds(e, i + 1);
        }
        dec(e[i].obj_num as nat) + " "@ + dec((end - i) as nat) + "\n"@ + xref_lines(e, i, end)
            + xref_sections(e, end)
    }
}

fn xref_line_text(x: &XrefEntry) -> (r: String)
    ensures
        r@ == xref_line(*x),
{
    let mut t = decimal_zero_padded(x.offset as u64, 10);
    push_all(&mut t, " ");
    let g = decimal_zero_padded(x.generation as u64, 5);
    push_all(&mut t, g.as_str());
    push_all(&mut t, " n \n");
    t
}

fn xref_table(e: &Vec<XrefEntry>) -> (r: String)
    ensures
        r@ == xref_sections(e@, 0),
{
    let mut t = String::new();
    let mut idx: usize = 0;
    while idx < e.len()
        invariant
            idx <= e.len(),
            t@ + xref_sections(e@, idx as int) == xref_sections(e@, 0),
        decreases e.len() - idx,
    {
        let start = e[idx].obj_num;
        let mut end = idx + 1;
        proof {
            lemma_run_end_bounds(e@, idx + 1);
        }
        while end < e.len() && (e[end].obj_num as u64) == (e[end - 1].obj_num as u64) + 1
            invariant
                idx < end <= e.len(),
                run_end(e@, idx + 1) == run_end(e@, end as int),
            decreases e.len() - end,
        {
            end = end + 1;
        }
        let ghost before = t@;
        let h = decimal(start as u64);
        push_all(&mut t, h.as_str());
        push_all(&mut t, " ");
        let c = decimal((end - idx) as u64);
        push_all(&mut t, c.as_str());
        push_all(&mut t, "\n");
        let ghost head = t@;
        let mut k: usize = idx;
        while k < end
            invariant
                idx <= k <= end <= e.len(),
                t@ == head + xref_lines(e@, idx as int, k as int),
            decreases end - k,
        {
            let line = xref_line_text(&e[k]);
            push_all(&mut t, line.as_str());
            k = k + 1;
        }
        assert(t@ == before + (dec(e@[idx as int].obj_num as nat) + " "@ + dec((end - idx) as nat)
            + "\n"@ + xref_lines(e@, idx as int, end as int)));
        idx = end;
    }
    t
}

pub open spec fn trailer_text(size: u32, root: (u32, u16), prev: nat, xref_offset: nat) -> Seq<char> {
    "trailer\n<<\n/Size "@ + dec(size as nat) + "\n/Root "@ + dec(root.0 as nat) + " "@ + dec(
        root.1 as nat,
    ) + " R\n/Prev "@ + dec(prev) + "\n>>\nstartxref\n"@ + dec(xref_offset) + "\n%%EOF\n"@
}

/// The bytes appended to a PDF of `original_len` bytes to sign it: the
/// objects, the cross-reference section and the trailer.
pub open spec fn update_bytes(original_len: nat, n: ObjectNumbers, p: SignatureUpdateParts) -> Seq<u8> {
    let objs = update_objects(n, p);
    let body = objects_bytes(objs, objs.len() as int);
    let entries = sort_entries(entries_of(objs, original_len));
    body + encode_utf8(
        "\nxref\n"@ + xref_sections(entries, 0) + trailer_text(
            n.size,
            p.catalog_id,
            original_len,
            original_len + body.len(),
        ),
    )
}

/// Some offset of the update does not fit in `usize`.
pub open spec fn update_overflows(original_len: nat, n: ObjectNumbers, p: SignatureUpdateParts) -> bool {
    let objs = update_objects(n, p);
    original_len + objects_bytes(objs, objs.len() as int).len() > usize::MAX
}

pub proof fn lemma_objects_bytes_monotone(objs: Seq<(Seq<char>, (u32, u16))>, i: int, k: int)
    requires
        0 <= i <= k,
    ensures
        objects_bytes(objs, i).len() <= objects_bytes(objs, k).len(),
    decreases k - i,
{
    if i < k {
        lemma_objects_bytes_monotone(objs, i, k - 1);
    }
}

/// The cross-reference section and the trailer of an update.
fn xref_and_trailer(sorted: &Vec<XrefEntry>, size: u32, root: (u32, u16), prev: usize, xref_offset: usize) -> (r: String)
    ensures
        r@ == "\nxref\n"@ + xref_sections(sorted@, 0) + trailer_text(size, root, prev as nat, xref_offset as nat),
{
    let mut tail = String::from_str("\nxref\n");
    let table = xref_table(sorted);
    push_all(&mut tail, table.as_str());
    let ghost head = tail@;
    push_all(&mut tail, "trailer\n<<\n/Size ");
    let t = number_text(size as u64);
    push_all(&mut tail, t.as_str());
    push_all(&mut tail, "\n/Root ");
    let t = number_text(root.0 as u64);
    push_all(&mut tail, t.as_str());
    push_all(&mut tail, " ");
    let t = number_text(root.1 as u64);
    push_all(&mut tail, t.as_str());
    push_all(&mut tail, " R\n/Prev ");
    let t = number_text(prev as u64);
    push_all(&mut tail, t.as_str());
    push_all(&mut tail, "\n>>\nstartxref\n");
    let t = number_text(xref_offset as u64);
    push_all(&mut tail, t.as_str());
    push_all(&mut tail, "\n%%EOF\n");
    assert(tail@ == head + trailer_text(size, root, prev as nat, xref_offset as nat));
    tail
}

/// Builds the update for a PDF of `original_len` bytes.
pub(crate) fn build_update(original_len: usize, n: &ObjectNumbers, p: &SignatureUpdateParts) -> (r: Result<
    Vec<u8>,
    PdfSignError,
>)
    ensures
        update_overflows(original_len as nat, *n, *p) ==> r matches Err(PdfSignError::DocumentTooLarge),
        !update_overflows(original_len as nat, *n, *p) ==> (r matches Ok(b) && b@ == update_bytes(
            original_len as nat,
            *n,
            *p,
        )),
{
    let (texts, ids) = objects_of_update(n, p);
    let ghost objs = update_objects(*n, *p);
    let mut body: Vec<u8> = Vec::new();
    let mut entries: Vec<XrefEntry> = Vec::new();
    let mut k: usize = 0;
    while k < texts.len()
        invariant
            k <= texts.len(),
            texts@.len() == ids@.len(),
            objs == update_objects(*n, *p),
            texts_and_ids_view(texts@, ids@) == objs,
            body@ == objects_bytes(objs, k as int),
            original_len + body@.len() <= usize::MAX,
            entries@ == entries_of(objs, original_len as nat).take(k as int),
        decreases texts.len() - k,
    {
        assert(objs[k as int].0 == texts@[k as int]@);
        assert(objs[k as int].1 == ids@[k as int]);
        let offset = original_len + body.len();
        entries.push(XrefEntry::new(ids[k].0, ids[k].1, offset));
        append_text(&mut body, texts[k].as_str());
        assert(entries@ == entries_of(objs, original_len as nat).take(k + 1));
        if body.len() > usize::MAX - original_len {
            proof {
                lemma_objects_bytes_monotone(objs, k + 1, objs.len() as int);
            }
            return Err(PdfSignError::DocumentTooLarge);
        }
        k = k + 1;
    }
    assert(entries_of(objs, original_len as nat).take(k as int) == entries_of(objs, original_len as nat));
    let xref_offset = original_len + body.len();
    let sorted = sort_xref_entries(entries);
    let tail = xref_and_trailer(&sorted, n.size, p.catalog_id, original_len, xref_offset);
    let ghost objs_body = body@;
    append_text(&mut body, tail.as_str());
    assert(objs_body == objects_bytes(objs, objs.len() as int));
    Ok(body)
}

} // verus!
