use assinador_livre::appearance::{
    appearance_stream, appearance_time_text, escape_pdf_literal, pdf_date_text, truncate_text,
};
use assinador_livre::byte_range::{find_contents_hex_start, find_subsequence, prepare_signature};
use assinador_livre::pdf::{
    allocate_object_numbers, next_free_obj_num, AppearanceParts, ObjectNumbers, PdfSignError,
    SignatureUpdateParts, XrefEntry, HEX_LEN, SIG_BYTES,
};

fn sample_pdf() -> Vec<u8> {
    b"%PDF-1.4\n1 0 obj\n<< /Type /Catalog /Pages 2 0 R >>\nendobj\n2 0 obj\n<< /Type /Pages /Kids [3 0 R] /Count 1 >>\nendobj\n3 0 obj\n<< /Type /Page /Parent 2 0 R >>\nendobj\ntrailer\n<< /Root 1 0 R >>\n%%EOF\n".to_vec()
}

fn parts(appearance: Option<AppearanceParts>) -> SignatureUpdateParts {
    SignatureUpdateParts {
        catalog_id: (1, 0),
        page_id: (3, 0),
        signing_time: "20240102030405+00'00'".to_string(),
        widget_rect: "0.00 0.00 0.00 0.00".to_string(),
        fields: vec!["5 0 R".to_string()],
        page_dictionary: "<</Type /Page /Parent 2 0 R /Annots [5 0 R]>>".to_string(),
        catalog_dictionary: "<</Type /Catalog /Pages 2 0 R /AcroForm 6 0 R>>".to_string(),
        appearance,
    }
}

fn text(b: &[u8]) -> String {
    String::from_utf8_lossy(b).into_owned()
}

#[test]
fn next_object_number_follows_the_highest() {
    assert_eq!(next_free_obj_num(&sample_pdf()).ok(), Some(4));
    let pdf = b"12 0 obj\n<<>>\nendobj\n7 0 obj\n9 1 obj\n".to_vec();
    assert_eq!(next_free_obj_num(&pdf).ok(), Some(13));
}

#[test]
fn next_object_number_needs_an_object() {
    assert!(matches!(next_free_obj_num(b"%PDF-1.4\nno objects here\n"), Err(PdfSignError::NoObjectNumber)));
    assert!(matches!(next_free_obj_num(b"0 0 obj\n"), Err(PdfSignError::NoObjectNumber)));
    assert!(matches!(next_free_obj_num(b"4294967295 0 obj\n"), Err(PdfSignError::ObjectNumberOverflow)));
}

#[test]
fn object_numbers_are_consecutive() {
    let n = allocate_object_numbers(&sample_pdf(), false).ok().unwrap();
    assert_eq!(n, ObjectNumbers { signature: 4, field: 5, acro_form: 6, font: None, appearance: None, size: 7 });
    let v = allocate_object_numbers(&sample_pdf(), true).ok().unwrap();
    assert_eq!(v, ObjectNumbers { signature: 4, field: 5, acro_form: 6, font: Some(7), appearance: Some(8), size: 9 });
    assert!(matches!(allocate_object_numbers(b"4294967292 0 obj\n", false), Err(PdfSignError::ObjectNumberOverflow)));
}

#[test]
fn subsequence_search_finds_the_first_match() {
    assert_eq!(find_subsequence(b"abcabc", b"bc"), Some(1));
    assert_eq!(find_subsequence(b"abc", b"abcd"), None);
    assert_eq!(find_subsequence(b"aaa", b"b"), None);
    let pdf = b"xx/Contents <00>/Contents <11>";
    assert_eq!(find_contents_hex_start(pdf, 0), Some(12));
    assert_eq!(find_contents_hex_start(pdf, 5), Some(26));
    assert_eq!(find_contents_hex_start(pdf, 20), None);
}

#[test]
fn xref_entry_keeps_its_fields() {
    let e = XrefEntry::new(7, 2, 1234);
    assert_eq!((e.obj_num, e.generation, e.offset), (7, 2, 1234));
}

#[test]
fn prepared_pdf_keeps_the_original_and_writes_the_byte_range() {
    let original = sample_pdf();
    let n = allocate_object_numbers(&original, false).ok().unwrap();
    let prepared = prepare_signature(&original, &n, &parts(None)).ok().unwrap();
    let pdf = prepared.pdf().to_vec();
    assert_eq!(&pdf[..original.len()], &original[..]);
    let (b1, b2, b3) = prepared.byte_range();
    assert_eq!(b2, b1 + HEX_LEN + 2);
    assert_eq!(b2 + b3, pdf.len());
    assert_eq!(pdf[b1], b'<');
    assert_eq!(pdf[b2 - 1], b'>');
    assert!(pdf[b1 + 1..b2 - 1].iter().all(|&c| c == b'0'));
    let t = text(&pdf);
    let entry = format!("/ByteRange [0 {:<10} {:<10} {:<10}]", b1, b2, b3);
    assert!(t.contains(&entry));
    assert!(!t.contains("AAAAAAAAAA"));
    assert!(t.contains("4 0 obj\n<<\n/Type /Sig\n/Filter /Adobe.PPKLite\n/SubFilter /adbe.pkcs7.detached\n"));
    assert!(t.contains("5 0 obj\n<<\n/Type /Annot\n/Subtype /Widget\n/FT /Sig\n/T (Assinatura_Digital_A3)\n/V 4 0 R\n/Rect [0.00 0.00 0.00 0.00]\n/P 3 0 R\n>>\nendobj\n"));
    assert!(t.contains("6 0 obj\n<<\n/Fields [5 0 R]\n/SigFlags 3\n>>\nendobj\n"));
    assert!(t.contains("\nxref\n1 1\n"));
    assert!(t.contains("\n3 4\n"));
    let trailer = format!("trailer\n<<\n/Size 7\n/Root 1 0 R\n/Prev {}\n>>\nstartxref\n", original.len());
    assert!(t.contains(&trailer));
    assert!(t.ends_with("\n%%EOF\n"));
    let signed = prepared.signed_bytes();
    let mut expected = pdf[..b1].to_vec();
    expected.extend_from_slice(&pdf[b2..]);
    assert_eq!(signed, expected);
}

#[test]
fn xref_offsets_point_at_the_objects() {
    let original = sample_pdf();
    let n = allocate_object_numbers(&original, false).ok().unwrap();
    let prepared = prepare_signature(&original, &n, &parts(None)).ok().unwrap();
    let pdf = prepared.pdf().to_vec();
    let t = text(&pdf);
    let xref_at = t.rfind("\nxref\n").unwrap();
    let startxref: usize = t[t.rfind("startxref\n").unwrap() + 10..].trim().trim_end_matches("%%EOF").trim().parse().unwrap();
    assert_eq!(startxref, xref_at);
    let sig_at = t.find("4 0 obj\n").unwrap();
    let line = format!("{:010} {:05} n \n", sig_at, 0);
    assert!(t.contains(&line));
    let cat_at = t.rfind("1 0 obj\n").unwrap();
    assert!(t.contains(&format!("{:010} {:05} n \n", cat_at, 0)));
}

#[test]
fn embedding_keeps_the_signed_bytes() {
    let original = sample_pdf();
    let n = allocate_object_numbers(&original, false).ok().unwrap();
    let prepared = prepare_signature(&original, &n, &parts(None)).ok().unwrap();
    let before = prepared.pdf().to_vec();
    let (b1, b2, _) = prepared.byte_range();
    let signed = prepared.signed_bytes();
    let out = prepared.embed(&[0x30, 0x82, 0xAB]).ok().unwrap();
    assert_eq!(out.len(), before.len());
    assert_eq!(&out[..b1], &before[..b1]);
    assert_eq!(&out[b2..], &before[b2..]);
    let mut again = out[..b1].to_vec();
    again.extend_from_slice(&out[b2..]);
    assert_eq!(again, signed);
    assert_eq!(out[b1], b'<');
    assert_eq!(&out[b1 + 1..b1 + 7], b"3082AB");
    assert!(out[b1 + 7..b1 + 1 + HEX_LEN].iter().all(|&c| c == b'0'));
    assert_eq!(out[b2 - 1], b'>');
    assert_eq!(b2, b1 + HEX_LEN + 2);
    assert_eq!(&out[..original.len()], &original[..]);
}

#[test]
fn an_empty_signature_keeps_the_brackets() {
    let original = sample_pdf();
    let n = allocate_object_numbers(&original, false).ok().unwrap();
    let prepared = prepare_signature(&original, &n, &parts(None)).ok().unwrap();
    let (b1, b2, _) = prepared.byte_range();
    let out = prepared.embed(&[]).ok().unwrap();
    assert_eq!(out[b1], b'<');
    assert_eq!(out[b2 - 1], b'>');
    assert!(out[b1 + 1..b2 - 1].iter().all(|&c| c == b'0'));
}

#[test]
fn embedding_refuses_an_oversized_signature() {
    let original = sample_pdf();
    let n = allocate_object_numbers(&original, false).ok().unwrap();
    let prepared = prepare_signature(&original, &n, &parts(None)).ok().unwrap();
    let cms = vec![1u8; SIG_BYTES + 1];
    match prepared.embed(&cms) {
        Err(e) => {
            assert!(matches!(e, PdfSignError::SignatureTooLarge { len } if len == SIG_BYTES + 1));
            assert_eq!(
                e.message(),
                "Assinatura CMS tem 12289 bytes; limite reservado e 12288. Aumente SIG_BYTES e recompile."
            );
        }
        Ok(_) => panic!("an oversized signature must be refused"),
    }
}

#[test]
fn a_full_signature_fills_the_reserved_digits() {
    let original = sample_pdf();
    let n = allocate_object_numbers(&original, false).ok().unwrap();
    let prepared = prepare_signature(&original, &n, &parts(None)).ok().unwrap();
    let (b1, b2, _) = prepared.byte_range();
    let out = prepared.embed(&vec![0xFFu8; SIG_BYTES]).ok().unwrap();
    assert_eq!(out[b1], b'<');
    assert!(out[b1 + 1..b1 + 1 + HEX_LEN].iter().all(|&c| c == b'F'));
    assert_eq!(out[b2 - 1], b'>');
}

#[test]
fn visible_signature_adds_font_and_appearance() {
    let original = sample_pdf();
    let n = allocate_object_numbers(&original, true).ok().unwrap();
    let ap = AppearanceParts { bbox: "220.00 72.00".to_string(), stream: "q\nQ\n".to_string() };
    let prepared = prepare_signature(&original, &n, &parts(Some(ap))).ok().unwrap();
    let t = text(prepared.pdf());
    assert!(t.contains("/F 4\n/AP << /N 8 0 R >>\n"));
    assert!(t.contains("7 0 obj\n<<\n/Type /Font\n/Subtype /Type1\n/BaseFont /Helvetica\n>>\nendobj\n"));
    assert!(t.contains("8 0 obj\n<<\n/Type /XObject\n/Subtype /Form\n/BBox [0 0 220.00 72.00]\n/Resources << /Font << /F1 7 0 R >> >>\n/Length 4\n>>\nstream\nq\nQ\n\nendstream\nendobj\n"));
    assert!(t.contains("/Size 9\n"));
    assert!(t.contains("\n3 6\n"));
}

#[test]
fn text_helpers_escape_and_truncate() {
    assert_eq!(escape_pdf_literal("a(b)c\\d"), "a\\(b\\)c\\\\d");
    assert_eq!(escape_pdf_literal("plain"), "plain");
    assert_eq!(truncate_text("abcdef", 3), "abc");
    assert_eq!(truncate_text("ab", 3), "ab");
    assert_eq!(truncate_text("ação", 2), "aç");
}

#[test]
fn appearance_stream_writes_three_lines() {
    let s = appearance_stream("220.00", "72.00", "54.00", "  Fulano (Teste)  ", "02/01/2024 03:04:05 UTC");
    assert_eq!(
        s,
        "q\n1 1 0.93 rg\n0 0 220.00 72.00 re\nf\n0 0 0 RG\n1 w\n0 0 220.00 72.00 re\nS\nBT\n/F1 11 Tf\n0 0 0 rg\n8 54.00 Td\n(Assinado digitalmente) Tj\n0 -15 Td\n(Assinante: Fulano \\(Teste\\)) Tj\n0 -15 Td\n(Data/Hora: 02/01/2024 03:04:05 UTC) Tj\nET\nQ\n"
    );
    let long = "x".repeat(100);
    let s = appearance_stream("1", "2", "3", &long, "t");
    let expected_line = format!("(Assinante: {}) Tj", "x".repeat(69));
    assert!(s.contains(&expected_line));
}

#[test]
fn signing_times_are_written_by_chrono() {
    assert_eq!(pdf_date_text(0).as_deref(), Some("19700101000000+00'00'"));
    assert_eq!(pdf_date_text(1_704_164_645).as_deref(), Some("20240102030405+00'00'"));
    assert_eq!(appearance_time_text(1_704_164_645).as_deref(), Some("02/01/2024 03:04:05 UTC"));
    assert_eq!(pdf_date_text(253_402_300_799).as_deref(), Some("99991231235959+00'00'"));
}
