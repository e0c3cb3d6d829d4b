use assinador_livre::pdf::{ObjectNumbers, PdfSignError};
use assinador_livre::pdf_structure::{first_page_media_box, signature_update_parts};
use lopdf::{Dictionary, Document, Object};

fn numbers() -> ObjectNumbers {
    ObjectNumbers { signature: 7, field: 8, acro_form: 9, font: None, appearance: None, size: 10 }
}

fn name(n: &str) -> Object {
    Object::Name(n.as_bytes().to_vec())
}

/// Pages tree 1, page 2, catalog 3; with `form`, a field 4 listed in an
/// AcroForm 5 and among the page's annotations.
fn built_pdf(form: bool, with_page: bool) -> Vec<u8> {
    let mut doc = Document::with_version("1.4");
    let pages_id = doc.new_object_id();
    let mut page = Dictionary::new();
    page.set("Type", name("Page"));
    page.set("Parent", Object::Reference(pages_id));
    page.set(
        "MediaBox",
        Object::Array(vec![Object::Integer(0), Object::Integer(0), Object::Integer(595), Object::Integer(842)]),
    );
    if form {
        page.set("Annots", Object::Array(vec![Object::Reference((4, 0))]));
    }
    let page_id = doc.add_object(Object::Dictionary(page));
    let mut pages = Dictionary::new();
    pages.set("Type", name("Pages"));
    let kids = if with_page { vec![Object::Reference(page_id)] } else { Vec::new() };
    pages.set("Count", Object::Integer(kids.len() as i64));
    pages.set("Kids", Object::Array(kids));
    doc.objects.insert(pages_id, Object::Dictionary(pages));
    let mut catalog = Dictionary::new();
    catalog.set("Type", name("Catalog"));
    catalog.set("Pages", Object::Reference(pages_id));
    let catalog_id = doc.add_object(Object::Dictionary(catalog));
    if form {
        let mut field = Dictionary::new();
        field.set("FT", name("Tx"));
        let field_id = doc.add_object(Object::Dictionary(field));
        let mut acro = Dictionary::new();
        acro.set("Fields", Object::Array(vec![Object::Reference(field_id)]));
        let acro_id = doc.add_object(Object::Dictionary(acro));
        if let Ok(Object::Dictionary(c)) = doc.get_object_mut(catalog_id) {
            c.set("AcroForm", Object::Reference(acro_id));
        }
    }
    doc.trailer.set("Root", Object::Reference(catalog_id));
    let mut out = Vec::new();
    doc.save_to(&mut out).unwrap();
    out
}

#[test]
fn parts_of_a_document_without_form() {
    let pdf = built_pdf(false, true);
    let parts = signature_update_parts(&pdf, &numbers(), "0.00 0.00 0.00 0.00".to_string(), "20240102030405+00'00'".to_string(), None).unwrap();
    assert_eq!(parts.catalog_id, (3, 0));
    assert_eq!(parts.page_id, (2, 0));
    assert_eq!(parts.fields, vec!["8 0 R".to_string()]);
    assert_eq!(parts.catalog_dictionary, "<</Type /Catalog/Pages 1 0 R/AcroForm 9 0 R>>");
    assert_eq!(parts.page_dictionary, "<</Type /Page/Parent 1 0 R/MediaBox [0 0 595 842]/Annots [8 0 R]>>");
    assert_eq!(parts.widget_rect, "0.00 0.00 0.00 0.00");
    assert_eq!(parts.signing_time, "20240102030405+00'00'");
    assert!(parts.appearance.is_none());
}

#[test]
fn existing_fields_and_annotations_are_kept() {
    let pdf = built_pdf(true, true);
    let parts = signature_update_parts(&pdf, &numbers(), "1 2 3 4".to_string(), "x".to_string(), None).unwrap();
    assert_eq!(parts.fields, vec!["4 0 R".to_string(), "8 0 R".to_string()]);
    assert_eq!(parts.page_dictionary, "<</Type /Page/Parent 1 0 R/MediaBox [0 0 595 842]/Annots [4 0 R 8 0 R]>>");
    assert_eq!(parts.catalog_dictionary, "<</Type /Catalog/Pages 1 0 R/AcroForm 9 0 R>>");
}

#[test]
fn unreadable_document_has_no_catalog() {
    let r = signature_update_parts(b"not a pdf", &numbers(), String::new(), String::new(), None);
    assert!(matches!(r, Err(PdfSignError::MissingCatalog)));
    assert_eq!(PdfSignError::MissingCatalog.message(), "/Catalog nao encontrado");
}

#[test]
fn document_without_pages_has_no_first_page() {
    let pdf = built_pdf(false, false);
    let r = signature_update_parts(&pdf, &numbers(), String::new(), String::new(), None);
    assert!(matches!(r, Err(PdfSignError::MissingFirstPage)));
    assert_eq!(PdfSignError::MissingFirstPage.message(), "PDF nao possui paginas");
}

/// Page 2 whose `/Annots` refers to array 4; catalog 3 with an inline
/// AcroForm listing field 5.
fn referenced_annots_pdf() -> Vec<u8> {
    let mut doc = Document::with_version("1.4");
    let pages_id = doc.new_object_id();
    let mut page = Dictionary::new();
    page.set("Type", name("Page"));
    page.set("Parent", Object::Reference(pages_id));
    page.set("Annots", Object::Reference((4, 0)));
    let page_id = doc.add_object(Object::Dictionary(page));
    let mut pages = Dictionary::new();
    pages.set("Type", name("Pages"));
    pages.set("Kids", Object::Array(vec![Object::Reference(page_id)]));
    pages.set("Count", Object::Integer(1));
    doc.objects.insert(pages_id, Object::Dictionary(pages));
    let mut acro = Dictionary::new();
    acro.set("Fields", Object::Array(vec![Object::Reference((5, 0))]));
    let mut catalog = Dictionary::new();
    catalog.set("Type", name("Catalog"));
    catalog.set("AcroForm", Object::Dictionary(acro));
    catalog.set("Pages", Object::Reference(pages_id));
    let catalog_id = doc.add_object(Object::Dictionary(catalog));
    let annots_id = doc.add_object(Object::Array(vec![Object::Reference((6, 0))]));
    assert_eq!(annots_id, (4, 0));
    let mut field = Dictionary::new();
    field.set("FT", name("Tx"));
    doc.add_object(Object::Dictionary(field));
    doc.trailer.set("Root", Object::Reference(catalog_id));
    let mut out = Vec::new();
    doc.save_to(&mut out).unwrap();
    out
}

#[test]
fn referenced_annotations_and_inline_form_are_followed() {
    let pdf = referenced_annots_pdf();
    let parts = signature_update_parts(&pdf, &numbers(), String::new(), String::new(), None).unwrap();
    assert_eq!(parts.page_dictionary, "<</Type /Page/Parent 1 0 R/Annots [6 0 R 8 0 R]>>");
    assert_eq!(parts.fields, vec!["5 0 R".to_string(), "8 0 R".to_string()]);
    assert_eq!(parts.catalog_dictionary, "<</Type /Catalog/AcroForm 9 0 R/Pages 1 0 R>>");
}

#[test]
fn media_box_of_the_first_page() {
    let pdf = built_pdf(false, true);
    assert_eq!(first_page_media_box(&pdf).unwrap(), vec!["0", "0", "595", "842"]);
}

/// Pages 1 holding `media_box` (directly, or through object 4) and, when
/// `cycle`, a `/Parent` back to page 2; page 2 without a box of its own.
fn inherited_pdf(media_box: Option<Object>, by_reference: bool, cycle: bool) -> Vec<u8> {
    let mut doc = Document::with_version("1.4");
    let pages_id = doc.new_object_id();
    let mut page = Dictionary::new();
    page.set("Type", name("Page"));
    page.set("Parent", Object::Reference(pages_id));
    let page_id = doc.add_object(Object::Dictionary(page));
    let mut pages = Dictionary::new();
    pages.set("Type", name("Pages"));
    pages.set("Kids", Object::Array(vec![Object::Reference(page_id)]));
    pages.set("Count", Object::Integer(1));
    if cycle {
        pages.set("Parent", Object::Reference(page_id));
    }
    let mut catalog = Dictionary::new();
    catalog.set("Type", name("Catalog"));
    catalog.set("Pages", Object::Reference(pages_id));
    let catalog_id = doc.add_object(Object::Dictionary(catalog));
    if let Some(b) = media_box {
        if by_reference {
            let box_id = doc.add_object(b);
            pages.set("MediaBox", Object::Reference(box_id));
        } else {
            pages.set("MediaBox", b);
        }
    }
    doc.objects.insert(pages_id, Object::Dictionary(pages));
    doc.trailer.set("Root", Object::Reference(catalog_id));
    let mut out = Vec::new();
    doc.save_to(&mut out).unwrap();
    out
}

fn letter() -> Object {
    Object::Array(vec![Object::Integer(0), Object::Integer(0), Object::Integer(612), Object::Integer(792)])
}

#[test]
fn media_box_is_inherited_and_resolved() {
    assert_eq!(first_page_media_box(&inherited_pdf(Some(letter()), false, false)).unwrap(), vec!["0", "0", "612", "792"]);
    assert_eq!(first_page_media_box(&inherited_pdf(Some(letter()), true, false)).unwrap(), vec!["0", "0", "612", "792"]);
}

#[test]
fn media_box_errors() {
    assert!(matches!(first_page_media_box(&inherited_pdf(None, false, false)), Err(PdfSignError::MissingMediaBox)));
    assert!(matches!(first_page_media_box(&inherited_pdf(None, false, true)), Err(PdfSignError::MissingMediaBox)));
    let three = Object::Array(vec![Object::Integer(0), Object::Integer(0), Object::Integer(612)]);
    let r = first_page_media_box(&inherited_pdf(Some(three), false, false));
    assert!(matches!(r, Err(PdfSignError::MediaBoxWrongSize { len: 3 })));
    assert_eq!(PdfSignError::MediaBoxWrongSize { len: 3 }.message(), "Retangulo invalido: esperado 4 numeros, recebido 3");
    assert!(matches!(first_page_media_box(&inherited_pdf(Some(Object::Integer(1)), false, false)), Err(PdfSignError::MediaBoxNotArray)));
    assert!(matches!(first_page_media_box(b"not a pdf"), Err(PdfSignError::Unreadable)));
    assert_eq!(PdfSignError::Unreadable.message(), "Falha ao abrir PDF em memoria");
}
