//! What the signature update takes from the document's own structure: the
//! catalog, the first page and the existing form fields, as lopdf reads
//! them, and the two dictionaries that the update rewrites, the first page
//! with the new widget among its annotations and the catalog pointing at the
//! new form.
use vstd::prelude::*;
use lopdf::{Document, Object};
use crate::pdf::{
    dec, join_seq, join_strings, strings_view, AppearanceParts, ObjectNumbers, PdfSignError,
    SignatureUpdateParts,
};
use crate::text::{equals, push_all};

verus! {

/// One entry of a PDF dictionary as plain values: its key, its value as
/// lopdf writes an object, the value's target when it is a reference, and
/// its items as lopdf writes them when it is an array.
pub struct PdfEntry {
    pub key: String,
    pub text: String,
    pub reference: Option<(u32, u16)>,
    pub items: Option<Vec<String>>,
}

pub type EntryView = (Seq<char>, Seq<char>, Option<(u32, u16)>, Option<Seq<Seq<char>>>);

pub open spec fn entry_view(e: PdfEntry) -> EntryView {
    (e.key@, e.text@, e.reference, match e.items {
        Some(v) => Some(strings_view(v@)),
        None => None,
    })
}

pub open spec fn entries_view(v: Seq<PdfEntry>) -> Seq<EntryView> {
    v.map_values(|e: PdfEntry| entry_view(e))
}

/// The catalog that lopdf finds for `pdf`: the `/Root` reference of the
/// trailer, when the document loads and that reference names a dictionary.
pub uninterp spec fn lopdf_root(pdf: Seq<u8>) -> Option<(u32, u16)>;

/// The first page that lopdf finds for `pdf`, when the document loads and
/// that page is a dictionary.
pub uninterp spec fn lopdf_first_page(pdf: Seq<u8>) -> Option<(u32, u16)>;

/// The entries of the dictionary that is object `id` of `pdf`, in order.
pub uninterp spec fn lopdf_dictionary(pdf: Seq<u8>, id: (u32, u16)) -> Option<
    Seq<(Seq<char>, Seq<char>, Option<(u32, u16)>, Option<Seq<Seq<char>>>)>,
>;

/// The entries of the dictionary held under `key` in the dictionary that is
/// object `owner` of `pdf`, in order.
pub uninterp spec fn lopdf_inline_dictionary(pdf: Seq<u8>, owner: (u32, u16), key: Seq<char>) -> Option<
    Seq<(Seq<char>, Seq<char>, Option<(u32, u16)>, Option<Seq<Seq<char>>>)>,
>;

/// The items of the array that is object `id` of `pdf`, each as lopdf
/// writes an object.
pub uninterp spec fn lopdf_array(pdf: Seq<u8>, id: (u32, u16)) -> Option<Seq<Seq<char>>>;

/// Whether lopdf loads `pdf`.
pub uninterp spec fn lopdf_loads(pdf: Seq<u8>) -> bool;

/// `Document::load_mem`: whether it loads the document. Where it does not,
/// there is neither catalog nor first page.
#[verifier::external_body]
fn document_loads(input: &[u8]) -> (r: bool)
    ensures
        r == lopdf_loads(input@),
        !r ==> lopdf_root(input@) is None && lopdf_first_page(input@) is None,
{
    Document::load_mem(input).is_ok()
}

/// `Document::load_mem`, then the trailer's `/Root` reference and the
/// catalog it names: the reference, when the catalog is a dictionary.
#[verifier::external_body]
fn read_root(input: &[u8]) -> (r: Option<(u32, u16)>)
    ensures
        r == lopdf_root(input@),
{
    let doc = Document::load_mem(input).ok()?;
    let id = doc.trailer.get(b"Root").ok()?.as_reference().ok()?;
    doc.get_object(id).ok()?.as_dict().ok()?;
    Some(id)
}

/// `Document::load_mem`, then the first entry of `get_pages`: its id, when
/// that object is a dictionary.
#[verifier::external_body]
fn read_first_page(input: &[u8]) -> (r: Option<(u32, u16)>)
    ensures
        r == lopdf_first_page(input@),
{
    let doc = Document::load_mem(input).ok()?;
    let id = doc.get_pages().into_iter().next()?.1;
    doc.get_object(id).ok()?.as_dict().ok()?;
    Some(id)
}

/// `Document::load_mem`, then `get_object(id)` as a dictionary: each entry's
/// key (read with `from_utf8_lossy`), its value written with lopdf's `Debug`,
/// `as_reference` and `as_array` of the value. It reads the same object as
/// `read_root` and `read_first_page`, so it gives entries wherever they give
/// that id.
#[verifier::external_body]
fn read_dictionary(input: &[u8], id: (u32, u16)) -> (r: Option<Vec<PdfEntry>>)
    ensures
        match r {
            Some(v) => lopdf_dictionary(input@, id) == Some(entries_view(v@)),
            None => lopdf_dictionary(input@, id) is None,
        },
        lopdf_root(input@) == Some(id) ==> r is Some,
        lopdf_first_page(input@) == Some(id) ==> r is Some,
{
    let doc = Document::load_mem(input).ok()?;
    let dict = doc.get_object(id).ok()?.as_dict().ok()?;
    Some(dict.iter().map(|(k, v)| PdfEntry {
        key: String::from_utf8_lossy(k).into_owned(),
        text: format!("{v:?}"),
        reference: v.as_reference().ok(),
        items: v.as_array().ok().map(|a| a.iter().map(|o| format!("{o:?}")).collect()),
    }).collect())
}

/// `Document::load_mem`, then `get_object(owner)` as a dictionary, its
/// value under `key` as a dictionary, and that dictionary's entries as in
/// `read_dictionary`.
#[verifier::external_body]
fn read_inline_dictionary(input: &[u8], owner: (u32, u16), key: &str) -> (r: Option<Vec<PdfEntry>>)
    ensures
        match r {
            Some(v) => lopdf_inline_dictionary(input@, owner, key@) == Some(entries_view(v@)),
            None => lopdf_inline_dictionary(input@, owner, key@) is None,
        },
{
    let doc = Document::load_mem(input).ok()?;
    let dict = doc.get_object(owner).ok()?.as_dict().ok()?.get(key.as_bytes()).ok()?.as_dict().ok()?;
    Some(dict.iter().map(|(k, v)| PdfEntry {
        key: String::from_utf8_lossy(k).into_owned(),
        text: format!("{v:?}"),
        reference: v.as_reference().ok(),
        items: v.as_array().ok().map(|a| a.iter().map(|o| format!("{o:?}")).collect()),
    }).collect())
}

/// `Document::load_mem`, then `get_object(id)` as an array: each item
/// written with lopdf's `Debug`.
#[verifier::external_body]
fn read_array(input: &[u8], id: (u32, u16)) -> (r: Option<Vec<String>>)
    ensures
        match r {
            Some(v) => lopdf_array(input@, id) == Some(strings_view(v@)),
            None => lopdf_array(input@, id) is None,
        },
{
    let doc = Document::load_mem(input).ok()?;
    let items = doc.get_object(id).ok()?.as_array().ok()?;
    Some(items.iter().map(|o| format!("{o:?}")).collect())
}

/// lopdf's `Debug` of `Object::Reference((num, 0))`: `{num} 0 R`.
#[verifier::external_body]
fn reference_text(num: u32) -> (r: String)
    ensures
        r@ == reference_seq(num),
{
    format!("{:?}", Object::Reference((num, 0)))
}

/// A reference to object `num`, generation 0, as lopdf writes it.
pub open spec fn reference_seq(num: u32) -> Seq<char> {
    dec(num as nat) + " 0 R"@
}

/// Where `key` stands among `entries` (the keys of a dictionary are
/// distinct).
pub open spec fn key_position(entries: Seq<EntryView>, key: Seq<char>) -> Option<int>
    decreases entries.len(),
{
    if entries.len() == 0 {
        None
    } else if entries.last().0 == key {
        Some(entries.len() - 1)
    } else {
        key_position(entries.drop_last(), key)
    }
}

/// Each entry as its key and the text of its value.
pub open spec fn pairs(entries: Seq<EntryView>) -> Seq<(Seq<char>, Seq<char>)> {
    entries.map_values(|e: EntryView| (e.0, e.1))
}

/// The entries with `key` set to `value`: in its place when the key is
/// there, else last.
pub open spec fn with_entry(entries: Seq<EntryView>, key: Seq<char>, value: Seq<char>) -> Seq<
    (Seq<char>, Seq<char>),
> {
    match key_position(entries, key) {
        Some(i) => pairs(entries).update(i, (key, value)),
        None => pairs(entries).push((key, value)),
    }
}

pub open spec fn entry_line(kv: (Seq<char>, Seq<char>)) -> Seq<char> {
    "/"@ + kv.0 + " "@ + kv.1
}

pub open spec fn entry_lines(kvs: Seq<(Seq<char>, Seq<char>)>) -> Seq<char>
    decreases kvs.len(),
{
    if kvs.len() == 0 {
        Seq::empty()
    } else {
        entry_lines(kvs.drop_last()) + entry_line(kvs.last())
    }
}

/// A dictionary as lopdf writes it: `<<`, `/key value` for each entry,
/// `>>`.
pub open spec fn dictionary_text(kvs: Seq<(Seq<char>, Seq<char>)>) -> Seq<char> {
    "<<"@ + entry_lines(kvs) + ">>"@
}

/// An array as lopdf writes it: its items separated by spaces, in brackets.
pub open spec fn array_text(items: Seq<Seq<char>>) -> Seq<char> {
    "["@ + join_seq(items, " "@) + "]"@
}

/// The annotations of a page: its `/Annots` array, or the array that
/// `/Annots` refers to; none where it is neither.
pub open spec fn annots_of(pdf: Seq<u8>, page: Seq<EntryView>) -> Seq<Seq<char>> {
    match key_position(page, "Annots"@) {
        Some(i) => match page[i].3 {
            Some(items) => items,
            None => match page[i].2 {
                Some(id) => match lopdf_array(pdf, id) {
                    Some(a) => a,
                    None => Seq::empty(),
                },
                None => Seq::empty(),
            },
        },
        None => Seq::empty(),
    }
}

/// The first page's dictionary after the update: its annotations with a
/// reference to the widget `field` last.
pub open spec fn page_text(pdf: Seq<u8>, page: Seq<EntryView>, field: u32) -> Seq<char> {
    dictionary_text(with_entry(page, "Annots"@, array_text(annots_of(pdf, page).push(reference_seq(field)))))
}

/// The catalog's dictionary after the update: `/AcroForm` refers to the
/// new form `acro_form`.
pub open spec fn catalog_text(catalog: Seq<EntryView>, acro_form: u32) -> Seq<char> {
    dictionary_text(with_entry(catalog, "AcroForm"@, reference_seq(acro_form)))
}

/// The catalog's form: the dictionary that `/AcroForm` refers to, or the one
/// it holds.
pub open spec fn acroform_of(pdf: Seq<u8>, root: (u32, u16), catalog: Seq<EntryView>) -> Option<Seq<EntryView>> {
    match key_position(catalog, "AcroForm"@) {
        Some(i) => match catalog[i].2 {
            Some(id) => lopdf_dictionary(pdf, id),
            None => lopdf_inline_dictionary(pdf, root, "AcroForm"@),
        },
        None => None,
    }
}

/// The fields the document has: the `/Fields` array of its form; none where
/// there is no such array.
pub open spec fn existing_fields(pdf: Seq<u8>, root: (u32, u16), catalog: Seq<EntryView>) -> Seq<Seq<char>> {
    match acroform_of(pdf, root, catalog) {
        Some(form) => match key_position(form, "Fields"@) {
            Some(i) => match form[i].3 {
                Some(items) => items,
                None => Seq::empty(),
            },
            None => Seq::empty(),
        },
        None => Seq::empty(),
    }
}

/// What the signature update takes from `pdf` and from the caller. Of the
/// document's pages only the first is rewritten, and it gains the widget;
/// the catalog is rewritten to point at the new form, whose fields are the
/// document's own followed by the widget.
pub open spec fn parts_match(
    pdf: Seq<u8>,
    numbers: ObjectNumbers,
    widget_rect: Seq<char>,
    signing_time: Seq<char>,
    appearance: Option<AppearanceParts>,
    p: SignatureUpdateParts,
) -> bool {
    &&& lopdf_root(pdf) == Some(p.catalog_id)
    &&& lopdf_first_page(pdf) == Some(p.page_id)
    &&& lopdf_dictionary(pdf, p.catalog_id) matches Some(catalog)
    &&& lopdf_dictionary(pdf, p.page_id) matches Some(page)
    &&& p.catalog_dictionary@ == catalog_text(catalog, numbers.acro_form)
    &&& p.page_dictionary@ == page_text(pdf, page, numbers.field)
    &&& strings_view(p.fields@) == existing_fields(pdf, p.catalog_id, catalog).push(reference_seq(numbers.field))
    &&& p.signing_time@ == signing_time
    &&& p.widget_rect@ == widget_rect
    &&& p.appearance == appearance
}

/// Where `key` stands among `entries`.
fn find_key(entries: &Vec<PdfEntry>, key: &str) -> (r: Option<usize>)
    ensures
        match r {
            Some(i) => key_position(entries_view(entries@), key@) == Some(i as int) && i < entries@.len(),
            None => key_position(entries_view(entries@), key@) is None,
        },
{
    let ghost ev = entries_view(entries@);
    let mut found: Option<usize> = None;
    let mut i: usize = 0;
    while i < entries.len()
        invariant
            i <= entries@.len(),
            ev == entries_view(entries@),
            match found {
                Some(j) => key_position(ev.take(i as int), key@) == Some(j as int) && j < i,
                None => key_position(ev.take(i as int), key@) is None,
            },
        decreases entries.len() - i,
    {
        assert(ev.take(i + 1).drop_last() =~= ev.take(i as int));
        assert(ev.take(i + 1).last() == entry_view(entries@[i as int]));
        if equals(entries[i].key.as_str(), key) {
            found = Some(i);
        }
        i = i + 1;
    }
    assert(ev.take(i as int) =~= ev);
    found
}

/// A copy of `v`.
fn copy_strings(v: &Vec<String>) -> (r: Vec<String>)
    ensures
        strings_view(r@) == strings_view(v@),
{
    let mut out: Vec<String> = Vec::new();
    let mut i: usize = 0;
    while i < v.len()
        invariant
            i <= v@.len(),
            strings_view(out@) =~= strings_view(v@).take(i as int),
        decreases v.len() - i,
    {
        let ghost before = strings_view(out@);
        let c = v[i].clone();
        assert(c@ == v@[i as int]@);
        out.push(c);
        assert(strings_view(out@) =~= before.push(v@[i as int]@));
        assert(strings_view(v@).take(i + 1) =~= strings_view(v@).take(i as int).push(v@[i as int]@));
        i = i + 1;
    }
    assert(strings_view(v@).take(i as int) =~= strings_view(v@));
    out
}

/// The items of the array held under `key`, or none.
fn items_under(entries: &Vec<PdfEntry>, key: &str) -> (r: Vec<String>)
    ensures
        strings_view(r@) == match key_position(entries_view(entries@), key@) {
            Some(i) => match entries_view(entries@)[i].3 {
                Some(items) => items,
                None => Seq::empty(),
            },
            None => Seq::<Seq<char>>::empty(),
        },
{
    match find_key(entries, key) {
        Some(i) => match &entries[i].items {
            Some(v) => copy_strings(v),
            None => {
                let empty: Vec<String> = Vec::new();
                assert(strings_view(empty@) =~= Seq::<Seq<char>>::empty());
                empty
            },
        },
        None => {
            let empty: Vec<String> = Vec::new();
            assert(strings_view(empty@) =~= Seq::<Seq<char>>::empty());
            empty
        },
    }
}

/// The dictionary `entries` with `key` set to `value`, as lopdf writes it.
fn dictionary_with(entries: &Vec<PdfEntry>, key: &str, value: &str) -> (r: String)
    ensures
        r@ == dictionary_text(with_entry(entries_view(entries@), key@, value@)),
{
    let ghost ev = entries_view(entries@);
    let pos = find_key(entries, key);
    let ghost pi: int = match pos {
        Some(p) => p as int,
        None => -1,
    };
    let ghost kvs = match pos {
        Some(p) => pairs(ev).update(p as int, (key@, value@)),
        None => pairs(ev),
    };
    assert forall|j: int| 0 <= j < entries@.len() implies #[trigger] kvs[j] == if j == pi {
        (key@, value@)
    } else {
        (entries@[j].key@, entries@[j].text@)
    } by {
        assert(ev[j] == entry_view(entries@[j]));
        assert(pairs(ev)[j] == (ev[j].0, ev[j].1));
    }
    let mut t = String::from_str("<<");
    let mut i: usize = 0;
    while i < entries.len()
        invariant
            i <= entries@.len(),
            ev == entries_view(entries@),
            kvs.len() == entries@.len(),
            pi == (match pos {
                Some(p) => p as int,
                None => -1,
            }),
            forall|j: int|
                0 <= j < entries@.len() ==> #[trigger] kvs[j] == if j == pi {
                    (key@, value@)
                } else {
                    (entries@[j].key@, entries@[j].text@)
                },
            t@ == "<<"@ + entry_lines(kvs.take(i as int)),
        decreases entries.len() - i,
    {
        let ghost before = t@;
        push_all(&mut t, "/");
        if pos == Some(i) {
            push_all(&mut t, key);
            push_all(&mut t, " ");
            push_all(&mut t, value);
        } else {
            push_all(&mut t, entries[i].key.as_str());
            push_all(&mut t, " ");
            push_all(&mut t, entries[i].text.as_str());
        }
        assert(kvs.take(i + 1).drop_last() =~= kvs.take(i as int));
        assert(kvs.take(i + 1).last() == kvs[i as int]);
        assert(t@ =~= before + entry_line(kvs[i as int]));
        i = i + 1;
    }
    assert(kvs.take(i as int) =~= kvs);
    if pos.is_none() {
        let ghost before = t@;
        push_all(&mut t, "/");
        push_all(&mut t, key);
        push_all(&mut t, " ");
        push_all(&mut t, value);
        assert(kvs.push((key@, value@)).drop_last() =~= kvs);
        assert(t@ =~= before + entry_line((key@, value@)));
    }
    push_all(&mut t, ">>");
    proof {
        match pos {
            Some(p) => {
                assert(with_entry(ev, key@, value@) =~= kvs);
            },
            None => {
                assert(with_entry(ev, key@, value@) =~= kvs.push((key@, value@)));
            },
        }
    }
    t
}

/// The parts of the signature update that come from the document: its
/// catalog, its first page with the new widget among its annotations, its
/// form fields with the new one last, and its catalog pointing at the new
/// form. Fails when lopdf finds no catalog, then when it finds no first
/// page.
pub fn signature_update_parts(
    input: &[u8],
    numbers: &ObjectNumbers,
    widget_rect: String,
    signing_time: String,
    appearance: Option<AppearanceParts>,
) -> (r: Result<SignatureUpdateParts, PdfSignError>)
    ensures
        r is Ok <==> (lopdf_root(input@) is Some && lopdf_first_page(input@) is Some),
        lopdf_root(input@) is None ==> r matches Err(PdfSignError::MissingCatalog),
        lopdf_root(input@) is Some && lopdf_first_page(input@) is None ==> r matches Err(
            PdfSignError::MissingFirstPage,
        ),
        r matches Ok(p) ==> parts_match(input@, *numbers, widget_rect@, signing_time@, appearance, p),
{
    let ghost rect = widget_rect@;
    let ghost time = signing_time@;
    let ghost look = appearance;
    let catalog_id = match read_root(input) {
        Some(id) => id,
        None => return Err(PdfSignError::MissingCatalog),
    };
    let page_id = match read_first_page(input) {
        Some(id) => id,
        None => return Err(PdfSignError::MissingFirstPage),
    };
    let catalog = match read_dictionary(input, catalog_id) {
        Some(v) => v,
        None => return Err(PdfSignError::MissingCatalog),
    };
    let page = match read_dictionary(input, page_id) {
        Some(v) => v,
        None => return Err(PdfSignError::MissingFirstPage),
    };
    let ghost cv = entries_view(catalog@);
    let ghost pv = entries_view(page@);

    // The page's annotations, with the widget last.
    let mut annots = match find_key(&page, "Annots") {
        Some(i) => match &page[i].items {
            Some(v) => copy_strings(v),
            None => match page[i].reference {
                Some(id) => match read_array(input, id) {
                    Some(a) => a,
                    None => Vec::new(),
                },
                None => Vec::new(),
            },
        },
        None => Vec::new(),
    };
    assert(strings_view(annots@) =~= annots_of(input@, pv));
    let ghost before_annots = strings_view(annots@);
    annots.push(reference_text(numbers.field));
    assert(strings_view(annots@) =~= before_annots.push(reference_seq(numbers.field)));
    let mut list = String::from_str("[");
    let joined = join_strings(&annots, " ");
    push_all(&mut list, joined.as_str());
    push_all(&mut list, "]");
    let page_dictionary = dictionary_with(&page, "Annots", list.as_str());
    let acro_ref = reference_text(numbers.acro_form);
    let catalog_dictionary = dictionary_with(&catalog, "AcroForm", acro_ref.as_str());

    // The form's fields, with the widget last.
    let form = match find_key(&catalog, "AcroForm") {
        Some(i) => match catalog[i].reference {
            Some(id) => read_dictionary(input, id),
            None => read_inline_dictionary(input, catalog_id, "AcroForm"),
        },
        None => None,
    };
    assert(match form {
        Some(f) => acroform_of(input@, catalog_id, cv) == Some(entries_view(f@)),
        None => acroform_of(input@, catalog_id, cv) is None,
    });
    let mut fields = match &form {
        Some(f) => items_under(f, "Fields"),
        None => Vec::new(),
    };
    assert(strings_view(fields@) =~= existing_fields(input@, catalog_id, cv));
    let ghost before_fields = strings_view(fields@);
    fields.push(reference_text(numbers.field));
    assert(strings_view(fields@) =~= before_fields.push(reference_seq(numbers.field)));
    let p = SignatureUpdateParts {
        catalog_id,
        page_id,
        signing_time,
        widget_rect,
        fields,
        page_dictionary,
        catalog_dictionary,
        appearance,
    };
    assert(p.signing_time@ == time);
    assert(p.widget_rect@ == rect);
    assert(p.appearance == look);
    Ok(p)
}

/// How many page tree nodes, the first page included, are searched for a
/// `/MediaBox`; a longer `/Parent` chain is taken for a loop.
pub const PAGE_TREE_DEPTH: usize = 64;

/// The `/MediaBox` found from page tree node `id` up its `/Parent` chain,
/// with at most `fuel` nodes visited: the node's own, or else its parent's.
/// An array given by reference is resolved; it must hold four items.
pub open spec fn media_box_walk(pdf: Seq<u8>, id: (u32, u16), fuel: nat) -> Result<Seq<Seq<char>>, PdfSignError>
    decreases fuel,
{
    if fuel == 0 {
        Err(PdfSignError::MissingMediaBox)
    } else {
        match lopdf_dictionary(pdf, id) {
            None => Err(PdfSignError::MissingPageObject),
            Some(node) => match key_position(node, "MediaBox"@) {
                Some(i) => {
                    let items = match node[i].2 {
                        Some(target) => lopdf_array(pdf, target),
                        None => node[i].3,
                    };
                    match items {
                        None => Err(PdfSignError::MediaBoxNotArray),
                        Some(a) => if a.len() == 4 {
                            Ok(a)
                        } else {
                            Err(PdfSignError::MediaBoxWrongSize { len: a.len() as usize })
                        },
                    }
                },
                None => match key_position(node, "Parent"@) {
                    Some(j) => match node[j].2 {
                        Some(parent) => media_box_walk(pdf, parent, (fuel - 1) as nat),
                        None => Err(PdfSignError::MissingMediaBox),
                    },
                    None => Err(PdfSignError::MissingMediaBox),
                },
            },
        }
    }
}

/// The first page's `/MediaBox`, its four items as lopdf writes them; the
/// document must load and have a catalog and a first page.
pub open spec fn media_box_items_spec(pdf: Seq<u8>) -> Result<Seq<Seq<char>>, PdfSignError> {
    if !lopdf_loads(pdf) {
        Err(PdfSignError::Unreadable)
    } else if lopdf_root(pdf) is None {
        Err(PdfSignError::MissingCatalog)
    } else {
        match lopdf_first_page(pdf) {
            None => Err(PdfSignError::MissingFirstPage),
            Some(page) => media_box_walk(pdf, page, PAGE_TREE_DEPTH as nat),
        }
    }
}

/// The four items of the first page's `/MediaBox`, its own or inherited
/// from a parent, as lopdf writes them.
pub fn first_page_media_box(input: &[u8]) -> (r: Result<Vec<String>, PdfSignError>)
    ensures
        match media_box_items_spec(input@) {
            Ok(items) => r matches Ok(v) && strings_view(v@) == items,
            Err(e) => r matches Err(f) && f == e,
        },
{
    if !document_loads(input) {
        return Err(PdfSignError::Unreadable);
    }
    if read_root(input).is_none() {
        return Err(PdfSignError::MissingCatalog);
    }
    let page = match read_first_page(input) {
        Some(id) => id,
        None => return Err(PdfSignError::MissingFirstPage),
    };
    let mut current = page;
    let mut steps: usize = 0;
    while steps < PAGE_TREE_DEPTH
        invariant
            steps <= PAGE_TREE_DEPTH,
            lopdf_loads(input@),
            lopdf_root(input@) is Some,
            lopdf_first_page(input@) == Some(page),
            media_box_walk(input@, page, PAGE_TREE_DEPTH as nat) == media_box_walk(
                input@,
                current,
                (PAGE_TREE_DEPTH - steps) as nat,
            ),
        decreases PAGE_TREE_DEPTH - steps,
    {
        let ghost fuel = (PAGE_TREE_DEPTH - steps) as nat;
        assert(fuel > 0);
        let node = match read_dictionary(input, current) {
            Some(d) => d,
            None => {
                assert(media_box_walk(input@, current, fuel) == Err::<Seq<Seq<char>>, PdfSignError>(
                    PdfSignError::MissingPageObject,
                ));
                return Err(PdfSignError::MissingPageObject);
            },
        };
        let ghost nv = entries_view(node@);
        assert(lopdf_dictionary(input@, current) == Some(nv));
        match find_key(&node, "MediaBox") {
            Some(i) => {
                assert(nv[i as int] == entry_view(node@[i as int]));
                let items = match node[i].reference {
                    Some(target) => read_array(input, target),
                    None => match &node[i].items {
                        Some(v) => Some(copy_strings(v)),
                        None => None,
                    },
                };
                return match items {
                    None => Err(PdfSignError::MediaBoxNotArray),
                    Some(a) => if a.len() == 4 {
                        Ok(a)
                    } else {
                        Err(PdfSignError::MediaBoxWrongSize { len: a.len() })
                    },
                };
            },
            None => match find_key(&node, "Parent") {
                Some(j) => match {
                    assert(nv[j as int] == entry_view(node@[j as int]));
                    node[j].reference
                } {
                    Some(parent) => {
                        current = parent;
                    },
                    None => return Err(PdfSignError::MissingMediaBox),
                },
                None => return Err(PdfSignError::MissingMediaBox),
            },
        }
        steps = steps + 1;
    }
    Err(PdfSignError::MissingMediaBox)
}

} // verus!
