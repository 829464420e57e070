use lopdf::{Dictionary, Document, Object};
use pdf_rendering::metadata::{add_pdf_metadata, info_dictionary, stamp, MetaData, MetadataError};

fn name(text: &str) -> Object {
    Object::Name(text.as_bytes().to_vec())
}

/// A one-page document whose object 1 is an information dictionary with a
/// title and an author.
fn written() -> Vec<u8> {
    let mut doc = Document::with_version("1.5");
    let mut info = Dictionary::new();
    info.set("Title", Object::string_literal("Old"));
    info.set("Author", Object::string_literal("X"));
    let info_id = doc.add_object(info);
    assert_eq!(info_id, (1, 0));
    let root_id = doc.new_object_id();
    let mut page = Dictionary::new();
    page.set("Type", name("Page"));
    page.set("Parent", root_id);
    let page_id = doc.add_object(page);
    let mut root = Dictionary::new();
    root.set("Type", name("Pages"));
    root.set("Count", 1);
    root.set("Kids", vec![Object::Reference(page_id)]);
    doc.objects.insert(root_id, Object::Dictionary(root));
    let mut catalog = Dictionary::new();
    catalog.set("Type", name("Catalog"));
    catalog.set("Pages", root_id);
    let catalog_id = doc.add_object(catalog);
    doc.trailer.set("Root", catalog_id);
    doc.trailer.set("Info", info_id);
    let mut bytes = Vec::new();
    doc.save_to(&mut bytes).unwrap();
    bytes
}

fn title(text: &str) -> MetaData {
    MetaData { title: Some(text.to_string()), creator: None, producer: None }
}

#[test]
fn info_dictionary_holds_the_given_fields_only() {
    let info = info_dictionary(&MetaData {
        title: Some("T".to_string()),
        creator: None,
        producer: Some("P".to_string()),
    });
    assert_eq!(info.len(), 2);
    assert_eq!(info.get(b"Title").unwrap(), &Object::string_literal("T"));
    assert_eq!(info.get(b"Producer").unwrap(), &Object::string_literal("P"));
    assert!(!info.has(b"Creator"));
}

#[test]
fn info_dictionary_of_all_fields() {
    let info = info_dictionary(&MetaData {
        title: Some("T".to_string()),
        creator: Some("C".to_string()),
        producer: Some("P".to_string()),
    });
    let keys: Vec<&[u8]> = info.iter().map(|(key, _)| key.as_slice()).collect();
    assert_eq!(keys, vec![&b"Title"[..], &b"Creator"[..], &b"Producer"[..]]);
    assert_eq!(info.get(b"Creator").unwrap(), &Object::string_literal("C"));
}

#[test]
fn info_dictionary_of_no_field_is_empty() {
    assert!(info_dictionary(&MetaData::default()).is_empty());
}

#[test]
fn info_dictionary_writes_text_as_utf8() {
    let info = info_dictionary(&title("Zürich"));
    assert_eq!(info.get(b"Title").unwrap().as_str().unwrap(), "Zürich".as_bytes());
}

#[test]
fn stamp_replaces_object_one() {
    let mut doc = Document::load_mem(&written()).unwrap();
    let before = doc.objects.len();
    stamp(&mut doc, &title("T"));
    assert_eq!(doc.objects.len(), before);
    let info = doc.get_dictionary((1, 0)).unwrap();
    assert_eq!(info.len(), 1);
    assert_eq!(info.get(b"Title").unwrap(), &Object::string_literal("T"));
}

#[test]
fn stamp_keeps_the_trailer_and_the_other_objects() {
    let mut doc = Document::load_mem(&written()).unwrap();
    let trailer = doc.trailer.clone();
    let others: Vec<(lopdf::ObjectId, Object)> =
        doc.objects.iter().filter(|(id, _)| **id != (1, 0)).map(|(i, o)| (*i, o.clone())).collect();
    stamp(&mut doc, &title("T"));
    assert_eq!(doc.trailer, trailer);
    for (id, object) in others {
        assert_eq!(doc.objects[&id], object);
    }
}

#[test]
fn stamp_adds_object_one_where_there_is_none() {
    let mut doc = Document::with_version("1.5");
    doc.objects.insert((2, 0), Object::Integer(5));
    stamp(&mut doc, &title("T"));
    assert_eq!(doc.objects.len(), 2);
    assert!(doc.get_dictionary((1, 0)).unwrap().has(b"Title"));
}

#[test]
fn stamping_replaces_the_information_in_full() {
    let stamped = add_pdf_metadata(written(), Some(title("T"))).unwrap();
    let doc = Document::load_mem(&stamped).unwrap();
    let info = doc.get_dictionary((1, 0)).unwrap();
    assert_eq!(info.len(), 1);
    assert_eq!(info.get(b"Title").unwrap().as_str().unwrap(), b"T");
    assert!(!info.has(b"Author"));
    assert_eq!(doc.get_pages().len(), 1);
}

#[test]
fn stamping_no_field_empties_the_information() {
    let stamped = add_pdf_metadata(written(), Some(MetaData::default())).unwrap();
    let doc = Document::load_mem(&stamped).unwrap();
    assert!(doc.get_dictionary((1, 0)).unwrap().is_empty());
}

#[test]
fn stamping_compresses_the_streams() {
    let mut doc = Document::load_mem(&written()).unwrap();
    let text = vec![b'B'; 4000];
    let content = doc.add_object(lopdf::Stream::new(Dictionary::new(), text.clone()));
    let mut plain = Vec::new();
    doc.save_to(&mut plain).unwrap();
    assert!(plain.len() > 4000);
    let stamped = add_pdf_metadata(plain, Some(title("T"))).unwrap();
    assert!(stamped.len() < 4000);
    let read = Document::load_mem(&stamped).unwrap();
    let stream = read.get_object(content).unwrap().as_stream().unwrap();
    assert_eq!(stream.decompressed_content().unwrap(), text);
}

#[test]
fn without_metadata_the_bytes_pass_through() {
    let bytes = written();
    assert_eq!(add_pdf_metadata(bytes.clone(), None), Ok(bytes));
    assert_eq!(add_pdf_metadata(vec![1, 2, 3], None), Ok(vec![1, 2, 3]));
    assert_eq!(add_pdf_metadata(Vec::new(), None), Ok(Vec::new()));
}

#[test]
fn stamping_what_is_no_pdf_fails() {
    assert_eq!(
        add_pdf_metadata(b"no pdf at all".to_vec(), Some(title("T"))),
        Err(MetadataError::Unreadable)
    );
    assert_eq!(add_pdf_metadata(Vec::new(), Some(title("T"))), Err(MetadataError::Unreadable));
}
