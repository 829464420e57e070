//! The metadata stamper: it replaces the information dictionary of a written
//! document.

use vstd::prelude::*;
use vstd::utf8::encode_utf8;
use crate::pdf::{
    compressed, dict_from_list, dict_of, dictionary_from, dictionary_object, doc_compress,
    doc_insert,
    doc_parse, doc_save, entries_of, literal_of, object_from_dict, object_literal, objects_of,
    pairs_of, parsed, saved, set_in_turn, trailer_reference_of, with_object, ObjectId,
};

verus! {

/// What a caller wants stamped onto a document. Only the fields that are
/// given are written.
#[derive(Clone, Debug, Default, PartialEq, Eq)]
pub struct MetaData {
    pub title: Option<String>,
    pub creator: Option<String>,
    pub producer: Option<String>,
}

/// Why stamping gave no document.
#[derive(Clone, Copy, Debug, PartialEq, Eq, Structural)]
pub enum MetadataError {
    /// The bytes are no PDF that can be read.
    Unreadable,
    /// The stamped document could not be written.
    Unwritable,
}

/// The key `Title`.
pub open spec fn key_title() -> Seq<u8> {
    seq![84u8, 105u8, 116u8, 108u8, 101u8]
}

/// The key `Creator`.
pub open spec fn key_creator() -> Seq<u8> {
    seq![67u8, 114u8, 101u8, 97u8, 116u8, 111u8, 114u8]
}

/// The key `Producer`.
pub open spec fn key_producer() -> Seq<u8> {
    seq![80u8, 114u8, 111u8, 100u8, 117u8, 99u8, 101u8, 114u8]
}

/// The id of the information dictionary: object 1, generation 0.
pub open spec fn info_id() -> ObjectId {
    (1u32, 0u16)
}

/// The entry that a field makes under `key`: its text as a literal string,
/// or nothing where the field is not given.
pub open spec fn field_pairs(key: Seq<u8>, field: Option<String>) -> Seq<(Seq<u8>, lopdf::Object)> {
    match field {
        Some(text) => seq![(key, literal_of(encode_utf8(text@)))],
        None => Seq::empty(),
    }
}

/// The entries of the information dictionary, in the order in which they are
/// written: title, creator, producer.
pub open spec fn info_pairs(meta: MetaData) -> Seq<(Seq<u8>, lopdf::Object)> {
    field_pairs(key_title(), meta.title) + field_pairs(key_creator(), meta.creator) + field_pairs(
        key_producer(),
        meta.producer,
    )
}

/// The value that the information dictionary has under `key`, if it has one.
pub open spec fn info_value(meta: MetaData, key: Seq<u8>) -> Option<lopdf::Object> {
    if key == key_title() && meta.title is Some {
        Some(literal_of(encode_utf8(meta.title.unwrap()@)))
    } else if key == key_creator() && meta.creator is Some {
        Some(literal_of(encode_utf8(meta.creator.unwrap()@)))
    } else if key == key_producer() && meta.producer is Some {
        Some(literal_of(encode_utf8(meta.producer.unwrap()@)))
    } else {
        None
    }
}

/// The information dictionary for `meta`.
pub open spec fn info_of(meta: MetaData) -> lopdf::Dictionary {
    dictionary_from(info_pairs(meta))
}

/// What stamping `meta` onto the bytes `file` gives.
pub open spec fn stamped(file: Seq<u8>, meta: MetaData) -> Result<Seq<u8>, MetadataError> {
    match parsed(file) {
        None => Err(MetadataError::Unreadable),
        Some(document) => match saved(
            compressed(with_object(document, info_id(), dictionary_object(info_of(meta)))),
        ) {
            Some(bytes) => Ok(bytes),
            None => Err(MetadataError::Unwritable),
        },
    }
}

fn push_field(list: &mut Vec<(Vec<u8>, lopdf::Object)>, key: &[u8], field: &Option<String>)
    ensures
        pairs_of(final(list)@) == pairs_of(old(list)@) + field_pairs(key@, *field),
{
    match field {
        Some(text) => {
            let mut name: Vec<u8> = Vec::new();
            name.extend_from_slice(key);
            assert(name@ =~= key@);
            let bytes = text.as_str().as_bytes();
            assert(bytes@ == encode_utf8(text@));
            let value = object_literal(bytes);
            list.push((name, value));
            assert(pairs_of(list@).last() == (key@, literal_of(encode_utf8(text@))));
            assert(pairs_of(list@) =~= pairs_of(old(list)@) + field_pairs(key@, *field));
        },
        None => {
            assert(pairs_of(list@) =~= pairs_of(old(list)@) + field_pairs(key@, *field));
        },
    }
}

/// Builds the information dictionary for `meta`. It holds an entry for each
/// field that is given and no other entry: `Title`, `Creator` and `Producer`,
/// each as a literal string.
pub fn info_dictionary(meta: &MetaData) -> (info: lopdf::Dictionary)
    ensures
        info == info_of(*meta),
        forall|key: Seq<u8>|
            entries_of(info).contains_key(key) <==> #[trigger] info_value(*meta, key) is Some,
        forall|key: Seq<u8>|
            entries_of(info).contains_key(key) ==> Some(entries_of(info)[key]) == #[trigger] info_value(
                *meta,
                key,
            ),
{
    let title: [u8; 5] = [84, 105, 116, 108, 101];
    let creator: [u8; 7] = [67, 114, 101, 97, 116, 111, 114];
    let producer: [u8; 8] = [80, 114, 111, 100, 117, 99, 101, 114];
    assert(title@ =~= key_title());
    assert(creator@ =~= key_creator());
    assert(producer@ =~= key_producer());
    let mut list: Vec<(Vec<u8>, lopdf::Object)> = Vec::new();
    assert(pairs_of(list@) =~= Seq::empty());
    push_field(&mut list, title.as_slice(), &meta.title);
    push_field(&mut list, creator.as_slice(), &meta.creator);
    push_field(&mut list, producer.as_slice(), &meta.producer);
    proof {
        assert(pairs_of(list@) =~= info_pairs(*meta));
        lemma_info_entries(*meta);
    }
    dict_from_list(list)
}

/// Setting the given fields in turn gives one entry for each of them.
proof fn lemma_info_entries(meta: MetaData)
    ensures
        forall|key: Seq<u8>|
            set_in_turn(info_pairs(meta)).contains_key(key) <==> #[trigger] info_value(meta, key)
                is Some,
        forall|key: Seq<u8>|
            set_in_turn(info_pairs(meta)).contains_key(key) ==> Some(
                set_in_turn(info_pairs(meta))[key],
            ) == #[trigger] info_value(meta, key),
{
    let t = field_pairs(key_title(), meta.title);
    let c = field_pairs(key_creator(), meta.creator);
    let p = field_pairs(key_producer(), meta.producer);
    assert(key_title() != key_creator()) by {
        assert(key_title().len() != key_creator().len());
    }
    assert(key_title() != key_producer()) by {
        assert(key_title().len() != key_producer().len());
    }
    assert(key_creator() != key_producer()) by {
        assert(key_creator().len() != key_producer().len());
    }
    lemma_set_in_turn_one(Seq::empty(), key_title(), meta.title);
    assert(Seq::<(Seq<u8>, lopdf::Object)>::empty() + t =~= t);
    lemma_set_in_turn_one(t, key_creator(), meta.creator);
    lemma_set_in_turn_one(t + c, key_producer(), meta.producer);
    assert(set_in_turn(Seq::<(Seq<u8>, lopdf::Object)>::empty()) =~= Map::empty());
}

/// Setting one more field adds its entry, where the field is given.
proof fn lemma_set_in_turn_one(
    before: Seq<(Seq<u8>, lopdf::Object)>,
    key: Seq<u8>,
    field: Option<String>,
)
    ensures
        set_in_turn(before + field_pairs(key, field)) == match field {
            Some(text) => set_in_turn(before).insert(key, literal_of(encode_utf8(text@))),
            None => set_in_turn(before),
        },
{
    let all = before + field_pairs(key, field);
    match field {
        Some(text) => {
            assert(all.drop_last() =~= before);
        },
        None => {
            assert(all =~= before);
        },
    }
}

/// Replaces the information dictionary of a parsed document: the object
/// with the number 1 becomes the dictionary for `meta`, whatever it was, with
/// one entry for each field that is given and no other. Nothing of an earlier
/// information dictionary stays. Every other object stays, and so does the
/// trailer.
pub fn stamp(document: &mut lopdf::Document, meta: &MetaData)
    ensures
        *final(document) == with_object(*old(document), info_id(), dictionary_object(info_of(*meta))),
        objects_of(*final(document)) == objects_of(*old(document)).insert(
            info_id(),
            dictionary_object(info_of(*meta)),
        ),
        dict_of(objects_of(*final(document))[info_id()]) == Some(info_of(*meta)),
        forall|key: Seq<u8>|
            entries_of(info_of(*meta)).contains_key(key) <==> #[trigger] info_value(*meta, key)
                is Some,
        forall|key: Seq<u8>|
            entries_of(info_of(*meta)).contains_key(key) ==> Some(entries_of(info_of(*meta))[key])
                == #[trigger] info_value(*meta, key),
        forall|key: Seq<u8>| #[trigger]
            trailer_reference_of(*final(document), key) == trailer_reference_of(
                *old(document),
                key,
            ),
{
    doc_insert(document, (1, 0), object_from_dict(info_dictionary(meta)));
}

/// Stamps metadata onto a written document.
///
/// Without metadata the bytes come back as they are. With metadata the
/// document is read, its information dictionary is replaced in full, and
/// the document is compressed and written again.
pub fn add_pdf_metadata(file: Vec<u8>, meta: Option<MetaData>) -> (r: Result<
    Vec<u8>,
    MetadataError,
>)
    ensures
        meta is None ==> r == Ok::<Vec<u8>, MetadataError>(file),
        meta is Some ==> match stamped(file@, meta.unwrap()) {
            Ok(bytes) => r is Ok && r.unwrap()@ == bytes,
            Err(e) => r == Err::<Vec<u8>, MetadataError>(e),
        },
{
    match meta {
        None => Ok(file),
        Some(meta) => {
            let mut document = match doc_parse(file.as_slice()) {
                Ok(document) => document,
                Err(_) => {
                    return Err(MetadataError::Unreadable);
                },
            };
            stamp(&mut document, &meta);
            doc_compress(&mut document);
            match doc_save(document) {
                Some(bytes) => Ok(bytes),
                None => Err(MetadataError::Unwritable),
            }
        },
    }
}

} // verus!
