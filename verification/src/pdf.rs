//! The boundary to the `lopdf` crate.
//!
//! Everything in this module is believed, not proved: the types of `lopdf` that
//! the engine carries around, the names under which contracts speak of what
//! `lopdf` computes, and one small wrapper per `lopdf` function that the
//! engine calls. The verified modules of the crate rest on these contracts.

use vstd::prelude::*;

verus! {

/// A PDF object identifier: object number and generation number.
pub type ObjectId = (u32, u16);

#[verifier::external_type_specification]
#[verifier::external_body]
pub struct ExDictionary(lopdf::Dictionary);

#[verifier::external_type_specification]
#[verifier::external_body]
pub struct ExObject(lopdf::Object);

#[verifier::external_type_specification]
#[verifier::external_body]
pub struct ExDocument(lopdf::Document);

#[verifier::external_type_specification]
#[verifier::external_body]
pub struct ExError(lopdf::Error);

/// The order in which an object table is walked: by object number, then by
/// generation number.
pub open spec fn id_before(a: ObjectId, b: ObjectId) -> bool {
    a.0 < b.0 || (a.0 == b.0 && a.1 < b.1)
}

// ---------------------------------------------------------------------------
// Dictionaries
// ---------------------------------------------------------------------------

/// What a dictionary holds: its values by key. The order of the keys is not
/// part of this model.
pub uninterp spec fn entries_of(d: lopdf::Dictionary) -> Map<Seq<u8>, lopdf::Object>;

/// The keys of a dictionary in the order in which it is walked.
pub uninterp spec fn keys_of(d: lopdf::Dictionary) -> Seq<Seq<u8>>;

/// The dictionary after `lopdf::Dictionary::set`.
pub uninterp spec fn with_entry(d: lopdf::Dictionary, key: Seq<u8>, value: lopdf::Object)
    -> lopdf::Dictionary;

/// The dictionary after `lopdf::Dictionary::remove`.
pub uninterp spec fn without_entry(d: lopdf::Dictionary, key: Seq<u8>) -> lopdf::Dictionary;

/// The dictionary that `lopdf::Dictionary::from_iter` makes of a list of keys
/// and values.
pub uninterp spec fn dictionary_from(pairs: Seq<(Seq<u8>, lopdf::Object)>) -> lopdf::Dictionary;

/// A list of keys and values as a mathematical value.
pub open spec fn pairs_of(list: Seq<(Vec<u8>, lopdf::Object)>) -> Seq<(Seq<u8>, lopdf::Object)> {
    Seq::new(list.len(), |i: int| (list[i].0@, list[i].1))
}

/// The entries that a list of keys and values amounts to when each is set in
/// turn: a later value replaces an earlier one under the same key.
pub open spec fn set_in_turn(pairs: Seq<(Seq<u8>, lopdf::Object)>) -> Map<Seq<u8>, lopdf::Object>
    decreases pairs.len(),
{
    if pairs.len() == 0 {
        Map::empty()
    } else {
        set_in_turn(pairs.drop_last()).insert(pairs.last().0, pairs.last().1)
    }
}

/// A list of keys as a mathematical value.
pub open spec fn keys_view(keys: Seq<Vec<u8>>) -> Seq<Seq<u8>> {
    Seq::new(keys.len(), |i: int| keys[i]@)
}

/// `lopdf::Dictionary::has`: whether the dictionary has an entry under `key`.
#[verifier::external_body]
pub(crate) fn dict_has(d: &lopdf::Dictionary, key: &[u8]) -> (found: bool)
    ensures
        found == entries_of(*d).contains_key(key@),
{
    d.has(key)
}

/// `lopdf::Dictionary::get`: a copy of the value under `key`, if there is one.
#[verifier::external_body]
pub(crate) fn dict_get(d: &lopdf::Dictionary, key: &[u8]) -> (value: Option<lopdf::Object>)
    ensures
        value.is_some() == entries_of(*d).contains_key(key@),
        value.is_some() ==> value.unwrap() == entries_of(*d)[key@],
{
    d.get(key).ok().cloned()
}

/// `lopdf::Dictionary::set`: the value under `key` becomes `value`, whether or
/// not the key was present; every other entry stays.
#[verifier::external_body]
pub(crate) fn dict_set(d: &mut lopdf::Dictionary, key: &[u8], value: lopdf::Object)
    ensures
        *final(d) == with_entry(*old(d), key@, value),
        entries_of(*final(d)) == entries_of(*old(d)).insert(key@, value),
{
    d.set(key, value);
}

/// `lopdf::Dictionary::remove`: the entry under `key` is gone; every other
/// entry stays.
#[verifier::external_body]
pub(crate) fn dict_remove(d: &mut lopdf::Dictionary, key: &[u8])
    ensures
        *final(d) == without_entry(*old(d), key@),
        entries_of(*final(d)) == entries_of(*old(d)).remove(key@),
{
    d.remove(key);
}

/// `lopdf::Dictionary::iter`, keys only: the keys of the dictionary in the
/// order in which it is walked.
#[verifier::external_body]
pub(crate) fn dict_keys(d: &lopdf::Dictionary) -> (keys: Vec<Vec<u8>>)
    ensures
        keys_view(keys@) == keys_of(*d),
        forall|k: Seq<u8>|
            entries_of(*d).contains_key(k) <==> exists|i: int|
                0 <= i < keys.len() && #[trigger] keys[i]@ == k,
{
    d.iter().map(|(key, _)| key.clone()).collect()
}

/// `lopdf::Dictionary::from_iter`: it starts from an empty dictionary and sets
/// each key to its value in turn.
#[verifier::external_body]
pub(crate) fn dict_from_list(list: Vec<(Vec<u8>, lopdf::Object)>) -> (d: lopdf::Dictionary)
    ensures
        d == dictionary_from(pairs_of(list@)),
        entries_of(d) == set_in_turn(pairs_of(list@)),
{
    list.into_iter().collect()
}

// ---------------------------------------------------------------------------
// Objects
// ---------------------------------------------------------------------------

/// The declared type of an object: what `lopdf::Dictionary::get_type` reports
/// of a dictionary, or of the dictionary of a stream; empty where the object is
/// neither or declares none.
pub uninterp spec fn type_of(o: lopdf::Object) -> Seq<u8>;

/// The dictionary that an object is, if it is one (`lopdf::Object::as_dict`).
pub uninterp spec fn dict_of(o: lopdf::Object) -> Option<lopdf::Dictionary>;

/// The object `lopdf::Object::Dictionary` made of a dictionary.
pub uninterp spec fn dictionary_object(d: lopdf::Dictionary) -> lopdf::Object;

/// The object `lopdf::Object::Reference` that points at `id`.
pub uninterp spec fn reference_to(id: ObjectId) -> lopdf::Object;

/// The object `lopdf::Object::Integer` of a number.
pub uninterp spec fn integer_of(n: i64) -> lopdf::Object;

/// The object `lopdf::Object::Array` of a list of objects.
pub uninterp spec fn array_of(items: Seq<lopdf::Object>) -> lopdf::Object;

/// The literal string object that `lopdf::Object::string_literal` makes of bytes.
pub uninterp spec fn literal_of(bytes: Seq<u8>) -> lopdf::Object;

/// `lopdf::Dictionary::get_type` on a dictionary object or on the dictionary
/// of a stream object, with an empty name where it returns an error and for
/// every other object.
#[verifier::external_body]
pub(crate) fn object_type(o: &lopdf::Object) -> (name: Vec<u8>)
    ensures
        name@ == type_of(*o),
{
    match o {
        lopdf::Object::Dictionary(d) => d.get_type().unwrap_or(b"").to_vec(),
        lopdf::Object::Stream(s) => s.dict.get_type().unwrap_or(b"").to_vec(),
        _ => Vec::new(),
    }
}

/// `lopdf::Object::as_dict`: a copy of the dictionary, if the object is one.
#[verifier::external_body]
pub(crate) fn object_as_dict(o: &lopdf::Object) -> (d: Option<lopdf::Dictionary>)
    ensures
        d == dict_of(*o),
{
    o.as_dict().ok().cloned()
}

/// `lopdf::Object::Dictionary`: `as_dict` of the result gives the dictionary back.
#[verifier::external_body]
pub(crate) fn object_from_dict(d: lopdf::Dictionary) -> (o: lopdf::Object)
    ensures
        o == dictionary_object(d),
        dict_of(o) == Some(d),
{
    lopdf::Object::Dictionary(d)
}

/// `lopdf::Object::Reference`.
#[verifier::external_body]
pub(crate) fn object_reference(id: ObjectId) -> (o: lopdf::Object)
    ensures
        o == reference_to(id),
{
    lopdf::Object::Reference(id)
}

/// `lopdf::Object::Integer`.
#[verifier::external_body]
pub(crate) fn object_integer(n: i64) -> (o: lopdf::Object)
    ensures
        o == integer_of(n),
{
    lopdf::Object::Integer(n)
}

/// `lopdf::Object::Array`.
#[verifier::external_body]
pub(crate) fn object_array(items: Vec<lopdf::Object>) -> (o: lopdf::Object)
    ensures
        o == array_of(items@),
{
    lopdf::Object::Array(items)
}

/// `lopdf::Object::string_literal`.
#[verifier::external_body]
pub(crate) fn object_literal(bytes: &[u8]) -> (o: lopdf::Object)
    ensures
        o == literal_of(bytes@),
{
    lopdf::Object::string_literal(bytes)
}

// ---------------------------------------------------------------------------
// Documents: what they hold
// ---------------------------------------------------------------------------

/// The object table of a document (its field `objects`).
pub uninterp spec fn objects_of(d: lopdf::Document) -> Map<ObjectId, lopdf::Object>;

/// The keys of the object table in the order in which it is walked.
pub uninterp spec fn object_ids_of(d: lopdf::Document) -> Seq<ObjectId>;

/// The field `max_id` of a document.
pub uninterp spec fn max_id_of(d: lopdf::Document) -> u32;

/// The number of top-level bookmarks of a document (its field `bookmarks`).
pub uninterp spec fn bookmark_count_of(d: lopdf::Document) -> nat;

/// Whether the bookmarks of a document are plain: each was added without a
/// parent to what was a document without bookmarks. Then every bookmark is a
/// top-level one without children and is found in the table of bookmarks, and
/// the highest bookmark id is the number of bookmarks.
pub uninterp spec fn plain_bookmarks(d: lopdf::Document) -> bool;

/// The object that the trailer names under `key`, if it names one by
/// reference there.
pub uninterp spec fn trailer_reference_of(d: lopdf::Document, key: Seq<u8>) -> Option<ObjectId>;

/// The pages of a document in page order, as `lopdf::Document::get_pages`
/// finds them by walking the page tree.
pub uninterp spec fn page_ids_of(d: lopdf::Document) -> Seq<ObjectId>;

/// What `lopdf::Document::get_object` finds under an id, following references.
pub uninterp spec fn resolved_in(d: lopdf::Document, id: ObjectId) -> Option<lopdf::Object>;

/// `BTreeMap::len` on the object table.
#[verifier::external_body]
pub(crate) fn doc_len(d: &lopdf::Document) -> (n: usize)
    ensures
        n == objects_of(*d).len(),
{
    d.objects.len()
}

/// `BTreeMap::keys` on the object table: every key once, in ascending order.
#[verifier::external_body]
pub(crate) fn doc_object_ids(d: &lopdf::Document) -> (ids: Vec<ObjectId>)
    ensures
        ids@ == object_ids_of(*d),
        forall|id: ObjectId| ids@.contains(id) <==> objects_of(*d).contains_key(id),
        forall|i: int, j: int| 0 <= i < j < ids.len() ==> id_before(ids[i], ids[j]),
{
    d.objects.keys().copied().collect()
}

/// `BTreeMap::get` on the object table: a copy of the object under `id`.
#[verifier::external_body]
pub(crate) fn doc_get(d: &lopdf::Document, id: ObjectId) -> (o: Option<lopdf::Object>)
    ensures
        o.is_some() == objects_of(*d).contains_key(id),
        o.is_some() ==> o.unwrap() == objects_of(*d)[id],
{
    d.objects.get(&id).cloned()
}

/// `lopdf::Document::get_object`: a copy of what it finds, if it finds anything.
#[verifier::external_body]
pub(crate) fn doc_resolve(d: &lopdf::Document, id: ObjectId) -> (o: Option<lopdf::Object>)
    ensures
        o == resolved_in(*d, id),
{
    d.get_object(id).ok().cloned()
}

/// `lopdf::Document::get_pages`, without the page numbers: the page ids in
/// page order.
#[verifier::external_body]
pub(crate) fn doc_page_ids(d: &lopdf::Document) -> (pages: Vec<ObjectId>)
    ensures
        pages@ == page_ids_of(*d),
{
    d.get_pages().into_values().collect()
}

/// Reads the field `max_id`.
#[verifier::external_body]
pub(crate) fn doc_max_id(d: &lopdf::Document) -> (n: u32)
    ensures
        n == max_id_of(*d),
{
    d.max_id
}

/// `Vec::len` on the field `bookmarks`.
#[verifier::external_body]
pub(crate) fn doc_bookmark_count(d: &lopdf::Document) -> (n: usize)
    ensures
        n == bookmark_count_of(*d),
{
    d.bookmarks.len()
}

/// Reads a reference from the trailer (`lopdf::Dictionary::get`, then
/// `lopdf::Object::as_reference`).
#[verifier::external_body]
pub(crate) fn doc_trailer_reference(d: &lopdf::Document, key: &[u8]) -> (id: Option<ObjectId>)
    ensures
        id == trailer_reference_of(*d, key@),
{
    d.trailer.get(key).and_then(lopdf::Object::as_reference).ok()
}

// ---------------------------------------------------------------------------
// Documents: what is done to them
// ---------------------------------------------------------------------------

/// The document that `lopdf::Document::load_mem` reads from bytes, if it reads one.
pub uninterp spec fn parsed(bytes: Seq<u8>) -> Option<lopdf::Document>;

/// The empty document that `lopdf::Document::with_version` makes.
pub uninterp spec fn blank_document(version: Seq<char>) -> lopdf::Document;

/// The document after `lopdf::Document::set_object`.
pub uninterp spec fn with_object(d: lopdf::Document, id: ObjectId, o: lopdf::Object)
    -> lopdf::Document;

/// The document after `lopdf::Dictionary::set` put a reference to `id` under
/// `key` in its trailer.
pub uninterp spec fn with_trailer_reference(d: lopdf::Document, key: Seq<u8>, id: ObjectId)
    -> lopdf::Document;

/// The document after its field `max_id` was set.
pub uninterp spec fn with_max_id(d: lopdf::Document, n: u32) -> lopdf::Document;

/// The document after `lopdf::Document::add_bookmark` added a blue bookmark
/// with this title, style and target, under this parent or at top level.
pub uninterp spec fn with_bookmark(
    d: lopdf::Document,
    title: Seq<char>,
    style: u32,
    page: ObjectId,
    parent: Option<u32>,
) -> lopdf::Document;

/// The document after `lopdf::Document::renumber_objects_with`.
pub uninterp spec fn renumbered(d: lopdf::Document, start: u32) -> lopdf::Document;

/// The document after `lopdf::Document::adjust_zero_pages`.
pub uninterp spec fn zero_pages_adjusted(d: lopdf::Document) -> lopdf::Document;

/// What `lopdf::Document::build_outline` makes of a document: the document
/// with the outline that it built, and the id of the outline root that it
/// returns.
pub uninterp spec fn outlined(d: lopdf::Document) -> (lopdf::Document, Option<ObjectId>);

/// The document after `lopdf::Document::compress`.
pub uninterp spec fn compressed(d: lopdf::Document) -> lopdf::Document;

/// The bytes that `lopdf::Document::save_to` writes, if it succeeds.
pub uninterp spec fn saved(d: lopdf::Document) -> Option<Seq<u8>>;

/// `lopdf::Document::load_mem`. It reads one object after the other, so the
/// same bytes give the same document. Reading gives a document no bookmarks.
#[verifier::external_body]
pub(crate) fn doc_parse(bytes: &[u8]) -> (r: Result<lopdf::Document, lopdf::Error>)
    ensures
        r.is_ok() == parsed(bytes@).is_some(),
        r.is_ok() ==> parsed(bytes@) == Some(r.unwrap()),
        r.is_ok() ==> plain_bookmarks(r.unwrap()),
{
    lopdf::Document::load_mem(bytes)
}

/// `lopdf::Document::with_version`: a document without objects and without
/// bookmarks.
#[verifier::external_body]
pub(crate) fn doc_new(version: &str) -> (d: lopdf::Document)
    ensures
        d == blank_document(version@),
        objects_of(d) == (Map::<ObjectId, lopdf::Object>::empty()),
        bookmark_count_of(d) == 0,
        plain_bookmarks(d),
{
    lopdf::Document::with_version(version)
}

/// `lopdf::Document::set_object`: an insertion into the object table, which
/// replaces what was under `id`. Bookmarks and trailer stay.
#[verifier::external_body]
pub(crate) fn doc_insert(d: &mut lopdf::Document, id: ObjectId, o: lopdf::Object)
    ensures
        *final(d) == with_object(*old(d), id, o),
        objects_of(*final(d)) == objects_of(*old(d)).insert(id, o),
        bookmark_count_of(*final(d)) == bookmark_count_of(*old(d)),
        plain_bookmarks(*final(d)) == plain_bookmarks(*old(d)),
        forall|key: Seq<u8>| #[trigger]
            trailer_reference_of(*final(d), key) == trailer_reference_of(*old(d), key),
{
    d.set_object(id, o);
}

/// `lopdf::Dictionary::set` on the trailer: what stands under `key` becomes a
/// reference to `id`; what stands under other keys stays. Object table and
/// bookmarks stay.
#[verifier::external_body]
pub(crate) fn doc_set_trailer_reference(d: &mut lopdf::Document, key: &[u8], id: ObjectId)
    ensures
        *final(d) == with_trailer_reference(*old(d), key@, id),
        trailer_reference_of(*final(d), key@) == Some(id),
        forall|other: Seq<u8>|
            other != key@ ==> #[trigger] trailer_reference_of(*final(d), other)
                == trailer_reference_of(*old(d), other),
        objects_of(*final(d)) == objects_of(*old(d)),
        bookmark_count_of(*final(d)) == bookmark_count_of(*old(d)),
        plain_bookmarks(*final(d)) == plain_bookmarks(*old(d)),
{
    d.trailer.set(key, id);
}

/// Writes the field `max_id`. Object table, trailer and bookmarks stay.
#[verifier::external_body]
pub(crate) fn doc_set_max_id(d: &mut lopdf::Document, n: u32)
    ensures
        *final(d) == with_max_id(*old(d), n),
        max_id_of(*final(d)) == n,
        objects_of(*final(d)) == objects_of(*old(d)),
        bookmark_count_of(*final(d)) == bookmark_count_of(*old(d)),
        plain_bookmarks(*final(d)) == plain_bookmarks(*old(d)),
        forall|key: Seq<u8>| #[trigger]
            trailer_reference_of(*final(d), key) == trailer_reference_of(*old(d), key),
{
    d.max_id = n;
}

/// `lopdf::Bookmark::new` and `lopdf::Document::add_bookmark`: one more
/// bookmark, blue, in the given style, under the given parent or at top level
/// where none is given. It gives the bookmark the id after the highest one,
/// in a `u32`, so among plain bookmarks there must be room for one more. A
/// bookmark without a parent leaves plain bookmarks plain. Object table and
/// trailer stay.
#[verifier::external_body]
pub(crate) fn doc_add_bookmark(
    d: &mut lopdf::Document,
    title: String,
    style: u32,
    page: ObjectId,
    parent: Option<u32>,
)
    requires
        plain_bookmarks(*old(d)),
        bookmark_count_of(*old(d)) < u32::MAX,
    ensures
        *final(d) == with_bookmark(*old(d), title@, style, page, parent),
        parent is None ==> bookmark_count_of(*final(d)) == bookmark_count_of(*old(d)) + 1,
        parent is None ==> plain_bookmarks(*final(d)),
        objects_of(*final(d)) == objects_of(*old(d)),
        forall|key: Seq<u8>| #[trigger]
            trailer_reference_of(*final(d), key) == trailer_reference_of(*old(d), key),
{
    let blue = [0u8.into(), 0u8.into(), 1u8.into()];
    d.add_bookmark(lopdf::Bookmark::new(title, blue, style, page), parent);
}

/// `lopdf::Document::renumber_objects_with`. It counts the pages in an `i32`
/// and hands out one object number after the other from `start` in a `u32`;
/// `start` itself must not be 0. Afterwards every object has a number from
/// `start` on, and `max_id` is the highest number that was handed out, or one
/// less than `start` where there is no object. It follows each bookmark to
/// its children to move its target along, which ends among plain bookmarks;
/// it changes no more of them than their targets.
#[verifier::external_body]
pub(crate) fn doc_renumber(d: &mut lopdf::Document, start: u32)
    requires
        start >= 1,
        objects_of(*old(d)).len() <= i32::MAX,
        start + objects_of(*old(d)).len() <= u32::MAX,
        plain_bookmarks(*old(d)),
    ensures
        *final(d) == renumbered(*old(d), start),
        start <= max_id_of(*final(d)) + 1,
        forall|id: ObjectId| #[trigger]
            objects_of(*final(d)).contains_key(id) ==> start <= id.0 <= max_id_of(*final(d)),
        plain_bookmarks(*final(d)),
        bookmark_count_of(*final(d)) == bookmark_count_of(*old(d)),
{
    d.renumber_objects_with(start);
}

/// `lopdf::Document::adjust_zero_pages`. It follows each bookmark to its
/// children, which ends among plain bookmarks, and changes no more of them
/// than their targets. Object table, `max_id` and trailer stay.
#[verifier::external_body]
pub(crate) fn doc_adjust_zero_pages(d: &mut lopdf::Document)
    requires
        plain_bookmarks(*old(d)),
    ensures
        *final(d) == zero_pages_adjusted(*old(d)),
        plain_bookmarks(*final(d)),
        bookmark_count_of(*final(d)) == bookmark_count_of(*old(d)),
        objects_of(*final(d)) == objects_of(*old(d)),
        max_id_of(*final(d)) == max_id_of(*old(d)),
        forall|key: Seq<u8>| #[trigger]
            trailer_reference_of(*final(d), key) == trailer_reference_of(*old(d), key),
{
    d.adjust_zero_pages();
}

/// `lopdf::Document::build_outline`. It looks each bookmark up in the table
/// and takes one object number for the outline root and two for each
/// bookmark, counting on from `max_id` in a `u32`. It builds an outline
/// exactly where the document has a bookmark: the outline root then gets the
/// number after `max_id` and generation 0, stands in the object table, and is
/// returned. Objects with a number up to `max_id` stay as they are, and so do
/// trailer and bookmarks.
#[verifier::external_body]
pub(crate) fn doc_build_outline(d: &mut lopdf::Document) -> (root: Option<ObjectId>)
    requires
        plain_bookmarks(*old(d)),
        max_id_of(*old(d)) + 1 + 2 * bookmark_count_of(*old(d)) <= u32::MAX,
    ensures
        (*final(d), root) == outlined(*old(d)),
        root is Some <==> bookmark_count_of(*old(d)) > 0,
        root is Some ==> root == Some(((max_id_of(*old(d)) + 1) as u32, 0u16)),
        root is Some ==> objects_of(*final(d)).contains_key(root.unwrap()),
        forall|id: ObjectId|
            id.0 <= max_id_of(*old(d)) && #[trigger] objects_of(*old(d)).contains_key(id)
                ==> objects_of(*final(d)).contains_key(id) && objects_of(*final(d))[id]
                == objects_of(*old(d))[id],
        forall|key: Seq<u8>| #[trigger]
            trailer_reference_of(*final(d), key) == trailer_reference_of(*old(d), key),
        bookmark_count_of(*final(d)) == bookmark_count_of(*old(d)),
{
    d.build_outline()
}

/// `lopdf::Document::compress`.
#[verifier::external_body]
pub(crate) fn doc_compress(d: &mut lopdf::Document)
    ensures
        *final(d) == compressed(*old(d)),
{
    d.compress();
}

/// `lopdf::Document::save_to` into a byte buffer.
#[verifier::external_body]
pub(crate) fn doc_save(d: lopdf::Document) -> (bytes: Option<Vec<u8>>)
    ensures
        bytes.is_some() == saved(d).is_some(),
        bytes.is_some() ==> saved(d) == Some(bytes.unwrap()@),
{
    let mut d = d;
    let mut out = Vec::new();
    d.save_to(&mut out).ok().map(|_| out)
}

} // verus!
