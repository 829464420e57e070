//! What the merge does to single dictionaries: folding one page tree root
//! into another, hanging a page under the root, and rebuilding the root and
//! the catalog.

use vstd::prelude::*;
use crate::pdf::{
    array_of, dict_get, dict_has, dict_keys, dict_of, dict_remove, dict_set, dictionary_object,
    entries_of, integer_of, keys_of, keys_view, object_array, object_as_dict, object_from_dict,
    object_integer, object_reference, reference_to, with_entry, without_entry, ObjectId,
};
use crate::plan::Located;

verus! {

/// The key `Root`, under which the trailer names the catalog.
pub open spec fn key_root() -> Seq<u8> {
    seq![82u8, 111u8, 111u8, 116u8]
}

/// The key `Parent`.
pub open spec fn key_parent() -> Seq<u8> {
    seq![80u8, 97u8, 114u8, 101u8, 110u8, 116u8]
}

/// The key `Count`.
pub open spec fn key_count() -> Seq<u8> {
    seq![67u8, 111u8, 117u8, 110u8, 116u8]
}

/// The key `Kids`.
pub open spec fn key_kids() -> Seq<u8> {
    seq![75u8, 105u8, 100u8, 115u8]
}

/// The key `Pages`.
pub open spec fn key_pages() -> Seq<u8> {
    seq![80u8, 97u8, 103u8, 101u8, 115u8]
}

/// The key `Outlines`.
pub open spec fn key_outlines() -> Seq<u8> {
    seq![79u8, 117u8, 116u8, 108u8, 105u8, 110u8, 101u8, 115u8]
}

/// `canonical` after the entries of `other` under `keys` were offered to it in
/// turn: an entry is taken where `canonical` has none under its key so far.
pub open spec fn first_wins_over(
    canonical: lopdf::Dictionary,
    other: lopdf::Dictionary,
    keys: Seq<Seq<u8>>,
) -> lopdf::Dictionary
    decreases keys.len(),
{
    if keys.len() == 0 {
        canonical
    } else {
        let before = first_wins_over(canonical, other, keys.drop_last());
        let key = keys.last();
        if !entries_of(before).contains_key(key) && entries_of(other).contains_key(key) {
            with_entry(before, key, entries_of(other)[key])
        } else {
            before
        }
    }
}

/// `canonical` after `other` was folded into it.
pub open spec fn first_wins(canonical: lopdf::Dictionary, other: lopdf::Dictionary)
    -> lopdf::Dictionary {
    first_wins_over(canonical, other, keys_of(other))
}

/// The page object `o` under the page tree root `root`, if `o` is a dictionary.
pub open spec fn reparented(o: lopdf::Object, root: ObjectId) -> Option<lopdf::Object> {
    match dict_of(o) {
        Some(page) => Some(dictionary_object(with_entry(page, key_parent(), reference_to(root)))),
        None => None,
    }
}

/// References to the pages `kids`, in order.
pub open spec fn kid_references(kids: Seq<Located>) -> Seq<lopdf::Object> {
    Seq::new(kids.len(), |i: int| reference_to(kids[i].id))
}

/// The page tree root `root` with the pages `kids` as its kids.
pub open spec fn rebuilt_pages(root: lopdf::Dictionary, kids: Seq<Located>) -> lopdf::Dictionary {
    with_entry(
        with_entry(root, key_count(), integer_of(kids.len() as i64)),
        key_kids(),
        array_of(kid_references(kids)),
    )
}

/// The catalog `catalog` with `root` as its page tree root and without
/// outlines.
pub open spec fn rebuilt_catalog(catalog: lopdf::Dictionary, root: ObjectId) -> lopdf::Dictionary {
    without_entry(with_entry(catalog, key_pages(), reference_to(root)), key_outlines())
}

/// Folds `other` into `canonical`: every entry of `other` is added under its
/// key unless `canonical` has an entry under that key. Where both have one,
/// the one of `canonical` stays.
pub fn merge_first_wins(canonical: &mut lopdf::Dictionary, other: &lopdf::Dictionary)
    ensures
        *final(canonical) == first_wins(*old(canonical), *other),
        entries_of(*final(canonical)) == entries_of(*other).union_prefer_right(
            entries_of(*old(canonical)),
        ),
{
    let keys = dict_keys(other);
    let mut i: usize = 0;
    while i < keys.len()
        invariant
            i <= keys.len(),
            keys_view(keys@) == keys_of(*other),
            forall|k: Seq<u8>|
                entries_of(*other).contains_key(k) <==> exists|j: int|
                    0 <= j < keys.len() && #[trigger] keys[j]@ == k,
            *canonical == first_wins_over(*old(canonical), *other, keys_view(keys@).take(i as int)),
            forall|k: Seq<u8>|
                entries_of(*canonical).contains_key(k) <==> entries_of(*old(canonical)).contains_key(
                    k,
                ) || exists|j: int| 0 <= j < i && #[trigger] keys[j]@ == k,
            forall|k: Seq<u8>| #[trigger]
                entries_of(*canonical).contains_key(k) ==> entries_of(*canonical)[k] == if entries_of(
                    *old(canonical),
                ).contains_key(k) {
                    entries_of(*old(canonical))[k]
                } else {
                    entries_of(*other)[k]
                },
        decreases keys.len() - i,
    {
        let key = keys[i].as_slice();
        proof {
            assert(keys_view(keys@).take(i + 1).drop_last() =~= keys_view(keys@).take(i as int));
            assert(keys_view(keys@).take(i + 1).last() == keys[i as int]@);
            assert(entries_of(*other).contains_key(keys[i as int]@));
        }
        if !dict_has(canonical, key) {
            match dict_get(other, key) {
                Some(value) => {
                    dict_set(canonical, key, value);
                },
                None => {},
            }
        }
        i = i + 1;
    }
    proof {
        assert(keys_view(keys@).take(keys.len() as int) =~= keys_view(keys@));
        assert(entries_of(*canonical) =~= entries_of(*other).union_prefer_right(
            entries_of(*old(canonical)),
        ));
    }
}

/// Hangs a page under the page tree root `root`: its `Parent` becomes a
/// reference to `root` and nothing else changes. An object that is no
/// dictionary is no page.
pub fn reparent(page: &lopdf::Object, root: ObjectId) -> (r: Option<lopdf::Object>)
    ensures
        r == reparented(*page, root),
        r is Some <==> dict_of(*page) is Some,
        r is Some ==> dict_of(r.unwrap()) is Some && entries_of(dict_of(r.unwrap()).unwrap())
            == entries_of(dict_of(*page).unwrap()).insert(key_parent(), reference_to(root)),
{
    match object_as_dict(page) {
        Some(dict) => {
            let mut dict = dict;
            let key: [u8; 6] = [80, 97, 114, 101, 110, 116];
            assert(key@ =~= key_parent());
            dict_set(&mut dict, key.as_slice(), object_reference(root));
            Some(object_from_dict(dict))
        },
        None => None,
    }
}

/// Rebuilds the page tree root for the pages of the output: `Count` becomes
/// their number and `Kids` the references to them, in their order. The other
/// entries stay.
pub fn rebuild_pages(root: lopdf::Dictionary, kids: &Vec<Located>) -> (r: lopdf::Dictionary)
    requires
        kids.len() <= u32::MAX,
    ensures
        r == rebuilt_pages(root, kids@),
        entries_of(r) == entries_of(root).insert(key_count(), integer_of(kids.len() as i64)).insert(
            key_kids(),
            array_of(kid_references(kids@)),
        ),
{
    let mut root = root;
    let mut references: Vec<lopdf::Object> = Vec::new();
    let mut i: usize = 0;
    while i < kids.len()
        invariant
            i <= kids.len(),
            references@ == kid_references(kids@.take(i as int)),
        decreases kids.len() - i,
    {
        references.push(object_reference(kids[i].id));
        proof {
            assert(references@ =~= kid_references(kids@.take(i + 1)));
        }
        i = i + 1;
    }
    proof {
        assert(kids@.take(kids.len() as int) =~= kids@);
    }
    let count: [u8; 5] = [67, 111, 117, 110, 116];
    let kids_key: [u8; 4] = [75, 105, 100, 115];
    assert(count@ =~= key_count());
    assert(kids_key@ =~= key_kids());
    dict_set(&mut root, count.as_slice(), object_integer(kids.len() as i64));
    dict_set(&mut root, kids_key.as_slice(), object_array(references));
    root
}

/// Rebuilds the catalog of the output: `Pages` becomes a reference to the
/// page tree root and `Outlines` goes. The other entries stay.
pub fn rebuild_catalog(catalog: lopdf::Dictionary, root: ObjectId) -> (r: lopdf::Dictionary)
    ensures
        r == rebuilt_catalog(catalog, root),
        entries_of(r) == entries_of(catalog).insert(key_pages(), reference_to(root)).remove(
            key_outlines(),
        ),
{
    let mut catalog = catalog;
    let pages: [u8; 5] = [80, 97, 103, 101, 115];
    let outlines: [u8; 8] = [79, 117, 116, 108, 105, 110, 101, 115];
    assert(pages@ =~= key_pages());
    assert(outlines@ =~= key_outlines());
    dict_set(&mut catalog, pages.as_slice(), object_reference(root));
    dict_remove(&mut catalog, outlines.as_slice());
    catalog
}

} // verus!
