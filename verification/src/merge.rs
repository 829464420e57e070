//! The merge engine: several parsed documents become one.
//!
//! The sources are renumbered so that no two of them share an object number,
//! summarised, and planned on plain values (see the planning module). The
//! output is assembled from the plan, renumbered once more, given an outline
//! with one bookmark per source, compressed and written.

use vstd::prelude::*;
use vstd::string::StringExecFns;
use crate::dict::{
    first_wins, key_count, key_kids, key_outlines, key_pages, key_root, kid_references,
    merge_first_wins, rebuild_catalog, rebuild_pages, rebuilt_catalog, rebuilt_pages, reparent,
    reparented,
};
use crate::pdf::{
    array_of, blank_document, bookmark_count_of, compressed, dict_of, dict_set,
    dictionary_object, doc_add_bookmark, doc_adjust_zero_pages, doc_bookmark_count,
    doc_build_outline, doc_compress, doc_get, doc_insert, doc_len, doc_max_id, doc_new,
    doc_object_ids, doc_page_ids, doc_renumber, doc_resolve, doc_save, doc_set_max_id,
    doc_set_trailer_reference, doc_trailer_reference, entries_of, integer_of, max_id_of, object_as_dict, object_from_dict,
    object_ids_of, object_reference, object_type, objects_of, outlined, page_ids_of,
    plain_bookmarks, reference_to, renumbered, resolved_in, saved, trailer_reference_of, type_of,
    with_bookmark, with_entry, with_max_id, with_object, with_trailer_reference,
    zero_pages_adjusted, ObjectId,
};
use crate::plan::{
    classify, has_roots, kind_of, lemma_bookmarks_within_pages, plan_merge, planned, routed,
    views_of, Entry,
    Located, MergePlan, MissingRoot, ObjectKind, PlanView, Route, Source, SourceView,
};
use crate::text::{append_decimal, decimal};

verus! {

/// Why a merge gave no document.
#[derive(Clone, Copy, Debug, PartialEq, Eq, Structural)]
pub enum MergeError {
    /// The sources hold no page tree root, or no catalog.
    MissingRoot(MissingRoot),
    /// Object numbers, pages or bookmarks do not fit the 32 bits that a PDF
    /// gives them.
    TooManyObjects,
    /// The merged document could not be written.
    Unwritable,
}

// ---------------------------------------------------------------------------
// Bookmark titles
// ---------------------------------------------------------------------------

/// The title of the bookmark of the `n`-th source that has a page: `Page_`
/// and the number.
pub open spec fn page_label(n: nat) -> Seq<char> {
    seq!['P', 'a', 'g', 'e', '_'] + decimal(n)
}

/// Writes the title of the bookmark with the number `n`.
pub fn bookmark_title(n: usize) -> (title: String)
    ensures
        title@ == page_label(n as nat),
{
    proof {
        reveal_strlit("Page_");
    }
    let mut title = String::from_str("Page_");
    assert(title@ =~= seq!['P', 'a', 'g', 'e', '_']);
    append_decimal(&mut title, n);
    title
}

// ---------------------------------------------------------------------------
// Renumbering the sources
// ---------------------------------------------------------------------------

/// Whether a document can be renumbered from `start` on: its objects must be
/// countable in 31 bits, and their new numbers must fit 32.
pub open spec fn fits(d: lopdf::Document, start: u32) -> bool {
    objects_of(d).len() <= i32::MAX && start + objects_of(d).len() <= u32::MAX
}

/// The object number from which the source at position `k` is renumbered: 1
/// for the first, and for each other one more than the highest number of the
/// source before it. `None` where the sources before it left no room.
pub open spec fn start_of(docs: Seq<lopdf::Document>, k: nat) -> Option<u32>
    decreases k,
{
    if k == 0 {
        Some(1u32)
    } else {
        match start_of(docs, (k - 1) as nat) {
            None => None,
            Some(start) => {
                let d = docs[k - 1];
                if fits(d, start) && max_id_of(renumbered(d, start)) < u32::MAX {
                    Some((max_id_of(renumbered(d, start)) + 1) as u32)
                } else {
                    None
                }
            },
        }
    }
}

/// The sources after renumbering, if there is room for all of them.
pub open spec fn renumbered_sources(docs: Seq<lopdf::Document>) -> Option<Seq<lopdf::Document>> {
    if start_of(docs, docs.len()) is Some {
        Some(
            Seq::new(
                docs.len(),
                |k: int| renumbered(docs[k], start_of(docs, k as nat).unwrap()),
            ),
        )
    } else {
        None
    }
}

/// Whether no object number occurs in two of the documents: the numbers of
/// each lie above those of every document before it.
pub open spec fn numbers_apart(sources: Seq<lopdf::Document>) -> bool {
    forall|j: int, k: int, a: ObjectId, b: ObjectId|
        0 <= j < k < sources.len() && #[trigger] objects_of(sources[j]).contains_key(a)
            && #[trigger] objects_of(sources[k]).contains_key(b) ==> a.0 < b.0
}

/// Where there is no room for the first `k` sources, there is none for more.
proof fn lemma_start_stays_none(docs: Seq<lopdf::Document>, k: nat, n: nat)
    requires
        k <= n,
        start_of(docs, k) is None,
    ensures
        start_of(docs, n) is None,
    decreases n,
{
    if k < n {
        lemma_start_stays_none(docs, k, (n - 1) as nat);
    }
}

/// Renumbers the sources in their order, so that no object number occurs in
/// two of them: the first from 1 on, each other from where the one before it
/// ended.
///
/// The sources are documents as they are read or built object by object:
/// their bookmarks, if they have any, are plain.
pub fn renumber_sources(documents: Vec<lopdf::Document>) -> (r: Result<
    Vec<lopdf::Document>,
    MergeError,
>)
    requires
        forall|k: int| 0 <= k < documents.len() ==> plain_bookmarks(#[trigger] documents[k]),
    ensures
        match renumbered_sources(documents@) {
            Some(sources) => r is Ok && r.unwrap()@ == sources,
            None => r == Err::<Vec<lopdf::Document>, MergeError>(MergeError::TooManyObjects),
        },
        r is Ok ==> numbers_apart(r.unwrap()@),
{
    let ghost docs = documents@;
    let mut sources: Vec<lopdf::Document> = Vec::new();
    let mut next: u32 = 1;
    for document in it: documents.into_iter()
        invariant
            it.seq() == docs,
            forall|k: int| 0 <= k < docs.len() ==> plain_bookmarks(#[trigger] docs[k]),
            start_of(docs, it.index() as nat) == Some(next),
            sources@.len() == it.index(),
            forall|k: int|
                0 <= k < it.index() ==> #[trigger] sources@[k] == renumbered(
                    docs[k],
                    start_of(docs, k as nat).unwrap(),
                ),
            forall|k: int, id: ObjectId|
                0 <= k < sources.len() && #[trigger] objects_of(sources@[k]).contains_key(id)
                    ==> id.0 < next,
            numbers_apart(sources@),
    {
        let ghost k = it.index() as nat;
        let mut document = document;
        let count = doc_len(&document);
        if count > i32::MAX as usize || count as u64 + next as u64 > u32::MAX as u64 {
            proof {
                assert(start_of(docs, k + 1) is None);
                lemma_start_stays_none(docs, k + 1, docs.len());
            }
            return Err(MergeError::TooManyObjects);
        }
        doc_renumber(&mut document, next);
        let last = doc_max_id(&document);
        if last == u32::MAX {
            proof {
                assert(start_of(docs, k + 1) is None);
                lemma_start_stays_none(docs, k + 1, docs.len());
            }
            return Err(MergeError::TooManyObjects);
        }
        let ghost before = sources@;
        let ghost low = next;
        let ghost moved = document;
        next = last + 1;
        sources.push(document);
        proof {
            assert(start_of(docs, k + 1) == Some(next));
            assert forall|i: int, id: ObjectId|
                0 <= i < sources.len() && #[trigger] objects_of(sources@[i]).contains_key(
                    id,
                ) implies id.0 < next by {
                if i < before.len() {
                    assert(sources@[i] == before[i]);
                    assert(id.0 < low);
                } else {
                    assert(sources@[i] == moved);
                }
            }
            assert forall|j: int, i: int, a: ObjectId, b: ObjectId|
                0 <= j < i < sources.len() && #[trigger] objects_of(sources@[j]).contains_key(a)
                    && #[trigger] objects_of(sources@[i]).contains_key(b) implies a.0 < b.0 by {
                if i < before.len() {
                    assert(sources@[j] == before[j] && sources@[i] == before[i]);
                } else {
                    assert(sources@[j] == before[j]);
                    assert(sources@[i] == moved);
                    assert(a.0 < low);
                }
            }
        }
    }
    proof {
        assert(sources@ =~= renumbered_sources(docs).unwrap());
    }
    Ok(sources)
}

// ---------------------------------------------------------------------------
// Summaries
// ---------------------------------------------------------------------------

/// What planning reads of the object under `id`.
pub open spec fn entry_of(d: lopdf::Document, id: ObjectId) -> Entry {
    if objects_of(d).contains_key(id) {
        Entry {
            id,
            kind: kind_of(type_of(objects_of(d)[id])),
            dictionary: dict_of(objects_of(d)[id]) is Some,
        }
    } else {
        Entry { id, kind: ObjectKind::Other, dictionary: false }
    }
}

/// What planning reads of a document.
pub open spec fn summary_of(d: lopdf::Document) -> SourceView {
    SourceView {
        entries: Seq::new(object_ids_of(d).len(), |i: int| entry_of(d, object_ids_of(d)[i])),
        pages: page_ids_of(d),
    }
}

/// What planning reads of several documents.
pub open spec fn summaries_of(docs: Seq<lopdf::Document>) -> Seq<SourceView> {
    Seq::new(docs.len(), |k: int| summary_of(docs[k]))
}

/// Summarises a document for planning: every object of its table with its
/// kind, in table order, and its pages in page order.
pub fn summarize(document: &lopdf::Document) -> (s: Source)
    ensures
        s@ == summary_of(*document),
{
    let ids = doc_object_ids(document);
    let mut entries: Vec<Entry> = Vec::new();
    let mut i: usize = 0;
    while i < ids.len()
        invariant
            i <= ids.len(),
            ids@ == object_ids_of(*document),
            entries@ == Seq::new(i as nat, |j: int| entry_of(*document, ids@[j])),
        decreases ids.len() - i,
    {
        let id = ids[i];
        let entry = match doc_get(document, id) {
            Some(object) => Entry {
                id,
                kind: classify(object_type(&object).as_slice()),
                dictionary: object_as_dict(&object).is_some(),
            },
            None => Entry { id, kind: ObjectKind::Other, dictionary: false },
        };
        entries.push(entry);
        proof {
            assert(entries@ =~= Seq::new((i + 1) as nat, |j: int| entry_of(*document, ids@[j])));
        }
        i = i + 1;
    }
    let s = Source { entries, pages: doc_page_ids(document) };
    proof {
        assert(s@.entries =~= summary_of(*document).entries);
    }
    s
}

/// Summarises every source.
pub fn summarize_all(documents: &Vec<lopdf::Document>) -> (sources: Vec<Source>)
    ensures
        views_of(sources@) == summaries_of(documents@),
{
    let mut sources: Vec<Source> = Vec::new();
    let mut k: usize = 0;
    while k < documents.len()
        invariant
            k <= documents.len(),
            sources.len() == k,
            forall|j: int| 0 <= j < k ==> #[trigger] sources@[j]@ == summary_of(documents@[j]),
        decreases documents.len() - k,
    {
        sources.push(summarize(&documents[k]));
        k = k + 1;
    }
    proof {
        assert(views_of(sources@) =~= summaries_of(documents@));
    }
    sources
}

// ---------------------------------------------------------------------------
// Assembling the output
// ---------------------------------------------------------------------------

/// The style of the bookmarks of a merged document: plain.
pub open spec fn bookmark_style() -> u32 {
    0
}

/// The catalog that the trailer of a document names as its root.
pub open spec fn root_of(d: lopdf::Document) -> Option<ObjectId> {
    trailer_reference_of(d, key_root())
}

/// The dictionary of the catalog that the trailer names, where it names an
/// object of the table that is a dictionary.
pub open spec fn catalog_of(d: lopdf::Document) -> Option<lopdf::Dictionary> {
    match root_of(d) {
        Some(catalog) => if objects_of(d).contains_key(catalog) {
            dict_of(objects_of(d)[catalog])
        } else {
            None
        },
        None => None,
    }
}

/// Whether the object under `id` is the dictionary `dict`.
pub open spec fn holds_dictionary(d: lopdf::Document, id: ObjectId, dict: lopdf::Dictionary)
    -> bool {
    &&& objects_of(d).contains_key(id)
    &&& objects_of(d)[id] == dictionary_object(dict)
    &&& dict_of(objects_of(d)[id]) == Some(dict)
}

/// Whether the catalog of a document names `outline` as its outline root.
pub open spec fn names_outline(d: lopdf::Document, outline: ObjectId) -> bool {
    &&& catalog_of(d) matches Some(catalog)
    &&& entries_of(catalog).contains_key(key_outlines())
    &&& entries_of(catalog)[key_outlines()] == reference_to(outline)
}

/// The object that `at` names among the sources, if there is one.
pub open spec fn object_at(docs: Seq<lopdf::Document>, at: Located) -> Option<lopdf::Object> {
    if at.source < docs.len() && objects_of(docs[at.source as int]).contains_key(at.id) {
        Some(objects_of(docs[at.source as int])[at.id])
    } else {
        None
    }
}

/// The dictionary that `at` names among the sources, if it names one.
pub open spec fn dict_at(docs: Seq<lopdf::Document>, at: Located) -> Option<lopdf::Dictionary> {
    match object_at(docs, at) {
        Some(o) => dict_of(o),
        None => None,
    }
}

/// The page that `at` names among the sources, found as the source itself
/// finds its pages.
pub open spec fn page_at(docs: Seq<lopdf::Document>, at: Located) -> Option<lopdf::Object> {
    if at.source < docs.len() {
        resolved_in(docs[at.source as int], at.id)
    } else {
        None
    }
}

/// `d` with one bookmark for each target, in order: the `n`-th is titled with
/// the number `n`, counted from 1. Each is a top-level bookmark in plain
/// style.
pub open spec fn bookmarked(d: lopdf::Document, targets: Seq<Located>) -> lopdf::Document
    decreases targets.len(),
{
    if targets.len() == 0 {
        d
    } else {
        with_bookmark(
            bookmarked(d, targets.drop_last()),
            page_label(targets.len()),
            bookmark_style(),
            targets.last().id,
            None,
        )
    }
}

/// `d` with each of `items` copied from its source under its id.
pub open spec fn with_copies(d: lopdf::Document, docs: Seq<lopdf::Document>, items: Seq<Located>)
    -> lopdf::Document
    decreases items.len(),
{
    if items.len() == 0 {
        d
    } else {
        let before = with_copies(d, docs, items.drop_last());
        match object_at(docs, items.last()) {
            Some(o) => with_object(before, items.last().id, o),
            None => before,
        }
    }
}

/// `d` with each of the pages `kids` under its id, hung under `root`.
pub open spec fn with_pages(
    d: lopdf::Document,
    docs: Seq<lopdf::Document>,
    kids: Seq<Located>,
    root: ObjectId,
) -> lopdf::Document
    decreases kids.len(),
{
    if kids.len() == 0 {
        d
    } else {
        let before = with_pages(d, docs, kids.drop_last(), root);
        match page_at(docs, kids.last()) {
            Some(o) => match reparented(o, root) {
                Some(page) => with_object(before, kids.last().id, page),
                None => before,
            },
            None => before,
        }
    }
}

/// `base` after each of the dictionaries `others` was folded into it, in order.
pub open spec fn folded_into(
    base: lopdf::Dictionary,
    docs: Seq<lopdf::Document>,
    others: Seq<Located>,
) -> lopdf::Dictionary
    decreases others.len(),
{
    if others.len() == 0 {
        base
    } else {
        let before = folded_into(base, docs, others.drop_last());
        match dict_at(docs, others.last()) {
            Some(other) => first_wins(before, other),
            None => before,
        }
    }
}

/// The page tree root of the output.
pub open spec fn merged_pages(docs: Seq<lopdf::Document>, plan: PlanView) -> Option<
    lopdf::Dictionary,
> {
    match dict_at(docs, plan.pages_root) {
        Some(base) => Some(rebuilt_pages(folded_into(base, docs, plan.folded), plan.kids)),
        None => None,
    }
}

/// The catalog of the output.
pub open spec fn merged_catalog(docs: Seq<lopdf::Document>, plan: PlanView) -> Option<
    lopdf::Dictionary,
> {
    match dict_at(docs, plan.catalog) {
        Some(catalog) => Some(rebuilt_catalog(catalog, plan.pages_root.id)),
        None => None,
    }
}

/// `d` with `dict`, where there is one, as the object under `id`.
pub open spec fn with_dictionary(d: lopdf::Document, id: ObjectId, dict: Option<lopdf::Dictionary>)
    -> lopdf::Document {
    match dict {
        Some(dict) => with_object(d, id, dictionary_object(dict)),
        None => d,
    }
}

/// The output of a merge before it is renumbered: a new document of version
/// 1.5 with the bookmarks, the copied objects, the pages, the page tree root
/// and the catalog, in this order, and the catalog as its root.
pub open spec fn assembled(docs: Seq<lopdf::Document>, plan: PlanView) -> lopdf::Document {
    let marked = bookmarked(blank_document(seq!['1', '.', '5']), plan.bookmarks);
    let copied = with_copies(marked, docs, plan.copied);
    let paged = with_pages(copied, docs, plan.kids, plan.pages_root.id);
    let rooted = with_dictionary(paged, plan.pages_root.id, merged_pages(docs, plan));
    let complete = with_dictionary(rooted, plan.catalog.id, merged_catalog(docs, plan));
    with_trailer_reference(complete, key_root(), plan.catalog.id)
}

fn lookup(documents: &Vec<lopdf::Document>, at: Located) -> (o: Option<lopdf::Object>)
    ensures
        o == object_at(documents@, at),
{
    if at.source < documents.len() {
        doc_get(&documents[at.source], at.id)
    } else {
        None
    }
}

fn lookup_dict(documents: &Vec<lopdf::Document>, at: Located) -> (d: Option<lopdf::Dictionary>)
    ensures
        d == dict_at(documents@, at),
{
    match lookup(documents, at) {
        Some(object) => object_as_dict(&object),
        None => None,
    }
}

fn lookup_page(documents: &Vec<lopdf::Document>, at: Located) -> (o: Option<lopdf::Object>)
    ensures
        o == page_at(documents@, at),
{
    if at.source < documents.len() {
        doc_resolve(&documents[at.source], at.id)
    } else {
        None
    }
}

fn insert_dictionary(output: &mut lopdf::Document, id: ObjectId, dict: Option<lopdf::Dictionary>)
    ensures
        *final(output) == with_dictionary(*old(output), id, dict),
        bookmark_count_of(*final(output)) == bookmark_count_of(*old(output)),
        plain_bookmarks(*final(output)) == plain_bookmarks(*old(output)),
        dict matches Some(inserted) ==> holds_dictionary(*final(output), id, inserted),
        forall|other: ObjectId|
            other != id ==> objects_of(*final(output)).contains_key(other) == objects_of(
                *old(output),
            ).contains_key(other) && #[trigger] objects_of(*final(output))[other] == objects_of(
                *old(output),
            )[other],
{
    match dict {
        Some(dict) => {
            doc_insert(output, id, object_from_dict(dict));
        },
        None => {},
    }
}

/// Builds the page tree root of the output: the first root of the sources,
/// the others folded into it so that an entry that is there stays, and then
/// rebuilt for the pages of the output.
pub fn merge_pages(documents: &Vec<lopdf::Document>, plan: &MergePlan) -> (r: Option<
    lopdf::Dictionary,
>)
    requires
        plan.kids.len() <= u32::MAX,
    ensures
        r == merged_pages(documents@, plan@),
        r is Some <==> dict_at(documents@, plan.pages_root) is Some,
        r is Some ==> entries_of(r.unwrap()).contains_key(key_count()) && entries_of(
            r.unwrap(),
        )[key_count()] == integer_of(plan.kids.len() as i64),
        r is Some ==> entries_of(r.unwrap()).contains_key(key_kids()) && entries_of(
            r.unwrap(),
        )[key_kids()] == array_of(kid_references(plan.kids@)),
        r is Some ==> forall|key: Seq<u8>|
            key != key_count() && key != key_kids() && #[trigger] entries_of(
                dict_at(documents@, plan.pages_root).unwrap(),
            ).contains_key(key) ==> entries_of(r.unwrap()).contains_key(key) && entries_of(
                r.unwrap(),
            )[key] == entries_of(dict_at(documents@, plan.pages_root).unwrap())[key],
{
    match lookup_dict(documents, plan.pages_root) {
        Some(base) => {
            let mut root = base;
            let mut i: usize = 0;
            while i < plan.folded.len()
                invariant
                    i <= plan.folded.len(),
                    root == folded_into(base, documents@, plan.folded@.take(i as int)),
                    forall|key: Seq<u8>| #[trigger]
                        entries_of(base).contains_key(key) ==> entries_of(root).contains_key(key)
                            && entries_of(root)[key] == entries_of(base)[key],
                decreases plan.folded.len() - i,
            {
                proof {
                    assert(plan.folded@.take(i + 1).drop_last() =~= plan.folded@.take(i as int));
                }
                match lookup_dict(documents, plan.folded[i]) {
                    Some(other) => {
                        merge_first_wins(&mut root, &other);
                    },
                    None => {},
                }
                i = i + 1;
            }
            proof {
                assert(plan.folded@.take(plan.folded.len() as int) =~= plan.folded@);
            }
            Some(rebuild_pages(root, &plan.kids))
        },
        None => None,
    }
}

/// Whether the page tree root `root` counts and lists the pages `kids`.
pub open spec fn lists_pages(root: lopdf::Dictionary, kids: Seq<Located>) -> bool {
    &&& entries_of(root).contains_key(key_count())
    &&& entries_of(root)[key_count()] == integer_of(kids.len() as i64)
    &&& entries_of(root).contains_key(key_kids())
    &&& entries_of(root)[key_kids()] == array_of(kid_references(kids))
}

/// Whether the catalog `catalog` names `root` as its page tree root and no
/// outline.
pub open spec fn points_at(catalog: lopdf::Dictionary, root: ObjectId) -> bool {
    &&& entries_of(catalog).contains_key(key_pages())
    &&& entries_of(catalog)[key_pages()] == reference_to(root)
    &&& !entries_of(catalog).contains_key(key_outlines())
}

/// Whether `output` holds what the plan asks of the output of a merge: the
/// trailer names the catalog of the plan; the catalog stands under its id
/// and names the page tree root; the page tree root stands under its own id
/// and counts and lists the pages of the plan in their order; and there are
/// as many bookmarks as the plan has.
pub open spec fn as_planned(output: lopdf::Document, docs: Seq<lopdf::Document>, plan: PlanView)
    -> bool {
    &&& root_of(output) == Some(plan.catalog.id)
    &&& bookmark_count_of(output) == plan.bookmarks.len()
    &&& merged_catalog(docs, plan) matches Some(catalog) ==> holds_dictionary(
        output,
        plan.catalog.id,
        catalog,
    ) && points_at(catalog, plan.pages_root.id)
    &&& merged_pages(docs, plan) matches Some(root) ==> lists_pages(root, plan.kids) && (
    plan.pages_root.id == plan.catalog.id || holds_dictionary(output, plan.pages_root.id, root))
}

/// Assembles the output of a merge from the renumbered sources as the plan
/// says: the bookmarks first, then the copied objects, the pages hung under
/// the root, the page tree root and the catalog, each under its id, and the
/// catalog as the root that the trailer names.
pub fn assemble(documents: &Vec<lopdf::Document>, plan: &MergePlan) -> (output: lopdf::Document)
    requires
        plan.kids.len() <= u32::MAX,
        plan.bookmarks.len() <= u32::MAX,
    ensures
        output == assembled(documents@, plan@),
        as_planned(output, documents@, plan@),
        plain_bookmarks(output),
{
    let mut output = doc_new("1.5");
    proof {
        reveal_strlit("1.5");
        assert("1.5"@ =~= seq!['1', '.', '5']);
    }
    let ghost blank = output;
    let mut i: usize = 0;
    while i < plan.bookmarks.len()
        invariant
            i <= plan.bookmarks.len(),
            plan.bookmarks.len() <= u32::MAX,
            output == bookmarked(blank, plan.bookmarks@.take(i as int)),
            bookmark_count_of(output) == i,
            plain_bookmarks(output),
        decreases plan.bookmarks.len() - i,
    {
        proof {
            assert(plan.bookmarks@.take(i + 1).drop_last() =~= plan.bookmarks@.take(i as int));
        }
        doc_add_bookmark(&mut output, bookmark_title(i + 1), 0, plan.bookmarks[i].id, None);
        i = i + 1;
    }
    proof {
        assert(plan.bookmarks@.take(plan.bookmarks.len() as int) =~= plan.bookmarks@);
    }
    let ghost marked = output;
    let mut i: usize = 0;
    while i < plan.copied.len()
        invariant
            i <= plan.copied.len(),
            output == with_copies(marked, documents@, plan.copied@.take(i as int)),
            bookmark_count_of(output) == plan.bookmarks.len(),
            plain_bookmarks(output),
        decreases plan.copied.len() - i,
    {
        proof {
            assert(plan.copied@.take(i + 1).drop_last() =~= plan.copied@.take(i as int));
        }
        match lookup(documents, plan.copied[i]) {
            Some(object) => {
                doc_insert(&mut output, plan.copied[i].id, object);
            },
            None => {},
        }
        i = i + 1;
    }
    proof {
        assert(plan.copied@.take(plan.copied.len() as int) =~= plan.copied@);
    }
    let ghost copied = output;
    let root = plan.pages_root.id;
    let mut i: usize = 0;
    while i < plan.kids.len()
        invariant
            i <= plan.kids.len(),
            output == with_pages(copied, documents@, plan.kids@.take(i as int), root),
            bookmark_count_of(output) == plan.bookmarks.len(),
            plain_bookmarks(output),
        decreases plan.kids.len() - i,
    {
        proof {
            assert(plan.kids@.take(i + 1).drop_last() =~= plan.kids@.take(i as int));
        }
        match lookup_page(documents, plan.kids[i]) {
            Some(object) => match reparent(&object, root) {
                Some(page) => {
                    doc_insert(&mut output, plan.kids[i].id, page);
                },
                None => {},
            },
            None => {},
        }
        i = i + 1;
    }
    proof {
        assert(plan.kids@.take(plan.kids.len() as int) =~= plan.kids@);
    }
    insert_dictionary(&mut output, root, merge_pages(documents, plan));
    let catalog = match lookup_dict(documents, plan.catalog) {
        Some(catalog) => Some(rebuild_catalog(catalog, root)),
        None => None,
    };
    insert_dictionary(&mut output, plan.catalog.id, catalog);
    let root_key: [u8; 4] = [82, 111, 111, 116];
    assert(root_key@ =~= key_root());
    doc_set_trailer_reference(&mut output, root_key.as_slice(), plan.catalog.id);
    output
}

// ---------------------------------------------------------------------------
// Finishing the output
// ---------------------------------------------------------------------------

/// `d` with the outline root `outline` named in its catalog, where the
/// trailer names a catalog that is a dictionary.
pub open spec fn with_outline(d: lopdf::Document, outline: ObjectId) -> lopdf::Document {
    match root_of(d) {
        Some(catalog) => if objects_of(d).contains_key(catalog) {
            match dict_of(objects_of(d)[catalog]) {
                Some(dict) => with_object(
                    d,
                    catalog,
                    dictionary_object(with_entry(dict, key_outlines(), reference_to(outline))),
                ),
                None => d,
            }
        } else {
            d
        },
        None => d,
    }
}

/// The assembled document `d` renumbered from 1 on, with the targets of its
/// bookmarks settled.
pub open spec fn compacted(d: lopdf::Document) -> lopdf::Document {
    zero_pages_adjusted(renumbered(with_max_id(d, objects_of(d).len() as u32), 1))
}

/// `d`, renumbered, with the outline that its bookmarks make, if they make
/// one.
pub open spec fn with_built_outline(d: lopdf::Document) -> lopdf::Document {
    match outlined(d).1 {
        Some(outline) => with_outline(outlined(d).0, outline),
        None => outlined(d).0,
    }
}

/// Whether the outline of `d` can get its object numbers: one for its root
/// and two for each bookmark.
pub open spec fn outline_fits(d: lopdf::Document) -> bool {
    max_id_of(d) + 1 + 2 * bookmark_count_of(d) <= u32::MAX
}

/// Whether finishing the assembled document `d` keeps its bookmarks and names
/// their outline: the bookmarks are as many after renumbering as before;
/// where there is none, no outline is built; where there is one, the outline
/// root gets the number after the highest one, stands in the object table,
/// and the catalog that the trailer names, where it is a dictionary, names
/// it under `Outlines`.
pub open spec fn outline_attached(d: lopdf::Document) -> bool {
    let c = compacted(d);
    let outline = ((max_id_of(c) + 1) as u32, 0u16);
    &&& bookmark_count_of(c) == bookmark_count_of(d)
    &&& bookmark_count_of(d) == 0 ==> outlined(c).1 is None
    &&& bookmark_count_of(d) > 0 ==> outlined(c).1 == Some(outline) && objects_of(
        with_built_outline(c),
    ).contains_key(outline)
    &&& bookmark_count_of(d) > 0 && catalog_of(c) is Some ==> names_outline(
        with_built_outline(c),
        outline,
    )
}

/// Whether the assembled document `d` can be finished: its objects can be
/// renumbered and its outline can get its numbers.
pub open spec fn can_finish(d: lopdf::Document) -> bool {
    objects_of(d).len() <= i32::MAX && outline_fits(compacted(d))
}

/// The bytes of the assembled document `d`, or why there are none.
pub open spec fn finished(d: lopdf::Document) -> Result<Seq<u8>, MergeError> {
    if !can_finish(d) {
        Err(MergeError::TooManyObjects)
    } else {
        match saved(compressed(with_built_outline(compacted(d)))) {
            Some(bytes) => Ok(bytes),
            None => Err(MergeError::Unwritable),
        }
    }
}

/// Reads from the trailer which object is the catalog.
pub fn root(document: &lopdf::Document) -> (id: Option<ObjectId>)
    ensures
        id == root_of(*document),
{
    let key: [u8; 4] = [82, 111, 111, 116];
    assert(key@ =~= key_root());
    doc_trailer_reference(document, key.as_slice())
}

/// Names the outline root in the catalog: `Outlines` of the catalog becomes
/// a reference to it and its other entries stay. Where the trailer names no
/// catalog, or none that is a dictionary, nothing changes.
pub fn attach_outline(document: &mut lopdf::Document, outline: ObjectId)
    ensures
        *final(document) == with_outline(*old(document), outline),
        root_of(*final(document)) == root_of(*old(document)),
        catalog_of(*old(document)) is None ==> *final(document) == *old(document),
        catalog_of(*old(document)) matches Some(before) ==> names_outline(*final(document), outline)
            && entries_of(catalog_of(*final(document)).unwrap()) == entries_of(before).insert(
            key_outlines(),
            reference_to(outline),
        ),
        forall|id: ObjectId| #[trigger]
            objects_of(*old(document)).contains_key(id) ==> objects_of(
                *final(document),
            ).contains_key(id),
{
    match root(document) {
        Some(catalog) => match doc_get(document, catalog) {
            Some(object) => match object_as_dict(&object) {
                Some(dict) => {
                    let mut dict = dict;
                    let key: [u8; 8] = [79, 117, 116, 108, 105, 110, 101, 115];
                    assert(key@ =~= key_outlines());
                    dict_set(&mut dict, key.as_slice(), object_reference(outline));
                    doc_insert(document, catalog, object_from_dict(dict));
                },
                None => {},
            },
            None => {},
        },
        None => {},
    }
}

/// Finishes an assembled document: renumbers its objects from 1 on without
/// gaps, builds the outline from the bookmarks and names it in the catalog,
/// compresses the streams and writes the bytes. Where the document has a
/// bookmark, the document that is written has an outline, and its catalog
/// names it. The bookmarks of the document are plain.
pub fn finish(document: lopdf::Document) -> (r: Result<Vec<u8>, MergeError>)
    requires
        plain_bookmarks(document),
    ensures
        match finished(document) {
            Ok(bytes) => r is Ok && r.unwrap()@ == bytes,
            Err(e) => r == Err::<Vec<u8>, MergeError>(e),
        },
        can_finish(document) ==> outline_attached(document),
{
    let mut document = document;
    let count = doc_len(&document);
    if count > i32::MAX as usize {
        return Err(MergeError::TooManyObjects);
    }
    doc_set_max_id(&mut document, count as u32);
    doc_renumber(&mut document, 1);
    doc_adjust_zero_pages(&mut document);
    let bookmarks = doc_bookmark_count(&document);
    if bookmarks > u32::MAX as usize || doc_max_id(&document) as u64 + 1 + 2 * (bookmarks as u64)
        > u32::MAX as u64 {
        return Err(MergeError::TooManyObjects);
    }
    match doc_build_outline(&mut document) {
        Some(outline) => {
            attach_outline(&mut document, outline);
        },
        None => {},
    }
    doc_compress(&mut document);
    match doc_save(document) {
        Some(bytes) => Ok(bytes),
        None => Err(MergeError::Unwritable),
    }
}

// ---------------------------------------------------------------------------
// The merge
// ---------------------------------------------------------------------------

/// What merging `docs` gives: the bytes of one document, or why there is
/// none.
pub open spec fn merged(docs: Seq<lopdf::Document>) -> Result<Seq<u8>, MergeError> {
    match renumbered_sources(docs) {
        None => Err(MergeError::TooManyObjects),
        Some(sources) => {
            let summaries = summaries_of(sources);
            if routed(summaries, Route::Pages).len() == 0 {
                Err(MergeError::MissingRoot(MissingRoot::Pages))
            } else if routed(summaries, Route::Catalog).len() == 0 {
                Err(MergeError::MissingRoot(MissingRoot::Catalog))
            } else if planned(summaries).kids.len() > u32::MAX {
                Err(MergeError::TooManyObjects)
            } else {
                finished(assembled(sources, planned(summaries)))
            }
        },
    }
}

/// What holds of the document that a merge of `docs` writes, where the
/// sources hold a catalog and a page tree root: before it is renumbered it
/// holds what the plan asks, and finishing it names the outline of its
/// bookmarks in the catalog.
pub open spec fn merge_keeps_plan(docs: Seq<lopdf::Document>) -> bool {
    renumbered_sources(docs) matches Some(sources) ==> {
        let plan = planned(summaries_of(sources));
        let output = assembled(sources, plan);
        has_roots(summaries_of(sources)) && plan.kids.len() <= u32::MAX ==> as_planned(
            output,
            sources,
            plan,
        ) && (can_finish(output) ==> outline_attached(output))
    }
}

/// Merges parsed documents into one, with the pages of the first document
/// first, and writes it.
///
/// The output has the first catalog and the first page tree root of the
/// sources. Entries of later page tree roots are added to the root where it
/// has none under the same key. Every page hangs under the root, which
/// counts and lists them in the order of the sources. Bookmarks of the
/// sources are not kept: the output gets one per source that has a page, on
/// its first page, titled `Page_1`, `Page_2` and so on.
///
/// Sources without a page tree root, or without a catalog, give
/// `MissingRoot`.
///
/// The sources are documents as they are read or built object by object:
/// their bookmarks, if they have any, are plain.
pub fn merge_pdfs(documents: Vec<lopdf::Document>) -> (r: Result<Vec<u8>, MergeError>)
    requires
        forall|k: int| 0 <= k < documents.len() ==> plain_bookmarks(#[trigger] documents[k]),
    ensures
        match merged(documents@) {
            Ok(bytes) => r is Ok && r.unwrap()@ == bytes,
            Err(e) => r == Err::<Vec<u8>, MergeError>(e),
        },
        merge_keeps_plan(documents@),
{
    let sources = match renumber_sources(documents) {
        Ok(sources) => sources,
        Err(e) => {
            return Err(e);
        },
    };
    let summaries = summarize_all(&sources);
    let plan = match plan_merge(&summaries) {
        Ok(plan) => plan,
        Err(missing) => {
            return Err(MergeError::MissingRoot(missing));
        },
    };
    if plan.kids.len() > u32::MAX as usize {
        return Err(MergeError::TooManyObjects);
    }
    proof {
        lemma_bookmarks_within_pages(views_of(summaries@));
    }
    finish(assemble(&sources, &plan))
}

} // verus!
