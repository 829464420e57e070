//! Planning a merge on plain values.
//!
//! A source document enters here as a summary: the ids of its objects in table
//! order, each with its declared kind, and the ids of its pages in page order.
//! From the summaries of all sources the plan says which object becomes the
//! catalog of the output, which one its page tree root, which other page tree
//! roots are folded into it, which objects are copied, the order of the pages,
//! and where the bookmarks point.

use vstd::prelude::*;
use crate::pdf::ObjectId;

verus! {

/// What an object declares itself to be.
#[derive(Clone, Copy, Debug, PartialEq, Eq, Structural)]
pub enum ObjectKind {
    Catalog,
    Pages,
    Page,
    Outlines,
    Outline,
    Other,
}

/// Where the merge sends an object.
#[derive(Clone, Copy, Debug, PartialEq, Eq, Structural)]
pub enum Route {
    /// A candidate for the catalog of the output.
    Catalog,
    /// A candidate for the page tree root of the output.
    Pages,
    /// Left to the walk of the page tree, which collects the pages.
    Deferred,
    /// Not part of the output.
    Dropped,
    /// Copied under its id.
    Copied,
}

/// One object of a source document, as far as planning reads it.
#[derive(Clone, Copy, Debug, PartialEq, Eq)]
pub struct Entry {
    pub id: ObjectId,
    pub kind: ObjectKind,
    /// Whether the object is a dictionary (a stream is not).
    pub dictionary: bool,
}

/// An object of one of the sources: the position of the source in the input,
/// and the id of the object in it.
#[derive(Clone, Copy, Debug, PartialEq, Eq)]
pub struct Located {
    pub source: usize,
    pub id: ObjectId,
}

/// A source document, as far as planning reads it.
#[derive(Clone, Debug)]
pub struct Source {
    /// The objects in the order of the object table.
    pub entries: Vec<Entry>,
    /// The pages in page order.
    pub pages: Vec<ObjectId>,
}

/// A source document as a mathematical value.
pub struct SourceView {
    pub entries: Seq<Entry>,
    pub pages: Seq<ObjectId>,
}

impl View for Source {
    type V = SourceView;

    open spec fn view(&self) -> SourceView {
        SourceView { entries: self.entries@, pages: self.pages@ }
    }
}

/// The sources of a merge as mathematical values.
pub open spec fn views_of(sources: Seq<Source>) -> Seq<SourceView> {
    Seq::new(sources.len(), |i: int| sources[i]@)
}

/// The root object that a set of sources lacks.
#[derive(Clone, Copy, Debug, PartialEq, Eq, Structural)]
pub enum MissingRoot {
    Pages,
    Catalog,
}

/// What a merge of the sources does.
#[derive(Clone, Debug)]
pub struct MergePlan {
    /// The catalog of the output: the first catalog of the sources.
    pub catalog: Located,
    /// The page tree root of the output: the first one of the sources.
    pub pages_root: Located,
    /// The other page tree roots, in order; their entries are added to the
    /// root where it has none under the same key.
    pub folded: Vec<Located>,
    /// The objects that are copied unchanged.
    pub copied: Vec<Located>,
    /// The pages of the output, in order.
    pub kids: Vec<Located>,
    /// The first page of each source that has a page, in the order of the
    /// sources: the target of that source's bookmark.
    pub bookmarks: Vec<Located>,
}

/// The type name of a catalog: `Catalog`.
pub open spec fn name_catalog() -> Seq<u8> {
    seq![67u8, 97u8, 116u8, 97u8, 108u8, 111u8, 103u8]
}

/// The type name of a page tree root: `Pages`.
pub open spec fn name_pages() -> Seq<u8> {
    seq![80u8, 97u8, 103u8, 101u8, 115u8]
}

/// The type name of a page: `Page`.
pub open spec fn name_page() -> Seq<u8> {
    seq![80u8, 97u8, 103u8, 101u8]
}

/// The type name of an outline root: `Outlines`.
pub open spec fn name_outlines() -> Seq<u8> {
    seq![79u8, 117u8, 116u8, 108u8, 105u8, 110u8, 101u8, 115u8]
}

/// The type name of an outline item: `Outline`.
pub open spec fn name_outline() -> Seq<u8> {
    seq![79u8, 117u8, 116u8, 108u8, 105u8, 110u8, 101u8]
}

/// The kind that a declared type name stands for.
pub open spec fn kind_of(name: Seq<u8>) -> ObjectKind {
    if name == name_catalog() {
        ObjectKind::Catalog
    } else if name == name_pages() {
        ObjectKind::Pages
    } else if name == name_page() {
        ObjectKind::Page
    } else if name == name_outlines() {
        ObjectKind::Outlines
    } else if name == name_outline() {
        ObjectKind::Outline
    } else {
        ObjectKind::Other
    }
}

/// The route of an object. A page tree root must be a dictionary to be one;
/// bookmarks of the sources are not kept.
pub open spec fn route_of(e: Entry) -> Route {
    match e.kind {
        ObjectKind::Catalog => Route::Catalog,
        ObjectKind::Pages => if e.dictionary {
            Route::Pages
        } else {
            Route::Dropped
        },
        ObjectKind::Page => Route::Deferred,
        ObjectKind::Outlines => Route::Dropped,
        ObjectKind::Outline => Route::Dropped,
        ObjectKind::Other => Route::Copied,
    }
}

/// The objects among `entries` that take `route`, in order, as objects of the
/// source at position `source`.
pub open spec fn routed_in(entries: Seq<Entry>, source: usize, route: Route) -> Seq<Located>
    decreases entries.len(),
{
    if entries.len() == 0 {
        Seq::empty()
    } else {
        let before = routed_in(entries.drop_last(), source, route);
        if route_of(entries.last()) == route {
            before.push(Located { source, id: entries.last().id })
        } else {
            before
        }
    }
}

/// The objects of all sources that take `route`: source after source, each in
/// the order of its object table.
pub open spec fn routed(sources: Seq<SourceView>, route: Route) -> Seq<Located>
    decreases sources.len(),
{
    if sources.len() == 0 {
        Seq::empty()
    } else {
        routed(sources.drop_last(), route) + routed_in(
            sources.last().entries,
            (sources.len() - 1) as usize,
            route,
        )
    }
}

/// The page ids `pages` as objects of the source at position `source`.
pub open spec fn pages_in(pages: Seq<ObjectId>, source: usize) -> Seq<Located> {
    Seq::new(pages.len(), |i: int| Located { source, id: pages[i] })
}

/// The pages of all sources: source after source, each in its page order.
pub open spec fn all_pages(sources: Seq<SourceView>) -> Seq<Located>
    decreases sources.len(),
{
    if sources.len() == 0 {
        Seq::empty()
    } else {
        all_pages(sources.drop_last()) + pages_in(
            sources.last().pages,
            (sources.len() - 1) as usize,
        )
    }
}

/// The number of pages of all sources together.
pub open spec fn page_total(sources: Seq<SourceView>) -> nat
    decreases sources.len(),
{
    if sources.len() == 0 {
        0
    } else {
        page_total(sources.drop_last()) + sources.last().pages.len()
    }
}

/// The first page of each source that has one, in the order of the sources.
pub open spec fn first_pages(sources: Seq<SourceView>) -> Seq<Located>
    decreases sources.len(),
{
    if sources.len() == 0 {
        Seq::empty()
    } else {
        let before = first_pages(sources.drop_last());
        if sources.last().pages.len() > 0 {
            before.push(
                Located { source: (sources.len() - 1) as usize, id: sources.last().pages[0] },
            )
        } else {
            before
        }
    }
}

/// A plan as a mathematical value.
pub struct PlanView {
    pub catalog: Located,
    pub pages_root: Located,
    pub folded: Seq<Located>,
    pub copied: Seq<Located>,
    pub kids: Seq<Located>,
    pub bookmarks: Seq<Located>,
}

impl View for MergePlan {
    type V = PlanView;

    open spec fn view(&self) -> PlanView {
        PlanView {
            catalog: self.catalog,
            pages_root: self.pages_root,
            folded: self.folded@,
            copied: self.copied@,
            kids: self.kids@,
            bookmarks: self.bookmarks@,
        }
    }
}

/// Whether the sources hold what a merge needs: a page tree root and a catalog.
pub open spec fn has_roots(sources: Seq<SourceView>) -> bool {
    routed(sources, Route::Pages).len() > 0 && routed(sources, Route::Catalog).len() > 0
}

/// The plan for a merge of sources that hold both roots.
pub open spec fn planned(sources: Seq<SourceView>) -> PlanView {
    PlanView {
        catalog: routed(sources, Route::Catalog)[0],
        pages_root: routed(sources, Route::Pages)[0],
        folded: routed(sources, Route::Pages).drop_first(),
        copied: routed(sources, Route::Copied),
        kids: all_pages(sources),
        bookmarks: first_pages(sources),
    }
}

/// The pages of the output are as many as the pages of all sources together.
pub proof fn lemma_page_count(sources: Seq<SourceView>)
    ensures
        all_pages(sources).len() == page_total(sources),
    decreases sources.len(),
{
    if sources.len() > 0 {
        lemma_page_count(sources.drop_last());
    }
}

/// The pages of the output stand in the order of the sources, and those of
/// one source in its page order: page `i` of source `s` comes after all pages
/// of the sources before `s` and after `i` pages of `s`.
pub proof fn lemma_pages_in_source_order(sources: Seq<SourceView>, s: int, i: int)
    requires
        0 <= s < sources.len(),
        0 <= i < sources[s].pages.len(),
    ensures
        page_total(sources.take(s)) + i < all_pages(sources).len(),
        all_pages(sources)[page_total(sources.take(s)) + i] == (Located {
            source: s as usize,
            id: sources[s].pages[i],
        }),
    decreases sources.len(),
{
    let before = sources.drop_last();
    lemma_page_count(before);
    lemma_page_count(sources);
    if s == sources.len() - 1 {
        assert(sources.take(s) =~= before);
    } else {
        lemma_pages_in_source_order(before, s, i);
        assert(before.take(s) =~= sources.take(s));
    }
}

/// There are no more bookmarks than sources, and none without a page.
pub proof fn lemma_bookmarks_within_pages(sources: Seq<SourceView>)
    ensures
        first_pages(sources).len() <= sources.len(),
        first_pages(sources).len() <= all_pages(sources).len(),
    decreases sources.len(),
{
    if sources.len() > 0 {
        lemma_bookmarks_within_pages(sources.drop_last());
    }
}

/// Where every source has a page, every source has its bookmark: there are as
/// many bookmarks as sources, and the bookmark at position `s` points at the
/// first page of the source at position `s`.
pub proof fn lemma_one_bookmark_per_source(sources: Seq<SourceView>)
    requires
        forall|s: int| 0 <= s < sources.len() ==> (#[trigger] sources[s]).pages.len() >= 1,
    ensures
        first_pages(sources).len() == sources.len(),
        forall|s: int|
            0 <= s < sources.len() ==> #[trigger] first_pages(sources)[s] == (Located {
                source: s as usize,
                id: sources[s].pages[0],
            }),
    decreases sources.len(),
{
    if sources.len() > 0 {
        let before = sources.drop_last();
        assert forall|s: int| 0 <= s < before.len() implies (#[trigger] before[s]).pages.len()
            >= 1 by {
            assert(before[s] == sources[s]);
        }
        lemma_one_bookmark_per_source(before);
        assert forall|s: int| 0 <= s < sources.len() implies #[trigger] first_pages(sources)[s]
            == (Located { source: s as usize, id: sources[s].pages[0] }) by {
            if s < before.len() {
                assert(first_pages(sources)[s] == first_pages(before)[s]);
                assert(before[s] == sources[s]);
            }
        }
    }
}

/// Where every source has exactly one page, the output has one page and one
/// bookmark for each source, in the order of the sources, and the bookmark
/// at position `s` points at the page at position `s`.
pub proof fn lemma_single_pages(sources: Seq<SourceView>)
    requires
        forall|s: int| 0 <= s < sources.len() ==> (#[trigger] sources[s]).pages.len() == 1,
    ensures
        all_pages(sources).len() == sources.len(),
        first_pages(sources).len() == sources.len(),
        forall|s: int|
            0 <= s < sources.len() ==> #[trigger] all_pages(sources)[s] == (Located {
                source: s as usize,
                id: sources[s].pages[0],
            }),
        forall|s: int|
            0 <= s < sources.len() ==> #[trigger] first_pages(sources)[s] == all_pages(sources)[s],
    decreases sources.len(),
{
    if sources.len() > 0 {
        let before = sources.drop_last();
        assert forall|s: int| 0 <= s < before.len() implies (#[trigger] before[s]).pages.len()
            == 1 by {
            assert(before[s] == sources[s]);
        }
        lemma_single_pages(before);
        lemma_one_bookmark_per_source(sources);
        assert forall|s: int| 0 <= s < sources.len() implies #[trigger] all_pages(sources)[s]
            == (Located { source: s as usize, id: sources[s].pages[0] }) by {
            if s < before.len() {
                assert(all_pages(sources)[s] == all_pages(before)[s]);
                assert(before[s] == sources[s]);
            }
        }
    }
}

/// Whether two byte strings are the same.
pub fn same_bytes(a: &[u8], b: &[u8]) -> (same: bool)
    ensures
        same == (a@ == b@),
{
    if a.len() != b.len() {
        return false;
    }
    let mut i: usize = 0;
    while i < a.len()
        invariant
            a.len() == b.len(),
            i <= a.len(),
            forall|j: int| 0 <= j < i ==> a@[j] == b@[j],
        decreases a.len() - i,
    {
        if a[i] != b[i] {
            return false;
        }
        i = i + 1;
    }
    assert(a@ =~= b@);
    true
}

/// Classifies an object by its declared type name.
pub fn classify(name: &[u8]) -> (kind: ObjectKind)
    ensures
        kind == kind_of(name@),
{
    let catalog: [u8; 7] = [67, 97, 116, 97, 108, 111, 103];
    let pages: [u8; 5] = [80, 97, 103, 101, 115];
    let page: [u8; 4] = [80, 97, 103, 101];
    let outlines: [u8; 8] = [79, 117, 116, 108, 105, 110, 101, 115];
    let outline: [u8; 7] = [79, 117, 116, 108, 105, 110, 101];
    assert(catalog@ =~= name_catalog());
    assert(pages@ =~= name_pages());
    assert(page@ =~= name_page());
    assert(outlines@ =~= name_outlines());
    assert(outline@ =~= name_outline());
    if same_bytes(name, catalog.as_slice()) {
        ObjectKind::Catalog
    } else if same_bytes(name, pages.as_slice()) {
        ObjectKind::Pages
    } else if same_bytes(name, page.as_slice()) {
        ObjectKind::Page
    } else if same_bytes(name, outlines.as_slice()) {
        ObjectKind::Outlines
    } else if same_bytes(name, outline.as_slice()) {
        ObjectKind::Outline
    } else {
        ObjectKind::Other
    }
}

/// Says where the merge sends an object.
pub fn route(e: &Entry) -> (r: Route)
    ensures
        r == route_of(*e),
{
    match e.kind {
        ObjectKind::Catalog => Route::Catalog,
        ObjectKind::Pages => if e.dictionary {
            Route::Pages
        } else {
            Route::Dropped
        },
        ObjectKind::Page => Route::Deferred,
        ObjectKind::Outlines => Route::Dropped,
        ObjectKind::Outline => Route::Dropped,
        ObjectKind::Other => Route::Copied,
    }
}

fn same_route(a: Route, b: Route) -> (same: bool)
    ensures
        same == (a == b),
{
    match (a, b) {
        (Route::Catalog, Route::Catalog) => true,
        (Route::Pages, Route::Pages) => true,
        (Route::Deferred, Route::Deferred) => true,
        (Route::Dropped, Route::Dropped) => true,
        (Route::Copied, Route::Copied) => true,
        _ => false,
    }
}

/// Collects the objects of all sources that take `wanted`, in the order in
/// which the object tables are walked.
pub fn collect_routed(sources: &Vec<Source>, wanted: Route) -> (found: Vec<Located>)
    ensures
        found@ == routed(views_of(sources@), wanted),
{
    let mut found: Vec<Located> = Vec::new();
    let mut s: usize = 0;
    while s < sources.len()
        invariant
            s <= sources.len(),
            found@ == routed(views_of(sources@).take(s as int), wanted),
        decreases sources.len() - s,
    {
        let entries = &sources[s].entries;
        let ghost before = found@;
        let mut i: usize = 0;
        while i < entries.len()
            invariant
                s < sources.len(),
                entries == &sources[s as int].entries,
                i <= entries.len(),
                found@ == before + routed_in(entries@.take(i as int), s, wanted),
            decreases entries.len() - i,
        {
            let e = &entries[i];
            proof {
                assert(entries@.take(i + 1).drop_last() =~= entries@.take(i as int));
            }
            if same_route(route(e), wanted) {
                found.push(Located { source: s, id: e.id });
            }
            i = i + 1;
        }
        proof {
            assert(entries@.take(entries.len() as int) =~= entries@);
            assert(views_of(sources@).take(s + 1).drop_last() =~= views_of(sources@).take(s as int));
        }
        s = s + 1;
    }
    proof {
        assert(views_of(sources@).take(sources.len() as int) =~= views_of(sources@));
    }
    found
}

/// Collects the pages of all sources, source after source.
pub fn collect_pages(sources: &Vec<Source>) -> (kids: Vec<Located>)
    ensures
        kids@ == all_pages(views_of(sources@)),
{
    let mut kids: Vec<Located> = Vec::new();
    let mut s: usize = 0;
    while s < sources.len()
        invariant
            s <= sources.len(),
            kids@ == all_pages(views_of(sources@).take(s as int)),
        decreases sources.len() - s,
    {
        let pages = &sources[s].pages;
        let ghost before = kids@;
        let mut i: usize = 0;
        while i < pages.len()
            invariant
                s < sources.len(),
                pages == &sources[s as int].pages,
                i <= pages.len(),
                kids@ == before + pages_in(pages@.take(i as int), s),
            decreases pages.len() - i,
        {
            kids.push(Located { source: s, id: pages[i] });
            proof {
                assert(kids@ =~= before + pages_in(pages@.take(i + 1), s));
            }
            i = i + 1;
        }
        proof {
            assert(pages@.take(pages.len() as int) =~= pages@);
            assert(views_of(sources@).take(s + 1).drop_last() =~= views_of(sources@).take(s as int));
        }
        s = s + 1;
    }
    proof {
        assert(views_of(sources@).take(sources.len() as int) =~= views_of(sources@));
    }
    kids
}

/// Collects the first page of each source that has one.
pub fn collect_first_pages(sources: &Vec<Source>) -> (targets: Vec<Located>)
    ensures
        targets@ == first_pages(views_of(sources@)),
{
    let mut targets: Vec<Located> = Vec::new();
    let mut s: usize = 0;
    while s < sources.len()
        invariant
            s <= sources.len(),
            targets@ == first_pages(views_of(sources@).take(s as int)),
        decreases sources.len() - s,
    {
        proof {
            assert(views_of(sources@).take(s + 1).drop_last() =~= views_of(sources@).take(s as int));
        }
        if sources[s].pages.len() > 0 {
            targets.push(Located { source: s, id: sources[s].pages[0] });
        }
        s = s + 1;
    }
    proof {
        assert(views_of(sources@).take(sources.len() as int) =~= views_of(sources@));
    }
    targets
}

/// Plans the merge of `sources`.
///
/// Without a page tree root among the sources there is no plan, and none
/// without a catalog; the page tree root is looked for first. Otherwise the
/// first catalog and the first page tree root become those of the output.
pub fn plan_merge(sources: &Vec<Source>) -> (r: Result<MergePlan, MissingRoot>)
    ensures
        r == Err::<MergePlan, MissingRoot>(MissingRoot::Pages) <==> routed(
            views_of(sources@),
            Route::Pages,
        ).len() == 0,
        r == Err::<MergePlan, MissingRoot>(MissingRoot::Catalog) <==> routed(
            views_of(sources@),
            Route::Pages,
        ).len() > 0 && routed(views_of(sources@), Route::Catalog).len() == 0,
        r is Ok ==> has_roots(views_of(sources@)) && r.unwrap()@ == planned(views_of(sources@)),
{
    let mut roots = collect_routed(sources, Route::Pages);
    if roots.len() == 0 {
        return Err(MissingRoot::Pages);
    }
    let catalogs = collect_routed(sources, Route::Catalog);
    if catalogs.len() == 0 {
        return Err(MissingRoot::Catalog);
    }
    let catalog = catalogs[0];
    let pages_root = roots.remove(0);
    proof {
        assert(roots@ =~= routed(views_of(sources@), Route::Pages).drop_first());
    }
    Ok(
        MergePlan {
            catalog,
            pages_root,
            folded: roots,
            copied: collect_routed(sources, Route::Copied),
            kids: collect_pages(sources),
            bookmarks: collect_first_pages(sources),
        },
    )
}

} // verus!
