//! Which versions an import finds in a document, and which links it makes.

use vstd::prelude::*;

use crate::adoption_repairs::membership::{
    import_start, linked_sources, local_sources, sources_of, Candidate, ImportStage, ImportWork,
    Phase, Source,
};
use crate::adoption_repairs::request::{
    AdoptionState, ItemId, LinkedChild, MembershipItem, Reply, Request,
};
use crate::adoption_repairs::transaction;
use crate::json::Json;
use crate::outside;

verus! {

/// Whether an element lists a version by its path.
pub open spec fn lists_path(element: Json) -> bool {
    match element {
        Json::Text(path) => path@.len() > 0,
        _ => false,
    }
}

/// How many of the first `upto` elements list a version by its path.
pub open spec fn paths_listed(elements: Seq<Json>, upto: int) -> int
    decreases upto,
{
    if upto <= 0 {
        0
    } else {
        paths_listed(elements, upto - 1) + if lists_path(elements[upto - 1]) { 1int } else { 0 }
    }
}

/// Every text that is not empty is among the local versions, in the order of
/// the list, and there are no others.
pub proof fn law_every_path_is_a_local_version(elements: Seq<Json>)
    ensures
        local_sources(elements).len() == paths_listed(elements, elements.len() as int),
        forall|i: int|
            0 <= i < elements.len() && lists_path(#[trigger] elements[i]) ==> {
                let source = local_sources(elements)[paths_listed(elements, i)];
                &&& 0 <= paths_listed(elements, i) < local_sources(elements).len()
                &&& Some(source) == match elements[i] {
                    Json::Text(path) => Some(Source::Path { path, child_type: 2 }),
                    _ => None,
                }
            },
    decreases elements.len(),
{
    if elements.len() > 0 {
        let shorter = elements.drop_last();
        law_every_path_is_a_local_version(shorter);
        assert forall|upto: int| 0 <= upto <= shorter.len() implies #[trigger] paths_listed(
            elements,
            upto,
        ) == paths_listed(shorter, upto) by {
            lemma_same_paths_listed(elements, shorter, upto);
        }
        assert forall|i: int| 0 <= i < elements.len() && lists_path(#[trigger] elements[i]) implies {
            let source = local_sources(elements)[paths_listed(elements, i)];
            &&& 0 <= paths_listed(elements, i) < local_sources(elements).len()
            &&& Some(source) == match elements[i] {
                Json::Text(path) => Some(Source::Path { path, child_type: 2 }),
                _ => None,
            }
        } by {
            if i < shorter.len() {
                assert(shorter[i] == elements[i]);
            }
        }
    }
}

proof fn lemma_same_paths_listed(a: Seq<Json>, b: Seq<Json>, upto: int)
    requires
        upto <= a.len(),
        upto <= b.len(),
        forall|i: int| 0 <= i < upto ==> a[i] == b[i],
    ensures
        paths_listed(a, upto) == paths_listed(b, upto),
    decreases upto,
{
    if upto > 0 {
        lemma_same_paths_listed(a, b, upto - 1);
    }
}

/// Whether a linked child can be found: by an id that is a UUID, or by a path.
pub open spec fn is_findable(child: LinkedChild) -> bool {
    child.path is Some || (child.item_id matches Some(id) && outside::uuid_value(id@) is Some)
}

/// How many of the first `upto` linked children can be found.
pub open spec fn findable(children: Seq<LinkedChild>, upto: int) -> int
    decreases upto,
{
    if upto <= 0 {
        0
    } else {
        findable(children, upto - 1) + if is_findable(children[upto - 1]) { 1int } else { 0 }
    }
}

/// Whether the source is where the linked child is found: under its id, and at
/// its path only where the id is missing or no UUID.
pub open spec fn finds(source: Source, child: LinkedChild) -> bool {
    match source {
        Source::Item { id } => child.item_id matches Some(text) && outside::uuid_value(text@) == Some(id),
        Source::Path { path, child_type } => {
            &&& child_type == 3
            &&& child.path == Some(path)
            &&& child.item_id matches Some(text) ==> outside::uuid_value(text@) is None
        },
    }
}

/// Every linked child that can be found is among the linked versions, in the
/// order of the list, and there are no others.
pub proof fn law_every_linked_child_is_a_version(children: Seq<LinkedChild>)
    ensures
        linked_sources(children).len() == findable(children, children.len() as int),
        forall|i: int|
            0 <= i < children.len() && is_findable(#[trigger] children[i]) ==> {
                &&& 0 <= findable(children, i) < linked_sources(children).len()
                &&& finds(linked_sources(children)[findable(children, i)], children[i])
            },
    decreases children.len(),
{
    if children.len() > 0 {
        let shorter = children.drop_last();
        law_every_linked_child_is_a_version(shorter);
        assert forall|upto: int| 0 <= upto <= shorter.len() implies #[trigger] findable(children, upto)
            == findable(shorter, upto) by {
            lemma_same_findable(children, shorter, upto);
        }
        assert(findable(children, children.len() - 1) == findable(shorter, shorter.len() as int));
        assert forall|i: int| 0 <= i < children.len() && is_findable(#[trigger] children[i]) implies {
            &&& 0 <= findable(children, i) < linked_sources(children).len()
            &&& finds(linked_sources(children)[findable(children, i)], children[i])
        } by {
            if i < shorter.len() {
                assert(shorter[i] == children[i]);
            }
        }
    }
}

proof fn lemma_same_findable(a: Seq<LinkedChild>, b: Seq<LinkedChild>, upto: int)
    requires
        upto <= a.len(),
        upto <= b.len(),
        forall|i: int| 0 <= i < upto ==> a[i] == b[i],
    ensures
        findable(a, upto) == findable(b, upto),
    decreases upto,
{
    if upto > 0 {
        lemma_same_findable(a, b, upto - 1);
    }
}

/// A video lists the versions under `LocalAlternateVersions` of its document
/// and then its linked ones: every one of each, in order.
pub proof fn law_video_lists_every_version(item: MembershipItem)
    ensures
        ({
            let elements = item.data.spec_elements("LocalAlternateVersions"@);
            let children = item.linked_versions@;
            let local = paths_listed(elements, elements.len() as int);
            &&& sources_of(item).len() == local + findable(children, children.len() as int)
            &&& forall|i: int|
                0 <= i < elements.len() && lists_path(#[trigger] elements[i]) ==> Some(
                    sources_of(item)[paths_listed(elements, i)],
                ) == match elements[i] {
                    Json::Text(path) => Some(Source::Path { path, child_type: 2 }),
                    _ => None,
                }
            &&& forall|i: int|
                0 <= i < children.len() && is_findable(#[trigger] children[i]) ==> finds(
                    sources_of(item)[local + findable(children, i)],
                    children[i],
                )
        }),
{
    law_every_path_is_a_local_version(item.data.spec_elements("LocalAlternateVersions"@));
    law_every_linked_child_is_a_version(item.linked_versions@);
}

/// A link between two items.
pub struct Link {
    pub parent: Seq<char>,
    pub child: Seq<char>,
    pub child_type: int,
}

/// What an import can ask of a database, which the links apart does not change
/// while it runs.
pub struct Library {
    /// The item at a path.
    pub at_path: spec_fn(Seq<char>) -> Option<String>,
    /// Whether there is an item of this id.
    pub has_item: spec_fn(Seq<char>) -> bool,
    /// Whether the first item is owned by the second one.
    pub is_owned: spec_fn(Seq<char>, Seq<char>) -> bool,
    /// How a GUID is written.
    pub guid_text: spec_fn(u128) -> Seq<char>,
    /// The links once the list of an item has been written from its document.
    pub listed: spec_fn(Seq<Link>, String, Json) -> Seq<Link>,
    /// How many rows that writes.
    pub list_rows: spec_fn(Seq<Link>, String, Json) -> usize,
}

/// Whether one of the links leads from `parent` to `child`.
pub open spec fn leads_to(links: Seq<Link>, parent: Seq<char>, child: Seq<char>) -> bool {
    exists|k: int| 0 <= k < links.len() && (#[trigger] links[k]).parent == parent && links[k].child == child
}

impl Library {
    /// An id as it is written.
    pub open spec fn written(self, id: ItemId) -> Seq<char> {
        match id {
            ItemId::Stored(text) => text@,
            ItemId::Guid(bits) => (self.guid_text)(bits),
        }
    }

    /// The version that a source leads to, with the type of the link to it.
    pub open spec fn found(self, source: Source) -> Option<(Seq<char>, int)> {
        match source {
            Source::Path { path, child_type } => match (self.at_path)(path@) {
                Some(id) => Some((id@, child_type as int)),
                None => None,
            },
            Source::Item { id } => Some(((self.guid_text)(id), 3)),
        }
    }

    /// The versions that the sources lead to.
    pub open spec fn all_found(self, sources: Seq<Source>) -> Seq<(Seq<char>, int)>
        decreases sources.len(),
    {
        if sources.len() == 0 {
            Seq::empty()
        } else {
            match self.found(sources[0]) {
                Some(version) => seq![version] + self.all_found(sources.skip(1)),
                None => self.all_found(sources.skip(1)),
            }
        }
    }

    /// The links with those of a video to its versions: behind the links that
    /// there are, in order, each version that exists, that is not linked to the
    /// video yet and that is not, as a linked version, owned by the video.
    pub open spec fn with_versions(
        self,
        links: Seq<Link>,
        parent: Seq<char>,
        versions: Seq<(Seq<char>, int)>,
    ) -> Seq<Link>
        decreases versions.len(),
    {
        if versions.len() == 0 {
            links
        } else {
            let child = versions[0].0;
            let child_type = versions[0].1;
            let is_wanted = (self.has_item)(child) && !leads_to(links, parent, child) && !(child_type
                == 3 && (self.is_owned)(child, parent));
            self.with_versions(
                if is_wanted { links.push(Link { parent, child, child_type }) } else { links },
                parent,
                versions.skip(1),
            )
        }
    }

    /// The links once the items have been imported one after the other: of a
    /// playlist or box set its list, where its document holds one; of a video
    /// the links to its versions.
    pub open spec fn imported(
        self,
        playlist: Seq<char>,
        box_set: Seq<char>,
        links: Seq<Link>,
        items: Seq<MembershipItem>,
    ) -> Seq<Link>
        decreases items.len(),
    {
        if items.len() == 0 {
            links
        } else {
            let item = items[0];
            let then = if item.stored_type@ != playlist && item.stored_type@ != box_set {
                self.with_versions(links, item.id@, self.all_found(sources_of(item)))
            } else if item.data.spec_member("LinkedChildren"@) is Some {
                (self.listed)(links, item.id, item.data)
            } else {
                links
            };
            self.imported(playlist, box_set, then, items.skip(1))
        }
    }

    /// The links behind a request.
    pub open spec fn after(self, links: Seq<Link>, request: Request) -> Seq<Link> {
        match request {
            Request::AppendLink { parent, child, child_type } => links.push(
                Link { parent: parent@, child: self.written(child), child_type: child_type as int },
            ),
            Request::ImportMembership { item, data } => (self.listed)(links, item, data),
            _ => links,
        }
    }

    /// The links behind a run of requests.
    pub open spec fn after_all(self, links: Seq<Link>, requests: Seq<Request>) -> Seq<Link>
        decreases requests.len(),
    {
        if requests.len() == 0 {
            links
        } else {
            self.after(self.after_all(links, requests.drop_last()), requests.last())
        }
    }

    /// The true answer to a question, `links` being the links that there are and
    /// `before` those that there were ahead of the last request.
    pub open spec fn answer(self, before: Seq<Link>, links: Seq<Link>, request: Request) -> Reply {
        match request {
            Request::ImportMembership { item, data } => Reply::Imported(
                (self.list_rows)(before, item, data),
            ),
            Request::FindItemByPath(path) => Reply::Item((self.at_path)(path@)),
            Request::IsOwnedBy { child, parent } => Reply::Found(
                (self.is_owned)(self.written(child), parent@),
            ),
            Request::IsLinked { parent, child } => Reply::Found(
                leads_to(links, parent@, self.written(child)),
            ),
            Request::ItemExists(id) => Reply::Found((self.has_item)(self.written(id))),
            _ => Reply::Done,
        }
    }

    /// The links with which an import ends that has come to `work` and makes the
    /// requests of `block`, where every question is answered truly and no more
    /// than `steps` questions follow.
    pub open spec fn run(
        self,
        links: Seq<Link>,
        work: ImportWork,
        block: Seq<Request>,
        steps: nat,
    ) -> Option<Seq<Link>>
        decreases steps,
    {
        let then = self.after_all(links, block);
        if work.phase is Over {
            Some(then)
        } else if steps == 0 || block.len() == 0 {
            None
        } else {
            let before = self.after_all(links, block.drop_last());
            match work.answered(self.answer(before, then, block.last())) {
                Some(next) => self.run(then, next.0, next.1, (steps - 1) as nat),
                None => None,
            }
        }
    }

    /// Whether such an import ends with the links `result`.
    pub open spec fn ends_with(
        self,
        links: Seq<Link>,
        work: ImportWork,
        block: Seq<Request>,
        result: Seq<Link>,
    ) -> bool {
        exists|steps: nat| #[trigger] self.run(links, work, block, steps) == Some(result)
    }
}

/// One question more.
proof fn lemma_one_step(
    library: Library,
    links: Seq<Link>,
    work: ImportWork,
    question: Request,
    result: Seq<Link>,
)
    requires
        !(work.phase is Over),
        ({
            let then = library.after(links, question);
            match work.answered(library.answer(links, then, question)) {
                Some(next) => library.ends_with(then, next.0, next.1, result),
                None => false,
            }
        }),
    ensures
        library.ends_with(links, work, seq![question], result),
{
    let then = library.after(links, question);
    let next = work.answered(library.answer(links, then, question))->Some_0;
    let steps = choose|steps: nat| #[trigger]
        library.run(then, next.0, next.1, steps) == Some(result);
    assert(seq![question].drop_last() =~= Seq::<Request>::empty());
    assert(library.after_all(links, seq![question].drop_last()) == links);
    assert(library.after_all(links, seq![question]) == then);
    assert(library.run(links, work, seq![question], steps + 1) == Some(result));
}

/// A link that is appended first is there when the rest follows.
proof fn lemma_link_first(
    library: Library,
    links: Seq<Link>,
    work: ImportWork,
    link: Request,
    rest: Seq<Request>,
    result: Seq<Link>,
)
    requires
        rest.len() > 0,
        library.ends_with(library.after(links, link), work, rest, result),
    ensures
        library.ends_with(links, work, seq![link] + rest, result),
{
    lemma_after_first(library, links, link, rest);
    let steps = choose|steps: nat| #[trigger]
        library.run(library.after(links, link), work, rest, steps) == Some(result);
    let block = seq![link] + rest;
    assert(block.last() == rest.last());
    assert(block.drop_last() =~= seq![link] + rest.drop_last());
    lemma_after_first(library, links, link, rest.drop_last());
    assert(library.run(links, work, block, steps) == Some(result));
}

proof fn lemma_after_first(library: Library, links: Seq<Link>, link: Request, rest: Seq<Request>)
    ensures
        library.after_all(links, seq![link] + rest) == library.after_all(
            library.after(links, link),
            rest,
        ),
    decreases rest.len(),
{
    let block = seq![link] + rest;
    if rest.len() == 0 {
        assert(block.drop_last() =~= Seq::<Request>::empty());
        assert(library.after_all(links, block.drop_last()) == links);
    } else {
        assert(block.drop_last() =~= seq![link] + rest.drop_last());
        lemma_after_first(library, links, link, rest.drop_last());
    }
}

/// The candidates as what they are found as.
pub open spec fn versions_of(library: Library, candidates: Seq<Candidate>) -> Seq<(Seq<char>, int)> {
    candidates.map_values(|c: Candidate| (library.written(c.child), c.child_type as int))
}

proof fn lemma_items_end(library: Library, links: Seq<Link>, work: ImportWork)
    requires
        work.phase is Item,
        work.well_formed(),
    ensures
        library.ends_with(
            links,
            work.going().0,
            work.going().1,
            library.imported(work.playlist, work.box_set, links, work.items),
        ),
        work.going().1.len() > 0,
    decreases work.items.len(), 3int, 0int,
{
    let result = library.imported(work.playlist, work.box_set, links, work.items);
    if work.items.len() == 0 {
        let block = work.going().1;
        reveal_with_fuel(Library::after_all, 4);
        assert(block.drop_last().drop_last().drop_last() =~= Seq::<Request>::empty());
        assert(library.run(links, work.going().0, block, 0) == Some(links));
    } else {
        let item = work.items[0];
        let taken = ImportWork { items: work.items.skip(1), parent: Some(item.id), ..work };
        if !work.is_container(item) {
            let resolving = ImportWork {
                phase: Phase::Resolve,
                sources: sources_of(item),
                candidates: Seq::empty(),
                next: 0,
                ..taken
            };
            assert(sources_of(item).skip(0) =~= sources_of(item));
            assert(versions_of(library, resolving.candidates) + library.all_found(sources_of(item))
                =~= library.all_found(sources_of(item)));
            lemma_sources_end(library, links, resolving);
        } else if item.data.spec_member("LinkedChildren"@) is Some {
            let question = Request::ImportMembership { item: item.id, data: item.data };
            let then = library.after(links, question);
            let importing = taken.in_phase(Phase::Import);
            let reply = library.answer(links, then, question);
            let rows = (library.list_rows)(links, item.id, item.data);
            assert(reply == Reply::Imported(rows));
            let on = ImportWork {
                written: transaction::capped(importing.written + rows),
                ..importing.in_phase(Phase::Item)
            };
            assert(importing.answered(reply) == Some(on.going()));
            lemma_items_end(library, then, on);
            lemma_one_step(library, links, importing, question, result);
        } else {
            lemma_items_end(library, links, taken);
        }
    }
}

proof fn lemma_sources_end(library: Library, links: Seq<Link>, work: ImportWork)
    requires
        work.phase is Resolve,
        work.well_formed(),
    ensures
        library.ends_with(
            links,
            work.going().0,
            work.going().1,
            library.imported(
                work.playlist,
                work.box_set,
                library.with_versions(
                    links,
                    work.parent->Some_0@,
                    versions_of(library, work.candidates) + library.all_found(
                        work.sources.skip(work.next),
                    ),
                ),
                work.items,
            ),
        ),
        work.going().1.len() > 0,
    decreases work.items.len(), 5int, work.sources.len() - work.next,
{
    let parent = work.parent->Some_0@;
    let rest = work.sources.skip(work.next);
    let versions = versions_of(library, work.candidates) + library.all_found(rest);
    let result = library.imported(
        work.playlist,
        work.box_set,
        library.with_versions(links, parent, versions),
        work.items,
    );
    if work.next >= work.sources.len() {
        let on = ImportWork { phase: Phase::Candidate, next: 0, ..work };
        assert(versions =~= versions_of(library, on.candidates.skip(0))) by {
            assert(on.candidates.skip(0) =~= on.candidates);
        }
        lemma_candidates_end(library, links, on);
    } else {
        assert(rest[0] == work.sources[work.next]);
        assert(rest.skip(1) =~= work.sources.skip(work.next + 1));
        match work.sources[work.next] {
            Source::Item { id } => {
                let candidate = Candidate { child: ItemId::Guid(id), child_type: 3 };
                let on = ImportWork {
                    candidates: work.candidates.push(candidate),
                    next: work.next + 1,
                    ..work
                };
                assert(versions =~= versions_of(library, on.candidates) + library.all_found(
                    rest.skip(1),
                ));
                lemma_sources_end(library, links, on);
            },
            Source::Path { path, child_type } => {
                let question = Request::FindItemByPath(path);
                let found = (library.at_path)(path@);
                let on = ImportWork {
                    candidates: match found {
                        Some(id) => work.candidates.push(
                            Candidate { child: ItemId::Stored(id), child_type },
                        ),
                        None => work.candidates,
                    },
                    next: work.next + 1,
                    ..work
                };
                assert(versions =~= versions_of(library, on.candidates) + library.all_found(
                    rest.skip(1),
                ));
                lemma_sources_end(library, links, on);
                assert(work.answered(Reply::Item(found)) == Some(on.going()));
                lemma_one_step(library, links, work, question, result);
            },
        }
    }
}

proof fn lemma_candidates_end(library: Library, links: Seq<Link>, work: ImportWork)
    requires
        work.phase is Candidate,
        work.well_formed(),
    ensures
        library.ends_with(
            links,
            work.going().0,
            work.going().1,
            library.imported(
                work.playlist,
                work.box_set,
                library.with_versions(
                    links,
                    work.parent->Some_0@,
                    versions_of(library, work.candidates.skip(work.next)),
                ),
                work.items,
            ),
        ),
        work.going().1.len() > 0,
    decreases work.items.len(), 4int, work.candidates.len() - work.next,
{
    let parent = work.parent->Some_0;
    let rest = work.candidates.skip(work.next);
    let versions = versions_of(library, rest);
    let result = library.imported(
        work.playlist,
        work.box_set,
        library.with_versions(links, parent@, versions),
        work.items,
    );
    if work.next >= work.candidates.len() {
        lemma_items_end(library, links, work.in_phase(Phase::Item));
    } else {
        let candidate = work.candidates[work.next];
        let child = library.written(candidate.child);
        let on = work.next_candidate();
        assert(versions[0] == (child, candidate.child_type as int));
        assert(versions.skip(1) =~= versions_of(library, work.candidates.skip(work.next + 1)));
        let existing = work.in_phase(Phase::Exists);
        let linking = work.in_phase(Phase::Link);
        let owning = work.in_phase(Phase::Owner);
        let is_there = (library.has_item)(child);
        let is_linked = leads_to(links, parent@, child);
        let is_owned = candidate.child_type == 3 && (library.is_owned)(child, parent@);
        if is_owned || is_linked || !is_there {
            lemma_candidates_end(library, links, on);
        }
        if !is_owned {
            if !is_linked {
                if is_there {
                    let link = existing.linking();
                    let linked = ImportWork {
                        written: transaction::capped(existing.written + 1),
                        ..existing.next_candidate()
                    };
                    lemma_candidates_end(library, library.after(links, link), linked);
                    lemma_link_first(
                        library,
                        links,
                        linked.going().0,
                        link,
                        linked.going().1,
                        result,
                    );
                }
                lemma_one_step(library, links, existing, existing.question(), result);
            }
            lemma_one_step(library, links, linking, linking.question(), result);
        }
        if candidate.child_type == 3 {
            lemma_one_step(library, links, owning, owning.question(), result);
        }
    }
}

/// Where every question is answered truly, an import makes just the links that
/// are missing: it writes the list of each playlist and box set from the
/// document that holds one, and links each video to every version that is
/// listed and exists, in order and once, but for those that it owns as linked
/// versions. The items are taken in order, and none is left out.
pub proof fn law_import_links_every_version(
    library: Library,
    links: Seq<Link>,
    playlist: Seq<char>,
    box_set: Seq<char>,
    items: Vec<MembershipItem>,
    work: ImportWork,
    block: Seq<Request>,
)
    requires
        ImportStage::Items.follows(
            playlist,
            box_set,
            Reply::MembershipItems(items),
            ImportStage::Working(work),
            block,
        ),
    ensures
        library.ends_with(
            links,
            work,
            block,
            library.imported(playlist, box_set, links, items@),
        ),
{
    let start = import_start(playlist, box_set, items@);
    lemma_items_end(library, links, start);
    lemma_link_first(
        library,
        links,
        work,
        Request::Begin,
        start.going().1,
        library.imported(playlist, box_set, links, items@),
    );
}

/// Membership is imported just where the database came from a release whose
/// number begins with 10.11 and it has not been imported before; any other
/// database is left as it is.
pub proof fn law_import_is_for_one_generation(
    record: Option<AdoptionState>,
    playlist: Seq<char>,
    box_set: Seq<char>,
    next: ImportStage,
    block: Seq<Request>,
)
    requires
        ImportStage::Adoption.follows(playlist, box_set, Reply::Adoption(record), next, block),
    ensures
        next == ImportStage::Items <==> match record {
            Some(state) => {
                &&& !state.membership_import_done
                &&& state.generation@.len() >= 6
                &&& state.generation@[0] == '1'
                &&& state.generation@[1] == '0'
                &&& state.generation@[2] == '.'
                &&& state.generation@[3] == '1'
                &&& state.generation@[4] == '1'
                &&& state.generation@[5] == '.'
            },
            None => false,
        },
        next == ImportStage::Items ==> block == seq![Request::SelectMembershipItems],
        next != ImportStage::Items ==> block == seq![Request::Finish(0)],
{
    reveal_strlit("10.11.");
    if let Some(state) = record {
        let head = state.generation@.take(6);
        if state.generation@.len() >= 6 {
            assert(head =~= "10.11."@ <==> head[0] == '1' && head[1] == '0' && head[2] == '.'
                && head[3] == '1' && head[4] == '1' && head[5] == '.');
        }
    }
}

/// Whether a request is one that an import makes: it asks about versions, writes
/// a list or a link, or ends the import. None takes anything away.
pub open spec fn is_of_an_import(request: Request) -> bool {
    ||| request is FindItemByPath
    ||| request is IsOwnedBy
    ||| request is IsLinked
    ||| request is ItemExists
    ||| request is AppendLink
    ||| request is ImportMembership
    ||| request is FinishMembershipImport
    ||| request is Commit
    ||| request is Finish
}

/// Whether every one of the requests is one that an import makes.
pub open spec fn all_of_an_import(requests: Seq<Request>) -> bool {
    forall|i: int| 0 <= i < requests.len() ==> is_of_an_import(#[trigger] requests[i])
}

proof fn lemma_going_takes_nothing_away(work: ImportWork)
    requires
        work.well_formed(),
    ensures
        all_of_an_import(work.going().1),
    decreases
        work.items.len(),
        match work.phase {
            Phase::Resolve => 2int,
            Phase::Candidate => 1,
            _ => 0,
        },
        work.sources.len() - work.next,
{
    match work.phase {
        Phase::Item => if work.items.len() > 0 {
            let item = work.items[0];
            let taken = ImportWork { items: work.items.skip(1), parent: Some(item.id), ..work };
            if !work.is_container(item) {
                let resolving = ImportWork {
                    phase: Phase::Resolve,
                    sources: sources_of(item),
                    candidates: Seq::empty(),
                    next: 0,
                    ..taken
                };
                lemma_going_takes_nothing_away(resolving);
                assert(work.going() == resolving.going());
            } else if item.data.spec_member("LinkedChildren"@) is None {
                lemma_going_takes_nothing_away(taken);
                assert(work.going() == taken.going());
            }
        },
        Phase::Resolve => if work.next >= work.sources.len() {
            let on = ImportWork { phase: Phase::Candidate, next: 0, ..work };
            lemma_going_takes_nothing_away(on);
            assert(work.going() == on.going());
        } else if let Source::Item { id } = work.sources[work.next] {
            let candidate = Candidate { child: ItemId::Guid(id), child_type: 3 };
            let on = ImportWork {
                candidates: work.candidates.push(candidate),
                next: work.next + 1,
                ..work
            };
            lemma_going_takes_nothing_away(on);
            assert(work.going() == on.going());
        },
        Phase::Candidate => if work.next >= work.candidates.len() {
            let on = work.in_phase(Phase::Item);
            lemma_going_takes_nothing_away(on);
            assert(work.going() == on.going());
        },
        _ => {},
    }
}

/// An import takes nothing away and gives nothing an owner: whatever the reply,
/// it goes on by asking about versions, by writing lists and links, or by ending.
pub proof fn law_import_takes_nothing_away(
    work: ImportWork,
    reply: Reply,
    next: ImportWork,
    block: Seq<Request>,
)
    requires
        work.well_formed(),
        work.is_waiting(),
        work.answered(reply) == Some((next, block)),
    ensures
        all_of_an_import(block),
{
    match (work.phase, reply) {
        (Phase::Import, Reply::Imported(rows)) => {
            let on = ImportWork {
                written: transaction::capped(work.written + rows),
                ..work.in_phase(Phase::Item)
            };
            lemma_going_takes_nothing_away(on);
        },
        (Phase::Resolve, Reply::Item(found)) => {
            let on = ImportWork {
                candidates: match found {
                    Some(id) => work.candidates.push(
                        Candidate {
                            child: ItemId::Stored(id),
                            child_type: work.sources[work.next]->child_type,
                        },
                    ),
                    None => work.candidates,
                },
                next: work.next + 1,
                ..work
            };
            lemma_going_takes_nothing_away(on);
        },
        (Phase::Exists, Reply::Found(is_there)) => {
            let on = work.next_candidate();
            let linked = ImportWork { written: transaction::capped(work.written + 1), ..on };
            lemma_going_takes_nothing_away(linked);
            lemma_going_takes_nothing_away(on);
            if is_there {
                assert(block == seq![work.linking()] + linked.going().1);
                assert forall|i: int| 0 <= i < block.len() implies is_of_an_import(
                    #[trigger] block[i],
                ) by {
                    if i > 0 {
                        assert(block[i] == linked.going().1[i - 1]);
                    }
                }
            }
        },
        (Phase::Owner, _) | (Phase::Link, _) => {
            lemma_going_takes_nothing_away(work.next_candidate());
        },
        _ => {},
    }
}

} // verus!
