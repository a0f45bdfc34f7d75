//! Importing membership from the data documents of a database that was adopted
//! from a release that kept it there.

use vstd::prelude::*;

use crate::adoption_repairs::request::{
    AdoptionState, ItemId, LinkedChild, MembershipItem, Reply, Request, LINKED_ALTERNATE_VERSION,
    LOCAL_ALTERNATE_VERSION,
};
use crate::adoption_repairs::transaction;
use crate::adoption_repairs::transaction::capped_sum;
use crate::json::Json;
use crate::outbox::Outbox;
use crate::outside;
use crate::text;

verus! {

/// Whether membership is still to be imported: the database came from a 10.11
/// release, and it has not been done. A database that came from a later release
/// or has no adoption record keeps its membership elsewhere.
pub open spec fn import_is_due(state: Option<AdoptionState>) -> bool {
    match state {
        Some(record) => text::starts_with(record.generation@, "10.11."@)
            && !record.membership_import_done,
        None => false,
    }
}

/// Executable [`import_is_due`].
pub fn due_for_import(state: &Option<AdoptionState>) -> (due: bool)
    ensures
        due == import_is_due(*state),
{
    match state {
        Some(record) => text::begins_with(record.generation.as_str(), "10.11.")
            && !record.membership_import_done,
        None => false,
    }
}

/// Where a version of a video is found.
#[derive(Debug)]
pub enum Source {
    /// At a path; its link gets this type.
    Path { path: String, child_type: i64 },
    /// Under an id, as a linked version.
    Item { id: u128 },
}

/// A version that was found, and the type of the link to it.
#[derive(Debug)]
pub struct Candidate {
    pub child: ItemId,
    pub child_type: i64,
}

/// The versions that `elements` list by path: the texts that are not empty.
pub open spec fn local_sources(elements: Seq<Json>) -> Seq<Source>
    decreases elements.len(),
{
    if elements.len() == 0 {
        Seq::empty()
    } else {
        let before = local_sources(elements.drop_last());
        match elements.last().spec_text() {
            Some(path) => if path@.len() > 0 {
                before.push(Source::Path { path, child_type: LOCAL_ALTERNATE_VERSION })
            } else {
                before
            },
            None => before,
        }
    }
}

/// Where a linked child is found: under its id where that is a UUID, else at
/// its path.
pub open spec fn linked_source(child: LinkedChild) -> Option<Source> {
    let id = match child.item_id {
        Some(text) => outside::uuid_value(text@),
        None => None,
    };
    match id {
        Some(id) => Some(Source::Item { id }),
        None => match child.path {
            Some(path) => Some(Source::Path { path, child_type: LINKED_ALTERNATE_VERSION }),
            None => None,
        },
    }
}

/// The versions that are listed as linked children.
pub open spec fn linked_sources(children: Seq<LinkedChild>) -> Seq<Source>
    decreases children.len(),
{
    if children.len() == 0 {
        Seq::empty()
    } else {
        let before = linked_sources(children.drop_last());
        match linked_source(children.last()) {
            Some(source) => before.push(source),
            None => before,
        }
    }
}

/// The versions that a video lists, the local ones first.
pub open spec fn sources_of(item: MembershipItem) -> Seq<Source> {
    local_sources(item.data.spec_elements("LocalAlternateVersions"@)) + linked_sources(
        item.linked_versions@,
    )
}

/// Executable [`linked_source`].
pub fn source_of_child(child: &LinkedChild) -> (source: Option<Source>)
    ensures
        source == linked_source(*child),
{
    let id: Option<u128> = match &child.item_id {
        Some(text) => outside::parse_uuid(text.as_str()),
        None => None,
    };
    match id {
        Some(id) => Some(Source::Item { id }),
        None => match &child.path {
            Some(path) => Some(
                Source::Path { path: path.clone(), child_type: LINKED_ALTERNATE_VERSION },
            ),
            None => None,
        },
    }
}

/// Executable [`sources_of`].
pub fn list_sources(item: &MembershipItem) -> (sources: Vec<Source>)
    ensures
        sources@ == sources_of(*item),
{
    let mut sources: Vec<Source> = Vec::new();
    let ghost elements = item.data.spec_elements("LocalAlternateVersions"@);
    match item.data.member("LocalAlternateVersions") {
        Some(Json::Array(items)) => {
            for i in 0..items.len()
                invariant
                    items@ == elements,
                    sources@ == local_sources(elements.take(i as int)),
            {
                match items[i].text() {
                    Some(path) => {
                        if text::chars_of(path.as_str()).len() > 0 {
                            sources.push(
                                Source::Path {
                                    path: path.clone(),
                                    child_type: LOCAL_ALTERNATE_VERSION,
                                },
                            );
                        }
                    },
                    None => {},
                }
                assert(elements.take(i + 1).drop_last() =~= elements.take(i as int));
            }
            assert(elements.take(elements.len() as int) =~= elements);
        },
        _ => {},
    }
    let ghost local = local_sources(elements);
    assert(sources@ == local);
    let ghost children = item.linked_versions@;
    assert(local + linked_sources(children.take(0)) =~= local);
    for i in 0..item.linked_versions.len()
        invariant
            children == item.linked_versions@,
            sources@ == local + linked_sources(children.take(i as int)),
    {
        match source_of_child(&item.linked_versions[i]) {
            Some(source) => {
                sources.push(source);
            },
            None => {},
        }
        assert(children.take(i + 1).drop_last() =~= children.take(i as int));
        assert(sources@ =~= local + linked_sources(children.take(i + 1)));
    }
    assert(children.take(children.len() as int) =~= children);
    sources
}

/// How far the work on an item has come.
#[derive(Debug, Clone, Copy, PartialEq, Eq, Structural)]
pub enum Phase {
    /// The item is next.
    Item,
    /// Its membership is being written.
    Import,
    /// Source `next` of the video is next.
    Resolve,
    /// Candidate `next` of the video is next.
    Candidate,
    /// Whether candidate `next` is owned by the video has been asked.
    Owner,
    /// Whether candidate `next` is linked already has been asked.
    Link,
    /// Whether candidate `next` exists has been asked.
    Exists,
    /// Nothing is left to be done.
    Over,
}

/// The import as far as it has come.
#[verifier::ext_equal]
pub struct ImportWork {
    /// The types of the items whose membership is a list.
    pub playlist: Seq<char>,
    pub box_set: Seq<char>,
    /// The items that are still to be worked on.
    pub items: Seq<MembershipItem>,
    /// The id of the item that is worked on.
    pub parent: Option<String>,
    pub phase: Phase,
    pub sources: Seq<Source>,
    pub candidates: Seq<Candidate>,
    pub next: int,
    /// How many rows have been written.
    pub written: int,
}

impl ImportWork {
    pub open spec fn well_formed(self) -> bool {
        &&& 0 <= self.written <= usize::MAX
        &&& self.phase is Import || self.phase is Resolve || self.phase is Candidate
            || self.phase is Owner || self.phase is Link || self.phase is Exists ==> self.parent
            is Some
        &&& self.phase is Resolve ==> 0 <= self.next <= self.sources.len()
        &&& self.phase is Candidate ==> 0 <= self.next <= self.candidates.len()
        &&& self.phase is Owner || self.phase is Link || self.phase is Exists ==> 0 <= self.next
            < self.candidates.len()
    }

    /// Whether it waits for a reply.
    pub open spec fn is_waiting(self) -> bool {
        match self.phase {
            Phase::Item | Phase::Candidate => false,
            Phase::Resolve => self.next < self.sources.len() && self.sources[self.next] is Path,
            _ => true,
        }
    }

    /// Whether the membership of an item is a list.
    pub open spec fn is_container(self, item: MembershipItem) -> bool {
        item.stored_type@ == self.playlist || item.stored_type@ == self.box_set
    }

    /// The state with the candidate behind the current one next.
    pub open spec fn next_candidate(self) -> ImportWork {
        ImportWork { next: self.next + 1, phase: Phase::Candidate, ..self }
    }

    pub open spec fn in_phase(self, phase: Phase) -> ImportWork {
        ImportWork { phase, ..self }
    }

    /// The question about a version that is open in the phase.
    pub open spec fn question(self) -> Request {
        let parent = self.parent->0;
        let child = self.candidates[self.next].child;
        match self.phase {
            Phase::Resolve => Request::FindItemByPath(self.sources[self.next]->path),
            Phase::Owner => Request::IsOwnedBy { child, parent },
            Phase::Link => Request::IsLinked { parent, child },
            _ => Request::ItemExists(child),
        }
    }

    /// Goes on as far as nothing has to be asked: the state then reached, and
    /// the requests made on the way. The list of a playlist or box set is
    /// written from the document of that item.
    pub open spec fn going(self) -> (ImportWork, Seq<Request>)
        decreases
            self.items.len(),
            match self.phase {
                Phase::Resolve => 2int,
                Phase::Candidate => 1,
                _ => 0,
            },
            self.sources.len() - self.next,
    {
        match self.phase {
            Phase::Item => if self.items.len() == 0 {
                (
                    self.in_phase(Phase::Over),
                    seq![
                        Request::FinishMembershipImport,
                        Request::Commit,
                        Request::Finish(self.written as usize),
                    ],
                )
            } else {
                let item = self.items[0];
                let taken = ImportWork {
                    items: self.items.skip(1),
                    parent: Some(item.id),
                    ..self
                };
                if !self.is_container(item) {
                    ImportWork {
                        phase: Phase::Resolve,
                        sources: sources_of(item),
                        candidates: Seq::empty(),
                        next: 0,
                        ..taken
                    }.going()
                } else if item.data.spec_member("LinkedChildren"@) is Some {
                    (
                        taken.in_phase(Phase::Import),
                        seq![Request::ImportMembership { item: item.id, data: item.data }],
                    )
                } else {
                    taken.going()
                }
            },
            Phase::Resolve => if self.next >= self.sources.len() {
                ImportWork { phase: Phase::Candidate, next: 0, ..self }.going()
            } else {
                match self.sources[self.next] {
                    Source::Path { .. } => (self, seq![self.question()]),
                    Source::Item { id } => ImportWork {
                        candidates: self.candidates.push(
                            Candidate {
                                child: ItemId::Guid(id),
                                child_type: LINKED_ALTERNATE_VERSION,
                            },
                        ),
                        next: self.next + 1,
                        ..self
                    }.going(),
                }
            },
            Phase::Candidate => if self.next >= self.candidates.len() {
                self.in_phase(Phase::Item).going()
            } else {
                let asking = self.in_phase(
                    if self.candidates[self.next].child_type == LINKED_ALTERNATE_VERSION {
                        Phase::Owner
                    } else {
                        Phase::Link
                    },
                );
                (asking, seq![asking.question()])
            },
            _ => (self, Seq::empty()),
        }
    }

    /// What follows the reply to the open question, or nothing where the reply
    /// does not answer it. A version that the video owns is not linked to it,
    /// one that it links to already is left alone, and one that is not there
    /// is passed over.
    pub open spec fn answered(self, reply: Reply) -> Option<(ImportWork, Seq<Request>)> {
        match (self.phase, reply) {
            (Phase::Import, Reply::Imported(rows)) => Some(
                ImportWork {
                    written: transaction::capped(self.written + rows),
                    ..self.in_phase(Phase::Item)
                }.going(),
            ),
            (Phase::Resolve, Reply::Item(found)) => Some(
                ImportWork {
                    candidates: match found {
                        Some(id) => self.candidates.push(
                            Candidate {
                                child: ItemId::Stored(id),
                                child_type: self.sources[self.next]->child_type,
                            },
                        ),
                        None => self.candidates,
                    },
                    next: self.next + 1,
                    ..self
                }.going(),
            ),
            (Phase::Owner, Reply::Found(is_owned)) => Some(
                if is_owned {
                    self.next_candidate().going()
                } else {
                    let asking = self.in_phase(Phase::Link);
                    (asking, seq![asking.question()])
                },
            ),
            (Phase::Link, Reply::Found(is_linked)) => Some(
                if is_linked {
                    self.next_candidate().going()
                } else {
                    let asking = self.in_phase(Phase::Exists);
                    (asking, seq![asking.question()])
                },
            ),
            (Phase::Exists, Reply::Found(exists)) => Some(
                if exists {
                    let then = ImportWork {
                        written: transaction::capped(self.written + 1),
                        ..self.next_candidate()
                    }.going();
                    (then.0, seq![self.linking()] + then.1)
                } else {
                    self.next_candidate().going()
                },
            ),
            _ => None,
        }
    }

    /// The link to the current candidate.
    pub open spec fn linking(self) -> Request {
        Request::AppendLink {
            parent: self.parent->0,
            child: self.candidates[self.next].child,
            child_type: self.candidates[self.next].child_type,
        }
    }
}

/// The import under way.
#[derive(Debug)]
pub struct Work {
    pub playlist: String,
    pub box_set: String,
    pub items: Outbox<MembershipItem>,
    pub parent: Option<String>,
    pub phase: Phase,
    pub sources: Vec<Source>,
    pub candidates: Vec<Candidate>,
    pub next: usize,
    pub written: usize,
}

impl View for Work {
    type V = ImportWork;

    open spec fn view(&self) -> ImportWork {
        ImportWork {
            playlist: self.playlist@,
            box_set: self.box_set@,
            items: self.items@,
            parent: self.parent,
            phase: self.phase,
            sources: self.sources@,
            candidates: self.candidates@,
            next: self.next as int,
            written: self.written as int,
        }
    }
}

impl Work {
    /// The id of the item that is worked on.
    fn parent_id(&self) -> (id: String)
        requires
            self.parent is Some,
        ensures
            Some(id) == self.parent,
    {
        match &self.parent {
            Some(id) => id.clone(),
            None => String::new(),
        }
    }

    fn question(&self) -> (request: Request)
        requires
            self@.well_formed(),
            self.phase is Owner || self.phase is Link || self.phase is Exists,
        ensures
            request == self@.question(),
    {
        let parent: String = self.parent_id();
        match self.phase {
            Phase::Owner => Request::IsOwnedBy {
                child: self.candidates[self.next].child.copy(),
                parent,
            },
            Phase::Link => Request::IsLinked {
                parent,
                child: self.candidates[self.next].child.copy(),
            },
            _ => Request::ItemExists(self.candidates[self.next].child.copy()),
        }
    }

    /// Goes on until a question is open or nothing is left to be done,
    /// appending the requests to `block`.
    fn go_on(&mut self, block: &mut Vec<Request>)
        requires
            old(self)@.well_formed(),
        ensures
            final(self)@.well_formed(),
            final(self)@ == old(self)@.going().0,
            final(self)@.is_waiting(),
            final(block)@ == old(block)@ + old(self)@.going().1,
    {
        loop
            invariant
                self@.well_formed(),
                self@.going().0 == old(self)@.going().0,
                block@ + self@.going().1 == old(block)@ + old(self)@.going().1,
            decreases
                self.items@.len(),
                match self.phase {
                    Phase::Resolve => 2int,
                    Phase::Candidate => 1,
                    _ => 0,
                },
                self.sources@.len() - self.next,
        {
            let ghost before = self@;
            let ghost block_before = block@;
            match self.phase {
                Phase::Item => {
                    let item: MembershipItem = match self.items.take_first() {
                        Some(item) => item,
                        None => {
                            block.push(Request::FinishMembershipImport);
                            block.push(Request::Commit);
                            block.push(Request::Finish(self.written));
                            self.phase = Phase::Over;
                            assert(self@ =~= before.in_phase(Phase::Over));
                            assert(block@ =~= block_before + before.going().1);
                            return ;
                        },
                    };
                    assert(item == before.items[0]);
                    assert(self.items@ =~= before.items.skip(1));
                    self.parent = Some(item.id.clone());
                    let ghost taken = ImportWork {
                        items: before.items.skip(1),
                        parent: Some(item.id),
                        ..before
                    };
                    let is_container: bool = text::same_text(
                        item.stored_type.as_str(),
                        self.playlist.as_str(),
                    ) || text::same_text(item.stored_type.as_str(), self.box_set.as_str());
                    if !is_container {
                        self.sources = list_sources(&item);
                        self.candidates = Vec::new();
                        self.next = 0;
                        self.phase = Phase::Resolve;
                        assert(self@ =~= ImportWork {
                            phase: Phase::Resolve,
                            sources: sources_of(item),
                            candidates: Seq::empty(),
                            next: 0,
                            ..taken
                        });
                    } else if item.data.has_member("LinkedChildren") {
                        self.phase = Phase::Import;
                        assert(self@ =~= taken.in_phase(Phase::Import));
                        block.push(Request::ImportMembership { item: item.id, data: item.data });
                        assert(block@ =~= block_before + before.going().1);
                        return ;
                    } else {
                        assert(self@ =~= taken);
                    }
                },
                Phase::Resolve => {
                    if self.next >= self.sources.len() {
                        self.next = 0;
                        self.phase = Phase::Candidate;
                        assert(self@ =~= ImportWork {
                            phase: Phase::Candidate,
                            next: 0,
                            ..before
                        });
                    } else {
                        let found: Option<u128> = match &self.sources[self.next] {
                            Source::Path { path, .. } => {
                                block.push(Request::FindItemByPath(path.clone()));
                                None
                            },
                            Source::Item { id } => Some(*id),
                        };
                        match found {
                            Some(id) => {
                                self.candidates.push(
                                    Candidate {
                                        child: ItemId::Guid(id),
                                        child_type: LINKED_ALTERNATE_VERSION,
                                    },
                                );
                                self.next = self.next + 1;
                                assert(self@ =~= ImportWork {
                                    candidates: before.candidates.push(
                                        Candidate {
                                            child: ItemId::Guid(id),
                                            child_type: LINKED_ALTERNATE_VERSION,
                                        },
                                    ),
                                    next: before.next + 1,
                                    ..before
                                });
                            },
                            None => {
                                assert(self@ =~= before);
                                assert(block@ =~= block_before + before.going().1);
                                return ;
                            },
                        }
                    }
                },
                Phase::Candidate => {
                    if self.next >= self.candidates.len() {
                        self.phase = Phase::Item;
                        assert(self@ =~= before.in_phase(Phase::Item));
                    } else {
                        self.phase = if self.candidates[self.next].child_type
                            == LINKED_ALTERNATE_VERSION {
                            Phase::Owner
                        } else {
                            Phase::Link
                        };
                        assert(self@ =~= before.in_phase(self.phase));
                        block.push(self.question());
                        assert(block@ =~= block_before + before.going().1);
                        return ;
                    }
                },
                _ => {
                    assert(block@ + self@.going().1 =~= block@);
                    return ;
                },
            }
        }
    }

    /// Takes the reply to the open question; gives the next block, or nothing
    /// where the reply does not answer it.
    fn answer(&mut self, reply: Reply) -> (block: Option<Vec<Request>>)
        requires
            old(self)@.well_formed(),
            old(self)@.is_waiting(),
        ensures
            match block {
                Some(requests) => {
                    &&& old(self)@.answered(reply) == Some((final(self)@, requests@))
                    &&& final(self)@.well_formed()
                    &&& final(self)@.is_waiting()
                    &&& requests@.len() > 0
                },
                None => old(self)@.answered(reply) is None && final(self)@ == old(self)@,
            },
    {
        let ghost before = self@;
        let mut block: Vec<Request> = Vec::new();
        match (self.phase, reply) {
            (Phase::Import, Reply::Imported(rows)) => {
                self.phase = Phase::Item;
                self.written = capped_sum(self.written, rows);
            },
            (Phase::Resolve, Reply::Item(found)) => {
                assert(self.next < self.sources.len());
                let child_type: i64 = match &self.sources[self.next] {
                    Source::Path { child_type, .. } => *child_type,
                    Source::Item { .. } => LINKED_ALTERNATE_VERSION,
                };
                match found {
                    Some(id) => {
                        self.candidates.push(Candidate { child: ItemId::Stored(id), child_type });
                    },
                    None => {},
                }
                self.next = self.next + 1;
            },
            (Phase::Owner, Reply::Found(is_owned)) => {
                if !is_owned {
                    return Some(self.ask_in(Phase::Link));
                }
                self.pass_candidate();
            },
            (Phase::Link, Reply::Found(is_linked)) => {
                if !is_linked {
                    return Some(self.ask_in(Phase::Exists));
                }
                self.pass_candidate();
            },
            (Phase::Exists, Reply::Found(exists)) => {
                if exists {
                    block.push(
                        Request::AppendLink {
                            parent: self.parent_id(),
                            child: self.candidates[self.next].child.copy(),
                            child_type: self.candidates[self.next].child_type,
                        },
                    );
                    self.written = capped_sum(self.written, 1);
                }
                self.pass_candidate();
            },
            _ => {
                return None;
            },
        }
        let ghost start = self@;
        let ghost block_before = block@;
        proof {
            lemma_going(start);
        }
        self.go_on(&mut block);
        assert(block_before.len() == 0 ==> block@ =~= start.going().1);
        assert(before.phase is Exists && block_before.len() > 0 ==> block_before
            =~= seq![before.linking()]);
        Some(block)
    }

    fn pass_candidate(&mut self)
        requires
            old(self)@.well_formed(),
            old(self).phase is Owner || old(self).phase is Link || old(self).phase is Exists,
        ensures
            final(self)@ == old(self)@.next_candidate(),
            final(self)@.well_formed(),
    {
        assert(self.next < self.candidates.len());
        self.next = self.next + 1;
        self.phase = Phase::Candidate;
    }

    fn ask_in(&mut self, phase: Phase) -> (block: Vec<Request>)
        requires
            old(self)@.well_formed(),
            old(self).phase is Owner || old(self).phase is Link,
            phase is Link || phase is Exists,
        ensures
            final(self)@ == old(self)@.in_phase(phase),
            final(self)@.well_formed(),
            block@ == seq![final(self)@.question()],
    {
        self.phase = phase;
        let mut block: Vec<Request> = Vec::new();
        block.push(self.question());
        block
    }
}

/// What the import waits for.
pub enum ImportStage {
    Adoption,
    Items,
    Working(ImportWork),
    Over,
}

/// The import of `items` before any work was done.
pub open spec fn import_start(
    playlist: Seq<char>,
    box_set: Seq<char>,
    items: Seq<MembershipItem>,
) -> ImportWork {
    ImportWork {
        playlist,
        box_set,
        items,
        parent: None,
        phase: Phase::Item,
        sources: Seq::empty(),
        candidates: Seq::empty(),
        next: 0,
        written: 0,
    }
}

impl ImportStage {
    pub open spec fn well_formed(self) -> bool {
        match self {
            ImportStage::Working(work) => work.well_formed() && work.is_waiting(),
            _ => true,
        }
    }

    /// Whether a transaction is open while it waits.
    pub open spec fn is_open(self) -> bool {
        match self {
            ImportStage::Working(work) => !(work.phase is Over),
            _ => false,
        }
    }

    /// Whether `next` and `block` are what follows the reply; `playlist` and
    /// `box_set` are the types of the items whose membership is a list.
    pub open spec fn follows(
        self,
        playlist: Seq<char>,
        box_set: Seq<char>,
        reply: Reply,
        next: ImportStage,
        block: Seq<Request>,
    ) -> bool {
        match (self, reply) {
            (ImportStage::Adoption, Reply::Adoption(state)) => if import_is_due(state) {
                next == ImportStage::Items && block == seq![Request::SelectMembershipItems]
            } else {
                next == ImportStage::Over && block == seq![Request::Finish(0)]
            },
            (ImportStage::Items, Reply::MembershipItems(items)) => {
                let going = import_start(playlist, box_set, items@).going();
                next == ImportStage::Working(going.0) && block == seq![Request::Begin] + going.1
            },
            (ImportStage::Working(work), _) => match work.answered(reply) {
                Some(then) => next == ImportStage::Working(then.0) && block == then.1,
                None => next == ImportStage::Over && block == seq![Request::Reject],
            },
            _ => next == ImportStage::Over && block == seq![Request::Reject],
        }
    }
}

/// The stage that [`ImportMembership`] has reached.
#[derive(Debug)]
pub enum Stage {
    Adoption,
    Items,
    Working(Work),
    Over,
}

impl View for Stage {
    type V = ImportStage;

    open spec fn view(&self) -> ImportStage {
        match self {
            Stage::Adoption => ImportStage::Adoption,
            Stage::Items => ImportStage::Items,
            Stage::Working(work) => ImportStage::Working(work@),
            Stage::Over => ImportStage::Over,
        }
    }
}

/// The import of membership: the lists of playlists and box sets, and of each
/// video its local versions before its linked ones. It runs once for a database
/// adopted from a 10.11 release, and the adoption record is marked in the same
/// transaction.
#[derive(Debug)]
pub struct ImportMembership {
    pub playlist: String,
    pub box_set: String,
    pub stage: Stage,
}

impl ImportMembership {
    /// The import, waiting for the answer to its first request,
    /// [`Request::ReadAdoption`].
    pub fn new(playlist: &str, box_set: &str) -> (repair: ImportMembership)
        ensures
            repair.playlist@ == playlist@,
            repair.box_set@ == box_set@,
            repair.stage@ == ImportStage::Adoption,
            repair.stage@.well_formed(),
    {
        ImportMembership {
            playlist: playlist.to_owned(),
            box_set: box_set.to_owned(),
            stage: Stage::Adoption,
        }
    }

    /// Takes the reply to the last request of the block before, and gives the
    /// next block.
    pub fn answer(self, reply: Reply) -> (step: (ImportMembership, Vec<Request>))
        requires
            self.stage@.well_formed(),
        ensures
            self.stage@.follows(self.playlist@, self.box_set@, reply, step.0.stage@, step.1@),
            step.0.stage@.well_formed(),
            step.1@.len() > 0,
            step.0.playlist@ == self.playlist@,
            step.0.box_set@ == self.box_set@,
    {
        let playlist: String = self.playlist;
        let box_set: String = self.box_set;
        let mut block: Vec<Request> = Vec::new();
        let stage: Stage = match (self.stage, reply) {
            (Stage::Adoption, Reply::Adoption(state)) => {
                if due_for_import(&state) {
                    block.push(Request::SelectMembershipItems);
                    Stage::Items
                } else {
                    block.push(Request::Finish(0));
                    Stage::Over
                }
            },
            (Stage::Items, Reply::MembershipItems(items)) => {
                block.push(Request::Begin);
                let mut work: Work = Work {
                    playlist: playlist.clone(),
                    box_set: box_set.clone(),
                    items: Outbox::new(items),
                    parent: None,
                    phase: Phase::Item,
                    sources: Vec::new(),
                    candidates: Vec::new(),
                    next: 0,
                    written: 0,
                };
                let ghost start = work@;
                assert(start =~= import_start(playlist@, box_set@, items@));
                work.go_on(&mut block);
                assert(block@ =~= seq![Request::Begin] + start.going().1);
                Stage::Working(work)
            },
            (Stage::Working(work), reply) => {
                let mut work: Work = work;
                match work.answer(reply) {
                    Some(requests) => {
                        block = requests;
                        Stage::Working(work)
                    },
                    None => {
                        block.push(Request::Reject);
                        Stage::Over
                    },
                }
            },
            _ => {
                block.push(Request::Reject);
                Stage::Over
            },
        };
        (ImportMembership { playlist, box_set, stage }, block)
    }
}

/// Going on writes no links and leaves the transaction open until the import is
/// over, when it reports all that was written.
proof fn lemma_going(work: ImportWork)
    requires
        work.well_formed(),
        !(work.phase is Over),
        work.phase is Item || work.phase is Resolve || work.phase is Candidate,
    ensures
        ({
            let going = work.going();
            &&& going.0.well_formed()
            &&& going.0.is_waiting()
            &&& going.1.len() > 0
            &&& going.0.written == work.written
            &&& transaction::open_after_all(true, going.1) == Some(!(going.0.phase is Over))
            &&& transaction::appended_links(going.1) == 0
            &&& going.0.phase is Over ==> going.1 == seq![
                Request::FinishMembershipImport,
                Request::Commit,
                Request::Finish(work.written as usize),
            ]
            &&& !(going.0.phase is Over) ==> going.1.len() == 1 && !(going.1[0] is Finish)
        }),
    decreases
        work.items.len(),
        match work.phase {
            Phase::Resolve => 2int,
            Phase::Candidate => 1,
            _ => 0,
        },
        work.sources.len() - work.next,
{
    let going = work.going();
    match work.phase {
        Phase::Item => if work.items.len() == 0 {
            let finish = Request::FinishMembershipImport;
            let report = Request::Finish(work.written as usize);
            reveal_with_fuel(transaction::open_after_all, 4);
            reveal_with_fuel(transaction::appended_links, 4);
            assert(going.1 =~= seq![finish, Request::Commit, report]);
            assert(going.1.drop_last() =~= seq![finish, Request::Commit]);
            assert(going.1.drop_last().drop_last() =~= seq![finish]);
            assert(going.1.drop_last().drop_last().drop_last() =~= Seq::<Request>::empty());
        } else {
            let item = work.items[0];
            let taken = ImportWork { items: work.items.skip(1), parent: Some(item.id), ..work };
            if !work.is_container(item) {
                lemma_going(
                    ImportWork {
                        phase: Phase::Resolve,
                        sources: sources_of(item),
                        candidates: Seq::empty(),
                        next: 0,
                        ..taken
                    },
                );
            } else if item.data.spec_member("LinkedChildren"@) is Some {
                transaction::lemma_single(
                    true,
                    Request::ImportMembership { item: item.id, data: item.data },
                );
            } else {
                lemma_going(taken);
            }
        },
        Phase::Resolve => if work.next >= work.sources.len() {
            lemma_going(ImportWork { phase: Phase::Candidate, next: 0, ..work });
        } else {
            match work.sources[work.next] {
                Source::Path { .. } => {
                    transaction::lemma_single(true, work.question());
                },
                Source::Item { id } => {
                    lemma_going(
                        ImportWork {
                            candidates: work.candidates.push(
                                Candidate {
                                    child: ItemId::Guid(id),
                                    child_type: LINKED_ALTERNATE_VERSION,
                                },
                            ),
                            next: work.next + 1,
                            ..work
                        },
                    );
                },
            }
        },
        _ => if work.next >= work.candidates.len() {
            lemma_going(work.in_phase(Phase::Item));
        } else {
            transaction::lemma_single(true, going.0.question());
        },
    }
}

/// How many rows the reply reports as written.
pub open spec fn rows_reported(reply: Reply) -> int {
    match reply {
        Reply::Imported(rows) => rows as int,
        _ => 0,
    }
}

/// The import lies in one transaction, which also marks the adoption record. A
/// link is appended only where the version has just been found to exist, having
/// been found neither owned by the video, if it is a linked version, nor linked
/// already; and the report counts every row that was written.
pub proof fn law_import_reports_what_it_writes(
    work: ImportWork,
    reply: Reply,
    next: ImportWork,
    block: Seq<Request>,
)
    requires
        work.well_formed(),
        work.is_waiting(),
        work.answered(reply) == Some((next, block)),
    ensures
        !(work.phase is Over),
        transaction::open_after_all(true, block) == Some(!(next.phase is Over)),
        transaction::appended_links(block) == if work.phase is Exists && reply == Reply::Found(
            true,
        ) {
            1int
        } else {
            0
        },
        next.written == transaction::capped(
            work.written + rows_reported(reply) + transaction::appended_links(block),
        ),
        next.phase is Over ==> block.last() == Request::Finish(next.written as usize),
{
    match (work.phase, reply) {
        (Phase::Import, Reply::Imported(rows)) => {
            lemma_going(
                ImportWork {
                    written: transaction::capped(work.written + rows),
                    ..work.in_phase(Phase::Item)
                },
            );
        },
        (Phase::Resolve, Reply::Item(found)) => {
            lemma_going(
                ImportWork {
                    candidates: match found {
                        Some(id) => work.candidates.push(
                            Candidate {
                                child: ItemId::Stored(id),
                                child_type: work.sources[work.next]->child_type,
                            },
                        ),
                        None => work.candidates,
                    },
                    next: work.next + 1,
                    ..work
                },
            );
        },
        (Phase::Exists, Reply::Found(exists)) => {
            let then = ImportWork {
                written: transaction::capped(work.written + 1),
                ..work.next_candidate()
            };
            lemma_going(then);
            lemma_going(work.next_candidate());
            transaction::lemma_single(true, work.linking());
            transaction::lemma_runs_join(true, seq![work.linking()], then.going().1);
        },
        _ => {
            lemma_going(work.next_candidate());
            transaction::lemma_single(true, work.in_phase(Phase::Link).question());
            transaction::lemma_single(true, work.in_phase(Phase::Exists).question());
        },
    }
}

/// A video's local versions come before its linked ones, so a version that is
/// listed as both becomes a local one.
pub proof fn law_local_versions_come_first(item: MembershipItem, i: int, j: int)
    requires
        0 <= i < j < sources_of(item).len(),
        sources_of(item)[j] matches Source::Path { child_type, .. } && child_type
            == LOCAL_ALTERNATE_VERSION,
    ensures
        sources_of(item)[i] matches Source::Path { child_type, .. } && child_type
            == LOCAL_ALTERNATE_VERSION,
{
    let elements = item.data.spec_elements("LocalAlternateVersions"@);
    let local = local_sources(elements);
    let linked = linked_sources(item.linked_versions@);
    lemma_local_sources(elements);
    lemma_linked_sources(item.linked_versions@);
    if j >= local.len() {
        assert(sources_of(item)[j] == linked[j - local.len()]);
    }
    assert(sources_of(item)[i] == local[i]);
}

proof fn lemma_local_sources(elements: Seq<Json>)
    ensures
        forall|k: int|
            0 <= k < local_sources(elements).len() ==> (#[trigger] local_sources(elements)[k] matches
                Source::Path { child_type, .. } && child_type == LOCAL_ALTERNATE_VERSION),
    decreases elements.len(),
{
    if elements.len() > 0 {
        lemma_local_sources(elements.drop_last());
    }
}

proof fn lemma_linked_sources(children: Seq<LinkedChild>)
    ensures
        forall|k: int|
            0 <= k < linked_sources(children).len() ==> (#[trigger] linked_sources(
                children,
            )[k] matches Source::Path { child_type, .. } ==> child_type
                == LINKED_ALTERNATE_VERSION),
    decreases children.len(),
{
    if children.len() > 0 {
        lemma_linked_sources(children.drop_last());
    }
}

/// The list of a playlist or box set is written from its own document, as soon
/// as the item is next, and only where the document holds such a list.
pub proof fn law_list_is_written_from_its_document(work: ImportWork)
    requires
        work.phase is Item,
        work.items.len() > 0,
        work.is_container(work.items[0]),
    ensures
        work.items[0].data.spec_member("LinkedChildren"@) is Some ==> work.going().1 == seq![
            Request::ImportMembership { item: work.items[0].id, data: work.items[0].data },
        ],
        work.items[0].data.spec_member("LinkedChildren"@) is None ==> work.going() == (ImportWork {
            items: work.items.skip(1),
            parent: Some(work.items[0].id),
            ..work
        }).going(),
{
}

/// From the first request to the last, the import lies in one transaction.
pub proof fn law_import_keeps_one_transaction(
    stage: ImportStage,
    playlist: Seq<char>,
    box_set: Seq<char>,
    reply: Reply,
    next: ImportStage,
    block: Seq<Request>,
)
    requires
        stage.well_formed(),
        stage.follows(playlist, box_set, reply, next, block),
        block[0] != Request::Reject,
    ensures
        transaction::open_after_all(stage.is_open(), block) == Some(next.is_open()),
{
    match (stage, reply) {
        (ImportStage::Items, Reply::MembershipItems(items)) => {
            let start = import_start(playlist, box_set, items@);
            lemma_going(start);
            transaction::lemma_single(false, Request::Begin);
            transaction::lemma_runs_join(false, seq![Request::Begin], start.going().1);
        },
        (ImportStage::Working(work), _) => {
            match work.answered(reply) {
                Some(then) => {
                    law_import_reports_what_it_writes(work, reply, then.0, then.1);
                },
                None => {},
            }
        },
        _ => {
            transaction::lemma_single(false, block[0]);
            assert(block =~= seq![block[0]]);
        },
    }
}

/// An import that comes to its end has marked the adoption record just before
/// it committed.
pub proof fn law_import_marks_the_record(
    stage: ImportStage,
    playlist: Seq<char>,
    box_set: Seq<char>,
    reply: Reply,
    next: ImportStage,
    block: Seq<Request>,
)
    requires
        stage.well_formed(),
        !(stage is Adoption),
        stage.follows(playlist, box_set, reply, next, block),
        block.last() is Finish,
    ensures
        block.len() >= 3,
        block[block.len() - 3] == Request::FinishMembershipImport,
        block[block.len() - 2] == Request::Commit,
{
    match (stage, reply) {
        (ImportStage::Items, Reply::MembershipItems(items)) => {
            lemma_going(import_start(playlist, box_set, items@));
        },
        (ImportStage::Working(work), _) => {
            match work.answered(reply) {
                Some(then) => {
                    lemma_answered_end(work, reply, then.0, then.1);
                },
                None => {},
            }
        },
        _ => {},
    }
}

proof fn lemma_answered_end(work: ImportWork, reply: Reply, next: ImportWork, block: Seq<Request>)
    requires
        work.well_formed(),
        work.is_waiting(),
        work.answered(reply) == Some((next, block)),
        block.last() is Finish,
    ensures
        block.len() >= 3,
        block[block.len() - 3] == Request::FinishMembershipImport,
        block[block.len() - 2] == Request::Commit,
{
    match (work.phase, reply) {
        (Phase::Import, Reply::Imported(rows)) => {
            lemma_going(
                ImportWork {
                    written: transaction::capped(work.written + rows),
                    ..work.in_phase(Phase::Item)
                },
            );
        },
        (Phase::Resolve, Reply::Item(found)) => {
            lemma_going(
                ImportWork {
                    candidates: match found {
                        Some(id) => work.candidates.push(
                            Candidate {
                                child: ItemId::Stored(id),
                                child_type: work.sources[work.next]->child_type,
                            },
                        ),
                        None => work.candidates,
                    },
                    next: work.next + 1,
                    ..work
                },
            );
        },
        _ => {
            lemma_going(work.next_candidate());
            lemma_going(
                ImportWork {
                    written: transaction::capped(work.written + 1),
                    ..work.next_candidate()
                },
            );
        },
    }
}

} // verus!
