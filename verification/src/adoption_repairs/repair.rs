//! The repairs, each handing out one request at a time.

use vstd::prelude::*;

use crate::adoption_repairs::duplicates;
use crate::adoption_repairs::duplicates::{MergeDuplicates, MergeState};
use crate::adoption_repairs::extras;
use crate::adoption_repairs::extras::CleanupExtras;
use crate::adoption_repairs::membership;
use crate::adoption_repairs::membership::{ImportMembership, ImportStage};
use crate::adoption_repairs::owners;
use crate::adoption_repairs::owners::{FixOwners, OwnersState};
use crate::adoption_repairs::request::{FoldedKind, RepairKey, Reply, Request, StoredTypes};
use crate::adoption_repairs::transaction;
use crate::adoption_repairs::versions;
use crate::adoption_repairs::versions::{BackfillVersions, VersionsStage};
use crate::outbox::Outbox;

verus! {

/// What a repair waits for, whichever it is.
pub enum RoutineState {
    Import { playlist: Seq<char>, box_set: Seq<char>, stage: ImportStage },
    Cleanup(extras::Stage),
    Owners(OwnersState),
    Versions(VersionsStage),
    Merge(MergeState),
}

impl RoutineState {
    pub open spec fn well_formed(self) -> bool {
        match self {
            RoutineState::Import { stage, .. } => stage.well_formed(),
            RoutineState::Cleanup(_) => true,
            RoutineState::Owners(state) => state.well_formed(),
            RoutineState::Versions(stage) => stage.well_formed(),
            RoutineState::Merge(state) => state.well_formed(),
        }
    }

    /// Whether a transaction is open while it waits.
    pub open spec fn is_open(self) -> bool {
        match self {
            RoutineState::Import { stage, .. } => stage.is_open(),
            RoutineState::Cleanup(_) => false,
            RoutineState::Owners(state) => state.is_open(),
            RoutineState::Versions(stage) => stage.is_open(),
            RoutineState::Merge(state) => state.is_open(),
        }
    }

    /// The first request, which asks whether the repair has run already.
    pub open spec fn spec_first_request(self) -> Request {
        match self {
            RoutineState::Import { .. } => Request::ReadAdoption,
            RoutineState::Cleanup(_) => Request::ReadMarker(RepairKey::CleanupOrphanedExtras),
            RoutineState::Owners(_) => Request::ReadMarker(RepairKey::OwnerIdRelationships),
            RoutineState::Versions(_) => Request::ReadMarker(RepairKey::AlternateVersionLinks),
            RoutineState::Merge(state) => Request::ReadMarker(state.kind.spec_key()),
        }
    }

    /// Whether it waits for the answer to its first request.
    pub open spec fn is_at_start(self) -> bool {
        match self {
            RoutineState::Import { stage, .. } => stage is Adoption,
            RoutineState::Cleanup(stage) => stage is Marker,
            RoutineState::Owners(state) => state.stage is Marker,
            RoutineState::Versions(stage) => stage is Marker,
            RoutineState::Merge(state) => state.stage is Marker,
        }
    }

    /// Whether `next` and `block` are what follows the reply.
    pub open spec fn follows(self, reply: Reply, next: RoutineState, block: Seq<Request>) -> bool {
        match (self, next) {
            (
                RoutineState::Import { playlist, box_set, stage },
                RoutineState::Import { playlist: then_playlist, box_set: then_box_set, stage: then },
            ) => {
                &&& then_playlist == playlist
                &&& then_box_set == box_set
                &&& stage.follows(playlist, box_set, reply, then, block)
            },
            (RoutineState::Cleanup(stage), RoutineState::Cleanup(then)) => stage.follows(
                reply,
                then,
                block,
            ),
            (RoutineState::Owners(state), RoutineState::Owners(then)) => then.folder == state.folder
                && state.follows(reply, then, block),
            (RoutineState::Versions(stage), RoutineState::Versions(then)) => stage.follows(
                reply,
                then,
                block,
            ),
            (RoutineState::Merge(state), RoutineState::Merge(then)) => then.kind == state.kind
                && state.follows(reply, then, block),
            _ => false,
        }
    }
}

/// One of the repairs.
#[derive(Debug)]
pub enum Routine {
    Import(ImportMembership),
    Cleanup(CleanupExtras),
    Owners(FixOwners),
    Versions(BackfillVersions),
    Merge(MergeDuplicates),
}

impl View for Routine {
    type V = RoutineState;

    open spec fn view(&self) -> RoutineState {
        match self {
            Routine::Import(repair) => RoutineState::Import {
                playlist: repair.playlist@,
                box_set: repair.box_set@,
                stage: repair.stage@,
            },
            Routine::Cleanup(repair) => RoutineState::Cleanup(repair.stage),
            Routine::Owners(repair) => RoutineState::Owners(repair@),
            Routine::Versions(repair) => RoutineState::Versions(repair.stage@),
            Routine::Merge(repair) => RoutineState::Merge(repair@),
        }
    }
}

impl Routine {
    fn answer(self, reply: Reply) -> (step: (Routine, Vec<Request>))
        requires
            self@.well_formed(),
        ensures
            self@.follows(reply, step.0@, step.1@),
            step.0@.well_formed(),
            step.1@.len() > 0,
    {
        match self {
            Routine::Import(repair) => {
                let (next, block) = repair.answer(reply);
                (Routine::Import(next), block)
            },
            Routine::Cleanup(repair) => {
                let (next, block) = repair.answer(reply);
                (Routine::Cleanup(next), block)
            },
            Routine::Owners(repair) => {
                let (next, block) = repair.answer(reply);
                (Routine::Owners(next), block)
            },
            Routine::Versions(repair) => {
                let (next, block) = repair.answer(reply);
                (Routine::Versions(next), block)
            },
            Routine::Merge(repair) => {
                let (next, block) = repair.answer(reply);
                (Routine::Merge(next), block)
            },
        }
    }

    fn first_request(&self) -> (request: Request)
        ensures
            request == self@.spec_first_request(),
    {
        match self {
            Routine::Import(_) => Request::ReadAdoption,
            Routine::Cleanup(_) => Request::ReadMarker(RepairKey::CleanupOrphanedExtras),
            Routine::Owners(_) => Request::ReadMarker(RepairKey::OwnerIdRelationships),
            Routine::Versions(_) => Request::ReadMarker(RepairKey::AlternateVersionLinks),
            Routine::Merge(repair) => Request::ReadMarker(repair.kind.key()),
        }
    }
}

/// A repair and the requests that are still to be handed out before it waits.
pub struct RepairState {
    pub routine: RoutineState,
    pub pending: Seq<Request>,
}

impl RepairState {
    pub open spec fn well_formed(self) -> bool {
        self.routine.well_formed()
    }

    /// Whether the repair is at its very beginning.
    pub open spec fn is_new(self) -> bool {
        &&& self.routine.is_at_start()
        &&& self.pending == seq![self.routine.spec_first_request()]
    }

    /// Whether `next` and `request` are what follows the reply: the requests of
    /// a block are handed out one by one, each but the last to be answered by
    /// [`Reply::Done`], and the reply to the last goes to the repair.
    pub open spec fn follows(self, reply: Reply, next: RepairState, request: Request) -> bool {
        if self.pending.len() > 0 {
            if reply is Done {
                &&& next == (RepairState { routine: self.routine, pending: self.pending.skip(1) })
                &&& request == self.pending[0]
            } else {
                next == self && request == Request::Reject
            }
        } else {
            self.routine.follows(reply, next.routine, seq![request] + next.pending)
        }
    }

    /// Whether the requests to come fit a transaction being open, or none.
    pub open spec fn fits(self, open: bool) -> bool {
        transaction::open_after_all(open, self.pending) == Some(self.routine.is_open())
    }
}

/// A repair under way. [`Repair::step`] is called with [`Reply::Done`] for the
/// first request, and then with the reply to each request, until the request
/// is [`Request::Finish`] or [`Request::Reject`].
#[derive(Debug)]
pub struct Repair {
    routine: Routine,
    pending: Outbox<Request>,
}

impl View for Repair {
    type V = RepairState;

    closed spec fn view(&self) -> RepairState {
        RepairState { routine: self.routine@, pending: self.pending@ }
    }
}

impl Repair {
    fn start(routine: Routine) -> (repair: Repair)
        requires
            routine@.is_at_start(),
            routine@.well_formed(),
        ensures
            repair@.is_new(),
            repair@.well_formed(),
            repair@.routine == routine@,
    {
        let mut first: Vec<Request> = Vec::new();
        first.push(routine.first_request());
        assert(first@ =~= seq![routine@.spec_first_request()]);
        Repair { routine, pending: Outbox::new(first) }
    }

    /// Takes the reply to the request before, and gives the next one. The
    /// repair is replaced by what it has become.
    pub fn step(self, reply: Reply) -> (step: (Repair, Request))
        requires
            self@.well_formed(),
        ensures
            self@.follows(reply, step.0@, step.1),
            step.0@.well_formed(),
    {
        let ghost before = self@;
        if self.pending.is_empty() {
            let (routine, block) = self.routine.answer(reply);
            let mut pending: Outbox<Request> = Outbox::new(block);
            let request: Request = match pending.take_first() {
                Some(request) => request,
                None => Request::Reject,
            };
            return (Repair { routine, pending }, request);
        }
        let mut pending: Outbox<Request> = self.pending;
        match reply {
            Reply::Done => {
                let request: Request = match pending.take_first() {
                    Some(request) => request,
                    None => Request::Reject,
                };
                assert(pending@ =~= before.pending.skip(1));
                (Repair { routine: self.routine, pending }, request)
            },
            _ => (Repair { routine: self.routine, pending }, Request::Reject),
        }
    }
}

/// The import of membership from the data documents.
pub fn import_membership_once(types: &StoredTypes) -> (repair: Repair)
    ensures
        repair@.is_new(),
        repair@.well_formed(),
        repair@.routine matches RoutineState::Import { playlist, box_set, .. } && playlist
            == types.playlist@ && box_set == types.box_set@,
{
    Repair::start(
        Routine::Import(ImportMembership::new(types.playlist.as_str(), types.box_set.as_str())),
    )
}

/// The removal of the extras whose owner no longer exists.
pub fn cleanup_orphaned_extras() -> (repair: Repair)
    ensures
        repair@.is_new(),
        repair@.well_formed(),
        repair@.routine is Cleanup,
{
    Repair::start(Routine::Cleanup(CleanupExtras::new()))
}

/// The repair of owners.
pub fn fix_owner_id_relationships(types: &StoredTypes) -> (repair: Repair)
    ensures
        repair@.is_new(),
        repair@.well_formed(),
        repair@.routine matches RoutineState::Owners(state) && state.folder == types.folder@,
{
    Repair::start(Routine::Owners(FixOwners::new(types.folder.as_str())))
}

/// The writing of the links of version groups.
pub fn backfill_alternate_version_links() -> (repair: Repair)
    ensures
        repair@.is_new(),
        repair@.well_formed(),
        repair@.routine is Versions,
{
    Repair::start(Routine::Versions(BackfillVersions::new()))
}

/// The folding of music artists whose names differ in case only.
pub fn merge_duplicate_music_artists() -> (repair: Repair)
    ensures
        repair@.is_new(),
        repair@.well_formed(),
        repair@.routine matches RoutineState::Merge(state) && state.kind
            == FoldedKind::MusicArtist,
{
    Repair::start(Routine::Merge(MergeDuplicates::new(FoldedKind::MusicArtist)))
}

/// The folding of people whose names differ in case only.
pub fn merge_duplicate_people() -> (repair: Repair)
    ensures
        repair@.is_new(),
        repair@.well_formed(),
        repair@.routine matches RoutineState::Merge(state) && state.kind == FoldedKind::Person,
{
    Repair::start(Routine::Merge(MergeDuplicates::new(FoldedKind::Person)))
}

/// A new repair fits no transaction being open.
pub proof fn law_new_repair_opens_nothing(state: RepairState)
    requires
        state.is_new(),
    ensures
        state.fits(false),
{
    transaction::lemma_single(false, state.routine.spec_first_request());
}

/// Over a whole run, rows change only within a transaction, transactions do not
/// nest, and the bookkeeping and the report come only once the transaction has
/// been committed: every request may stand where it is handed out, and what
/// is left to come fits in behind it.
pub proof fn law_requests_lie_in_transactions(
    state: RepairState,
    open: bool,
    reply: Reply,
    next: RepairState,
    request: Request,
)
    requires
        state.well_formed(),
        state.fits(open),
        state.follows(reply, next, request),
        request != Request::Reject,
    ensures
        transaction::open_after(open, request) matches Some(then_open) && next.fits(then_open),
{
    transaction::lemma_single(open, request);
    transaction::lemma_runs_join(open, seq![request], next.pending);
    if state.pending.len() > 0 {
        assert(state.pending =~= seq![request] + next.pending);
    } else {
        let block = seq![request] + next.pending;
        lemma_routine_keeps_transactions(state.routine, reply, next.routine, block);
    }
}

proof fn lemma_routine_keeps_transactions(
    state: RoutineState,
    reply: Reply,
    next: RoutineState,
    block: Seq<Request>,
)
    requires
        state.well_formed(),
        state.follows(reply, next, block),
        block.len() > 0,
        block[0] != Request::Reject,
    ensures
        transaction::open_after_all(state.is_open(), block) == Some(next.is_open()),
{
    assert(seq![Request::Reject][0] == Request::Reject);
    match (state, next) {
        (
            RoutineState::Import { playlist, box_set, stage },
            RoutineState::Import { stage: then, .. },
        ) => {
            membership::law_import_keeps_one_transaction(
                stage,
                playlist,
                box_set,
                reply,
                then,
                block,
            );
        },
        (RoutineState::Cleanup(stage), RoutineState::Cleanup(then)) => {
            extras::law_cleanup_reports_what_it_removes(stage, reply, then, block);
        },
        (RoutineState::Owners(state), RoutineState::Owners(then)) => {
            owners::law_owners_keep_one_transaction(state, reply, then, block);
        },
        (RoutineState::Versions(stage), RoutineState::Versions(then)) => {
            versions::law_backfill_reports_what_it_links(stage, reply, then, block);
        },
        (RoutineState::Merge(state), RoutineState::Merge(then)) => {
            duplicates::law_merge_reports_what_it_folds(state, reply, then, block);
        },
        _ => {},
    }
}

/// Whether the reply to the first request says that nothing is to be done: the
/// marker is there, or membership is not to be imported.
pub open spec fn says_done(reply: Reply) -> bool {
    match reply {
        Reply::Marker(found) => found is Some,
        Reply::Adoption(state) => !membership::import_is_due(state),
        _ => false,
    }
}

/// A repair that has run, as its first request finds out, changes nothing: it
/// asks for nothing more and reports no rows.
pub proof fn law_second_boot_changes_nothing(
    state: RoutineState,
    reply: Reply,
    next: RoutineState,
    block: Seq<Request>,
)
    requires
        state.is_at_start(),
        state.follows(reply, next, block),
        says_done(reply),
        state is Import <==> reply is Adoption,
    ensures
        block == seq![Request::Finish(0)],
{
}

/// Whether the requests record that the repair has run.
pub open spec fn records_run(state: RoutineState, block: Seq<Request>) -> bool {
    exists|i: int|
        0 <= i < block.len() && #[trigger] block[i] == match state.spec_first_request() {
            Request::ReadMarker(key) => Request::WriteMarker(key),
            _ => Request::FinishMembershipImport,
        }
}

/// A repair that comes to its end has recorded that it has run, under the entry
/// that its first request reads, unless that request found it to be done.
pub proof fn law_finishing_records_the_run(
    state: RoutineState,
    reply: Reply,
    next: RoutineState,
    block: Seq<Request>,
)
    requires
        state.well_formed(),
        state.follows(reply, next, block),
        block.len() > 0,
        block.last() is Finish,
    ensures
        (state.is_at_start() && says_done(reply)) || records_run(state, block),
{
    match (state, next) {
        (
            RoutineState::Import { playlist, box_set, stage },
            RoutineState::Import { stage: then, .. },
        ) => {
            if !(stage is Adoption) {
                membership::law_import_marks_the_record(
                    stage,
                    playlist,
                    box_set,
                    reply,
                    then,
                    block,
                );
                assert(block[block.len() - 3] == Request::FinishMembershipImport);
            }
        },
        (RoutineState::Owners(owners_state), RoutineState::Owners(then)) => {
            if !(owners_state.stage is Marker) {
                owners::law_owners_write_the_marker(owners_state, reply, then, block);
                assert(block[block.len() - 2] == Request::WriteMarker(
                    RepairKey::OwnerIdRelationships,
                ));
            }
        },
        (RoutineState::Merge(merge), RoutineState::Merge(then)) => {
            if !(merge.stage is Marker) {
                duplicates::law_merge_writes_the_marker(merge, reply, then, block);
                assert(block[block.len() - 2] == Request::WriteMarker(merge.kind.spec_key()));
            }
        },
        _ => {
            if !state.is_at_start() {
                assert(block[block.len() - 2] is WriteMarker);
            }
        },
    }
}

/// A repair that has not run goes on: its first answer, unless it says that
/// nothing is to be done, leads to a question about the rows, and nothing is
/// reported yet.
pub proof fn law_first_run_goes_on(
    state: RoutineState,
    reply: Reply,
    next: RoutineState,
    block: Seq<Request>,
)
    requires
        state.is_at_start(),
        state.follows(reply, next, block),
        !says_done(reply),
        state is Import ==> reply is Adoption,
        !(state is Import) ==> reply is Marker,
    ensures
        block.len() > 0,
        !next.is_at_start(),
        match block.last() {
            Request::SelectMembershipItems => state is Import,
            Request::SelectPlaceholderOwned => state is Cleanup,
            Request::SelectSharedPaths => state is Owners,
            Request::SelectUnlinkedVersions => state is Versions,
            Request::SelectNamed(kind) => state matches RoutineState::Merge(merge) && merge.kind == kind,
            _ => false,
        },
{
}

/// The requests of a block are handed out in order, none left out, none twice:
/// each of them is the next one until the block is used up.
pub proof fn law_blocks_are_handed_out_in_order(
    state: RepairState,
    next: RepairState,
    request: Request,
    i: int,
)
    requires
        state.pending.len() > 0,
        state.follows(Reply::Done, next, request),
    ensures
        request == state.pending[0],
        next.pending.len() == state.pending.len() - 1,
        0 <= i < next.pending.len() ==> next.pending[i] == state.pending[i + 1],
        next.routine == state.routine,
{
}

/// A reply that does not answer its request ends the repair: while requests are
/// still to be handed out only [`Reply::Done`] does, and the first question is
/// answered by the adoption record or by the marker.
pub proof fn law_unexpected_reply_is_rejected(
    state: RepairState,
    reply: Reply,
    next: RepairState,
    request: Request,
)
    requires
        state.follows(reply, next, request),
    ensures
        state.pending.len() > 0 && !(reply is Done) ==> request == Request::Reject && next == state,
        state.pending.len() == 0 && state.routine.is_at_start() && !(reply is Marker)
            && !(reply is Adoption) ==> request == Request::Reject && next.pending.len() == 0,
        state.pending.len() == 0 && state.routine.is_at_start() && reply is Adoption
            && !(state.routine is Import) ==> request == Request::Reject,
        state.pending.len() == 0 && state.routine.is_at_start() && reply is Marker
            && state.routine is Import ==> request == Request::Reject,
{
    let block = seq![request] + next.pending;
    if state.pending.len() == 0 {
        assert(block[0] == request);
        assert(seq![Request::Reject].len() == 1 && seq![Request::Reject][0] == Request::Reject);
        assert(block.len() == 1 + next.pending.len());
    }
}

} // verus!
