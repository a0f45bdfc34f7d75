//! All repairs of a boot, one after the other.

use vstd::prelude::*;

use crate::adoption_repairs::repair;
use crate::adoption_repairs::repair::{Repair, RepairState, RoutineState};
use crate::adoption_repairs::request::{FoldedKind, RepairKey, Reply, Request, StoredTypes};

verus! {

/// The repair that a boot has come to.
#[derive(Debug, Clone, Copy, PartialEq, Eq, Structural)]
pub enum BootStage {
    Membership,
    Extras,
    Owners,
    Versions,
    Artists,
    People,
    Over,
}

impl BootStage {
    /// The stage behind this one.
    pub open spec fn spec_next(self) -> BootStage {
        match self {
            BootStage::Membership => BootStage::Extras,
            BootStage::Extras => BootStage::Owners,
            BootStage::Owners => BootStage::Versions,
            BootStage::Versions => BootStage::Artists,
            BootStage::Artists => BootStage::People,
            BootStage::People | BootStage::Over => BootStage::Over,
        }
    }

    fn next(self) -> (next: BootStage)
        ensures
            next == self.spec_next(),
    {
        match self {
            BootStage::Membership => BootStage::Extras,
            BootStage::Extras => BootStage::Owners,
            BootStage::Owners => BootStage::Versions,
            BootStage::Versions => BootStage::Artists,
            BootStage::Artists => BootStage::People,
            BootStage::People | BootStage::Over => BootStage::Over,
        }
    }

    /// What is reported of a stage that changed rows.
    pub open spec fn spec_report(self) -> Seq<char> {
        match self {
            BootStage::Membership =>
                "imported playlist/collection/version membership from Data JSON"@,
            BootStage::Extras => "removed extras whose owner no longer exists"@,
            BootStage::Owners => "repaired OwnerId relationships"@,
            BootStage::Versions => "backfilled alternate-version links from PrimaryVersionId"@,
            BootStage::Artists => "merged case-only duplicate music artists"@,
            BootStage::People => "merged case-only duplicate people"@,
            BootStage::Over => ""@,
        }
    }

    /// Executable [`BootStage::spec_report`].
    pub fn report(self) -> (text: &'static str)
        ensures
            text@ == self.spec_report(),
    {
        match self {
            BootStage::Membership =>
                "imported playlist/collection/version membership from Data JSON",
            BootStage::Extras => "removed extras whose owner no longer exists",
            BootStage::Owners => "repaired OwnerId relationships",
            BootStage::Versions => "backfilled alternate-version links from PrimaryVersionId",
            BootStage::Artists => "merged case-only duplicate music artists",
            BootStage::People => "merged case-only duplicate people",
            BootStage::Over => "",
        }
    }

    /// Whether the routine is the one of this stage, for these types.
    pub open spec fn runs(self, routine: RoutineState, types: StoredTypes) -> bool {
        match self {
            BootStage::Membership => routine matches RoutineState::Import { playlist, box_set, .. }
                && playlist == types.playlist@ && box_set == types.box_set@,
            BootStage::Extras => routine is Cleanup,
            BootStage::Owners => routine matches RoutineState::Owners(state) && state.folder
                == types.folder@,
            BootStage::Versions => routine is Versions,
            BootStage::Artists => routine matches RoutineState::Merge(state) && state.kind
                == FoldedKind::MusicArtist,
            BootStage::People => routine matches RoutineState::Merge(state) && state.kind
                == FoldedKind::Person,
            BootStage::Over => true,
        }
    }
}

/// What a boot asks for next.
#[derive(Debug)]
pub enum BootRequest {
    /// Carry the request out, and answer it.
    Ask(Request),
    /// Log that the stage changed this many rows, and answer with [`Reply::Done`].
    Report { stage: BootStage, changed: usize },
    /// The boot's repairs are complete.
    Complete,
    /// A reply did not answer its request.
    Failed,
}

/// A boot as far as it has come.
pub struct BootState {
    pub types: StoredTypes,
    pub stage: BootStage,
    pub repair: RepairState,
}

impl BootState {
    pub open spec fn well_formed(self) -> bool {
        self.repair.well_formed() && self.stage.runs(self.repair.routine, self.types)
    }

    /// Whether `next` and `request` are what follows the reply. The repairs run
    /// in order, each to its end, and one that changed rows is reported.
    pub open spec fn follows(self, reply: Reply, next: BootState, request: BootRequest) -> bool {
        &&& next.types == self.types
        &&& if self.stage is Over {
            next == self && request == BootRequest::Complete
        } else {
            exists|then: RepairState, inner: Request| #[trigger]
                self.repair.follows(reply, then, inner) && match inner {
                    Request::Finish(changed) => {
                        &&& next.stage == self.stage.spec_next()
                        &&& if changed > 0 {
                            &&& request == (BootRequest::Report { stage: self.stage, changed })
                            &&& next.stage is Over || next.repair.is_new()
                        } else if next.stage is Over {
                            request == BootRequest::Complete
                        } else {
                            &&& request == BootRequest::Ask(
                                next.repair.routine.spec_first_request(),
                            )
                            &&& next.repair.routine.is_at_start()
                            &&& next.repair.pending.len() == 0
                        }
                    },
                    Request::Reject => {
                        &&& next.stage == self.stage
                        &&& next.repair == then
                        &&& request == BootRequest::Failed
                    },
                    _ => {
                        &&& next.stage == self.stage
                        &&& next.repair == then
                        &&& request == BootRequest::Ask(inner)
                    },
                }
        }
    }
}

/// The repairs of a boot. [`BootRepairs::step`] is called with [`Reply::Done`]
/// for the first request, and then with the reply to each request, until the
/// request is [`BootRequest::Complete`] or [`BootRequest::Failed`].
#[derive(Debug)]
pub struct BootRepairs {
    types: StoredTypes,
    stage: BootStage,
    repair: Repair,
}

impl View for BootRepairs {
    type V = BootState;

    closed spec fn view(&self) -> BootState {
        BootState { types: self.types, stage: self.stage, repair: self.repair@ }
    }
}

/// The repairs of a boot, from the first one on.
pub fn run_all(types: StoredTypes) -> (boot: BootRepairs)
    ensures
        boot@.well_formed(),
        boot@.types == types,
        boot@.stage == BootStage::Membership,
        boot@.repair.is_new(),
{
    let repair: Repair = repair::import_membership_once(&types);
    BootRepairs { types, stage: BootStage::Membership, repair }
}

fn new_repair(stage: BootStage, types: &StoredTypes) -> (repair: Repair)
    requires
        !(stage is Over),
    ensures
        repair@.is_new(),
        repair@.well_formed(),
        stage.runs(repair@.routine, *types),
{
    match stage {
        BootStage::Membership => repair::import_membership_once(types),
        BootStage::Extras => repair::cleanup_orphaned_extras(),
        BootStage::Owners => repair::fix_owner_id_relationships(types),
        BootStage::Versions => repair::backfill_alternate_version_links(),
        BootStage::Artists => repair::merge_duplicate_music_artists(),
        _ => repair::merge_duplicate_people(),
    }
}

impl BootRepairs {
    /// Takes the reply to the request before, and gives the next one. The boot
    /// is replaced by what it has become.
    pub fn step(self, reply: Reply) -> (step: (BootRepairs, BootRequest))
        requires
            self@.well_formed(),
        ensures
            self@.follows(reply, step.0@, step.1),
            step.0@.well_formed(),
    {
        let types: StoredTypes = self.types;
        let stage: BootStage = self.stage;
        if matches!(stage, BootStage::Over) {
            return (BootRepairs { types, stage, repair: self.repair }, BootRequest::Complete);
        }
        let ghost before = self@;
        let (then, inner) = self.repair.step(reply);
        assert(before.repair.follows(reply, then@, inner));
        match inner {
            Request::Finish(changed) => {
                let following: BootStage = stage.next();
                if matches!(following, BootStage::Over) {
                    let request: BootRequest = if changed > 0 {
                        BootRequest::Report { stage, changed }
                    } else {
                        BootRequest::Complete
                    };
                    return (BootRepairs { types, stage: following, repair: then }, request);
                }
                let fresh: Repair = new_repair(following, &types);
                if changed > 0 {
                    (
                        BootRepairs { types, stage: following, repair: fresh },
                        BootRequest::Report { stage, changed },
                    )
                } else {
                    let (repair, first) = fresh.step(Reply::Done);
                    (
                        BootRepairs { types, stage: following, repair },
                        BootRequest::Ask(first),
                    )
                }
            },
            Request::Reject => {
                (BootRepairs { types, stage, repair: then }, BootRequest::Failed)
            },
            request => {
                (BootRepairs { types, stage, repair: then }, BootRequest::Ask(request))
            },
        }
    }
}

/// A boot on a database whose repairs have all run asks of each only whether it
/// has, in order, and changes and reports nothing.
pub proof fn law_second_boot_only_asks(
    state: BootState,
    reply: Reply,
    next: BootState,
    request: BootRequest,
)
    requires
        state.well_formed(),
        !(state.stage is Over),
        state.repair.routine.is_at_start(),
        state.repair.pending.len() == 0,
        state.follows(reply, next, request),
        repair::says_done(reply),
        state.stage is Membership <==> reply is Adoption,
    ensures
        next.stage == state.stage.spec_next(),
        if next.stage is Over {
            request == BootRequest::Complete
        } else {
            &&& request == BootRequest::Ask(next.repair.routine.spec_first_request())
            &&& next.repair.routine.is_at_start()
            &&& next.repair.pending.len() == 0
        },
{
    assert forall|then: RepairState, inner: Request| #[trigger]
        state.repair.follows(reply, then, inner) implies inner == Request::Finish(0) by {
        let block = seq![inner] + then.pending;
        repair::law_second_boot_changes_nothing(
            state.repair.routine,
            reply,
            then.routine,
            block,
        );
        assert(block[0] == inner);
        assert(seq![Request::Finish(0)][0] == Request::Finish(0));
    }
}

impl BootStage {
    /// How many repairs come before this stage.
    pub open spec fn place(self) -> int {
        match self {
            BootStage::Membership => 0,
            BootStage::Extras => 1,
            BootStage::Owners => 2,
            BootStage::Versions => 3,
            BootStage::Artists => 4,
            BootStage::People => 5,
            BootStage::Over => 6,
        }
    }
}

/// Every repair has its turn, one behind the other: membership, extras, owners,
/// versions, artists, people.
pub proof fn law_every_repair_has_its_turn(stage: BootStage)
    requires
        !(stage is Over),
    ensures
        stage.spec_next().place() == stage.place() + 1,
{
}

/// The repair of a stage starts by reading its own entry in the bookkeeping,
/// and the import of membership by reading the adoption record.
pub proof fn law_stage_reads_its_own_entry(state: BootState)
    requires
        state.well_formed(),
        !(state.stage is Over),
    ensures
        state.repair.routine.spec_first_request() == match state.stage {
            BootStage::Membership => Request::ReadAdoption,
            BootStage::Extras => Request::ReadMarker(RepairKey::CleanupOrphanedExtras),
            BootStage::Owners => Request::ReadMarker(RepairKey::OwnerIdRelationships),
            BootStage::Versions => Request::ReadMarker(RepairKey::AlternateVersionLinks),
            BootStage::Artists => Request::ReadMarker(RepairKey::MergeDuplicateMusicArtists),
            _ => Request::ReadMarker(RepairKey::MergeDuplicatePeople),
        },
{
}

/// A stage goes on only once its repair is over, then to the next one. It is
/// reported just where it changed rows, with how many; a reply that answers
/// nothing ends the boot at its stage.
pub proof fn law_boot_reports_what_a_repair_changed(
    state: BootState,
    reply: Reply,
    next: BootState,
    request: BootRequest,
)
    requires
        state.well_formed(),
        !(state.stage is Over),
        state.follows(reply, next, request),
    ensures
        exists|then: RepairState, inner: Request| #[trigger]
            state.repair.follows(reply, then, inner) && {
                &&& inner is Finish <==> next.stage.place() == state.stage.place() + 1
                &&& !(inner is Finish) <==> next.stage == state.stage
                &&& request matches BootRequest::Report { stage, changed } ==> changed > 0 && stage
                    == state.stage && inner == Request::Finish(changed)
                &&& inner matches Request::Finish(changed) ==> (request is Report <==> changed > 0)
                &&& request is Complete ==> state.stage is People
                &&& request is Failed <==> inner is Reject
            },
{
    let (then, inner) = choose|then: RepairState, inner: Request| #[trigger]
        state.repair.follows(reply, then, inner) && match inner {
            Request::Finish(changed) => {
                &&& next.stage == state.stage.spec_next()
                &&& if changed > 0 {
                    &&& request == (BootRequest::Report { stage: state.stage, changed })
                    &&& next.stage is Over || next.repair.is_new()
                } else if next.stage is Over {
                    request == BootRequest::Complete
                } else {
                    &&& request == BootRequest::Ask(next.repair.routine.spec_first_request())
                    &&& next.repair.routine.is_at_start()
                    &&& next.repair.pending.len() == 0
                }
            },
            Request::Reject => {
                &&& next.stage == state.stage
                &&& next.repair == then
                &&& request == BootRequest::Failed
            },
            _ => {
                &&& next.stage == state.stage
                &&& next.repair == then
                &&& request == BootRequest::Ask(inner)
            },
        };
    law_every_repair_has_its_turn(state.stage);
    assert(state.repair.follows(reply, then, inner));
}

} // verus!
