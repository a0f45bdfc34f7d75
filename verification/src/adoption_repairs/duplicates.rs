//! Folding music artists and people whose names differ in case only.

use vstd::prelude::*;

use crate::adoption_repairs::fold;
use crate::adoption_repairs::fold::{Fold, FoldKind, FoldRow, FoldState};
use crate::adoption_repairs::grouping;
use crate::adoption_repairs::grouping::{duplicate_groups, GroupKey};
use crate::adoption_repairs::request::{FoldedKind, NamedItem, PersonRow, RepairKey, Reply, Request};
use crate::adoption_repairs::transaction;
use crate::adoption_repairs::transaction::capped_sum;
use crate::casing;
use crate::text;

verus! {

/// Whether `key` is what a named item is grouped by: its name in invariant lower
/// case, ASCII letters being lower-cased as such.
pub open spec fn is_name_key(key: GroupKey, row: NamedItem) -> bool {
    &&& key.name@ == casing::invariant_lower(row.name@)
    &&& casing::lowers_ascii(row.name@, key.name@)
    &&& key.kind is None
}

/// Whether `key` is what a person is grouped by: the name in lower case, ASCII
/// names being lower-cased as such, and the person type.
pub open spec fn is_person_key(key: GroupKey, row: PersonRow) -> bool {
    &&& key.name@ == casing::text_lowercase(row.name@)
    &&& casing::is_ascii_text(row.name@) ==> casing::lowers_ascii(row.name@, key.name@)
    &&& key.kind == row.person_type
}

/// Whether `groups` are the items whose names are the same in invariant lower
/// case, with no diacritic folded and nothing trimmed.
pub open spec fn groups_by_name(groups: Seq<Vec<usize>>, rows: Seq<NamedItem>) -> bool {
    exists|keys: Seq<GroupKey>|
        {
            &&& keys.len() == rows.len()
            &&& forall|i: int|
                0 <= i < rows.len() ==> is_name_key(#[trigger] keys[i], rows[i])
            &&& #[trigger] grouping::are_duplicate_groups(groups, keys)
        }
}

/// Whether `groups` are the people whose names are the same in lower case and
/// whose person types are the same.
pub open spec fn groups_by_person(groups: Seq<Vec<usize>>, rows: Seq<PersonRow>) -> bool {
    exists|keys: Seq<GroupKey>|
        {
            &&& keys.len() == rows.len()
            &&& forall|i: int|
                0 <= i < rows.len() ==> is_person_key(#[trigger] keys[i], rows[i])
            &&& #[trigger] grouping::are_duplicate_groups(groups, keys)
        }
}

/// The named items as rows to be folded.
pub open spec fn named_rows(rows: Seq<NamedItem>) -> Seq<FoldRow> {
    rows.map_values(
        |row: NamedItem|
            FoldRow { id: row.id, created: row.created, is_folder: false, credits: 0 },
    )
}

/// The people as rows to be folded.
pub open spec fn people_rows(rows: Seq<PersonRow>) -> Seq<FoldRow> {
    rows.map_values(
        |row: PersonRow|
            FoldRow { id: row.id, created: None, is_folder: false, credits: row.credits },
    )
}

fn named_fold(kind: FoldKind, rows: &Vec<NamedItem>) -> (fold: Fold)
    ensures
        groups_by_name(fold@.groups, rows@),
        fold@ == fold::fold_start(kind, named_rows(rows@), fold@.groups),
        fold@.well_formed(),
{
    let mut keys: Vec<GroupKey> = Vec::new();
    let mut folded: Vec<FoldRow> = Vec::new();
    for i in 0..rows.len()
        invariant
            keys@.len() == i,
            forall|k: int|
                0 <= k < i ==> is_name_key(#[trigger] keys@[k], rows@[k]),
            folded@ == named_rows(rows@).take(i as int),
    {
        keys.push(GroupKey { name: casing::lower_invariant(rows[i].name.as_str()), kind: None });
        folded.push(
            FoldRow {
                id: rows[i].id.clone(),
                created: text::copy_optional(&rows[i].created),
                is_folder: false,
                credits: 0,
            },
        );
        assert(named_rows(rows@).take(i + 1) =~= named_rows(rows@).take(i as int).push(
            named_rows(rows@)[i as int],
        ));
    }
    assert(named_rows(rows@).take(rows@.len() as int) =~= named_rows(rows@));
    let groups: Vec<Vec<usize>> = duplicate_groups(&keys);
    assert(grouping::are_duplicate_groups(groups@, keys@));
    proof {
        lemma_groups_list_rows(groups@, keys@);
    }
    Fold::new(kind, folded, groups)
}

fn people_fold(rows: &Vec<PersonRow>) -> (fold: Fold)
    ensures
        groups_by_person(fold@.groups, rows@),
        fold@ == fold::fold_start(FoldKind::People, people_rows(rows@), fold@.groups),
        fold@.well_formed(),
{
    let mut keys: Vec<GroupKey> = Vec::new();
    let mut folded: Vec<FoldRow> = Vec::new();
    for i in 0..rows.len()
        invariant
            keys@.len() == i,
            forall|k: int|
                0 <= k < i ==> is_person_key(#[trigger] keys@[k], rows@[k]),
            folded@ == people_rows(rows@).take(i as int),
    {
        keys.push(
            GroupKey {
                name: casing::lowercase_of_text(rows[i].name.as_str()),
                kind: text::copy_optional(&rows[i].person_type),
            },
        );
        folded.push(
            FoldRow {
                id: rows[i].id.clone(),
                created: None,
                is_folder: false,
                credits: rows[i].credits,
            },
        );
        assert(people_rows(rows@).take(i + 1) =~= people_rows(rows@).take(i as int).push(
            people_rows(rows@)[i as int],
        ));
    }
    assert(people_rows(rows@).take(rows@.len() as int) =~= people_rows(rows@));
    let groups: Vec<Vec<usize>> = duplicate_groups(&keys);
    assert(grouping::are_duplicate_groups(groups@, keys@));
    proof {
        lemma_groups_list_rows(groups@, keys@);
    }
    Fold::new(FoldKind::People, folded, groups)
}

/// Duplicate groups list positions of the keys that they were made from.
proof fn lemma_groups_list_rows(groups: Seq<Vec<usize>>, keys: Seq<GroupKey>)
    requires
        grouping::are_duplicate_groups(groups, keys),
    ensures
        forall|g: int, m: int|
            0 <= g < groups.len() && 0 <= m < groups[g]@.len() ==> #[trigger] groups[g]@[m]
                < keys.len(),
{
    assert forall|g: int, m: int|
        0 <= g < groups.len() && 0 <= m < groups[g]@.len() implies #[trigger] groups[g]@[m]
        < keys.len() by {
        assert(grouping::lists_one_key(groups[g]@, keys));
    }
}

impl FoldedKind {
    /// How items of the kind are folded.
    pub open spec fn spec_fold_kind(self) -> FoldKind {
        match self {
            FoldedKind::MusicArtist => FoldKind::Artists,
            FoldedKind::Person => FoldKind::Persons,
        }
    }

    fn fold_kind(self) -> (kind: FoldKind)
        ensures
            kind == self.spec_fold_kind(),
    {
        match self {
            FoldedKind::MusicArtist => FoldKind::Artists,
            FoldedKind::Person => FoldKind::Persons,
        }
    }

    /// The entry that records that items of the kind have been folded.
    pub open spec fn spec_key(self) -> RepairKey {
        match self {
            FoldedKind::MusicArtist => RepairKey::MergeDuplicateMusicArtists,
            FoldedKind::Person => RepairKey::MergeDuplicatePeople,
        }
    }

    /// Executable [`FoldedKind::spec_key`].
    pub fn key(self) -> (key: RepairKey)
        ensures
            key == self.spec_key(),
    {
        match self {
            FoldedKind::MusicArtist => RepairKey::MergeDuplicateMusicArtists,
            FoldedKind::Person => RepairKey::MergeDuplicatePeople,
        }
    }
}

/// What the fold of a kind waits for.
pub enum MergeStage {
    Marker,
    Named,
    Folding(FoldState),
    People(int),
    Over,
}

/// The fold of a kind, as far as it has come.
pub struct MergeState {
    pub kind: FoldedKind,
    pub stage: MergeStage,
}

impl MergeState {
    pub open spec fn well_formed(self) -> bool {
        match self.stage {
            MergeStage::Folding(fold) => {
                &&& fold.well_formed()
                &&& !fold.is_over()
                &&& fold.kind == self.kind.spec_fold_kind()
                &&& fold.counts.len() < fold.kind.spec_width()
            },
            MergeStage::People(folded) => 0 <= folded <= usize::MAX,
            _ => true,
        }
    }

    /// Whether a transaction is open while it waits.
    pub open spec fn is_open(self) -> bool {
        self.stage is Folding
    }

    /// How many rows it has folded.
    pub open spec fn folded(self) -> int {
        match self.stage {
            MergeStage::Folding(fold) => fold.folded,
            MergeStage::People(folded) => folded,
            _ => 0,
        }
    }

    pub open spec fn at(self, stage: MergeStage) -> MergeState {
        MergeState { kind: self.kind, stage }
    }

    /// What follows once a folding of items has gone on as far as it could.
    pub open spec fn after_items(self, resumed: (FoldState, Seq<Request>)) -> (
        MergeState,
        Seq<Request>,
    ) {
        if !resumed.0.is_over() {
            (self.at(MergeStage::Folding(resumed.0)), resumed.1)
        } else if self.kind is MusicArtist {
            (self.at(MergeStage::Over), resumed.1 + transaction::closing(self.kind.spec_key(), resumed.0.folded))
        } else {
            (
                self.at(MergeStage::People(resumed.0.folded)),
                resumed.1 + seq![Request::Commit, Request::SelectPeople],
            )
        }
    }

    /// Whether `next` and `block` are what follows the reply.
    pub open spec fn follows(self, reply: Reply, next: MergeState, block: Seq<Request>) -> bool {
        match (self.stage, reply) {
            (MergeStage::Marker, Reply::Marker(found)) => if found is Some {
                next == self.at(MergeStage::Over) && block == seq![Request::Finish(0)]
            } else {
                next == self.at(MergeStage::Named) && block == seq![Request::SelectNamed(self.kind)]
            },
            (MergeStage::Named, Reply::Named(rows)) => exists|groups: Seq<Vec<usize>>|
                {
                    let resumed = fold::fold_start(
                        self.kind.spec_fold_kind(),
                        named_rows(rows@),
                        groups,
                    ).resumed();
                    &&& #[trigger] groups_by_name(groups, rows@)
                    &&& (next, block) == self.after_items(
                        (resumed.0, seq![Request::Begin] + resumed.1),
                    )
                },
            (MergeStage::Folding(fold), Reply::Count(count)) => {
                let resumed = FoldState { counts: fold.counts.push(count), ..fold }.resumed();
                (next, block) == self.after_items(resumed)
            },
            (MergeStage::People(folded), Reply::People(rows)) => exists|groups: Seq<Vec<usize>>|
                {
                    let resumed = fold::fold_start(
                        FoldKind::People,
                        people_rows(rows@),
                        groups,
                    ).resumed();
                    &&& #[trigger] groups_by_person(groups, rows@)
                    &&& next == self.at(MergeStage::Over)
                    &&& block == seq![Request::Begin] + resumed.1 + transaction::closing(
                        self.kind.spec_key(),
                        transaction::capped(folded + resumed.0.folded),
                    )
                },
            _ => next == self.at(MergeStage::Over) && block == seq![Request::Reject],
        }
    }
}

/// The stage that [`MergeDuplicates`] has reached.
#[derive(Debug)]
pub enum Stage {
    Marker,
    Named,
    Folding(Fold),
    People(usize),
    Over,
}

/// The repair that folds the items of a kind whose names differ in case only
/// and, for people, the rows of the people table as well.
#[derive(Debug)]
pub struct MergeDuplicates {
    pub kind: FoldedKind,
    pub stage: Stage,
}

impl View for MergeDuplicates {
    type V = MergeState;

    open spec fn view(&self) -> MergeState {
        MergeState {
            kind: self.kind,
            stage: match self.stage {
                Stage::Marker => MergeStage::Marker,
                Stage::Named => MergeStage::Named,
                Stage::Folding(fold) => MergeStage::Folding(fold@),
                Stage::People(folded) => MergeStage::People(folded as int),
                Stage::Over => MergeStage::Over,
            },
        }
    }
}

impl MergeDuplicates {
    /// The repair, waiting for the answer to its first request,
    /// [`Request::ReadMarker`].
    pub fn new(kind: FoldedKind) -> (repair: MergeDuplicates)
        ensures
            repair@ == (MergeState { kind, stage: MergeStage::Marker }),
            repair@.well_formed(),
    {
        MergeDuplicates { kind, stage: Stage::Marker }
    }

    /// Takes the reply to the last request of the block before, and gives the
    /// next block.
    pub fn answer(self, reply: Reply) -> (step: (MergeDuplicates, Vec<Request>))
        requires
            self@.well_formed(),
        ensures
            self@.follows(reply, step.0@, step.1@),
            step.0@.well_formed(),
            step.1@.len() > 0,
            step.0@.kind == self@.kind,
    {
        let kind: FoldedKind = self.kind;
        let mut block: Vec<Request> = Vec::new();
        match (self.stage, reply) {
            (Stage::Marker, Reply::Marker(found)) => {
                if found.is_some() {
                    block.push(Request::Finish(0));
                    (MergeDuplicates { kind, stage: Stage::Over }, block)
                } else {
                    block.push(Request::SelectNamed(kind));
                    (MergeDuplicates { kind, stage: Stage::Named }, block)
                }
            },
            (Stage::Named, Reply::Named(rows)) => {
                block.push(Request::Begin);
                let mut fold: Fold = named_fold(kind.fold_kind(), &rows);
                let ghost start = fold@;
                assert(groups_by_name(start.groups, rows@));
                let is_over: bool = fold.resume(&mut block);
                proof {
                    fold::law_resuming_counts_deletions(start);
                }
                assert(block@ =~= seq![Request::Begin] + start.resumed().1);
                MergeDuplicates::after_fold(
                    kind,
                    fold,
                    is_over,
                    block,
                    Ghost((start.resumed().0, seq![Request::Begin] + start.resumed().1)),
                )
            },
            (Stage::Folding(fold), Reply::Count(count)) => {
                let mut fold: Fold = fold;
                fold.take_count(count);
                let ghost start = fold@;
                let is_over: bool = fold.resume(&mut block);
                proof {
                    fold::law_resuming_counts_deletions(start);
                }
                assert(block@ =~= start.resumed().1);
                MergeDuplicates::after_fold(kind, fold, is_over, block, Ghost(start.resumed()))
            },
            (Stage::People(folded), Reply::People(rows)) => {
                block.push(Request::Begin);
                let mut fold: Fold = people_fold(&rows);
                let ghost start = fold@;
                assert(groups_by_person(start.groups, rows@));
                fold.resume(&mut block);
                transaction::close(kind.key(), capped_sum(folded, fold.folded), &mut block);
                assert(block@ =~= seq![Request::Begin] + start.resumed().1 + transaction::closing(
                    kind.spec_key(),
                    transaction::capped(folded + start.resumed().0.folded),
                ));
                (MergeDuplicates { kind, stage: Stage::Over }, block)
            },
            _ => {
                block.push(Request::Reject);
                (MergeDuplicates { kind, stage: Stage::Over }, block)
            },
        }
    }

    fn after_fold(
        kind: FoldedKind,
        fold: Fold,
        is_over: bool,
        block: Vec<Request>,
        Ghost(resumed): Ghost<(FoldState, Seq<Request>)>,
    ) -> (step: (MergeDuplicates, Vec<Request>))
        requires
            resumed == (fold@, block@),
            is_over == fold@.is_over(),
            fold@.well_formed(),
            fold@.kind == kind.spec_fold_kind(),
            !is_over ==> fold@.counts.len() < fold@.kind.spec_width() && block@.len() > 0,
        ensures
            (step.0@, step.1@) == (MergeState { kind, stage: MergeStage::Over }).after_items(
                resumed,
            ),
            step.0@.well_formed(),
            step.1@.len() > 0,
            step.0@.kind == kind,
    {
        let mut block: Vec<Request> = block;
        if !is_over {
            return (MergeDuplicates { kind, stage: Stage::Folding(fold) }, block);
        }
        match kind {
            FoldedKind::MusicArtist => {
                transaction::close(kind.key(), fold.folded, &mut block);
                (MergeDuplicates { kind, stage: Stage::Over }, block)
            },
            FoldedKind::Person => {
                block.push(Request::Commit);
                block.push(Request::SelectPeople);
                assert(block@ =~= resumed.1 + seq![Request::Commit, Request::SelectPeople]);
                (MergeDuplicates { kind, stage: Stage::People(fold.folded) }, block)
            },
        }
    }
}

proof fn lemma_after_items(state: MergeState, open: bool, resumed: (FoldState, Seq<Request>))
    requires
        transaction::open_after_all(open, resumed.1) == Some(true),
        0 <= resumed.0.folded <= usize::MAX,
        !resumed.0.is_over() ==> resumed.1.len() > 0 && !(resumed.1.last() is Finish),
    ensures
        ({
            let step = state.after_items(resumed);
            &&& transaction::open_after_all(open, step.1) == Some(step.0.is_open())
            &&& transaction::deletions(step.1) == transaction::deletions(resumed.1)
            &&& match step.1.last() {
                Request::Finish(n) => n == resumed.0.folded,
                _ => step.0.folded() == resumed.0.folded,
            }
        }),
{
    if resumed.0.is_over() {
        let key = state.kind.spec_key();
        let people = seq![Request::Commit, Request::SelectPeople];
        transaction::lemma_closing(key, resumed.0.folded);
        transaction::lemma_runs_join(
            open,
            resumed.1,
            transaction::closing(key, resumed.0.folded),
        );
        assert(people =~= seq![Request::Commit] + seq![Request::SelectPeople]);
        transaction::lemma_single(true, Request::Commit);
        transaction::lemma_single(false, Request::SelectPeople);
        transaction::lemma_runs_join(true, seq![Request::Commit], seq![Request::SelectPeople]);
        transaction::lemma_runs_join(open, resumed.1, people);
    }
}

/// References are moved and duplicates taken away within a transaction only,
/// the marker is written outside of one, and the report counts every row that
/// was taken away.
pub proof fn law_merge_reports_what_it_folds(
    state: MergeState,
    reply: Reply,
    next: MergeState,
    block: Seq<Request>,
)
    requires
        state.well_formed(),
        state.follows(reply, next, block),
        block != seq![Request::Reject],
    ensures
        transaction::open_after_all(state.is_open(), block) == Some(next.is_open()),
        ({
            let folded = transaction::capped(state.folded() + transaction::deletions(block));
            match block.last() {
                Request::Finish(n) => n == folded,
                _ => next.folded() == folded,
            }
        }),
{
    let begin = seq![Request::Begin];
    transaction::lemma_single(false, Request::Begin);
    match (state.stage, reply) {
        (MergeStage::Named, Reply::Named(rows)) => {
            let groups = choose|groups: Seq<Vec<usize>>|
                {
                    let resumed = fold::fold_start(
                        state.kind.spec_fold_kind(),
                        named_rows(rows@),
                        groups,
                    ).resumed();
                    &&& #[trigger] groups_by_name(groups, rows@)
                    &&& (next, block) == state.after_items((resumed.0, begin + resumed.1))
                };
            let start = fold::fold_start(state.kind.spec_fold_kind(), named_rows(rows@), groups);
            let keys = choose|keys: Seq<GroupKey>|
                keys.len() == rows@.len() && #[trigger] grouping::are_duplicate_groups(groups, keys);
            lemma_groups_list_rows(groups, keys);
            fold::law_resuming_counts_deletions(start);
            transaction::lemma_runs_join(false, begin, start.resumed().1);
            lemma_after_items(state, false, (start.resumed().0, begin + start.resumed().1));
        },
        (MergeStage::Folding(fold), Reply::Count(count)) => {
            let start = FoldState { counts: fold.counts.push(count), ..fold };
            fold::law_resuming_counts_deletions(start);
            lemma_after_items(state, true, start.resumed());
        },
        (MergeStage::People(folded), Reply::People(rows)) => {
            let key = state.kind.spec_key();
            let groups = choose|groups: Seq<Vec<usize>>|
                {
                    let resumed = fold::fold_start(
                        FoldKind::People,
                        people_rows(rows@),
                        groups,
                    ).resumed();
                    &&& #[trigger] groups_by_person(groups, rows@)
                    &&& next == state.at(MergeStage::Over)
                    &&& block == begin + resumed.1 + transaction::closing(
                        key,
                        transaction::capped(folded + resumed.0.folded),
                    )
                };
            let start = fold::fold_start(FoldKind::People, people_rows(rows@), groups);
            let keys = choose|keys: Seq<GroupKey>|
                keys.len() == rows@.len() && #[trigger] grouping::are_duplicate_groups(groups, keys);
            lemma_groups_list_rows(groups, keys);
            fold::law_resuming_counts_deletions(start);
            let changed = transaction::capped(folded + start.resumed().0.folded);
            transaction::lemma_closing(key, changed);
            transaction::lemma_runs_join(false, begin, start.resumed().1);
            transaction::lemma_runs_join(
                false,
                begin + start.resumed().1,
                transaction::closing(key, changed),
            );
            transaction::lemma_counts_are_natural(start.resumed().1);
        },
        _ => {
            transaction::lemma_single(false, block[0]);
            assert(block =~= seq![block[0]]);
        },
    }
}

/// A fold that comes to its end has written its marker.
pub proof fn law_merge_writes_the_marker(
    state: MergeState,
    reply: Reply,
    next: MergeState,
    block: Seq<Request>,
)
    requires
        state.well_formed(),
        !(state.stage is Marker),
        state.follows(reply, next, block),
        block.len() > 0,
        block.last() is Finish,
    ensures
        block.len() >= 2,
        block[block.len() - 2] == Request::WriteMarker(state.kind.spec_key()),
{
    law_merge_reports_what_it_folds(state, reply, next, block);
    transaction::lemma_last_closes(state.is_open(), block);
}

/// Whether one of the groups holds both positions.
pub open spec fn are_grouped(groups: Seq<Vec<usize>>, i: usize, j: usize) -> bool {
    exists|g: int|
        0 <= g < groups.len() && (#[trigger] groups[g])@.contains(i) && groups[g]@.contains(j)
}

proof fn lemma_same_key_is_grouped(
    groups: Seq<Vec<usize>>,
    keys: Seq<GroupKey>,
    i: usize,
    j: usize,
)
    requires
        grouping::are_duplicate_groups(groups, keys),
        i < j < keys.len(),
        grouping::same_key(keys[i as int], keys[j as int]),
    ensures
        are_grouped(groups, i, j),
{
    let g = choose|g: int| 0 <= g < groups.len() && (#[trigger] groups[g])@.contains(i);
    assert(grouping::lists_one_key(groups[g]@, keys));
    assert(grouping::same_key(keys[i as int], keys[groups[g]@[0] as int]));
    assert(groups[g]@.contains(j));
}

/// Items whose names differ in the case of ASCII letters only are duplicates of
/// each other.
pub proof fn law_names_in_another_case_are_grouped(
    groups: Seq<Vec<usize>>,
    rows: Seq<NamedItem>,
    i: usize,
    j: usize,
)
    requires
        groups_by_name(groups, rows),
        i < j < rows.len(),
        text::same_ignoring_case(rows[i as int].name@, rows[j as int].name@),
    ensures
        are_grouped(groups, i, j),
{
    let keys = choose|keys: Seq<GroupKey>|
        {
            &&& keys.len() == rows.len()
            &&& forall|k: int| 0 <= k < rows.len() ==> is_name_key(#[trigger] keys[k], rows[k])
            &&& #[trigger] grouping::are_duplicate_groups(groups, keys)
        };
    assert(is_name_key(keys[i as int], rows[i as int]));
    assert(is_name_key(keys[j as int], rows[j as int]));
    casing::lemma_ascii_case_is_lost(rows[i as int].name@, rows[j as int].name@);
    lemma_same_key_is_grouped(groups, keys, i, j);
}

/// People of one type whose ASCII names differ in case only are duplicates of
/// each other.
pub proof fn law_people_in_another_case_are_grouped(
    groups: Seq<Vec<usize>>,
    rows: Seq<PersonRow>,
    i: usize,
    j: usize,
)
    requires
        groups_by_person(groups, rows),
        i < j < rows.len(),
        casing::is_ascii_text(rows[i as int].name@),
        casing::is_ascii_text(rows[j as int].name@),
        text::same_ignoring_case(rows[i as int].name@, rows[j as int].name@),
        text::same_optional(rows[i as int].person_type, rows[j as int].person_type),
    ensures
        are_grouped(groups, i, j),
{
    let keys = choose|keys: Seq<GroupKey>|
        {
            &&& keys.len() == rows.len()
            &&& forall|k: int| 0 <= k < rows.len() ==> is_person_key(#[trigger] keys[k], rows[k])
            &&& #[trigger] grouping::are_duplicate_groups(groups, keys)
        };
    assert(is_person_key(keys[i as int], rows[i as int]));
    assert(is_person_key(keys[j as int], rows[j as int]));
    assert(keys[i as int].name@ =~= keys[j as int].name@) by {
        let a = rows[i as int].name@;
        let b = rows[j as int].name@;
        assert forall|k: int| 0 <= k < a.len() implies keys[i as int].name@[k]
            == keys[j as int].name@[k] by {
            assert(text::lower_char(a[k]) == text::lower_char(b[k]));
            assert((a[k] as int) < 128 && (b[k] as int) < 128);
        }
    }
    lemma_same_key_is_grouped(groups, keys, i, j);
}

proof fn lemma_grouped_have_the_same_key(
    groups: Seq<Vec<usize>>,
    keys: Seq<GroupKey>,
    i: usize,
    j: usize,
)
    requires
        grouping::are_duplicate_groups(groups, keys),
        i < keys.len(),
        j < keys.len(),
        are_grouped(groups, i, j),
    ensures
        keys[i as int].name@ == keys[j as int].name@,
        text::same_optional(keys[i as int].kind, keys[j as int].kind),
{
    let g = choose|g: int|
        0 <= g < groups.len() && (#[trigger] groups[g])@.contains(i) && groups[g]@.contains(j);
    assert(grouping::lists_one_key(groups[g]@, keys));
    let first = keys[groups[g]@[0] as int];
    assert(grouping::same_key(keys[i as int], first));
    assert(grouping::same_key(keys[j as int], first));
}

/// Two items are duplicates of each other just where their names are the same
/// in invariant lower case. Two ASCII names are then the same but for the case
/// of letters.
pub proof fn law_only_names_in_another_case_are_grouped(
    groups: Seq<Vec<usize>>,
    rows: Seq<NamedItem>,
    i: usize,
    j: usize,
)
    requires
        groups_by_name(groups, rows),
        i < j < rows.len(),
    ensures
        ({
            let a = rows[i as int].name@;
            let b = rows[j as int].name@;
            &&& are_grouped(groups, i, j) <==> casing::invariant_lower(a) == casing::invariant_lower(b)
            &&& are_grouped(groups, i, j) && casing::is_ascii_text(a) && casing::is_ascii_text(b)
                ==> text::same_ignoring_case(a, b)
        }),
{
    let keys = choose|keys: Seq<GroupKey>|
        {
            &&& keys.len() == rows.len()
            &&& forall|k: int| 0 <= k < rows.len() ==> is_name_key(#[trigger] keys[k], rows[k])
            &&& #[trigger] grouping::are_duplicate_groups(groups, keys)
        };
    let a = rows[i as int].name@;
    let b = rows[j as int].name@;
    assert(is_name_key(keys[i as int], rows[i as int]));
    assert(is_name_key(keys[j as int], rows[j as int]));
    if are_grouped(groups, i, j) {
        lemma_grouped_have_the_same_key(groups, keys, i, j);
        if casing::is_ascii_text(a) && casing::is_ascii_text(b) {
            lemma_same_lowered_ascii(a, b, keys[i as int].name@);
        }
    }
    if casing::invariant_lower(a) == casing::invariant_lower(b) {
        lemma_same_key_is_grouped(groups, keys, i, j);
    }
}

/// Two people are duplicates of each other just where their names are the same
/// in lower case and their types are the same. Two ASCII names are then the same
/// but for the case of letters.
pub proof fn law_only_people_in_another_case_are_grouped(
    groups: Seq<Vec<usize>>,
    rows: Seq<PersonRow>,
    i: usize,
    j: usize,
)
    requires
        groups_by_person(groups, rows),
        i < j < rows.len(),
    ensures
        ({
            let a = rows[i as int].name@;
            let b = rows[j as int].name@;
            &&& are_grouped(groups, i, j) <==> casing::text_lowercase(a) == casing::text_lowercase(b)
                && match (rows[i as int].person_type, rows[j as int].person_type) {
                    (Some(one), Some(other)) => one@ == other@,
                    (None, None) => true,
                    _ => false,
                }
            &&& are_grouped(groups, i, j) && casing::is_ascii_text(a) && casing::is_ascii_text(b)
                ==> text::same_ignoring_case(a, b)
        }),
{
    let keys = choose|keys: Seq<GroupKey>|
        {
            &&& keys.len() == rows.len()
            &&& forall|k: int| 0 <= k < rows.len() ==> is_person_key(#[trigger] keys[k], rows[k])
            &&& #[trigger] grouping::are_duplicate_groups(groups, keys)
        };
    let a = rows[i as int].name@;
    let b = rows[j as int].name@;
    assert(is_person_key(keys[i as int], rows[i as int]));
    assert(is_person_key(keys[j as int], rows[j as int]));
    if are_grouped(groups, i, j) {
        lemma_grouped_have_the_same_key(groups, keys, i, j);
        if casing::is_ascii_text(a) && casing::is_ascii_text(b) {
            lemma_same_lowered_ascii(a, b, keys[i as int].name@);
        }
    }
    if casing::text_lowercase(a) == casing::text_lowercase(b) && text::same_optional(
        rows[i as int].person_type,
        rows[j as int].person_type,
    ) {
        lemma_same_key_is_grouped(groups, keys, i, j);
    }
}

proof fn lemma_same_lowered_ascii(a: Seq<char>, b: Seq<char>, lower: Seq<char>)
    requires
        casing::is_ascii_text(a),
        casing::is_ascii_text(b),
        casing::lowers_ascii(a, lower),
        casing::lowers_ascii(b, lower),
    ensures
        text::same_ignoring_case(a, b),
{
    assert forall|k: int| 0 <= k < a.len() implies text::lower_char(a[k]) == text::lower_char(b[k]) by {
        assert((a[k] as int) < 128 && (b[k] as int) < 128);
    }
}

/// No row is in two groups, and none is listed twice in one.
pub proof fn law_groups_of_names_are_disjoint(
    groups: Seq<Vec<usize>>,
    rows: Seq<NamedItem>,
    g: int,
    m: int,
    h: int,
    n: int,
)
    requires
        groups_by_name(groups, rows),
        0 <= g < groups.len(),
        0 <= m < groups[g]@.len(),
        0 <= h < groups.len(),
        0 <= n < groups[h]@.len(),
        groups[g]@[m] == groups[h]@[n],
    ensures
        g == h,
        m == n,
        groups[g]@[m] < rows.len(),
{
    let keys = choose|keys: Seq<GroupKey>|
        {
            &&& keys.len() == rows.len()
            &&& forall|k: int| 0 <= k < rows.len() ==> is_name_key(#[trigger] keys[k], rows[k])
            &&& #[trigger] grouping::are_duplicate_groups(groups, keys)
        };
    grouping::lemma_groups_are_disjoint(groups, keys, g, m, h, n);
}

/// No person is in two groups, and none is listed twice in one.
pub proof fn law_groups_of_people_are_disjoint(
    groups: Seq<Vec<usize>>,
    rows: Seq<PersonRow>,
    g: int,
    m: int,
    h: int,
    n: int,
)
    requires
        groups_by_person(groups, rows),
        0 <= g < groups.len(),
        0 <= m < groups[g]@.len(),
        0 <= h < groups.len(),
        0 <= n < groups[h]@.len(),
        groups[g]@[m] == groups[h]@[n],
    ensures
        g == h,
        m == n,
        groups[g]@[m] < rows.len(),
{
    let keys = choose|keys: Seq<GroupKey>|
        {
            &&& keys.len() == rows.len()
            &&& forall|k: int| 0 <= k < rows.len() ==> is_person_key(#[trigger] keys[k], rows[k])
            &&& #[trigger] grouping::are_duplicate_groups(groups, keys)
        };
    grouping::lemma_groups_are_disjoint(groups, keys, g, m, h, n);
}

/// A row to be folded has the id and the date of the item that it stands for.
pub proof fn law_named_rows_keep_id_and_date(rows: Seq<NamedItem>)
    ensures
        named_rows(rows).len() == rows.len(),
        forall|i: int|
            0 <= i < rows.len() ==> {
                &&& (#[trigger] named_rows(rows)[i]).id == rows[i].id
                &&& named_rows(rows)[i].created == rows[i].created
            },
{
}

/// A row to be folded has the id and the credits of the person that it stands
/// for.
pub proof fn law_people_rows_keep_id_and_credits(rows: Seq<PersonRow>)
    ensures
        people_rows(rows).len() == rows.len(),
        forall|i: int|
            0 <= i < rows.len() ==> {
                &&& (#[trigger] people_rows(rows)[i]).id == rows[i].id
                &&& people_rows(rows)[i].credits == rows[i].credits
            },
{
}

/// Artists and person items are folded each by their own rule and recorded each
/// under their own entry. Once the items are folded, the repair of artists is
/// over, and that of people goes on to the people table.
pub proof fn law_people_table_follows_the_person_items(state: MergeState, resumed: (FoldState, Seq<Request>))
    requires
        resumed.0.is_over(),
    ensures
        state.kind is MusicArtist <==> state.kind.spec_fold_kind() is Artists,
        state.kind is Person <==> state.kind.spec_fold_kind() is Persons,
        state.kind is MusicArtist <==> state.kind.spec_key() is MergeDuplicateMusicArtists,
        state.kind is Person <==> state.kind.spec_key() is MergeDuplicatePeople,
        state.kind is MusicArtist ==> state.after_items(resumed).1.last() is Finish,
        state.kind is Person ==> state.after_items(resumed).1.last() is SelectPeople,
        state.after_items(resumed).1 == resumed.1 + if state.kind is MusicArtist {
            seq![
                Request::Commit,
                Request::WriteMarker(RepairKey::MergeDuplicateMusicArtists),
                Request::Finish(resumed.0.folded as usize),
            ]
        } else {
            seq![Request::Commit, Request::SelectPeople]
        },
{
}

/// The groups of items come in the order of their names in invariant lower case.
pub proof fn law_groups_come_in_the_order_of_names(
    groups: Seq<Vec<usize>>,
    rows: Seq<NamedItem>,
    g: int,
    h: int,
)
    requires
        groups_by_name(groups, rows),
        0 <= g < h < groups.len(),
    ensures
        groups[g]@.len() >= 2,
        groups[h]@.len() >= 2,
        text::comes_before(
            casing::invariant_lower(rows[groups[g]@[0] as int].name@),
            casing::invariant_lower(rows[groups[h]@[0] as int].name@),
        ),
{
    let keys = choose|keys: Seq<GroupKey>|
        {
            &&& keys.len() == rows.len()
            &&& forall|k: int| 0 <= k < rows.len() ==> is_name_key(#[trigger] keys[k], rows[k])
            &&& #[trigger] grouping::are_duplicate_groups(groups, keys)
        };
    let a = groups[g]@[0] as int;
    let b = groups[h]@[0] as int;
    assert(grouping::lists_one_key(groups[g]@, keys));
    assert(grouping::lists_one_key(groups[h]@, keys));
    assert(is_name_key(keys[a], rows[a]));
    assert(is_name_key(keys[b], rows[b]));
    assert(grouping::key_before(keys[a], keys[b]));
}

} // verus!
