//! Giving every account a normalized user name, and enforcing that no two are
//! the same.
//!
//! The column, its values, the index and the marker change in one transaction.
//! The migration hands out one [`Request`] after the other and takes a
//! [`Reply`] for each; the normalized names are computed by the caller.

use vstd::prelude::*;

use crate::outbox::Outbox;
use crate::text;

verus! {

/// The bookkeeping entry that records that the migration has run.
pub const MARKER: &'static str = "normalized_usernames_icu_v1";

pub const READ_MARKER: &'static str = r#"SELECT "Value" FROM "FerrofinMeta" WHERE "Key" = ?1"#;

pub const SELECT_USERS: &'static str = r#"SELECT "Id", "Username" FROM "Users" ORDER BY "Id""#;

pub const FIND_COLUMN: &'static str =
    "SELECT 1 FROM pragma_table_info('Users') WHERE name = 'NormalizedUsername'";

pub const ADD_COLUMN: &'static str =
    r#"ALTER TABLE "Users" ADD COLUMN "NormalizedUsername" TEXT NOT NULL DEFAULT ''"#;

pub const DROP_INDEX: &'static str = r#"DROP INDEX IF EXISTS "IX_Users_NormalizedUsername""#;

pub const UPDATE_KEY: &'static str =
    r#"UPDATE "Users" SET "NormalizedUsername" = ?2 WHERE "Id" = ?1"#;

pub const CREATE_INDEX: &'static str =
    r#"CREATE UNIQUE INDEX "IX_Users_NormalizedUsername" ON "Users" ("NormalizedUsername")"#;

pub const WRITE_MARKER: &'static str =
    r#"INSERT INTO "FerrofinMeta" ("Key", "Value") VALUES (?1, '1')"#;

/// An account, and its name in normalized form.
#[derive(Debug)]
pub struct UserRow {
    pub id: String,
    pub name: String,
    pub key: String,
}

/// What the migration asks for next.
#[derive(Debug)]
pub enum Request {
    /// Open a transaction.
    Begin,
    /// The value of [`MARKER`]; answered by [`Reply::Marker`].
    ReadMarker,
    /// All accounts; answered by [`Reply::Users`].
    SelectUsers,
    /// Whether the column is there; answered by [`Reply::Found`].
    FindColumn,
    AddColumn,
    DropIndex,
    UpdateKey { id: String, key: String },
    CreateIndex,
    WriteMarker,
    /// Commit the transaction.
    Commit,
    /// Roll the transaction back.
    Rollback,
    /// The migration is over.
    Finish,
    /// The migration is over: two accounts, each by id and name, have the same
    /// normalized name.
    Collision { first: (String, String), second: (String, String) },
    /// The reply does not answer the request that was made; the migration is over.
    Reject,
}

/// What the database answered.
#[derive(Debug)]
pub enum Reply {
    /// The request was carried out, and there is nothing to report.
    Done,
    Marker(Option<String>),
    Users(Vec<UserRow>),
    Found(bool),
}

impl Request {
    /// The statement that the request stands for, where it is one.
    pub open spec fn spec_sql(self) -> Option<Seq<char>> {
        match self {
            Request::ReadMarker => Some(READ_MARKER@),
            Request::SelectUsers => Some(SELECT_USERS@),
            Request::FindColumn => Some(FIND_COLUMN@),
            Request::AddColumn => Some(ADD_COLUMN@),
            Request::DropIndex => Some(DROP_INDEX@),
            Request::UpdateKey { .. } => Some(UPDATE_KEY@),
            Request::CreateIndex => Some(CREATE_INDEX@),
            Request::WriteMarker => Some(WRITE_MARKER@),
            _ => None,
        }
    }

    /// Executable [`Request::spec_sql`].
    pub fn sql(&self) -> (sql: Option<&'static str>)
        ensures
            match sql {
                Some(text) => self.spec_sql() == Some(text@),
                None => self.spec_sql() is None,
            },
    {
        match self {
            Request::ReadMarker => Some(READ_MARKER),
            Request::SelectUsers => Some(SELECT_USERS),
            Request::FindColumn => Some(FIND_COLUMN),
            Request::AddColumn => Some(ADD_COLUMN),
            Request::DropIndex => Some(DROP_INDEX),
            Request::UpdateKey { .. } => Some(UPDATE_KEY),
            Request::CreateIndex => Some(CREATE_INDEX),
            Request::WriteMarker => Some(WRITE_MARKER),
            _ => None,
        }
    }

    /// Whether the request changes the database.
    pub open spec fn is_change(self) -> bool {
        match self {
            Request::AddColumn => true,
            Request::DropIndex => true,
            Request::UpdateKey { .. } => true,
            Request::CreateIndex => true,
            Request::WriteMarker => true,
            _ => false,
        }
    }
}

/// Whether no two of the accounts have the same normalized name.
pub open spec fn keys_are_distinct(users: Seq<UserRow>) -> bool {
    forall|i: int, j: int| 0 <= i < j < users.len() ==> #[trigger] users[i].key@ != #[trigger] users[j].key@
}

/// Whether account `second` is the first one whose normalized name is taken,
/// and `first` is the one that has it.
pub open spec fn is_collision(users: Seq<UserRow>, first: int, second: int) -> bool {
    &&& 0 <= first < second < users.len()
    &&& users[first].key@ == users[second].key@
    &&& keys_are_distinct(users.take(second))
}

/// The first account whose normalized name is taken, with the one that has it.
pub fn find_collision(users: &Vec<UserRow>) -> (collision: Option<(usize, usize)>)
    ensures
        match collision {
            Some(pair) => is_collision(users@, pair.0 as int, pair.1 as int),
            None => keys_are_distinct(users@),
        },
{
    for second in 0..users.len()
        invariant
            keys_are_distinct(users@.take(second as int)),
    {
        for first in 0..second
            invariant
                second < users@.len(),
                keys_are_distinct(users@.take(second as int)),
                forall|i: int| 0 <= i < first ==> #[trigger] users@[i].key@ != users@[second as int].key@,
        {
            if text::same_text(users[first].key.as_str(), users[second].key.as_str()) {
                return Some((first, second));
            }
        }
        proof {
            let before = users@.take(second as int);
            let after = users@.take(second + 1);
            assert forall|i: int, j: int| 0 <= i < j < after.len() implies #[trigger] after[i].key@
                != #[trigger] after[j].key@ by {
                if j < second {
                    assert(before[i].key@ != before[j].key@);
                }
            }
        }
    }
    assert(users@.take(users@.len() as int) =~= users@);
    None
}

/// The requests that give the accounts their normalized names.
pub open spec fn updates(users: Seq<UserRow>) -> Seq<Request> {
    users.map_values(|user: UserRow| Request::UpdateKey { id: user.id, key: user.key })
}

/// The requests that bring the schema and the names up to date: the index is
/// dropped first, so that stale names may trade places.
pub open spec fn migration(users: Seq<UserRow>, has_column: bool) -> Seq<Request> {
    let column = if has_column { Seq::empty() } else { seq![Request::AddColumn] };
    column + seq![Request::DropIndex] + updates(users) + seq![
        Request::CreateIndex,
        Request::WriteMarker,
        Request::Commit,
        Request::Finish,
    ]
}

/// What the migration waits for.
#[derive(Debug)]
pub enum Stage {
    Marker,
    Users,
    Column(Vec<UserRow>),
    Over,
}

impl Stage {
    /// Whether `next` and `block` are what follows the reply.
    pub open spec fn follows(self, reply: Reply, next: Stage, block: Seq<Request>) -> bool {
        match (self, reply) {
            (Stage::Marker, Reply::Marker(value)) => if value is Some && value->0@ == "1"@ {
                next == Stage::Over && block == seq![Request::Rollback, Request::Finish]
            } else {
                next == Stage::Users && block == seq![Request::SelectUsers]
            },
            (Stage::Users, Reply::Users(users)) => if keys_are_distinct(users@) {
                next == Stage::Column(users) && block == seq![Request::FindColumn]
            } else {
                &&& next == Stage::Over
                &&& exists|first: int, second: int| #[trigger]
                    is_collision(users@, first, second) && block == seq![
                        Request::Rollback,
                        Request::Collision {
                            first: (users@[first].id, users@[first].name),
                            second: (users@[second].id, users@[second].name),
                        },
                    ]
            },
            (Stage::Column(users), Reply::Found(has_column)) => next == Stage::Over && block
                == migration(users@, has_column),
            _ => next == Stage::Over && block == seq![Request::Rollback, Request::Reject],
        }
    }

    fn answer(self, reply: Reply) -> (step: (Stage, Vec<Request>))
        ensures
            self.follows(reply, step.0, step.1@),
            step.1@.len() > 0,
    {
        let mut block: Vec<Request> = Vec::new();
        match (self, reply) {
            (Stage::Marker, Reply::Marker(value)) => {
                let is_done: bool = match &value {
                    Some(text) => text::same_text(text.as_str(), "1"),
                    None => false,
                };
                if is_done {
                    block.push(Request::Rollback);
                    block.push(Request::Finish);
                    assert(block@ =~= seq![Request::Rollback, Request::Finish]);
                    (Stage::Over, block)
                } else {
                    block.push(Request::SelectUsers);
                    (Stage::Users, block)
                }
            },
            (Stage::Users, Reply::Users(users)) => {
                match find_collision(&users) {
                    None => {
                        block.push(Request::FindColumn);
                        (Stage::Column(users), block)
                    },
                    Some((first, second)) => {
                        block.push(Request::Rollback);
                        block.push(
                            Request::Collision {
                                first: (users[first].id.clone(), users[first].name.clone()),
                                second: (users[second].id.clone(), users[second].name.clone()),
                            },
                        );
                        proof {
                            let i = first as int;
                            let j = second as int;
                            assert(is_collision(users@, i, j));
                            assert(users@[i].key@ == users@[j].key@);
                            assert(!keys_are_distinct(users@));
                            assert(block@ =~= seq![
                                Request::Rollback,
                                Request::Collision {
                                    first: (users@[i].id, users@[i].name),
                                    second: (users@[j].id, users@[j].name),
                                },
                            ]);
                        }
                        (Stage::Over, block)
                    },
                }
            },
            (Stage::Column(users), Reply::Found(has_column)) => {
                if !has_column {
                    block.push(Request::AddColumn);
                }
                block.push(Request::DropIndex);
                let ghost opening = block@;
                assert(opening =~= (if has_column {
                    Seq::empty()
                } else {
                    seq![Request::AddColumn]
                }) + seq![Request::DropIndex]);
                for i in 0..users.len()
                    invariant
                        block@ == opening + updates(users@).take(i as int),
                {
                    block.push(
                        Request::UpdateKey { id: users[i].id.clone(), key: users[i].key.clone() },
                    );
                    assert(updates(users@).take(i + 1) =~= updates(users@).take(i as int).push(
                        updates(users@)[i as int],
                    ));
                }
                assert(updates(users@).take(users@.len() as int) =~= updates(users@));
                block.push(Request::CreateIndex);
                block.push(Request::WriteMarker);
                block.push(Request::Commit);
                block.push(Request::Finish);
                assert(block@ =~= migration(users@, has_column));
                (Stage::Over, block)
            },
            _ => {
                block.push(Request::Rollback);
                block.push(Request::Reject);
                assert(block@ =~= seq![Request::Rollback, Request::Reject]);
                (Stage::Over, block)
            },
        }
    }
}

/// The migration as far as it has come: what it waits for, and the requests
/// that are still to be handed out before that.
pub struct MigrationState {
    pub stage: Stage,
    pub pending: Seq<Request>,
}

impl MigrationState {
    /// Whether the migration is at its very beginning.
    pub open spec fn is_new(self) -> bool {
        &&& self.stage == Stage::Marker
        &&& self.pending == seq![Request::Begin, Request::ReadMarker]
    }

    /// Whether `next` and `request` are what follows the reply: the requests of
    /// a block are handed out one by one, each but the last to be answered by
    /// [`Reply::Done`].
    pub open spec fn follows(self, reply: Reply, next: MigrationState, request: Request) -> bool {
        if self.pending.len() > 0 {
            if reply is Done {
                &&& next == (MigrationState { stage: self.stage, pending: self.pending.skip(1) })
                &&& request == self.pending[0]
            } else {
                next == self && request == Request::Reject
            }
        } else {
            self.stage.follows(reply, next.stage, seq![request] + next.pending)
        }
    }
}

/// The migration. [`UsernameMigration::step`] is called with [`Reply::Done`]
/// for the first request, and then with the reply to each request, until the
/// request is [`Request::Finish`], [`Request::Collision`] or
/// [`Request::Reject`].
#[derive(Debug)]
pub struct UsernameMigration {
    stage: Stage,
    pending: Outbox<Request>,
}

impl View for UsernameMigration {
    type V = MigrationState;

    closed spec fn view(&self) -> MigrationState {
        MigrationState { stage: self.stage, pending: self.pending@ }
    }
}

/// The migration, at its beginning.
pub fn migrate() -> (migration: UsernameMigration)
    ensures
        migration@.is_new(),
{
    let mut first: Vec<Request> = Vec::new();
    first.push(Request::Begin);
    first.push(Request::ReadMarker);
    assert(first@ =~= seq![Request::Begin, Request::ReadMarker]);
    UsernameMigration { stage: Stage::Marker, pending: Outbox::new(first) }
}

impl UsernameMigration {
    /// Takes the reply to the request before, and gives the next one. The
    /// migration is replaced by what it has become.
    pub fn step(self, reply: Reply) -> (step: (UsernameMigration, Request))
        ensures
            self@.follows(reply, step.0@, step.1),
    {
        let ghost before = self@;
        if self.pending.is_empty() {
            let (stage, block) = self.stage.answer(reply);
            let mut pending: Outbox<Request> = Outbox::new(block);
            let request: Request = match pending.take_first() {
                Some(request) => request,
                None => Request::Reject,
            };
            return (UsernameMigration { stage, pending }, request);
        }
        let mut pending: Outbox<Request> = self.pending;
        match reply {
            Reply::Done => {
                let request: Request = match pending.take_first() {
                    Some(request) => request,
                    None => Request::Reject,
                };
                assert(pending@ =~= before.pending.skip(1));
                (UsernameMigration { stage: self.stage, pending }, request)
            },
            _ => (UsernameMigration { stage: self.stage, pending }, Request::Reject),
        }
    }
}

/// Nothing is changed before it is known that no two accounts have the same
/// normalized name, and what is changed then lies before the one commit.
pub proof fn law_collision_changes_nothing(
    stage: Stage,
    reply: Reply,
    next: Stage,
    block: Seq<Request>,
    i: int,
)
    requires
        stage.follows(reply, next, block),
        0 <= i < block.len(),
        block[i].is_change(),
    ensures
        stage is Column,
        i < block.len() - 2,
        block[block.len() - 2] == Request::Commit,
        block[block.len() - 1] == Request::Finish,
{
    match (stage, reply) {
        (Stage::Users, Reply::Users(users)) => {
            if !keys_are_distinct(users@) {
                let (a, b) = choose|first: int, second: int| #[trigger]
                    is_collision(users@, first, second) && block == seq![
                        Request::Rollback,
                        Request::Collision {
                            first: (users@[first].id, users@[first].name),
                            second: (users@[second].id, users@[second].name),
                        },
                    ];
                assert(is_collision(users@, a, b));
            }
        },
        _ => {},
    }
}

/// Every account gets its normalized name, exactly one update each, in order,
/// once the column is there and the index is gone; no account that is not
/// given is touched.
pub proof fn law_every_account_is_updated_once(users: Seq<UserRow>, has_column: bool)
    ensures
        ({
            let offset: int = if has_column { 1 } else { 2 };
            let block = migration(users, has_column);
            &&& block.len() == offset + users.len() + 4
            &&& block[offset - 1] == Request::DropIndex
            &&& !has_column ==> block[0] == Request::AddColumn
            &&& forall|k: int|
                0 <= k < users.len() ==> #[trigger] block[offset + k] == (Request::UpdateKey {
                    id: users[k].id,
                    key: users[k].key,
                })
            &&& block[offset + users.len()] == Request::CreateIndex
        }),
{
}

/// The accounts that are given names have distinct ones: the unique index can
/// be made.
pub proof fn law_written_keys_are_distinct(
    stage: Stage,
    reply: Reply,
    next: Stage,
    block: Seq<Request>,
)
    requires
        stage.follows(reply, next, block),
        next is Column,
    ensures
        next matches Stage::Column(users) && keys_are_distinct(users@),
{
}

/// The migration is passed over just where the entry holds a 1: nothing is
/// changed then, and otherwise the accounts are read.
pub proof fn law_only_a_finished_migration_is_passed_over(
    value: Option<String>,
    next: Stage,
    block: Seq<Request>,
)
    requires
        Stage::Marker.follows(Reply::Marker(value), next, block),
    ensures
        ({
            let is_done = value matches Some(text) && text@.len() == 1 && text@[0] == '1';
            &&& is_done ==> next is Over && block == seq![Request::Rollback, Request::Finish]
            &&& !is_done ==> next is Users && block == seq![Request::SelectUsers]
        }),
{
    reveal_strlit("1");
    if let Some(text) = value {
        assert("1"@ =~= seq!['1']);
        assert(text@.len() == 1 && text@[0] == '1' ==> text@ =~= seq!['1']);
    }
}

/// Where two accounts have the same normalized name, the migration is rolled
/// back and names such a pair, each account by its own id and name; no two
/// accounts before the second of them share a name. Where no two do, it goes on
/// with all of the accounts.
pub proof fn law_collision_names_two_accounts(users: Vec<UserRow>, next: Stage, block: Seq<Request>)
    requires
        Stage::Users.follows(Reply::Users(users), next, block),
    ensures
        (exists|i: int, j: int|
            #![trigger users@[i], users@[j]]
            0 <= i < j < users@.len() && users@[i].key@ == users@[j].key@ && block == seq![
                Request::Rollback,
                Request::Collision {
                    first: (users@[i].id, users@[i].name),
                    second: (users@[j].id, users@[j].name),
                },
            ] && forall|a: int, b: int|
                0 <= a < b < j ==> (#[trigger] users@[a]).key@ != (#[trigger] users@[b]).key@)
            || (next == Stage::Column(users) && block == seq![Request::FindColumn] && forall|
            a: int,
            b: int,
        |
            0 <= a < b < users@.len() ==> (#[trigger] users@[a]).key@ != (#[trigger] users@[b]).key@),
{
    if keys_are_distinct(users@) {
        assert forall|a: int, b: int| 0 <= a < b < users@.len() implies (#[trigger] users@[a]).key@
            != (#[trigger] users@[b]).key@ by {}
    } else {
        let (i, j) = choose|first: int, second: int| #[trigger]
            is_collision(users@, first, second) && block == seq![
                Request::Rollback,
                Request::Collision {
                    first: (users@[first].id, users@[first].name),
                    second: (users@[second].id, users@[second].name),
                },
            ];
        assert(is_collision(users@, i, j));
        assert forall|a: int, b: int| 0 <= a < b < j implies (#[trigger] users@[a]).key@ != (
        #[trigger] users@[b]).key@ by {
            let before = users@.take(j);
            assert(before[a].key@ != before[b].key@);
        }
        assert(users@[i].key@ == users@[j].key@);
    }
}

/// Once the names are written the index over them is made, the entry is written,
/// and the transaction is committed, in this order; the column is added only
/// where it is missing, before everything else.
pub proof fn law_index_and_entry_follow_the_names(users: Seq<UserRow>, has_column: bool)
    ensures
        ({
            let block = migration(users, has_column);
            let n = block.len() as int;
            &&& n >= 4
            &&& block.subrange(n - 4, n) == seq![
                Request::CreateIndex,
                Request::WriteMarker,
                Request::Commit,
                Request::Finish,
            ]
            &&& block.contains(Request::AddColumn) <==> !has_column
            &&& forall|i: int|
                0 <= i < n - 4 ==> {
                    ||| #[trigger] block[i] is UpdateKey
                    ||| block[i] is DropIndex
                    ||| block[i] is AddColumn
                }
        }),
{
    let block = migration(users, has_column);
    let n = block.len() as int;
    assert(block.subrange(n - 4, n) =~= seq![
        Request::CreateIndex,
        Request::WriteMarker,
        Request::Commit,
        Request::Finish,
    ]);
    if !has_column {
        assert(block[0] == Request::AddColumn);
    } else if block.contains(Request::AddColumn) {
        let i = choose|i: int| 0 <= i < block.len() && block[i] == Request::AddColumn;
        if 1 <= i < 1 + users.len() {
            assert(block[i] == updates(users)[i - 1]);
        }
    }
}

/// The index refuses two accounts of one name, and the entry that is written is
/// the one by which a finished migration is passed over.
pub proof fn law_index_is_unique_and_entry_is_read_back()
    ensures
        "CREATE UNIQUE INDEX "@.is_prefix_of(CREATE_INDEX@),
        ({
            let end = ", '"@ + "1"@ + "')"@;
            WRITE_MARKER@.len() > end.len() && WRITE_MARKER@.skip(WRITE_MARKER@.len() - end.len()) == end
        }),
{
    reveal_strlit("CREATE UNIQUE INDEX ");
    reveal_strlit(
        r#"CREATE UNIQUE INDEX "IX_Users_NormalizedUsername" ON "Users" ("NormalizedUsername")"#,
    );
    reveal_strlit(r#"INSERT INTO "FerrofinMeta" ("Key", "Value") VALUES (?1, '1')"#);
    reveal_strlit(", '");
    reveal_strlit("1");
    reveal_strlit("')");
    let end = ", '"@ + "1"@ + "')"@;
    assert(WRITE_MARKER@.skip(WRITE_MARKER@.len() - end.len()) =~= end);
}

/// The migration opens its transaction before it reads anything, hands out its
/// requests in order, and gives up, rolling back, on a reply that does not answer
/// its question.
pub proof fn law_migration_is_handed_out_in_order(
    state: MigrationState,
    reply: Reply,
    next: MigrationState,
    request: Request,
)
    requires
        state.follows(reply, next, request),
    ensures
        state.is_new() && reply is Done ==> request == Request::Begin && next.pending == seq![
            Request::ReadMarker,
        ],
        state.pending.len() > 0 && reply is Done ==> request == state.pending[0] && next.pending
            == state.pending.skip(1) && next.stage == state.stage,
        state.pending.len() > 0 && !(reply is Done) ==> request == Request::Reject,
        state.pending.len() == 0 && reply is Done ==> request == Request::Rollback && next.pending
            == seq![Request::Reject],
{
    let block = seq![request] + next.pending;
    if state.is_new() {
        assert(state.pending.skip(1) =~= seq![Request::ReadMarker]);
    }
    if state.pending.len() == 0 && reply is Done {
        let rejected = seq![Request::Rollback, Request::Reject];
        assert(block == rejected);
        assert(block[0] == request && rejected[0] == Request::Rollback);
        assert(next.pending =~= block.skip(1));
        assert(rejected.skip(1) =~= seq![Request::Reject]);
    }
}

} // verus!
