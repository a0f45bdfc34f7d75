//! The tables that the repairs work on, as far as items refer to one another in
//! them: what a request changes there, and what it counts.

use vstd::prelude::*;

use crate::adoption_repairs::request::{ItemId, Request, Rewrite};

verus! {

/// A row of `BaseItems`.
pub struct ItemRow {
    pub id: Seq<char>,
    pub parent: Option<Seq<char>>,
    pub owner: Option<Seq<char>>,
}

/// A row of `AncestorIds`: `item` lies somewhere below `ancestor`.
pub struct AncestorRow {
    pub item: Seq<char>,
    pub ancestor: Seq<char>,
}

/// A row of `LinkedChildren`.
pub struct LinkRow {
    pub parent: Seq<char>,
    pub child: Seq<char>,
    pub child_type: int,
}

/// A row of `UserData`: what a user keeps of an item under a key.
pub struct UserDataRow {
    pub item: Seq<char>,
    pub user: Seq<char>,
    pub key: Option<Seq<char>>,
}

/// A row of `PeopleBaseItemMap`: a part that a person has in an item.
pub struct CreditRow {
    pub person: Seq<char>,
    pub item: Seq<char>,
    pub role: Option<Seq<char>>,
}

/// The tables, each from row number to row.
#[verifier::ext_equal]
pub struct Tables {
    pub items: Map<int, ItemRow>,
    pub ancestors: Map<int, AncestorRow>,
    pub links: Map<int, LinkRow>,
    pub user_data: Map<int, UserDataRow>,
    /// The ids of the people.
    pub people: Map<int, Seq<char>>,
    pub credits: Map<int, CreditRow>,
    /// How the database writes a GUID.
    pub guid_text: spec_fn(u128) -> Seq<char>,
}

/// The rows without those that `gone` holds of.
pub open spec fn without<R>(rows: Map<int, R>, gone: spec_fn(R) -> bool) -> Map<int, R> {
    Map::new(|k: int| rows.contains_key(k) && !gone(rows[k]), |k: int| rows[k])
}

/// The rows with `change` made to each.
pub open spec fn changed<R>(rows: Map<int, R>, change: spec_fn(R) -> R) -> Map<int, R> {
    Map::new(|k: int| rows.contains_key(k), |k: int| change(rows[k]))
}

/// `to` in place of `from`, anything else as it is.
pub open spec fn renamed(id: Seq<char>, from: Seq<char>, to: Seq<char>) -> Seq<char> {
    if id == from { to } else { id }
}

/// [`renamed`] of an id that may be missing.
pub open spec fn renamed_optional(
    id: Option<Seq<char>>,
    from: Seq<char>,
    to: Seq<char>,
) -> Option<Seq<char>> {
    if id == Some(from) { Some(to) } else { id }
}

/// Whether a row says that `item` lies below `ancestor`.
pub open spec fn lies_below(rows: Map<int, AncestorRow>, item: Seq<char>, ancestor: Seq<char>) -> bool {
    exists|k: int| #[trigger] rows.contains_key(k) && rows[k].item == item && rows[k].ancestor == ancestor
}

/// Whether a row links `child` to `parent`.
pub open spec fn is_linked(rows: Map<int, LinkRow>, parent: Seq<char>, child: Seq<char>) -> bool {
    exists|k: int| #[trigger] rows.contains_key(k) && rows[k].parent == parent && rows[k].child == child
}

/// Whether the user keeps something of the item under the key.
pub open spec fn has_user_data(
    rows: Map<int, UserDataRow>,
    item: Seq<char>,
    user: Seq<char>,
    key: Option<Seq<char>>,
) -> bool {
    exists|k: int| #[trigger]
        rows.contains_key(k) && rows[k].item == item && rows[k].user == user && rows[k].key == key
}

/// Whether the person has this part in the item.
pub open spec fn has_credit(
    rows: Map<int, CreditRow>,
    person: Seq<char>,
    item: Seq<char>,
    role: Option<Seq<char>>,
) -> bool {
    exists|k: int| #[trigger]
        rows.contains_key(k) && rows[k].person == person && rows[k].item == item && rows[k].role
            == role
}

impl ItemId {
    /// The id as it stands in the tables.
    pub open spec fn written(self, tables: Tables) -> Seq<char> {
        match self {
            ItemId::Stored(id) => id@,
            ItemId::Guid(bits) => (tables.guid_text)(bits),
        }
    }
}

/// A row number that is free, where there is one.
pub open spec fn free_row<R>(rows: Map<int, R>) -> int {
    choose|k: int| !#[trigger] rows.contains_key(k)
}

impl Tables {
    /// The tables behind a rewrite of the references to `duplicate`.
    pub open spec fn rewritten(self, rewrite: Rewrite, duplicate: Seq<char>, keeper: Seq<char>) -> Tables {
        match rewrite {
            Rewrite::MoveChildren => Tables {
                items: changed(
                    self.items,
                    |row: ItemRow|
                        ItemRow { parent: renamed_optional(row.parent, duplicate, keeper), ..row },
                ),
                ..self
            },
            Rewrite::MoveOwned => Tables {
                items: changed(
                    self.items,
                    |row: ItemRow|
                        ItemRow { owner: renamed_optional(row.owner, duplicate, keeper), ..row },
                ),
                ..self
            },
            Rewrite::DropSharedDescendants => Tables {
                ancestors: without(
                    self.ancestors,
                    |row: AncestorRow|
                        row.ancestor == duplicate && lies_below(self.ancestors, row.item, keeper),
                ),
                ..self
            },
            Rewrite::MoveDescendants => Tables {
                ancestors: changed(
                    self.ancestors,
                    |row: AncestorRow|
                        AncestorRow { ancestor: renamed(row.ancestor, duplicate, keeper), ..row },
                ),
                ..self
            },
            Rewrite::DropSharedMembers => Tables {
                links: without(
                    self.links,
                    |row: LinkRow|
                        row.parent == duplicate && is_linked(self.links, keeper, row.child),
                ),
                ..self
            },
            Rewrite::MoveMembers => Tables {
                links: changed(
                    self.links,
                    |row: LinkRow|
                        LinkRow { parent: renamed(row.parent, duplicate, keeper), ..row },
                ),
                ..self
            },
            Rewrite::DropSharedMemberships => Tables {
                links: without(
                    self.links,
                    |row: LinkRow|
                        row.child == duplicate && is_linked(self.links, row.parent, keeper),
                ),
                ..self
            },
            Rewrite::MoveMemberships => Tables {
                links: changed(
                    self.links,
                    |row: LinkRow|
                        LinkRow { child: renamed(row.child, duplicate, keeper), ..row },
                ),
                ..self
            },
            Rewrite::DropSharedUserData => Tables {
                user_data: without(
                    self.user_data,
                    |row: UserDataRow|
                        row.item == duplicate && has_user_data(
                            self.user_data,
                            keeper,
                            row.user,
                            row.key,
                        ),
                ),
                ..self
            },
            Rewrite::MoveUserData => Tables {
                user_data: changed(
                    self.user_data,
                    |row: UserDataRow|
                        UserDataRow { item: renamed(row.item, duplicate, keeper), ..row },
                ),
                ..self
            },
        }
    }

    /// The tables behind a request that folds, removes, links or gives owners.
    pub open spec fn after(self, request: Request) -> Tables {
        match request {
            Request::Repoint { rewrite, duplicate, keeper } => self.rewritten(
                rewrite,
                duplicate@,
                keeper@,
            ),
            Request::DeleteLinksOf(id) => Tables {
                links: without(self.links, |row: LinkRow| row.parent == id@ || row.child == id@),
                ..self
            },
            Request::ReleaseOwnedBy(id) => Tables {
                items: changed(
                    self.items,
                    |row: ItemRow|
                        ItemRow { owner: if row.owner == Some(id@) { None } else { row.owner }, ..row },
                ),
                ..self
            },
            Request::DeleteItem(id) => Tables {
                items: without(self.items, |row: ItemRow| row.id == id@),
                ..self
            },
            Request::SetOwner { item, owner } => Tables {
                items: changed(
                    self.items,
                    |row: ItemRow|
                        ItemRow {
                            owner: if row.id == item@ {
                                match owner {
                                    Some(id) => Some(id@),
                                    None => None,
                                }
                            } else {
                                row.owner
                            },
                            ..row
                        },
                ),
                ..self
            },
            Request::AppendLink { parent, child, child_type } => Tables {
                links: self.links.insert(
                    free_row(self.links),
                    LinkRow { parent: parent@, child: child.written(self), child_type: child_type as int },
                ),
                ..self
            },
            Request::DropSharedCredits { duplicate, keeper } => Tables {
                credits: without(
                    self.credits,
                    |row: CreditRow|
                        row.person == duplicate@ && has_credit(
                            self.credits,
                            keeper@,
                            row.item,
                            row.role,
                        ),
                ),
                ..self
            },
            Request::MoveCredits { duplicate, keeper } => Tables {
                credits: changed(
                    self.credits,
                    |row: CreditRow|
                        CreditRow { person: renamed(row.person, duplicate@, keeper@), ..row },
                ),
                ..self
            },
            Request::DeletePerson(id) => Tables {
                people: without(self.people, |person: Seq<char>| person == id@),
                ..self
            },
            _ => self,
        }
    }

    /// The tables behind a run of requests.
    pub open spec fn after_all(self, requests: Seq<Request>) -> Tables
        decreases requests.len(),
    {
        if requests.len() == 0 {
            self
        } else {
            self.after_all(requests.drop_last()).after(requests.last())
        }
    }

    /// How many rows a request that counts finds.
    pub open spec fn counted(self, request: Request) -> nat {
        match request {
            Request::CountChildren(id) => self.children(id@),
            Request::CountOwned(id) => self.owned(id@),
            Request::CountDescendants(id) => self.descendants(id@),
            Request::CountLinks(id) => self.links_of(id@),
            Request::CountUserData(id) => self.user_data_of(id@),
            _ => 0,
        }
    }

    /// How many items have `id` as their parent.
    pub open spec fn children(self, id: Seq<char>) -> nat {
        self.items.dom().filter(|k: int| self.items[k].parent == Some(id)).len()
    }

    /// How many items have `id` as their owner.
    pub open spec fn owned(self, id: Seq<char>) -> nat {
        self.items.dom().filter(|k: int| self.items[k].owner == Some(id)).len()
    }

    /// How many items lie below `id`.
    pub open spec fn descendants(self, id: Seq<char>) -> nat {
        self.ancestors.dom().filter(|k: int| self.ancestors[k].ancestor == id).len()
    }

    /// How many links lead from or to `id`.
    pub open spec fn links_of(self, id: Seq<char>) -> nat {
        self.links.dom().filter(|k: int| self.links[k].parent == id || self.links[k].child == id).len()
    }

    /// How much users keep of `id`.
    pub open spec fn user_data_of(self, id: Seq<char>) -> nat {
        self.user_data.dom().filter(|k: int| self.user_data[k].item == id).len()
    }
}

/// A run of requests behind another does what the one and then the other does.
pub proof fn lemma_after_joined(tables: Tables, a: Seq<Request>, b: Seq<Request>)
    ensures
        tables.after_all(a + b) == tables.after_all(a).after_all(b),
    decreases b.len(),
{
    if b.len() == 0 {
        assert(a + b =~= a);
    } else {
        assert((a + b).drop_last() =~= a + b.drop_last());
        lemma_after_joined(tables, a, b.drop_last());
    }
}

/// A run of one request more.
pub proof fn lemma_after_push(tables: Tables, a: Seq<Request>, request: Request)
    ensures
        tables.after_all(a.push(request)) == tables.after_all(a).after(request),
{
    assert(a.push(request).drop_last() =~= a);
}

} // verus!
