//! What a folding does to the tables, and which row of a group it keeps.

use vstd::prelude::*;

use crate::adoption_repairs::fold::{
    folding, law_folding_takes_all_but_one, ranked_ids, repointing, rewrites, FoldKind, FoldRow, FoldState,
};
use crate::adoption_repairs::ranking;
use crate::adoption_repairs::ranking::{outranks, Rank};
use crate::adoption_repairs::request::{Request, Rewrite};
use crate::adoption_repairs::tables;
use crate::adoption_repairs::tables::{
    has_credit, has_user_data, is_linked, lies_below, renamed, AncestorRow, CreditRow, LinkRow,
    Tables, UserDataRow,
};
use crate::adoption_repairs::transaction;
use crate::text;

verus! {

/// Whether no item is listed twice below the same ancestor.
pub open spec fn descendants_are_distinct(rows: Map<int, AncestorRow>) -> bool {
    forall|r: int, s: int|
        #![trigger rows.contains_key(r), rows.contains_key(s)]
        rows.contains_key(r) && rows.contains_key(s) && r != s ==> rows[r].item != rows[s].item
            || rows[r].ancestor != rows[s].ancestor
}

/// Whether no parent links to the same child twice.
pub open spec fn links_are_distinct(rows: Map<int, LinkRow>) -> bool {
    forall|r: int, s: int|
        #![trigger rows.contains_key(r), rows.contains_key(s)]
        rows.contains_key(r) && rows.contains_key(s) && r != s ==> rows[r].parent != rows[s].parent
            || rows[r].child != rows[s].child
}

/// Whether no user keeps two rows of the same item under the same key.
pub open spec fn user_data_is_distinct(rows: Map<int, UserDataRow>) -> bool {
    forall|r: int, s: int|
        #![trigger rows.contains_key(r), rows.contains_key(s)]
        rows.contains_key(r) && rows.contains_key(s) && r != s ==> rows[r].item != rows[s].item
            || rows[r].user != rows[s].user || rows[r].key != rows[s].key
}

/// Whether no person has the same part in the same item twice.
pub open spec fn credits_are_distinct(rows: Map<int, CreditRow>) -> bool {
    forall|r: int, s: int|
        #![trigger rows.contains_key(r), rows.contains_key(s)]
        rows.contains_key(r) && rows.contains_key(s) && r != s ==> rows[r].person != rows[s].person
            || rows[r].item != rows[s].item || rows[r].role != rows[s].role
}

/// The tables behind one rewrite more.
proof fn lemma_rewrite(duplicate: String, keeper: String, tables: Tables, n: int)
    requires
        0 <= n < 10,
    ensures
        tables.after_all(repointing(duplicate, keeper).take(n + 1)) == tables.after_all(
            repointing(duplicate, keeper).take(n),
        ).rewritten(rewrites()[n], duplicate@, keeper@),
{
    let run = repointing(duplicate, keeper);
    tables::lemma_after_push(tables, run.take(n), run[n]);
    assert(run.take(n + 1) =~= run.take(n).push(run[n]));
}

/// The tables behind the rewrites and the deletion, one by one.
proof fn lemma_references_one_by_one(
    kind: FoldKind,
    duplicate: String,
    keeper: String,
    tables: Tables,
) -> (steps: (Tables, Tables, Tables, Tables))
    requires
        kind is Artists || kind is Persons,
    ensures
        steps.0 == tables.rewritten(Rewrite::MoveChildren, duplicate@, keeper@).rewritten(
            Rewrite::MoveOwned,
            duplicate@,
            keeper@,
        ),
        steps.1 == steps.0.rewritten(Rewrite::DropSharedDescendants, duplicate@, keeper@).rewritten(
            Rewrite::MoveDescendants,
            duplicate@,
            keeper@,
        ),
        steps.2 == steps.1.rewritten(Rewrite::DropSharedMembers, duplicate@, keeper@).rewritten(
            Rewrite::MoveMembers,
            duplicate@,
            keeper@,
        ).rewritten(Rewrite::DropSharedMemberships, duplicate@, keeper@).rewritten(
            Rewrite::MoveMemberships,
            duplicate@,
            keeper@,
        ),
        steps.3 == steps.2.rewritten(Rewrite::DropSharedUserData, duplicate@, keeper@).rewritten(
            Rewrite::MoveUserData,
            duplicate@,
            keeper@,
        ),
        tables.after_all(kind.spec_fold_one(duplicate, keeper)) == steps.3.after(
            Request::DeleteItem(duplicate),
        ),
{
    let run = repointing(duplicate, keeper);
    assert(run.take(0) =~= Seq::<Request>::empty());
    assert(run.take(10) =~= run);
    lemma_rewrite(duplicate, keeper, tables, 0);
    lemma_rewrite(duplicate, keeper, tables, 1);
    lemma_rewrite(duplicate, keeper, tables, 2);
    lemma_rewrite(duplicate, keeper, tables, 3);
    lemma_rewrite(duplicate, keeper, tables, 4);
    lemma_rewrite(duplicate, keeper, tables, 5);
    lemma_rewrite(duplicate, keeper, tables, 6);
    lemma_rewrite(duplicate, keeper, tables, 7);
    lemma_rewrite(duplicate, keeper, tables, 8);
    lemma_rewrite(duplicate, keeper, tables, 9);
    tables::lemma_after_push(tables, run, Request::DeleteItem(duplicate));
    (
        tables.after_all(run.take(2)),
        tables.after_all(run.take(4)),
        tables.after_all(run.take(8)),
        tables.after_all(run),
    )
}

/// Folding an artist or a person item takes away its own row and no other one.
/// What lay in it and what it owned lies in the keeper and is owned by the
/// keeper afterwards; nothing else of any item changes.
pub proof fn law_folded_item_hands_its_items_over(
    kind: FoldKind,
    duplicate: String,
    keeper: String,
    tables: Tables,
)
    requires
        kind is Artists || kind is Persons,
        duplicate@ != keeper@,
    ensures
        ({
            let after = tables.after_all(kind.spec_fold_one(duplicate, keeper));
            &&& forall|r: int| #[trigger]
                after.items.contains_key(r) <==> tables.items.contains_key(r) && tables.items[r].id
                    != duplicate@
            &&& forall|r: int| #[trigger]
                after.items.contains_key(r) ==> {
                    &&& after.items[r].id == tables.items[r].id
                    &&& after.items[r].parent != Some(duplicate@)
                    &&& tables.items[r].parent == Some(duplicate@) ==> after.items[r].parent == Some(
                        keeper@,
                    )
                    &&& tables.items[r].parent != Some(duplicate@) ==> after.items[r].parent
                        == tables.items[r].parent
                    &&& after.items[r].owner != Some(duplicate@)
                    &&& tables.items[r].owner == Some(duplicate@) ==> after.items[r].owner == Some(
                        keeper@,
                    )
                    &&& tables.items[r].owner != Some(duplicate@) ==> after.items[r].owner
                        == tables.items[r].owner
                }
            &&& after.people == tables.people
            &&& after.credits == tables.credits
            &&& after.guid_text == tables.guid_text
        }),
{
    let steps = lemma_references_one_by_one(kind, duplicate, keeper, tables);
}

/// Folding an artist or a person item leaves nothing below it: whatever lay
/// below it lies below the keeper, once, and whatever lay below another item
/// still does.
pub proof fn law_folded_item_hands_its_descendants_over(
    kind: FoldKind,
    duplicate: String,
    keeper: String,
    tables: Tables,
)
    requires
        kind is Artists || kind is Persons,
        duplicate@ != keeper@,
    ensures
        ({
            let before = tables.ancestors;
            let after = tables.after_all(kind.spec_fold_one(duplicate, keeper)).ancestors;
            &&& forall|item: Seq<char>| !#[trigger] lies_below(after, item, duplicate@)
            &&& forall|item: Seq<char>| #[trigger]
                lies_below(after, item, keeper@) <==> lies_below(before, item, keeper@) || lies_below(
                    before,
                    item,
                    duplicate@,
                )
            &&& forall|r: int| #[trigger]
                before.contains_key(r) && before[r].ancestor != duplicate@ ==> after.contains_key(r)
                    && after[r] == before[r]
            &&& forall|r: int| #[trigger]
                after.contains_key(r) ==> before.contains_key(r) && after[r].item == before[r].item
                    && after[r].ancestor == renamed(before[r].ancestor, duplicate@, keeper@)
            &&& descendants_are_distinct(before) ==> descendants_are_distinct(after)
        }),
{
    let steps = lemma_references_one_by_one(kind, duplicate, keeper, tables);
    let before = tables.ancestors;
    let after = tables.after_all(kind.spec_fold_one(duplicate, keeper)).ancestors;
    assert forall|item: Seq<char>| lies_below(before, item, keeper@) || lies_below(
        before,
        item,
        duplicate@,
    ) implies #[trigger] lies_below(after, item, keeper@) by {
        if lies_below(before, item, keeper@) {
            let r = choose|r: int| #[trigger]
                before.contains_key(r) && before[r].item == item && before[r].ancestor == keeper@;
            assert(after.contains_key(r) && after[r] == before[r]);
        } else {
            let r = choose|r: int| #[trigger]
                before.contains_key(r) && before[r].item == item && before[r].ancestor == duplicate@;
            assert(after.contains_key(r) && after[r].ancestor == keeper@);
        }
    }
    assert forall|item: Seq<char>| #[trigger] lies_below(after, item, keeper@) implies lies_below(
        before,
        item,
        keeper@,
    ) || lies_below(before, item, duplicate@) by {
        let r = choose|r: int| #[trigger]
            after.contains_key(r) && after[r].item == item && after[r].ancestor == keeper@;
        assert(before.contains_key(r));
    }
    if descendants_are_distinct(before) {
        assert forall|r: int, s: int|
            #![trigger after.contains_key(r), after.contains_key(s)]
            after.contains_key(r) && after.contains_key(s) && r != s implies after[r].item
            != after[s].item || after[r].ancestor != after[s].ancestor by {
            assert(before.contains_key(r) && before.contains_key(s));
        }
    }
}

/// Folding an artist or a person item leaves no link from or to it: every link
/// that it had is one of the keeper, once, of a type that it had before, and
/// every other link stays as it is.
pub proof fn law_folded_item_hands_its_links_over(
    kind: FoldKind,
    duplicate: String,
    keeper: String,
    tables: Tables,
)
    requires
        kind is Artists || kind is Persons,
        duplicate@ != keeper@,
    ensures
        ({
            let before = tables.links;
            let after = tables.after_all(kind.spec_fold_one(duplicate, keeper)).links;
            &&& forall|other: Seq<char>| !#[trigger] is_linked(after, duplicate@, other)
            &&& forall|other: Seq<char>| !#[trigger] is_linked(after, other, duplicate@)
            &&& forall|parent: Seq<char>, child: Seq<char>| #[trigger]
                is_linked(before, parent, child) ==> is_linked(
                    after,
                    renamed(parent, duplicate@, keeper@),
                    renamed(child, duplicate@, keeper@),
                )
            &&& forall|r: int| #[trigger]
                after.contains_key(r) ==> {
                    &&& before.contains_key(r)
                    &&& after[r].parent == renamed(before[r].parent, duplicate@, keeper@)
                    &&& after[r].child == renamed(before[r].child, duplicate@, keeper@)
                    &&& after[r].child_type == before[r].child_type
                }
            &&& forall|r: int| #[trigger]
                before.contains_key(r) && before[r].parent != duplicate@ && before[r].child
                    != duplicate@ ==> after.contains_key(r)
            &&& links_are_distinct(before) ==> links_are_distinct(after)
        }),
{
    let steps = lemma_references_one_by_one(kind, duplicate, keeper, tables);
    let before = tables.links;
    let half = steps.1.rewritten(Rewrite::DropSharedMembers, duplicate@, keeper@).rewritten(
        Rewrite::MoveMembers,
        duplicate@,
        keeper@,
    ).links;
    let after = tables.after_all(kind.spec_fold_one(duplicate, keeper)).links;
    assert(steps.1.links == before);
    assert forall|parent: Seq<char>, child: Seq<char>| #[trigger]
        is_linked(before, parent, child) implies is_linked(
        half,
        renamed(parent, duplicate@, keeper@),
        child,
    ) by {
        let r = choose|r: int| #[trigger]
            before.contains_key(r) && before[r].parent == parent && before[r].child == child;
        if parent == duplicate@ && is_linked(before, keeper@, child) {
            let s = choose|s: int| #[trigger]
                before.contains_key(s) && before[s].parent == keeper@ && before[s].child == child;
            assert(half.contains_key(s) && half[s] == before[s]);
        } else {
            assert(half.contains_key(r));
        }
    }
    assert forall|parent: Seq<char>, child: Seq<char>| #[trigger]
        is_linked(half, parent, child) implies is_linked(
        after,
        parent,
        renamed(child, duplicate@, keeper@),
    ) by {
        let r = choose|r: int| #[trigger]
            half.contains_key(r) && half[r].parent == parent && half[r].child == child;
        if child == duplicate@ && is_linked(half, parent, keeper@) {
            let s = choose|s: int| #[trigger]
                half.contains_key(s) && half[s].parent == parent && half[s].child == keeper@;
            assert(after.contains_key(s) && after[s] == half[s]);
        } else {
            assert(after.contains_key(r));
        }
    }
    assert forall|r: int| #[trigger] after.contains_key(r) implies half.contains_key(r)
        && before.contains_key(r) by {}
    assert forall|r: int| #[trigger]
        before.contains_key(r) && before[r].parent != duplicate@ && before[r].child
            != duplicate@ implies after.contains_key(r) by {
        assert(half.contains_key(r) && half[r] == before[r]);
    }
    if links_are_distinct(before) {
        assert forall|r: int, s: int|
            #![trigger half.contains_key(r), half.contains_key(s)]
            half.contains_key(r) && half.contains_key(s) && r != s implies half[r].parent
            != half[s].parent || half[r].child != half[s].child by {
            assert(before.contains_key(r) && before.contains_key(s));
        }
        assert forall|r: int, s: int|
            #![trigger after.contains_key(r), after.contains_key(s)]
            after.contains_key(r) && after.contains_key(s) && r != s implies after[r].parent
            != after[s].parent || after[r].child != after[s].child by {
            assert(half.contains_key(r) && half.contains_key(s));
        }
    }
}

/// Folding an artist or a person item leaves no user data of it: what users
/// keep of it they keep of the keeper, unless they kept something of the keeper
/// under that key already, which stays as it was.
pub proof fn law_folded_item_hands_its_user_data_over(
    kind: FoldKind,
    duplicate: String,
    keeper: String,
    tables: Tables,
)
    requires
        kind is Artists || kind is Persons,
        duplicate@ != keeper@,
    ensures
        ({
            let before = tables.user_data;
            let after = tables.after_all(kind.spec_fold_one(duplicate, keeper)).user_data;
            &&& forall|user: Seq<char>, key: Option<Seq<char>>|
                !#[trigger] has_user_data(after, duplicate@, user, key)
            &&& forall|item: Seq<char>, user: Seq<char>, key: Option<Seq<char>>| #[trigger]
                has_user_data(before, item, user, key) ==> has_user_data(
                    after,
                    renamed(item, duplicate@, keeper@),
                    user,
                    key,
                )
            &&& forall|r: int| #[trigger]
                after.contains_key(r) ==> {
                    &&& before.contains_key(r)
                    &&& after[r].item == renamed(before[r].item, duplicate@, keeper@)
                    &&& after[r].user == before[r].user
                    &&& after[r].key == before[r].key
                }
            &&& forall|r: int| #[trigger]
                before.contains_key(r) && before[r].item != duplicate@ ==> after.contains_key(r)
            &&& user_data_is_distinct(before) ==> user_data_is_distinct(after)
        }),
{
    let steps = lemma_references_one_by_one(kind, duplicate, keeper, tables);
    let before = tables.user_data;
    let after = tables.after_all(kind.spec_fold_one(duplicate, keeper)).user_data;
    assert(steps.2.user_data == before);
    assert forall|item: Seq<char>, user: Seq<char>, key: Option<Seq<char>>| #[trigger]
        has_user_data(before, item, user, key) implies has_user_data(
        after,
        renamed(item, duplicate@, keeper@),
        user,
        key,
    ) by {
        let r = choose|r: int| #[trigger]
            before.contains_key(r) && before[r].item == item && before[r].user == user
                && before[r].key == key;
        if item == duplicate@ && has_user_data(before, keeper@, user, key) {
            let s = choose|s: int| #[trigger]
                before.contains_key(s) && before[s].item == keeper@ && before[s].user == user
                    && before[s].key == key;
            assert(after.contains_key(s) && after[s] == before[s]);
        } else {
            assert(after.contains_key(r));
        }
    }
    if user_data_is_distinct(before) {
        assert forall|r: int, s: int|
            #![trigger after.contains_key(r), after.contains_key(s)]
            after.contains_key(r) && after.contains_key(s) && r != s implies after[r].item
            != after[s].item || after[r].user != after[s].user || after[r].key != after[s].key by {
            assert(before.contains_key(r) && before.contains_key(s));
        }
    }
}

/// Folding an artist or a person item asks for each rewrite of references once,
/// from the duplicate to the keeper, and deletes the duplicate behind them all.
/// Rows that both have are dropped before the rest of their kind is moved.
pub proof fn law_every_reference_is_rewritten_once(kind: FoldKind, duplicate: String, keeper: String)
    requires
        kind is Artists || kind is Persons,
    ensures
        ({
            let run = kind.spec_fold_one(duplicate, keeper);
            &&& run.len() > 0
            &&& run.last() == Request::DeleteItem(duplicate)
            &&& forall|p: int| 0 <= p < run.len() - 1 ==> #[trigger] run[p] is Repoint
            &&& forall|rewrite: Rewrite| #[trigger]
                run.contains(Request::Repoint { rewrite, duplicate, keeper })
            &&& forall|p: int, q: int| 0 <= p < q < run.len() ==> #[trigger] run[p] != #[trigger] run[q]
            &&& asked_before(run, duplicate, keeper, Rewrite::DropSharedDescendants, Rewrite::MoveDescendants)
            &&& asked_before(run, duplicate, keeper, Rewrite::DropSharedMembers, Rewrite::MoveMembers)
            &&& asked_before(run, duplicate, keeper, Rewrite::DropSharedMemberships, Rewrite::MoveMemberships)
            &&& asked_before(run, duplicate, keeper, Rewrite::DropSharedUserData, Rewrite::MoveUserData)
        }),
{
    let run = kind.spec_fold_one(duplicate, keeper);
    assert forall|rewrite: Rewrite| #[trigger]
        run.contains(Request::Repoint { rewrite, duplicate, keeper }) by {
        let p = match rewrite {
            Rewrite::MoveChildren => 0int,
            Rewrite::MoveOwned => 1,
            Rewrite::DropSharedDescendants => 2,
            Rewrite::MoveDescendants => 3,
            Rewrite::DropSharedMembers => 4,
            Rewrite::MoveMembers => 5,
            Rewrite::DropSharedMemberships => 6,
            Rewrite::MoveMemberships => 7,
            Rewrite::DropSharedUserData => 8,
            Rewrite::MoveUserData => 9,
        };
        assert(run[p] == Request::Repoint { rewrite, duplicate, keeper });
    }
    assert forall|p: int, q: int| 0 <= p < q < run.len() implies #[trigger] run[p] != #[trigger] run[q] by {
        if q < 10 {
            assert(rewrites()[p] != rewrites()[q]);
        }
    }
    assert(run[2] == Request::Repoint { rewrite: Rewrite::DropSharedDescendants, duplicate, keeper });
    assert(run[3] == Request::Repoint { rewrite: Rewrite::MoveDescendants, duplicate, keeper });
    assert(run[4] == Request::Repoint { rewrite: Rewrite::DropSharedMembers, duplicate, keeper });
    assert(run[5] == Request::Repoint { rewrite: Rewrite::MoveMembers, duplicate, keeper });
    assert(run[6] == Request::Repoint { rewrite: Rewrite::DropSharedMemberships, duplicate, keeper });
    assert(run[7] == Request::Repoint { rewrite: Rewrite::MoveMemberships, duplicate, keeper });
    assert(run[8] == Request::Repoint { rewrite: Rewrite::DropSharedUserData, duplicate, keeper });
    assert(run[9] == Request::Repoint { rewrite: Rewrite::MoveUserData, duplicate, keeper });
}

/// Whether the one rewrite is asked for before the other.
pub open spec fn asked_before(
    run: Seq<Request>,
    duplicate: String,
    keeper: String,
    first: Rewrite,
    second: Rewrite,
) -> bool {
    exists|p: int, q: int|
        0 <= p < q < run.len() && #[trigger] run[p] == (Request::Repoint {
            rewrite: first,
            duplicate,
            keeper,
        }) && #[trigger] run[q] == (Request::Repoint { rewrite: second, duplicate, keeper })
}

/// Folding a person takes away that person and nobody else. Each part that it
/// had is the keeper's afterwards, once; no part is lost and no other credit
/// changes.
pub proof fn law_folded_person_hands_its_credits_over(
    duplicate: String,
    keeper: String,
    tables: Tables,
)
    requires
        duplicate@ != keeper@,
    ensures
        ({
            let after = tables.after_all(FoldKind::People.spec_fold_one(duplicate, keeper));
            &&& forall|r: int| #[trigger]
                after.people.contains_key(r) <==> tables.people.contains_key(r) && tables.people[r]
                    != duplicate@
            &&& forall|r: int| #[trigger]
                after.people.contains_key(r) ==> after.people[r] == tables.people[r]
            &&& forall|item: Seq<char>, role: Option<Seq<char>>|
                !#[trigger] has_credit(after.credits, duplicate@, item, role)
            &&& forall|person: Seq<char>, item: Seq<char>, role: Option<Seq<char>>| #[trigger]
                has_credit(tables.credits, person, item, role) ==> has_credit(
                    after.credits,
                    renamed(person, duplicate@, keeper@),
                    item,
                    role,
                )
            &&& forall|r: int| #[trigger]
                after.credits.contains_key(r) ==> {
                    &&& tables.credits.contains_key(r)
                    &&& after.credits[r].person == renamed(
                        tables.credits[r].person,
                        duplicate@,
                        keeper@,
                    )
                    &&& after.credits[r].item == tables.credits[r].item
                    &&& after.credits[r].role == tables.credits[r].role
                }
            &&& forall|r: int| #[trigger]
                tables.credits.contains_key(r) && tables.credits[r].person != duplicate@
                    ==> after.credits.contains_key(r)
            &&& credits_are_distinct(tables.credits) ==> credits_are_distinct(after.credits)
            &&& after.items == tables.items
            &&& after.ancestors == tables.ancestors
            &&& after.links == tables.links
            &&& after.user_data == tables.user_data
            &&& after.guid_text == tables.guid_text
        }),
{
    let run = FoldKind::People.spec_fold_one(duplicate, keeper);
    reveal_with_fuel(Tables::after_all, 4);
    assert(run.drop_last().drop_last().drop_last() =~= Seq::<Request>::empty());
    let before = tables.credits;
    let after = tables.after_all(run).credits;
    assert forall|person: Seq<char>, item: Seq<char>, role: Option<Seq<char>>| #[trigger]
        has_credit(before, person, item, role) implies has_credit(
        after,
        renamed(person, duplicate@, keeper@),
        item,
        role,
    ) by {
        let r = choose|r: int| #[trigger]
            before.contains_key(r) && before[r].person == person && before[r].item == item
                && before[r].role == role;
        if person == duplicate@ && has_credit(before, keeper@, item, role) {
            let s = choose|s: int| #[trigger]
                before.contains_key(s) && before[s].person == keeper@ && before[s].item == item
                    && before[s].role == role;
            assert(after.contains_key(s) && after[s] == before[s]);
        } else {
            assert(after.contains_key(r));
        }
    }
    if credits_are_distinct(before) {
        assert forall|r: int, s: int|
            #![trigger after.contains_key(r), after.contains_key(s)]
            after.contains_key(r) && after.contains_key(s) && r != s implies after[r].person
            != after[s].person || after[r].item != after[s].item || after[r].role != after[s].role by {
            assert(before.contains_key(r) && before.contains_key(s));
        }
    }
}

/// Folding an item that shares its path takes away that item and the links from
/// and to it, and takes it away as an owner. The keeper, and every row that does
/// not name the duplicate, stays as it is.
pub proof fn law_folded_path_leaves_the_keeper_alone(
    duplicate: String,
    keeper: String,
    tables: Tables,
)
    ensures
        ({
            let after = tables.after_all(FoldKind::Paths.spec_fold_one(duplicate, keeper));
            &&& forall|r: int| #[trigger]
                after.items.contains_key(r) <==> tables.items.contains_key(r) && tables.items[r].id
                    != duplicate@
            &&& forall|r: int| #[trigger]
                after.items.contains_key(r) ==> {
                    &&& after.items[r].id == tables.items[r].id
                    &&& after.items[r].parent == tables.items[r].parent
                    &&& tables.items[r].owner == Some(duplicate@) ==> after.items[r].owner is None
                    &&& tables.items[r].owner != Some(duplicate@) ==> after.items[r].owner
                        == tables.items[r].owner
                }
            &&& forall|r: int| #[trigger]
                after.links.contains_key(r) <==> tables.links.contains_key(r)
                    && tables.links[r].parent != duplicate@ && tables.links[r].child != duplicate@
            &&& forall|r: int| #[trigger]
                after.links.contains_key(r) ==> after.links[r] == tables.links[r]
            &&& after.ancestors == tables.ancestors
            &&& after.user_data == tables.user_data
            &&& after.people == tables.people
            &&& after.credits == tables.credits
            &&& after.guid_text == tables.guid_text
        }),
{
    let run = FoldKind::Paths.spec_fold_one(duplicate, keeper);
    reveal_with_fuel(Tables::after_all, 4);
    assert(run.drop_last().drop_last().drop_last() =~= Seq::<Request>::empty());
}

/// Folding an item that shares its path names no item but the duplicate, and
/// deletes it last, behind its links and what it owns.
pub proof fn law_folding_a_path_names_the_duplicate(duplicate: String, keeper: String)
    ensures
        ({
            let run = FoldKind::Paths.spec_fold_one(duplicate, keeper);
            &&& run.len() > 0
            &&& run.last() == Request::DeleteItem(duplicate)
            &&& run.drop_last().contains(Request::DeleteLinksOf(duplicate))
            &&& run.drop_last().contains(Request::ReleaseOwnedBy(duplicate))
            &&& forall|p: int|
                0 <= p < run.len() ==> {
                    ||| #[trigger] run[p] == Request::DeleteLinksOf(duplicate)
                    ||| run[p] == Request::ReleaseOwnedBy(duplicate)
                    ||| run[p] == Request::DeleteItem(duplicate)
                }
        }),
{
    let run = FoldKind::Paths.spec_fold_one(duplicate, keeper);
    assert(run.drop_last()[0] == run[0]);
    assert(run.drop_last()[1] == run[1]);
}

/// Folding a person drops the credits that the keeper has as well, then moves
/// the others to the keeper, then deletes the person.
pub proof fn law_credits_are_moved_before_a_person_goes(duplicate: String, keeper: String)
    ensures
        ({
            let run = FoldKind::People.spec_fold_one(duplicate, keeper);
            exists|p: int, q: int|
                #![trigger run[p], run[q]]
                0 <= p < q < run.len() - 1 && run[p] == (Request::DropSharedCredits {
                    duplicate,
                    keeper,
                }) && run[q] == (Request::MoveCredits { duplicate, keeper }) && run.last()
                    == Request::DeletePerson(duplicate)
        }),
{
    let run = FoldKind::People.spec_fold_one(duplicate, keeper);
    assert(run[0] == Request::DropSharedCredits { duplicate, keeper });
    assert(run[1] == Request::MoveCredits { duplicate, keeper });
}

/// Whether the ids differ from one another.
pub open spec fn ids_are_distinct(ids: Seq<String>) -> bool {
    forall|i: int, j: int| 0 <= i < j < ids.len() ==> (#[trigger] ids[i])@ != (#[trigger] ids[j])@
}

/// Whether `id` is one of `ids` but not the first.
pub open spec fn is_folded_away(ids: Seq<String>, id: Seq<char>) -> bool {
    exists|j: int| 1 <= j < ids.len() && (#[trigger] ids[j])@ == id
}

/// The first of `ids` in place of any other one of them.
pub open spec fn stand_in(ids: Seq<String>, id: Seq<char>) -> Seq<char> {
    if is_folded_away(ids, id) { ids[0]@ } else { id }
}

/// [`stand_in`] for an id that may be missing.
pub open spec fn stand_in_optional(ids: Seq<String>, id: Option<Seq<char>>) -> Option<Seq<char>> {
    match id {
        Some(id) => Some(stand_in(ids, id)),
        None => None,
    }
}

/// One id more is folded away.
proof fn lemma_one_more(ids: Seq<String>)
    requires
        ids.len() > 1,
        ids_are_distinct(ids),
    ensures
        ids_are_distinct(ids.drop_last()),
        ids.drop_last()[0] == ids[0],
        ids.last()@ != ids[0]@,
        forall|id: Seq<char>| #[trigger]
            is_folded_away(ids, id) <==> is_folded_away(ids.drop_last(), id) || id == ids.last()@,
        !is_folded_away(ids.drop_last(), ids.last()@),
        !is_folded_away(ids, ids[0]@),
        forall|id: Seq<char>| #[trigger]
            stand_in(ids, id) == renamed(stand_in(ids.drop_last(), id), ids.last()@, ids[0]@),
{
    let shorter = ids.drop_last();
    assert(ids[0]@ != ids[ids.len() - 1]@);
    assert forall|i: int, j: int| 0 <= i < j < shorter.len() implies (#[trigger] shorter[i])@ != (
    #[trigger] shorter[j])@ by {
        assert(ids[i]@ != ids[j]@);
    }
    assert forall|id: Seq<char>| #[trigger]
        is_folded_away(ids, id) <==> is_folded_away(shorter, id) || id == ids.last()@ by {
        if is_folded_away(ids, id) {
            let j = choose|j: int| 1 <= j < ids.len() && (#[trigger] ids[j])@ == id;
            if j < shorter.len() {
                assert(shorter[j]@ == id);
            }
        }
        if is_folded_away(shorter, id) {
            let j = choose|j: int| 1 <= j < shorter.len() && (#[trigger] shorter[j])@ == id;
            assert(ids[j]@ == id);
        }
        if id == ids.last()@ {
            assert(ids[ids.len() - 1]@ == id);
        }
    }
    if is_folded_away(shorter, ids.last()@) {
        let j = choose|j: int| 1 <= j < shorter.len() && (#[trigger] shorter[j])@ == ids.last()@;
        assert(ids[j]@ != ids[ids.len() - 1]@);
    }
    if is_folded_away(ids, ids[0]@) {
        let j = choose|j: int| 1 <= j < ids.len() && (#[trigger] ids[j])@ == ids[0]@;
        assert(ids[0]@ != ids[j]@);
    }
}

/// Folding a group takes away every item of it but the first, and no other one;
/// the first stands in for the others as the parent and owner of what is left,
/// and nothing names one of the others any more.
pub proof fn law_folded_group_leaves_its_first_item(kind: FoldKind, ids: Seq<String>, tables: Tables)
    requires
        kind is Artists || kind is Persons,
        ids_are_distinct(ids),
    ensures
        ({
            let after = tables.after_all(folding(kind, ids));
            &&& forall|r: int| #[trigger]
                after.items.contains_key(r) <==> tables.items.contains_key(r) && !is_folded_away(
                    ids,
                    tables.items[r].id,
                )
            &&& forall|r: int| #[trigger]
                after.items.contains_key(r) ==> {
                    &&& after.items[r].id == tables.items[r].id
                    &&& after.items[r].parent == stand_in_optional(ids, tables.items[r].parent)
                    &&& after.items[r].owner == stand_in_optional(ids, tables.items[r].owner)
                }
            &&& forall|item: Seq<char>, other: Seq<char>|
                is_folded_away(ids, other) ==> !#[trigger] lies_below(after.ancestors, item, other)
            &&& forall|item: Seq<char>, other: Seq<char>| #[trigger]
                lies_below(tables.ancestors, item, other) ==> lies_below(
                    after.ancestors,
                    item,
                    stand_in(ids, other),
                )
            &&& forall|parent: Seq<char>, child: Seq<char>|
                is_folded_away(ids, parent) || is_folded_away(ids, child) ==> !#[trigger] is_linked(
                    after.links,
                    parent,
                    child,
                )
            &&& forall|parent: Seq<char>, child: Seq<char>| #[trigger]
                is_linked(tables.links, parent, child) ==> is_linked(
                    after.links,
                    stand_in(ids, parent),
                    stand_in(ids, child),
                )
            &&& forall|item: Seq<char>, user: Seq<char>, key: Option<Seq<char>>|
                is_folded_away(ids, item) ==> !#[trigger] has_user_data(
                    after.user_data,
                    item,
                    user,
                    key,
                )
            &&& forall|item: Seq<char>, user: Seq<char>, key: Option<Seq<char>>| #[trigger]
                has_user_data(tables.user_data, item, user, key) ==> has_user_data(
                    after.user_data,
                    stand_in(ids, item),
                    user,
                    key,
                )
        }),
    decreases ids.len(),
{
    let after = tables.after_all(folding(kind, ids));
    if ids.len() > 1 {
        let shorter = ids.drop_last();
        let mid = tables.after_all(folding(kind, shorter));
        let last = ids.last();
        lemma_one_more(ids);
        law_folded_group_leaves_its_first_item(kind, shorter, tables);
        tables::lemma_after_joined(tables, folding(kind, shorter), kind.spec_fold_one(last, ids[0]));
        law_folded_item_hands_its_items_over(kind, last, ids[0], mid);
        law_folded_item_hands_its_descendants_over(kind, last, ids[0], mid);
        law_folded_item_hands_its_links_over(kind, last, ids[0], mid);
        law_folded_item_hands_its_user_data_over(kind, last, ids[0], mid);
        assert forall|r: int| #[trigger] after.items.contains_key(r) implies {
            &&& after.items[r].id == tables.items[r].id
            &&& after.items[r].parent == stand_in_optional(ids, tables.items[r].parent)
            &&& after.items[r].owner == stand_in_optional(ids, tables.items[r].owner)
        } by {
            assert(mid.items.contains_key(r));
            if tables.items[r].parent is Some {
                assert(stand_in(ids, tables.items[r].parent->Some_0) == renamed(
                    stand_in(shorter, tables.items[r].parent->Some_0),
                    last@,
                    ids[0]@,
                ));
            }
            if tables.items[r].owner is Some {
                assert(stand_in(ids, tables.items[r].owner->Some_0) == renamed(
                    stand_in(shorter, tables.items[r].owner->Some_0),
                    last@,
                    ids[0]@,
                ));
            }
        }
        assert forall|item: Seq<char>, other: Seq<char>| is_folded_away(ids, other) implies !#[trigger]
        lies_below(after.ancestors, item, other) by {
            if lies_below(after.ancestors, item, other) && other != last@ {
                let r = choose|r: int| #[trigger]
                    after.ancestors.contains_key(r) && after.ancestors[r].item == item
                        && after.ancestors[r].ancestor == other;
                assert(mid.ancestors.contains_key(r));
                if mid.ancestors[r].ancestor != last@ {
                    assert(lies_below(mid.ancestors, item, other));
                } else {
                    assert(lies_below(mid.ancestors, item, last@));
                }
            }
        }
        assert forall|item: Seq<char>, other: Seq<char>| #[trigger]
            lies_below(tables.ancestors, item, other) implies lies_below(
            after.ancestors,
            item,
            stand_in(ids, other),
        ) by {
            let there = stand_in(shorter, other);
            assert(lies_below(mid.ancestors, item, there));
            if there != last@ {
                let r = choose|r: int| #[trigger]
                    mid.ancestors.contains_key(r) && mid.ancestors[r].item == item
                        && mid.ancestors[r].ancestor == there;
                assert(after.ancestors.contains_key(r));
            }
        }
        assert forall|parent: Seq<char>, child: Seq<char>|
            is_folded_away(ids, parent) || is_folded_away(ids, child) implies !#[trigger] is_linked(
            after.links,
            parent,
            child,
        ) by {
            if is_linked(after.links, parent, child) {
                let r = choose|r: int| #[trigger]
                    after.links.contains_key(r) && after.links[r].parent == parent
                        && after.links[r].child == child;
                assert(mid.links.contains_key(r));
                assert(is_linked(mid.links, mid.links[r].parent, mid.links[r].child));
            }
        }
        assert forall|parent: Seq<char>, child: Seq<char>| #[trigger]
            is_linked(tables.links, parent, child) implies is_linked(
            after.links,
            stand_in(ids, parent),
            stand_in(ids, child),
        ) by {
            assert(is_linked(mid.links, stand_in(shorter, parent), stand_in(shorter, child)));
        }
        assert forall|item: Seq<char>, user: Seq<char>, key: Option<Seq<char>>|
            is_folded_away(ids, item) implies !#[trigger] has_user_data(
            after.user_data,
            item,
            user,
            key,
        ) by {
            if has_user_data(after.user_data, item, user, key) {
                let r = choose|r: int| #[trigger]
                    after.user_data.contains_key(r) && after.user_data[r].item == item
                        && after.user_data[r].user == user && after.user_data[r].key == key;
                assert(mid.user_data.contains_key(r));
                assert(has_user_data(
                    mid.user_data,
                    mid.user_data[r].item,
                    mid.user_data[r].user,
                    mid.user_data[r].key,
                ));
            }
        }
        assert forall|item: Seq<char>, user: Seq<char>, key: Option<Seq<char>>| #[trigger]
            has_user_data(tables.user_data, item, user, key) implies has_user_data(
            after.user_data,
            stand_in(ids, item),
            user,
            key,
        ) by {
            assert(has_user_data(mid.user_data, stand_in(shorter, item), user, key));
        }
    }
}

/// Folding items that share their path takes away every one but the first, with
/// the links from and to them and as the owners of what is left; nothing else
/// changes.
pub proof fn law_folded_paths_leave_the_first_item(ids: Seq<String>, tables: Tables)
    requires
        ids_are_distinct(ids),
    ensures
        ({
            let after = tables.after_all(folding(FoldKind::Paths, ids));
            &&& forall|r: int| #[trigger]
                after.items.contains_key(r) <==> tables.items.contains_key(r) && !is_folded_away(
                    ids,
                    tables.items[r].id,
                )
            &&& forall|r: int| #[trigger]
                after.items.contains_key(r) ==> {
                    &&& after.items[r].id == tables.items[r].id
                    &&& after.items[r].parent == tables.items[r].parent
                    &&& after.items[r].owner == match tables.items[r].owner {
                        Some(owner) => if is_folded_away(ids, owner) { None } else { Some(owner) },
                        None => None,
                    }
                }
            &&& forall|r: int| #[trigger]
                after.links.contains_key(r) <==> tables.links.contains_key(r) && !is_folded_away(
                    ids,
                    tables.links[r].parent,
                ) && !is_folded_away(ids, tables.links[r].child)
            &&& forall|r: int| #[trigger]
                after.links.contains_key(r) ==> after.links[r] == tables.links[r]
            &&& after.ancestors == tables.ancestors
            &&& after.user_data == tables.user_data
        }),
    decreases ids.len(),
{
    let after = tables.after_all(folding(FoldKind::Paths, ids));
    if ids.len() > 1 {
        let shorter = ids.drop_last();
        let mid = tables.after_all(folding(FoldKind::Paths, shorter));
        let last = ids.last();
        lemma_one_more(ids);
        law_folded_paths_leave_the_first_item(shorter, tables);
        tables::lemma_after_joined(
            tables,
            folding(FoldKind::Paths, shorter),
            FoldKind::Paths.spec_fold_one(last, ids[0]),
        );
        law_folded_path_leaves_the_keeper_alone(last, ids[0], mid);
        assert forall|r: int| #[trigger] after.items.contains_key(r) implies mid.items.contains_key(
            r,
        ) by {}
        assert forall|r: int| #[trigger] after.links.contains_key(r) implies mid.links.contains_key(
            r,
        ) by {}
        assert forall|r: int| #[trigger] tables.links.contains_key(r) && !is_folded_away(
            ids,
            tables.links[r].parent,
        ) && !is_folded_away(ids, tables.links[r].child) implies after.links.contains_key(r) by {
            assert(mid.links.contains_key(r));
        }
        assert forall|r: int| #[trigger] tables.items.contains_key(r) && !is_folded_away(
            ids,
            tables.items[r].id,
        ) implies after.items.contains_key(r) by {
            assert(mid.items.contains_key(r));
        }
    }
}

/// Folding people takes away each of them but the first, who has every part
/// that one of them had; nobody else loses a part.
pub proof fn law_folded_people_leave_the_first(ids: Seq<String>, tables: Tables)
    requires
        ids_are_distinct(ids),
    ensures
        ({
            let after = tables.after_all(folding(FoldKind::People, ids));
            &&& forall|r: int| #[trigger]
                after.people.contains_key(r) <==> tables.people.contains_key(r) && !is_folded_away(
                    ids,
                    tables.people[r],
                )
            &&& forall|r: int| #[trigger]
                after.people.contains_key(r) ==> after.people[r] == tables.people[r]
            &&& forall|person: Seq<char>, item: Seq<char>, role: Option<Seq<char>>|
                is_folded_away(ids, person) ==> !#[trigger] has_credit(
                    after.credits,
                    person,
                    item,
                    role,
                )
            &&& forall|person: Seq<char>, item: Seq<char>, role: Option<Seq<char>>| #[trigger]
                has_credit(tables.credits, person, item, role) ==> has_credit(
                    after.credits,
                    stand_in(ids, person),
                    item,
                    role,
                )
            &&& after.items == tables.items
        }),
    decreases ids.len(),
{
    let after = tables.after_all(folding(FoldKind::People, ids));
    if ids.len() > 1 {
        let shorter = ids.drop_last();
        let mid = tables.after_all(folding(FoldKind::People, shorter));
        let last = ids.last();
        lemma_one_more(ids);
        law_folded_people_leave_the_first(shorter, tables);
        tables::lemma_after_joined(
            tables,
            folding(FoldKind::People, shorter),
            FoldKind::People.spec_fold_one(last, ids[0]),
        );
        law_folded_person_hands_its_credits_over(last, ids[0], mid);
        assert forall|r: int| #[trigger] after.people.contains_key(r) implies mid.people.contains_key(
            r,
        ) by {}
        assert forall|person: Seq<char>, item: Seq<char>, role: Option<Seq<char>>|
            is_folded_away(ids, person) implies !#[trigger] has_credit(
            after.credits,
            person,
            item,
            role,
        ) by {
            if has_credit(after.credits, person, item, role) {
                let r = choose|r: int| #[trigger]
                    after.credits.contains_key(r) && after.credits[r].person == person
                        && after.credits[r].item == item && after.credits[r].role == role;
                assert(mid.credits.contains_key(r));
                assert(has_credit(
                    mid.credits,
                    mid.credits[r].person,
                    mid.credits[r].item,
                    mid.credits[r].role,
                ));
            }
        }
        assert forall|person: Seq<char>, item: Seq<char>, role: Option<Seq<char>>| #[trigger]
            has_credit(tables.credits, person, item, role) implies has_credit(
            after.credits,
            stand_in(ids, person),
            item,
            role,
        ) by {
            assert(has_credit(mid.credits, stand_in(shorter, person), item, role));
        }
    }
}

/// Whether `counts` are what the tables hold of the row.
pub open spec fn answers(tables: Tables, kind: FoldKind, row: FoldRow, counts: Seq<i64>) -> bool {
    &&& counts.len() == kind.spec_width()
    &&& forall|n: int|
        0 <= n < counts.len() ==> #[trigger] counts[n] == tables.counted(
            kind.spec_question(row.id, n),
        )
}

/// Of two artists the one with more items in it is ranked first, then the one
/// with more items below it, then the one with more links, then the older one.
pub proof fn law_artists_are_ranked_by_what_they_hold(
    tables: Tables,
    a: FoldRow,
    a_counts: Seq<i64>,
    b: FoldRow,
    b_counts: Seq<i64>,
)
    requires
        answers(tables, FoldKind::Artists, a, a_counts),
        answers(tables, FoldKind::Artists, b, b_counts),
    ensures
        ({
            let above = outranks(
                FoldKind::Artists.spec_rank(a, a_counts),
                FoldKind::Artists.spec_rank(b, b_counts),
            );
            if tables.children(a.id@) != tables.children(b.id@) {
                above <==> tables.children(a.id@) > tables.children(b.id@)
            } else if tables.descendants(a.id@) != tables.descendants(b.id@) {
                above <==> tables.descendants(a.id@) > tables.descendants(b.id@)
            } else if tables.links_of(a.id@) != tables.links_of(b.id@) {
                above <==> tables.links_of(a.id@) > tables.links_of(b.id@)
            } else {
                above <==> text::optional_before(a.created, b.created)
            }
        }),
{
    assert(a_counts[0] == tables.children(a.id@) && b_counts[0] == tables.children(b.id@));
    assert(a_counts[1] == tables.descendants(a.id@) && b_counts[1] == tables.descendants(b.id@));
    assert(a_counts[2] == tables.links_of(a.id@) && b_counts[2] == tables.links_of(b.id@));
}

/// Of two person items the one of which users keep more is ranked first, then
/// the one with more links, then the older one.
pub proof fn law_person_items_are_ranked_by_what_is_kept_of_them(
    tables: Tables,
    a: FoldRow,
    a_counts: Seq<i64>,
    b: FoldRow,
    b_counts: Seq<i64>,
)
    requires
        answers(tables, FoldKind::Persons, a, a_counts),
        answers(tables, FoldKind::Persons, b, b_counts),
    ensures
        ({
            let above = outranks(
                FoldKind::Persons.spec_rank(a, a_counts),
                FoldKind::Persons.spec_rank(b, b_counts),
            );
            if tables.user_data_of(a.id@) != tables.user_data_of(b.id@) {
                above <==> tables.user_data_of(a.id@) > tables.user_data_of(b.id@)
            } else if tables.links_of(a.id@) != tables.links_of(b.id@) {
                above <==> tables.links_of(a.id@) > tables.links_of(b.id@)
            } else {
                above <==> text::optional_before(a.created, b.created)
            }
        }),
{
    assert(a_counts[3] == tables.user_data_of(a.id@) && b_counts[3] == tables.user_data_of(b.id@));
    assert(a_counts[2] == tables.links_of(a.id@) && b_counts[2] == tables.links_of(b.id@));
}

/// Of two items that share their path one with items in it is ranked above one
/// without, then one that owns items above one that does not, then one that is
/// no plain folder above one that is.
pub proof fn law_paths_are_ranked_by_what_they_hold(
    tables: Tables,
    a: FoldRow,
    a_counts: Seq<i64>,
    b: FoldRow,
    b_counts: Seq<i64>,
)
    requires
        answers(tables, FoldKind::Paths, a, a_counts),
        answers(tables, FoldKind::Paths, b, b_counts),
    ensures
        ({
            let above = outranks(
                FoldKind::Paths.spec_rank(a, a_counts),
                FoldKind::Paths.spec_rank(b, b_counts),
            );
            if (tables.children(a.id@) > 0) != (tables.children(b.id@) > 0) {
                above <==> tables.children(a.id@) > 0
            } else if (tables.owned(a.id@) > 0) != (tables.owned(b.id@) > 0) {
                above <==> tables.owned(a.id@) > 0
            } else {
                above <==> !a.is_folder && b.is_folder
            }
        }),
{
    assert(a_counts[0] == tables.children(a.id@) && b_counts[0] == tables.children(b.id@));
    assert(a_counts[1] == tables.owned(a.id@) && b_counts[1] == tables.owned(b.id@));
}

/// Of two people the one with more credits is ranked first, and nothing else
/// counts.
pub proof fn law_people_are_ranked_by_their_credits(a: FoldRow, b: FoldRow)
    ensures
        FoldKind::People.spec_width() == 0,
        outranks(
            FoldKind::People.spec_rank(a, Seq::empty()),
            FoldKind::People.spec_rank(b, Seq::empty()),
        ) <==> a.credits > b.credits,
{
}

/// Member `m` of the group that is being ranked.
pub open spec fn member(state: FoldState, m: int) -> FoldRow {
    state.rows[state.groups[state.at]@[m] as int]
}

/// Whether the row is ranked by what the tables hold of it.
pub open spec fn is_true_rank(tables: Tables, kind: FoldKind, row: FoldRow, rank: Rank) -> bool {
    exists|counts: Seq<i64>| #[trigger]
        answers(tables, kind, row, counts) && rank == kind.spec_rank(row, counts)
}

/// Whether the ranks and counts known so far are what the tables hold.
pub open spec fn is_faithful(state: FoldState, tables: Tables) -> bool {
    &&& forall|m: int|
        0 <= m < state.ranks.len() ==> is_true_rank(
            tables,
            state.kind,
            member(state, m),
            #[trigger] state.ranks[m],
        )
    &&& forall|n: int|
        0 <= n < state.counts.len() ==> #[trigger] state.counts[n] == tables.counted(
            state.kind.spec_question(member(state, state.ranks.len() as int).id, n),
        )
}

/// The folding at the start of the group behind the one that is being ranked,
/// all but one of the members of that one being folded.
pub open spec fn at_next_group(state: FoldState) -> FoldState {
    FoldState {
        at: state.at + 1,
        ranks: Seq::empty(),
        counts: Seq::empty(),
        folded: transaction::capped(state.folded + state.groups[state.at]@.len() - 1),
        ..state
    }
}

/// Whether `requests` are those that fold the group onto its member `k`, and then
/// those with which the next group starts: `ids` lists every member, that one
/// first, none is ranked above it by what the tables hold, and of those ranked
/// alike it comes first.
pub open spec fn folds_onto(
    state: FoldState,
    tables: Tables,
    ids: Seq<String>,
    k: int,
    requests: Seq<Request>,
) -> bool {
    let size = state.groups[state.at]@.len();
    &&& 0 <= k < size
    &&& ids.len() == size
    &&& ids[0] == member(state, k).id
    &&& forall|m: int| 0 <= m < size ==> ids.contains((#[trigger] member(state, m)).id)
    &&& requests == folding(state.kind, ids) + at_next_group(state).resumed().1
    &&& forall|m: int, m_counts: Seq<i64>, k_counts: Seq<i64>|
        0 <= m < size && #[trigger] answers(tables, state.kind, member(state, m), m_counts)
            && #[trigger] answers(tables, state.kind, member(state, k), k_counts) ==> {
            let m_rank = state.kind.spec_rank(member(state, m), m_counts);
            let k_rank = state.kind.spec_rank(member(state, k), k_counts);
            !outranks(m_rank, k_rank) && (m < k ==> outranks(k_rank, m_rank))
        }
}

/// The open question counts something of the member that is ranked next.
pub proof fn law_question_is_about_the_next_member(state: FoldState)
    requires
        state.well_formed(),
        !state.is_over(),
        state.ranks.len() < state.groups[state.at]@.len(),
        state.counts.len() < state.kind.spec_width(),
    ensures
        state.resumed().0 == state,
        state.resumed().1.len() == 1,
        ({
            let id = member(state, state.ranks.len() as int).id;
            match state.resumed().1[0] {
                Request::CountChildren(asked) => asked == id,
                Request::CountOwned(asked) => asked == id,
                Request::CountDescendants(asked) => asked == id,
                Request::CountLinks(asked) => asked == id,
                Request::CountUserData(asked) => asked == id,
                _ => false,
            }
        }),
{
}

/// Where every count is answered with what the tables hold, the ranks stay
/// faithful to them; and once the last member of the group is ranked, the group
/// is folded onto the member that nothing in the tables ranks another above.
pub proof fn law_group_is_folded_onto_its_best(state: FoldState, tables: Tables, count: i64)
    requires
        state.well_formed(),
        !state.is_over(),
        state.ranks.len() < state.groups[state.at]@.len(),
        state.counts.len() < state.kind.spec_width(),
        is_faithful(state, tables),
        count == tables.counted(state.resumed().1[0]),
    ensures
        ({
            let then = FoldState { counts: state.counts.push(count), ..state }.resumed();
            if state.counts.len() + 1 == state.kind.spec_width() && state.ranks.len() + 1
                == state.groups[state.at]@.len() {
                then.0.at > state.at && exists|ids: Seq<String>, k: int|
                    folds_onto(state, tables, ids, k, then.1)
            } else {
                then.0.at == state.at && is_faithful(then.0, tables) && then.1.len() == 1
            }
        }),
{
    let counted = FoldState { counts: state.counts.push(count), ..state };
    let next = member(state, state.ranks.len() as int);
    assert(counted.counts.len() <= state.kind.spec_width());
    if counted.counts.len() == state.kind.spec_width() {
        assert(answers(tables, state.kind, next, counted.counts));
        let ranked = FoldState {
            ranks: state.ranks.push(state.kind.spec_rank(next, counted.counts)),
            counts: Seq::empty(),
            ..counted
        };
        assert(counted.resumed() == ranked.resumed());
        assert forall|m: int| 0 <= m < ranked.ranks.len() implies is_true_rank(
            tables,
            ranked.kind,
            member(ranked, m),
            #[trigger] ranked.ranks[m],
        ) by {
            if m < state.ranks.len() {
                assert(ranked.ranks[m] == state.ranks[m]);
            }
        }
        assert(is_faithful(ranked, tables));
        if ranked.ranks.len() < state.groups[state.at]@.len() {
            assert(ranked.resumed().0 == ranked);
        } else {
            let group = state.groups[state.at]@;
            let order = ranking::ranking(ranked.ranks);
            let ids = ranked_ids(state.rows, group, ranked.ranks);
            assert(ranked.ranks.len() == state.groups[state.at].len());
            ranking::law_ranking_exists(ranked.ranks);
            ranking::law_ranking_lists_each_member_once(order, ranked.ranks);
            let then = ranked.resumed();
            let k = order[0] as int;
            lemma_resuming_goes_forward(ranked.next_group());
            assert forall|m: int| 0 <= m < group.len() implies ids.contains(
                (#[trigger] member(state, m)).id,
            ) by {
                assert(order.contains(m as usize));
                let p = order.index_of(m as usize);
                assert(ids[p] == member(state, m).id);
            }
            assert forall|m: int, m_counts: Seq<i64>, k_counts: Seq<i64>|
                0 <= m < group.len() && #[trigger] answers(
                    tables,
                    state.kind,
                    member(state, m),
                    m_counts,
                ) && #[trigger] answers(tables, state.kind, member(state, k), k_counts) implies {
                let m_rank = state.kind.spec_rank(member(state, m), m_counts);
                let k_rank = state.kind.spec_rank(member(state, k), k_counts);
                !outranks(m_rank, k_rank) && (m < k ==> outranks(k_rank, m_rank))
            } by {
                lemma_true_rank(ranked, tables, m, m_counts);
                lemma_true_rank(ranked, tables, k, k_counts);
                ranking::law_keeper_is_outranked_by_none(order, ranked.ranks, m as usize);
                if m < k {
                    assert(order.contains(m as usize));
                    let p = order.index_of(m as usize);
                    assert(order[p] == m);
                    assert(ranking::goes_ahead(ranked.ranks, order[0] as int, order[p] as int));
                }
            }
            assert(ranked.next_group() =~= at_next_group(state));
            assert(folds_onto(state, tables, ids, k, then.1));
        }
    } else {
        assert(counted.resumed().0 == counted);
    }
}

/// The rank of a member, where the ranks are faithful, is the one by any counts
/// that the tables give.
proof fn lemma_true_rank(state: FoldState, tables: Tables, m: int, counts: Seq<i64>)
    requires
        is_faithful(state, tables),
        0 <= m < state.ranks.len(),
        answers(tables, state.kind, member(state, m), counts),
    ensures
        state.ranks[m] == state.kind.spec_rank(member(state, m), counts),
{
    assert(is_true_rank(tables, state.kind, member(state, m), state.ranks[m]));
    let known = choose|known: Seq<i64>| #[trigger]
        answers(tables, state.kind, member(state, m), known) && state.ranks[m]
            == state.kind.spec_rank(member(state, m), known);
    assert(known =~= counts) by {
        assert forall|n: int| 0 <= n < counts.len() implies known[n] == counts[n] by {
            assert(known[n] == tables.counted(state.kind.spec_question(member(state, m).id, n)));
            assert(counts[n] == tables.counted(state.kind.spec_question(member(state, m).id, n)));
        }
    }
}

/// Going on never goes back to an earlier group.
proof fn lemma_resuming_goes_forward(state: FoldState)
    ensures
        state.resumed().0.at >= state.at,
    decreases state.groups.len() - state.at, state.groups[state.at]@.len() - state.ranks.len(),
{
    if !state.is_over() {
        let group = state.groups[state.at]@;
        if state.ranks.len() < group.len() {
            let row = state.rows[group[state.ranks.len() as int] as int];
            if state.counts.len() >= state.kind.spec_width() {
                lemma_resuming_goes_forward(
                    FoldState {
                        ranks: state.ranks.push(state.kind.spec_rank(row, state.counts)),
                        counts: Seq::empty(),
                        ..state
                    },
                );
            }
        } else {
            lemma_resuming_goes_forward(state.next_group());
        }
    }
}

/// How many rows of the groups from `at` on are too many: all but one of each.
pub open spec fn surplus(groups: Seq<Vec<usize>>, at: int) -> int
    decreases groups.len() - at,
{
    if at >= groups.len() {
        0
    } else {
        (if groups[at]@.len() > 0 { groups[at]@.len() - 1 } else { 0 }) + surplus(groups, at + 1)
    }
}

/// Going on leaves no group and no member out: what it takes away, and what is
/// left to take away behind it, are together what was left to take away. Once
/// the folding is over nothing is left.
pub proof fn law_folding_leaves_no_group_out(state: FoldState)
    requires
        state.well_formed(),
    ensures
        transaction::deletions(state.resumed().1) + surplus(state.groups, state.resumed().0.at)
            == surplus(state.groups, state.at),
        state.resumed().0.is_over() ==> transaction::deletions(state.resumed().1) == surplus(
            state.groups,
            state.at,
        ),
    decreases state.groups.len() - state.at, state.groups[state.at]@.len() - state.ranks.len(),
{
    reveal_with_fuel(transaction::deletions, 2);
    if !state.is_over() {
        let group = state.groups[state.at]@;
        if state.ranks.len() < group.len() {
            let row = state.rows[group[state.ranks.len() as int] as int];
            if state.counts.len() < state.kind.spec_width() {
                assert(state.resumed().1.drop_last() =~= Seq::<Request>::empty());
            } else {
                law_folding_leaves_no_group_out(
                    FoldState {
                        ranks: state.ranks.push(state.kind.spec_rank(row, state.counts)),
                        counts: Seq::empty(),
                        ..state
                    },
                );
            }
        } else {
            let ids = ranked_ids(state.rows, group, state.ranks);
            assert(state.ranks.len() == state.groups[state.at].len());
            ranking::law_ranking_exists(state.ranks);
            law_folding_takes_all_but_one(state.kind, ids);
            law_folding_leaves_no_group_out(state.next_group());
            transaction::lemma_runs_join(
                true,
                folding(state.kind, ids),
                state.next_group().resumed().1,
            );
        }
    }
}

/// Whether `requests` are those that fold the group onto its member `k`, and then
/// those for the groups behind it: `ids` lists every member, that one first, none
/// has more credits, and of those with as many it comes first.
pub open spec fn folds_onto_most_credited(
    state: FoldState,
    ids: Seq<String>,
    k: int,
    requests: Seq<Request>,
) -> bool {
    let size = state.groups[state.at]@.len();
    &&& 0 <= k < size
    &&& ids.len() == size
    &&& ids[0] == member(state, k).id
    &&& forall|m: int| 0 <= m < size ==> ids.contains((#[trigger] member(state, m)).id)
    &&& requests == folding(FoldKind::People, ids) + at_next_group(state).resumed().1
    &&& forall|m: int|
        0 <= m < size ==> {
            &&& (#[trigger] member(state, m)).credits <= member(state, k).credits
            &&& m < k ==> member(state, m).credits < member(state, k).credits
        }
}

/// A group of people is folded onto the one with the most credits, without a
/// question.
pub proof fn law_people_are_folded_onto_the_most_credited(state: FoldState)
    requires
        state.well_formed(),
        !state.is_over(),
        state.kind is People,
        state.groups[state.at]@.len() > 0,
        state.ranks.len() == 0,
        state.counts.len() == 0,
    ensures
        exists|ids: Seq<String>, k: int| folds_onto_most_credited(state, ids, k, state.resumed().1),
{
    lemma_people_are_ranked(state);
}

proof fn lemma_people_are_ranked(state: FoldState)
    requires
        state.well_formed(),
        !state.is_over(),
        state.kind is People,
        state.groups[state.at]@.len() > 0,
        state.counts.len() == 0,
        forall|m: int|
            0 <= m < state.ranks.len() ==> #[trigger] state.ranks[m] == state.kind.spec_rank(
                member(state, m),
                Seq::empty(),
            ),
    ensures
        exists|ids: Seq<String>, k: int| folds_onto_most_credited(state, ids, k, state.resumed().1),
    decreases state.groups[state.at]@.len() - state.ranks.len(),
{
    let group = state.groups[state.at]@;
    if state.ranks.len() < group.len() {
        let row = member(state, state.ranks.len() as int);
        assert(state.counts =~= Seq::<i64>::empty());
        let ranked = FoldState {
            ranks: state.ranks.push(state.kind.spec_rank(row, state.counts)),
            counts: Seq::empty(),
            ..state
        };
        assert forall|m: int| 0 <= m < ranked.ranks.len() implies #[trigger] ranked.ranks[m]
            == ranked.kind.spec_rank(member(ranked, m), Seq::empty()) by {
            if m < state.ranks.len() {
                assert(ranked.ranks[m] == state.ranks[m]);
            }
        }
        lemma_people_are_ranked(ranked);
        let (ids, k) = choose|ids: Seq<String>, k: int|
            folds_onto_most_credited(ranked, ids, k, ranked.resumed().1);
        assert forall|m: int| 0 <= m < group.len() implies ids.contains(
            (#[trigger] member(state, m)).id,
        ) by {
            assert(member(state, m) == member(ranked, m));
        }
        assert forall|m: int| 0 <= m < group.len() implies {
            &&& (#[trigger] member(state, m)).credits <= member(state, k).credits
            &&& m < k ==> member(state, m).credits < member(state, k).credits
        } by {
            assert(member(state, m) == member(ranked, m));
        }
        assert(at_next_group(ranked) =~= at_next_group(state));
        assert(folds_onto_most_credited(state, ids, k, state.resumed().1));
    } else {
        let order = ranking::ranking(state.ranks);
        let ids = ranked_ids(state.rows, group, state.ranks);
        assert(state.ranks.len() == state.groups[state.at].len());
        ranking::law_ranking_exists(state.ranks);
        ranking::law_ranking_lists_each_member_once(order, state.ranks);
        let k = order[0] as int;
        assert forall|m: int| 0 <= m < group.len() implies ids.contains(
            (#[trigger] member(state, m)).id,
        ) by {
            assert(order.contains(m as usize));
            let p = order.index_of(m as usize);
            assert(ids[p] == member(state, m).id);
        }
        assert forall|m: int| 0 <= m < group.len() implies {
            &&& (#[trigger] member(state, m)).credits <= member(state, k).credits
            &&& m < k ==> member(state, m).credits < member(state, k).credits
        } by {
            assert(state.ranks[m] == state.kind.spec_rank(member(state, m), Seq::empty()));
            assert(state.ranks[k] == state.kind.spec_rank(member(state, k), Seq::empty()));
            ranking::law_keeper_is_outranked_by_none(order, state.ranks, m as usize);
            if m < k {
                assert(order.contains(m as usize));
                let p = order.index_of(m as usize);
                assert(order[p] == m);
                assert(ranking::goes_ahead(state.ranks, order[0] as int, order[p] as int));
            }
        }
        assert(state.next_group() =~= at_next_group(state));
        assert(folds_onto_most_credited(state, ids, k, state.resumed().1));
    }
}

} // verus!
