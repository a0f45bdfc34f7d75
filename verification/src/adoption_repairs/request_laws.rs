//! What the statements of the requests say, put together from the tables and
//! columns that they name.

use vstd::prelude::*;

use crate::adoption_repairs::request;
use crate::adoption_repairs::request::{
    Bind, FoldedKind, ItemId, RepairKey, Request, Rewrite, StoredTypes,
};

verus! {

/// The name of a table or column as it is written in a statement.
pub open spec fn quoted(name: Seq<char>) -> Seq<char> {
    seq!['"'] + name + seq!['"']
}

/// Gives the column the second value wherever it has the first one.
pub open spec fn move_sql(table: Seq<char>, column: Seq<char>) -> Seq<char> {
    "UPDATE "@ + quoted(table) + " SET "@ + quoted(column) + " = ?2 WHERE "@ + quoted(column)
        + " = ?1"@
}

/// Deletes the rows whose column has the value.
pub open spec fn delete_sql(table: Seq<char>, column: Seq<char>) -> Seq<char> {
    "DELETE FROM "@ + quoted(table) + " WHERE "@ + quoted(column) + " = ?1"@
}

/// Counts the rows whose column has the value.
pub open spec fn count_sql(table: Seq<char>, column: Seq<char>) -> Seq<char> {
    "SELECT COUNT(*) FROM "@ + quoted(table) + " WHERE "@ + quoted(column) + " = ?1"@
}

/// The line break within a statement that drops shared rows.
pub open spec fn gap() -> Seq<char> {
    "
             "@
}

/// Deletes the rows whose column has the first value, where a row with the
/// second value there has the same in the other column.
pub open spec fn drop_shared_sql(table: Seq<char>, column: Seq<char>, other: Seq<char>) -> Seq<char> {
    delete_sql(table, column) + gap() + "AND "@ + quoted(other) + " IN (SELECT "@ + quoted(other)
        + " FROM "@ + quoted(table) + " WHERE "@ + quoted(column) + " = ?2)"@
}

/// Deletes the rows whose column has the first value, where a row with the
/// second value there has the same in the two other columns. `first_gap` and
/// `gap` are the line breaks within.
pub open spec fn drop_alike_sql(
    table: Seq<char>,
    column: Seq<char>,
    same: Seq<char>,
    also: Seq<char>,
    first_gap: Seq<char>,
    gap: Seq<char>,
) -> Seq<char> {
    delete_sql(table, column) + first_gap + "AND EXISTS (SELECT 1 FROM "@ + quoted(table)
        + " k WHERE k."@ + quoted(column) + " = ?2"@ + gap + "AND k."@ + quoted(same) + " = "@
        + quoted(table) + "."@ + quoted(same) + gap + "AND k."@ + quoted(also) + " IS "@ + quoted(
        table,
    ) + "."@ + quoted(also) + ")"@
}

/// Whether `text` ends with `end`.
pub open spec fn ends_with(text: Seq<char>, end: Seq<char>) -> bool {
    text.len() >= end.len() && text.skip(text.len() - end.len()) == end
}

/// Each rewrite that moves references gives a column that names items the
/// keeper wherever it names the duplicate: the parent and the owner of items,
/// the ancestor, either end of a link, and the item of user data.
pub proof fn law_moves_change_the_column_that_names_the_item()
    ensures
        Rewrite::MoveChildren.spec_sql() == move_sql("BaseItems"@, "ParentId"@),
        Rewrite::MoveOwned.spec_sql() == move_sql("BaseItems"@, "OwnerId"@),
        Rewrite::MoveDescendants.spec_sql() == move_sql("AncestorIds"@, "ParentItemId"@),
        Rewrite::MoveMemberships.spec_sql() == move_sql("LinkedChildren"@, "ChildId"@),
        Rewrite::MoveUserData.spec_sql() == move_sql("UserData"@, "ItemId"@),
        ends_with(Rewrite::MoveMembers.spec_sql(), " WHERE "@ + quoted("ParentId"@) + " = ?1"@),
        ({
            let start = "UPDATE "@ + quoted("LinkedChildren"@) + " SET "@ + quoted("ParentId"@) + " = ?2,"@;
            start.is_prefix_of(Rewrite::MoveMembers.spec_sql())
        }),
{
    reveal_strlit("UPDATE ");
    reveal_strlit(" SET ");
    reveal_strlit(" = ?2 WHERE ");
    reveal_strlit(" = ?1");
    reveal_strlit("ParentId");
    reveal_strlit("ItemId");
    assert(request::MOVE_CHILDREN@ =~= move_sql("BaseItems"@, "ParentId"@)) by {
        reveal_strlit("BaseItems");
        reveal_strlit(r#"UPDATE "BaseItems" SET "ParentId" = ?2 WHERE "ParentId" = ?1"#);
    }
    assert(request::MOVE_OWNED@ =~= move_sql("BaseItems"@, "OwnerId"@)) by {
        reveal_strlit("BaseItems");
        reveal_strlit("OwnerId");
        reveal_strlit(r#"UPDATE "BaseItems" SET "OwnerId" = ?2 WHERE "OwnerId" = ?1"#);
    }
    assert(request::MOVE_DESCENDANTS@ =~= move_sql("AncestorIds"@, "ParentItemId"@)) by {
        reveal_strlit("AncestorIds");
        reveal_strlit("ParentItemId");
        reveal_strlit(r#"UPDATE "AncestorIds" SET "ParentItemId" = ?2 WHERE "ParentItemId" = ?1"#);
    }
    assert(request::MOVE_MEMBERSHIPS@ =~= move_sql("LinkedChildren"@, "ChildId"@)) by {
        reveal_strlit("LinkedChildren");
        reveal_strlit("ChildId");
        reveal_strlit(r#"UPDATE "LinkedChildren" SET "ChildId" = ?2 WHERE "ChildId" = ?1"#);
    }
    assert(request::MOVE_USER_DATA@ =~= move_sql("UserData"@, "ItemId"@)) by {
        reveal_strlit("UserData");
        reveal_strlit(r#"UPDATE "UserData" SET "ItemId" = ?2 WHERE "ItemId" = ?1"#);
    }
    let members = request::MOVE_MEMBERS@;
    let end = " WHERE "@ + quoted("ParentId"@) + " = ?1"@;
    let start = "UPDATE "@ + quoted("LinkedChildren"@) + " SET "@ + quoted("ParentId"@) + " = ?2,"@;
    assert(start.is_prefix_of(members) && members.skip(members.len() - end.len()) =~= end
        && members.len() >= end.len()) by {
        reveal_strlit("LinkedChildren");
        reveal_strlit(" WHERE ");
        reveal_strlit(" = ?2,");
        reveal_strlit(
            r#"UPDATE "LinkedChildren" SET "ParentId" = ?2,
             "SortOrder" = "SortOrder" + (SELECT COALESCE(MAX("SortOrder"), -1) + 1
                                          FROM "LinkedChildren" WHERE "ParentId" = ?2)
           WHERE "ParentId" = ?1"#,
        );
    }
}

/// Each rewrite that drops shared rows deletes those of the duplicate for which
/// the keeper has one: the same item below it, the same link, the same user
/// data.
pub proof fn law_shared_rows_are_dropped_from_the_duplicate()
    ensures
        Rewrite::DropSharedDescendants.spec_sql() == drop_shared_sql(
            "AncestorIds"@,
            "ParentItemId"@,
            "ItemId"@,
        ),
        Rewrite::DropSharedMembers.spec_sql() == drop_shared_sql(
            "LinkedChildren"@,
            "ParentId"@,
            "ChildId"@,
        ),
        Rewrite::DropSharedMemberships.spec_sql() == drop_shared_sql(
            "LinkedChildren"@,
            "ChildId"@,
            "ParentId"@,
        ),
        Rewrite::DropSharedUserData.spec_sql() == drop_alike_sql(
            "UserData"@,
            "ItemId"@,
            "UserId"@,
            "CustomDataKey"@,
            gap(),
            "
                         "@,
        ),
{
    reveal_strlit("DELETE FROM ");
    reveal_strlit(" WHERE ");
    reveal_strlit(" = ?1");
    reveal_strlit("
             ");
    reveal_strlit("AND ");
    reveal_strlit(" IN (SELECT ");
    reveal_strlit(" FROM ");
    reveal_strlit(" = ?2)");
    assert(request::DROP_SHARED_DESCENDANTS@ =~= drop_shared_sql(
        "AncestorIds"@,
        "ParentItemId"@,
        "ItemId"@,
    )) by {
        reveal_strlit("AncestorIds");
        reveal_strlit("ParentItemId");
        reveal_strlit("ItemId");
        reveal_strlit(
            r#"DELETE FROM "AncestorIds" WHERE "ParentItemId" = ?1
             AND "ItemId" IN (SELECT "ItemId" FROM "AncestorIds" WHERE "ParentItemId" = ?2)"#,
        );
    }
    assert(request::DROP_SHARED_MEMBERS@ =~= drop_shared_sql(
        "LinkedChildren"@,
        "ParentId"@,
        "ChildId"@,
    )) by {
        reveal_strlit("LinkedChildren");
        reveal_strlit("ParentId");
        reveal_strlit("ChildId");
        reveal_strlit(
            r#"DELETE FROM "LinkedChildren" WHERE "ParentId" = ?1
             AND "ChildId" IN (SELECT "ChildId" FROM "LinkedChildren" WHERE "ParentId" = ?2)"#,
        );
    }
    assert(request::DROP_SHARED_MEMBERSHIPS@ =~= drop_shared_sql(
        "LinkedChildren"@,
        "ChildId"@,
        "ParentId"@,
    )) by {
        reveal_strlit("LinkedChildren");
        reveal_strlit("ParentId");
        reveal_strlit("ChildId");
        reveal_strlit(
            r#"DELETE FROM "LinkedChildren" WHERE "ChildId" = ?1
             AND "ParentId" IN (SELECT "ParentId" FROM "LinkedChildren" WHERE "ChildId" = ?2)"#,
        );
    }
    assert(request::DROP_SHARED_USER_DATA@ =~= drop_alike_sql(
        "UserData"@,
        "ItemId"@,
        "UserId"@,
        "CustomDataKey"@,
        gap(),
        "
                         "@,
    )) by {
        reveal_strlit("UserData");
        reveal_strlit("ItemId");
        reveal_strlit("UserId");
        reveal_strlit("CustomDataKey");
        reveal_strlit("
                         ");
        reveal_strlit("AND EXISTS (SELECT 1 FROM ");
        reveal_strlit(" k WHERE k.");
        reveal_strlit(" = ?2");
        reveal_strlit("AND k.");
        reveal_strlit(" = ");
        reveal_strlit(".");
        reveal_strlit(" IS ");
        reveal_strlit(")");
        reveal_strlit(
            r#"DELETE FROM "UserData" WHERE "ItemId" = ?1
             AND EXISTS (SELECT 1 FROM "UserData" k WHERE k."ItemId" = ?2
                         AND k."UserId" = "UserData"."UserId"
                         AND k."CustomDataKey" IS "UserData"."CustomDataKey")"#,
        );
    }
}

/// A request that deletes names the row that it deletes: an item or a person by
/// its id, the links of an item by either end. Credits are moved by the person
/// that they name, and those dropped before that are of an item and a role that
/// the keeper has as well.
pub proof fn law_deletions_name_the_row(id: String, keeper: String)
    ensures
        Request::DeleteItem(id).spec_sql() == Some(delete_sql("BaseItems"@, "Id"@)),
        Request::DeletePerson(id).spec_sql() == Some(delete_sql("Peoples"@, "Id"@)),
        Request::DeleteLinksOf(id).spec_sql() == Some(
            delete_sql("LinkedChildren"@, "ParentId"@) + " OR "@ + quoted("ChildId"@) + " = ?1"@,
        ),
        (Request::MoveCredits { duplicate: id, keeper }).spec_sql() == Some(
            move_sql("PeopleBaseItemMap"@, "PeopleId"@),
        ),
        (Request::DropSharedCredits { duplicate: id, keeper }).spec_sql() == Some(
            drop_alike_sql(
                "PeopleBaseItemMap"@,
                "PeopleId"@,
                "ItemId"@,
                "Role"@,
                "
                   "@,
                "
                               "@,
            ),
        ),
{
    reveal_strlit("DELETE FROM ");
    reveal_strlit(" WHERE ");
    reveal_strlit(" = ?1");
    assert(request::DELETE_ITEM@ =~= delete_sql("BaseItems"@, "Id"@)) by {
        reveal_strlit("BaseItems");
        reveal_strlit("Id");
        reveal_strlit(r#"DELETE FROM "BaseItems" WHERE "Id" = ?1"#);
    }
    assert(request::DELETE_PERSON@ =~= delete_sql("Peoples"@, "Id"@)) by {
        reveal_strlit("Peoples");
        reveal_strlit("Id");
        reveal_strlit(r#"DELETE FROM "Peoples" WHERE "Id" = ?1"#);
    }
    assert(request::DELETE_LINKS_OF@ =~= delete_sql("LinkedChildren"@, "ParentId"@) + " OR "@
        + quoted("ChildId"@) + " = ?1"@) by {
        reveal_strlit("LinkedChildren");
        reveal_strlit("ParentId");
        reveal_strlit("ChildId");
        reveal_strlit(" OR ");
        reveal_strlit(r#"DELETE FROM "LinkedChildren" WHERE "ParentId" = ?1 OR "ChildId" = ?1"#);
    }
    assert(request::MOVE_CREDITS@ =~= move_sql("PeopleBaseItemMap"@, "PeopleId"@)) by {
        reveal_strlit("UPDATE ");
        reveal_strlit(" SET ");
        reveal_strlit(" = ?2 WHERE ");
        reveal_strlit("PeopleBaseItemMap");
        reveal_strlit("PeopleId");
        reveal_strlit(r#"UPDATE "PeopleBaseItemMap" SET "PeopleId" = ?2 WHERE "PeopleId" = ?1"#);
    }
    assert(request::DROP_SHARED_CREDITS@ =~= drop_alike_sql(
        "PeopleBaseItemMap"@,
        "PeopleId"@,
        "ItemId"@,
        "Role"@,
        "
                   "@,
        "
                               "@,
    )) by {
        reveal_strlit("PeopleBaseItemMap");
        reveal_strlit("PeopleId");
        reveal_strlit("ItemId");
        reveal_strlit("Role");
        reveal_strlit("
                   ");
        reveal_strlit("
                               ");
        reveal_strlit("AND EXISTS (SELECT 1 FROM ");
        reveal_strlit(" k WHERE k.");
        reveal_strlit(" = ?2");
        reveal_strlit("AND k.");
        reveal_strlit(" = ");
        reveal_strlit(".");
        reveal_strlit(" IS ");
        reveal_strlit(")");
        reveal_strlit(
            r#"DELETE FROM "PeopleBaseItemMap" WHERE "PeopleId" = ?1
                   AND EXISTS (SELECT 1 FROM "PeopleBaseItemMap" k WHERE k."PeopleId" = ?2
                               AND k."ItemId" = "PeopleBaseItemMap"."ItemId"
                               AND k."Role" IS "PeopleBaseItemMap"."Role")"#,
        );
    }
}

/// A request that counts counts the rows that name the item, in the column that
/// its kind of reference stands in.
pub proof fn law_counts_are_of_the_rows_that_name_the_item(id: String)
    ensures
        Request::CountChildren(id).spec_sql() == Some(count_sql("BaseItems"@, "ParentId"@)),
        Request::CountOwned(id).spec_sql() == Some(count_sql("BaseItems"@, "OwnerId"@)),
        Request::CountDescendants(id).spec_sql() == Some(
            count_sql("AncestorIds"@, "ParentItemId"@),
        ),
        Request::CountUserData(id).spec_sql() == Some(count_sql("UserData"@, "ItemId"@)),
        Request::CountLinks(id).spec_sql() == Some(
            count_sql("LinkedChildren"@, "ParentId"@) + " OR "@ + quoted("ChildId"@) + " = ?1"@,
        ),
{
    reveal_strlit("SELECT COUNT(*) FROM ");
    reveal_strlit(" WHERE ");
    reveal_strlit(" = ?1");
    assert(request::COUNT_CHILDREN@ =~= count_sql("BaseItems"@, "ParentId"@)) by {
        reveal_strlit("BaseItems");
        reveal_strlit("ParentId");
        reveal_strlit(r#"SELECT COUNT(*) FROM "BaseItems" WHERE "ParentId" = ?1"#);
    }
    assert(request::COUNT_OWNED@ =~= count_sql("BaseItems"@, "OwnerId"@)) by {
        reveal_strlit("BaseItems");
        reveal_strlit("OwnerId");
        reveal_strlit(r#"SELECT COUNT(*) FROM "BaseItems" WHERE "OwnerId" = ?1"#);
    }
    assert(request::COUNT_DESCENDANTS@ =~= count_sql("AncestorIds"@, "ParentItemId"@)) by {
        reveal_strlit("AncestorIds");
        reveal_strlit("ParentItemId");
        reveal_strlit(r#"SELECT COUNT(*) FROM "AncestorIds" WHERE "ParentItemId" = ?1"#);
    }
    assert(request::COUNT_USER_DATA@ =~= count_sql("UserData"@, "ItemId"@)) by {
        reveal_strlit("UserData");
        reveal_strlit("ItemId");
        reveal_strlit(r#"SELECT COUNT(*) FROM "UserData" WHERE "ItemId" = ?1"#);
    }
    assert(request::COUNT_LINKS@ =~= count_sql("LinkedChildren"@, "ParentId"@) + " OR "@ + quoted(
        "ChildId"@,
    ) + " = ?1"@) by {
        reveal_strlit("LinkedChildren");
        reveal_strlit("ParentId");
        reveal_strlit("ChildId");
        reveal_strlit(" OR ");
        reveal_strlit(r#"SELECT COUNT(*) FROM "LinkedChildren" WHERE "ParentId" = ?1 OR "ChildId" = ?1"#);
    }
}

/// Giving an item an owner changes that column of the item alone; releasing
/// what an item owns empties the column wherever it names that item.
pub proof fn law_owners_stand_in_one_column(item: String, owner: Option<String>)
    ensures
        (Request::SetOwner { item, owner }).spec_sql() == Some(
            "UPDATE "@ + quoted("BaseItems"@) + " SET "@ + quoted("OwnerId"@) + " = ?2 WHERE "@
                + quoted("Id"@) + " = ?1"@,
        ),
        Request::ReleaseOwnedBy(item).spec_sql() == Some(
            "UPDATE "@ + quoted("BaseItems"@) + " SET "@ + quoted("OwnerId"@) + " = NULL WHERE "@
                + quoted("OwnerId"@) + " = ?1"@,
        ),
{
    reveal_strlit("UPDATE ");
    reveal_strlit(" SET ");
    reveal_strlit(" = ?1");
    reveal_strlit("BaseItems");
    reveal_strlit("OwnerId");
    assert(request::SET_OWNER@ =~= "UPDATE "@ + quoted("BaseItems"@) + " SET "@ + quoted("OwnerId"@)
        + " = ?2 WHERE "@ + quoted("Id"@) + " = ?1"@) by {
        reveal_strlit(" = ?2 WHERE ");
        reveal_strlit("Id");
        reveal_strlit(r#"UPDATE "BaseItems" SET "OwnerId" = ?2 WHERE "Id" = ?1"#);
    }
    assert(request::RELEASE_OWNED_BY@ =~= "UPDATE "@ + quoted("BaseItems"@) + " SET "@ + quoted(
        "OwnerId"@,
    ) + " = NULL WHERE "@ + quoted("OwnerId"@) + " = ?1"@) by {
        reveal_strlit(" = NULL WHERE ");
        reveal_strlit(r#"UPDATE "BaseItems" SET "OwnerId" = NULL WHERE "OwnerId" = ?1"#);
    }
}

/// Of a duplicate and its keeper the duplicate is the first value bound and the
/// keeper the second; of a link the parent is the first and the child the
/// second; whose owner is asked for or set is the first, the owner the second.
pub proof fn law_values_are_bound_in_order(
    rewrite: Rewrite,
    duplicate: String,
    keeper: String,
    child: ItemId,
    child_type: i64,
    owner: Option<String>,
    types: StoredTypes,
)
    ensures
        ({
            let first = Bind::Text(duplicate);
            let second = Bind::Text(keeper);
            let linked = match child {
                ItemId::Stored(id) => Bind::Text(id),
                ItemId::Guid(bits) => Bind::Guid(bits),
            };
            &&& (Request::Repoint { rewrite, duplicate, keeper }).spec_binds(types) == seq![first, second]
            &&& (Request::DropSharedCredits { duplicate, keeper }).spec_binds(types) == seq![first, second]
            &&& (Request::MoveCredits { duplicate, keeper }).spec_binds(types) == seq![first, second]
            &&& (Request::AppendLink { parent: keeper, child, child_type }).spec_binds(types) == seq![
                second,
                linked,
                Bind::Integer(child_type),
            ]
            &&& (Request::IsLinked { parent: keeper, child }).spec_binds(types) == seq![second, linked]
            &&& (Request::IsOwnedBy { child, parent: keeper }).spec_binds(types) == seq![linked, second]
            &&& (Request::SetOwner { item: duplicate, owner }).spec_binds(types) == seq![
                first,
                match owner {
                    Some(id) => Bind::Text(id),
                    None => Bind::Null,
                },
            ]
        }),
{
}

/// The bookkeeping entries are told apart, and are those that databases in use
/// hold.
pub proof fn law_entries_are_told_apart(a: RepairKey, b: RepairKey)
    ensures
        a.spec_text() == b.spec_text() <==> a == b,
        ends_with(a.spec_text(), "_v12"@),
        a is CleanupOrphanedExtras <==> a.spec_text() == "cleanup_orphaned_extras_v12"@,
        a is OwnerIdRelationships <==> a.spec_text() == "owner_id_relationships_v12"@,
        a is AlternateVersionLinks <==> a.spec_text() == "alternate_version_links_v12"@,
        a is MergeDuplicateMusicArtists <==> a.spec_text() == "merge_duplicate_music_artists_v12"@,
        a is MergeDuplicatePeople <==> a.spec_text() == "merge_duplicate_people_v12"@,
{
    reveal_strlit("_v12");
    reveal_strlit("cleanup_orphaned_extras_v12");
    reveal_strlit("owner_id_relationships_v12");
    reveal_strlit("alternate_version_links_v12");
    reveal_strlit("merge_duplicate_music_artists_v12");
    reveal_strlit("merge_duplicate_people_v12");
    assert(a.spec_text().skip(a.spec_text().len() - 4) =~= "_v12"@);
    assert("cleanup_orphaned_extras_v12"@[0] == 'c');
    assert("owner_id_relationships_v12"@[0] == 'o');
    assert("alternate_version_links_v12"@[0] == 'a');
    assert("merge_duplicate_music_artists_v12"@[0] == 'm');
    assert("merge_duplicate_people_v12"@[0] == 'm');
    assert("merge_duplicate_people_v12"@.len() != "merge_duplicate_music_artists_v12"@.len());
}

/// Whether `part` stands somewhere in `text`.
pub open spec fn holds(text: Seq<char>, part: Seq<char>) -> bool {
    exists|from: int|
        0 <= from <= text.len() - part.len() && #[trigger] text.subrange(from, from + part.len())
            == part
}

/// Whether the statement of the request has the part.
pub open spec fn says(request: Request, part: Seq<char>) -> bool {
    match request.spec_sql() {
        Some(sql) => holds(sql, part),
        None => false,
    }
}

proof fn lemma_holds(text: Seq<char>, part: Seq<char>, from: int)
    requires
        0 <= from <= text.len() - part.len(),
        text.subrange(from, from + part.len()) =~= part,
    ensures
        holds(text, part),
{
}

/// What the import of versions asks for is what it says: the item at a path, an item
/// of an id, an owner, a link; and a link is put in behind those of its parent.
/// The items it works on have a document and one of five types.
pub proof fn law_version_statements_hold_their_conditions(id: String, child: ItemId, child_type: i64)
    ensures
        says(
            Request::SelectMembershipItems,
            r#"SELECT "Id", "Type", "Path", "Data" FROM "BaseItems""#@,
        ),
        says(
            Request::SelectMembershipItems,
            r#"WHERE "Data" IS NOT NULL"#@,
        ),
        says(
            Request::SelectMembershipItems,
            r#"AND "Type" IN (?1, ?2, ?3, ?4, ?5)"#@,
        ),
        says(
            Request::FindItemByPath(id),
            r#"SELECT "Id" FROM "BaseItems" WHERE "Path" = ?1"#@,
        ),
        says(
            Request::FindItemByPath(id),
            r#"ORDER BY "Id" LIMIT 1"#@,
        ),
        says(
            (Request::IsOwnedBy { child, parent: id }),
            r#"FROM "BaseItems""#@,
        ),
        says(
            (Request::IsOwnedBy { child, parent: id }),
            r#"WHERE "Id" = ?1"#@,
        ),
        says(
            (Request::IsOwnedBy { child, parent: id }),
            r#"AND "OwnerId" = ?2"#@,
        ),
        says(
            (Request::IsLinked { parent: id, child }),
            r#"FROM "LinkedChildren""#@,
        ),
        says(
            (Request::IsLinked { parent: id, child }),
            r#"WHERE "ParentId" = ?1"#@,
        ),
        says(
            (Request::IsLinked { parent: id, child }),
            r#"AND "ChildId" = ?2"#@,
        ),
        says(
            Request::ItemExists(child),
            r#"FROM "BaseItems""#@,
        ),
        says(
            Request::ItemExists(child),
            r#"WHERE "Id" = ?1"#@,
        ),
        says(
            (Request::AppendLink { parent: id, child, child_type }),
            r#"INSERT INTO "LinkedChildren" ("ParentId", "SortOrder", "ChildId", "ChildType")"#@,
        ),
        says(
            (Request::AppendLink { parent: id, child, child_type }),
            r#"VALUES (?1,"#@,
        ),
        says(
            (Request::AppendLink { parent: id, child, child_type }),
            r#"(SELECT COALESCE(MAX("SortOrder"), -1) + 1 FROM "LinkedChildren" WHERE "ParentId" = ?1)"#@,
        ),
        says(
            (Request::AppendLink { parent: id, child, child_type }),
            r#"?2, ?3)"#@,
        ),
{
    assert(holds(request::SELECT_MEMBERSHIP_ITEMS@, r#"SELECT "Id", "Type", "Path", "Data" FROM "BaseItems""#@)
        && holds(request::SELECT_MEMBERSHIP_ITEMS@, r#"WHERE "Data" IS NOT NULL"#@)
        && holds(request::SELECT_MEMBERSHIP_ITEMS@, r#"AND "Type" IN (?1, ?2, ?3, ?4, ?5)"#@)) by {
        reveal_strlit(
            r#"SELECT "Id", "Type", "Path", "Data" FROM "BaseItems"
           WHERE "Data" IS NOT NULL AND "Type" IN (?1, ?2, ?3, ?4, ?5)"#,
        );
        reveal_strlit(r#"SELECT "Id", "Type", "Path", "Data" FROM "BaseItems""#);
        lemma_holds(request::SELECT_MEMBERSHIP_ITEMS@, r#"SELECT "Id", "Type", "Path", "Data" FROM "BaseItems""#@, 0);
        reveal_strlit(r#"WHERE "Data" IS NOT NULL"#);
        lemma_holds(request::SELECT_MEMBERSHIP_ITEMS@, r#"WHERE "Data" IS NOT NULL"#@, 64);
        reveal_strlit(r#"AND "Type" IN (?1, ?2, ?3, ?4, ?5)"#);
        lemma_holds(request::SELECT_MEMBERSHIP_ITEMS@, r#"AND "Type" IN (?1, ?2, ?3, ?4, ?5)"#@, 89);
    }
    assert(holds(request::FIND_ITEM_BY_PATH@, r#"SELECT "Id" FROM "BaseItems" WHERE "Path" = ?1"#@)
        && holds(request::FIND_ITEM_BY_PATH@, r#"ORDER BY "Id" LIMIT 1"#@)) by {
        reveal_strlit(
            r#"SELECT "Id" FROM "BaseItems" WHERE "Path" = ?1 ORDER BY "Id" LIMIT 1"#,
        );
        reveal_strlit(r#"SELECT "Id" FROM "BaseItems" WHERE "Path" = ?1"#);
        lemma_holds(request::FIND_ITEM_BY_PATH@, r#"SELECT "Id" FROM "BaseItems" WHERE "Path" = ?1"#@, 0);
        reveal_strlit(r#"ORDER BY "Id" LIMIT 1"#);
        lemma_holds(request::FIND_ITEM_BY_PATH@, r#"ORDER BY "Id" LIMIT 1"#@, 47);
    }
    assert(holds(request::IS_OWNED_BY@, r#"FROM "BaseItems""#@)
        && holds(request::IS_OWNED_BY@, r#"WHERE "Id" = ?1"#@)
        && holds(request::IS_OWNED_BY@, r#"AND "OwnerId" = ?2"#@)) by {
        reveal_strlit(
            r#"SELECT 1 FROM "BaseItems" WHERE "Id" = ?1 AND "OwnerId" = ?2"#,
        );
        reveal_strlit(r#"FROM "BaseItems""#);
        lemma_holds(request::IS_OWNED_BY@, r#"FROM "BaseItems""#@, 9);
        reveal_strlit(r#"WHERE "Id" = ?1"#);
        lemma_holds(request::IS_OWNED_BY@, r#"WHERE "Id" = ?1"#@, 26);
        reveal_strlit(r#"AND "OwnerId" = ?2"#);
        lemma_holds(request::IS_OWNED_BY@, r#"AND "OwnerId" = ?2"#@, 42);
    }
    assert(holds(request::IS_LINKED@, r#"FROM "LinkedChildren""#@)
        && holds(request::IS_LINKED@, r#"WHERE "ParentId" = ?1"#@)
        && holds(request::IS_LINKED@, r#"AND "ChildId" = ?2"#@)) by {
        reveal_strlit(
            r#"SELECT 1 FROM "LinkedChildren" WHERE "ParentId" = ?1 AND "ChildId" = ?2"#,
        );
        reveal_strlit(r#"FROM "LinkedChildren""#);
        lemma_holds(request::IS_LINKED@, r#"FROM "LinkedChildren""#@, 9);
        reveal_strlit(r#"WHERE "ParentId" = ?1"#);
        lemma_holds(request::IS_LINKED@, r#"WHERE "ParentId" = ?1"#@, 31);
        reveal_strlit(r#"AND "ChildId" = ?2"#);
        lemma_holds(request::IS_LINKED@, r#"AND "ChildId" = ?2"#@, 53);
    }
    assert(holds(request::ITEM_EXISTS@, r#"FROM "BaseItems""#@)
        && holds(request::ITEM_EXISTS@, r#"WHERE "Id" = ?1"#@)) by {
        reveal_strlit(
            r#"SELECT 1 FROM "BaseItems" WHERE "Id" = ?1"#,
        );
        reveal_strlit(r#"FROM "BaseItems""#);
        lemma_holds(request::ITEM_EXISTS@, r#"FROM "BaseItems""#@, 9);
        reveal_strlit(r#"WHERE "Id" = ?1"#);
        lemma_holds(request::ITEM_EXISTS@, r#"WHERE "Id" = ?1"#@, 26);
    }
    assert(holds(request::APPEND_LINK@, r#"INSERT INTO "LinkedChildren" ("ParentId", "SortOrder", "ChildId", "ChildType")"#@)
        && holds(request::APPEND_LINK@, r#"VALUES (?1,"#@)
        && holds(request::APPEND_LINK@, r#"(SELECT COALESCE(MAX("SortOrder"), -1) + 1 FROM "LinkedChildren" WHERE "ParentId" = ?1)"#@)
        && holds(request::APPEND_LINK@, r#"?2, ?3)"#@)) by {
        reveal_strlit(
            r#"INSERT INTO "LinkedChildren" ("ParentId", "SortOrder", "ChildId", "ChildType")
           VALUES (?1,
               (SELECT COALESCE(MAX("SortOrder"), -1) + 1 FROM "LinkedChildren" WHERE "ParentId" = ?1),
               ?2, ?3)"#,
        );
        reveal_strlit(r#"INSERT INTO "LinkedChildren" ("ParentId", "SortOrder", "ChildId", "ChildType")"#);
        lemma_holds(request::APPEND_LINK@, r#"INSERT INTO "LinkedChildren" ("ParentId", "SortOrder", "ChildId", "ChildType")"#@, 0);
        reveal_strlit(r#"VALUES (?1,"#);
        lemma_holds(request::APPEND_LINK@, r#"VALUES (?1,"#@, 90);
        reveal_strlit(r#"(SELECT COALESCE(MAX("SortOrder"), -1) + 1 FROM "LinkedChildren" WHERE "ParentId" = ?1)"#);
        lemma_holds(request::APPEND_LINK@, r#"(SELECT COALESCE(MAX("SortOrder"), -1) + 1 FROM "LinkedChildren" WHERE "ParentId" = ?1)"#@, 117);
        reveal_strlit(r#"?2, ?3)"#);
        lemma_holds(request::APPEND_LINK@, r#"?2, ?3)"#@, 221);
    }
}

/// What the repairs of extras and owners ask for is what they say: the items of the
/// placeholder but itself; the items that share their path, the newest of a path
/// first; the videos that are no extras and whose owner is a video or gone; the
/// extras whose owner is gone; and the first video below a directory.
pub proof fn law_owner_statements_hold_their_conditions(id: String)
    ensures
        says(
            Request::SelectPlaceholderOwned,
            r#"SELECT "Id" FROM "BaseItems""#@,
        ),
        says(
            Request::SelectPlaceholderOwned,
            r#"WHERE "OwnerId" = ?1"#@,
        ),
        says(
            Request::SelectPlaceholderOwned,
            r#"AND "Id" <> ?1"#@,
        ),
        says(
            Request::SelectSharedPaths,
            r#"SELECT b."Path", b."Id", b."Type", b."DateCreated" FROM "BaseItems" b"#@,
        ),
        says(
            Request::SelectSharedPaths,
            r#"WHERE b."Path" IS NOT NULL"#@,
        ),
        says(
            Request::SelectSharedPaths,
            r#"AND b."Path" IN (SELECT "Path" FROM "BaseItems" WHERE "Path" IS NOT NULL"#@,
        ),
        says(
            Request::SelectSharedPaths,
            r#"GROUP BY "Path" HAVING COUNT(*) > 1)"#@,
        ),
        says(
            Request::SelectSharedPaths,
            r#"ORDER BY b."Path", b."DateCreated" DESC, b."Id""#@,
        ),
        says(
            Request::ReleaseMisownedVideos,
            r#"UPDATE "BaseItems" SET "OwnerId" = NULL"#@,
        ),
        says(
            Request::ReleaseMisownedVideos,
            r#"WHERE "OwnerId" IS NOT NULL"#@,
        ),
        says(
            Request::ReleaseMisownedVideos,
            r#"AND ("ExtraType" IS NULL OR "ExtraType" = 0)"#@,
        ),
        says(
            Request::ReleaseMisownedVideos,
            r#"AND "Type" IN (?1, ?2)"#@,
        ),
        says(
            Request::ReleaseMisownedVideos,
            r#""OwnerId" NOT IN (SELECT "Id" FROM "BaseItems")"#@,
        ),
        says(
            Request::ReleaseMisownedVideos,
            r#"OR "OwnerId" IN (SELECT "Id" FROM "BaseItems" WHERE "Type" IN (?1, ?2))"#@,
        ),
        says(
            Request::SelectOrphanedExtras,
            r#"SELECT "Id", "Path" FROM "BaseItems""#@,
        ),
        says(
            Request::SelectOrphanedExtras,
            r#"WHERE "ExtraType" IS NOT NULL AND "ExtraType" <> 0 AND "OwnerId" IS NOT NULL"#@,
        ),
        says(
            Request::SelectOrphanedExtras,
            r#"AND "OwnerId" NOT IN (SELECT "Id" FROM "BaseItems")"#@,
        ),
        says(
            Request::FindVideoUnder(id),
            r#"SELECT "Id" FROM "BaseItems""#@,
        ),
        says(
            Request::FindVideoUnder(id),
            r#"WHERE "Type" IN (?1, ?2) AND "Path" IS NOT NULL"#@,
        ),
        says(
            Request::FindVideoUnder(id),
            r#"AND substr("Path", 1, length(?3)) = ?3"#@,
        ),
        says(
            Request::FindVideoUnder(id),
            r#"ORDER BY "Id" LIMIT 1"#@,
        ),
{
    assert(holds(request::SELECT_PLACEHOLDER_OWNED@, r#"SELECT "Id" FROM "BaseItems""#@)
        && holds(request::SELECT_PLACEHOLDER_OWNED@, r#"WHERE "OwnerId" = ?1"#@)
        && holds(request::SELECT_PLACEHOLDER_OWNED@, r#"AND "Id" <> ?1"#@)) by {
        reveal_strlit(
            r#"SELECT "Id" FROM "BaseItems" WHERE "OwnerId" = ?1 AND "Id" <> ?1"#,
        );
        reveal_strlit(r#"SELECT "Id" FROM "BaseItems""#);
        lemma_holds(request::SELECT_PLACEHOLDER_OWNED@, r#"SELECT "Id" FROM "BaseItems""#@, 0);
        reveal_strlit(r#"WHERE "OwnerId" = ?1"#);
        lemma_holds(request::SELECT_PLACEHOLDER_OWNED@, r#"WHERE "OwnerId" = ?1"#@, 29);
        reveal_strlit(r#"AND "Id" <> ?1"#);
        lemma_holds(request::SELECT_PLACEHOLDER_OWNED@, r#"AND "Id" <> ?1"#@, 50);
    }
    assert(holds(request::SELECT_SHARED_PATHS@, r#"SELECT b."Path", b."Id", b."Type", b."DateCreated" FROM "BaseItems" b"#@)
        && holds(request::SELECT_SHARED_PATHS@, r#"WHERE b."Path" IS NOT NULL"#@)
        && holds(request::SELECT_SHARED_PATHS@, r#"AND b."Path" IN (SELECT "Path" FROM "BaseItems" WHERE "Path" IS NOT NULL"#@)
        && holds(request::SELECT_SHARED_PATHS@, r#"GROUP BY "Path" HAVING COUNT(*) > 1)"#@)
        && holds(request::SELECT_SHARED_PATHS@, r#"ORDER BY b."Path", b."DateCreated" DESC, b."Id""#@)) by {
        reveal_strlit(
            r#"SELECT b."Path", b."Id", b."Type", b."DateCreated" FROM "BaseItems" b
           WHERE b."Path" IS NOT NULL
             AND b."Path" IN (SELECT "Path" FROM "BaseItems" WHERE "Path" IS NOT NULL
                              GROUP BY "Path" HAVING COUNT(*) > 1)
           ORDER BY b."Path", b."DateCreated" DESC, b."Id""#,
        );
        reveal_strlit(r#"SELECT b."Path", b."Id", b."Type", b."DateCreated" FROM "BaseItems" b"#);
        lemma_holds(request::SELECT_SHARED_PATHS@, r#"SELECT b."Path", b."Id", b."Type", b."DateCreated" FROM "BaseItems" b"#@, 0);
        reveal_strlit(r#"WHERE b."Path" IS NOT NULL"#);
        lemma_holds(request::SELECT_SHARED_PATHS@, r#"WHERE b."Path" IS NOT NULL"#@, 81);
        reveal_strlit(r#"AND b."Path" IN (SELECT "Path" FROM "BaseItems" WHERE "Path" IS NOT NULL"#);
        lemma_holds(request::SELECT_SHARED_PATHS@, r#"AND b."Path" IN (SELECT "Path" FROM "BaseItems" WHERE "Path" IS NOT NULL"#@, 121);
        reveal_strlit(r#"GROUP BY "Path" HAVING COUNT(*) > 1)"#);
        lemma_holds(request::SELECT_SHARED_PATHS@, r#"GROUP BY "Path" HAVING COUNT(*) > 1)"#@, 224);
        reveal_strlit(r#"ORDER BY b."Path", b."DateCreated" DESC, b."Id""#);
        lemma_holds(request::SELECT_SHARED_PATHS@, r#"ORDER BY b."Path", b."DateCreated" DESC, b."Id""#@, 272);
    }
    assert(holds(request::RELEASE_MISOWNED_VIDEOS@, r#"UPDATE "BaseItems" SET "OwnerId" = NULL"#@)
        && holds(request::RELEASE_MISOWNED_VIDEOS@, r#"WHERE "OwnerId" IS NOT NULL"#@)
        && holds(request::RELEASE_MISOWNED_VIDEOS@, r#"AND ("ExtraType" IS NULL OR "ExtraType" = 0)"#@)
        && holds(request::RELEASE_MISOWNED_VIDEOS@, r#"AND "Type" IN (?1, ?2)"#@)
        && holds(request::RELEASE_MISOWNED_VIDEOS@, r#""OwnerId" NOT IN (SELECT "Id" FROM "BaseItems")"#@)
        && holds(request::RELEASE_MISOWNED_VIDEOS@, r#"OR "OwnerId" IN (SELECT "Id" FROM "BaseItems" WHERE "Type" IN (?1, ?2))"#@)) by {
        reveal_strlit(
            r#"UPDATE "BaseItems" SET "OwnerId" = NULL
           WHERE "OwnerId" IS NOT NULL
             AND ("ExtraType" IS NULL OR "ExtraType" = 0)
             AND "Type" IN (?1, ?2)
             AND (
               "OwnerId" NOT IN (SELECT "Id" FROM "BaseItems")
               OR "OwnerId" IN (SELECT "Id" FROM "BaseItems" WHERE "Type" IN (?1, ?2))
             )"#,
        );
        reveal_strlit(r#"UPDATE "BaseItems" SET "OwnerId" = NULL"#);
        lemma_holds(request::RELEASE_MISOWNED_VIDEOS@, r#"UPDATE "BaseItems" SET "OwnerId" = NULL"#@, 0);
        reveal_strlit(r#"WHERE "OwnerId" IS NOT NULL"#);
        lemma_holds(request::RELEASE_MISOWNED_VIDEOS@, r#"WHERE "OwnerId" IS NOT NULL"#@, 51);
        reveal_strlit(r#"AND ("ExtraType" IS NULL OR "ExtraType" = 0)"#);
        lemma_holds(request::RELEASE_MISOWNED_VIDEOS@, r#"AND ("ExtraType" IS NULL OR "ExtraType" = 0)"#@, 92);
        reveal_strlit(r#"AND "Type" IN (?1, ?2)"#);
        lemma_holds(request::RELEASE_MISOWNED_VIDEOS@, r#"AND "Type" IN (?1, ?2)"#@, 150);
        reveal_strlit(r#""OwnerId" NOT IN (SELECT "Id" FROM "BaseItems")"#);
        lemma_holds(request::RELEASE_MISOWNED_VIDEOS@, r#""OwnerId" NOT IN (SELECT "Id" FROM "BaseItems")"#@, 207);
        reveal_strlit(r#"OR "OwnerId" IN (SELECT "Id" FROM "BaseItems" WHERE "Type" IN (?1, ?2))"#);
        lemma_holds(request::RELEASE_MISOWNED_VIDEOS@, r#"OR "OwnerId" IN (SELECT "Id" FROM "BaseItems" WHERE "Type" IN (?1, ?2))"#@, 270);
    }
    assert(holds(request::SELECT_ORPHANED_EXTRAS@, r#"SELECT "Id", "Path" FROM "BaseItems""#@)
        && holds(request::SELECT_ORPHANED_EXTRAS@, r#"WHERE "ExtraType" IS NOT NULL AND "ExtraType" <> 0 AND "OwnerId" IS NOT NULL"#@)
        && holds(request::SELECT_ORPHANED_EXTRAS@, r#"AND "OwnerId" NOT IN (SELECT "Id" FROM "BaseItems")"#@)) by {
        reveal_strlit(
            r#"SELECT "Id", "Path" FROM "BaseItems"
           WHERE "ExtraType" IS NOT NULL AND "ExtraType" <> 0 AND "OwnerId" IS NOT NULL
             AND "OwnerId" NOT IN (SELECT "Id" FROM "BaseItems")"#,
        );
        reveal_strlit(r#"SELECT "Id", "Path" FROM "BaseItems""#);
        lemma_holds(request::SELECT_ORPHANED_EXTRAS@, r#"SELECT "Id", "Path" FROM "BaseItems""#@, 0);
        reveal_strlit(r#"WHERE "ExtraType" IS NOT NULL AND "ExtraType" <> 0 AND "OwnerId" IS NOT NULL"#);
        lemma_holds(request::SELECT_ORPHANED_EXTRAS@, r#"WHERE "ExtraType" IS NOT NULL AND "ExtraType" <> 0 AND "OwnerId" IS NOT NULL"#@, 48);
        reveal_strlit(r#"AND "OwnerId" NOT IN (SELECT "Id" FROM "BaseItems")"#);
        lemma_holds(request::SELECT_ORPHANED_EXTRAS@, r#"AND "OwnerId" NOT IN (SELECT "Id" FROM "BaseItems")"#@, 138);
    }
    assert(holds(request::FIND_VIDEO_UNDER@, r#"SELECT "Id" FROM "BaseItems""#@)
        && holds(request::FIND_VIDEO_UNDER@, r#"WHERE "Type" IN (?1, ?2) AND "Path" IS NOT NULL"#@)
        && holds(request::FIND_VIDEO_UNDER@, r#"AND substr("Path", 1, length(?3)) = ?3"#@)
        && holds(request::FIND_VIDEO_UNDER@, r#"ORDER BY "Id" LIMIT 1"#@)) by {
        reveal_strlit(
            r#"SELECT "Id" FROM "BaseItems"
               WHERE "Type" IN (?1, ?2) AND "Path" IS NOT NULL AND substr("Path", 1, length(?3)) = ?3
               ORDER BY "Id" LIMIT 1"#,
        );
        reveal_strlit(r#"SELECT "Id" FROM "BaseItems""#);
        lemma_holds(request::FIND_VIDEO_UNDER@, r#"SELECT "Id" FROM "BaseItems""#@, 0);
        reveal_strlit(r#"WHERE "Type" IN (?1, ?2) AND "Path" IS NOT NULL"#);
        lemma_holds(request::FIND_VIDEO_UNDER@, r#"WHERE "Type" IN (?1, ?2) AND "Path" IS NOT NULL"#@, 44);
        reveal_strlit(r#"AND substr("Path", 1, length(?3)) = ?3"#);
        lemma_holds(request::FIND_VIDEO_UNDER@, r#"AND substr("Path", 1, length(?3)) = ?3"#@, 92);
        reveal_strlit(r#"ORDER BY "Id" LIMIT 1"#);
        lemma_holds(request::FIND_VIDEO_UNDER@, r#"ORDER BY "Id" LIMIT 1"#@, 146);
    }
}

/// What the repairs of versions and duplicates ask for is what they say: linked
/// versions that do not point at a parent of theirs; versions whose primary is
/// there but has no link to them; and all named items and people, in order.
pub proof fn law_link_statements_hold_their_conditions(kind: FoldedKind)
    ensures
        says(
            Request::PointVersionsAtParents,
            r#"UPDATE "BaseItems" SET "PrimaryVersionId" = ("#@,
        ),
        says(
            Request::PointVersionsAtParents,
            r#"SELECT lc."ParentId" FROM "LinkedChildren" lc"#@,
        ),
        says(
            Request::PointVersionsAtParents,
            r#"WHERE lc."ChildId" = "BaseItems"."Id" AND lc."ChildType" IN (2, 3)"#@,
        ),
        says(
            Request::PointVersionsAtParents,
            r#"ORDER BY lc."ParentId", lc."SortOrder" LIMIT 1)"#@,
        ),
        says(
            Request::PointVersionsAtParents,
            r#"WHERE "Id" IN (SELECT "ChildId" FROM "LinkedChildren" WHERE "ChildType" IN (2, 3))"#@,
        ),
        says(
            Request::PointVersionsAtParents,
            r#"AND ("PrimaryVersionId" IS NULL OR "PrimaryVersionId" NOT IN ("#@,
        ),
        says(
            Request::SelectUnlinkedVersions,
            r#"SELECT a."Id", a."PrimaryVersionId" FROM "BaseItems" a"#@,
        ),
        says(
            Request::SelectUnlinkedVersions,
            r#"WHERE a."PrimaryVersionId" IS NOT NULL"#@,
        ),
        says(
            Request::SelectUnlinkedVersions,
            r#"AND a."PrimaryVersionId" IN (SELECT "Id" FROM "BaseItems")"#@,
        ),
        says(
            Request::SelectUnlinkedVersions,
            r#"AND NOT EXISTS (SELECT 1 FROM "LinkedChildren" lc"#@,
        ),
        says(
            Request::SelectUnlinkedVersions,
            r#"WHERE lc."ParentId" = a."PrimaryVersionId" AND lc."ChildId" = a."Id""#@,
        ),
        says(
            Request::SelectUnlinkedVersions,
            r#"AND lc."ChildType" IN (2, 3))"#@,
        ),
        says(
            Request::SelectUnlinkedVersions,
            r#"ORDER BY a."PrimaryVersionId", a."Id""#@,
        ),
        says(
            Request::SelectNamed(kind),
            r#"SELECT "Id", "Name", "DateCreated" FROM "BaseItems""#@,
        ),
        says(
            Request::SelectNamed(kind),
            r#"WHERE "Type" = ?1 AND "Name" IS NOT NULL"#@,
        ),
        says(
            Request::SelectNamed(kind),
            r#"ORDER BY "Id""#@,
        ),
        says(
            Request::SelectPeople,
            r#"SELECT p."Id", p."Name", p."PersonType""#@,
        ),
        says(
            Request::SelectPeople,
            r#"(SELECT COUNT(*) FROM "PeopleBaseItemMap" m WHERE m."PeopleId" = p."Id")"#@,
        ),
        says(
            Request::SelectPeople,
            r#"FROM "Peoples" p ORDER BY p."Id""#@,
        ),
{
    assert(holds(request::POINT_VERSIONS_AT_PARENTS@, r#"UPDATE "BaseItems" SET "PrimaryVersionId" = ("#@)
        && holds(request::POINT_VERSIONS_AT_PARENTS@, r#"SELECT lc."ParentId" FROM "LinkedChildren" lc"#@)
        && holds(request::POINT_VERSIONS_AT_PARENTS@, r#"WHERE lc."ChildId" = "BaseItems"."Id" AND lc."ChildType" IN (2, 3)"#@)
        && holds(request::POINT_VERSIONS_AT_PARENTS@, r#"ORDER BY lc."ParentId", lc."SortOrder" LIMIT 1)"#@)
        && holds(request::POINT_VERSIONS_AT_PARENTS@, r#"WHERE "Id" IN (SELECT "ChildId" FROM "LinkedChildren" WHERE "ChildType" IN (2, 3))"#@)
        && holds(request::POINT_VERSIONS_AT_PARENTS@, r#"AND ("PrimaryVersionId" IS NULL OR "PrimaryVersionId" NOT IN ("#@)) by {
        reveal_strlit(
            r#"UPDATE "BaseItems" SET "PrimaryVersionId" = (
               SELECT lc."ParentId" FROM "LinkedChildren" lc
               WHERE lc."ChildId" = "BaseItems"."Id" AND lc."ChildType" IN (2, 3)
               ORDER BY lc."ParentId", lc."SortOrder" LIMIT 1)
           WHERE "Id" IN (SELECT "ChildId" FROM "LinkedChildren" WHERE "ChildType" IN (2, 3))
             AND ("PrimaryVersionId" IS NULL OR "PrimaryVersionId" NOT IN (
               SELECT lc."ParentId" FROM "LinkedChildren" lc
               WHERE lc."ChildId" = "BaseItems"."Id" AND lc."ChildType" IN (2, 3)))"#,
        );
        reveal_strlit(r#"UPDATE "BaseItems" SET "PrimaryVersionId" = ("#);
        lemma_holds(request::POINT_VERSIONS_AT_PARENTS@, r#"UPDATE "BaseItems" SET "PrimaryVersionId" = ("#@, 0);
        reveal_strlit(r#"SELECT lc."ParentId" FROM "LinkedChildren" lc"#);
        lemma_holds(request::POINT_VERSIONS_AT_PARENTS@, r#"SELECT lc."ParentId" FROM "LinkedChildren" lc"#@, 61);
        reveal_strlit(r#"WHERE lc."ChildId" = "BaseItems"."Id" AND lc."ChildType" IN (2, 3)"#);
        lemma_holds(request::POINT_VERSIONS_AT_PARENTS@, r#"WHERE lc."ChildId" = "BaseItems"."Id" AND lc."ChildType" IN (2, 3)"#@, 122);
        reveal_strlit(r#"ORDER BY lc."ParentId", lc."SortOrder" LIMIT 1)"#);
        lemma_holds(request::POINT_VERSIONS_AT_PARENTS@, r#"ORDER BY lc."ParentId", lc."SortOrder" LIMIT 1)"#@, 204);
        reveal_strlit(r#"WHERE "Id" IN (SELECT "ChildId" FROM "LinkedChildren" WHERE "ChildType" IN (2, 3))"#);
        lemma_holds(request::POINT_VERSIONS_AT_PARENTS@, r#"WHERE "Id" IN (SELECT "ChildId" FROM "LinkedChildren" WHERE "ChildType" IN (2, 3))"#@, 263);
        reveal_strlit(r#"AND ("PrimaryVersionId" IS NULL OR "PrimaryVersionId" NOT IN ("#);
        lemma_holds(request::POINT_VERSIONS_AT_PARENTS@, r#"AND ("PrimaryVersionId" IS NULL OR "PrimaryVersionId" NOT IN ("#@, 359);
    }
    assert(holds(request::SELECT_UNLINKED_VERSIONS@, r#"SELECT a."Id", a."PrimaryVersionId" FROM "BaseItems" a"#@)
        && holds(request::SELECT_UNLINKED_VERSIONS@, r#"WHERE a."PrimaryVersionId" IS NOT NULL"#@)
        && holds(request::SELECT_UNLINKED_VERSIONS@, r#"AND a."PrimaryVersionId" IN (SELECT "Id" FROM "BaseItems")"#@)
        && holds(request::SELECT_UNLINKED_VERSIONS@, r#"AND NOT EXISTS (SELECT 1 FROM "LinkedChildren" lc"#@)
        && holds(request::SELECT_UNLINKED_VERSIONS@, r#"WHERE lc."ParentId" = a."PrimaryVersionId" AND lc."ChildId" = a."Id""#@)
        && holds(request::SELECT_UNLINKED_VERSIONS@, r#"AND lc."ChildType" IN (2, 3))"#@)
        && holds(request::SELECT_UNLINKED_VERSIONS@, r#"ORDER BY a."PrimaryVersionId", a."Id""#@)) by {
        reveal_strlit(
            r#"SELECT a."Id", a."PrimaryVersionId" FROM "BaseItems" a
           WHERE a."PrimaryVersionId" IS NOT NULL
             AND a."PrimaryVersionId" IN (SELECT "Id" FROM "BaseItems")
             AND NOT EXISTS (SELECT 1 FROM "LinkedChildren" lc
                             WHERE lc."ParentId" = a."PrimaryVersionId" AND lc."ChildId" = a."Id"
                               AND lc."ChildType" IN (2, 3))
           ORDER BY a."PrimaryVersionId", a."Id""#,
        );
        reveal_strlit(r#"SELECT a."Id", a."PrimaryVersionId" FROM "BaseItems" a"#);
        lemma_holds(request::SELECT_UNLINKED_VERSIONS@, r#"SELECT a."Id", a."PrimaryVersionId" FROM "BaseItems" a"#@, 0);
        reveal_strlit(r#"WHERE a."PrimaryVersionId" IS NOT NULL"#);
        lemma_holds(request::SELECT_UNLINKED_VERSIONS@, r#"WHERE a."PrimaryVersionId" IS NOT NULL"#@, 66);
        reveal_strlit(r#"AND a."PrimaryVersionId" IN (SELECT "Id" FROM "BaseItems")"#);
        lemma_holds(request::SELECT_UNLINKED_VERSIONS@, r#"AND a."PrimaryVersionId" IN (SELECT "Id" FROM "BaseItems")"#@, 118);
        reveal_strlit(r#"AND NOT EXISTS (SELECT 1 FROM "LinkedChildren" lc"#);
        lemma_holds(request::SELECT_UNLINKED_VERSIONS@, r#"AND NOT EXISTS (SELECT 1 FROM "LinkedChildren" lc"#@, 190);
        reveal_strlit(r#"WHERE lc."ParentId" = a."PrimaryVersionId" AND lc."ChildId" = a."Id""#);
        lemma_holds(request::SELECT_UNLINKED_VERSIONS@, r#"WHERE lc."ParentId" = a."PrimaryVersionId" AND lc."ChildId" = a."Id""#@, 269);
        reveal_strlit(r#"AND lc."ChildType" IN (2, 3))"#);
        lemma_holds(request::SELECT_UNLINKED_VERSIONS@, r#"AND lc."ChildType" IN (2, 3))"#@, 369);
        reveal_strlit(r#"ORDER BY a."PrimaryVersionId", a."Id""#);
        lemma_holds(request::SELECT_UNLINKED_VERSIONS@, r#"ORDER BY a."PrimaryVersionId", a."Id""#@, 410);
    }
    assert(holds(request::SELECT_NAMED@, r#"SELECT "Id", "Name", "DateCreated" FROM "BaseItems""#@)
        && holds(request::SELECT_NAMED@, r#"WHERE "Type" = ?1 AND "Name" IS NOT NULL"#@)
        && holds(request::SELECT_NAMED@, r#"ORDER BY "Id""#@)) by {
        reveal_strlit(
            r#"SELECT "Id", "Name", "DateCreated" FROM "BaseItems"
           WHERE "Type" = ?1 AND "Name" IS NOT NULL ORDER BY "Id""#,
        );
        reveal_strlit(r#"SELECT "Id", "Name", "DateCreated" FROM "BaseItems""#);
        lemma_holds(request::SELECT_NAMED@, r#"SELECT "Id", "Name", "DateCreated" FROM "BaseItems""#@, 0);
        reveal_strlit(r#"WHERE "Type" = ?1 AND "Name" IS NOT NULL"#);
        lemma_holds(request::SELECT_NAMED@, r#"WHERE "Type" = ?1 AND "Name" IS NOT NULL"#@, 63);
        reveal_strlit(r#"ORDER BY "Id""#);
        lemma_holds(request::SELECT_NAMED@, r#"ORDER BY "Id""#@, 104);
    }
    assert(holds(request::SELECT_PEOPLE@, r#"SELECT p."Id", p."Name", p."PersonType""#@)
        && holds(request::SELECT_PEOPLE@, r#"(SELECT COUNT(*) FROM "PeopleBaseItemMap" m WHERE m."PeopleId" = p."Id")"#@)
        && holds(request::SELECT_PEOPLE@, r#"FROM "Peoples" p ORDER BY p."Id""#@)) by {
        reveal_strlit(
            r#"SELECT p."Id", p."Name", p."PersonType",
                  (SELECT COUNT(*) FROM "PeopleBaseItemMap" m WHERE m."PeopleId" = p."Id")
           FROM "Peoples" p ORDER BY p."Id""#,
        );
        reveal_strlit(r#"SELECT p."Id", p."Name", p."PersonType""#);
        lemma_holds(request::SELECT_PEOPLE@, r#"SELECT p."Id", p."Name", p."PersonType""#@, 0);
        reveal_strlit(r#"(SELECT COUNT(*) FROM "PeopleBaseItemMap" m WHERE m."PeopleId" = p."Id")"#);
        lemma_holds(request::SELECT_PEOPLE@, r#"(SELECT COUNT(*) FROM "PeopleBaseItemMap" m WHERE m."PeopleId" = p."Id")"#@, 59);
        reveal_strlit(r#"FROM "Peoples" p ORDER BY p."Id""#);
        lemma_holds(request::SELECT_PEOPLE@, r#"FROM "Peoples" p ORDER BY p."Id""#@, 143);
    }
}

/// A request that names an item binds its id; one that selects by type binds
/// every type that it selects.
pub proof fn law_ids_and_types_are_bound(id: String, kind: FoldedKind, types: StoredTypes)
    ensures
        ({
            let only = seq![Bind::Text(id)];
            &&& Request::DeleteItem(id).spec_binds(types) == only
            &&& Request::DeletePerson(id).spec_binds(types) == only
            &&& Request::DeleteLinksOf(id).spec_binds(types) == only
            &&& Request::ReleaseOwnedBy(id).spec_binds(types) == only
            &&& Request::FindItemByPath(id).spec_binds(types) == only
            &&& Request::ItemExists(ItemId::Stored(id)).spec_binds(types) == only
            &&& Request::CountChildren(id).spec_binds(types) == only
            &&& Request::CountOwned(id).spec_binds(types) == only
            &&& Request::CountDescendants(id).spec_binds(types) == only
            &&& Request::CountLinks(id).spec_binds(types) == only
            &&& Request::CountUserData(id).spec_binds(types) == only
        }),
        ({
            let bound = Request::SelectMembershipItems.spec_binds(types);
            &&& bound.len() == 5
            &&& bound.contains(Bind::Text(types.playlist))
            &&& bound.contains(Bind::Text(types.box_set))
            &&& bound.contains(Bind::Text(types.video))
            &&& bound.contains(Bind::Text(types.movie))
            &&& bound.contains(Bind::Text(types.episode))
        }),
        ({
            let bound = Request::ReleaseMisownedVideos.spec_binds(types);
            &&& bound.len() == 2
            &&& bound.contains(Bind::Text(types.video))
            &&& bound.contains(Bind::Text(types.movie))
        }),
        ({
            let bound = Request::FindVideoUnder(id).spec_binds(types);
            &&& bound.len() == 3
            &&& bound.take(2).contains(Bind::Text(types.video))
            &&& bound.take(2).contains(Bind::Text(types.movie))
            &&& bound[2] == Bind::Text(id)
        }),
        Request::SelectNamed(kind).spec_binds(types) == seq![
            Bind::Text(if kind is MusicArtist { types.music_artist } else { types.person }),
        ],
        Request::SelectPlaceholderOwned.spec_binds(types) == seq![Bind::Placeholder],
{
    let bound = Request::SelectMembershipItems.spec_binds(types);
    assert(bound[0] == Bind::Text(types.playlist));
    assert(bound[1] == Bind::Text(types.box_set));
    assert(bound[2] == Bind::Text(types.video));
    assert(bound[3] == Bind::Text(types.movie));
    assert(bound[4] == Bind::Text(types.episode));
    let released = Request::ReleaseMisownedVideos.spec_binds(types);
    assert(released[0] == Bind::Text(types.video));
    assert(released[1] == Bind::Text(types.movie));
    let found = Request::FindVideoUnder(id).spec_binds(types).take(2);
    assert(found[0] == Bind::Text(types.video));
    assert(found[1] == Bind::Text(types.movie));
}

/// The placeholder is the GUID with the value one.
pub proof fn law_placeholder_is_the_guid_of_one(i: int)
    requires
        0 <= i < request::PLACEHOLDER_ID@.len(),
    ensures
        request::PLACEHOLDER_ID@.len() == 36,
        request::PLACEHOLDER_ID@[i] == if i == 35 {
            '1'
        } else if i == 8 || i == 13 || i == 18 || i == 23 {
            '-'
        } else {
            '0'
        },
{
    reveal_strlit("00000000-0000-0000-0000-000000000001");
    let written = Seq::new(
        36,
        |k: int|
            if k == 35 {
                '1'
            } else if k == 8 || k == 13 || k == 18 || k == 23 {
                '-'
            } else {
                '0'
            },
    );
    assert(request::PLACEHOLDER_ID@ =~= written);
}

} // verus!
