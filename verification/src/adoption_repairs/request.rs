//! What the repairs ask of the database, and what it answers.
//!
//! A repair never touches the database itself: it hands out one [`Request`]
//! after the other and takes a [`Reply`] for each. The statement that a request
//! stands for, and the values bound to it, are given here.

use vstd::prelude::*;

use crate::json::Json;

verus! {

/// An item id: as it is stored, or as the 128 bits of a GUID.
#[derive(Debug)]
pub enum ItemId {
    Stored(String),
    Guid(u128),
}

impl ItemId {
    /// A copy of the id.
    pub fn copy(&self) -> (copy: ItemId)
        ensures
            copy == *self,
    {
        match self {
            ItemId::Stored(id) => ItemId::Stored(id.clone()),
            ItemId::Guid(bits) => ItemId::Guid(*bits),
        }
    }
}

/// The bookkeeping entry under which a repair records that it has run.
#[derive(Debug, Clone, Copy, PartialEq, Eq, Structural)]
pub enum RepairKey {
    CleanupOrphanedExtras,
    OwnerIdRelationships,
    AlternateVersionLinks,
    MergeDuplicateMusicArtists,
    MergeDuplicatePeople,
}

impl RepairKey {
    /// The key as it is stored.
    pub open spec fn spec_text(self) -> Seq<char> {
        match self {
            RepairKey::CleanupOrphanedExtras => "cleanup_orphaned_extras_v12"@,
            RepairKey::OwnerIdRelationships => "owner_id_relationships_v12"@,
            RepairKey::AlternateVersionLinks => "alternate_version_links_v12"@,
            RepairKey::MergeDuplicateMusicArtists => "merge_duplicate_music_artists_v12"@,
            RepairKey::MergeDuplicatePeople => "merge_duplicate_people_v12"@,
        }
    }

    /// Executable [`RepairKey::spec_text`].
    pub fn text(self) -> (text: &'static str)
        ensures
            text@ == self.spec_text(),
    {
        match self {
            RepairKey::CleanupOrphanedExtras => "cleanup_orphaned_extras_v12",
            RepairKey::OwnerIdRelationships => "owner_id_relationships_v12",
            RepairKey::AlternateVersionLinks => "alternate_version_links_v12",
            RepairKey::MergeDuplicateMusicArtists => "merge_duplicate_music_artists_v12",
            RepairKey::MergeDuplicatePeople => "merge_duplicate_people_v12",
        }
    }
}

/// The kinds of item whose case-only duplicates are folded.
#[derive(Debug, Clone, Copy, PartialEq, Eq, Structural)]
pub enum FoldedKind {
    MusicArtist,
    Person,
}

/// One of the rewrites that move every reference from a duplicate to its
/// keeper, a row of the keeper winning any collision.
#[derive(Debug, Clone, Copy, PartialEq, Eq, Structural)]
pub enum Rewrite {
    MoveChildren,
    MoveOwned,
    DropSharedDescendants,
    MoveDescendants,
    DropSharedMembers,
    MoveMembers,
    DropSharedMemberships,
    MoveMemberships,
    DropSharedUserData,
    MoveUserData,
}

/// What a repair asks for next.
#[derive(Debug)]
pub enum Request {
    /// Read the bookkeeping entry; answered by [`Reply::Marker`].
    ReadMarker(RepairKey),
    /// Record in the bookkeeping that the repair has run.
    WriteMarker(RepairKey),
    /// Read the adoption record; answered by [`Reply::Adoption`].
    ReadAdoption,
    /// Open the transaction that the writes up to [`Request::Commit`] belong to.
    Begin,
    /// Commit the open transaction.
    Commit,
    /// The items with a data document, of the types that membership is kept
    /// in; answered by [`Reply::MembershipItems`].
    SelectMembershipItems,
    /// Write the membership rows of this playlist or box set from its data
    /// document; answered by [`Reply::Imported`].
    ImportMembership { item: String, data: Json },
    /// The item at a path; answered by [`Reply::Item`].
    FindItemByPath(String),
    /// Whether `child` is owned by `parent`; answered by [`Reply::Found`].
    IsOwnedBy { child: ItemId, parent: String },
    /// Whether `parent` already links to `child`; answered by [`Reply::Found`].
    IsLinked { parent: String, child: ItemId },
    /// Whether there is such an item; answered by [`Reply::Found`].
    ItemExists(ItemId),
    /// Link `child` to `parent`, behind the links it already has.
    AppendLink { parent: String, child: ItemId, child_type: i64 },
    /// Record in the adoption record that membership has been imported.
    FinishMembershipImport,
    /// The items that the placeholder owns; answered by [`Reply::Items`].
    SelectPlaceholderOwned,
    /// Delete every link from or to the item.
    DeleteLinksOf(String),
    /// Delete the item.
    DeleteItem(String),
    /// The items that share their path; answered by [`Reply::SharedPaths`].
    SelectSharedPaths,
    /// How many items have this parent; answered by [`Reply::Count`].
    CountChildren(String),
    /// How many items have this owner; answered by [`Reply::Count`].
    CountOwned(String),
    /// Take this owner from every item that has it.
    ReleaseOwnedBy(String),
    /// Take the owner from every video that is no extra and that a video, or
    /// nothing, owns; answered by [`Reply::Affected`].
    ReleaseMisownedVideos,
    /// The extras whose owner is gone; answered by [`Reply::OrphanedExtras`].
    SelectOrphanedExtras,
    /// The first video whose path begins with the directory; answered by
    /// [`Reply::Item`].
    FindVideoUnder(String),
    /// Give the item this owner, or none.
    SetOwner { item: String, owner: Option<String> },
    /// Point every linked version at the item that links to it; answered by
    /// [`Reply::Affected`].
    PointVersionsAtParents,
    /// The versions that are not linked yet; answered by [`Reply::Versions`].
    SelectUnlinkedVersions,
    /// The directories that the files of two items lie in; answered by
    /// [`Reply::Directories`].
    ReadDirectories { version: u128, primary: u128 },
    /// The named items of a kind; answered by [`Reply::Named`].
    SelectNamed(FoldedKind),
    /// How many items have this ancestor; answered by [`Reply::Count`].
    CountDescendants(String),
    /// How many links lead from or to the item; answered by [`Reply::Count`].
    CountLinks(String),
    /// How many user-data rows the item has; answered by [`Reply::Count`].
    CountUserData(String),
    /// Move references from `duplicate` to `keeper`.
    Repoint { rewrite: Rewrite, duplicate: String, keeper: String },
    /// The people with their credits counted; answered by [`Reply::People`].
    SelectPeople,
    /// Drop the credits of `duplicate` that `keeper` has as well.
    DropSharedCredits { duplicate: String, keeper: String },
    /// Move the credits of `duplicate` to `keeper`.
    MoveCredits { duplicate: String, keeper: String },
    /// Delete the person.
    DeletePerson(String),
    /// The repair is over and changed this many rows.
    Finish(usize),
    /// The reply does not answer the request that was made; the repair is over.
    Reject,
}

/// The adoption record of a database.
#[derive(Debug)]
pub struct AdoptionState {
    /// The release that the database came from.
    pub generation: String,
    /// Whether membership has been imported from the data documents.
    pub membership_import_done: bool,
}

/// A linked child as a data document lists it.
#[derive(Debug)]
pub struct LinkedChild {
    pub item_id: Option<String>,
    pub path: Option<String>,
}

/// An item that membership may be imported from.
#[derive(Debug)]
pub struct MembershipItem {
    pub id: String,
    pub stored_type: String,
    /// The data document.
    pub data: Json,
    /// The linked children under `LinkedAlternateVersions` of the document.
    pub linked_versions: Vec<LinkedChild>,
}

/// An item that shares its path with another one.
#[derive(Debug)]
pub struct PathItem {
    pub path: String,
    pub id: String,
    pub stored_type: String,
}

/// An extra whose owner is gone.
#[derive(Debug)]
pub struct OrphanedExtra {
    pub id: String,
    pub path: Option<String>,
}

/// An item that names its primary version.
#[derive(Debug)]
pub struct VersionPair {
    pub child: String,
    pub primary: String,
}

/// A named item.
#[derive(Debug)]
pub struct NamedItem {
    pub id: String,
    pub name: String,
    pub created: Option<String>,
}

/// A person with the number of its credits.
#[derive(Debug)]
pub struct PersonRow {
    pub id: String,
    pub name: String,
    pub person_type: Option<String>,
    pub credits: i64,
}

/// What the database answered.
#[derive(Debug)]
pub enum Reply {
    /// The request was carried out, and there is nothing to report.
    Done,
    Marker(Option<String>),
    Adoption(Option<AdoptionState>),
    MembershipItems(Vec<MembershipItem>),
    Imported(usize),
    Item(Option<String>),
    Found(bool),
    Items(Vec<String>),
    SharedPaths(Vec<PathItem>),
    Count(i64),
    Affected(u64),
    OrphanedExtras(Vec<OrphanedExtra>),
    Versions(Vec<VersionPair>),
    Directories { version: Option<String>, primary: Option<String> },
    Named(Vec<NamedItem>),
    People(Vec<PersonRow>),
}

/// The type names under which the kinds of item are stored.
#[derive(Debug)]
pub struct StoredTypes {
    pub playlist: String,
    pub box_set: String,
    pub video: String,
    pub movie: String,
    pub episode: String,
    pub folder: String,
    pub music_artist: String,
    pub person: String,
}

impl StoredTypes {
    /// The type name of a folded kind.
    pub open spec fn spec_folded(self, kind: FoldedKind) -> String {
        match kind {
            FoldedKind::MusicArtist => self.music_artist,
            FoldedKind::Person => self.person,
        }
    }
}

/// A value bound to a statement.
#[derive(Debug)]
pub enum Bind {
    Text(String),
    /// A GUID, to be written the way the database stores ids.
    Guid(u128),
    Integer(i64),
    /// [`PLACEHOLDER_ID`].
    Placeholder,
    Null,
}

/// The placeholder that stands for an owner that no longer exists.
pub const PLACEHOLDER_ID: &'static str = "00000000-0000-0000-0000-000000000001";

/// `LinkedChildType` of a version that lies beside its primary.
pub const LOCAL_ALTERNATE_VERSION: i64 = 2;

/// `LinkedChildType` of a version that lies elsewhere.
pub const LINKED_ALTERNATE_VERSION: i64 = 3;

pub const SELECT_MEMBERSHIP_ITEMS: &'static str = r#"SELECT "Id", "Type", "Path", "Data" FROM "BaseItems"
           WHERE "Data" IS NOT NULL AND "Type" IN (?1, ?2, ?3, ?4, ?5)"#;

pub const FIND_ITEM_BY_PATH: &'static str = r#"SELECT "Id" FROM "BaseItems" WHERE "Path" = ?1 ORDER BY "Id" LIMIT 1"#;

pub const IS_OWNED_BY: &'static str = r#"SELECT 1 FROM "BaseItems" WHERE "Id" = ?1 AND "OwnerId" = ?2"#;

pub const IS_LINKED: &'static str = r#"SELECT 1 FROM "LinkedChildren" WHERE "ParentId" = ?1 AND "ChildId" = ?2"#;

pub const ITEM_EXISTS: &'static str = r#"SELECT 1 FROM "BaseItems" WHERE "Id" = ?1"#;

pub const APPEND_LINK: &'static str = r#"INSERT INTO "LinkedChildren" ("ParentId", "SortOrder", "ChildId", "ChildType")
           VALUES (?1,
               (SELECT COALESCE(MAX("SortOrder"), -1) + 1 FROM "LinkedChildren" WHERE "ParentId" = ?1),
               ?2, ?3)"#;

pub const FINISH_MEMBERSHIP_IMPORT: &'static str = r#"UPDATE "FerrofinAdoption" SET "MembershipImportDone" = 1"#;

pub const SELECT_PLACEHOLDER_OWNED: &'static str = r#"SELECT "Id" FROM "BaseItems" WHERE "OwnerId" = ?1 AND "Id" <> ?1"#;

pub const DELETE_LINKS_OF: &'static str = r#"DELETE FROM "LinkedChildren" WHERE "ParentId" = ?1 OR "ChildId" = ?1"#;

pub const DELETE_ITEM: &'static str = r#"DELETE FROM "BaseItems" WHERE "Id" = ?1"#;

pub const SELECT_SHARED_PATHS: &'static str = r#"SELECT b."Path", b."Id", b."Type", b."DateCreated" FROM "BaseItems" b
           WHERE b."Path" IS NOT NULL
             AND b."Path" IN (SELECT "Path" FROM "BaseItems" WHERE "Path" IS NOT NULL
                              GROUP BY "Path" HAVING COUNT(*) > 1)
           ORDER BY b."Path", b."DateCreated" DESC, b."Id""#;

pub const COUNT_CHILDREN: &'static str = r#"SELECT COUNT(*) FROM "BaseItems" WHERE "ParentId" = ?1"#;

pub const COUNT_OWNED: &'static str = r#"SELECT COUNT(*) FROM "BaseItems" WHERE "OwnerId" = ?1"#;

pub const RELEASE_OWNED_BY: &'static str = r#"UPDATE "BaseItems" SET "OwnerId" = NULL WHERE "OwnerId" = ?1"#;

pub const RELEASE_MISOWNED_VIDEOS: &'static str = r#"UPDATE "BaseItems" SET "OwnerId" = NULL
           WHERE "OwnerId" IS NOT NULL
             AND ("ExtraType" IS NULL OR "ExtraType" = 0)
             AND "Type" IN (?1, ?2)
             AND (
               "OwnerId" NOT IN (SELECT "Id" FROM "BaseItems")
               OR "OwnerId" IN (SELECT "Id" FROM "BaseItems" WHERE "Type" IN (?1, ?2))
             )"#;

pub const SELECT_ORPHANED_EXTRAS: &'static str = r#"SELECT "Id", "Path" FROM "BaseItems"
           WHERE "ExtraType" IS NOT NULL AND "ExtraType" <> 0 AND "OwnerId" IS NOT NULL
             AND "OwnerId" NOT IN (SELECT "Id" FROM "BaseItems")"#;

pub const FIND_VIDEO_UNDER: &'static str = r#"SELECT "Id" FROM "BaseItems"
               WHERE "Type" IN (?1, ?2) AND "Path" IS NOT NULL AND substr("Path", 1, length(?3)) = ?3
               ORDER BY "Id" LIMIT 1"#;

pub const SET_OWNER: &'static str = r#"UPDATE "BaseItems" SET "OwnerId" = ?2 WHERE "Id" = ?1"#;

pub const POINT_VERSIONS_AT_PARENTS: &'static str = r#"UPDATE "BaseItems" SET "PrimaryVersionId" = (
               SELECT lc."ParentId" FROM "LinkedChildren" lc
               WHERE lc."ChildId" = "BaseItems"."Id" AND lc."ChildType" IN (2, 3)
               ORDER BY lc."ParentId", lc."SortOrder" LIMIT 1)
           WHERE "Id" IN (SELECT "ChildId" FROM "LinkedChildren" WHERE "ChildType" IN (2, 3))
             AND ("PrimaryVersionId" IS NULL OR "PrimaryVersionId" NOT IN (
               SELECT lc."ParentId" FROM "LinkedChildren" lc
               WHERE lc."ChildId" = "BaseItems"."Id" AND lc."ChildType" IN (2, 3)))"#;

pub const SELECT_UNLINKED_VERSIONS: &'static str = r#"SELECT a."Id", a."PrimaryVersionId" FROM "BaseItems" a
           WHERE a."PrimaryVersionId" IS NOT NULL
             AND a."PrimaryVersionId" IN (SELECT "Id" FROM "BaseItems")
             AND NOT EXISTS (SELECT 1 FROM "LinkedChildren" lc
                             WHERE lc."ParentId" = a."PrimaryVersionId" AND lc."ChildId" = a."Id"
                               AND lc."ChildType" IN (2, 3))
           ORDER BY a."PrimaryVersionId", a."Id""#;

pub const SELECT_NAMED: &'static str = r#"SELECT "Id", "Name", "DateCreated" FROM "BaseItems"
           WHERE "Type" = ?1 AND "Name" IS NOT NULL ORDER BY "Id""#;

pub const COUNT_DESCENDANTS: &'static str = r#"SELECT COUNT(*) FROM "AncestorIds" WHERE "ParentItemId" = ?1"#;

pub const COUNT_LINKS: &'static str = r#"SELECT COUNT(*) FROM "LinkedChildren" WHERE "ParentId" = ?1 OR "ChildId" = ?1"#;

pub const COUNT_USER_DATA: &'static str = r#"SELECT COUNT(*) FROM "UserData" WHERE "ItemId" = ?1"#;

pub const MOVE_CHILDREN: &'static str = r#"UPDATE "BaseItems" SET "ParentId" = ?2 WHERE "ParentId" = ?1"#;

pub const MOVE_OWNED: &'static str = r#"UPDATE "BaseItems" SET "OwnerId" = ?2 WHERE "OwnerId" = ?1"#;

pub const DROP_SHARED_DESCENDANTS: &'static str = r#"DELETE FROM "AncestorIds" WHERE "ParentItemId" = ?1
             AND "ItemId" IN (SELECT "ItemId" FROM "AncestorIds" WHERE "ParentItemId" = ?2)"#;

pub const MOVE_DESCENDANTS: &'static str = r#"UPDATE "AncestorIds" SET "ParentItemId" = ?2 WHERE "ParentItemId" = ?1"#;

pub const DROP_SHARED_MEMBERS: &'static str = r#"DELETE FROM "LinkedChildren" WHERE "ParentId" = ?1
             AND "ChildId" IN (SELECT "ChildId" FROM "LinkedChildren" WHERE "ParentId" = ?2)"#;

pub const MOVE_MEMBERS: &'static str = r#"UPDATE "LinkedChildren" SET "ParentId" = ?2,
             "SortOrder" = "SortOrder" + (SELECT COALESCE(MAX("SortOrder"), -1) + 1
                                          FROM "LinkedChildren" WHERE "ParentId" = ?2)
           WHERE "ParentId" = ?1"#;

pub const DROP_SHARED_MEMBERSHIPS: &'static str = r#"DELETE FROM "LinkedChildren" WHERE "ChildId" = ?1
             AND "ParentId" IN (SELECT "ParentId" FROM "LinkedChildren" WHERE "ChildId" = ?2)"#;

pub const MOVE_MEMBERSHIPS: &'static str = r#"UPDATE "LinkedChildren" SET "ChildId" = ?2 WHERE "ChildId" = ?1"#;

pub const DROP_SHARED_USER_DATA: &'static str = r#"DELETE FROM "UserData" WHERE "ItemId" = ?1
             AND EXISTS (SELECT 1 FROM "UserData" k WHERE k."ItemId" = ?2
                         AND k."UserId" = "UserData"."UserId"
                         AND k."CustomDataKey" IS "UserData"."CustomDataKey")"#;

pub const MOVE_USER_DATA: &'static str = r#"UPDATE "UserData" SET "ItemId" = ?2 WHERE "ItemId" = ?1"#;

pub const SELECT_PEOPLE: &'static str = r#"SELECT p."Id", p."Name", p."PersonType",
                  (SELECT COUNT(*) FROM "PeopleBaseItemMap" m WHERE m."PeopleId" = p."Id")
           FROM "Peoples" p ORDER BY p."Id""#;

pub const DROP_SHARED_CREDITS: &'static str = r#"DELETE FROM "PeopleBaseItemMap" WHERE "PeopleId" = ?1
                   AND EXISTS (SELECT 1 FROM "PeopleBaseItemMap" k WHERE k."PeopleId" = ?2
                               AND k."ItemId" = "PeopleBaseItemMap"."ItemId"
                               AND k."Role" IS "PeopleBaseItemMap"."Role")"#;

pub const MOVE_CREDITS: &'static str = r#"UPDATE "PeopleBaseItemMap" SET "PeopleId" = ?2 WHERE "PeopleId" = ?1"#;

pub const DELETE_PERSON: &'static str = r#"DELETE FROM "Peoples" WHERE "Id" = ?1"#;

impl Rewrite {
    /// The statement of the rewrite; `?1` is the duplicate, `?2` the keeper.
    pub open spec fn spec_sql(self) -> Seq<char> {
        match self {
            Rewrite::MoveChildren => MOVE_CHILDREN@,
            Rewrite::MoveOwned => MOVE_OWNED@,
            Rewrite::DropSharedDescendants => DROP_SHARED_DESCENDANTS@,
            Rewrite::MoveDescendants => MOVE_DESCENDANTS@,
            Rewrite::DropSharedMembers => DROP_SHARED_MEMBERS@,
            Rewrite::MoveMembers => MOVE_MEMBERS@,
            Rewrite::DropSharedMemberships => DROP_SHARED_MEMBERSHIPS@,
            Rewrite::MoveMemberships => MOVE_MEMBERSHIPS@,
            Rewrite::DropSharedUserData => DROP_SHARED_USER_DATA@,
            Rewrite::MoveUserData => MOVE_USER_DATA@,
        }
    }

    /// Executable [`Rewrite::spec_sql`].
    pub fn sql(self) -> (sql: &'static str)
        ensures
            sql@ == self.spec_sql(),
    {
        match self {
            Rewrite::MoveChildren => MOVE_CHILDREN,
            Rewrite::MoveOwned => MOVE_OWNED,
            Rewrite::DropSharedDescendants => DROP_SHARED_DESCENDANTS,
            Rewrite::MoveDescendants => MOVE_DESCENDANTS,
            Rewrite::DropSharedMembers => DROP_SHARED_MEMBERS,
            Rewrite::MoveMembers => MOVE_MEMBERS,
            Rewrite::DropSharedMemberships => DROP_SHARED_MEMBERSHIPS,
            Rewrite::MoveMemberships => MOVE_MEMBERSHIPS,
            Rewrite::DropSharedUserData => DROP_SHARED_USER_DATA,
            Rewrite::MoveUserData => MOVE_USER_DATA,
        }
    }
}

impl ItemId {
    /// The id as a bound value.
    pub open spec fn spec_bind(self) -> Bind {
        match self {
            ItemId::Stored(id) => Bind::Text(id),
            ItemId::Guid(bits) => Bind::Guid(bits),
        }
    }

    /// Executable [`ItemId::spec_bind`].
    pub fn bind(&self) -> (bind: Bind)
        ensures
            bind == self.spec_bind(),
    {
        match self {
            ItemId::Stored(id) => Bind::Text(id.clone()),
            ItemId::Guid(bits) => Bind::Guid(*bits),
        }
    }
}

/// An optional text as a bound value.
pub open spec fn optional_bind(value: Option<String>) -> Bind {
    match value {
        Some(text) => Bind::Text(text),
        None => Bind::Null,
    }
}

impl Request {
    /// The statement that the request stands for, where it is one.
    pub open spec fn spec_sql(self) -> Option<Seq<char>> {
        match self {
            Request::SelectMembershipItems => Some(SELECT_MEMBERSHIP_ITEMS@),
            Request::FindItemByPath(_) => Some(FIND_ITEM_BY_PATH@),
            Request::IsOwnedBy { .. } => Some(IS_OWNED_BY@),
            Request::IsLinked { .. } => Some(IS_LINKED@),
            Request::ItemExists(_) => Some(ITEM_EXISTS@),
            Request::AppendLink { .. } => Some(APPEND_LINK@),
            Request::FinishMembershipImport => Some(FINISH_MEMBERSHIP_IMPORT@),
            Request::SelectPlaceholderOwned => Some(SELECT_PLACEHOLDER_OWNED@),
            Request::DeleteLinksOf(_) => Some(DELETE_LINKS_OF@),
            Request::DeleteItem(_) => Some(DELETE_ITEM@),
            Request::SelectSharedPaths => Some(SELECT_SHARED_PATHS@),
            Request::CountChildren(_) => Some(COUNT_CHILDREN@),
            Request::CountOwned(_) => Some(COUNT_OWNED@),
            Request::ReleaseOwnedBy(_) => Some(RELEASE_OWNED_BY@),
            Request::ReleaseMisownedVideos => Some(RELEASE_MISOWNED_VIDEOS@),
            Request::SelectOrphanedExtras => Some(SELECT_ORPHANED_EXTRAS@),
            Request::FindVideoUnder(_) => Some(FIND_VIDEO_UNDER@),
            Request::SetOwner { .. } => Some(SET_OWNER@),
            Request::PointVersionsAtParents => Some(POINT_VERSIONS_AT_PARENTS@),
            Request::SelectUnlinkedVersions => Some(SELECT_UNLINKED_VERSIONS@),
            Request::SelectNamed(_) => Some(SELECT_NAMED@),
            Request::CountDescendants(_) => Some(COUNT_DESCENDANTS@),
            Request::CountLinks(_) => Some(COUNT_LINKS@),
            Request::CountUserData(_) => Some(COUNT_USER_DATA@),
            Request::Repoint { rewrite, .. } => Some(rewrite.spec_sql()),
            Request::SelectPeople => Some(SELECT_PEOPLE@),
            Request::DropSharedCredits { .. } => Some(DROP_SHARED_CREDITS@),
            Request::MoveCredits { .. } => Some(MOVE_CREDITS@),
            Request::DeletePerson(_) => Some(DELETE_PERSON@),
            _ => None,
        }
    }

    /// Executable [`Request::spec_sql`].
    pub fn sql(&self) -> (sql: Option<&'static str>)
        ensures
            match sql {
                Some(text) => self.spec_sql() == Some(text@),
                None => self.spec_sql() is None,
            },
    {
        match self {
            Request::SelectMembershipItems => Some(SELECT_MEMBERSHIP_ITEMS),
            Request::FindItemByPath(_) => Some(FIND_ITEM_BY_PATH),
            Request::IsOwnedBy { .. } => Some(IS_OWNED_BY),
            Request::IsLinked { .. } => Some(IS_LINKED),
            Request::ItemExists(_) => Some(ITEM_EXISTS),
            Request::AppendLink { .. } => Some(APPEND_LINK),
            Request::FinishMembershipImport => Some(FINISH_MEMBERSHIP_IMPORT),
            Request::SelectPlaceholderOwned => Some(SELECT_PLACEHOLDER_OWNED),
            Request::DeleteLinksOf(_) => Some(DELETE_LINKS_OF),
            Request::DeleteItem(_) => Some(DELETE_ITEM),
            Request::SelectSharedPaths => Some(SELECT_SHARED_PATHS),
            Request::CountChildren(_) => Some(COUNT_CHILDREN),
            Request::CountOwned(_) => Some(COUNT_OWNED),
            Request::ReleaseOwnedBy(_) => Some(RELEASE_OWNED_BY),
            Request::ReleaseMisownedVideos => Some(RELEASE_MISOWNED_VIDEOS),
            Request::SelectOrphanedExtras => Some(SELECT_ORPHANED_EXTRAS),
            Request::FindVideoUnder(_) => Some(FIND_VIDEO_UNDER),
            Request::SetOwner { .. } => Some(SET_OWNER),
            Request::PointVersionsAtParents => Some(POINT_VERSIONS_AT_PARENTS),
            Request::SelectUnlinkedVersions => Some(SELECT_UNLINKED_VERSIONS),
            Request::SelectNamed(_) => Some(SELECT_NAMED),
            Request::CountDescendants(_) => Some(COUNT_DESCENDANTS),
            Request::CountLinks(_) => Some(COUNT_LINKS),
            Request::CountUserData(_) => Some(COUNT_USER_DATA),
            Request::Repoint { rewrite, .. } => Some(rewrite.sql()),
            Request::SelectPeople => Some(SELECT_PEOPLE),
            Request::DropSharedCredits { .. } => Some(DROP_SHARED_CREDITS),
            Request::MoveCredits { .. } => Some(MOVE_CREDITS),
            Request::DeletePerson(_) => Some(DELETE_PERSON),
            _ => None,
        }
    }

    /// The values bound to the statement, in order.
    pub open spec fn spec_binds(self, types: StoredTypes) -> Seq<Bind> {
        match self {
            Request::SelectMembershipItems => seq![Bind::Text(types.playlist), Bind::Text(types.box_set), Bind::Text(types.video), Bind::Text(types.movie), Bind::Text(types.episode)],
            Request::FindItemByPath(path) => seq![Bind::Text(path)],
            Request::IsOwnedBy { child, parent } => seq![child.spec_bind(), Bind::Text(parent)],
            Request::IsLinked { parent, child } => seq![Bind::Text(parent), child.spec_bind()],
            Request::ItemExists(id) => seq![id.spec_bind()],
            Request::AppendLink { parent, child, child_type } => seq![Bind::Text(parent), child.spec_bind(), Bind::Integer(child_type)],
            Request::SelectPlaceholderOwned => seq![Bind::Placeholder],
            Request::DeleteLinksOf(id) => seq![Bind::Text(id)],
            Request::DeleteItem(id) => seq![Bind::Text(id)],
            Request::CountChildren(id) => seq![Bind::Text(id)],
            Request::CountOwned(id) => seq![Bind::Text(id)],
            Request::ReleaseOwnedBy(id) => seq![Bind::Text(id)],
            Request::ReleaseMisownedVideos => seq![Bind::Text(types.video), Bind::Text(types.movie)],
            Request::FindVideoUnder(directory) => seq![Bind::Text(types.video), Bind::Text(types.movie), Bind::Text(directory)],
            Request::SetOwner { item, owner } => seq![Bind::Text(item), optional_bind(owner)],
            Request::SelectNamed(kind) => seq![Bind::Text(types.spec_folded(kind))],
            Request::CountDescendants(id) => seq![Bind::Text(id)],
            Request::CountLinks(id) => seq![Bind::Text(id)],
            Request::CountUserData(id) => seq![Bind::Text(id)],
            Request::Repoint { rewrite: _, duplicate, keeper } => seq![Bind::Text(duplicate), Bind::Text(keeper)],
            Request::DropSharedCredits { duplicate, keeper } => seq![Bind::Text(duplicate), Bind::Text(keeper)],
            Request::MoveCredits { duplicate, keeper } => seq![Bind::Text(duplicate), Bind::Text(keeper)],
            Request::DeletePerson(id) => seq![Bind::Text(id)],
            _ => Seq::empty(),
        }
    }

    /// Executable [`Request::spec_binds`].
    pub fn binds(&self, types: &StoredTypes) -> (binds: Vec<Bind>)
        ensures
            binds@ == self.spec_binds(*types),
    {
        let mut binds: Vec<Bind> = Vec::new();
        match self {
            Request::SelectMembershipItems => {
                binds.push(Bind::Text(types.playlist.clone()));
                binds.push(Bind::Text(types.box_set.clone()));
                binds.push(Bind::Text(types.video.clone()));
                binds.push(Bind::Text(types.movie.clone()));
                binds.push(Bind::Text(types.episode.clone()));
            },
            Request::FindItemByPath(path) => {
                binds.push(Bind::Text(path.clone()));
            },
            Request::IsOwnedBy { child, parent } => {
                binds.push(child.bind());
                binds.push(Bind::Text(parent.clone()));
            },
            Request::IsLinked { parent, child } => {
                binds.push(Bind::Text(parent.clone()));
                binds.push(child.bind());
            },
            Request::ItemExists(id) => {
                binds.push(id.bind());
            },
            Request::AppendLink { parent, child, child_type } => {
                binds.push(Bind::Text(parent.clone()));
                binds.push(child.bind());
                binds.push(Bind::Integer(*child_type));
            },
            Request::SelectPlaceholderOwned => {
                binds.push(Bind::Placeholder);
            },
            Request::DeleteLinksOf(id) => {
                binds.push(Bind::Text(id.clone()));
            },
            Request::DeleteItem(id) => {
                binds.push(Bind::Text(id.clone()));
            },
            Request::CountChildren(id) => {
                binds.push(Bind::Text(id.clone()));
            },
            Request::CountOwned(id) => {
                binds.push(Bind::Text(id.clone()));
            },
            Request::ReleaseOwnedBy(id) => {
                binds.push(Bind::Text(id.clone()));
            },
            Request::ReleaseMisownedVideos => {
                binds.push(Bind::Text(types.video.clone()));
                binds.push(Bind::Text(types.movie.clone()));
            },
            Request::FindVideoUnder(directory) => {
                binds.push(Bind::Text(types.video.clone()));
                binds.push(Bind::Text(types.movie.clone()));
                binds.push(Bind::Text(directory.clone()));
            },
            Request::SetOwner { item, owner } => {
                binds.push(Bind::Text(item.clone()));
                match owner {
                    Some(text) => {
                        binds.push(Bind::Text(text.clone()));
                    },
                    None => {
                        binds.push(Bind::Null);
                    },
                }
            },
            Request::SelectNamed(kind) => {
                match kind {
                    FoldedKind::MusicArtist => {
                        binds.push(Bind::Text(types.music_artist.clone()));
                    },
                    FoldedKind::Person => {
                        binds.push(Bind::Text(types.person.clone()));
                    },
                }
            },
            Request::CountDescendants(id) => {
                binds.push(Bind::Text(id.clone()));
            },
            Request::CountLinks(id) => {
                binds.push(Bind::Text(id.clone()));
            },
            Request::CountUserData(id) => {
                binds.push(Bind::Text(id.clone()));
            },
            Request::Repoint { rewrite: _, duplicate, keeper } => {
                binds.push(Bind::Text(duplicate.clone()));
                binds.push(Bind::Text(keeper.clone()));
            },
            Request::DropSharedCredits { duplicate, keeper } => {
                binds.push(Bind::Text(duplicate.clone()));
                binds.push(Bind::Text(keeper.clone()));
            },
            Request::MoveCredits { duplicate, keeper } => {
                binds.push(Bind::Text(duplicate.clone()));
                binds.push(Bind::Text(keeper.clone()));
            },
            Request::DeletePerson(id) => {
                binds.push(Bind::Text(id.clone()));
            },
            _ => {},
        }
        binds
    }
}

} // verus!
