//! The repairs and the user name migration against a database in memory.

use std::collections::BTreeSet;

use ferrofin::adoption_repairs::boot::{run_all, BootRequest, BootStage};
use ferrofin::adoption_repairs::owners::{FixOwners, Stage as OwnersStage};
use ferrofin::adoption_repairs::repair::{
    backfill_alternate_version_links, cleanup_orphaned_extras, fix_owner_id_relationships,
    import_membership_once, merge_duplicate_music_artists, merge_duplicate_people, Repair,
};
use ferrofin::adoption_repairs::request::{
    AdoptionState, Bind, LinkedChild, MembershipItem, NamedItem, OrphanedExtra, PathItem,
    PersonRow, Reply, Request, StoredTypes, VersionPair, PLACEHOLDER_ID,
};
use ferrofin::json::Json;
use ferrofin::normalized_usernames as usernames;
use sqlx::{Connection, Row, SqliteConnection};

fn run<F: std::future::Future>(future: F) -> F::Output {
    tokio::runtime::Builder::new_current_thread()
        .enable_all()
        .build()
        .expect("runtime")
        .block_on(future)
}

fn id(n: u128) -> u128 {
    0x1111_2222_3333_4444_5555_6666_7777_0000 + n
}

fn guid_to_db(bits: u128) -> String {
    uuid::Uuid::from_u128(bits).hyphenated().to_string().to_uppercase()
}

fn simple(bits: u128) -> String {
    uuid::Uuid::from_u128(bits).simple().to_string()
}

fn types() -> StoredTypes {
    StoredTypes {
        playlist: "Playlist".to_owned(),
        box_set: "BoxSet".to_owned(),
        video: "Video".to_owned(),
        movie: "Movie".to_owned(),
        episode: "Episode".to_owned(),
        folder: "Folder".to_owned(),
        music_artist: "MusicArtist".to_owned(),
        person: "Person".to_owned(),
    }
}

async fn database() -> SqliteConnection {
    let mut db = SqliteConnection::connect("sqlite::memory:").await.expect("connect");
    sqlx::raw_sql(
        r#"
        CREATE TABLE "FerrofinMeta" ("Key" TEXT PRIMARY KEY, "Value" TEXT NOT NULL);
        CREATE TABLE "FerrofinAdoption" ("Generation" TEXT, "MembershipImportDone" INTEGER);
        CREATE TABLE "BaseItems" ("Id" TEXT PRIMARY KEY, "Type" TEXT, "Name" TEXT, "Path" TEXT,
            "Data" TEXT, "ParentId" TEXT, "OwnerId" TEXT, "ExtraType" INTEGER,
            "PrimaryVersionId" TEXT, "DateCreated" TEXT);
        CREATE TABLE "LinkedChildren" ("ParentId" TEXT, "SortOrder" INTEGER, "ChildId" TEXT,
            "ChildType" INTEGER, PRIMARY KEY ("ParentId", "SortOrder"));
        CREATE TABLE "AncestorIds" ("ItemId" TEXT, "ParentItemId" TEXT,
            PRIMARY KEY ("ItemId", "ParentItemId"));
        CREATE TABLE "UserData" ("UserId" TEXT, "ItemId" TEXT, "CustomDataKey" TEXT,
            PRIMARY KEY ("UserId", "ItemId", "CustomDataKey"));
        CREATE TABLE "Peoples" ("Id" TEXT PRIMARY KEY, "Name" TEXT, "PersonType" TEXT);
        CREATE TABLE "PeopleBaseItemMap" ("ItemId" TEXT, "PeopleId" TEXT, "Role" TEXT,
            PRIMARY KEY ("ItemId", "PeopleId", "Role"));
        "#,
    )
    .execute(&mut db)
    .await
    .expect("schema");
    db
}

async fn exec(db: &mut SqliteConnection, sql: &str, values: &[&str]) {
    let mut query = sqlx::query(sql);
    for value in values {
        query = query.bind((*value).to_owned());
    }
    query.execute(db).await.expect("statement");
}

async fn number(db: &mut SqliteConnection, sql: &str) -> i64 {
    sqlx::query_scalar(sql).fetch_one(db).await.expect("number")
}

async fn seed(db: &mut SqliteConnection, bits: u128, kind: &str, name: &str) {
    let key = guid_to_db(bits);
    exec(
        db,
        r#"INSERT INTO "BaseItems" ("Id", "Type", "Name") VALUES (?1, ?2, ?3)"#,
        &[&key, kind, name],
    )
    .await;
}

async fn set(db: &mut SqliteConnection, bits: u128, column: &str, value: &str) {
    let sql = format!(r#"UPDATE "BaseItems" SET "{column}" = ?2 WHERE "Id" = ?1"#);
    exec(db, &sql, &[&guid_to_db(bits), value]).await;
}

async fn column(db: &mut SqliteConnection, bits: u128, column: &str) -> Option<String> {
    let sql = format!(r#"SELECT "{column}" FROM "BaseItems" WHERE "Id" = ?1"#);
    sqlx::query_scalar(&sql).bind(guid_to_db(bits)).fetch_one(db).await.expect("column")
}

async fn is_stored(db: &mut SqliteConnection, bits: u128) -> bool {
    let found: Option<i64> = sqlx::query_scalar(r#"SELECT 1 FROM "BaseItems" WHERE "Id" = ?1"#)
        .bind(guid_to_db(bits))
        .fetch_optional(db)
        .await
        .expect("exists");
    found.is_some()
}

async fn links(db: &mut SqliteConnection) -> Vec<(String, String, i64, i64)> {
    sqlx::query_as(
        r#"SELECT "ParentId", "ChildId", "ChildType", "SortOrder" FROM "LinkedChildren"
           ORDER BY "ParentId", "SortOrder""#,
    )
    .fetch_all(db)
    .await
    .expect("links")
}

fn json(value: &serde_json::Value) -> Json {
    match value {
        serde_json::Value::Null => Json::Null,
        serde_json::Value::Bool(flag) => Json::Bool(*flag),
        serde_json::Value::Number(number) => Json::Number(number.to_string()),
        serde_json::Value::String(text) => Json::Text(text.clone()),
        serde_json::Value::Array(items) => Json::Array(items.iter().map(json).collect()),
        serde_json::Value::Object(members) => {
            Json::Object(members.iter().map(|(key, value)| (key.clone(), json(value))).collect())
        }
    }
}

fn linked(document: &serde_json::Value, key: &str) -> Vec<LinkedChild> {
    let text = |child: &serde_json::Value, key: &str| {
        child.get(key).and_then(serde_json::Value::as_str).map(str::to_owned)
    };
    document
        .get(key)
        .and_then(serde_json::Value::as_array)
        .map(|children| {
            children
                .iter()
                .map(|child| LinkedChild { item_id: text(child, "ItemId"), path: text(child, "Path") })
                .collect()
        })
        .unwrap_or_default()
}

fn value(json: &Json) -> serde_json::Value {
    match json {
        Json::Null => serde_json::Value::Null,
        Json::Bool(flag) => serde_json::Value::Bool(*flag),
        Json::Number(number) => serde_json::from_str(number).expect("number"),
        Json::Text(text) => serde_json::Value::String(text.clone()),
        Json::Array(items) => serde_json::Value::Array(items.iter().map(value).collect()),
        Json::Object(members) => serde_json::Value::Object(
            members.iter().map(|(key, member)| (key.clone(), value(member))).collect(),
        ),
    }
}

async fn import_list(db: &mut SqliteConnection, parent: &str, data: &Json) -> usize {
    let document = value(data);
    let mut written = 0_usize;
    for child in linked(&document, "LinkedChildren") {
        let found: Option<String> = match (child.item_id, child.path) {
            (Some(item), _) => {
                Some(guid_to_db(uuid::Uuid::parse_str(&item).expect("uuid").as_u128()))
            }
            (None, Some(path)) => {
                sqlx::query_scalar(r#"SELECT "Id" FROM "BaseItems" WHERE "Path" = ?1"#)
                    .bind(path)
                    .fetch_optional(&mut *db)
                    .await
                    .expect("path")
            }
            (None, None) => None,
        };
        if let Some(found) = found {
            let order = i64::try_from(written).expect("order");
            sqlx::query(r#"INSERT INTO "LinkedChildren" VALUES (?1, ?2, ?3, 0)"#)
                .bind(parent)
                .bind(order)
                .bind(found)
                .execute(&mut *db)
                .await
                .expect("member");
            written += 1;
        }
    }
    written
}

fn directory(path: Option<String>) -> Option<String> {
    let path = path?;
    std::path::Path::new(&path).parent().map(|found| found.to_string_lossy().into_owned())
}

async fn perform(db: &mut SqliteConnection, request: &Request) -> Reply {
    match request {
        Request::ReadMarker(key) => {
            return Reply::Marker(
                sqlx::query_scalar(r#"SELECT "Value" FROM "FerrofinMeta" WHERE "Key" = ?1"#)
                    .bind(key.text())
                    .fetch_optional(db)
                    .await
                    .expect("marker"),
            );
        }
        Request::WriteMarker(key) => {
            exec(db, r#"INSERT INTO "FerrofinMeta" VALUES (?1, '1')"#, &[key.text()]).await;
            return Reply::Done;
        }
        Request::ReadAdoption => {
            let row: Option<(String, bool)> =
                sqlx::query_as(r#"SELECT "Generation", "MembershipImportDone" FROM "FerrofinAdoption""#)
                    .fetch_optional(db)
                    .await
                    .expect("adoption");
            return Reply::Adoption(row.map(|(generation, membership_import_done)| AdoptionState {
                generation,
                membership_import_done,
            }));
        }
        Request::Begin => {
            exec(db, "BEGIN", &[]).await;
            return Reply::Done;
        }
        Request::Commit => {
            exec(db, "COMMIT", &[]).await;
            return Reply::Done;
        }
        Request::ImportMembership { item, data } => {
            return Reply::Imported(import_list(db, item, data).await);
        }
        Request::ReadDirectories { version, primary } => {
            let version = directory(column(db, *version, "Path").await);
            let primary = directory(column(db, *primary, "Path").await);
            return Reply::Directories { version, primary };
        }
        _ => {}
    }
    let mut query = sqlx::query(request.sql().expect("statement"));
    for bind in request.binds(&types()) {
        query = match bind {
            Bind::Text(text) => query.bind(text),
            Bind::Guid(bits) => query.bind(guid_to_db(bits)),
            Bind::Integer(number) => query.bind(number),
            Bind::Placeholder => query.bind(PLACEHOLDER_ID),
            Bind::Null => query.bind(None::<String>),
        };
    }
    match request {
        Request::SelectMembershipItems
        | Request::FindItemByPath(_)
        | Request::IsOwnedBy { .. }
        | Request::IsLinked { .. }
        | Request::ItemExists(_)
        | Request::SelectPlaceholderOwned
        | Request::SelectSharedPaths
        | Request::CountChildren(_)
        | Request::CountOwned(_)
        | Request::SelectOrphanedExtras
        | Request::FindVideoUnder(_)
        | Request::SelectUnlinkedVersions
        | Request::SelectNamed(_)
        | Request::CountDescendants(_)
        | Request::CountLinks(_)
        | Request::CountUserData(_)
        | Request::SelectPeople => {}
        Request::ReleaseMisownedVideos | Request::PointVersionsAtParents => {
            return Reply::Affected(query.execute(db).await.expect("update").rows_affected());
        }
        _ => {
            query.execute(db).await.expect("execute");
            return Reply::Done;
        }
    }
    let rows = query.fetch_all(db).await.expect("rows");
    match request {
        Request::SelectMembershipItems => Reply::MembershipItems(
            rows.iter()
                .map(|row| {
                    let data: String = row.get(3);
                    let document: serde_json::Value =
                        serde_json::from_str(&data).expect("document");
                    MembershipItem {
                        id: row.get(0),
                        stored_type: row.get(1),
                        data: json(&document),
                        linked_versions: linked(&document, "LinkedAlternateVersions"),
                    }
                })
                .collect(),
        ),
        Request::FindItemByPath(_) | Request::FindVideoUnder(_) => {
            Reply::Item(rows.first().map(|row| row.get(0)))
        }
        Request::IsOwnedBy { .. } | Request::IsLinked { .. } | Request::ItemExists(_) => {
            Reply::Found(!rows.is_empty())
        }
        Request::SelectPlaceholderOwned => Reply::Items(rows.iter().map(|row| row.get(0)).collect()),
        Request::SelectSharedPaths => Reply::SharedPaths(
            rows.iter()
                .map(|row| PathItem { path: row.get(0), id: row.get(1), stored_type: row.get(2) })
                .collect(),
        ),
        Request::SelectOrphanedExtras => Reply::OrphanedExtras(
            rows.iter().map(|row| OrphanedExtra { id: row.get(0), path: row.get(1) }).collect(),
        ),
        Request::SelectUnlinkedVersions => Reply::Versions(
            rows.iter().map(|row| VersionPair { child: row.get(0), primary: row.get(1) }).collect(),
        ),
        Request::SelectNamed(_) => Reply::Named(
            rows.iter()
                .map(|row| NamedItem { id: row.get(0), name: row.get(1), created: row.get(2) })
                .collect(),
        ),
        Request::SelectPeople => Reply::People(
            rows.iter()
                .map(|row| PersonRow {
                    id: row.get(0),
                    name: row.get(1),
                    person_type: row.get(2),
                    credits: row.get(3),
                })
                .collect(),
        ),
        _ => Reply::Count(rows[0].get(0)),
    }
}

async fn complete(db: &mut SqliteConnection, repair: Repair) -> usize {
    let mut repair = repair;
    let mut reply = Reply::Done;
    loop {
        let (next, request) = repair.step(reply);
        match request {
            Request::Finish(changed) => return changed,
            Request::Reject => panic!("rejected"),
            request => reply = perform(db, &request).await,
        }
        repair = next;
    }
}

async fn imported_by(generation: &str) {
    let mut db = database().await;
    exec(&mut db, r#"INSERT INTO "FerrofinAdoption" VALUES (?1, 0)"#, &[generation]).await;
    let (playlist, a, b, primary, alt) = (id(1), id(2), id(3), id(4), id(5));
    seed(&mut db, playlist, "Playlist", "P").await;
    for item in [a, b, primary, alt] {
        seed(&mut db, item, "Movie", "M").await;
    }
    set(&mut db, b, "Path", "/m/b.mkv").await;
    set(&mut db, alt, "Path", "/m/alt.mkv").await;
    let list = format!(
        r#"{{"LinkedChildren":[{{"Type":"Manual","ItemId":"{}"}},{{"Type":"Manual","Path":"/m/b.mkv"}},{{"Type":"Manual","ItemId":"{}"}}]}}"#,
        simple(a),
        simple(a)
    );
    set(&mut db, playlist, "Data", &list).await;
    let versions = format!(
        r#"{{"LocalAlternateVersions":["/m/alt.mkv"],"LinkedAlternateVersions":[{{"Type":"Manual","ItemId":"{}"}}]}}"#,
        simple(b)
    );
    set(&mut db, primary, "Data", &versions).await;

    assert_eq!(complete(&mut db, import_membership_once(&types())).await, 5);
    let written: BTreeSet<_> = links(&mut db).await.into_iter().collect();
    let expected: BTreeSet<_> = vec![
        (guid_to_db(playlist), guid_to_db(a), 0, 0),
        (guid_to_db(playlist), guid_to_db(b), 0, 1),
        (guid_to_db(playlist), guid_to_db(a), 0, 2),
        (guid_to_db(primary), guid_to_db(alt), 2, 0),
        (guid_to_db(primary), guid_to_db(b), 3, 1),
    ]
    .into_iter()
    .collect();
    assert_eq!(written, expected);
    assert_eq!(number(&mut db, r#"SELECT "MembershipImportDone" FROM "FerrofinAdoption""#).await, 1);
    // A second boot changes nothing, even after the table is emptied.
    exec(&mut db, r#"DELETE FROM "LinkedChildren""#, &[]).await;
    assert_eq!(complete(&mut db, import_membership_once(&types())).await, 0);
    assert!(links(&mut db).await.is_empty());
}

#[test]
fn membership_is_imported_once_for_a_new_10_11_adoption() {
    for generation in ["10.11.8", "10.11.11"] {
        run(imported_by(generation));
    }
}

#[test]
fn membership_is_never_imported_for_12_0_or_native_databases() {
    run(async {
        for record in [Some("12.0.0"), None] {
            let mut db = database().await;
            if let Some(generation) = record {
                exec(&mut db, r#"INSERT INTO "FerrofinAdoption" VALUES (?1, 0)"#, &[generation]).await;
            }
            seed(&mut db, id(1), "Playlist", "P").await;
            seed(&mut db, id(2), "Movie", "M").await;
            let list = format!(
                r#"{{"LinkedChildren":[{{"Type":"Manual","ItemId":"{}"}}]}}"#,
                simple(id(2))
            );
            set(&mut db, id(1), "Data", &list).await;
            for _ in 0..2 {
                assert_eq!(complete(&mut db, import_membership_once(&types())).await, 0);
                assert!(links(&mut db).await.is_empty(), "record {record:?}");
            }
        }
    });
}

#[test]
fn list_without_members_is_not_imported_and_each_list_has_its_document() {
    let item = |id: &str, kind: &str, data: Json| MembershipItem {
        id: id.to_owned(),
        stored_type: kind.to_owned(),
        data,
        linked_versions: Vec::new(),
    };
    let list = |name: &str| {
        let members = Json::Array(vec![Json::Text(name.to_owned())]);
        Json::Object(vec![("LinkedChildren".to_owned(), members)])
    };
    let (repair, _) = import_membership_once(&types()).step(Reply::Done);
    let record =
        AdoptionState { generation: "10.11.8".to_owned(), membership_import_done: false };
    let (repair, _) = repair.step(Reply::Adoption(Some(record)));
    let (repair, first) = repair.step(Reply::MembershipItems(vec![
        item("empty", "Playlist", Json::Object(Vec::new())),
        item("a", "Playlist", list("of a")),
        item("plain", "Movie", Json::Null),
        item("b", "BoxSet", list("of b")),
    ]));
    assert!(matches!(first, Request::Begin));
    let (repair, request) = repair.step(Reply::Done);
    let expect = |request: &Request, id: &str, name: &str| match request {
        Request::ImportMembership { item, data } => {
            assert_eq!(item, id);
            assert_eq!(value(data), value(&list(name)));
        }
        other => panic!("{other:?}"),
    };
    expect(&request, "a", "of a");
    let (repair, request) = repair.step(Reply::Imported(2));
    expect(&request, "b", "of b");
    let (repair, request) = repair.step(Reply::Imported(3));
    assert!(matches!(request, Request::FinishMembershipImport));
    let (repair, request) = repair.step(Reply::Done);
    assert!(matches!(request, Request::Commit));
    let (_, request) = repair.step(Reply::Done);
    assert!(matches!(request, Request::Finish(5)));
}

#[test]
fn owned_linked_missing_and_unresolved_versions_are_not_linked() {
    run(async {
        let mut db = database().await;
        exec(&mut db, r#"INSERT INTO "FerrofinAdoption" VALUES ('10.11.8', 0)"#, &[]).await;
        let (primary, owned, both, gone) = (id(1), id(2), id(3), id(4));
        for item in [primary, owned, both] {
            seed(&mut db, item, "Video", "V").await;
        }
        set(&mut db, both, "Path", "/m/both.mkv").await;
        set(&mut db, owned, "OwnerId", &guid_to_db(primary)).await;
        let versions = format!(
            r#"{{"LocalAlternateVersions":["", 7, "/m/none.mkv", "/m/both.mkv"],"LinkedAlternateVersions":[{{"ItemId":"{}"}},{{"ItemId":"{}"}},{{"ItemId":"no id","Path":"/m/both.mkv"}},{{}},{{"ItemId":"{}"}}]}}"#,
            simple(owned),
            simple(both),
            simple(gone)
        );
        set(&mut db, primary, "Data", &versions).await;
        assert_eq!(complete(&mut db, import_membership_once(&types())).await, 1);
        assert_eq!(
            links(&mut db).await,
            vec![(guid_to_db(primary), guid_to_db(both), 2, 0)],
            "a version that is listed as both is a local one"
        );
    });
}

#[test]
fn orphaned_extras_owned_by_the_placeholder_are_deleted_once() {
    run(async {
        let mut db = database().await;
        seed(&mut db, id(1), "Trailer", "T").await;
        seed(&mut db, id(2), "Movie", "M").await;
        set(&mut db, id(1), "OwnerId", PLACEHOLDER_ID).await;
        exec(
            &mut db,
            r#"INSERT INTO "LinkedChildren" VALUES (?1, 0, ?2, 3)"#,
            &[&guid_to_db(id(2)), &guid_to_db(id(1))],
        )
        .await;
        assert_eq!(complete(&mut db, cleanup_orphaned_extras()).await, 1);
        assert!(!is_stored(&mut db, id(1)).await && is_stored(&mut db, id(2)).await);
        assert!(links(&mut db).await.is_empty());
        assert_eq!(complete(&mut db, cleanup_orphaned_extras()).await, 0);
    });
}

#[test]
fn owner_id_relationships_are_repaired_like_upstream() {
    run(async {
        let mut db = database().await;
        let (keeper, dup, movie, owned_movie, extra, primary, alt) =
            (id(1), id(2), id(3), id(4), id(5), id(6), id(7));
        for item in [keeper, dup, movie, owned_movie, primary, alt] {
            seed(&mut db, item, "Movie", "M").await;
        }
        seed(&mut db, extra, "Trailer", "T").await;
        set(&mut db, keeper, "Path", "/m/same.mkv").await;
        set(&mut db, dup, "Path", "/m/same.mkv").await;
        set(&mut db, extra, "ParentId", &guid_to_db(keeper)).await;
        set(&mut db, owned_movie, "OwnerId", &guid_to_db(movie)).await;
        set(&mut db, movie, "Path", "/m/film/film.mkv").await;
        set(&mut db, extra, "Path", "/m/film/trailer.mkv").await;
        set(&mut db, extra, "OwnerId", &guid_to_db(id(99))).await;
        set(&mut db, extra, "ExtraType", "1").await;
        exec(
            &mut db,
            r#"INSERT INTO "LinkedChildren" VALUES (?1, 0, ?2, 3)"#,
            &[&guid_to_db(primary), &guid_to_db(alt)],
        )
        .await;

        let touched = complete(&mut db, fix_owner_id_relationships(&types())).await;
        assert!(touched >= 4, "{touched}");
        assert_eq!(touched, 4);
        assert!(is_stored(&mut db, keeper).await && !is_stored(&mut db, dup).await);
        assert_eq!(column(&mut db, owned_movie, "OwnerId").await, None);
        assert_eq!(column(&mut db, extra, "OwnerId").await, Some(guid_to_db(movie)));
        assert_eq!(column(&mut db, alt, "PrimaryVersionId").await, Some(guid_to_db(primary)));
        assert_eq!(complete(&mut db, fix_owner_id_relationships(&types())).await, 0);
    });
}

#[test]
fn orphaned_extras_without_a_video_or_a_directory_lose_their_owner() {
    run(async {
        let mut db = database().await;
        let (pathless, alone, movie) = (id(1), id(2), id(3));
        for item in [pathless, alone] {
            seed(&mut db, item, "Trailer", "T").await;
            set(&mut db, item, "ExtraType", "1").await;
            set(&mut db, item, "OwnerId", "gone").await;
        }
        seed(&mut db, movie, "Movie", "M").await;
        set(&mut db, movie, "Path", "/m/filmX1/film.mkv").await;
        set(&mut db, alone, "Path", "/m/film_1/trailer.mkv").await;
        assert_eq!(complete(&mut db, fix_owner_id_relationships(&types())).await, 2);
        assert_eq!(column(&mut db, pathless, "OwnerId").await, None);
        assert_eq!(column(&mut db, alone, "OwnerId").await, None);
    });
}

#[test]
fn extra_is_not_given_a_film_of_a_directory_that_only_resembles_its_own() {
    run(async {
        let mut db = database().await;
        let (extra, film) = (id(1), id(2));
        seed(&mut db, extra, "Trailer", "T").await;
        set(&mut db, extra, "Path", "/m/a_b/trailer.mkv").await;
        set(&mut db, extra, "ExtraType", "1").await;
        set(&mut db, extra, "OwnerId", "gone").await;
        seed(&mut db, film, "Movie", "M").await;
        set(&mut db, film, "Path", "/m/axb/film.mkv").await;
        assert_eq!(complete(&mut db, fix_owner_id_relationships(&types())).await, 1);
        assert_eq!(column(&mut db, extra, "OwnerId").await, None);
        assert_eq!(column(&mut db, film, "Path").await.as_deref(), Some("/m/axb/film.mkv"));
        assert_eq!(column(&mut db, film, "OwnerId").await, None);
    });
}

#[test]
fn orphan_is_searched_in_the_directory_of_its_path() {
    for (path, directory) in [
        ("/m/film/trailer.mkv", "/m/film"),
        ("/m/a_b/trailer.mkv", "/m/a_b"),
        ("/m/A.B./trailer.mkv", "/m/A.B."),
        ("/m/Film: Part 2/trailer.mkv", "/m/Film: Part 2"),
        ("/m/film/trailer: one.mkv", "/m/film"),
        ("/a:b", "/"),
        ("/m//film/trailer.mkv", "/m//film"),
        ("m/trailer.mkv", "m"),
        ("/m/..", "/m"),
        ("/trailer.mkv", "/"),
        ("trailer.mkv", ""),
    ] {
        let repair = FixOwners {
            folder: "Folder".to_owned(),
            stage: OwnersStage::Orphans { folded: 0, released: 0 },
        };
        let row = OrphanedExtra { id: "e".to_owned(), path: Some(path.to_owned()) };
        let (repair, block) = repair.answer(Reply::OrphanedExtras(vec![row]));
        match block.as_slice() {
            [Request::FindVideoUnder(asked)] => assert_eq!(asked, directory, "{path}"),
            other => panic!("{path}: {other:?}"),
        }
        let (_, block) = repair.answer(Reply::Item(Some("film".to_owned())));
        match &block[0] {
            Request::SetOwner { item, owner } => {
                assert_eq!(item, "e");
                assert_eq!(owner.as_deref(), Some("film"));
            }
            other => panic!("{path}: {other:?}"),
        }
    }
}

#[test]
fn shared_paths_keep_children_then_extras_then_no_folder_then_newest() {
    run(async {
        let mut db = database().await;
        for (n, kind, path, created) in [
            (1_u128, "Movie", "/a", "2020"),
            (2, "Movie", "/a", "2021"),
            (3, "Folder", "/b", "2021"),
            (4, "Movie", "/b", "2020"),
            (5, "Movie", "/c", "2021"),
            (6, "Movie", "/c", "2020"),
        ] {
            seed(&mut db, id(n), kind, "M").await;
            set(&mut db, id(n), "Path", path).await;
            set(&mut db, id(n), "DateCreated", created).await;
        }
        seed(&mut db, id(7), "Trailer", "T").await;
        set(&mut db, id(7), "OwnerId", &guid_to_db(id(6))).await;
        assert_eq!(complete(&mut db, fix_owner_id_relationships(&types())).await, 3);
        for (n, kept) in [(1_u128, false), (2, true), (3, false), (4, true), (5, false), (6, true)] {
            assert_eq!(is_stored(&mut db, id(n)).await, kept, "{n}");
        }
    });
}

#[test]
fn version_links_are_backfilled_from_primary_version_id_once() {
    run(async {
        let mut db = database().await;
        let (primary, local, linked, already) = (id(1), id(2), id(3), id(4));
        for item in [primary, local, linked, already] {
            seed(&mut db, item, "Movie", "M").await;
        }
        set(&mut db, primary, "Path", "/m/film/film 1080p.mkv").await;
        set(&mut db, local, "Path", "/m/film/film 2160p.mkv").await;
        set(&mut db, linked, "Path", "/m/other/film.mkv").await;
        for item in [local, linked, already] {
            set(&mut db, item, "PrimaryVersionId", &guid_to_db(primary)).await;
        }
        exec(
            &mut db,
            r#"INSERT INTO "LinkedChildren" VALUES (?1, 0, ?2, 3)"#,
            &[&guid_to_db(primary), &guid_to_db(already)],
        )
        .await;
        exec(
            &mut db,
            r#"INSERT INTO "BaseItems" ("Id", "Type", "PrimaryVersionId") VALUES ('no uuid', 'Movie', ?1)"#,
            &[&guid_to_db(primary)],
        )
        .await;
        assert_eq!(complete(&mut db, backfill_alternate_version_links()).await, 2);
        let mut got: Vec<(String, i64)> =
            links(&mut db).await.into_iter().map(|(_, child, kind, _)| (child, kind)).collect();
        got.sort();
        let mut want =
            vec![(guid_to_db(already), 3), (guid_to_db(local), 2), (guid_to_db(linked), 3)];
        want.sort();
        assert_eq!(got, want);
        assert_eq!(complete(&mut db, backfill_alternate_version_links()).await, 0);
    });
}

#[test]
fn case_only_duplicate_artists_fold_onto_the_keeper_once() {
    run(async {
        let mut db = database().await;
        let (keeper, dup, album) = (id(1), id(2), id(3));
        seed(&mut db, keeper, "MusicArtist", "Gojira").await;
        seed(&mut db, dup, "MusicArtist", "GOJIRA").await;
        seed(&mut db, album, "MusicAlbum", "Magma").await;
        set(&mut db, album, "ParentId", &guid_to_db(keeper)).await;
        for (item, key) in [(dup, "a"), (dup, "b"), (keeper, "a")] {
            exec(
                &mut db,
                r#"INSERT INTO "UserData" VALUES ('listener', ?1, ?2)"#,
                &[&guid_to_db(item), key],
            )
            .await;
        }
        assert_eq!(complete(&mut db, merge_duplicate_music_artists()).await, 1);
        assert!(is_stored(&mut db, keeper).await && !is_stored(&mut db, dup).await);
        let keys: Vec<String> = sqlx::query_scalar(
            r#"SELECT "CustomDataKey" FROM "UserData" WHERE "ItemId" = ?1 ORDER BY 1"#,
        )
        .bind(guid_to_db(keeper))
        .fetch_all(&mut db)
        .await
        .expect("keys");
        assert_eq!(keys, vec!["a".to_owned(), "b".to_owned()], "keeper's row wins a collision");
        assert_eq!(complete(&mut db, merge_duplicate_music_artists()).await, 0);
    });
}

#[test]
fn every_reference_moves_from_the_duplicate_to_the_oldest_artist() {
    run(async {
        let mut db = database().await;
        let (new, old, other) = (id(1), id(2), id(3));
        seed(&mut db, new, "MusicArtist", "ÉLODIE").await;
        seed(&mut db, old, "MusicArtist", "élodie").await;
        seed(&mut db, other, "MusicArtist", "Elodie").await;
        set(&mut db, new, "DateCreated", "2021").await;
        set(&mut db, old, "DateCreated", "2020").await;
        for (n, owner) in [(10_u128, new), (11, old)] {
            seed(&mut db, id(n), "Trailer", "T").await;
            set(&mut db, id(n), "OwnerId", &guid_to_db(owner)).await;
        }
        // One link and one descendant each, so that age decides; one shared.
        for (artist, child) in [(new, "c1"), (old, "c1")] {
            let artist = guid_to_db(artist);
            exec(&mut db, r#"INSERT INTO "AncestorIds" VALUES (?2, ?1)"#, &[&artist, child]).await;
            exec(
                &mut db,
                r#"INSERT INTO "LinkedChildren" VALUES (?1, 0, ?2, 0)"#,
                &[&artist, child],
            )
            .await;
        }
        assert_eq!(complete(&mut db, merge_duplicate_music_artists()).await, 1);
        assert!(!is_stored(&mut db, new).await && is_stored(&mut db, old).await);
        assert!(is_stored(&mut db, other).await, "diacritics are not folded");
        assert_eq!(column(&mut db, id(10), "OwnerId").await, Some(guid_to_db(old)));
        assert_eq!(number(&mut db, r#"SELECT COUNT(*) FROM "AncestorIds""#).await, 1);
        assert_eq!(links(&mut db).await.len(), 1);
    });
}

#[test]
fn case_only_duplicate_people_rows_fold_their_map_entries() {
    run(async {
        let mut db = database().await;
        let movie = guid_to_db(id(1));
        seed(&mut db, id(1), "Movie", "M").await;
        let (keeper, dup) = (guid_to_db(id(2)), guid_to_db(id(3)));
        for (person, name) in [(&keeper, "Alice Parity"), (&dup, "alice parity")] {
            exec(&mut db, r#"INSERT INTO "Peoples" VALUES (?1, ?2, 'Actor')"#, &[person, name]).await;
        }
        for (person, role) in [(&keeper, "Lead"), (&dup, "Lead"), (&dup, "Cameo")] {
            exec(
                &mut db,
                r#"INSERT INTO "PeopleBaseItemMap" VALUES (?1, ?2, ?3)"#,
                &[&movie, person, role],
            )
            .await;
        }
        assert_eq!(complete(&mut db, merge_duplicate_people()).await, 1);
        let roles: Vec<(String, String)> =
            sqlx::query_as(r#"SELECT "PeopleId", "Role" FROM "PeopleBaseItemMap" ORDER BY "Role""#)
                .fetch_all(&mut db)
                .await
                .expect("roles");
        assert_eq!(
            roles,
            vec![(dup.clone(), "Cameo".to_owned()), (dup.clone(), "Lead".to_owned())]
        );
        assert_eq!(number(&mut db, r#"SELECT COUNT(*) FROM "Peoples""#).await, 1);
        assert_eq!(complete(&mut db, merge_duplicate_people()).await, 0);
    });
}

#[test]
fn people_of_different_types_are_not_folded() {
    run(async {
        let mut db = database().await;
        for (person, name, kind) in
            [("a", "Bob", "Actor"), ("b", "BOB", "Director"), ("c", "bob", "Actor")]
        {
            exec(&mut db, r#"INSERT INTO "Peoples" VALUES (?1, ?2, ?3)"#, &[person, name, kind]).await;
        }
        seed(&mut db, id(1), "Person", "Bob").await;
        seed(&mut db, id(2), "Person", "BOB").await;
        exec(&mut db, r#"INSERT INTO "UserData" VALUES ('u', ?1, 'k')"#, &[&guid_to_db(id(2))]).await;
        assert_eq!(complete(&mut db, merge_duplicate_people()).await, 2);
        assert!(!is_stored(&mut db, id(1)).await && is_stored(&mut db, id(2)).await);
        let left: Vec<String> = sqlx::query_scalar(r#"SELECT "Id" FROM "Peoples" ORDER BY 1"#)
            .fetch_all(&mut db)
            .await
            .expect("people");
        assert_eq!(left, vec!["a".to_owned(), "b".to_owned()]);
    });
}

#[test]
fn boot_runs_every_repair_in_order_and_again_does_nothing() {
    run(async {
        let mut db = database().await;
        seed(&mut db, id(1), "Trailer", "T").await;
        set(&mut db, id(1), "OwnerId", PLACEHOLDER_ID).await;
        seed(&mut db, id(2), "Person", "Bob").await;
        seed(&mut db, id(3), "Person", "BOB").await;
        for expected in [
            vec![(BootStage::Extras, 1_usize), (BootStage::People, 1)],
            Vec::new(),
        ] {
            let mut boot = run_all(types());
            let mut reply = Reply::Done;
            let mut reports = Vec::new();
            loop {
                let (next, request) = boot.step(reply);
                match request {
                    BootRequest::Ask(request) => reply = perform(&mut db, &request).await,
                    BootRequest::Report { stage, changed } => {
                        assert!(!stage.report().is_empty());
                        reports.push((stage, changed));
                        reply = Reply::Done;
                    }
                    BootRequest::Complete => break,
                    BootRequest::Failed => panic!("failed"),
                }
                boot = next;
            }
            assert_eq!(reports, expected);
        }
        assert_eq!(number(&mut db, r#"SELECT COUNT(*) FROM "FerrofinMeta""#).await, 5);
    });
}

#[test]
fn reply_to_another_request_is_rejected() {
    let (repair, first) = cleanup_orphaned_extras().step(Reply::Done);
    assert!(matches!(first, Request::ReadMarker(_)));
    let (_, request) = repair.step(Reply::Found(true));
    assert!(matches!(request, Request::Reject));
}

// --- user names ------------------------------------------------------------

fn upper(name: &str) -> String {
    name.chars()
        .map(|c| {
            let mut mapped = c.to_uppercase();
            match (c, mapped.next(), mapped.next()) {
                ('ı', _, _) => c,
                (_, Some(single), None) => single,
                _ => c,
            }
        })
        .collect()
}

async fn accounts(has_column: bool) -> SqliteConnection {
    let mut db = SqliteConnection::connect("sqlite::memory:").await.expect("connect");
    sqlx::raw_sql(
        r#"
        CREATE TABLE "FerrofinMeta" ("Key" TEXT PRIMARY KEY, "Value" TEXT NOT NULL);
        CREATE TABLE "Users" ("Id" TEXT PRIMARY KEY, "Username" TEXT UNIQUE,
            "Password" TEXT, "Permission" INTEGER);
        INSERT INTO "Users" VALUES ('a', 'münchen', 'password-hash-a', 1),
            ('b', 'ı', 'password-hash-b', 0);
        "#,
    )
    .execute(&mut db)
    .await
    .expect("schema");
    if has_column {
        sqlx::raw_sql(
            r#"
            ALTER TABLE "Users" ADD COLUMN "NormalizedUsername" TEXT NOT NULL DEFAULT '';
            UPDATE "Users" SET "NormalizedUsername" = upper("Username");
            CREATE UNIQUE INDEX "IX_Users_NormalizedUsername" ON "Users" ("NormalizedUsername");
            "#,
        )
        .execute(&mut db)
        .await
        .expect("column");
    }
    db
}

#[derive(Debug)]
enum Failure {
    Collision(String, String),
    Database,
}

async fn migrate(db: &mut SqliteConnection) -> Result<(), Failure> {
    let mut migration = usernames::migrate();
    let mut reply = usernames::Reply::Done;
    loop {
        let (next, request) = migration.step(reply);
        migration = next;
        let done = match &request {
            usernames::Request::Finish => return Ok(()),
            usernames::Request::Collision { first, second } => {
                return Err(Failure::Collision(first.1.clone(), second.1.clone()));
            }
            usernames::Request::Reject => panic!("rejected"),
            usernames::Request::Begin => sqlx::query("BEGIN").execute(&mut *db).await,
            usernames::Request::Commit => sqlx::query("COMMIT").execute(&mut *db).await,
            usernames::Request::Rollback => sqlx::query("ROLLBACK").execute(&mut *db).await,
            usernames::Request::ReadMarker => {
                let value = sqlx::query_scalar(usernames::READ_MARKER)
                    .bind(usernames::MARKER)
                    .fetch_optional(&mut *db)
                    .await
                    .expect("marker");
                reply = usernames::Reply::Marker(value);
                continue;
            }
            usernames::Request::SelectUsers => {
                let rows: Vec<(String, String)> =
                    sqlx::query_as(usernames::SELECT_USERS).fetch_all(&mut *db).await.expect("users");
                reply = usernames::Reply::Users(
                    rows.into_iter()
                        .map(|(id, name)| {
                            let key = upper(&name);
                            usernames::UserRow { id, name, key }
                        })
                        .collect(),
                );
                continue;
            }
            usernames::Request::FindColumn => {
                let found: Option<i64> = sqlx::query_scalar(usernames::FIND_COLUMN)
                    .fetch_optional(&mut *db)
                    .await
                    .expect("column");
                reply = usernames::Reply::Found(found.is_some());
                continue;
            }
            usernames::Request::UpdateKey { id, key } => {
                sqlx::query(usernames::UPDATE_KEY)
                    .bind(id.clone())
                    .bind(key.clone())
                    .execute(&mut *db)
                    .await
            }
            usernames::Request::WriteMarker => {
                sqlx::query(usernames::WRITE_MARKER)
                    .bind(usernames::MARKER)
                    .execute(&mut *db)
                    .await
            }
            other => sqlx::query(other.sql().expect("statement")).execute(&mut *db).await,
        };
        if done.is_err() {
            sqlx::query("ROLLBACK").execute(&mut *db).await.expect("rollback");
            return Err(Failure::Database);
        }
        reply = usernames::Reply::Done;
    }
}

async fn schema(db: &mut SqliteConnection) -> Vec<(String, Option<String>)> {
    sqlx::query_as("SELECT name, sql FROM sqlite_master ORDER BY name")
        .fetch_all(db)
        .await
        .expect("schema")
}

#[test]
fn migration_preserves_accounts_and_enforces_unicode_uniqueness() {
    for has_column in [false, true] {
        run(async {
            let mut db = accounts(has_column).await;
            migrate(&mut db).await.expect("migrate");
            let rows: Vec<(String, String, String, String, i64)> = sqlx::query_as(
                r#"SELECT "Id", "Username", "NormalizedUsername", "Password", "Permission" FROM "Users" ORDER BY "Id""#,
            )
            .fetch_all(&mut db)
            .await
            .expect("rows");
            assert_eq!(
                rows,
                vec![
                    ("a".into(), "münchen".into(), "MÜNCHEN".into(), "password-hash-a".into(), 1),
                    ("b".into(), "ı".into(), "ı".into(), "password-hash-b".into(), 0),
                ]
            );
            let duplicate = sqlx::query(r#"INSERT INTO "Users" ("Id", "Username", "NormalizedUsername") VALUES ('c', 'MÜNCHEN', 'MÜNCHEN')"#)
                .execute(&mut db)
                .await
                .expect_err("duplicate");
            assert!(duplicate.as_database_error().expect("database").is_unique_violation());
            migrate(&mut db).await.expect("again");
            assert_eq!(number(&mut db, "SELECT COUNT(*) FROM FerrofinMeta").await, 1);
        });
    }
}

#[test]
fn failed_backfill_rolls_back_schema_index_and_completion() {
    for has_column in [false, true] {
        run(async {
            let mut db = accounts(has_column).await;
            exec(
                &mut db,
                "CREATE TRIGGER fail_backfill BEFORE UPDATE ON Users BEGIN SELECT RAISE(ABORT, 'injected failure'); END",
                &[],
            )
            .await;
            let before = schema(&mut db).await;
            assert!(migrate(&mut db).await.is_err());
            assert_eq!(schema(&mut db).await, before);
            assert_eq!(number(&mut db, "SELECT COUNT(*) FROM FerrofinMeta").await, 0);
            exec(&mut db, "DROP TRIGGER fail_backfill", &[]).await;
            migrate(&mut db).await.expect("retry");
        });
    }
}

#[test]
fn collisions_leave_username_schema_values_and_marker_untouched() {
    for has_column in [false, true] {
        run(async {
            let mut db = accounts(has_column).await;
            exec(&mut db, "UPDATE Users SET Username = 'MÜNCHEN' WHERE Id = 'b'", &[]).await;
            let before = schema(&mut db).await;
            match migrate(&mut db).await {
                Err(Failure::Collision(first, second)) => {
                    assert_eq!(first, "münchen");
                    assert_eq!(second, "MÜNCHEN");
                }
                other => panic!("{other:?}"),
            }
            assert_eq!(schema(&mut db).await, before);
            assert_eq!(number(&mut db, "SELECT COUNT(*) FROM FerrofinMeta").await, 0);
            if has_column {
                let key: String =
                    sqlx::query_scalar("SELECT NormalizedUsername FROM Users WHERE Id = 'a'")
                        .fetch_one(&mut db)
                        .await
                        .expect("key");
                assert_eq!(key, "MüNCHEN");
            }
            // After the operator resolves the conflict, migration retries normally.
            exec(&mut db, "UPDATE Users SET Username = 'different' WHERE Id = 'b'", &[]).await;
            migrate(&mut db).await.expect("retry");
        });
    }
}
