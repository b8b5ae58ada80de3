use repository_engine::database::item::{DbItem, ItemSearchData, ItemSearchRepositoryField, Trash};
use repository_engine::database::object::Object;
use repository_engine::database::repository::DbRepository;
use repository_engine::database::stats::RepositoryContributorStats;
use repository_engine::database::subscription::{Subscription, SubscriptionAccessType};
use repository_engine::database::Database;
use repository_engine::error::Error;
use repository_engine::types::database_ids::{DatabaseIdTrait, ItemId, ObjectId, RepositoryId, UserId};
use repository_engine::types::enc_path::EncPath;
use repository_engine::types::enc_string::EncString;
use repository_engine::types::item::{DirectoryData, FileData, Item};
use repository_engine::types::repository::{Repository, RepositoryStatus};

fn repository(db: &mut Database, name: &str, owner: i64, status: RepositoryStatus) -> Repository {
    let mut r = Repository::new(EncString::encode(name), EncString::encode(name), UserId(owner), status);
    DbRepository::push(&mut r, db).unwrap();
    r
}

fn directory(db: &mut Database, r: &Repository, owner: i64, name: &str, parent: Option<ItemId>) -> Item {
    let mut item = Item::new(
        *r.id(),
        UserId(owner),
        EncString::encode(name),
        None,
        parent,
        false,
        Some(DirectoryData::default()),
        None,
    );
    DbItem::push(&mut item, db).unwrap();
    item
}

fn file_with(
    db: &mut Database,
    r: &Repository,
    owner: i64,
    name: &str,
    parent: Option<ItemId>,
    size: i64,
    mimetype: &str,
    timestamp: i64,
    object: ObjectId,
) -> Item {
    let mut item = Item::new(
        *r.id(),
        UserId(owner),
        EncString::encode(name),
        None,
        parent,
        false,
        None,
        Some(FileData { size, mimetype: EncString::encode(mimetype), timestamp, object }),
    );
    DbItem::push(&mut item, db).unwrap();
    item
}

fn file(db: &mut Database, r: &Repository, owner: i64, name: &str, parent: Option<ItemId>, size: i64, hash: &str) -> Item {
    let object = Object::insert(db, "upload", &hash.to_string()).unwrap();
    file_with(db, r, owner, name, parent, size, "text/plain", 10, *object.id())
}

fn keys(items: &[Item]) -> Vec<i64> {
    items.iter().map(|i| i.id().value()).collect()
}

#[test]
fn repository_life_from_first_file_to_delete() {
    let mut db = Database::new("files".to_string());
    let r = repository(&mut db, "r", 1, RepositoryStatus::Private);
    let d = directory(&mut db, &r, 1, "D", None);
    let f = file(&mut db, &r, 1, "F", Some(*d.id()), 100, "H");
    let object = f.file.as_ref().unwrap().object;
    let stats = DbRepository::stats(&r, &db).unwrap();
    assert_eq!(stats.items, 1);
    assert_eq!(stats.directories, 1);
    assert_eq!(stats.size, 100);
    assert_eq!(stats.trash_items, 0);
    assert_eq!(stats.trash_directories, 0);
    assert_eq!(stats.trash_size, 0);
    assert_eq!(stats.contributors, vec![RepositoryContributorStats { id: UserId(1), count: 2 }]);
    assert_eq!(stats.extensions.len(), 1);
    assert_eq!(stats.extensions[0].mimetype.encoded().as_str(), "text%2Fplain");
    assert_eq!(stats.extensions[0].count, 1);

    DbItem::set_in_trash(&d, &mut db, true).unwrap();
    let roots = DbItem::repository_trash_root(&db, r.id()).unwrap();
    assert_eq!(keys(&roots), vec![d.id().value()]);
    let stats = DbRepository::stats(&r, &db).unwrap();
    assert_eq!((stats.items, stats.directories, stats.size), (0, 0, 0));
    assert_eq!((stats.trash_items, stats.trash_directories, stats.trash_size), (1, 1, 100));

    DbItem::delete(&d, &mut db).unwrap();
    let stats = DbRepository::stats(&r, &db).unwrap();
    assert_eq!((stats.items, stats.directories, stats.size), (0, 0, 0));
    assert_eq!((stats.trash_items, stats.trash_directories, stats.trash_size), (0, 0, 0));
    assert!(stats.contributors.is_empty());
    assert!(stats.extensions.is_empty());
    assert_eq!(Object::from_id(&db, &object).err(), Some(Error::NotFound));
    assert!(Object::from_hash(&db, &"H".to_string()).unwrap().is_empty());
}

#[test]
fn stats_of_a_repository_without_items_are_zero() {
    let mut db = Database::new("files".to_string());
    let r = repository(&mut db, "empty", 1, RepositoryStatus::Public);
    let other = repository(&mut db, "other", 2, RepositoryStatus::Public);
    file(&mut db, &other, 2, "x", None, 50, "X");
    let stats = DbRepository::stats(&r, &db).unwrap();
    assert_eq!(stats.items, 0);
    assert_eq!(stats.directories, 0);
    assert_eq!(stats.size, 0);
    assert_eq!(stats.trash_items, 0);
    assert_eq!(stats.trash_directories, 0);
    assert_eq!(stats.trash_size, 0);
    assert!(stats.contributors.is_empty());
    assert!(stats.extensions.is_empty());
}

#[test]
fn stats_count_by_owner_and_media_type() {
    let mut db = Database::new("files".to_string());
    let r = repository(&mut db, "r", 1, RepositoryStatus::Private);
    let o = *Object::insert(&mut db, "u", &"h".to_string()).unwrap().id();
    file_with(&mut db, &r, 1, "a.txt", None, 10, "text/plain", 1, o);
    file_with(&mut db, &r, 2, "b.png", None, 20, "image/png", 2, o);
    file_with(&mut db, &r, 2, "c.txt", None, 30, "text/plain", 3, o);
    let d = directory(&mut db, &r, 3, "d", None);
    let t = file_with(&mut db, &r, 1, "t.txt", Some(*d.id()), -5, "text/plain", 4, o);
    DbItem::set_in_trash(&t, &mut db, true).unwrap();
    let stats = DbRepository::stats(&r, &db).unwrap();
    assert_eq!(stats.items, 3);
    assert_eq!(stats.size, 60);
    assert_eq!(stats.directories, 1);
    assert_eq!(stats.trash_items, 1);
    assert_eq!(stats.trash_size, 0);
    assert_eq!(
        stats.contributors,
        vec![
            RepositoryContributorStats { id: UserId(1), count: 2 },
            RepositoryContributorStats { id: UserId(2), count: 2 },
            RepositoryContributorStats { id: UserId(3), count: 1 },
        ]
    );
    let extensions: Vec<(String, i64)> =
        stats.extensions.iter().map(|e| (e.mimetype.plain().unwrap(), e.count)).collect();
    assert_eq!(extensions, vec![("text/plain".to_string(), 3), ("image/png".to_string(), 1)]);
}

#[test]
fn key_is_stable_across_loads() {
    let mut db = Database::new("files".to_string());
    let r = repository(&mut db, "r", 1, RepositoryStatus::Private);
    let d = directory(&mut db, &r, 1, "d", None);
    let key = *d.id();
    assert!(key.is_valid());
    for _ in 0..3 {
        assert_eq!(*DbItem::from_id(&db, &key, Trash::Both).unwrap().id(), key);
    }
    directory(&mut db, &r, 1, "e", None);
    assert_eq!(*DbItem::from_id(&db, &key, Trash::Both).unwrap().id(), key);
    assert_eq!(*DbRepository::from_id(&db, r.id()).unwrap().id(), *r.id());
    let mut again = DbItem::from_id(&db, &key, Trash::Both).unwrap();
    assert_eq!(again.set_id(ItemId(77)), Err(Error::InvalidArgument));
    assert_eq!(*again.id(), key);
}

#[test]
fn push_with_a_key_replaces_the_row_and_keeps_its_repository() {
    let mut db = Database::new("files".to_string());
    let r = repository(&mut db, "r", 1, RepositoryStatus::Private);
    let other = repository(&mut db, "other", 1, RepositoryStatus::Private);
    let d = directory(&mut db, &r, 1, "d", None);
    let mut changed = DbItem::from_id(&db, d.id(), Trash::Both).unwrap();
    changed.name = EncString::encode("renamed");
    changed.repository = *other.id();
    changed.in_trash = true;
    DbItem::push(&mut changed, &mut db).unwrap();
    let read = DbItem::from_id(&db, d.id(), Trash::Yes).unwrap();
    assert_eq!(read.name.encoded().as_str(), "renamed");
    assert_eq!(read.repository, *r.id());
    assert_eq!(DbItem::from_repository(&db, r.id(), Trash::Both).unwrap().len(), 1);
    assert_eq!(DbItem::from_id(&db, d.id(), Trash::No).err(), Some(Error::NotFound));
}

#[test]
fn push_with_an_unknown_key_inserts_under_that_key() {
    let mut db = Database::new("files".to_string());
    let r = repository(&mut db, "r", 1, RepositoryStatus::Private);
    let mut item = Item::new(*r.id(), UserId(1), EncString::encode("x"), None, None, false, Some(DirectoryData::default()), None);
    item.set_id(ItemId(40)).unwrap();
    DbItem::push(&mut item, &mut db).unwrap();
    assert_eq!(*DbItem::from_id(&db, &ItemId(40), Trash::Both).unwrap().id(), ItemId(40));
    let next = directory(&mut db, &r, 1, "y", None);
    assert_eq!(next.id().value(), 41);
}

#[test]
fn a_file_is_stored_without_directory_data() {
    let mut db = Database::new("files".to_string());
    let r = repository(&mut db, "r", 1, RepositoryStatus::Private);
    let mut item = Item::new(
        *r.id(),
        UserId(1),
        EncString::encode("both"),
        None,
        None,
        false,
        Some(DirectoryData::default()),
        Some(FileData { size: 1, mimetype: EncString::encode("a/b"), timestamp: 0, object: ObjectId(9) }),
    );
    DbItem::push(&mut item, &mut db).unwrap();
    let read = DbItem::from_id(&db, item.id(), Trash::Both).unwrap();
    assert!(read.file.is_some());
    assert!(read.directory.is_none());
}

#[test]
fn reads_by_path_parent_owner_object_and_root() {
    let mut db = Database::new("files".to_string());
    let r = repository(&mut db, "r", 1, RepositoryStatus::Private);
    let s = repository(&mut db, "s", 2, RepositoryStatus::Private);
    let d = directory(&mut db, &r, 1, "docs", None);
    let e = directory(&mut db, &r, 1, "sub dir", Some(*d.id()));
    let f = file(&mut db, &r, 2, "a.txt", Some(*e.id()), 3, "A");
    let g = file(&mut db, &s, 2, "a.txt", None, 4, "B");
    let path = EncPath::parse("/docs/sub%20dir/a.txt").unwrap();
    assert_eq!(*DbItem::from_path(&db, &path, r.id(), Trash::Both).unwrap().id(), *f.id());
    assert_eq!(DbItem::from_path(&db, &path, s.id(), Trash::Both).err(), Some(Error::NotFound));
    let read = DbItem::from_id(&db, f.id(), Trash::Both).unwrap();
    assert_eq!(read.absolute_path.plain().unwrap(), "/docs/sub dir/a.txt");
    assert_eq!(keys(&DbItem::from_parent(&db, d.id(), Trash::Both).unwrap()), vec![e.id().value()]);
    assert_eq!(keys(&DbItem::from_user(&db, &UserId(2), Trash::Both).unwrap()), vec![f.id().value(), g.id().value()]);
    assert_eq!(keys(&DbItem::from_object(&db, &f.file.as_ref().unwrap().object, Trash::Both).unwrap()), vec![f.id().value()]);
    assert_eq!(keys(&DbItem::repository_root(&db, r.id(), Trash::Both).unwrap()), vec![d.id().value()]);
    assert_eq!(keys(&DbItem::repository_root(&db, s.id(), Trash::No).unwrap()), vec![g.id().value()]);
    assert!(DbItem::repository_root(&db, s.id(), Trash::Yes).unwrap().is_empty());
    assert_eq!(keys(&DbItem::from_repository(&db, r.id(), Trash::No).unwrap()).len(), 3);
}

#[test]
fn two_items_at_one_path_are_inconsistent() {
    let mut db = Database::new("files".to_string());
    let r = repository(&mut db, "r", 1, RepositoryStatus::Private);
    directory(&mut db, &r, 1, "same", None);
    directory(&mut db, &r, 1, "same", None);
    let path = EncPath::parse("/same").unwrap();
    assert_eq!(DbItem::from_path(&db, &path, r.id(), Trash::Both).err(), Some(Error::Inconsistent));
}

#[test]
fn directory_figures_are_computed_on_read() {
    let mut db = Database::new("files".to_string());
    let r = repository(&mut db, "r", 1, RepositoryStatus::Private);
    let d = directory(&mut db, &r, 1, "d", None);
    file(&mut db, &r, 1, "a", Some(*d.id()), 7, "A");
    file(&mut db, &r, 1, "b", Some(*d.id()), 8, "B");
    let e = directory(&mut db, &r, 1, "e", Some(*d.id()));
    file(&mut db, &r, 1, "deep", Some(*e.id()), 100, "C");
    let read = DbItem::from_id(&db, d.id(), Trash::Both).unwrap();
    assert_eq!(read.directory, Some(DirectoryData { open_upload: false, num_items: 3, content_size: 15 }));
}

#[test]
fn trash_roots_stop_at_the_boundary() {
    let mut db = Database::new("files".to_string());
    let r = repository(&mut db, "r", 1, RepositoryStatus::Private);
    let a = directory(&mut db, &r, 1, "a", None);
    let b = directory(&mut db, &r, 1, "b", Some(*a.id()));
    let c = file(&mut db, &r, 1, "c", Some(*b.id()), 1, "C");
    assert!(DbItem::repository_trash_root(&db, r.id()).unwrap().is_empty());
    DbItem::set_in_trash(&a, &mut db, true).unwrap();
    assert_eq!(keys(&DbItem::repository_trash_root(&db, r.id()).unwrap()), vec![a.id().value()]);
    assert_eq!(keys(&DbItem::from_repository(&db, r.id(), Trash::Yes).unwrap()).len(), 3);
    DbItem::set_in_trash(&a, &mut db, false).unwrap();
    assert!(DbItem::from_repository(&db, r.id(), Trash::Yes).unwrap().is_empty());
    DbItem::set_in_trash(&b, &mut db, true).unwrap();
    assert_eq!(keys(&DbItem::repository_trash_root(&db, r.id()).unwrap()), vec![b.id().value()]);
    assert!(DbItem::from_id(&db, c.id(), Trash::Yes).is_ok());
    assert!(DbItem::from_id(&db, a.id(), Trash::No).is_ok());
}

#[test]
fn delete_of_what_is_gone_changes_nothing() {
    let mut db = Database::new("files".to_string());
    let r = repository(&mut db, "r", 1, RepositoryStatus::Private);
    let d = directory(&mut db, &r, 1, "d", None);
    let keep = file(&mut db, &r, 1, "keep", None, 1, "K");
    DbItem::delete(&d, &mut db).unwrap();
    DbItem::delete(&d, &mut db).unwrap();
    assert_eq!(keys(&DbItem::from_repository(&db, r.id(), Trash::Both).unwrap()), vec![keep.id().value()]);
    assert_eq!(Object::from_hash(&db, &"K".to_string()).unwrap().len(), 1);
}

#[test]
fn deleting_a_repository_takes_items_objects_and_subscriptions() {
    let mut db = Database::new("files".to_string());
    let r = repository(&mut db, "r", 1, RepositoryStatus::Private);
    let s = repository(&mut db, "s", 1, RepositoryStatus::Private);
    let d = directory(&mut db, &r, 1, "d", None);
    let f = file(&mut db, &r, 1, "f", Some(*d.id()), 1, "F");
    let shared = f.file.as_ref().unwrap().object;
    let own = file(&mut db, &r, 1, "own", None, 1, "OWN").file.unwrap().object;
    let elsewhere = file_with(&mut db, &s, 1, "copy", None, 1, "text/plain", 0, shared);
    let trashed = directory(&mut db, &r, 1, "t", None);
    DbItem::set_in_trash(&trashed, &mut db, true).unwrap();
    Subscription { owner: UserId(2), repository: *r.id(), access_type: SubscriptionAccessType::Moderator }.push(&mut db).unwrap();
    Subscription { owner: UserId(2), repository: *s.id(), access_type: SubscriptionAccessType::ReadOnly }.push(&mut db).unwrap();
    DbRepository::delete(&r, &mut db).unwrap();
    assert_eq!(DbRepository::from_id(&db, r.id()).err(), Some(Error::NotFound));
    assert!(DbItem::from_repository(&db, r.id(), Trash::Both).unwrap().is_empty());
    assert_eq!(keys(&DbItem::from_repository(&db, s.id(), Trash::Both).unwrap()), vec![elsewhere.id().value()]);
    assert!(Object::from_id(&db, &shared).is_ok());
    assert_eq!(Object::from_id(&db, &own).err(), Some(Error::NotFound));
    assert!(Subscription::from_repository(&db, r.id()).unwrap().is_empty());
    assert_eq!(Subscription::from_user(&db, &UserId(2)).unwrap().len(), 1);
    assert!(DbRepository::from_id(&db, s.id()).is_ok());
}

#[test]
fn repositories_are_found_by_owner_name_share_and_status() {
    let mut db = Database::new("files".to_string());
    let a = repository(&mut db, "Alpha", 1, RepositoryStatus::Private);
    let b = repository(&mut db, "beta", 2, RepositoryStatus::Public);
    let c = repository(&mut db, "gamma", 1, RepositoryStatus::Hidden);
    let ids = |rows: Vec<Repository>| rows.iter().map(|r| r.id().value()).collect::<Vec<i64>>();
    assert_eq!(ids(DbRepository::from_user(&db, &UserId(1)).unwrap()), vec![a.id().value(), c.id().value()]);
    assert_eq!(ids(DbRepository::public(&db).unwrap()), vec![b.id().value()]);
    assert_eq!(*DbRepository::from_url_name(&db, &EncString::encode("alpha")).unwrap().id(), *a.id());
    assert_eq!(*DbRepository::from_url_name(&db, &EncString::encode("ALPHA")).unwrap().id(), *a.id());
    assert_eq!(DbRepository::from_url_name(&db, &EncString::encode("delta")).err(), Some(Error::NotFound));
    repository(&mut db, "BETA", 3, RepositoryStatus::Private);
    assert_eq!(DbRepository::from_url_name(&db, &EncString::encode("beta")).err(), Some(Error::Inconsistent));
    Subscription { owner: UserId(9), repository: *c.id(), access_type: SubscriptionAccessType::Contributor }.push(&mut db).unwrap();
    assert_eq!(ids(DbRepository::shared_with(&db, &UserId(9)).unwrap()), vec![c.id().value()]);
    assert!(DbRepository::shared_with(&db, &UserId(1)).unwrap().is_empty());
}

#[test]
fn repository_push_checks_the_name_and_replaces_by_key() {
    let mut db = Database::new("files".to_string());
    let mut nameless = Repository::new(EncString::encode(""), EncString::encode("x"), UserId(1), RepositoryStatus::Private);
    assert_eq!(DbRepository::push(&mut nameless, &mut db), Err(Error::InvalidArgument));
    assert!(!nameless.id().is_valid());
    let mut r = repository(&mut db, "r", 1, RepositoryStatus::Private);
    assert_eq!(r.set_id(RepositoryId(5)), Err(Error::InvalidArgument));
    r.status = RepositoryStatus::Public;
    r.allow_visitor_upload = true;
    DbRepository::push(&mut r, &mut db).unwrap();
    let read = DbRepository::from_id(&db, r.id()).unwrap();
    assert_eq!(read.status, RepositoryStatus::Public);
    assert!(read.allow_visitor_upload);
    assert_eq!(DbRepository::from_user(&db, &UserId(1)).unwrap().len(), 1);
}

#[test]
fn objects_are_kept_by_hash_without_deduplication() {
    let mut db = Database::new("files".to_string());
    let a = Object::insert(&mut db, "one", &"same".to_string()).unwrap();
    let b = Object::insert(&mut db, "two", &"same".to_string()).unwrap();
    assert_ne!(a.id(), b.id());
    assert_eq!(a.hash, "same");
    assert_eq!(Object::from_hash(&db, &"same".to_string()).unwrap().len(), 2);
    assert!(Object::from_hash(&db, &"other".to_string()).unwrap().is_empty());
    assert_eq!(Object::from_id(&db, a.id()).unwrap().hash, "same");
    assert_eq!(a.equals_to_file(&db, "one"), Ok(true));
    Object::delete_objects(&mut db, &vec![*a.id(), ObjectId(999)]).unwrap();
    Object::delete_objects(&mut db, &vec![*a.id()]).unwrap();
    assert_eq!(Object::from_id(&db, a.id()).err(), Some(Error::NotFound));
    b.delete(&mut db).unwrap();
    assert!(Object::from_hash(&db, &"same".to_string()).unwrap().is_empty());
    assert_eq!(Object::from_item(&db, &ItemId(1)).unwrap().len(), 0);
}

#[test]
fn subscriptions_are_one_for_each_user_and_repository() {
    let mut db = Database::new("files".to_string());
    let r = repository(&mut db, "r", 1, RepositoryStatus::Private);
    let mut s = Subscription { owner: UserId(2), repository: *r.id(), access_type: SubscriptionAccessType::Contributor };
    s.push(&mut db).unwrap();
    assert_eq!(s.push(&mut db), Err(Error::Upstream));
    assert_eq!(Subscription::find(&db, &UserId(2), r.id()), Ok(s));
    assert_eq!(Subscription::find(&db, &UserId(3), r.id()), Err(Error::NotFound));
    assert_eq!(Subscription::from_user(&db, &UserId(2)).unwrap(), vec![s]);
    assert_eq!(Subscription::from_repository(&db, r.id()).unwrap(), vec![s]);
    s.delete(&mut db).unwrap();
    s.delete(&mut db).unwrap();
    assert_eq!(Subscription::find(&db, &UserId(2), r.id()), Err(Error::NotFound));
}

fn search_in(repositories: Vec<ItemSearchRepositoryField>) -> ItemSearchData {
    ItemSearchData {
        repositories,
        name_filter: None,
        before: None,
        after: None,
        max_size: None,
        min_size: None,
        mime_type: None,
        owners: None,
    }
}

#[test]
fn search_without_a_repository_is_refused() {
    let db = Database::new("files".to_string());
    assert_eq!(DbItem::search(&db, search_in(vec![])).err(), Some(Error::InvalidArgument));
}

#[test]
fn search_takes_the_files_that_meet_every_condition() {
    let mut db = Database::new("files".to_string());
    let r = repository(&mut db, "r", 1, RepositoryStatus::Private);
    let s = repository(&mut db, "s", 1, RepositoryStatus::Private);
    let o = *Object::insert(&mut db, "u", &"h".to_string()).unwrap().id();
    let docs = directory(&mut db, &r, 1, "docs", None);
    let pics = directory(&mut db, &r, 1, "pics", None);
    let report = file_with(&mut db, &r, 1, "Report.TXT", Some(*docs.id()), 100, "text/plain", 50, o);
    let notes = file_with(&mut db, &r, 2, "notes.txt", Some(*docs.id()), 10, "text/plain", 60, o);
    let cat = file_with(&mut db, &r, 2, "cat.png", Some(*pics.id()), 500, "image/PNG", 70, o);
    let far = file_with(&mut db, &s, 1, "report.txt", None, 100, "text/plain", 50, o);
    let all = |db: &Database, f: ItemSearchData| keys(&DbItem::search(db, f).unwrap());
    let scope = |r: &Repository, roots: Vec<ItemId>| ItemSearchRepositoryField { repository: *r.id(), root_items: roots };

    assert_eq!(all(&db, search_in(vec![scope(&r, vec![])])), keys(&[report.clone(), notes.clone(), cat.clone()]));
    assert_eq!(all(&db, search_in(vec![scope(&r, vec![]), scope(&s, vec![])])).len(), 4);
    assert_eq!(all(&db, search_in(vec![scope(&r, vec![*docs.id()])])), keys(&[report.clone(), notes.clone()]));
    assert_eq!(all(&db, search_in(vec![scope(&r, vec![*docs.id(), *pics.id()])])).len(), 3);
    assert!(all(&db, search_in(vec![scope(&r, vec![ItemId(999)])])).is_empty());

    let mut f = search_in(vec![scope(&r, vec![]), scope(&s, vec![])]);
    f.name_filter = Some(EncString::encode("REPORT"));
    assert_eq!(all(&db, f), keys(&[report.clone(), far.clone()]));

    let mut f = search_in(vec![scope(&r, vec![])]);
    f.mime_type = Some(EncString::encode("png"));
    assert_eq!(all(&db, f), keys(&[cat.clone()]));

    let mut f = search_in(vec![scope(&r, vec![])]);
    f.after = Some(60);
    f.before = Some(70);
    assert_eq!(all(&db, f), keys(&[notes.clone(), cat.clone()]));

    let mut f = search_in(vec![scope(&r, vec![])]);
    f.min_size = Some(100);
    f.max_size = Some(100);
    assert_eq!(all(&db, f), keys(&[report.clone()]));

    let mut f = search_in(vec![scope(&r, vec![])]);
    f.owners = Some(vec![UserId(2), UserId(7)]);
    assert_eq!(all(&db, f), keys(&[notes.clone(), cat.clone()]));

    let mut f = search_in(vec![scope(&r, vec![])]);
    f.owners = Some(vec![]);
    assert!(all(&db, f).is_empty());

    let mut f = search_in(vec![scope(&r, vec![])]);
    f.name_filter = Some(EncString::encode("txt"));
    f.owners = Some(vec![UserId(2)]);
    f.max_size = Some(10);
    assert_eq!(all(&db, f), keys(&[notes.clone()]));
}

#[test]
fn a_store_is_made_of_well_formed_tables_only() {
    let mut db = Database::new("files".to_string());
    let r = repository(&mut db, "r", 1, RepositoryStatus::Private);
    let d = directory(&mut db, &r, 1, "d", None);
    let f = file(&mut db, &r, 1, "f", Some(*d.id()), 1, "F");
    let tables = |db: &Database| (db.repositories().clone(), db.items().clone(), db.objects().clone(), db.subscriptions().clone());
    let (repositories, items, objects, subscriptions) = tables(&db);
    let copy = Database::from_tables("copy".to_string(), repositories, items, objects, subscriptions).unwrap();
    assert_eq!(copy.schema_name(), "copy");
    assert_eq!(*DbItem::from_id(&copy, f.id(), Trash::Both).unwrap().id(), *f.id());
    let mut copy = copy;
    let next = directory(&mut copy, &r, 1, "next", None);
    assert_eq!(next.id().value(), f.id().value() + 1);

    let (repositories, mut items, objects, subscriptions) = tables(&db);
    items.push(items[0].clone());
    assert_eq!(Database::from_tables("x".to_string(), repositories, items, objects, subscriptions).err(), Some(Error::Inconsistent));

    let (repositories, mut items, objects, subscriptions) = tables(&db);
    items.push(Item::default());
    assert_eq!(Database::from_tables("x".to_string(), repositories, items, objects, subscriptions).err(), Some(Error::Inconsistent));

    let (mut repositories, items, objects, subscriptions) = tables(&db);
    repositories.push(Repository::default());
    assert_eq!(Database::from_tables("x".to_string(), repositories, items, objects, subscriptions).err(), Some(Error::Inconsistent));

    let (repositories, items, mut objects, subscriptions) = tables(&db);
    objects.push(Object::stored(ObjectId(0), "h".to_string()));
    assert_eq!(Database::from_tables("x".to_string(), repositories, items, objects, subscriptions).err(), Some(Error::Inconsistent));

    let (repositories, items, objects, mut subscriptions) = tables(&db);
    let s = Subscription { owner: UserId(2), repository: *r.id(), access_type: SubscriptionAccessType::ReadOnly };
    subscriptions.push(s);
    subscriptions.push(Subscription { access_type: SubscriptionAccessType::Moderator, ..s });
    assert_eq!(Database::from_tables("x".to_string(), repositories, items, objects, subscriptions).err(), Some(Error::Inconsistent));
}

#[test]
fn statement_names_the_schema() {
    let db = Database::new("files".to_string());
    assert_eq!(
        db.statement("SELECT * FROM SCHEMA_NAME.items JOIN SCHEMA_NAME.files USING (id)"),
        "SELECT * FROM files.items JOIN files.files USING (id)"
    );
    assert_eq!(db.statement("SELECT 1"), "SELECT 1");
    assert_eq!(Trash::Yes.to_string(), "AND in_trash");
    assert_eq!(Trash::No.to_string(), "AND NOT in_trash");
    assert_eq!(Trash::Both.to_string(), "");
}

#[test]
fn a_store_without_keys_left_refuses_inserts() {
    let mut db = Database::new("files".to_string());
    let mut last = Repository::new(EncString::encode("last"), EncString::encode("last"), UserId(1), RepositoryStatus::Private);
    last.set_id(RepositoryId(i64::MAX)).unwrap();
    DbRepository::push(&mut last, &mut db).unwrap();
    let mut more = Repository::new(EncString::encode("more"), EncString::encode("more"), UserId(1), RepositoryStatus::Private);
    assert_eq!(DbRepository::push(&mut more, &mut db), Err(Error::Upstream));
    assert!(!more.id().is_valid());
    assert_eq!(DbRepository::from_user(&db, &UserId(1)).unwrap().len(), 1);

    let mut item = Item::new(*last.id(), UserId(1), EncString::encode("x"), None, None, false, Some(DirectoryData::default()), None);
    item.set_id(ItemId(i64::MAX)).unwrap();
    DbItem::push(&mut item, &mut db).unwrap();
    let mut next = Item::new(*last.id(), UserId(1), EncString::encode("y"), None, None, false, Some(DirectoryData::default()), None);
    assert_eq!(DbItem::push(&mut next, &mut db), Err(Error::Upstream));
    assert_eq!(DbItem::from_repository(&db, last.id(), Trash::Both).unwrap().len(), 1);

    let tables = Database::from_tables("x".to_string(), vec![], vec![], vec![Object::stored(ObjectId(i64::MAX), "h".to_string())], vec![]);
    let mut full = tables.unwrap();
    assert_eq!(Object::insert(&mut full, "f", &"g".to_string()).err(), Some(Error::Upstream));
}

#[test]
fn a_cycle_of_parents_ends_every_walk() {
    let mut db = Database::new("files".to_string());
    let r = repository(&mut db, "r", 1, RepositoryStatus::Private);
    let a = directory(&mut db, &r, 1, "a", None);
    let b = directory(&mut db, &r, 1, "b", Some(*a.id()));
    let mut turned = DbItem::from_id(&db, a.id(), Trash::Both).unwrap();
    turned.parent_item = Some(*b.id());
    DbItem::push(&mut turned, &mut db).unwrap();
    let read = DbItem::from_id(&db, a.id(), Trash::Both).unwrap();
    assert_eq!(read.absolute_path.to_string(), "/b/a");
    assert!(DbItem::repository_root(&db, r.id(), Trash::Both).unwrap().is_empty());
    DbItem::delete(&a, &mut db).unwrap();
    assert!(DbItem::from_repository(&db, r.id(), Trash::Both).unwrap().is_empty());
}

#[test]
fn created_repositories_have_url_names_of_their_own() {
    let mut db = Database::new("files".to_string());
    let first = DbRepository::create(&mut db, &EncString::encode("Été à Paris"), UserId(1), RepositoryStatus::Hidden).unwrap();
    assert!(first.id().is_valid());
    assert_eq!(first.url_name.encoded().as_str(), "ete-a-paris");
    assert_eq!(first.display_name.plain().unwrap(), "Été à Paris");
    assert_eq!(first.owner, UserId(1));
    assert_eq!(first.status, RepositoryStatus::Hidden);
    assert_eq!(*DbRepository::from_url_name(&db, &EncString::encode("ETE-A-PARIS")).unwrap().id(), *first.id());
    assert_eq!(DbRepository::create(&mut db, &EncString::encode("ete a paris!"), UserId(2), RepositoryStatus::Public).err(), Some(Error::InvalidArgument));
    assert_eq!(DbRepository::create(&mut db, &EncString::encode("???"), UserId(2), RepositoryStatus::Public).err(), Some(Error::InvalidArgument));
    assert_eq!(DbRepository::create(&mut db, &EncString::encode(""), UserId(2), RepositoryStatus::Public).err(), Some(Error::InvalidArgument));
    let undecodable = EncString::from_url_path("%FF".to_string()).unwrap();
    assert_eq!(DbRepository::create(&mut db, &undecodable, UserId(2), RepositoryStatus::Public).err(), Some(Error::InvalidArgument));
    let second = DbRepository::create(&mut db, &EncString::encode("Autre"), UserId(2), RepositoryStatus::Public).unwrap();
    assert_ne!(second.id(), first.id());
    assert_eq!(DbRepository::from_user(&db, &UserId(1)).unwrap().len(), 1);
    assert_eq!(DbRepository::public(&db).unwrap().len(), 1);
}
