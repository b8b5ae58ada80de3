use repository_engine::database::item::{DbItem, Trash};
use repository_engine::database::object::Object;
use repository_engine::database::repository::DbRepository;
use repository_engine::database::subscription::{Subscription, SubscriptionAccessType};
use repository_engine::database::Database;
use repository_engine::error::Error;
use repository_engine::permissions::{PermissionResult, Permissions};
use repository_engine::types::database_ids::{DatabaseIdTrait, ItemId, ObjectId, RepositoryId, UserId};
use repository_engine::types::enc_string::EncString;
use repository_engine::types::item::{DirectoryData, FileData, Item};
use repository_engine::types::repository::{Repository, RepositoryStatus};

fn new_repository(db: &mut Database, name: &str, owner: i64, status: RepositoryStatus) -> Repository {
    let mut repository = Repository::new(
        EncString::encode(name),
        EncString::encode(name),
        UserId(owner),
        status,
    );
    DbRepository::push(&mut repository, db).unwrap();
    repository
}

fn new_directory(db: &mut Database, repository: &Repository, name: &str, parent: Option<ItemId>) -> Item {
    let mut item = Item::new(
        *repository.id(),
        repository.owner,
        EncString::encode(name),
        None,
        parent,
        false,
        Some(DirectoryData::default()),
        None,
    );
    DbItem::push(&mut item, db).unwrap();
    item
}

fn new_file(db: &mut Database, repository: &Repository, name: &str, parent: Option<ItemId>, size: i64, hash: &str) -> Item {
    let object = Object::insert(db, "/tmp/upload", &hash.to_string()).unwrap();
    let mut item = Item::new(
        *repository.id(),
        repository.owner,
        EncString::encode(name),
        None,
        parent,
        false,
        None,
        Some(FileData { size, mimetype: EncString::encode("text/plain"), timestamp: 7, object: *object.id() }),
    );
    DbItem::push(&mut item, db).unwrap();
    item
}

fn ids(items: &[Item]) -> Vec<i64> {
    items.iter().map(|i| i.id().value()).collect()
}

#[test]
fn push_assigns_keys_in_order() {
    let mut db = Database::new("test".to_string());
    let r = new_repository(&mut db, "repo", 1, RepositoryStatus::Private);
    assert!(r.id().is_valid());
    let d = new_directory(&mut db, &r, "docs", None);
    let f = new_file(&mut db, &r, "a.txt", Some(*d.id()), 100, "H");
    assert_eq!(d.id().value(), 1);
    assert_eq!(f.id().value(), 2);
    let read = DbItem::from_id(&db, f.id(), Trash::Both).unwrap();
    assert_eq!(read.absolute_path.to_string(), "/docs/a.txt");
    assert_eq!(read.file.as_ref().unwrap().size, 100);
    let dir = DbItem::from_id(&db, d.id(), Trash::No).unwrap();
    assert_eq!(dir.directory.unwrap().num_items, 1);
    assert_eq!(dir.directory.unwrap().content_size, 100);
}

#[test]
fn push_rejects_an_item_of_no_kind() {
    let mut db = Database::new("test".to_string());
    let r = new_repository(&mut db, "repo", 1, RepositoryStatus::Private);
    let mut item = Item::new(*r.id(), UserId(1), EncString::encode("x"), None, None, false, None, None);
    assert_eq!(DbItem::push(&mut item, &mut db), Err(Error::InvalidArgument));
    assert!(!item.id().is_valid());
}

#[test]
fn trash_roots_are_the_tops_of_trashed_subtrees() {
    let mut db = Database::new("test".to_string());
    let r = new_repository(&mut db, "repo", 1, RepositoryStatus::Private);
    let a = new_directory(&mut db, &r, "a", None);
    let b = new_directory(&mut db, &r, "b", Some(*a.id()));
    let _c = new_directory(&mut db, &r, "c", None);
    DbItem::set_in_trash(&a, &mut db, true).unwrap();
    let roots = DbItem::repository_trash_root(&db, r.id()).unwrap();
    assert_eq!(ids(&roots), vec![a.id().value()]);
    DbItem::set_in_trash(&a, &mut db, false).unwrap();
    DbItem::set_in_trash(&b, &mut db, true).unwrap();
    let roots = DbItem::repository_trash_root(&db, r.id()).unwrap();
    assert_eq!(ids(&roots), vec![b.id().value()]);
}

#[test]
fn delete_removes_the_subtree_and_releases_its_objects() {
    let mut db = Database::new("test".to_string());
    let r = new_repository(&mut db, "repo", 1, RepositoryStatus::Private);
    let d = new_directory(&mut db, &r, "d", None);
    let f = new_file(&mut db, &r, "f", Some(*d.id()), 100, "H");
    let g = new_file(&mut db, &r, "g", None, 5, "G");
    let shared = g.file.as_ref().unwrap().object;
    let mut h = Item::new(
        *r.id(),
        UserId(1),
        EncString::encode("h"),
        None,
        Some(*d.id()),
        false,
        None,
        Some(FileData { size: 5, mimetype: EncString::encode("text/plain"), timestamp: 1, object: shared }),
    );
    DbItem::push(&mut h, &mut db).unwrap();
    let own = f.file.as_ref().unwrap().object;
    DbItem::delete(&d, &mut db).unwrap();
    assert_eq!(DbItem::from_id(&db, d.id(), Trash::Both).err(), Some(Error::NotFound));
    assert_eq!(DbItem::from_id(&db, f.id(), Trash::Both).err(), Some(Error::NotFound));
    assert_eq!(DbItem::from_id(&db, h.id(), Trash::Both).err(), Some(Error::NotFound));
    assert!(DbItem::from_id(&db, g.id(), Trash::Both).is_ok());
    assert_eq!(Object::from_id(&db, &own).err(), Some(Error::NotFound));
    assert!(Object::from_id(&db, &shared).is_ok());
    DbItem::delete(&d, &mut db).unwrap();
    assert_eq!(ids(&DbItem::from_repository(&db, r.id(), Trash::Both).unwrap()), vec![g.id().value()]);
}

#[test]
fn gate_follows_status_ownership_and_subscriptions() {
    let mut db = Database::new("test".to_string());
    let r = new_repository(&mut db, "repo", 1, RepositoryStatus::Private);
    let anonymous = Permissions::new(None);
    let owner = Permissions::new(Some(UserId(1)));
    let reader = Permissions::new(Some(UserId(2)));
    assert_eq!(anonymous.view_repository(&db, r.id()), Ok(PermissionResult::Denied));
    assert_eq!(owner.edit_repository(&db, r.id()), Ok(PermissionResult::Granted));
    assert_eq!(reader.view_repository(&db, r.id()), Ok(PermissionResult::Denied));
    let mut s = Subscription { owner: UserId(2), repository: *r.id(), access_type: SubscriptionAccessType::ReadOnly };
    s.push(&mut db).unwrap();
    assert_eq!(reader.view_repository(&db, r.id()), Ok(PermissionResult::Granted));
    assert_eq!(reader.edit_repository(&db, r.id()), Ok(PermissionResult::Denied));
    assert_eq!(reader.upload_to_repository(&db, r.id()), Ok(PermissionResult::Denied));
    assert_eq!(owner.edit_repository(&db, r.id()), Ok(PermissionResult::Granted));
    assert_eq!(anonymous.view_repository(&db, &RepositoryId(99)), Err(Error::NotFound));
    assert_eq!(s.push(&mut db), Err(Error::Upstream));
    let _ = ObjectId(0);
}
