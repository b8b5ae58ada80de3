use repository_engine::database::item::DbItem;
use repository_engine::database::repository::DbRepository;
use repository_engine::database::subscription::{Subscription, SubscriptionAccessType};
use repository_engine::database::Database;
use repository_engine::error::Error;
use repository_engine::permissions::{PermissionResult, Permissions};
use repository_engine::types::database_ids::{ItemId, PlanningId, RepositoryId, UserId};
use repository_engine::types::enc_string::EncString;
use repository_engine::types::item::{DirectoryData, Item};
use repository_engine::types::repository::{Repository, RepositoryStatus};

const OWNER: i64 = 1;

fn store_with(status: RepositoryStatus, visitor_upload: bool) -> (Database, Repository) {
    let mut db = Database::new("files".to_string());
    let mut r = Repository::new(EncString::encode("r"), EncString::encode("R"), UserId(OWNER), status);
    r.allow_visitor_upload = visitor_upload;
    DbRepository::push(&mut r, &mut db).unwrap();
    (db, r)
}

fn subscribe(db: &mut Database, user: i64, r: &Repository, tier: SubscriptionAccessType) {
    Subscription { owner: UserId(user), repository: *r.id(), access_type: tier }.push(db).unwrap();
}

fn answers(db: &Database, r: &Repository, caller: Option<i64>) -> (bool, bool, bool) {
    let p = Permissions::new(caller.map(UserId));
    (
        p.view_repository(db, r.id()).unwrap().granted(),
        p.edit_repository(db, r.id()).unwrap().granted(),
        p.upload_to_repository(db, r.id()).unwrap().granted(),
    )
}

#[test]
fn private_repository_is_closed_to_strangers() {
    let (db, r) = store_with(RepositoryStatus::Private, false);
    assert_eq!(answers(&db, &r, None), (false, false, false));
    assert_eq!(answers(&db, &r, Some(2)), (false, false, false));
    assert_eq!(
        Permissions::new(None).view_repository(&db, r.id()),
        Ok(PermissionResult::Denied)
    );
}

#[test]
fn owner_is_granted_everything() {
    for status in [RepositoryStatus::Private, RepositoryStatus::Hidden, RepositoryStatus::Public] {
        let (mut db, r) = store_with(status, false);
        assert_eq!(answers(&db, &r, Some(OWNER)), (true, true, true));
        subscribe(&mut db, OWNER, &r, SubscriptionAccessType::ReadOnly);
        subscribe(&mut db, 2, &r, SubscriptionAccessType::Moderator);
        assert_eq!(answers(&db, &r, Some(OWNER)), (true, true, true));
    }
}

#[test]
fn read_only_subscriber_views_and_does_not_edit() {
    let (mut db, r) = store_with(RepositoryStatus::Private, false);
    subscribe(&mut db, 2, &r, SubscriptionAccessType::ReadOnly);
    assert_eq!(answers(&db, &r, Some(2)), (true, false, false));
    assert_eq!(answers(&db, &r, Some(3)), (false, false, false));
}

#[test]
fn contributor_uploads_and_moderator_edits() {
    let (mut db, r) = store_with(RepositoryStatus::Private, false);
    subscribe(&mut db, 2, &r, SubscriptionAccessType::Contributor);
    subscribe(&mut db, 3, &r, SubscriptionAccessType::Moderator);
    assert_eq!(answers(&db, &r, Some(2)), (true, false, true));
    assert_eq!(answers(&db, &r, Some(3)), (true, true, true));
}

#[test]
fn public_and_hidden_repositories_are_open_to_read() {
    for status in [RepositoryStatus::Hidden, RepositoryStatus::Public] {
        let (db, r) = store_with(status, false);
        assert_eq!(answers(&db, &r, None), (true, false, false));
        assert_eq!(answers(&db, &r, Some(2)), (true, false, false));
    }
}

#[test]
fn visitor_upload_needs_the_right_to_view() {
    let (db, r) = store_with(RepositoryStatus::Public, true);
    assert_eq!(answers(&db, &r, None), (true, false, true));
    let (db, r) = store_with(RepositoryStatus::Private, true);
    assert_eq!(answers(&db, &r, None), (false, false, false));
    assert_eq!(answers(&db, &r, Some(2)), (false, false, false));
}

#[test]
fn a_subscription_to_another_repository_grants_nothing() {
    let (mut db, r) = store_with(RepositoryStatus::Private, false);
    let mut other = Repository::new(EncString::encode("o"), EncString::encode("O"), UserId(OWNER), RepositoryStatus::Private);
    DbRepository::push(&mut other, &mut db).unwrap();
    subscribe(&mut db, 2, &other, SubscriptionAccessType::Moderator);
    assert_eq!(answers(&db, &r, Some(2)), (false, false, false));
    assert_eq!(answers(&db, &other, Some(2)), (true, true, true));
}

#[test]
fn unknown_repository_is_not_found() {
    let (db, _) = store_with(RepositoryStatus::Public, false);
    let p = Permissions::new(Some(UserId(OWNER)));
    assert_eq!(p.view_repository(&db, &RepositoryId(42)), Err(Error::NotFound));
    assert_eq!(p.edit_repository(&db, &RepositoryId(42)), Err(Error::NotFound));
    assert_eq!(p.upload_to_repository(&db, &RepositoryId(42)), Err(Error::NotFound));
    assert_eq!(p.view_item(&db, &ItemId(42)), Err(Error::NotFound));
    assert_eq!(p.edit_item(&db, &ItemId(42)), Err(Error::NotFound));
}

#[test]
fn items_follow_their_repository_and_their_owner() {
    let (mut db, r) = store_with(RepositoryStatus::Private, false);
    subscribe(&mut db, 2, &r, SubscriptionAccessType::Contributor);
    subscribe(&mut db, 3, &r, SubscriptionAccessType::Moderator);
    let mut item = Item::new(*r.id(), UserId(2), EncString::encode("mine"), None, None, false, Some(DirectoryData::default()), None);
    DbItem::push(&mut item, &mut db).unwrap();
    let ask = |caller: Option<i64>| {
        let p = Permissions::new(caller.map(UserId));
        (p.view_item(&db, item.id()).unwrap().granted(), p.edit_item(&db, item.id()).unwrap().granted())
    };
    assert_eq!(ask(None), (false, false));
    assert_eq!(ask(Some(OWNER)), (true, true));
    assert_eq!(ask(Some(2)), (true, true));
    assert_eq!(ask(Some(3)), (true, true));
    assert_eq!(ask(Some(4)), (false, false));
}

#[test]
fn an_orphan_item_has_no_repository_to_ask() {
    let mut db = Database::new("files".to_string());
    let mut item = Item::new(RepositoryId(7), UserId(2), EncString::encode("x"), None, None, false, Some(DirectoryData::default()), None);
    DbItem::push(&mut item, &mut db).unwrap();
    let p = Permissions::new(Some(UserId(2)));
    assert_eq!(p.view_item(&db, item.id()), Err(Error::NotFound));
    assert_eq!(p.edit_item(&db, item.id()), Err(Error::NotFound));
}

#[test]
fn require_turns_a_denial_into_a_failure() {
    assert_eq!(PermissionResult::Granted.require(), Ok(()));
    assert_eq!(PermissionResult::Denied.require(), Err(Error::PermissionDenied));
    assert_eq!(PermissionResult::Denied.require().unwrap_err().message(), "Access denied");
    assert_eq!(PermissionResult::Denied.require().unwrap_err().status(), 403);
    assert!(PermissionResult::Granted.granted());
    assert!(!PermissionResult::Denied.granted());
    assert_eq!(PermissionResult::from_bool(true), PermissionResult::Granted);
    assert_eq!(PermissionResult::from_bool(false), PermissionResult::Denied);
}

#[test]
fn plannings_are_closed() {
    let db = Database::new("files".to_string());
    let p = Permissions::new(Some(UserId(1)));
    assert_eq!(p.view_planning(&db, &PlanningId(1)), Ok(PermissionResult::Denied));
    assert_eq!(p.connected_user(), Some(UserId(1)));
}
