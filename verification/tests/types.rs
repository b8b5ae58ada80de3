use repository_engine::config::Config;
use repository_engine::database::subscription::{Subscription, SubscriptionAccessType};
use repository_engine::error::Error;
use repository_engine::types::database_ids::{
    DatabaseIdTrait, ItemId, ObjectId, PasswordHash, PlanningId, PlanningUserId, CalendarId, CalendarUserId, RepositoryId, UserId,
};
use repository_engine::types::enc_path::EncPath;
use repository_engine::types::enc_string::EncString;
use repository_engine::types::item::{DirectoryData, FileData, Item, ItemRecord};
use repository_engine::types::planning::{CalendarUser, Planning, PlanningUser};
use repository_engine::types::repository::{Repository, RepositoryStatus};
use repository_engine::types::user::{AuthToken, ResetPasswords, User};

#[test]
fn zero_is_the_unassigned_key() {
    assert!(!0i64.is_valid());
    assert!(1i64.is_valid());
    assert!((-1i64).is_valid());
    assert!(!ItemId::default().is_valid());
    assert!(!RepositoryId(0).is_valid());
    assert!(UserId::from(3).is_valid());
    assert_eq!(ObjectId::from(5).value(), 5);
    assert_eq!(ItemId::from(9), ItemId(9));
}

#[test]
fn item_key_is_assigned_once() {
    let mut item = Item::default();
    assert!(!item.id().is_valid());
    assert_eq!(item.set_id(ItemId(4)), Ok(()));
    assert_eq!(*item.id(), ItemId(4));
    assert_eq!(item.set_id(ItemId(5)), Err(Error::InvalidArgument));
    assert_eq!(*item.id(), ItemId(4));
    assert_eq!(item.clear_id(), ItemId(4));
    assert!(!item.id().is_valid());
    assert_eq!(item.set_id(ItemId(5)), Ok(()));
    assert_eq!(item.set_id(ItemId(0)), Err(Error::InvalidArgument));
}

#[test]
fn repository_and_user_keys_are_assigned_once() {
    let mut r = Repository::default();
    assert_eq!(r.set_id(RepositoryId(2)), Ok(()));
    assert_eq!(r.set_id(RepositoryId(3)), Err(Error::InvalidArgument));
    assert_eq!(*r.id(), RepositoryId(2));
    let mut u = User::default();
    assert_eq!(u.set_id(UserId(0)), Ok(()));
    assert_eq!(u.set_id(UserId(8)), Ok(()));
    assert_eq!(u.set_id(UserId(9)), Err(Error::InvalidArgument));
    assert_eq!(*u.id(), UserId(8));
}

#[test]
fn status_and_tier_names_round_trip() {
    for s in [RepositoryStatus::Private, RepositoryStatus::Hidden, RepositoryStatus::Public] {
        assert_eq!(RepositoryStatus::from_name(s.name()), s);
        assert_eq!(RepositoryStatus::from(s.name().to_string()), s);
    }
    assert_eq!(RepositoryStatus::Public.name(), "public");
    assert_eq!(RepositoryStatus::from("nonsense".to_string()), RepositoryStatus::Private);
    assert_eq!(RepositoryStatus::default(), RepositoryStatus::Private);
    for t in [SubscriptionAccessType::ReadOnly, SubscriptionAccessType::Contributor, SubscriptionAccessType::Moderator] {
        assert_eq!(SubscriptionAccessType::from_name(t.name()), t);
    }
    assert_eq!(SubscriptionAccessType::ReadOnly.name(), "read-only");
    assert_eq!(SubscriptionAccessType::from("Moderator".to_string()), SubscriptionAccessType::ReadOnly);
    assert_eq!(Subscription::default().access_type, SubscriptionAccessType::ReadOnly);
}

fn record() -> ItemRecord {
    ItemRecord {
        id: ItemId(3),
        repository: RepositoryId(1),
        owner: UserId(2),
        name: EncString::encode("n"),
        description: Some(EncString::encode("about")),
        parent_item: Some(ItemId(1)),
        absolute_path: EncPath::parse("/p/n").unwrap(),
        in_trash: true,
        is_regular_file: None,
        size: None,
        mimetype: None,
        timestamp: None,
        object: None,
        open_upload: None,
        num_items: None,
        content_size: None,
    }
}

#[test]
fn a_row_with_a_size_is_a_file() {
    let mut row = record();
    row.size = Some(12);
    row.mimetype = Some(EncString::encode("text/plain"));
    row.timestamp = Some(99);
    row.object = Some(ObjectId(5));
    row.open_upload = Some(true);
    let item = Item::try_from_row(row).unwrap();
    assert_eq!(*item.id(), ItemId(3));
    assert_eq!(item.parent_item, Some(ItemId(1)));
    assert!(item.in_trash);
    assert!(item.directory.is_none());
    let file = item.file.unwrap();
    assert_eq!((file.size, file.timestamp, file.object), (12, 99, ObjectId(5)));
    assert_eq!(item.absolute_path.to_string(), "/p/n");
}

#[test]
fn a_row_with_the_upload_flag_is_a_directory() {
    let mut row = record();
    row.open_upload = Some(true);
    row.num_items = Some(4);
    row.content_size = Some(40);
    let item = Item::from_row(row);
    assert!(item.file.is_none());
    assert_eq!(item.directory, Some(DirectoryData { open_upload: true, num_items: 4, content_size: 40 }));
}

#[test]
fn a_row_of_no_kind_is_refused() {
    assert_eq!(Item::try_from_row(record()).err(), Some(Error::Upstream));
    let mut row = record();
    row.mimetype = Some(EncString::encode("text/plain"));
    row.num_items = Some(1);
    assert_eq!(Item::try_from_row(row).err(), Some(Error::Upstream));
}

#[test]
fn an_item_of_no_kind_has_no_wire_record() {
    assert_eq!(Item::default().to_record().err(), Some(Error::InvalidArgument));
}

#[test]
fn a_row_that_lacks_a_column_is_refused() {
    let mut row = record();
    row.size = Some(1);
    assert_eq!(Item::try_from_row(row).err(), Some(Error::Upstream));
    let mut row = record();
    row.open_upload = Some(false);
    row.num_items = Some(1);
    assert_eq!(Item::try_from_row(row).err(), Some(Error::Upstream));
}

#[test]
fn wire_record_of_a_directory_and_of_a_file() {
    let mut dir = Item::new(RepositoryId(1), UserId(2), EncString::encode("d"), None, None, false, Some(DirectoryData { open_upload: true, num_items: 2, content_size: 9 }), None);
    dir.set_id(ItemId(6)).unwrap();
    let r = dir.to_record().unwrap();
    assert_eq!(r.id, ItemId(6));
    assert_eq!(r.is_regular_file, Some(false));
    assert_eq!((r.open_upload, r.num_items, r.content_size), (Some(true), Some(2), Some(9)));
    assert_eq!((r.size, r.timestamp, r.object), (None, None, None));
    assert!(r.mimetype.is_none());
    let file = Item::new(RepositoryId(1), UserId(2), EncString::encode("f"), None, None, false, None, Some(FileData { size: 7, mimetype: EncString::encode("a/b"), timestamp: 8, object: ObjectId(3) }));
    let r = file.to_record().unwrap();
    assert_eq!(r.is_regular_file, Some(true));
    assert_eq!((r.size, r.timestamp, r.object), (Some(7), Some(8), None));
    assert_eq!(r.mimetype.unwrap().encoded().as_str(), "a%2Fb");
    assert_eq!(r.open_upload, None);
}

#[test]
fn wire_item_follows_the_file_flag() {
    let mut message = record();
    message.is_regular_file = Some(true);
    message.size = Some(5);
    message.open_upload = Some(true);
    let item = Item::from_record(message).unwrap();
    assert!(item.directory.is_none());
    let file = item.file.unwrap();
    assert_eq!((file.size, file.timestamp, file.object), (5, 0, ObjectId(0)));
    assert!(file.mimetype.is_empty());

    let mut message = record();
    message.is_regular_file = Some(false);
    message.size = Some(5);
    message.open_upload = Some(true);
    let item = Item::from_record(message).unwrap();
    assert!(item.file.is_none());
    assert_eq!(item.directory, Some(DirectoryData { open_upload: true, num_items: 0, content_size: 0 }));
    assert_eq!(*item.id(), ItemId(3));
}

#[test]
fn a_message_without_the_file_flag_is_refused() {
    assert_eq!(Item::from_record(record()).err(), Some(Error::InvalidArgument));
    let mut message = record();
    message.size = Some(5);
    message.open_upload = Some(true);
    assert_eq!(Item::from_record(message).err(), Some(Error::InvalidArgument));
}

#[test]
fn every_item_read_has_one_kind() {
    for flag in [true, false] {
        let mut message = record();
        message.is_regular_file = Some(flag);
        message.size = Some(1);
        message.open_upload = Some(false);
        let item = Item::from_record(message).unwrap();
        assert_ne!(item.file.is_some(), item.directory.is_some());
        assert_eq!(item.file.is_some(), flag);
    }
}

#[test]
fn wire_record_reads_back_as_the_item() {
    let mut dir = Item::new(RepositoryId(1), UserId(2), EncString::encode("d"), Some(EncString::encode("x")), Some(ItemId(1)), true, Some(DirectoryData { open_upload: true, num_items: 2, content_size: 9 }), None);
    dir.set_id(ItemId(6)).unwrap();
    let back = Item::from_record(dir.to_record().unwrap()).unwrap();
    assert_eq!(*back.id(), ItemId(6));
    assert_eq!(back.directory, dir.directory);
    assert!(back.file.is_none());
    assert_eq!(back.name, dir.name);
    assert_eq!(back.description, dir.description);
    assert_eq!(back.parent_item, dir.parent_item);
    assert!(back.in_trash);
}

#[test]
fn default_settings() {
    let c = Config::default();
    assert_eq!(c.addresses, vec!["127.0.0.1:3000".to_string()]);
    assert_eq!(c.backend_config.postgres.username, "postgres");
    assert_eq!(c.backend_config.postgres.secret, "postgres");
    assert_eq!(c.backend_config.postgres.url, "127.0.0.1");
    assert_eq!(c.backend_config.postgres.port, 5432);
    assert_eq!(c.backend_config.postgres.database, "postgres");
    assert!(!c.backend_config.postgres.ssl_mode);
    assert_eq!(c.backend_config.postgres.scheme_name, "schedulator");
    assert_eq!(c.backend_config.postgres.default_migrations, "./migrations");
    assert_eq!(c.web_client_config.client_path, "./webclient");
    assert!(!c.web_client_config.debug);
    assert!(c.web_client_config.check_for_packages_updates);
    assert!(c.web_client_config.build_webpack);
    assert!(!c.web_client_config.force_secure_requests);
    assert_eq!(c.tls_config.certificate, "/Path/To/certificate.pem");
    assert_eq!(c.tls_config.private_key, "/Path/To/private_key.pem");
    assert!(c.use_tls);
}

#[test]
fn origin_of_a_request() {
    let mut c = Config::default();
    assert_eq!(c.origin(None, Some("example.org"), None, None), "https://example.org");
    assert_eq!(c.origin(Some("http"), Some("example.org"), None, None), "http://example.org");
    assert_eq!(c.origin(Some("https"), None, Some("h"), Some("8080")), "https://h:8080");
    assert_eq!(c.origin(None, None, Some("h"), None), "https://127.0.0.1:3000");
    assert_eq!(c.origin(None, None, None, Some("1")), "https://127.0.0.1:3000");
    c.use_tls = false;
    assert_eq!(c.origin(None, None, None, None), "http://127.0.0.1:3000");
    c.web_client_config.force_secure_requests = true;
    assert_eq!(c.origin(None, None, None, None), "https://127.0.0.1:3000");
    c.addresses.clear();
    assert_eq!(c.origin(None, Some("example.org"), None, None), "https://example.org");
    assert_eq!(c.origin(Some("http"), None, Some("h"), Some("81")), "http://h:81");
}

#[test]
fn a_path_made_of_segments_has_them() {
    let path = EncPath::from(vec![EncString::encode("a b"), EncString::encode("c")]);
    assert_eq!(path.len(), 2);
    assert_eq!(path.to_string(), "/a%20b/c");
    assert!(path.same_as(&EncPath::from_segments(vec![EncString::encode("a b"), EncString::encode("c")])));
}

#[test]
fn password_hash_knows_its_password() {
    let secret = EncString::encode("correct horse");
    let hash = PasswordHash::new(&secret).unwrap();
    assert_ne!(hash.as_str(), secret.encoded().as_str());
    assert_eq!(hash.verify(&secret), Ok(true));
    assert_eq!(hash.verify(&EncString::encode("wrong")), Ok(false));
    assert_eq!(PasswordHash::default().verify(&secret), Err(Error::InvalidArgument));
    assert_eq!(PasswordHash::from_stored("nonsense".to_string()).verify(&secret), Err(Error::InvalidArgument));
    assert_eq!(PasswordHash::verdict(Some(true)), Ok(true));
    assert_eq!(PasswordHash::verdict(None), Err(Error::InvalidArgument));
    assert_eq!(PasswordHash::from_outcome(None).err(), Some(Error::Upstream));
    assert_eq!(PasswordHash::from_outcome(Some("h".to_string())).unwrap().as_str(), "h");
}

#[test]
fn user_holds_its_password_and_name() {
    let mut u = User::new(EncString::encode("a@b.c"), EncString::encode("Ann"));
    assert_eq!(u.password().as_str(), "");
    u.update_password(PasswordHash::from_stored("stored".to_string()));
    assert_eq!(u.password().as_str(), "stored");
    assert_eq!(u.check_name(), Ok(()));
    assert_eq!(User::default().check_name(), Err(Error::InvalidArgument));
    assert_eq!(u.clone().with_verdict(Ok(true)).unwrap().display_name, u.display_name);
    assert_eq!(u.clone().with_verdict(Ok(false)).err(), Some(Error::NotFound));
    assert_eq!(u.clone().with_verdict(Err(Error::InvalidArgument)).err(), Some(Error::InvalidArgument));
    let t = AuthToken::new(UserId(3), EncString::encode("t"), EncString::encode("d"), 5);
    assert_eq!(*t.owner(), UserId(3));
}

#[test]
fn reset_code_is_good_for_a_quarter_of_an_hour() {
    let r = ResetPasswords::new(UserId(1), "code".to_string(), 1000).unwrap();
    assert_eq!(r.expdate(), 1900);
    assert_eq!(*r.user_id(), UserId(1));
    assert_eq!(r.code(), "code");
    assert!(!r.is_outdated(1900));
    assert!(r.is_outdated(1901));
    assert_eq!(r.check(1900), Ok(()));
    assert_eq!(r.check(1901), Err(Error::InvalidArgument));
    assert!(ResetPasswords::new(UserId(1), "c".to_string(), i64::MAX - 899).is_none());
    assert!(ResetPasswords::new(UserId(1), "c".to_string(), i64::MAX - 900).is_some());
    assert_eq!(ResetPasswords::from_stored(UserId(2), "x".to_string(), 7).expdate(), 7);
}

#[test]
fn participants_keep_their_keys() {
    let p = Planning::stored(PlanningId(4), UserId(1), EncString::encode("t"), EncString::encode("k"));
    assert_eq!(*p.id(), PlanningId(4));
    let u = PlanningUser::stored(PlanningUserId(5), EncString::encode("n"), PlanningId(4), None);
    assert_eq!(*u.id(), PlanningUserId(5));
    let c = CalendarUser::stored(CalendarUserId(6), EncString::encode("n"), CalendarId(2), Some(UserId(1)));
    assert_eq!(*c.id(), CalendarUserId(6));
}

#[test]
fn failures_have_a_message() {
    assert_eq!(Error::NotFound.message(), "Not found");
    assert_eq!(Error::Inconsistent.message(), "Received more than one expected item");
    assert_eq!(Error::InvalidArgument.message(), "Invalid argument");
    assert_eq!(Error::PermissionDenied.message(), "Access denied");
    assert_eq!(Error::Upstream.message(), "Storage failure");
    assert_eq!(Error::NotFound.status(), 404);
    assert_eq!(Error::Inconsistent.status(), 500);
    assert_eq!(Error::InvalidArgument.status(), 400);
    assert_eq!(Error::PermissionDenied.status(), 403);
    assert_eq!(Error::Upstream.status(), 500);
}
