use repository_engine::database::item::DbItem;
use repository_engine::database::migrations::{
    compare_bytes, is_script_name, migration_order, migration_plan, migration_rank, parse_number, place_of_script, Order,
};
use repository_engine::database::object::Object;
use repository_engine::database::repository::DbRepository;
use repository_engine::database::stats::{rank_contributors, RepositoryContributorStats};
use repository_engine::database::subscription::{Subscription, SubscriptionAccessType};
use repository_engine::database::sync::{has_key, keys_missing, one_of, subscriptions_missing};
use repository_engine::error::Error;
use repository_engine::database::Database;
use repository_engine::static_files::StaticFileServer;
use repository_engine::types::database_ids::{ObjectId, RepositoryId, UserId};
use repository_engine::types::enc_string::EncString;
use repository_engine::types::item::{FileData, Item};
use repository_engine::types::repository::{Repository, RepositoryStatus};
use repository_engine::types::text::{eq_ignore_case, text_contains, text_contains_ignore_case, to_lowercase_text};
use repository_engine::types::user::{key_of_random, random_text, random_user_key, AuthToken, ResetPasswords};

#[test]
fn migration_rank_is_the_number_at_the_head() {
    assert_eq!(migration_rank("001_init.sql"), Some(1));
    assert_eq!(migration_rank("12_add_files.sql"), Some(12));
    assert_eq!(migration_rank("7"), Some(7));
    assert_eq!(migration_rank("-3_x"), Some(-3));
    assert_eq!(migration_rank("+3_x"), Some(3));
    assert_eq!(migration_rank("2147483647_x"), Some(i32::MAX));
    assert_eq!(migration_rank("-2147483648_x"), Some(i32::MIN));
    assert_eq!(migration_rank("2147483648_x"), None);
    assert_eq!(migration_rank("-2147483649_x"), None);
    assert_eq!(migration_rank("99999999999999999999_x"), None);
    assert_eq!(migration_rank("init.sql"), None);
    assert_eq!(migration_rank("_1"), None);
    assert_eq!(migration_rank(""), None);
    assert_eq!(migration_rank("-_x"), None);
    assert_eq!(migration_rank("1a_x"), None);
    assert_eq!(migration_rank("1.sql"), None);
}

#[test]
fn numbers_are_parsed_like_the_standard_library_does() {
    for text in ["0", "-0", "+0", "5", "0005", "-17", "+17", "2147483647", "-2147483648", "2147483648", "", "-", "+", "1 ", " 1", "1_", "--1", "١"] {
        let chars: Vec<char> = text.chars().collect();
        assert_eq!(parse_number(&chars), text.parse::<i32>().ok(), "{:?}", text);
    }
}

#[test]
fn migrations_run_by_rank_and_else_by_name() {
    assert_eq!(migration_order("2_b.sql", "10_a.sql"), Order::Less);
    assert_eq!(migration_order("10_a.sql", "2_b.sql"), Order::Greater);
    assert_eq!(migration_order("1_a.sql", "01_b.sql"), Order::Equal);
    assert_eq!(migration_order("a.sql", "b.sql"), Order::Less);
    assert_eq!(migration_order("b.sql", "a.sql"), Order::Greater);
    assert_eq!(migration_order("a.sql", "a.sql"), Order::Equal);
    assert_eq!(migration_order("2_b.sql", "init.sql"), Order::Less);
    assert_eq!(migration_order("init.sql", "2_b.sql"), Order::Greater);
    assert_eq!(migration_order("a", "ab"), Order::Less);
    assert_eq!(compare_bytes(b"", b""), Order::Equal);
    assert_eq!(compare_bytes(b"ab", b"a"), Order::Greater);
    assert_eq!(compare_bytes(&[0xff], &[0x01, 0x02]), Order::Greater);
}

#[test]
fn content_type_follows_the_extension() {
    assert_eq!(StaticFileServer::content_type("index.html"), "text/html");
    assert_eq!(StaticFileServer::content_type("/a/b/pic.PNG"), "image/png");
    assert_eq!(StaticFileServer::content_type("noextension"), "application/octet-stream");
    assert_eq!(StaticFileServer::content_type("file.unknownext"), "application/octet-stream");
    assert_eq!(StaticFileServer::content_type_of(None), "application/octet-stream");
    assert_eq!(StaticFileServer::content_type_of(Some("x/y".to_string())), "x/y");
    assert_eq!(StaticFileServer::content_disposition("a b.txt"), "attachment; filename=\"a b.txt\"");
}

#[test]
fn tokens_are_letters_and_digits() {
    let device = EncString::encode("phone");
    let a = AuthToken::generate(UserId(3), &device, 1234);
    let b = AuthToken::generate(UserId(3), &device, 1234);
    assert_eq!(*a.owner(), UserId(3));
    assert_eq!(a.expdate, 1234);
    assert_eq!(a.device, device);
    assert_eq!(a.token.encoded().len(), 64);
    assert!(a.token.encoded().chars().all(|c| c.is_ascii_alphanumeric()));
    assert_eq!(a.token.plain().unwrap(), *a.token.encoded());
    assert_ne!(a.token, b.token);
    let r = ResetPasswords::create(UserId(3), 50).unwrap();
    assert_eq!(r.code().len(), 8);
    assert!(r.code().chars().all(|c| c.is_ascii_alphanumeric()));
    assert_eq!(r.expdate(), 950);
    assert!(ResetPasswords::create(UserId(3), i64::MAX).is_none());
}

#[test]
fn random_keys_are_not_negative() {
    assert_eq!(key_of_random(5), Some(UserId(5)));
    assert_eq!(key_of_random(-5), Some(UserId(5)));
    assert_eq!(key_of_random(0), Some(UserId(0)));
    assert_eq!(key_of_random(i64::MAX), Some(UserId(i64::MAX)));
    assert_eq!(key_of_random(i64::MIN + 1), Some(UserId(i64::MAX)));
    assert_eq!(key_of_random(i64::MIN), None);
    for _ in 0..20 {
        if let Some(key) = random_user_key() {
            assert!(key.0 >= 0);
        }
    }
}

#[test]
fn contributors_come_by_count() {
    let c = |id: i64, count: i64| RepositoryContributorStats { id: UserId(id), count };
    assert_eq!(rank_contributors(vec![c(1, 1), c(2, 3), c(3, 2), c(4, 3), c(5, 1)]), vec![c(2, 3), c(4, 3), c(3, 2), c(1, 1), c(5, 1)]);
    assert_eq!(rank_contributors(vec![]), vec![]);
    let mut db = Database::new("files".to_string());
    let mut r = Repository::new(EncString::encode("r"), EncString::encode("r"), UserId(1), RepositoryStatus::Private);
    DbRepository::push(&mut r, &mut db).unwrap();
    let object = *Object::insert(&mut db, "f", &"h".to_string()).unwrap().id();
    for (owner, mimetype) in [(1, "a/a"), (2, "b/b"), (2, "b/b"), (3, "c/c"), (3, "b/b"), (3, "c/c")] {
        let mut item = Item::new(*r.id(), UserId(owner), EncString::encode("n"), None, None, false, None, Some(FileData { size: 1, mimetype: EncString::encode(mimetype), timestamp: 0, object }));
        DbItem::push(&mut item, &mut db).unwrap();
    }
    let stats = DbRepository::stats(&r, &db).unwrap();
    assert_eq!(stats.contributors, vec![c(3, 3), c(2, 2), c(1, 1)]);
    let extensions: Vec<(String, i64)> = stats.extensions.iter().map(|e| (e.mimetype.plain().unwrap(), e.count)).collect();
    assert_eq!(extensions, vec![("b/b".to_string(), 3), ("c/c".to_string(), 2), ("a/a".to_string(), 1)]);
    let _ = ObjectId(0);
}

#[test]
fn texts_are_compared_and_searched() {
    assert_eq!(to_lowercase_text("AbC-É%2F"), "abc-É%2f");
    assert!(eq_ignore_case("Repo", "rEPO"));
    assert!(!eq_ignore_case("Repo", "Repos"));
    assert!(text_contains("hello world", "lo w"));
    assert!(text_contains("hello", ""));
    assert!(text_contains("", ""));
    assert!(!text_contains("", "a"));
    assert!(text_contains("aab", "ab"));
    assert!(!text_contains("hello", "hellos"));
    assert!(!text_contains("abc", "ac"));
    assert!(text_contains("été", "té"));
    assert!(text_contains_ignore_case("Report.TXT", "txt"));
    assert!(!text_contains_ignore_case("Report.TXT", "png"));
}

#[test]
fn changes_between_two_stores_are_found_by_key() {
    assert_eq!(keys_missing(&vec![1, 2, 3, 4], &vec![2, 4, 9]), vec![1, 3]);
    assert_eq!(keys_missing(&vec![], &vec![1]), Vec::<i64>::new());
    assert_eq!(keys_missing(&vec![5, 5], &vec![]), vec![5, 5]);
    assert!(has_key(&vec![1, 2], 2));
    assert!(!has_key(&vec![1, 2], 3));
    let s = |owner: i64, tier: SubscriptionAccessType| Subscription { owner: UserId(owner), repository: RepositoryId(1), access_type: tier };
    let before = vec![s(1, SubscriptionAccessType::ReadOnly), s(2, SubscriptionAccessType::ReadOnly)];
    let after = vec![s(2, SubscriptionAccessType::ReadOnly), s(3, SubscriptionAccessType::Moderator)];
    assert_eq!(subscriptions_missing(&before, &after), vec![s(1, SubscriptionAccessType::ReadOnly)]);
    assert_eq!(subscriptions_missing(&after, &before), vec![s(3, SubscriptionAccessType::Moderator)]);
    assert_eq!(one_of(Vec::<i64>::new()), Ok(None));
    assert_eq!(one_of(vec![7]), Ok(Some(7)));
    assert_eq!(one_of(vec![7, 8]), Err(Error::Inconsistent));

    let mut db = Database::new("files".to_string());
    let mut r = Repository::new(EncString::encode("r"), EncString::encode("r"), UserId(1), RepositoryStatus::Private);
    DbRepository::push(&mut r, &mut db).unwrap();
    let object = *Object::insert(&mut db, "f", &"h".to_string()).unwrap().id();
    let mut item = Item::new(*r.id(), UserId(1), EncString::encode("n"), None, None, false, None, Some(FileData { size: 1, mimetype: EncString::encode("a/b"), timestamp: 0, object }));
    DbItem::push(&mut item, &mut db).unwrap();
    assert_eq!(db.item_keys(), vec![item.id().0]);
    assert_eq!(db.object_keys(), vec![object.0]);
    assert_eq!(db.repository_keys(), vec![r.id().0]);
}

#[test]
fn page_is_given_its_settings() {
    assert_eq!(
        StaticFileServer::page_with("<div data-app_config='{}'></div>", "{\"origin\":\"x\"}"),
        "<div data-app_config='{\"origin\":\"x\"}'></div>"
    );
    assert_eq!(StaticFileServer::page_with("<div></div>", "{}"), "<div></div>");
    assert_eq!(
        StaticFileServer::page_with("data-app_config='{}' data-app_config='{}'", "1"),
        "data-app_config='1' data-app_config='1'"
    );
}

#[test]
fn random_text_has_the_length_asked_for() {
    for len in [0usize, 1, 16, 100] {
        let text = random_text(len);
        assert_eq!(text.encoded().len(), len);
        assert!(text.encoded().chars().all(|c| c.is_ascii_alphanumeric()));
    }
    assert_ne!(random_text(32), random_text(32));
}

fn names(list: &[&str]) -> Vec<String> {
    list.iter().map(|name| name.to_string()).collect()
}

#[test]
fn scripts_run_by_the_number_at_their_head() {
    assert_eq!(migration_plan(names(&["10_b.sql", "2_a.sql", "notes.txt"])), names(&["2_a.sql", "10_b.sql"]));
    assert_eq!(migration_plan(names(&[])), names(&[]));
    assert_eq!(migration_plan(names(&["readme.md", "sql", ".sql", "x.SQL", "a.sqlx"])), names(&[]));
    assert_eq!(
        migration_plan(names(&["3_c.sql", "1_a.sql", "2_b.sql", "1_a.sql"])),
        names(&["1_a.sql", "1_a.sql", "2_b.sql", "3_c.sql"])
    );
    assert_eq!(
        migration_plan(names(&["01_second.sql", "1_first.sql", "001_third.sql"])),
        names(&["01_second.sql", "1_first.sql", "001_third.sql"])
    );
    assert_eq!(migration_plan(names(&["b.sql", "a.sql", "c.sql"])), names(&["a.sql", "b.sql", "c.sql"]));
    assert_eq!(migration_plan(names(&["-1_down.sql", "0_zero.sql", "+1_up.sql"])), names(&["-1_down.sql", "0_zero.sql", "+1_up.sql"]));
}

#[test]
fn a_script_has_a_stem_and_the_extension_sql() {
    assert!(is_script_name("1_init.sql"));
    assert!(is_script_name("a.sql"));
    assert!(is_script_name("..sql"));
    assert!(is_script_name("é.sql"));
    assert!(!is_script_name(".sql"));
    assert!(!is_script_name("sql"));
    assert!(!is_script_name(""));
    assert!(!is_script_name("a.sql "));
    assert!(!is_script_name("a.Sql"));
    assert!(!is_script_name("a_sql"));
    assert_eq!(place_of_script(&names(&["1_a.sql", "3_c.sql"]), "2_b.sql"), 1);
    assert_eq!(place_of_script(&names(&["1_a.sql", "3_c.sql"]), "3_d.sql"), 2);
    assert_eq!(place_of_script(&names(&[]), "3_d.sql"), 0);
}
