use ttsmagic::config::{database_url, redis_url};
use ttsmagic::files::{
    random_letters, rename, upload_action, FileBucket, MediaFile, UploadAction, UploadName,
};
use ttsmagic::importer::{
    cleanup_deck, correction, decks_to_check, decks_to_load, is_wanted, Cleanup, Correction, DeckRow,
};
use ttsmagic::migrations::apply_migration;
use ttsmagic::notify::user_channel_name;
use ttsmagic::s3::{
    exists_by_status, generate_presigned_url, make_rusoto_signedrequest, signature_scope, strip_slashes, S3Client,
    S3Credentials, S3Region,
};
use ttsmagic::secrets::{LinodeObjectStorageSecrets, Secrets};
use ttsmagic::types::deck::DeckId;
use ttsmagic::types::user::UserId;
use ttsmagic::urls::Url;
use ttsmagic::user::{SteamAPIPlayer, User, DEMO_USER_ID};
use ttsmagic::uuids::Uuid;

#[test]
fn buckets() {
    assert_eq!(FileBucket::for_key("cards/b3/c2/x.png"), Some(FileBucket::CardImages));
    assert_eq!(FileBucket::for_key("tokens/x"), Some(FileBucket::CardImages));
    assert_eq!(FileBucket::for_key("pages/x.jpg"), Some(FileBucket::DeckPages));
    assert_eq!(FileBucket::for_key("page/x.jpg"), Some(FileBucket::DeckPages));
    assert_eq!(FileBucket::for_key("other/x"), None);
    assert_eq!(FileBucket::for_key("cards"), None);
    assert_eq!(FileBucket::CardImages.name(), "ttsmagic-card-images");
    assert_eq!(FileBucket::DeckPages.name(), "ttsmagic-deck-page-images");
    let f = MediaFile::named("pages/a/b.jpg").unwrap();
    assert_eq!(f.path(), "ttsmagic-deck-page-images/pages/a/b.jpg");
    assert_eq!(f.url().unwrap().as_str(), "https://ttsmagic.cards/files/pages/a/b.jpg");
    assert_eq!(f.suffix().unwrap(), ".jpg");
    assert!(MediaFile::named("x").is_none());
    assert!(MediaFile::named("pages/x").unwrap().suffix().is_none());
}

#[test]
fn uploads_find_a_free_name() {
    let mut n = UploadName::new("pages/a.b.jpg".to_string());
    assert!(!n.tried(true));
    assert!(n.key.starts_with("pages/a.b_") && n.key.ends_with(".jpg"));
    assert_eq!(n.key.len(), "pages/a.b_12345678.jpg".len());
    let first = n.key.clone();
    assert!(!n.tried(true));
    assert_ne!(n.key, first);
    let last = n.key.clone();
    assert!(n.tried(false));
    assert_eq!(n.key, last);
    assert_eq!(rename("x.png", "abc"), "x_abc.png");
    let letters = random_letters();
    assert_eq!(letters.len(), 8);
    assert!(letters.bytes().all(|b| b.is_ascii_lowercase()));
}

#[test]
fn files_are_uploaded_once() {
    assert_eq!(upload_action("x", false, true), UploadAction::Skip);
    assert_eq!(upload_action("pages/x", true, false), UploadAction::Skip);
    assert_eq!(upload_action("pages/x", true, true), UploadAction::Delete);
    assert_eq!(
        upload_action("cards/x", false, true),
        UploadAction::Upload { bucket: FileBucket::CardImages, delete: true }
    );
}

fn region() -> S3Region {
    S3Region::new("us-east-1", "https://us-east-1.linodeobjects.com").unwrap()
}

#[test]
fn regions_and_files() {
    assert_eq!(region().endpoint.as_str(), "https://us-east-1.linodeobjects.com/");
    assert!(S3Region::new("x", "nonsense").is_err());
    let client = S3Client::new(region(), S3Credentials::new("ACCESS", "SECRET"));
    let handle = client.use_bucket("ttsmagic-card-images");
    assert_eq!(
        handle.file_url("//does_exist.txt").unwrap().as_str(),
        "https://us-east-1.linodeobjects.com/ttsmagic-card-images/does_exist.txt"
    );
    assert_eq!(strip_slashes("//a/b/"), "a/b/");
    assert_eq!(strip_slashes("///"), "");
    assert!(exists_by_status(200));
    assert!(!exists_by_status(404));
}

#[test]
fn requests_are_signed() {
    let creds = S3Credentials::new("ACCESS", "SECRET");
    let url = Url::parse("https://us-east-1.linodeobjects.com/bucket/x.png").unwrap();
    let scope = signature_scope(&region(), "PUT", &url).unwrap();
    assert_eq!(scope.path, "bucket/x.png");
    assert_eq!((scope.method.as_str(), scope.scheme.as_str()), ("PUT", "https"));
    assert_eq!(scope.hostname, Some("us-east-1.linodeobjects.com".to_string()));
    assert_eq!(signature_scope(&region(), "GET", &Url::parse("data:x").unwrap()).unwrap().hostname, None);
    let given = vec![("X-Thing".to_string(), "v".to_string()), ("Host".to_string(), "bad".to_string())];
    let headers = make_rusoto_signedrequest(&creds, &region(), "PUT", &url, &given, vec![1, 2, 3]).unwrap();
    let value = |name: &str| {
        let h = headers.iter().find(|h| h.0 == name).unwrap();
        assert_eq!(h.1.len(), 1);
        String::from_utf8(h.1[0].clone()).unwrap()
    };
    assert_eq!(value("host"), "us-east-1.linodeobjects.com");
    assert_eq!(value("content-length"), "3");
    assert_eq!(value("x-thing"), "v");
    assert!(value("authorization").starts_with("AWS4-HMAC-SHA256 Credential=ACCESS/"));
    assert!(value("authorization").contains("/us-east-1/s3/aws4_request, SignedHeaders="));
    assert_eq!(value("x-amz-content-sha256"), "039058c6f2c0cb492c533b0a4d14ef77cc0f78abccced5287d84a1a2011cfb81");
    assert_eq!(value("x-amz-date").len(), "20200102T030405Z".len());
    let empty = make_rusoto_signedrequest(&creds, &region(), "HEAD", &url, &vec![], vec![]).unwrap();
    let length = empty.iter().find(|h| h.0 == "content-length").unwrap();
    assert_eq!(length.1, vec![b"0".to_vec()]);
}

#[test]
fn files_are_shared_for_some_time() {
    let creds = S3Credentials::from_secrets(LinodeObjectStorageSecrets {
        access_key: "ACCESS".to_string(),
        secret_key: "SECRET".to_string(),
    });
    let url = Url::parse("https://us-east-1.linodeobjects.com/bucket/x.png").unwrap();
    let shared = generate_presigned_url(&creds, &region(), "GET", &url, 3600).unwrap();
    let start = "https://us-east-1.linodeobjects.com/bucket/x.png?X-Amz-Algorithm=AWS4-HMAC-SHA256&X-Amz-Credential=ACCESS%2F";
    assert!(shared.as_str().starts_with(start));
    assert!(shared.as_str().contains("&X-Amz-Expires=3600&"));
    let client = S3Client::new(region(), creds);
    let shared = client.use_bucket("bucket").presign_url("/x.png", 30).unwrap();
    assert!(shared.as_str().starts_with(start));
    assert!(shared.as_str().contains("&X-Amz-Expires=30&"));
}

#[test]
fn secrets_are_read() {
    let s = |hex: &str| Secrets {
        linode_object_storage: Some(LinodeObjectStorageSecrets {
            access_key: "a".to_string(),
            secret_key: "b".to_string(),
        }),
        steam_api_key: "key".to_string(),
        session_private_key_hex: hex.to_string(),
    };
    let good = s("000102030405060708090a0b0c0d0e0f101112131415161718191a1b1c1d1eFF");
    assert!(good.has_session_private_key());
    let key = good.session_private_key();
    assert_eq!((key[0], key[17], key[31]), (0, 17, 255));
    assert!(!s("00").has_session_private_key());
    assert!(!s(&"0g".repeat(32)).has_session_private_key());
    assert_eq!(good.steam_api_key(), "key");
    assert_eq!(good.linode_credentials().unwrap().secret_key, "b");
    let fewer = Secrets {
        linode_object_storage: None,
        steam_api_key: "key".to_string(),
        session_private_key_hex: "00".repeat(32),
    };
    assert!(fewer.has_session_private_key());
    assert!(fewer.linode_credentials().is_none());
}

#[test]
fn users() {
    let u = User { id: UserId(7), display_name: "Ada".to_string(), last_login: 0 };
    assert_eq!(u.to_text(), "User \"Ada\" (7)");
    assert_eq!(DEMO_USER_ID, 0);
    assert_eq!(
        User::summaries_url("k&y".to_string(), 5).unwrap().as_str(),
        "https://api.steampowered.com/ISteamUser/GetPlayerSummaries/v0002/?key=k%26y&steamids=5"
    );
    let player = |i: &str, n: &str| SteamAPIPlayer { steamid: i.to_string(), personaname: n.to_string() };
    let players = vec![player("4", "x"), player("5", "y"), player("5", "z")];
    assert_eq!(User::name_among(&players, 5).as_deref(), Some("y"));
    assert_eq!(User::name_among(&players, 6), None);
    assert!(User::unchanged(Some(u.clone()), "Ada").is_some());
    assert!(User::unchanged(Some(u), "Bob").is_none());
    assert!(User::unchanged(None, "Bob").is_none());
    assert_eq!(user_channel_name(UserId(12)), "user:12");
}

#[test]
fn old_decks_are_brought_over() {
    assert!(is_wanted(None, UserId(1)));
    assert!(is_wanted(Some(UserId(1)), UserId(1)));
    assert!(!is_wanted(Some(UserId(1)), UserId(2)));
    let rows = vec![(-1, "https://x.org/1".to_string()), (4, "https://x.org/2".to_string())];
    let decks = decks_to_load(&rows).unwrap();
    assert_eq!(decks[0].user_id, UserId(u64::MAX));
    assert_eq!(decks[1].url.as_str(), "https://x.org/2");
    assert!(decks_to_load(&vec![(1, "x".to_string())]).is_err());
}

#[test]
fn urls_are_tidied_up() {
    let row = |n: u128, url: &str| DeckRow {
        id: DeckId(Uuid { bits: n }),
        user_id: 3,
        title: "t".to_string(),
        url: url.to_string(),
    };
    let decks = decks_to_check(&vec![row(1, "bad"), row(2, "https://x.org/")]);
    assert_eq!(decks.len(), 1);
    assert_eq!((decks[0].id, decks[0].user_id), (DeckId(Uuid { bits: 2 }), UserId(3)));
    let what = |u: &str| cleanup_deck(&Url::parse(u).unwrap()).unwrap();
    assert!(matches!(what("https://x.org/"), Cleanup::NoLoader));
    assert!(matches!(what("https://deckbox.org/sets/5/"), Cleanup::Fine));
    assert!(matches!(what("https://deckbox.org/sets/5"), Cleanup::Correct(u) if u.as_str() == "https://deckbox.org/sets/5/"));
    assert!(matches!(what("https://www.archidekt.com/decks/5#x"), Cleanup::Correct(u) if u.as_str() == "https://archidekt.com/decks/5"));
    let right = Url::parse("https://x.org/").unwrap();
    assert!(matches!(correction(right.clone(), true), Correction::Delete));
    assert!(matches!(correction(right, false), Correction::SetUrl(u) if u.as_str() == "https://x.org/"));
}

#[test]
fn migrations_are_applied_once() {
    assert!(apply_migration(true, "a").is_none());
    assert_eq!(apply_migration(false, "a\nb\n\nc").unwrap(), vec!["a\nb".to_string(), "c".to_string()]);
}

#[test]
fn servers_are_found() {
    assert_eq!(database_url("u", "p", "h", "5432", "n"), "postgresql://u:p@h:5432/n");
    assert_eq!(redis_url(None, Some("p"), "h", "6379"), "redis://:p@h:6379/");
    assert_eq!(redis_url(Some("u"), None, "h", "1"), "redis://u:@h:1/");
}
