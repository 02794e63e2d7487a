use nanum::config::{default_listen_addr, default_public_url, default_random_uri_length, parse_allowed_emails};
use nanum::error::ShareError;
use nanum::relay::{
    check_status, decimal_string, file_key_prefix, key_file, key_metadata, new_share_id, share_id_of_metadata_key,
    Fetch,
};
use nanum::session::{
    check_session, is_allowed, session_cookie, session_expiry, session_user, GitHubEmail, User, UserRejection,
};
use nanum::route::{DownloadProps, Route};
use nanum::statics::{static_file_kind, StaticKind};

fn strings(items: &[&str]) -> Vec<String> {
    items.iter().map(|s| s.to_string()).collect()
}

fn email(address: &str, verified: bool, primary: bool) -> GitHubEmail {
    GitHubEmail { email: address.to_string(), verified, primary }
}

#[test]
fn object_keys() {
    assert_eq!(key_file("ab12cd34", 1), "file/ab12cd34.1");
    assert_eq!(key_file("x", 1048576), "file/x.1048576");
    assert_eq!(key_metadata("ab12cd34"), "metadata/ab12cd34.json");
    assert_eq!(file_key_prefix("ab12cd34"), "file/ab12cd34.");
}

#[test]
fn decimal_strings() {
    assert_eq!(decimal_string(0), "0");
    assert_eq!(decimal_string(9), "9");
    assert_eq!(decimal_string(10), "10");
    assert_eq!(decimal_string(907), "907");
    assert_eq!(decimal_string(usize::MAX), usize::MAX.to_string());
}

#[test]
fn share_ids_from_metadata_keys() {
    assert_eq!(share_id_of_metadata_key("metadata/ab12cd34.json"), Some("ab12cd34".to_string()));
    assert_eq!(share_id_of_metadata_key("metadata/.json"), Some(String::new()));
    assert_eq!(share_id_of_metadata_key("metadata/ab12cd34.txt"), None);
    assert_eq!(share_id_of_metadata_key("file/ab12cd34.1"), None);
    assert_eq!(share_id_of_metadata_key("metadata.json"), None);
    assert_eq!(share_id_of_metadata_key("metadata/é.json"), Some("é".to_string()));
}

#[test]
fn new_share_ids() {
    let id = new_share_id(default_random_uri_length());
    assert_eq!(id.chars().count(), 8);
    assert!(id.chars().all(|c| c.is_ascii_lowercase() || c.is_ascii_digit()));
    assert_eq!(new_share_id(0), "");
    assert_ne!(new_share_id(32), new_share_id(32));
}

#[test]
fn relay_statuses() {
    assert_eq!(check_status(200, Fetch::Metadata), Ok(()));
    assert_eq!(check_status(204, Fetch::Block), Ok(()));
    assert_eq!(check_status(404, Fetch::Metadata), Err(ShareError::UnknownShare));
    assert_eq!(check_status(404, Fetch::Block), Err(ShareError::CiphertextCorrupted));
    assert_eq!(check_status(500, Fetch::Metadata), Err(ShareError::RelayError(500)));
    assert_eq!(check_status(403, Fetch::Block), Err(ShareError::RelayError(403)));
    assert_eq!(check_status(302, Fetch::Block), Err(ShareError::RelayError(302)));
}

#[test]
fn allowlist() {
    let allowed = strings(&["boss@example.com", "ops@example.com"]);
    assert!(is_allowed(&strings(&["me@home.net", "ops@example.com"]), &allowed));
    assert!(!is_allowed(&strings(&["me@home.net"]), &allowed));
    assert!(!is_allowed(&Vec::new(), &allowed));
    assert!(!is_allowed(&strings(&["ops@example.com"]), &Vec::new()));
}

#[test]
fn sessions() {
    let allowed = strings(&["ops@example.com"]);
    let user = User { primary_email: "ops@example.com".to_string(), emails: strings(&["ops@example.com"]), exp: 5 };
    assert_eq!(check_session(Some(user.clone()), &allowed), Ok(user));
    let stranger = User { primary_email: "x@y.z".to_string(), emails: strings(&["x@y.z"]), exp: 5 };
    assert_eq!(check_session(Some(stranger), &allowed), Err(UserRejection::Forbidden));
    assert_eq!(check_session(None, &allowed), Err(UserRejection::NotAuthorized));
}

#[test]
fn session_users() {
    let list = vec![
        email("old@example.com", false, false),
        email("work@example.com", true, false),
        email("home@example.com", true, true),
        email("alt@example.com", true, true),
    ];
    let user = session_user(&list, 99).expect("a verified email");
    assert_eq!(user.primary_email, "home@example.com");
    assert_eq!(user.emails, strings(&["work@example.com", "home@example.com", "alt@example.com"]));
    assert_eq!(user.exp, 99);

    let no_primary = vec![email("a@example.com", false, false), email("b@example.com", true, false)];
    assert_eq!(session_user(&no_primary, 1).expect("verified").primary_email, "b@example.com");

    let unverified_primary = vec![email("p@example.com", false, true), email("v@example.com", true, false)];
    let user = session_user(&unverified_primary, 1).expect("verified");
    assert_eq!(user.primary_email, "p@example.com");
    assert_eq!(user.emails, strings(&["v@example.com"]));

    assert_eq!(session_user(&vec![email("a@example.com", false, true)], 1), None);
    assert_eq!(session_user(&Vec::new(), 1), None);
}

#[test]
fn session_cookie_and_expiry() {
    assert_eq!(session_cookie("abc.def.ghi"), "session=abc.def.ghi; SameSite=Lax; Path=/");
    assert_eq!(session_expiry(1_700_000_000), 1_700_086_400);
}

#[test]
fn configuration_defaults() {
    assert_eq!(default_listen_addr(), "0.0.0.0:3000");
    assert_eq!(default_public_url(), "http://localhost:3000/");
    assert_eq!(default_random_uri_length(), 8);
}

#[test]
fn allowed_email_lists() {
    assert_eq!(parse_allowed_emails("a@x.com,b@y.org"), strings(&["a@x.com", "b@y.org"]));
    assert_eq!(parse_allowed_emails("solo@x.com"), strings(&["solo@x.com"]));
    assert_eq!(parse_allowed_emails(""), strings(&[""]));
    assert_eq!(parse_allowed_emails("a,,b,"), strings(&["a", "", "b", ""]));
}

#[test]
fn static_file_kinds() {
    assert_eq!(static_file_kind("index.js"), Some(StaticKind::JavaScript));
    assert_eq!(static_file_kind("style.css"), Some(StaticKind::Css));
    assert_eq!(static_file_kind("logo.png"), Some(StaticKind::Png));
    assert_eq!(static_file_kind("site.json"), Some(StaticKind::Json));
    assert_eq!(static_file_kind("favicon.ico"), Some(StaticKind::Icon));
    assert_eq!(static_file_kind("app.min.wasm"), Some(StaticKind::Wasm));
    assert_eq!(static_file_kind("wasm.txt"), None);
    assert_eq!(static_file_kind("README"), None);
    assert_eq!(static_file_kind("trailing."), None);
    let long = format!("{}.js", "a".repeat(998));
    assert_eq!(static_file_kind(&long), None);
    let edge = format!("{}.js", "a".repeat(997));
    assert_eq!(static_file_kind(&edge), Some(StaticKind::JavaScript));
}

#[test]
fn front_end_routes() {
    assert_eq!(Route::recognize("/"), Some(Route::Upload));
    assert_eq!(Route::recognize("/ab12cd34"), Some(Route::Download { id: "ab12cd34".to_string() }));
    assert_eq!(Route::recognize("/a/b"), None);
    assert_eq!(Route::recognize("ab12"), None);
    assert_eq!(Route::recognize(""), None);
    assert_eq!(Route::recognize("//"), None);
    assert_eq!(Route::Upload.to_path(), "/");
    let page = Route::Download { id: "xyz".to_string() };
    assert_eq!(page.to_path(), "/xyz");
    assert_eq!(Route::recognize(&page.to_path()), Some(page));
    let props = DownloadProps { id: "xyz".to_string() };
    assert_eq!(props.id, "xyz");
}
