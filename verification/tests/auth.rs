use base64::Engine;
use muserv::api::auth::{
    authenticate, challenge, constant_time_eq, identify, parse_basic, payload_of,
    read_credentials, require_library_read, CurrentUser,
};
use muserv::api::AppState;
use muserv::libraries::Library;
use muserv::users::{LibraryAccess, User};
use std::collections::HashMap;

#[test]
fn parses_valid_basic_header() {
    let header = format!(
        "Basic {}",
        base64::engine::general_purpose::STANDARD.encode("alan:secret")
    );
    assert_eq!(
        parse_basic(&header),
        Some(("alan".to_string(), "secret".to_string()))
    );
}

#[test]
fn rejects_non_basic_header() {
    assert_eq!(parse_basic("Bearer sometoken"), None);
}

#[test]
fn rejects_malformed_base64() {
    assert_eq!(parse_basic("Basic not-valid-base64!!"), None);
}

#[test]
fn constant_time_eq_matches_equal_slices() {
    assert!(constant_time_eq(b"abc", b"abc"));
    assert!(!constant_time_eq(b"abc", b"abd"));
    assert!(!constant_time_eq(b"abc", b"ab"));
}

#[test]
fn open_user_can_do_everything() {
    let user = CurrentUser::Open;
    assert!(user.can_read(1) && user.can_write(1) && user.can_upload(1));
}

fn user(name: &str, token: &str, grants: &[(i64, bool, bool, bool)]) -> User {
    let mut permissions: HashMap<i64, LibraryAccess> = HashMap::new();
    for (id, read, write, upload) in grants {
        permissions.insert(*id, LibraryAccess { read: *read, write: *write, upload: *upload });
    }
    User { username: name.to_string(), token: token.to_string(), permissions }
}

fn header(text: &str) -> String {
    format!("Basic {}", base64::engine::general_purpose::STANDARD.encode(text))
}

fn name_of(user: &CurrentUser) -> String {
    match user {
        CurrentUser::Open => "open".to_string(),
        CurrentUser::Authenticated(u) => u.username.clone(),
    }
}

fn state(users: Vec<User>) -> AppState {
    AppState {
        users,
        libraries: vec![
            Library { id: 1, name: "main".to_string(), path: "/m".to_string() },
            Library { id: 2, name: "podcasts".to_string(), path: "/p".to_string() },
        ],
        downloaders_path: None,
    }
}

#[test]
fn a_token_may_hold_colons_and_spaces() {
    assert_eq!(
        parse_basic(&header("alan:se:cret ")),
        Some(("alan".to_string(), "se:cret ".to_string()))
    );
    assert_eq!(parse_basic(&header("ünïcode:✓")), Some(("ünïcode".to_string(), "✓".to_string())));
    assert_eq!(parse_basic(&format!("Basic  {} ", &header("a:b")[6..])), Some(("a".to_string(), "b".to_string())));
}

#[test]
fn headers_without_credentials() {
    assert_eq!(parse_basic(&header("alan")), None);
    assert_eq!(parse_basic("Basic "), None);
    assert_eq!(parse_basic("basic YTpi"), None);
    assert_eq!(parse_basic("Basic YTpi="), None);
    let bytes = base64::engine::general_purpose::STANDARD.encode([0xff, b':', b'a']);
    assert_eq!(parse_basic(&format!("Basic {bytes}")), None);
}

#[test]
fn decoded_credentials() {
    assert_eq!(payload_of("Basic  YTpi "), Some("YTpi".to_string()));
    assert_eq!(payload_of("Bearer YTpi"), None);
    assert_eq!(
        read_credentials(Some(b"a:b".to_vec())),
        Some(("a".to_string(), "b".to_string()))
    );
    assert_eq!(read_credentials(Some(b"ab".to_vec())), None);
    assert_eq!(read_credentials(Some(vec![0xff, b':'])), None);
    assert_eq!(read_credentials(None), None);
}

#[test]
fn without_users_the_api_is_open() {
    let users: Vec<User> = Vec::new();
    assert_eq!(name_of(&authenticate(&users, None).unwrap()), "open");
    assert_eq!(name_of(&authenticate(&users, Some("Bearer x")).unwrap()), "open");
}

#[test]
fn users_are_admitted_by_name_and_token() {
    let users = vec![user("alan", "secret", &[]), user("bob", "hunter2", &[])];
    assert_eq!(name_of(&authenticate(&users, Some(&header("bob:hunter2"))).unwrap()), "bob");
    for text in ["bob:secret", "alan:secre", "alan:secret ", "eve:secret", ":", "alan"] {
        let err = authenticate(&users, Some(&header(text))).err().unwrap();
        assert_eq!((err.status, err.message.as_str()), (401, "unauthorized"), "{text}");
    }
    assert_eq!(authenticate(&users, None).err().unwrap().status, 401);
    assert_eq!(challenge(), "Basic realm=\"muserv\"");
}

#[test]
fn the_first_user_of_a_name_counts() {
    let users = vec![user("alan", "one", &[]), user("alan", "two", &[])];
    assert!(identify(&users, Some(("alan".to_string(), "one".to_string()))).is_ok());
    assert!(identify(&users, Some(("alan".to_string(), "two".to_string()))).is_err());
    assert!(identify(&users, None).is_err());
}

#[test]
fn access_is_checked_by_kind() {
    let alan = user("alan", "t", &[(1, true, false, true), (2, false, true, false)]);
    let current = authenticate(&vec![alan], Some(&header("alan:t"))).unwrap();
    assert!(current.can_read(1) && !current.can_write(1) && current.can_upload(1));
    assert!(!current.can_read(2) && current.can_write(2) && !current.can_upload(2));
    assert!(!current.can_read(3) && !current.can_write(3) && !current.can_upload(3));
    assert!(current.require_write(2).is_ok());
    assert!(current.require_upload(1).is_ok());
    let err = current.require_write(1).err().unwrap();
    assert_eq!((err.status, err.message.as_str()), (403, "write access required"));
    let err = current.require_upload(2).err().unwrap();
    assert_eq!((err.status, err.message.as_str()), (403, "upload access required"));
}

#[test]
fn unreadable_libraries_are_unknown() {
    let state = state(vec![user("alan", "t", &[(1, true, false, false)])]);
    let current = authenticate(&state.users, Some(&header("alan:t"))).unwrap();
    assert!(require_library_read(&state, &current, Some("1")).is_ok());
    assert!(require_library_read(&state, &current, Some("+1")).is_ok());
    for param in [Some("2"), Some("3"), Some("x"), Some(""), None] {
        let err = require_library_read(&state, &current, param).err().unwrap();
        assert_eq!((err.status, err.message.as_str()), (404, "library not found"), "{param:?}");
    }
    assert_eq!(state.get_library(&current, 1).unwrap().name, "main");
    let hidden = state.get_library(&current, 2).err().unwrap();
    let missing = state.get_library(&current, 3).err().unwrap();
    assert_eq!((hidden.status, hidden.message), (missing.status, missing.message));
    let ids: Vec<i64> = state.list_libraries(&current).iter().map(|l| l.id).collect();
    assert_eq!(ids, vec![1]);
}

#[test]
fn an_open_api_shows_every_library() {
    let state = state(Vec::new());
    let ids: Vec<i64> = state.list_libraries(&CurrentUser::Open).iter().map(|l| l.id).collect();
    assert_eq!(ids, vec![1, 2]);
    assert!(require_library_read(&state, &CurrentUser::Open, Some("2")).is_ok());
    assert!(require_library_read(&state, &CurrentUser::Open, Some("3")).is_err());
    assert_eq!(state.require_library(2).unwrap().name, "podcasts");
    assert_eq!(state.require_library(3).err().unwrap().status, 404);
    assert!(state.require_library_write(&CurrentUser::Open, 1).is_ok());
    assert_eq!(state.require_library_write(&CurrentUser::Open, 3).err().unwrap().status, 404);
    assert_eq!(state.require_library_upload(&CurrentUser::Open, 2).unwrap().id, 2);
}
