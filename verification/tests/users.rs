use muserv::config::{Config, LibraryConfig, UserConfig, UserLibraryPermission};
use muserv::libraries::{database_name, describe_all, find_named, Library};
use muserv::users::{resolve, LibraryAccess};

fn lib(id: i64, name: &str) -> Library {
    Library {
        id,
        name: name.to_string(),
        path: "/tmp/x".to_string(),
    }
}

fn lib_cfg(name: &str, read: &[&str], write: &[&str], upload: &[&str]) -> LibraryConfig {
    LibraryConfig {
        name: name.to_string(),
        path: "/tmp/x".into(),
        read_users: read.iter().map(|s| s.to_string()).collect(),
        write_users: write.iter().map(|s| s.to_string()).collect(),
        upload_users: upload.iter().map(|s| s.to_string()).collect(),
    }
}

fn user_cfg(username: &str) -> UserConfig {
    UserConfig {
        username: username.to_string(),
        token: "tok".to_string(),
        permissions: Vec::new(),
    }
}

fn config(libraries: Vec<LibraryConfig>, users: Vec<UserConfig>) -> Config {
    Config {
        bind: "127.0.0.1:7700".to_string(),
        libraries,
        users,
        downloaders_path: None,
    }
}

#[test]
fn resolves_names_to_ids() {
    let libraries = vec![lib(1, "main"), lib(2, "podcasts")];
    let cfg = config(
        vec![lib_cfg("main", &[], &[], &[]), lib_cfg("podcasts", &["alan"], &[], &[])],
        vec![user_cfg("alan")],
    );
    let users = resolve(&cfg, &libraries).unwrap();
    assert_eq!(users.len(), 1);
    assert_eq!(
        users[0].access(2),
        LibraryAccess {
            read: true,
            write: false,
            upload: false
        }
    );
    // No entry for library 1 → all-false default.
    assert_eq!(users[0].access(1), LibraryAccess::default());
}

#[test]
fn missing_library_id_defaults_to_no_access() {
    let libraries = vec![lib(1, "main")];
    let cfg = config(vec![lib_cfg("main", &[], &[], &[])], vec![user_cfg("alan")]);
    let users = resolve(&cfg, &libraries).unwrap();
    assert_eq!(users[0].access(1), LibraryAccess::default());
}

fn grant(name: &str, read: bool, write: bool, upload: bool) -> UserLibraryPermission {
    UserLibraryPermission { name: name.to_string(), read, write, upload }
}

#[test]
fn each_list_grants_its_own_access() {
    let libraries = vec![lib(1, "main"), lib(2, "podcasts")];
    let cfg = config(
        vec![
            lib_cfg("main", &["alan", "bob"], &[" bob "], &[]),
            lib_cfg("podcasts", &[], &[], &["alan"]),
        ],
        vec![user_cfg(" alan "), user_cfg("bob")],
    );
    let users = resolve(&cfg, &libraries).unwrap();
    assert_eq!(users[0].username, "alan");
    assert_eq!(users[0].token, "tok");
    assert_eq!(users[0].access(1), LibraryAccess { read: true, write: false, upload: false });
    assert_eq!(users[0].access(2), LibraryAccess { read: false, write: false, upload: true });
    assert_eq!(users[1].access(1), LibraryAccess { read: true, write: true, upload: false });
    assert_eq!(users[1].access(2), LibraryAccess::default());
    assert_eq!(users[1].access(3), LibraryAccess::default());
}

#[test]
fn permissions_grant_beside_the_lists() {
    let libraries = vec![lib(1, "main")];
    let mut alan = user_cfg("alan");
    alan.permissions.push(grant(" main ", false, true, false));
    let cfg = config(vec![lib_cfg("main", &["alan"], &[], &[])], vec![alan]);
    let users = resolve(&cfg, &libraries).unwrap();
    assert_eq!(users[0].access(1), LibraryAccess { read: true, write: true, upload: false });
}

#[test]
fn resolving_refuses_unknown_names() {
    let cfg = config(vec![lib_cfg("main", &["bob"], &[], &[])], vec![user_cfg("alan")]);
    let err = resolve(&cfg, &[lib(1, "main")]).unwrap_err();
    assert_eq!(err.message(), "library main references unknown user: bob");

    let cfg = config(vec![lib_cfg("main", &[], &[], &[])], vec![user_cfg("alan")]);
    let err = resolve(&cfg, &[lib(1, "other")]).unwrap_err();
    assert_eq!(err.message(), "library main not found while resolving users");
}

#[test]
fn libraries_are_numbered_from_one() {
    let cfg = vec![lib_cfg(" main ", &[], &[], &[]), lib_cfg("podcasts", &[], &[], &[])];
    let libraries = describe_all(&cfg);
    assert_eq!(libraries.len(), 2);
    assert_eq!((libraries[0].id, libraries[0].name.as_str()), (1, "main"));
    assert_eq!((libraries[1].id, libraries[1].name.as_str()), (2, "podcasts"));
    assert_eq!(libraries[0].path, "/tmp/x");
    assert_eq!(libraries[0].root(), "/tmp/x");
    assert_eq!(find_named(&libraries, "podcasts"), Some(1));
    assert_eq!(find_named(&libraries, "nope"), None);
    assert_eq!(database_name(), "library.db");
}

#[test]
fn what_is_configured_is_what_is_granted() {
    let mut alan = user_cfg("alan");
    alan.permissions.push(grant("podcasts", true, false, true));
    let mut cfg = config(
        vec![lib_cfg("main", &["alan"], &[], &[]), lib_cfg("podcasts", &[], &["alan"], &[])],
        vec![alan, user_cfg("bob")],
    );
    assert!(cfg.normalize().is_ok());
    let users = resolve(&cfg, &describe_all(&cfg.libraries)).unwrap();
    assert_eq!(users[0].access(1), LibraryAccess { read: true, write: false, upload: false });
    assert_eq!(users[0].access(2), LibraryAccess { read: true, write: true, upload: true });
    assert_eq!(users[1].access(1), LibraryAccess::default());
    assert_eq!(users[1].access(2), LibraryAccess::default());
}

#[test]
fn added_libraries_leave_ids_alone() {
    let mut cfg = vec![lib_cfg("main", &[], &[], &[])];
    let before = describe_all(&cfg);
    cfg.push(lib_cfg("podcasts", &[], &[], &[]));
    let after = describe_all(&cfg);
    assert_eq!((after[0].id, after[0].name.as_str()), (before[0].id, before[0].name.as_str()));
    assert_ne!(after[0].id, after[1].id);
}
