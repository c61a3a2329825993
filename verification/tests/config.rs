use muserv::config::{
    default_config_path, Config, ConfigError, LibraryConfig, UserConfig, UserLibraryPermission,
};

const BASE: &str = r#"
        bind = "127.0.0.1:7700"
        [[library]]
        name = "main"
        path = "/tmp/main"
    "#;

fn text(table: &toml::Table, key: &str) -> String {
    match table.get(key) {
        Some(toml::Value::String(s)) => s.clone(),
        _ => String::new(),
    }
}

fn flag(table: &toml::Table, key: &str) -> bool {
    matches!(table.get(key), Some(toml::Value::Boolean(true)))
}

fn names(table: &toml::Table, key: &str) -> Vec<String> {
    match table.get(key) {
        Some(toml::Value::Array(items)) => {
            items.iter().filter_map(|v| v.as_str()).map(|s| s.to_string()).collect()
        }
        _ => Vec::new(),
    }
}

fn tables<'a>(table: &'a toml::Table, key: &str) -> Vec<&'a toml::Table> {
    match table.get(key) {
        Some(toml::Value::Array(items)) => items.iter().filter_map(|v| v.as_table()).collect(),
        _ => Vec::new(),
    }
}

fn read(toml_str: &str) -> Config {
    let root: toml::Table = toml_str.parse().expect("parsing config");
    Config {
        bind: text(&root, "bind"),
        libraries: tables(&root, "library")
            .into_iter()
            .map(|lib| LibraryConfig {
                name: text(lib, "name"),
                path: text(lib, "path"),
                read_users: names(lib, "read_users"),
                write_users: names(lib, "write_users"),
                upload_users: names(lib, "upload_users"),
            })
            .collect(),
        users: tables(&root, "user")
            .into_iter()
            .map(|user| UserConfig {
                username: text(user, "username"),
                token: text(user, "token"),
                permissions: tables(user, "library")
                    .into_iter()
                    .map(|p| UserLibraryPermission {
                        name: text(p, "name"),
                        read: flag(p, "read"),
                        write: flag(p, "write"),
                        upload: flag(p, "upload"),
                    })
                    .collect(),
            })
            .collect(),
        downloaders_path: root.get("downloaders_path").and_then(|v| v.as_str()).map(|s| s.to_string()),
    }
}

fn parse(toml_str: &str) -> Result<Config, ConfigError> {
    let mut cfg = read(toml_str);
    cfg.normalize()?;
    Ok(cfg)
}

#[test]
fn no_users_is_valid_config() {
    let cfg = parse(BASE).unwrap();
    assert!(cfg.users.is_empty());
}

#[test]
fn valid_user_with_permissions() {
    let toml_str = format!(
        "{BASE}\n[[user]]\nusername = \"alan\"\ntoken = \"secret\"\n  [[user.library]]\n  name = \"main\"\n  read = true\n"
    );
    let cfg = parse(&toml_str).unwrap();
    assert_eq!(cfg.users.len(), 1);
    assert!(cfg.users[0].permissions[0].read);
}

#[test]
fn rejects_permission_for_unknown_library() {
    let toml_str = format!(
        "{BASE}\n[[user]]\nusername = \"alan\"\ntoken = \"secret\"\n  [[user.library]]\n  name = \"nope\"\n  read = true\n"
    );
    let err = parse(&toml_str).unwrap_err();
    assert!(err.message().contains("unknown library"), "{}", err.message());
}

#[test]
fn rejects_duplicate_username() {
    let toml_str = format!(
        "{BASE}\n[[user]]\nusername = \"alan\"\ntoken = \"a\"\n[[user]]\nusername = \"alan\"\ntoken = \"b\"\n"
    );
    let err = parse(&toml_str).unwrap_err();
    assert!(err.message().contains("duplicate username"), "{}", err.message());
}

#[test]
fn rejects_empty_token() {
    let toml_str = format!("{BASE}\n[[user]]\nusername = \"alan\"\ntoken = \"\"\n");
    let err = parse(&toml_str).unwrap_err();
    assert!(err.message().contains("empty token"), "{}", err.message());
}

fn library(name: &str) -> LibraryConfig {
    LibraryConfig {
        name: name.to_string(),
        path: "/tmp/main".to_string(),
        read_users: Vec::new(),
        write_users: Vec::new(),
        upload_users: Vec::new(),
    }
}

fn user(username: &str, token: &str, libraries: &[&str]) -> UserConfig {
    UserConfig {
        username: username.to_string(),
        token: token.to_string(),
        permissions: libraries
            .iter()
            .map(|name| UserLibraryPermission {
                name: name.to_string(),
                read: true,
                write: false,
                upload: false,
            })
            .collect(),
    }
}

fn problem(libraries: Vec<LibraryConfig>, users: Vec<UserConfig>) -> String {
    let mut cfg = Config {
        bind: "127.0.0.1:7700".to_string(),
        libraries,
        users,
        downloaders_path: None,
    };
    match cfg.normalize() {
        Ok(()) => String::new(),
        Err(e) => e.message(),
    }
}

#[test]
fn every_problem_is_told() {
    assert_eq!(
        problem(vec![], vec![]),
        "config has no libraries — add at least one [[library]] section"
    );
    assert_eq!(problem(vec![library(" \t")], vec![]), "library has empty name");
    assert_eq!(
        problem(vec![library("main"), library(" main ")], vec![]),
        "duplicate library name: main"
    );
    assert_eq!(
        problem(vec![library("main")], vec![user(" ", "t", &[])]),
        "user has empty username"
    );
    assert_eq!(
        problem(vec![library("main")], vec![user("alan", "t", &[]), user(" alan", "u", &[])]),
        "duplicate username: alan"
    );
    assert_eq!(
        problem(vec![library("main")], vec![user("alan", " ", &[])]),
        "user alan has empty token"
    );
    assert_eq!(
        problem(vec![library("main")], vec![user("alan", "t", &["nope"])]),
        "user alan references unknown library: nope"
    );
    assert_eq!(
        problem(vec![library("main")], vec![user("alan", "t", &["main", " main"])]),
        "user alan has duplicate permission entry for library: main"
    );
    let mut listed = library("main");
    listed.upload_users.push(" bob ".to_string());
    assert_eq!(
        problem(vec![listed], vec![user("alan", "t", &[])]),
        "library main references unknown user: bob"
    );
}

#[test]
fn names_may_have_white_space_around_them() {
    let mut listed = library(" main ");
    listed.read_users.push(" alan ".to_string());
    assert_eq!(problem(vec![listed], vec![user(" alan ", "t", &[" main "])]), "");
}

#[test]
fn the_configuration_is_left_as_it_is() {
    let mut cfg = read(&format!(
        "{BASE}\ndownloaders_path_unused = 1\n[[user]]\nusername = \" alan \"\ntoken = \" t \"\n"
    ));
    assert!(cfg.normalize().is_ok());
    assert_eq!(cfg.bind, "127.0.0.1:7700");
    assert_eq!(cfg.users[0].username, " alan ");
    assert_eq!(cfg.users[0].token, " t ");
    assert_eq!(cfg.libraries[0].path, "/tmp/main");
    assert_eq!(cfg.downloaders_path, None);
}

#[test]
fn default_place_of_the_configuration() {
    let place = |xdg: Option<&'static str>, home: Option<&'static str>| {
        let empty = xdg == Some("");
        let place = default_config_path(xdg, empty, home);
        (place.base, place.names.join("/"))
    };
    assert_eq!(
        place(Some("/xdg"), Some("/home/me")),
        (Some("/xdg"), "muserv/config.toml".to_string())
    );
    let beside = ".config/muserv/config.toml".to_string();
    assert_eq!(place(Some(""), Some("/home/me")), (Some("/home/me"), beside.clone()));
    assert_eq!(place(None, Some("/home/me")), (Some("/home/me"), beside.clone()));
    assert_eq!(place(None, None), (None, beside));
}
