//! Users and their access to libraries.

use std::collections::HashMap;
use vstd::prelude::*;

use crate::config::{
    lemma_list_problem, normalize_accepts_well_formed, Config, ConfigError, ConfigProblem,
    LibraryConfig, UserConfig,
};
use crate::libraries::{described, Library};
use crate::text::{first_some, lemma_first_some_none, lemma_first_some_stays, texts, trimmed};

verus! {

broadcast use vstd::std_specs::hash::group_hash_axioms;

/// A user's access to a single library. All fields default to `false` for
/// any library not explicitly listed in the configuration.
#[derive(Debug, Clone, Copy, PartialEq, Eq, Structural)]
pub struct LibraryAccess {
    pub read: bool,
    pub write: bool,
    pub upload: bool,
}

/// No access at all.
pub open spec fn no_access() -> LibraryAccess {
    LibraryAccess { read: false, write: false, upload: false }
}

impl Default for LibraryAccess {
    fn default() -> (r: Self)
        ensures
            r == no_access(),
    {
        LibraryAccess { read: false, write: false, upload: false }
    }
}

/// What either of two grants allows.
pub open spec fn either(a: LibraryAccess, b: LibraryAccess) -> LibraryAccess {
    LibraryAccess {
        read: a.read || b.read,
        write: a.write || b.write,
        upload: a.upload || b.upload,
    }
}

/// A user account.
#[derive(Debug)]
pub struct User {
    pub username: String,
    pub token: String,
    /// Keyed by library id (see `Library::id`), not name: resolved once at
    /// startup so request handling never has to do name lookups.
    pub permissions: HashMap<i64, LibraryAccess>,
}

impl Clone for User {
    fn clone(&self) -> (r: Self)
        ensures
            r.username@ == self.username@,
            r.token@ == self.token@,
            r.permissions@ == self.permissions@,
    {
        User {
            username: self.username.clone(),
            token: self.token.clone(),
            permissions: self.permissions.clone(),
        }
    }
}

/// The access that `permissions` give to the library `id`.
pub open spec fn access_in(permissions: Map<i64, LibraryAccess>, id: i64) -> LibraryAccess {
    if permissions.contains_key(id) {
        permissions[id]
    } else {
        no_access()
    }
}

impl User {
    /// The user's access to the library `library_id`.
    pub fn access(&self, library_id: i64) -> (r: LibraryAccess)
        ensures
            r == access_in(self.permissions@, library_id),
    {
        match self.permissions.get(&library_id) {
            Some(access) => *access,
            None => LibraryAccess::default(),
        }
    }
}

/// The id of the last library called `name`.
pub open spec fn library_id(libraries: Seq<Library>, name: Seq<char>) -> Option<i64>
    decreases libraries.len(),
{
    if libraries.len() == 0 {
        None
    } else if libraries.last().name@ == name {
        Some(libraries.last().id)
    } else {
        library_id(libraries.drop_last(), name)
    }
}

/// Whether a list of users holds `username`, up to white space around it.
pub open spec fn names_user(list: Seq<String>, username: Seq<char>) -> bool {
    exists|k: int| 0 <= k < list.len() && trimmed(#[trigger] list[k]@) == username
}

/// What the lists of one library grant to `username`.
pub open spec fn list_grant(lib: LibraryConfig, username: Seq<char>) -> LibraryAccess {
    LibraryAccess {
        read: names_user(lib.read_users@, username),
        write: names_user(lib.write_users@, username),
        upload: names_user(lib.upload_users@, username),
    }
}

/// What the lists of the first `n` libraries of a configuration grant to
/// `username` in the library `id`.
pub open spec fn listed_access(
    cfg: Config,
    libraries: Seq<Library>,
    n: nat,
    username: Seq<char>,
    id: i64,
) -> LibraryAccess
    decreases n,
{
    if n == 0 {
        no_access()
    } else {
        let rest = listed_access(cfg, libraries, (n - 1) as nat, username, id);
        let lib = cfg.libraries@[n - 1];
        if library_id(libraries, lib.name@) == Some(id) {
            either(rest, list_grant(lib, username))
        } else {
            rest
        }
    }
}

/// What the first `n` entries of a user's own permissions grant in the library
/// `id`.
pub open spec fn own_access(user: UserConfig, libraries: Seq<Library>, n: nat, id: i64) -> LibraryAccess
    decreases n,
{
    if n == 0 {
        no_access()
    } else {
        let rest = own_access(user, libraries, (n - 1) as nat, id);
        let p = user.permissions@[n - 1];
        if library_id(libraries, trimmed(p.name@)) == Some(id) {
            either(rest, LibraryAccess { read: p.read, write: p.write, upload: p.upload })
        } else {
            rest
        }
    }
}

/// What a configuration grants to its user `i` in the library `id`: what the
/// libraries' lists grant to the name, where no user before has the same name,
/// and what the user's own permissions grant.
pub open spec fn granted(cfg: Config, libraries: Seq<Library>, i: int, id: i64) -> LibraryAccess {
    let user = cfg.users@[i];
    let own = own_access(user, libraries, user.permissions@.len(), id);
    if cfg.user_names(i as nat).contains(cfg.user_name(i)) {
        own
    } else {
        either(
            listed_access(cfg, libraries, cfg.libraries@.len(), cfg.user_name(i), id),
            own,
        )
    }
}

/// What is wrong with library `k` of a configuration where users are resolved.
pub open spec fn unresolved_library(
    cfg: Config,
    libraries: Seq<Library>,
) -> spec_fn(int) -> Option<ConfigProblem> {
    |k: int|
        if library_id(libraries, cfg.libraries@[k].name@) is None {
            Some(ConfigProblem::LibraryNotFound { name: cfg.libraries@[k].name@ })
        } else {
            cfg.grant_problem(k)
        }
}

/// What is wrong with entry `k` of a user's own permissions.
pub open spec fn unresolved_permission(
    user: UserConfig,
    libraries: Seq<Library>,
) -> spec_fn(int) -> Option<ConfigProblem> {
    |k: int|
        if library_id(libraries, trimmed(user.permissions@[k].name@)) is None {
            Some(ConfigProblem::LibraryNotFound { name: trimmed(user.permissions@[k].name@) })
        } else {
            None
        }
}

/// What is wrong with user `i` of a configuration where users are resolved.
pub open spec fn unresolved_user(
    cfg: Config,
    libraries: Seq<Library>,
) -> spec_fn(int) -> Option<ConfigProblem> {
    |i: int|
        first_some(
            cfg.users@[i].permissions@.len(),
            unresolved_permission(cfg.users@[i], libraries),
        )
}

/// The first thing that keeps the users of a configuration from being resolved.
pub open spec fn resolve_problem(cfg: Config, libraries: Seq<Library>) -> Option<ConfigProblem> {
    let found = first_some(cfg.libraries@.len(), unresolved_library(cfg, libraries));
    if found is Some {
        found
    } else {
        first_some(cfg.users@.len(), unresolved_user(cfg, libraries))
    }
}

/// Whether `user` is what user `i` of a configuration resolves to.
pub open spec fn resolved(cfg: Config, libraries: Seq<Library>, i: int, user: User) -> bool {
    &&& user.username@ == cfg.user_name(i)
    &&& user.token@ == cfg.users@[i].token@
    &&& forall|id: i64| #[trigger]
        user.permissions@.contains_key(id) <==> granted(cfg, libraries, i, id) != no_access()
    &&& forall|id: i64|
        #![trigger access_in(user.permissions@, id)]
        access_in(user.permissions@, id) == granted(cfg, libraries, i, id)
}

/// The id of the last library called `name`.
fn find_id(libraries: &[Library], name: &str) -> (r: Option<i64>)
    ensures
        r == library_id(libraries@, name@),
{
    let mut i: usize = libraries.len();
    assert(libraries@.take(i as int) =~= libraries@);
    while i > 0
        invariant
            i <= libraries@.len(),
            library_id(libraries@, name@) == library_id(libraries@.take(i as int), name@),
        decreases i,
    {
        assert(libraries@.take(i as int).last() == libraries@[i - 1]);
        if *libraries[i - 1].name.as_str() == *name {
            return Some(libraries[i - 1].id);
        }
        assert(libraries@.take(i as int).drop_last() =~= libraries@.take(i - 1));
        i -= 1;
    }
    None
}

/// Whether `list` holds `username`, up to white space around it.
fn listed(list: &Vec<String>, username: &str) -> (r: bool)
    ensures
        r == names_user(list@, username@),
{
    let mut k: usize = 0;
    while k < list.len()
        invariant
            k <= list@.len(),
            forall|j: int| 0 <= j < k ==> trimmed(#[trigger] list@[j]@) != username@,
        decreases list@.len() - k,
    {
        if *list[k].as_str().trim() == *username {
            assert(trimmed(list@[k as int]@) == username@);
            return true;
        }
        k += 1;
    }
    false
}

/// Adds a grant to what `permissions` give in the library `id`.
fn grant(permissions: &mut HashMap<i64, LibraryAccess>, id: i64, add: LibraryAccess)
    ensures
        add == no_access() ==> final(permissions)@ == old(permissions)@,
        add != no_access() ==> final(permissions)@ == old(permissions)@.insert(
            id,
            either(access_in(old(permissions)@, id), add),
        ),
{
    if !(add.read || add.write || add.upload) {
        return;
    }
    let now = match permissions.get(&id) {
        Some(access) => *access,
        None => LibraryAccess::default(),
    };
    permissions.insert(
        id,
        LibraryAccess {
            read: now.read || add.read,
            write: now.write || add.write,
            upload: now.upload || add.upload,
        },
    );
}

/// Whether `permissions` give in each library exactly what `f` says, with an
/// entry only where that is something.
spec fn gives(permissions: Map<i64, LibraryAccess>, f: spec_fn(i64) -> LibraryAccess) -> bool {
    &&& forall|id: i64| #[trigger] permissions.contains_key(id) <==> f(id) != no_access()
    &&& forall|id: i64| #[trigger] permissions.contains_key(id) ==> permissions[id] == f(id)
}

/// Resolves user `i`'s access to every library.
fn resolve_user(cfg: &Config, libraries: &[Library], i: usize) -> (r: User)
    requires
        i < cfg.users@.len(),
    ensures
        resolved(*cfg, libraries@, i as int, r),
{
    let user = &cfg.users[i];
    let username = user.username.as_str().trim();
    let ghost name = cfg.user_name(i as int);
    let mut permissions: HashMap<i64, LibraryAccess> = HashMap::new();
    let mut first = true;
    let mut j: usize = 0;
    while j < i
        invariant
            j <= i < cfg.users@.len(),
            username@ == name,
            name == cfg.user_name(i as int),
            first == !cfg.user_names(j as nat).contains(name),
        decreases i - j,
    {
        let same = *cfg.users[j].username.as_str().trim() == *username;
        let ghost seen = cfg.user_names(j as nat);
        assert(cfg.user_names((j + 1) as nat) =~= seen.push(cfg.user_name(j as int)));
        proof {
            if seen.contains(name) {
                let k = seen.index_of(name);
                assert(seen.push(cfg.user_name(j as int))[k] == name);
            }
            if same {
                assert(seen.push(cfg.user_name(j as int))[j as int] == name);
            }
        }
        first = first && !same;
        j += 1;
    }
    if first {
        let mut k: usize = 0;
        assert(gives(permissions@, |id: i64| listed_access(*cfg, libraries@, 0, name, id)));
        while k < cfg.libraries.len()
            invariant
                k <= cfg.libraries@.len(),
                username@ == name,
                gives(
                    permissions@,
                    |id: i64| listed_access(*cfg, libraries@, k as nat, name, id),
                ),
            decreases cfg.libraries@.len() - k,
        {
            let lib = &cfg.libraries[k];
            let add = LibraryAccess {
                read: listed(&lib.read_users, username),
                write: listed(&lib.write_users, username),
                upload: listed(&lib.upload_users, username),
            };
            match find_id(libraries, lib.name.as_str()) {
                Some(id) => {
                    grant(&mut permissions, id, add);
                },
                None => {},
            }
            k += 1;
            assert(gives(
                permissions@,
                |id: i64| listed_access(*cfg, libraries@, k as nat, name, id),
            ));
        }
    }
    let ghost base = |id: i64|
        if first {
            listed_access(*cfg, libraries@, cfg.libraries@.len(), name, id)
        } else {
            no_access()
        };
    let mut p: usize = 0;
    assert(gives(
        permissions@,
        |id: i64| either(base(id), own_access(*user, libraries@, 0, id)),
    ));
    while p < user.permissions.len()
        invariant
            p <= user.permissions@.len(),
            gives(
                permissions@,
                |id: i64| either(base(id), own_access(*user, libraries@, p as nat, id)),
            ),
        decreases user.permissions@.len() - p,
    {
        let entry = &user.permissions[p];
        let add = LibraryAccess {
            read: entry.read,
            write: entry.write,
            upload: entry.upload,
        };
        match find_id(libraries, entry.name.as_str().trim()) {
            Some(id) => {
                grant(&mut permissions, id, add);
            },
            None => {},
        }
        p += 1;
        assert(gives(
            permissions@,
            |id: i64| either(base(id), own_access(*user, libraries@, p as nat, id)),
        ));
    }
    User { username: username.to_owned(), token: user.token.clone(), permissions }
}

/// Checks that library `k` of a configuration is known and lists known users.
fn check_library(cfg: &Config, libraries: &[Library], usernames: &Vec<String>, k: usize) -> (r:
    Result<(), ConfigError>)
    requires
        k < cfg.libraries@.len(),
        texts(usernames@) == cfg.user_names(cfg.users@.len()),
    ensures
        match r {
            Ok(()) => (unresolved_library(*cfg, libraries@))(k as int) is None,
            Err(e) => (unresolved_library(*cfg, libraries@))(k as int) == Some(e@),
        },
{
    let name = &cfg.libraries[k].name;
    match find_id(libraries, name.as_str()) {
        None => Err(ConfigError::LibraryNotFound { name: name.clone() }),
        Some(_) => cfg.check_grants(k, usernames),
    }
}

/// Checks that a user's own permissions are for known libraries.
fn check_user(user: &UserConfig, libraries: &[Library]) -> (r: Result<(), ConfigError>)
    ensures
        match r {
            Ok(()) => first_some(
                user.permissions@.len(),
                unresolved_permission(*user, libraries@),
            ) is None,
            Err(e) => first_some(
                user.permissions@.len(),
                unresolved_permission(*user, libraries@),
            ) == Some(e@),
        },
{
    let ghost problems = unresolved_permission(*user, libraries@);
    let total = user.permissions.len();
    let mut k: usize = 0;
    while k < total
        invariant
            k <= total == user.permissions@.len(),
            problems == unresolved_permission(*user, libraries@),
            first_some(k as nat, problems) is None,
        decreases total - k,
    {
        let name = user.permissions[k].name.as_str().trim();
        assert(first_some((k + 1) as nat, problems) == problems(k as int));
        if find_id(libraries, name).is_none() {
            proof {
                lemma_first_some_stays((k + 1) as nat, total as nat, problems);
            }
            return Err(ConfigError::LibraryNotFound { name: name.to_owned() });
        }
        k += 1;
    }
    Ok(())
}

/// Resolves the names in the configuration, those of the libraries' lists
/// (`read_users`, `write_users`, `upload_users`) and those of the users' own
/// permissions, into id-based `User`s. Errors if a library is not among
/// `libraries` or names a user that doesn't match any configured `[[user]]`.
/// `Config::normalize` already checks the latter, so it should only trip if
/// that validation is ever bypassed.
pub fn resolve(cfg: &Config, libraries: &[Library]) -> (r: Result<Vec<User>, ConfigError>)
    ensures
        match r {
            Ok(users) => {
                &&& resolve_problem(*cfg, libraries@) is None
                &&& users@.len() == cfg.users@.len()
                &&& forall|i: int|
                    0 <= i < users@.len() ==> resolved(
                        *cfg,
                        libraries@,
                        i,
                        #[trigger] users@[i],
                    )
            },
            Err(e) => resolve_problem(*cfg, libraries@) == Some(e@),
        },
{
    let mut usernames: Vec<String> = Vec::new();
    let mut n: usize = 0;
    let users_total = cfg.users.len();
    assert(texts(usernames@) =~= cfg.user_names(0));
    while n < users_total
        invariant
            n <= users_total == cfg.users@.len(),
            texts(usernames@) == cfg.user_names(n as nat),
        decreases users_total - n,
    {
        let ghost before = texts(usernames@);
        usernames.push(cfg.users[n].username.as_str().trim().to_owned());
        assert(texts(usernames@) =~= before.push(cfg.user_name(n as int)));
        assert(texts(usernames@) =~= cfg.user_names((n + 1) as nat));
        n += 1;
    }
    let ghost library_problems = unresolved_library(*cfg, libraries@);
    let total = cfg.libraries.len();
    let mut k: usize = 0;
    while k < total
        invariant
            k <= total == cfg.libraries@.len(),
            texts(usernames@) == cfg.user_names(cfg.users@.len()),
            library_problems == unresolved_library(*cfg, libraries@),
            first_some(k as nat, library_problems) is None,
        decreases total - k,
    {
        assert(first_some((k + 1) as nat, library_problems) == library_problems(k as int));
        match check_library(cfg, libraries, &usernames, k) {
            Ok(()) => {},
            Err(e) => {
                proof {
                    lemma_first_some_stays((k + 1) as nat, total as nat, library_problems);
                }
                return Err(e);
            },
        }
        k += 1;
    }
    let ghost user_problems = unresolved_user(*cfg, libraries@);
    let mut users: Vec<User> = Vec::new();
    let mut i: usize = 0;
    while i < users_total
        invariant
            first_some(cfg.libraries@.len(), unresolved_library(*cfg, libraries@)) is None,
            i <= users_total == cfg.users@.len(),
            users@.len() == i,
            user_problems == unresolved_user(*cfg, libraries@),
            first_some(i as nat, user_problems) is None,
            forall|j: int|
                0 <= j < i ==> resolved(*cfg, libraries@, j, #[trigger] users@[j]),
        decreases users_total - i,
    {
        assert(first_some((i + 1) as nat, user_problems) == user_problems(i as int));
        match check_user(&cfg.users[i], libraries) {
            Ok(()) => {},
            Err(e) => {
                proof {
                    lemma_first_some_stays((i + 1) as nat, users_total as nat, user_problems);
                }
                return Err(e);
            },
        }
        users.push(resolve_user(cfg, libraries, i));
        i += 1;
    }
    Ok(users)
}

proof fn lemma_library_id_found(libraries: Seq<Library>, name: Seq<char>)
    ensures
        library_id(libraries, name) is Some <==> exists|k: int|
            0 <= k < libraries.len() && (#[trigger] libraries[k]).name@ == name,
        library_id(libraries, name) matches Some(id) ==> exists|k: int|
            0 <= k < libraries.len() && (#[trigger] libraries[k]).name@ == name
                && libraries[k].id == id,
    decreases libraries.len(),
{
    if libraries.len() > 0 {
        let rest = libraries.drop_last();
        lemma_library_id_found(rest, name);
        if libraries.last().name@ == name {
            assert(libraries[libraries.len() - 1].name@ == name);
        } else {
            if library_id(rest, name) is Some {
                let id = library_id(rest, name)->0;
                let k = choose|k: int|
                    0 <= k < rest.len() && (#[trigger] rest[k]).name@ == name && rest[k].id == id;
                assert(libraries[k].name@ == name && libraries[k].id == id);
            }
            if exists|k: int| 0 <= k < libraries.len() && (#[trigger] libraries[k]).name@ == name {
                let k = choose|k: int|
                    0 <= k < libraries.len() && (#[trigger] libraries[k]).name@ == name;
                assert(rest[k].name@ == name);
            }
        }
    }
}

/// Whether no library's name in a configuration has white space around it.
pub open spec fn names_are_trimmed(cfg: Config) -> bool {
    forall|k: int|
        0 <= k < cfg.libraries@.len() ==> cfg.library_name(k) == (
        #[trigger] cfg.libraries@[k]).name@
}

/// The users of a validated configuration are resolved without an error against
/// the libraries that it describes, where no library's name has white space
/// around it.
pub proof fn validated_users_resolve(cfg: Config, libraries: Seq<Library>)
    requires
        cfg.problem() is None,
        described(libraries, cfg.libraries@),
        names_are_trimmed(cfg),
    ensures
        resolve_problem(cfg, libraries) is None,
{
    normalize_accepts_well_formed(cfg);
    let n = cfg.libraries@.len();
    let library_problems = unresolved_library(cfg, libraries);
    lemma_first_some_none(n, library_problems);
    lemma_first_some_none(n, cfg.grant_problems());
    assert forall|k: int| 0 <= k < n implies (#[trigger] library_problems(k)) is None by {
        assert(libraries[k].describes(k, cfg.libraries@[k]));
        assert(libraries[k].name@ == cfg.libraries@[k].name@);
        lemma_library_id_found(libraries, cfg.libraries@[k].name@);
        assert((cfg.grant_problems())(k) is None);
    }
    let user_problems = unresolved_user(cfg, libraries);
    lemma_first_some_none(cfg.users@.len(), user_problems);
    assert forall|i: int| 0 <= i < cfg.users@.len() implies (#[trigger] user_problems(
        i,
    )) is None by {
        assert(cfg.user_in_order(i));
        let user = cfg.users@[i];
        let problems = unresolved_permission(user, libraries);
        lemma_first_some_none(user.permissions@.len(), problems);
        assert forall|p: int| 0 <= p < user.permissions@.len() implies (#[trigger] problems(
            p,
        )) is None by {
            let name = cfg.permission_name(i, p);
            assert(cfg.has_library(name));
            let k = cfg.library_names(n).index_of(name);
            assert(cfg.library_names(n)[k] == name);
            assert(libraries[k].describes(k, cfg.libraries@[k]));
            lemma_library_id_found(libraries, name);
        }
    }
}

proof fn lemma_described_id(cfg: Config, libraries: Seq<Library>, k: int, j: int)
    requires
        cfg.problem() is None,
        described(libraries, cfg.libraries@),
        names_are_trimmed(cfg),
        0 <= k < cfg.libraries@.len(),
        0 <= j < cfg.libraries@.len(),
    ensures
        library_id(libraries, cfg.libraries@[j].name@) == Some(libraries[j].id),
        library_id(libraries, cfg.libraries@[j].name@) == Some(libraries[k].id) <==> j == k,
{
    normalize_accepts_well_formed(cfg);
    let name = cfg.libraries@[j].name@;
    lemma_library_id_found(libraries, name);
    assert(libraries[j].describes(j, cfg.libraries@[j]));
    assert(libraries[j].name@ == name);
    let id = library_id(libraries, name)->0;
    let m = choose|m: int|
        0 <= m < libraries.len() && (#[trigger] libraries[m]).name@ == name && libraries[m].id
            == id;
    assert(libraries[m].describes(m, cfg.libraries@[m]));
    assert(libraries[k].describes(k, cfg.libraries@[k]));
    assert(cfg.library_name(m) == cfg.library_name(j));
}

proof fn lemma_listed_access(
    cfg: Config,
    libraries: Seq<Library>,
    n: nat,
    k: int,
    username: Seq<char>,
)
    requires
        cfg.problem() is None,
        described(libraries, cfg.libraries@),
        names_are_trimmed(cfg),
        0 <= k < cfg.libraries@.len(),
        n <= cfg.libraries@.len(),
    ensures
        listed_access(cfg, libraries, n, username, libraries[k].id) == if k < n {
            list_grant(cfg.libraries@[k], username)
        } else {
            no_access()
        },
    decreases n,
{
    if n > 0 {
        lemma_listed_access(cfg, libraries, (n - 1) as nat, k, username);
        lemma_described_id(cfg, libraries, k, n - 1);
    }
}

/// In a validated configuration whose library names have no white space around
/// them, a user's access to a library is what that library's own lists grant to
/// the user's name together with what the user's own permissions grant there.
pub proof fn access_is_what_is_listed(cfg: Config, libraries: Seq<Library>, i: int, k: int)
    requires
        cfg.problem() is None,
        described(libraries, cfg.libraries@),
        names_are_trimmed(cfg),
        0 <= i < cfg.users@.len(),
        0 <= k < cfg.libraries@.len(),
    ensures
        granted(cfg, libraries, i, libraries[k].id) == either(
            list_grant(cfg.libraries@[k], cfg.user_name(i)),
            own_access(
                cfg.users@[i],
                libraries,
                cfg.users@[i].permissions@.len(),
                libraries[k].id,
            ),
        ),
{
    normalize_accepts_well_formed(cfg);
    assert(cfg.user_in_order(i));
    let names = cfg.user_names(i as nat);
    if names.contains(cfg.user_name(i)) {
        let j = names.index_of(cfg.user_name(i));
        assert(names[j] == cfg.user_name(j));
    }
    lemma_listed_access(cfg, libraries, cfg.libraries@.len(), k, cfg.user_name(i));
}

/// Whether nothing in the configuration names user `i` for the library `id`.
pub open spec fn nothing_listed(cfg: Config, libraries: Seq<Library>, i: int, id: i64) -> bool {
    &&& forall|k: int|
        0 <= k < cfg.libraries@.len() && library_id(
            libraries,
            (#[trigger] cfg.libraries@[k]).name@,
        ) == Some(id) ==> list_grant(cfg.libraries@[k], cfg.user_name(i)) == no_access()
    &&& forall|p: int|
        0 <= p < cfg.users@[i].permissions@.len() ==> library_id(
            libraries,
            trimmed((#[trigger] cfg.users@[i].permissions@[p]).name@),
        ) != Some(id)
}

proof fn lemma_nothing_listed(cfg: Config, libraries: Seq<Library>, n: nat, i: int, id: i64)
    requires
        nothing_listed(cfg, libraries, i, id),
        n <= cfg.libraries@.len(),
    ensures
        listed_access(cfg, libraries, n, cfg.user_name(i), id) == no_access(),
    decreases n,
{
    if n > 0 {
        lemma_nothing_listed(cfg, libraries, (n - 1) as nat, i, id);
        let lib = cfg.libraries@[n - 1];
    }
}

proof fn lemma_nothing_of_ones_own(cfg: Config, libraries: Seq<Library>, n: nat, i: int, id: i64)
    requires
        nothing_listed(cfg, libraries, i, id),
        n <= cfg.users@[i].permissions@.len(),
    ensures
        own_access(cfg.users@[i], libraries, n, id) == no_access(),
    decreases n,
{
    if n > 0 {
        lemma_nothing_of_ones_own(cfg, libraries, (n - 1) as nat, i, id);
        let p = cfg.users@[i].permissions@[n - 1];
    }
}

/// A user has no access at all to a library that the configuration does not
/// list for that user.
pub proof fn unlisted_library_gives_no_access(
    cfg: Config,
    libraries: Seq<Library>,
    i: int,
    id: i64,
)
    requires
        0 <= i < cfg.users@.len(),
        nothing_listed(cfg, libraries, i, id),
    ensures
        granted(cfg, libraries, i, id) == no_access(),
{
    lemma_nothing_listed(cfg, libraries, cfg.libraries@.len(), i, id);
    lemma_nothing_of_ones_own(cfg, libraries, cfg.users@[i].permissions@.len(), i, id);
}

proof fn lemma_own_access(cfg: Config, libraries: Seq<Library>, n: nat, i: int, k: int)
    requires
        cfg.problem() is None,
        described(libraries, cfg.libraries@),
        names_are_trimmed(cfg),
        0 <= i < cfg.users@.len(),
        0 <= k < cfg.libraries@.len(),
        n <= cfg.users@[i].permissions@.len(),
    ensures
        own_access(cfg.users@[i], libraries, n, libraries[k].id).read <==> exists|p: int|
            0 <= p < n && trimmed((#[trigger] cfg.users@[i].permissions@[p]).name@)
                == cfg.libraries@[k].name@ && cfg.users@[i].permissions@[p].read,
        own_access(cfg.users@[i], libraries, n, libraries[k].id).write <==> exists|p: int|
            0 <= p < n && trimmed((#[trigger] cfg.users@[i].permissions@[p]).name@)
                == cfg.libraries@[k].name@ && cfg.users@[i].permissions@[p].write,
        own_access(cfg.users@[i], libraries, n, libraries[k].id).upload <==> exists|p: int|
            0 <= p < n && trimmed((#[trigger] cfg.users@[i].permissions@[p]).name@)
                == cfg.libraries@[k].name@ && cfg.users@[i].permissions@[p].upload,
    decreases n,
{
    if n > 0 {
        lemma_own_access(cfg, libraries, (n - 1) as nat, i, k);
        normalize_accepts_well_formed(cfg);
        assert(cfg.user_in_order(i));
        let entry = cfg.users@[i].permissions@[n - 1];
        let name = cfg.permission_name(i, n - 1);
        assert(cfg.has_library(name));
        let names = cfg.library_names(cfg.libraries@.len());
        let j = names.index_of(name);
        assert(names[j] == name);
        assert(cfg.library_name(j) == cfg.libraries@[j].name@);
        lemma_described_id(cfg, libraries, k, j);
        if cfg.libraries@[j].name@ == cfg.libraries@[k].name@ {
            assert(cfg.library_name(j) == cfg.library_name(k));
        }
    }
}

/// Each list of a library grants its own access to the users in it, whatever the
/// other lists say, and so does each entry of a user's own permissions; nothing
/// else grants access. Of a validated configuration whose library names have no
/// white space around them, who is resolved may read, write or upload exactly
/// where a list for that names them or an entry of their own says so.
pub proof fn each_list_grants_its_own_access(
    cfg: Config,
    libraries: Seq<Library>,
    i: int,
    k: int,
    user: User,
)
    requires
        cfg.problem() is None,
        described(libraries, cfg.libraries@),
        names_are_trimmed(cfg),
        0 <= i < cfg.users@.len(),
        0 <= k < cfg.libraries@.len(),
        resolved(cfg, libraries, i, user),
    ensures
        user.username@ == trimmed(cfg.users@[i].username@),
        user.token@ == cfg.users@[i].token@,
        ({
            let lib = cfg.libraries@[k];
            let own = cfg.users@[i].permissions@;
            let name = trimmed(cfg.users@[i].username@);
            let access = access_in(user.permissions@, libraries[k].id);
            &&& access.read <==> (exists|j: int|
                0 <= j < lib.read_users@.len() && trimmed(#[trigger] lib.read_users@[j]@) == name) || (exists|
                p: int,
            |
                0 <= p < own.len() && trimmed((#[trigger] own[p]).name@) == lib.name@
                    && own[p].read)
            &&& access.write <==> (exists|j: int|
                0 <= j < lib.write_users@.len() && trimmed(#[trigger] lib.write_users@[j]@) == name) || (exists|
                p: int,
            |
                0 <= p < own.len() && trimmed((#[trigger] own[p]).name@) == lib.name@
                    && own[p].write)
            &&& access.upload <==> (exists|j: int|
                0 <= j < lib.upload_users@.len() && trimmed(#[trigger] lib.upload_users@[j]@) == name) || (exists|
                p: int,
            |
                0 <= p < own.len() && trimmed((#[trigger] own[p]).name@) == lib.name@
                    && own[p].upload)
        }),
{
    access_is_what_is_listed(cfg, libraries, i, k);
    lemma_own_access(cfg, libraries, cfg.users@[i].permissions@.len(), i, k);
}

/// No one has access to a library that is not there.
pub proof fn missing_libraries_give_no_access(
    cfg: Config,
    libraries: Seq<Library>,
    i: int,
    id: i64,
    user: User,
)
    requires
        0 <= i < cfg.users@.len(),
        forall|m: int| 0 <= m < libraries.len() ==> (#[trigger] libraries[m]).id != id,
        resolved(cfg, libraries, i, user),
    ensures
        !access_in(user.permissions@, id).read,
        !access_in(user.permissions@, id).write,
        !access_in(user.permissions@, id).upload,
{
    assert(nothing_listed(cfg, libraries, i, id)) by {
        assert forall|k: int|
            0 <= k < cfg.libraries@.len() && library_id(
                libraries,
                (#[trigger] cfg.libraries@[k]).name@,
            ) == Some(id) implies list_grant(cfg.libraries@[k], cfg.user_name(i))
            == no_access() by {
            lemma_library_id_found(libraries, cfg.libraries@[k].name@);
        }
        assert forall|p: int| 0 <= p < cfg.users@[i].permissions@.len() implies library_id(
            libraries,
            trimmed((#[trigger] cfg.users@[i].permissions@[p]).name@),
        ) != Some(id) by {
            lemma_library_id_found(
                libraries,
                trimmed(cfg.users@[i].permissions@[p].name@),
            );
        }
    }
    unlisted_library_gives_no_access(cfg, libraries, i, id);
}

/// Of several libraries with one name, the last gives its id to the name.
pub proof fn the_last_library_of_a_name_counts(
    libraries: Seq<Library>,
    lib: Library,
    name: Seq<char>,
)
    ensures
        library_id(libraries.push(lib), lib.name@) == Some(lib.id),
        name != lib.name@ ==> library_id(libraries.push(lib), name) == library_id(libraries, name),
        library_id(seq![], name) is None,
{
    assert(libraries.push(lib).drop_last() =~= libraries);
}

/// Whether a library is called exactly `name`.
pub open spec fn is_called(libraries: Seq<Library>, name: Seq<char>) -> bool {
    exists|m: int| 0 <= m < libraries.len() && (#[trigger] libraries[m]).name@ == name
}

/// Users are resolved exactly where every library of the configuration is there
/// under its name, every name in its lists is that of a user, and every entry of
/// a user's own permissions is for a library that is there.
pub proof fn users_are_resolved_where_all_names_are_known(cfg: Config, libraries: Seq<Library>)
    ensures
        resolve_problem(cfg, libraries) is None <==> {
            &&& forall|k: int|
                0 <= k < cfg.libraries@.len() ==> {
                    &&& is_called(libraries, (#[trigger] cfg.libraries@[k]).name@)
                    &&& cfg.lists_users(cfg.libraries@[k].read_users@)
                    &&& cfg.lists_users(cfg.libraries@[k].write_users@)
                    &&& cfg.lists_users(cfg.libraries@[k].upload_users@)
                }
            &&& forall|i: int, p: int|
                0 <= i < cfg.users@.len() && 0 <= p < cfg.users@[i].permissions@.len()
                    ==> is_called(
                    libraries,
                    trimmed((#[trigger] cfg.users@[i].permissions@[p]).name@),
                )
        },
{
    let n = cfg.libraries@.len();
    let problems = unresolved_library(cfg, libraries);
    lemma_first_some_none(n, problems);
    assert forall|k: int| 0 <= k < n implies ((#[trigger] problems(k)) is None <==> {
        &&& is_called(libraries, cfg.libraries@[k].name@)
        &&& cfg.lists_users(cfg.libraries@[k].read_users@)
        &&& cfg.lists_users(cfg.libraries@[k].write_users@)
        &&& cfg.lists_users(cfg.libraries@[k].upload_users@)
    }) by {
        let lib = cfg.libraries@[k];
        lemma_library_id_found(libraries, lib.name@);
        lemma_list_problem(cfg, k, lib.read_users@);
        lemma_list_problem(cfg, k, lib.write_users@);
        lemma_list_problem(cfg, k, lib.upload_users@);
    }
    if resolve_problem(cfg, libraries) is None {
        assert forall|k: int| 0 <= k < n implies {
            &&& is_called(libraries, (#[trigger] cfg.libraries@[k]).name@)
            &&& cfg.lists_users(cfg.libraries@[k].read_users@)
            &&& cfg.lists_users(cfg.libraries@[k].write_users@)
            &&& cfg.lists_users(cfg.libraries@[k].upload_users@)
        } by {
            assert(problems(k) is None);
        }
    }
    let users = unresolved_user(cfg, libraries);
    lemma_first_some_none(cfg.users@.len(), users);
    assert forall|i: int| 0 <= i < cfg.users@.len() implies ((#[trigger] users(i)) is None <==> (
    forall|p: int|
        0 <= p < cfg.users@[i].permissions@.len() ==> is_called(
            libraries,
            trimmed((#[trigger] cfg.users@[i].permissions@[p]).name@),
        ))) by {
        let user = cfg.users@[i];
        let own = unresolved_permission(user, libraries);
        lemma_first_some_none(user.permissions@.len(), own);
        assert forall|p: int| 0 <= p < user.permissions@.len() implies ((#[trigger] own(
            p,
        )) is None <==> is_called(libraries, trimmed(user.permissions@[p].name@))) by {
            lemma_library_id_found(libraries, trimmed(user.permissions@[p].name@));
        }
        if users(i) is None {
            assert forall|p: int| 0 <= p < user.permissions@.len() implies is_called(
                libraries,
                trimmed((#[trigger] cfg.users@[i].permissions@[p]).name@),
            ) by {
                assert(own(p) is None);
            }
        }
    }
    if resolve_problem(cfg, libraries) is None {
        assert forall|i: int, p: int|
            0 <= i < cfg.users@.len() && 0 <= p < cfg.users@[i].permissions@.len() implies is_called(
            libraries,
            trimmed((#[trigger] cfg.users@[i].permissions@[p]).name@),
        ) by {
            assert(users(i) is None);
        }
    }
}

} // verus!
