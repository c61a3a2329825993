//! The configuration file's contents and their validation.

use vstd::prelude::*;

use crate::text::{
    a_part_is_found, first_some, holds, holds_text, lemma_first_some_found,
    lemma_first_some_none, lemma_first_some_stays, texts, trimmed,
};

verus! {

/// The server's configuration.
#[derive(Debug, Clone)]
pub struct Config {
    pub bind: String,
    /// One entry per library. Names are user-visible and must be unique.
    pub libraries: Vec<LibraryConfig>,
    /// One entry per user account. A request must present
    /// `Authorization: Basic <base64(username:token)>` matching one of these
    /// users; where there are none, the API is open.
    pub users: Vec<UserConfig>,
    /// Directory of executable downloader scripts the API can offer to run
    /// (see `api::downloaders`). Optional: the list of downloaders is empty
    /// where it is unset.
    pub downloaders_path: Option<String>,
}

/// `path` is a folder owned end-to-end: it holds `library.db` (this library's
/// own database) and `.storage/` (its content-addressed audio files), both
/// created on first run. Libraries are fully independent: nothing is shared
/// across them.
///
/// `read_users`, `write_users` and `upload_users` name the users that may do
/// so in this library.
#[derive(Debug, Clone)]
pub struct LibraryConfig {
    pub name: String,
    pub path: String,
    pub read_users: Vec<String>,
    pub write_users: Vec<String>,
    pub upload_users: Vec<String>,
}

/// One user account. `permissions` grants access to libraries by name, beside
/// what the libraries' own lists grant. A library that neither grants is
/// completely invisible to this user, as if it didn't exist.
#[derive(Debug, Clone)]
pub struct UserConfig {
    pub username: String,
    pub token: String,
    pub permissions: Vec<UserLibraryPermission>,
}

/// Permissions granted to a user for a single library, referenced by name.
/// `read` controls visibility of the library and access to its contents;
/// `write` controls editing playlists and tags; `upload` controls running
/// downloader scripts against it.
#[derive(Debug, Clone)]
pub struct UserLibraryPermission {
    pub name: String,
    pub read: bool,
    pub write: bool,
    pub upload: bool,
}

/// Why a configuration is refused.
#[derive(Debug, Clone)]
pub enum ConfigError {
    NoLibraries,
    EmptyLibraryName,
    DuplicateLibrary { name: String },
    EmptyUsername,
    DuplicateUsername { username: String },
    EmptyToken { username: String },
    UnknownLibrary { username: String, library: String },
    DuplicatePermission { username: String, library: String },
    UnknownUser { library: String, username: String },
    LibraryNotFound { name: String },
}

/// A `ConfigError` with the texts that it holds.
#[verifier::ext_equal]
pub enum ConfigProblem {
    NoLibraries,
    EmptyLibraryName,
    DuplicateLibrary { name: Seq<char> },
    EmptyUsername,
    DuplicateUsername { username: Seq<char> },
    EmptyToken { username: Seq<char> },
    UnknownLibrary { username: Seq<char>, library: Seq<char> },
    DuplicatePermission { username: Seq<char>, library: Seq<char> },
    UnknownUser { library: Seq<char>, username: Seq<char> },
    LibraryNotFound { name: Seq<char> },
}

impl View for ConfigError {
    type V = ConfigProblem;

    open spec fn view(&self) -> ConfigProblem {
        match self {
            ConfigError::NoLibraries => ConfigProblem::NoLibraries,
            ConfigError::EmptyLibraryName => ConfigProblem::EmptyLibraryName,
            ConfigError::DuplicateLibrary { name } => ConfigProblem::DuplicateLibrary {
                name: name@,
            },
            ConfigError::EmptyUsername => ConfigProblem::EmptyUsername,
            ConfigError::DuplicateUsername { username } => ConfigProblem::DuplicateUsername {
                username: username@,
            },
            ConfigError::EmptyToken { username } => ConfigProblem::EmptyToken {
                username: username@,
            },
            ConfigError::UnknownLibrary { username, library } => ConfigProblem::UnknownLibrary {
                username: username@,
                library: library@,
            },
            ConfigError::DuplicatePermission {
                username,
                library,
            } => ConfigProblem::DuplicatePermission { username: username@, library: library@ },
            ConfigError::UnknownUser { library, username } => ConfigProblem::UnknownUser {
                library: library@,
                username: username@,
            },
            ConfigError::LibraryNotFound { name } => ConfigProblem::LibraryNotFound {
                name: name@,
            },
        }
    }
}

impl ConfigProblem {
    /// What is said of the problem.
    pub open spec fn message(self) -> Seq<char> {
        match self {
            ConfigProblem::NoLibraries =>
                "config has no libraries — add at least one [[library]] section"@,
            ConfigProblem::EmptyLibraryName => "library has empty name"@,
            ConfigProblem::DuplicateLibrary { name } => "duplicate library name: "@ + name,
            ConfigProblem::EmptyUsername => "user has empty username"@,
            ConfigProblem::DuplicateUsername { username } => "duplicate username: "@ + username,
            ConfigProblem::EmptyToken { username } => "user "@ + username + " has empty token"@,
            ConfigProblem::UnknownLibrary { username, library } => "user "@ + username
                + " references unknown library: "@ + library,
            ConfigProblem::DuplicatePermission { username, library } => "user "@ + username
                + " has duplicate permission entry for library: "@ + library,
            ConfigProblem::UnknownUser { library, username } => "library "@ + library
                + " references unknown user: "@ + username,
            ConfigProblem::LibraryNotFound { name } => "library "@ + name
                + " not found while resolving users"@,
        }
    }
}

impl ConfigError {
    /// What is said of the problem.
    pub fn message(&self) -> (r: String)
        ensures
            r@ == self@.message(),
    {
        let mut out = String::new();
        match self {
            ConfigError::NoLibraries => {
                out.append("config has no libraries — add at least one [[library]] section");
            },
            ConfigError::EmptyLibraryName => {
                out.append("library has empty name");
            },
            ConfigError::DuplicateLibrary { name } => {
                out.append("duplicate library name: ");
                out.append(name.as_str());
            },
            ConfigError::EmptyUsername => {
                out.append("user has empty username");
            },
            ConfigError::DuplicateUsername { username } => {
                out.append("duplicate username: ");
                out.append(username.as_str());
            },
            ConfigError::EmptyToken { username } => {
                out.append("user ");
                out.append(username.as_str());
                out.append(" has empty token");
            },
            ConfigError::UnknownLibrary { username, library } => {
                out.append("user ");
                out.append(username.as_str());
                out.append(" references unknown library: ");
                out.append(library.as_str());
            },
            ConfigError::DuplicatePermission { username, library } => {
                out.append("user ");
                out.append(username.as_str());
                out.append(" has duplicate permission entry for library: ");
                out.append(library.as_str());
            },
            ConfigError::UnknownUser { library, username } => {
                out.append("library ");
                out.append(library.as_str());
                out.append(" references unknown user: ");
                out.append(username.as_str());
            },
            ConfigError::LibraryNotFound { name } => {
                out.append("library ");
                out.append(name.as_str());
                out.append(" not found while resolving users");
            },
        }
        assert(out@ =~= self@.message());
        out
    }
}

impl Config {
    /// The name of library `i`.
    pub open spec fn library_name(self, i: int) -> Seq<char> {
        trimmed(self.libraries@[i].name@)
    }

    /// The name of user `i`.
    pub open spec fn user_name(self, i: int) -> Seq<char> {
        trimmed(self.users@[i].username@)
    }

    /// The library that entry `k` of user `i`'s permissions is for.
    pub open spec fn permission_name(self, i: int, k: int) -> Seq<char> {
        trimmed(self.users@[i].permissions@[k].name@)
    }

    /// The names of the first `n` libraries.
    pub open spec fn library_names(self, n: nat) -> Seq<Seq<char>> {
        Seq::new(n, |i: int| self.library_name(i))
    }

    /// The names of the first `n` users.
    pub open spec fn user_names(self, n: nat) -> Seq<Seq<char>> {
        Seq::new(n, |i: int| self.user_name(i))
    }

    /// The libraries that the first `n` entries of user `i`'s permissions are for.
    pub open spec fn permission_names(self, i: int, n: nat) -> Seq<Seq<char>> {
        Seq::new(n, |k: int| self.permission_name(i, k))
    }

    /// Whether a library is called `name`.
    pub open spec fn has_library(self, name: Seq<char>) -> bool {
        self.library_names(self.libraries@.len()).contains(name)
    }

    /// Whether a user is called `name`.
    pub open spec fn has_user(self, name: Seq<char>) -> bool {
        self.user_names(self.users@.len()).contains(name)
    }

    /// What is wrong with library `i`, given those before it.
    pub open spec fn library_problem(self, i: int) -> Option<ConfigProblem> {
        let name = self.library_name(i);
        if name.len() == 0 {
            Some(ConfigProblem::EmptyLibraryName)
        } else if self.library_names(i as nat).contains(name) {
            Some(ConfigProblem::DuplicateLibrary { name })
        } else {
            None
        }
    }

    /// What is wrong with entry `k` of user `i`'s permissions, given those
    /// before it.
    pub open spec fn permission_problem(self, i: int, k: int) -> Option<ConfigProblem> {
        let username = self.user_name(i);
        let library = self.permission_name(i, k);
        if !self.has_library(library) {
            Some(ConfigProblem::UnknownLibrary { username, library })
        } else if self.permission_names(i, k as nat).contains(library) {
            Some(ConfigProblem::DuplicatePermission { username, library })
        } else {
            None
        }
    }

    /// What is wrong with each entry of user `i`'s permissions.
    pub open spec fn permission_problems(self, i: int) -> spec_fn(int) -> Option<ConfigProblem> {
        |k: int| self.permission_problem(i, k)
    }

    /// What is wrong with user `i`, given those before it.
    pub open spec fn user_problem(self, i: int) -> Option<ConfigProblem> {
        let username = self.user_name(i);
        if username.len() == 0 {
            Some(ConfigProblem::EmptyUsername)
        } else if self.user_names(i as nat).contains(username) {
            Some(ConfigProblem::DuplicateUsername { username })
        } else if trimmed(self.users@[i].token@).len() == 0 {
            Some(ConfigProblem::EmptyToken { username })
        } else {
            first_some(self.users@[i].permissions@.len(), self.permission_problems(i))
        }
    }

    /// What is wrong with each name in a list of users of library `i`.
    pub open spec fn list_problems(self, i: int, list: Seq<String>) -> spec_fn(int) -> Option<
        ConfigProblem,
    > {
        |k: int|
            if self.has_user(trimmed(list[k]@)) {
                None
            } else {
                Some(
                    ConfigProblem::UnknownUser {
                        library: self.library_name(i),
                        username: trimmed(list[k]@),
                    },
                )
            }
    }

    /// What is wrong with a list of users of library `i`.
    pub open spec fn list_problem(self, i: int, list: Seq<String>) -> Option<ConfigProblem> {
        first_some(list.len(), self.list_problems(i, list))
    }

    /// What is wrong with the lists of users of library `i`.
    pub open spec fn grant_problem(self, i: int) -> Option<ConfigProblem> {
        let lib = self.libraries@[i];
        if self.list_problem(i, lib.read_users@) is Some {
            self.list_problem(i, lib.read_users@)
        } else if self.list_problem(i, lib.write_users@) is Some {
            self.list_problem(i, lib.write_users@)
        } else {
            self.list_problem(i, lib.upload_users@)
        }
    }

    /// What is wrong with each library.
    pub open spec fn library_problems(self) -> spec_fn(int) -> Option<ConfigProblem> {
        |i: int| self.library_problem(i)
    }

    /// What is wrong with each user.
    pub open spec fn user_problems(self) -> spec_fn(int) -> Option<ConfigProblem> {
        |i: int| self.user_problem(i)
    }

    /// What is wrong with each library's lists of users.
    pub open spec fn grant_problems(self) -> spec_fn(int) -> Option<ConfigProblem> {
        |i: int| self.grant_problem(i)
    }

    /// The first thing that is wrong with the configuration: its libraries are
    /// looked at first, then its users, then the users that libraries list.
    pub open spec fn problem(self) -> Option<ConfigProblem> {
        let libraries = self.libraries@.len();
        let users = self.users@.len();
        if libraries == 0 {
            Some(ConfigProblem::NoLibraries)
        } else if first_some(libraries, self.library_problems()) is Some {
            first_some(libraries, self.library_problems())
        } else if first_some(users, self.user_problems()) is Some {
            first_some(users, self.user_problems())
        } else {
            first_some(libraries, self.grant_problems())
        }
    }

    /// Collects the names of the libraries, unless one of them is refused.
    fn check_libraries(&self) -> (r: Result<Vec<String>, ConfigError>)
        ensures
            match r {
                Ok(names) => {
                    &&& first_some(self.libraries@.len(), self.library_problems()) is None
                    &&& texts(names@) == self.library_names(self.libraries@.len())
                },
                Err(e) => first_some(self.libraries@.len(), self.library_problems()) == Some(e@),
            },
    {
        let mut seen: Vec<String> = Vec::new();
        let total = self.libraries.len();
        let mut i: usize = 0;
        assert(texts(seen@) =~= self.library_names(0));
        while i < total
            invariant
                i <= total == self.libraries@.len(),
                first_some(i as nat, self.library_problems()) is None,
                texts(seen@) == self.library_names(i as nat),
            decreases total - i,
        {
            let name = self.libraries[i].name.as_str().trim();
            assert(name@ == self.library_name(i as int));
            let ghost problem = (self.library_problems())(i as int);
            assert(problem == self.library_problem(i as int));
            assert(first_some((i + 1) as nat, self.library_problems()) == problem);
            if name.is_empty() {
                proof {
                    lemma_first_some_stays(
                        (i + 1) as nat,
                        total as nat,
                        self.library_problems(),
                    );
                }
                return Err(ConfigError::EmptyLibraryName);
            }
            if holds(&seen, name) {
                proof {
                    lemma_first_some_stays(
                        (i + 1) as nat,
                        total as nat,
                        self.library_problems(),
                    );
                }
                return Err(ConfigError::DuplicateLibrary { name: name.to_owned() });
            }
            let ghost before = texts(seen@);
            seen.push(name.to_owned());
            assert(texts(seen@) =~= before.push(name@));
            assert(texts(seen@) =~= self.library_names((i + 1) as nat));
            i += 1;
        }
        Ok(seen)
    }

    /// Checks the permissions of user `i`.
    fn check_permissions(&self, i: usize, libraries: &Vec<String>) -> (r: Result<(), ConfigError>)
        requires
            i < self.users@.len(),
            texts(libraries@) == self.library_names(self.libraries@.len()),
        ensures
            match r {
                Ok(()) => first_some(
                    self.users@[i as int].permissions@.len(),
                    self.permission_problems(i as int),
                ) is None,
                Err(e) => first_some(
                    self.users@[i as int].permissions@.len(),
                    self.permission_problems(i as int),
                ) == Some(e@),
            },
    {
        let user = &self.users[i];
        let total = user.permissions.len();
        let mut seen: Vec<String> = Vec::new();
        let mut k: usize = 0;
        let ghost problems = self.permission_problems(i as int);
        assert(texts(seen@) =~= self.permission_names(i as int, 0));
        while k < total
            invariant
                i < self.users@.len(),
                *user == self.users@[i as int],
                texts(libraries@) == self.library_names(self.libraries@.len()),
                k <= total == user.permissions@.len(),
                problems == self.permission_problems(i as int),
                first_some(k as nat, problems) is None,
                texts(seen@) == self.permission_names(i as int, k as nat),
            decreases total - k,
        {
            let library = user.permissions[k].name.as_str().trim();
            assert(library@ == self.permission_name(i as int, k as int));
            assert(problems(k as int) == self.permission_problem(i as int, k as int));
            assert(first_some((k + 1) as nat, problems) == problems(k as int));
            if !holds(libraries, library) {
                proof {
                    lemma_first_some_stays((k + 1) as nat, total as nat, problems);
                }
                return Err(
                    ConfigError::UnknownLibrary {
                        username: user.username.as_str().trim().to_owned(),
                        library: library.to_owned(),
                    },
                );
            }
            if holds(&seen, library) {
                proof {
                    lemma_first_some_stays((k + 1) as nat, total as nat, problems);
                }
                return Err(
                    ConfigError::DuplicatePermission {
                        username: user.username.as_str().trim().to_owned(),
                        library: library.to_owned(),
                    },
                );
            }
            let ghost before = texts(seen@);
            seen.push(library.to_owned());
            assert(texts(seen@) =~= before.push(library@));
            assert(texts(seen@) =~= self.permission_names(i as int, (k + 1) as nat));
            k += 1;
        }
        Ok(())
    }

    /// Checks user `i`, where `usernames` are the names of those before it.
    fn check_user(&self, i: usize, libraries: &Vec<String>, usernames: &Vec<String>) -> (r: Result<
        (),
        ConfigError,
    >)
        requires
            i < self.users@.len(),
            texts(libraries@) == self.library_names(self.libraries@.len()),
            texts(usernames@) == self.user_names(i as nat),
        ensures
            match r {
                Ok(()) => self.user_problem(i as int) is None,
                Err(e) => self.user_problem(i as int) == Some(e@),
            },
    {
        let username = self.users[i].username.as_str().trim();
        if username.is_empty() {
            return Err(ConfigError::EmptyUsername);
        }
        if holds(usernames, username) {
            return Err(ConfigError::DuplicateUsername { username: username.to_owned() });
        }
        if self.users[i].token.as_str().trim().is_empty() {
            return Err(ConfigError::EmptyToken { username: username.to_owned() });
        }
        self.check_permissions(i, libraries)
    }

    /// Collects the names of the users, unless one of them is refused.
    fn check_users(&self, libraries: &Vec<String>) -> (r: Result<Vec<String>, ConfigError>)
        requires
            texts(libraries@) == self.library_names(self.libraries@.len()),
        ensures
            match r {
                Ok(names) => {
                    &&& first_some(self.users@.len(), self.user_problems()) is None
                    &&& texts(names@) == self.user_names(self.users@.len())
                },
                Err(e) => first_some(self.users@.len(), self.user_problems()) == Some(e@),
            },
    {
        let mut usernames: Vec<String> = Vec::new();
        let total = self.users.len();
        let mut i: usize = 0;
        let ghost problems = self.user_problems();
        assert(texts(usernames@) =~= self.user_names(0));
        while i < total
            invariant
                i <= total == self.users@.len(),
                texts(libraries@) == self.library_names(self.libraries@.len()),
                problems == self.user_problems(),
                first_some(i as nat, problems) is None,
                texts(usernames@) == self.user_names(i as nat),
            decreases total - i,
        {
            assert(problems(i as int) == self.user_problem(i as int));
            assert(first_some((i + 1) as nat, problems) == problems(i as int));
            match self.check_user(i, libraries, &usernames) {
                Ok(()) => {},
                Err(e) => {
                    proof {
                        lemma_first_some_stays((i + 1) as nat, total as nat, problems);
                    }
                    return Err(e);
                },
            }
            let ghost before = texts(usernames@);
            usernames.push(self.users[i].username.as_str().trim().to_owned());
            assert(texts(usernames@) =~= before.push(self.user_name(i as int)));
            assert(texts(usernames@) =~= self.user_names((i + 1) as nat));
            i += 1;
        }
        Ok(usernames)
    }

    /// Checks one list of users of library `i`.
    fn check_list(&self, i: usize, list: &Vec<String>, usernames: &Vec<String>) -> (r: Result<
        (),
        ConfigError,
    >)
        requires
            i < self.libraries@.len(),
            texts(usernames@) == self.user_names(self.users@.len()),
        ensures
            match r {
                Ok(()) => self.list_problem(i as int, list@) is None,
                Err(e) => self.list_problem(i as int, list@) == Some(e@),
            },
    {
        let total = list.len();
        let mut k: usize = 0;
        let ghost problems = self.list_problems(i as int, list@);
        while k < total
            invariant
                i < self.libraries@.len(),
                texts(usernames@) == self.user_names(self.users@.len()),
                k <= total == list@.len(),
                problems == self.list_problems(i as int, list@),
                first_some(k as nat, problems) is None,
            decreases total - k,
        {
            let username = list[k].as_str().trim();
            assert(first_some((k + 1) as nat, problems) == problems(k as int));
            if !holds(usernames, username) {
                proof {
                    lemma_first_some_stays((k + 1) as nat, total as nat, problems);
                }
                return Err(
                    ConfigError::UnknownUser {
                        library: self.libraries[i].name.as_str().trim().to_owned(),
                        username: username.to_owned(),
                    },
                );
            }
            k += 1;
        }
        Ok(())
    }

    /// Checks the lists of users of library `i`.
    pub(crate) fn check_grants(&self, i: usize, usernames: &Vec<String>) -> (r: Result<(), ConfigError>)
        requires
            i < self.libraries@.len(),
            texts(usernames@) == self.user_names(self.users@.len()),
        ensures
            match r {
                Ok(()) => self.grant_problem(i as int) is None,
                Err(e) => self.grant_problem(i as int) == Some(e@),
            },
    {
        let lib = &self.libraries[i];
        self.check_list(i, &lib.read_users, usernames)?;
        self.check_list(i, &lib.write_users, usernames)?;
        self.check_list(i, &lib.upload_users, usernames)
    }

    /// Validates the configuration. Nothing in it changes.
    pub fn normalize(&mut self) -> (r: Result<(), ConfigError>)
        ensures
            *final(self) == *old(self),
            match r {
                Ok(()) => old(self).problem() is None,
                Err(e) => old(self).problem() == Some(e@),
            },
    {
        if self.libraries.len() == 0 {
            return Err(ConfigError::NoLibraries);
        }
        let libraries = self.check_libraries()?;
        let usernames = self.check_users(&libraries)?;
        let total = self.libraries.len();
        let mut i: usize = 0;
        let ghost problems = self.grant_problems();
        while i < total
            invariant
                *self == *old(self),
                i <= total == self.libraries@.len(),
                texts(usernames@) == self.user_names(self.users@.len()),
                problems == self.grant_problems(),
                first_some(total as nat, self.library_problems()) is None,
                first_some(self.users@.len(), self.user_problems()) is None,
                total > 0,
                first_some(i as nat, problems) is None,
            decreases total - i,
        {
            assert(problems(i as int) == self.grant_problem(i as int));
            assert(first_some((i + 1) as nat, problems) == problems(i as int));
            match self.check_grants(i, &usernames) {
                Ok(()) => {},
                Err(e) => {
                    proof {
                        lemma_first_some_stays((i + 1) as nat, total as nat, problems);
                    }
                    return Err(e);
                },
            }
            i += 1;
        }
        Ok(())
    }
}

impl Config {
    /// Whether every name in a list is that of a user.
    pub open spec fn lists_users(self, list: Seq<String>) -> bool {
        forall|k: int| 0 <= k < list.len() ==> self.has_user(trimmed(#[trigger] list[k]@))
    }

    /// Whether user `i` is in order, given those before it.
    pub open spec fn user_in_order(self, i: int) -> bool {
        &&& self.user_name(i).len() > 0
        &&& trimmed(self.users@[i].token@).len() > 0
        &&& forall|j: int| 0 <= j < i ==> #[trigger] self.user_name(j) != self.user_name(i)
        &&& forall|k: int|
            0 <= k < self.users@[i].permissions@.len() ==> self.has_library(
                #[trigger] self.permission_name(i, k),
            )
        &&& forall|j: int, k: int|
            0 <= j < k < self.users@[i].permissions@.len() ==> #[trigger] self.permission_name(i, j)
                != #[trigger] self.permission_name(i, k)
    }

    /// Whether the configuration names at least one library, gives libraries and
    /// users names that are their own, gives every user a token, grants each
    /// user access to libraries it names, at most once each, and lists for each
    /// library users it names.
    pub open spec fn well_formed(self) -> bool {
        &&& self.libraries@.len() > 0
        &&& forall|i: int|
            0 <= i < self.libraries@.len() ==> (#[trigger] self.library_name(i)).len() > 0
        &&& forall|i: int, j: int|
            0 <= i < j < self.libraries@.len() ==> #[trigger] self.library_name(i)
                != #[trigger] self.library_name(j)
        &&& forall|i: int| 0 <= i < self.users@.len() ==> #[trigger] self.user_in_order(i)
        &&& forall|i: int|
            0 <= i < self.libraries@.len() ==> {
                &&& self.lists_users((#[trigger] self.libraries@[i]).read_users@)
                &&& self.lists_users(self.libraries@[i].write_users@)
                &&& self.lists_users(self.libraries@[i].upload_users@)
            }
    }
}

/// A list has no problem exactly where every name in it is that of a user.
pub proof fn lemma_list_problem(cfg: Config, i: int, list: Seq<String>)
    ensures
        cfg.list_problem(i, list) is None <==> cfg.lists_users(list),
{
    let problems = cfg.list_problems(i, list);
    lemma_first_some_none(list.len(), problems);
    if cfg.lists_users(list) {
        assert forall|k: int| 0 <= k < list.len() implies (#[trigger] problems(k)) is None by {
            assert(cfg.has_user(trimmed(list[k]@)));
        }
    }
    if cfg.list_problem(i, list) is None {
        assert forall|k: int| 0 <= k < list.len() implies cfg.has_user(
            trimmed(#[trigger] list[k]@),
        ) by {
            assert(problems(k) is None);
        }
    }
}

proof fn lemma_library_problem(cfg: Config, i: int)
    requires
        0 <= i < cfg.libraries@.len(),
    ensures
        cfg.library_problem(i) is None <==> cfg.library_name(i).len() > 0 && forall|j: int|
            0 <= j < i ==> #[trigger] cfg.library_name(j) != cfg.library_name(i),
{
    let names = cfg.library_names(i as nat);
    assert forall|j: int| 0 <= j < i implies #[trigger] cfg.library_name(j) == names[j] by {}
}

proof fn lemma_permission_problem(cfg: Config, i: int, k: int)
    requires
        0 <= i < cfg.users@.len(),
        0 <= k < cfg.users@[i].permissions@.len(),
    ensures
        cfg.permission_problem(i, k) is None <==> cfg.has_library(cfg.permission_name(i, k))
            && forall|j: int|
            0 <= j < k ==> #[trigger] cfg.permission_name(i, j) != cfg.permission_name(i, k),
{
    let names = cfg.permission_names(i, k as nat);
    assert forall|j: int| 0 <= j < k implies #[trigger] cfg.permission_name(i, j) == names[j] by {}
}

proof fn lemma_user_problem(cfg: Config, i: int)
    requires
        0 <= i < cfg.users@.len(),
    ensures
        cfg.user_problem(i) is None <==> cfg.user_in_order(i),
{
    let names = cfg.user_names(i as nat);
    assert forall|j: int| 0 <= j < i implies #[trigger] cfg.user_name(j) == names[j] by {}
    let problems = cfg.permission_problems(i);
    let n = cfg.users@[i].permissions@.len();
    lemma_first_some_none(n, problems);
    if cfg.user_in_order(i) {
        assert forall|k: int| 0 <= k < n implies (#[trigger] problems(k)) is None by {
            lemma_permission_problem(cfg, i, k);
        }
    }
    if cfg.user_problem(i) is None {
        assert forall|k: int| 0 <= k < n implies {
            &&& cfg.has_library(#[trigger] cfg.permission_name(i, k))
            &&& forall|j: int|
                0 <= j < k ==> #[trigger] cfg.permission_name(i, j) != cfg.permission_name(i, k)
        } by {
            assert(problems(k) is None);
            lemma_permission_problem(cfg, i, k);
        }
    }
}

/// Validation accepts exactly the well-formed configurations.
pub proof fn normalize_accepts_well_formed(cfg: Config)
    ensures
        cfg.problem() is None <==> cfg.well_formed(),
{
    let libraries = cfg.libraries@.len();
    let users = cfg.users@.len();
    lemma_first_some_none(libraries, cfg.library_problems());
    lemma_first_some_none(users, cfg.user_problems());
    lemma_first_some_none(libraries, cfg.grant_problems());
    if cfg.well_formed() {
        assert forall|i: int| 0 <= i < libraries implies (#[trigger] (cfg.library_problems())(
            i,
        )) is None by {
            lemma_library_problem(cfg, i);
        }
        assert forall|i: int| 0 <= i < users implies (#[trigger] (cfg.user_problems())(
            i,
        )) is None by {
            lemma_user_problem(cfg, i);
            assert(cfg.user_in_order(i));
        }
        assert forall|i: int| 0 <= i < libraries implies (#[trigger] (cfg.grant_problems())(
            i,
        )) is None by {
            let lib = cfg.libraries@[i];
            lemma_list_problem(cfg, i, lib.read_users@);
            lemma_list_problem(cfg, i, lib.write_users@);
            lemma_list_problem(cfg, i, lib.upload_users@);
        }
    }
    if cfg.problem() is None {
        assert forall|i: int| 0 <= i < libraries implies {
            &&& (#[trigger] cfg.library_name(i)).len() > 0
            &&& forall|j: int| 0 <= j < i ==> #[trigger] cfg.library_name(j) != cfg.library_name(i)
        } by {
            assert((cfg.library_problems())(i) is None);
            lemma_library_problem(cfg, i);
        }
        assert forall|i: int| 0 <= i < users implies #[trigger] cfg.user_in_order(i) by {
            assert((cfg.user_problems())(i) is None);
            lemma_user_problem(cfg, i);
        }
        assert forall|i: int| 0 <= i < libraries implies {
            &&& cfg.lists_users((#[trigger] cfg.libraries@[i]).read_users@)
            &&& cfg.lists_users(cfg.libraries@[i].write_users@)
            &&& cfg.lists_users(cfg.libraries@[i].upload_users@)
        } by {
            let lib = cfg.libraries@[i];
            assert((cfg.grant_problems())(i) is None);
            lemma_list_problem(cfg, i, lib.read_users@);
            lemma_list_problem(cfg, i, lib.write_users@);
            lemma_list_problem(cfg, i, lib.upload_users@);
        }
    }
}

/// A path as what it starts from, if anything, and the names to follow below
/// that, one after the other.
#[derive(Debug)]
pub struct Place<T> {
    pub base: Option<T>,
    pub names: Vec<String>,
}

/// Where the configuration is read from unless it is said otherwise:
/// `$XDG_CONFIG_HOME/muserv/config.toml`, or `~/.config/muserv/config.toml`.
/// `xdg` and `home` are what the environment says, in whatever form the machine
/// has it; an empty `XDG_CONFIG_HOME` counts as not set.
pub fn default_config_path<T>(xdg: Option<T>, xdg_is_empty: bool, home: Option<T>) -> (r: Place<T>)
    ensures
        xdg is Some && !xdg_is_empty ==> {
            &&& r.base == xdg
            &&& texts(r.names@) == seq!["muserv"@, "config.toml"@]
        },
        xdg is None || xdg_is_empty ==> {
            &&& r.base == home
            &&& texts(r.names@) == seq![".config"@, "muserv"@, "config.toml"@]
        },
{
    let mut names: Vec<String> = Vec::new();
    if xdg.is_some() && !xdg_is_empty {
        names.push("muserv".to_owned());
        names.push("config.toml".to_owned());
        assert(texts(names@) =~= seq!["muserv"@, "config.toml"@]);
        Place { base: xdg, names }
    } else {
        names.push(".config".to_owned());
        names.push("muserv".to_owned());
        names.push("config.toml".to_owned());
        assert(texts(names@) =~= seq![".config"@, "muserv"@, "config.toml"@]);
        Place { base: home, names }
    }
}

/// Whether a text is the name of a library, up to white space around either.
pub open spec fn names_a_library(cfg: Config, text: Seq<char>) -> bool {
    exists|k: int|
        0 <= k < cfg.libraries@.len() && trimmed((#[trigger] cfg.libraries@[k]).name@) == trimmed(
            text,
        )
}

/// Whether a text is the name of a user, up to white space around either.
pub open spec fn names_a_user(cfg: Config, text: Seq<char>) -> bool {
    exists|u: int|
        0 <= u < cfg.users@.len() && trimmed((#[trigger] cfg.users@[u]).username@) == trimmed(text)
}

/// Whether there is a library; no library or user is without a name, no two have
/// the same, and no user is without a token; every entry of a user's permissions
/// is for a library that is there, and no two are for the same; and every name in
/// a library's lists is that of a user. White space around a name or a token
/// makes no difference.
pub open spec fn is_sound(cfg: Config) -> bool {
    &&& cfg.libraries@.len() > 0
    &&& forall|i: int|
        0 <= i < cfg.libraries@.len() ==> trimmed((#[trigger] cfg.libraries@[i]).name@).len() > 0
    &&& forall|i: int, j: int|
        0 <= i < j < cfg.libraries@.len() ==> trimmed((#[trigger] cfg.libraries@[i]).name@)
            != trimmed((#[trigger] cfg.libraries@[j]).name@)
    &&& forall|i: int|
        0 <= i < cfg.users@.len() ==> trimmed((#[trigger] cfg.users@[i]).username@).len() > 0
            && trimmed(cfg.users@[i].token@).len() > 0
    &&& forall|i: int, j: int|
        0 <= i < j < cfg.users@.len() ==> trimmed((#[trigger] cfg.users@[i]).username@) != trimmed(
            (#[trigger] cfg.users@[j]).username@,
        )
    &&& forall|i: int, p: int|
        0 <= i < cfg.users@.len() && 0 <= p < cfg.users@[i].permissions@.len() ==> names_a_library(
            cfg,
            (#[trigger] cfg.users@[i].permissions@[p]).name@,
        )
    &&& forall|i: int, p: int, q: int|
        0 <= i < cfg.users@.len() && 0 <= p < q < cfg.users@[i].permissions@.len() ==> trimmed(
            (#[trigger] cfg.users@[i].permissions@[p]).name@,
        ) != trimmed((#[trigger] cfg.users@[i].permissions@[q]).name@)
    &&& forall|k: int, j: int|
        0 <= k < cfg.libraries@.len() && 0 <= j < cfg.libraries@[k].read_users@.len() ==> names_a_user(
            cfg,
            #[trigger] cfg.libraries@[k].read_users@[j]@,
        )
    &&& forall|k: int, j: int|
        0 <= k < cfg.libraries@.len() && 0 <= j < cfg.libraries@[k].write_users@.len() ==> names_a_user(
            cfg,
            #[trigger] cfg.libraries@[k].write_users@[j]@,
        )
    &&& forall|k: int, j: int|
        0 <= k < cfg.libraries@.len() && 0 <= j < cfg.libraries@[k].upload_users@.len() ==> names_a_user(
            cfg,
            #[trigger] cfg.libraries@[k].upload_users@[j]@,
        )
}

proof fn lemma_names(cfg: Config, text: Seq<char>)
    ensures
        cfg.has_library(trimmed(text)) <==> names_a_library(cfg, text),
        cfg.has_user(trimmed(text)) <==> names_a_user(cfg, text),
{
    let libraries = cfg.library_names(cfg.libraries@.len());
    let users = cfg.user_names(cfg.users@.len());
    if cfg.has_library(trimmed(text)) {
        let k = libraries.index_of(trimmed(text));
        assert(libraries[k] == trimmed(cfg.libraries@[k].name@));
    }
    if names_a_library(cfg, text) {
        let k = choose|k: int|
            0 <= k < cfg.libraries@.len() && trimmed((#[trigger] cfg.libraries@[k]).name@)
                == trimmed(text);
        assert(libraries[k] == trimmed(text));
    }
    if cfg.has_user(trimmed(text)) {
        let u = users.index_of(trimmed(text));
        assert(users[u] == trimmed(cfg.users@[u].username@));
    }
    if names_a_user(cfg, text) {
        let u = choose|u: int|
            0 <= u < cfg.users@.len() && trimmed((#[trigger] cfg.users@[u]).username@) == trimmed(
                text,
            );
        assert(users[u] == trimmed(text));
    }
}

/// A configuration is accepted exactly where it is sound.
pub proof fn sound_configurations_are_accepted(cfg: Config)
    ensures
        cfg.problem() is None <==> is_sound(cfg),
{
    normalize_accepts_well_formed(cfg);
    if cfg.well_formed() {
        lemma_well_formed_is_sound(cfg);
    }
    if is_sound(cfg) {
        lemma_sound_is_well_formed(cfg);
    }
}

proof fn lemma_well_formed_is_sound(cfg: Config)
    requires
        cfg.well_formed(),
    ensures
        is_sound(cfg),
{
    let libraries = cfg.libraries@;
    let users = cfg.users@;
    assert forall|i: int| 0 <= i < libraries.len() implies trimmed(
        (#[trigger] libraries[i]).name@,
    ).len() > 0 by {
        assert(cfg.library_name(i).len() > 0);
    }
    assert forall|i: int, j: int| 0 <= i < j < libraries.len() implies trimmed(
        (#[trigger] libraries[i]).name@,
    ) != trimmed((#[trigger] libraries[j]).name@) by {
        assert(cfg.library_name(i) != cfg.library_name(j));
    }
    assert forall|i: int| 0 <= i < users.len() implies trimmed(
        (#[trigger] users[i]).username@,
    ).len() > 0 && trimmed(users[i].token@).len() > 0 by {
        assert(cfg.user_in_order(i));
    }
    assert forall|i: int, j: int| 0 <= i < j < users.len() implies trimmed(
        (#[trigger] users[i]).username@,
    ) != trimmed((#[trigger] users[j]).username@) by {
        assert(cfg.user_in_order(j));
        assert(cfg.user_name(i) != cfg.user_name(j));
    }
    assert forall|i: int, p: int|
        0 <= i < users.len() && 0 <= p < users[i].permissions@.len() implies names_a_library(
        cfg,
        (#[trigger] users[i].permissions@[p]).name@,
    ) by {
        assert(cfg.user_in_order(i));
        assert(cfg.has_library(cfg.permission_name(i, p)));
        lemma_names(cfg, users[i].permissions@[p].name@);
    }
    assert forall|i: int, p: int, q: int|
        0 <= i < users.len() && 0 <= p < q < users[i].permissions@.len() implies trimmed(
        (#[trigger] users[i].permissions@[p]).name@,
    ) != trimmed((#[trigger] users[i].permissions@[q]).name@) by {
        assert(cfg.user_in_order(i));
        assert(cfg.permission_name(i, p) != cfg.permission_name(i, q));
    }
    assert forall|k: int, j: int|
        0 <= k < libraries.len() && 0 <= j < libraries[k].read_users@.len() implies names_a_user(
        cfg,
        #[trigger] libraries[k].read_users@[j]@,
    ) by {
        assert(cfg.lists_users(libraries[k].read_users@));
        lemma_names(cfg, libraries[k].read_users@[j]@);
    }
    assert forall|k: int, j: int|
        0 <= k < libraries.len() && 0 <= j < libraries[k].write_users@.len() implies names_a_user(
        cfg,
        #[trigger] libraries[k].write_users@[j]@,
    ) by {
        assert(cfg.lists_users(libraries[k].write_users@));
        lemma_names(cfg, libraries[k].write_users@[j]@);
    }
    assert forall|k: int, j: int|
        0 <= k < libraries.len() && 0 <= j < libraries[k].upload_users@.len() implies names_a_user(
        cfg,
        #[trigger] libraries[k].upload_users@[j]@,
    ) by {
        assert(cfg.lists_users(libraries[k].upload_users@));
        lemma_names(cfg, libraries[k].upload_users@[j]@);
    }
}

proof fn lemma_sound_is_well_formed(cfg: Config)
    requires
        is_sound(cfg),
    ensures
        cfg.well_formed(),
{
    let libraries = cfg.libraries@;
    let users = cfg.users@;
    assert forall|i: int| 0 <= i < libraries.len() implies (#[trigger] cfg.library_name(i)).len()
        > 0 by {
        assert(trimmed(libraries[i].name@).len() > 0);
    }
    assert forall|i: int, j: int| 0 <= i < j < libraries.len() implies #[trigger] cfg.library_name(
        i,
    ) != #[trigger] cfg.library_name(j) by {
        assert(trimmed(libraries[i].name@) != trimmed(libraries[j].name@));
    }
    assert forall|i: int| 0 <= i < users.len() implies #[trigger] cfg.user_in_order(i) by {
        assert(trimmed(users[i].username@).len() > 0);
        assert forall|j: int| 0 <= j < i implies #[trigger] cfg.user_name(j) != cfg.user_name(
            i,
        ) by {
            assert(trimmed(users[j].username@) != trimmed(users[i].username@));
        }
        assert forall|k: int| 0 <= k < users[i].permissions@.len() implies cfg.has_library(
            #[trigger] cfg.permission_name(i, k),
        ) by {
            assert(names_a_library(cfg, users[i].permissions@[k].name@));
            lemma_names(cfg, users[i].permissions@[k].name@);
        }
        assert forall|j: int, k: int|
            0 <= j < k < users[i].permissions@.len() implies #[trigger] cfg.permission_name(i, j)
            != #[trigger] cfg.permission_name(i, k) by {
            assert(trimmed(users[i].permissions@[j].name@) != trimmed(
                users[i].permissions@[k].name@,
            ));
        }
    }
    assert forall|k: int| 0 <= k < libraries.len() implies {
        &&& cfg.lists_users((#[trigger] libraries[k]).read_users@)
        &&& cfg.lists_users(libraries[k].write_users@)
        &&& cfg.lists_users(libraries[k].upload_users@)
    } by {
        assert forall|j: int| 0 <= j < libraries[k].read_users@.len() implies cfg.has_user(
            trimmed(#[trigger] libraries[k].read_users@[j]@),
        ) by {
            assert(names_a_user(cfg, libraries[k].read_users@[j]@));
            lemma_names(cfg, libraries[k].read_users@[j]@);
        }
        assert forall|j: int| 0 <= j < libraries[k].write_users@.len() implies cfg.has_user(
            trimmed(#[trigger] libraries[k].write_users@[j]@),
        ) by {
            assert(names_a_user(cfg, libraries[k].write_users@[j]@));
            lemma_names(cfg, libraries[k].write_users@[j]@);
        }
        assert forall|j: int| 0 <= j < libraries[k].upload_users@.len() implies cfg.has_user(
            trimmed(#[trigger] libraries[k].upload_users@[j]@),
        ) by {
            assert(names_a_user(cfg, libraries[k].upload_users@[j]@));
            lemma_names(cfg, libraries[k].upload_users@[j]@);
        }
    }
}

/// What a configuration is refused for is really in it, and is told by the names
/// of those that it is about.
pub proof fn the_problem_told_is_there(cfg: Config)
    ensures
        ({
            let libraries = cfg.libraries@;
            let users = cfg.users@;
            match cfg.problem() {
                None => true,
                Some(ConfigProblem::NoLibraries) => libraries.len() == 0,
                Some(ConfigProblem::EmptyLibraryName) => exists|i: int|
                    0 <= i < libraries.len() && trimmed((#[trigger] libraries[i]).name@).len() == 0,
                Some(ConfigProblem::DuplicateLibrary { name }) => exists|i: int, j: int|
                    0 <= i < j < libraries.len() && trimmed((#[trigger] libraries[i]).name@) == name
                        && trimmed((#[trigger] libraries[j]).name@) == name,
                Some(ConfigProblem::EmptyUsername) => exists|i: int|
                    0 <= i < users.len() && trimmed((#[trigger] users[i]).username@).len() == 0,
                Some(ConfigProblem::DuplicateUsername { username }) => exists|i: int, j: int|
                    0 <= i < j < users.len() && trimmed((#[trigger] users[i]).username@) == username
                        && trimmed((#[trigger] users[j]).username@) == username,
                Some(ConfigProblem::EmptyToken { username }) => exists|i: int|
                    0 <= i < users.len() && trimmed((#[trigger] users[i]).username@) == username
                        && trimmed(users[i].token@).len() == 0,
                Some(ConfigProblem::UnknownLibrary { username, library }) => exists|i: int, p: int|
                    0 <= i < users.len() && 0 <= p < users[i].permissions@.len() && trimmed(
                        users[i].username@,
                    ) == username && trimmed((#[trigger] users[i].permissions@[p]).name@) == library
                        && !names_a_library(cfg, users[i].permissions@[p].name@),
                Some(ConfigProblem::DuplicatePermission { username, library }) => exists|
                    i: int,
                    p: int,
                    q: int,
                |
                    0 <= i < users.len() && 0 <= p < q < users[i].permissions@.len() && trimmed(
                        users[i].username@,
                    ) == username && trimmed((#[trigger] users[i].permissions@[p]).name@) == library
                        && trimmed((#[trigger] users[i].permissions@[q]).name@) == library,
                Some(ConfigProblem::UnknownUser { library, username }) => exists|k: int|
                    0 <= k < libraries.len() && trimmed((#[trigger] libraries[k]).name@) == library
                        && (lists(libraries[k].read_users@, username) || lists(
                        libraries[k].write_users@,
                        username,
                    ) || lists(libraries[k].upload_users@, username)) && forall|u: int|
                        0 <= u < users.len() ==> trimmed((#[trigger] users[u]).username@)
                            != username,
                Some(ConfigProblem::LibraryNotFound { .. }) => false,
            }
        }),
{
    let libraries = cfg.libraries@;
    let users = cfg.users@;
    let i = lemma_first_some_found(libraries.len(), cfg.library_problems(), 0);
    let u = lemma_first_some_found(users.len(), cfg.user_problems(), 0);
    let k = lemma_first_some_found(libraries.len(), cfg.grant_problems(), 0);
    if libraries.len() == 0 {
    } else if first_some(libraries.len(), cfg.library_problems()) is Some {
        assert(cfg.problem() == cfg.library_problem(i));
        assert(libraries[i].name@ == libraries[i].name@);
        let names = cfg.library_names(i as nat);
        if names.contains(cfg.library_name(i)) {
            let j = names.index_of(cfg.library_name(i));
            assert(names[j] == trimmed(libraries[j].name@));
        }
    } else if first_some(users.len(), cfg.user_problems()) is Some {
        assert(cfg.problem() == cfg.user_problem(u));
        assert(users[u].username@ == users[u].username@);
        let names = cfg.user_names(u as nat);
        if names.contains(cfg.user_name(u)) {
            let j = names.index_of(cfg.user_name(u));
            assert(names[j] == trimmed(users[j].username@));
        }
        let own = users[u].permissions@;
        let p = lemma_first_some_found(own.len(), cfg.permission_problems(u), 0);
        if first_some(own.len(), cfg.permission_problems(u)) is Some {
            assert((cfg.permission_problems(u))(p) == cfg.permission_problem(u, p));
            lemma_names(cfg, own[p].name@);
            let before = cfg.permission_names(u, p as nat);
            if before.contains(cfg.permission_name(u, p)) {
                let q = before.index_of(cfg.permission_name(u, p));
                assert(before[q] == trimmed(own[q].name@));
            }
        }
    } else if first_some(libraries.len(), cfg.grant_problems()) is Some {
        assert(cfg.problem() == cfg.grant_problem(k));
        let lib = libraries[k];
        let list = if cfg.list_problem(k, lib.read_users@) is Some {
            lib.read_users@
        } else if cfg.list_problem(k, lib.write_users@) is Some {
            lib.write_users@
        } else {
            lib.upload_users@
        };
        let j = lemma_first_some_found(list.len(), cfg.list_problems(k, list), 0);
        let name = list[j]@;
        lemma_names(cfg, name);
        assert(lists(list, trimmed(name)));
        assert forall|x: int| 0 <= x < users.len() implies trimmed((#[trigger] users[x]).username@)
            != trimmed(name) by {
            if trimmed(users[x].username@) == trimmed(name) {
                assert(names_a_user(cfg, name));
            }
        }
        assert(libraries[k].name@ == lib.name@);
    }
}

/// Whether a list holds a name, up to white space around it.
pub open spec fn lists(list: Seq<String>, name: Seq<char>) -> bool {
    exists|j: int| 0 <= j < list.len() && trimmed(#[trigger] list[j]@) == name
}

/// The problems of a configuration are told in their order. Of libraries, the
/// first that is wrong is told: that its name is blank, or else that a library
/// before it has the name. Where the libraries are right, the first user that is
/// wrong is told: that the name is blank, or else that a user before has it, or
/// else that the token is blank.
pub proof fn the_first_problem_is_told(cfg: Config, i: int, j: int)
    ensures
        0 <= i < cfg.libraries@.len() && (forall|k: int|
            0 <= k < i ==> (#[trigger] cfg.library_problems()(k)) is None) ==> {
            let name = trimmed(cfg.libraries@[i].name@);
            &&& name.len() == 0 ==> cfg.problem() == Some(ConfigProblem::EmptyLibraryName)
            &&& name.len() > 0 && 0 <= j < i && trimmed(cfg.libraries@[j].name@) == name
                ==> cfg.problem() == Some(ConfigProblem::DuplicateLibrary { name })
        },
        0 <= i < cfg.users@.len() && cfg.libraries@.len() > 0 && (forall|k: int|
            0 <= k < cfg.libraries@.len() ==> (#[trigger] cfg.library_problems()(k)) is None) && (
        forall|k: int| 0 <= k < i ==> (#[trigger] cfg.user_problems()(k)) is None) ==> {
            let username = trimmed(cfg.users@[i].username@);
            let repeated = 0 <= j < i && trimmed(cfg.users@[j].username@) == username;
            &&& username.len() == 0 ==> cfg.problem() == Some(ConfigProblem::EmptyUsername)
            &&& username.len() > 0 && repeated ==> cfg.problem() == Some(
                ConfigProblem::DuplicateUsername { username },
            )
            &&& username.len() > 0 && (forall|k: int|
                0 <= k < i ==> trimmed((#[trigger] cfg.users@[k]).username@) != username)
                && trimmed(cfg.users@[i].token@).len() == 0 ==> cfg.problem() == Some(
                ConfigProblem::EmptyToken { username },
            )
        },
{
    let libraries = cfg.libraries@;
    let users = cfg.users@;
    lemma_first_some_found(libraries.len(), cfg.library_problems(), i);
    lemma_first_some_found(users.len(), cfg.user_problems(), i);
    lemma_first_some_none(libraries.len(), cfg.library_problems());
    if 0 <= i < libraries.len() {
        assert((cfg.library_problems())(i) == cfg.library_problem(i));
        if 0 <= j < i {
            assert(cfg.library_names(i as nat)[j] == trimmed(libraries[j].name@));
        }
    }
    if 0 <= i < users.len() {
        assert((cfg.user_problems())(i) == cfg.user_problem(i));
        let names = cfg.user_names(i as nat);
        if 0 <= j < i {
            assert(names[j] == trimmed(users[j].username@));
        }
        if names.contains(cfg.user_name(i)) {
            let k = names.index_of(cfg.user_name(i));
            assert(names[k] == trimmed(users[k].username@));
        }
    }
}

/// The message on a problem names those that the problem is about.
pub proof fn messages_name_what_is_wrong(a: Seq<char>, b: Seq<char>)
    ensures
        holds_text(ConfigProblem::DuplicateLibrary { name: a }.message(), a),
        holds_text(ConfigProblem::DuplicateUsername { username: a }.message(), a),
        holds_text(ConfigProblem::EmptyToken { username: a }.message(), a),
        holds_text(ConfigProblem::UnknownLibrary { username: a, library: b }.message(), a),
        holds_text(ConfigProblem::UnknownLibrary { username: a, library: b }.message(), b),
        holds_text(ConfigProblem::DuplicatePermission { username: a, library: b }.message(), a),
        holds_text(ConfigProblem::DuplicatePermission { username: a, library: b }.message(), b),
        holds_text(ConfigProblem::UnknownUser { library: a, username: b }.message(), a),
        holds_text(ConfigProblem::UnknownUser { library: a, username: b }.message(), b),
        holds_text(ConfigProblem::LibraryNotFound { name: a }.message(), a),
{
    let nothing = Seq::<char>::empty();
    let user = "user "@;
    let library = "library "@;
    assert("duplicate library name: "@ + a + nothing =~= "duplicate library name: "@ + a);
    a_part_is_found("duplicate library name: "@, a, nothing);
    assert("duplicate username: "@ + a + nothing =~= "duplicate username: "@ + a);
    a_part_is_found("duplicate username: "@, a, nothing);
    a_part_is_found(user, a, " has empty token"@);
    let unknown = " references unknown library: "@;
    assert(user + a + (unknown + b) =~= user + a + unknown + b);
    a_part_is_found(user, a, unknown + b);
    assert((user + a + unknown) + b + nothing =~= user + a + unknown + b);
    a_part_is_found(user + a + unknown, b, nothing);
    let twice = " has duplicate permission entry for library: "@;
    assert(user + a + (twice + b) =~= user + a + twice + b);
    a_part_is_found(user, a, twice + b);
    assert((user + a + twice) + b + nothing =~= user + a + twice + b);
    a_part_is_found(user + a + twice, b, nothing);
    let stranger = " references unknown user: "@;
    assert(library + a + (stranger + b) =~= library + a + stranger + b);
    a_part_is_found(library, a, stranger + b);
    assert((library + a + stranger) + b + nothing =~= library + a + stranger + b);
    a_part_is_found(library + a + stranger, b, nothing);
    a_part_is_found(library, a, " not found while resolving users"@);
}

} // verus!
