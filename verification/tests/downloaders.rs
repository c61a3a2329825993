use muserv::api::auth::CurrentUser;
use muserv::api::downloaders::{
    accept_script, clean_urls, download_directory, list, list_scripts, new_job, script_candidate,
    scripts_directory, staging_path, start_job, stderr_line, DownloadEnd, Job, JobRun, JobStatus,
    JobStore, ScriptEntry,
};
use muserv::api::AppState;
use muserv::ingest::ImportStats;
use muserv::libraries::Library;
use muserv::paths::{Component, FilePath};
use muserv::users::{LibraryAccess, User};
use std::collections::HashMap;
use std::path::{Component as Std, Path};
use std::sync::Arc;

fn state(dir: Option<&str>) -> AppState {
    AppState {
        users: Vec::new(),
        libraries: vec![Library { id: 1, name: "main".to_string(), path: "/m".to_string() }],
        downloaders_path: dir.map(|d| d.to_string()),
    }
}

fn path(text: &str) -> FilePath {
    FilePath {
        components: Path::new(text)
            .components()
            .map(|component| match component {
                Std::Prefix(prefix) => Component::Prefix { text: format!("{:?}", prefix.kind()) },
                Std::RootDir => Component::RootDir,
                Std::CurDir => Component::CurDir,
                Std::ParentDir => Component::ParentDir,
                Std::Normal(name) => Component::Normal { name: name.to_str().unwrap().to_string() },
            })
            .collect(),
    }
}

fn strings(list: &[&str]) -> Vec<String> {
    list.iter().map(|s| s.to_string()).collect()
}

fn entry(name: Option<&str>, is_file: bool, mode: u32) -> ScriptEntry {
    ScriptEntry { name: name.map(|n| n.to_string()), is_file, mode }
}

fn job(id: &str, urls: &[&str]) -> Job {
    start_job("fetch", &strings(urls), id.to_string(), "then".to_string()).unwrap()
}

#[test]
fn executable_files_are_listed_by_name() {
    let entries = vec![
        entry(Some("zed"), true, 0o755),
        entry(Some("notes"), true, 0o644),
        entry(Some("dir"), false, 0o755),
        entry(None, true, 0o755),
        entry(Some("alpha"), true, 0o001),
        entry(Some("Beta"), true, 0o010),
        entry(Some("gamma"), true, 0o100),
    ];
    let names: Vec<String> = list_scripts(&entries).into_iter().map(|i| i.name).collect();
    assert_eq!(names, strings(&["Beta", "alpha", "gamma", "zed"]));
    assert!(list_scripts(&Vec::new()).is_empty());
}

#[test]
fn listing_needs_a_library() {
    assert_eq!(scripts_directory(&state(None), 1).unwrap(), None);
    assert_eq!(scripts_directory(&state(Some("/d")), 1).unwrap(), Some("/d".to_string()));
    assert_eq!(scripts_directory(&state(Some("/d")), 2).err().unwrap().status, 404);
    let entries = vec![entry(Some("zed"), true, 0o755), entry(Some("alpha"), true, 0o755)];
    assert!(list(&state(None), 1, &entries).unwrap().is_empty());
    let scripts = list(&state(Some("/d")), 1, &entries).unwrap();
    let names: Vec<String> = scripts.into_iter().map(|i| i.name).collect();
    assert_eq!(names, strings(&["alpha", "zed"]));
    assert_eq!(list(&state(Some("/d")), 2, &entries).err().unwrap().status, 404);
}

#[test]
fn script_names_are_single_components() {
    let app = state(Some("/d"));
    for name in ["fetch.sh", "..."] {
        let candidate = script_candidate(&app, &CurrentUser::Open, 1, name).unwrap();
        assert_eq!((candidate.dir.as_str(), candidate.name.as_str()), ("/d", name));
    }
    for name in ["", ".", "..", "a/b", "/a", "a\\b", "../x"] {
        let err = script_candidate(&app, &CurrentUser::Open, 1, name).err().unwrap();
        assert_eq!((err.status, err.message.as_str()), (400, "invalid script name"), "{name}");
    }
    let err = script_candidate(&state(None), &CurrentUser::Open, 1, "a").err().unwrap();
    assert_eq!((err.status, err.message.as_str()), (400, "no downloaders_path configured"));
    let err = script_candidate(&app, &CurrentUser::Open, 2, "a").err().unwrap();
    assert_eq!((err.status, err.message.as_str()), (404, "library not found"));
}

#[test]
fn running_needs_upload_access() {
    let mut permissions = HashMap::new();
    permissions.insert(1, LibraryAccess { read: true, write: true, upload: false });
    let alan = CurrentUser::Authenticated(Arc::new(User {
        username: "alan".to_string(),
        token: "t".to_string(),
        permissions,
    }));
    let err = script_candidate(&state(Some("/d")), &alan, 1, "fetch").err().unwrap();
    assert_eq!((err.status, err.message.as_str()), (403, "upload access required"));
}

#[test]
fn scripts_lie_directly_inside_the_directory() {
    let found = |text: &str, is_file: bool| accept_script(&path("/d"), Some(path(text)), is_file);
    assert_eq!(found("/d/fetch", true).unwrap().file_name().as_deref(), Some("fetch"));
    for (text, is_file) in [("/d/fetch", false), ("/d/x/fetch", true), ("/fetch", true), ("/d", true)] {
        let err = found(text, is_file).err().unwrap();
        assert_eq!((err.status, err.message.as_str()), (400, "invalid script name"), "{text}");
    }
    let err = accept_script(&path("/d"), None, true).err().unwrap();
    assert_eq!((err.status, err.message.as_str()), (404, "script not found"));
}

#[test]
fn urls_are_trimmed_and_blank_ones_dropped() {
    assert_eq!(clean_urls(&strings(&[" a ", "", "\t", "b"])), strings(&["a", "b"]));
    let err = start_job("s", &strings(&[" "]), "1".to_string(), "t".to_string()).err().unwrap();
    assert_eq!((err.status, err.message.as_str()), (400, "at least one url is required"));
    assert_eq!(new_job("s", &Vec::new()).err().unwrap().status, 400);
}

#[test]
fn a_new_job_is_running() {
    let job = new_job("fetch", &strings(&[" u "])).unwrap();
    assert_eq!(job.script, "fetch");
    assert_eq!(job.urls, strings(&["u"]));
    assert_eq!(job.current_index, Some(0));
    assert_eq!(job.status, JobStatus::Running);
    assert!(job.log.is_empty() && job.summary.is_none() && job.finished_at.is_none());
    let id: Vec<char> = job.id.chars().collect();
    assert_eq!(id.len(), 36);
    for (i, c) in id.iter().enumerate() {
        if [8, 13, 18, 23].contains(&i) {
            assert_eq!(*c, '-');
        } else {
            assert!(c.is_ascii_digit() || ('a'..='f').contains(c));
        }
    }
    assert_eq!(id[14], '4');
    assert!(['8', '9', 'a', 'b'].contains(&id[19]));
    let started = chrono::DateTime::parse_from_rfc3339(&job.started_at).unwrap();
    assert!(started <= chrono::Utc::now());
    assert!(job.started_at.ends_with("+00:00"));
    assert_eq!(&job.started_at[4..5], "-");
    assert_eq!(&job.started_at[10..11], "T");
    assert_ne!(new_job("fetch", &strings(&["u"])).unwrap().id, job.id);
}

#[test]
fn jobs_are_found_by_id() {
    let app = state(None);
    let mut store = JobStore::new();
    assert!(store.get("a").is_none());
    store.insert(job("a", &["u"]));
    store.insert(job("b", &["v"]));
    assert_eq!(store.job_status(&app, 1, "b").unwrap().urls, strings(&["v"]));
    let err = store.job_status(&app, 1, "c").err().unwrap();
    assert_eq!((err.status, err.message.as_str()), (404, "job not found"));
    let err = store.job_status(&app, 2, "b").err().unwrap();
    assert_eq!((err.status, err.message.as_str()), (404, "library not found"));
    store.insert(job("a", &["w"]));
    assert_eq!(store.get("a").unwrap().urls, strings(&["w"]));
}

#[test]
fn changes_touch_one_job() {
    let mut store = JobStore::new();
    store.insert(job("a", &["u"]));
    store.insert(job("b", &["v"]));
    store.append_log("a", "one".to_string());
    store.append_log("a", "two".to_string());
    store.append_log("nope", "three".to_string());
    store.set_current_index("a", None);
    store.finish_job("a", JobStatus::Failed, None, "now".to_string());
    let a = store.get("a").unwrap();
    assert_eq!(a.log, strings(&["one", "two"]));
    assert_eq!(a.current_index, None);
    assert_eq!(a.status, JobStatus::Failed);
    assert_eq!(a.finished_at.as_deref(), Some("now"));
    let b = store.get("b").unwrap();
    assert!(b.log.is_empty());
    assert_eq!(b.current_index, Some(0));
    assert_eq!(b.status, JobStatus::Running);
    assert_eq!(b.finished_at, None);
    assert!(store.get("nope").is_none());
}

#[test]
fn a_started_job_can_be_polled() {
    let mut store = JobStore::new();
    let run = store.start("fetch", &strings(&["u", " ", "v"])).unwrap();
    assert_eq!(run.urls, strings(&["u", "v"]));
    assert_eq!((run.started, run.any_failed), (0, false));
    let job = store.get(&run.id).unwrap();
    assert_eq!(job.status, JobStatus::Running);
    assert_eq!(job.urls, run.urls);
    assert!(store.start("fetch", &strings(&[""])).is_err());
}

fn run_all(ends: Vec<DownloadEnd>, import: Result<ImportStats, String>) -> Job {
    let mut store = JobStore::new();
    store.insert(job("a", &["u", "v", "w"]));
    let mut run = JobRun::new("a".to_string(), strings(&["u", "v", "w"]));
    let mut expected: usize = 0;
    for end in ends {
        let index = run.next_download(&mut store).unwrap();
        assert_eq!(index, expected);
        assert_eq!(store.get("a").unwrap().current_index, Some(index));
        expected += 1;
        run.download_ended(&mut store, end);
    }
    assert_eq!(run.next_download(&mut store), None);
    assert_eq!(store.get("a").unwrap().current_index, None);
    assert_eq!(store.get("a").unwrap().status, JobStatus::Running);
    run.import_ended_at(&mut store, import, "end".to_string());
    store.get("a").unwrap().clone()
}

fn stats() -> ImportStats {
    ImportStats { scanned: 3, imported: 2, duplicates: 1, failed: 0, failures: Vec::new() }
}

#[test]
fn a_job_without_failures_completes() {
    let job = run_all(
        vec![DownloadEnd::Succeeded, DownloadEnd::Succeeded, DownloadEnd::Succeeded],
        Ok(stats()),
    );
    assert_eq!(job.status, JobStatus::Completed);
    assert_eq!(
        job.log,
        strings(&[
            "=== [1/3] u ===",
            "=== [2/3] v ===",
            "=== [3/3] w ===",
            "=== importing downloaded files ===",
            "import: scanned=3 imported=2 duplicates=1 failed=0",
        ])
    );
    let summary = job.summary.unwrap();
    assert_eq!((summary.scanned, summary.imported), (3, 2));
    assert_eq!(job.finished_at.as_deref(), Some("end"));
}

#[test]
fn a_failed_download_fails_the_job() {
    let ends = |reason: &str| {
        vec![
            DownloadEnd::NoDirectory { reason: reason.to_string() },
            DownloadEnd::NotStarted { reason: reason.to_string() },
            DownloadEnd::Exited { status: "exit status: 1".to_string() },
        ]
    };
    let job = run_all(ends("x"), Ok(stats()));
    assert_eq!(job.status, JobStatus::Failed);
    assert!(job.summary.is_some());
    assert_eq!(job.log[1], "failed to create download dir: x");
    assert_eq!(job.log[3], "failed to start script: x");
    assert_eq!(job.log[5], "script exited with exit status: 1");

    let job = run_all(
        vec![
            DownloadEnd::NotAwaited { reason: "y".to_string() },
            DownloadEnd::Succeeded,
            DownloadEnd::Succeeded,
        ],
        Ok(stats()),
    );
    assert_eq!(job.status, JobStatus::Failed);
    assert_eq!(job.log[1], "failed to wait on script: y");
}

#[test]
fn a_failed_import_fails_the_job() {
    let job = run_all(
        vec![DownloadEnd::Succeeded, DownloadEnd::Succeeded, DownloadEnd::Succeeded],
        Err("no database".to_string()),
    );
    assert_eq!(job.status, JobStatus::Failed);
    assert!(job.summary.is_none());
    assert_eq!(job.log.last().unwrap(), "import failed: no database");
}

#[test]
fn a_job_ends_at_the_present_time() {
    let mut store = JobStore::new();
    let mut run = store.start("fetch", &strings(&["u"])).unwrap();
    assert_eq!(run.next_download(&mut store), Some(0));
    run.download_ended(&mut store, DownloadEnd::Succeeded);
    assert_eq!(run.next_download(&mut store), None);
    run.import_ended(&mut store, Ok(stats()));
    let job = store.get(&run.id).unwrap();
    let parse = |text: &str| chrono::DateTime::parse_from_rfc3339(text).unwrap();
    assert!(parse(&job.started_at) <= parse(job.finished_at.as_ref().unwrap()));
    assert_eq!(job.status, JobStatus::Completed);
}

#[test]
fn downloads_have_directories_of_their_own() {
    assert_eq!(staging_path("id"), strings(&["muserv-downloads", "id"]));
    assert_eq!(download_directory(0), "0");
    assert_eq!(download_directory(12), "12");
    assert_eq!(stderr_line("oops"), "[stderr] oops");
}
