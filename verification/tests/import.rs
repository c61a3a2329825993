use muserv::api::import::{ImportState, ImportStates};
use muserv::api::AppState;
use muserv::ingest::ImportStats;
use muserv::libraries::Library;

fn state() -> AppState {
    AppState {
        users: Vec::new(),
        libraries: vec![
            Library { id: 1, name: "main".to_string(), path: "/m".to_string() },
            Library { id: 2, name: "podcasts".to_string(), path: "/p".to_string() },
        ],
        downloaders_path: None,
    }
}

fn stats() -> ImportStats {
    ImportStats { scanned: 4, imported: 3, duplicates: 1, failed: 0, failures: Vec::new() }
}

fn is_fresh(state: &ImportState) -> bool {
    !state.running
        && state.started_at.is_none()
        && state.finished_at.is_none()
        && state.last_stats.is_none()
        && state.last_error.is_none()
}

#[test]
fn one_import_at_a_time_for_each_library() {
    let app = state();
    let mut states = ImportStates::new();
    assert!(is_fresh(&states.get_status(&app, 1).unwrap()));
    assert_eq!(states.get_status(&app, 3).err().unwrap().status, 404);
    assert_eq!(states.trigger_at(&app, 3, 10).err().unwrap().status, 404);

    let started = states.trigger_at(&app, 1, 10).unwrap();
    assert!(started.running);
    assert_eq!(started.started_at, Some(10));
    let err = states.trigger_at(&app, 1, 11).err().unwrap();
    assert_eq!((err.status, err.message.as_str()), (409, "import already running"));
    assert_eq!(states.get_status(&app, 1).unwrap().started_at, Some(10));
    assert!(states.trigger_at(&app, 2, 12).is_ok());
    let (status, known) = states.accepted(1);
    assert_eq!((status, known.running, known.started_at), (202, true, Some(10)));
}

#[test]
fn an_import_ends_with_counts_or_an_error() {
    let app = state();
    let mut states = ImportStates::new();
    assert!(states.trigger_at(&app, 1, 10).is_ok());
    states.finish_at(1, 20, Err("disk full".to_string()));
    let ended = states.get_status(&app, 1).unwrap();
    assert!(!ended.running);
    assert_eq!((ended.started_at, ended.finished_at), (Some(10), Some(20)));
    assert_eq!(ended.last_error.as_deref(), Some("disk full"));
    assert!(ended.last_stats.is_none());

    let again = states.trigger_at(&app, 1, 30).unwrap();
    assert!(again.running && again.last_error.is_none() && again.finished_at.is_none());
    states.finish_at(1, 40, Ok(stats()));
    let ended = states.get_status(&app, 1).unwrap();
    let counts = ended.last_stats.unwrap();
    assert_eq!(
        (counts.scanned, counts.imported, counts.duplicates, counts.failed),
        (4, 3, 1, 0)
    );
    assert!(ended.last_error.is_none());
    assert!(is_fresh(&states.get_status(&app, 2).unwrap()));
}

#[test]
fn imports_take_the_present_time() {
    let app = state();
    let mut states = ImportStates::new();
    let before = chrono::Utc::now().timestamp();
    let started = states.trigger(&app, 1).unwrap().started_at.unwrap();
    states.finish(1, Ok(stats()));
    let finished = states.snapshot(1).finished_at.unwrap();
    let after = chrono::Utc::now().timestamp();
    assert!(before <= started && started <= finished && finished <= after);
}
