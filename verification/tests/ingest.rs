use muserv::ingest::{
    after_rename, counts_text, filename_of, first_transfer, hex_string, import_summary,
    is_audio_file, look_up, parse_tags, storage_path, AudioProperties, ContentHasher, CopyMode,
    ImportFailure, ImportRun, ImportStats, ImportStatsView, IngestOutcome, TagFields, Transfer,
};
use muserv::paths::{Component, FilePath};
use std::path::{Component as Std, Path};

fn path(text: &str) -> FilePath {
    FilePath {
        components: Path::new(text)
            .components()
            .map(|component| match component {
                Std::Prefix(prefix) => Component::Prefix { text: format!("{:?}", prefix.kind()) },
                Std::RootDir => Component::RootDir,
                Std::CurDir => Component::CurDir,
                Std::ParentDir => Component::ParentDir,
                Std::Normal(name) => Component::Normal { name: name.to_str().unwrap().to_string() },
            })
            .collect(),
    }
}

fn hash_of(pieces: &[&[u8]]) -> String {
    let mut hasher = ContentHasher::new();
    for piece in pieces {
        hasher.update(piece);
    }
    hasher.finish()
}

const ABC: &str = "ba7816bf8f01cfea414140de5dae2223b00361a396177a9cb410ff61f20015ad";

#[test]
fn audio_files_by_extension() {
    for ext in [
        "mp3", "flac", "ogg", "oga", "opus", "m4a", "m4b", "mp4", "aac", "wav", "aiff", "aif",
        "wv", "ape", "mka",
    ] {
        assert!(is_audio_file(&path(&format!("/x/song.{ext}"))), "{ext}");
        assert!(is_audio_file(&path(&format!("song.{}", ext.to_uppercase()))), "{ext}");
    }
    for text in ["song", "song.txt", ".mp3", "song.mp3/", "dir.mp3/song", "song.mp", "song.mp33", ""] {
        let expected = text == "song.mp3/";
        assert_eq!(is_audio_file(&path(text)), expected, "{text:?}");
    }
}

#[test]
fn hash_is_that_of_the_content() {
    assert_eq!(
        hash_of(&[]),
        "e3b0c44298fc1c149afbf4c8996fb92427ae41e4649b934ca495991b7852b855"
    );
    assert_eq!(hash_of(&[b"abc"]), ABC);
    assert_eq!(hash_of(&[b"a", b"", b"bc"]), ABC);
    assert_ne!(hash_of(&[b"abd"]), ABC);
}

#[test]
fn bytes_in_hexadecimal() {
    assert_eq!(hex_string(&[]), "");
    assert_eq!(hex_string(&[0, 9, 10, 15, 16, 255]), "00090a0f10ff");
}

#[test]
fn storage_is_by_hash_and_extension() {
    assert_eq!(storage_path(&path("/in/Song.MP3"), ABC), format!(".storage/ba/{ABC}.mp3"));
    assert_eq!(storage_path(&path("/in/song"), ABC), format!(".storage/ba/{ABC}"));
    assert_eq!(storage_path(&path("/in/song."), ABC), format!(".storage/ba/{ABC}"));
    assert_eq!(
        storage_path(&path("/one/a.flac"), ABC),
        storage_path(&path("/two/b.FLAC"), ABC)
    );
}

#[test]
fn original_names() {
    assert_eq!(filename_of(&path("/in/Song.mp3")), "Song.mp3");
    assert_eq!(filename_of(&path("/")), "track");
    assert_eq!(filename_of(&path("..")), "track");
}

#[test]
fn transfers_bring_a_file_to_storage() {
    assert_eq!(first_transfer(CopyMode::Copy), Transfer::Copy);
    assert_eq!(first_transfer(CopyMode::Move), Transfer::Rename);
    assert_eq!(after_rename(true), vec![]);
    assert_eq!(after_rename(false), vec![Transfer::Copy, Transfer::Remove]);
}

fn tag(track: &str, disc: &str, year: &str, date: &str) -> TagFields {
    TagFields {
        title: Some("Title".to_string()),
        album: Some("Album".to_string()),
        artist: Some("Artist".to_string()),
        album_artist: None,
        track_number: Some(track.to_string()),
        disc_number: Some(disc.to_string()),
        year: Some(year.to_string()),
        recording_date: Some(date.to_string()),
    }
}

fn properties() -> AudioProperties {
    AudioProperties {
        duration_ms: 181_000,
        bitrate: Some(320),
        sample_rate: Some(44_100),
        channels: Some(2),
    }
}

#[test]
fn tags_and_properties() {
    let out = parse_tags(&properties(), Some(tag("3/12", " 1 / 2", " 1999 ", "2001-05-06")), None);
    assert_eq!(out.title.as_deref(), Some("Title"));
    assert_eq!(out.album.as_deref(), Some("Album"));
    assert_eq!(out.artist.as_deref(), Some("Artist"));
    assert_eq!(out.album_artist, None);
    assert_eq!(out.track_no, Some(3));
    assert_eq!(out.disc_no, Some(1));
    assert_eq!(out.year, Some(1999));
    assert_eq!(out.duration_ms, Some(181_000));
    assert_eq!(out.bitrate, Some(320));
    assert_eq!(out.sample_rate, Some(44_100));
    assert_eq!(out.channels, Some(2));
}

#[test]
fn year_of_the_recording() {
    let year = |text: &str, date: &str| parse_tags(&properties(), Some(tag("1", "1", text, date)), None).year;
    assert_eq!(year("", "2001-05-06"), Some(2001));
    assert_eq!(year("soon", "2001"), Some(2001));
    assert_eq!(year("soon", "201"), None);
    assert_eq!(year("soon", "é001-05"), None);
    assert_eq!(year("soon", " 2001"), None);
    assert_eq!(year("7", "2001"), Some(7));
}

#[test]
fn the_primary_tag_goes_first() {
    let first = parse_tags(&properties(), None, Some(tag("4", "1", "1", "")));
    assert_eq!(first.track_no, Some(4));
    let primary = parse_tags(&properties(), Some(tag("5", "1", "1", "")), Some(tag("4", "1", "1", "")));
    assert_eq!(primary.track_no, Some(5));
    let none = parse_tags(&properties(), None, None);
    assert_eq!(none.title, None);
    assert_eq!(none.track_no, None);
    assert_eq!(none.duration_ms, Some(181_000));
}

#[test]
fn known_content_is_a_duplicate() {
    assert_eq!(look_up(ABC.to_string(), Some(7)).err(), Some(IngestOutcome::Duplicate));
    assert!(look_up(ABC.to_string(), None).is_ok());
}

#[test]
fn a_new_file_becomes_a_track() {
    let file = look_up(ABC.to_string(), None).ok().unwrap();
    let parsed = file.parsed(&path("/in/Song.Mp3"), parse_tags(&properties(), None, None));
    assert_eq!(parsed.storage_path, format!(".storage/ba/{ABC}.mp3"));
    let row = parsed.stored_at_time(&path("/in/Song.Mp3"), 1234, 99);
    assert_eq!(row.hash, ABC);
    assert_eq!(row.storage_path, format!(".storage/ba/{ABC}.mp3"));
    assert_eq!(row.original_filename, "Song.Mp3");
    assert_eq!(row.parsed.duration_ms, Some(181_000));
    assert_eq!(row.file_size, 1234);
    assert_eq!((row.added_at, row.updated_at), (99, 99));
}

#[test]
fn a_track_is_stored_at_the_present_time() {
    let file = look_up(ABC.to_string(), None).ok().unwrap();
    let before = chrono::Utc::now().timestamp();
    let row = file.parsed(&path("a.mp3"), parse_tags(&properties(), None, None)).stored(&path("a.mp3"), 1);
    let after = chrono::Utc::now().timestamp();
    assert!(before <= row.added_at && row.added_at <= after);
    assert_eq!(row.updated_at, row.added_at);
}

#[test]
fn an_import_accounts_for_every_file() {
    let mut run = ImportRun::new(&path("/music"));
    assert!(!run.visit(&path("/in"), false));
    assert!(!run.visit(&path("/in/cover.jpg"), true));
    assert!(!run.visit(&path("/music/.storage/ba/x.mp3"), true));
    assert!(run.visit(&path("/music/.storage2/x.mp3"), true));
    run.ingested("/music/.storage2/x.mp3", Ok(IngestOutcome::Imported));
    assert!(run.visit(&path("/in/b.flac"), true));
    run.ingested("/in/b.flac", Ok(IngestOutcome::Duplicate));
    assert!(run.visit(&path("/in/c.ogg"), true));
    run.ingested("/in/c.ogg", Err("no tag".to_string()));
    run.walk_failed();
    let stats = run.stats;
    assert_eq!(stats.scanned, 3);
    assert_eq!(stats.imported, 1);
    assert_eq!(stats.duplicates, 1);
    assert_eq!(stats.failed, 2);
    assert_eq!(stats.failures.len(), 1);
    assert_eq!(stats.failures[0].path, "/in/c.ogg");
    assert_eq!(stats.failures[0].reason, "no tag");
}

#[test]
fn stored_files_are_not_imported_again() {
    let stored = format!("/music/{}", storage_path(&path("/in/a.mp3"), &hash_of(&[b"abc"])));
    let mut run = ImportRun::new(&path("/music"));
    assert!(!run.visit(&path(&stored), true));
    assert_eq!(run.stats.scanned, 0);
}

fn stats(failures: &[(&str, &str)]) -> ImportStats {
    ImportStats {
        scanned: 5,
        imported: 2,
        duplicates: 1,
        failed: failures.len() as u64,
        failures: failures
            .iter()
            .map(|(path, reason)| ImportFailure { path: path.to_string(), reason: reason.to_string() })
            .collect(),
    }
}

#[test]
fn summaries_of_an_import() {
    assert_eq!(
        counts_text(&stats(&[])),
        "import: scanned=5 imported=2 duplicates=1 failed=0"
    );
    assert_eq!(
        import_summary(&stats(&[])),
        "import: scanned=5 imported=2 duplicates=1 failed=0\n"
    );
    assert_eq!(
        import_summary(&stats(&[("/a", "x")])),
        "import: scanned=5 imported=2 duplicates=1 failed=1\n\n1 file failed to import:\n  /a: x\n"
    );
    assert_eq!(
        import_summary(&stats(&[("/a", "x"), ("/b", "y")])),
        "import: scanned=5 imported=2 duplicates=1 failed=2\n\n2 files failed to import:\n  /a: x\n  /b: y\n"
    );
}

#[test]
fn counts_of_an_import() {
    let view = ImportStatsView::from(&stats(&[("/a", "x")]));
    assert_eq!((view.scanned, view.imported, view.duplicates, view.failed), (5, 2, 1, 1));
}

#[test]
fn two_imports_together() {
    let both = stats(&[("/a", "x")]).merge(stats(&[("/b", "y")]));
    assert_eq!((both.scanned, both.imported, both.duplicates, both.failed), (10, 4, 2, 2));
    let paths: Vec<&str> = both.failures.iter().map(|f| f.path.as_str()).collect();
    assert_eq!(paths, vec!["/a", "/b"]);
    let nothing = ImportStats::default();
    assert_eq!((nothing.scanned, nothing.imported, nothing.duplicates, nothing.failed), (0, 0, 0, 0));
    assert!(nothing.failures.is_empty());
}

#[test]
fn a_repeated_import_finds_duplicates() {
    let contents: [&[u8]; 4] = [b"one", b"two", b"one", b"three"];
    let mut tracks: Vec<String> = Vec::new();
    let mut imported: Vec<bool> = Vec::new();
    for _ in 0..2 {
        for content in contents {
            let hash = hash_of(&[content]);
            let existing = tracks.iter().position(|known| *known == hash).map(|i| i as i64);
            match look_up(hash, existing) {
                Ok(file) => {
                    tracks.push(file.hash);
                    imported.push(true);
                }
                Err(outcome) => {
                    assert_eq!(outcome, IngestOutcome::Duplicate);
                    imported.push(false);
                }
            }
        }
    }
    assert_eq!(imported, vec![true, true, false, true, false, false, false, false]);
    assert_eq!(tracks.len(), 3);
}
