//! Bringing audio files into a library's content-addressed storage.

use sha2::{Digest, Sha256};
use vstd::prelude::*;

use crate::clock::timestamp;
use crate::paths::{
    extension_follows_the_last_dot, file_name_is_the_last_component, last_name, lies_below, named,
    path_extension, plain_name, FilePath, Part,
};
use crate::text::{
    a_part_is_found, all_digits, before_first, chars_of, decimal, decimal_string, digits_value,
    digits_write_the_number, head_before, holds_text, integer_value, is_blank, last_index,
    lemma_last_index, lowercase, parse_i64, put_together_parts_are_split, signed_decimal, text_of, trimmed, white_space,
    white_space_around_is_taken_away, written_numbers_are_read_back,
};

verus! {

/// Whether `ext` is the extension, in lower case, of an audio file.
pub open spec fn audio_extension(ext: Seq<char>) -> bool {
    ||| ext == "mp3"@
    ||| ext == "flac"@
    ||| ext == "ogg"@
    ||| ext == "oga"@
    ||| ext == "opus"@
    ||| ext == "m4a"@
    ||| ext == "m4b"@
    ||| ext == "mp4"@
    ||| ext == "aac"@
    ||| ext == "wav"@
    ||| ext == "aiff"@
    ||| ext == "aif"@
    ||| ext == "wv"@
    ||| ext == "ape"@
    ||| ext == "mka"@
}

/// Whether the extension of a path is that of an audio file, in any case.
pub open spec fn names_audio(path: Seq<Part>) -> bool {
    match path_extension(path) {
        Some(ext) => audio_extension(lowercase(ext)),
        None => false,
    }
}

fn is_audio_extension(ext: &str) -> (r: bool)
    ensures
        r == audio_extension(ext@),
{
    *ext == *"mp3" || *ext == *"flac" || *ext == *"ogg" || *ext == *"oga" || *ext == *"opus" || *ext
        == *"m4a" || *ext == *"m4b" || *ext == *"mp4" || *ext == *"aac" || *ext == *"wav" || *ext
        == *"aiff" || *ext == *"aif" || *ext == *"wv" || *ext == *"ape" || *ext == *"mka"
}

/// Whether a path names an audio file, by its extension.
pub fn is_audio_file(path: &FilePath) -> (r: bool)
    ensures
        r == names_audio(path@),
{
    match path.extension() {
        Some(ext) => {
            let lower = ext.as_str().to_ascii_lowercase();
            is_audio_extension(lower.as_str())
        },
        None => false,
    }
}

/// Whether a file stays where it was when it is brought into storage.
#[derive(Debug, Clone, Copy, PartialEq, Eq, Structural)]
pub enum CopyMode {
    Copy,
    Move,
}

/// What became of a file.
#[derive(Debug, Clone, Copy, PartialEq, Eq, Structural)]
pub enum IngestOutcome {
    Imported,
    Duplicate,
}

/// What an import did.
#[derive(Debug)]
pub struct ImportStats {
    pub scanned: u64,
    pub imported: u64,
    pub duplicates: u64,
    pub failed: u64,
    pub failures: Vec<ImportFailure>,
}

/// A file that could not be imported.
#[derive(Debug)]
pub struct ImportFailure {
    pub path: String,
    pub reason: String,
}

/// The counts of an import and its failures, each a path and a reason.
#[verifier::ext_equal]
pub struct ImportTotals {
    pub scanned: int,
    pub imported: int,
    pub duplicates: int,
    pub failed: int,
    pub failures: Seq<(Seq<char>, Seq<char>)>,
}

impl View for ImportStats {
    type V = ImportTotals;

    open spec fn view(&self) -> ImportTotals {
        ImportTotals {
            scanned: self.scanned as int,
            imported: self.imported as int,
            duplicates: self.duplicates as int,
            failed: self.failed as int,
            failures: Seq::new(
                self.failures@.len(),
                |i: int| (self.failures@[i].path@, self.failures@[i].reason@),
            ),
        }
    }
}

/// An import that has not seen anything yet.
pub open spec fn nothing_imported() -> ImportTotals {
    ImportTotals { scanned: 0, imported: 0, duplicates: 0, failed: 0, failures: seq![] }
}

impl Default for ImportStats {
    fn default() -> (r: Self)
        ensures
            r@ == nothing_imported(),
    {
        let r = ImportStats {
            scanned: 0,
            imported: 0,
            duplicates: 0,
            failed: 0,
            failures: Vec::new(),
        };
        assert(r@ =~= nothing_imported());
        r
    }
}

impl ImportTotals {
    /// After a directory could not be walked.
    pub open spec fn walk_failed(self) -> ImportTotals {
        ImportTotals { failed: self.failed + 1, ..self }
    }

    /// After a file was found that is to be ingested.
    pub open spec fn found(self) -> ImportTotals {
        ImportTotals { scanned: self.scanned + 1, ..self }
    }

    /// After a file was ingested.
    pub open spec fn ingested(self, outcome: IngestOutcome) -> ImportTotals {
        match outcome {
            IngestOutcome::Imported => ImportTotals { imported: self.imported + 1, ..self },
            IngestOutcome::Duplicate => ImportTotals { duplicates: self.duplicates + 1, ..self },
        }
    }

    /// After a file could not be ingested.
    pub open spec fn failed_on(self, path: Seq<char>, reason: Seq<char>) -> ImportTotals {
        ImportTotals {
            failed: self.failed + 1,
            failures: self.failures.push((path, reason)),
            ..self
        }
    }

    /// Both imports together.
    pub open spec fn plus(self, other: ImportTotals) -> ImportTotals {
        ImportTotals {
            scanned: self.scanned + other.scanned,
            imported: self.imported + other.imported,
            duplicates: self.duplicates + other.duplicates,
            failed: self.failed + other.failed,
            failures: self.failures + other.failures,
        }
    }
}

impl ImportStats {
    /// This import and another one together.
    pub fn merge(self, other: ImportStats) -> (r: ImportStats)
        requires
            self.scanned + other.scanned <= u64::MAX,
            self.imported + other.imported <= u64::MAX,
            self.duplicates + other.duplicates <= u64::MAX,
            self.failed + other.failed <= u64::MAX,
        ensures
            r@ == self@.plus(other@),
    {
        let ghost first = self@;
        let ghost second = other@;
        let mut failures = self.failures;
        let mut more = other.failures;
        failures.append(&mut more);
        let r = ImportStats {
            scanned: self.scanned + other.scanned,
            imported: self.imported + other.imported,
            duplicates: self.duplicates + other.duplicates,
            failed: self.failed + other.failed,
            failures,
        };
        assert(r@.failures =~= first.failures + second.failures);
        r
    }
}

/// Summary of an `ImportStats`, for API responses (e.g. the downloader job's
/// post-download ingest summary).
#[derive(Debug, Clone, Copy, PartialEq, Eq, Structural)]
pub struct ImportStatsView {
    pub scanned: u64,
    pub imported: u64,
    pub duplicates: u64,
    pub failed: u64,
}

/// The counts of an import.
pub open spec fn summarized(s: ImportStats) -> ImportStatsView {
    ImportStatsView {
        scanned: s.scanned,
        imported: s.imported,
        duplicates: s.duplicates,
        failed: s.failed,
    }
}

impl From<&ImportStats> for ImportStatsView {
    fn from(s: &ImportStats) -> (r: Self) {
        ImportStatsView {
            scanned: s.scanned,
            imported: s.imported,
            duplicates: s.duplicates,
            failed: s.failed,
        }
    }
}

impl vstd::std_specs::convert::FromSpecImpl<&ImportStats> for ImportStatsView {
    open spec fn obeys_from_spec() -> bool {
        true
    }

    open spec fn from_spec(s: &ImportStats) -> Self {
        summarized(*s)
    }
}

/// Where the library in the folder `root` keeps the files it has taken in.
pub open spec fn storage_root(root: Seq<Part>) -> Seq<Part> {
    named(root, ".storage"@)
}

/// Whether an import into the library in the folder `root` takes the file `path`
/// in: an audio file outside the library's own storage.
pub open spec fn eligible(root: Seq<Part>, path: Seq<Part>, is_file: bool) -> bool {
    is_file && !lies_below(path, storage_root(root)) && names_audio(path)
}

/// An import under way: a directory is walked, and every audio file found is
/// ingested, skipping the library's own `.storage` directory (already-ingested
/// files live there). Safe to re-run: files whose content already exists in
/// the library (by hash) are reported as duplicates rather than re-imported.
pub struct ImportRun {
    pub storage_root: FilePath,
    pub stats: ImportStats,
}

impl ImportRun {
    /// Starts an import into the library in the folder `root`.
    pub fn new(root: &FilePath) -> (r: ImportRun)
        ensures
            r.storage_root@ == storage_root(root@),
            r.stats@ == nothing_imported(),
    {
        ImportRun { storage_root: root.join(".storage"), stats: ImportStats::default() }
    }

    /// Takes note that part of the directory could not be walked.
    pub fn walk_failed(&mut self)
        requires
            old(self).stats.failed < u64::MAX,
        ensures
            final(self).storage_root == old(self).storage_root,
            final(self).stats@ == old(self).stats@.walk_failed(),
    {
        self.stats.failed = self.stats.failed + 1;
        assert(self.stats@ =~= old(self).stats@.walk_failed());
    }

    /// Takes note of a directory entry; says whether it is to be ingested.
    pub fn visit(&mut self, path: &FilePath, is_file: bool) -> (r: bool)
        requires
            old(self).stats.scanned < u64::MAX,
        ensures
            final(self).storage_root == old(self).storage_root,
            r == (is_file && !lies_below(path@, old(self).storage_root@) && names_audio(path@)),
            final(self).stats@ == if r {
                old(self).stats@.found()
            } else {
                old(self).stats@
            },
    {
        if !is_file {
            return false;
        }
        if path.starts_with(&self.storage_root) {
            return false;
        }
        if !is_audio_file(path) {
            return false;
        }
        self.stats.scanned = self.stats.scanned + 1;
        assert(self.stats@ =~= old(self).stats@.found());
        true
    }

    /// Takes note of what became of a file, whose path is shown as `path`.
    pub fn ingested(&mut self, path: &str, result: Result<IngestOutcome, String>)
        requires
            old(self).stats.imported < u64::MAX,
            old(self).stats.duplicates < u64::MAX,
            old(self).stats.failed < u64::MAX,
        ensures
            final(self).storage_root == old(self).storage_root,
            final(self).stats@ == match result {
                Ok(outcome) => old(self).stats@.ingested(outcome),
                Err(reason) => old(self).stats@.failed_on(path@, reason@),
            },
    {
        let ghost before = self.stats@;
        match result {
            Ok(IngestOutcome::Imported) => {
                self.stats.imported = self.stats.imported + 1;
                assert(self.stats@ =~= before.ingested(IngestOutcome::Imported));
            },
            Ok(IngestOutcome::Duplicate) => {
                self.stats.duplicates = self.stats.duplicates + 1;
                assert(self.stats@ =~= before.ingested(IngestOutcome::Duplicate));
            },
            Err(reason) => {
                self.stats.failed = self.stats.failed + 1;
                self.stats.failures.push(ImportFailure { path: path.to_owned(), reason });
                assert(self.stats@.failures =~= before.failures.push((path@, reason@)));
            },
        }
    }
}

/// `sha2::Sha256`, a hasher, whose state is its own.
#[verifier::external_type_specification]
#[verifier::external_body]
pub struct ExSha256(sha2::Sha256);

/// The bytes that a hasher has taken in.
pub uninterp spec fn absorbed(hasher: Sha256) -> Seq<u8>;

/// The SHA-256 digest of a byte string.
pub uninterp spec fn sha256(data: Seq<u8>) -> Seq<u8>;

/// `Sha256::new`: a hasher that has taken nothing in.
#[verifier::external_body]
fn new_hasher() -> (r: Sha256)
    ensures
        absorbed(r) == Seq::<u8>::empty(),
{
    Sha256::new()
}

/// `Digest::update` on a `Sha256`: the hasher takes `data` in after what it has.
#[verifier::external_body]
fn absorb(hasher: &mut Sha256, data: &[u8])
    ensures
        absorbed(*final(hasher)) == absorbed(*old(hasher)) + data@,
{
    hasher.update(data)
}

/// `Digest::finalize` on a `Sha256`: the 32 bytes of the digest of what the
/// hasher has taken in, a function of that alone.
#[verifier::external_body]
fn digest(hasher: Sha256) -> (r: Vec<u8>)
    ensures
        r@ == sha256(absorbed(hasher)),
        r@.len() == 32,
{
    hasher.finalize().to_vec()
}

/// The hexadecimal digit of a number below 16, in lower case.
pub open spec fn hex_digit(n: int) -> char {
    if n < 10 {
        ('0' as int + n) as char
    } else {
        ('a' as int + n - 10) as char
    }
}

/// Two hexadecimal digits for each byte.
pub open spec fn hex(bytes: Seq<u8>) -> Seq<char> {
    Seq::new(
        2 * bytes.len(),
        |i: int|
            hex_digit(
                if i % 2 == 0 {
                    bytes[i / 2] as int / 16
                } else {
                    bytes[i / 2] as int % 16
                },
            ),
    )
}

fn hex_char(n: u8) -> (r: char)
    requires
        n < 16,
    ensures
        r == hex_digit(n as int),
{
    if n < 10 {
        (48u8 + n) as char
    } else {
        (87u8 + n) as char
    }
}

/// Writes bytes as hexadecimal digits in lower case.
pub fn hex_string(bytes: &[u8]) -> (r: String)
    ensures
        r@ == hex(bytes@),
{
    let mut out = String::new();
    let mut i: usize = 0;
    while i < bytes.len()
        invariant
            i <= bytes@.len(),
            out@ =~= hex(bytes@.take(i as int)),
        decreases bytes@.len() - i,
    {
        let b = bytes[i];
        let ghost before = bytes@.take(i as int);
        let ghost after = bytes@.take(i + 1);
        out.push(hex_char(b / 16));
        out.push(hex_char(b % 16));
        assert forall|j: int| 0 <= j < 2 * (i + 1) implies out@[j] == hex(after)[j] by {
            if j < 2 * i {
                assert(before[j / 2] == after[j / 2]);
                assert(hex(before)[j] == hex(after)[j]);
            } else {
                assert(j / 2 == i);
            }
        }
        i += 1;
    }
    assert(bytes@.take(i as int) =~= bytes@);
    out
}

/// What a file is filed under: the digest of its content, in hexadecimal.
pub open spec fn content_hash(content: Seq<u8>) -> Seq<char> {
    hex(sha256(content))
}

/// Computes what a file is filed under, from its content piece by piece.
pub struct ContentHasher {
    hasher: Sha256,
}

impl View for ContentHasher {
    type V = Seq<u8>;

    closed spec fn view(&self) -> Seq<u8> {
        absorbed(self.hasher)
    }
}

impl ContentHasher {
    /// Starts with no content.
    pub fn new() -> (r: ContentHasher)
        ensures
            r@ == Seq::<u8>::empty(),
    {
        ContentHasher { hasher: new_hasher() }
    }

    /// Takes in the next piece of content.
    pub fn update(&mut self, data: &[u8])
        ensures
            final(self)@ == old(self)@ + data@,
    {
        absorb(&mut self.hasher, data);
    }

    /// The hash of all the content.
    pub fn finish(self) -> (r: String)
        ensures
            r@ == content_hash(self@),
            is_hash(r@),
            is_storable(r@),
    {
        let bytes = digest(self.hasher);
        let r = hex_string(bytes.as_slice());
        assert forall|i: int| 0 <= i < 64 implies lower_hex(#[trigger] r@[i]) by {
            assert(r@[i] == hex(bytes@)[i]);
        }
        assert(lower_hex(r@[0]) && lower_hex(r@[1]));
        r
    }
}

/// Whether `c` is a hexadecimal digit in lower case.
pub open spec fn lower_hex(c: char) -> bool {
    '0' <= c <= '9' || 'a' <= c <= 'f'
}

/// Whether a text is written as the hash of a content is: 64 hexadecimal digits
/// in lower case.
pub open spec fn is_hash(s: Seq<char>) -> bool {
    &&& s.len() == 64
    &&& forall|i: int| 0 <= i < 64 ==> lower_hex(#[trigger] s[i])
}

/// Whether a hash can name a place in storage: its first two characters, ASCII,
/// name a directory.
pub open spec fn is_storable(hash: Seq<char>) -> bool {
    &&& hash.len() >= 2
    &&& hash[0] <= '\u{7f}'
    &&& hash[1] <= '\u{7f}'
}

/// The ending of a file in storage: the extension of the original, in lower
/// case.
pub open spec fn stored_ending(ext: Option<Seq<char>>) -> Seq<char> {
    match ext {
        Some(e) => if e.len() == 0 {
            seq![]
        } else {
            "."@ + lowercase(e)
        },
        None => seq![],
    }
}

/// Where a library keeps a file, from its root:
/// `.storage/<hash[..2]>/<hash>.<ext>`.
pub open spec fn stored_at(src: Seq<Part>, hash: Seq<char>) -> Seq<char> {
    ".storage/"@ + hash.take(2) + "/"@ + hash + stored_ending(path_extension(src))
}

/// Where a library keeps the file `src` whose content has the hash `hash`,
/// from its root.
pub fn storage_path(src: &FilePath, hash: &str) -> (r: String)
    requires
        is_storable(hash@),
    ensures
        r@ == stored_at(src@, hash@),
{
    let chars = chars_of(hash);
    let folder = text_of(chars.as_slice(), 0, 2);
    let mut out = ".storage/".to_owned();
    out.append(folder.as_str());
    out.append("/");
    out.append(hash);
    match src.extension() {
        Some(ext) => {
            if !ext.as_str().is_empty() {
                let lower = ext.as_str().to_ascii_lowercase();
                out.append(".");
                out.append(lower.as_str());
            }
        },
        None => {},
    }
    assert(folder@ =~= hash@.take(2));
    assert(out@ =~= stored_at(src@, hash@));
    out
}

/// The name a track keeps of the file it came from.
pub open spec fn original_name(path: Seq<Part>) -> Seq<char> {
    match last_name(path) {
        Some(name) => name,
        None => "track"@,
    }
}

/// The name a track keeps of the file it came from.
pub fn filename_of(path: &FilePath) -> (r: String)
    ensures
        r@ == original_name(path@),
{
    match path.file_name() {
        Some(name) => name,
        None => "track".to_owned(),
    }
}

/// One step of bringing a file into storage.
#[derive(Debug, Clone, Copy, PartialEq, Eq, Structural)]
pub enum Transfer {
    /// Copies the file to its place.
    Copy,
    /// Renames the file to its place, which can't cross file systems.
    Rename,
    /// Removes the original.
    Remove,
}

/// The first step of bringing a file into storage.
pub open spec fn transfer_for(mode: CopyMode) -> Transfer {
    match mode {
        CopyMode::Copy => Transfer::Copy,
        CopyMode::Move => Transfer::Rename,
    }
}

/// The steps that follow a rename.
pub open spec fn transfers_after(renamed: bool) -> Seq<Transfer> {
    if renamed {
        seq![]
    } else {
        seq![Transfer::Copy, Transfer::Remove]
    }
}

/// The first step of bringing a file into storage.
pub fn first_transfer(mode: CopyMode) -> (r: Transfer)
    ensures
        r == transfer_for(mode),
{
    match mode {
        CopyMode::Copy => Transfer::Copy,
        CopyMode::Move => Transfer::Rename,
    }
}

/// The steps that follow a rename: a copy and a removal where it failed.
pub fn after_rename(renamed: bool) -> (r: Vec<Transfer>)
    ensures
        r@ == transfers_after(renamed),
{
    let mut steps: Vec<Transfer> = Vec::new();
    if !renamed {
        steps.push(Transfer::Copy);
        steps.push(Transfer::Remove);
    }
    assert(steps@ =~= transfers_after(renamed));
    steps
}

/// What an audio file's properties say.
pub struct AudioProperties {
    pub duration_ms: u128,
    pub bitrate: Option<u32>,
    pub sample_rate: Option<u32>,
    pub channels: Option<u8>,
}

/// What an audio file's tag says.
pub struct TagFields {
    pub title: Option<String>,
    pub album: Option<String>,
    pub artist: Option<String>,
    pub album_artist: Option<String>,
    pub track_number: Option<String>,
    pub disc_number: Option<String>,
    pub year: Option<String>,
    pub recording_date: Option<String>,
}

/// What is kept of an audio file's tag and properties.
#[derive(Debug)]
pub struct Parsed {
    pub title: Option<String>,
    pub album: Option<String>,
    pub artist: Option<String>,
    pub album_artist: Option<String>,
    pub track_no: Option<i64>,
    pub disc_no: Option<i64>,
    pub duration_ms: Option<i64>,
    pub year: Option<i64>,
    pub bitrate: Option<i64>,
    pub sample_rate: Option<i64>,
    pub channels: Option<i64>,
}

/// The number before the first slash of a text such as `3/12`.
pub open spec fn leading_number(text: Option<String>) -> Option<i64> {
    match text {
        Some(s) => integer_value(trimmed(before_first(s@, '/'))),
        None => None,
    }
}

/// The number that a text writes, up to white space around it.
pub open spec fn whole_number(text: Option<String>) -> Option<i64> {
    match text {
        Some(s) => integer_value(trimmed(s@)),
        None => None,
    }
}

/// The number that the first four characters of a date write.
pub open spec fn date_year(text: Option<String>) -> Option<i64> {
    match text {
        Some(s) => if s@.len() >= 4 {
            integer_value(s@.take(4))
        } else {
            None
        },
        None => None,
    }
}

/// The year of a track: what the tag says it is, else that of the recording.
pub open spec fn track_year(tag: TagFields) -> Option<i64> {
    if whole_number(tag.year) is Some {
        whole_number(tag.year)
    } else {
        date_year(tag.recording_date)
    }
}

fn parse_leading_number(text: &Option<String>) -> (r: Option<i64>)
    ensures
        r == leading_number(*text),
{
    match text {
        Some(s) => {
            let head = head_before(s.as_str(), '/');
            parse_i64(head.as_str().trim())
        },
        None => None,
    }
}

fn parse_whole_number(text: &Option<String>) -> (r: Option<i64>)
    ensures
        r == whole_number(*text),
{
    match text {
        Some(s) => parse_i64(s.as_str().trim()),
        None => None,
    }
}

fn parse_date_year(text: &Option<String>) -> (r: Option<i64>)
    ensures
        r == date_year(*text),
{
    match text {
        Some(s) => {
            let chars = chars_of(s.as_str());
            if chars.len() >= 4 {
                let year = text_of(chars.as_slice(), 0, 4);
                assert(year@ =~= s@.take(4));
                parse_i64(year.as_str())
            } else {
                None
            }
        },
        None => None,
    }
}

/// Whether `out` holds what a tag says.
pub open spec fn holds_tag(out: Parsed, tag: Option<TagFields>) -> bool {
    match tag {
        Some(t) => {
            &&& out.title == t.title
            &&& out.album == t.album
            &&& out.artist == t.artist
            &&& out.album_artist == t.album_artist
            &&& out.track_no == leading_number(t.track_number)
            &&& out.disc_no == leading_number(t.disc_number)
            &&& out.year == track_year(t)
        },
        None => {
            &&& out.title is None
            &&& out.album is None
            &&& out.artist is None
            &&& out.album_artist is None
            &&& out.track_no is None
            &&& out.disc_no is None
            &&& out.year is None
        },
    }
}

/// Whether `out` holds what an audio file's properties say.
pub open spec fn holds_properties(out: Parsed, props: AudioProperties) -> bool {
    &&& out.duration_ms == Some(props.duration_ms as i64)
    &&& out.bitrate == match props.bitrate {
        Some(n) => Some(n as i64),
        None => None,
    }
    &&& out.sample_rate == match props.sample_rate {
        Some(n) => Some(n as i64),
        None => None,
    }
    &&& out.channels == match props.channels {
        Some(n) => Some(n as i64),
        None => None,
    }
}

/// Keeps what is of use in an audio file's tag, the primary one where there is
/// one and else the first, and in its properties.
pub fn parse_tags(
    props: &AudioProperties,
    primary: Option<TagFields>,
    first: Option<TagFields>,
) -> (r: Parsed)
    ensures
        holds_properties(r, *props),
        holds_tag(
            r,
            if primary is Some {
                primary
            } else {
                first
            },
        ),
{
    let duration_ms: i64 = #[verifier::truncate] (props.duration_ms as i64);
    let mut out = Parsed {
        title: None,
        album: None,
        artist: None,
        album_artist: None,
        track_no: None,
        disc_no: None,
        duration_ms: Some(duration_ms),
        year: None,
        bitrate: match props.bitrate {
            Some(n) => Some(n as i64),
            None => None,
        },
        sample_rate: match props.sample_rate {
            Some(n) => Some(n as i64),
            None => None,
        },
        channels: match props.channels {
            Some(n) => Some(n as i64),
            None => None,
        },
    };
    let tag = match primary {
        Some(tag) => Some(tag),
        None => first,
    };
    match tag {
        Some(tag) => {
            out.track_no = parse_leading_number(&tag.track_number);
            out.disc_no = parse_leading_number(&tag.disc_number);
            out.year = match parse_whole_number(&tag.year) {
                Some(year) => Some(year),
                None => parse_date_year(&tag.recording_date),
            };
            out.title = tag.title;
            out.album = tag.album;
            out.artist = tag.artist;
            out.album_artist = tag.album_artist;
        },
        None => {},
    }
    out
}

/// A file whose content the library does not hold yet.
pub struct NewFile {
    pub hash: String,
}

/// A new file whose tag has been read: it is to be brought to `storage_path`.
pub struct ParsedFile {
    pub hash: String,
    pub storage_path: String,
    pub parsed: Parsed,
}

/// A row for the table of tracks.
pub struct NewTrack {
    pub hash: String,
    pub storage_path: String,
    pub original_filename: String,
    pub parsed: Parsed,
    pub file_size: i64,
    pub added_at: i64,
    pub updated_at: i64,
}

/// What is decided about a file at once, by the track with the same content
/// hash: where there is one, the file is a duplicate.
pub open spec fn decided(existing: Option<i64>) -> Option<IngestOutcome> {
    match existing {
        Some(_) => Some(IngestOutcome::Duplicate),
        None => None,
    }
}

/// Decides about a file by the track with the same content hash, if there is
/// one: then it is a duplicate, and nothing is done to it.
pub fn look_up(hash: String, existing: Option<i64>) -> (r: Result<NewFile, IngestOutcome>)
    ensures
        match r {
            Ok(file) => decided(existing) is None && file.hash == hash,
            Err(outcome) => decided(existing) == Some(outcome),
        },
{
    if existing.is_some() {
        return Err(IngestOutcome::Duplicate);
    }
    Ok(NewFile { hash })
}

impl NewFile {
    /// Takes what was read of the file `src`, and says where it is kept.
    pub fn parsed(self, src: &FilePath, parsed: Parsed) -> (r: ParsedFile)
        requires
            is_storable(self.hash@),
        ensures
            r.hash == self.hash,
            r.parsed == parsed,
            r.storage_path@ == stored_at(src@, self.hash@),
    {
        let storage_path = storage_path(src, self.hash.as_str());
        ParsedFile { hash: self.hash, storage_path, parsed }
    }
}

/// Whether `row` is what is kept of a stored file.
pub open spec fn track_row(
    file: ParsedFile,
    src: Seq<Part>,
    size: u64,
    now: i64,
    row: NewTrack,
) -> bool {
    &&& row.hash == file.hash
    &&& row.storage_path == file.storage_path
    &&& row.original_filename@ == original_name(src)
    &&& row.parsed == file.parsed
    &&& row.file_size == size as i64
    &&& row.added_at == now
    &&& row.updated_at == now
}

impl ParsedFile {
    /// The row for the file `src`, stored with `size` bytes at the time `now`.
    pub fn stored_at_time(self, src: &FilePath, size: u64, now: i64) -> (r: NewTrack)
        ensures
            track_row(self, src@, size, now, r),
    {
        let file_size: i64 = #[verifier::truncate] (size as i64);
        NewTrack {
            hash: self.hash,
            storage_path: self.storage_path,
            original_filename: filename_of(src),
            parsed: self.parsed,
            file_size,
            added_at: now,
            updated_at: now,
        }
    }

    /// The row for the file `src`, stored with `size` bytes just now.
    pub fn stored(self, src: &FilePath, size: u64) -> (r: NewTrack)
        ensures
            exists|now: i64| now >= 0 && #[trigger] track_row(self, src@, size, now, r),
    {
        let now = timestamp();
        self.stored_at_time(src, size, now)
    }
}

/// The counts of an import on one line.
pub open spec fn counts_line(t: ImportTotals) -> Seq<char> {
    "import: scanned="@ + decimal(t.scanned as nat) + " imported="@ + decimal(t.imported as nat)
        + " duplicates="@ + decimal(t.duplicates as nat) + " failed="@ + decimal(t.failed as nat)
}

/// One line for each failure.
pub open spec fn failure_lines(failures: Seq<(Seq<char>, Seq<char>)>) -> Seq<char>
    decreases failures.len(),
{
    if failures.len() == 0 {
        seq![]
    } else {
        failure_lines(failures.drop_last()) + "  "@ + failures.last().0 + ": "@
            + failures.last().1 + "\n"@
    }
}

/// What the command line prints of an import.
pub open spec fn summary_text(t: ImportTotals) -> Seq<char> {
    counts_line(t) + "\n"@ + if t.failures.len() == 0 {
        seq![]
    } else {
        "\n"@ + decimal(t.failures.len()) + " file"@ + (if t.failures.len() == 1 {
            ""@
        } else {
            "s"@
        }) + " failed to import:\n"@ + failure_lines(t.failures)
    }
}

/// The counts of an import on one line.
pub fn counts_text(stats: &ImportStats) -> (r: String)
    ensures
        r@ == counts_line(stats@),
{
    let scanned = decimal_string(stats.scanned);
    let imported = decimal_string(stats.imported);
    let duplicates = decimal_string(stats.duplicates);
    let failed = decimal_string(stats.failed);
    let mut out = "import: scanned=".to_owned();
    out.append(scanned.as_str());
    out.append(" imported=");
    out.append(imported.as_str());
    out.append(" duplicates=");
    out.append(duplicates.as_str());
    out.append(" failed=");
    out.append(failed.as_str());
    out
}

/// What the command line prints of an import.
pub fn import_summary(stats: &ImportStats) -> (r: String)
    ensures
        r@ == summary_text(stats@),
{
    let ghost t = stats@;
    let mut out = counts_text(stats);
    out.append("\n");
    let total = stats.failures.len();
    if total == 0 {
        assert(out@ =~= summary_text(t));
        return out;
    }
    let number = decimal_string(total as u64);
    out.append("\n");
    out.append(number.as_str());
    out.append(" file");
    if total == 1 {
        out.append("");
    } else {
        out.append("s");
    }
    out.append(" failed to import:\n");
    let ghost head = out@;
    let mut i: usize = 0;
    assert(t.failures.take(0) =~= seq![]);
    while i < total
        invariant
            i <= total == stats.failures@.len(),
            t == stats@,
            out@ =~= head + failure_lines(t.failures.take(i as int)),
        decreases total - i,
    {
        let failure = &stats.failures[i];
        out.append("  ");
        out.append(failure.path.as_str());
        out.append(": ");
        out.append(failure.reason.as_str());
        out.append("\n");
        proof {
            let next = t.failures.take(i + 1);
            assert(next.drop_last() =~= t.failures.take(i as int));
            assert(next.last() == (failure.path@, failure.reason@));
        }
        i += 1;
    }
    assert(t.failures.take(i as int) =~= t.failures);
    assert(out@ =~= summary_text(t));
    out
}

/// What an import meets: a part of the directory that cannot be walked, or an
/// entry, with how its path is shown and what becomes of it if it is ingested.
pub enum WalkEvent {
    Failed,
    Entry {
        path: Seq<Part>,
        shown: Seq<char>,
        is_file: bool,
        result: Result<IngestOutcome, Seq<char>>,
    },
}

/// What an import into the library in the folder `root` has done after it met
/// `events`.
pub open spec fn import_of(root: Seq<Part>, events: Seq<WalkEvent>) -> ImportTotals
    decreases events.len(),
{
    if events.len() == 0 {
        nothing_imported()
    } else {
        let before = import_of(root, events.drop_last());
        match events.last() {
            WalkEvent::Failed => before.walk_failed(),
            WalkEvent::Entry { path, shown, is_file, result } => if eligible(root, path, is_file) {
                match result {
                    Ok(outcome) => before.found().ingested(outcome),
                    Err(reason) => before.found().failed_on(shown, reason),
                }
            } else {
                before
            },
        }
    }
}

/// How many of the entries met are to be ingested.
pub open spec fn eligible_met(root: Seq<Part>, events: Seq<WalkEvent>) -> int
    decreases events.len(),
{
    if events.len() == 0 {
        0
    } else {
        eligible_met(root, events.drop_last()) + match events.last() {
            WalkEvent::Failed => 0int,
            WalkEvent::Entry { path, is_file, .. } => if eligible(root, path, is_file) {
                1int
            } else {
                0
            },
        }
    }
}

/// How many times a part of the directory could not be walked.
pub open spec fn walk_failures(events: Seq<WalkEvent>) -> int
    decreases events.len(),
{
    if events.len() == 0 {
        0
    } else {
        walk_failures(events.drop_last()) + if events.last() is Failed {
            1int
        } else {
            0
        }
    }
}

/// An import accounts for everything that it meets: each audio file outside
/// storage is scanned, and then imported, found to be a duplicate, or reported
/// as a failure; nothing else fails but the walk itself.
pub proof fn import_accounts_for_everything(root: Seq<Part>, events: Seq<WalkEvent>)
    ensures
        import_of(root, events).scanned == eligible_met(root, events),
        import_of(root, events).scanned == import_of(root, events).imported + import_of(
            root,
            events,
        ).duplicates + import_of(root, events).failures.len(),
        import_of(root, events).failed == import_of(root, events).failures.len() + walk_failures(
            events,
        ),
    decreases events.len(),
{
    if events.len() > 0 {
        import_accounts_for_everything(root, events.drop_last());
    }
}

/// Whether an import into the library in the folder `root` has done what it does
/// after it met `events`.
pub open spec fn has_met(run: ImportRun, root: Seq<Part>, events: Seq<WalkEvent>) -> bool {
    &&& run.storage_root@ == storage_root(root)
    &&& run.stats@ == import_of(root, events)
}

/// An import that has just been started has met nothing.
pub proof fn import_begins(run: ImportRun, root: Seq<Part>)
    requires
        run.storage_root@ == storage_root(root),
        run.stats@ == nothing_imported(),
    ensures
        has_met(run, root, seq![]),
{
}

/// A failure of the walk, an entry that is passed over and an entry that is
/// ingested each lead an import from what it has met to one event more.
pub proof fn import_goes_on(
    run: ImportRun,
    next: ImportRun,
    root: Seq<Part>,
    events: Seq<WalkEvent>,
    event: WalkEvent,
)
    requires
        has_met(run, root, events),
        next.storage_root == run.storage_root,
        next.stats@ == match event {
            WalkEvent::Failed => run.stats@.walk_failed(),
            WalkEvent::Entry { path, shown, is_file, result } => if is_file && !lies_below(
                path,
                run.storage_root@,
            ) && names_audio(path) {
                match result {
                    Ok(outcome) => run.stats@.found().ingested(outcome),
                    Err(reason) => run.stats@.found().failed_on(shown, reason),
                }
            } else {
                run.stats@
            },
        },
    ensures
        has_met(next, root, events.push(event)),
{
    assert(events.push(event).drop_last() =~= events);
}

/// The names that lead from a library's root to a file in storage.
pub open spec fn stored_names(src: Seq<Part>, hash: Seq<char>) -> Seq<Seq<char>> {
    seq![".storage"@, hash.take(2), hash + stored_ending(path_extension(src))]
}

/// Where a file in storage is, in the library in the folder `root`.
pub open spec fn stored_file(root: Seq<Part>, src: Seq<Part>, hash: Seq<char>) -> Seq<Part> {
    let names = stored_names(src, hash);
    named(named(named(root, names[0]), names[1]), names[2])
}

/// Whether `c` may stand in the extension of an audio file.
spec fn in_extension(c: char) -> bool {
    'a' <= c <= 'z' || '0' <= c <= '9'
}

proof fn lemma_audio_extension(ext: Seq<char>)
    requires
        audio_extension(ext),
    ensures
        ext.len() > 0,
        forall|i: int| 0 <= i < ext.len() ==> in_extension(#[trigger] ext[i]),
{
    reveal_strlit("mp3");
    reveal_strlit("flac");
    reveal_strlit("ogg");
    reveal_strlit("oga");
    reveal_strlit("opus");
    reveal_strlit("m4a");
    reveal_strlit("m4b");
    reveal_strlit("mp4");
    reveal_strlit("aac");
    reveal_strlit("wav");
    reveal_strlit("aiff");
    reveal_strlit("aif");
    reveal_strlit("wv");
    reveal_strlit("ape");
    reveal_strlit("mka");
}

/// What a library has stored, an import of the library skips: the place of
/// every stored audio file is three plain names below the library's root, and
/// lies below the library's storage.
pub proof fn stored_files_are_skipped(root: Seq<Part>, src: Seq<Part>, hash: Seq<char>)
    requires
        names_audio(src),
        is_hash(hash),
    ensures
        stored_at(src, hash) == stored_names(src, hash)[0] + "/"@ + stored_names(src, hash)[1]
            + "/"@ + stored_names(src, hash)[2],
        forall|k: int| 0 <= k < 3 ==> plain_name(#[trigger] stored_names(src, hash)[k]),
        lies_below(stored_file(root, src, hash), storage_root(root)),
        !eligible(root, stored_file(root, src, hash), true),
{
    reveal_strlit(".storage/");
    reveal_strlit(".storage");
    reveal_strlit("/");
    reveal_strlit(".");
    let names = stored_names(src, hash);
    assert(stored_at(src, hash) =~= names[0] + "/"@ + names[1] + "/"@ + names[2]);
    let ext = path_extension(src)->0;
    lemma_audio_extension(lowercase(ext));
    assert forall|k: int| 0 <= k < 3 implies plain_name(#[trigger] names[k]) by {
        assert forall|i: int| 0 <= i < names[k].len() implies names[k][i] != '/' && names[k][i]
            != '\\' && names[k][i] != ':' by {
            if k == 1 {
                assert(lower_hex(hash[i]));
            } else if k == 2 {
                if i < hash.len() {
                    assert(lower_hex(hash[i]));
                } else if i > hash.len() {
                    assert(in_extension(lowercase(ext)[i - hash.len() - 1]));
                }
            }
        }
        if k == 1 {
            assert(lower_hex(hash[0]));
            assert(names[k][0] == hash[0]);
        }
        assert(seq!['.'].len() == 1 && seq!['.', '.'].len() == 2 && seq!['.', '.'][0] == '.');
    }
    assert(storage_root(root).is_prefix_of(stored_file(root, src, hash)));
}

/// Two files with different hashes of the same length are never kept in the
/// same place.
pub proof fn storage_is_addressed_by_content(
    src: Seq<Part>,
    hash: Seq<char>,
    other_src: Seq<Part>,
    other_hash: Seq<char>,
)
    requires
        is_storable(hash),
        is_storable(other_hash),
        hash.len() == other_hash.len(),
        stored_at(src, hash) == stored_at(other_src, other_hash),
    ensures
        hash == other_hash,
{
    reveal_strlit(".storage/");
    reveal_strlit("/");
    let n = hash.len() as int;
    assert(stored_at(src, hash).subrange(12, 12 + n) =~= hash);
    assert(stored_at(other_src, other_hash).subrange(12, 12 + n) =~= other_hash);
}

/// Whether the original is there and whether the copy in storage is, after a
/// step that succeeded.
pub open spec fn after_transfer(step: Transfer, source: bool, stored: bool) -> (bool, bool) {
    match step {
        Transfer::Copy => (source, source),
        Transfer::Rename => (false, source),
        Transfer::Remove => (false, stored),
    }
}

/// The same after all of `steps`.
pub open spec fn after_transfers(steps: Seq<Transfer>, source: bool, stored: bool) -> (bool, bool)
    decreases steps.len(),
{
    if steps.len() == 0 {
        (source, stored)
    } else {
        let next = after_transfer(steps[0], source, stored);
        after_transfers(steps.drop_first(), next.0, next.1)
    }
}

/// The steps that succeed where a file is brought into storage, which a rename
/// does or does not.
pub open spec fn steps_taken(mode: CopyMode, renamed: bool) -> Seq<Transfer> {
    match transfer_for(mode) {
        Transfer::Rename => if renamed {
            seq![Transfer::Rename] + transfers_after(true)
        } else {
            transfers_after(false)
        },
        step => seq![step],
    }
}

/// A copied file ends up in storage and where it was; a moved one only in
/// storage, whether or not it could be renamed.
pub proof fn transfer_reaches_storage(mode: CopyMode, renamed: bool)
    ensures
        after_transfers(steps_taken(mode, renamed), true, false) == (mode == CopyMode::Copy, true),
{
    reveal_with_fuel(after_transfers, 3);
}

/// The track with this hash, where `tracks` are the ids of tracks by their
/// content hash.
pub open spec fn found_in(tracks: Map<Seq<char>, i64>, hash: Seq<char>) -> Option<i64> {
    if tracks.contains_key(hash) {
        Some(tracks[hash])
    } else {
        None
    }
}

/// The tracks of a library once files with these contents were ingested, one
/// after the other; `ids` are the ids that new tracks get.
pub open spec fn tracks_after(
    tracks: Map<Seq<char>, i64>,
    contents: Seq<Seq<u8>>,
    ids: Seq<i64>,
) -> Map<Seq<char>, i64>
    decreases contents.len(),
{
    if contents.len() == 0 {
        tracks
    } else {
        let before = tracks_after(tracks, contents.drop_last(), ids);
        let hash = content_hash(contents.last());
        if decided(found_in(before, hash)) is None {
            before.insert(hash, ids[contents.len() - 1])
        } else {
            before
        }
    }
}

/// An import is safe to repeat: every file that was ingested is a duplicate the
/// next time, and no track is added or changed.
pub proof fn import_may_be_repeated(
    tracks: Map<Seq<char>, i64>,
    contents: Seq<Seq<u8>>,
    ids: Seq<i64>,
    other_ids: Seq<i64>,
)
    ensures
        forall|i: int|
            0 <= i < contents.len() ==> decided(
                found_in(
                    tracks_after(tracks, contents, ids),
                    content_hash(#[trigger] contents[i]),
                ),
            ) == Some(IngestOutcome::Duplicate),
        tracks_after(tracks_after(tracks, contents, ids), contents, other_ids) == tracks_after(
            tracks,
            contents,
            ids,
        ),
{
    lemma_contents_are_known(tracks, contents, ids);
    lemma_known_contents_add_nothing(tracks_after(tracks, contents, ids), contents, other_ids);
}

proof fn lemma_contents_are_known(
    tracks: Map<Seq<char>, i64>,
    contents: Seq<Seq<u8>>,
    ids: Seq<i64>,
)
    ensures
        forall|i: int|
            0 <= i < contents.len() ==> tracks_after(tracks, contents, ids).contains_key(
                content_hash(#[trigger] contents[i]),
            ),
    decreases contents.len(),
{
    if contents.len() > 0 {
        let rest = contents.drop_last();
        lemma_contents_are_known(tracks, rest, ids);
        assert forall|i: int| 0 <= i < contents.len() implies tracks_after(
            tracks,
            contents,
            ids,
        ).contains_key(content_hash(#[trigger] contents[i])) by {
            if i < rest.len() {
                assert(rest[i] == contents[i]);
            }
        }
    }
}

proof fn lemma_known_contents_add_nothing(
    tracks: Map<Seq<char>, i64>,
    contents: Seq<Seq<u8>>,
    ids: Seq<i64>,
)
    requires
        forall|i: int|
            0 <= i < contents.len() ==> tracks.contains_key(content_hash(#[trigger] contents[i])),
    ensures
        tracks_after(tracks, contents, ids) == tracks,
    decreases contents.len(),
{
    if contents.len() > 0 {
        let rest = contents.drop_last();
        assert forall|i: int| 0 <= i < rest.len() implies tracks.contains_key(
            content_hash(#[trigger] rest[i]),
        ) by {
            assert(rest[i] == contents[i]);
        }
        lemma_known_contents_add_nothing(tracks, rest, ids);
        assert(contents.last() == contents[contents.len() - 1]);
    }
}

/// A file is an audio file exactly where its name ends in a dot and one of these
/// extensions, in any case, with something before the dot.
pub proof fn audio_files_are_told_by_their_extension(
    dir: Seq<Part>,
    stem: Seq<char>,
    ext: Seq<char>,
)
    requires
        !ext.contains('.'),
    ensures
        names_audio(named(dir, stem + seq!['.'] + ext)) <==> stem.len() > 0 && seq![
            "mp3"@,
            "flac"@,
            "ogg"@,
            "oga"@,
            "opus"@,
            "m4a"@,
            "m4b"@,
            "mp4"@,
            "aac"@,
            "wav"@,
            "aiff"@,
            "aif"@,
            "wv"@,
            "ape"@,
            "mka"@,
        ].contains(lowercase(ext)),
        !names_audio(named(dir, ext)),
{
    extension_follows_the_last_dot(dir, stem, ext);
    let known = seq![
        "mp3"@,
        "flac"@,
        "ogg"@,
        "oga"@,
        "opus"@,
        "m4a"@,
        "m4b"@,
        "mp4"@,
        "aac"@,
        "wav"@,
        "aiff"@,
        "aif"@,
        "wv"@,
        "ape"@,
        "mka"@,
    ];
    assert(known[0] == "mp3"@ && known[1] == "flac"@ && known[2] == "ogg"@ && known[3] == "oga"@);
    assert(known[4] == "opus"@ && known[5] == "m4a"@ && known[6] == "m4b"@ && known[7] == "mp4"@);
    assert(known[8] == "aac"@ && known[9] == "wav"@ && known[10] == "aiff"@ && known[11] == "aif"@);
    assert(known[12] == "wv"@ && known[13] == "ape"@ && known[14] == "mka"@);
    if known.contains(lowercase(ext)) {
        let k = known.index_of(lowercase(ext));
        assert(known[k] == lowercase(ext));
    }
}

/// An import takes in every audio file that is not in the library's storage: the
/// path of one in storage goes on from the library's root by `.storage`.
pub proof fn audio_outside_storage_is_taken_in(root: Seq<Part>, path: Seq<Part>)
    ensures
        !eligible(root, path, false),
        eligible(root, path, true) <==> names_audio(path) && !(path.len() > root.len() && path.take(
            root.len() as int,
        ) == root && path[root.len() as int] == (Part::Normal { name: ".storage"@ })),
{
    let base = storage_root(root);
    let n = root.len() as int;
    if base.is_prefix_of(path) {
        assert(base[n] == path[n]);
        assert(path.take(n) =~= root) by {
            assert forall|i: int| 0 <= i < n implies path.take(n)[i] == root[i] by {
                assert(base[i] == path[i]);
            }
        }
    }
    if path.len() > n && path.take(n) == root && path[n] == (Part::Normal { name: ".storage"@ }) {
        assert forall|i: int| 0 <= i < base.len() implies base[i] == path[i] by {
            if i < n {
                assert(path.take(n)[i] == path[i]);
            }
        }
        assert(base =~= path.take(base.len() as int));
    }
}

proof fn lemma_lowercase(s: Seq<char>)
    ensures
        lowercase(lowercase(s)) == lowercase(s),
        s.contains('.') <==> lowercase(s).contains('.'),
{
    assert(lowercase(lowercase(s)) =~= lowercase(s));
    if s.contains('.') {
        let k = s.index_of('.');
        assert(lowercase(s)[k] == '.');
    }
    if lowercase(s).contains('.') {
        let k = lowercase(s).index_of('.');
        assert(s[k] == '.');
    }
}

/// A stored file is called by its hash and keeps the extension of the file that
/// it came from, the whole of it and in lower case; its folder is called by the
/// first two characters of the hash. So what is an audio file stays one.
pub proof fn stored_files_keep_their_extension(
    root: Seq<Part>,
    dir: Seq<Part>,
    stem: Seq<char>,
    ext: Seq<char>,
    hash: Seq<char>,
)
    requires
        is_hash(hash),
        !ext.contains('.'),
        stem.len() > 0,
        ext.len() > 0,
    ensures
        ({
            let src = named(dir, stem + seq!['.'] + ext);
            let stored = stored_file(root, src, hash);
            &&& stored_at(src, hash) == ".storage/"@ + seq![hash[0], hash[1]] + "/"@ + hash + "."@
                + lowercase(ext)
            &&& stored == root + seq![
                Part::Normal { name: ".storage"@ },
                Part::Normal { name: seq![hash[0], hash[1]] },
                Part::Normal { name: hash + "."@ + lowercase(ext) },
            ]
            &&& path_extension(stored) == Some(lowercase(ext))
            &&& names_audio(stored) <==> names_audio(src)
        }),
        stored_at(named(dir, ext), hash) == ".storage/"@ + seq![hash[0], hash[1]] + "/"@ + hash,
{
    let src = named(dir, stem + seq!['.'] + ext);
    let stored = stored_file(root, src, hash);
    let lower = lowercase(ext);
    reveal_strlit(".");
    assert("."@ =~= seq!['.']);
    lemma_lowercase(ext);
    extension_follows_the_last_dot(dir, stem, ext);
    assert(hash.take(2) =~= seq![hash[0], hash[1]]);
    assert(stored_at(src, hash) =~= ".storage/"@ + seq![hash[0], hash[1]] + "/"@ + hash + "."@
        + lower);
    assert(stored_at(named(dir, ext), hash) =~= ".storage/"@ + seq![hash[0], hash[1]] + "/"@
        + hash);
    let folder = named(named(root, ".storage"@), hash.take(2));
    assert(hash + ("."@ + lower) =~= hash + seq!['.'] + lower);
    assert(hash + "."@ + lower =~= hash + seq!['.'] + lower);
    assert(stored == named(folder, hash + seq!['.'] + lower));
    extension_follows_the_last_dot(folder, hash, lower);
    assert(stored =~= root + seq![
        Part::Normal { name: ".storage"@ },
        Part::Normal { name: seq![hash[0], hash[1]] },
        Part::Normal { name: hash + "."@ + lower },
    ]);
}

/// The hash of a content tells its digest: two digits in lower case for each
/// byte, which give the byte back.
pub proof fn digits_give_the_bytes_back(bytes: Seq<u8>, i: int)
    requires
        0 <= i < bytes.len(),
    ensures
        hex(bytes).len() == 2 * bytes.len(),
        ({
            let value = |c: char| if '0' <= c <= '9' {
                c as int - '0' as int
            } else {
                c as int - 'a' as int + 10
            };
            &&& lower_hex(hex(bytes)[2 * i]) && lower_hex(hex(bytes)[2 * i + 1])
            &&& 16 * value(hex(bytes)[2 * i]) + value(hex(bytes)[2 * i + 1]) == bytes[i]
        }),
{
    assert((2 * i) / 2 == i && (2 * i) % 2 == 0);
    assert((2 * i + 1) / 2 == i && (2 * i + 1) % 2 == 1);
}

/// A track keeps the name of the file that it came from, and is called `track`
/// where the path ends in none.
pub proof fn tracks_keep_the_name_of_their_file(dir: Seq<Part>, part: Part)
    ensures
        original_name(dir.push(part)) == match part {
            Part::Normal { name } => name,
            _ => "track"@,
        },
        original_name(seq![]) == "track"@,
{
    file_name_is_the_last_component(dir, part);
}

proof fn lemma_blank_holds_no_slash(a: Seq<char>)
    requires
        is_blank(a),
    ensures
        !a.contains('/'),
{
    if a.contains('/') {
        let k = a.index_of('/');
        assert(white_space(a[k]));
    }
}

proof fn lemma_written_number(a: Seq<char>, n: i64, b: Seq<char>)
    requires
        is_blank(a),
        is_blank(b),
    ensures
        integer_value(trimmed(a + signed_decimal(n as int) + b)) == Some(n),
        !(a + signed_decimal(n as int) + b).contains('/'),
{
    let text = signed_decimal(n as int);
    written_numbers_are_read_back(n);
    let m: nat = if n < 0 {
        (-n) as nat
    } else {
        n as nat
    };
    digits_write_the_number(m);
    let d = decimal(m);
    assert(text.last() == d.last());
    assert('0' <= d[d.len() - 1] <= '9');
    assert(text[0] == '-' || text[0] == d[0]);
    assert('0' <= d[0] <= '9');
    white_space_around_is_taken_away(a, text, b);
    lemma_blank_holds_no_slash(a);
    lemma_blank_holds_no_slash(b);
    let s = a + text + b;
    if s.contains('/') {
        let k = s.index_of('/');
        if k < a.len() {
            assert(a[k] == '/');
        } else if k < a.len() + text.len() {
            let j = k - a.len();
            assert(text[j] == '/');
            if n < 0 {
                if j > 0 {
                    assert(text[j] == d[j - 1]);
                }
            } else {
                assert(text[j] == d[j]);
            }
        } else {
            assert(b[k - a.len() - text.len()] == '/');
        }
    }
}

/// The number of a track or a disc is read from the text before the first slash,
/// such as `3` or ` 3 /12`, whatever follows the slash; a tag without that text,
/// or with one that is no number, has none.
pub proof fn numbers_stand_before_the_slash(
    a: Seq<char>,
    n: i64,
    b: Seq<char>,
    rest: Seq<char>,
    plain: String,
    slashed: String,
    other: String,
)
    requires
        is_blank(a),
        is_blank(b),
        plain@ == a + signed_decimal(n as int) + b,
        slashed@ == a + signed_decimal(n as int) + b + seq!['/'] + rest,
        !other@.contains('/'),
        integer_value(trimmed(other@)) is None,
    ensures
        leading_number(Some(plain)) == Some(n),
        leading_number(Some(slashed)) == Some(n),
        leading_number(Some(other)) is None,
        leading_number(None) is None,
{
    lemma_written_number(a, n, b);
    put_together_parts_are_split(plain@, '/', rest);
    put_together_parts_are_split(other@, '/', rest);
}

proof fn lemma_four_digits(d: Seq<char>)
    requires
        d.len() == 4,
        all_digits(d),
    ensures
        0 <= digits_value(d) <= 9999,
        integer_value(d) == Some(digits_value(d) as i64),
{
    reveal_with_fuel(digits_value, 5);
    assert('0' <= d[0] <= '9' && '0' <= d[1] <= '9' && '0' <= d[2] <= '9' && '0' <= d[3] <= '9');
    let e = d.drop_last();
    let f = e.drop_last();
    let g = f.drop_last();
    assert(e.last() == d[2] && f.last() == d[1] && g.last() == d[0]);
    assert(g.drop_last() =~= seq![]);
}

/// The year of a track is the number that its tag gives as the year, up to white
/// space around it. A tag that gives none, or no number, has the year of its
/// recording date: the first four digits, whatever else may follow.
pub proof fn a_track_has_the_year_of_its_tag(
    tag: TagFields,
    out: Parsed,
    a: Seq<char>,
    n: i64,
    b: Seq<char>,
)
    requires
        holds_tag(out, Some(tag)),
        is_blank(a),
        is_blank(b),
    ensures
        tag.year is Some && tag.year->0@ == a + signed_decimal(n as int) + b ==> out.year == Some(
            n,
        ),
        ({
            let unusable = tag.year is None || integer_value(trimmed(tag.year->0@)) is None;
            let date = tag.recording_date;
            &&& unusable && date is Some && date->0@.len() >= 4 && all_digits(date->0@.take(4))
                ==> out.year == Some(digits_value(date->0@.take(4)) as i64)
            &&& unusable && date is None ==> out.year is None
            &&& unusable && date is Some && date->0@.len() < 4 ==> out.year is None
            &&& unusable && date is Some && date->0@.len() >= 4 && integer_value(
                date->0@.take(4),
            ) is None ==> out.year is None
        }),
{
    lemma_written_number(a, n, b);
    if tag.recording_date is Some && tag.recording_date->0@.len() >= 4 && all_digits(
        tag.recording_date->0@.take(4),
    ) {
        lemma_four_digits(tag.recording_date->0@.take(4));
    }
}

/// What is kept of an audio file is what its tag and its properties say, each in
/// its own field; without a tag only the properties are kept.
pub proof fn each_field_is_kept_as_itself(out: Parsed, tag: TagFields, props: AudioProperties)
    ensures
        holds_tag(out, Some(tag)) ==> {
            &&& out.title == tag.title
            &&& out.album == tag.album
            &&& out.artist == tag.artist
            &&& out.album_artist == tag.album_artist
            &&& out.track_no == leading_number(tag.track_number)
            &&& out.disc_no == leading_number(tag.disc_number)
        },
        holds_tag(out, None) ==> {
            &&& out.title is None && out.album is None && out.artist is None
            &&& out.album_artist is None && out.track_no is None && out.disc_no is None
            &&& out.year is None
        },
        holds_properties(out, props) ==> {
            &&& props.duration_ms <= i64::MAX ==> out.duration_ms is Some && out.duration_ms->0
                == props.duration_ms
            &&& out.bitrate is Some <==> props.bitrate is Some
            &&& props.bitrate is Some ==> out.bitrate->0 == props.bitrate->0
            &&& out.sample_rate is Some <==> props.sample_rate is Some
            &&& props.sample_rate is Some ==> out.sample_rate->0 == props.sample_rate->0
            &&& out.channels is Some <==> props.channels is Some
            &&& props.channels is Some ==> out.channels->0 == props.channels->0
        },
{
}

/// A new track is filed under the hash of its file, at the place where the file
/// was stored, with the name, the size and the tag of the file; it is added and
/// updated at the time it was stored.
pub proof fn a_track_tells_its_file(
    file: ParsedFile,
    src: Seq<Part>,
    size: u64,
    now: i64,
    row: NewTrack,
)
    requires
        track_row(file, src, size, now, row),
    ensures
        row.hash@ == file.hash@,
        row.storage_path@ == file.storage_path@,
        row.parsed == file.parsed,
        last_name(src) is Some ==> row.original_filename@ == last_name(src)->0,
        size <= i64::MAX ==> row.file_size == size,
        row.added_at == now,
        row.updated_at == now,
{
}

/// Each outcome is counted as itself: a file found is scanned, then imported or
/// a duplicate or a failure with its path and its reason; a failure of the walk
/// is a failure alone. Everything else stays as it was.
pub proof fn each_outcome_is_counted_as_itself(
    t: ImportTotals,
    other: ImportTotals,
    path: Seq<char>,
    reason: Seq<char>,
)
    ensures
        t.found() == (ImportTotals { scanned: t.scanned + 1, ..t }),
        t.ingested(IngestOutcome::Imported) == (ImportTotals { imported: t.imported + 1, ..t }),
        t.ingested(IngestOutcome::Duplicate) == (ImportTotals {
            duplicates: t.duplicates + 1,
            ..t
        }),
        t.failed_on(path, reason) == (ImportTotals {
            failed: t.failed + 1,
            failures: t.failures.push((path, reason)),
            ..t
        }),
        t.walk_failed() == (ImportTotals { failed: t.failed + 1, ..t }),
        nothing_imported().scanned == 0 && nothing_imported().imported == 0
            && nothing_imported().duplicates == 0 && nothing_imported().failed == 0
            && nothing_imported().failures.len() == 0,
        t.plus(nothing_imported()) == t,
        nothing_imported().plus(t) == t,
        t.found().plus(other) == t.plus(other).found(),
        t.plus(other.failed_on(path, reason)) == t.plus(other).failed_on(path, reason),
        t.plus(other.ingested(IngestOutcome::Imported)) == t.plus(other).ingested(
            IngestOutcome::Imported,
        ),
        t.plus(other.ingested(IngestOutcome::Duplicate)) == t.plus(other).ingested(
            IngestOutcome::Duplicate,
        ),
        t.plus(other).failed == t.failed + other.failed,
{
    assert(t.plus(nothing_imported()) =~= t);
    assert(nothing_imported().plus(t) =~= t);
    assert(t.plus(other.failed_on(path, reason)) =~= t.plus(other).failed_on(path, reason));
}

/// The counts of an import are told as they are.
pub proof fn counts_are_told_as_they_are(stats: ImportStats)
    ensures
        summarized(stats).scanned == stats.scanned,
        summarized(stats).imported == stats.imported,
        summarized(stats).duplicates == stats.duplicates,
        summarized(stats).failed == stats.failed,
        stats@.scanned == stats.scanned && stats@.imported == stats.imported,
        stats@.duplicates == stats.duplicates && stats@.failed == stats.failed,
        stats@.failures.len() == stats.failures@.len(),
{
}

/// The line on an import writes each of its counts as a number behind its own
/// word.
pub proof fn the_line_tells_the_counts(t: ImportTotals)
    requires
        t.scanned >= 0,
        t.imported >= 0,
        t.duplicates >= 0,
        t.failed >= 0,
    ensures
        ({
            let scanned = decimal(t.scanned as nat);
            let imported = decimal(t.imported as nat);
            let duplicates = decimal(t.duplicates as nat);
            let failed = decimal(t.failed as nat);
            &&& counts_line(t) == "import: scanned="@ + scanned + " imported="@ + imported
                + " duplicates="@ + duplicates + " failed="@ + failed
            &&& digits_value(scanned) == t.scanned && digits_value(imported) == t.imported
            &&& digits_value(duplicates) == t.duplicates && digits_value(failed) == t.failed
            &&& all_digits(scanned) && all_digits(imported) && all_digits(duplicates)
            &&& all_digits(failed)
        }),
{
    digits_write_the_number(t.scanned as nat);
    digits_write_the_number(t.imported as nat);
    digits_write_the_number(t.duplicates as nat);
    digits_write_the_number(t.failed as nat);
}

proof fn lemma_failure_is_in_the_lines(failures: Seq<(Seq<char>, Seq<char>)>, i: int) -> (r: (
    Seq<char>,
    Seq<char>,
))
    requires
        0 <= i < failures.len(),
    ensures
        failure_lines(failures) == r.0 + ("  "@ + failures[i].0 + ": "@ + failures[i].1 + "\n"@)
            + r.1,
        r.0 == failure_lines(failures.take(i)),
    decreases failures.len(),
{
    let line = "  "@ + failures[i].0 + ": "@ + failures[i].1 + "\n"@;
    let rest = failures.drop_last();
    if i == failures.len() - 1 {
        assert(failures.take(i) =~= rest);
        let r = (failure_lines(rest), Seq::<char>::empty());
        assert(failure_lines(failures) =~= r.0 + line + r.1);
        r
    } else {
        let inner = lemma_failure_is_in_the_lines(rest, i);
        assert(rest.take(i) =~= failures.take(i));
        let last = "  "@ + failures.last().0 + ": "@ + failures.last().1 + "\n"@;
        let r = (inner.0, inner.1 + last);
        assert(failure_lines(failures) =~= r.0 + line + r.1);
        r
    }
}

/// What is printed of an import begins with the line of its counts. That is all
/// where nothing failed; else it says how many files failed, and has a line for
/// each of them with its path and its reason.
pub proof fn the_summary_tells_every_failure(t: ImportTotals, i: int)
    ensures
        t.failures.len() == 0 ==> summary_text(t) == counts_line(t) + "\n"@,
        t.failures.len() == 1 ==> (counts_line(t) + "\n"@ + "\n"@ + "1"@
            + " file failed to import:\n"@).is_prefix_of(summary_text(t)),
        t.failures.len() > 1 ==> (counts_line(t) + "\n"@ + "\n"@ + decimal(t.failures.len())
            + " files failed to import:\n"@).is_prefix_of(summary_text(t)),
        0 <= i < t.failures.len() ==> holds_text(
            summary_text(t),
            "  "@ + t.failures[i].0 + ": "@ + t.failures[i].1 + "\n"@,
        ),
{
    reveal_strlit("");
    reveal_strlit("s");
    reveal_strlit("1");
    reveal_strlit(" file");
    reveal_strlit(" failed to import:\n");
    reveal_strlit(" file failed to import:\n");
    reveal_strlit(" files failed to import:\n");
    let text = summary_text(t);
    if t.failures.len() == 0 {
        assert(text =~= counts_line(t) + "\n"@);
    } else {
        let ending = if t.failures.len() == 1 {
            ""@
        } else {
            "s"@
        };
        let head = counts_line(t) + "\n"@ + ("\n"@ + decimal(t.failures.len()) + " file"@ + ending
            + " failed to import:\n"@);
        assert(text =~= head + failure_lines(t.failures));
        if t.failures.len() == 1 {
            assert(decimal(1) =~= "1"@);
            assert(" file"@ + ending + " failed to import:\n"@ =~= " file failed to import:\n"@);
            let told = counts_line(t) + "\n"@ + "\n"@ + "1"@ + " file failed to import:\n"@;
            assert(head =~= counts_line(t) + "\n"@ + "\n"@ + decimal(1) + (" file"@ + ending
                + " failed to import:\n"@));
            assert(head =~= told);
            assert(text.take(told.len() as int) =~= told);
            assert(told.is_prefix_of(text));
        } else {
            assert(" file"@ + ending + " failed to import:\n"@ =~= " files failed to import:\n"@);
            let told = counts_line(t) + "\n"@ + "\n"@ + decimal(t.failures.len())
                + " files failed to import:\n"@;
            assert(head =~= counts_line(t) + "\n"@ + "\n"@ + decimal(t.failures.len()) + (
            " file"@ + ending + " failed to import:\n"@));
            assert(head =~= told);
            assert(text.take(told.len() as int) =~= told);
            assert(told.is_prefix_of(text));
        }
        if 0 <= i < t.failures.len() {
            let line = "  "@ + t.failures[i].0 + ": "@ + t.failures[i].1 + "\n"@;
            let r = lemma_failure_is_in_the_lines(t.failures, i);
            assert(text =~= (head + r.0) + line + r.1);
            a_part_is_found(head + r.0, line, r.1);
        }
    }
}

/// A file with new content is imported, and one whose content a track has is
/// not.
pub proof fn only_new_content_is_imported(tracks: Map<Seq<char>, i64>, hash: Seq<char>)
    ensures
        decided(found_in(tracks, hash)) is None <==> !tracks.contains_key(hash),
        tracks.contains_key(hash) ==> decided(found_in(tracks, hash)) == Some(
            IngestOutcome::Duplicate,
        ),
{
}

/// What is stored of an audio file has its extension, in lower case, and is an
/// audio file.
pub proof fn stored_audio_stays_audio(root: Seq<Part>, src: Seq<Part>, hash: Seq<char>)
    requires
        is_hash(hash),
        names_audio(src),
    ensures
        path_extension(src) is Some,
        path_extension(stored_file(root, src, hash)) == Some(lowercase(path_extension(src)->0)),
        names_audio(stored_file(root, src, hash)),
{
    let name = last_name(src)->0;
    let ext = path_extension(src)->0;
    lemma_last_index(name, '.');
    let at = last_index(name, '.');
    let stem = name.take(at);
    assert(name =~= stem + seq!['.'] + ext);
    if ext.contains('.') {
        let k = ext.index_of('.');
        assert(name[at + 1 + k] == '.');
    }
    lemma_audio_extension(lowercase(ext));
    let dir = src.drop_last();
    assert(src =~= named(dir, name));
    stored_files_keep_their_extension(root, dir, stem, ext, hash);
}

} // verus!
