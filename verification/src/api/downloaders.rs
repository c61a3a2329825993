//! Downloader scripts, and the jobs that run them.

use vstd::hash_map::StringHashMap;
use vstd::prelude::*;
use vstd::seq_lib::to_multiset_build;

use crate::api::auth::CurrentUser;
use crate::api::error::{bad_request, not_found, ApiError, ApiResult};
use crate::api::{known_libraries_are_found, AppState};
use crate::clock::{is_time_text, rfc3339};
use crate::ingest::{counts_line, counts_text, lower_hex, summarized, ImportStats, ImportStatsView};
use crate::order::{in_order, insert_in_order};
use crate::paths::{has_parent, named, FilePath, Part};
use crate::text::{
    all_digits, chars_of, contains_char, copy_of, decimal, decimal_string, digits_value,
    digits_write_the_number, is_blank, lemma_decimal_value, text_of, texts, trimmed, white_space,
    white_space_around_is_taken_away,
};

verus! {

/// A script that can be run.
#[derive(Debug)]
pub struct DownloaderInfo {
    pub name: String,
}

/// An entry of the directory of scripts: its name where that is text, whether
/// it is a file, and its permission bits.
#[derive(Debug)]
pub struct ScriptEntry {
    pub name: Option<String>,
    pub is_file: bool,
    pub mode: u32,
}

/// Whether an entry is offered as a script: an executable file with a name.
pub open spec fn offered(entry: ScriptEntry) -> bool {
    entry.is_file && entry.mode & 0o111 != 0 && entry.name is Some
}

/// The names of the entries that are offered.
pub open spec fn offered_names(entries: Seq<ScriptEntry>) -> Seq<Seq<char>>
    decreases entries.len(),
{
    if entries.len() == 0 {
        seq![]
    } else {
        let rest = offered_names(entries.drop_last());
        match entries.last().name {
            Some(name) => if offered(entries.last()) {
                rest.push(name@)
            } else {
                rest
            },
            None => rest,
        }
    }
}

/// The names in a list of scripts.
pub open spec fn info_names(list: Seq<DownloaderInfo>) -> Seq<Seq<char>> {
    Seq::new(list.len(), |i: int| list[i].name@)
}

/// The executable files among the entries of the directory of scripts, sorted
/// by name.
pub fn list_scripts(entries: &Vec<ScriptEntry>) -> (r: Vec<DownloaderInfo>)
    ensures
        in_order(info_names(r@)),
        info_names(r@).to_multiset() == offered_names(entries@).to_multiset(),
{
    let mut names: Vec<String> = Vec::new();
    let mut i: usize = 0;
    assert(entries@.take(0) =~= seq![]);
    assert(texts(names@) =~= offered_names(entries@.take(0)));
    while i < entries.len()
        invariant
            i <= entries@.len(),
            in_order(texts(names@)),
            texts(names@).to_multiset() == offered_names(entries@.take(i as int)).to_multiset(),
        decreases entries@.len() - i,
    {
        let entry = &entries[i];
        proof {
            assert(entries@.take(i + 1).drop_last() =~= entries@.take(i as int));
            assert(entries@.take(i + 1).last() == *entry);
        }
        let ghost rest = offered_names(entries@.take(i as int));
        if entry.is_file && entry.mode & 0o111 != 0 {
            match &entry.name {
                Some(name) => {
                    insert_in_order(&mut names, name.clone());
                    proof {
                        to_multiset_build(rest, name@);
                    }
                },
                None => {},
            }
        }
        i += 1;
    }
    assert(entries@.take(i as int) =~= entries@);
    let mut out: Vec<DownloaderInfo> = Vec::new();
    let mut j: usize = 0;
    while j < names.len()
        invariant
            j <= names@.len(),
            info_names(out@) =~= texts(names@).take(j as int),
        decreases names@.len() - j,
    {
        let ghost before = info_names(out@);
        out.push(DownloaderInfo { name: names[j].clone() });
        assert(info_names(out@) =~= before.push(names@[j as int]@));
        j += 1;
    }
    assert(texts(names@).take(j as int) =~= texts(names@));
    out
}

/// The directory whose scripts are listed for the library `lib_id`: none where
/// no `downloaders_path` is configured, since the feature is optional; then
/// the list is empty.
pub fn scripts_directory(app: &AppState, lib_id: i64) -> (r: ApiResult<Option<String>>)
    ensures
        match r {
            Ok(dir) => app.has_library(lib_id) && dir == app.downloaders_path,
            Err(e) => !app.has_library(lib_id) && e@ == not_found("library"@),
        },
{
    app.require_library(lib_id)?;
    match &app.downloaders_path {
        Some(dir) => Ok(Some(dir.clone())),
        None => Ok(None),
    }
}

/// What a request for the scripts is answered, by the entries of the directory
/// that holds them: an empty list where no directory is configured.
pub fn list(app: &AppState, lib_id: i64, entries: &Vec<ScriptEntry>) -> (r: ApiResult<
    Vec<DownloaderInfo>,
>)
    ensures
        match r {
            Ok(scripts) => {
                &&& app.has_library(lib_id)
                &&& app.downloaders_path is None ==> scripts@.len() == 0
                &&& app.downloaders_path is Some ==> {
                    &&& in_order(info_names(scripts@))
                    &&& info_names(scripts@).to_multiset() == offered_names(
                        entries@,
                    ).to_multiset()
                }
            },
            Err(e) => !app.has_library(lib_id) && e@ == not_found("library"@),
        },
{
    match scripts_directory(app, lib_id)? {
        Some(_) => Ok(list_scripts(entries)),
        None => Ok(Vec::new()),
    }
}

/// Whether a name may be that of a script: one component of a path, and not the
/// directory itself or the one above.
pub open spec fn script_name(name: Seq<char>) -> bool {
    &&& name.len() > 0
    &&& !name.contains('/')
    &&& !name.contains('\\')
    &&& name != "."@
    &&& name != ".."@
}

/// Why a request to run a script is refused, before the script is looked for.
pub open spec fn run_refusal(app: AppState, user: CurrentUser, lib_id: i64, name: Seq<char>) -> Option<
    (u16, Seq<char>),
> {
    if app.upload_refusal(user, lib_id) is Some {
        app.upload_refusal(user, lib_id)
    } else if app.downloaders_path is None {
        Some(bad_request("no downloaders_path configured"@))
    } else if !script_name(name) {
        Some(bad_request("invalid script name"@))
    } else {
        None
    }
}

/// Where a script is looked for: under its name, in the directory of scripts.
#[derive(Debug)]
pub struct Candidate {
    pub dir: String,
    pub name: String,
}

/// Where the script of a request to run it is looked for. Rejects anything that
/// isn't a direct child of the configured directory (no path separators, no
/// `.`/`..`) so a script name can never be used to escape it.
pub fn script_candidate(app: &AppState, user: &CurrentUser, lib_id: i64, name: &str) -> (r:
    ApiResult<Candidate>)
    ensures
        match r {
            Ok(candidate) => {
                &&& run_refusal(*app, *user, lib_id, name@) is None
                &&& app.downloaders_path == Some(candidate.dir)
                &&& candidate.name@ == name@
            },
            Err(e) => run_refusal(*app, *user, lib_id, name@) == Some(e@),
        },
{
    app.require_library_upload(user, lib_id)?;
    match &app.downloaders_path {
        None => Err(ApiError::bad_request("no downloaders_path configured")),
        Some(dir) => {
            if name.is_empty() || contains_char(name, '/') || contains_char(name, '\\') || *name
                == *"." || *name == *".." {
                return Err(ApiError::bad_request("invalid script name"));
            }
            Ok(Candidate { dir: dir.clone(), name: name.to_owned() })
        },
    }
}

/// Why what was found at a script's path is refused.
pub open spec fn found_refusal(
    dir: Seq<Part>,
    canonical: Option<Seq<Part>>,
    is_file: bool,
) -> Option<(u16, Seq<char>)> {
    match canonical {
        None => Some(not_found("script"@)),
        Some(path) => if has_parent(path, dir) && is_file {
            None
        } else {
            Some(bad_request("invalid script name"@))
        },
    }
}

/// Accepts what was found at a script's path: its canonical path, where there
/// is one, must name a file directly inside the directory.
pub fn accept_script(dir: &FilePath, canonical: Option<FilePath>, is_file: bool) -> (r: ApiResult<
    FilePath,
>)
    ensures
        match r {
            Ok(path) => {
                &&& canonical == Some(path)
                &&& found_refusal(dir@, Some(path@), is_file) is None
            },
            Err(e) => found_refusal(
                dir@,
                match canonical {
                    Some(path) => Some(path@),
                    None => None,
                },
                is_file,
            ) == Some(e@),
        },
{
    match canonical {
        None => Err(ApiError::not_found("script")),
        Some(path) => {
            if !path.is_in(dir) || !is_file {
                return Err(ApiError::bad_request("invalid script name"));
            }
            Ok(path)
        },
    }
}

/// Only who may upload runs a script, and a script name can't be used to escape
/// the directory: an accepted name is a single one, and an accepted script is a
/// file directly inside the directory.
pub proof fn scripts_stay_inside(
    app: AppState,
    user: CurrentUser,
    lib_id: i64,
    name: Seq<char>,
    dir: Seq<Part>,
    canonical: Seq<Part>,
    is_file: bool,
)
    requires
        run_refusal(app, user, lib_id, name) is None,
        found_refusal(dir, Some(canonical), is_file) is None,
    ensures
        user.access(lib_id).upload,
        app.downloaders_path is Some,
        script_name(name),
        has_parent(canonical, dir),
        is_file,
{
}

/// The urls of a request without white space around them, and without those
/// that hold nothing else.
pub open spec fn kept_urls(urls: Seq<Seq<char>>) -> Seq<Seq<char>>
    decreases urls.len(),
{
    if urls.len() == 0 {
        seq![]
    } else {
        let rest = kept_urls(urls.drop_last());
        if trimmed(urls.last()).len() == 0 {
            rest
        } else {
            rest.push(trimmed(urls.last()))
        }
    }
}

/// The urls of a request that are worth downloading.
pub fn clean_urls(urls: &Vec<String>) -> (r: Vec<String>)
    ensures
        texts(r@) == kept_urls(texts(urls@)),
{
    let mut out: Vec<String> = Vec::new();
    let mut i: usize = 0;
    assert(texts(urls@).take(0) =~= seq![]);
    while i < urls.len()
        invariant
            i <= urls@.len(),
            texts(out@) =~= kept_urls(texts(urls@).take(i as int)),
        decreases urls@.len() - i,
    {
        let url = urls[i].as_str().trim();
        let ghost before = texts(out@);
        proof {
            let next = texts(urls@).take(i + 1);
            assert(next.drop_last() =~= texts(urls@).take(i as int));
            assert(next.last() == urls@[i as int]@);
        }
        if !url.is_empty() {
            out.push(url.to_owned());
            assert(texts(out@) =~= before.push(url@));
        }
        i += 1;
    }
    assert(texts(urls@).take(i as int) =~= texts(urls@));
    out
}

/// How a job is doing.
#[derive(Debug, Clone, Copy, PartialEq, Eq, Structural)]
pub enum JobStatus {
    Running,
    Completed,
    Failed,
}

/// A run of a downloader script.
#[derive(Debug)]
pub struct Job {
    pub id: String,
    pub script: String,
    pub urls: Vec<String>,
    /// Index into `urls` of the one currently downloading; `None` once every
    /// url has finished downloading (including while the post-download
    /// import is running, and after the job has finished).
    pub current_index: Option<usize>,
    pub status: JobStatus,
    pub log: Vec<String>,
    /// Set once the post-download import has run.
    pub summary: Option<ImportStatsView>,
    pub started_at: String,
    pub finished_at: Option<String>,
}

/// A `Job` with the texts that it holds.
#[verifier::ext_equal]
pub struct JobView {
    pub id: Seq<char>,
    pub script: Seq<char>,
    pub urls: Seq<Seq<char>>,
    pub current_index: Option<usize>,
    pub status: JobStatus,
    pub log: Seq<Seq<char>>,
    pub summary: Option<ImportStatsView>,
    pub started_at: Seq<char>,
    pub finished_at: Option<Seq<char>>,
}

impl View for Job {
    type V = JobView;

    open spec fn view(&self) -> JobView {
        JobView {
            id: self.id@,
            script: self.script@,
            urls: texts(self.urls@),
            current_index: self.current_index,
            status: self.status,
            log: texts(self.log@),
            summary: self.summary,
            started_at: self.started_at@,
            finished_at: match self.finished_at {
                Some(text) => Some(text@),
                None => None,
            },
        }
    }
}

impl JobView {
    /// With one more line in its log.
    pub open spec fn logged(self, line: Seq<char>) -> JobView {
        JobView { log: self.log.push(line), ..self }
    }

    /// While the url at `index` is downloaded.
    pub open spec fn at(self, index: Option<usize>) -> JobView {
        JobView { current_index: index, ..self }
    }

    /// At its end.
    pub open spec fn finished(
        self,
        status: JobStatus,
        summary: Option<ImportStatsView>,
        time: Seq<char>,
    ) -> JobView {
        JobView { status, summary, finished_at: Some(time), ..self }
    }

    /// When the download of the url at `index` starts, one of `total`.
    pub open spec fn download_started(self, index: usize, total: nat, url: Seq<char>) -> JobView {
        self.at(Some(index)).logged(heading(index as nat, total, url))
    }

    /// When a download has ended, with something to say of it or not.
    pub open spec fn download_ended(self, complaint: Option<Seq<char>>) -> JobView {
        match complaint {
            Some(line) => self.logged(line),
            None => self,
        }
    }

    /// When every download has ended.
    pub open spec fn import_started(self) -> JobView {
        self.at(None).logged("=== importing downloaded files ==="@)
    }

    /// When the import has ended.
    pub open spec fn import_ended(
        self,
        any_failed: bool,
        result: Result<ImportStats, String>,
        time: Seq<char>,
    ) -> JobView {
        match result {
            Ok(stats) => self.logged(counts_line(stats@)).finished(
                if any_failed {
                    JobStatus::Failed
                } else {
                    JobStatus::Completed
                },
                Some(summarized(stats)),
                time,
            ),
            Err(reason) => self.logged("import failed: "@ + reason@).finished(
                JobStatus::Failed,
                None,
                time,
            ),
        }
    }
}

/// What the log says when a download starts.
pub open spec fn heading(index: nat, total: nat, url: Seq<char>) -> Seq<char> {
    "=== ["@ + decimal(index + 1) + "/"@ + decimal(total) + "] "@ + url + " ==="@
}

/// A job that has just been started.
pub open spec fn fresh_job(
    id: Seq<char>,
    script: Seq<char>,
    urls: Seq<Seq<char>>,
    started_at: Seq<char>,
) -> JobView {
    JobView {
        id,
        script,
        urls,
        current_index: Some(0),
        status: JobStatus::Running,
        log: seq![],
        summary: None,
        started_at,
        finished_at: None,
    }
}

/// The job that a request starts, where it names a url at least.
pub fn start_job(script: &str, urls: &Vec<String>, id: String, started_at: String) -> (r: ApiResult<
    Job,
>)
    ensures
        match r {
            Ok(job) => {
                &&& kept_urls(texts(urls@)).len() > 0
                &&& job@ == fresh_job(id@, script@, kept_urls(texts(urls@)), started_at@)
            },
            Err(e) => {
                &&& kept_urls(texts(urls@)).len() == 0
                &&& e@ == bad_request("at least one url is required"@)
            },
        },
{
    let kept = clean_urls(urls);
    assert(texts(kept@).len() == kept@.len());
    if kept.len() == 0 {
        return Err(ApiError::bad_request("at least one url is required"));
    }
    let job = Job {
        id,
        script: script.to_owned(),
        urls: kept,
        current_index: Some(0),
        status: JobStatus::Running,
        log: Vec::new(),
        summary: None,
        started_at,
        finished_at: None,
    };
    assert(job@.log =~= seq![]);
    Ok(job)
}

/// Whether a text is written as a random UUID is: 36 characters, hyphens after
/// the 8th, 12th, 16th and 20th of 32 hexadecimal digits, the version 4 and the
/// variant of RFC 4122.
pub open spec fn is_uuid(s: Seq<char>) -> bool {
    &&& s.len() == 36
    &&& forall|i: int|
        0 <= i < 36 ==> if i == 8 || i == 13 || i == 18 || i == 23 {
            #[trigger] s[i] == '-'
        } else {
            lower_hex(s[i])
        }
    &&& s[14] == '4'
    &&& s[19] == '8' || s[19] == '9' || s[19] == 'a' || s[19] == 'b'
}

/// `uuid::Uuid::new_v4().to_string()`: a random UUID, hyphenated and in lower
/// case. Which one it is depends on chance.
#[verifier::external_body]
fn random_id() -> (r: String)
    ensures
        is_uuid(r@),
{
    uuid::Uuid::new_v4().to_string()
}

/// Ten multiplied by itself `n` times.
spec fn ten_to(n: nat) -> nat
    decreases n,
{
    if n == 0 {
        1
    } else {
        10 * ten_to((n - 1) as nat)
    }
}

proof fn lemma_decimal_is_short(n: nat, digits: nat)
    requires
        digits > 0,
        n < ten_to(digits),
    ensures
        decimal(n).len() <= digits,
    decreases n,
{
    if n >= 10 {
        reveal_with_fuel(ten_to, 2);
        lemma_decimal_is_short(n / 10, (digits - 1) as nat);
    }
}

proof fn lemma_zeros_before(zeros: Seq<char>, s: Seq<char>)
    requires
        forall|i: int| 0 <= i < zeros.len() ==> #[trigger] zeros[i] == '0',
    ensures
        digits_value(zeros + s) == digits_value(s),
    decreases zeros.len() + s.len(),
{
    if s.len() > 0 {
        lemma_zeros_before(zeros, s.drop_last());
        assert((zeros + s).drop_last() =~= zeros + s.drop_last());
    } else if zeros.len() > 0 {
        let rest = zeros.drop_last();
        assert forall|i: int| 0 <= i < rest.len() implies #[trigger] rest[i] == '0' by {
            assert(zeros[i] == '0');
        }
        lemma_zeros_before(rest, s);
        assert((zeros + s).drop_last() =~= rest + s);
        assert((zeros + s).last() == '0');
    } else {
        assert(zeros + s =~= s);
    }
}

/// `n` in decimal, with zeros before it that make 24 digits.
spec fn padded(n: nat) -> Seq<char> {
    Seq::new((24 - decimal(n).len()) as nat, |i: int| '0') + decimal(n)
}

proof fn lemma_padded(n: u64)
    ensures
        padded(n as nat).len() == 24,
        decimal(n as nat).len() <= 20,
        all_digits(padded(n as nat)),
        digits_value(padded(n as nat)) == n,
{
    reveal_with_fuel(ten_to, 21);
    lemma_decimal_is_short(n as nat, 20);
    digits_write_the_number(n as nat);
    let zeros = Seq::new((24 - decimal(n as nat).len()) as nat, |i: int| '0');
    lemma_zeros_before(zeros, decimal(n as nat));
    assert forall|i: int| 0 <= i < 24 implies '0' <= #[trigger] padded(n as nat)[i] <= '9' by {
        if i >= zeros.len() {
            assert(padded(n as nat)[i] == decimal(n as nat)[i - zeros.len()]);
        }
    }
}

/// The id that is tried after `n` others were taken.
spec fn spare(n: nat) -> Seq<char> {
    let p = padded(n);
    p.subrange(0, 8) + "-"@ + p.subrange(8, 12) + "-4000-8000-"@ + p.subrange(12, 24)
}

proof fn lemma_spare_ids_differ(i: u64, j: u64)
    requires
        spare(i as nat) == spare(j as nat),
    ensures
        i == j,
{
    lemma_padded(i);
    lemma_padded(j);
    reveal_strlit("-");
    reveal_strlit("-4000-8000-");
    let p = padded(i as nat);
    let q = padded(j as nat);
    let s = spare(i as nat);
    assert forall|k: int| 0 <= k < 24 implies p[k] == q[k] by {
        let at = if k < 8 {
            k
        } else if k < 12 {
            k + 1
        } else {
            k + 12
        };
        assert(s[at] == p[k]);
        assert(spare(j as nat)[at] == q[k]);
    }
    assert(p =~= q);
}

fn spare_id(n: u64) -> (r: String)
    ensures
        r@ == spare(n as nat),
        is_uuid(r@),
{
    proof {
        lemma_padded(n);
        reveal_strlit("-");
        reveal_strlit("-4000-8000-");
    }
    let digits = chars_of(decimal_string(n).as_str());
    let ghost zeros = Seq::new((24 - decimal(n as nat).len()) as nat, |i: int| '0');
    let mut p: Vec<char> = Vec::new();
    while p.len() < 24 - digits.len()
        invariant
            digits@.len() <= 20,
            digits@ == decimal(n as nat),
            p@.len() <= 24 - digits@.len(),
            forall|i: int| 0 <= i < p@.len() ==> #[trigger] p@[i] == '0',
        decreases 24 - digits@.len() - p@.len(),
    {
        p.push('0');
    }
    let mut i: usize = 0;
    assert(p@ =~= zeros + digits@.take(0));
    while i < digits.len()
        invariant
            i <= digits@.len(),
            p@ =~= zeros + digits@.take(i as int),
        decreases digits@.len() - i,
    {
        p.push(digits[i]);
        i += 1;
    }
    assert(digits@.take(i as int) =~= digits@);
    assert(p@ =~= padded(n as nat));
    let mut out = text_of(p.as_slice(), 0, 8);
    out.append("-");
    out.append(text_of(p.as_slice(), 8, 12).as_str());
    out.append("-4000-8000-");
    out.append(text_of(p.as_slice(), 12, 24).as_str());
    assert(out@ =~= spare(n as nat));
    assert forall|k: int| 0 <= k < 36 implies if k == 8 || k == 13 || k == 18 || k == 23 {
        #[trigger] out@[k] == '-'
    } else {
        lower_hex(out@[k])
    } by {
        if k < 8 {
            assert(out@[k] == p@[k]);
        } else if 8 < k < 13 {
            assert(out@[k] == p@[k - 1]);
        } else if k > 23 {
            assert(out@[k] == p@[k - 12]);
        }
    }
    out
}

/// The job that a request starts, with an id of its own.
pub fn new_job(script: &str, urls: &Vec<String>) -> (r: ApiResult<Job>)
    ensures
        match r {
            Ok(job) => {
                &&& kept_urls(texts(urls@)).len() > 0
                &&& is_uuid(job.id@)
                &&& is_time_text(job.started_at@)
                &&& job@ == fresh_job(
                    job.id@,
                    script@,
                    kept_urls(texts(urls@)),
                    job.started_at@,
                )
            },
            Err(e) => {
                &&& kept_urls(texts(urls@)).len() == 0
                &&& e@ == bad_request("at least one url is required"@)
            },
        },
{
    let id = random_id();
    let started_at = rfc3339();
    start_job(script, urls, id, started_at)
}

impl Clone for Job {
    fn clone(&self) -> (r: Self)
        ensures
            r@ == self@,
    {
        let r = Job {
            id: self.id.clone(),
            script: self.script.clone(),
            urls: copy_of(&self.urls),
            current_index: self.current_index,
            status: self.status,
            log: copy_of(&self.log),
            summary: self.summary,
            started_at: self.started_at.clone(),
            finished_at: match &self.finished_at {
                Some(text) => Some(text.clone()),
                None => None,
            },
        };
        assert(r@ =~= self@);
        r
    }
}

/// The jobs `jobs` once the one with this id, if there is one, has become `job`.
pub open spec fn updated(
    jobs: Map<Seq<char>, JobView>,
    id: Seq<char>,
    job: JobView,
) -> Map<Seq<char>, JobView> {
    if jobs.contains_key(id) {
        jobs.insert(id, job)
    } else {
        jobs
    }
}

/// The jobs that were started. They are intentionally not persisted: they
/// exist only to let clients poll the progress of a running downloader script.
pub struct JobStore {
    jobs: Vec<Job>,
    /// Where each job stands in `jobs`, by its id.
    places: StringHashMap<usize>,
}

impl View for JobStore {
    type V = Map<Seq<char>, JobView>;

    closed spec fn view(&self) -> Map<Seq<char>, JobView> {
        Map::new(
            |id: Seq<char>| self.places@.contains_key(id),
            |id: Seq<char>| self.jobs@[self.places@[id] as int]@,
        )
    }
}

impl JobStore {
    /// Whether every id leads to the job that has it.
    pub closed spec fn well_formed(&self) -> bool {
        forall|id: Seq<char>| #[trigger]
            self.places@.contains_key(id) ==> {
                &&& self.places@[id] < self.jobs@.len()
                &&& self.jobs@[self.places@[id] as int].id@ == id
            }
    }

    pub fn new() -> (r: JobStore)
        ensures
            r.well_formed(),
            r@ == Map::<Seq<char>, JobView>::empty(),
    {
        let r = JobStore { jobs: Vec::new(), places: StringHashMap::new() };
        assert(r@ =~= Map::<Seq<char>, JobView>::empty());
        r
    }

    /// Takes a job in, in place of one with the same id.
    pub fn insert(&mut self, job: Job)
        requires
            old(self).well_formed(),
        ensures
            final(self).well_formed(),
            final(self)@ == old(self)@.insert(job.id@, job@),
    {
        let id = job.id.clone();
        let place = self.jobs.len();
        self.jobs.push(job);
        self.places.insert(id, place);
        assert(self@ =~= old(self)@.insert(job.id@, job@));
    }

    /// An id that no job has: a random one, and in the unlikely case that it is
    /// taken, the first that is not among those tried one by one.
    fn free_id(&self) -> (r: String)
        requires
            self.well_formed(),
        ensures
            is_uuid(r@),
            !self@.contains_key(r@),
    {
        let drawn = random_id();
        if !self.places.contains_key(drawn.as_str()) {
            return drawn;
        }
        let total = self.jobs.len();
        let mut n: usize = 0;
        let ghost mut taken: Seq<int> = seq![];
        let mut id = spare_id(0);
        while self.places.contains_key(id.as_str())
            invariant
                self.well_formed(),
                total == self.jobs@.len(),
                id@ == spare(n as nat),
                is_uuid(id@),
                taken.len() == n <= total,
                taken.no_duplicates(),
                forall|j: int|
                    0 <= j < n ==> 0 <= #[trigger] taken[j] < total && self.jobs@[taken[j]].id@
                        == spare(j as nat),
            decreases total - n,
        {
            proof {
                let at = self.places@[id@] as int;
                assert(self.jobs@[at].id@ == spare(n as nat));
                assert forall|j: int| 0 <= j < n implies #[trigger] taken[j] != at by {
                    if taken[j] == at {
                        lemma_spare_ids_differ(j as u64, n as u64);
                    }
                }
                taken = taken.push(at);
                taken.unique_seq_to_set();
                let all = vstd::set_lib::set_int_range(0, total as int);
                vstd::set_lib::lemma_int_range(0, total as int);
                assert(taken.to_set().subset_of(all)) by {
                    assert forall|x: int| taken.to_set().contains(x) implies all.contains(x) by {
                        let j = taken.index_of(x);
                        assert(taken[j] == x);
                    }
                }
                vstd::set_lib::lemma_len_subset(taken.to_set(), all);
            }
            n += 1;
            id = spare_id(n as u64);
        }
        id
    }

    /// Starts a job that runs `script` for the urls of a request. It gets an id
    /// that no job has, so that no job is lost.
    pub fn start(&mut self, script: &str, urls: &Vec<String>) -> (r: ApiResult<JobRun>)
        requires
            old(self).well_formed(),
        ensures
            final(self).well_formed(),
            match r {
                Ok(run) => {
                    &&& kept_urls(texts(urls@)).len() > 0
                    &&& is_uuid(run.id@)
                    &&& !old(self)@.contains_key(run.id@)
                    &&& texts(run.urls@) == kept_urls(texts(urls@))
                    &&& run.started == 0
                    &&& !run.any_failed
                    &&& final(self)@.contains_key(run.id@)
                    &&& is_time_text(final(self)@[run.id@].started_at)
                    &&& final(self)@[run.id@] == fresh_job(
                        run.id@,
                        script@,
                        kept_urls(texts(urls@)),
                        final(self)@[run.id@].started_at,
                    )
                    &&& final(self)@ == old(self)@.insert(run.id@, final(self)@[run.id@])
                },
                Err(e) => {
                    &&& kept_urls(texts(urls@)).len() == 0
                    &&& e@ == bad_request("at least one url is required"@)
                    &&& final(self)@ == old(self)@
                },
            },
    {
        let id = self.free_id();
        let started_at = rfc3339();
        let job = start_job(script, urls, id, started_at)?;
        let run = JobRun::new(job.id.clone(), copy_of(&job.urls));
        self.insert(job);
        Ok(run)
    }

    /// The job `id`.
    pub fn get(&self, id: &str) -> (r: Option<&Job>)
        requires
            self.well_formed(),
        ensures
            match r {
                Some(job) => self@.contains_key(id@) && job@ == self@[id@],
                None => !self@.contains_key(id@),
            },
    {
        match self.places.get(id) {
            Some(place) => Some(&self.jobs[*place]),
            None => None,
        }
    }

    /// What a request for the state of a job is answered.
    pub fn job_status(&self, app: &AppState, lib_id: i64, id: &str) -> (r: ApiResult<Job>)
        requires
            self.well_formed(),
        ensures
            match r {
                Ok(job) => {
                    &&& app.has_library(lib_id)
                    &&& self@.contains_key(id@)
                    &&& job@ == self@[id@]
                },
                Err(e) => e@ == if !app.has_library(lib_id) {
                    not_found("library"@)
                } else {
                    not_found("job"@)
                } && !(app.has_library(lib_id) && self@.contains_key(id@)),
            },
    {
        app.require_library(lib_id)?;
        match self.get(id) {
            Some(job) => Ok(job.clone()),
            None => Err(ApiError::not_found("job")),
        }
    }

    /// Adds a line to the log of the job `id`.
    pub fn append_log(&mut self, id: &str, line: String)
        requires
            old(self).well_formed(),
        ensures
            final(self).well_formed(),
            final(self)@ == updated(old(self)@, id@, old(self)@[id@].logged(line@)),
    {
        if let Some(place) = self.places.get(id) {
            let at: usize = *place;
            let ghost before = texts(self.jobs@[at as int].log@);
            self.jobs[at].log.push(line);
            assert(texts(self.jobs@[at as int].log@) =~= before.push(line@));
        }
        assert(self@ =~= updated(old(self)@, id@, old(self)@[id@].logged(line@)));
    }

    /// Takes note of which url the job `id` is downloading.
    pub fn set_current_index(&mut self, id: &str, index: Option<usize>)
        requires
            old(self).well_formed(),
        ensures
            final(self).well_formed(),
            final(self)@ == updated(old(self)@, id@, old(self)@[id@].at(index)),
    {
        if let Some(place) = self.places.get(id) {
            let at: usize = *place;
            self.jobs[at].current_index = index;
        }
        assert(self@ =~= updated(old(self)@, id@, old(self)@[id@].at(index)));
    }

    /// Takes note that the job `id` ended at the time `now`.
    pub fn finish_job(
        &mut self,
        id: &str,
        status: JobStatus,
        summary: Option<ImportStatsView>,
        now: String,
    )
        requires
            old(self).well_formed(),
        ensures
            final(self).well_formed(),
            final(self)@ == updated(
                old(self)@,
                id@,
                old(self)@[id@].finished(status, summary, now@),
            ),
    {
        if let Some(place) = self.places.get(id) {
            let at: usize = *place;
            self.jobs[at].status = status;
            self.jobs[at].summary = summary;
            self.jobs[at].finished_at = Some(now);
        }
        assert(self@ =~= updated(
            old(self)@,
            id@,
            old(self)@[id@].finished(status, summary, now@),
        ));
    }
}

/// How the download of a url ended.
#[derive(Debug)]
pub enum DownloadEnd {
    /// There was no directory to download into.
    NoDirectory { reason: String },
    /// The script could not be started.
    NotStarted { reason: String },
    /// The script exited successfully.
    Succeeded,
    /// The script exited otherwise.
    Exited { status: String },
    /// The script could not be waited for.
    NotAwaited { reason: String },
}

impl View for DownloadEnd {
    type V = Option<Seq<char>>;

    /// What the log says of it, unless the download succeeded.
    open spec fn view(&self) -> Option<Seq<char>> {
        match self {
            DownloadEnd::NoDirectory { reason } => Some(
                "failed to create download dir: "@ + reason@,
            ),
            DownloadEnd::NotStarted { reason } => Some("failed to start script: "@ + reason@),
            DownloadEnd::Succeeded => None,
            DownloadEnd::Exited { status } => Some("script exited with "@ + status@),
            DownloadEnd::NotAwaited { reason } => Some("failed to wait on script: "@ + reason@),
        }
    }
}

/// `text` with something before it.
fn prefixed(prefix: &str, text: &str) -> (r: String)
    ensures
        r@ == prefix@ + text@,
{
    let mut out = prefix.to_owned();
    out.append(text);
    out
}

impl DownloadEnd {
    /// What the log says of it, unless the download succeeded.
    pub fn complaint(&self) -> (r: Option<String>)
        ensures
            match r {
                Some(line) => self@ == Some(line@),
                None => self@ is None,
            },
    {
        match self {
            DownloadEnd::NoDirectory { reason } => Some(
                prefixed("failed to create download dir: ", reason.as_str()),
            ),
            DownloadEnd::NotStarted { reason } => Some(
                prefixed("failed to start script: ", reason.as_str()),
            ),
            DownloadEnd::Succeeded => None,
            DownloadEnd::Exited { status } => Some(
                prefixed("script exited with ", status.as_str()),
            ),
            DownloadEnd::NotAwaited { reason } => Some(
                prefixed("failed to wait on script: ", reason.as_str()),
            ),
        }
    }
}

/// What the log says of a line that a script wrote to its standard error.
pub fn stderr_line(line: &str) -> (r: String)
    ensures
        r@ == "[stderr] "@ + line@,
{
    prefixed("[stderr] ", line)
}

/// Where a job's downloads go: the names to follow below the directory for
/// temporary files, one after the other.
pub fn staging_path(id: &str) -> (r: Vec<String>)
    ensures
        texts(r@) == seq!["muserv-downloads"@, id@],
{
    let mut names: Vec<String> = Vec::new();
    names.push("muserv-downloads".to_owned());
    names.push(id.to_owned());
    assert(texts(names@) =~= seq!["muserv-downloads"@, id@]);
    names
}

/// Where the url at `index` is downloaded to, below the job's directory.
pub fn download_directory(index: usize) -> (r: String)
    ensures
        r@ == decimal(index as nat),
{
    decimal_string(index as u64)
}

/// The run of a job's downloads, one after the other.
#[derive(Debug)]
pub struct JobRun {
    pub id: String,
    pub urls: Vec<String>,
    /// How many downloads have been started.
    pub started: usize,
    /// Whether one of them has failed.
    pub any_failed: bool,
}

impl JobRun {
    /// Whether no more downloads were started than there are urls.
    pub open spec fn well_formed(&self) -> bool {
        self.started <= self.urls@.len()
    }

    pub fn new(id: String, urls: Vec<String>) -> (r: JobRun)
        ensures
            r.well_formed(),
            r == (JobRun { id, urls, started: 0, any_failed: false }),
    {
        JobRun { id, urls, started: 0, any_failed: false }
    }

    /// The index of the url to download next; none once all were downloaded
    /// and what came of them is to be imported.
    pub fn next_download(&mut self, store: &mut JobStore) -> (r: Option<usize>)
        requires
            old(self).well_formed(),
            old(store).well_formed(),
        ensures
            final(self).well_formed(),
            final(store).well_formed(),
            match r {
                Some(index) => {
                    &&& index == old(self).started < old(self).urls@.len()
                    &&& *final(self) == (JobRun { started: (index + 1) as usize, ..*old(self) })
                    &&& final(store)@ == updated(
                        old(store)@,
                        old(self).id@,
                        old(store)@[old(self).id@].download_started(
                            index,
                            old(self).urls@.len(),
                            old(self).urls@[index as int]@,
                        ),
                    )
                },
                None => {
                    &&& old(self).started == old(self).urls@.len()
                    &&& *final(self) == *old(self)
                    &&& final(store)@ == updated(
                        old(store)@,
                        old(self).id@,
                        old(store)@[old(self).id@].import_started(),
                    )
                },
            },
    {
        let total = self.urls.len();
        if self.started < total {
            let index: usize = self.started;
            let mut line = "=== [".to_owned();
            let number = decimal_string((index + 1) as u64);
            let count = decimal_string(total as u64);
            line.append(number.as_str());
            line.append("/");
            line.append(count.as_str());
            line.append("] ");
            line.append(self.urls[index].as_str());
            line.append(" ===");
            assert(line@ =~= heading(index as nat, total as nat, self.urls@[index as int]@));
            store.set_current_index(self.id.as_str(), Some(index));
            store.append_log(self.id.as_str(), line);
            self.started = index + 1;
            Some(index)
        } else {
            store.set_current_index(self.id.as_str(), None);
            store.append_log(
                self.id.as_str(),
                "=== importing downloaded files ===".to_owned(),
            );
            None
        }
    }

    /// Takes note of how a download ended.
    pub fn download_ended(&mut self, store: &mut JobStore, end: DownloadEnd)
        requires
            old(self).well_formed(),
            old(store).well_formed(),
        ensures
            final(self).well_formed(),
            final(store).well_formed(),
            *final(self) == (JobRun {
                any_failed: old(self).any_failed || end@ is Some,
                ..*old(self)
            }),
            final(store)@ == updated(
                old(store)@,
                old(self).id@,
                old(store)@[old(self).id@].download_ended(end@),
            ),
    {
        if let Some(line) = end.complaint() {
            store.append_log(self.id.as_str(), line);
            self.any_failed = true;
        } else {
            assert(store@ =~= updated(
                old(store)@,
                old(self).id@,
                old(store)@[old(self).id@].download_ended(end@),
            ));
        }
    }

    /// Takes note of what the import of the downloaded files did, and ends the
    /// job at the time `now`.
    pub fn import_ended_at(
        &self,
        store: &mut JobStore,
        result: Result<ImportStats, String>,
        now: String,
    )
        requires
            old(store).well_formed(),
        ensures
            final(store).well_formed(),
            final(store)@ == updated(
                old(store)@,
                self.id@,
                old(store)@[self.id@].import_ended(self.any_failed, result, now@),
            ),
    {
        match result {
            Ok(stats) => {
                store.append_log(self.id.as_str(), counts_text(&stats));
                let status = if self.any_failed {
                    JobStatus::Failed
                } else {
                    JobStatus::Completed
                };
                let summary = ImportStatsView::from(&stats);
                store.finish_job(self.id.as_str(), status, Some(summary), now);
            },
            Err(reason) => {
                let line = prefixed("import failed: ", reason.as_str());
                store.append_log(self.id.as_str(), line);
                store.finish_job(self.id.as_str(), JobStatus::Failed, None, now);
            },
        }
        assert(store@ =~= updated(
            old(store)@,
            self.id@,
            old(store)@[self.id@].import_ended(self.any_failed, result, now@),
        ));
    }

    /// Takes note of what the import of the downloaded files did, and ends the
    /// job.
    pub fn import_ended(&self, store: &mut JobStore, result: Result<ImportStats, String>)
        requires
            old(store).well_formed(),
        ensures
            final(store).well_formed(),
            exists|now: Seq<char>|
                is_time_text(now) && final(store)@ == updated(
                    old(store)@,
                    self.id@,
                    #[trigger] old(store)@[self.id@].import_ended(self.any_failed, result, now),
                ),
    {
        let now = rfc3339();
        self.import_ended_at(store, result, now);
    }
}

/// Each url is downloaded into a directory of its own.
pub proof fn downloads_are_kept_apart(root: Seq<Part>, i: nat, j: nat)
    requires
        i != j,
    ensures
        named(root, decimal(i)) != named(root, decimal(j)),
{
    lemma_decimal_value(i);
    lemma_decimal_value(j);
    assert(named(root, decimal(i)).last() == (Part::Normal { name: decimal(i) }));
    assert(named(root, decimal(j)).last() == (Part::Normal { name: decimal(j) }));
}

/// A download as the log tells it: what the script wrote, and what is said of
/// its end unless it succeeded.
pub struct Download {
    pub lines: Seq<Seq<char>>,
    pub complaint: Option<Seq<char>>,
}

/// Whether one of the downloads failed.
pub open spec fn any_failed(downloads: Seq<Download>) -> bool {
    exists|i: int| 0 <= i < downloads.len() && (#[trigger] downloads[i]).complaint is Some
}

/// A job once its first downloads have ended.
pub open spec fn after_downloads(job: JobView, downloads: Seq<Download>) -> JobView
    decreases downloads.len(),
{
    if downloads.len() == 0 {
        job
    } else {
        let index = downloads.len() - 1;
        let started = after_downloads(job, downloads.drop_last()).download_started(
            index as usize,
            job.urls.len(),
            job.urls[index],
        );
        JobView { log: started.log + downloads.last().lines, ..started }.download_ended(
            downloads.last().complaint,
        )
    }
}

/// A job once it has ended.
pub open spec fn after_run(
    job: JobView,
    downloads: Seq<Download>,
    import: Result<ImportStats, String>,
    time: Seq<char>,
) -> JobView {
    after_downloads(job, downloads).import_started().import_ended(
        any_failed(downloads),
        import,
        time,
    )
}

/// While its downloads run, one after the other and in the order of the urls,
/// a job says which url it is at; its log keeps every line, and a failure is not
/// forgotten.
pub proof fn downloads_run_in_turn(job: JobView, downloads: Seq<Download>)
    requires
        0 < downloads.len() <= job.urls.len() <= usize::MAX,
    ensures
        ({
            let before = after_downloads(job, downloads.drop_last());
            let after = after_downloads(job, downloads);
            let index = downloads.len() - 1;
            &&& after.current_index == Some(index as usize)
            &&& before.log.push(
                heading(index as nat, job.urls.len(), job.urls[index]),
            ).is_prefix_of(after.log)
            &&& after.status == job.status
            &&& after.urls == job.urls
            &&& any_failed(downloads) <==> any_failed(downloads.drop_last())
                || downloads.last().complaint is Some
        }),
    decreases downloads.len(),
{
    if downloads.len() > 1 {
        downloads_run_in_turn(job, downloads.drop_last());
    }
    assert(after_downloads(job, downloads.drop_last()).urls == job.urls);
    if any_failed(downloads) {
        let i = choose|i: int|
            0 <= i < downloads.len() && (#[trigger] downloads[i]).complaint is Some;
        if i < downloads.len() - 1 {
            assert(downloads.drop_last()[i] == downloads[i]);
        }
    }
    if any_failed(downloads.drop_last()) {
        let i = choose|i: int|
            0 <= i < downloads.drop_last().len() && (
            #[trigger] downloads.drop_last()[i]).complaint is Some;
        assert(downloads[i] == downloads.drop_last()[i]);
    }
}

/// A job ends as failed if a download or the import failed, and as completed
/// otherwise. Once it has ended it is at no url, it has a summary exactly if
/// the import ran, and it says when it ended.
pub proof fn job_fails_if_anything_failed(
    job: JobView,
    downloads: Seq<Download>,
    import: Result<ImportStats, String>,
    time: Seq<char>,
)
    requires
        downloads.len() == job.urls.len() <= usize::MAX,
    ensures
        ({
            let end = after_run(job, downloads, import, time);
            &&& end.status == if any_failed(downloads) || import is Err {
                JobStatus::Failed
            } else {
                JobStatus::Completed
            }
            &&& end.current_index is None
            &&& end.summary is Some <==> import is Ok
            &&& end.finished_at == Some(time)
        }),
{
}

/// The jobs `jobs` once the one with this id has logged `lines`.
pub open spec fn all_logged(
    jobs: Map<Seq<char>, JobView>,
    id: Seq<char>,
    lines: Seq<Seq<char>>,
) -> Map<Seq<char>, JobView>
    decreases lines.len(),
{
    if lines.len() == 0 {
        jobs
    } else {
        let before = all_logged(jobs, id, lines.drop_last());
        updated(before, id, before[id].logged(lines.last()))
    }
}

/// Whether a run and the jobs are where `job` is once its first downloads have
/// ended like this.
pub open spec fn has_come_to(
    run: JobRun,
    jobs: Map<Seq<char>, JobView>,
    job: JobView,
    downloads: Seq<Download>,
) -> bool {
    &&& texts(run.urls@) == job.urls
    &&& run.started == downloads.len()
    &&& run.any_failed == any_failed(downloads)
    &&& jobs.contains_key(run.id@)
    &&& jobs[run.id@] == after_downloads(job, downloads)
}

proof fn lemma_all_logged(jobs: Map<Seq<char>, JobView>, id: Seq<char>, lines: Seq<Seq<char>>)
    requires
        jobs.contains_key(id),
    ensures
        all_logged(jobs, id, lines).contains_key(id),
        all_logged(jobs, id, lines)[id] == (JobView { log: jobs[id].log + lines, ..jobs[id] }),
    decreases lines.len(),
{
    if lines.len() == 0 {
        assert(jobs[id].log + lines =~= jobs[id].log);
    } else {
        lemma_all_logged(jobs, id, lines.drop_last());
        assert((jobs[id].log + lines.drop_last()).push(lines.last()) =~= jobs[id].log + lines);
    }
}

/// A job that has just been started, and its run, have come to no download.
pub proof fn run_begins(
    run: JobRun,
    jobs: Map<Seq<char>, JobView>,
    script: Seq<char>,
    time: Seq<char>,
)
    requires
        run.started == 0,
        !run.any_failed,
        jobs.contains_key(run.id@),
        jobs[run.id@] == fresh_job(run.id@, script, texts(run.urls@), time),
    ensures
        has_come_to(run, jobs, jobs[run.id@], seq![]),
{
}

/// A download leads from one point of a run to the next: it is started, its
/// script writes lines, and it ends.
pub proof fn run_goes_on(
    run: JobRun,
    jobs: Map<Seq<char>, JobView>,
    job: JobView,
    downloads: Seq<Download>,
    download: Download,
)
    requires
        has_come_to(run, jobs, job, downloads),
        run.started < run.urls@.len(),
    ensures
        ({
            let id = run.id@;
            let begun = updated(
                jobs,
                id,
                jobs[id].download_started(
                    run.started,
                    run.urls@.len(),
                    run.urls@[run.started as int]@,
                ),
            );
            let said = all_logged(begun, id, download.lines);
            let ended = updated(said, id, said[id].download_ended(download.complaint));
            let next = JobRun {
                started: (run.started + 1) as usize,
                any_failed: run.any_failed || download.complaint is Some,
                ..run
            };
            has_come_to(next, ended, job, downloads.push(download))
        }),
{
    let id = run.id@;
    let all = downloads.push(download);
    assert(run.urls.len() == run.urls@.len());
    assert(all.drop_last() =~= downloads);
    let begun = updated(
        jobs,
        id,
        jobs[id].download_started(run.started, run.urls@.len(), run.urls@[run.started as int]@),
    );
    lemma_all_logged(begun, id, download.lines);
    assert(job.urls[run.started as int] == run.urls@[run.started as int]@);
    assert(job.urls.len() == run.urls@.len());
    downloads_run_in_turn(job, all);
}

/// The import leads from the last download of a run to the end of its job.
pub proof fn run_ends(
    run: JobRun,
    jobs: Map<Seq<char>, JobView>,
    job: JobView,
    downloads: Seq<Download>,
    import: Result<ImportStats, String>,
    time: Seq<char>,
)
    requires
        has_come_to(run, jobs, job, downloads),
        run.started == run.urls@.len(),
    ensures
        ({
            let id = run.id@;
            let importing = updated(jobs, id, jobs[id].import_started());
            let ended = updated(
                importing,
                id,
                importing[id].import_ended(run.any_failed, import, time),
            );
            ended.contains_key(id) && ended[id] == after_run(job, downloads, import, time)
        }),
{
}

/// Starting jobs loses none: two jobs that are started one after the other have
/// different ids, both can be polled, and so can every job that was there.
pub proof fn started_jobs_are_kept(
    before: Map<Seq<char>, JobView>,
    a: Seq<char>,
    first: JobView,
    b: Seq<char>,
    second: JobView,
)
    requires
        !before.contains_key(a),
        !before.insert(a, first).contains_key(b),
    ensures
        ({
            let after = before.insert(a, first).insert(b, second);
            &&& a != b
            &&& after.contains_key(a) && after[a] == first
            &&& after.contains_key(b) && after[b] == second
            &&& forall|id: Seq<char>| #[trigger]
                before.contains_key(id) ==> after.contains_key(id) && after[id] == before[id]
        }),
{
}

/// What happens to one job leaves the others as they are, and an id that no job
/// has does not become a job.
pub proof fn other_jobs_are_left_alone(
    jobs: Map<Seq<char>, JobView>,
    id: Seq<char>,
    job: JobView,
    other: Seq<char>,
)
    ensures
        updated(jobs, id, job).contains_key(other) <==> jobs.contains_key(other),
        jobs.contains_key(id) ==> updated(jobs, id, job)[id] == job,
        jobs.contains_key(other) && other != id ==> updated(jobs, id, job)[other] == jobs[other],
{
}

/// The entries of a directory are offered one by one: each file with a name that
/// its owner, its group or others may execute is, and nothing else is.
pub proof fn each_entry_is_offered_for_itself(
    entries: Seq<ScriptEntry>,
    more: Seq<ScriptEntry>,
    entry: ScriptEntry,
)
    ensures
        offered_names(entries + more) == offered_names(entries) + offered_names(more),
        offered_names(seq![entry]) == if entry.name is Some && entry.is_file && (entry.mode & 0o100
            != 0 || entry.mode & 0o010 != 0 || entry.mode & 0o001 != 0) {
            seq![entry.name->0@]
        } else {
            seq![]
        },
    decreases more.len(),
{
    let mode = entry.mode;
    assert(mode & 0o111 != 0 <==> (mode & 0o100 != 0 || mode & 0o010 != 0 || mode & 0o001 != 0))
        by (bit_vector);
    reveal_with_fuel(offered_names, 2);
    assert(seq![entry].drop_last() =~= seq![]);
    assert(offered_names(seq![entry]) =~= if offered(entry) {
        seq![entry.name->0@]
    } else {
        seq![]
    });
    if more.len() == 0 {
        assert(entries + more =~= entries);
        assert(offered_names(entries) + offered_names(more) =~= offered_names(entries));
    } else {
        each_entry_is_offered_for_itself(entries, more.drop_last(), entry);
        assert((entries + more).drop_last() =~= entries + more.drop_last());
        assert((entries + more).last() == more.last());
        assert(offered_names(entries + more) =~= offered_names(entries) + offered_names(more));
    }
}

/// A request to run a script goes on to the script exactly where the library is
/// there, the requester may upload to it, a directory is configured, and the
/// name is neither empty, nor made of several, nor the directory itself or the
/// one above. Otherwise it is told the first of these that fails.
pub proof fn requests_to_run_are_answered(
    app: AppState,
    user: CurrentUser,
    lib_id: i64,
    name: Seq<char>,
)
    ensures
        ({
            let known = exists|k: int|
                0 <= k < app.libraries@.len() && (#[trigger] app.libraries@[k]).id == lib_id;
            let bad = name.len() == 0 || name.contains('/') || name.contains('\\') || name
                =~= seq!['.'] || name =~= seq!['.', '.'];
            let answer = run_refusal(app, user, lib_id, name);
            &&& !known ==> answer == Some((404u16, "library"@ + " not found"@))
            &&& known && !user.access(lib_id).upload ==> answer == Some(
                (403u16, "upload access required"@),
            )
            &&& known && user.access(lib_id).upload && app.downloaders_path is None ==> answer
                == Some((400u16, "no downloaders_path configured"@))
            &&& known && user.access(lib_id).upload && app.downloaders_path is Some && bad
                ==> answer == Some((400u16, "invalid script name"@))
            &&& known && user.access(lib_id).upload && app.downloaders_path is Some && !bad
                ==> answer is None
        }),
{
    reveal_strlit(".");
    reveal_strlit("..");
    assert("."@ =~= seq!['.']);
    assert(".."@ =~= seq!['.', '.']);
    known_libraries_are_found(app, lib_id);
}

/// A script that was found is accepted exactly where it is a file and its path
/// goes on from the directory by one component; one that was not found, and one
/// elsewhere, are told apart.
pub proof fn found_scripts_are_answered(
    dir: Seq<Part>,
    name: Seq<char>,
    canonical: Option<Seq<Part>>,
    is_file: bool,
)
    ensures
        found_refusal(dir, Some(dir.push(Part::Normal { name })), true) is None,
        found_refusal(dir, None, is_file) == Some((404u16, "script"@ + " not found"@)),
        canonical is Some && (!is_file || canonical->0.len() != dir.len() + 1
            || canonical->0.drop_last() != dir) ==> found_refusal(dir, canonical, is_file)
            == Some((400u16, "invalid script name"@)),
{
    assert(dir.push(Part::Normal { name }).drop_last() =~= dir);
}

/// The urls of a request are kept one by one, in their order: a url without the
/// white space around it, and none of a text that is blank.
pub proof fn each_url_is_kept_for_itself(
    urls: Seq<Seq<char>>,
    more: Seq<Seq<char>>,
    a: Seq<char>,
    url: Seq<char>,
    b: Seq<char>,
)
    requires
        is_blank(a),
        is_blank(b),
        url.len() > 0,
        !white_space(url[0]),
        !white_space(url.last()),
    ensures
        kept_urls(urls + more) == kept_urls(urls) + kept_urls(more),
        kept_urls(seq![a + url + b]) == seq![url],
        kept_urls(seq![a]) == Seq::<Seq<char>>::empty(),
        kept_urls(seq![]) == Seq::<Seq<char>>::empty(),
    decreases more.len(),
{
    reveal_with_fuel(kept_urls, 2);
    white_space_around_is_taken_away(a, url, b);
    white_space_around_is_taken_away(a, seq![], seq![]);
    assert(a + Seq::<char>::empty() + Seq::<char>::empty() =~= a);
    assert(seq![a + url + b].drop_last() =~= seq![]);
    assert(seq![a].drop_last() =~= seq![]);
    assert(kept_urls(seq![a + url + b]) =~= seq![url]);
    if more.len() == 0 {
        assert(urls + more =~= urls);
        assert(kept_urls(urls) + kept_urls(more) =~= kept_urls(urls));
    } else {
        each_url_is_kept_for_itself(urls, more.drop_last(), a, url, b);
        assert((urls + more).drop_last() =~= urls + more.drop_last());
        assert((urls + more).last() == more.last());
        assert(kept_urls(urls + more) =~= kept_urls(urls) + kept_urls(more));
    }
}

/// A job that has just been started runs, is at its first url, has logged
/// nothing, has no summary and has not ended; it is for the script and the urls
/// of the request.
pub proof fn a_started_job_has_done_nothing(
    id: Seq<char>,
    script: Seq<char>,
    urls: Seq<Seq<char>>,
    time: Seq<char>,
)
    ensures
        ({
            let job = fresh_job(id, script, urls, time);
            &&& job.status is Running
            &&& job.current_index == Some(0usize)
            &&& job.log.len() == 0
            &&& job.summary is None
            &&& job.finished_at is None
            &&& job.id == id && job.script == script && job.urls == urls && job.started_at == time
        }),
{
}

/// Whatever happens to a job, it stays the same job: its id, its script, its
/// urls and its start are kept, and no line of its log is lost.
pub proof fn a_job_stays_the_same_job(
    job: JobView,
    line: Seq<char>,
    index: usize,
    url: Seq<char>,
    complaint: Option<Seq<char>>,
    failed: bool,
    import: Result<ImportStats, String>,
    time: Seq<char>,
)
    ensures
        forall|next: JobView|
            next == job.logged(line) || next == job.download_started(index, job.urls.len(), url)
                || next == job.download_ended(complaint) || next == job.import_started() || next
                == job.import_ended(failed, import, time) ==> #[trigger] same_job(job, next),
        job.logged(line).log == job.log.push(line),
        job.logged(line) == (JobView { log: job.log.push(line), ..job }),
        job.download_started(index, job.urls.len(), url).current_index == Some(index),
        job.download_started(index, job.urls.len(), url).status == job.status,
        job.download_ended(complaint).status == job.status,
        job.download_ended(complaint).current_index == job.current_index,
        job.import_started().current_index is None,
        job.import_started().status == job.status,
        job.import_ended(failed, import, time).finished_at == Some(time),
{
}

/// Whether `next` is the job `job` later on.
pub open spec fn same_job(job: JobView, next: JobView) -> bool {
    &&& next.id == job.id
    &&& next.script == job.script
    &&& next.urls == job.urls
    &&& next.started_at == job.started_at
    &&& job.log.is_prefix_of(next.log)
}

/// The log tells each download: which of how many it is, its url, what its
/// script wrote, and then what went wrong, if anything did.
pub proof fn the_log_tells_each_download(job: JobView, downloads: Seq<Download>, download: Download)
    requires
        downloads.len() < job.urls.len() <= usize::MAX,
    ensures
        ({
            let before = after_downloads(job, downloads);
            let after = after_downloads(job, downloads.push(download));
            let n = decimal(downloads.len() + 1);
            let total = decimal(job.urls.len());
            let told = "=== ["@ + n + "/"@ + total + "] "@ + job.urls[downloads.len() as int]
                + " ==="@;
            &&& all_digits(n) && digits_value(n) == downloads.len() + 1
            &&& all_digits(total) && digits_value(total) == job.urls.len()
            &&& after.log == before.log + seq![told] + download.lines + match download.complaint {
                Some(line) => seq![line],
                None => seq![],
            }
        }),
{
    digits_write_the_number(downloads.len() + 1);
    digits_write_the_number(job.urls.len());
    let all = downloads.push(download);
    assert(all.drop_last() =~= downloads);
    let before = after_downloads(job, downloads);
    let after = after_downloads(job, all);
    let told = heading(downloads.len(), job.urls.len(), job.urls[downloads.len() as int]);
    assert(told =~= "=== ["@ + decimal(downloads.len() + 1) + "/"@ + decimal(job.urls.len()) + "] "@
        + job.urls[downloads.len() as int] + " ==="@);
    assert(after.log =~= before.log + seq![told] + download.lines + match download.complaint {
        Some(line) => seq![line],
        None => seq![],
    });
}

/// The log ends with the import: that it began, and its counts or why it failed.
/// The summary has the same counts.
pub proof fn the_log_tells_the_import(
    job: JobView,
    failed: bool,
    stats: ImportStats,
    reason: String,
    time: Seq<char>,
)
    ensures
        ({
            let began = job.log.push("=== importing downloaded files ==="@);
            let done = job.import_started().import_ended(failed, Ok(stats), time);
            let broken = job.import_started().import_ended(failed, Err(reason), time);
            &&& done.log == began.push(counts_line(stats@))
            &&& done.summary matches Some(counts) && counts.scanned == stats.scanned
                && counts.imported == stats.imported && counts.duplicates == stats.duplicates
                && counts.failed == stats.failed
            &&& done.status == if failed {
                JobStatus::Failed
            } else {
                JobStatus::Completed
            }
            &&& broken.log == began.push("import failed: "@ + reason@)
            &&& broken.summary is None
            &&& broken.status is Failed
        }),
{
}

/// A download that did not succeed is complained of, with the reason that was
/// given; one that succeeded is not.
pub proof fn failures_are_told_with_their_reason(end: DownloadEnd, text: String)
    ensures
        end@ is None <==> end is Succeeded,
        (DownloadEnd::NoDirectory { reason: text })@ == Some(
            "failed to create download dir: "@ + text@,
        ),
        (DownloadEnd::NotStarted { reason: text })@ == Some("failed to start script: "@ + text@),
        (DownloadEnd::Exited { status: text })@ == Some("script exited with "@ + text@),
        (DownloadEnd::NotAwaited { reason: text })@ == Some(
            "failed to wait on script: "@ + text@,
        ),
{
}

} // verus!
