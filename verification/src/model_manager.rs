//! Where the speech model lives on disk, whether it is complete, and the
//! protocol by which its files are downloaded.
//!
//! The download alternates outside work (creating directories and files,
//! HTTP requests, reading the response body, writing and renaming files) with
//! decisions. The decisions are [`ModelManager::download_step`]: from the
//! current [`DownloadState`] and the [`DownloadEvent`] that reports how the
//! last piece of outside work went, it gives the next state and the next
//! [`DownloadStep`]: a progress report to send, if any, and the next piece of
//! outside work to do.

use vstd::prelude::*;
use crate::error::AppError;
use crate::paths::{join_path, last_dot, lemma_last_dot_bounds, path_join, replace_extension, with_extension};

verus! {

/// Number of files that make up the model.
pub const MODEL_FILE_COUNT: usize = 4;

/// Where the model files are downloaded from.
pub open spec fn hf_base() -> Seq<char> {
    "https://huggingface.co/istupakov/parakeet-tdt-0.6b-v2-onnx/resolve/main"@
}

/// The name of model file `i`.
pub open spec fn model_file_name(i: int) -> Seq<char> {
    if i == 0 {
        "encoder-model.onnx"@
    } else if i == 1 {
        "encoder-model.onnx.data"@
    } else if i == 2 {
        "decoder_joint-model.onnx"@
    } else {
        "vocab.txt"@
    }
}

/// The model directory inside the application's data directory.
pub open spec fn model_dir_in(app_data_dir: Seq<char>) -> Seq<char> {
    path_join(path_join(app_data_dir, "models"@), "parakeet-tdt-0.6b-v2"@)
}

/// The separator put between a directory and a relative name: none after an
/// empty directory or one that already ends with `'/'`, else `'/'`.
pub open spec fn dir_separator(dir: Seq<char>) -> Seq<char> {
    if dir.len() == 0 || dir.last() == '/' {
        Seq::empty()
    } else {
        seq!['/']
    }
}

/// The model directory is the application's data directory, unchanged,
/// followed by the relative path `models/parakeet-tdt-0.6b-v2`.
pub proof fn lemma_model_dir_under_data_dir(app_data_dir: Seq<char>)
    ensures
        model_dir_in(app_data_dir) == app_data_dir + dir_separator(app_data_dir)
            + "models/parakeet-tdt-0.6b-v2"@,
        model_dir_in(app_data_dir).take(app_data_dir.len() as int) == app_data_dir,
{
    reveal_strlit("models");
    reveal_strlit("parakeet-tdt-0.6b-v2");
    reveal_strlit("models/parakeet-tdt-0.6b-v2");
    let models = path_join(app_data_dir, "models"@);
    assert(models == app_data_dir + dir_separator(app_data_dir) + "models"@);
    assert(models.len() > 0 && models.last() == 's');
    assert(model_dir_in(app_data_dir) =~= app_data_dir + dir_separator(app_data_dir)
        + "models/parakeet-tdt-0.6b-v2"@);
    assert(model_dir_in(app_data_dir).take(app_data_dir.len() as int) =~= app_data_dir);
}

/// The path of model file `i` inside the model directory `dir`.
pub open spec fn model_file_path(dir: Seq<char>, i: int) -> Seq<char> {
    path_join(dir, model_file_name(i))
}

/// The path under which model file `i` is written while it downloads: its
/// final path with the extension replaced by `part`.
pub open spec fn partial_file_path(dir: Seq<char>, i: int) -> Seq<char> {
    path_join(dir, with_extension(model_file_name(i), "part"@))
}

/// The address from which model file `i` is downloaded.
pub open spec fn model_file_url(i: int) -> Seq<char> {
    hf_base() + "/"@ + model_file_name(i)
}

/// The name of model file `i`.
pub fn model_file(i: usize) -> (name: &'static str)
    requires
        i < MODEL_FILE_COUNT,
    ensures
        name@ == model_file_name(i as int),
{
    if i == 0 {
        "encoder-model.onnx"
    } else if i == 1 {
        "encoder-model.onnx.data"
    } else if i == 2 {
        "decoder_joint-model.onnx"
    } else {
        "vocab.txt"
    }
}

/// The address from which model file `i` is downloaded.
pub fn file_url(i: usize) -> (url: String)
    requires
        i < MODEL_FILE_COUNT,
    ensures
        url@ == model_file_url(i as int),
{
    let mut url = String::from_str(
        "https://huggingface.co/istupakov/parakeet-tdt-0.6b-v2-onnx/resolve/main",
    );
    url.append("/");
    url.append(model_file(i));
    url
}

/// Whether something exists at `path` (`Path::exists`).
///
/// Trusted, with no contract: the answer depends on what is on disk.
#[verifier::external_body]
fn path_exists(path: &str) -> bool {
    std::path::Path::new(path).exists()
}

/// Where the model is kept.
pub struct ModelManager {
    model_dir: String,
}

impl View for ModelManager {
    type V = Seq<char>;

    /// The model directory.
    closed spec fn view(&self) -> Seq<char> {
        self.model_dir@
    }
}

/// Whether every model file was found.
pub open spec fn all_present(present: Seq<bool>) -> bool {
    forall|i: int| 0 <= i < present.len() ==> #[trigger] present[i]
}

/// The model is ready exactly when every one of its files is present.
pub fn ready_from_presence(present: &Vec<bool>) -> (ready: bool)
    ensures
        ready == all_present(present@),
{
    let mut i: usize = 0;
    while i < present.len()
        invariant
            i <= present@.len(),
            forall|k: int| 0 <= k < i ==> #[trigger] present@[k],
        decreases present@.len() - i,
    {
        if !present[i] {
            return false;
        }
        i = i + 1;
    }
    true
}

impl ModelManager {
    /// The manager of the model kept under the application's data directory
    /// `app_data_dir`, in `models/parakeet-tdt-0.6b-v2`.
    pub fn new(app_data_dir: &str) -> (m: Self)
        ensures
            m@ == model_dir_in(app_data_dir@),
            m@ == app_data_dir@ + dir_separator(app_data_dir@) + "models/parakeet-tdt-0.6b-v2"@,
    {
        proof {
            lemma_model_dir_under_data_dir(app_data_dir@);
        }
        let models = join_path(app_data_dir, "models");
        let dir = join_path(models.as_str(), "parakeet-tdt-0.6b-v2");
        ModelManager { model_dir: dir }
    }

    /// The model directory.
    pub fn model_dir(&self) -> (dir: &str)
        ensures
            dir@ == self@,
    {
        self.model_dir.as_str()
    }

    /// The path of model file `i`.
    pub fn file_path(&self, i: usize) -> (path: String)
        requires
            i < MODEL_FILE_COUNT,
        ensures
            path@ == model_file_path(self@, i as int),
    {
        join_path(self.model_dir.as_str(), model_file(i))
    }

    /// The path under which model file `i` is written while it downloads.
    pub fn partial_path(&self, i: usize) -> (path: String)
        requires
            i < MODEL_FILE_COUNT,
        ensures
            path@ == partial_file_path(self@, i as int),
    {
        let name = replace_extension(model_file(i), "part");
        join_path(self.model_dir.as_str(), name.as_str())
    }

    /// The paths of all model files, in order.
    pub fn file_paths(&self) -> (paths: Vec<String>)
        ensures
            paths@.len() == MODEL_FILE_COUNT,
            forall|i: int| 0 <= i < MODEL_FILE_COUNT ==> #[trigger] paths@[i]@ == model_file_path(self@, i),
    {
        let mut paths: Vec<String> = Vec::new();
        let mut i: usize = 0;
        while i < MODEL_FILE_COUNT
            invariant
                i <= MODEL_FILE_COUNT,
                paths@.len() == i,
                forall|k: int| 0 <= k < i ==> #[trigger] paths@[k]@ == model_file_path(self@, k),
            decreases MODEL_FILE_COUNT - i,
        {
            paths.push(self.file_path(i));
            i = i + 1;
        }
        paths
    }

    /// Whether every model file is present, as the lookup `probe` tells it:
    /// each of [`ModelManager::file_paths`] is looked up in order until one is
    /// missing. The answer is true only if the lookup found every model file,
    /// and false only if it missed one of them.
    pub fn ready_by<F: Fn(&str) -> bool>(&self, probe: F) -> (ready: bool)
        requires
            forall|p: &str| call_requires(probe, (p,)),
        ensures
            ready ==> forall|i: int|
                0 <= i < MODEL_FILE_COUNT ==> #[trigger] lookup_answered(probe, model_file_path(self@, i), true),
            !ready ==> exists|i: int|
                0 <= i < MODEL_FILE_COUNT && #[trigger] lookup_answered(probe, model_file_path(self@, i), false),
    {
        let paths = self.file_paths();
        let mut i: usize = 0;
        while i < paths.len()
            invariant
                paths@.len() == MODEL_FILE_COUNT,
                forall|k: int| 0 <= k < MODEL_FILE_COUNT ==> #[trigger] paths@[k]@ == model_file_path(self@, k),
                forall|p: &str| call_requires(probe, (p,)),
                i <= paths@.len(),
                forall|k: int| 0 <= k < i ==> #[trigger] lookup_answered(probe, model_file_path(self@, k), true),
            decreases paths@.len() - i,
        {
            let path = paths[i].as_str();
            let found = probe(path);
            assert(lookup_answered(probe, model_file_path(self@, i as int), found));
            if !found {
                return false;
            }
            i = i + 1;
        }
        true
    }

    /// Whether every model file is on disk: each of
    /// [`ModelManager::file_paths`] is looked up with [`path_exists`], in
    /// order, until one is missing (see [`ModelManager::ready_by`]).
    pub fn is_ready(&self) -> (ready: bool)
        ensures
            ready ==> forall|i: int|
                0 <= i < MODEL_FILE_COUNT ==> #[trigger] disk_lookup_answered(model_file_path(self@, i), true),
            !ready ==> exists|i: int|
                0 <= i < MODEL_FILE_COUNT && #[trigger] disk_lookup_answered(model_file_path(self@, i), false),
    {
        let ready = self.ready_by(path_exists);
        proof {
            if !ready {
                let i = choose|i: int|
                    0 <= i < MODEL_FILE_COUNT && #[trigger] lookup_answered(
                        path_exists,
                        model_file_path(self@, i),
                        false,
                    );
                assert(disk_lookup_answered(model_file_path(self@, i), false));
            }
        }
        ready
    }
}

/// The disk lookup [`path_exists`], asked about a path with the text
/// `path`, answered `found`.
pub closed spec fn disk_lookup_answered(path: Seq<char>, found: bool) -> bool {
    lookup_answered(path_exists, path, found)
}

/// The lookup `probe`, asked about a path with the text `path`, answered
/// `found`.
pub open spec fn lookup_answered<F: Fn(&str) -> bool>(probe: F, path: Seq<char>, found: bool) -> bool {
    exists|p: &str| p@ == path && #[trigger] call_ensures(probe, (p,), found)
}

/// Where a model download stands.
#[derive(Debug, Clone, Copy, PartialEq, Eq, Structural)]
pub enum DownloadState {
    /// The model directory is being created.
    CreatingDir,
    /// Looking whether model file `index` is already on disk.
    Checking { index: usize },
    /// Waiting for the answer to the request for model file `index`.
    Requesting { index: usize },
    /// Creating the partial file of model file `index`, whose announced size
    /// is `total`.
    CreatingFile { index: usize, total: Option<u64> },
    /// Reading the body of model file `index`; `downloaded` bytes of it are
    /// written.
    Receiving { index: usize, downloaded: u64, total: Option<u64> },
    /// Writing a piece of `chunk_len` bytes of model file `index`.
    Writing { index: usize, downloaded: u64, total: Option<u64>, chunk_len: u64 },
    /// Moving the complete partial file of model file `index` to its place.
    Renaming { index: usize },
    /// The download is over, one way or the other.
    Finished,
}

/// The answer of the server to the request for a model file: whether its
/// status is a success, the status as text, and the announced body length.
pub struct HttpReply {
    pub success: bool,
    pub status: String,
    pub content_length: Option<u64>,
}

/// How the last piece of outside work went. An `Err` carries the text of the
/// error that occurred.
pub enum DownloadEvent {
    DirCreated(Result<(), String>),
    /// Whether the model file is already on disk.
    Checked(bool),
    Replied(Result<HttpReply, String>),
    FileCreated(Result<(), String>),
    /// The next piece of the body: its length, an error, or `None` at the end.
    ChunkRead(Option<Result<u64, String>>),
    ChunkWritten(Result<(), String>),
    Renamed(Result<(), String>),
}

/// Progress of the download of one model file. `already_present` marks a
/// file that was found on disk and skipped.
pub struct DownloadReport {
    pub file: String,
    pub file_index: usize,
    pub total_files: usize,
    pub bytes_downloaded: u64,
    pub total_bytes: Option<u64>,
    pub already_present: bool,
}

/// The next piece of outside work.
pub enum DownloadAction {
    CreateDir { path: String },
    CheckExists { path: String },
    Request { url: String },
    CreateFile { path: String },
    /// Read the next piece of the response body.
    ReadChunk,
    /// Write the piece just read to the partial file.
    WriteChunk,
    Rename { from: String, to: String },
    /// Stop, with this outcome.
    Finish(Result<(), AppError>),
}

/// What to do next: send `report` if there is one, then do `action`.
pub struct DownloadStep {
    pub report: Option<DownloadReport>,
    pub action: DownloadAction,
}

/// The file that a state is about, where there is one.
pub open spec fn state_index(state: DownloadState) -> Option<usize> {
    match state {
        DownloadState::CreatingDir => None,
        DownloadState::Checking { index } => Some(index),
        DownloadState::Requesting { index } => Some(index),
        DownloadState::CreatingFile { index, .. } => Some(index),
        DownloadState::Receiving { index, .. } => Some(index),
        DownloadState::Writing { index, .. } => Some(index),
        DownloadState::Renaming { index } => Some(index),
        DownloadState::Finished => None,
    }
}

/// A state that names an existing model file.
pub open spec fn state_wf(state: DownloadState) -> bool {
    state_index(state) matches Some(i) ==> i < MODEL_FILE_COUNT
}

/// Whether `event` answers the work that `state` waits for, and the bytes
/// written so far still fit in a `u64`.
pub open spec fn event_fits(state: DownloadState, event: DownloadEvent) -> bool {
    match state {
        DownloadState::CreatingDir => event is DirCreated,
        DownloadState::Checking { .. } => event is Checked,
        DownloadState::Requesting { .. } => event is Replied,
        DownloadState::CreatingFile { .. } => event is FileCreated,
        DownloadState::Receiving { .. } => event is ChunkRead,
        DownloadState::Writing { downloaded, chunk_len, .. } => {
            &&& event is ChunkWritten
            &&& downloaded + chunk_len <= u64::MAX
        },
        DownloadState::Renaming { .. } => event is Renamed,
        DownloadState::Finished => false,
    }
}

/// The step stops the download with `DownloadError(message)`.
pub open spec fn fails_with(next: DownloadState, step: DownloadStep, message: Seq<char>) -> bool {
    &&& next == DownloadState::Finished
    &&& step.report is None
    &&& step.action matches DownloadAction::Finish(Err(AppError::DownloadError(m)))
    &&& m@ == message
}

/// The step goes on with model file `i`: it looks whether it is on disk.
pub open spec fn checks_file(dir: Seq<char>, next: DownloadState, step: DownloadStep, i: int) -> bool {
    &&& next == DownloadState::Checking { index: i as usize }
    &&& step.action matches DownloadAction::CheckExists { path }
    &&& path@ == model_file_path(dir, i)
}

/// After model file `i`, the download goes on with the next file, or ends
/// successfully after the last one.
pub open spec fn after_file(dir: Seq<char>, next: DownloadState, step: DownloadStep, i: int) -> bool {
    if i + 1 < MODEL_FILE_COUNT {
        checks_file(dir, next, step, i + 1)
    } else {
        &&& next == DownloadState::Finished
        &&& step.action matches DownloadAction::Finish(Ok(()))
    }
}

/// `report` is the progress report for model file `i`.
pub open spec fn reports(
    report: Option<DownloadReport>,
    i: int,
    downloaded: u64,
    total: Option<u64>,
    already_present: bool,
) -> bool {
    &&& report matches Some(r)
    &&& r.file@ == model_file_name(i)
    &&& r.file_index == i
    &&& r.total_files == MODEL_FILE_COUNT
    &&& r.bytes_downloaded == downloaded
    &&& r.total_bytes == total
    &&& r.already_present == already_present
}

/// The download protocol: how each event moves the download on, for the model
/// directory `dir`.
pub open spec fn download_transition(
    dir: Seq<char>,
    state: DownloadState,
    event: DownloadEvent,
    next: DownloadState,
    step: DownloadStep,
) -> bool {
    match state {
        DownloadState::CreatingDir => match event {
            DownloadEvent::DirCreated(Ok(())) => step.report is None && checks_file(dir, next, step, 0),
            DownloadEvent::DirCreated(Err(e)) => fails_with(next, step, "Cannot create model dir: "@ + e@),
            _ => false,
        },
        DownloadState::Checking { index } => match event {
            DownloadEvent::Checked(true) => {
                &&& reports(step.report, index as int, 0, Some(0), true)
                &&& after_file(dir, next, step, index as int)
            },
            DownloadEvent::Checked(false) => {
                &&& next == DownloadState::Requesting { index }
                &&& step.report is None
                &&& step.action matches DownloadAction::Request { url }
                &&& url@ == model_file_url(index as int)
            },
            _ => false,
        },
        DownloadState::Requesting { index } => match event {
            DownloadEvent::Replied(Err(e)) => fails_with(
                next,
                step,
                "Request failed for "@ + model_file_name(index as int) + ": "@ + e@,
            ),
            DownloadEvent::Replied(Ok(reply)) => if reply.success {
                &&& next == DownloadState::CreatingFile { index, total: reply.content_length }
                &&& step.report is None
                &&& step.action matches DownloadAction::CreateFile { path }
                &&& path@ == partial_file_path(dir, index as int)
            } else {
                fails_with(
                    next,
                    step,
                    "HTTP "@ + reply.status@ + " for "@ + model_file_name(index as int),
                )
            },
            _ => false,
        },
        DownloadState::CreatingFile { index, total } => match event {
            DownloadEvent::FileCreated(Ok(())) => {
                &&& next == DownloadState::Receiving { index, downloaded: 0, total }
                &&& step.report is None
                &&& step.action is ReadChunk
            },
            DownloadEvent::FileCreated(Err(e)) => fails_with(next, step, "Cannot create file: "@ + e@),
            _ => false,
        },
        DownloadState::Receiving { index, downloaded, total } => match event {
            DownloadEvent::ChunkRead(None) => {
                &&& next == DownloadState::Renaming { index }
                &&& step.report is None
                &&& step.action matches DownloadAction::Rename { from, to }
                &&& from@ == partial_file_path(dir, index as int)
                &&& to@ == model_file_path(dir, index as int)
            },
            DownloadEvent::ChunkRead(Some(Err(e))) => fails_with(next, step, "Stream error: "@ + e@),
            DownloadEvent::ChunkRead(Some(Ok(len))) => {
                &&& next == DownloadState::Writing { index, downloaded, total, chunk_len: len }
                &&& step.report is None
                &&& step.action is WriteChunk
            },
            _ => false,
        },
        DownloadState::Writing { index, downloaded, total, chunk_len } => match event {
            DownloadEvent::ChunkWritten(Ok(())) => {
                &&& next == DownloadState::Receiving {
                    index,
                    downloaded: (downloaded + chunk_len) as u64,
                    total,
                }
                &&& reports(step.report, index as int, (downloaded + chunk_len) as u64, total, false)
                &&& step.action is ReadChunk
            },
            DownloadEvent::ChunkWritten(Err(e)) => fails_with(next, step, "Write error: "@ + e@),
            _ => false,
        },
        DownloadState::Renaming { index } => match event {
            DownloadEvent::Renamed(Ok(())) => step.report is None && after_file(dir, next, step, index as int),
            DownloadEvent::Renamed(Err(e)) => fails_with(next, step, "Rename error: "@ + e@),
            _ => false,
        },
        DownloadState::Finished => false,
    }
}

/// Whether `event` answers the work that `state` waits for (see
/// [`event_fits`]).
pub fn event_fits_state(state: &DownloadState, event: &DownloadEvent) -> (fits: bool)
    ensures
        fits == event_fits(*state, *event),
{
    match state {
        DownloadState::CreatingDir => matches!(event, DownloadEvent::DirCreated(_)),
        DownloadState::Checking { .. } => matches!(event, DownloadEvent::Checked(_)),
        DownloadState::Requesting { .. } => matches!(event, DownloadEvent::Replied(_)),
        DownloadState::CreatingFile { .. } => matches!(event, DownloadEvent::FileCreated(_)),
        DownloadState::Receiving { .. } => matches!(event, DownloadEvent::ChunkRead(_)),
        DownloadState::Writing { downloaded, chunk_len, .. } => {
            matches!(event, DownloadEvent::ChunkWritten(_)) && *chunk_len <= u64::MAX - *downloaded
        },
        DownloadState::Renaming { .. } => matches!(event, DownloadEvent::Renamed(_)),
        DownloadState::Finished => false,
    }
}

fn download_error(prefix: &str, detail: &str) -> (e: AppError)
    ensures
        e matches AppError::DownloadError(m) && m@ == prefix@ + detail@,
{
    let mut m = String::from_str(prefix);
    m.append(detail);
    AppError::DownloadError(m)
}

fn fail(prefix: &str, detail: &str) -> (r: (DownloadState, DownloadStep))
    ensures
        fails_with(r.0, r.1, prefix@ + detail@),
{
    (DownloadState::Finished, DownloadStep { report: None, action: DownloadAction::Finish(Err(download_error(prefix, detail))) })
}

impl ModelManager {
    /// The first step of a download: create the model directory.
    pub fn start_download(&self) -> (r: (DownloadState, DownloadStep))
        ensures
            r.0 == DownloadState::CreatingDir,
            r.1.report is None,
            r.1.action matches DownloadAction::CreateDir { path } && path@ == self@,
    {
        (
            DownloadState::CreatingDir,
            DownloadStep {
                report: None,
                action: DownloadAction::CreateDir { path: self.model_dir.clone() },
            },
        )
    }

    fn after_file_step(&self, i: usize, report: Option<DownloadReport>) -> (r: (DownloadState, DownloadStep))
        requires
            i < MODEL_FILE_COUNT,
        ensures
            after_file(self@, r.0, r.1, i as int),
            r.1.report == report,
    {
        if i + 1 < MODEL_FILE_COUNT {
            (
                DownloadState::Checking { index: i + 1 },
                DownloadStep { report, action: DownloadAction::CheckExists { path: self.file_path(i + 1) } },
            )
        } else {
            (DownloadState::Finished, DownloadStep { report, action: DownloadAction::Finish(Ok(())) })
        }
    }

    /// The next state and step of the download after `event` (see
    /// [`download_transition`]).
    pub fn download_step(&self, state: DownloadState, event: DownloadEvent) -> (r: (DownloadState, DownloadStep))
        requires
            state_wf(state),
            event_fits(state, event),
        ensures
            download_transition(self@, state, event, r.0, r.1),
            state_wf(r.0),
    {
        match state {
            DownloadState::CreatingDir => match event {
                DownloadEvent::DirCreated(Ok(())) => (
                    DownloadState::Checking { index: 0 },
                    DownloadStep { report: None, action: DownloadAction::CheckExists { path: self.file_path(0) } },
                ),
                DownloadEvent::DirCreated(Err(e)) => fail("Cannot create model dir: ", e.as_str()),
                _ => unreached(),
            },
            DownloadState::Checking { index } => match event {
                DownloadEvent::Checked(true) => {
                    let report = DownloadReport {
                        file: String::from_str(model_file(index)),
                        file_index: index,
                        total_files: MODEL_FILE_COUNT,
                        bytes_downloaded: 0,
                        total_bytes: Some(0),
                        already_present: true,
                    };
                    self.after_file_step(index, Some(report))
                },
                DownloadEvent::Checked(false) => (
                    DownloadState::Requesting { index },
                    DownloadStep { report: None, action: DownloadAction::Request { url: file_url(index) } },
                ),
                _ => unreached(),
            },
            DownloadState::Requesting { index } => match event {
                DownloadEvent::Replied(Err(e)) => {
                    let mut detail = String::from_str(model_file(index));
                    detail.append(": ");
                    detail.append(e.as_str());
                    let r = fail("Request failed for ", detail.as_str());
                    proof {
                        assert(("Request failed for "@ + detail@) =~= ("Request failed for "@
                            + model_file_name(index as int) + ": "@ + e@));
                    }
                    r
                },
                DownloadEvent::Replied(Ok(reply)) => {
                    if reply.success {
                        (
                            DownloadState::CreatingFile { index, total: reply.content_length },
                            DownloadStep { report: None, action: DownloadAction::CreateFile { path: self.partial_path(index) } },
                        )
                    } else {
                        let mut detail = reply.status;
                        detail.append(" for ");
                        detail.append(model_file(index));
                        let r = fail("HTTP ", detail.as_str());
                        proof {
                            assert(("HTTP "@ + detail@) =~= ("HTTP "@ + reply.status@ + " for "@
                                + model_file_name(index as int)));
                        }
                        r
                    }
                },
                _ => unreached(),
            },
            DownloadState::CreatingFile { index, total } => match event {
                DownloadEvent::FileCreated(Ok(())) => (
                    DownloadState::Receiving { index, downloaded: 0, total },
                    DownloadStep { report: None, action: DownloadAction::ReadChunk },
                ),
                DownloadEvent::FileCreated(Err(e)) => fail("Cannot create file: ", e.as_str()),
                _ => unreached(),
            },
            DownloadState::Receiving { index, downloaded, total } => match event {
                DownloadEvent::ChunkRead(None) => (
                    DownloadState::Renaming { index },
                    DownloadStep {
                        report: None,
                        action: DownloadAction::Rename { from: self.partial_path(index), to: self.file_path(index) },
                    },
                ),
                DownloadEvent::ChunkRead(Some(Err(e))) => fail("Stream error: ", e.as_str()),
                DownloadEvent::ChunkRead(Some(Ok(len))) => (
                    DownloadState::Writing { index, downloaded, total, chunk_len: len },
                    DownloadStep { report: None, action: DownloadAction::WriteChunk },
                ),
                _ => unreached(),
            },
            DownloadState::Writing { index, downloaded, total, chunk_len } => match event {
                DownloadEvent::ChunkWritten(Ok(())) => {
                    let now = downloaded + chunk_len;
                    let report = DownloadReport {
                        file: String::from_str(model_file(index)),
                        file_index: index,
                        total_files: MODEL_FILE_COUNT,
                        bytes_downloaded: now,
                        total_bytes: total,
                        already_present: false,
                    };
                    (
                        DownloadState::Receiving { index, downloaded: now, total },
                        DownloadStep { report: Some(report), action: DownloadAction::ReadChunk },
                    )
                },
                DownloadEvent::ChunkWritten(Err(e)) => fail("Write error: ", e.as_str()),
                _ => unreached(),
            },
            DownloadState::Renaming { index } => match event {
                DownloadEvent::Renamed(Ok(())) => self.after_file_step(index, None),
                DownloadEvent::Renamed(Err(e)) => fail("Rename error: ", e.as_str()),
                _ => unreached(),
            },
            DownloadState::Finished => unreached(),
        }
    }
}

/// A model file found on disk is reported as present and never requested
/// again.
pub proof fn lemma_present_file_is_skipped(
    dir: Seq<char>,
    i: usize,
    next: DownloadState,
    step: DownloadStep,
)
    requires
        download_transition(dir, DownloadState::Checking { index: i }, DownloadEvent::Checked(true), next, step),
    ensures
        step.report matches Some(r) && r.already_present && r.file_index == i,
        !(step.action is Request),
        !(next is Requesting),
{
}

/// The download succeeds only once the last model file is in place (or was
/// already there), and every error ends it.
pub proof fn lemma_outcome(
    dir: Seq<char>,
    state: DownloadState,
    event: DownloadEvent,
    next: DownloadState,
    step: DownloadStep,
)
    requires
        state_wf(state),
        download_transition(dir, state, event, next, step),
    ensures
        step.action matches DownloadAction::Finish(Ok(())) ==> state_index(state) == Some(
            (MODEL_FILE_COUNT - 1) as usize,
        ),
        step.action is Finish ==> next == DownloadState::Finished,
        next == DownloadState::Finished ==> step.action is Finish,
{
}

/// Once finished, a download takes no further event.
pub proof fn lemma_finished_is_final(event: DownloadEvent)
    ensures
        !event_fits(DownloadState::Finished, event),
{
}

/// Files are fetched in order: a step stays with the same model file or moves
/// to the next one.
pub proof fn lemma_files_in_order(
    dir: Seq<char>,
    state: DownloadState,
    event: DownloadEvent,
    next: DownloadState,
    step: DownloadStep,
)
    requires
        download_transition(dir, state, event, next, step),
    ensures
        state is CreatingDir && next != DownloadState::Finished ==> state_index(next) == Some(0usize),
        state_index(state) matches Some(i) ==> (state_index(next) matches Some(j) ==> (j == i || j
            == i + 1)),
{
}

/// Every model file, and the partial file it is downloaded into, lies inside
/// the model directory.
pub proof fn lemma_model_files_inside_dir(dir: Seq<char>, i: int)
    requires
        0 <= i < MODEL_FILE_COUNT,
    ensures
        model_file_path(dir, i).take(dir.len() as int) == dir,
        partial_file_path(dir, i).take(dir.len() as int) == dir,
        model_file_path(dir, i).len() > dir.len(),
        partial_file_path(dir, i).len() > dir.len(),
{
    reveal_strlit("encoder-model.onnx");
    reveal_strlit("encoder-model.onnx.data");
    reveal_strlit("decoder_joint-model.onnx");
    reveal_strlit("vocab.txt");
    reveal_strlit("part");
    let name = model_file_name(i);
    let part = with_extension(name, "part"@);
    assert(name.len() > 0 && name[0] != '/');
    let k = last_dot(name);
    lemma_last_dot_bounds(name);
    if k > 0 {
        assert(name.take(k)[0] == name[0]);
        assert(part[0] == name.take(k)[0]);
    } else {
        assert(part[0] == name[0]);
    }
    assert(path_join(dir, name).take(dir.len() as int) =~= dir);
    assert(path_join(dir, part).take(dir.len() as int) =~= dir);
}

/// A model file is downloaded under another name than its own, so that a
/// file found under its own name is always complete.
pub proof fn lemma_partial_file_differs(dir: Seq<char>, i: int)
    requires
        0 <= i < MODEL_FILE_COUNT,
    ensures
        partial_file_path(dir, i) != model_file_path(dir, i),
{
    reveal_strlit("encoder-model.onnx");
    reveal_strlit("encoder-model.onnx.data");
    reveal_strlit("decoder_joint-model.onnx");
    reveal_strlit("vocab.txt");
    reveal_strlit("part");
    reveal_with_fuel(last_dot, 12);
    let name = model_file_name(i);
    let part = with_extension(name, "part"@);
    let k = dir.len() + if dir.len() == 0 || dir.last() == '/' { 0int } else { 1int };
    let full = model_file_path(dir, i);
    let partial = partial_file_path(dir, i);
    assert(full.skip(k) =~= name);
    assert(partial.skip(k) =~= part);
    if i == 0 {
        assert(last_dot(name) == 13);
        assert(part[14] != name[14]);
    } else if i == 1 {
        assert(last_dot(name) == 18);
        assert(part[19] != name[19]);
    } else if i == 2 {
        assert(last_dot(name) == 19);
        assert(part[20] != name[20]);
    } else {
        assert(last_dot(name) == 5);
        assert(part.len() != name.len());
    }
    assert(part != name);
}

/// Step `k` of a run is the transition from `states[k]` on `events[k]` to
/// `states[k + 1]` with `steps[k]`.
pub open spec fn run_step(
    dir: Seq<char>,
    states: Seq<DownloadState>,
    events: Seq<DownloadEvent>,
    steps: Seq<DownloadStep>,
    k: int,
) -> bool {
    download_transition(dir, states[k], events[k], states[k + 1], steps[k])
}

/// `states`, `events` and `steps` make a run of the download from its start:
/// each event moves the download on by the protocol.
pub open spec fn is_download_run(
    dir: Seq<char>,
    states: Seq<DownloadState>,
    events: Seq<DownloadEvent>,
    steps: Seq<DownloadStep>,
) -> bool {
    &&& states.len() == events.len() + 1
    &&& steps.len() == events.len()
    &&& states[0] == DownloadState::CreatingDir
    &&& forall|k: int| 0 <= k < events.len() ==> #[trigger] run_step(dir, states, events, steps, k)
}

/// At step `k` of a run, model file `i` was secured: either it was looked
/// for at its path and found there, or its partial file was renamed to its
/// path without error.
pub open spec fn file_secured(
    dir: Seq<char>,
    states: Seq<DownloadState>,
    events: Seq<DownloadEvent>,
    steps: Seq<DownloadStep>,
    k: int,
    i: int,
) -> bool {
    &&& 0 < k
    &&& {
        ||| {
            &&& states[k] == DownloadState::Checking { index: i as usize }
            &&& steps[k - 1].action matches DownloadAction::CheckExists { path }
            &&& path@ == model_file_path(dir, i)
            &&& events[k] matches DownloadEvent::Checked(true)
        }
        ||| {
            &&& states[k] == DownloadState::Renaming { index: i as usize }
            &&& steps[k - 1].action matches DownloadAction::Rename { from, to }
            &&& to@ == model_file_path(dir, i)
            &&& events[k] matches DownloadEvent::Renamed(Ok(()))
        }
    }
}

/// Model file `i` was secured at some step before step `n`.
pub open spec fn secured_before(
    dir: Seq<char>,
    states: Seq<DownloadState>,
    events: Seq<DownloadEvent>,
    steps: Seq<DownloadStep>,
    n: int,
    i: int,
) -> bool {
    exists|k: int| 0 <= k < n && #[trigger] file_secured(dir, states, events, steps, k, i)
}

proof fn lemma_run_prefix(
    dir: Seq<char>,
    states: Seq<DownloadState>,
    events: Seq<DownloadEvent>,
    steps: Seq<DownloadStep>,
    n: int,
)
    requires
        is_download_run(dir, states, events, steps),
        0 <= n <= events.len(),
    ensures
        state_wf(states[n]),
        n < events.len() ==> states[n] != DownloadState::Finished,
        states[n] matches DownloadState::Checking { index } ==> {
            &&& n > 0
            &&& steps[n - 1].action matches DownloadAction::CheckExists { path }
            &&& path@ == model_file_path(dir, index as int)
        },
        states[n] matches DownloadState::Renaming { index } ==> {
            &&& n > 0
            &&& steps[n - 1].action matches DownloadAction::Rename { from, to }
            &&& to@ == model_file_path(dir, index as int)
        },
        state_index(states[n]) matches Some(j) ==> forall|i: int|
            0 <= i < j ==> #[trigger] secured_before(dir, states, events, steps, n, i),
    decreases n,
{
    if n < events.len() {
        assert(run_step(dir, states, events, steps, n));
    }
    if n > 0 {
        let k = n - 1;
        lemma_run_prefix(dir, states, events, steps, k);
        assert(run_step(dir, states, events, steps, k));
        if let Some(j) = state_index(states[n]) {
            assert forall|i: int| 0 <= i < j implies #[trigger] secured_before(
                dir,
                states,
                events,
                steps,
                n,
                i,
            ) by {
                if state_index(states[k]) matches Some(j0) && i < j0 {
                    assert(secured_before(dir, states, events, steps, k, i));
                    let w = choose|w: int| 0 <= w < k && #[trigger] file_secured(dir, states, events, steps, w, i);
                    assert(file_secured(dir, states, events, steps, w, i));
                } else {
                    assert(file_secured(dir, states, events, steps, k, i));
                }
            }
        }
    }
}

/// A download that ends successfully has secured every model file: each was
/// found at its path, or downloaded and renamed to its path.
pub proof fn lemma_successful_download_secures_every_file(
    dir: Seq<char>,
    states: Seq<DownloadState>,
    events: Seq<DownloadEvent>,
    steps: Seq<DownloadStep>,
)
    requires
        is_download_run(dir, states, events, steps),
        events.len() > 0,
        steps.last().action matches DownloadAction::Finish(Ok(())),
    ensures
        forall|i: int|
            0 <= i < MODEL_FILE_COUNT ==> #[trigger] secured_before(
                dir,
                states,
                events,
                steps,
                events.len() as int,
                i,
            ),
{
    let n = events.len() as int;
    let k = n - 1;
    lemma_run_prefix(dir, states, events, steps, k);
    assert(run_step(dir, states, events, steps, k));
    lemma_outcome(dir, states[k], events[k], states[k + 1], steps[k]);
    assert(file_secured(dir, states, events, steps, k, 3));
    assert forall|i: int| 0 <= i < MODEL_FILE_COUNT implies #[trigger] secured_before(
        dir,
        states,
        events,
        steps,
        n,
        i,
    ) by {
        if i < 3 {
            assert(secured_before(dir, states, events, steps, k, i));
            let w = choose|w: int| 0 <= w < k && #[trigger] file_secured(dir, states, events, steps, w, i);
            assert(file_secured(dir, states, events, steps, w, i));
        } else {
            assert(file_secured(dir, states, events, steps, k, i));
        }
    }
}

/// A reply whose status is not a success ends the download with the error
/// `HTTP <status> for <file>`, whatever body it announces: nothing is
/// created, written or renamed for it.
pub proof fn lemma_failed_reply_ends_download(
    dir: Seq<char>,
    i: usize,
    reply: HttpReply,
    next: DownloadState,
    step: DownloadStep,
)
    requires
        download_transition(dir, DownloadState::Requesting { index: i }, DownloadEvent::Replied(Ok(reply)), next, step),
        !reply.success,
    ensures
        next == DownloadState::Finished,
        step.report is None,
        step.action matches DownloadAction::Finish(Err(AppError::DownloadError(m))) && m@ == "HTTP "@
            + reply.status@ + " for "@ + model_file_name(i as int),
        !(step.action is CreateFile),
        !(step.action is WriteChunk),
        !(step.action is Rename),
{
}

/// A download that ends successfully never received a reply whose status
/// was not a success.
pub proof fn lemma_successful_download_had_no_failed_reply(
    dir: Seq<char>,
    states: Seq<DownloadState>,
    events: Seq<DownloadEvent>,
    steps: Seq<DownloadStep>,
)
    requires
        is_download_run(dir, states, events, steps),
        events.len() > 0,
        steps.last().action matches DownloadAction::Finish(Ok(())),
    ensures
        forall|k: int|
            0 <= k < events.len() ==> !(#[trigger] events[k] matches DownloadEvent::Replied(Ok(r)) && !r.success),
{
    assert forall|k: int| 0 <= k < events.len() implies !(#[trigger] events[k] matches DownloadEvent::Replied(
        Ok(r),
    ) && !r.success) by {
        assert(run_step(dir, states, events, steps, k));
        if events[k] matches DownloadEvent::Replied(Ok(r)) && !r.success {
            lemma_run_prefix(dir, states, events, steps, k + 1);
        }
    }
}

/// The sum of `lens`.
pub open spec fn total_len(lens: Seq<u64>) -> nat
    decreases lens.len(),
{
    if lens.len() == 0 {
        0
    } else {
        total_len(lens.drop_last()) + lens.last() as nat
    }
}

/// While a model file is received, the bytes counted (and reported) are the
/// sum of the lengths of the pieces written so far.
pub proof fn lemma_bytes_are_counted(
    dir: Seq<char>,
    i: usize,
    total: Option<u64>,
    lens: Seq<u64>,
    states: Seq<DownloadState>,
    steps: Seq<DownloadStep>,
)
    requires
        total_len(lens) <= u64::MAX,
        states.len() == 2 * lens.len() + 1,
        steps.len() == 2 * lens.len(),
        states[0] == (DownloadState::Receiving { index: i, downloaded: 0, total }),
        forall|k: int|
            0 <= k < lens.len() ==> download_transition(
                dir,
                #[trigger] states[2 * k],
                DownloadEvent::ChunkRead(Some(Ok(lens[k]))),
                states[2 * k + 1],
                steps[2 * k],
            ) && download_transition(
                dir,
                states[2 * k + 1],
                DownloadEvent::ChunkWritten(Ok(())),
                states[2 * k + 2],
                steps[2 * k + 1],
            ),
    ensures
        states.last() == (DownloadState::Receiving {
            index: i,
            downloaded: total_len(lens) as u64,
            total,
        }),
        lens.len() > 0 ==> reports(steps.last().report, i as int, total_len(lens) as u64, total, false),
    decreases lens.len(),
{
    if lens.len() > 0 {
        let m = (lens.len() - 1) as int;
        let lens0 = lens.drop_last();
        let states0 = states.take(2 * m + 1);
        let steps0 = steps.take(2 * m);
        assert(total_len(lens0) <= total_len(lens));
        assert forall|k: int| 0 <= k < lens0.len() implies download_transition(
            dir,
            #[trigger] states0[2 * k],
            DownloadEvent::ChunkRead(Some(Ok(lens0[k]))),
            states0[2 * k + 1],
            steps0[2 * k],
        ) && download_transition(
            dir,
            states0[2 * k + 1],
            DownloadEvent::ChunkWritten(Ok(())),
            states0[2 * k + 2],
            steps0[2 * k + 1],
        ) by {
            assert(states0[2 * k] == states[2 * k]);
            assert(download_transition(
                dir,
                states[2 * k],
                DownloadEvent::ChunkRead(Some(Ok(lens[k]))),
                states[2 * k + 1],
                steps[2 * k],
            ));
        }
        lemma_bytes_are_counted(dir, i, total, lens0, states0, steps0);
        assert(states[2 * m] == states0.last());
        assert(download_transition(
            dir,
            states[2 * m],
            DownloadEvent::ChunkRead(Some(Ok(lens[m]))),
            states[2 * m + 1],
            steps[2 * m],
        ));
    }
}

} // verus!
