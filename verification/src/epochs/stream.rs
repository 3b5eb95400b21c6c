//! How the archive of an epoch is opened.

use vstd::prelude::*;

use super::{car_path, car_path_text};
use crate::http_status::{is_status, is_success};
use crate::node_reader::Len;

verus! {

/// `ripget::Client`, an HTTP client whose connections downloads share.
#[verifier::external_type_specification]
#[verifier::external_body]
pub struct ExRipgetClient(ripget::Client);

/// Controls how epoch archives are opened.
#[derive(Clone, Debug)]
pub struct FetchEpochStreamOptions {
    /// When `true`, stream bytes sequentially through a windowed downloader.
    pub sequential: bool,
    /// Parallel range request count of the windowed downloader.
    pub ripget_threads: usize,
    /// Total hot/cold window size in bytes of the windowed downloader.
    pub buffer_window_bytes: u64,
    /// HTTP client for connection reuse across epoch downloads.
    pub ripget_client: Option<ripget::Client>,
}

impl FetchEpochStreamOptions {
    /// Returns default options, with which streams are seekable.
    pub fn parallel_default() -> (r: Self)
        ensures
            r == (FetchEpochStreamOptions {
                sequential: false,
                ripget_threads: 1,
                buffer_window_bytes: 2,
                ripget_client: None,
            }),
    {
        FetchEpochStreamOptions {
            sequential: false,
            ripget_threads: 1,
            buffer_window_bytes: 2,
            ripget_client: None,
        }
    }
}

/// What serves the archives.
#[derive(Clone, Debug, PartialEq, Eq)]
pub enum Backend {
    /// A web server, with this base URL.
    Http(String),
    S3,
    Unsupported,
}

/// How to open an archive.
#[derive(Clone, Debug)]
pub enum StreamPlan {
    /// Download this URL window by window; where that cannot be started, read it seekably.
    Sequential {
        url: String,
        threads: usize,
        window_bytes: u64,
        client: Option<ripget::Client>,
    },
    /// Read this URL seekably.
    Seekable { url: String },
    /// Read the object of this path.
    S3 { path: String },
}

/// Why an archive cannot be opened.
#[derive(Clone, Debug, PartialEq, Eq)]
pub enum OpenError {
    /// The base URL and the path do not make up a URL; carries the message.
    InvalidUrl(String),
    UnsupportedBackend,
}

/// What `reqwest::Url` makes of a path below a base URL: the URL, or the message of the error.
pub uninterp spec fn joined_url(base: Seq<char>, path: Seq<char>) -> Result<Seq<char>, Seq<char>>;

/// The texts of a result.
pub open spec fn text_result(r: Result<String, String>) -> Result<Seq<char>, Seq<char>> {
    match r {
        Ok(text) => Ok(text@),
        Err(text) => Err(text@),
    }
}

/// `reqwest::Url::join`, on the URL that `base` is parsed to: the URL of `path` below `base`, or
/// why there is none. The result depends on the two texts alone, and is named.
#[verifier::external_body]
fn join_url(base: &str, path: &str) -> (r: Result<String, String>)
    ensures
        text_result(r) == joined_url(base@, path@),
{
    match reqwest::Url::parse(base).and_then(|base| base.join(path)) {
        Ok(url) => Ok(url.to_string()),
        Err(e) => Err(e.to_string()),
    }
}

/// Where the archive of an epoch is.
#[derive(Clone, Debug, PartialEq, Eq)]
pub enum ArchivePlace {
    /// At this URL.
    Url(String),
    /// In the object of this path.
    Object(String),
}

/// Whether `r` is where the archive of an epoch is, or why it is nowhere.
pub open spec fn located(epoch: u64, backend: Backend, r: Result<ArchivePlace, OpenError>) -> bool {
    match backend {
        Backend::Http(base) => match joined_url(base@, car_path_text(epoch)) {
            Ok(url) => r matches Ok(ArchivePlace::Url(found)) && found@ == url,
            Err(e) => r matches Err(OpenError::InvalidUrl(found)) && found@ == e,
        },
        Backend::S3 => r matches Ok(ArchivePlace::Object(path)) && path@ == car_path_text(epoch),
        Backend::Unsupported => r == Err::<ArchivePlace, OpenError>(OpenError::UnsupportedBackend),
    }
}

/// Finds out where the archive of an epoch is.
pub fn locate_epoch(epoch: u64, backend: &Backend) -> (r: Result<ArchivePlace, OpenError>)
    ensures
        located(epoch, *backend, r),
{
    let path: String = car_path(epoch);
    match backend {
        Backend::Http(base) => match join_url(base.as_str(), path.as_str()) {
            Ok(url) => Ok(ArchivePlace::Url(url)),
            Err(e) => Err(OpenError::InvalidUrl(e)),
        },
        Backend::S3 => Ok(ArchivePlace::Object(path)),
        Backend::Unsupported => Err(OpenError::UnsupportedBackend),
    }
}

/// What came of asking a backend for an archive without its contents.
#[derive(Copy, Clone, Debug, PartialEq, Eq)]
pub enum HeadOutcome {
    /// The web server answered with this status.
    Status(u16),
    /// The object is there.
    Object,
    /// The request failed.
    Failed,
}

/// Whether an archive is there, by what came of asking for it.
pub open spec fn is_there(outcome: HeadOutcome) -> bool {
    match outcome {
        HeadOutcome::Status(status) => 200 <= status <= 299,
        HeadOutcome::Object => true,
        HeadOutcome::Failed => false,
    }
}

/// Whether an archive exists, by what came of asking for it.
pub fn epoch_exists(outcome: HeadOutcome) -> (r: bool)
    requires
        outcome matches HeadOutcome::Status(status) ==> is_status(status),
    ensures
        r == is_there(outcome),
{
    match outcome {
        HeadOutcome::Status(status) => is_success(status),
        HeadOutcome::Object => true,
        HeadOutcome::Failed => false,
    }
}

/// How an archive at `place` is opened under `options`.
pub open spec fn planned(place: ArchivePlace, options: FetchEpochStreamOptions) -> StreamPlan {
    match place {
        ArchivePlace::Object(path) => StreamPlan::S3 { path },
        ArchivePlace::Url(url) => if options.sequential {
            StreamPlan::Sequential {
                url,
                threads: if options.ripget_threads >= 1 {
                    options.ripget_threads
                } else {
                    1
                },
                window_bytes: if options.buffer_window_bytes >= 2 {
                    options.buffer_window_bytes
                } else {
                    2
                },
                client: options.ripget_client,
            }
        } else {
            StreamPlan::Seekable { url }
        },
    }
}

/// Decides how to open an archive.
pub fn plan_stream(place: ArchivePlace, options: FetchEpochStreamOptions) -> (r: StreamPlan)
    ensures
        r == planned(place, options),
{
    match place {
        ArchivePlace::Object(path) => StreamPlan::S3 { path },
        ArchivePlace::Url(url) => {
            if options.sequential {
                StreamPlan::Sequential {
                    url,
                    threads: if options.ripget_threads >= 1 {
                        options.ripget_threads
                    } else {
                        1
                    },
                    window_bytes: if options.buffer_window_bytes >= 2 {
                        options.buffer_window_bytes
                    } else {
                        2
                    },
                    client: options.ripget_client,
                }
            } else {
                StreamPlan::Seekable { url }
            }
        },
    }
}

/// The options that apply where `options` are given, or not.
pub open spec fn effective(options: Option<FetchEpochStreamOptions>) -> FetchEpochStreamOptions {
    match options {
        Some(options) => options,
        None => FetchEpochStreamOptions {
            sequential: false,
            ripget_threads: 1,
            buffer_window_bytes: 2,
            ripget_client: None,
        },
    }
}

/// Decides how to open the archive of an epoch with the default options: seekably.
pub fn fetch_epoch_stream(epoch: u64, backend: &Backend) -> (r: Result<StreamPlan, OpenError>)
    ensures
        match r {
            Ok(plan) => exists|place: ArchivePlace|
                #[trigger] located(epoch, *backend, Ok(place)) && plan == planned(
                    place,
                    effective(None),
                ),
            Err(e) => located(epoch, *backend, Err(e)),
        },
{
    fetch_epoch_stream_with_options(epoch, backend, None)
}

/// Decides how to open the archive of an epoch with explicit options.
///
/// A sequential stream cannot be moved: it refuses to seek anywhere but where it stands.
pub fn fetch_epoch_stream_with_options(
    epoch: u64,
    backend: &Backend,
    options: Option<FetchEpochStreamOptions>,
) -> (r: Result<StreamPlan, OpenError>)
    ensures
        match r {
            Ok(plan) => exists|place: ArchivePlace|
                #[trigger] located(epoch, *backend, Ok(place)) && plan == planned(
                    place,
                    effective(options),
                ),
            Err(e) => located(epoch, *backend, Err(e)),
        },
{
    let options: FetchEpochStreamOptions = match options {
        Some(options) => options,
        None => FetchEpochStreamOptions::parallel_default(),
    };
    match locate_epoch(epoch, backend) {
        Ok(place) => Ok(plan_stream(place, options)),
        Err(e) => Err(e),
    }
}

impl StreamPlan {
    /// What to do where a windowed download could not be started: read the same URL seekably.
    pub fn fall_back(self) -> (r: StreamPlan)
        requires
            self is Sequential,
        ensures
            r == (StreamPlan::Seekable { url: self->Sequential_url }),
    {
        match self {
            StreamPlan::Sequential { url, .. } => StreamPlan::Seekable { url },
            plan => plan,
        }
    }
}

/// An epoch's archive as a stream, whatever serves it, with its total length.
#[derive(Clone, Debug, PartialEq, Eq)]
pub struct EpochStream<R> {
    pub inner: R,
    pub total_len: u64,
}

impl<R: Len> EpochStream<R> {
    /// Wraps a reader, and keeps its length.
    pub fn new(reader: R) -> (r: EpochStream<R>)
        ensures
            r == (EpochStream { inner: reader, total_len: reader.spec_len() }),
    {
        let total_len: u64 = reader.len();
        EpochStream { inner: reader, total_len }
    }
}

impl<R> Len for EpochStream<R> {
    open spec fn spec_len(&self) -> u64 {
        self.total_len
    }

    fn len(&self) -> (r: u64) {
        self.total_len
    }
}

/// An archive on a web server lies at the URL of its path below the base, in a bucket under its
/// path, and nowhere else.
pub proof fn law_locates(epoch: u64, base: String, url: String, path: String, e: OpenError)
    ensures
        located(epoch, Backend::Http(base), Ok(ArchivePlace::Url(url))) <==> joined_url(
            base@,
            car_path_text(epoch),
        ) == Ok::<Seq<char>, Seq<char>>(url@),
        located(epoch, Backend::S3, Ok(ArchivePlace::Object(path))) <==> path@ == car_path_text(epoch),
        !located(epoch, Backend::Http(base), Ok(ArchivePlace::Object(path))),
        !located(epoch, Backend::S3, Ok(ArchivePlace::Url(url))),
        !located(epoch, Backend::S3, Err(e)),
        !located(epoch, Backend::Unsupported, Ok(ArchivePlace::Url(url))),
        !located(epoch, Backend::Unsupported, Ok(ArchivePlace::Object(path))),
        located(epoch, Backend::Unsupported, Err(e)) <==> e is UnsupportedBackend,
        located(epoch, Backend::Http(base), Err(e)) ==> e is InvalidUrl && joined_url(
            base@,
            car_path_text(epoch),
        ) == Err::<Seq<char>, Seq<char>>(e->InvalidUrl_0@),
        text_result(Ok(url)) == Ok::<Seq<char>, Seq<char>>(url@),
        text_result(Err(url)) == Err::<Seq<char>, Seq<char>>(url@),
{
}

/// A URL is downloaded window by window exactly where that is asked for, with at least one thread
/// and two bytes, and as many as asked for beyond; without options it is read seekably. An object
/// is read as such whatever the options.
pub proof fn law_plans(url: String, path: String, options: FetchEpochStreamOptions)
    ensures
        planned(ArchivePlace::Object(path), options) == (StreamPlan::S3 { path }),
        !options.sequential ==> planned(ArchivePlace::Url(url), options) == (StreamPlan::Seekable {
            url,
        }),
        options.sequential ==> (planned(ArchivePlace::Url(url), options) matches StreamPlan::Sequential {
            url: found,
            threads,
            window_bytes,
            client,
        } && found == url && client == options.ripget_client && threads >= 1 && window_bytes >= 2 && (
        threads == options.ripget_threads || options.ripget_threads == 0 && threads == 1) && (
        window_bytes == options.buffer_window_bytes || options.buffer_window_bytes < 2 && window_bytes
            == 2)),
        planned(ArchivePlace::Url(url), effective(None)) == (StreamPlan::Seekable { url }),
        effective(Some(options)) == options,
{
}

/// An archive exists where a web server answers with success, any `2xx`, or a bucket has its object,
/// and not where the request failed or any other status came.
pub proof fn law_exists(status: u16)
    ensures
        is_there(HeadOutcome::Status(status)) <==> status / 100 == 2,
        is_there(HeadOutcome::Object),
        !is_there(HeadOutcome::Failed),
{
}

} // verus!
