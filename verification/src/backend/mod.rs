//! What the client decides around its requests to the homeserver: how many
//! requests run at once, which media to fetch and where it is cached, and
//! how errors are written to the log.

pub mod room;
pub mod sync;
pub mod user;

use crate::outside::{regex_capture, regex_capture_result, url_components, url_components_of};
use crate::text::{replace, str_replace};
use vstd::prelude::*;

verus! {

/// The state of a pool of worker threads: how many run, and how many may
/// run at once. Each job starts only when fewer than `limit` run.
pub struct ThreadPool {
    pub running: u8,
    pub limit: u8,
}

/// What trying to start a job does to a pool: whether it starts, and the
/// pool after.
pub open spec fn started(p: ThreadPool) -> (bool, ThreadPool) {
    if p.running < p.limit {
        (true, ThreadPool { running: (p.running + 1) as u8, limit: p.limit })
    } else {
        (false, p)
    }
}

/// The pool after a job finished.
pub open spec fn finished(p: ThreadPool) -> ThreadPool {
    ThreadPool { running: (p.running - 1) as u8, limit: p.limit }
}

/// A job that starts and then finishes leaves the pool as it was; a pool
/// that runs no more jobs than its limit keeps doing so when a job starts.
pub proof fn lemma_start_then_finish(p: ThreadPool)
    ensures
        started(p).0 ==> finished(started(p).1) == p,
        p.running <= p.limit ==> started(p).1.running <= started(p).1.limit,
{
}

/// The pool after a run of events, each a job trying to start (`true`) or
/// a running job finishing (`false`), in order.
pub open spec fn pool_after(p: ThreadPool, events: Seq<bool>) -> ThreadPool
    decreases events.len(),
{
    if events.len() == 0 {
        p
    } else {
        let q = pool_after(p, events.drop_last());
        if events.last() {
            started(q).1
        } else {
            finished(q)
        }
    }
}

/// The number of jobs that started in a run of events (attempts that found
/// fewer than `limit` jobs running).
pub open spec fn jobs_started(p: ThreadPool, events: Seq<bool>) -> nat
    decreases events.len(),
{
    if events.len() == 0 {
        0
    } else {
        jobs_started(p, events.drop_last()) + if events.last() && started(
            pool_after(p, events.drop_last()),
        ).0 {
            1nat
        } else {
            0nat
        }
    }
}

/// The number of jobs that finished in a run of events.
pub open spec fn jobs_finished(events: Seq<bool>) -> nat
    decreases events.len(),
{
    if events.len() == 0 {
        0
    } else {
        jobs_finished(events.drop_last()) + if events.last() {
            0nat
        } else {
            1nat
        }
    }
}

/// Whether every finish in a run of events is that of a running job.
pub open spec fn finishes_running(p: ThreadPool, events: Seq<bool>) -> bool {
    forall|i: int| 0 <= i < events.len() && !#[trigger] events[i] ==> pool_after(p, events.take(i)).running > 0
}

/// Over any run of a new pool in which only running jobs finish, the jobs
/// running at every moment are those that started and have not finished,
/// and they are never more than the limit.
pub proof fn lemma_never_over_limit(limit: u8, events: Seq<bool>)
    requires
        finishes_running(ThreadPool { running: 0, limit }, events),
    ensures
        forall|k: int|
            0 <= k <= events.len() ==> {
                let p = #[trigger] pool_after(ThreadPool { running: 0, limit }, events.take(k));
                &&& p.running <= limit
                &&& p.limit == limit
                &&& p.running == jobs_started(ThreadPool { running: 0, limit }, events.take(k))
                    - jobs_finished(events.take(k))
            },
    decreases events.len(),
{
    let p0 = ThreadPool { running: 0, limit };
    if events.len() > 0 {
        let e = events.drop_last();
        assert forall|i: int| 0 <= i < e.len() && !#[trigger] e[i] implies pool_after(p0, e.take(i)).running > 0 by {
            assert(e.take(i) =~= events.take(i));
            assert(e[i] == events[i]);
        }
        lemma_never_over_limit(limit, e);
        assert forall|k: int| 0 <= k <= events.len() implies {
            let p = #[trigger] pool_after(p0, events.take(k));
            &&& p.running <= limit
            &&& p.limit == limit
            &&& p.running == jobs_started(p0, events.take(k)) - jobs_finished(events.take(k))
        } by {
            if k < events.len() {
                assert(events.take(k) =~= e.take(k));
            } else {
                let t = events.take(k);
                assert(t =~= events);
                assert(t.drop_last() =~= e.take(e.len() as int));
                assert(e.take(e.len() as int) =~= e);
                let q = pool_after(p0, e);
                assert(events.last() == events[events.len() - 1]);
                if !events.last() {
                    assert(events.take(events.len() - 1) =~= e);
                    assert(q.running > 0);
                }
            }
        }
    } else {
        assert forall|k: int| 0 <= k <= events.len() implies {
            let p = #[trigger] pool_after(p0, events.take(k));
            &&& p.running <= limit
            &&& p.limit == limit
            &&& p.running == jobs_started(p0, events.take(k)) - jobs_finished(events.take(k))
        } by {
            assert(events.take(k).len() == 0);
        }
    }
}

impl ThreadPool {
    /// A pool in which at most `limit` jobs run at once; none runs yet.
    pub fn new(limit: u8) -> (p: ThreadPool)
        ensures
            p.running == 0,
            p.limit == limit,
    {
        ThreadPool { running: 0, limit }
    }

    /// Starts a job if fewer than `limit` run, and tells whether it did;
    /// a job that is not started waits. The pool never runs more jobs than
    /// its limit.
    pub fn try_start(&mut self) -> (s: bool)
        ensures
            (s, *final(self)) == started(*old(self)),
    {
        if self.running < self.limit {
            self.running = self.running + 1;
            true
        } else {
            false
        }
    }

    /// A job has finished: one fewer runs, and a waiting job may start.
    pub fn finish(&mut self)
        requires
            old(self).running > 0,
        ensures
            *final(self) == finished(*old(self)),
    {
        self.running = self.running - 1;
    }
}

/// What of a media file to fetch: the file itself, or a thumbnail of the
/// given width and height.
pub enum ContentType {
    Download,
    Thumbnail(u64, u64),
}

impl ContentType {
    /// A thumbnail of 128 by 128.
    pub fn default_thumbnail() -> (c: ContentType)
        ensures
            c == ContentType::Thumbnail(128, 128),
    {
        ContentType::Thumbnail(128, 128)
    }

    /// Whether a thumbnail is asked for.
    pub fn is_thumbnail(&self) -> (r: bool)
        ensures
            r == (*self is Thumbnail),
    {
        match self {
            ContentType::Download => false,
            ContentType::Thumbnail(_, _) => true,
        }
    }

    /// The directory of the cache that holds media of this kind.
    pub fn cache_dir(&self) -> (d: &'static str)
        ensures
            d@ == (if *self is Thumbnail {
                "thumbs"@
            } else {
                "medias"@
            }),
    {
        if self.is_thumbnail() {
            "thumbs"
        } else {
            "medias"
        }
    }
}

/// Why a media file could not be had. The I/O and request errors carry
/// the text of the error that stopped them.
pub enum MediaError {
    MalformedMxcUrl,
    Io(String),
    Reqwest(String),
}

/// The parts of an `mxc` URL that locate a media file: the server's host,
/// and the first segment of the path.
pub struct MxcParts {
    pub scheme: String,
    pub host: Option<String>,
    pub first_segment: Option<String>,
}

/// The server and media ID that an `mxc` URL names, or why it names none:
/// the scheme must be `mxc`, there must be a host and a first path segment
/// that is not empty.
pub open spec fn parts_location(u: MxcParts) -> Option<(Seq<char>, Seq<char>)> {
    if u.scheme@ == "mxc"@ && u.host is Some && u.first_segment is Some
        && u.first_segment->Some_0@.len() > 0 {
        Some((u.host->Some_0@, u.first_segment->Some_0@))
    } else {
        None
    }
}

/// The server and media ID of an `mxc` URL.
pub fn media_server_and_id(u: &MxcParts) -> (r: Result<(String, String), MediaError>)
    ensures
        match (r, parts_location(*u)) {
            (Ok((s, m)), Some((s2, m2))) => s@ == s2 && m@ == m2,
            (Err(e), None) => e is MalformedMxcUrl,
            _ => false,
        },
{
    if !crate::text::str_eq(u.scheme.as_str(), "mxc") {
        return Err(MediaError::MalformedMxcUrl);
    }
    let server = match &u.host {
        Some(h) => h.clone(),
        None => {
            return Err(MediaError::MalformedMxcUrl);
        },
    };
    let media_id = match &u.first_segment {
        Some(m) => {
            if m.as_str().is_empty() {
                return Err(MediaError::MalformedMxcUrl);
            }
            m.clone()
        },
        None => {
            return Err(MediaError::MalformedMxcUrl);
        },
    };
    Ok((server, media_id))
}

/// The server and media ID that an `mxc` URL names, reading the URL's
/// components: the scheme must be `mxc`, there must be a host and a first
/// path segment that is not empty.
pub open spec fn mxc_location(mxc: Seq<char>) -> Option<(Seq<char>, Seq<char>)> {
    match url_components_of(mxc) {
        Some((scheme, host, seg)) => if scheme == "mxc"@ && host is Some && seg is Some && seg->Some_0.len() > 0 {
            Some((host->Some_0, seg->Some_0))
        } else {
            None
        },
        None => None,
    }
}

/// The server and media ID of the media file that an `mxc` URL names.
pub fn media_location(mxc: &str) -> (r: Result<(String, String), MediaError>)
    ensures
        match (r, mxc_location(mxc@)) {
            (Ok((s, m)), Some((s2, m2))) => s@ == s2 && m@ == m2,
            (Err(e), None) => e is MalformedMxcUrl,
            _ => false,
        },
{
    match url_components(mxc) {
        Some((scheme, host, first_segment)) => {
            media_server_and_id(&MxcParts { scheme, host, first_segment })
        },
        None => Err(MediaError::MalformedMxcUrl),
    }
}

/// Whether a media file already in the cache is used instead of fetching
/// it again: it must be a file, and when it was asked for at a given place,
/// changed less than a minute ago.
pub fn use_cached_file(is_file: bool, dest_given: bool, age_secs: Option<u64>) -> (r: bool)
    ensures
        r == (is_file && (!dest_given || (age_secs is Some && age_secs->Some_0 < 60))),
{
    let recent = match age_secs {
        Some(s) => s < 60,
        None => false,
    };
    is_file && (!dest_given || recent)
}

/// The regular expression that finds the access token in a quoted URL of
/// the Matrix client-server API.
pub open spec fn access_token_pattern() -> Seq<char> {
    "\"((http)|(https))://([^\"]+)/_matrix/([^\"]+)\\?access_token=(?P<token>[^&\"]+)([^\"]*)\""@
}

/// A message with the access token of a quoted Matrix API URL replaced by
/// `<redacted>`, when the message holds such a URL.
pub open spec fn token_removed(message: Seq<char>) -> Option<Seq<char>> {
    match regex_capture_result(access_token_pattern(), message, "token"@) {
        Some(t) => Some(str_replace(message, t, "<redacted>"@)),
        None => None,
    }
}

/// Removes the access token from a quoted URL of the Matrix API in a
/// message, for logging: every occurrence of the token becomes
/// `<redacted>`. Gives nothing when the message holds no such URL.
pub fn remove_matrix_access_token_if_present(message: &str) -> (r: Option<String>)
    ensures
        r.deep_view() == token_removed(message@),
{
    let pattern = "\"((http)|(https))://([^\"]+)/_matrix/([^\"]+)\\?access_token=(?P<token>[^&\"]+)([^\"]*)\"";
    proof {
        assert(pattern@ == access_token_pattern());
    }
    let token = regex_capture(pattern, message, "token");
    match token {
        Some(t) => Some(replace(message, t.as_str(), "<redacted>")),
        None => None,
    }
}

/// The text written to the log for an error whose debug text is given:
/// the access token removed, if there is one.
pub open spec fn error_log_text(debug_text: Seq<char>) -> Seq<char> {
    match token_removed(debug_text) {
        Some(t) => t,
        None => debug_text,
    }
}

/// The text written to the log for an error whose debug text is given.
pub fn error_log_line(debug_text: &str) -> (r: String)
    ensures
        r@ == error_log_text(debug_text@),
{
    match remove_matrix_access_token_if_present(debug_text) {
        Some(t) => t,
        None => debug_text.to_owned(),
    }
}

/// Errors of requests, which are written to the log with any access token
/// removed.
pub trait HandleError {
    /// The debug text of the error, as a sequence of characters.
    spec fn debug_view(&self) -> Seq<char>;

    /// The debug text of the error.
    fn debug_text(&self) -> (r: String)
        ensures
            r@ == self.debug_view(),
    ;

    /// The line to write to the log for this error: its debug text with any
    /// access token removed.
    fn handle_error(&self) -> (r: String)
        ensures
            r@ == error_log_text(self.debug_view()),
    {
        let t = self.debug_text();
        error_log_line(t.as_str())
    }
}

/// The debug text of a variant that carries the text of an error:
/// the variant's name, then that text in parentheses.
pub open spec fn wrapped_debug(name: Seq<char>, inner: Seq<char>) -> Seq<char> {
    name + "("@ + inner + ")"@
}

/// The debug text of a variant carrying the text of an error.
pub(crate) fn wrapped_debug_text(name: &str, inner: &str) -> (r: String)
    ensures
        r@ == wrapped_debug(name@, inner@),
{
    let mut s = name.to_owned();
    s.append("(");
    s.append(inner);
    s.append(")");
    s
}

impl HandleError for MediaError {
    open spec fn debug_view(&self) -> Seq<char> {
        match self {
            MediaError::MalformedMxcUrl => "MalformedMxcUrl"@,
            MediaError::Io(e) => wrapped_debug("Io"@, e@),
            MediaError::Reqwest(e) => wrapped_debug("Reqwest"@, e@),
        }
    }

    fn debug_text(&self) -> (r: String) {
        match self {
            MediaError::MalformedMxcUrl => "MalformedMxcUrl".to_owned(),
            MediaError::Io(e) => wrapped_debug_text("Io", e.as_str()),
            MediaError::Reqwest(e) => wrapped_debug_text("Reqwest", e.as_str()),
        }
    }
}

} // verus!
