//! The request dispatcher, as a state machine. The caller does the outside
//! work (asks the content delegate, looks at the filesystem, reads the
//! directory) and reports each result as an event; every decision is taken
//! here.
//!
//! The machine rests only where it waits for the caller. What lies between
//! two such states is decided within one step: a reply of the delegate is
//! either served (any status but 404) or a miss; a miss is a refused path or
//! one to look up; a path looked up is a directory to read, or it is not
//! found, whether it is missing or a file that the delegate did not serve.

use vstd::prelude::*;
use vstd::string::StringExecFns;
use crate::config::RootConfig;
use crate::decode::{decode_request_path, decoded_text};
use crate::lister::{
    list_one_level, listing_result, read_views, DirRead, EntryView, Listing, ReadView,
};
use crate::resolver::{
    confined_path, invalid_path_reason, path_rejected, resolve_decoded, ResolvedPath,
};
use crate::segments::{lemma_leading_slashes_is, trim_slashes};
use crate::text::{chars_of, text_of};

verus! {

/// How a request ends.
pub enum ResponseOutcome {
    /// The content delegate served the request; its response goes out as it
    /// is.
    Delegated,
    /// The path is a directory: its listing, and the request path it is for.
    Listing(Listing, String),
    /// The path is no file and no directory.
    NotFound(String),
    /// The path was refused.
    BadRequest(String),
    /// Something failed on the server's side.
    InternalError(String),
}

/// What an outcome holds, as plain values.
pub ghost enum OutcomeView {
    Delegated,
    Listing(Seq<EntryView>, Seq<char>),
    NotFound(Seq<char>),
    BadRequest(Seq<char>),
    InternalError(Seq<char>),
}

impl View for ResponseOutcome {
    type V = OutcomeView;

    open spec fn view(&self) -> OutcomeView {
        match self {
            ResponseOutcome::Delegated => OutcomeView::Delegated,
            ResponseOutcome::Listing(l, p) => OutcomeView::Listing(l@, p@),
            ResponseOutcome::NotFound(r) => OutcomeView::NotFound(r@),
            ResponseOutcome::BadRequest(r) => OutcomeView::BadRequest(r@),
            ResponseOutcome::InternalError(r) => OutcomeView::InternalError(r@),
        }
    }
}

/// What the content delegate did with a request.
pub enum DelegateReply {
    /// It answered, with this HTTP status.
    Responded { status: u16 },
    /// It failed, with this error text.
    Failed(String),
}

/// The states of one request.
pub enum DispatchState {
    /// Nothing has been done yet.
    Start,
    /// The request is with the content delegate.
    DelegateAttempt,
    /// The delegate found nothing and the path was accepted; whether it is a
    /// directory is being looked up.
    ResolvingPath { path: ResolvedPath, cur_path: String },
    /// The path is a directory, which is being read.
    PathOkDir { path: ResolvedPath, cur_path: String },
    /// The request has its outcome.
    Terminal { outcome: ResponseOutcome, cur_path: String },
}

/// What a state holds, as plain values.
pub ghost enum StateView {
    Start,
    DelegateAttempt,
    ResolvingPath { path: Seq<char>, cur_path: Seq<char> },
    PathOkDir { path: Seq<char>, cur_path: Seq<char> },
    Terminal { outcome: OutcomeView, cur_path: Seq<char> },
}

impl View for DispatchState {
    type V = StateView;

    open spec fn view(&self) -> StateView {
        match self {
            DispatchState::Start => StateView::Start,
            DispatchState::DelegateAttempt => StateView::DelegateAttempt,
            DispatchState::ResolvingPath { path, cur_path } => StateView::ResolvingPath {
                path: path@,
                cur_path: cur_path@,
            },
            DispatchState::PathOkDir { path, cur_path } => StateView::PathOkDir {
                path: path@,
                cur_path: cur_path@,
            },
            DispatchState::Terminal { outcome, cur_path } => StateView::Terminal {
                outcome: outcome@,
                cur_path: cur_path@,
            },
        }
    }
}

/// What the caller reports to the machine.
pub enum DispatchEvent {
    /// The request has arrived.
    Begin,
    /// The content delegate is done.
    DelegateReplied(DelegateReply),
    /// The resolved path was looked up: it is a directory, or it is not
    /// (a file, or nothing at all).
    PathProbed { is_dir: bool },
    /// The directory was read, as far as it went.
    DirectoryRead(Vec<DirRead>),
}

/// The status by which the delegate says that it has no such file.
pub open spec fn not_found_status() -> u16 {
    404
}

/// The reason given where the path is no file and no directory.
pub open spec fn file_not_found_reason() -> Seq<char> {
    "file not found"@
}

/// The text put before the error of a delegate that failed.
pub open spec fn unhandled_error_prefix() -> Seq<char> {
    "Unhandled error: "@
}

/// The state after the delegate found nothing, for a decoded request path:
/// the end of the request where the path is refused, else the lookup of the
/// confined path.
pub open spec fn miss_state(decoded: Seq<char>, root: Seq<char>) -> StateView {
    if path_rejected(decoded) {
        StateView::Terminal {
            outcome: OutcomeView::BadRequest(invalid_path_reason()),
            cur_path: trim_slashes(decoded),
        }
    } else {
        StateView::ResolvingPath {
            path: confined_path(root, decoded),
            cur_path: trim_slashes(decoded),
        }
    }
}

/// The state after the delegate is done.
pub open spec fn delegate_state(
    reply: DelegateReply,
    raw: Seq<char>,
    root: Seq<char>,
) -> StateView {
    match reply {
        DelegateReply::Responded { status } => if status == not_found_status() {
            miss_state(decoded_text(raw), root)
        } else {
            StateView::Terminal { outcome: OutcomeView::Delegated, cur_path: raw }
        },
        DelegateReply::Failed(e) => StateView::Terminal {
            outcome: OutcomeView::InternalError(unhandled_error_prefix() + e@),
            cur_path: raw,
        },
    }
}

/// The state after the resolved path was looked up.
pub open spec fn probed_state(path: Seq<char>, cur_path: Seq<char>, is_dir: bool) -> StateView {
    if is_dir {
        StateView::PathOkDir { path, cur_path }
    } else {
        StateView::Terminal { outcome: OutcomeView::NotFound(file_not_found_reason()), cur_path }
    }
}

/// The state after the directory was read.
pub open spec fn listed_state(
    reads: Seq<ReadView>,
    cur_path: Seq<char>,
    root: Seq<char>,
) -> StateView {
    match listing_result(reads, root) {
        Ok(entries) => StateView::Terminal {
            outcome: OutcomeView::Listing(entries, cur_path),
            cur_path,
        },
        Err(e) => StateView::Terminal { outcome: OutcomeView::InternalError(e), cur_path },
    }
}

/// The transition function. An event that the state does not wait for
/// leaves the state as it is.
pub open spec fn next_state(
    state: DispatchState,
    event: DispatchEvent,
    raw: Seq<char>,
    root: Seq<char>,
) -> StateView {
    match (state, event) {
        (DispatchState::Start, DispatchEvent::Begin) => StateView::DelegateAttempt,
        (DispatchState::DelegateAttempt, DispatchEvent::DelegateReplied(reply)) => delegate_state(
            reply,
            raw,
            root,
        ),
        (
            DispatchState::ResolvingPath { path, cur_path },
            DispatchEvent::PathProbed { is_dir },
        ) => probed_state(path@, cur_path@, is_dir),
        (DispatchState::PathOkDir { path, cur_path }, DispatchEvent::DirectoryRead(reads)) => {
            listed_state(read_views(reads@), cur_path@, root)
        },
        _ => state@,
    }
}

/// How far a state is from the start: a step with the event that the state
/// waits for moves further, and a terminal state is furthest.
pub open spec fn progress(state: StateView) -> nat {
    match state {
        StateView::Start => 0,
        StateView::DelegateAttempt => 1,
        StateView::ResolvingPath { .. } => 2,
        StateView::PathOkDir { .. } => 3,
        StateView::Terminal { .. } => 4,
    }
}

/// The event is the one that the state waits for.
pub open spec fn awaited(state: DispatchState, event: DispatchEvent) -> bool {
    match (state, event) {
        (DispatchState::Start, DispatchEvent::Begin) => true,
        (DispatchState::DelegateAttempt, DispatchEvent::DelegateReplied(_)) => true,
        (DispatchState::ResolvingPath { .. }, DispatchEvent::PathProbed { .. }) => true,
        (DispatchState::PathOkDir { .. }, DispatchEvent::DirectoryRead(_)) => true,
        _ => false,
    }
}

/// The HTTP status of an outcome.
pub open spec fn status_of(outcome: OutcomeView) -> u16 {
    match outcome {
        OutcomeView::Delegated => 200,
        OutcomeView::Listing(_, _) => 200,
        OutcomeView::NotFound(_) => 404,
        OutcomeView::BadRequest(_) => 400,
        OutcomeView::InternalError(_) => 500,
    }
}

/// The decoded request path without the `/` characters at its front: the
/// path that listings and error pages are shown for.
pub fn display_path(decoded: &str) -> (shown: String)
    ensures
        shown@ == trim_slashes(decoded@),
{
    let p = chars_of(decoded);
    let mut start: usize = 0;
    while start < p.len() && p[start] == '/'
        invariant
            start <= p@.len(),
            forall|i: int| 0 <= i < start ==> p@[i] == '/',
        decreases p@.len() - start,
    {
        start += 1;
    }
    proof {
        lemma_leading_slashes_is(p@, start as int);
        assert(p@.subrange(start as int, p@.len() as int) =~= p@.skip(start as int));
    }
    text_of(&p, start, p.len())
}

/// The state after the delegate found nothing, for a request path that is
/// already percent-decoded.
pub fn on_miss(decoded: &str, root: &RootConfig) -> (next: DispatchState)
    ensures
        next@ == miss_state(decoded@, root.root()),
{
    let cur_path = display_path(decoded);
    match resolve_decoded(decoded, root) {
        Err(e) => DispatchState::Terminal {
            outcome: ResponseOutcome::BadRequest(e.reason),
            cur_path,
        },
        Ok(path) => DispatchState::ResolvingPath { path, cur_path },
    }
}

/// The state after the delegate is done. A status other than 404 ends the
/// request with the delegate's own response; 404 sends the path to the
/// resolver; a failure of the delegate ends the request with an internal
/// error that carries the delegate's error text.
pub fn on_delegate_reply(reply: DelegateReply, raw_path: &str, root: &RootConfig) -> (next:
    DispatchState)
    ensures
        next@ == delegate_state(reply, raw_path@, root.root()),
{
    match reply {
        DelegateReply::Responded { status } => {
            if status == 404 {
                let decoded = decode_request_path(raw_path);
                on_miss(decoded.as_str(), root)
            } else {
                DispatchState::Terminal {
                    outcome: ResponseOutcome::Delegated,
                    cur_path: raw_path.to_string(),
                }
            }
        },
        DelegateReply::Failed(e) => {
            let mut reason = "Unhandled error: ".to_string();
            reason.append(e.as_str());
            DispatchState::Terminal {
                outcome: ResponseOutcome::InternalError(reason),
                cur_path: raw_path.to_string(),
            }
        },
    }
}

/// The state after the resolved path was looked up: the reading of the
/// directory where it is one, else the end of the request as not found.
pub fn on_probe(path: ResolvedPath, cur_path: String, is_dir: bool) -> (next: DispatchState)
    ensures
        next@ == probed_state(path@, cur_path@, is_dir),
{
    if is_dir {
        DispatchState::PathOkDir { path, cur_path }
    } else {
        DispatchState::Terminal {
            outcome: ResponseOutcome::NotFound("file not found".to_string()),
            cur_path,
        }
    }
}

/// The state after the directory was read: the end of the request, with the
/// listing, or with an internal error where any read failed.
pub fn on_directory_read(reads: &Vec<DirRead>, cur_path: String, root: &RootConfig) -> (next:
    DispatchState)
    ensures
        next@ == listed_state(read_views(reads@), cur_path@, root.root()),
{
    match list_one_level(reads, root) {
        Ok(listing) => {
            let shown = cur_path.clone();
            DispatchState::Terminal { outcome: ResponseOutcome::Listing(listing, shown), cur_path }
        },
        Err(e) => DispatchState::Terminal {
            outcome: ResponseOutcome::InternalError(e.message),
            cur_path,
        },
    }
}

/// One transition of the machine for the request with the raw path
/// `raw_path`.
pub fn step(state: DispatchState, event: DispatchEvent, raw_path: &str, root: &RootConfig) -> (next:
    DispatchState)
    ensures
        next@ == next_state(state, event, raw_path@, root.root()),
        awaited(state, event) ==> progress(next@) > progress(state@),
        !awaited(state, event) ==> next@ == state@,
{
    match state {
        DispatchState::Start => match event {
            DispatchEvent::Begin => DispatchState::DelegateAttempt,
            _ => DispatchState::Start,
        },
        DispatchState::DelegateAttempt => match event {
            DispatchEvent::DelegateReplied(reply) => on_delegate_reply(reply, raw_path, root),
            _ => DispatchState::DelegateAttempt,
        },
        DispatchState::ResolvingPath { path, cur_path } => match event {
            DispatchEvent::PathProbed { is_dir } => on_probe(path, cur_path, is_dir),
            _ => DispatchState::ResolvingPath { path, cur_path },
        },
        DispatchState::PathOkDir { path, cur_path } => match event {
            DispatchEvent::DirectoryRead(reads) => on_directory_read(&reads, cur_path, root),
            _ => DispatchState::PathOkDir { path, cur_path },
        },
        DispatchState::Terminal { outcome, cur_path } => DispatchState::Terminal {
            outcome,
            cur_path,
        },
    }
}

/// The HTTP status of an outcome: 200 for a delegated response and for a
/// listing, 404, 400 and 500 for the three kinds of failure.
pub fn status_code(outcome: &ResponseOutcome) -> (status: u16)
    ensures
        status == status_of(outcome@),
{
    match outcome {
        ResponseOutcome::Delegated => 200,
        ResponseOutcome::Listing(_, _) => 200,
        ResponseOutcome::NotFound(_) => 404,
        ResponseOutcome::BadRequest(_) => 400,
        ResponseOutcome::InternalError(_) => 500,
    }
}

} // verus!
