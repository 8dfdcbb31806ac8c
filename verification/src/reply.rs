//! From an outcome and its rendered page to the HTTP reply.

use vstd::prelude::*;
use vstd::string::StringExecFns;
use crate::dispatch::{status_code, status_of, OutcomeView, ResponseOutcome};

verus! {

/// The response header that carries the reason of a failure.
pub const FAIL_REASON_HEADER_NAME: &'static str = "static-server-fail-reason";

/// The status, body and failure header of a reply that the server renders
/// itself.
pub struct HttpReply {
    /// The HTTP status.
    pub status: u16,
    /// Whether the body is an HTML page (else plain text).
    pub is_html: bool,
    /// The value of the failure header, where the reply has one.
    pub fail_reason: Option<String>,
    /// The body.
    pub body: String,
}

/// What a reply holds, as plain values.
pub ghost struct ReplyView {
    pub status: u16,
    pub is_html: bool,
    pub fail_reason: Option<Seq<char>>,
    pub body: Seq<char>,
}

impl View for HttpReply {
    type V = ReplyView;

    open spec fn view(&self) -> ReplyView {
        ReplyView {
            status: self.status,
            is_html: self.is_html,
            fail_reason: match self.fail_reason {
                Some(r) => Some(r@),
                None => None,
            },
            body: self.body@,
        }
    }
}

/// The text put before the error of a page that could not be rendered.
pub open spec fn render_failure_prefix() -> Seq<char> {
    "Failed to render template. Error: "@
}

/// What a client is told of any internal error.
pub open spec fn internal_error_message() -> Seq<char> {
    "internal server error"@
}

/// The reason that a failed outcome carries, in full; `None` for the two
/// outcomes that are no failure.
pub open spec fn failure_reason(outcome: OutcomeView) -> Option<Seq<char>> {
    match outcome {
        OutcomeView::Delegated => None,
        OutcomeView::Listing(_, _) => None,
        OutcomeView::NotFound(r) => Some(r),
        OutcomeView::BadRequest(r) => Some(r),
        OutcomeView::InternalError(r) => Some(r),
    }
}

/// What a client is told of a failed outcome: the reason of a refused or
/// missing path, but of an internal error only that it is one. The error
/// text of an internal error is for the log.
pub open spec fn client_reason(outcome: OutcomeView) -> Option<Seq<char>> {
    match outcome {
        OutcomeView::Delegated => None,
        OutcomeView::Listing(_, _) => None,
        OutcomeView::NotFound(r) => Some(r),
        OutcomeView::BadRequest(r) => Some(r),
        OutcomeView::InternalError(_) => Some(internal_error_message()),
    }
}

/// The line that the log gets for a failed outcome: the path that was asked
/// for and the reason in full. An outcome that is no failure is not logged.
pub open spec fn failure_log_line(outcome: OutcomeView, cur_path: Seq<char>) -> Option<Seq<char>> {
    match failure_reason(outcome) {
        Some(reason) => Some("request failed, path="@ + cur_path + ", reason="@ + reason),
        None => None,
    }
}

/// The reply for an outcome whose page was rendered, or failed to render
/// with an error text.
///
/// A delegated outcome has no reply of the server's own. A page that
/// rendered goes out with the status of the outcome and, for a failure, with
/// what the client is told of it in the failure header. A page that did not
/// render becomes a plain-text 500 that names the error, whatever the
/// outcome was.
pub open spec fn reply_of(outcome: OutcomeView, rendered: Result<Seq<char>, Seq<char>>) -> Option<
    ReplyView,
> {
    if outcome is Delegated {
        None
    } else {
        match rendered {
            Ok(page) => Some(
                ReplyView {
                    status: status_of(outcome),
                    is_html: true,
                    fail_reason: client_reason(outcome),
                    body: page,
                },
            ),
            Err(e) => Some(
                ReplyView {
                    status: 500,
                    is_html: false,
                    fail_reason: None,
                    body: render_failure_prefix() + e,
                },
            ),
        }
    }
}

/// The views of a rendering result.
pub open spec fn rendered_view(rendered: Result<String, String>) -> Result<Seq<char>, Seq<char>> {
    match rendered {
        Ok(page) => Ok(page@),
        Err(e) => Err(e@),
    }
}

/// What a client is told of a failed outcome.
pub fn client_message(outcome: &ResponseOutcome) -> (message: Option<String>)
    ensures
        match message {
            Some(m) => client_reason(outcome@) == Some(m@),
            None => client_reason(outcome@) is None,
        },
{
    match outcome {
        ResponseOutcome::Delegated => None,
        ResponseOutcome::Listing(_, _) => None,
        ResponseOutcome::NotFound(r) => Some(r.clone()),
        ResponseOutcome::BadRequest(r) => Some(r.clone()),
        ResponseOutcome::InternalError(_) => Some("internal server error".to_string()),
    }
}

/// The line to log for a failed outcome of the request for `cur_path`.
pub fn failure_log(outcome: &ResponseOutcome, cur_path: &str) -> (line: Option<String>)
    ensures
        match line {
            Some(l) => failure_log_line(outcome@, cur_path@) == Some(l@),
            None => failure_log_line(outcome@, cur_path@) is None,
        },
{
    let reason = match outcome {
        ResponseOutcome::Delegated => {
            return None;
        },
        ResponseOutcome::Listing(_, _) => {
            return None;
        },
        ResponseOutcome::NotFound(r) => r,
        ResponseOutcome::BadRequest(r) => r,
        ResponseOutcome::InternalError(r) => r,
    };
    let mut line = "request failed, path=".to_string();
    line.append(cur_path);
    line.append(", reason=");
    line.append(reason.as_str());
    Some(line)
}

/// The reply for `outcome`, given what rendering its page came to.
pub fn reply_for(outcome: &ResponseOutcome, rendered: Result<String, String>) -> (reply: Option<
    HttpReply,
>)
    ensures
        match reply {
            Some(r) => reply_of(outcome@, rendered_view(rendered)) == Some(r@),
            None => reply_of(outcome@, rendered_view(rendered)) is None,
        },
{
    if let ResponseOutcome::Delegated = outcome {
        return None;
    }
    let fail_reason = client_message(outcome);
    match rendered {
        Ok(page) => Some(
            HttpReply { status: status_code(outcome), is_html: true, fail_reason, body: page },
        ),
        Err(e) => {
            let mut body = "Failed to render template. Error: ".to_string();
            body.append(e.as_str());
            Some(HttpReply { status: 500, is_html: false, fail_reason: None, body })
        },
    }
}

} // verus!
