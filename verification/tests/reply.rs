use static_server::dispatch::ResponseOutcome;
use static_server::lister::Listing;
use static_server::reply::{client_message, failure_log, reply_for, FAIL_REASON_HEADER_NAME};

#[test]
fn failure_header_has_its_name() {
    assert_eq!(FAIL_REASON_HEADER_NAME, "static-server-fail-reason");
}

#[test]
fn rendered_listing_is_a_page_with_status_200() {
    let outcome = ResponseOutcome::Listing(Listing { entries: Vec::new() }, "docs".to_string());
    let reply = reply_for(&outcome, Ok("<html></html>".to_string())).unwrap();
    assert_eq!(reply.status, 200);
    assert!(reply.is_html);
    assert_eq!(reply.fail_reason, None);
    assert_eq!(reply.body, "<html></html>");
}

#[test]
fn rendered_failures_carry_status_and_reason() {
    let cases = vec![
        (ResponseOutcome::NotFound("file not found".to_string()), 404u16, "file not found"),
        (ResponseOutcome::BadRequest("invalid path".to_string()), 400u16, "invalid path"),
        (ResponseOutcome::InternalError("disk on fire".to_string()), 500u16, "internal server error"),
    ];
    for (outcome, status, reason) in cases {
        let reply = reply_for(&outcome, Ok("<p>error</p>".to_string())).unwrap();
        assert_eq!(reply.status, status);
        assert!(reply.is_html);
        assert_eq!(reply.fail_reason, Some(reason.to_string()));
        assert_eq!(reply.body, "<p>error</p>");
    }
}

#[test]
fn render_failure_is_a_plain_500() {
    let outcomes = vec![
        ResponseOutcome::Listing(Listing { entries: Vec::new() }, "docs".to_string()),
        ResponseOutcome::NotFound("file not found".to_string()),
        ResponseOutcome::BadRequest("invalid path".to_string()),
        ResponseOutcome::InternalError("disk on fire".to_string()),
    ];
    for outcome in outcomes {
        let reply = reply_for(&outcome, Err("missing field".to_string())).unwrap();
        assert_eq!(reply.status, 500);
        assert!(!reply.is_html);
        assert_eq!(reply.fail_reason, None);
        assert_eq!(reply.body, "Failed to render template. Error: missing field");
    }
}

#[test]
fn delegated_outcome_has_no_reply_of_its_own() {
    assert!(reply_for(&ResponseOutcome::Delegated, Ok("page".to_string())).is_none());
    assert!(reply_for(&ResponseOutcome::Delegated, Err("e".to_string())).is_none());
}

#[test]
fn client_is_told_why_a_path_failed() {
    assert_eq!(
        client_message(&ResponseOutcome::NotFound("file not found".to_string())),
        Some("file not found".to_string())
    );
    assert_eq!(
        client_message(&ResponseOutcome::BadRequest("invalid path".to_string())),
        Some("invalid path".to_string())
    );
}

#[test]
fn client_is_not_told_the_text_of_an_internal_error() {
    assert_eq!(
        client_message(&ResponseOutcome::InternalError("/srv/www/x: Permission denied".to_string())),
        Some("internal server error".to_string())
    );
}

#[test]
fn outcome_that_is_no_failure_has_no_message() {
    assert_eq!(client_message(&ResponseOutcome::Delegated), None);
    let listing = ResponseOutcome::Listing(Listing { entries: Vec::new() }, "docs".to_string());
    assert_eq!(client_message(&listing), None);
    assert_eq!(failure_log(&ResponseOutcome::Delegated, "a.txt"), None);
    assert_eq!(failure_log(&listing, "docs"), None);
}

#[test]
fn failure_is_logged_with_path_and_reason() {
    assert_eq!(
        failure_log(&ResponseOutcome::InternalError("disk on fire".to_string()), "docs/a"),
        Some("request failed, path=docs/a, reason=disk on fire".to_string())
    );
    assert_eq!(
        failure_log(&ResponseOutcome::BadRequest("invalid path".to_string()), "../x"),
        Some("request failed, path=../x, reason=invalid path".to_string())
    );
    assert_eq!(
        failure_log(&ResponseOutcome::NotFound("file not found".to_string()), "missing.txt"),
        Some("request failed, path=missing.txt, reason=file not found".to_string())
    );
}
