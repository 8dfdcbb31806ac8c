use static_server::config::RootConfig;
use static_server::dispatch::{
    display_path, on_delegate_reply, on_directory_read, on_miss, on_probe, status_code, step,
    DelegateReply, DispatchEvent, DispatchState, ResponseOutcome,
};
use static_server::lister::{ChildMeta, DirRead};

fn child(path: &str, name: &str, is_file: bool) -> DirRead {
    DirRead::Child {
        path: path.to_string(),
        name: name.to_string(),
        meta: Ok(ChildMeta { is_file, modified_secs: 1_546_300_800 }),
    }
}

fn run(raw: &str, root: &RootConfig, events: Vec<DispatchEvent>) -> DispatchState {
    let mut state = DispatchState::Start;
    for event in events {
        state = step(state, event, raw, root);
    }
    state
}

fn not_found() -> DispatchEvent {
    DispatchEvent::DelegateReplied(DelegateReply::Responded { status: 404 })
}

#[test]
fn traversal_request_is_a_bad_request() {
    let root = RootConfig::new("/srv/www", false);
    let state = run("/../../etc/passwd", &root, vec![DispatchEvent::Begin, not_found()]);
    match state {
        DispatchState::Terminal { outcome, cur_path } => {
            assert_eq!(status_code(&outcome), 400);
            assert_eq!(cur_path, "../../etc/passwd");
            match outcome {
                ResponseOutcome::BadRequest(reason) => assert_eq!(reason, "invalid path"),
                _ => panic!("not a bad request"),
            }
        }
        _ => panic!("the request has not ended"),
    }
}

#[test]
fn directory_request_is_answered_with_its_listing() {
    let root = RootConfig::new("/srv/www", false);
    let state = run("/docs", &root, vec![DispatchEvent::Begin, not_found()]);
    match &state {
        DispatchState::ResolvingPath { path, cur_path } => {
            assert_eq!(path.as_str(), "/srv/www/docs");
            assert_eq!(cur_path, "docs");
        }
        _ => panic!("the path is not being looked up"),
    }
    let state = step(state, DispatchEvent::PathProbed { is_dir: true }, "/docs", &root);
    match &state {
        DispatchState::PathOkDir { path, .. } => assert_eq!(path.as_str(), "/srv/www/docs"),
        _ => panic!("the directory is not being read"),
    }
    let reads = vec![
        child("/srv/www/docs/a.txt", "a.txt", true),
        child("/srv/www/docs/sub", "sub", false),
    ];
    let state = step(state, DispatchEvent::DirectoryRead(reads), "/docs", &root);
    match state {
        DispatchState::Terminal { outcome, .. } => {
            assert_eq!(status_code(&outcome), 200);
            match outcome {
                ResponseOutcome::Listing(listing, cur_path) => {
                    assert_eq!(cur_path, "docs");
                    assert_eq!(listing.entries.len(), 2);
                    assert_eq!(listing.entries[0].name, "a.txt");
                    assert!(listing.entries[0].is_file);
                    assert_eq!(listing.entries[0].uri, "/docs/a.txt");
                    assert_eq!(listing.entries[1].name, "sub");
                    assert!(!listing.entries[1].is_file);
                    assert_eq!(listing.entries[1].uri, "/docs/sub");
                }
                _ => panic!("not a listing"),
            }
        }
        _ => panic!("the request has not ended"),
    }
}

#[test]
fn missing_path_is_not_found() {
    let root = RootConfig::new("/srv/www", false);
    let state = run(
        "/missing.txt",
        &root,
        vec![DispatchEvent::Begin, not_found(), DispatchEvent::PathProbed { is_dir: false }],
    );
    match state {
        DispatchState::Terminal { outcome, cur_path } => {
            assert_eq!(status_code(&outcome), 404);
            assert_eq!(cur_path, "missing.txt");
            match outcome {
                ResponseOutcome::NotFound(reason) => assert_eq!(reason, "file not found"),
                _ => panic!("not a not-found outcome"),
            }
        }
        _ => panic!("the request has not ended"),
    }
}

#[test]
fn failed_directory_read_is_an_internal_error() {
    let root = RootConfig::new("/srv/www", false);
    let reads = vec![
        child("/srv/www/docs/a.txt", "a.txt", true),
        DirRead::Failed("Permission denied (os error 13)".to_string()),
        child("/srv/www/docs/sub", "sub", false),
    ];
    let state = run(
        "/docs",
        &root,
        vec![
            DispatchEvent::Begin,
            not_found(),
            DispatchEvent::PathProbed { is_dir: true },
            DispatchEvent::DirectoryRead(reads),
        ],
    );
    match state {
        DispatchState::Terminal { outcome, .. } => {
            assert_eq!(status_code(&outcome), 500);
            match outcome {
                ResponseOutcome::InternalError(reason) => {
                    assert_eq!(reason, "Permission denied (os error 13)")
                }
                _ => panic!("a listing, or part of one, was returned"),
            }
        }
        _ => panic!("the request has not ended"),
    }
}

#[test]
fn served_request_ends_with_the_delegate() {
    let root = RootConfig::new("/srv/www", false);
    for status in [200u16, 206, 304, 403, 500] {
        let reply = DispatchEvent::DelegateReplied(DelegateReply::Responded { status });
        let state = run("/a.txt", &root, vec![DispatchEvent::Begin, reply]);
        match state {
            DispatchState::Terminal { outcome, cur_path } => {
                assert!(matches!(outcome, ResponseOutcome::Delegated));
                assert_eq!(cur_path, "/a.txt");
            }
            _ => panic!("the request has not ended"),
        }
    }
}

#[test]
fn failed_delegate_is_an_internal_error() {
    let root = RootConfig::new("/srv/www", false);
    let reply = DispatchEvent::DelegateReplied(DelegateReply::Failed("broken pipe".to_string()));
    let state = run("/a.txt", &root, vec![DispatchEvent::Begin, reply]);
    match state {
        DispatchState::Terminal { outcome, cur_path } => {
            assert_eq!(status_code(&outcome), 500);
            assert_eq!(cur_path, "/a.txt");
            match outcome {
                ResponseOutcome::InternalError(reason) => {
                    assert_eq!(reason, "Unhandled error: broken pipe")
                }
                _ => panic!("not an internal error"),
            }
        }
        _ => panic!("the request has not ended"),
    }
}

#[test]
fn start_waits_for_the_request() {
    let root = RootConfig::new("/srv/www", false);
    let state = step(DispatchState::Start, DispatchEvent::Begin, "/", &root);
    assert!(matches!(state, DispatchState::DelegateAttempt));
}

#[test]
fn unexpected_event_leaves_the_state() {
    let root = RootConfig::new("/srv/www", false);
    let state = step(DispatchState::Start, not_found(), "/", &root);
    assert!(matches!(state, DispatchState::Start));
    let state = step(DispatchState::DelegateAttempt, DispatchEvent::Begin, "/", &root);
    assert!(matches!(state, DispatchState::DelegateAttempt));
    let state = step(
        DispatchState::DelegateAttempt,
        DispatchEvent::PathProbed { is_dir: true },
        "/",
        &root,
    );
    assert!(matches!(state, DispatchState::DelegateAttempt));
    let state = run("/docs", &root, vec![DispatchEvent::Begin, not_found(), DispatchEvent::Begin]);
    match state {
        DispatchState::ResolvingPath { path, cur_path } => {
            assert_eq!(path.as_str(), "/srv/www/docs");
            assert_eq!(cur_path, "docs");
        }
        _ => panic!("the state has changed"),
    }
}

#[test]
fn terminal_state_stays() {
    let root = RootConfig::new("/srv/www", false);
    let state = run(
        "/x",
        &root,
        vec![
            DispatchEvent::Begin,
            not_found(),
            DispatchEvent::PathProbed { is_dir: false },
            DispatchEvent::PathProbed { is_dir: true },
            DispatchEvent::DirectoryRead(Vec::new()),
        ],
    );
    match state {
        DispatchState::Terminal { outcome, .. } => {
            assert!(matches!(outcome, ResponseOutcome::NotFound(_)))
        }
        _ => panic!("the terminal state was left"),
    }
}

#[test]
fn encoded_traversal_is_a_bad_request() {
    let root = RootConfig::new("/srv/www", false);
    let state = on_delegate_reply(DelegateReply::Responded { status: 404 }, "/%2e%2e/x", &root);
    match state {
        DispatchState::Terminal { outcome, cur_path } => {
            assert_eq!(status_code(&outcome), 400);
            assert_eq!(cur_path, "../x");
        }
        _ => panic!("the request has not ended"),
    }
}

#[test]
fn miss_on_an_accepted_path_asks_for_a_lookup() {
    let root = RootConfig::new("/srv/www", false);
    match on_miss("//docs/sub/", &root) {
        DispatchState::ResolvingPath { path, cur_path } => {
            assert_eq!(path.as_str(), "/srv/www/docs/sub");
            assert_eq!(cur_path, "docs/sub/");
        }
        _ => panic!("the path is not being looked up"),
    }
}

#[test]
fn shown_path_has_no_leading_separator() {
    assert_eq!(display_path("/docs/a"), "docs/a");
    assert_eq!(display_path("///"), "");
    assert_eq!(display_path("docs/"), "docs/");
    assert_eq!(display_path(""), "");
}

#[test]
fn probe_decides_between_listing_and_not_found() {
    let root = RootConfig::new("/srv/www", false);
    let path = || static_server::resolver::resolve("/docs", &root).ok().unwrap();
    assert!(matches!(
        on_probe(path(), "docs".to_string(), true),
        DispatchState::PathOkDir { .. }
    ));
    assert!(matches!(
        on_probe(path(), "docs".to_string(), false),
        DispatchState::Terminal { outcome: ResponseOutcome::NotFound(_), .. }
    ));
}

#[test]
fn empty_directory_is_an_empty_listing() {
    let root = RootConfig::new("/srv/www", false);
    match on_directory_read(&Vec::new(), "docs".to_string(), &root) {
        DispatchState::Terminal { outcome: ResponseOutcome::Listing(listing, cur_path), .. } => {
            assert!(listing.entries.is_empty());
            assert_eq!(cur_path, "docs");
        }
        _ => panic!("not a listing"),
    }
}

#[test]
fn every_outcome_has_its_status() {
    assert_eq!(status_code(&ResponseOutcome::Delegated), 200);
    assert_eq!(status_code(&ResponseOutcome::NotFound("x".to_string())), 404);
    assert_eq!(status_code(&ResponseOutcome::BadRequest("x".to_string())), 400);
    assert_eq!(status_code(&ResponseOutcome::InternalError("x".to_string())), 500);
}
