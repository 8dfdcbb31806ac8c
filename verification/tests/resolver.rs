use static_server::config::RootConfig;
use static_server::decode::decode_request_path;
use static_server::resolver::{resolve, resolve_decoded};

fn resolved(raw: &str, root: &str) -> Option<String> {
    resolve(raw, &RootConfig::new(root, false)).ok().map(|p| p.as_str().to_string())
}

#[test]
fn plain_path_is_joined_onto_root() {
    let root = RootConfig::new("/srv/www", false);
    let p = resolve_decoded("/docs/a.txt", &root).ok().unwrap();
    assert_eq!(p.as_str(), "/srv/www/docs/a.txt");
    assert_eq!(p.root_len(), 8);
}

#[test]
fn request_for_the_root_resolves_to_the_root() {
    assert_eq!(resolved("/", "/srv/www"), Some("/srv/www".to_string()));
    assert_eq!(resolved("", "/srv/www"), Some("/srv/www".to_string()));
    assert_eq!(resolved("/", "/"), Some("/".to_string()));
    assert_eq!(resolved("/", "."), Some(".".to_string()));
}

#[test]
fn empty_segments_are_left_out() {
    assert_eq!(resolved("//docs///a.txt/", "/srv/www"), Some("/srv/www/docs/a.txt".to_string()));
}

#[test]
fn filesystem_root_gets_no_second_separator() {
    assert_eq!(resolved("/etc/hosts", "/"), Some("/etc/hosts".to_string()));
}

#[test]
fn empty_root_gives_a_relative_path() {
    assert_eq!(resolved("/docs/a.txt", ""), Some("docs/a.txt".to_string()));
}

#[test]
fn relative_root_is_kept() {
    assert_eq!(resolved("/a", "."), Some("./a".to_string()));
    assert_eq!(resolved("/a/b", "public/"), Some("public/a/b".to_string()));
}

#[test]
fn dotdot_segment_is_refused() {
    assert_eq!(resolved("/..", "/srv/www"), None);
    assert_eq!(resolved("/a/../b", "/srv/www"), None);
    assert_eq!(resolved("/a/..", "/srv/www"), None);
    assert_eq!(resolved("..", "/srv/www"), None);
}

#[test]
fn segment_beginning_with_dotdot_is_refused() {
    assert_eq!(resolved("/a/..b/c", "/srv/www"), None);
    assert_eq!(resolved("/...", "/srv/www"), None);
}

#[test]
fn dots_elsewhere_are_accepted() {
    assert_eq!(resolved("/a..b", "/srv/www"), Some("/srv/www/a..b".to_string()));
    assert_eq!(resolved("/a../b", "/srv/www"), Some("/srv/www/a../b".to_string()));
    assert_eq!(resolved("/./.a", "/srv/www"), Some("/srv/www/./.a".to_string()));
}

#[test]
fn backslash_is_refused() {
    assert_eq!(resolved("/a\\b", "/srv/www"), None);
    assert_eq!(resolved("/a/b\\", "/srv/www"), None);
    assert_eq!(resolved("\\", "/srv/www"), None);
}

#[test]
fn refusal_gives_the_reason() {
    let root = RootConfig::new("/srv/www", false);
    let e = resolve("/../../etc/passwd", &root).err().unwrap();
    assert_eq!(e.reason, "invalid path");
    let e = resolve_decoded("/a\\b", &root).err().unwrap();
    assert_eq!(e.reason, "invalid path");
}

#[test]
fn percent_escapes_are_decoded() {
    assert_eq!(decode_request_path("/a%20b/%2e%2E/c%2Fd"), "/a b/../c/d");
    assert_eq!(decode_request_path("/%e4%bd%a0"), "/\u{4f60}");
    assert_eq!(decode_request_path("/%41%5a%61%7A"), "/AZaz");
}

#[test]
fn incomplete_escapes_stay_as_written() {
    assert_eq!(decode_request_path("/100%/%zz/%4"), "/100%/%zz/%4");
    assert_eq!(decode_request_path("%"), "%");
    assert_eq!(decode_request_path("%4/1"), "%4/1");
    assert_eq!(decode_request_path("%%41"), "%A");
}

#[test]
fn text_without_escapes_is_unchanged() {
    assert_eq!(decode_request_path("/docs/\u{e9}t\u{e9}.txt"), "/docs/\u{e9}t\u{e9}.txt");
    assert_eq!(decode_request_path(""), "");
}

#[test]
fn ill_formed_bytes_become_replacement_characters() {
    assert_eq!(decode_request_path("/a%ffb"), "/a\u{fffd}b");
    assert_eq!(decode_request_path("/%e4%bd"), "/\u{fffd}");
}

#[test]
fn encoded_dotdot_is_refused() {
    assert_eq!(resolved("/%2e%2e/etc/passwd", "/srv/www"), None);
    assert_eq!(resolved("/a/%2E./b", "/srv/www"), None);
    assert_eq!(resolved("/a%2f..%2fb", "/srv/www"), None);
}

#[test]
fn encoded_backslash_is_refused() {
    assert_eq!(resolved("/a%5cb", "/srv/www"), None);
}

#[test]
fn dotdot_beside_ill_formed_bytes_is_refused() {
    assert_eq!(resolved("/..%ff", "/srv/www"), None);
    assert_eq!(resolved("/%ff/../x", "/srv/www"), None);
}

#[test]
fn encoded_segment_is_joined_decoded() {
    assert_eq!(resolved("/my%20docs/a.txt", "/srv/www"), Some("/srv/www/my docs/a.txt".to_string()));
}

#[test]
fn resolving_what_follows_the_root_gives_the_same_path() {
    let root = RootConfig::new("/srv/www", false);
    let first = resolve_decoded("//docs//sub/", &root).ok().unwrap();
    let tail = &first.as_str()[first.root_len()..];
    assert_eq!(tail, "/docs/sub");
    let second = resolve_decoded(tail, &root).ok().unwrap();
    assert_eq!(first.as_str(), second.as_str());
}
