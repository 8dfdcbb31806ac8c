use static_server::config::RootConfig;

#[test]
fn trailing_separators_are_stripped() {
    assert_eq!(RootConfig::new("/foo/bar/", false).root_dir(), "/foo/bar");
    assert_eq!(RootConfig::new("/foo///", false).root_dir(), "/foo");
    assert_eq!(RootConfig::new("./", false).root_dir(), ".");
}

#[test]
fn filesystem_root_is_kept() {
    assert_eq!(RootConfig::new("/", false).root_dir(), "/");
}

#[test]
fn several_separators_alone_are_stripped() {
    assert_eq!(RootConfig::new("//", false).root_dir(), "");
}

#[test]
fn root_without_trailing_separator_is_unchanged() {
    assert_eq!(RootConfig::new("/srv/www", true).root_dir(), "/srv/www");
    assert_eq!(RootConfig::new("", true).root_dir(), "");
    assert_eq!(RootConfig::new(".", true).root_dir(), ".");
}

#[test]
fn thumbnail_flag_is_kept() {
    assert!(RootConfig::new("/srv/www", true).thumbnail_enabled());
    assert!(!RootConfig::new("/srv/www", false).thumbnail_enabled());
}
