use static_server::assets::pixel_favicon;
use static_server::timefmt::{datetime, DatetimeError};

#[test]
fn favicon_is_a_png() {
    let bytes = pixel_favicon().unwrap();
    assert_eq!(bytes.len(), 70);
    assert_eq!(&bytes[..8], &[0x89, b'P', b'N', b'G', 0x0d, 0x0a, 0x1a, 0x0a]);
    assert_eq!(&bytes[bytes.len() - 8..], &[b'I', b'E', b'N', b'D', 0xae, 0x42, 0x60, 0x82]);
}

#[test]
fn epoch_is_shown_as_1970() {
    assert_eq!(datetime(0).ok().unwrap(), "1970-01-01 00:00:00 UTC");
}

#[test]
fn timestamps_are_shown_in_utc() {
    assert_eq!(datetime(1_546_300_800).ok().unwrap(), "2019-01-01 00:00:00 UTC");
    assert_eq!(datetime(1_700_000_000).ok().unwrap(), "2023-11-14 22:13:20 UTC");
    assert_eq!(datetime(-1).ok().unwrap(), "1969-12-31 23:59:59 UTC");
}

#[test]
fn timestamp_beyond_all_dates_has_no_display_form() {
    assert!(matches!(datetime(i64::MAX), Err(DatetimeError::Range)));
    assert!(matches!(datetime(i64::MIN), Err(DatetimeError::Range)));
}
