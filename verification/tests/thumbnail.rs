use static_server::config::RootConfig;
use static_server::thumbnail::{
    frame_arguments, frame_or_placeholder, frame_source_path, frame_width, parse_u32,
    scale_filter, TranscoderRun, DEFAULT_FRAME_WIDTH,
};

#[test]
fn decimal_text_is_read() {
    assert_eq!(parse_u32("0"), Some(0));
    assert_eq!(parse_u32("640"), Some(640));
    assert_eq!(parse_u32("007"), Some(7));
    assert_eq!(parse_u32("+15"), Some(15));
    assert_eq!(parse_u32("4294967295"), Some(u32::MAX));
}

#[test]
fn text_that_is_no_number_is_not_read() {
    for text in ["", "+", "-", "-1", "-0", "++1", "1+", "12a", " 12", "12 ", "1_000", "1.5", "0x10", "\u{0661}"] {
        assert_eq!(parse_u32(text), None, "{:?}", text);
    }
}

#[test]
fn number_beyond_32_bits_is_not_read() {
    assert_eq!(parse_u32("4294967296"), None);
    assert_eq!(parse_u32("99999999999999999999999999"), None);
    assert_eq!(parse_u32("4294967296x"), None);
}

#[test]
fn numbers_are_read_as_std_reads_them() {
    for text in ["0", "1", "+0", "+", "00", "4294967295", "4294967296", "12345678901", "-5", "a", ""] {
        assert_eq!(parse_u32(text), text.parse::<u32>().ok(), "{:?}", text);
    }
}

#[test]
fn width_defaults_to_1280() {
    assert_eq!(DEFAULT_FRAME_WIDTH, 1280);
    assert_eq!(frame_width(None), 1280);
    assert_eq!(frame_width(Some("wide")), 1280);
    assert_eq!(frame_width(Some("")), 1280);
    assert_eq!(frame_width(Some("-3")), 1280);
}

#[test]
fn width_is_taken_from_the_request() {
    assert_eq!(frame_width(Some("320")), 320);
    assert_eq!(frame_width(Some("0")), 0);
}

#[test]
fn source_is_the_file_below_the_root() {
    let root = RootConfig::new("/srv/www/", true);
    assert_eq!(frame_source_path(&root, "videos/a.mp4"), "/srv/www/videos/a.mp4");
    assert_eq!(frame_source_path(&root, ""), "/srv/www/");
    assert_eq!(frame_source_path(&RootConfig::new("/", true), "a.mp4"), "//a.mp4");
}

#[test]
fn scale_filter_names_the_width() {
    assert_eq!(scale_filter(1280), "scale=1280:-1");
    assert_eq!(scale_filter(0), "scale=0:-1");
    assert_eq!(scale_filter(9), "scale=9:-1");
    assert_eq!(scale_filter(10), "scale=10:-1");
    assert_eq!(scale_filter(u32::MAX), "scale=4294967295:-1");
}

#[test]
fn transcoder_is_called_for_one_frame() {
    let args = frame_arguments("00:00:30.0", "/srv/www/a.mp4", 640);
    assert_eq!(
        args,
        vec![
            "-timelimit", "24", "-loglevel", "error", "-an", "-noautorotate", "-ss",
            "00:00:30.0", "-i", "/srv/www/a.mp4", "-vf", "scale=640:-1", "-frames:v", "1", "-f",
            "image2", "-",
        ]
    );
}

#[test]
fn frame_goes_out_where_the_transcoder_wrote_one() {
    let placeholder = vec![1u8, 2, 3];
    let run = TranscoderRun::Finished { success: true, stdout: vec![9u8, 8] };
    assert_eq!(frame_or_placeholder(run, &placeholder), vec![9u8, 8]);
}

#[test]
fn placeholder_goes_out_otherwise() {
    let placeholder = vec![1u8, 2, 3];
    let run = TranscoderRun::Finished { success: true, stdout: Vec::new() };
    assert_eq!(frame_or_placeholder(run, &placeholder), placeholder);
    let run = TranscoderRun::Finished { success: false, stdout: vec![9u8, 8] };
    assert_eq!(frame_or_placeholder(run, &placeholder), placeholder);
    assert_eq!(frame_or_placeholder(TranscoderRun::Failed, &placeholder), placeholder);
}
