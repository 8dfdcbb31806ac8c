use static_server::hwaccel::{is_space_char, lists_vaapi};

#[test]
fn vaapi_on_a_line_of_its_own_is_found() {
    assert!(lists_vaapi("Hardware acceleration methods:\nvdpau\ncuda\nvaapi\nqsv\n"));
    assert!(lists_vaapi("vaapi"));
    assert!(lists_vaapi("vaapi\n"));
    assert!(lists_vaapi("\nvaapi"));
}

#[test]
fn white_space_around_the_name_is_ignored() {
    assert!(lists_vaapi("cuda\r\n  vaapi\t\r\nqsv\r\n"));
    assert!(lists_vaapi("\u{a0}vaapi\u{3000}"));
    assert!(lists_vaapi("a\n \t vaapi \u{2003}"));
}

#[test]
fn absent_name_is_not_found() {
    assert!(!lists_vaapi(""));
    assert!(!lists_vaapi("\n\n"));
    assert!(!lists_vaapi("Hardware acceleration methods:\nvdpau\ncuda\n"));
}

#[test]
fn name_within_other_text_is_not_found() {
    assert!(!lists_vaapi("vaapi2\n"));
    assert!(!lists_vaapi("no vaapi\n"));
    assert!(!lists_vaapi("va api\n"));
    assert!(!lists_vaapi("VAAPI\n"));
    assert!(!lists_vaapi("vaap\ni\n"));
    assert!(!lists_vaapi("vaapi\u{200b}\n"));
}

#[test]
fn white_space_is_what_unicode_calls_so() {
    for code in 0u32..0x3100 {
        if let Some(c) = char::from_u32(code) {
            assert_eq!(is_space_char(c), c.is_whitespace(), "U+{:04X}", code);
        }
    }
}

#[test]
fn lines_are_read_as_std_reads_them() {
    let outputs = ["a\nvaapi\r\nb", "vaapi\r", " vaapi \n", "x\rvaapi\n", "vaapi\n\n", "\r\n"];
    for output in outputs {
        let expected = output.lines().any(|line| line.trim() == "vaapi");
        assert_eq!(lists_vaapi(output), expected, "{:?}", output);
    }
}
