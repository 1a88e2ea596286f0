use xdp_firmware::helper::{bpf_format_supported, helper_arg_count, helper_dispatcher, log, UNKNOWN_HELPER};
use xdp_firmware::message::zip_format;
use xdp_firmware::printk::parse_bpf_format;

fn format(fmt: &[u8], args: &[usize]) -> String {
    zip_format(parse_bpf_format(fmt), args).as_str().to_string()
}

#[test]
fn directives_take_the_arguments_in_order() {
    assert_eq!(format(b"x=%d y=%i", &[5, 123]), "x=5 y=123");
}

#[test]
fn zero_and_largest_values() {
    assert_eq!(format(b"%d", &[0]), "0");
    assert_eq!(format(b"%d", &[usize::MAX]), usize::MAX.to_string());
    assert_eq!(format(b"%d|%d", &[1000000, 7]), "1000000|7");
}

#[test]
fn extra_arguments_are_ignored() {
    assert_eq!(format(b"only text", &[1, 2]), "only text");
}

#[test]
fn invalid_utf8_text_is_dropped() {
    assert_eq!(format(b"\xff\xfe%d ok", &[7]), "7 ok");
    assert_eq!(format("é%d".as_bytes(), &[3]), "é3");
}

#[test]
fn stray_percent_is_printed() {
    assert_eq!(format(b"50%% %d%", &[9]), "50%% 9%");
}

#[test]
fn a_piece_that_does_not_fit_is_left_out_whole() {
    let mut fmt = vec![b'a'; 250];
    fmt.extend_from_slice(b"%d");
    fmt.extend_from_slice(b"bb");
    let out = format(&fmt, &[1234567]);
    assert_eq!(out.len(), 252);
    assert!(out.starts_with(&"a".repeat(250)));
    assert!(out.ends_with("bb"));
    let out = format(&fmt, &[123456]);
    assert_eq!(out.len(), 256);
    assert!(out.ends_with("123456"));
}

#[test]
fn message_never_exceeds_capacity() {
    let fmt = vec![b'z'; 300];
    assert_eq!(format(&fmt, &[]), "");
    let mut fmt = vec![b'z'; 200];
    fmt.extend_from_slice(b"%d%d%d%d%d%d");
    let out = format(&fmt, &[usize::MAX, usize::MAX, usize::MAX, usize::MAX, 1, 2]);
    assert!(out.len() <= 256);
}

#[test]
fn log_formats_the_message() {
    assert_eq!(log(b"count=%d", &[42]).as_str(), "count=42");
    assert_eq!(log(b"", &[]).as_str(), "");
}

#[test]
fn dispatcher_runs_the_printk_helpers() {
    let (status, message) = helper_dispatcher(1, b"a=%d", 10, 20);
    assert_eq!(status, 0);
    assert_eq!(message.unwrap().as_str(), "a=10");
    let (status, message) = helper_dispatcher(2, b"a=%d b=%d", 10, 20);
    assert_eq!(status, 0);
    assert_eq!(message.unwrap().as_str(), "a=10 b=20");
}

#[test]
fn dispatcher_rejects_unknown_helpers() {
    for idx in [0usize, 3, 4, usize::MAX] {
        let (status, message) = helper_dispatcher(idx, b"%u%s", 1, 2);
        assert_eq!(status, UNKNOWN_HELPER);
        assert_eq!(status, usize::MAX);
        assert!(message.is_none());
    }
}

#[test]
fn helper_argument_counts() {
    assert_eq!(helper_arg_count(1), Some(1));
    assert_eq!(helper_arg_count(2), Some(2));
    assert_eq!(helper_arg_count(0), None);
    assert_eq!(helper_arg_count(7), None);
}

#[test]
fn supported_formats() {
    assert!(bpf_format_supported(b"abc", 0));
    assert!(bpf_format_supported(b"%d %i", 2));
    assert!(!bpf_format_supported(b"%d %d", 1));
    assert!(!bpf_format_supported(b"%u", 5));
    assert!(!bpf_format_supported(b"%x", 1));
    assert!(bpf_format_supported(b"%%", 0));
    let many = b"%d".repeat(17);
    assert!(bpf_format_supported(&many, 16));
    assert!(!bpf_format_supported(&many, 15));
}
