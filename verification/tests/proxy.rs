use melon::pty::proxy::{
    advance_cursor, handle_csi_sequence, parse_csi_param, parse_osc7_path, percent_decode,
    track_pty_output, try_track_pty_output, utf8_char_len,
};

#[test]
fn test_parse_osc7_path_decodes_percent_encoding() {
    assert_eq!(
        parse_osc7_path(b"]7;file://localhost/tmp/my%20project\x07"),
        Some("/tmp/my project".into())
    );
    assert_eq!(
        parse_osc7_path(b"]7;file://localhost/tmp/my%20project\x1b\\"),
        Some("/tmp/my project".into())
    );
}

#[test]
fn test_track_pty_output_updates_cwd_and_cursor() {
    let mut cwd = ".".to_string();
    let mut osc_capture = None;
    let mut row = 0;
    let mut col = 0;

    track_pty_output(b"abc", &mut cwd, &mut osc_capture, &mut row, &mut col, 80, 24);
    assert_eq!((row, col), (0, 3));

    track_pty_output(b"\x1b[10G\x1b[2D", &mut cwd, &mut osc_capture, &mut row, &mut col, 80, 24);
    assert_eq!(col, 7);

    track_pty_output(
        b"\x1b]7;file://localhost/tmp/project\x07",
        &mut cwd,
        &mut osc_capture,
        &mut row,
        &mut col,
        80,
        24,
    );
    assert_eq!(cwd, "/tmp/project");
}

#[test]
fn osc7_rejects_other_sequences_and_hostless_paths() {
    assert_eq!(parse_osc7_path(b"]0;title\x07"), None);
    assert_eq!(parse_osc7_path(b"]7;file://localhost\x07"), None);
    assert_eq!(parse_osc7_path(b"]7;file:///\x07"), Some("/".into()));
}

#[test]
fn percent_decode_edges() {
    assert_eq!(percent_decode("a%2Fb"), "a/b");
    assert_eq!(percent_decode("100%"), "100%");
    assert_eq!(percent_decode("%zz"), "%zz");
    assert_eq!(percent_decode("%+4"), "\u{4}");
    assert_eq!(percent_decode("%C3%A9"), "é");
    assert_eq!(percent_decode("%FF%FE"), "%FF%FE");
}

#[test]
fn tracking_refuses_a_report_that_would_cut_a_character() {
    let mut cwd = ".".to_string();
    let mut osc = None;
    let (mut row, mut col) = (0u16, 0u16);
    let ok = try_track_pty_output(
        "\x1b]7;file://h/%aé\x07".as_bytes(),
        &mut cwd,
        &mut osc,
        &mut row,
        &mut col,
        80,
        24,
    );
    assert!(!ok);
}

#[test]
fn osc_sequences_may_span_chunks() {
    let mut cwd = ".".to_string();
    let mut osc = None;
    let (mut row, mut col) = (0u16, 0u16);
    track_pty_output(b"\x1b]7;file://h/ho", &mut cwd, &mut osc, &mut row, &mut col, 80, 24);
    assert!(osc.is_some());
    assert_eq!(cwd, ".");
    track_pty_output(b"me\x1b\\", &mut cwd, &mut osc, &mut row, &mut col, 80, 24);
    assert!(osc.is_none());
    assert_eq!(cwd, "/home");
    assert_eq!((row, col), (0, 0));
}

#[test]
fn cursor_tracking_of_controls_and_wide_text() {
    let mut cwd = String::new();
    let mut osc = None;
    let (mut row, mut col) = (0u16, 0u16);
    track_pty_output(b"ab\tc", &mut cwd, &mut osc, &mut row, &mut col, 80, 24);
    assert_eq!(col, 9);
    track_pty_output(b"\r\n\x08", &mut cwd, &mut osc, &mut row, &mut col, 80, 24);
    assert_eq!((row, col), (1, 0));
    track_pty_output("é€😀".as_bytes(), &mut cwd, &mut osc, &mut row, &mut col, 80, 24);
    assert_eq!(col, 3);
    track_pty_output(b"\x1b[5;7H", &mut cwd, &mut osc, &mut row, &mut col, 80, 24);
    assert_eq!((row, col), (4, 6));
    track_pty_output(b"\x1b[2A\x1b[B\x1b[3C", &mut cwd, &mut osc, &mut row, &mut col, 80, 24);
    assert_eq!((row, col), (3, 9));
    track_pty_output(b"\x1b[12", &mut cwd, &mut osc, &mut row, &mut col, 80, 24);
    assert_eq!((row, col), (3, 9));
}

#[test]
fn cursor_wraps_at_the_last_column_and_stays_on_the_last_row() {
    let (mut row, mut col) = (23u16, 78u16);
    advance_cursor(&mut row, &mut col, 3, 80, 24);
    assert_eq!((row, col), (23, 1));
    let (mut row, mut col) = (0u16, 0u16);
    advance_cursor(&mut row, &mut col, 5, 0, 24);
    assert_eq!((row, col), (0, 0));
}

#[test]
fn csi_parameters() {
    assert_eq!(parse_csi_param(b"?25;7", 1, 1), 7);
    assert_eq!(parse_csi_param(b"", 0, 1), 1);
    assert_eq!(parse_csi_param(b";4", 0, 9), 9);
    assert_eq!(parse_csi_param(b";4", 1, 9), 4);
    assert_eq!(parse_csi_param(b"+3", 0, 1), 3);
    assert_eq!(parse_csi_param(b"70000", 0, 1), 1);
    assert_eq!(parse_csi_param(b"3", 2, 1), 1);
    let (mut row, mut col) = (10u16, 10u16);
    handle_csi_sequence(b"20", b'A', 24, 80, &mut row, &mut col);
    assert_eq!(row, 0);
    handle_csi_sequence(b"", b'f', 24, 80, &mut row, &mut col);
    assert_eq!((row, col), (0, 0));
    handle_csi_sequence(b"5", b'm', 24, 80, &mut row, &mut col);
    assert_eq!((row, col), (0, 0));
    assert_eq!(utf8_char_len(0xe2), 3);
    assert_eq!(utf8_char_len(0x80), 1);
}
