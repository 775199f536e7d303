use hexyl::BorderStyle;
use hexyl::Printer;

fn render(input: &[u8], show_color: bool, border: BorderStyle, squeeze: bool) -> String {
    let mut printer = Printer::new(show_color, border, squeeze);
    printer.print_all(input);
    String::from_utf8(printer.output().clone()).unwrap()
}

#[test]
fn empty_file_passes() {
    let expected_string =
        "┌────────┬─────────────────────────┬─────────────────────────┬────────┬────────┐
└────────┴─────────────────────────┴─────────────────────────┴────────┴────────┘
"
        .to_owned();
    assert_eq!(render(&[], false, BorderStyle::Unicode, true), expected_string);
}

#[test]
fn short_input_passes() {
    let expected_string =
        "┌────────┬─────────────────────────┬─────────────────────────┬────────┬────────┐
│00000000│ 73 70 61 6d             ┊                         │spam    ┊        │
└────────┴─────────────────────────┴─────────────────────────┴────────┴────────┘
"
        .to_owned();
    assert_eq!(render(b"spam", false, BorderStyle::Unicode, true), expected_string);
}

#[test]
fn display_offset() {
    let expected_string =
        "┌────────┬─────────────────────────┬─────────────────────────┬────────┬────────┐
│deadbeef│ 73 70 61 6d 73 70 61 6d ┊ 73 70 61 6d 73 70 61 6d │spamspam┊spamspam│
│deadbeff│ 73 70 61 6d             ┊                         │spam    ┊        │
└────────┴─────────────────────────┴─────────────────────────┴────────┴────────┘
"
        .to_owned();

    let mut printer = Printer::new(false, BorderStyle::Unicode, true);
    printer.display_offset(0xdeadbeef);
    printer.print_all(b"spamspamspamspamspam");
    let actual = String::from_utf8(printer.output().clone()).unwrap();
    assert_eq!(actual, expected_string);
}

#[test]
fn empty_input_ascii_border() {
    let expected_string =
        "+--------+-------------------------+-------------------------+--------+--------+
+--------+-------------------------+-------------------------+--------+--------+
"
        .to_owned();
    assert_eq!(render(&[], false, BorderStyle::Ascii, true), expected_string);
}

#[test]
fn empty_input_no_border() {
    assert_eq!(render(&[], false, BorderStyle::NoBorder, true), "");
    assert_eq!(render(&[], false, BorderStyle::NoBorder, false), "");
}

#[test]
fn empty_input_with_color_and_no_squeeze() {
    let expected_string =
        "┌────────┬─────────────────────────┬─────────────────────────┬────────┬────────┐
└────────┴─────────────────────────┴─────────────────────────┴────────┴────────┘
"
        .to_owned();
    assert_eq!(render(&[], true, BorderStyle::Unicode, false), expected_string);
}

#[test]
fn single_byte_is_one_padded_line() {
    let expected_string =
        "┌────────┬─────────────────────────┬─────────────────────────┬────────┬────────┐
│00000000│ 61                      ┊                         │a       ┊        │
└────────┴─────────────────────────┴─────────────────────────┴────────┴────────┘
"
        .to_owned();
    assert_eq!(render(b"a", false, BorderStyle::Unicode, true), expected_string);
}

#[test]
fn fifteen_bytes_are_one_padded_line() {
    let out = render(b"ABCDEFGHIJKLMNO", false, BorderStyle::Unicode, true);
    let expected_string =
        "┌────────┬─────────────────────────┬─────────────────────────┬────────┬────────┐
│00000000│ 41 42 43 44 45 46 47 48 ┊ 49 4a 4b 4c 4d 4e 4f    │ABCDEFGH┊IJKLMNO │
└────────┴─────────────────────────┴─────────────────────────┴────────┴────────┘
"
        .to_owned();
    assert_eq!(out, expected_string);
}

#[test]
fn ascii_border_short_input() {
    let expected_string =
        "+--------+-------------------------+-------------------------+--------+--------+
|00000000| 73 70 61 6d             |                         |spam    |        |
+--------+-------------------------+-------------------------+--------+--------+
"
        .to_owned();
    assert_eq!(render(b"spam", false, BorderStyle::Ascii, true), expected_string);
}

#[test]
fn offset_column_counts_in_sixteens() {
    let input = [0x41u8; 40];
    let out = render(&input, false, BorderStyle::Unicode, false);
    let lines: Vec<&str> = out.lines().collect();
    assert_eq!(lines.len(), 5);
    assert!(lines[1].starts_with("│00000000│"));
    assert!(lines[2].starts_with("│00000010│"));
    assert!(lines[3].starts_with("│00000020│"));
}

#[test]
fn squeeze_three_or_more_identical_lines() {
    let input = [0u8; 64];
    let expected_string =
        "┌────────┬─────────────────────────┬─────────────────────────┬────────┬────────┐
│00000000│ 00 00 00 00 00 00 00 00 ┊ 00 00 00 00 00 00 00 00 │00000000┊00000000│
│00000010│ 00 00 00 00 00 00 00 00 ┊ 00 00 00 00 00 00 00 00 │00000000┊00000000│
│*       │                         ┊                         │        ┊        │
│00000040│                         ┊                         │        ┊        │
└────────┴─────────────────────────┴─────────────────────────┴────────┴────────┘
"
        .to_owned();
    assert_eq!(render(&input, false, BorderStyle::Unicode, true), expected_string);
}

#[test]
fn squeeze_exactly_two_identical_lines_shows_no_marker() {
    let input = [0u8; 32];
    let out = render(&input, false, BorderStyle::Unicode, true);
    assert!(!out.contains('*'));
    let expected_string =
        "┌────────┬─────────────────────────┬─────────────────────────┬────────┬────────┐
│00000000│ 00 00 00 00 00 00 00 00 ┊ 00 00 00 00 00 00 00 00 │00000000┊00000000│
│00000010│ 00 00 00 00 00 00 00 00 ┊ 00 00 00 00 00 00 00 00 │00000000┊00000000│
│00000020│                         ┊                         │        ┊        │
└────────┴─────────────────────────┴─────────────────────────┴────────┴────────┘
"
        .to_owned();
    assert_eq!(out, expected_string);
}

#[test]
fn squeeze_run_interrupted_by_different_line() {
    let mut input = vec![0u8; 64];
    input.extend(b"ABCDEFGHIJKLMNOP");
    let out = render(&input, false, BorderStyle::Unicode, true);
    let lines: Vec<&str> = out.lines().collect();
    // two verbatim zero lines, one marker, then the differing line prints
    assert_eq!(lines.len(), 6);
    assert!(lines[1].starts_with("│00000000│"));
    assert!(lines[2].starts_with("│00000010│"));
    assert!(lines[3].starts_with("│*"));
    assert!(lines[4].starts_with("│00000040│ 41 42 43 44"));
}

#[test]
fn no_squeezing_shows_every_line() {
    let input = [0u8; 48];
    let out = render(&input, false, BorderStyle::Unicode, false);
    let lines: Vec<&str> = out.lines().collect();
    assert_eq!(lines.len(), 5);
    assert!(!out.contains('*'));
    assert!(lines[1].starts_with("│00000000│"));
    assert!(lines[2].starts_with("│00000010│"));
    assert!(lines[3].starts_with("│00000020│"));
}

#[test]
fn no_squeezing_line_count_is_input_length_over_sixteen() {
    for len in [0usize, 1, 15, 16, 17, 32, 33, 100] {
        let input = vec![0x42u8; len];
        let out = render(&input, false, BorderStyle::Unicode, false);
        let body_lines = out.lines().count() - 2;
        assert_eq!(body_lines, (len + 15) / 16);
    }
}

#[test]
fn header_printed_lazily() {
    let mut printer = Printer::new(false, BorderStyle::Unicode, true);
    assert!(!printer.header_was_printed());
    printer.print_all(b"x");
    assert!(printer.header_was_printed());
}

#[test]
fn colored_cells_carry_escape_sequences() {
    let out = render(b"a", true, BorderStyle::NoBorder, false);
    // cyan for printable ASCII, closed by the default-foreground escape
    assert!(out.contains("\u{1b}[36m61 \u{1b}[39m"));
    // grey for the offset column
    assert!(out.contains("\u{1b}[38;2;108;108;108m00000000\u{1b}[39m"));
}

#[test]
fn wide_display_offset_grows_past_eight_digits() {
    let mut printer = Printer::new(false, BorderStyle::NoBorder, false);
    printer.display_offset(0x100000000);
    printer.print_all(b"a");
    let out = String::from_utf8(printer.output().clone()).unwrap();
    assert!(out.contains("100000000"));
}

#[test]
fn take_output_drains_incrementally() {
    let mut printer = Printer::new(false, BorderStyle::Unicode, false);
    let mut collected: Vec<u8> = Vec::new();
    for b in b"spamspamspamspamspam" {
        printer.print_byte(*b);
        collected.extend_from_slice(&printer.take_output());
    }
    printer.print_textline();
    if !printer.header_was_printed() {
        printer.header();
    }
    printer.footer();
    collected.extend_from_slice(&printer.take_output());
    let whole = render(b"spamspamspamspamspam", false, BorderStyle::Unicode, false);
    assert_eq!(String::from_utf8(collected).unwrap(), whole);
}
