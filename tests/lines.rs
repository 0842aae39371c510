use text_border::TextBorderOptions;

fn sample() -> TextBorderOptions {
    TextBorderOptions {
        border_char: '#',
        border_thickness: (2, 1, 1, 1),
        margin_thickness: (1, 0, 3, 0),
        prevent_trim: false,
    }
}

#[test]
fn border_line_spans_full_width() {
    assert_eq!(sample().create_border_line("abcd"), "#".repeat(4 + 2 + 1 + 1 + 3));
}

#[test]
fn border_line_of_empty_message() {
    assert_eq!(sample().create_border_line(""), "#######");
}

#[test]
fn margin_line_has_blank_interior() {
    assert_eq!(sample().create_margin_line("abcd"), format!("##{}#", " ".repeat(8)));
}

#[test]
fn message_line_places_message_between_margins() {
    assert_eq!(sample().create_message_line("abcd"), "## abcd   #");
}

#[test]
fn message_line_keeps_message_verbatim() {
    assert_eq!(sample().create_message_line(" x "), "##  x    #");
}

#[test]
fn trim_removes_only_outer_whitespace() {
    assert_eq!(text_border::text::trim_white_space("\u{a0} a\tb \n"), "a\tb");
    assert_eq!(text_border::text::trim_white_space(" \t "), "");
    assert_eq!(text_border::text::trim_white_space("x"), "x");
}
