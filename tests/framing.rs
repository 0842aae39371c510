use text_border::{create_text_border, TextBorderOptions};

fn options(
    border_char: char,
    border_thickness: (usize, usize, usize, usize),
    margin_thickness: (usize, usize, usize, usize),
    prevent_trim: bool,
) -> TextBorderOptions {
    TextBorderOptions { border_char, border_thickness, margin_thickness, prevent_trim }
}

#[test]
fn default_frame_around_short_message() {
    let out = create_text_border("Hi", None);
    assert_eq!(out, "****\n*Hi*\n****");
    let lines: Vec<&str> = out.split('\n').collect();
    assert_eq!(lines, vec!["****", "*Hi*", "****"]);
}

#[test]
fn hash_border_with_margins_keeps_whitespace() {
    let opts = options('#', (2, 2, 2, 2), (1, 1, 1, 1), true);
    let out = create_text_border("  Hello, World!  ", Some(opts));
    let border = "#".repeat(23);
    let margin = format!("##{}##", " ".repeat(19));
    let middle = "## ".to_string() + "  Hello, World!  " + " ##";
    let expected = vec![
        border.clone(),
        border.clone(),
        margin.clone(),
        middle,
        margin,
        border.clone(),
        border,
    ]
    .join("\n");
    assert_eq!(out, expected);
}

#[test]
fn empty_message_with_defaults() {
    assert_eq!(create_text_border("", None), "**\n**\n**");
}

#[test]
fn zero_thickness_trims_to_bare_message() {
    let opts = options('*', (0, 0, 0, 0), (0, 0, 0, 0), false);
    assert_eq!(create_text_border(" x ", Some(opts)), "x");
}

#[test]
fn absent_options_equal_default_options() {
    for message in ["", "Hi", "  padded  ", "\tab\n"] {
        assert_eq!(
            create_text_border(message, None),
            create_text_border(message, Some(TextBorderOptions::default()))
        );
    }
}

#[test]
fn default_options_values() {
    let d = TextBorderOptions::default();
    assert_eq!(d.border_char, '*');
    assert_eq!(d.border_thickness, (1, 1, 1, 1));
    assert_eq!(d.margin_thickness, (0, 0, 0, 0));
    assert!(!d.prevent_trim);
}

#[test]
fn rows_have_equal_length() {
    let opts = options('=', (3, 1, 2, 2), (2, 3, 1, 1), false);
    let out = create_text_border("  frame me\t", Some(opts));
    let lines: Vec<&str> = out.split('\n').collect();
    let width = "frame me".len() + 3 + 2 + 2 + 1;
    for line in &lines {
        assert_eq!(line.chars().count(), width);
    }
}

#[test]
fn row_count_follows_thicknesses() {
    let opts = options('+', (1, 4, 1, 2), (0, 3, 0, 5), true);
    let out = create_text_border("abc", Some(opts));
    assert_eq!(out.split('\n').count(), 4 + 3 + 1 + 5 + 2);
    assert!(!out.ends_with('\n'));
    assert!(!out.starts_with('\n'));
}

#[test]
fn trimming_drops_every_kind_of_outer_whitespace() {
    let opts = options('|', (1, 0, 1, 0), (0, 0, 0, 0), false);
    assert_eq!(create_text_border(" \t\n a b \r\n ", Some(opts)), "|a b|");
}

#[test]
fn trimming_keeps_inner_whitespace() {
    let opts = options('*', (1, 1, 1, 1), (0, 0, 0, 0), false);
    assert_eq!(create_text_border("  a  b  ", Some(opts)), "******\n*a  b*\n******");
}

#[test]
fn prevent_trim_keeps_outer_whitespace() {
    let opts = options('*', (1, 0, 1, 0), (0, 0, 0, 0), true);
    assert_eq!(create_text_border("\t x ", Some(opts)), "*\t x *");
}

#[test]
fn whitespace_only_message_trims_to_empty() {
    let opts = options('*', (1, 1, 1, 1), (1, 0, 1, 0), false);
    assert_eq!(create_text_border("   \t ", Some(opts)), "****\n*  *\n****");
}

#[test]
fn width_counts_characters_not_bytes() {
    let opts = options('█', (1, 1, 1, 1), (0, 0, 0, 0), false);
    let out = create_text_border("héllo", Some(opts));
    assert_eq!(out, "███████\n█héllo█\n███████");
}

#[test]
fn asymmetric_thicknesses() {
    let opts = options('o', (2, 1, 0, 0), (1, 1, 3, 0), true);
    let out = create_text_border("ab", Some(opts));
    assert_eq!(out, "oooooooo\noo      \noo ab   ");
}

#[test]
fn margin_only_frame() {
    let opts = options('*', (0, 0, 0, 0), (1, 1, 1, 1), false);
    assert_eq!(create_text_border("z", Some(opts)), "   \n z \n   ");
}
