use termal::codes::{
    bg, bg256, csi, cursor_column, define_color_code, fg, fg256, move_down, move_left, move_right,
    move_to, move_up, request_selection, set_cursor, set_cursor_color, set_default_bg_color,
    set_default_fg_color, set_selection, CursorStyle, GetString, Selection,
};
use termal::Rgb;

#[test]
fn lib_test_macros() {
    assert_eq!(csi(&vec![1, 2, 3, 4, 5], "a"), "\x1b[1;2;3;4;5a");
    assert_eq!(csi(&vec![1 + 0, 2, 3, 4, 5], "a"), "\x1b[1;2;3;4;5a");
}

#[test]
fn codes_test_macros() {
    assert_eq!(csi(&vec![1, 2, 3, 4, 5], "a"), "\x1b[1;2;3;4;5a");
    assert_eq!(csi(&vec![1 + 0, 2, 3, 4, 5], "a"), "\x1b[1;2;3;4;5a");
}

#[test]
fn csi_no_args_and_big_args() {
    assert_eq!(csi(&vec![], "c"), "\x1b[c");
    assert_eq!(csi(&vec![0], "m"), "\x1b[0m");
    assert_eq!(
        csi(&vec![18446744073709551615], "m"),
        "\x1b[18446744073709551615m"
    );
}

#[test]
fn set_cursor_styles() {
    assert_eq!(set_cursor(CursorStyle::Block(Some(true))), "\x1b[0 q");
    assert_eq!(set_cursor(CursorStyle::Block(None)), "\x1b[1 q");
    assert_eq!(set_cursor(CursorStyle::Block(Some(false))), "\x1b[2 q");
    assert_eq!(set_cursor(CursorStyle::Underline(true)), "\x1b[3 q");
    assert_eq!(set_cursor(CursorStyle::Underline(false)), "\x1b[4 q");
    assert_eq!(set_cursor(CursorStyle::Bar(true)), "\x1b[5 q");
    assert_eq!(set_cursor(CursorStyle::Bar(false)), "\x1b[6 q");
}

#[test]
fn osc_color_codes() {
    assert_eq!(
        define_color_code(5, Rgb::new(255, 0, 16)),
        "\x1b]4;5;rgb:ff/00/10\x1b\\"
    );
    assert_eq!(
        set_default_fg_color(Rgb::new(1, 2, 3)),
        "\x1b]10;rgb:01/02/03\x1b\\"
    );
    assert_eq!(
        set_default_bg_color(Rgb::new(16, 32, 64)),
        "\x1b]11;rgb:10/20/40\x1b\\"
    );
    assert_eq!(
        set_cursor_color(Rgb::new(171, 205, 239)),
        "\x1b]12;rgb:ab/cd/ef\x1b\\"
    );
}

#[test]
fn truecolor_codes() {
    assert_eq!(fg(Rgb::new(255, 0, 0)), "\x1b[38;2;255;0;0m");
    assert_eq!(bg(Rgb::new(0, 0, 255)), "\x1b[48;2;0;0;255m");
}

#[test]
fn selection_requests() {
    assert_eq!(request_selection(&vec![]), "\x1b]52;;?\x1b\\");
    assert_eq!(
        request_selection(&vec![Selection::Clipboard, Selection::Primary]),
        "\x1b]52;cp;?\x1b\\"
    );
    assert_eq!(
        request_selection(&vec![
            Selection::Secondary,
            Selection::Select,
            Selection::Cut0,
            Selection::Cut7,
        ]),
        "\x1b]52;qs07;?\x1b\\"
    );
}

#[test]
fn selection_set_encodes_base64() {
    let data: Vec<u8> = b"hello".to_vec();
    assert_eq!(
        set_selection(&vec![Selection::Clipboard], &data),
        "\x1b]52;c;aGVsbG8=\x1b\\"
    );
    let empty: Vec<u8> = Vec::new();
    assert_eq!(set_selection(&vec![], &empty), "\x1b]52;;\x1b\\");
}

#[test]
fn get_string_from_both() {
    assert_eq!("abc".get_string(), "abc".to_string());
    assert_eq!("abc".to_string().get_string(), "abc".to_string());
}

#[test]
fn cursor_moves() {
    assert_eq!(move_to(1, 1), "\x1b[1;1H");
    assert_eq!(move_to(7, 3), "\x1b[3;7H");
    assert_eq!(move_up(5), "\x1b[5A");
    assert_eq!(move_down(5), "\x1b[5B");
    assert_eq!(move_right(5), "\x1b[5C");
    assert_eq!(move_left(11), "\x1b[11D");
    assert_eq!(cursor_column(4), "\x1b[4G");
    // moving by zero positions needs no code at all
    assert_eq!(move_up(0), "");
    assert_eq!(move_left(0), "");
}

#[test]
fn palette_colors() {
    assert_eq!(fg256(196), "\x1b[38;5;196m");
    assert_eq!(bg256(0), "\x1b[48;5;0m");
}
