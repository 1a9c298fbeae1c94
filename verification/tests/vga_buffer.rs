use vga_text::vga_buffer::{Color, ColorCode, Writer, print_something};

fn all_colors() -> Vec<Color> {
    vec![
        Color::Black,
        Color::Blue,
        Color::Green,
        Color::Cyan,
        Color::Red,
        Color::Magenta,
        Color::Brown,
        Color::LightGray,
        Color::DarkGray,
        Color::LightBlue,
        Color::LightGreen,
        Color::LightCyan,
        Color::LightRed,
        Color::Pink,
        Color::Yellow,
        Color::White,
    ]
}

fn assert_cell(w: &Writer, row: usize, col: usize, byte: u8, attr: u8) {
    let cell = w.char_at(row, col);
    assert_eq!(cell.ascii_character, byte, "row {} col {}", row, col);
    assert_eq!(cell.color_code.0, attr, "row {} col {}", row, col);
}

fn assert_row_blank(w: &Writer, row: usize, attr: u8) {
    for col in 0..80 {
        assert_cell(w, row, col, 0x20, attr);
    }
}

#[test]
fn color_codes_match_fixed_table() {
    let colors = all_colors();
    for (i, c) in colors.iter().enumerate() {
        assert_eq!(c.code(), i as u8);
    }
}

#[test]
fn color_attribute_all_pairs() {
    let colors = all_colors();
    for (bi, bg) in colors.iter().enumerate() {
        for (fi, fg) in colors.iter().enumerate() {
            let attr = ColorCode::new(*fg, *bg);
            assert_eq!(attr.0, ((bi as u8) << 4) | (fi as u8));
        }
    }
}

#[test]
fn initial_grid_is_blank() {
    let w = Writer::new(Color::Yellow, Color::Black);
    let attr = ColorCode::new(Color::Yellow, Color::Black).0;
    assert_eq!(w.column(), 0);
    assert_eq!(w.color().0, attr);
    for row in 0..25 {
        assert_row_blank(&w, row, attr);
    }
}

#[test]
fn printable_byte_lands_at_cursor() {
    let mut w = Writer::new(Color::Yellow, Color::Black);
    let attr = ColorCode::new(Color::Yellow, Color::Black).0;
    w.write_byte(b'A');
    assert_cell(&w, 24, 0, b'A', attr);
    assert_eq!(w.column(), 1);
    w.write_byte(b'B');
    assert_cell(&w, 24, 1, b'B', attr);
    assert_eq!(w.column(), 2);
}

#[test]
fn unprintable_byte_is_substituted() {
    let mut via_string = Writer::new(Color::White, Color::Blue);
    let mut via_byte = Writer::new(Color::White, Color::Blue);
    via_string.write_string("\u{1}");
    via_byte.write_byte(0xfe);
    assert_eq!(via_string.column(), via_byte.column());
    for row in 0..25 {
        for col in 0..80 {
            assert_eq!(via_string.char_at(row, col), via_byte.char_at(row, col));
        }
    }
}

#[test]
fn eighty_first_byte_wraps() {
    let mut w = Writer::new(Color::LightGreen, Color::Black);
    let attr = ColorCode::new(Color::LightGreen, Color::Black).0;
    let mut bytes = vec![b'A'; 80];
    bytes.push(b'B');
    w.write_bytes(&bytes);
    assert_eq!(w.column(), 1);
    for col in 0..80 {
        assert_cell(&w, 23, col, b'A', attr);
    }
    assert_cell(&w, 24, 0, b'B', attr);
    for col in 1..80 {
        assert_cell(&w, 24, col, 0x20, attr);
    }
    for row in 0..23 {
        assert_row_blank(&w, row, attr);
    }
}

#[test]
fn wrap_happens_before_overflow_not_after() {
    let mut w = Writer::new(Color::Cyan, Color::Black);
    w.write_bytes(&vec![b'x'; 80]);
    // the row is exactly full: no wrap yet, the cursor rests at the width
    assert_eq!(w.column(), 80);
    let attr = ColorCode::new(Color::Cyan, Color::Black).0;
    for col in 0..80 {
        assert_cell(&w, 24, col, b'x', attr);
    }
    w.write_byte(b'y');
    assert_eq!(w.column(), 1);
    assert_cell(&w, 24, 0, b'y', attr);
    for col in 0..80 {
        assert_cell(&w, 23, col, b'x', attr);
    }
}

#[test]
fn line_advance_shifts_rows_and_resets_column() {
    let mut w = Writer::new(Color::Yellow, Color::Black);
    let attr = ColorCode::new(Color::Yellow, Color::Black).0;
    w.write_string("abc");
    assert_eq!(w.column(), 3);
    w.write_byte(b'\n');
    assert_eq!(w.column(), 0);
    assert_cell(&w, 23, 0, b'a', attr);
    assert_cell(&w, 23, 1, b'b', attr);
    assert_cell(&w, 23, 2, b'c', attr);
    for col in 3..80 {
        assert_cell(&w, 23, col, 0x20, attr);
    }
    assert_row_blank(&w, 24, attr);
}

#[test]
fn newline_inside_string_resets_column() {
    let mut w = Writer::new(Color::Yellow, Color::Black);
    let attr = ColorCode::new(Color::Yellow, Color::Black).0;
    w.write_string("ab\ncd");
    assert_eq!(w.column(), 2);
    assert_cell(&w, 23, 0, b'a', attr);
    assert_cell(&w, 23, 1, b'b', attr);
    assert_cell(&w, 24, 0, b'c', attr);
    assert_cell(&w, 24, 1, b'd', attr);
}

#[test]
fn hello_world_scenario() {
    let mut w = Writer::new(Color::Yellow, Color::Black);
    let attr = ColorCode::new(Color::Yellow, Color::Black).0;
    w.write_string("Hello World!");
    assert_eq!(w.column(), 12);
    let expected = b"Hello World!";
    for (col, byte) in expected.iter().enumerate() {
        assert_cell(&w, 24, col, *byte, attr);
    }
    for col in 12..80 {
        assert_cell(&w, 24, col, 0x20, attr);
    }
    for row in 0..24 {
        assert_row_blank(&w, row, attr);
    }
}

#[test]
fn substitute_between_letters() {
    let mut w = Writer::new(Color::Yellow, Color::Black);
    let attr = ColorCode::new(Color::Yellow, Color::Black).0;
    w.write_string("A\u{1}B");
    assert_eq!(w.column(), 3);
    assert_cell(&w, 24, 0, b'A', attr);
    assert_cell(&w, 24, 1, 0xfe, attr);
    assert_cell(&w, 24, 2, b'B', attr);
}

#[test]
fn twenty_five_newlines_blank_the_grid() {
    let mut w = Writer::new(Color::Pink, Color::DarkGray);
    let attr = ColorCode::new(Color::Pink, Color::DarkGray).0;
    w.write_string("X");
    for _ in 0..25 {
        w.write_byte(b'\n');
        assert_eq!(w.column(), 0);
    }
    for row in 0..25 {
        assert_row_blank(&w, row, attr);
    }
}

#[test]
fn print_something_writes_the_greeting() {
    let w = print_something();
    let attr = ColorCode::new(Color::Green, Color::Black).0;
    let message = "Hello paulita i love you. You are very very beautiful do you now that? I am very proud of you baby gorl";
    let bytes = message.as_bytes();
    assert_eq!(bytes.len(), 103);
    // the first eighty bytes filled the bottom row, then the eighty-first
    // wrapped them up to row 23 and the tail landed on row 24
    assert_eq!(w.column(), 23);
    for col in 0..80 {
        assert_cell(&w, 23, col, bytes[col], attr);
    }
    for col in 0..23 {
        assert_cell(&w, 24, col, bytes[80 + col], attr);
    }
    for col in 23..80 {
        assert_cell(&w, 24, col, 0x20, attr);
    }
    for row in 0..23 {
        assert_row_blank(&w, row, attr);
    }
}

#[test]
fn writes_keep_earlier_rows_in_their_colors() {
    let mut w = Writer::new(Color::Red, Color::Black);
    let red = ColorCode::new(Color::Red, Color::Black).0;
    w.write_string("r\n");
    assert_cell(&w, 23, 0, b'r', red);
    assert_row_blank(&w, 24, red);
}
