//! Text-screen writer behavior, following the kernel's own screen tests:
//! simple output, long runs, a line read back from the row above the
//! cursor, and wrapping of an over-long line.

use os::vga_buffer::{Color, ColorCode, Writer, BUFFER_HEIGHT, BUFFER_WIDTH};

fn fresh_writer() -> Writer {
    Writer::new(ColorCode::new(Color::Green, Color::Black))
}

fn row_text(w: &Writer, row: usize) -> String {
    w.buffer[row].iter().map(|sc| sc.ascii_char as char).collect()
}

#[test]
fn trivial_assertion() {
    assert_eq!(1, 1);
}

#[test]
fn color_code_packs_background_high_foreground_low() {
    assert_eq!(ColorCode::new(Color::Green, Color::Black).0, 0x02);
    assert_eq!(ColorCode::new(Color::White, Color::Blue).0, 0x1f);
    assert_eq!(ColorCode::new(Color::Yellow, Color::LightGray).0, 0x7e);
}

#[test]
fn writer_starts_blank() {
    let w = fresh_writer();
    assert_eq!(w.column_position, 0);
    assert_eq!(w.buffer.len(), BUFFER_HEIGHT);
    for row in 0..BUFFER_HEIGHT {
        assert_eq!(w.buffer[row].len(), BUFFER_WIDTH);
        assert!(row_text(&w, row).chars().all(|c| c == ' '));
    }
}

#[test]
fn test_println_simple() {
    let mut w = fresh_writer();
    w.write_string("testprint simple output\n");
    assert!(row_text(&w, BUFFER_HEIGHT - 2).starts_with("testprint simple output"));
    assert_eq!(w.column_position, 0);
}

#[test]
fn test_println_many() {
    let mut w = fresh_writer();
    for _ in 0..200 {
        w.write_string("test_println_many output\n");
    }
    assert!(row_text(&w, BUFFER_HEIGHT - 2).starts_with("test_println_many output"));
}

#[test]
fn test_println_output() {
    let mut w = fresh_writer();
    let s = "Some test string that fits on a single line";
    w.write_string("\n");
    w.write_string(s);
    w.write_string("\n");
    for (i, c) in s.chars().enumerate() {
        let screen_char = w.buffer[BUFFER_HEIGHT - 2][i];
        assert_eq!(char::from(screen_char.ascii_char), c);
    }
}

#[test]
fn test_really_long_line() {
    let mut w = fresh_writer();
    let s = "this is goign to be a really long string to test if the VGA buffer is working properly and if it can print a long that takes a multiple lines inside the buffer. ----------------------------------";
    let len = s.len();
    let nlin = if len > BUFFER_WIDTH { len / BUFFER_WIDTH + 1 } else { 1 };
    w.write_string("\n");
    w.write_string(s);
    w.write_string("\n");
    let mut rw_start = BUFFER_HEIGHT - 2 - nlin;
    let mut current_char = 0;
    for (i, c) in s.chars().enumerate() {
        if i % BUFFER_WIDTH == 0 {
            current_char = 0;
            rw_start += 1;
        }
        let screen_char = w.buffer[rw_start][current_char];
        assert_eq!(char::from(screen_char.ascii_char), c);
        current_char += 1;
    }
}

#[test]
fn writing_past_the_edge_wraps_to_a_new_line() {
    let mut w = fresh_writer();
    let long: String = std::iter::repeat('x').take(BUFFER_WIDTH + 3).collect();
    w.write_string(&long);
    assert_eq!(w.column_position, 3);
    assert!(row_text(&w, BUFFER_HEIGHT - 2).chars().all(|c| c == 'x'));
    assert!(row_text(&w, BUFFER_HEIGHT - 1).starts_with("xxx"));
}

#[test]
fn unprintable_bytes_become_the_fallback_glyph() {
    let mut w = fresh_writer();
    w.write_string("a\u{00e4}b");
    // the two bytes of the non-ASCII character each print 0xfe
    let bottom = &w.buffer[BUFFER_HEIGHT - 1];
    assert_eq!(bottom[0].ascii_char, b'a');
    assert_eq!(bottom[1].ascii_char, 0xfe);
    assert_eq!(bottom[2].ascii_char, 0xfe);
    assert_eq!(bottom[3].ascii_char, b'b');
    assert_eq!(w.column_position, 4);
}

#[test]
fn scrolling_keeps_the_attribute_of_the_writer() {
    let mut w = fresh_writer();
    let code = w.color_code;
    w.write_string("hello\n");
    for sc in w.buffer[BUFFER_HEIGHT - 1].iter() {
        assert_eq!(sc.color_code, code);
        assert_eq!(sc.ascii_char, b' ');
    }
    assert_eq!(w.buffer[BUFFER_HEIGHT - 2][0].color_code, code);
}
