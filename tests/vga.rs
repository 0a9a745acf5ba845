use kernel_core::vga_buffer::{clear_screen, Color, ColorCode, ScreenChar, Writer};

fn code() -> ColorCode {
    ColorCode::new(Color::LightGreen, Color::Black)
}

fn row_text(w: &Writer, row: usize) -> String {
    w.buffer[row * 80..row * 80 + 80].iter().map(|c| c.ascii_character as char).collect::<String>()
}

#[test]
fn color_code_packs_both_colors() {
    assert_eq!(code().0, 0x0A);
    assert_eq!(ColorCode::new(Color::White, Color::Blue).0, 0x1F);
}

#[test]
fn writes_and_breaks_lines() {
    let mut w = Writer::new(code());
    w.write_str("ab\ncd");
    assert_eq!(&row_text(&w, 0)[..3], "ab ");
    assert_eq!(&row_text(&w, 1)[..3], "cd ");
    assert_eq!(w.row_position, 1);
    assert_eq!(w.column_position, 2);
    assert_eq!(w.buffer[0], ScreenChar { ascii_character: b'a', color_code: code() });
}

#[test]
fn long_row_fills_the_following_cells() {
    let mut w = Writer::new(code());
    let line: String = std::iter::repeat('x').take(81).collect();
    w.write_str(&line);
    assert_eq!(w.row_position, 0);
    assert_eq!(w.column_position, 81);
    assert_eq!(w.buffer[80].ascii_character, b'x');
    assert_eq!(w.buffer[81].ascii_character, b' ');
}

#[test]
fn scrolls_past_the_last_row() {
    let mut w = Writer::new(code());
    for i in 0..26 {
        w.write_str(&format!("line{}\n", i));
    }
    assert_eq!(w.row_position, 24);
    assert_eq!(&row_text(&w, 0)[..6], "line2 ");
    assert_eq!(&row_text(&w, 23)[..6], "line25");
    assert_eq!(row_text(&w, 24).trim(), "");
}

#[test]
fn clearing() {
    let mut w = Writer::new(code());
    w.write_str("hello\nworld");
    w.clear_row();
    assert_eq!(&row_text(&w, 0)[..5], "hello");
    assert_eq!(row_text(&w, 1).trim(), "");
    clear_screen(&mut w);
    assert!(w.buffer.iter().all(|c| c.ascii_character == b' '));
    w.write_byte(b'z');
    assert_eq!(w.buffer[80 + 5].ascii_character, b'z');
}
