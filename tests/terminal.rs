use rterm::input::{grid_size, key_bytes, NamedKey};
use rterm::screen::TextBuffer;
use rterm::terminal::Terminal;
use rterm::text::{Cell, Color, Style};

fn feed(width: usize, height: usize, input: &[u8]) -> Terminal {
    let mut t = Terminal::new(width, height);
    t.process_input(input);
    t
}

fn row_chars(t: &Terminal, row: usize, n: usize) -> String {
    (0..n).map(|c| t.buffer().cell(row, c).character).collect()
}

#[test]
fn prints_text_on_first_row() {
    let t = feed(10, 3, b"AB");
    assert_eq!(t.render_as_str(), "AB\n");
    assert_eq!(t.buffer().cursor(), (2, 0));
}

#[test]
fn print_wraps_at_right_edge() {
    let t = feed(3, 2, b"abcd");
    assert_eq!(t.render_as_str(), "abc\nd\n");
    assert_eq!(t.buffer().cursor(), (1, 1));
    assert_eq!(t.buffer().top_row(), 0);
}

#[test]
fn print_on_last_cell_scrolls_one_row() {
    let t = feed(2, 2, b"abcd");
    assert_eq!(t.buffer().cursor(), (0, 1));
    assert_eq!(t.buffer().top_row(), 1);
    let t = feed(2, 2, b"abcde");
    assert_eq!(t.buffer().top_row(), 1);
    assert_eq!(t.render_as_str(), "cd\ne\n");
    assert_eq!(t.buffer().row_count(), 3);
}

#[test]
fn print_sets_cell_at_cursor_and_advances() {
    let mut t = Terminal::new(5, 2);
    t.process_input(b"\x1b[2;3H");
    assert_eq!(t.buffer().cursor(), (2, 1));
    t.process_input(b"A");
    assert_eq!(t.buffer().visible_cell(1, 2).character, 'A');
    assert_eq!(t.buffer().cursor(), (3, 1));
    // cells before the cursor were padded with empty cells
    assert_eq!(t.buffer().cell(1, 0), Cell::default());
}

#[test]
fn height_one_line_feed_moves_window_by_one() {
    let t = feed(4, 1, b"ab\ncd");
    assert_eq!(t.buffer().top_row(), 1);
    assert_eq!(t.render_as_str(), "cd\n");
    assert_eq!(row_chars(&t, 0, 2), "ab");
}

#[test]
fn split_input_gives_same_screen_at_every_point() {
    let bytes: &[u8] = b"\x1b[31mX";
    let whole = feed(10, 3, bytes);
    for k in 0..=bytes.len() {
        let mut t = Terminal::new(10, 3);
        t.process_input(&bytes[..k]);
        t.process_input(&bytes[k..]);
        assert_eq!(t.render_as_str(), whole.render_as_str());
        assert_eq!(t.buffer().cell(0, 0), whole.buffer().cell(0, 0));
        assert_eq!(t.buffer().cursor(), whole.buffer().cursor());
    }
    assert_eq!(whole.buffer().cell(0, 0).character, 'X');
    assert_eq!(whole.buffer().cell(0, 0).fg_color, Color::Indexed(1));
}

#[test]
fn split_utf8_character() {
    let mut t = Terminal::new(10, 3);
    t.process_input(&[0xC3]);
    t.process_input(&[0xA9]);
    assert_eq!(t.buffer().cell(0, 0).character, '\u{e9}');
}

#[test]
fn erase_display_empties_window() {
    let t = feed(4, 2, b"hello\x1b[2J");
    for y in 0..2 {
        for x in 0..4 {
            assert_eq!(t.buffer().visible_cell(y, x), Cell::default());
        }
    }
    assert_eq!(t.buffer().row_count(), 2);
}

#[test]
fn erase_display_from_and_to_cursor() {
    let t = feed(4, 3, b"abcdefgh\x1b[1;3H\x1b[J");
    assert_eq!(row_chars(&t, 0, 4), "ab\0\0");
    assert_eq!(row_chars(&t, 1, 4), "\0\0\0\0");
    let t = feed(4, 3, b"abcdefgh\x1b[2;2H\x1b[1J");
    assert_eq!(row_chars(&t, 0, 4), "\0\0\0\0");
    assert_eq!(row_chars(&t, 1, 4), "\0\0gh");
}

#[test]
fn bold_then_reset() {
    let mut t = Terminal::new(10, 2);
    t.process_input(b"\x1b[1mX");
    assert!(t.buffer().cell(0, 0).style.bold);
    t.process_input(b"\x1b[0mY");
    let y = t.buffer().cell(0, 1);
    assert_eq!(y, Cell { character: 'Y', ..Cell::default() });
    assert!(!y.style.bold && !y.style.underline);
}

#[test]
fn graphic_rendition_colours_and_underline() {
    let t = feed(10, 2, b"\x1b[4;32;45mZ\x1b[99mW");
    let z = t.buffer().cell(0, 0);
    assert_eq!(z.fg_color, Color::Indexed(2));
    assert_eq!(z.bg_color, Color::Indexed(5));
    assert_eq!(z.style, Style { bold: false, underline: true });
    // an unknown parameter changes nothing
    assert_eq!(t.buffer().cell(0, 1), Cell { character: 'W', ..z });
}

#[test]
fn graphic_rendition_touches_cell_under_cursor() {
    let t = feed(10, 2, b"ab\r\x1b[1m");
    assert!(t.buffer().cell(0, 0).style.bold);
    assert!(!t.buffer().cell(0, 1).style.bold);
}

#[test]
fn cursor_movement_is_clamped() {
    let mut t = Terminal::new(3, 3);
    t.process_input(b"\x1b[5;5H");
    assert_eq!(t.buffer().cursor(), (2, 2));
    t.process_input(b"\x1b[A");
    assert_eq!(t.buffer().cursor(), (2, 1));
    t.process_input(b"\x1b[9A");
    assert_eq!(t.buffer().cursor(), (2, 0));
    t.process_input(b"\x1b[9B");
    assert_eq!(t.buffer().cursor(), (2, 2));
    t.process_input(b"\x1b[2D");
    assert_eq!(t.buffer().cursor(), (0, 2));
    t.process_input(b"\x1b[C");
    assert_eq!(t.buffer().cursor(), (1, 2));
    t.process_input(b"\x1b[H");
    assert_eq!(t.buffer().cursor(), (0, 0));
    assert_eq!(t.buffer().top_row(), 0);
}

#[test]
fn erase_in_row_modes() {
    let t = feed(10, 2, b"abcde\x1b[3D\x1b[K");
    assert_eq!(row_chars(&t, 0, 5), "ab\0\0\0");
    let t = feed(10, 2, b"abcde\x1b[3D\x1b[1K");
    assert_eq!(row_chars(&t, 0, 5), "\0\0\0de");
    let t = feed(10, 2, b"abcde\x1b[2K");
    assert_eq!(row_chars(&t, 0, 5), "\0\0\0\0\0");
    assert_eq!(t.render_as_str(), "\0\0\0\0\0\n");
}

#[test]
fn delete_chars_shifts_row_left() {
    let t = feed(10, 2, b"abcde\x1b[4D\x1b[2P");
    assert_eq!(t.render_as_str(), "ade\n");
    let t = feed(10, 2, b"abcde\x1b[4D\x1b[P");
    assert_eq!(t.render_as_str(), "acde\n");
    let t = feed(10, 2, b"abcde\x1b[4D\x1b[99P");
    assert_eq!(t.render_as_str(), "a\n");
}

#[test]
fn control_bytes() {
    let t = feed(20, 2, b"\tX");
    assert_eq!(t.buffer().cell(0, 8).character, 'X');
    let t = feed(20, 2, b"ab\x08c");
    assert_eq!(t.render_as_str(), "ac\n");
    let t = feed(20, 2, b"\x08a");
    assert_eq!(t.render_as_str(), "a\n");
    let t = feed(20, 2, b"ab\rc");
    assert_eq!(t.render_as_str(), "cb\n");
    let t = feed(20, 3, b"a\nb");
    assert_eq!(t.render_as_str(), "a\nb\n");
    let t = feed(10, 2, b"abc\t");
    assert_eq!(t.buffer().cursor(), (8, 0));
    let t = feed(8, 2, b"abc\t");
    assert_eq!(t.buffer().cursor(), (0, 1));
    let t = feed(20, 2, b"a\x07b");
    assert_eq!(t.render_as_str(), "ab\n");
}

#[test]
fn other_sequences_are_ignored() {
    let t = feed(10, 2, b"\x1b]0;title\x07X\x1b(BY\x1b[5;10rZ\x1b[?25l");
    assert_eq!(t.render_as_str(), "XYZ\n");
    assert_eq!(t.buffer().cursor(), (3, 0));
}

#[test]
fn scroll_buffer_clamps() {
    let mut t = feed(5, 2, b"1\n2\n3\n4\n5");
    assert_eq!(t.buffer().row_count(), 5);
    assert_eq!(t.buffer().top_row(), 3);
    t.scroll_buffer(2);
    assert_eq!(t.buffer().top_row(), 1);
    t.scroll_buffer(10);
    assert_eq!(t.buffer().top_row(), 0);
    t.scroll_buffer(-1);
    assert_eq!(t.buffer().top_row(), 1);
    t.scroll_buffer(-100);
    assert_eq!(t.buffer().top_row(), 3);
    assert_eq!(t.render_as_str(), "4\n5\n");
}

#[test]
fn text_buffer_direct_calls() {
    let mut b = TextBuffer::new(4, 2);
    b.insert_char('a');
    b.set_bold(true);
    b.set_underline(true);
    b.set_foreground_color(3);
    b.set_background_color(4);
    b.insert_char('b');
    let cell = b.cell(0, 1);
    assert_eq!(cell.fg_color, Color::Indexed(3));
    assert_eq!(cell.bg_color, Color::Indexed(4));
    assert!(cell.style.bold && cell.style.underline);
    b.reset_attributes();
    b.insert_char('c');
    assert_eq!(b.cell(0, 2), Cell { character: 'c', ..Cell::default() });
    b.move_cursor(0, 0);
    b.erase_screen_from_cursor();
    assert_eq!(b.render_viewport(), "\0\0\0\n");
    b.newline();
    assert_eq!(b.cursor(), (0, 1));
    b.newline();
    assert_eq!(b.top_row(), 1);
    b.scroll_up(5);
    assert_eq!(b.top_row(), 0);
    b.scroll_down(5);
    assert_eq!(b.top_row(), 0);
    b.insert_char('x');
    b.erase_screen_to_cursor();
    b.erase_screen();
    assert_eq!(b.cell(0, 0), Cell::default());
}

#[test]
fn named_keys_send_fixed_bytes() {
    assert_eq!(key_bytes(NamedKey::Backspace), vec![0x08]);
    assert_eq!(key_bytes(NamedKey::Enter), vec![0x0d]);
    assert_eq!(key_bytes(NamedKey::Space), vec![0x20]);
    assert_eq!(key_bytes(NamedKey::ArrowUp), vec![27, 91, 65]);
    assert_eq!(key_bytes(NamedKey::ArrowDown), vec![27, 91, 66]);
    assert_eq!(key_bytes(NamedKey::ArrowRight), vec![27, 91, 67]);
    assert_eq!(key_bytes(NamedKey::ArrowLeft), vec![27, 91, 68]);
}

#[test]
fn window_grid_size() {
    assert_eq!(grid_size(800, 600), (14, 32));
    assert_eq!(grid_size(24, 41), (0, 0));
    assert_eq!(grid_size(u32::MAX, u32::MAX), (u16::MAX, u16::MAX));
}
