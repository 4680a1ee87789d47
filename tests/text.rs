use rterm::config::Config;
use rterm::text::{Cell, Text, Viewport};

#[test]
fn push_str_fills_first_row() {
    let mut t = Text::new(4, 2);
    t.push_str("abc");
    assert_eq!(t.as_str(), "abc");
    assert_eq!(t.get_cell(0, 1).unwrap().character, 'b');
    assert!(t.get_cell(1, 0).is_none());
    assert_eq!(t.row_count(), 1);
}

#[test]
fn insert_char_pads_with_empty_cells() {
    let mut t = Text::new(4, 2);
    t.insert_char(1, 2, 'z');
    assert_eq!(t.buffer.len(), 7);
    assert_eq!(t.get_cell(1, 2).unwrap().character, 'z');
    assert_eq!(*t.get_cell(0, 0).unwrap(), Cell::default());
    t.insert_char(1, 2, 'y');
    assert_eq!(t.buffer.len(), 7);
    assert_eq!(t.get_cell(1, 2).unwrap().character, 'y');
}

#[test]
fn get_cell_mut_changes_one_cell() {
    let mut t = Text::new(3, 2);
    t.push_str("ab");
    t.get_cell_mut(0, 1).unwrap().style.bold = true;
    assert!(t.get_cell(0, 1).unwrap().style.bold);
    assert!(!t.get_cell(0, 0).unwrap().style.bold);
    assert!(t.get_cell_mut(1, 1).is_none());
}

#[test]
fn resize_keeps_top_left() {
    let mut t = Text::new(3, 2);
    t.push_str("abc");
    t.insert_char(1, 0, 'd');
    t.resize(2, 3);
    assert_eq!(t.as_str(), "abd\0");
    assert_eq!(t.get_cell(0, 1).unwrap().character, 'b');
    assert_eq!(t.get_cell(1, 0).unwrap().character, 'd');
    t.resize(4, 1);
    assert_eq!(t.as_str(), "ab");
    assert!(t.get_cell(0, 2).is_none());
}

#[test]
fn render_lists_window_cells() {
    let mut t = Text::new(2, 2);
    t.push_str("xy");
    let cells = t.render();
    assert_eq!(cells.len(), 4);
    assert_eq!((cells[1].0, cells[1].1, cells[1].2.character), (0, 1, 'y'));
    assert_eq!((cells[2].0, cells[2].1), (1, 0));
    assert_eq!(cells[3].2, Cell::default());
}

#[test]
fn iterator_walks_window_row_by_row() {
    let mut t = Text::new(2, 2);
    t.push_str("pq");
    let mut it = t.iter();
    let mut seen = Vec::new();
    while let Some((r, c, cell)) = it.next() {
        seen.push((r, c, cell.character));
    }
    assert_eq!(seen, vec![(0, 0, 'p'), (0, 1, 'q'), (1, 0, '\0'), (1, 1, '\0')]);
    assert!(it.next().is_none());
}

#[test]
fn text_scroll_is_clamped_by_rows() {
    let mut t = Text::new(4, 2);
    t.push_str("abcd");
    t.insert_char(2, 3, 'x');
    assert_eq!(t.row_count(), 3);
    t.scroll_down(5);
    assert_eq!(t.render()[0].2.character, '\0');
    t.push('\n');
    t.scroll_up(1);
    assert_eq!(t.render()[0].2.character, 'a');
}

#[test]
fn viewport_scrolling() {
    let mut v = Viewport::new(2, 4);
    assert_eq!((v.top_row, v.height, v.width), (0, 2, 4));
    v.scroll_down(3, 10);
    assert_eq!(v.top_row, 3);
    v.scroll_down(100, 10);
    assert_eq!(v.top_row, 8);
    v.scroll_up(5, 10);
    assert_eq!(v.top_row, 3);
    v.scroll_up(10, 10);
    assert_eq!(v.top_row, 0);
    v.scroll_down(1, 1);
    assert_eq!(v.top_row, 0);
}

#[test]
fn config_from_screen_size() {
    let c = Config::new(800, 600);
    assert_eq!(c.num_rows, 37);
    assert_eq!(c.num_cols, 50);
    assert_eq!(c.font_size, 16);
    assert_eq!(c.font_path, "../Inter-Bold.ttf");
    assert_eq!((c.atlas_width, c.atlas_height, c.glyph_cache_size), (1024, 1024, 1024));
}
