use term_rustdoc::style::{Color, Style};
use term_rustdoc::tree::doctree::TextTag;
use term_rustdoc::tree::id::ID;
use term_rustdoc::tree::tag::Tag;
use term_rustdoc::tree::textline::TreeLine;
use term_rustdoc::ui::scroll::{Cursor, Rect, Scroll, ScrollOffset};

fn line(i: usize) -> TreeLine {
    let s = i.to_string();
    TreeLine::new(TextTag { text: s.clone(), tag: Tag::Function, id: Some(ID::new(&s)) }, 0)
}

fn scroll(n: usize, height: u16) -> Scroll<Vec<TreeLine>> {
    Scroll {
        lines: (0..n).map(line).collect(),
        start: 0,
        cursor: Cursor { y: 0, state: None },
        area: Rect { x: 0, y: 0, width: 20, height },
    }
}

fn current(s: &Scroll<Vec<TreeLine>>) -> Option<String> {
    s.get_line_of_current_cursor().map(|l| l.name.text.clone())
}

fn remembered(s: &Scroll<Vec<TreeLine>>) -> Option<String> {
    s.cursor.state.as_ref().map(|i| i.id.clone())
}

#[test]
fn scrolling_moves_the_start_row() {
    let mut s = scroll(10, 4);
    s.scroll_down(ScrollOffset::Fixed(2));
    assert_eq!(s.start, 2);
    assert_eq!(s.cursor.y, 0);
    assert_eq!(remembered(&s).as_deref(), Some("0"));
    s.scroll_down(ScrollOffset::FullScreen);
    assert_eq!(s.start, 6);
    // past the end: nothing moves
    s.scroll_down(ScrollOffset::Fixed(5));
    assert_eq!(s.start, 6);
    // half a screen of four rows is one row; the cursor follows its line
    s.scroll_up(ScrollOffset::HalfScreen);
    assert_eq!(s.start, 5);
    assert_eq!(s.cursor.y, 1);
    assert_eq!(current(&s).as_deref(), Some("6"));
    s.scroll_home();
    assert_eq!((s.start, s.cursor.y), (0, 0));
    assert_eq!(remembered(&s).as_deref(), Some("0"));
    s.scroll_end();
    assert_eq!((s.start, s.cursor.y), (6, 3));
    assert_eq!(current(&s).as_deref(), Some("9"));
}

#[test]
fn cursor_moves_scroll_at_the_edges() {
    let mut s = scroll(10, 4);
    for _ in 0..3 {
        s.move_forward_cursor();
    }
    assert_eq!((s.start, s.cursor.y), (0, 3));
    s.move_forward_cursor();
    assert_eq!((s.start, s.cursor.y), (1, 3));
    assert_eq!(current(&s).as_deref(), Some("4"));
    s.move_backward_cursor();
    assert_eq!(current(&s).as_deref(), Some("3"));
    s.move_top_cursor();
    assert_eq!(current(&s).as_deref(), Some("1"));
    s.move_backward_cursor();
    assert_eq!((s.start, s.cursor.y), (0, 0));
    assert_eq!(current(&s).as_deref(), Some("0"));
    s.move_bottom_cursor();
    assert_eq!(current(&s).as_deref(), Some("3"));
    s.move_middle_cursor();
    assert_eq!(s.cursor.y, 1);
}

#[test]
fn short_lists_keep_the_cursor_on_a_line() {
    let mut s = scroll(2, 4);
    s.move_bottom_cursor();
    assert_eq!(s.cursor.y, 1);
    s.scroll_end();
    assert_eq!((s.start, s.cursor.y), (0, 1));
    s.set_cursor(3);
    assert_eq!(s.cursor.y, 1);
    s.set_cursor(0);
    assert_eq!(s.cursor.y, 0);
    assert_eq!(s.visible_lines().map(|v| v.len()), Some(2));
    assert!(s.get_line_on_screen(2).is_none());
}

#[test]
fn lines_changed_returns_to_the_remembered_line() {
    let mut s = scroll(10, 4);
    s.scroll_end();
    assert_eq!(current(&s).as_deref(), Some("9"));
    // fewer lines: the start falls back to the top and the cursor to the first row
    s.lines = (0..3).map(line).collect();
    s.update_after_lines_changed();
    assert_eq!((s.start, s.cursor.y), (0, 0));
    // the remembered line is still there: the cursor goes back to it
    let mut t = scroll(10, 4);
    t.cursor.state = Some(ID::new("2"));
    t.update_after_lines_changed();
    assert_eq!(t.cursor.y, 2);
}

#[test]
fn empty_scroll_shows_nothing() {
    let s = scroll(0, 4);
    assert!(s.visible_lines().is_none());
    assert!(s.get_line_of_current_cursor().is_none());
    assert!(s.is_empty());
    assert_eq!(s.total_len(), 0);
}

#[test]
fn cursor_line_is_highlighted() {
    let l = line(3);
    let (g, n) = l.current_line_styles();
    assert_eq!(g, Style { bg: Some(Color::DarkGray), ..l.glyph.style });
    assert_eq!(n.bg, l.name.style.fg);
    assert_eq!(n.fg, Some(Color::Black));
    assert_eq!(n.add_modifier, l.name.style.add_modifier);
}

#[test]
fn clicking_a_row_moves_the_cursor() {
    let mut s = scroll(3, 4);
    s.area = Rect { x: 0, y: 2, width: 20, height: 4 };
    assert_eq!(s.force_line_on_screen(4).map(|l| l.name.text.clone()).as_deref(), Some("2"));
    assert_eq!(s.cursor.y, 2);
    // above the area, and past the last line
    assert!(s.force_line_on_screen(1).is_none());
    assert!(s.force_line_on_screen(5).is_none());
    assert_eq!(s.cursor.y, 2);
    // the start row counts: row 3 of the area shows line start + 1
    let mut t = scroll(6, 4);
    t.area = Rect { x: 0, y: 2, width: 20, height: 4 };
    t.start = 2;
    assert_eq!(t.force_line_on_screen(3).map(|l| l.name.text.clone()).as_deref(), Some("3"));
    assert_eq!(t.cursor.y, 1);
}

#[test]
fn screen_rows_index_the_visible_lines() {
    let mut s = scroll(4, 2);
    s.start = 2;
    assert_eq!(s.get_line_on_screen(0).map(|l| l.name.text.clone()).as_deref(), Some("2"));
    assert_eq!(s.get_line_on_screen(1).map(|l| l.name.text.clone()).as_deref(), Some("3"));
    assert!(s.get_line_on_screen(2).is_none());
    s.area.y = 5;
    assert!(s.get_line_on_screen(4).is_none());
    assert_eq!(s.get_line_on_screen(6).map(|l| l.name.text.clone()).as_deref(), Some("3"));
}

#[test]
fn the_cursor_stays_within_the_area() {
    // a start past the last full screen: stepping forward keeps the row inside the area
    let mut s = scroll(5, 3);
    s.start = 4;
    s.move_forward_cursor();
    assert!(s.cursor.y < 3);
    assert_eq!((s.start, s.cursor.y), (4, 0));
    assert_eq!(remembered(&s).as_deref(), Some("4"));
    // a row on screen without a line under it leaves the cursor where it was
    let mut t = scroll(10, 3);
    t.start = 8;
    t.set_cursor(2);
    assert_eq!(t.cursor.y, 0);
    assert!(t.cursor.state.is_none());
    t.set_cursor(1);
    assert_eq!(t.cursor.y, 1);
    assert_eq!(remembered(&t).as_deref(), Some("9"));
}

#[test]
fn wide_characters_count_twice() {
    let l = TreeLine::new(TextTag { text: "中文".to_string(), tag: Tag::Function, id: None }, 0);
    assert_eq!(l.width(), 4);
}
