use term_rustdoc::style::{Color, Style};
use term_rustdoc::tree::id::ID;
use term_rustdoc::tree::idmap::{IDMap, Item, ItemInner, ItemKind, ItemSummary};
use term_rustdoc::tree::nodes::DModule;
use term_rustdoc::tree::outline::TreeLines;
use term_rustdoc::ui::markdown::heading::Headings;
use term_rustdoc::ui::markdown::lines::StyledLines;
use term_rustdoc::ui::page::{ContentPanel, NavigationPanel, OutlinePanel, Page, Panel, Surround};
use term_rustdoc::ui::scroll::{Cursor, Rect, Scroll};
use term_rustdoc::ui::update::{update, Action, Key};

fn id(s: &str) -> ID {
    ID::new(s)
}

fn item(i: &str, name: &str, docs: Option<&str>, inner: ItemInner) -> Item {
    Item { id: id(i), crate_id: 0, name: Some(name.to_string()), docs: docs.map(|d| d.to_string()), inner }
}

fn outline() -> TreeLines {
    let index = vec![
        item("0", "krate", None, ItemInner::Module { is_crate: true, items: vec![id("1"), id("2")] }),
        item("1", "f", Some("fdoc"), ItemInner::Function),
        item("2", "m", None, ItemInner::Module { is_crate: false, items: vec![] }),
    ];
    let paths = vec![
        ItemSummary { id: id("0"), path: vec!["krate".to_string()], kind: ItemKind::Module },
        ItemSummary { id: id("2"), path: vec!["krate".to_string(), "m".to_string()], kind: ItemKind::Module },
    ];
    let mut map = IDMap { index, paths, dmod: DModule::new_external(id("0")) };
    map.dmod = DModule::new(&map);
    TreeLines::new(map)
}

fn rect(x: u16, width: u16) -> Rect {
    Rect { x, y: 0, width, height: 10 }
}

fn inner(r: Rect) -> Rect {
    Rect { x: r.x + 1, y: r.y + 1, width: r.width - 2, height: r.height - 2 }
}

fn page() -> Page {
    let (left, middle, right) = (rect(0, 10), rect(10, 20), rect(30, 10));
    Page {
        outline: OutlinePanel {
            display: Scroll { lines: outline(), start: 0, cursor: Cursor { y: 0, state: None }, area: inner(left) },
            border: Surround::new(Style::new(), left),
        },
        content: ContentPanel {
            display: Scroll { lines: StyledLines::new(), start: 0, cursor: Cursor { y: 0, state: Vec::new() }, area: inner(middle) },
            border: Surround::new(Style::new(), middle),
        },
        navi: NavigationPanel {
            display: Scroll { lines: Headings::new(), start: 0, cursor: Cursor { y: 0, state: String::new() }, area: inner(right) },
            border: Surround::new(Style::new(), right),
        },
        current: None,
        area: Rect { x: 0, y: 0, width: 40, height: 10 },
    }
}

#[test]
fn clicking_focuses_panels() {
    let mut p = page();
    // the outline's cursor moves to the clicked row, and that item's doc is asked for
    let doc = p.set_current_panel(1, 2);
    assert_eq!(p.current, Some(Panel::Outline));
    assert_eq!(p.outline.display.cursor.y, 1);
    assert_eq!(doc.as_deref(), Some("fdoc"));
    assert_eq!(p.outline.border.style, Style::new().bg(Color::Rgb(20, 19, 18)));
    assert_eq!(p.content.border.style, Style::new());
    assert_eq!(p.set_current_panel(3, 12), None);
    assert_eq!(p.current, Some(Panel::Content));
    assert_eq!(p.outline.border.style, Style::new());
    assert_eq!(p.content.border.style, Style::new().bg(Color::Rgb(20, 19, 18)));
    // no heading there: the navigation panel gets the focus
    assert_eq!(p.set_current_panel(2, 32), None);
    assert_eq!(p.current, Some(Panel::Navigation));
    // outside every panel
    assert_eq!(p.set_current_panel(20, 50), None);
    assert_eq!(p.current, None);
}

#[test]
fn outline_cursor_asks_for_docs() {
    let mut p = page();
    p.current = Some(Panel::Outline);
    assert_eq!(p.move_forward_cursor().as_deref(), Some("fdoc"));
    // a module without docs clears the content
    assert_eq!(p.move_forward_cursor(), None);
    assert!(p.content.display.lines.lines.is_empty());
    assert_eq!(p.move_top_cursor(), None);
    assert_eq!(p.outline.display.cursor.y, 0);
}

#[test]
fn keys_ask_for_actions() {
    assert_eq!(update(Key::Char('q')), Action::Quit);
    assert_eq!(update(Key::CtrlChar('q')), Action::Quit);
    assert_eq!(update(Key::Char('c')), Action::Nothing);
    assert_eq!(update(Key::CtrlChar('C')), Action::Quit);
    assert_eq!(update(Key::Char('L')), Action::CursorBottom);
    assert_eq!(update(Key::Char('m')), Action::FoldCurrentModule);
    assert_eq!(update(Key::Char('0')), Action::ExpandZeroLevel);
    assert_eq!(update(Key::Enter), Action::ExpandToggle);
    assert_eq!(update(Key::PageDown), Action::ScrollDown);
    assert_eq!(update(Key::Other), Action::Nothing);
    assert_eq!(update(Key::Char('x')), Action::Nothing);
}

#[test]
fn border_areas_update_only_on_change() {
    let area = Rect { x: 2, y: 3, width: 10, height: 5 };
    let mut s = Surround::new(Style::new(), area);
    assert_eq!(s.inner(), Rect { x: 3, y: 4, width: 8, height: 3 });
    assert_eq!(s.update_area(area), None);
    let wider = Rect { x: 0, y: 0, width: 20, height: 1 };
    assert_eq!(s.update_area(wider), Some(Rect { x: 1, y: 1, width: 18, height: 0 }));
    assert_eq!(s.area(), wider);
    // a border with no room inside
    let flat = Surround::new(Style::new(), Rect { x: 5, y: 5, width: 0, height: 0 });
    assert_eq!(flat.inner(), Rect { x: 5, y: 5, width: 0, height: 0 });
}

#[test]
fn a_new_doc_starts_from_the_top() {
    let mut p = page();
    p.outline.display.cursor.y = 1;
    p.content.display.start = 5;
    assert_eq!(p.update_content().as_deref(), Some("fdoc"));
    assert_eq!(p.content.display.start, 0);
    // no doc: the content is cleared and its start row stays
    p.content.display.start = 4;
    p.outline.display.cursor.y = 2;
    assert_eq!(p.update_content(), None);
    assert_eq!(p.content.display.start, 4);
}
