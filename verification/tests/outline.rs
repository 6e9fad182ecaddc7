use term_rustdoc::tree::id::ID;
use term_rustdoc::tree::idmap::{IDMap, Item, ItemInner, ItemKind, ItemSummary};
use term_rustdoc::tree::nodes::{DMacroKind, DModule};
use term_rustdoc::tree::outline::{depth_within, FoldKind, TreeLines};
use term_rustdoc::tree::tag::Tag;

fn id(s: &str) -> ID {
    ID::new(s)
}

fn item(i: &str, name: Option<&str>, inner: ItemInner) -> Item {
    Item { id: id(i), crate_id: 0, name: name.map(|n| n.to_string()), docs: None, inner }
}

fn ids(v: &[&str]) -> Vec<ID> {
    v.iter().map(|s| id(s)).collect()
}

/// A crate with a function, a module `m` holding a function and a module `n` with a struct.
fn sample_map() -> IDMap {
    let index = vec![
        item("0", Some("krate"), ItemInner::Module { is_crate: true, items: ids(&["1", "2"]) }),
        item("1", Some("f"), ItemInner::Function),
        item("2", Some("m"), ItemInner::Module { is_crate: false, items: ids(&["3", "4"]) }),
        item("3", Some("g"), ItemInner::Function),
        item("4", Some("n"), ItemInner::Module { is_crate: false, items: ids(&["5"]) }),
        item("5", Some("S"), ItemInner::StructUnit { impls: vec![] }),
        item("9", Some("h"), ItemInner::Macro),
    ];
    let paths = vec![
        ItemSummary { id: id("0"), path: vec!["krate".to_string()], kind: ItemKind::Module },
        ItemSummary { id: id("2"), path: vec!["krate".to_string(), "m".to_string()], kind: ItemKind::Module },
        ItemSummary {
            id: id("4"),
            path: vec!["krate".to_string(), "m".to_string(), "n".to_string()],
            kind: ItemKind::Module,
        },
    ];
    let mut map = IDMap { index, paths, dmod: DModule::new_external(id("0")) };
    map.dmod = DModule::new(&map);
    map
}

fn view(t: &TreeLines) -> Vec<(String, u8, Tag)> {
    t.all_lines().iter().map(|l| (l.name.text.clone(), l.level, l.tag)).collect()
}

fn v(items: &[(&str, u8, Tag)]) -> Vec<(String, u8, Tag)> {
    items.iter().map(|(s, l, t)| (s.to_string(), *l, *t)).collect()
}

#[test]
fn new_outline_folds_submodules() {
    let t = TreeLines::new(sample_map());
    assert!(t.fold.kind == FoldKind::ExpandZero);
    assert_eq!(
        view(&t),
        v(&[("krate", 0, Tag::Module), ("f", 1, Tag::Function), ("krate::m", 1, Tag::ModuleFolded)])
    );
}

#[test]
fn expand_all_shows_every_item() {
    let mut t = TreeLines::new(sample_map());
    t.expand_all();
    assert_eq!(
        view(&t),
        v(&[
            ("krate", 0, Tag::Module),
            ("f", 1, Tag::Function),
            ("krate::m", 1, Tag::Module),
            ("g", 2, Tag::Function),
            ("krate::m::n", 2, Tag::Module),
            ("S", 3, Tag::Struct),
        ])
    );
}

#[test]
fn first_level_modules_expand() {
    let mut t = TreeLines::new(sample_map());
    t.expand_to_first_level_modules();
    assert_eq!(
        view(&t),
        v(&[
            ("krate", 0, Tag::Module),
            ("f", 1, Tag::Function),
            ("krate::m", 1, Tag::Module),
            ("g", 2, Tag::Function),
            ("krate::m::n", 2, Tag::ModuleFolded),
        ])
    );
}

#[test]
fn toggling_twice_restores_the_outline() {
    let mut t = TreeLines::new(sample_map());
    let before = view(&t);
    t.expand_toggle(id("2"));
    assert_eq!(
        view(&t),
        v(&[
            ("krate", 0, Tag::Module),
            ("f", 1, Tag::Function),
            ("krate::m", 1, Tag::Module),
            ("g", 2, Tag::Function),
            ("krate::m::n", 2, Tag::ModuleFolded),
        ])
    );
    assert!(t.fold.expand.contains(&id("2")));
    assert!(t.fold.expand.contains(&id("0")));
    t.expand_toggle(id("2"));
    assert_eq!(view(&t), before);
    assert!(!t.fold.expand.contains(&id("2")));
    // an id that is no module changes nothing
    t.expand_toggle(id("1"));
    assert_eq!(view(&t), before);
}

#[test]
fn current_module_focus() {
    let mut t = TreeLines::new(sample_map());
    t.expand_current_module_only(id("4"));
    assert!(t.fold.kind == FoldKind::CurrentModule);
    let names: Vec<String> = t.all_lines().iter().map(|l| l.name.text.clone()).collect();
    assert!(names.contains(&"S".to_string()));
    assert!(!names.contains(&"g".to_string()));
    // toggling is off while focusing on a module
    let before = view(&t);
    t.expand_toggle(id("2"));
    assert_eq!(view(&t), before);
}

#[test]
fn plain_text_has_a_line_per_node() {
    let t = TreeLines::new(sample_map());
    let text = t.display_as_plain_text();
    assert_eq!(text, "krate\n├── [Fn] f\n└── [Mod] krate::m\n");
    assert_eq!(t.all_lines()[1].width(), 10);
}

#[test]
fn expand_with_impls_shows_data_types_inside() {
    let mut t = TreeLines::new(sample_map());
    t.expand_all_including_impls();
    assert!(t.fold.kind == FoldKind::ExpandAll);
    assert!(t.fold.expand.is_empty());
    assert_eq!(
        view(&t),
        v(&[
            ("krate", 0, Tag::Module),
            ("Functions", 1, Tag::Functions),
            ("f", 2, Tag::Function),
            ("krate::m", 1, Tag::Module),
            ("Functions", 2, Tag::Functions),
            ("g", 3, Tag::Function),
            ("krate::m::n", 2, Tag::Module),
            ("Structs", 3, Tag::Structs),
            ("S", 4, Tag::Struct),
            ("No Fields!", 5, Tag::NoFields),
            ("No Implementations!", 5, Tag::NoImpls),
        ])
    );
}

#[test]
fn defaults_are_empty() {
    let t = TreeLines::default();
    assert!(t.all_lines().is_empty());
    assert!(t.fold.kind == FoldKind::ExpandAll);
    assert_eq!(t.doc.dmod.id.id, "0");
    let map = IDMap::default();
    assert!(map.index.is_empty() && map.paths.is_empty());
    let d = DModule::default();
    assert!(d.modules.is_empty() && d.functions.is_empty());
    let s: term_rustdoc::ui::scroll::Scroll<Vec<term_rustdoc::tree::textline::TreeLine>> = Default::default();
    assert_eq!((s.start, s.cursor.y, s.area.height), (0, 0, 0));
    assert!(s.cursor.state.is_none());
}

#[test]
fn checks_before_building_the_outline() {
    let map = sample_map();
    assert!(map.has_root());
    assert!(map.has_no_impls());
    assert!(depth_within(&map.dmod.modules, 2));
    assert!(!depth_within(&map.dmod.modules, 1));
    assert!(!IDMap::default().has_root());
    let mut with_impls = sample_map();
    with_impls.index.push(item("7", Some("T"), ItemInner::StructUnit { impls: vec![id("8")] }));
    assert!(!with_impls.has_no_impls());
}

#[test]
fn glyphs_draw_the_tree_stripes() {
    let mut t = TreeLines::new(sample_map());
    t.expand_all();
    let glyphs: Vec<String> = t.all_lines().iter().map(|l| l.glyph.text.clone()).collect();
    assert_eq!(
        glyphs,
        vec![
            "",
            "├── [Fn] ",
            "└── [Mod] ",
            "    ├── [Fn] ",
            "    └── [Mod] ",
            "        └── [Struct] ",
        ]
    );
    assert_eq!(
        t.display_as_plain_text(),
        "krate\n├── [Fn] f\n└── [Mod] krate::m\n    ├── [Fn] g\n    └── [Mod] krate::m::n\n        └── [Struct] S\n"
    );
}
