use term_rustdoc::tree::doctree::DocTree;
use term_rustdoc::tree::id::ID;
use term_rustdoc::tree::idmap::{IDMap, Item, ItemInner, ItemKind, ItemSummary};
use term_rustdoc::tree::nodes::{DImplInner, DMacro, DMacroKind, DModule};
use term_rustdoc::tree::plain::show_ids;
use term_rustdoc::tree::prettier::{show_names, Show};
use term_rustdoc::tree::tag::Tag;

fn id(s: &str) -> ID {
    ID::new(s)
}

fn item(i: &str, name: Option<&str>, inner: ItemInner) -> Item {
    Item { id: id(i), crate_id: 0, name: name.map(|n| n.to_string()), docs: None, inner }
}

fn ids(v: &[&str]) -> Vec<ID> {
    v.iter().map(|s| id(s)).collect()
}

fn sample_map() -> IDMap {
    let index = vec![
        item("0:0", Some("krate"), ItemInner::Module { is_crate: true, items: ids(&["0:1", "0:2", "0:3", "0:4", "0:9", "0:12"]) }),
        item("0:1", Some("b"), ItemInner::Function),
        item("0:2", Some("a"), ItemInner::Function),
        item("0:3", Some("S"), ItemInner::StructTuple { fields: vec![Some(id("0:5")), None], impls: vec![] }),
        item("0:4", Some("m"), ItemInner::Module { is_crate: false, items: ids(&["0:6", "0:10"]) }),
        item("0:5", Some("0"), ItemInner::Other),
        item("0:6", Some("T"), ItemInner::Trait { items: ids(&["0:7", "0:8", "0:11"]), implementations: ids(&["0:99"]) }),
        item("0:7", Some("run"), ItemInner::Function),
        item("0:8", Some("Out"), ItemInner::AssocType),
        item("0:9", Some("zmac"), ItemInner::ProcMacro(DMacroKind::ProcDerive)),
        item("0:10", Some("E"), ItemInner::Enum { variants: ids(&["0:13"]), impls: vec![] }),
        item("0:11", Some("go"), ItemInner::Function),
        item("0:12", None, ItemInner::Use { name: "E".to_string(), id: Some(id("0:10")) }),
        item("0:13", Some("V"), ItemInner::Other),
    ];
    let paths = vec![
        ItemSummary { id: id("0:0"), path: vec!["krate".to_string()], kind: ItemKind::Module },
        ItemSummary { id: id("0:4"), path: vec!["krate".to_string(), "m".to_string()], kind: ItemKind::Module },
    ];
    let mut map = IDMap { index, paths, dmod: DModule::new_external(id("0:0")) };
    map.dmod = DModule::new(&map);
    map
}

fn flat(t: &DocTree, level: usize, out: &mut Vec<(String, usize)>) {
    out.push((t.root.text.clone(), level));
    for l in &t.leaves {
        flat(l, level + 1, out);
    }
}

fn lines(t: &DocTree) -> Vec<(String, usize)> {
    let mut out = Vec::new();
    flat(t, 0, &mut out);
    out
}

fn expect(v: &[(&str, usize)]) -> Vec<(String, usize)> {
    v.iter().map(|(s, l)| (s.to_string(), *l)).collect()
}

#[test]
fn crate_tree_prettier() {
    let map = sample_map();
    let t = map.dmodule_show_prettier();
    assert_eq!(
        lines(&t),
        expect(&[
            ("krate", 0),
            ("Functions", 1),
            ("a", 2),
            ("b", 2),
            ("Macros - Derive", 1),
            ("zmac", 2),
            ("Structs", 1),
            ("S", 2),
            ("Fields", 3),
            ("0", 4),
            ("/* private fields */", 4),
            ("No Implementations!", 3),
            ("Enums", 1),
            ("E", 2),
            ("Variants", 3),
            ("V", 4),
            ("No Implementations!", 3),
            ("krate::m", 1),
            ("Traits", 2),
            ("T", 3),
            ("Associated Types", 4),
            ("Out", 5),
            ("Associated Functions", 4),
            ("go", 5),
            ("run", 5),
            ("Implementors", 4),
            ("Id(0:99)", 5),
            ("Enums", 2),
            ("E", 3),
            ("Variants", 4),
            ("V", 5),
            ("No Implementations!", 4),
        ])
    );
    assert_eq!(t.root.tag, Tag::Module);
    assert_eq!(t.leaves[0].root.tag, Tag::Functions);
    assert_eq!(t.leaves[0].leaves[0].root.tag, Tag::Function);
}

#[test]
fn inner_trees_by_id() {
    let map = sample_map();
    let d = &map.dmod;
    let s = d.item_inner_tree(&id("0:3"), &map).unwrap();
    assert_eq!(
        lines(&s),
        expect(&[("S", 0), ("Fields", 1), ("0", 2), ("/* private fields */", 2), ("No Implementations!", 1)])
    );
    let f = d.field_tree(&id("0:3"), &map).unwrap();
    assert_eq!(lines(&f), expect(&[("S", 0), ("0", 1), ("/* private fields */", 1)]));
    // a re-export finds the enum listed under its own id
    let e = d.item_inner_tree(&id("0:12"), &map).unwrap();
    assert_eq!(lines(&e)[0], ("E".to_string(), 0));
    let v = d.field_tree(&id("0:10"), &map).unwrap();
    assert_eq!(lines(&v), expect(&[("E", 0), ("V", 1)]));
    // a function has no inner tree
    assert!(d.item_inner_tree(&id("0:1"), &map).is_none());
    assert!(d.field_tree(&id("0:6"), &map).is_none());
    let m = d.item_inner_tree(&id("0:4"), &map).unwrap();
    assert_eq!(lines(&m), expect(&[("krate::m", 0), ("T", 1), ("E", 1)]));
}

#[test]
fn trait_trees_by_id() {
    let map = sample_map();
    let d = &map.dmod;
    let i = d.implementor_tree(&id("0:6"), &map).unwrap();
    assert_eq!(lines(&i), expect(&[("T", 0), ("Id(0:99)", 1)]));
    let a = d.associated_item_tree(&id("0:6"), &map).unwrap();
    assert_eq!(lines(&a), expect(&[("T", 0), ("Out", 1), ("go", 1), ("run", 1)]));
    let t = d.impl_tree(&id("0:6"), &map).unwrap();
    assert_eq!(lines(&t)[1], ("Associated Types".to_string(), 1));
    let s = d.impl_tree(&id("0:3"), &map).unwrap();
    assert_eq!(lines(&s), expect(&[("No Implementations!", 0)]));
    assert!(d.implementor_tree(&id("0:3"), &map).is_none());
    assert!(d.impl_tree(&id("0:4"), &map).is_none());
}

#[test]
fn plain_forms() {
    let map = sample_map();
    let d = &map.dmod;
    let s = d.structs[0].show();
    assert_eq!(
        lines(&s),
        expect(&[
            ("[struct] 0:3", 0),
            ("Fields", 1),
            ("0:5", 2),
            ("/* private fields */", 2),
            ("Implementations", 1),
            ("Inherent Impls", 2),
            ("Trait Impls", 2),
            ("Auto Impls", 2),
            ("Blanket Impls", 2),
        ])
    );
    let t = d.modules[0].traits[0].show();
    assert_eq!(
        lines(&t),
        expect(&[
            ("[trait] 0:6", 0),
            ("Associated Constants", 1),
            ("Associated Types", 1),
            ("0:8", 2),
            ("Associated Functions", 1),
            ("0:11", 2),
            ("0:7", 2),
            ("Implementors", 1),
            ("0:99", 2),
        ])
    );
    let m = DMacro::new(id("0:9"), DMacroKind::ProcDerive).show();
    assert_eq!(lines(&m), expect(&[("[derv] 0:9", 0)]));
    let root = d.show();
    let l = lines(&root);
    assert_eq!(l[0], ("[mod] 0:0".to_string(), 0));
    assert_eq!(l[1], ("Functions".to_string(), 1));
    assert_eq!(l[2], ("0:2".to_string(), 2));
}

#[test]
fn inherent_impls_merge_sorted_by_name() {
    let map = sample_map();
    let a = DImplInner { id: id("i:1"), functions: ids(&["0:1"]), constants: vec![], types: vec![] };
    let b = DImplInner { id: id("i:2"), functions: ids(&["0:2", "0:7"]), constants: vec![], types: ids(&["0:8"]) };
    let m = DImplInner::merge_inherent_impls(&vec![a, b], &map);
    assert_eq!(m.id.id, "0");
    let names: Vec<String> = m.functions.iter().map(|i| map.name(i)).collect();
    assert_eq!(names, vec!["a", "b", "run"]);
    assert_eq!(m.types.len(), 1);
    assert!(m.constants.is_empty());
    let t = m.show_prettier(Tag::ImplInherent, &map);
    assert_eq!(lines(&t), expect(&[("Id(0)", 0), ("Out", 1), ("a", 1), ("b", 1), ("run", 1)]));
    assert_eq!(t.root.tag, Tag::ImplInherent);
}

#[test]
fn name_and_id_nodes() {
    let map = sample_map();
    let v = show_names(&ids(&["0:1", "0:2", "x"]), Tag::Function, &map);
    let texts: Vec<String> = v.iter().map(|t| t.root.text.clone()).collect();
    assert_eq!(texts, vec!["b", "a", "Id(x)"]);
    assert!(v.iter().all(|t| t.root.tag == Tag::Function && t.leaves.is_empty()));
    let p = show_ids(&ids(&["0:1"]));
    assert_eq!(p[0].root.text, "0:1");
    assert_eq!(p[0].root.tag, Tag::Unknown);
}

#[test]
fn paths_and_maps() {
    let map = sample_map();
    assert_eq!(map.path_with_kind_check(&id("0:4"), ItemKind::Struct), "krate::m");
    assert_eq!(map.path_with_kind_check(&id("0:3"), ItemKind::Struct), "Id(0:3)");
    assert_eq!(map.indexmap().len(), 14);
    assert_eq!(map.pathmap().len(), 2);
    let t = map.dmodule_item_tree();
    let l = lines(&t);
    assert_eq!(l[0], ("krate".to_string(), 0));
    assert_eq!(l.last().unwrap(), &("E".to_string(), 2));
}
