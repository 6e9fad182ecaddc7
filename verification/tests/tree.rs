use term_rustdoc::tree::construct::DataItemKind;
use term_rustdoc::tree::id::ID;
use term_rustdoc::tree::idmap::{IDMap, Item, ItemInner, ItemKind, ItemSummary};
use term_rustdoc::tree::nodes::{DMacroKind, DModule};
use term_rustdoc::tree::sort::{sort_by_keys, text_less};
use term_rustdoc::tree::stats::{Accumulate, ImplCounts, ImplKind, TotolCount};

fn id(s: &str) -> ID {
    ID::new(s)
}

fn item(i: &str, name: Option<&str>, inner: ItemInner) -> Item {
    Item { id: id(i), crate_id: 0, name: name.map(|n| n.to_string()), docs: None, inner }
}

fn ids(v: &[&str]) -> Vec<ID> {
    v.iter().map(|s| id(s)).collect()
}

fn names(map: &IDMap, v: &[ID]) -> Vec<String> {
    v.iter().map(|i| map.name(i)).collect()
}

/// A crate `krate` with functions `b` and `a`, a struct `S` with a private tuple field,
/// a module `m` holding a trait `T` and an enum, and a re-export of `m::E` at the root.
fn sample_map() -> IDMap {
    let index = vec![
        item("0:0", Some("krate"), ItemInner::Module { is_crate: true, items: ids(&["0:1", "0:2", "0:3", "0:4", "0:9", "0:12"]) }),
        item("0:1", Some("b"), ItemInner::Function),
        item("0:2", Some("a"), ItemInner::Function),
        item("0:3", Some("S"), ItemInner::StructTuple { fields: vec![Some(id("0:5")), None], impls: vec![] }),
        item("0:4", Some("m"), ItemInner::Module { is_crate: false, items: ids(&["0:6", "0:10"]) }),
        item("0:5", Some("0"), ItemInner::Other),
        item("0:6", Some("T"), ItemInner::Trait { items: ids(&["0:7", "0:8", "0:11"]), implementations: ids(&["0:99"]) }),
        item("0:7", Some("run"), ItemInner::Function),
        item("0:8", Some("Out"), ItemInner::AssocType),
        item("0:9", Some("zmac"), ItemInner::ProcMacro(DMacroKind::ProcDerive)),
        item("0:10", Some("E"), ItemInner::Enum { variants: ids(&["0:13"]), impls: vec![] }),
        item("0:11", Some("go"), ItemInner::Function),
        item("0:12", None, ItemInner::Use { name: "E".to_string(), id: Some(id("0:10")) }),
        item("0:13", Some("V"), ItemInner::Other),
    ];
    let paths = vec![
        ItemSummary { id: id("0:0"), path: vec!["krate".to_string()], kind: ItemKind::Module },
        ItemSummary { id: id("0:4"), path: vec!["krate".to_string(), "m".to_string()], kind: ItemKind::Module },
    ];
    IDMap { index, paths, dmod: DModule::new_external(id("0:0")) }
}

#[test]
fn module_tree_is_built_and_sorted() {
    let map = sample_map();
    let d = DModule::new(&map);
    assert_eq!(d.id.id, "0:0");
    let fns: Vec<ID> = d.functions.iter().map(|f| f.id.clone()).collect();
    assert_eq!(names(&map, &fns), vec!["a", "b"]);
    assert_eq!(d.structs.len(), 1);
    assert_eq!(d.structs[0].fields.len(), 1);
    assert!(d.structs[0].contain_private_fields);
    assert_eq!(d.macros_derv.len(), 1);
    // the re-exported enum is named by the `use` item
    assert_eq!(d.enums.len(), 1);
    assert_eq!(d.enums[0].id.id, "0:12");
    assert_eq!(d.enums[0].variants.len(), 1);
    assert_eq!(d.modules.len(), 1);
    let m = &d.modules[0];
    assert_eq!(m.traits.len(), 1);
    let t = &m.traits[0];
    assert_eq!(names(&map, &t.functions), vec!["go", "run"]);
    assert_eq!(names(&map, &t.types), vec!["Out"]);
    assert_eq!(t.implementations.len(), 1);
    assert_eq!(m.enums.len(), 1);
}

#[test]
fn data_item_kind_follows_reexports() {
    let map = sample_map();
    assert_eq!(DataItemKind::new(&id("0:3"), &map), Some(DataItemKind::Struct));
    assert_eq!(DataItemKind::new(&id("0:12"), &map), Some(DataItemKind::Enum));
    assert_eq!(DataItemKind::new(&id("0:4"), &map), Some(DataItemKind::Module));
    assert_eq!(DataItemKind::new(&id("0:1"), &map), None);
    assert_eq!(DataItemKind::new(&id("missing"), &map), None);
}

#[test]
fn reexport_cycle_stops() {
    // a use item that points to itself never finds a data item
    let index = vec![item("0:0", None, ItemInner::Use { name: "x".to_string(), id: Some(id("0:0")) })];
    let map = IDMap { index, paths: vec![], dmod: DModule::new_external(id("0:0")) };
    assert_eq!(DataItemKind::new(&id("0:0"), &map), None);
}

#[test]
fn names_and_paths() {
    let map = sample_map();
    assert_eq!(map.name(&id("0:4")), "m");
    assert_eq!(map.path(&id("0:4")), "krate::m");
    assert_eq!(map.path(&id("0:1")), "b");
    assert_eq!(map.name(&id("0:12")), "E");
    assert_eq!(map.name(&id("nowhere")), "Id(nowhere)");
    assert!(map.path_or_name(&id("0:1")).is_err());
}

#[test]
fn sorting_keeps_ties_in_order() {
    let keys: Vec<String> = vec!["b", "a", "b", "a"].into_iter().map(String::from).collect();
    let sorted = sort_by_keys(vec![1, 2, 3, 4], keys);
    assert_eq!(sorted, vec![2, 4, 1, 3]);
}

#[test]
fn text_order_is_by_characters() {
    assert!(text_less("a", "b"));
    assert!(text_less("ab", "abc"));
    assert!(!text_less("abc", "ab"));
    assert!(!text_less("x", "x"));
    assert!(text_less("Z", "a"));
}

#[test]
fn impl_kinds_add() {
    assert_eq!(ImplKind::Inherent.add(ImplKind::Inherent), ImplKind::Inherent);
    assert_eq!(ImplKind::Trait.add(ImplKind::Trait), ImplKind::Trait);
    assert_eq!(ImplKind::Inherent.add(ImplKind::Trait), ImplKind::Both);
    assert_eq!(ImplKind::Both.add(ImplKind::Inherent), ImplKind::Both);
}

#[test]
fn totol_counts_add() {
    let mut a = TotolCount::zero();
    a.structs = 2;
    a.modules = 1;
    let mut b = TotolCount::zero();
    b.structs = 3;
    b.macros_derv = 4;
    let c = a.add(b);
    assert_eq!(c.structs, 5);
    assert_eq!(c.modules, 1);
    assert_eq!(c.macros_derv, 4);
    let mut d = TotolCount::zero();
    d.add_assign(c);
    assert_eq!(d.structs, 5);
}

#[test]
fn reexports_count_as_the_same_id() {
    let map = sample_map();
    assert!(map.is_same_id(&id("0:3"), &id("0:3")));
    assert!(map.is_same_id(&id("0:12"), &id("0:10")));
    assert!(!map.is_same_id(&id("0:10"), &id("0:12")));
    assert!(!map.is_same_id(&id("0:3"), &id("0:10")));
}

#[test]
fn item_counts_here_and_below() {
    let map = sample_map();
    let d = DModule::new(&map);
    let here = d.current_items_counts();
    assert_eq!((here.modules, here.functions, here.structs, here.enums, here.traits), (1, 2, 1, 1, 0));
    assert_eq!(here.macros_derv, 1);
    let all = d.recursive_items_counts();
    assert_eq!((all.modules, all.functions, all.structs, all.enums, all.traits), (1, 2, 1, 2, 1));
}

#[test]
fn item_counts_reach_every_depth() {
    let leaf = DModule::new_external(id("e"));
    let mut c = DModule::new_external(id("c"));
    c.modules.push(leaf);
    let mut b = DModule::new_external(id("b"));
    b.modules.push(c);
    b.modules.push(DModule::new_external(id("d")));
    let mut root = DModule::new_external(id("root"));
    root.modules.push(b);
    assert_eq!(root.current_items_counts().modules, 1);
    // one below the root, two below `b`, one below `c`
    assert_eq!(root.recursive_items_counts().modules, 4);
}

#[test]
fn impl_counts_add_field_by_field() {
    let mut a = ImplCounts::empty();
    a.inherent.structs = 2;
    a.inherent.total = 2;
    a.total.structs = 2;
    a.total.total = 2;
    let mut b = ImplCounts::empty();
    b.trait_.structs = 1;
    b.trait_.total = 1;
    b.total.structs = 1;
    b.total.total = 1;
    let c = a.add(b);
    assert_eq!((c.inherent.structs, c.trait_.structs, c.total.structs), (2, 1, 3));
    assert_eq!(c.inherent.kind, ImplKind::Inherent);
    assert_eq!(c.trait_.kind, ImplKind::Trait);
    a.add_assign(b);
    assert_eq!((a.inherent.structs, a.trait_.structs, a.total.total), (2, 1, 3));
}

#[test]
fn ids_read_as_their_text() {
    let a = ID::new("0:7");
    assert_eq!(a.as_str(), "0:7");
    assert_eq!(&*a, "0:7");
    assert_eq!(a.len(), 3);
    let b = ID::from("0:8");
    assert_eq!(b.as_str(), "0:8");
    assert_eq!(&*b, "0:8");
}
