use term_rustdoc::decl::fn_::Function;
use term_rustdoc::decl::struct_::{Struct, StructKind};
use term_rustdoc::decl::{buf, vis, Visibility};
use term_rustdoc::tree::id::ID;
use term_rustdoc::tree::idmap::{IDMap, Item, ItemInner};
use term_rustdoc::tree::nodes::DModule;
use term_rustdoc::type_names::{ArgV, ArgsV, PathV, TypeV};

fn id(s: &str) -> ID {
    ID::new(s)
}

fn field(i: &str, name: Option<&str>, ty: TypeV) -> Item {
    Item {
        id: id(i),
        crate_id: 0,
        name: name.map(|n| n.to_string()),
        docs: None,
        inner: ItemInner::StructField { ty },
    }
}

fn map() -> IDMap {
    let vec_t = TypeV::ResolvedPath(PathV {
        name: "std::vec::Vec".to_string(),
        args: Some(Box::new(ArgsV::AngleBracketed(vec![ArgV::Type(TypeV::Generic("T".to_string()))]))),
    });
    let index = vec![
        field("f:1", Some("x"), TypeV::Generic("T".to_string())),
        field("f:2", Some("y"), vec_t),
        field("f:3", Some("z"), TypeV::Other),
        Item { id: id("f:4"), crate_id: 0, name: Some("w".to_string()), docs: None, inner: ItemInner::Function },
        field("f:5", None, TypeV::Generic("U".to_string())),
    ];
    IDMap { index, paths: vec![], dmod: DModule::new_external(id("root")) }
}

fn plain(fields: &[&str], stripped: bool, def: Option<&str>, where_: Option<&str>) -> Struct {
    Struct {
        kind: StructKind::Plain { fields: fields.iter().map(|s| id(s)).collect(), fields_stripped: stripped },
        generics_def: def.map(|s| s.to_string()),
        generics_where: where_.map(|s| s.to_string()),
    }
}

fn tuple(fields: &[Option<&str>], def: Option<&str>, where_: Option<&str>) -> Struct {
    Struct {
        kind: StructKind::Tuple(fields.iter().map(|s| s.map(id)).collect()),
        generics_def: def.map(|s| s.to_string()),
        generics_where: where_.map(|s| s.to_string()),
    }
}

fn unit(def: Option<&str>, where_: Option<&str>) -> Struct {
    Struct { kind: StructKind::Unit, generics_def: def.map(|s| s.to_string()), generics_where: where_.map(|s| s.to_string()) }
}

#[test]
fn visibility_prefixes() {
    let mut s = String::new();
    vis(&Visibility::Public, &mut s);
    assert_eq!(s, "pub ");
    assert_eq!(buf(&Visibility::Default), "");
    assert_eq!(buf(&Visibility::Crate), "pub(crate) ");
    assert_eq!(buf(&Visibility::Restricted { path: "crate::m".to_string() }), "pub(crate::m) ");
}

#[test]
fn plain_struct_with_fields() {
    let m = map();
    let s = plain(&["f:1", "f:2"], false, None, None);
    assert_eq!(s.parse(&Visibility::Public, "A", &m), "pub struct A\n{\n    x: T,\n    y: Vec<T>,\n}");
}

#[test]
fn plain_struct_skips_unnamed_or_non_field_items() {
    let m = map();
    let s = plain(&["f:3", "f:4", "f:5", "nope"], false, None, None);
    assert_eq!(s.parse(&Visibility::Default, "A", &m), "struct A\n{\n    z: _,\n}");
}

#[test]
fn plain_struct_with_stripped_fields() {
    let m = map();
    let s = plain(&["f:1"], true, Some("T"), None);
    assert_eq!(s.parse(&Visibility::Default, "A", &m), "struct A<T>\n{\n    x: T,\n    /* private fields */\n}");
    let e = plain(&[], true, None, None);
    assert_eq!(e.parse(&Visibility::Default, "A", &m), "struct A { /* private fields */ }");
    let w = plain(&[], true, Some("T"), Some("T: Copy"));
    assert_eq!(w.parse(&Visibility::Default, "A", &m), "struct A<T>\nwhere\nT: Copy\n{ /* private fields */ }");
    let n = plain(&[], false, None, Some("T: Copy"));
    assert_eq!(n.parse(&Visibility::Default, "A", &m), "struct A\nwhere\nT: Copy {}");
}

#[test]
fn empty_plain_struct() {
    let m = map();
    assert_eq!(plain(&[], false, None, None).parse(&Visibility::Default, "A", &m), "struct A {}");
}

#[test]
fn tuple_structs() {
    let m = map();
    assert_eq!(tuple(&[None, None], None, None).parse(&Visibility::Default, "A", &m), "struct A(_, _);");
    assert_eq!(tuple(&[], None, None).parse(&Visibility::Default, "A", &m), "struct A();");
    assert_eq!(
        tuple(&[Some("f:1"), None], Some("T"), None).parse(&Visibility::Public, "A", &m),
        "pub struct A<T>(\n    T,\n    _,\n);"
    );
    assert_eq!(
        tuple(&[Some("f:2")], Some("T"), Some("T: Clone")).parse(&Visibility::Default, "A", &m),
        "struct A<T>(\n    Vec<T>,\n)\nwhere\nT: Clone;"
    );
    assert_eq!(
        tuple(&[None], None, Some("T: Clone")).parse(&Visibility::Default, "A", &m),
        "struct A(_)\nwhere\nT: Clone;"
    );
}

#[test]
fn unit_structs() {
    let m = map();
    assert_eq!(unit(None, None).parse(&Visibility::Crate, "A", &m), "pub(crate) struct A;");
    assert_eq!(unit(Some("T"), None).parse(&Visibility::Default, "A", &m), "struct A<T>;");
    assert_eq!(unit(None, Some("T: Copy")).parse(&Visibility::Default, "A", &m), "struct A\nwhere\nT: Copy;");
    assert_eq!(unit(Some("T"), Some("T: Copy")).parse(&Visibility::Default, "A", &m), "struct A<T>\nwhere\nT: Copy;");
}

#[test]
fn function_declarations() {
    let f = Function {
        header: "const ".to_string(),
        generics_def: Some("T".to_string()),
        decl: "(x: u8) -> u8".to_string(),
        generics_where: Some("T: Copy".to_string()),
    };
    assert_eq!(f.parse(&Visibility::Public, "f"), "pub const fn f<T>(x: u8) -> u8 where T: Copy");
    let g = Function { header: String::new(), generics_def: None, decl: "()".to_string(), generics_where: None };
    assert_eq!(g.parse(&Visibility::Default, "g"), "fn g()");
}
