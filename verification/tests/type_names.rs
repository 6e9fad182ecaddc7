use term_rustdoc::type_names::{
    full_type_name, resolved_path_name, short_resolved_path_name, short_type_name, ArgV, ArgsV,
    PathV, TypeV,
};

fn generic(name: &str) -> TypeV {
    TypeV::Generic(name.to_string())
}

fn path(name: &str, args: Option<ArgsV>) -> PathV {
    PathV { name: name.to_string(), args: args.map(Box::new) }
}

#[test]
fn generic_is_its_own_name() {
    assert_eq!(full_type_name(&generic("T")).as_deref(), Some("T"));
    assert_eq!(short_type_name(&generic("T")).as_deref(), Some("T"));
}

#[test]
fn other_types_have_no_name() {
    assert_eq!(full_type_name(&TypeV::Other), None);
    let r = TypeV::BorrowedRef { lifetime: None, mutable: false, type_: Box::new(TypeV::Other) };
    assert_eq!(full_type_name(&r), None);
}

#[test]
fn references_by_lifetime_and_mutability() {
    let shared = TypeV::BorrowedRef { lifetime: None, mutable: false, type_: Box::new(generic("T")) };
    let unique = TypeV::BorrowedRef { lifetime: None, mutable: true, type_: Box::new(generic("T")) };
    let shared_a = TypeV::BorrowedRef {
        lifetime: Some("a".to_string()),
        mutable: false,
        type_: Box::new(generic("T")),
    };
    let unique_a = TypeV::BorrowedRef {
        lifetime: Some("a".to_string()),
        mutable: true,
        type_: Box::new(generic("T")),
    };
    assert_eq!(full_type_name(&shared).as_deref(), Some("&T"));
    assert_eq!(full_type_name(&unique).as_deref(), Some("&mut T"));
    assert_eq!(full_type_name(&shared_a).as_deref(), Some("&'a T"));
    assert_eq!(full_type_name(&unique_a).as_deref(), Some("&'a mut T"));
}

#[test]
fn paths_with_angle_arguments() {
    let args = ArgsV::AngleBracketed(vec![
        ArgV::Lifetime("'a".to_string()),
        ArgV::Const,
        ArgV::Type(generic("T")),
        ArgV::Type(TypeV::Other),
        ArgV::Infer,
    ]);
    let p = path("std::vec::Vec", Some(args));
    assert_eq!(resolved_path_name(&p).as_deref(), Some("std::vec::Vec<'a, T, _>"));
    assert_eq!(short_resolved_path_name(&p).as_deref(), Some("Vec<'a, T, _>"));
    let ty = TypeV::ResolvedPath(p);
    assert_eq!(short_type_name(&ty).as_deref(), Some("Vec<'a, T, _>"));
}

#[test]
fn empty_angle_arguments_write_the_name_alone() {
    let p = path("a::B", Some(ArgsV::AngleBracketed(vec![])));
    assert_eq!(resolved_path_name(&p).as_deref(), Some("a::B"));
    assert_eq!(short_resolved_path_name(&p).as_deref(), Some("B"));
    let q = path("a::B", None);
    assert_eq!(resolved_path_name(&q).as_deref(), Some("a::B"));
}

#[test]
fn only_other_arguments_leave_empty_brackets() {
    let p = path("X", Some(ArgsV::AngleBracketed(vec![ArgV::Const])));
    assert_eq!(resolved_path_name(&p).as_deref(), Some("X<>"));
}

#[test]
fn function_trait_paths() {
    let args = ArgsV::Parenthesized {
        inputs: vec![generic("A"), TypeV::Other, generic("B")],
        output: Some(TypeV::ResolvedPath(path("core::option::Option", None))),
    };
    let p = path("core::ops::Fn", Some(args));
    assert_eq!(resolved_path_name(&p).as_deref(), Some("core::ops::Fn(A, B) -> core::option::Option"));
    assert_eq!(short_resolved_path_name(&p).as_deref(), Some("Fn(A, B) -> Option"));
    let no_out = path("FnOnce", Some(ArgsV::Parenthesized { inputs: vec![], output: Some(TypeV::Other) }));
    assert_eq!(resolved_path_name(&no_out).as_deref(), Some("FnOnce()"));
}
