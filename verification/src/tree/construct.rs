use vstd::prelude::*;
use crate::tree::id::ID;
use crate::tree::idmap::{IDMap, Item, ItemInner, ItemKind};
use crate::tree::nodes::{
    DConstant, DEnum, DFunction, DImpl, DMacroAttr, DMacroDecl, DMacroDerv, DMacroFunc, DMacroKind,
    DModule, DStatic, DStruct, DTrait, DTypeAlias, DUnion,
};
use crate::tree::outline::HasId;
use crate::tree::sort::{keyed, lemma_sort_named_from, lemma_sort_named_map, sort_by_key, sort_by_keys, sort_named};

verus! {

/// A struct as its id, its field ids, and whether it has fields that are not shown.
pub struct StructV {
    pub id: ID,
    pub fields: Seq<ID>,
    pub private: bool,
}

pub struct UnionV {
    pub id: ID,
    pub fields: Seq<ID>,
}

pub struct EnumV {
    pub id: ID,
    pub variants: Seq<ID>,
}

pub struct TraitV {
    pub id: ID,
    pub types: Seq<ID>,
    pub constants: Seq<ID>,
    pub functions: Seq<ID>,
    pub implementations: Seq<ID>,
}

/// A module tree as its ids.
pub struct ModV {
    pub id: ID,
    pub modules: Seq<ModV>,
    pub structs: Seq<StructV>,
    pub unions: Seq<UnionV>,
    pub enums: Seq<EnumV>,
    pub traits: Seq<TraitV>,
    pub functions: Seq<ID>,
    pub constants: Seq<ID>,
    pub statics: Seq<ID>,
    pub type_alias: Seq<(ID, Option<ID>)>,
    pub macros_decl: Seq<ID>,
    pub macros_func: Seq<ID>,
    pub macros_attr: Seq<ID>,
    pub macros_derv: Seq<ID>,
}

pub open spec fn ids_seq(v: Seq<ID>) -> Seq<Seq<char>> {
    v.map_values(|i: ID| i@)
}

pub open spec fn struct_view(d: DStruct) -> StructV {
    StructV { id: d.id, fields: d.fields@, private: d.contain_private_fields }
}

pub open spec fn trait_view(d: DTrait) -> TraitV {
    TraitV {
        id: d.id,
        types: d.types@,
        constants: d.constants@,
        functions: d.functions@,
        implementations: d.implementations@,
    }
}

pub open spec fn mod_view(d: DModule) -> ModV
    decreases d,
{
    ModV {
        id: d.id,
        modules: mods_view(d.modules@),
        structs: d.structs@.map_values(|s: DStruct| struct_view(s)),
        unions: d.unions@.map_values(|u: DUnion| UnionV { id: u.id, fields: u.fields@ }),
        enums: d.enums@.map_values(|e: DEnum| EnumV { id: e.id, variants: e.variants@ }),
        traits: d.traits@.map_values(|t: DTrait| trait_view(t)),
        functions: d.functions@.map_values(|f: DFunction| f.id),
        constants: d.constants@.map_values(|f: DConstant| f.id),
        statics: d.statics@.map_values(|f: DStatic| f.id),
        type_alias: d.type_alias@.map_values(|f: DTypeAlias| (f.id, f.source_path)),
        macros_decl: d.macros_decl@.map_values(|f: DMacroDecl| f.id),
        macros_func: d.macros_func@.map_values(|f: DMacroFunc| f.id),
        macros_attr: d.macros_attr@.map_values(|f: DMacroAttr| f.id),
        macros_derv: d.macros_derv@.map_values(|f: DMacroDerv| f.id),
    }
}

pub open spec fn mods_view(ms: Seq<DModule>) -> Seq<ModV>
    decreases ms,
{
    if ms.len() == 0 {
        seq![]
    } else {
        mods_view(ms.subrange(0, ms.len() - 1)).push(mod_view(ms[ms.len() - 1]))
    }
}

/// No data type of the tree has impls: all their `impls` lists are empty.
pub open spec fn types_without_impls(d: DModule) -> bool
    decreases d,
{
    &&& forall|k: int| 0 <= k < d.structs@.len() ==> (#[trigger] d.structs@[k]).impls.spec_is_empty()
    &&& forall|k: int| 0 <= k < d.unions@.len() ==> (#[trigger] d.unions@[k]).impls.spec_is_empty()
    &&& forall|k: int| 0 <= k < d.enums@.len() ==> (#[trigger] d.enums@[k]).impls.spec_is_empty()
    &&& mods_without_impls(d.modules@)
}

pub open spec fn mods_without_impls(ms: Seq<DModule>) -> bool
    decreases ms,
{
    if ms.len() == 0 {
        true
    } else {
        mods_without_impls(ms.subrange(0, ms.len() - 1)) && types_without_impls(ms[ms.len() - 1])
    }
}

/// No struct, union or enum of the index lists impls: the classification of impl blocks is
/// not done, so a type with impls cannot be put in the tree.
pub open spec fn no_impls(map: IDMap) -> bool {
    forall|k: int|
        0 <= k < map.index@.len() ==> match (#[trigger] map.index@[k]).inner {
            ItemInner::StructTuple { fields: _, impls } => impls@.len() == 0,
            ItemInner::StructPlain { fields: _, has_stripped_fields: _, impls } => impls@.len() == 0,
            ItemInner::StructUnit { impls } => impls@.len() == 0,
            ItemInner::Union { fields: _, impls } => impls@.len() == 0,
            ItemInner::Enum { variants: _, impls } => impls@.len() == 0,
            _ => true,
        }
}

/// A module with no items.
pub open spec fn bare(id: ID) -> ModV {
    ModV {
        id,
        modules: seq![],
        structs: seq![],
        unions: seq![],
        enums: seq![],
        traits: seq![],
        functions: seq![],
        constants: seq![],
        statics: seq![],
        type_alias: seq![],
        macros_decl: seq![],
        macros_func: seq![],
        macros_attr: seq![],
        macros_derv: seq![],
    }
}

/// The public tuple fields in order.
pub open spec fn shown_fields(fs: Seq<Option<ID>>) -> Seq<ID>
    decreases fs.len(),
{
    if fs.len() == 0 {
        seq![]
    } else {
        let init = shown_fields(fs.drop_last());
        match fs.last() {
            Some(i) => init.push(i),
            None => init,
        }
    }
}

/// A struct with the id and the content: the fields shown, and whether some are not.
pub open spec fn struct_v(id: ID, inner: ItemInner) -> StructV {
    match inner {
        ItemInner::StructTuple { fields, impls: _ } => StructV {
            id,
            fields: shown_fields(fields@),
            private: exists|k: int| 0 <= k < fields@.len() && (#[trigger] fields@[k]) is None,
        },
        ItemInner::StructPlain { fields, has_stripped_fields, impls: _ } => StructV {
            id,
            fields: fields@,
            private: has_stripped_fields,
        },
        _ => StructV { id, fields: seq![], private: false },
    }
}

/// Which kind of associated item the id names: 0 for a type, 1 for a constant, 2 for a
/// function, 3 for none of these or an item not in the index.
pub open spec fn assoc_kind(map: IDMap, id: ID) -> int {
    match map.spec_get_item(id@) {
        Some(item) => match item.inner {
            ItemInner::AssocType => 0,
            ItemInner::AssocConst => 1,
            ItemInner::Function => 2,
            _ => 3,
        },
        None => 3,
    }
}

/// The ids of the associated items of the kind, in order.
pub open spec fn assoc_of(map: IDMap, items: Seq<ID>, kind: int) -> Seq<ID>
    decreases items.len(),
{
    if items.len() == 0 {
        seq![]
    } else {
        let init = assoc_of(map, items.drop_last(), kind);
        if assoc_kind(map, items.last()) == kind {
            init.push(items.last())
        } else {
            init
        }
    }
}

/// The ids sorted by their items' names, ids with equal names in their order.
pub open spec fn by_name(map: IDMap, ids: Seq<ID>) -> Seq<ID> {
    sort_named(ids, |i: ID| map.spec_name(i@))
}

/// A trait: its associated types, constants and functions each sorted by name, and its
/// implementations.
pub open spec fn trait_v(map: IDMap, id: ID, items: Seq<ID>, implementations: Seq<ID>) -> TraitV {
    TraitV {
        id,
        types: by_name(map, assoc_of(map, items, 0)),
        constants: by_name(map, assoc_of(map, items, 1)),
        functions: by_name(map, assoc_of(map, items, 2)),
        implementations,
    }
}

/// The module with an item added by the item's content, named by the id; `None` when the
/// content is not an item of the tree.
pub open spec fn with_leaf(m: ModV, map: IDMap, id: ID, inner: ItemInner) -> Option<ModV> {
    match inner {
        ItemInner::StructTuple { .. } | ItemInner::StructPlain { .. } | ItemInner::StructUnit { .. } => Some(
            ModV { structs: m.structs.push(struct_v(id, inner)), ..m },
        ),
        ItemInner::Union { fields, impls: _ } => Some(ModV { unions: m.unions.push(UnionV { id, fields: fields@ }), ..m }),
        ItemInner::Enum { variants, impls: _ } => Some(ModV { enums: m.enums.push(EnumV { id, variants: variants@ }), ..m }),
        ItemInner::Trait { items, implementations } => Some(
            ModV { traits: m.traits.push(trait_v(map, id, items@, implementations@)), ..m },
        ),
        ItemInner::Function => Some(ModV { functions: m.functions.push(id), ..m }),
        ItemInner::Constant => Some(ModV { constants: m.constants.push(id), ..m }),
        ItemInner::Static => Some(ModV { statics: m.statics.push(id), ..m }),
        ItemInner::TypeAlias { source } => Some(ModV { type_alias: m.type_alias.push((id, source)), ..m }),
        ItemInner::Macro => Some(ModV { macros_decl: m.macros_decl.push(id), ..m }),
        ItemInner::ProcMacro(k) => Some(
            match k {
                DMacroKind::ProcAttribute => ModV { macros_attr: m.macros_attr.push(id), ..m },
                DMacroKind::ProcDerive => ModV { macros_derv: m.macros_derv.push(id), ..m },
                _ => ModV { macros_func: m.macros_func.push(id), ..m },
            },
        ),
        _ => None,
    }
}

/// The number of items in all the item lists of a module (submodules apart).
pub open spec fn items_total(m: ModV) -> nat {
    m.structs.len() + m.unions.len() + m.enums.len() + m.traits.len() + m.functions.len()
        + m.constants.len() + m.statics.len() + m.type_alias.len() + m.macros_decl.len()
        + m.macros_func.len() + m.macros_attr.len() + m.macros_derv.len()
}

/// An item of the index goes into the list of its own kind, and into no other: the list of
/// its kind ends with it, the module then holds exactly one item more, and its submodules
/// stay. A static goes to the statics, a constant to the constants, a function to the
/// functions, a declarative macro to the declarative macros, and so on; a content that is
/// no item of the tree adds nothing.
pub proof fn law_leaf_lands_in_its_kind(m: ModV, map: IDMap, id: ID, inner: ItemInner)
    ensures
        ({
            let w = with_leaf(m, map, id, inner);
            &&& w is Some ==> items_total(w.unwrap()) == items_total(m) + 1 && w.unwrap().modules == m.modules
                && w.unwrap().id == m.id
            &&& inner is Static ==> w is Some && w.unwrap().statics == m.statics.push(id)
            &&& inner is Constant ==> w is Some && w.unwrap().constants == m.constants.push(id)
            &&& inner is Function ==> w is Some && w.unwrap().functions == m.functions.push(id)
            &&& inner is Macro ==> w is Some && w.unwrap().macros_decl == m.macros_decl.push(id)
            &&& (inner matches ItemInner::ProcMacro(k) && k == DMacroKind::ProcAttribute) ==> w is Some
                && w.unwrap().macros_attr == m.macros_attr.push(id)
            &&& (inner matches ItemInner::ProcMacro(k) && k == DMacroKind::ProcDerive) ==> w is Some
                && w.unwrap().macros_derv == m.macros_derv.push(id)
            &&& (inner matches ItemInner::ProcMacro(k) && k == DMacroKind::ProcFunction) ==> w is Some
                && w.unwrap().macros_func == m.macros_func.push(id)
            &&& inner is TypeAlias ==> w is Some && w.unwrap().type_alias.drop_last() == m.type_alias
                && w.unwrap().type_alias.last().0 == id
            &&& (inner is StructTuple || inner is StructPlain || inner is StructUnit) ==> w is Some
                && w.unwrap().structs.drop_last() == m.structs && w.unwrap().structs.last().id == id
            &&& inner is Union ==> w is Some && w.unwrap().unions.drop_last() == m.unions
                && w.unwrap().unions.last().id == id
            &&& inner is Enum ==> w is Some && w.unwrap().enums.drop_last() == m.enums
                && w.unwrap().enums.last().id == id
            &&& inner is Trait ==> w is Some && w.unwrap().traits.drop_last() == m.traits
                && w.unwrap().traits.last().id == id
            &&& (inner is Module || inner is Use || inner is Other || inner is Impl || inner is AssocType
                || inner is AssocConst || inner is StructField) ==> w is None
        }),
{
    if inner is TypeAlias {
        assert(with_leaf(m, map, id, inner).unwrap().type_alias.drop_last() =~= m.type_alias);
    }
    if inner is StructTuple || inner is StructPlain || inner is StructUnit {
        assert(with_leaf(m, map, id, inner).unwrap().structs.drop_last() =~= m.structs);
    }
    if inner is Union {
        assert(with_leaf(m, map, id, inner).unwrap().unions.drop_last() =~= m.unions);
    }
    if inner is Enum {
        assert(with_leaf(m, map, id, inner).unwrap().enums.drop_last() =~= m.enums);
    }
    if inner is Trait {
        assert(with_leaf(m, map, id, inner).unwrap().traits.drop_last() =~= m.traits);
    }
}

/// The module with an item of another crate added by its kind: only its id is known.
pub open spec fn with_external(m: ModV, id: ID, kind: ItemKind, kin: Seq<Seq<char>>) -> ModV {
    match kind {
        ItemKind::Module => if kin.contains(id@) {
            m
        } else {
            ModV { modules: m.modules.push(bare(id)), ..m }
        },
        ItemKind::Struct => ModV { structs: m.structs.push(StructV { id, fields: seq![], private: true }), ..m },
        ItemKind::Union => ModV { unions: m.unions.push(UnionV { id, fields: seq![] }), ..m },
        ItemKind::Enum => ModV { enums: m.enums.push(EnumV { id, variants: seq![] }), ..m },
        ItemKind::Function => ModV { functions: m.functions.push(id), ..m },
        ItemKind::TypeAlias => ModV { type_alias: m.type_alias.push((id, None)), ..m },
        ItemKind::Constant => ModV { constants: m.constants.push(id), ..m },
        ItemKind::Trait => ModV {
            traits: m.traits.push(TraitV { id, types: seq![], constants: seq![], functions: seq![], implementations: seq![] }),
            ..m
        },
        ItemKind::Static => ModV { statics: m.statics.push(id), ..m },
        ItemKind::Macro => ModV { macros_decl: m.macros_decl.push(id), ..m },
        ItemKind::ProcAttribute => ModV { macros_attr: m.macros_attr.push(id), ..m },
        ItemKind::ProcDerive => ModV { macros_derv: m.macros_derv.push(id), ..m },
        _ => m,
    }
}

/// An item known only by its kind in the path map (an item of another crate) goes into the
/// list of that kind and into no other: a static to the statics, a constant to the constants,
/// and so on. A module is added once, a primitive or another kind adds nothing.
pub proof fn law_external_lands_in_its_kind(m: ModV, id: ID, kind: ItemKind, kin: Seq<Seq<char>>)
    ensures
        ({
            let r = with_external(m, id, kind, kin);
            &&& kind != ItemKind::Module ==> r.modules == m.modules
            &&& (kind == ItemKind::Module || kind == ItemKind::Primitive || kind == ItemKind::Other) ==> items_total(r) == items_total(m)
            &&& !(kind == ItemKind::Module || kind == ItemKind::Primitive || kind == ItemKind::Other) ==> items_total(r) == items_total(m) + 1
            &&& kind == ItemKind::Static ==> r.statics == m.statics.push(id)
            &&& kind == ItemKind::Constant ==> r.constants == m.constants.push(id)
            &&& kind == ItemKind::Function ==> r.functions == m.functions.push(id)
            &&& kind == ItemKind::Macro ==> r.macros_decl == m.macros_decl.push(id)
            &&& kind == ItemKind::ProcAttribute ==> r.macros_attr == m.macros_attr.push(id)
            &&& kind == ItemKind::ProcDerive ==> r.macros_derv == m.macros_derv.push(id)
            &&& kind == ItemKind::TypeAlias ==> r.type_alias == m.type_alias.push((id, None))
            &&& kind == ItemKind::Struct ==> r.structs.drop_last() == m.structs && r.structs.last().id == id
            &&& kind == ItemKind::Union ==> r.unions.drop_last() == m.unions && r.unions.last().id == id
            &&& kind == ItemKind::Enum ==> r.enums.drop_last() == m.enums && r.enums.last().id == id
            &&& kind == ItemKind::Trait ==> r.traits.drop_last() == m.traits && r.traits.last().id == id
            &&& kind == ItemKind::Module ==> (r.modules == m.modules || (r.modules.drop_last() == m.modules
                && r.modules.last().id == id))
        }),
{
    let r = with_external(m, id, kind, kin);
    if kind == ItemKind::Struct {
        assert(r.structs.drop_last() =~= m.structs);
    }
    if kind == ItemKind::Union {
        assert(r.unions.drop_last() =~= m.unions);
    }
    if kind == ItemKind::Enum {
        assert(r.enums.drop_last() =~= m.enums);
    }
    if kind == ItemKind::Trait {
        assert(r.traits.drop_last() =~= m.traits);
    }
    if kind == ItemKind::Module && !kin.contains(id@) {
        assert(r.modules.drop_last() =~= m.modules);
    }
}

/// The module of the id with the items, and the ancestors after: the id is added to them,
/// then each item is added in order (see `append_v`). `fuel` bounds how deep modules go: a
/// module below it is left empty.
pub open spec fn new_inner_v(map: IDMap, id: ID, items: Seq<ID>, kin: Seq<Seq<char>>, fuel: nat) -> (ModV, Seq<Seq<char>>)
    decreases fuel, 2 * items.len() + 1,
{
    extract_v(map, bare(id), items, kin.push(id@), fuel)
}

/// The items with the ids added in order; an id not in the index adds nothing.
pub open spec fn extract_v(map: IDMap, m: ModV, items: Seq<ID>, kin: Seq<Seq<char>>, fuel: nat) -> (ModV, Seq<Seq<char>>)
    decreases fuel, 2 * items.len(),
{
    if items.len() == 0 {
        (m, kin)
    } else {
        let next = match map.spec_get_item(items[0]@) {
            Some(item) => append_v(map, m, item, kin, fuel),
            None => (m, kin),
        };
        extract_v(map, next.0, items.drop_first(), next.1, fuel)
    }
}

/// An item added: a module with its items (its ancestors go no further), a data type,
/// trait or simple item by its kind, a `pub use` item by its source (see `import_v`).
pub open spec fn append_v(map: IDMap, m: ModV, item: Item, kin: Seq<Seq<char>>, fuel: nat) -> (ModV, Seq<Seq<char>>)
    decreases fuel, 1int,
{
    match item.inner {
        ItemInner::Module { is_crate: _, items } => {
            let child = if fuel == 0 {
                bare(item.id)
            } else {
                new_inner_v(map, item.id, items@, kin, (fuel - 1) as nat).0
            };
            (ModV { modules: m.modules.push(child), ..m }, kin)
        },
        ItemInner::Use { name: _, id: source } => import_v(map, m, item.id, source, kin, fuel),
        _ => match with_leaf(m, map, item.id, item.inner) {
            Some(m2) => (m2, kin),
            None => (m, kin),
        },
    }
}

/// A `pub use` item with the id added by its source: a module of the index with its items
/// (when the path map lacks the `use` item, only if it is not among the ancestors, whose
/// list then goes no further), an item of the index by its content, or an item of another
/// crate by its kind in the path map; all named by the `use` item's id, except the last.
pub open spec fn import_v(map: IDMap, m: ModV, id: ID, source: Option<ID>, kin: Seq<Seq<char>>, fuel: nat) -> (ModV, Seq<Seq<char>>)
    decreases fuel, 0int,
{
    match source {
        None => (m, kin),
        Some(import_id) => match map.spec_get_item(import_id@) {
            Some(src) => match src.inner {
                ItemInner::Module { is_crate: _, items } => match map.spec_get_path(id@) {
                    Some(_) => if fuel == 0 {
                        (ModV { modules: m.modules.push(bare(id)), ..m }, kin)
                    } else {
                        let r = new_inner_v(map, id, items@, kin, (fuel - 1) as nat);
                        (ModV { modules: m.modules.push(r.0), ..m }, r.1)
                    },
                    None => if kin.contains(id@) {
                        (m, kin)
                    } else if fuel == 0 {
                        (ModV { modules: m.modules.push(bare(id)), ..m }, kin)
                    } else {
                        (ModV { modules: m.modules.push(new_inner_v(map, id, items@, kin, (fuel - 1) as nat).0), ..m }, kin)
                    },
                },
                _ => match with_leaf(m, map, id, src.inner) {
                    Some(m2) => (m2, kin),
                    None => (m, kin),
                },
            },
            None => match map.spec_get_path(import_id@) {
                Some(summary) => (with_external(m, import_id, summary.kind, kin), kin),
                None => (m, kin),
            },
        },
    }
}

/// An item of the index that is no module and no `pub use` is added to a module as its
/// content says, named by its own id; a `pub use` of such an item of the index is added as
/// that item's content says, named by the `use` item's id; a `pub use` of an item that only
/// the path map knows is added by the kind there. (With `law_leaf_lands_in_its_kind` and
/// `law_external_lands_in_its_kind`: a static, plain or re-exported, lands in the statics,
/// a constant in the constants, and so on.) The ancestors stay as they were.
pub proof fn law_items_placed_by_kind(map: IDMap, m: ModV, item: Item, kin: Seq<Seq<char>>, fuel: nat)
    ensures
        !(item.inner is Module) && !(item.inner is Use) ==> append_v(map, m, item, kin, fuel) == (match with_leaf(
            m,
            map,
            item.id,
            item.inner,
        ) {
            Some(m2) => m2,
            None => m,
        }, kin),
        item.inner matches ItemInner::Use { name: _, id: Some(src_id) } ==> ({
            let r = append_v(map, m, item, kin, fuel);
            match map.spec_get_item(src_id@) {
                Some(src) => !(src.inner is Module) ==> r == (match with_leaf(m, map, item.id, src.inner) {
                    Some(m2) => m2,
                    None => m,
                }, kin),
                None => r == (match map.spec_get_path(src_id@) {
                    Some(summary) => with_external(m, src_id, summary.kind, kin),
                    None => m,
                }, kin),
            }
        }),
{
}

/// The tree with each module's submodules and items sorted by name (items of one kind
/// among themselves), ties in their order.
pub open spec fn sorted_mod(map: IDMap, m: ModV) -> ModV
    decreases m,
{
    ModV {
        id: m.id,
        modules: sort_named(sorted_mods(map, m.modules), |c: ModV| map.spec_name(c.id@)),
        structs: sort_named(m.structs, |x: StructV| map.spec_name(x.id@)),
        unions: sort_named(m.unions, |x: UnionV| map.spec_name(x.id@)),
        enums: sort_named(m.enums, |x: EnumV| map.spec_name(x.id@)),
        traits: sort_named(m.traits, |x: TraitV| map.spec_name(x.id@)),
        functions: by_name(map, m.functions),
        constants: by_name(map, m.constants),
        statics: by_name(map, m.statics),
        type_alias: sort_named(m.type_alias, |x: (ID, Option<ID>)| map.spec_name(x.0@)),
        macros_decl: by_name(map, m.macros_decl),
        macros_func: by_name(map, m.macros_func),
        macros_attr: by_name(map, m.macros_attr),
        macros_derv: by_name(map, m.macros_derv),
    }
}

pub open spec fn sorted_mods(map: IDMap, ms: Seq<ModV>) -> Seq<ModV>
    decreases ms,
{
    if ms.len() == 0 {
        seq![]
    } else {
        sorted_mods(map, ms.subrange(0, ms.len() - 1)).push(sorted_mod(map, ms[ms.len() - 1]))
    }
}

/// The item is the root module of the crate.
pub open spec fn is_root(item: Item) -> bool {
    &&& item.crate_id == 0
    &&& (item.inner matches ItemInner::Module { is_crate, items: _ } && is_crate)
}

/// The first item of the index that is the root module of the crate.
pub open spec fn root_at(map: IDMap, k: int) -> bool {
    &&& 0 <= k < map.index@.len()
    &&& is_root(map.index@[k])
    &&& forall|j: int| 0 <= j < k ==> !is_root(#[trigger] map.index@[j])
}

/// The module tree of the crate: the root module with its items, sorted by name.
pub open spec fn crate_tree(map: IDMap, k: int) -> ModV {
    let root = map.index@[k];
    let items = match root.inner {
        ItemInner::Module { is_crate: _, items } => items@,
        _ => seq![],
    };
    sorted_mod(map, new_inner_v(map, root.id, items, seq![], map.index@.len()).0)
}

impl HasId for DModule {
    open spec fn spec_id(&self) -> ID {
        self.id
    }

    fn item_id(&self) -> (r: &ID) {
        &self.id
    }
}

/// Sort by the names of the items' ids.
fn sort_by_names<T: HasId>(items: Vec<T>, map: &IDMap) -> (r: Vec<T>)
    ensures
        r@ == sort_named(items@, |x: T| map.spec_name(x.spec_id()@)),
{
    let mut keys: Vec<String> = Vec::new();
    let mut i: usize = 0;
    while i < items.len()
        invariant
            i <= items@.len(),
            keys@.len() == i,
            forall|k: int| 0 <= k < i ==> (#[trigger] keys@[k])@ == map.spec_name(items@[k].spec_id()@),
        decreases items@.len() - i,
    {
        keys.push(map.name(items[i].item_id()));
        i = i + 1;
    }
    let ghost f = |x: T| map.spec_name(x.spec_id()@);
    assert(keyed(items@, keys@.map_values(|k: String| k@)) =~= Seq::new(items@.len(), |k: int| (items@[k], f(items@[k]))));
    let ghost before = items@;
    let r = sort_by_keys(items, keys);
    assert(r@ == sort_named(before, f));
    r
}

/// Sort ids by their names.
pub(crate) fn sort_ids_by_name(ids: Vec<ID>, map: &IDMap) -> (r: Vec<ID>)
    ensures
        r@ == by_name(*map, ids@),
{
    let mut keys: Vec<String> = Vec::new();
    let mut i: usize = 0;
    while i < ids.len()
        invariant
            i <= ids@.len(),
            keys@.len() == i,
            forall|k: int| 0 <= k < i ==> (#[trigger] keys@[k])@ == map.spec_name(ids@[k]@),
        decreases ids@.len() - i,
    {
        keys.push(map.name(&ids[i]));
        i = i + 1;
    }
    let ghost f = |i: ID| map.spec_name(i@);
    assert(keyed(ids@, keys@.map_values(|k: String| k@)) =~= Seq::new(ids@.len(), |k: int| (ids@[k], f(ids@[k]))));
    let ghost before = ids@;
    let r = sort_by_keys(ids, keys);
    assert(r@ == sort_named(before, f));
    r
}

/// A copy of the ids.
pub(crate) fn copy_ids(ids: &Vec<ID>) -> (r: Vec<ID>)
    ensures
        r@ == ids@,
{
    let mut out: Vec<ID> = Vec::new();
    let mut i: usize = 0;
    while i < ids.len()
        invariant
            i <= ids@.len(),
            out@ == ids@.subrange(0, i as int),
        decreases ids@.len() - i,
    {
        out.push(ids[i].clone());
        i = i + 1;
        assert(out@ =~= ids@.subrange(0, i as int));
    }
    assert(ids@.subrange(0, i as int) =~= ids@);
    out
}

impl DStruct {
    /// A struct of the index: its shown fields, and whether it has fields that are not
    /// shown (private tuple fields, or stripped fields).
    pub fn new(id: ID, item: &ItemInner, map: &IDMap) -> (r: Self)
        requires
            match *item {
                ItemInner::StructTuple { fields: _, impls } => impls@.len() == 0,
                ItemInner::StructPlain { fields: _, has_stripped_fields: _, impls } => impls@.len() == 0,
                ItemInner::StructUnit { impls } => impls@.len() == 0,
                _ => true,
            },
        ensures
            struct_view(r) == struct_v(id, *item),
            r.impls.spec_is_empty(),
    {
        let mut contain_private_fields = false;
        let mut fields: Vec<ID> = Vec::new();
        match item {
            ItemInner::StructTuple { fields: fs, impls: _ } => {
                let mut i: usize = 0;
                while i < fs.len()
                    invariant
                        i <= fs@.len(),
                        fields@ == shown_fields(fs@.subrange(0, i as int)),
                        contain_private_fields == exists|k: int| 0 <= k < i && (#[trigger] fs@[k]) is None,
                    decreases fs@.len() - i,
                {
                    proof {
                        assert(fs@.subrange(0, i + 1).drop_last() =~= fs@.subrange(0, i as int));
                    }
                    match &fs[i] {
                        Some(f) => {
                            fields.push(f.clone());
                        },
                        None => {
                            contain_private_fields = true;
                        },
                    }
                    i = i + 1;
                }
                assert(fs@.subrange(0, i as int) =~= fs@);
            },
            ItemInner::StructPlain { fields: fs, has_stripped_fields, impls: _ } => {
                contain_private_fields = *has_stripped_fields;
                fields = copy_ids(fs);
            },
            _ => {},
        }
        DStruct { id, fields, contain_private_fields, impls: DImpl::empty() }
    }
}

impl DTrait {
    /// A trait of the index: its associated types, constants and functions, each sorted by
    /// name, and its implementations.
    pub fn new(id: ID, items: &Vec<ID>, implementations: &Vec<ID>, map: &IDMap) -> (r: Self)
        ensures
            trait_view(r) == trait_v(*map, id, items@, implementations@),
    {
        let mut types: Vec<ID> = Vec::new();
        let mut constants: Vec<ID> = Vec::new();
        let mut functions: Vec<ID> = Vec::new();
        let mut i: usize = 0;
        while i < items.len()
            invariant
                i <= items@.len(),
                types@ == assoc_of(*map, items@.subrange(0, i as int), 0),
                constants@ == assoc_of(*map, items@.subrange(0, i as int), 1),
                functions@ == assoc_of(*map, items@.subrange(0, i as int), 2),
            decreases items@.len() - i,
        {
            proof {
                assert(items@.subrange(0, i + 1).drop_last() =~= items@.subrange(0, i as int));
            }
            match map.get_item(&items[i]) {
                Some(assoc) => match &assoc.inner {
                    ItemInner::AssocType => types.push(items[i].clone()),
                    ItemInner::AssocConst => constants.push(items[i].clone()),
                    ItemInner::Function => functions.push(items[i].clone()),
                    _ => {},
                },
                None => {},
            }
            i = i + 1;
        }
        assert(items@.subrange(0, i as int) =~= items@);
        DTrait {
            id,
            types: sort_ids_by_name(types, map),
            constants: sort_ids_by_name(constants, map),
            functions: sort_ids_by_name(functions, map),
            implementations: copy_ids(implementations),
        }
    }
}

impl DUnion {
    /// A union of the index with its fields.
    pub fn new(id: ID, fields: &Vec<ID>, impls: &Vec<ID>, map: &IDMap) -> (r: Self)
        requires
            impls@.len() == 0,
        ensures
            r.id == id,
            r.fields@ == fields@,
            r.impls.spec_is_empty(),
    {
        DUnion { id, fields: copy_ids(fields), impls: DImpl::new(impls.as_slice()) }
    }
}

impl DEnum {
    /// An enum of the index with its variants.
    pub fn new(id: ID, variants: &Vec<ID>, impls: &Vec<ID>, map: &IDMap) -> (r: Self)
        requires
            impls@.len() == 0,
        ensures
            r.id == id,
            r.variants@ == variants@,
            r.impls.spec_is_empty(),
    {
        DEnum { id, variants: copy_ids(variants), impls: DImpl::new(impls.as_slice()) }
    }
}

/// A module of pushed submodules views as its view with the submodules' views pushed.
proof fn lemma_mods_view_push(ms: Seq<DModule>, m: DModule)
    ensures
        mods_view(ms.push(m)) == mods_view(ms).push(mod_view(m)),
        mods_without_impls(ms.push(m)) == (mods_without_impls(ms) && types_without_impls(m)),
{
    assert(ms.push(m).subrange(0, ms.len() as int) =~= ms);
}

/// The content of an item can stand in the tree when it is a data type without impls.
pub open spec fn leaf_ok(inner: ItemInner) -> bool {
    match inner {
        ItemInner::StructTuple { fields: _, impls } => impls@.len() == 0,
        ItemInner::StructPlain { fields: _, has_stripped_fields: _, impls } => impls@.len() == 0,
        ItemInner::StructUnit { impls } => impls@.len() == 0,
        ItemInner::Union { fields: _, impls } => impls@.len() == 0,
        ItemInner::Enum { variants: _, impls } => impls@.len() == 0,
        _ => true,
    }
}

impl DModule {
    /// Add the item by its content, named by the id; tells whether it was added.
    fn add_leaf(&mut self, map: &IDMap, id: ID, inner: &ItemInner) -> (r: bool)
        requires
            leaf_ok(*inner),
            types_without_impls(*old(self)),
        ensures
            types_without_impls(*final(self)),
            match with_leaf(mod_view(*old(self)), *map, id, *inner) {
                Some(m2) => r && mod_view(*final(self)) == m2,
                None => !r && *final(self) == *old(self),
            },
    {
        let ghost v = mod_view(*self);
        match inner {
            ItemInner::StructTuple { .. } | ItemInner::StructPlain { .. } | ItemInner::StructUnit { .. } => {
                let d = DStruct::new(id, inner, map);
                self.structs.push(d);
                assert(mod_view(*self).structs =~= v.structs.push(struct_v(id, *inner)));
            },
            ItemInner::Union { fields, impls } => {
                self.unions.push(DUnion::new(id, fields, impls, map));
                assert(mod_view(*self).unions =~= v.unions.push(UnionV { id, fields: fields@ }));
            },
            ItemInner::Enum { variants, impls } => {
                self.enums.push(DEnum::new(id, variants, impls, map));
                assert(mod_view(*self).enums =~= v.enums.push(EnumV { id, variants: variants@ }));
            },
            ItemInner::Trait { items, implementations } => {
                self.traits.push(DTrait::new(id, items, implementations, map));
                assert(mod_view(*self).traits =~= v.traits.push(trait_v(*map, id, items@, implementations@)));
            },
            ItemInner::Function => {
                self.functions.push(DFunction::new(id));
                assert(mod_view(*self).functions =~= v.functions.push(id));
            },
            ItemInner::Constant => {
                self.constants.push(DConstant::new(id));
                assert(mod_view(*self).constants =~= v.constants.push(id));
            },
            ItemInner::Static => {
                self.statics.push(DStatic::new(id));
                assert(mod_view(*self).statics =~= v.statics.push(id));
            },
            ItemInner::TypeAlias { source } => {
                let src = match source {
                    Some(s) => Some(s.clone()),
                    None => None,
                };
                self.type_alias.push(DTypeAlias::new(id, src));
                assert(mod_view(*self).type_alias =~= v.type_alias.push((id, *source)));
            },
            ItemInner::Macro => {
                self.macros_decl.push(DMacroDecl::new(id));
                assert(mod_view(*self).macros_decl =~= v.macros_decl.push(id));
            },
            ItemInner::ProcMacro(k) => {
                match k {
                    DMacroKind::ProcAttribute => {
                        self.macros_attr.push(DMacroAttr::new(id));
                        assert(mod_view(*self).macros_attr =~= v.macros_attr.push(id));
                    },
                    DMacroKind::ProcDerive => {
                        self.macros_derv.push(DMacroDerv::new(id));
                        assert(mod_view(*self).macros_derv =~= v.macros_derv.push(id));
                    },
                    _ => {
                        self.macros_func.push(DMacroFunc::new(id));
                        assert(mod_view(*self).macros_func =~= v.macros_func.push(id));
                    },
                }
            },
            _ => {
                return false;
            },
        }
        proof {
            assert(mod_view(*self).modules == v.modules);
        }
        true
    }
}

/// An item that the index gives for an id can stand in the tree.
proof fn lemma_item_ok(map: IDMap, id: Seq<char>, item: Item)
    requires
        no_impls(map),
        map.spec_get_item(id) == Some(item),
    ensures
        leaf_ok(item.inner),
{
    lemma_find_item(map.index@, id);
    let i = crate::tree::idmap::find_item(map.index@, id)->0;
    assert(map.index@[i] == item);
}

/// An item found by its id is in the index.
pub proof fn lemma_find_item(index: Seq<Item>, id: Seq<char>)
    ensures
        crate::tree::idmap::find_item(index, id) matches Some(i) ==> 0 <= i < index.len() && index[i].id@ == id,
{
    if exists|i: int| 0 <= i < index.len() && (#[trigger] index[i]).id@ == id {
        let i = choose|i: int| 0 <= i < index.len() && (#[trigger] index[i]).id@ == id;
        lemma_first_item(index, id, i);
    }
}

proof fn lemma_first_item(index: Seq<Item>, id: Seq<char>, i: int)
    requires
        0 <= i < index.len(),
        index[i].id@ == id,
    ensures
        exists|k: int|
            0 <= k < index.len() && (#[trigger] index[k]).id@ == id && forall|j: int|
                0 <= j < k ==> (#[trigger] index[j]).id@ != id,
    decreases i,
{
    if exists|j: int| 0 <= j < i && (#[trigger] index[j]).id@ == id {
        let j = choose|j: int| 0 <= j < i && (#[trigger] index[j]).id@ == id;
        lemma_first_item(index, id, j);
    } else {
        assert(forall|j: int| 0 <= j < i ==> (#[trigger] index[j]).id@ != id);
    }
}

/// A module with no items views as the bare module.
proof fn lemma_bare_view(d: DModule)
    requires
        d.is_bare(),
    ensures
        mod_view(d) == bare(d.id),
        types_without_impls(d),
{
    assert(mod_view(d).structs =~= Seq::<StructV>::empty());
    assert(mod_view(d).unions =~= Seq::<UnionV>::empty());
    assert(mod_view(d).enums =~= Seq::<EnumV>::empty());
    assert(mod_view(d).traits =~= Seq::<TraitV>::empty());
    assert(mod_view(d).functions =~= Seq::<ID>::empty());
    assert(mod_view(d).constants =~= Seq::<ID>::empty());
    assert(mod_view(d).statics =~= Seq::<ID>::empty());
    assert(mod_view(d).type_alias =~= Seq::<(ID, Option<ID>)>::empty());
    assert(mod_view(d).macros_decl =~= Seq::<ID>::empty());
    assert(mod_view(d).macros_func =~= Seq::<ID>::empty());
    assert(mod_view(d).macros_attr =~= Seq::<ID>::empty());
    assert(mod_view(d).macros_derv =~= Seq::<ID>::empty());
    assert(mod_view(d).modules =~= Seq::<ModV>::empty());
}

/// Whether the ids hold one with the same text.
fn ids_contain(ids: &Vec<ID>, id: &ID) -> (r: bool)
    ensures
        r == ids_seq(ids@).contains(id@),
{
    let mut i: usize = 0;
    while i < ids.len()
        invariant
            i <= ids@.len(),
            forall|k: int| 0 <= k < i ==> (#[trigger] ids@[k])@ != id@,
        decreases ids@.len() - i,
    {
        if ids[i].id == id.id {
            assert(ids_seq(ids@)[i as int] == id@);
            return true;
        }
        i = i + 1;
    }
    proof {
        if ids_seq(ids@).contains(id@) {
            let k = choose|k: int| 0 <= k < ids_seq(ids@).len() && ids_seq(ids@)[k] == id@;
            assert(ids@[k]@ == id@);
        }
    }
    false
}

impl DModule {
    /// Add an item of another crate by its kind; a module only when it is not among the
    /// ancestors.
    fn add_external(&mut self, id: ID, kind: ItemKind, kin: &Vec<ID>)
        requires
            types_without_impls(*old(self)),
        ensures
            types_without_impls(*final(self)),
            mod_view(*final(self)) == with_external(mod_view(*old(self)), id, kind, ids_seq(kin@)),
    {
        let ghost v = mod_view(*self);
        match kind {
            ItemKind::Module => {
                if !ids_contain(kin, &id) {
                    let m = DModule::new_external(id);
                    proof {
                        lemma_bare_view(m);
                        lemma_mods_view_push(self.modules@, m);
                    }
                    self.modules.push(m);
                }
            },
            ItemKind::Struct => {
                let d = DStruct::new_external(id);
                assert(struct_view(d) == StructV { id, fields: seq![], private: true }) by {
                    assert(d.fields@ =~= Seq::<ID>::empty());
                }
                self.structs.push(d);
                assert(mod_view(*self).structs =~= v.structs.push(StructV { id, fields: seq![], private: true }));
            },
            ItemKind::Union => {
                let d = DUnion::new_external(id);
                assert(d.fields@ =~= Seq::<ID>::empty());
                self.unions.push(d);
                assert(mod_view(*self).unions =~= v.unions.push(UnionV { id, fields: seq![] }));
            },
            ItemKind::Enum => {
                let d = DEnum::new_external(id);
                assert(d.variants@ =~= Seq::<ID>::empty());
                self.enums.push(d);
                assert(mod_view(*self).enums =~= v.enums.push(EnumV { id, variants: seq![] }));
            },
            ItemKind::Function => {
                self.functions.push(DFunction::new(id));
                assert(mod_view(*self).functions =~= v.functions.push(id));
            },
            ItemKind::TypeAlias => {
                self.type_alias.push(DTypeAlias::new(id, None));
                assert(mod_view(*self).type_alias =~= v.type_alias.push((id, None)));
            },
            ItemKind::Constant => {
                self.constants.push(DConstant::new(id));
                assert(mod_view(*self).constants =~= v.constants.push(id));
            },
            ItemKind::Trait => {
                let d = DTrait::new_external(id);
                assert(d.types@ =~= Seq::<ID>::empty());
                assert(d.constants@ =~= Seq::<ID>::empty());
                assert(d.functions@ =~= Seq::<ID>::empty());
                assert(d.implementations@ =~= Seq::<ID>::empty());
                self.traits.push(d);
                assert(mod_view(*self).traits =~= v.traits.push(TraitV { id, types: seq![], constants: seq![], functions: seq![], implementations: seq![] }));
            },
            ItemKind::Static => {
                self.statics.push(DStatic::new(id));
                assert(mod_view(*self).statics =~= v.statics.push(id));
            },
            ItemKind::Macro => {
                self.macros_decl.push(DMacroDecl::new(id));
                assert(mod_view(*self).macros_decl =~= v.macros_decl.push(id));
            },
            ItemKind::ProcAttribute => {
                self.macros_attr.push(DMacroAttr::new(id));
                assert(mod_view(*self).macros_attr =~= v.macros_attr.push(id));
            },
            ItemKind::ProcDerive => {
                self.macros_derv.push(DMacroDerv::new(id));
                assert(mod_view(*self).macros_derv =~= v.macros_derv.push(id));
            },
            _ => {},
        }
    }

    /// The module of the id with the items: the id joins the ancestors, then the items are
    /// added in order; see `new_inner_v`.
    fn new_inner(id: ID, items: &Vec<ID>, map: &IDMap, ancestor: &mut Vec<ID>, fuel: usize) -> (r: DModule)
        requires
            no_impls(*map),
        ensures
            (mod_view(r), ids_seq(final(ancestor)@)) == new_inner_v(*map, id, items@, ids_seq(old(ancestor)@), fuel as nat),
            types_without_impls(r),
        decreases fuel, 2 * items@.len() + 1,
    {
        ancestor.push(id.clone());
        assert(ids_seq(ancestor@) =~= ids_seq(old(ancestor)@).push(id@));
        let mut dmod = DModule::new_external(id);
        proof {
            lemma_bare_view(dmod);
        }
        dmod.extract_items(items, map, ancestor, fuel);
        dmod
    }

    /// Add the items with the ids in order; see `extract_v`.
    fn extract_items(&mut self, items: &Vec<ID>, map: &IDMap, ancestor: &mut Vec<ID>, fuel: usize)
        requires
            no_impls(*map),
            types_without_impls(*old(self)),
        ensures
            (mod_view(*final(self)), ids_seq(final(ancestor)@)) == extract_v(*map, mod_view(*old(self)), items@, ids_seq(old(ancestor)@), fuel as nat),
            types_without_impls(*final(self)),
        decreases fuel, 2 * items@.len(),
    {
        let ghost target = extract_v(*map, mod_view(*self), items@, ids_seq(ancestor@), fuel as nat);
        let mut k: usize = 0;
        assert(items@.skip(0) =~= items@);
        while k < items.len()
            invariant
                k <= items@.len(),
                no_impls(*map),
                types_without_impls(*self),
                extract_v(*map, mod_view(*self), items@.skip(k as int), ids_seq(ancestor@), fuel as nat) == target,
            decreases items@.len() - k,
        {
            let ghost rest = items@.skip(k as int);
            let ghost v0 = mod_view(*self);
            let ghost k0 = ids_seq(ancestor@);
            proof {
                assert(rest[0] == items@[k as int]);
                assert(rest.drop_first() =~= items@.skip(k + 1));
            }
            match map.get_item(&items[k]) {
                Some(item) => {
                    proof {
                        lemma_item_ok(*map, items@[k as int]@, *item);
                    }
                    self.append(item, map, ancestor, fuel);
                },
                None => {},
            }
            proof {
                assert(extract_v(*map, v0, rest, k0, fuel as nat) == extract_v(*map, mod_view(*self), items@.skip(k + 1), ids_seq(ancestor@), fuel as nat));
            }
            k = k + 1;
        }
        proof {
            assert(items@.skip(k as int).len() == 0);
        }
    }

    /// Add an item; see `append_v`.
    fn append(&mut self, item: &Item, map: &IDMap, ancestor: &mut Vec<ID>, fuel: usize)
        requires
            no_impls(*map),
            types_without_impls(*old(self)),
            leaf_ok(item.inner),
        ensures
            (mod_view(*final(self)), ids_seq(final(ancestor)@)) == append_v(*map, mod_view(*old(self)), *item, ids_seq(old(ancestor)@), fuel as nat),
            types_without_impls(*final(self)),
        decreases fuel, 1int,
    {
        match &item.inner {
            ItemInner::Module { is_crate: _, items } => {
                let child = if fuel == 0 {
                    let c = DModule::new_external(item.id.clone());
                    proof {
                        lemma_bare_view(c);
                    }
                    c
                } else {
                    let mut kin = copy_ids(ancestor);
                    DModule::new_inner(item.id.clone(), items, map, &mut kin, fuel - 1)
                };
                proof {
                    lemma_mods_view_push(self.modules@, child);
                }
                let ghost v = mod_view(*self);
                self.modules.push(child);
                assert(mod_view(*self) == ModV { modules: v.modules.push(mod_view(child)), ..v });
            },
            ItemInner::Use { name: _, id: source } => {
                parse_import(item.id.clone(), source, map, self, ancestor, fuel);
            },
            _ => {
                self.add_leaf(map, item.id.clone(), &item.inner);
            },
        }
    }
}

/// Add the item of `pub use source {as name}` to the module: a `pub use` item is no node of
/// the tree, its source is merged into the module's items; see `import_v`.
fn parse_import(id: ID, source: &Option<ID>, map: &IDMap, dmod: &mut DModule, kin: &mut Vec<ID>, fuel: usize)
    requires
        no_impls(*map),
        types_without_impls(*old(dmod)),
    ensures
        (mod_view(*final(dmod)), ids_seq(final(kin)@)) == import_v(*map, mod_view(*old(dmod)), id, *source, ids_seq(old(kin)@), fuel as nat),
        types_without_impls(*final(dmod)),
    decreases fuel, 0int,
{
    let import_id = match source {
        Some(i) => i,
        None => {
            return;
        },
    };
    match map.get_item(import_id) {
        Some(src) => {
            proof {
                lemma_item_ok(*map, import_id@, *src);
            }
            match &src.inner {
                ItemInner::Module { is_crate: _, items } => {
                    let child = match map.path_or_name(&id) {
                        Ok(_) => {
                            // a usual re-exported module
                            if fuel == 0 {
                                let c = DModule::new_external(id);
                                proof {
                                    lemma_bare_view(c);
                                }
                                Some(c)
                            } else {
                                Some(DModule::new_inner(id, items, map, kin, fuel - 1))
                            }
                        },
                        Err(_) => {
                            // a re-exported module the path map lacks: its items are copied
                            // unless it is one of its own ancestors
                            if ids_contain(kin, &id) {
                                None
                            } else if fuel == 0 {
                                let c = DModule::new_external(id);
                                proof {
                                    lemma_bare_view(c);
                                }
                                Some(c)
                            } else {
                                let mut k2 = copy_ids(kin);
                                Some(DModule::new_inner(id, items, map, &mut k2, fuel - 1))
                            }
                        },
                    };
                    match child {
                        Some(c) => {
                            proof {
                                lemma_mods_view_push(dmod.modules@, c);
                            }
                            let ghost v = mod_view(*dmod);
                            dmod.modules.push(c);
                            assert(mod_view(*dmod) == ModV { modules: v.modules.push(mod_view(c)), ..v });
                        },
                        None => {},
                    }
                },
                _ => {
                    dmod.add_leaf(map, id, &src.inner);
                },
            }
        },
        None => match map.get_path(import_id) {
            Some(summary) => {
                dmod.add_external(import_id.clone(), summary.kind, kin);
            },
            None => {},
        },
    }
}

/// The vector taken out, an empty one left.
fn take_vec<T>(v: &mut Vec<T>) -> (r: Vec<T>)
    ensures
        r == *old(v),
        final(v)@.len() == 0,
{
    let mut out: Vec<T> = Vec::new();
    std::mem::swap(&mut out, v);
    out
}

/// The views of modules are those of each.
proof fn lemma_mods_view_map(ms: Seq<DModule>)
    ensures
        mods_view(ms) == ms.map_values(|d: DModule| mod_view(d)),
    decreases ms.len(),
{
    if ms.len() > 0 {
        lemma_mods_view_map(ms.subrange(0, ms.len() - 1));
        assert(ms.map_values(|d: DModule| mod_view(d)) =~= ms.subrange(0, ms.len() - 1).map_values(|d: DModule| mod_view(d)).push(mod_view(ms[ms.len() - 1])));
    } else {
        assert(ms.map_values(|d: DModule| mod_view(d)) =~= Seq::<ModV>::empty());
    }
}

/// Sorting each module's view is sorting the views.
proof fn lemma_sorted_mods_map(map: IDMap, ms: Seq<ModV>)
    ensures
        sorted_mods(map, ms) == ms.map_values(|m: ModV| sorted_mod(map, m)),
    decreases ms.len(),
{
    if ms.len() > 0 {
        lemma_sorted_mods_map(map, ms.subrange(0, ms.len() - 1));
        assert(ms.map_values(|m: ModV| sorted_mod(map, m)) =~= ms.subrange(0, ms.len() - 1).map_values(|m: ModV| sorted_mod(map, m)).push(sorted_mod(map, ms[ms.len() - 1])));
    } else {
        assert(ms.map_values(|m: ModV| sorted_mod(map, m)) =~= Seq::<ModV>::empty());
    }
}

impl DModule {
    /// Sort the submodules and the items of each kind by name, down the tree; see
    /// `sorted_mod`.
    fn sort_by_name(&mut self, map: &IDMap)
        requires
            types_without_impls(*old(self)),
        ensures
            mod_view(*final(self)) == sorted_mod(*map, mod_view(*old(self))),
            types_without_impls(*final(self)),
        decreases *old(self),
    {
        let n = self.modules.len();
        let mut i: usize = 0;
        proof {
            assert(types_without_impls(*self));
        }
        while i < n
            invariant
                n == self.modules@.len(),
                n == old(self).modules@.len(),
                i <= n,
                mods_without_impls(old(self).modules@),
                forall|k: int| 0 <= k < i ==> mod_view(#[trigger] self.modules@[k]) == sorted_mod(*map, mod_view(old(self).modules@[k]))
                    && types_without_impls(self.modules@[k]),
                forall|k: int| i <= k < n ==> #[trigger] self.modules@[k] == old(self).modules@[k],
                self.id == old(self).id,
                self.structs == old(self).structs,
                self.unions == old(self).unions,
                self.enums == old(self).enums,
                self.traits == old(self).traits,
                self.functions == old(self).functions,
                self.constants == old(self).constants,
                self.statics == old(self).statics,
                self.type_alias == old(self).type_alias,
                self.macros_decl == old(self).macros_decl,
                self.macros_func == old(self).macros_func,
                self.macros_attr == old(self).macros_attr,
                self.macros_derv == old(self).macros_derv,
            decreases n - i,
        {
            let mut child = self.modules.remove(i);
            proof {
                assert(child == old(self).modules@[i as int]);
                lemma_mods_without_impls_at(old(self).modules@, i as int);
                assert(decreases_to!(*old(self) => old(self).modules));
            }
            child.sort_by_name(map);
            self.modules.insert(i, child);
            proof {
                assert forall|k: int| 0 <= k < i + 1 implies mod_view(#[trigger] self.modules@[k]) == sorted_mod(*map, mod_view(old(self).modules@[k]))
                    && types_without_impls(self.modules@[k]) by {
                }
            }
            i = i + 1;
        }
        proof {
            lemma_mods_view_map(self.modules@);
            lemma_mods_view_map(old(self).modules@);
            lemma_sorted_mods_map(*map, mods_view(old(self).modules@));
            assert(mods_view(self.modules@) =~= sorted_mods(*map, mods_view(old(self).modules@)));
        }
        {
            let ghost before = self.modules@;
            let xs = take_vec(&mut self.modules);
            self.modules = sort_by_names(xs, map);
            proof {
                lemma_sort_named_map(before, |x: DModule| map.spec_name(x.spec_id()@), |d: DModule| mod_view(d), |c: ModV| map.spec_name(c.id@));
                lemma_mods_view_map(self.modules@);
                lemma_mods_view_map(before);
                lemma_sort_named_from(before, |x: DModule| map.spec_name(x.spec_id()@));
                assert forall|k: int| 0 <= k < self.modules@.len() implies types_without_impls(#[trigger] self.modules@[k]) by {
                    let j = choose|j: int| 0 <= j < before.len() && before[j] == self.modules@[k];
                    assert(types_without_impls(before[j]));
                }
                lemma_mods_without_impls_all(self.modules@);
            }
        }
        {
            let ghost before = self.structs@;
            let xs = take_vec(&mut self.structs);
            self.structs = sort_by_names(xs, map);
            proof {
                lemma_sort_named_map(before, |x: DStruct| map.spec_name(x.spec_id()@), |s: DStruct| struct_view(s), |x: StructV| map.spec_name(x.id@));
                lemma_sort_named_from(before, |x: DStruct| map.spec_name(x.spec_id()@));
                assert forall|k: int| 0 <= k < self.structs@.len() implies (#[trigger] self.structs@[k]).impls.spec_is_empty() by {
                    let j = choose|j: int| 0 <= j < before.len() && before[j] == self.structs@[k];
                    assert(old(self).structs@[j].impls.spec_is_empty());
                }
            }
        }
        {
            let ghost before = self.unions@;
            let xs = take_vec(&mut self.unions);
            self.unions = sort_by_names(xs, map);
            proof {
                lemma_sort_named_map(before, |x: DUnion| map.spec_name(x.spec_id()@), |u: DUnion| UnionV { id: u.id, fields: u.fields@ }, |x: UnionV| map.spec_name(x.id@));
            lemma_sort_named_from(before, |x: DUnion| map.spec_name(x.spec_id()@));
            assert forall|k: int| 0 <= k < self.unions@.len() implies (#[trigger] self.unions@[k]).impls.spec_is_empty() by {
                let j = choose|j: int| 0 <= j < before.len() && before[j] == self.unions@[k];
                assert(old(self).unions@[j].impls.spec_is_empty());
            }
            }
        }
        {
            let ghost before = self.enums@;
            let xs = take_vec(&mut self.enums);
            self.enums = sort_by_names(xs, map);
            proof {
                lemma_sort_named_map(before, |x: DEnum| map.spec_name(x.spec_id()@), |e: DEnum| EnumV { id: e.id, variants: e.variants@ }, |x: EnumV| map.spec_name(x.id@));
            lemma_sort_named_from(before, |x: DEnum| map.spec_name(x.spec_id()@));
            assert forall|k: int| 0 <= k < self.enums@.len() implies (#[trigger] self.enums@[k]).impls.spec_is_empty() by {
                let j = choose|j: int| 0 <= j < before.len() && before[j] == self.enums@[k];
                assert(old(self).enums@[j].impls.spec_is_empty());
            }
            }
        }
        {
            let ghost before = self.traits@;
            let xs = take_vec(&mut self.traits);
            self.traits = sort_by_names(xs, map);
            proof {
                lemma_sort_named_map(before, |x: DTrait| map.spec_name(x.spec_id()@), |t: DTrait| trait_view(t), |x: TraitV| map.spec_name(x.id@));
            }
        }
        {
            let ghost before = self.functions@;
            let xs = take_vec(&mut self.functions);
            self.functions = sort_by_names(xs, map);
            proof {
                lemma_sort_named_map(before, |x: DFunction| map.spec_name(x.spec_id()@), |f: DFunction| f.id, |i: ID| map.spec_name(i@));
            }
        }
        {
            let ghost before = self.constants@;
            let xs = take_vec(&mut self.constants);
            self.constants = sort_by_names(xs, map);
            proof {
                lemma_sort_named_map(before, |x: DConstant| map.spec_name(x.spec_id()@), |f: DConstant| f.id, |i: ID| map.spec_name(i@));
            }
        }
        {
            let ghost before = self.statics@;
            let xs = take_vec(&mut self.statics);
            self.statics = sort_by_names(xs, map);
            proof {
                lemma_sort_named_map(before, |x: DStatic| map.spec_name(x.spec_id()@), |f: DStatic| f.id, |i: ID| map.spec_name(i@));
            }
        }
        {
            let ghost before = self.type_alias@;
            let xs = take_vec(&mut self.type_alias);
            self.type_alias = sort_by_names(xs, map);
            proof {
                lemma_sort_named_map(before, |x: DTypeAlias| map.spec_name(x.spec_id()@), |f: DTypeAlias| (f.id, f.source_path), |x: (ID, Option<ID>)| map.spec_name(x.0@));
            }
        }
        {
            let ghost before = self.macros_decl@;
            let xs = take_vec(&mut self.macros_decl);
            self.macros_decl = sort_by_names(xs, map);
            proof {
                lemma_sort_named_map(before, |x: DMacroDecl| map.spec_name(x.spec_id()@), |f: DMacroDecl| f.id, |i: ID| map.spec_name(i@));
            }
        }
        {
            let ghost before = self.macros_func@;
            let xs = take_vec(&mut self.macros_func);
            self.macros_func = sort_by_names(xs, map);
            proof {
                lemma_sort_named_map(before, |x: DMacroFunc| map.spec_name(x.spec_id()@), |f: DMacroFunc| f.id, |i: ID| map.spec_name(i@));
            }
        }
        {
            let ghost before = self.macros_attr@;
            let xs = take_vec(&mut self.macros_attr);
            self.macros_attr = sort_by_names(xs, map);
            proof {
                lemma_sort_named_map(before, |x: DMacroAttr| map.spec_name(x.spec_id()@), |f: DMacroAttr| f.id, |i: ID| map.spec_name(i@));
            }
        }
        {
            let ghost before = self.macros_derv@;
            let xs = take_vec(&mut self.macros_derv);
            self.macros_derv = sort_by_names(xs, map);
            proof {
                lemma_sort_named_map(before, |x: DMacroDerv| map.spec_name(x.spec_id()@), |f: DMacroDerv| f.id, |i: ID| map.spec_name(i@));
            }
        }
        proof {
            assert(mod_view(*self) =~= sorted_mod(*map, mod_view(*old(self))));
        }
    }
}

/// Modules without impls, one by one.
proof fn lemma_mods_without_impls_at(ms: Seq<DModule>, i: int)
    requires
        mods_without_impls(ms),
        0 <= i < ms.len(),
    ensures
        types_without_impls(ms[i]),
    decreases ms.len(),
{
    if i < ms.len() - 1 {
        lemma_mods_without_impls_at(ms.subrange(0, ms.len() - 1), i);
    }
}

/// Modules each without impls are all without.
proof fn lemma_mods_without_impls_all(ms: Seq<DModule>)
    requires
        forall|k: int| 0 <= k < ms.len() ==> types_without_impls(#[trigger] ms[k]),
    ensures
        mods_without_impls(ms),
    decreases ms.len(),
{
    if ms.len() > 0 {
        let init = ms.subrange(0, ms.len() - 1);
        assert forall|k: int| 0 <= k < init.len() implies types_without_impls(#[trigger] init[k]) by {
            assert(init[k] == ms[k]);
        }
        lemma_mods_without_impls_all(init);
    }
}

impl IDMap {
    /// Whether the index holds a root module of the local crate, which the tree starts from.
    pub fn has_root(&self) -> (r: bool)
        ensures
            r == exists|k: int| root_at(*self, k),
    {
        let mut k: usize = 0;
        while k < self.index.len()
            invariant
                k <= self.index@.len(),
                forall|j: int| 0 <= j < k ==> !is_root(#[trigger] self.index@[j]),
            decreases self.index@.len() - k,
        {
            let item = &self.index[k];
            if item.crate_id == 0 {
                if let ItemInner::Module { is_crate, items: _ } = &item.inner {
                    if *is_crate {
                        assert(root_at(*self, k as int));
                        return true;
                    }
                }
            }
            k = k + 1;
        }
        assert forall|k: int| !root_at(*self, k) by {
            if 0 <= k < self.index@.len() {
                assert(!is_root(self.index@[k]));
            }
        }
        false
    }

    /// Whether no struct, union or enum of the index lists impls.
    pub fn has_no_impls(&self) -> (r: bool)
        ensures
            r == no_impls(*self),
    {
        let mut k: usize = 0;
        while k < self.index.len()
            invariant
                k <= self.index@.len(),
                forall|j: int| 0 <= j < k ==> match (#[trigger] self.index@[j]).inner {
                    ItemInner::StructTuple { fields: _, impls } => impls@.len() == 0,
                    ItemInner::StructPlain { fields: _, has_stripped_fields: _, impls } => impls@.len() == 0,
                    ItemInner::StructUnit { impls } => impls@.len() == 0,
                    ItemInner::Union { fields: _, impls } => impls@.len() == 0,
                    ItemInner::Enum { variants: _, impls } => impls@.len() == 0,
                    _ => true,
                },
            decreases self.index@.len() - k,
        {
            let none = match &self.index[k].inner {
                ItemInner::StructTuple { fields: _, impls } => impls.len() == 0,
                ItemInner::StructPlain { fields: _, has_stripped_fields: _, impls } => impls.len() == 0,
                ItemInner::StructUnit { impls } => impls.len() == 0,
                ItemInner::Union { fields: _, impls } => impls.len() == 0,
                ItemInner::Enum { variants: _, impls } => impls.len() == 0,
                _ => true,
            };
            if !none {
                return false;
            }
            k = k + 1;
        }
        true
    }
}

impl DModule {
    /// The module tree of the crate: the first root module of the index with its items
    /// (modules go at most as deep as there are items in the index), each module's
    /// submodules and items sorted by name; see `crate_tree`.
    pub fn new(map: &IDMap) -> (r: Self)
        requires
            exists|k: int| root_at(*map, k),
            no_impls(*map),
        ensures
            forall|k: int| root_at(*map, k) ==> mod_view(r) == crate_tree(*map, k),
            types_without_impls(r),
    {
        let mut k: usize = 0;
        while k < map.index.len()
            invariant_except_break
                k <= map.index@.len(),
                forall|j: int| 0 <= j < k ==> !is_root(#[trigger] map.index@[j]),
            invariant
                exists|k: int| root_at(*map, k),
            ensures
                root_at(*map, k as int),
            decreases map.index@.len() - k,
        {
            let item = &map.index[k];
            let found = item.crate_id == 0 && match &item.inner {
                ItemInner::Module { is_crate, items: _ } => *is_crate,
                _ => false,
            };
            if found {
                break;
            }
            k = k + 1;
        }
        proof {
            if k == map.index@.len() {
                let w = choose|w: int| root_at(*map, w);
                assert(!is_root(map.index@[w]));
            }
        }
        let root = &map.index[k];
        let empty: Vec<ID> = Vec::new();
        let items = match &root.inner {
            ItemInner::Module { is_crate: _, items } => items,
            _ => &empty,
        };
        // the ancestors of a module, to stop at a re-exported module inside itself
        let mut ancestor: Vec<ID> = Vec::new();
        assert(ids_seq(ancestor@) =~= Seq::<Seq<char>>::empty());
        let mut dmod = DModule::new_inner(root.id.clone(), items, map, &mut ancestor, map.index.len());
        dmod.sort_by_name(map);
        proof {
            assert forall|j: int| root_at(*map, j) implies j == k by {
                if j < k {
                    assert(!is_root(map.index@[j]));
                } else if j > k {
                    assert(!is_root(map.index@[k as int]));
                }
            }
        }
        dmod
    }
}

/// Data-carrying items that give the outline an extra layer of fields, variants or impls.
#[derive(Clone, Copy, Debug, PartialEq, Eq, Structural)]
pub enum DataItemKind {
    Module,
    Struct,
    Enum,
    Trait,
    Union,
}

/// The kind of the data item with the id, through `pub use` items at most `fuel` deep.
pub open spec fn data_kind(map: IDMap, id: Seq<char>, fuel: nat) -> Option<DataItemKind>
    decreases fuel,
{
    match map.spec_get_item(id) {
        Some(item) => match item.inner {
            ItemInner::Module { .. } => Some(DataItemKind::Module),
            ItemInner::StructTuple { .. } | ItemInner::StructPlain { .. } | ItemInner::StructUnit { .. } => Some(DataItemKind::Struct),
            ItemInner::Enum { .. } => Some(DataItemKind::Enum),
            ItemInner::Trait { .. } => Some(DataItemKind::Trait),
            ItemInner::Union { .. } => Some(DataItemKind::Union),
            ItemInner::Use { name: _, id: source } => match source {
                Some(s) => if fuel == 0 {
                    None
                } else {
                    data_kind(map, s@, (fuel - 1) as nat)
                },
                None => None,
            },
            _ => None,
        },
        None => None,
    }
}

impl DataItemKind {
    /// The kind of the data item with the id, following `pub use` items to their sources;
    /// `None` for other items, items not in the index, and chains of `pub use` items longer
    /// than the index (which only a cycle makes).
    pub fn new(id: &ID, map: &IDMap) -> (r: Option<DataItemKind>)
        ensures
            r == data_kind(*map, id@, map.index@.len() as nat),
    {
        Self::new_within(id, map, map.index.len())
    }

    fn new_within(id: &ID, map: &IDMap, fuel: usize) -> (r: Option<DataItemKind>)
        ensures
            r == data_kind(*map, id@, fuel as nat),
        decreases fuel,
    {
        match map.get_item(id) {
            Some(item) => match &item.inner {
                ItemInner::Module { .. } => Some(DataItemKind::Module),
                ItemInner::StructTuple { .. } | ItemInner::StructPlain { .. } | ItemInner::StructUnit { .. } => Some(DataItemKind::Struct),
                ItemInner::Enum { .. } => Some(DataItemKind::Enum),
                ItemInner::Trait { .. } => Some(DataItemKind::Trait),
                ItemInner::Union { .. } => Some(DataItemKind::Union),
                ItemInner::Use { name: _, id: source } => match source {
                    Some(s) => if fuel == 0 {
                        None
                    } else {
                        Self::new_within(s, map, fuel - 1)
                    },
                    None => None,
                },
                _ => None,
            },
            None => None,
        }
    }
}

} // verus!
