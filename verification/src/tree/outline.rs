use vstd::prelude::*;
use crate::tree::doctree::{DocTree, TextTag};
use crate::tree::id::{opt_id_view, ID};
use crate::tree::idmap::IDMap;
use crate::tree::nodes::{
    DConstant, DEnum, DFunction, DMacroAttr, DMacroDecl, DMacroDerv, DMacroFunc, DModule,
    DStatic, DStruct, DTrait, DTypeAlias, DUnion,
};
use crate::tree::tag::Tag;
use crate::tree::idmap::ItemInner;
use crate::tree::textline::{
    doc_rows, forest_nodes, glyphs_drawn, levels_within, line_shows, lines_rows, lines_show, tree_display, tree_nodes, TreeLine,
};
use crate::tree::glyph::{display_upto, glyph_line, lemma_glyph_line_shape, palette_view, same_shape, GlyphRow};
use crate::tree::fold_set::{contains_id, expanded_ids, id_set_is_empty, insert_id, new_id_set, remove_id, IdSet};
use crate::style::{Color, Style};
use crate::ui::scroll::Lines;

verus! {

/// What a node shows: its text, tag and id.
pub type RootView = (Seq<char>, Tag, Option<Seq<char>>);

/// A node as it shows in the outline, with its level.
pub type NodeView = (RootView, int);

pub open spec fn text_tag_view(tt: TextTag) -> RootView {
    (tt.text@, tt.tag, opt_id_view(tt.id))
}

pub open spec fn nodes_view(s: Seq<(TextTag, int)>) -> Seq<NodeView> {
    s.map_values(|n: (TextTag, int)| (text_tag_view(n.0), n.1))
}

pub open spec fn at_level(s: Seq<RootView>, level: int) -> Seq<NodeView> {
    s.map_values(|r: RootView| (r, level))
}

/// Items that carry an id.
pub trait HasId {
    spec fn spec_id(&self) -> ID;

    fn item_id(&self) -> (r: &ID)
        ensures
            *r == self.spec_id(),
    ;
}

pub open spec fn ids_of<T: HasId>(s: Seq<T>) -> Seq<Seq<char>> {
    s.map_values(|x: T| x.spec_id()@)
}

/// The nodes of items shown by their names.
pub open spec fn named(map: IDMap, tag: Tag, ids: Seq<Seq<char>>) -> Seq<RootView> {
    ids.map_values(|id: Seq<char>| (map.spec_name(id), tag, Some(id)))
}

/// The nodes of the items directly in a module, kind after kind.
pub open spec fn mod_items(map: IDMap, m: DModule) -> Seq<RootView> {
    named(map, Tag::Function, ids_of(m.functions@)) + named(map, Tag::Constant, ids_of(
        m.constants@,
    )) + named(map, Tag::Static, ids_of(m.statics@)) + named(map, Tag::TypeAlias, ids_of(
        m.type_alias@,
    )) + named(map, Tag::MacroDecl, ids_of(m.macros_decl@)) + named(
        map,
        Tag::MacroFunc,
        ids_of(m.macros_func@),
    ) + named(map, Tag::MacroAttr, ids_of(m.macros_attr@)) + named(
        map,
        Tag::MacroDerv,
        ids_of(m.macros_derv@),
    ) + named(map, Tag::Trait, ids_of(m.traits@)) + named(map, Tag::Struct, ids_of(m.structs@))
        + named(map, Tag::Union, ids_of(m.unions@)) + named(map, Tag::Enum, ids_of(m.enums@))
}

/// The name and id of each node with the tag, in order.
pub open spec fn tagged(v: Seq<RootView>, t: Tag) -> Seq<(Seq<char>, Option<Seq<char>>)>
    decreases v.len(),
{
    if v.len() == 0 {
        seq![]
    } else {
        tagged(v.drop_last(), t) + (if v.last().1 == t {
            seq![(v.last().0, v.last().2)]
        } else {
            seq![]
        })
    }
}

/// The ids of a module's items of the kind that the tag names; none for a tag that names no
/// kind of item.
pub open spec fn kind_ids(m: DModule, t: Tag) -> Seq<Seq<char>> {
    match t {
        Tag::Function => ids_of(m.functions@),
        Tag::Constant => ids_of(m.constants@),
        Tag::Static => ids_of(m.statics@),
        Tag::TypeAlias => ids_of(m.type_alias@),
        Tag::MacroDecl => ids_of(m.macros_decl@),
        Tag::MacroFunc => ids_of(m.macros_func@),
        Tag::MacroAttr => ids_of(m.macros_attr@),
        Tag::MacroDerv => ids_of(m.macros_derv@),
        Tag::Trait => ids_of(m.traits@),
        Tag::Struct => ids_of(m.structs@),
        Tag::Union => ids_of(m.unions@),
        Tag::Enum => ids_of(m.enums@),
        _ => seq![],
    }
}

proof fn lemma_tagged_concat(a: Seq<RootView>, b: Seq<RootView>, t: Tag)
    ensures
        tagged(a + b, t) == tagged(a, t) + tagged(b, t),
    decreases b.len(),
{
    if b.len() == 0 {
        assert(a + b =~= a);
        assert(tagged(a, t) + tagged(b, t) =~= tagged(a, t));
    } else {
        lemma_tagged_concat(a, b.drop_last(), t);
        assert((a + b).drop_last() =~= a + b.drop_last());
        assert((a + b).last() == b.last());
    }
}

proof fn lemma_tagged_named(map: IDMap, tag: Tag, ids: Seq<Seq<char>>, t: Tag)
    ensures
        tagged(named(map, tag, ids), t) == (if tag == t {
            ids.map_values(|x: Seq<char>| (map.spec_name(x), Some(x)))
        } else {
            seq![]
        }),
    decreases ids.len(),
{
    if ids.len() > 0 {
        lemma_tagged_named(map, tag, ids.drop_last(), t);
        assert(named(map, tag, ids).drop_last() =~= named(map, tag, ids.drop_last()));
        if tag == t {
            assert(ids.map_values(|x: Seq<char>| (map.spec_name(x), Some(x))) =~= ids.drop_last().map_values(
                |x: Seq<char>| (map.spec_name(x), Some(x)),
            ).push((map.spec_name(ids.last()), Some(ids.last()))));
        }
    } else {
        assert(ids.map_values(|x: Seq<char>| (map.spec_name(x), Some(x))) =~= Seq::<(Seq<char>, Option<Seq<char>>)>::empty());
    }
}

/// The item nodes shown under a module are exactly its items: for every tag, the nodes with
/// that tag are, in order, the module's items of that kind, each shown by its name with its
/// id (none for a tag that names no kind of item).
pub proof fn law_mod_items_by_kind(map: IDMap, m: DModule, t: Tag)
    ensures
        tagged(mod_items(map, m), t) == kind_ids(m, t).map_values(|x: Seq<char>| (map.spec_name(x), Some(x))),
{
    let f = named(map, Tag::Function, ids_of(m.functions@));
    let c = named(map, Tag::Constant, ids_of(m.constants@));
    let st = named(map, Tag::Static, ids_of(m.statics@));
    let ta = named(map, Tag::TypeAlias, ids_of(m.type_alias@));
    let md = named(map, Tag::MacroDecl, ids_of(m.macros_decl@));
    let mf = named(map, Tag::MacroFunc, ids_of(m.macros_func@));
    let ma = named(map, Tag::MacroAttr, ids_of(m.macros_attr@));
    let mv = named(map, Tag::MacroDerv, ids_of(m.macros_derv@));
    let tr = named(map, Tag::Trait, ids_of(m.traits@));
    let sr = named(map, Tag::Struct, ids_of(m.structs@));
    let un = named(map, Tag::Union, ids_of(m.unions@));
    let en = named(map, Tag::Enum, ids_of(m.enums@));
    lemma_tagged_concat(f, c, t);
    lemma_tagged_concat(f + c, st, t);
    lemma_tagged_concat(f + c + st, ta, t);
    lemma_tagged_concat(f + c + st + ta, md, t);
    lemma_tagged_concat(f + c + st + ta + md, mf, t);
    lemma_tagged_concat(f + c + st + ta + md + mf, ma, t);
    lemma_tagged_concat(f + c + st + ta + md + mf + ma, mv, t);
    lemma_tagged_concat(f + c + st + ta + md + mf + ma + mv, tr, t);
    lemma_tagged_concat(f + c + st + ta + md + mf + ma + mv + tr, sr, t);
    lemma_tagged_concat(f + c + st + ta + md + mf + ma + mv + tr + sr, un, t);
    lemma_tagged_concat(f + c + st + ta + md + mf + ma + mv + tr + sr + un, en, t);
    lemma_tagged_named(map, Tag::Function, ids_of(m.functions@), t);
    lemma_tagged_named(map, Tag::Constant, ids_of(m.constants@), t);
    lemma_tagged_named(map, Tag::Static, ids_of(m.statics@), t);
    lemma_tagged_named(map, Tag::TypeAlias, ids_of(m.type_alias@), t);
    lemma_tagged_named(map, Tag::MacroDecl, ids_of(m.macros_decl@), t);
    lemma_tagged_named(map, Tag::MacroFunc, ids_of(m.macros_func@), t);
    lemma_tagged_named(map, Tag::MacroAttr, ids_of(m.macros_attr@), t);
    lemma_tagged_named(map, Tag::MacroDerv, ids_of(m.macros_derv@), t);
    lemma_tagged_named(map, Tag::Trait, ids_of(m.traits@), t);
    lemma_tagged_named(map, Tag::Struct, ids_of(m.structs@), t);
    lemma_tagged_named(map, Tag::Union, ids_of(m.unions@), t);
    lemma_tagged_named(map, Tag::Enum, ids_of(m.enums@), t);
    let want = kind_ids(m, t).map_values(|x: Seq<char>| (map.spec_name(x), Some(x)));
    assert(tagged(mod_items(map, m), t) =~= want) by {
        assert(mod_items(map, m) == f + c + st + ta + md + mf + ma + mv + tr + sr + un + en);
    }
}

/// The outline shows under a module as many nodes of each item kind as the module's count
/// of that kind.
pub proof fn law_outline_matches_counts(map: IDMap, m: DModule)
    requires
        m.counts_fit(),
    ensures
        tagged(mod_items(map, m), Tag::Function).len() == m.spec_current_items_counts().functions,
        tagged(mod_items(map, m), Tag::Constant).len() == m.spec_current_items_counts().constants,
        tagged(mod_items(map, m), Tag::Static).len() == m.spec_current_items_counts().statics,
        tagged(mod_items(map, m), Tag::TypeAlias).len() == m.spec_current_items_counts().type_alias,
        tagged(mod_items(map, m), Tag::MacroDecl).len() == m.spec_current_items_counts().macros_decl,
        tagged(mod_items(map, m), Tag::MacroFunc).len() == m.spec_current_items_counts().macros_func,
        tagged(mod_items(map, m), Tag::MacroAttr).len() == m.spec_current_items_counts().macros_attr,
        tagged(mod_items(map, m), Tag::MacroDerv).len() == m.spec_current_items_counts().macros_derv,
        tagged(mod_items(map, m), Tag::Trait).len() == m.spec_current_items_counts().traits,
        tagged(mod_items(map, m), Tag::Struct).len() == m.spec_current_items_counts().structs,
        tagged(mod_items(map, m), Tag::Union).len() == m.spec_current_items_counts().unions,
        tagged(mod_items(map, m), Tag::Enum).len() == m.spec_current_items_counts().enums,
{
    m.law_item_counts_are_lengths();
    law_mod_items_by_kind(map, m, Tag::Function);
    law_mod_items_by_kind(map, m, Tag::Constant);
    law_mod_items_by_kind(map, m, Tag::Static);
    law_mod_items_by_kind(map, m, Tag::TypeAlias);
    law_mod_items_by_kind(map, m, Tag::MacroDecl);
    law_mod_items_by_kind(map, m, Tag::MacroFunc);
    law_mod_items_by_kind(map, m, Tag::MacroAttr);
    law_mod_items_by_kind(map, m, Tag::MacroDerv);
    law_mod_items_by_kind(map, m, Tag::Trait);
    law_mod_items_by_kind(map, m, Tag::Struct);
    law_mod_items_by_kind(map, m, Tag::Union);
    law_mod_items_by_kind(map, m, Tag::Enum);
}

/// A module shown by its path.
pub open spec fn mod_root(map: IDMap, m: DModule, tag: Tag) -> RootView {
    (map.spec_path(m.id@), tag, Some(m.id@))
}

/// A module shown by its name.
pub open spec fn mod_root_named(map: IDMap, m: DModule, tag: Tag) -> RootView {
    (map.spec_name(m.id@), tag, Some(m.id@))
}

/// A module with the items directly in it, without its submodules.
pub open spec fn one_mod(map: IDMap, m: DModule, level: int) -> Seq<NodeView> {
    seq![(mod_root(map, m, Tag::Module), level)] + at_level(mod_items(map, m), level + 1)
}

/// The modules folded, shown by their paths.
pub open spec fn folded(map: IDMap, ms: Seq<DModule>) -> Seq<RootView> {
    ms.map_values(|m: DModule| mod_root(map, m, Tag::ModuleFolded))
}

/// The modules folded, shown by their names.
pub open spec fn folded_named(map: IDMap, ms: Seq<DModule>) -> Seq<RootView> {
    ms.map_values(|m: DModule| mod_root_named(map, m, Tag::ModuleFolded))
}

/// The whole module tree with all items.
pub open spec fn item_tree(map: IDMap, m: DModule, level: int) -> Seq<NodeView>
    decreases m,
{
    one_mod(map, m, level) + item_forest(map, m.modules@, level + 1)
}

pub open spec fn item_forest(map: IDMap, ms: Seq<DModule>, level: int) -> Seq<NodeView>
    decreases ms,
{
    if ms.len() == 0 {
        seq![]
    } else {
        item_forest(map, ms.subrange(0, ms.len() - 1), level) + item_tree(
            map,
            ms[ms.len() - 1],
            level,
        )
    }
}

/// The nodes of a forest of single nodes.
pub open spec fn leafy(ts: Seq<DocTree>) -> bool {
    forall|i: int| 0 <= i < ts.len() ==> (#[trigger] ts[i]).leaves@.len() == 0
}

pub open spec fn roots_view(ts: Seq<DocTree>) -> Seq<RootView> {
    ts.map_values(|t: DocTree| text_tag_view(t.root))
}

pub(crate) proof fn lemma_forest_concat(a: Seq<DocTree>, b: Seq<DocTree>, level: int)
    ensures
        forest_nodes(a + b, level) == forest_nodes(a, level) + forest_nodes(b, level),
    decreases a.len(),
{
    if a.len() > 0 {
        let ab = a + b;
        assert(ab.subrange(1, ab.len() as int) == a.subrange(1, a.len() as int) + b);
        lemma_forest_concat(a.subrange(1, a.len() as int), b, level);
        assert(ab[0] == a[0]);
    } else {
        assert(a + b == b);
    }
}

pub(crate) proof fn lemma_forest_leafy(ts: Seq<DocTree>, level: int)
    requires
        leafy(ts),
    ensures
        nodes_view(forest_nodes(ts, level)) == at_level(roots_view(ts), level),
    decreases ts.len(),
{
    if ts.len() > 0 {
        let rest = ts.subrange(1, ts.len() as int);
        assert(leafy(rest)) by {
            assert forall|i: int| 0 <= i < rest.len() implies (#[trigger] rest[i]).leaves@.len()
                == 0 by {
                assert(rest[i] == ts[i + 1]);
            }
        }
        lemma_forest_leafy(rest, level);
        assert(ts[0].leaves@.len() == 0);
        assert(forest_nodes(ts[0].leaves@, level + 1) == Seq::<(TextTag, int)>::empty());
        assert(tree_nodes(ts[0], level) == seq![(ts[0].root, level)]);
        let f = forest_nodes(ts, level);
        let fr = forest_nodes(rest, level);
        assert(f == seq![(ts[0].root, level)] + fr);
        assert(nodes_view(fr) == at_level(roots_view(rest), level));
        assert(fr.len() == rest.len()) by {
            assert(nodes_view(fr).len() == at_level(roots_view(rest), level).len());
        }
        assert forall|i: int| 0 <= i < ts.len() implies nodes_view(f)[i] == at_level(
            roots_view(ts),
            level,
        )[i] by {
            if i > 0 {
                assert(f[i] == fr[i - 1]);
                assert(rest[i - 1] == ts[i]);
                assert(nodes_view(fr)[i - 1] == at_level(roots_view(rest), level)[i - 1]);
            }
        }
        assert(nodes_view(forest_nodes(ts, level)) =~= at_level(roots_view(ts), level));
    } else {
        assert(nodes_view(forest_nodes(ts, level)) =~= at_level(roots_view(ts), level));
    }
}

/// Push a named node for each item.
pub(crate) fn push_named<T: HasId>(out: &mut Vec<DocTree>, items: &Vec<T>, tag: Tag, map: &IDMap)
    requires
        leafy(old(out)@),
    ensures
        leafy(final(out)@),
        roots_view(final(out)@) == roots_view(old(out)@) + named(*map, tag, ids_of(items@)),
{
    let ghost start = out@;
    let mut i: usize = 0;
    while i < items.len()
        invariant
            i <= items@.len(),
            leafy(out@),
            roots_view(out@) == roots_view(start) + named(
                *map,
                tag,
                ids_of(items@.subrange(0, i as int)),
            ),
        decreases items@.len() - i,
    {
        let id = items[i].item_id();
        let node = DocTree::new(map.name(id), tag, Some(id.clone()));
        let ghost before = out@;
        out.push(node);
        proof {
            assert(ids_of(items@.subrange(0, i + 1)) == ids_of(items@.subrange(0, i as int)).push(
                items@[i as int].spec_id()@,
            ));
            assert(roots_view(out@) =~= roots_view(before).push(text_tag_view(node.root)));
            assert(roots_view(out@) =~= roots_view(start) + named(
                *map,
                tag,
                ids_of(items@.subrange(0, i + 1)),
            ));
        }
        i = i + 1;
    }
    assert(items@.subrange(0, i as int) == items@);
}

/// The named nodes of the items directly in a module.
fn item_leaves(m: &DModule, map: &IDMap) -> (r: Vec<DocTree>)
    ensures
        leafy(r@),
        roots_view(r@) == mod_items(*map, *m),
{
    let mut out: Vec<DocTree> = Vec::new();
    assert(roots_view(out@) =~= Seq::<RootView>::empty());
    push_named(&mut out, &m.functions, Tag::Function, map);
    push_named(&mut out, &m.constants, Tag::Constant, map);
    push_named(&mut out, &m.statics, Tag::Static, map);
    push_named(&mut out, &m.type_alias, Tag::TypeAlias, map);
    push_named(&mut out, &m.macros_decl, Tag::MacroDecl, map);
    push_named(&mut out, &m.macros_func, Tag::MacroFunc, map);
    push_named(&mut out, &m.macros_attr, Tag::MacroAttr, map);
    push_named(&mut out, &m.macros_derv, Tag::MacroDerv, map);
    push_named(&mut out, &m.traits, Tag::Trait, map);
    push_named(&mut out, &m.structs, Tag::Struct, map);
    push_named(&mut out, &m.unions, Tag::Union, map);
    push_named(&mut out, &m.enums, Tag::Enum, map);
    assert(roots_view(out@) =~= mod_items(*map, *m));
    out
}

/// A node for a module shown by its path.
fn path_node(m: &DModule, map: &IDMap, tag: Tag) -> (r: DocTree)
    ensures
        text_tag_view(r.root) == mod_root(*map, *m, tag),
        r.leaves@.len() == 0,
{
    DocTree::new(map.path(&m.id), tag, Some(m.id.clone()))
}

/// A node for a module shown by its name.
fn name_node(m: &DModule, map: &IDMap, tag: Tag) -> (r: DocTree)
    ensures
        text_tag_view(r.root) == mod_root_named(*map, *m, tag),
        r.leaves@.len() == 0,
{
    DocTree::new(map.name(&m.id), tag, Some(m.id.clone()))
}

/// The nodes of a tree whose root has the given view and whose leaves come in two parts.
proof fn lemma_tree_two_parts(t: DocTree, a: Seq<DocTree>, b: Seq<DocTree>, level: int)
    requires
        t.leaves@ == a + b,
    ensures
        nodes_view(tree_nodes(t, level)) == seq![(text_tag_view(t.root), level)] + nodes_view(
            forest_nodes(a, level + 1),
        ) + nodes_view(forest_nodes(b, level + 1)),
{
    lemma_forest_concat(a, b, level + 1);
    assert(nodes_view(tree_nodes(t, level)) =~= seq![(text_tag_view(t.root), level)] + nodes_view(
        forest_nodes(a, level + 1),
    ) + nodes_view(forest_nodes(b, level + 1)));
}

impl DModule {
    /// This module with the items directly in it; submodules are left out.
    pub fn item_tree_only_in_one_specified_mod(&self, map: &IDMap) -> (r: DocTree)
        ensures
            forall|level: int| nodes_view(#[trigger] tree_nodes(r, level)) == one_mod(*map, *self, level),
            leafy(r.leaves@),
            roots_view(r.leaves@) == mod_items(*map, *self),
            text_tag_view(r.root) == mod_root(*map, *self, Tag::Module),
    {
        let root = path_node(self, map, Tag::Module);
        let leaves = item_leaves(self, map);
        let r = root.with_leaves(leaves);
        assert forall|level: int| nodes_view(#[trigger] tree_nodes(r, level)) == one_mod(
            *map,
            *self,
            level,
        ) by {
            lemma_forest_leafy(r.leaves@, level + 1);
            assert(nodes_view(tree_nodes(r, level)) =~= one_mod(*map, *self, level));
        }
        r
    }

    /// The main tree view: public items in the module tree.
    pub fn item_tree(&self, map: &IDMap) -> (r: DocTree)
        ensures
            forall|level: int| nodes_view(#[trigger] tree_nodes(r, level)) == item_tree(*map, *self, level),
        decreases self,
    {
        let mut r = self.item_tree_only_in_one_specified_mod(map);
        let ghost items = r.leaves@;
        let mut subs: Vec<DocTree> = Vec::new();
        let mut i: usize = 0;
        while i < self.modules.len()
            invariant
                i <= self.modules@.len(),
                forall|level: int| nodes_view(#[trigger] forest_nodes(subs@, level)) == item_forest(
                    *map,
                    self.modules@.subrange(0, i as int),
                    level,
                ),
            decreases self.modules@.len() - i,
        {
            proof {
                assert(decreases_to!(self => self.modules));
                assert(decreases_to!(self.modules => self.modules@));
                assert(decreases_to!(self.modules@ => self.modules@[i as int]));
            }
            let t = self.modules[i].item_tree(map);
            let ghost before = subs@;
            subs.push(t);
            proof {
                let ms = self.modules@.subrange(0, i + 1);
                assert(ms.subrange(0, ms.len() - 1) == self.modules@.subrange(0, i as int));
                assert(ms[ms.len() - 1] == self.modules@[i as int]);
                assert(subs@ == before + seq![t]);
                assert forall|level: int| nodes_view(#[trigger] forest_nodes(subs@, level))
                    == item_forest(*map, ms, level) by {
                    lemma_forest_concat(before, seq![t], level);
                    assert(seq![t].subrange(1, 1) == Seq::<DocTree>::empty());
                    assert(forest_nodes(seq![t], level) == tree_nodes(t, level) + forest_nodes(
                        Seq::<DocTree>::empty(),
                        level,
                    ));
                    assert(nodes_view(forest_nodes(subs@, level)) =~= nodes_view(
                        forest_nodes(before, level),
                    ) + nodes_view(tree_nodes(t, level)));
                }
            }
            i = i + 1;
        }
        assert(self.modules@.subrange(0, i as int) == self.modules@);
        let ghost sub_g = subs@;
        r.extend(subs);
        assert forall|level: int| nodes_view(#[trigger] tree_nodes(r, level)) == item_tree(
            *map,
            *self,
            level,
        ) by {
            lemma_tree_two_parts(r, items, sub_g, level);
            lemma_forest_leafy(items, level + 1);
            assert(nodes_view(tree_nodes(r, level)) =~= item_tree(*map, *self, level));
        }
        r
    }
}

impl HasId for DFunction {
    open spec fn spec_id(&self) -> ID {
        self.id
    }

    fn item_id(&self) -> (r: &ID) {
        &self.id
    }
}

impl HasId for DConstant {
    open spec fn spec_id(&self) -> ID {
        self.id
    }

    fn item_id(&self) -> (r: &ID) {
        &self.id
    }
}

impl HasId for DStatic {
    open spec fn spec_id(&self) -> ID {
        self.id
    }

    fn item_id(&self) -> (r: &ID) {
        &self.id
    }
}

impl HasId for DTypeAlias {
    open spec fn spec_id(&self) -> ID {
        self.id
    }

    fn item_id(&self) -> (r: &ID) {
        &self.id
    }
}

impl HasId for DMacroDecl {
    open spec fn spec_id(&self) -> ID {
        self.id
    }

    fn item_id(&self) -> (r: &ID) {
        &self.id
    }
}

impl HasId for DMacroFunc {
    open spec fn spec_id(&self) -> ID {
        self.id
    }

    fn item_id(&self) -> (r: &ID) {
        &self.id
    }
}

impl HasId for DMacroAttr {
    open spec fn spec_id(&self) -> ID {
        self.id
    }

    fn item_id(&self) -> (r: &ID) {
        &self.id
    }
}

impl HasId for DMacroDerv {
    open spec fn spec_id(&self) -> ID {
        self.id
    }

    fn item_id(&self) -> (r: &ID) {
        &self.id
    }
}

impl HasId for DTrait {
    open spec fn spec_id(&self) -> ID {
        self.id
    }

    fn item_id(&self) -> (r: &ID) {
        &self.id
    }
}

impl HasId for DStruct {
    open spec fn spec_id(&self) -> ID {
        self.id
    }

    fn item_id(&self) -> (r: &ID) {
        &self.id
    }
}

impl HasId for DUnion {
    open spec fn spec_id(&self) -> ID {
        self.id
    }

    fn item_id(&self) -> (r: &ID) {
        &self.id
    }
}

impl HasId for DEnum {
    open spec fn spec_id(&self) -> ID {
        self.id
    }

    fn item_id(&self) -> (r: &ID) {
        &self.id
    }
}


// ---------------------------------------------------------------------------------------------
// Folded views of the module tree

/// The modules nested below a forest, counting each level of modules once.
pub open spec fn mods_depth(ms: Seq<DModule>) -> nat
    decreases ms,
{
    if ms.len() == 0 {
        0
    } else {
        let a = mods_depth(ms.subrange(0, ms.len() - 1));
        let b = 1 + mods_depth(ms[ms.len() - 1].modules@);
        if a >= b {
            a
        } else {
            b
        }
    }
}

/// The modules nest at most `limit` deep exactly when each of them, with the modules below
/// it, does within one level less.
proof fn lemma_depth_within(ms: Seq<DModule>, limit: int)
    requires
        limit >= 0,
    ensures
        (mods_depth(ms) <= limit) == (forall|i: int|
            0 <= i < ms.len() ==> 1 + mods_depth((#[trigger] ms[i]).modules@) <= limit),
    decreases ms.len(),
{
    if ms.len() > 0 {
        let pre = ms.subrange(0, ms.len() - 1);
        let last = ms[ms.len() - 1];
        lemma_depth_within(pre, limit);
        let all_ms = forall|i: int|
            0 <= i < ms.len() ==> 1 + mods_depth((#[trigger] ms[i]).modules@) <= limit;
        let all_pre = forall|i: int|
            0 <= i < pre.len() ==> 1 + mods_depth((#[trigger] pre[i]).modules@) <= limit;
        if all_ms {
            assert forall|i: int| 0 <= i < pre.len() implies 1 + mods_depth(
                (#[trigger] pre[i]).modules@,
            ) <= limit by {
                assert(pre[i] == ms[i]);
            }
            assert(1 + mods_depth(last.modules@) <= limit);
        }
        if mods_depth(ms) <= limit {
            assert(mods_depth(pre) <= limit);
            assert forall|i: int| 0 <= i < ms.len() implies 1 + mods_depth(
                (#[trigger] ms[i]).modules@,
            ) <= limit by {
                if i < ms.len() - 1 {
                    assert(pre[i] == ms[i]);
                }
            }
        }
    }
}

/// Whether the modules nest at most `limit` deep.
pub fn depth_within(ms: &Vec<DModule>, limit: usize) -> (r: bool)
    ensures
        r == (mods_depth(ms@) <= limit),
    decreases ms,
{
    proof {
        lemma_depth_within(ms@, limit as int);
    }
    let mut i: usize = 0;
    while i < ms.len()
        invariant
            i <= ms@.len(),
            forall|j: int| 0 <= j < i ==> 1 + mods_depth((#[trigger] ms@[j]).modules@) <= limit,
            (mods_depth(ms@) <= limit) == (forall|j: int|
                0 <= j < ms@.len() ==> 1 + mods_depth((#[trigger] ms@[j]).modules@) <= limit),
        decreases ms@.len() - i,
    {
        if limit == 0 {
            return false;
        }
        proof {
            assert(decreases_to!(ms => ms@));
            assert(decreases_to!(ms@ => ms@[i as int]));
            assert(decreases_to!(ms@[i as int] => ms@[i as int].modules));
        }
        if !depth_within(&ms[i].modules, limit - 1) {
            return false;
        }
        i = i + 1;
    }
    true
}

/// Every node lies within the levels `lo..=hi`.
pub open spec fn levels_in(s: Seq<NodeView>, lo: int, hi: int) -> bool {
    forall|i: int| 0 <= i < s.len() ==> lo <= (#[trigger] s[i]).1 <= hi
}

/// The root module with its items, and each submodule folded.
pub open spec fn zero_level(map: IDMap, d: DModule) -> Seq<NodeView> {
    one_mod(map, d, 0) + at_level(folded(map, d.modules@), 1)
}

/// A first-level module: with its items and its submodules folded if it is expanded, else
/// folded itself.
pub open spec fn first_tree(map: IDMap, m: DModule, level: int, e: Set<Seq<char>>) -> Seq<NodeView> {
    if e.contains(m.id@) {
        one_mod(map, m, level) + at_level(folded(map, m.modules@), level + 1)
    } else {
        seq![(mod_root(map, m, Tag::ModuleFolded), level)]
    }
}

pub open spec fn first_forest(map: IDMap, ms: Seq<DModule>, level: int, e: Set<Seq<char>>) -> Seq<
    NodeView,
>
    decreases ms.len(),
{
    if ms.len() == 0 {
        seq![]
    } else {
        first_forest(map, ms.subrange(0, ms.len() - 1), level, e) + first_tree(
            map,
            ms[ms.len() - 1],
            level,
            e,
        )
    }
}

/// The root module with its items, and the first-level modules as `first_tree` shows them.
pub open spec fn first_level(map: IDMap, d: DModule, e: Set<Seq<char>>) -> Seq<NodeView> {
    one_mod(map, d, 0) + first_forest(map, d.modules@, 1, e)
}

/// A module expanded with its items and submodules when it is in the set, else folded.
pub open spec fn toggle_tree(map: IDMap, m: DModule, level: int, e: Set<Seq<char>>) -> Seq<
    NodeView,
>
    decreases m,
{
    if !e.contains(m.id@) {
        seq![(mod_root(map, m, Tag::ModuleFolded), level)]
    } else {
        one_mod(map, m, level) + toggle_forest(map, m.modules@, level + 1, e)
    }
}

pub open spec fn toggle_forest(map: IDMap, ms: Seq<DModule>, level: int, e: Set<Seq<char>>) -> Seq<
    NodeView,
>
    decreases ms,
{
    if ms.len() == 0 {
        seq![]
    } else {
        toggle_forest(map, ms.subrange(0, ms.len() - 1), level, e) + toggle_tree(
            map,
            ms[ms.len() - 1],
            level,
            e,
        )
    }
}

/// The root module with its items, and each submodule as `toggle_tree` shows it.
pub open spec fn toggled(map: IDMap, d: DModule, e: Set<Seq<char>>) -> Seq<NodeView> {
    one_mod(map, d, 0) + toggle_forest(map, d.modules@, 1, e)
}

/// A module in the set shows its items and its submodules folded by name; any other shows
/// folded by name with its submodules below.
pub open spec fn current_tree(map: IDMap, m: DModule, level: int, e: Set<Seq<char>>) -> Seq<
    NodeView,
>
    decreases m,
{
    if e.contains(m.id@) {
        one_mod(map, m, level) + at_level(folded_named(map, m.modules@), level + 1)
    } else {
        seq![(mod_root_named(map, m, Tag::ModuleFolded), level)] + current_forest(
            map,
            m.modules@,
            level + 1,
            e,
        )
    }
}

pub open spec fn current_forest(map: IDMap, ms: Seq<DModule>, level: int, e: Set<Seq<char>>) -> Seq<
    NodeView,
>
    decreases ms,
{
    if ms.len() == 0 {
        seq![]
    } else {
        current_forest(map, ms.subrange(0, ms.len() - 1), level, e) + current_tree(
            map,
            ms[ms.len() - 1],
            level,
            e,
        )
    }
}

/// The root module by its path, its items if it is in the set, and each submodule as
/// `current_tree` shows it.
pub open spec fn current_module(map: IDMap, d: DModule, e: Set<Seq<char>>) -> Seq<NodeView> {
    seq![(mod_root(map, d, Tag::Module), 0)] + (if e.contains(d.id@) {
        at_level(mod_items(map, d), 1)
    } else {
        seq![]
    }) + current_forest(map, d.modules@, 1, e)
}

pub(crate) proof fn lemma_levels_concat(a: Seq<NodeView>, b: Seq<NodeView>, lo: int, hi: int)
    requires
        levels_in(a, lo, hi),
        levels_in(b, lo, hi),
    ensures
        levels_in(a + b, lo, hi),
{
    assert forall|i: int| 0 <= i < (a + b).len() implies lo <= (#[trigger] (a + b)[i]).1 <= hi by {
        if i >= a.len() {
            assert((a + b)[i] == b[i - a.len()]);
        }
    }
}

pub(crate) proof fn lemma_levels_widen(a: Seq<NodeView>, lo: int, hi: int, lo2: int, hi2: int)
    requires
        levels_in(a, lo, hi),
        lo2 <= lo,
        hi <= hi2,
    ensures
        levels_in(a, lo2, hi2),
{
}

proof fn lemma_one_mod_levels(map: IDMap, m: DModule, level: int)
    ensures
        levels_in(one_mod(map, m, level), level, level + 1),
{
    lemma_levels_concat(
        seq![(mod_root(map, m, Tag::Module), level)],
        at_level(mod_items(map, m), level + 1),
        level,
        level + 1,
    );
}

pub(crate) proof fn lemma_depth_last(ms: Seq<DModule>)
    requires
        ms.len() > 0,
    ensures
        mods_depth(ms.subrange(0, ms.len() - 1)) <= mods_depth(ms),
        1 + mods_depth(ms[ms.len() - 1].modules@) <= mods_depth(ms),
{
}

pub(crate) proof fn lemma_item_tree_levels(map: IDMap, m: DModule, level: int)
    ensures
        levels_in(item_tree(map, m, level), level, level + 1 + mods_depth(m.modules@)),
    decreases m,
{
    lemma_one_mod_levels(map, m, level);
    assert(decreases_to!(m => m.modules));
    assert(decreases_to!(m.modules => m.modules@));
    lemma_item_forest_levels(map, m.modules@, level + 1);
    lemma_levels_widen(
        one_mod(map, m, level),
        level,
        level + 1,
        level,
        level + 1 + mods_depth(m.modules@),
    );
    lemma_levels_widen(
        item_forest(map, m.modules@, level + 1),
        level + 1,
        level + 1 + mods_depth(m.modules@),
        level,
        level + 1 + mods_depth(m.modules@),
    );
    lemma_levels_concat(
        one_mod(map, m, level),
        item_forest(map, m.modules@, level + 1),
        level,
        level + 1 + mods_depth(m.modules@),
    );
}

proof fn lemma_item_forest_levels(map: IDMap, ms: Seq<DModule>, level: int)
    ensures
        levels_in(item_forest(map, ms, level), level, level + mods_depth(ms)),
    decreases ms,
{
    if ms.len() > 0 {
        let pre = ms.subrange(0, ms.len() - 1);
        let last = ms[ms.len() - 1];
        lemma_depth_last(ms);
        lemma_item_forest_levels(map, pre, level);
        lemma_item_tree_levels(map, last, level);
        lemma_levels_widen(
            item_forest(map, pre, level),
            level,
            level + mods_depth(pre),
            level,
            level + mods_depth(ms),
        );
        lemma_levels_widen(
            item_tree(map, last, level),
            level,
            level + 1 + mods_depth(last.modules@),
            level,
            level + mods_depth(ms),
        );
        lemma_levels_concat(
            item_forest(map, pre, level),
            item_tree(map, last, level),
            level,
            level + mods_depth(ms),
        );
    }
}

proof fn lemma_toggle_tree_levels(map: IDMap, m: DModule, level: int, e: Set<Seq<char>>)
    ensures
        levels_in(toggle_tree(map, m, level, e), level, level + 1 + mods_depth(m.modules@)),
    decreases m,
{
    if e.contains(m.id@) {
        lemma_one_mod_levels(map, m, level);
        assert(decreases_to!(m => m.modules));
        assert(decreases_to!(m.modules => m.modules@));
        lemma_toggle_forest_levels(map, m.modules@, level + 1, e);
        let hi = level + 1 + mods_depth(m.modules@);
        lemma_levels_widen(one_mod(map, m, level), level, level + 1, level, hi);
        lemma_levels_widen(toggle_forest(map, m.modules@, level + 1, e), level + 1, hi, level, hi);
        lemma_levels_concat(
            one_mod(map, m, level),
            toggle_forest(map, m.modules@, level + 1, e),
            level,
            hi,
        );
    }
}

proof fn lemma_toggle_forest_levels(map: IDMap, ms: Seq<DModule>, level: int, e: Set<Seq<char>>)
    ensures
        levels_in(toggle_forest(map, ms, level, e), level, level + mods_depth(ms)),
    decreases ms,
{
    if ms.len() > 0 {
        let pre = ms.subrange(0, ms.len() - 1);
        let last = ms[ms.len() - 1];
        let hi = level + mods_depth(ms);
        lemma_depth_last(ms);
        lemma_toggle_forest_levels(map, pre, level, e);
        lemma_toggle_tree_levels(map, last, level, e);
        lemma_levels_widen(toggle_forest(map, pre, level, e), level, level + mods_depth(pre), level, hi);
        lemma_levels_widen(
            toggle_tree(map, last, level, e),
            level,
            level + 1 + mods_depth(last.modules@),
            level,
            hi,
        );
        lemma_levels_concat(toggle_forest(map, pre, level, e), toggle_tree(map, last, level, e), level, hi);
    }
}

proof fn lemma_current_tree_levels(map: IDMap, m: DModule, level: int, e: Set<Seq<char>>)
    ensures
        levels_in(current_tree(map, m, level, e), level, level + 1 + mods_depth(m.modules@)),
    decreases m,
{
    let hi = level + 1 + mods_depth(m.modules@);
    if e.contains(m.id@) {
        lemma_one_mod_levels(map, m, level);
        lemma_levels_widen(one_mod(map, m, level), level, level + 1, level, hi);
        lemma_levels_concat(
            one_mod(map, m, level),
            at_level(folded_named(map, m.modules@), level + 1),
            level,
            hi,
        );
    } else {
        assert(decreases_to!(m => m.modules));
        assert(decreases_to!(m.modules => m.modules@));
        lemma_current_forest_levels(map, m.modules@, level + 1, e);
        lemma_levels_widen(current_forest(map, m.modules@, level + 1, e), level + 1, hi, level, hi);
        lemma_levels_concat(
            seq![(mod_root_named(map, m, Tag::ModuleFolded), level)],
            current_forest(map, m.modules@, level + 1, e),
            level,
            hi,
        );
    }
}

proof fn lemma_current_forest_levels(map: IDMap, ms: Seq<DModule>, level: int, e: Set<Seq<char>>)
    ensures
        levels_in(current_forest(map, ms, level, e), level, level + mods_depth(ms)),
    decreases ms,
{
    if ms.len() > 0 {
        let pre = ms.subrange(0, ms.len() - 1);
        let last = ms[ms.len() - 1];
        let hi = level + mods_depth(ms);
        lemma_depth_last(ms);
        lemma_current_forest_levels(map, pre, level, e);
        lemma_current_tree_levels(map, last, level, e);
        lemma_levels_widen(current_forest(map, pre, level, e), level, level + mods_depth(pre), level, hi);
        lemma_levels_widen(
            current_tree(map, last, level, e),
            level,
            level + 1 + mods_depth(last.modules@),
            level,
            hi,
        );
        lemma_levels_concat(current_forest(map, pre, level, e), current_tree(map, last, level, e), level, hi);
    }
}

proof fn lemma_first_forest_levels(map: IDMap, ms: Seq<DModule>, level: int, e: Set<Seq<char>>)
    ensures
        levels_in(first_forest(map, ms, level, e), level, level + 1),
    decreases ms.len(),
{
    if ms.len() > 0 {
        let pre = ms.subrange(0, ms.len() - 1);
        let last = ms[ms.len() - 1];
        lemma_first_forest_levels(map, pre, level, e);
        if e.contains(last.id@) {
            lemma_one_mod_levels(map, last, level);
            lemma_levels_concat(
                one_mod(map, last, level),
                at_level(folded(map, last.modules@), level + 1),
                level,
                level + 1,
            );
        }
        lemma_levels_concat(first_forest(map, pre, level, e), first_tree(map, last, level, e), level, level + 1);
    }
}

/// Push a folded node for each module.
fn push_folded(out: &mut Vec<DocTree>, ms: &Vec<DModule>, map: &IDMap, by_name: bool)
    requires
        leafy(old(out)@),
    ensures
        leafy(final(out)@),
        roots_view(final(out)@) == roots_view(old(out)@) + (if by_name {
            folded_named(*map, ms@)
        } else {
            folded(*map, ms@)
        }),
{
    let ghost start = out@;
    let ghost fv = if by_name {
        folded_named(*map, ms@)
    } else {
        folded(*map, ms@)
    };
    let mut i: usize = 0;
    while i < ms.len()
        invariant
            i <= ms@.len(),
            leafy(out@),
            fv == (if by_name {
                folded_named(*map, ms@)
            } else {
                folded(*map, ms@)
            }),
            roots_view(out@) == roots_view(start) + fv.subrange(0, i as int),
        decreases ms@.len() - i,
    {
        let node = if by_name {
            name_node(&ms[i], map, Tag::ModuleFolded)
        } else {
            path_node(&ms[i], map, Tag::ModuleFolded)
        };
        let ghost before = out@;
        out.push(node);
        proof {
            assert(fv.subrange(0, i + 1) == fv.subrange(0, i as int).push(fv[i as int]));
            assert(roots_view(out@) =~= roots_view(before).push(text_tag_view(node.root)));
        }
        i = i + 1;
    }
    assert(fv.subrange(0, i as int) == fv);
}

/// The nodes of a forest grow by those of one more tree.
pub(crate) proof fn lemma_forest_push(ts: Seq<DocTree>, t: DocTree, level: int)
    ensures
        nodes_view(forest_nodes(ts.push(t), level)) == nodes_view(forest_nodes(ts, level))
            + nodes_view(tree_nodes(t, level)),
{
    lemma_forest_concat(ts, seq![t], level);
    assert(ts.push(t) == ts + seq![t]);
    assert(seq![t].subrange(1, 1) == Seq::<DocTree>::empty());
    assert(forest_nodes(seq![t], level) == tree_nodes(t, level) + forest_nodes(
        Seq::<DocTree>::empty(),
        level,
    ));
    assert(nodes_view(forest_nodes(ts.push(t), level)) =~= nodes_view(forest_nodes(ts, level))
        + nodes_view(tree_nodes(t, level)));
}

/// The root module with its items and each submodule folded.
fn zero_level_tree(d: &DModule, map: &IDMap) -> (r: DocTree)
    ensures
        nodes_view(tree_nodes(r, 0)) == zero_level(*map, *d),
{
    let mut root = d.item_tree_only_in_one_specified_mod(map);
    let mut leaves: Vec<DocTree> = Vec::new();
    assert(roots_view(leaves@) =~= Seq::<RootView>::empty());
    push_folded(&mut leaves, &d.modules, map, false);
    let ghost items = root.leaves@;
    let ghost lv = leaves@;
    root.extend(leaves);
    proof {
        lemma_tree_two_parts(root, items, lv, 0);
        lemma_forest_leafy(items, 1);
        lemma_forest_leafy(lv, 1);
        assert(nodes_view(tree_nodes(root, 0)) =~= zero_level(*map, *d));
    }
    root
}

/// A first-level module as `first_tree` shows it.
fn first_level_subtree(m: &DModule, map: &IDMap, mods: &IdSet) -> (r: DocTree)
    ensures
        forall|level: int| nodes_view(#[trigger] tree_nodes(r, level)) == first_tree(
            *map,
            *m,
            level,
            expanded_ids(*mods),
        ),
{
    if contains_id(mods, &m.id) {
        let mut tree = m.item_tree_only_in_one_specified_mod(map);
        let mut leaves: Vec<DocTree> = Vec::new();
        assert(roots_view(leaves@) =~= Seq::<RootView>::empty());
        push_folded(&mut leaves, &m.modules, map, false);
        let ghost items = tree.leaves@;
        let ghost lv = leaves@;
        tree.extend(leaves);
        assert forall|level: int| nodes_view(#[trigger] tree_nodes(tree, level)) == first_tree(
            *map,
            *m,
            level,
            expanded_ids(*mods),
        ) by {
            lemma_tree_two_parts(tree, items, lv, level);
            lemma_forest_leafy(items, level + 1);
            lemma_forest_leafy(lv, level + 1);
            assert(nodes_view(tree_nodes(tree, level)) =~= first_tree(
                *map,
                *m,
                level,
                expanded_ids(*mods),
            ));
        }
        tree
    } else {
        let r = path_node(m, map, Tag::ModuleFolded);
        assert forall|level: int| nodes_view(#[trigger] tree_nodes(r, level)) == first_tree(
            *map,
            *m,
            level,
            expanded_ids(*mods),
        ) by {
            assert(forest_nodes(r.leaves@, level + 1) == Seq::<(TextTag, int)>::empty());
            assert(nodes_view(tree_nodes(r, level)) =~= first_tree(*map, *m, level, expanded_ids(*mods)));
        }
        r
    }
}

/// The root module with its items and the first-level modules as `first_tree` shows them.
fn first_level_tree(d: &DModule, map: &IDMap, mods: &IdSet) -> (r: DocTree)
    ensures
        nodes_view(tree_nodes(r, 0)) == first_level(*map, *d, expanded_ids(*mods)),
{
    let mut root = d.item_tree_only_in_one_specified_mod(map);
    let ghost e = expanded_ids(*mods);
    let mut subs: Vec<DocTree> = Vec::new();
    let mut i: usize = 0;
    while i < d.modules.len()
        invariant
            i <= d.modules@.len(),
            e == expanded_ids(*mods),
            nodes_view(forest_nodes(subs@, 1)) == first_forest(
                *map,
                d.modules@.subrange(0, i as int),
                1,
                e,
            ),
        decreases d.modules@.len() - i,
    {
        let t = first_level_subtree(&d.modules[i], map, mods);
        proof {
            lemma_forest_push(subs@, t, 1);
            let ms = d.modules@.subrange(0, i + 1);
            assert(ms.subrange(0, ms.len() - 1) == d.modules@.subrange(0, i as int));
        }
        subs.push(t);
        i = i + 1;
    }
    assert(d.modules@.subrange(0, i as int) == d.modules@);
    let ghost items = root.leaves@;
    let ghost sv = subs@;
    root.extend(subs);
    proof {
        lemma_tree_two_parts(root, items, sv, 0);
        lemma_forest_leafy(items, 1);
        assert(nodes_view(tree_nodes(root, 0)) =~= first_level(*map, *d, e));
    }
    root
}

/// A module as `toggle_tree` shows it.
fn toggle_subtree(m: &DModule, map: &IDMap, mods: &IdSet) -> (r: DocTree)
    ensures
        forall|level: int| nodes_view(#[trigger] tree_nodes(r, level)) == toggle_tree(
            *map,
            *m,
            level,
            expanded_ids(*mods),
        ),
    decreases m,
{
    let ghost e = expanded_ids(*mods);
    if !contains_id(mods, &m.id) {
        let r = path_node(m, map, Tag::ModuleFolded);
        assert forall|level: int| nodes_view(#[trigger] tree_nodes(r, level)) == toggle_tree(
            *map,
            *m,
            level,
            e,
        ) by {
            assert(forest_nodes(r.leaves@, level + 1) == Seq::<(TextTag, int)>::empty());
            assert(nodes_view(tree_nodes(r, level)) =~= toggle_tree(*map, *m, level, e));
        }
        return r;
    }
    let mut tree = m.item_tree_only_in_one_specified_mod(map);
    let mut subs: Vec<DocTree> = Vec::new();
    let mut i: usize = 0;
    while i < m.modules.len()
        invariant
            i <= m.modules@.len(),
            e == expanded_ids(*mods),
            forall|level: int| nodes_view(#[trigger] forest_nodes(subs@, level)) == toggle_forest(
                *map,
                m.modules@.subrange(0, i as int),
                level,
                e,
            ),
        decreases m.modules@.len() - i,
    {
        proof {
            assert(decreases_to!(m => m.modules));
            assert(decreases_to!(m.modules => m.modules@));
            assert(decreases_to!(m.modules@ => m.modules@[i as int]));
        }
        let t = toggle_subtree(&m.modules[i], map, mods);
        let ghost before = subs@;
        subs.push(t);
        proof {
            let ms = m.modules@.subrange(0, i + 1);
            assert(ms.subrange(0, ms.len() - 1) == m.modules@.subrange(0, i as int));
            assert forall|level: int| nodes_view(#[trigger] forest_nodes(subs@, level))
                == toggle_forest(*map, ms, level, e) by {
                lemma_forest_push(before, t, level);
            }
        }
        i = i + 1;
    }
    assert(m.modules@.subrange(0, i as int) == m.modules@);
    let ghost items = tree.leaves@;
    let ghost sv = subs@;
    tree.extend(subs);
    assert forall|level: int| nodes_view(#[trigger] tree_nodes(tree, level)) == toggle_tree(
        *map,
        *m,
        level,
        e,
    ) by {
        lemma_tree_two_parts(tree, items, sv, level);
        lemma_forest_leafy(items, level + 1);
        assert(nodes_view(tree_nodes(tree, level)) =~= toggle_tree(*map, *m, level, e));
    }
    tree
}

/// The root module with its items and each submodule as `toggle_tree` shows it.
fn toggled_tree(d: &DModule, map: &IDMap, mods: &IdSet) -> (r: DocTree)
    ensures
        nodes_view(tree_nodes(r, 0)) == toggled(*map, *d, expanded_ids(*mods)),
{
    let mut root = d.item_tree_only_in_one_specified_mod(map);
    let ghost e = expanded_ids(*mods);
    let mut subs: Vec<DocTree> = Vec::new();
    let mut i: usize = 0;
    while i < d.modules.len()
        invariant
            i <= d.modules@.len(),
            e == expanded_ids(*mods),
            nodes_view(forest_nodes(subs@, 1)) == toggle_forest(
                *map,
                d.modules@.subrange(0, i as int),
                1,
                e,
            ),
        decreases d.modules@.len() - i,
    {
        let t = toggle_subtree(&d.modules[i], map, mods);
        proof {
            lemma_forest_push(subs@, t, 1);
            let ms = d.modules@.subrange(0, i + 1);
            assert(ms.subrange(0, ms.len() - 1) == d.modules@.subrange(0, i as int));
        }
        subs.push(t);
        i = i + 1;
    }
    assert(d.modules@.subrange(0, i as int) == d.modules@);
    let ghost items = root.leaves@;
    let ghost sv = subs@;
    root.extend(subs);
    proof {
        lemma_tree_two_parts(root, items, sv, 0);
        lemma_forest_leafy(items, 1);
        assert(nodes_view(tree_nodes(root, 0)) =~= toggled(*map, *d, e));
    }
    root
}

/// A module as `current_tree` shows it.
fn current_subtree(m: &DModule, map: &IDMap, mods: &IdSet) -> (r: DocTree)
    ensures
        forall|level: int| nodes_view(#[trigger] tree_nodes(r, level)) == current_tree(
            *map,
            *m,
            level,
            expanded_ids(*mods),
        ),
    decreases m,
{
    let ghost e = expanded_ids(*mods);
    if contains_id(mods, &m.id) {
        // the full path helps to instantly know where the module is
        let mut tree = m.item_tree_only_in_one_specified_mod(map);
        let mut leaves: Vec<DocTree> = Vec::new();
        assert(roots_view(leaves@) =~= Seq::<RootView>::empty());
        push_folded(&mut leaves, &m.modules, map, true);
        let ghost items = tree.leaves@;
        let ghost lv = leaves@;
        tree.extend(leaves);
        assert forall|level: int| nodes_view(#[trigger] tree_nodes(tree, level)) == current_tree(
            *map,
            *m,
            level,
            e,
        ) by {
            lemma_tree_two_parts(tree, items, lv, level);
            lemma_forest_leafy(items, level + 1);
            lemma_forest_leafy(lv, level + 1);
            assert(nodes_view(tree_nodes(tree, level)) =~= current_tree(*map, *m, level, e));
        }
        return tree;
    }
    // a short name for the modules around the target ones
    let mut node = name_node(m, map, Tag::ModuleFolded);
    let mut subs: Vec<DocTree> = Vec::new();
    let mut i: usize = 0;
    while i < m.modules.len()
        invariant
            i <= m.modules@.len(),
            e == expanded_ids(*mods),
            forall|level: int| nodes_view(#[trigger] forest_nodes(subs@, level)) == current_forest(
                *map,
                m.modules@.subrange(0, i as int),
                level,
                e,
            ),
        decreases m.modules@.len() - i,
    {
        proof {
            assert(decreases_to!(m => m.modules));
            assert(decreases_to!(m.modules => m.modules@));
            assert(decreases_to!(m.modules@ => m.modules@[i as int]));
        }
        let t = current_subtree(&m.modules[i], map, mods);
        let ghost before = subs@;
        subs.push(t);
        proof {
            let ms = m.modules@.subrange(0, i + 1);
            assert(ms.subrange(0, ms.len() - 1) == m.modules@.subrange(0, i as int));
            assert forall|level: int| nodes_view(#[trigger] forest_nodes(subs@, level))
                == current_forest(*map, ms, level, e) by {
                lemma_forest_push(before, t, level);
            }
        }
        i = i + 1;
    }
    assert(m.modules@.subrange(0, i as int) == m.modules@);
    let ghost sv = subs@;
    node.extend(subs);
    assert forall|level: int| nodes_view(#[trigger] tree_nodes(node, level)) == current_tree(
        *map,
        *m,
        level,
        e,
    ) by {
        assert(node.leaves@ == sv);
        assert(!e.contains(m.id@));
        assert(nodes_view(forest_nodes(sv, level + 1)) == current_forest(
            *map,
            m.modules@,
            level + 1,
            e,
        ));
        assert(tree_nodes(node, level) == seq![(node.root, level)] + forest_nodes(sv, level + 1));
        assert(nodes_view(tree_nodes(node, level)) =~= current_tree(*map, *m, level, e));
    }
    node
}

/// The outline that focuses on the modules in the set.
fn current_module_tree(d: &DModule, map: &IDMap, mods: &IdSet) -> (r: DocTree)
    ensures
        nodes_view(tree_nodes(r, 0)) == current_module(*map, *d, expanded_ids(*mods)),
{
    let ghost e = expanded_ids(*mods);
    let mut root = path_node(d, map, Tag::Module);
    let mut first: Vec<DocTree> = Vec::new();
    if contains_id(mods, &d.id) {
        // the item tree already holds the root module, thus only take its leaves
        let t = d.item_tree_only_in_one_specified_mod(map);
        first = t.leaves;
    }
    let ghost fv = first@;
    proof {
        lemma_forest_leafy(fv, 1);
        if !e.contains(d.id@) {
            assert(fv.len() == 0);
            assert(roots_view(fv) =~= Seq::<RootView>::empty());
        }
    }
    let mut subs: Vec<DocTree> = Vec::new();
    let mut i: usize = 0;
    while i < d.modules.len()
        invariant
            i <= d.modules@.len(),
            e == expanded_ids(*mods),
            nodes_view(forest_nodes(subs@, 1)) == current_forest(
                *map,
                d.modules@.subrange(0, i as int),
                1,
                e,
            ),
        decreases d.modules@.len() - i,
    {
        let t = current_subtree(&d.modules[i], map, mods);
        proof {
            lemma_forest_push(subs@, t, 1);
            let ms = d.modules@.subrange(0, i + 1);
            assert(ms.subrange(0, ms.len() - 1) == d.modules@.subrange(0, i as int));
        }
        subs.push(t);
        i = i + 1;
    }
    assert(d.modules@.subrange(0, i as int) == d.modules@);
    let ghost sv = subs@;
    let mut leaves = first;
    leaves.append(&mut subs);
    let r = root.with_leaves(leaves);
    proof {
        lemma_tree_two_parts(r, fv, sv, 0);
        assert(nodes_view(tree_nodes(r, 0)) =~= current_module(*map, *d, e));
    }
    r
}

// ---------------------------------------------------------------------------------------------
// The outline lines with folding

/// How the outline folds the module tree.
#[derive(Clone, Copy, Debug, PartialEq, Eq, Structural)]
pub enum FoldKind {
    /// Expand all public items in all modules.
    ExpandAll,
    /// Only expand items under the root module, with submodules folded.
    ExpandZero,
    /// Expand the items of the root module and of the modules directly in it.
    ExpandToFirstLevelModules,
    /// Expand and focus on the current module, with all other modules folded.
    CurrentModule,
}

/// Fold based on the module tree.
pub struct Fold {
    pub kind: FoldKind,
    /// The ids of the modules to expand.
    pub expand: IdSet,
}

impl Default for TreeLines {
    /// The outline of an empty crate, with no lines, expanding all.
    fn default() -> (r: Self)
        ensures
            r.doc.index@.len() == 0,
            r.doc.paths@.len() == 0,
            r.doc.dmod.is_bare(),
            r.lines@.len() == 0,
            r.fold.kind == FoldKind::ExpandAll,
            expanded_ids(r.fold.expand) == Set::<Seq<char>>::empty(),
    {
        TreeLines {
            doc: IDMap::default(),
            lines: Vec::new(),
            fold: Fold { kind: FoldKind::ExpandAll, expand: new_id_set() },
        }
    }
}

/// Outline tree of a crate's public items, with various folds.
pub struct TreeLines {
    pub doc: IDMap,
    pub lines: Vec<TreeLine>,
    pub fold: Fold,
}

/// What each line shows: text, tag, id and level.
pub open spec fn lines_view(lines: Seq<TreeLine>) -> Seq<NodeView> {
    lines.map_values(|l: TreeLine| ((l.name.text@, l.tag, opt_id_view(l.id)), l.level as int))
}

/// Each line's name has its tag's style, and its glyph is gray and is the stripe that the
/// tree of the lines' tags and levels draws before it (`glyphs_drawn`).
pub open spec fn lines_styled(lines: Seq<TreeLine>) -> bool {
    &&& forall|i: int|
        0 <= i < lines.len() ==> {
            &&& (#[trigger] lines[i]).name.style == lines[i].tag.spec_style()
            &&& lines[i].glyph.style == (Style { fg: Some(Color::Gray), ..Style::spec_new() })
        }
    &&& glyphs_drawn(lines)
}

/// The ids of all modules in the tree.
pub open spec fn all_mod_ids(m: DModule) -> Set<Seq<char>>
    decreases m,
{
    set![m.id@] + forest_mod_ids(m.modules@)
}

pub open spec fn forest_mod_ids(ms: Seq<DModule>) -> Set<Seq<char>>
    decreases ms,
{
    if ms.len() == 0 {
        Set::empty()
    } else {
        forest_mod_ids(ms.subrange(0, ms.len() - 1)) + all_mod_ids(ms[ms.len() - 1])
    }
}

/// Whether the id refers to a module, directly or through a `pub use` item.
pub open spec fn refers_to_module(map: IDMap, id: Seq<char>) -> bool {
    match map.spec_get_item(id) {
        Some(item) => match item.inner {
            ItemInner::Module { .. } => true,
            ItemInner::Use { name: _, id: inner } => match inner {
                Some(i) => match map.spec_get_item(i@) {
                    Some(src) => src.inner is Module,
                    None => false,
                },
                None => false,
            },
            _ => false,
        },
        None => false,
    }
}

/// Insert the ids of all modules in the tree.
fn traversal_id(m: &DModule, mods: &mut IdSet)
    requires
    ensures
        expanded_ids(*final(mods)) == expanded_ids(*old(mods)) + all_mod_ids(*m),
    decreases m,
{
    insert_id(mods, m.id.clone());
    let ghost after_root = expanded_ids(*mods);
    let mut i: usize = 0;
    while i < m.modules.len()
        invariant
            i <= m.modules@.len(),
            expanded_ids(*mods) == after_root + forest_mod_ids(m.modules@.subrange(0, i as int)),
        decreases m.modules@.len() - i,
    {
        proof {
            assert(decreases_to!(m => m.modules));
            assert(decreases_to!(m.modules => m.modules@));
            assert(decreases_to!(m.modules@ => m.modules@[i as int]));
            let ms = m.modules@.subrange(0, i + 1);
            assert(ms.subrange(0, ms.len() - 1) == m.modules@.subrange(0, i as int));
        }
        traversal_id(&m.modules[i], mods);
        proof {
            let ms = m.modules@.subrange(0, i + 1);
            assert(expanded_ids(*mods) =~= after_root + forest_mod_ids(ms));
        }
        i = i + 1;
    }
    assert(m.modules@.subrange(0, i as int) == m.modules@);
    assert(expanded_ids(*mods) =~= expanded_ids(*old(mods)) + all_mod_ids(*m));
}

impl Lines for TreeLines {
    type Line = TreeLine;

    open spec fn spec_lines(&self) -> Seq<TreeLine> {
        self.lines@
    }

    fn lines(&self) -> (r: &[TreeLine]) {
        self.lines.as_slice()
    }

    proof fn lemma_lines_len(&self) {
        assert(self.lines@.len() == self.lines.len());
    }
}

/// The outline after expanding all modules with all their items.
pub open spec fn expanded_all(t: TreeLines, r: TreeLines) -> bool {
    &&& r.wf()
    &&& r.doc == t.doc
    &&& r.fold.kind == FoldKind::ExpandAll
    &&& expanded_ids(r.fold.expand) == all_mod_ids(t.doc.dmod)
    &&& lines_view(r.lines@) == item_tree(t.doc, t.doc.dmod, 0)
    &&& lines_styled(r.lines@)
}

/// The outline after expanding all modules with all their items, each data type with its
/// fields, variants and implementations; the fold starts afresh.
pub open spec fn expanded_with_impls(t: TreeLines, r: TreeLines) -> bool {
    &&& r.wf()
    &&& r.doc == t.doc
    &&& r.fold.kind == FoldKind::ExpandAll
    &&& expanded_ids(r.fold.expand) == Set::<Seq<char>>::empty()
    &&& lines_view(r.lines@) == crate::tree::prettier::mod_pretty(t.doc, t.doc.dmod, 0)
    &&& lines_styled(r.lines@)
}

/// The outline after expanding the root module only.
pub open spec fn expanded_zero_level(t: TreeLines, r: TreeLines) -> bool {
    &&& r.wf()
    &&& r.doc == t.doc
    &&& r.fold.kind == FoldKind::ExpandZero
    &&& expanded_ids(r.fold.expand) == set![t.doc.dmod.id@]
    &&& lines_view(r.lines@) == zero_level(t.doc, t.doc.dmod)
    &&& lines_styled(r.lines@)
}

/// The outline after expanding the root module and the modules directly in it.
pub open spec fn expanded_first_level(t: TreeLines, r: TreeLines) -> bool {
    &&& r.wf()
    &&& r.doc == t.doc
    &&& r.fold.kind == FoldKind::ExpandToFirstLevelModules
    &&& expanded_ids(r.fold.expand) == t.doc.dmod.modules@.map_values(|m: DModule| m.id@).to_set()
    &&& lines_view(r.lines@) == r.folded_view(first_level(t.doc, t.doc.dmod, expanded_ids(r.fold.expand)))
    &&& lines_styled(r.lines@)
}

/// Whether toggling the module changes the outline: not while the outline focuses on the
/// current module, and not for an id that is no module.
pub open spec fn toggle_applies(t: TreeLines, id: Seq<char>) -> bool {
    t.fold.kind != FoldKind::CurrentModule && refers_to_module(t.doc, id)
}

/// The outline after toggling the module: unchanged when the toggle does not apply; else the
/// module is expanded if it was folded and folded if it was expanded.
pub open spec fn expanded_toggle(t: TreeLines, id: Seq<char>, r: TreeLines) -> bool {
    &&& r.wf()
    &&& r.doc == t.doc
    &&& r.fold.kind == t.fold.kind
    &&& !toggle_applies(t, id) ==> r == t
    &&& toggle_applies(t, id) ==> {
        &&& expanded_ids(r.fold.expand) == (if expanded_ids(t.fold.expand).contains(id) {
            expanded_ids(t.fold.expand).remove(id)
        } else {
            expanded_ids(t.fold.expand).insert(id)
        })
        &&& lines_view(r.lines@) == r.folded_view(toggled(t.doc, t.doc.dmod, expanded_ids(r.fold.expand)))
        &&& lines_styled(r.lines@)
    }
}

/// The outline after focusing on the module: the fold kind changes anyway; the lines and the
/// set change only when the id is a module.
pub open spec fn expanded_current_module(t: TreeLines, id: Seq<char>, r: TreeLines) -> bool {
    &&& r.wf()
    &&& r.doc == t.doc
    &&& r.fold.kind == FoldKind::CurrentModule
    &&& !refers_to_module(t.doc, id) ==> {
        &&& r.lines == t.lines
        &&& r.fold.expand == t.fold.expand
    }
    &&& refers_to_module(t.doc, id) ==> {
        &&& expanded_ids(r.fold.expand) == set![id]
        &&& lines_view(r.lines@) == current_module(t.doc, t.doc.dmod, set![id])
        &&& lines_styled(r.lines@)
    }
}

impl TreeLines {
    /// The module tree is shallow enough for the line levels.
    pub open spec fn wf(&self) -> bool {
        &&& mods_depth(self.doc.dmod.modules@) <= u8::MAX - 3
    }

    /// The lines that the expanded set gives: all items when the set is empty, else the view
    /// of the current fold.
    pub open spec fn folded_view(&self, view: Seq<NodeView>) -> Seq<NodeView> {
        if expanded_ids(self.fold.expand) == Set::<Seq<char>>::empty() {
            item_tree(self.doc, self.doc.dmod, 0)
        } else {
            view
        }
    }

    /// Replace the lines by those of the tree.
    fn set_lines(&mut self, t: DocTree, Ghost(view): Ghost<Seq<NodeView>>)
        requires
            nodes_view(tree_nodes(t, 0)) == view,
            levels_in(view, 0, u8::MAX - 1),
        ensures
            lines_view(final(self).lines@) == view,
            lines_styled(final(self).lines@),
            final(self).doc == old(self).doc,
            final(self).fold == old(self).fold,
    {
        let ghost nodes = tree_nodes(t, 0);
        proof {
            assert forall|i: int| 0 <= i < nodes.len() implies (#[trigger] nodes[i]).1 <= u8::MAX
                - 1 by {
                assert(nodes_view(nodes)[i] == view[i]);
            }
        }
        let lines = t.cache_lines();
        proof {
            assert(lines_view(lines@) =~= view) by {
                assert forall|i: int| 0 <= i < lines@.len() implies lines_view(lines@)[i]
                    == view[i] by {
                    assert(nodes_view(nodes)[i] == view[i]);
                    assert(0 <= nodes[i].1 <= u8::MAX - 1);
                }
            }
        }
        self.lines = lines;
    }

    /// The whole module tree with all items.
    fn all_items_lines(&mut self)
        requires
            old(self).wf(),
        ensures
            lines_view(final(self).lines@) == item_tree(old(self).doc, old(self).doc.dmod, 0),
            lines_styled(final(self).lines@),
            final(self).doc == old(self).doc,
            final(self).fold == old(self).fold,
    {
        let t = self.doc.dmod.item_tree(&self.doc);
        proof {
            lemma_item_tree_levels(self.doc, self.doc.dmod, 0);
            lemma_item_forest_levels(self.doc, self.doc.dmod.modules@, 1);
        }
        self.set_lines(t, Ghost(item_tree(self.doc, self.doc.dmod, 0)));
    }

    /// Default to the items in the root module with submodules folded.
    pub fn new(doc: IDMap) -> (r: TreeLines)
        requires
            mods_depth(doc.dmod.modules@) <= u8::MAX - 3,
        ensures
            r.wf(),
            r.doc == doc,
            r.fold.kind == FoldKind::ExpandZero,
            expanded_ids(r.fold.expand) == set![doc.dmod.id@],
            lines_view(r.lines@) == zero_level(doc, doc.dmod),
            lines_styled(r.lines@),
    {
        let mut lines = TreeLines {
            doc,
            lines: Vec::new(),
            fold: Fold { kind: FoldKind::ExpandAll, expand: new_id_set() },
        };
        lines.expand_zero_level();
        lines
    }

    pub fn all_lines(&self) -> (r: &[TreeLine])
        ensures
            r@ == self.lines@,
    {
        self.lines.as_slice()
    }

    pub fn dmodule(&self) -> (r: &DModule)
        ensures
            *r == self.doc.dmod,
    {
        &self.doc.dmod
    }

    pub fn idmap(&self) -> (r: &IDMap)
        ensures
            *r == self.doc,
    {
        &self.doc
    }

    /// Expand all modules with all their items.
    pub fn expand_all(&mut self)
        requires
            old(self).wf(),
        ensures
            expanded_all(*old(self), *final(self)),
    {
        self.fold.kind = FoldKind::ExpandAll;
        let mut mods = new_id_set();
        assert(expanded_ids(mods) =~= Set::<Seq<char>>::empty());
        traversal_id(&self.doc.dmod, &mut mods);
        self.fold.expand = mods;
        assert(expanded_ids(self.fold.expand) =~= all_mod_ids(self.doc.dmod));
        self.all_items_lines();
    }

    /// Expand all module items including data types' fields, variants and implementations
    /// and traits' implementors.
    #[verifier::spinoff_prover]
    #[verifier::rlimit(30)]
    pub fn expand_all_including_impls(&mut self)
        requires
            mods_depth(old(self).doc.dmod.modules@) <= u8::MAX - 7,
        ensures
            expanded_with_impls(*old(self), *final(self)),
    {
        let t = self.doc.dmodule_show_prettier();
        proof {
            crate::tree::prettier::lemma_mod_pretty_within(self.doc, self.doc.dmod);
        }
        self.fold = Fold { kind: FoldKind::ExpandAll, expand: new_id_set() };
        self.set_lines(t, Ghost(crate::tree::prettier::mod_pretty(self.doc, self.doc.dmod, 0)));
    }

    /// Expand the items in the root module, with submodules folded.
    pub fn expand_zero_level(&mut self)
        requires
            mods_depth(old(self).doc.dmod.modules@) <= u8::MAX - 3,
        ensures
            expanded_zero_level(*old(self), *final(self)),
    {
        self.fold.kind = FoldKind::ExpandZero;
        let mut mods = new_id_set();
        assert(expanded_ids(mods) =~= Set::<Seq<char>>::empty());
        insert_id(&mut mods, self.doc.dmod.id.clone());
        self.fold.expand = mods;
        assert(expanded_ids(self.fold.expand) =~= set![self.doc.dmod.id@]);
        assert(expanded_ids(self.fold.expand) != Set::<Seq<char>>::empty()) by {
            assert(expanded_ids(self.fold.expand).contains(self.doc.dmod.id@));
        }
        let t = zero_level_tree(&self.doc.dmod, &self.doc);
        proof {
            let map = self.doc;
            let d = self.doc.dmod;
            lemma_one_mod_levels(map, d, 0);
            lemma_levels_concat(one_mod(map, d, 0), at_level(folded(map, d.modules@), 1), 0, 1);
            lemma_levels_widen(zero_level(map, d), 0, 1, 0, u8::MAX - 1);
        }
        self.set_lines(t, Ghost(zero_level(self.doc, self.doc.dmod)));
    }

    /// Expand the items of the root module and of the modules directly in it.
    pub fn expand_to_first_level_modules(&mut self)
        requires
            old(self).wf(),
        ensures
            expanded_first_level(*old(self), *final(self)),
    {
        self.fold.kind = FoldKind::ExpandToFirstLevelModules;
        let mut mods = new_id_set();
        let ghost ms = self.doc.dmod.modules@;
        let mut i: usize = 0;
        assert(expanded_ids(mods) =~= ms.subrange(0, 0).map_values(|m: DModule| m.id@).to_set());
        while i < self.doc.dmod.modules.len()
            invariant
                ms == self.doc.dmod.modules@,
                i <= ms.len(),
                    expanded_ids(mods) == ms.subrange(0, i as int).map_values(|m: DModule| m.id@).to_set(),
            decreases ms.len() - i,
        {
            insert_id(&mut mods, self.doc.dmod.modules[i].id.clone());
            proof {
                let a = ms.subrange(0, i as int).map_values(|m: DModule| m.id@);
                let b = ms.subrange(0, i + 1).map_values(|m: DModule| m.id@);
                assert(b == a.push(ms[i as int].id@));
                assert(b.to_set() =~= a.to_set().insert(ms[i as int].id@)) by {
                    assert forall|s: Seq<char>| b.to_set().contains(s) implies a.to_set().insert(
                        ms[i as int].id@,
                    ).contains(s) by {
                        let k = choose|k: int| 0 <= k < b.len() && b[k] == s;
                        if k < a.len() {
                            assert(a[k] == s);
                        }
                    }
                    assert forall|s: Seq<char>| a.to_set().insert(ms[i as int].id@).contains(
                        s,
                    ) implies b.to_set().contains(s) by {
                        if s == ms[i as int].id@ {
                            assert(b[i as int] == s);
                        } else {
                            let k = choose|k: int| 0 <= k < a.len() && a[k] == s;
                            assert(b[k] == s);
                        }
                    }
                }
            }
            i = i + 1;
        }
        assert(ms.subrange(0, i as int) == ms);
        self.fold.expand = mods;
        self.update_cached_first_level();
    }

    fn update_cached_first_level(&mut self)
        requires
            old(self).wf(),
        ensures
            final(self).doc == old(self).doc,
            final(self).fold == old(self).fold,
            lines_view(final(self).lines@) == old(self).folded_view(
                first_level(old(self).doc, old(self).doc.dmod, expanded_ids(old(self).fold.expand)),
            ),
            lines_styled(final(self).lines@),
    {
        if id_set_is_empty(&self.fold.expand) {
            self.all_items_lines();
            return;
        }
        let t = first_level_tree(&self.doc.dmod, &self.doc, &self.fold.expand);
        proof {
            let map = self.doc;
            let d = self.doc.dmod;
            let e = expanded_ids(self.fold.expand);
            lemma_one_mod_levels(map, d, 0);
            lemma_first_forest_levels(map, d.modules@, 1, e);
            lemma_levels_widen(one_mod(map, d, 0), 0, 1, 0, 2);
            lemma_levels_widen(first_forest(map, d.modules@, 1, e), 1, 2, 0, 2);
            lemma_levels_concat(one_mod(map, d, 0), first_forest(map, d.modules@, 1, e), 0, 2);
        }
        self.set_lines(t, Ghost(first_level(self.doc, self.doc.dmod, expanded_ids(self.fold.expand))));
    }

    /// Whether the id refers to a module, or to a `use` of one.
    fn check_id(&self, id: &ID) -> (r: bool)
        ensures
            r == refers_to_module(self.doc, id@),
    {
        match self.doc.get_item(id) {
            Some(item) => match &item.inner {
                ItemInner::Module { .. } => true,
                ItemInner::Use { name: _, id: inner } => match inner {
                    Some(i) => match self.doc.get_item(i) {
                        Some(src) => match &src.inner {
                            ItemInner::Module { .. } => true,
                            _ => false,
                        },
                        None => false,
                    },
                    None => false,
                },
                _ => false,
            },
            None => false,
        }
    }

    /// Expand a folded module or fold an expanded one; nothing changes while the outline
    /// focuses on the current module, or when the id is no module.
    pub fn expand_toggle(&mut self, id: ID)
        requires
            old(self).wf(),
        ensures
            expanded_toggle(*old(self), id@, *final(self)),
    {
        if self.fold.kind == FoldKind::CurrentModule {
            return;
        }
        if !self.check_id(&id) {
            return;
        }
        if contains_id(&self.fold.expand, &id) {
            remove_id(&mut self.fold.expand, &id);
        } else {
            insert_id(&mut self.fold.expand, id);
        }
        if id_set_is_empty(&self.fold.expand) {
            self.all_items_lines();
            return;
        }
        let t = toggled_tree(&self.doc.dmod, &self.doc, &self.fold.expand);
        proof {
            let map = self.doc;
            let d = self.doc.dmod;
            let e = expanded_ids(self.fold.expand);
            lemma_one_mod_levels(map, d, 0);
            lemma_toggle_forest_levels(map, d.modules@, 1, e);
            let hi: int = 1 + mods_depth(d.modules@) as int;
            lemma_levels_widen(one_mod(map, d, 0), 0, 1, 0, hi);
            lemma_levels_widen(toggle_forest(map, d.modules@, 1, e), 1, hi, 0, hi);
            lemma_levels_concat(one_mod(map, d, 0), toggle_forest(map, d.modules@, 1, e), 0, hi);
            lemma_levels_widen(toggled(map, d, e), 0, hi, 0, u8::MAX - 1);
        }
        self.set_lines(t, Ghost(toggled(self.doc, self.doc.dmod, expanded_ids(self.fold.expand))));
    }

    /// Focus on the module: show its items, with all other modules folded. The fold kind is
    /// set first, so it changes even when the id is no module.
    pub fn expand_current_module_only(&mut self, id: ID)
        requires
            old(self).wf(),
        ensures
            expanded_current_module(*old(self), id@, *final(self)),
    {
        self.fold.kind = FoldKind::CurrentModule;
        if !self.check_id(&id) {
            return;
        }
        let mut mods = new_id_set();
        assert(expanded_ids(mods) =~= Set::<Seq<char>>::empty());
        insert_id(&mut mods, id);
        self.fold.expand = mods;
        assert(expanded_ids(self.fold.expand) =~= set![id@]);
        let t = current_module_tree(&self.doc.dmod, &self.doc, &self.fold.expand);
        proof {
            let map = self.doc;
            let d = self.doc.dmod;
            let e = expanded_ids(self.fold.expand);
            lemma_current_forest_levels(map, d.modules@, 1, e);
            let hi: int = 1 + mods_depth(d.modules@) as int;
            let head = seq![(mod_root(map, d, Tag::Module), 0int)] + (if e.contains(d.id@) {
                at_level(mod_items(map, d), 1)
            } else {
                seq![]
            });
            lemma_levels_concat(
                seq![(mod_root(map, d, Tag::Module), 0int)],
                (if e.contains(d.id@) {
                    at_level(mod_items(map, d), 1)
                } else {
                    seq![]
                }),
                0,
                hi,
            );
            lemma_levels_widen(current_forest(map, d.modules@, 1, e), 1, hi, 0, hi);
            lemma_levels_concat(head, current_forest(map, d.modules@, 1, e), 0, hi);
            lemma_levels_widen(current_module(map, d, e), 0, hi, 0, u8::MAX - 1);
        }
        self.set_lines(t, Ghost(current_module(self.doc, self.doc.dmod, expanded_ids(self.fold.expand))));
    }
}
/// Toggling the same module twice gives back the modules that were expanded, and the
/// outline then shows them as a toggle would.
pub proof fn law_toggle_twice(t: TreeLines, id: Seq<char>, r1: TreeLines, r2: TreeLines)
    requires
        expanded_toggle(t, id, r1),
        expanded_toggle(r1, id, r2),
    ensures
        expanded_ids(r2.fold.expand) == expanded_ids(t.fold.expand),
        r2.doc == t.doc,
        r2.fold.kind == t.fold.kind,
        toggle_applies(t, id) ==> lines_view(r2.lines@) == r2.folded_view(toggled(t.doc, t.doc.dmod, expanded_ids(t.fold.expand))),
        !toggle_applies(t, id) ==> r2 == t,
{
    if toggle_applies(t, id) {
        assert(toggle_applies(r1, id));
        let s = expanded_ids(t.fold.expand);
        if s.contains(id) {
            assert(s.remove(id).insert(id) =~= s);
        } else {
            assert(s.insert(id).remove(id) =~= s);
        }
    }
}

/// The outline as plain text: each line's glyph and name, then a newline.
pub open spec fn plain_text(lines: Seq<TreeLine>) -> Seq<char>
    decreases lines.len(),
{
    if lines.len() == 0 {
        seq![]
    } else {
        plain_text(lines.drop_last()) + lines.last().glyph.text@ + lines.last().name.text@ + seq!['\n']
    }
}

proof fn lemma_plain_text_prefix(lines: Seq<TreeLine>, t: DocTree, n: int)
    requires
        0 <= n <= lines.len(),
        lines_show(lines, tree_nodes(t, 0)),
        glyphs_drawn(lines),
        same_shape(doc_rows(t), lines_rows(lines, 0)),
    ensures
        plain_text(lines.take(n)) == display_upto(doc_rows(t), n),
    decreases n,
{
    if n > 0 {
        lemma_plain_text_prefix(lines, t, n - 1);
        let k = n - 1;
        let nodes = tree_nodes(t, 0);
        assert(lines.take(n).drop_last() =~= lines.take(k));
        assert(lines.take(n).last() == lines[k]);
        assert(line_shows(nodes[k].0, nodes[k].1 as u8, lines[k]));
        if k > 0 {
            lemma_glyph_line_shape(doc_rows(t), lines_rows(lines, 0), k);
        }
        assert(glyph_line(doc_rows(t), k) == lines[k].glyph.text@ + lines[k].name.text@);
    }
}

/// The plain text of the lines drawn for a tree (each line's glyph, its name and a line
/// break) is the tree's display.
pub proof fn law_plain_text_is_display(lines: Seq<TreeLine>, t: DocTree)
    requires
        lines_show(lines, tree_nodes(t, 0)),
        glyphs_drawn(lines),
        forall|i: int| 0 <= i < tree_nodes(t, 0).len() ==> 0 <= (#[trigger] tree_nodes(t, 0)[i]).1 <= u8::MAX,
    ensures
        plain_text(lines) == tree_display(t),
{
    let nodes = tree_nodes(t, 0);
    let a = doc_rows(t);
    let b = lines_rows(lines, 0);
    assert forall|k: int| 0 <= k < a.len() implies (#[trigger] a[k]).1 == b[k].1 && a[k].2 == b[k].2 by {
        assert(line_shows(nodes[k].0, nodes[k].1 as u8, lines[k]));
        assert(0 <= nodes[k].1 <= u8::MAX);
    }
    lemma_plain_text_prefix(lines, t, lines.len() as int);
    assert(lines.take(lines.len() as int) =~= lines);
}

/// The nodes as the tree display draws them: each node's text with its tag's glyphs, at its
/// level.
pub open spec fn view_rows(v: Seq<NodeView>) -> Seq<GlyphRow> {
    v.map_values(|n: NodeView| (n.0.0, Some(palette_view(n.0.1.spec_glyph())), n.1, false))
}

/// The display of the tree whose nodes, in display order, are the views: a line for each,
/// its ancestors' stripes, its glyph and its text, then a line break.
pub open spec fn view_display(v: Seq<NodeView>) -> Seq<char> {
    display_upto(view_rows(v), v.len() as int)
}

proof fn lemma_plain_text_view_prefix(lines: Seq<TreeLine>, n: int)
    requires
        0 <= n <= lines.len(),
        glyphs_drawn(lines),
        same_shape(view_rows(lines_view(lines)), lines_rows(lines, 0)),
    ensures
        plain_text(lines.take(n)) == display_upto(view_rows(lines_view(lines)), n),
    decreases n,
{
    if n > 0 {
        lemma_plain_text_view_prefix(lines, n - 1);
        let k = n - 1;
        assert(lines.take(n).drop_last() =~= lines.take(k));
        assert(lines.take(n).last() == lines[k]);
        if k > 0 {
            lemma_glyph_line_shape(view_rows(lines_view(lines)), lines_rows(lines, 0), k);
        }
        assert(glyph_line(view_rows(lines_view(lines)), k) == lines[k].glyph.text@ + lines[k].name.text@);
    }
}

/// The plain text of drawn lines is the display of the tree that the lines show: the texts,
/// tags and levels of the lines, drawn by termtree's layout.
pub proof fn law_plain_text_is_view_display(lines: Seq<TreeLine>)
    requires
        glyphs_drawn(lines),
    ensures
        plain_text(lines) == view_display(lines_view(lines)),
{
    let a = view_rows(lines_view(lines));
    let b = lines_rows(lines, 0);
    assert forall|k: int| 0 <= k < a.len() implies (#[trigger] a[k]).1 == b[k].1 && a[k].2 == b[k].2 by {}
    lemma_plain_text_view_prefix(lines, lines.len() as int);
    assert(lines.take(lines.len() as int) =~= lines);
}

impl TreeLines {
    /// The outline as plain text: each line's glyph and name, then a newline. For drawn
    /// lines (as every fold leaves them) this is the display of the tree the lines show.
    pub fn display_as_plain_text(&self) -> (r: String)
        ensures
            r@ == plain_text(self.lines@),
            lines_styled(self.lines@) ==> r@ == view_display(lines_view(self.lines@)),
    {
        proof {
            if lines_styled(self.lines@) {
                law_plain_text_is_view_display(self.lines@);
            }
        }
        let mut buf = String::new();
        let mut i: usize = 0;
        while i < self.lines.len()
            invariant
                i <= self.lines@.len(),
                buf@ == plain_text(self.lines@.subrange(0, i as int)),
            decreases self.lines@.len() - i,
        {
            crate::util::string_push_str(&mut buf, self.lines[i].glyph.text.as_str());
            crate::util::string_push_str(&mut buf, self.lines[i].name.text.as_str());
            crate::util::string_push(&mut buf, '\n');
            proof {
                let p = self.lines@.subrange(0, i + 1);
                assert(p.drop_last() =~= self.lines@.subrange(0, i as int));
                assert(p.last() == self.lines@[i as int]);
                assert(buf@ =~= plain_text(p));
            }
            i = i + 1;
        }
        assert(self.lines@.subrange(0, i as int) =~= self.lines@);
        buf
    }
}

} // verus!
