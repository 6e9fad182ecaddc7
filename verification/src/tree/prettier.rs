use vstd::prelude::*;
use crate::tree::construct::{by_name, copy_ids, data_kind, ids_seq, sort_ids_by_name, DataItemKind};
use crate::tree::doctree::DocTree;
use crate::tree::id::ID;
use crate::tree::idmap::IDMap;
use crate::tree::nodes::{DEnum, DImpl, DImplInner, DModule, DStruct, DTrait, DUnion};
use crate::tree::outline::{
    at_level, ids_of, item_tree, leafy, lemma_depth_last, lemma_levels_concat, lemma_levels_widen,
    levels_in, mods_depth, lemma_forest_concat, lemma_forest_leafy, lemma_forest_push, named,
    nodes_view, push_named, roots_view, text_tag_view, HasId, NodeView, RootView,
};
use crate::tree::tag::Tag;
use crate::tree::textline::{forest_nodes, tree_nodes};

verus! {

/// A heading node of a tag.
pub open spec fn heading(tag: Tag) -> RootView {
    (tag.spec_heading_text()->0, tag, None)
}

/// An item's node shown by its path.
pub open spec fn path_root(map: IDMap, id: Seq<char>, tag: Tag) -> RootView {
    (map.spec_path(id), tag, Some(id))
}

/// An item's node shown by its name.
pub open spec fn name_root(map: IDMap, id: Seq<char>, tag: Tag) -> RootView {
    (map.spec_name(id), tag, Some(id))
}

/// A heading with the named items under it.
pub open spec fn titled(map: IDMap, title: Tag, tag: Tag, ids: Seq<Seq<char>>, level: int) -> Seq<
    NodeView,
> {
    seq![(heading(title), level)] + at_level(named(map, tag, ids), level + 1)
}

/// A heading with the named items under it, or nothing when there are no items.
pub open spec fn titled_if_any(
    map: IDMap,
    title: Tag,
    tag: Tag,
    ids: Seq<Seq<char>>,
    level: int,
) -> Seq<NodeView> {
    if ids.len() == 0 {
        seq![]
    } else {
        titled(map, title, tag, ids, level)
    }
}

/// The items of an impl block: constants, then types, then functions.
pub open spec fn impl_items(map: IDMap, b: DImplInner) -> Seq<RootView> {
    named(map, Tag::Constant, ids_seq(b.constants@)) + named(map, Tag::TypeAlias, ids_seq(b.types@))
        + named(map, Tag::Function, ids_seq(b.functions@))
}

/// An impl block by its name, with its items under it.
pub open spec fn impl_block(map: IDMap, b: DImplInner, tag: Tag, level: int) -> Seq<NodeView> {
    seq![(name_root(map, b.id@, tag), level)] + at_level(impl_items(map, b), level + 1)
}

/// Impl blocks one after another.
pub open spec fn impl_blocks(map: IDMap, bs: Seq<DImplInner>, tag: Tag, level: int) -> Seq<NodeView>
    decreases bs.len(),
{
    if bs.len() == 0 {
        seq![]
    } else {
        impl_blocks(map, bs.drop_last(), tag, level) + impl_block(map, bs.last(), tag, level)
    }
}

/// A heading over impl blocks, or nothing when there are none.
pub open spec fn impl_group(map: IDMap, title: Tag, tag: Tag, bs: Seq<DImplInner>, level: int) -> Seq<
    NodeView,
> {
    if bs.len() == 0 {
        seq![]
    } else {
        seq![(heading(title), level)] + impl_blocks(map, bs, tag, level + 1)
    }
}

/// The implementations of a data type as the fancier tree shows them.
pub open spec fn impl_pretty(map: IDMap, d: DImpl, level: int) -> Seq<NodeView> {
    if d.spec_is_empty() {
        seq![(heading(Tag::NoImpls), level)]
    } else {
        let inherent = if d.merged_inherent.spec_is_empty() {
            seq![]
        } else {
            seq![(heading(Tag::InherentImpls), level + 1)] + at_level(
                impl_items(map, d.merged_inherent),
                level + 2,
            )
        };
        seq![(heading(Tag::Implementations), level)] + inherent + impl_group(
            map,
            Tag::TraitImpls,
            Tag::ImplTrait,
            d.trait_@,
            level + 1,
        ) + impl_group(map, Tag::AutoImpls, Tag::ImplAuto, d.auto@, level + 1) + impl_group(
            map,
            Tag::BlanketImpls,
            Tag::ImplBlanket,
            d.blanket@,
            level + 1,
        )
    }
}

impl HasId for ID {
    open spec fn spec_id(&self) -> ID {
        *self
    }

    fn item_id(&self) -> (r: &ID) {
        self
    }
}

proof fn lemma_ids_of_ids(v: Seq<ID>)
    ensures
        ids_of(v) == ids_seq(v),
{
    assert(ids_of(v) =~= ids_seq(v));
}

/// A tree with no leaves shows its root alone.
pub(crate) proof fn lemma_single(t: DocTree, level: int)
    requires
        t.leaves@.len() == 0,
    ensures
        nodes_view(tree_nodes(t, level)) == seq![(text_tag_view(t.root), level)],
{
    assert(forest_nodes(t.leaves@, level + 1) == Seq::<(crate::tree::doctree::TextTag, int)>::empty());
    assert(nodes_view(tree_nodes(t, level)) =~= seq![(text_tag_view(t.root), level)]);
}

/// The heading node of a tag that has a heading text.
pub(crate) fn heading_node(tag: Tag) -> (r: DocTree)
    requires
        tag.spec_heading_text() is Some,
    ensures
        r.leaves@.len() == 0,
        text_tag_view(r.root) == heading(tag),
        forall|level: int| nodes_view(#[trigger] tree_nodes(r, level)) == seq![(heading(tag), level)],
{
    let r = tag.show();
    assert forall|level: int| nodes_view(#[trigger] tree_nodes(r, level)) == seq![
        (heading(tag), level),
    ] by {
        lemma_single(r, level);
    }
    r
}

/// An item's node shown by its path.
fn path_node(map: &IDMap, id: &ID, tag: Tag) -> (r: DocTree)
    ensures
        r.leaves@.len() == 0,
        text_tag_view(r.root) == path_root(*map, id@, tag),
{
    DocTree::new(map.path(id), tag, Some(id.clone()))
}

/// The nodes of the items with the ids, shown by their names under the tag.
pub fn show_names(ids: &Vec<ID>, tag: Tag, map: &IDMap) -> (r: Vec<DocTree>)
    ensures
        leafy(r@),
        roots_view(r@) == named(*map, tag, ids_seq(ids@)),
{
    let mut out: Vec<DocTree> = Vec::new();
    assert(roots_view(out@) =~= Seq::<RootView>::empty());
    push_named(&mut out, ids, tag, map);
    proof {
        lemma_ids_of_ids(ids@);
        assert(roots_view(out@) =~= named(*map, tag, ids_seq(ids@)));
    }
    out
}

/// Append a tree to a forest.
pub(crate) fn push_tree(out: &mut Vec<DocTree>, t: DocTree)
    ensures
        forall|level: int| nodes_view(#[trigger] forest_nodes(final(out)@, level)) == nodes_view(
            forest_nodes(old(out)@, level),
        ) + nodes_view(tree_nodes(t, level)),
{
    let ghost before = out@;
    out.push(t);
    assert forall|level: int| nodes_view(#[trigger] forest_nodes(out@, level)) == nodes_view(
        forest_nodes(before, level),
    ) + nodes_view(tree_nodes(t, level)) by {
        lemma_forest_push(before, t, level);
    }
}

/// Append trees without leaves to a forest.
pub(crate) fn push_leaves(out: &mut Vec<DocTree>, ts: Vec<DocTree>)
    requires
        leafy(ts@),
    ensures
        forall|level: int| nodes_view(#[trigger] forest_nodes(final(out)@, level)) == nodes_view(
            forest_nodes(old(out)@, level),
        ) + at_level(roots_view(ts@), level),
{
    let ghost before = out@;
    let ghost tv = ts@;
    let mut ts = ts;
    out.append(&mut ts);
    assert forall|level: int| nodes_view(#[trigger] forest_nodes(out@, level)) == nodes_view(
        forest_nodes(before, level),
    ) + at_level(roots_view(tv), level) by {
        lemma_forest_concat(before, tv, level);
        lemma_forest_leafy(tv, level);
        assert(out@ == before + tv);
        assert(nodes_view(forest_nodes(out@, level)) =~= nodes_view(forest_nodes(before, level))
            + nodes_view(forest_nodes(tv, level)));
    }
}

/// A tree from a root without leaves and a forest under it.
pub(crate) fn tree_with(root: DocTree, leaves: Vec<DocTree>) -> (r: DocTree)
    requires
        root.leaves@.len() == 0,
    ensures
        r.root == root.root,
        forall|level: int| nodes_view(#[trigger] tree_nodes(r, level)) == seq![
            (text_tag_view(root.root), level),
        ] + nodes_view(forest_nodes(leaves@, level + 1)),
{
    let r = root.with_leaves(leaves);
    assert forall|level: int| nodes_view(#[trigger] tree_nodes(r, level)) == seq![
        (text_tag_view(root.root), level),
    ] + nodes_view(forest_nodes(leaves@, level + 1)) by {
        assert(nodes_view(tree_nodes(r, level)) =~= seq![(text_tag_view(root.root), level)]
            + nodes_view(forest_nodes(leaves@, level + 1)));
    }
    r
}

/// A heading over the named items.
fn titled_tree(title: Tag, tag: Tag, ids: &Vec<ID>, map: &IDMap) -> (r: DocTree)
    requires
        title.spec_heading_text() is Some,
    ensures
        forall|level: int| nodes_view(#[trigger] tree_nodes(r, level)) == titled(
            *map,
            title,
            tag,
            ids_seq(ids@),
            level,
        ),
{
    let root = heading_node(title);
    let leaves = show_names(ids, tag, map);
    let ghost lv = leaves@;
    let r = tree_with(root, leaves);
    assert forall|level: int| nodes_view(#[trigger] tree_nodes(r, level)) == titled(
        *map,
        title,
        tag,
        ids_seq(ids@),
        level,
    ) by {
        lemma_forest_leafy(lv, level + 1);
    }
    r
}

/// Every function of the blocks, block after block.
pub open spec fn all_functions(bs: Seq<DImplInner>) -> Seq<ID>
    decreases bs.len(),
{
    if bs.len() == 0 {
        seq![]
    } else {
        all_functions(bs.drop_last()) + bs.last().functions@
    }
}

/// Every constant of the blocks, block after block.
pub open spec fn all_constants(bs: Seq<DImplInner>) -> Seq<ID>
    decreases bs.len(),
{
    if bs.len() == 0 {
        seq![]
    } else {
        all_constants(bs.drop_last()) + bs.last().constants@
    }
}

/// Every type of the blocks, block after block.
pub open spec fn all_types(bs: Seq<DImplInner>) -> Seq<ID>
    decreases bs.len(),
{
    if bs.len() == 0 {
        seq![]
    } else {
        all_types(bs.drop_last()) + bs.last().types@
    }
}

/// Append copies of ids.
fn append_ids(out: &mut Vec<ID>, ids: &Vec<ID>)
    ensures
        final(out)@ == old(out)@ + ids@,
{
    let mut copy = copy_ids(ids);
    out.append(&mut copy);
}

impl DImplInner {
    /// The items of the block as named nodes: constants, types, then functions.
    pub fn show_prettier_iter(&self, map: &IDMap) -> (r: Vec<DocTree>)
        ensures
            leafy(r@),
            roots_view(r@) == impl_items(*map, *self),
    {
        let mut out: Vec<DocTree> = Vec::new();
        assert(roots_view(out@) =~= Seq::<RootView>::empty());
        push_named(&mut out, &self.constants, Tag::Constant, map);
        push_named(&mut out, &self.types, Tag::TypeAlias, map);
        push_named(&mut out, &self.functions, Tag::Function, map);
        proof {
            lemma_ids_of_ids(self.constants@);
            lemma_ids_of_ids(self.types@);
            lemma_ids_of_ids(self.functions@);
            assert(roots_view(out@) =~= impl_items(*map, *self));
        }
        out
    }

    /// The block by its name under the given tag, with its items under it.
    pub fn show_prettier(&self, tag: Tag, map: &IDMap) -> (r: DocTree)
        ensures
            forall|level: int| nodes_view(#[trigger] tree_nodes(r, level)) == impl_block(
                *map,
                *self,
                tag,
                level,
            ),
    {
        let root = DocTree::new(map.name(&self.id), tag, Some(self.id.clone()));
        let leaves = self.show_prettier_iter(map);
        let ghost lv = leaves@;
        let r = tree_with(root, leaves);
        assert forall|level: int| nodes_view(#[trigger] tree_nodes(r, level)) == impl_block(
            *map,
            *self,
            tag,
            level,
        ) by {
            lemma_forest_leafy(lv, level + 1);
        }
        r
    }

    /// The items of all the blocks in one block, each kind sorted by name; its id is the first
    /// id.
    pub fn merge_inherent_impls(impls: &Vec<DImplInner>, map: &IDMap) -> (r: DImplInner)
        ensures
            r.id@ == "0"@,
            r.functions@ == by_name(*map, all_functions(impls@)),
            r.constants@ == by_name(*map, all_constants(impls@)),
            r.types@ == by_name(*map, all_types(impls@)),
    {
        let mut functions: Vec<ID> = Vec::new();
        let mut constants: Vec<ID> = Vec::new();
        let mut types: Vec<ID> = Vec::new();
        let mut i: usize = 0;
        while i < impls.len()
            invariant
                i <= impls@.len(),
                functions@ == all_functions(impls@.subrange(0, i as int)),
                constants@ == all_constants(impls@.subrange(0, i as int)),
                types@ == all_types(impls@.subrange(0, i as int)),
            decreases impls@.len() - i,
        {
            proof {
                let s = impls@.subrange(0, i + 1);
                assert(s.drop_last() == impls@.subrange(0, i as int));
                assert(s.last() == impls@[i as int]);
            }
            append_ids(&mut functions, &impls[i].functions);
            append_ids(&mut constants, &impls[i].constants);
            append_ids(&mut types, &impls[i].types);
            i = i + 1;
        }
        assert(impls@.subrange(0, i as int) == impls@);
        let id = ID::new("0");
        DImplInner {
            id,
            functions: sort_ids_by_name(functions, map),
            constants: sort_ids_by_name(constants, map),
            types: sort_ids_by_name(types, map),
        }
    }
}

/// Push each block's tree.
fn push_blocks(out: &mut Vec<DocTree>, bs: &Vec<DImplInner>, tag: Tag, map: &IDMap)
    ensures
        forall|level: int| nodes_view(#[trigger] forest_nodes(final(out)@, level)) == nodes_view(
            forest_nodes(old(out)@, level),
        ) + impl_blocks(*map, bs@, tag, level),
{
    let ghost start = out@;
    let mut i: usize = 0;
    while i < bs.len()
        invariant
            i <= bs@.len(),
            forall|level: int| nodes_view(#[trigger] forest_nodes(out@, level)) == nodes_view(
                forest_nodes(start, level),
            ) + impl_blocks(*map, bs@.subrange(0, i as int), tag, level),
        decreases bs@.len() - i,
    {
        let t = bs[i].show_prettier(tag, map);
        push_tree(out, t);
        proof {
            let s = bs@.subrange(0, i + 1);
            assert(s.drop_last() == bs@.subrange(0, i as int));
            assert(s.last() == bs@[i as int]);
            assert forall|level: int| nodes_view(#[trigger] forest_nodes(out@, level)) == nodes_view(
                forest_nodes(start, level),
            ) + impl_blocks(*map, s, tag, level) by {
                assert(impl_blocks(*map, s, tag, level) == impl_blocks(
                    *map,
                    bs@.subrange(0, i as int),
                    tag,
                    level,
                ) + impl_block(*map, bs@[i as int], tag, level));
                assert(nodes_view(forest_nodes(out@, level)) =~= nodes_view(
                    forest_nodes(start, level),
                ) + impl_blocks(*map, s, tag, level));
            }
        }
        i = i + 1;
    }
    assert(bs@.subrange(0, i as int) == bs@);
}

/// A heading over impl blocks, pushed when there are any.
fn push_impl_group(out: &mut Vec<DocTree>, title: Tag, tag: Tag, bs: &Vec<DImplInner>, map: &IDMap)
    requires
        title.spec_heading_text() is Some,
    ensures
        forall|level: int| nodes_view(#[trigger] forest_nodes(final(out)@, level)) == nodes_view(
            forest_nodes(old(out)@, level),
        ) + impl_group(*map, title, tag, bs@, level),
{
    if bs.len() > 0 {
        let root = heading_node(title);
        let mut leaves: Vec<DocTree> = Vec::new();
        assert(forall|level: int| #[trigger] forest_nodes(leaves@, level) == Seq::<(crate::tree::doctree::TextTag, int)>::empty());
        push_blocks(&mut leaves, bs, tag, map);
        let ghost lv = leaves@;
        let t = tree_with(root, leaves);
        let ghost before = out@;
        push_tree(out, t);
        assert forall|level: int| nodes_view(#[trigger] forest_nodes(out@, level)) == nodes_view(
            forest_nodes(before, level),
        ) + impl_group(*map, title, tag, bs@, level) by {
            assert(nodes_view(forest_nodes(lv, level + 1)) =~= impl_blocks(*map, bs@, tag, level + 1));
            assert(nodes_view(forest_nodes(out@, level)) =~= nodes_view(forest_nodes(before, level))
                + impl_group(*map, title, tag, bs@, level));
        }
    } else {
        assert forall|level: int| nodes_view(#[trigger] forest_nodes(out@, level)) == nodes_view(
            forest_nodes(out@, level),
        ) + impl_group(*map, title, tag, bs@, level) by {
            assert(nodes_view(forest_nodes(out@, level)) =~= nodes_view(forest_nodes(out@, level))
                + impl_group(*map, title, tag, bs@, level));
        }
    }
}

impl DImpl {
    /// The implementations under their kinds, or a notice that there are none.
    pub fn show_prettier(&self, map: &IDMap) -> (r: DocTree)
        ensures
            forall|level: int| nodes_view(#[trigger] tree_nodes(r, level)) == impl_pretty(
                *map,
                *self,
                level,
            ),
    {
        if self.is_empty() {
            return heading_node(Tag::NoImpls);
        }
        let root = heading_node(Tag::Implementations);
        let mut leaves: Vec<DocTree> = Vec::new();
        let ghost empty = leaves@;
        assert(forall|level: int| #[trigger] forest_nodes(empty, level) == Seq::<(crate::tree::doctree::TextTag, int)>::empty());
        if !self.merged_inherent.is_empty() {
            let t = titled_items(Tag::InherentImpls, &self.merged_inherent, map);
            push_tree(&mut leaves, t);
        }
        let ghost after_inherent = leaves@;
        push_impl_group(&mut leaves, Tag::TraitImpls, Tag::ImplTrait, &self.trait_, map);
        push_impl_group(&mut leaves, Tag::AutoImpls, Tag::ImplAuto, &self.auto, map);
        push_impl_group(&mut leaves, Tag::BlanketImpls, Tag::ImplBlanket, &self.blanket, map);
        let ghost lv = leaves@;
        let r = tree_with(root, leaves);
        assert forall|level: int| nodes_view(#[trigger] tree_nodes(r, level)) == impl_pretty(
            *map,
            *self,
            level,
        ) by {
            assert(nodes_view(tree_nodes(r, level)) =~= impl_pretty(*map, *self, level));
        }
        r
    }
}

/// A heading over the items of an impl block.
fn titled_items(title: Tag, b: &DImplInner, map: &IDMap) -> (r: DocTree)
    requires
        title.spec_heading_text() is Some,
    ensures
        forall|level: int| nodes_view(#[trigger] tree_nodes(r, level)) == seq![
            (heading(title), level),
        ] + at_level(impl_items(*map, *b), level + 1),
{
    let root = heading_node(title);
    let leaves = b.show_prettier_iter(map);
    let ghost lv = leaves@;
    let r = tree_with(root, leaves);
    assert forall|level: int| nodes_view(#[trigger] tree_nodes(r, level)) == seq![
        (heading(title), level),
    ] + at_level(impl_items(*map, *b), level + 1) by {
        lemma_forest_leafy(lv, level + 1);
    }
    r
}

/// The fields part of a struct's fancier tree.
pub open spec fn struct_fields_part(map: IDMap, s: DStruct, level: int) -> Seq<NodeView> {
    let ids = ids_seq(s.fields@);
    if ids.len() == 0 {
        if s.contain_private_fields {
            seq![(heading(Tag::FieldsPrivate), level)]
        } else {
            seq![(heading(Tag::NoFields), level)]
        }
    } else if s.contain_private_fields {
        titled(map, Tag::Fields, Tag::Field, ids, level) + seq![
            (heading(Tag::FieldsPrivate), level + 1),
        ]
    } else {
        titled(map, Tag::Fields, Tag::Field, ids, level)
    }
}

/// A struct by its path, with its fields and implementations.
pub open spec fn struct_pretty(map: IDMap, s: DStruct, level: int) -> Seq<NodeView> {
    seq![(path_root(map, s.id@, Tag::Struct), level)] + struct_fields_part(map, s, level + 1)
        + impl_pretty(map, s.impls, level + 1)
}

/// A struct by its path, with its fields right under it.
pub open spec fn struct_fields(map: IDMap, s: DStruct, level: int) -> Seq<NodeView> {
    let ids = ids_seq(s.fields@);
    let private = if s.contain_private_fields {
        seq![(heading(Tag::FieldsPrivate), level + 1)]
    } else {
        seq![]
    };
    seq![(path_root(map, s.id@, Tag::Struct), level)] + if ids.len() == 0 && !s.contain_private_fields {
        seq![(heading(Tag::NoFields), level + 1)]
    } else {
        at_level(named(map, Tag::Field, ids), level + 1) + private
    }
}

/// An enum by its path, with its variants and implementations.
pub open spec fn enum_pretty(map: IDMap, e: DEnum, level: int) -> Seq<NodeView> {
    let ids = ids_seq(e.variants@);
    seq![(path_root(map, e.id@, Tag::Enum), level)] + (if ids.len() == 0 {
        seq![(heading(Tag::NoVariants), level + 1)]
    } else {
        titled(map, Tag::Variants, Tag::Variant, ids, level + 1)
    }) + impl_pretty(map, e.impls, level + 1)
}

/// An enum by its path, with its variants right under it.
pub open spec fn enum_variants(map: IDMap, e: DEnum, level: int) -> Seq<NodeView> {
    seq![(path_root(map, e.id@, Tag::Enum), level)] + at_level(
        named(map, Tag::Variant, ids_seq(e.variants@)),
        level + 1,
    )
}

/// A union by its path, with its fields and implementations.
pub open spec fn union_pretty(map: IDMap, u: DUnion, level: int) -> Seq<NodeView> {
    let ids = ids_seq(u.fields@);
    seq![(path_root(map, u.id@, Tag::Union), level)] + (if ids.len() == 0 {
        seq![(heading(Tag::NoFields), level + 1)]
    } else {
        titled(map, Tag::Fields, Tag::Field, ids, level + 1)
    }) + impl_pretty(map, u.impls, level + 1)
}

/// A union by its path, with its fields right under it.
pub open spec fn union_fields(map: IDMap, u: DUnion, level: int) -> Seq<NodeView> {
    seq![(path_root(map, u.id@, Tag::Union), level)] + at_level(
        named(map, Tag::Field, ids_seq(u.fields@)),
        level + 1,
    )
}

/// A trait has neither associated items nor implementors.
pub open spec fn trait_bare(t: DTrait) -> bool {
    &&& t.constants@.len() == 0
    &&& t.types@.len() == 0
    &&& t.functions@.len() == 0
    &&& t.implementations@.len() == 0
}

/// A trait by its path, with its associated items and implementors under their headings.
pub open spec fn trait_pretty(map: IDMap, t: DTrait, level: int) -> Seq<NodeView> {
    seq![(path_root(map, t.id@, Tag::Trait), level)] + if trait_bare(t) {
        seq![(heading(Tag::NoAssocOrImpls), level + 1)]
    } else {
        titled_if_any(map, Tag::AssocConsts, Tag::AssocConst, ids_seq(t.constants@), level + 1)
            + titled_if_any(map, Tag::AssocTypes, Tag::AssocType, ids_seq(t.types@), level + 1)
            + titled_if_any(map, Tag::AssocFns, Tag::AssocFn, ids_seq(t.functions@), level + 1)
            + titled_if_any(
            map,
            Tag::Implementors,
            Tag::Implementor,
            ids_seq(t.implementations@),
            level + 1,
        )
    }
}

/// A trait by its path, with its associated constants, types and functions right under it.
pub open spec fn trait_assoc(map: IDMap, t: DTrait, level: int) -> Seq<NodeView> {
    seq![(path_root(map, t.id@, Tag::Trait), level)] + at_level(
        named(map, Tag::AssocConst, ids_seq(t.constants@)) + named(
            map,
            Tag::AssocType,
            ids_seq(t.types@),
        ) + named(map, Tag::AssocFn, ids_seq(t.functions@)),
        level + 1,
    )
}

/// A trait by its path, with its implementors right under it.
pub open spec fn trait_implementors(map: IDMap, t: DTrait, level: int) -> Seq<NodeView> {
    seq![(path_root(map, t.id@, Tag::Trait), level)] + at_level(
        named(map, Tag::Implementor, ids_seq(t.implementations@)),
        level + 1,
    )
}

/// Display a data item as a tree in two forms: a plain one by ids, and a fancier one with
/// tags, paths and names.
pub trait Show {
    spec fn plain_view(&self, level: int) -> Seq<NodeView>;

    spec fn pretty_view(&self, map: IDMap, level: int) -> Seq<NodeView>;

    /// The plain form, with basic info by ids.
    fn show(&self) -> (r: DocTree)
        ensures
            forall|level: int| nodes_view(#[trigger] tree_nodes(r, level)) == self.plain_view(level),
    ;

    /// The fancier form, with item tags before subnodes.

    fn show_prettier(&self, map: &IDMap) -> (r: DocTree)
        ensures
            forall|level: int| nodes_view(#[trigger] tree_nodes(r, level)) == self.pretty_view(
                *map,
                level,
            ),
    ;
}

/// Push a heading over the named items when there are any.
fn push_titled_if_any(out: &mut Vec<DocTree>, title: Tag, tag: Tag, ids: &Vec<ID>, map: &IDMap)
    requires
        title.spec_heading_text() is Some,
    ensures
        forall|level: int| nodes_view(#[trigger] forest_nodes(final(out)@, level)) == nodes_view(
            forest_nodes(old(out)@, level),
        ) + titled_if_any(*map, title, tag, ids_seq(ids@), level),
{
    let ghost before = out@;
    if ids.len() > 0 {
        let t = titled_tree(title, tag, ids, map);
        push_tree(out, t);
    } else {
        assert forall|level: int| nodes_view(#[trigger] forest_nodes(out@, level)) == nodes_view(
            forest_nodes(before, level),
        ) + titled_if_any(*map, title, tag, ids_seq(ids@), level) by {
            assert(nodes_view(forest_nodes(out@, level)) =~= nodes_view(forest_nodes(before, level))
                + titled_if_any(*map, title, tag, ids_seq(ids@), level));
        }
    }
}

/// The nodes of a root alone over a forest of two trees.
pub(crate) proof fn lemma_root_two(r: DocTree, a: DocTree, b: DocTree, level: int)
    requires
        r.leaves@ == seq![a, b],
    ensures
        nodes_view(tree_nodes(r, level)) == seq![(text_tag_view(r.root), level)] + nodes_view(
            tree_nodes(a, level + 1),
        ) + nodes_view(tree_nodes(b, level + 1)),
{
    let e = Seq::<DocTree>::empty();
    lemma_forest_push(e, a, level + 1);
    lemma_forest_push(e.push(a), b, level + 1);
    assert(e.push(a).push(b) == seq![a, b]);
    assert(forest_nodes(e, level + 1) == Seq::<(crate::tree::doctree::TextTag, int)>::empty());
    assert(nodes_view(forest_nodes(e, level + 1)) =~= Seq::<NodeView>::empty());
    assert(nodes_view(forest_nodes(e.push(a), level + 1)) =~= nodes_view(tree_nodes(a, level + 1)));
    assert(nodes_view(forest_nodes(seq![a, b], level + 1)) =~= nodes_view(tree_nodes(a, level + 1))
        + nodes_view(tree_nodes(b, level + 1)));
    let f = forest_nodes(seq![a, b], level + 1);
    assert(tree_nodes(r, level) == seq![(r.root, level)] + f);
    let g = seq![(r.root, level)] + f;
    assert(nodes_view(g).len() == 1 + nodes_view(f).len());
    assert forall|i: int| 0 <= i < nodes_view(g).len() implies #[trigger] nodes_view(g)[i] == (
    seq![(text_tag_view(r.root), level)] + nodes_view(f))[i] by {
        if i > 0 {
            assert(g[i] == f[i - 1]);
        }
    }
    assert(nodes_view(g) =~= seq![(text_tag_view(r.root), level)] + nodes_view(f));
    assert(nodes_view(tree_nodes(r, level)) =~= seq![(text_tag_view(r.root), level)] + nodes_view(
        tree_nodes(a, level + 1),
    ) + nodes_view(tree_nodes(b, level + 1)));
}

impl DStruct {
    /// The struct by its path with its fields right under it.
    pub fn fields_tree(&self, map: &IDMap) -> (r: DocTree)
        ensures
            forall|level: int| nodes_view(#[trigger] tree_nodes(r, level)) == struct_fields(
                *map,
                *self,
                level,
            ),
    {
        let root = path_node(map, &self.id, Tag::Struct);
        let mut leaves: Vec<DocTree> = Vec::new();
        if self.fields.len() == 0 && !self.contain_private_fields {
            leaves.push(heading_node(Tag::NoFields));
        } else {
            leaves = show_names(&self.fields, Tag::Field, map);
            if self.contain_private_fields {
                leaves.push(heading_node(Tag::FieldsPrivate));
            }
        }
        let ghost lv = leaves@;
        assert(leafy(lv));
        let r = tree_with(root, leaves);
        assert forall|level: int| nodes_view(#[trigger] tree_nodes(r, level)) == struct_fields(
            *map,
            *self,
            level,
        ) by {
            lemma_forest_leafy(lv, level + 1);
            assert(nodes_view(tree_nodes(r, level)) =~= struct_fields(*map, *self, level));
        }
        r
    }

    fn fields_part(&self, map: &IDMap) -> (r: DocTree)
        ensures
            forall|level: int| nodes_view(#[trigger] tree_nodes(r, level)) == struct_fields_part(
                *map,
                *self,
                level,
            ),
    {
        if self.fields.len() == 0 {
            if self.contain_private_fields {
                heading_node(Tag::FieldsPrivate)
            } else {
                heading_node(Tag::NoFields)
            }
        } else {
            let root = heading_node(Tag::Fields);
            let mut leaves = show_names(&self.fields, Tag::Field, map);
            if self.contain_private_fields {
                leaves.push(heading_node(Tag::FieldsPrivate));
            }
            let ghost lv = leaves@;
            assert(leafy(lv));
            let r = tree_with(root, leaves);
            assert forall|level: int| nodes_view(#[trigger] tree_nodes(r, level))
                == struct_fields_part(*map, *self, level) by {
                lemma_forest_leafy(lv, level + 1);
                assert(nodes_view(tree_nodes(r, level)) =~= struct_fields_part(*map, *self, level));
            }
            r
        }
    }
}

impl Show for DStruct {
    open spec fn plain_view(&self, level: int) -> Seq<NodeView> {
        crate::tree::plain::struct_plain(*self, level)
    }

    fn show(&self) -> (r: DocTree) {
        crate::tree::plain::struct_show(self)
    }

    open spec fn pretty_view(&self, map: IDMap, level: int) -> Seq<NodeView> {
        struct_pretty(map, *self, level)
    }

    fn show_prettier(&self, map: &IDMap) -> (r: DocTree) {
        let root = path_node(map, &self.id, Tag::Struct);
        let a = self.fields_part(map);
        let b = self.impls.show_prettier(map);
        let r = root.with_leaves(vec![a, b]);
        assert forall|level: int| nodes_view(#[trigger] tree_nodes(r, level)) == struct_pretty(
            *map,
            *self,
            level,
        ) by {
            lemma_root_two(r, a, b, level);
        }
        r
    }
}

impl DEnum {
    /// The enum by its path with its variants right under it.
    pub fn variants_tree(&self, map: &IDMap) -> (r: DocTree)
        ensures
            forall|level: int| nodes_view(#[trigger] tree_nodes(r, level)) == enum_variants(
                *map,
                *self,
                level,
            ),
    {
        let root = path_node(map, &self.id, Tag::Enum);
        let leaves = show_names(&self.variants, Tag::Variant, map);
        let ghost lv = leaves@;
        let r = tree_with(root, leaves);
        assert forall|level: int| nodes_view(#[trigger] tree_nodes(r, level)) == enum_variants(
            *map,
            *self,
            level,
        ) by {
            lemma_forest_leafy(lv, level + 1);
        }
        r
    }
}

/// A heading over the named items, or the other heading when there are none.
fn titled_or(none: Tag, title: Tag, tag: Tag, ids: &Vec<ID>, map: &IDMap) -> (r: DocTree)
    requires
        none.spec_heading_text() is Some,
        title.spec_heading_text() is Some,
    ensures
        forall|level: int| nodes_view(#[trigger] tree_nodes(r, level)) == if ids@.len() == 0 {
            seq![(heading(none), level)]
        } else {
            titled(*map, title, tag, ids_seq(ids@), level)
        },
{
    if ids.len() == 0 {
        heading_node(none)
    } else {
        titled_tree(title, tag, ids, map)
    }
}

impl Show for DEnum {
    open spec fn plain_view(&self, level: int) -> Seq<NodeView> {
        crate::tree::plain::enum_plain(*self, level)
    }

    fn show(&self) -> (r: DocTree) {
        crate::tree::plain::enum_show(self)
    }

    open spec fn pretty_view(&self, map: IDMap, level: int) -> Seq<NodeView> {
        enum_pretty(map, *self, level)
    }

    fn show_prettier(&self, map: &IDMap) -> (r: DocTree) {
        let root = path_node(map, &self.id, Tag::Enum);
        let a = titled_or(Tag::NoVariants, Tag::Variants, Tag::Variant, &self.variants, map);
        let b = self.impls.show_prettier(map);
        let r = root.with_leaves(vec![a, b]);
        assert forall|level: int| nodes_view(#[trigger] tree_nodes(r, level)) == enum_pretty(
            *map,
            *self,
            level,
        ) by {
            lemma_root_two(r, a, b, level);
        }
        r
    }
}

impl DUnion {
    /// The union by its path with its fields right under it.
    pub fn fields_tree(&self, map: &IDMap) -> (r: DocTree)
        ensures
            forall|level: int| nodes_view(#[trigger] tree_nodes(r, level)) == union_fields(
                *map,
                *self,
                level,
            ),
    {
        let root = path_node(map, &self.id, Tag::Union);
        let leaves = show_names(&self.fields, Tag::Field, map);
        let ghost lv = leaves@;
        let r = tree_with(root, leaves);
        assert forall|level: int| nodes_view(#[trigger] tree_nodes(r, level)) == union_fields(
            *map,
            *self,
            level,
        ) by {
            lemma_forest_leafy(lv, level + 1);
        }
        r
    }
}

impl Show for DUnion {
    open spec fn plain_view(&self, level: int) -> Seq<NodeView> {
        crate::tree::plain::union_plain(*self, level)
    }

    fn show(&self) -> (r: DocTree) {
        crate::tree::plain::union_show(self)
    }

    open spec fn pretty_view(&self, map: IDMap, level: int) -> Seq<NodeView> {
        union_pretty(map, *self, level)
    }

    fn show_prettier(&self, map: &IDMap) -> (r: DocTree) {
        let root = path_node(map, &self.id, Tag::Union);
        let a = titled_or(Tag::NoFields, Tag::Fields, Tag::Field, &self.fields, map);
        let b = self.impls.show_prettier(map);
        let r = root.with_leaves(vec![a, b]);
        assert forall|level: int| nodes_view(#[trigger] tree_nodes(r, level)) == union_pretty(
            *map,
            *self,
            level,
        ) by {
            lemma_root_two(r, a, b, level);
        }
        r
    }
}

impl DTrait {
    /// The trait by its path with its associated constants, types and functions under it.
    pub fn associated_items(&self, map: &IDMap) -> (r: DocTree)
        ensures
            forall|level: int| nodes_view(#[trigger] tree_nodes(r, level)) == trait_assoc(
                *map,
                *self,
                level,
            ),
    {
        let root = path_node(map, &self.id, Tag::Trait);
        let mut leaves: Vec<DocTree> = Vec::new();
        assert(roots_view(leaves@) =~= Seq::<RootView>::empty());
        push_named(&mut leaves, &self.constants, Tag::AssocConst, map);
        push_named(&mut leaves, &self.types, Tag::AssocType, map);
        push_named(&mut leaves, &self.functions, Tag::AssocFn, map);
        let ghost lv = leaves@;
        let r = tree_with(root, leaves);
        assert forall|level: int| nodes_view(#[trigger] tree_nodes(r, level)) == trait_assoc(
            *map,
            *self,
            level,
        ) by {
            lemma_ids_of_ids(self.constants@);
            lemma_ids_of_ids(self.types@);
            lemma_ids_of_ids(self.functions@);
            lemma_forest_leafy(lv, level + 1);
            assert(nodes_view(tree_nodes(r, level)) =~= trait_assoc(*map, *self, level));
        }
        r
    }

    /// The trait by its path with its implementors under it.
    pub fn implementors(&self, map: &IDMap) -> (r: DocTree)
        ensures
            forall|level: int| nodes_view(#[trigger] tree_nodes(r, level)) == trait_implementors(
                *map,
                *self,
                level,
            ),
    {
        let root = path_node(map, &self.id, Tag::Trait);
        let leaves = show_names(&self.implementations, Tag::Implementor, map);
        let ghost lv = leaves@;
        let r = tree_with(root, leaves);
        assert forall|level: int| nodes_view(#[trigger] tree_nodes(r, level))
            == trait_implementors(*map, *self, level) by {
            lemma_forest_leafy(lv, level + 1);
        }
        r
    }
}

impl Show for DTrait {
    open spec fn plain_view(&self, level: int) -> Seq<NodeView> {
        crate::tree::plain::trait_plain(*self, level)
    }

    fn show(&self) -> (r: DocTree) {
        crate::tree::plain::trait_show(self)
    }

    open spec fn pretty_view(&self, map: IDMap, level: int) -> Seq<NodeView> {
        trait_pretty(map, *self, level)
    }

    fn show_prettier(&self, map: &IDMap) -> (r: DocTree) {
        let root = path_node(map, &self.id, Tag::Trait);
        let mut leaves: Vec<DocTree> = Vec::new();
        let ghost empty = leaves@;
        assert(forall|level: int| #[trigger] forest_nodes(empty, level) == Seq::<(crate::tree::doctree::TextTag, int)>::empty());
        if self.constants.len() == 0 && self.types.len() == 0 && self.functions.len() == 0
            && self.implementations.len() == 0 {
            leaves.push(heading_node(Tag::NoAssocOrImpls));
            proof {
                assert(leafy(leaves@));
            }
            let ghost lv = leaves@;
            let r = tree_with(root, leaves);
            assert forall|level: int| nodes_view(#[trigger] tree_nodes(r, level)) == trait_pretty(
                *map,
                *self,
                level,
            ) by {
                lemma_forest_leafy(lv, level + 1);
                assert(nodes_view(tree_nodes(r, level)) =~= trait_pretty(*map, *self, level));
            }
            return r;
        }
        push_titled_if_any(&mut leaves, Tag::AssocConsts, Tag::AssocConst, &self.constants, map);
        push_titled_if_any(&mut leaves, Tag::AssocTypes, Tag::AssocType, &self.types, map);
        push_titled_if_any(&mut leaves, Tag::AssocFns, Tag::AssocFn, &self.functions, map);
        push_titled_if_any(
            &mut leaves,
            Tag::Implementors,
            Tag::Implementor,
            &self.implementations,
            map,
        );
        let r = tree_with(root, leaves);
        assert forall|level: int| nodes_view(#[trigger] tree_nodes(r, level)) == trait_pretty(
            *map,
            *self,
            level,
        ) by {
            assert(nodes_view(tree_nodes(r, level)) =~= trait_pretty(*map, *self, level));
        }
        r
    }
}

/// The fancier trees of items one after another.
pub open spec fn pretty_seq<T: Show>(map: IDMap, xs: Seq<T>, level: int) -> Seq<NodeView>
    decreases xs.len(),
{
    if xs.len() == 0 {
        seq![]
    } else {
        pretty_seq(map, xs.drop_last(), level) + xs.last().pretty_view(map, level)
    }
}

/// A heading over the fancier trees of items, or nothing when there are none.
pub open spec fn pretty_group<T: Show>(map: IDMap, title: Tag, xs: Seq<T>, level: int) -> Seq<
    NodeView,
> {
    if xs.len() == 0 {
        seq![]
    } else {
        seq![(heading(title), level)] + pretty_seq(map, xs, level + 1)
    }
}

/// A module's functions, constants, statics and type aliases under their headings.
pub open spec fn mod_values_pretty(map: IDMap, m: DModule, level: int) -> Seq<NodeView> {
    titled_if_any(map, Tag::Functions, Tag::Function, ids_of(m.functions@), level) + titled_if_any(
        map,
        Tag::Constants,
        Tag::Constant,
        ids_of(m.constants@),
        level,
    ) + titled_if_any(map, Tag::Statics, Tag::Static, ids_of(m.statics@), level) + titled_if_any(
        map,
        Tag::TypeAliass,
        Tag::TypeAlias,
        ids_of(m.type_alias@),
        level,
    )
}

/// A module's macros of each kind under their headings.
pub open spec fn mod_macros_pretty(map: IDMap, m: DModule, level: int) -> Seq<NodeView> {
    titled_if_any(map, Tag::MacroDecls, Tag::MacroDecl, ids_of(m.macros_decl@), level)
        + titled_if_any(map, Tag::MacroFuncs, Tag::MacroFunc, ids_of(m.macros_func@), level)
        + titled_if_any(map, Tag::MacroAttrs, Tag::MacroAttr, ids_of(m.macros_attr@), level)
        + titled_if_any(map, Tag::MacroDervs, Tag::MacroDerv, ids_of(m.macros_derv@), level)
}

/// A module's traits, structs, unions and enums under their headings, each as its fancier tree.
pub open spec fn mod_data_pretty(map: IDMap, m: DModule, level: int) -> Seq<NodeView> {
    pretty_group(map, Tag::Traits, m.traits@, level) + pretty_group(
        map,
        Tag::Structs,
        m.structs@,
        level,
    ) + pretty_group(map, Tag::Unions, m.unions@, level) + pretty_group(
        map,
        Tag::Enums,
        m.enums@,
        level,
    )
}

/// The items directly in a module under their kinds' headings, simple items by name.
pub open spec fn mod_kinds_pretty(map: IDMap, m: DModule, level: int) -> Seq<NodeView> {
    mod_values_pretty(map, m, level) + mod_macros_pretty(map, m, level) + mod_data_pretty(
        map,
        m,
        level,
    )
}

/// A module by its path with its items under their kinds, then its submodules likewise.
pub open spec fn mod_pretty(map: IDMap, m: DModule, level: int) -> Seq<NodeView>
    decreases m,
{
    seq![(path_root(map, m.id@, Tag::Module), level)] + mod_kinds_pretty(map, m, level + 1)
        + mods_pretty(map, m.modules@, level + 1)
}

pub open spec fn mods_pretty(map: IDMap, ms: Seq<DModule>, level: int) -> Seq<NodeView>
    decreases ms,
{
    if ms.len() == 0 {
        seq![]
    } else {
        mods_pretty(map, ms.subrange(0, ms.len() - 1), level) + mod_pretty(
            map,
            ms[ms.len() - 1],
            level,
        )
    }
}

/// Push a heading over the named items when there are any.
fn push_named_group<T: HasId>(out: &mut Vec<DocTree>, title: Tag, tag: Tag, items: &Vec<T>, map: &IDMap)
    requires
        title.spec_heading_text() is Some,
    ensures
        forall|level: int| nodes_view(#[trigger] forest_nodes(final(out)@, level)) == nodes_view(
            forest_nodes(old(out)@, level),
        ) + titled_if_any(*map, title, tag, ids_of(items@), level),
{
    let ghost before = out@;
    if items.len() > 0 {
        let root = heading_node(title);
        let mut leaves: Vec<DocTree> = Vec::new();
        assert(roots_view(leaves@) =~= Seq::<RootView>::empty());
        push_named(&mut leaves, items, tag, map);
        let ghost lv = leaves@;
        let t = tree_with(root, leaves);
        push_tree(out, t);
        assert forall|level: int| nodes_view(#[trigger] forest_nodes(out@, level)) == nodes_view(
            forest_nodes(before, level),
        ) + titled_if_any(*map, title, tag, ids_of(items@), level) by {
            lemma_forest_leafy(lv, level + 1);
            assert(roots_view(lv) =~= named(*map, tag, ids_of(items@)));
            assert(nodes_view(forest_nodes(out@, level)) =~= nodes_view(forest_nodes(before, level))
                + titled_if_any(*map, title, tag, ids_of(items@), level));
        }
    } else {
        assert forall|level: int| nodes_view(#[trigger] forest_nodes(out@, level)) == nodes_view(
            forest_nodes(before, level),
        ) + titled_if_any(*map, title, tag, ids_of(items@), level) by {
            assert(nodes_view(forest_nodes(out@, level)) =~= nodes_view(forest_nodes(before, level))
                + titled_if_any(*map, title, tag, ids_of(items@), level));
        }
    }
}

/// Push each item's fancier tree.
fn push_pretty<T: Show>(out: &mut Vec<DocTree>, xs: &Vec<T>, map: &IDMap)
    ensures
        forall|level: int| nodes_view(#[trigger] forest_nodes(final(out)@, level)) == nodes_view(
            forest_nodes(old(out)@, level),
        ) + pretty_seq(*map, xs@, level),
{
    let ghost start = out@;
    let mut i: usize = 0;
    while i < xs.len()
        invariant
            i <= xs@.len(),
            forall|level: int| nodes_view(#[trigger] forest_nodes(out@, level)) == nodes_view(
                forest_nodes(start, level),
            ) + pretty_seq(*map, xs@.subrange(0, i as int), level),
        decreases xs@.len() - i,
    {
        let t = xs[i].show_prettier(map);
        push_tree(out, t);
        proof {
            let s = xs@.subrange(0, i + 1);
            assert(s.drop_last() == xs@.subrange(0, i as int));
            assert(s.last() == xs@[i as int]);
            assert forall|level: int| nodes_view(#[trigger] forest_nodes(out@, level)) == nodes_view(
                forest_nodes(start, level),
            ) + pretty_seq(*map, s, level) by {
                assert(pretty_seq(*map, s, level) == pretty_seq(*map, xs@.subrange(0, i as int), level)
                    + xs@[i as int].pretty_view(*map, level));
                assert(nodes_view(forest_nodes(out@, level)) =~= nodes_view(
                    forest_nodes(start, level),
                ) + pretty_seq(*map, s, level));
            }
        }
        i = i + 1;
    }
    assert(xs@.subrange(0, i as int) == xs@);
}

/// Push a heading over the items' fancier trees when there are any.
fn push_pretty_group<T: Show>(out: &mut Vec<DocTree>, title: Tag, xs: &Vec<T>, map: &IDMap)
    requires
        title.spec_heading_text() is Some,
    ensures
        forall|level: int| nodes_view(#[trigger] forest_nodes(final(out)@, level)) == nodes_view(
            forest_nodes(old(out)@, level),
        ) + pretty_group(*map, title, xs@, level),
{
    let ghost before = out@;
    if xs.len() > 0 {
        let root = heading_node(title);
        let mut leaves: Vec<DocTree> = Vec::new();
        let ghost empty = leaves@;
        assert(forall|level: int| #[trigger] forest_nodes(empty, level) == Seq::<(crate::tree::doctree::TextTag, int)>::empty());
        push_pretty(&mut leaves, xs, map);
        let ghost lv = leaves@;
        let t = tree_with(root, leaves);
        push_tree(out, t);
        assert forall|level: int| nodes_view(#[trigger] forest_nodes(out@, level)) == nodes_view(
            forest_nodes(before, level),
        ) + pretty_group(*map, title, xs@, level) by {
            assert(nodes_view(forest_nodes(lv, level + 1)) =~= pretty_seq(*map, xs@, level + 1));
            assert(nodes_view(forest_nodes(out@, level)) =~= nodes_view(forest_nodes(before, level))
                + pretty_group(*map, title, xs@, level));
        }
    } else {
        assert forall|level: int| nodes_view(#[trigger] forest_nodes(out@, level)) == nodes_view(
            forest_nodes(before, level),
        ) + pretty_group(*map, title, xs@, level) by {
            assert(nodes_view(forest_nodes(out@, level)) =~= nodes_view(forest_nodes(before, level))
                + pretty_group(*map, title, xs@, level));
        }
    }
}

fn push_mod_values(out: &mut Vec<DocTree>, m: &DModule, map: &IDMap)
    ensures
        forall|level: int| nodes_view(#[trigger] forest_nodes(final(out)@, level)) == nodes_view(
            forest_nodes(old(out)@, level),
        ) + mod_values_pretty(*map, *m, level),
{
    let ghost s0 = out@;
    push_named_group(out, Tag::Functions, Tag::Function, &m.functions, map);
    let ghost s1 = out@;
    push_named_group(out, Tag::Constants, Tag::Constant, &m.constants, map);
    let ghost s2 = out@;
    push_named_group(out, Tag::Statics, Tag::Static, &m.statics, map);
    let ghost s3 = out@;
    push_named_group(out, Tag::TypeAliass, Tag::TypeAlias, &m.type_alias, map);
    assert forall|level: int| nodes_view(#[trigger] forest_nodes(out@, level)) == nodes_view(
        forest_nodes(s0, level),
    ) + mod_values_pretty(*map, *m, level) by {
        let _ = forest_nodes(s1, level);
        let _ = forest_nodes(s2, level);
        let _ = forest_nodes(s3, level);
        assert(nodes_view(forest_nodes(out@, level)) =~= nodes_view(forest_nodes(s0, level))
            + mod_values_pretty(*map, *m, level));
    }
}

fn push_mod_macros(out: &mut Vec<DocTree>, m: &DModule, map: &IDMap)
    ensures
        forall|level: int| nodes_view(#[trigger] forest_nodes(final(out)@, level)) == nodes_view(
            forest_nodes(old(out)@, level),
        ) + mod_macros_pretty(*map, *m, level),
{
    let ghost s0 = out@;
    push_named_group(out, Tag::MacroDecls, Tag::MacroDecl, &m.macros_decl, map);
    let ghost s1 = out@;
    push_named_group(out, Tag::MacroFuncs, Tag::MacroFunc, &m.macros_func, map);
    let ghost s2 = out@;
    push_named_group(out, Tag::MacroAttrs, Tag::MacroAttr, &m.macros_attr, map);
    let ghost s3 = out@;
    push_named_group(out, Tag::MacroDervs, Tag::MacroDerv, &m.macros_derv, map);
    assert forall|level: int| nodes_view(#[trigger] forest_nodes(out@, level)) == nodes_view(
        forest_nodes(s0, level),
    ) + mod_macros_pretty(*map, *m, level) by {
        let _ = forest_nodes(s1, level);
        let _ = forest_nodes(s2, level);
        let _ = forest_nodes(s3, level);
        assert(nodes_view(forest_nodes(out@, level)) =~= nodes_view(forest_nodes(s0, level))
            + mod_macros_pretty(*map, *m, level));
    }
}

fn push_mod_data(out: &mut Vec<DocTree>, m: &DModule, map: &IDMap)
    ensures
        forall|level: int| nodes_view(#[trigger] forest_nodes(final(out)@, level)) == nodes_view(
            forest_nodes(old(out)@, level),
        ) + mod_data_pretty(*map, *m, level),
{
    let ghost s0 = out@;
    push_pretty_group(out, Tag::Traits, &m.traits, map);
    let ghost s1 = out@;
    push_pretty_group(out, Tag::Structs, &m.structs, map);
    let ghost s2 = out@;
    push_pretty_group(out, Tag::Unions, &m.unions, map);
    let ghost s3 = out@;
    push_pretty_group(out, Tag::Enums, &m.enums, map);
    assert forall|level: int| nodes_view(#[trigger] forest_nodes(out@, level)) == nodes_view(
        forest_nodes(s0, level),
    ) + mod_data_pretty(*map, *m, level) by {
        let _ = forest_nodes(s1, level);
        let _ = forest_nodes(s2, level);
        let _ = forest_nodes(s3, level);
        assert(nodes_view(forest_nodes(out@, level)) =~= nodes_view(forest_nodes(s0, level))
            + mod_data_pretty(*map, *m, level));
    }
}

/// The kinds' headings of a module's items, pushed in order.
fn push_mod_kinds(out: &mut Vec<DocTree>, m: &DModule, map: &IDMap)
    ensures
        forall|level: int| nodes_view(#[trigger] forest_nodes(final(out)@, level)) == nodes_view(
            forest_nodes(old(out)@, level),
        ) + mod_kinds_pretty(*map, *m, level),
{
    let ghost s0 = out@;
    push_mod_values(out, m, map);
    let ghost s1 = out@;
    push_mod_macros(out, m, map);
    let ghost s2 = out@;
    push_mod_data(out, m, map);
    assert forall|level: int| nodes_view(#[trigger] forest_nodes(out@, level)) == nodes_view(
        forest_nodes(s0, level),
    ) + mod_kinds_pretty(*map, *m, level) by {
        let _ = forest_nodes(s1, level);
        let _ = forest_nodes(s2, level);
        assert(nodes_view(forest_nodes(out@, level)) =~= nodes_view(forest_nodes(s0, level))
            + mod_kinds_pretty(*map, *m, level));
    }
}

impl DModule {
    /// The module by its path with its items under their kinds, each data type with its
    /// fields, variants and implementations, then its submodules likewise.
    pub fn show_prettier(&self, map: &IDMap) -> (r: DocTree)
        ensures
            forall|level: int| nodes_view(#[trigger] tree_nodes(r, level)) == mod_pretty(
                *map,
                *self,
                level,
            ),
        decreases self,
    {
        let root = path_node(map, &self.id, Tag::Module);
        let mut leaves: Vec<DocTree> = Vec::new();
        let ghost empty = leaves@;
        assert(forall|level: int| #[trigger] forest_nodes(empty, level) == Seq::<(crate::tree::doctree::TextTag, int)>::empty());
        push_mod_kinds(&mut leaves, self, map);
        let ghost kinds = leaves@;
        let mut i: usize = 0;
        while i < self.modules.len()
            invariant
                i <= self.modules@.len(),
                forall|level: int| nodes_view(#[trigger] forest_nodes(leaves@, level)) == nodes_view(
                    forest_nodes(kinds, level),
                ) + mods_pretty(*map, self.modules@.subrange(0, i as int), level),
            decreases self.modules@.len() - i,
        {
            proof {
                assert(decreases_to!(self => self.modules));
                assert(decreases_to!(self.modules => self.modules@));
                assert(decreases_to!(self.modules@ => self.modules@[i as int]));
            }
            let t = self.modules[i].show_prettier(map);
            push_tree(&mut leaves, t);
            proof {
                let ms = self.modules@.subrange(0, i + 1);
                assert(ms.subrange(0, ms.len() - 1) == self.modules@.subrange(0, i as int));
                assert(ms[ms.len() - 1] == self.modules@[i as int]);
                assert forall|level: int| nodes_view(#[trigger] forest_nodes(leaves@, level))
                    == nodes_view(forest_nodes(kinds, level)) + mods_pretty(*map, ms, level) by {
                    assert(nodes_view(forest_nodes(leaves@, level)) =~= nodes_view(
                        forest_nodes(kinds, level),
                    ) + mods_pretty(*map, ms, level));
                }
            }
            i = i + 1;
        }
        assert(self.modules@.subrange(0, i as int) == self.modules@);
        let r = tree_with(root, leaves);
        assert forall|level: int| nodes_view(#[trigger] tree_nodes(r, level)) == mod_pretty(
            *map,
            *self,
            level,
        ) by {
            assert(nodes_view(tree_nodes(r, level)) =~= mod_pretty(*map, *self, level));
        }
        r
    }
}

/// Data items that a module holds in a list of their own kind.
pub trait InModule: HasId + Sized {
    spec fn spec_items(m: DModule) -> Seq<Self>;

    fn items(m: &DModule) -> (r: &Vec<Self>)
        ensures
            r@ == Self::spec_items(*m),
    ;
}

impl InModule for DStruct {
    open spec fn spec_items(m: DModule) -> Seq<Self> {
        m.structs@
    }

    fn items(m: &DModule) -> (r: &Vec<Self>) {
        &m.structs
    }
}

impl InModule for DEnum {
    open spec fn spec_items(m: DModule) -> Seq<Self> {
        m.enums@
    }

    fn items(m: &DModule) -> (r: &Vec<Self>) {
        &m.enums
    }
}

impl InModule for DTrait {
    open spec fn spec_items(m: DModule) -> Seq<Self> {
        m.traits@
    }

    fn items(m: &DModule) -> (r: &Vec<Self>) {
        &m.traits
    }
}

impl InModule for DUnion {
    open spec fn spec_items(m: DModule) -> Seq<Self> {
        m.unions@
    }

    fn items(m: &DModule) -> (r: &Vec<Self>) {
        &m.unions
    }
}

/// The first item with the id.
pub open spec fn find_in<T: HasId>(xs: Seq<T>, id: Seq<char>) -> Option<T>
    decreases xs.len(),
{
    if xs.len() == 0 {
        None
    } else if xs[0].spec_id()@ == id {
        Some(xs[0])
    } else {
        find_in(xs.drop_first(), id)
    }
}

/// The first item of its kind with the id: in the module itself first, then in each submodule
/// in order.
pub open spec fn find_item<T: InModule>(m: DModule, id: Seq<char>) -> Option<T>
    decreases m,
{
    match find_in(T::spec_items(m), id) {
        Some(x) => Some(x),
        None => find_item_in(m.modules@, id),
    }
}

pub open spec fn find_item_in<T: InModule>(ms: Seq<DModule>, id: Seq<char>) -> Option<T>
    decreases ms,
{
    if ms.len() == 0 {
        None
    } else {
        match find_item::<T>(ms[0], id) {
            Some(x) => Some(x),
            None => find_item_in(ms.subrange(1, ms.len() as int), id),
        }
    }
}

/// The first module with the id: the module itself, then each submodule's tree in order.
pub open spec fn find_module(m: DModule, id: Seq<char>) -> Option<DModule>
    decreases m,
{
    if m.id@ == id {
        Some(m)
    } else {
        find_module_in(m.modules@, id)
    }
}

pub open spec fn find_module_in(ms: Seq<DModule>, id: Seq<char>) -> Option<DModule>
    decreases ms,
{
    if ms.len() == 0 {
        None
    } else {
        match find_module(ms[0], id) {
            Some(x) => Some(x),
            None => find_module_in(ms.subrange(1, ms.len() as int), id),
        }
    }
}

/// The first item in the list with the id, from `k` on.
fn find_in_from<'a, T: HasId>(xs: &'a Vec<T>, id: &ID, k: usize) -> (r: Option<&'a T>)
    requires
        k <= xs@.len(),
    ensures
        match r {
            Some(x) => find_in(xs@.skip(k as int), id@) == Some(*x),
            None => find_in(xs@.skip(k as int), id@) is None,
        },
    decreases xs@.len() - k,
{
    if k >= xs.len() {
        return None;
    }
    let x = &xs[k];
    proof {
        assert(xs@.skip(k as int)[0] == xs@[k as int]);
        assert(xs@.skip(k as int).drop_first() =~= xs@.skip(k + 1));
    }
    if x.item_id().id == id.id {
        Some(x)
    } else {
        find_in_from(xs, id, k + 1)
    }
}

/// The first module in the list from `k` on whose tree has an item of its kind with the id.
fn search_from<'a, T: InModule>(ms: &'a Vec<DModule>, id: &ID, k: usize) -> (r: Option<&'a T>)
    requires
        k <= ms@.len(),
    ensures
        match r {
            Some(x) => find_item_in::<T>(ms@.skip(k as int), id@) == Some(*x),
            None => find_item_in::<T>(ms@.skip(k as int), id@) is None,
        },
    decreases ms, ms@.len() - k,
{
    if k >= ms.len() {
        return None;
    }
    proof {
        let s = ms@.skip(k as int);
        assert(s[0] == ms@[k as int]);
        assert(s.subrange(1, s.len() as int) =~= ms@.skip(k + 1));
        assert(decreases_to!(ms => ms@));
        assert(decreases_to!(ms@ => ms@[k as int]));
    }
    match ms[k].search_for::<T>(id) {
        Some(x) => Some(x),
        None => search_from(ms, id, k + 1),
    }
}

/// The first module in the list from `k` on whose tree has a module with the id.
fn search_module_from<'a>(ms: &'a Vec<DModule>, id: &ID, k: usize) -> (r: Option<&'a DModule>)
    requires
        k <= ms@.len(),
    ensures
        match r {
            Some(x) => find_module_in(ms@.skip(k as int), id@) == Some(*x),
            None => find_module_in(ms@.skip(k as int), id@) is None,
        },
    decreases ms, ms@.len() - k,
{
    if k >= ms.len() {
        return None;
    }
    proof {
        let s = ms@.skip(k as int);
        assert(s[0] == ms@[k as int]);
        assert(s.subrange(1, s.len() as int) =~= ms@.skip(k + 1));
        assert(decreases_to!(ms => ms@));
        assert(decreases_to!(ms@ => ms@[k as int]));
    }
    match ms[k].search_for_module(id) {
        Some(x) => Some(x),
        None => search_module_from(ms, id, k + 1),
    }
}

impl DModule {
    /// The first item of its kind with the id, in this module first and then in each
    /// submodule in order.
    pub fn search_for<T: InModule>(&self, id: &ID) -> (r: Option<&T>)
        ensures
            match r {
                Some(x) => find_item::<T>(*self, id@) == Some(*x),
                None => find_item::<T>(*self, id@) is None,
            },
        decreases self.modules, self.modules@.len() + 1,
    {
        let here = find_in_from(T::items(self), id, 0);
        proof {
            assert(T::spec_items(*self).skip(0) =~= T::spec_items(*self));
        }
        match here {
            Some(x) => Some(x),
            None => {
                proof {
                    assert(self.modules@.skip(0) =~= self.modules@);
                }
                search_from(&self.modules, id, 0)
            },
        }
    }

    /// The module with the id: this one, or the first found in each submodule's tree.
    pub fn search_for_module(&self, id: &ID) -> (r: Option<&DModule>)
        ensures
            match r {
                Some(x) => find_module(*self, id@) == Some(*x),
                None => find_module(*self, id@) is None,
            },
        decreases self.modules, self.modules@.len() + 1,
    {
        if self.id.id == id.id {
            return Some(self);
        }
        proof {
            assert(self.modules@.skip(0) =~= self.modules@);
        }
        search_module_from(&self.modules, id, 0)
    }
}

/// The tree of a data item's insides: a module's items, or the fancier tree of a struct,
/// enum, trait or union; none when the id is no data item or none of its kind is found.
pub open spec fn inner_view(map: IDMap, d: DModule, id: Seq<char>) -> Option<Seq<NodeView>> {
    match data_kind(map, id, map.index@.len() as nat) {
        Some(DataItemKind::Struct) => match find_item::<DStruct>(d, id) {
            Some(x) => Some(struct_pretty(map, x, 0)),
            None => None,
        },
        Some(DataItemKind::Enum) => match find_item::<DEnum>(d, id) {
            Some(x) => Some(enum_pretty(map, x, 0)),
            None => None,
        },
        Some(DataItemKind::Trait) => match find_item::<DTrait>(d, id) {
            Some(x) => Some(trait_pretty(map, x, 0)),
            None => None,
        },
        Some(DataItemKind::Union) => match find_item::<DUnion>(d, id) {
            Some(x) => Some(union_pretty(map, x, 0)),
            None => None,
        },
        Some(DataItemKind::Module) => match find_module(d, id) {
            Some(x) => Some(item_tree(map, x, 0)),
            None => None,
        },
        None => None,
    }
}

/// The tree of a data item's implementations; for a trait, its fancier tree.
pub open spec fn impls_view(map: IDMap, d: DModule, id: Seq<char>) -> Option<Seq<NodeView>> {
    match data_kind(map, id, map.index@.len() as nat) {
        Some(DataItemKind::Struct) => match find_item::<DStruct>(d, id) {
            Some(x) => Some(impl_pretty(map, x.impls, 0)),
            None => None,
        },
        Some(DataItemKind::Enum) => match find_item::<DEnum>(d, id) {
            Some(x) => Some(impl_pretty(map, x.impls, 0)),
            None => None,
        },
        Some(DataItemKind::Trait) => match find_item::<DTrait>(d, id) {
            Some(x) => Some(trait_pretty(map, x, 0)),
            None => None,
        },
        Some(DataItemKind::Union) => match find_item::<DUnion>(d, id) {
            Some(x) => Some(impl_pretty(map, x.impls, 0)),
            None => None,
        },
        _ => None,
    }
}

/// The tree of a struct's or union's fields, or of an enum's variants.
pub open spec fn fields_view(map: IDMap, d: DModule, id: Seq<char>) -> Option<Seq<NodeView>> {
    match data_kind(map, id, map.index@.len() as nat) {
        Some(DataItemKind::Struct) => match find_item::<DStruct>(d, id) {
            Some(x) => Some(struct_fields(map, x, 0)),
            None => None,
        },
        Some(DataItemKind::Enum) => match find_item::<DEnum>(d, id) {
            Some(x) => Some(enum_variants(map, x, 0)),
            None => None,
        },
        Some(DataItemKind::Union) => match find_item::<DUnion>(d, id) {
            Some(x) => Some(union_fields(map, x, 0)),
            None => None,
        },
        _ => None,
    }
}

/// A tree, if any, by its nodes from the top level.
pub open spec fn opt_tree_view(r: Option<DocTree>) -> Option<Seq<NodeView>> {
    match r {
        Some(t) => Some(nodes_view(tree_nodes(t, 0))),
        None => None,
    }
}

impl DModule {
    /// The tree of the insides of the data item with the id.
    pub fn item_inner_tree(&self, id: &ID, map: &IDMap) -> (r: Option<DocTree>)
        ensures
            opt_tree_view(r) == inner_view(*map, *self, id@),
    {
        match DataItemKind::new(id, map) {
            Some(DataItemKind::Struct) => match self.search_for::<DStruct>(id) {
                Some(x) => Some(x.show_prettier(map)),
                None => None,
            },
            Some(DataItemKind::Enum) => match self.search_for::<DEnum>(id) {
                Some(x) => Some(x.show_prettier(map)),
                None => None,
            },
            Some(DataItemKind::Trait) => match self.search_for::<DTrait>(id) {
                Some(x) => Some(x.show_prettier(map)),
                None => None,
            },
            Some(DataItemKind::Union) => match self.search_for::<DUnion>(id) {
                Some(x) => Some(x.show_prettier(map)),
                None => None,
            },
            Some(DataItemKind::Module) => match self.search_for_module(id) {
                Some(x) => Some(x.item_tree(map)),
                None => None,
            },
            None => None,
        }
    }

    /// The tree of the implementations of the data item with the id; a trait shows its
    /// fancier tree.
    pub fn impl_tree(&self, id: &ID, map: &IDMap) -> (r: Option<DocTree>)
        ensures
            opt_tree_view(r) == impls_view(*map, *self, id@),
    {
        match DataItemKind::new(id, map) {
            Some(DataItemKind::Struct) => match self.search_for::<DStruct>(id) {
                Some(x) => Some(x.impls.show_prettier(map)),
                None => None,
            },
            Some(DataItemKind::Enum) => match self.search_for::<DEnum>(id) {
                Some(x) => Some(x.impls.show_prettier(map)),
                None => None,
            },
            Some(DataItemKind::Trait) => match self.search_for::<DTrait>(id) {
                Some(x) => Some(x.show_prettier(map)),
                None => None,
            },
            Some(DataItemKind::Union) => match self.search_for::<DUnion>(id) {
                Some(x) => Some(x.impls.show_prettier(map)),
                None => None,
            },
            _ => None,
        }
    }

    /// The implementors of the trait with the id.
    pub fn implementor_tree(&self, id: &ID, map: &IDMap) -> (r: Option<DocTree>)
        ensures
            opt_tree_view(r) == match find_item::<DTrait>(*self, id@) {
                Some(x) => Some(trait_implementors(*map, x, 0)),
                None => None,
            },
    {
        match self.search_for::<DTrait>(id) {
            Some(x) => Some(x.implementors(map)),
            None => None,
        }
    }

    /// The associated items of the trait with the id.
    pub fn associated_item_tree(&self, id: &ID, map: &IDMap) -> (r: Option<DocTree>)
        ensures
            opt_tree_view(r) == match find_item::<DTrait>(*self, id@) {
                Some(x) => Some(trait_assoc(*map, x, 0)),
                None => None,
            },
    {
        match self.search_for::<DTrait>(id) {
            Some(x) => Some(x.associated_items(map)),
            None => None,
        }
    }

    /// The fields of the struct or union, or the variants of the enum, with the id.
    pub fn field_tree(&self, id: &ID, map: &IDMap) -> (r: Option<DocTree>)
        ensures
            opt_tree_view(r) == fields_view(*map, *self, id@),
    {
        match DataItemKind::new(id, map) {
            Some(DataItemKind::Struct) => match self.search_for::<DStruct>(id) {
                Some(x) => Some(x.fields_tree(map)),
                None => None,
            },
            Some(DataItemKind::Enum) => match self.search_for::<DEnum>(id) {
                Some(x) => Some(x.variants_tree(map)),
                None => None,
            },
            Some(DataItemKind::Union) => match self.search_for::<DUnion>(id) {
                Some(x) => Some(x.fields_tree(map)),
                None => None,
            },
            _ => None,
        }
    }
}

impl IDMap {
    /// The outline of the whole crate: its module tree with all items by name.
    pub fn dmodule_item_tree(&self) -> (r: DocTree)
        ensures
            forall|level: int| nodes_view(#[trigger] tree_nodes(r, level)) == item_tree(
                *self,
                self.dmod,
                level,
            ),
    {
        self.dmod.item_tree(self)
    }

    /// The fancier tree of the whole crate.
    pub fn dmodule_show_prettier(&self) -> (r: DocTree)
        ensures
            forall|level: int| nodes_view(#[trigger] tree_nodes(r, level)) == mod_pretty(
                *self,
                self.dmod,
                level,
            ),
    {
        self.dmod.show_prettier(self)
    }
}

// ---------------------------------------------------------------------------------------------
// How deep the fancier trees reach

proof fn lemma_at_level(s: Seq<RootView>, level: int)
    ensures
        levels_in(at_level(s, level), level, level),
{
}

/// Two parts within the same levels are within them together.
proof fn lemma_cat(a: Seq<NodeView>, b: Seq<NodeView>, lo: int, hi: int, alo: int, ahi: int, blo: int, bhi: int)
    requires
        levels_in(a, alo, ahi),
        levels_in(b, blo, bhi),
        lo <= alo,
        ahi <= hi,
        lo <= blo,
        bhi <= hi,
    ensures
        levels_in(a + b, lo, hi),
{
    lemma_levels_widen(a, alo, ahi, lo, hi);
    lemma_levels_widen(b, blo, bhi, lo, hi);
    lemma_levels_concat(a, b, lo, hi);
}

proof fn lemma_titled_levels(map: IDMap, title: Tag, tag: Tag, ids: Seq<Seq<char>>, level: int)
    ensures
        levels_in(titled(map, title, tag, ids, level), level, level + 1),
        levels_in(titled_if_any(map, title, tag, ids, level), level, level + 1),
{
    lemma_at_level(named(map, tag, ids), level + 1);
    lemma_cat(seq![(heading(title), level)], at_level(named(map, tag, ids), level + 1), level, level + 1, level, level, level + 1, level + 1);
}

proof fn lemma_impl_blocks_levels(map: IDMap, bs: Seq<DImplInner>, tag: Tag, level: int)
    ensures
        levels_in(impl_blocks(map, bs, tag, level), level, level + 1),
    decreases bs.len(),
{
    if bs.len() > 0 {
        lemma_impl_blocks_levels(map, bs.drop_last(), tag, level);
        let b = bs.last();
        lemma_at_level(impl_items(map, b), level + 1);
        lemma_cat(seq![(name_root(map, b.id@, tag), level)], at_level(impl_items(map, b), level + 1), level, level + 1, level, level, level + 1, level + 1);
        lemma_cat(impl_blocks(map, bs.drop_last(), tag, level), impl_block(map, b, tag, level), level, level + 1, level, level + 1, level, level + 1);
    }
}

proof fn lemma_impl_group_levels(map: IDMap, title: Tag, tag: Tag, bs: Seq<DImplInner>, level: int)
    ensures
        levels_in(impl_group(map, title, tag, bs, level), level, level + 2),
{
    if bs.len() > 0 {
        lemma_impl_blocks_levels(map, bs, tag, level + 1);
        lemma_cat(seq![(heading(title), level)], impl_blocks(map, bs, tag, level + 1), level, level + 2, level, level, level + 1, level + 2);
    }
}

proof fn lemma_impl_levels(map: IDMap, d: DImpl, level: int)
    ensures
        levels_in(impl_pretty(map, d, level), level, level + 3),
{
    if !d.spec_is_empty() {
        let inherent = if d.merged_inherent.spec_is_empty() {
            seq![]
        } else {
            seq![(heading(Tag::InherentImpls), level + 1)] + at_level(
                impl_items(map, d.merged_inherent),
                level + 2,
            )
        };
        lemma_at_level(impl_items(map, d.merged_inherent), level + 2);
        if !d.merged_inherent.spec_is_empty() {
            lemma_cat(seq![(heading(Tag::InherentImpls), level + 1)], at_level(impl_items(map, d.merged_inherent), level + 2), level + 1, level + 2, level + 1, level + 1, level + 2, level + 2);
        }
        assert(levels_in(inherent, level + 1, level + 2));
        lemma_impl_group_levels(map, Tag::TraitImpls, Tag::ImplTrait, d.trait_@, level + 1);
        lemma_impl_group_levels(map, Tag::AutoImpls, Tag::ImplAuto, d.auto@, level + 1);
        lemma_impl_group_levels(map, Tag::BlanketImpls, Tag::ImplBlanket, d.blanket@, level + 1);
        let h = seq![(heading(Tag::Implementations), level)];
        let a = impl_group(map, Tag::TraitImpls, Tag::ImplTrait, d.trait_@, level + 1);
        let b = impl_group(map, Tag::AutoImpls, Tag::ImplAuto, d.auto@, level + 1);
        let c = impl_group(map, Tag::BlanketImpls, Tag::ImplBlanket, d.blanket@, level + 1);
        lemma_cat(h, inherent, level, level + 3, level, level, level + 1, level + 2);
        lemma_cat(h + inherent, a, level, level + 3, level, level + 3, level + 1, level + 3);
        lemma_cat(h + inherent + a, b, level, level + 3, level, level + 3, level + 1, level + 3);
        lemma_cat(h + inherent + a + b, c, level, level + 3, level, level + 3, level + 1, level + 3);
    }
}

proof fn lemma_struct_levels(map: IDMap, s: DStruct, level: int)
    ensures
        levels_in(struct_pretty(map, s, level), level, level + 4),
{
    let ids = ids_seq(s.fields@);
    lemma_titled_levels(map, Tag::Fields, Tag::Field, ids, level + 1);
    let f = struct_fields_part(map, s, level + 1);
    if ids.len() > 0 && s.contain_private_fields {
        lemma_cat(titled(map, Tag::Fields, Tag::Field, ids, level + 1), seq![(heading(Tag::FieldsPrivate), level + 2)], level + 1, level + 2, level + 1, level + 2, level + 2, level + 2);
    }
    assert(levels_in(f, level + 1, level + 2));
    lemma_impl_levels(map, s.impls, level + 1);
    let r = seq![(path_root(map, s.id@, Tag::Struct), level)];
    lemma_cat(r, f, level, level + 4, level, level, level + 1, level + 2);
    lemma_cat(r + f, impl_pretty(map, s.impls, level + 1), level, level + 4, level, level + 4, level + 1, level + 4);
}

proof fn lemma_enum_levels(map: IDMap, e: DEnum, level: int)
    ensures
        levels_in(enum_pretty(map, e, level), level, level + 4),
{
    let ids = ids_seq(e.variants@);
    lemma_titled_levels(map, Tag::Variants, Tag::Variant, ids, level + 1);
    let f = if ids.len() == 0 {
        seq![(heading(Tag::NoVariants), level + 1)]
    } else {
        titled(map, Tag::Variants, Tag::Variant, ids, level + 1)
    };
    assert(levels_in(f, level + 1, level + 2));
    lemma_impl_levels(map, e.impls, level + 1);
    let r = seq![(path_root(map, e.id@, Tag::Enum), level)];
    lemma_cat(r, f, level, level + 4, level, level, level + 1, level + 2);
    lemma_cat(r + f, impl_pretty(map, e.impls, level + 1), level, level + 4, level, level + 4, level + 1, level + 4);
}

proof fn lemma_union_levels(map: IDMap, u: DUnion, level: int)
    ensures
        levels_in(union_pretty(map, u, level), level, level + 4),
{
    let ids = ids_seq(u.fields@);
    lemma_titled_levels(map, Tag::Fields, Tag::Field, ids, level + 1);
    let f = if ids.len() == 0 {
        seq![(heading(Tag::NoFields), level + 1)]
    } else {
        titled(map, Tag::Fields, Tag::Field, ids, level + 1)
    };
    assert(levels_in(f, level + 1, level + 2));
    lemma_impl_levels(map, u.impls, level + 1);
    let r = seq![(path_root(map, u.id@, Tag::Union), level)];
    lemma_cat(r, f, level, level + 4, level, level, level + 1, level + 2);
    lemma_cat(r + f, impl_pretty(map, u.impls, level + 1), level, level + 4, level, level + 4, level + 1, level + 4);
}

proof fn lemma_trait_levels(map: IDMap, t: DTrait, level: int)
    ensures
        levels_in(trait_pretty(map, t, level), level, level + 4),
{
    let l1 = level + 1;
    let a = titled_if_any(map, Tag::AssocConsts, Tag::AssocConst, ids_seq(t.constants@), l1);
    let b = titled_if_any(map, Tag::AssocTypes, Tag::AssocType, ids_seq(t.types@), l1);
    let c = titled_if_any(map, Tag::AssocFns, Tag::AssocFn, ids_seq(t.functions@), l1);
    let d = titled_if_any(map, Tag::Implementors, Tag::Implementor, ids_seq(t.implementations@), l1);
    lemma_titled_levels(map, Tag::AssocConsts, Tag::AssocConst, ids_seq(t.constants@), l1);
    lemma_titled_levels(map, Tag::AssocTypes, Tag::AssocType, ids_seq(t.types@), l1);
    lemma_titled_levels(map, Tag::AssocFns, Tag::AssocFn, ids_seq(t.functions@), l1);
    lemma_titled_levels(map, Tag::Implementors, Tag::Implementor, ids_seq(t.implementations@), l1);
    lemma_cat(a, b, l1, l1 + 1, l1, l1 + 1, l1, l1 + 1);
    lemma_cat(a + b, c, l1, l1 + 1, l1, l1 + 1, l1, l1 + 1);
    lemma_cat(a + b + c, d, l1, l1 + 1, l1, l1 + 1, l1, l1 + 1);
    let rest = if trait_bare(t) {
        seq![(heading(Tag::NoAssocOrImpls), l1)]
    } else {
        a + b + c + d
    };
    assert(levels_in(rest, l1, l1 + 1));
    lemma_cat(seq![(path_root(map, t.id@, Tag::Trait), level)], rest, level, level + 4, level, level, l1, l1 + 1);
}

/// Items each of whose fancier forms lies within four levels below it.
pub open spec fn pretty_within<T: Show>(map: IDMap, xs: Seq<T>) -> bool {
    forall|i: int, l: int| 0 <= i < xs.len() ==> levels_in(#[trigger] xs[i].pretty_view(map, l), l, l + 4)
}

proof fn lemma_pretty_seq_levels<T: Show>(map: IDMap, xs: Seq<T>, level: int)
    requires
        pretty_within(map, xs),
    ensures
        levels_in(pretty_seq(map, xs, level), level, level + 4),
    decreases xs.len(),
{
    if xs.len() > 0 {
        let pre = xs.drop_last();
        assert(pretty_within(map, pre)) by {
            assert forall|i: int, l: int| 0 <= i < pre.len() implies levels_in(#[trigger] pre[i].pretty_view(map, l), l, l + 4) by {
                assert(pre[i] == xs[i]);
            }
        }
        lemma_pretty_seq_levels(map, pre, level);
        assert(levels_in(xs[xs.len() - 1].pretty_view(map, level), level, level + 4));
        lemma_cat(pretty_seq(map, pre, level), xs.last().pretty_view(map, level), level, level + 4, level, level + 4, level, level + 4);
    }
}

proof fn lemma_pretty_group_levels<T: Show>(map: IDMap, title: Tag, xs: Seq<T>, level: int)
    requires
        pretty_within(map, xs),
    ensures
        levels_in(pretty_group(map, title, xs, level), level, level + 5),
{
    if xs.len() > 0 {
        lemma_pretty_seq_levels(map, xs, level + 1);
        lemma_cat(seq![(heading(title), level)], pretty_seq(map, xs, level + 1), level, level + 5, level, level, level + 1, level + 5);
    }
}

proof fn lemma_mod_kinds_levels(map: IDMap, m: DModule, level: int)
    ensures
        levels_in(mod_kinds_pretty(map, m, level), level, level + 5),
{
    let l = level;
    lemma_titled_levels(map, Tag::Functions, Tag::Function, ids_of(m.functions@), l);
    lemma_titled_levels(map, Tag::Constants, Tag::Constant, ids_of(m.constants@), l);
    lemma_titled_levels(map, Tag::Statics, Tag::Static, ids_of(m.statics@), l);
    lemma_titled_levels(map, Tag::TypeAliass, Tag::TypeAlias, ids_of(m.type_alias@), l);
    lemma_titled_levels(map, Tag::MacroDecls, Tag::MacroDecl, ids_of(m.macros_decl@), l);
    lemma_titled_levels(map, Tag::MacroFuncs, Tag::MacroFunc, ids_of(m.macros_func@), l);
    lemma_titled_levels(map, Tag::MacroAttrs, Tag::MacroAttr, ids_of(m.macros_attr@), l);
    lemma_titled_levels(map, Tag::MacroDervs, Tag::MacroDerv, ids_of(m.macros_derv@), l);
    let v1 = titled_if_any(map, Tag::Functions, Tag::Function, ids_of(m.functions@), l);
    let v2 = titled_if_any(map, Tag::Constants, Tag::Constant, ids_of(m.constants@), l);
    let v3 = titled_if_any(map, Tag::Statics, Tag::Static, ids_of(m.statics@), l);
    let v4 = titled_if_any(map, Tag::TypeAliass, Tag::TypeAlias, ids_of(m.type_alias@), l);
    lemma_cat(v1, v2, l, l + 5, l, l + 1, l, l + 1);
    lemma_cat(v1 + v2, v3, l, l + 5, l, l + 5, l, l + 1);
    lemma_cat(v1 + v2 + v3, v4, l, l + 5, l, l + 5, l, l + 1);
    assert(levels_in(mod_values_pretty(map, m, l), l, l + 5));
    let w1 = titled_if_any(map, Tag::MacroDecls, Tag::MacroDecl, ids_of(m.macros_decl@), l);
    let w2 = titled_if_any(map, Tag::MacroFuncs, Tag::MacroFunc, ids_of(m.macros_func@), l);
    let w3 = titled_if_any(map, Tag::MacroAttrs, Tag::MacroAttr, ids_of(m.macros_attr@), l);
    let w4 = titled_if_any(map, Tag::MacroDervs, Tag::MacroDerv, ids_of(m.macros_derv@), l);
    lemma_cat(w1, w2, l, l + 5, l, l + 1, l, l + 1);
    lemma_cat(w1 + w2, w3, l, l + 5, l, l + 5, l, l + 1);
    lemma_cat(w1 + w2 + w3, w4, l, l + 5, l, l + 5, l, l + 1);
    assert(levels_in(mod_macros_pretty(map, m, l), l, l + 5));
    assert(pretty_within(map, m.traits@)) by {
        assert forall|i: int, k: int| 0 <= i < m.traits@.len() implies levels_in(#[trigger] m.traits@[i].pretty_view(map, k), k, k + 4) by {
            lemma_trait_levels(map, m.traits@[i], k);
        }
    }
    assert(pretty_within(map, m.structs@)) by {
        assert forall|i: int, k: int| 0 <= i < m.structs@.len() implies levels_in(#[trigger] m.structs@[i].pretty_view(map, k), k, k + 4) by {
            lemma_struct_levels(map, m.structs@[i], k);
        }
    }
    assert(pretty_within(map, m.unions@)) by {
        assert forall|i: int, k: int| 0 <= i < m.unions@.len() implies levels_in(#[trigger] m.unions@[i].pretty_view(map, k), k, k + 4) by {
            lemma_union_levels(map, m.unions@[i], k);
        }
    }
    assert(pretty_within(map, m.enums@)) by {
        assert forall|i: int, k: int| 0 <= i < m.enums@.len() implies levels_in(#[trigger] m.enums@[i].pretty_view(map, k), k, k + 4) by {
            lemma_enum_levels(map, m.enums@[i], k);
        }
    }
    lemma_pretty_group_levels(map, Tag::Traits, m.traits@, l);
    lemma_pretty_group_levels(map, Tag::Structs, m.structs@, l);
    lemma_pretty_group_levels(map, Tag::Unions, m.unions@, l);
    lemma_pretty_group_levels(map, Tag::Enums, m.enums@, l);
    let d1 = pretty_group(map, Tag::Traits, m.traits@, l);
    let d2 = pretty_group(map, Tag::Structs, m.structs@, l);
    let d3 = pretty_group(map, Tag::Unions, m.unions@, l);
    let d4 = pretty_group(map, Tag::Enums, m.enums@, l);
    lemma_cat(d1, d2, l, l + 5, l, l + 5, l, l + 5);
    lemma_cat(d1 + d2, d3, l, l + 5, l, l + 5, l, l + 5);
    lemma_cat(d1 + d2 + d3, d4, l, l + 5, l, l + 5, l, l + 5);
    assert(levels_in(mod_data_pretty(map, m, l), l, l + 5));
    lemma_cat(mod_values_pretty(map, m, l), mod_macros_pretty(map, m, l), l, l + 5, l, l + 5, l, l + 5);
    lemma_cat(mod_values_pretty(map, m, l) + mod_macros_pretty(map, m, l), mod_data_pretty(map, m, l), l, l + 5, l, l + 5, l, l + 5);
}

/// The fancier tree of a root module whose modules nest at most 248 deep lies within the
/// levels of outline lines.
pub proof fn lemma_mod_pretty_within(map: IDMap, d: DModule)
    requires
        mods_depth(d.modules@) <= u8::MAX - 7,
    ensures
        levels_in(mod_pretty(map, d, 0), 0, u8::MAX - 1),
{
    lemma_mod_pretty_levels(map, d, 0);
    lemma_levels_widen(mod_pretty(map, d, 0), 0, 6 + mods_depth(d.modules@) as int, 0, u8::MAX - 1);
}

/// The fancier tree of a module lies within six levels below it, plus the depth of its
/// submodules.
pub proof fn lemma_mod_pretty_levels(map: IDMap, m: DModule, level: int)
    ensures
        levels_in(mod_pretty(map, m, level), level, level + 6 + mods_depth(m.modules@)),
    decreases m,
{
    let hi = level + 6 + mods_depth(m.modules@);
    assert(decreases_to!(m => m.modules));
    assert(decreases_to!(m.modules => m.modules@));
    lemma_mod_kinds_levels(map, m, level + 1);
    lemma_mods_pretty_levels(map, m.modules@, level + 1);
    let r = seq![(path_root(map, m.id@, Tag::Module), level)];
    lemma_cat(r, mod_kinds_pretty(map, m, level + 1), level, hi, level, level, level + 1, level + 6);
    lemma_cat(r + mod_kinds_pretty(map, m, level + 1), mods_pretty(map, m.modules@, level + 1), level, hi, level, hi, level + 1, level + 1 + 5 + mods_depth(m.modules@));
}

proof fn lemma_mods_pretty_levels(map: IDMap, ms: Seq<DModule>, level: int)
    ensures
        levels_in(mods_pretty(map, ms, level), level, level + 5 + mods_depth(ms)),
    decreases ms,
{
    if ms.len() > 0 {
        let pre = ms.subrange(0, ms.len() - 1);
        let last = ms[ms.len() - 1];
        lemma_depth_last(ms);
        lemma_mods_pretty_levels(map, pre, level);
        lemma_mod_pretty_levels(map, last, level);
        lemma_cat(mods_pretty(map, pre, level), mod_pretty(map, last, level), level, level + 5 + mods_depth(ms), level, level + 5 + mods_depth(pre), level, level + 6 + mods_depth(last.modules@));
    }
}

} // verus!
