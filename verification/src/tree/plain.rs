use vstd::prelude::*;
use crate::tree::construct::ids_seq;
use crate::tree::doctree::DocTree;
use crate::tree::id::ID;
use crate::tree::nodes::{DImpl, DImplInner, DMacro, DMacroKind, DModule, DEnum, DStruct, DTrait, DUnion};
use crate::tree::outline::{
    at_level, ids_of, leafy, lemma_forest_leafy, nodes_view, roots_view, text_tag_view, HasId,
    NodeView, RootView,
};
use crate::tree::prettier::{
    heading, heading_node, lemma_single, push_leaves, push_tree, tree_with, Show,
};
use crate::tree::tag::Tag;
use crate::tree::textline::{forest_nodes, tree_nodes};
use crate::util::{str_to_string, string_push_str};

verus! {

/// A plain node with the text and no tag.
pub open spec fn plain(text: Seq<char>) -> RootView {
    (text, Tag::Unknown, None)
}

/// Plain nodes of ids.
pub open spec fn plain_ids(ids: Seq<Seq<char>>) -> Seq<RootView> {
    ids.map_values(|i: Seq<char>| plain(i))
}

/// A plain title with plain ids under it.
pub open spec fn plain_list(title: Seq<char>, ids: Seq<Seq<char>>, level: int) -> Seq<NodeView> {
    seq![(plain(title), level)] + at_level(plain_ids(ids), level + 1)
}

/// A plain title with plain ids under it, or nothing when there are no ids.
pub open spec fn plain_list_if_any(title: Seq<char>, ids: Seq<Seq<char>>, level: int) -> Seq<
    NodeView,
> {
    if ids.len() == 0 {
        seq![]
    } else {
        plain_list(title, ids, level)
    }
}

/// An impl block by its id with its functions, constants and types by their ids.
pub open spec fn block_plain(b: DImplInner, level: int) -> Seq<NodeView> {
    seq![(plain(b.id@), level)] + plain_list_if_any("Functions"@, ids_seq(b.functions@), level + 1)
        + plain_list_if_any("Constants"@, ids_seq(b.constants@), level + 1) + plain_list_if_any(
        "Types"@,
        ids_seq(b.types@),
        level + 1,
    )
}

pub open spec fn blocks_plain(bs: Seq<DImplInner>, level: int) -> Seq<NodeView>
    decreases bs.len(),
{
    if bs.len() == 0 {
        seq![]
    } else {
        blocks_plain(bs.drop_last(), level) + block_plain(bs.last(), level)
    }
}

/// A plain title with impl blocks under it.
pub open spec fn blocks_titled(title: Seq<char>, bs: Seq<DImplInner>, level: int) -> Seq<NodeView> {
    seq![(plain(title), level)] + blocks_plain(bs, level + 1)
}

/// The implementations in their plain form: each kind's title, even with no blocks under it.
pub open spec fn impl_plain(d: DImpl, level: int) -> Seq<NodeView> {
    seq![(plain("Implementations"@), level)] + blocks_titled("Inherent Impls"@, d.inherent@, level + 1)
        + blocks_titled("Trait Impls"@, d.trait_@, level + 1) + blocks_titled(
        "Auto Impls"@,
        d.auto@,
        level + 1,
    ) + blocks_titled("Blanket Impls"@, d.blanket@, level + 1)
}

/// A struct in its plain form.
pub open spec fn struct_plain(s: DStruct, level: int) -> Seq<NodeView> {
    seq![(plain("[struct] "@ + s.id@), level), (plain("Fields"@), level + 1)] + at_level(
        plain_ids(ids_seq(s.fields@)),
        level + 2,
    ) + (if s.contain_private_fields {
        seq![(heading(Tag::FieldsPrivate), level + 2)]
    } else {
        seq![]
    }) + impl_plain(s.impls, level + 1)
}

/// An enum in its plain form.
pub open spec fn enum_plain(e: DEnum, level: int) -> Seq<NodeView> {
    seq![(plain("[enum]"@), level)] + plain_list("Variants"@, ids_seq(e.variants@), level + 1)
        + impl_plain(e.impls, level + 1)
}

/// A union in its plain form.
pub open spec fn union_plain(u: DUnion, level: int) -> Seq<NodeView> {
    seq![(plain("[union] "@ + u.id@), level)] + plain_list("Fields"@, ids_seq(u.fields@), level + 1)
        + impl_plain(u.impls, level + 1)
}

/// A trait in its plain form.
pub open spec fn trait_plain(t: DTrait, level: int) -> Seq<NodeView> {
    seq![(plain("[trait] "@ + t.id@), level)] + plain_list(
        "Associated Constants"@,
        ids_seq(t.constants@),
        level + 1,
    ) + plain_list("Associated Types"@, ids_seq(t.types@), level + 1) + plain_list(
        "Associated Functions"@,
        ids_seq(t.functions@),
        level + 1,
    ) + plain_list("Implementors"@, ids_seq(t.implementations@), level + 1)
}

/// The label before a macro's id.
pub open spec fn macro_label(k: DMacroKind) -> Seq<char> {
    match k {
        DMacroKind::Declarative => "[decl] "@,
        DMacroKind::ProcFunction => "[func] "@,
        DMacroKind::ProcAttribute => "[attr] "@,
        DMacroKind::ProcDerive => "[derv] "@,
    }
}

/// The plain forms of items one after another.
pub open spec fn plain_seq<T: Show>(xs: Seq<T>, level: int) -> Seq<NodeView>
    decreases xs.len(),
{
    if xs.len() == 0 {
        seq![]
    } else {
        plain_seq(xs.drop_last(), level) + xs.last().plain_view(level)
    }
}

/// A kind's heading over the plain forms of its items, or nothing when there are none.
pub open spec fn plain_group<T: Show>(title: Tag, xs: Seq<T>, level: int) -> Seq<NodeView> {
    if xs.len() == 0 {
        seq![]
    } else {
        seq![(heading(title), level)] + plain_seq(xs, level + 1)
    }
}

/// A kind's heading over the ids of its simple items, or nothing when there are none.
pub open spec fn plain_ids_group(title: Tag, ids: Seq<Seq<char>>, level: int) -> Seq<NodeView> {
    if ids.len() == 0 {
        seq![]
    } else {
        seq![(heading(title), level)] + at_level(plain_ids(ids), level + 1)
    }
}

/// A module's functions, constants, statics and type aliases under their headings, by ids.
pub open spec fn mod_values_plain(m: DModule, level: int) -> Seq<NodeView> {
    plain_ids_group(Tag::Functions, ids_of(m.functions@), level) + plain_ids_group(
        Tag::Constants,
        ids_of(m.constants@),
        level,
    ) + plain_ids_group(Tag::Statics, ids_of(m.statics@), level) + plain_ids_group(
        Tag::TypeAliass,
        ids_of(m.type_alias@),
        level,
    )
}

/// A module's macros of each kind under their headings, by ids.
pub open spec fn mod_macros_plain(m: DModule, level: int) -> Seq<NodeView> {
    plain_ids_group(Tag::MacroDecls, ids_of(m.macros_decl@), level) + plain_ids_group(
        Tag::MacroFuncs,
        ids_of(m.macros_func@),
        level,
    ) + plain_ids_group(Tag::MacroAttrs, ids_of(m.macros_attr@), level) + plain_ids_group(
        Tag::MacroDervs,
        ids_of(m.macros_derv@),
        level,
    )
}

/// A module's simple items under their kinds' headings, by their ids.
pub open spec fn mod_simple_plain(m: DModule, level: int) -> Seq<NodeView> {
    mod_values_plain(m, level) + mod_macros_plain(m, level)
}

/// A module's data items under their kinds' headings, each in its plain form.
pub open spec fn mod_data_plain(m: DModule, level: int) -> Seq<NodeView> {
    plain_group(Tag::Traits, m.traits@, level) + plain_group(Tag::Structs, m.structs@, level)
        + plain_group(Tag::Unions, m.unions@, level) + plain_group(Tag::Enums, m.enums@, level)
}

/// A module in its plain form, with its submodules likewise.
pub open spec fn mod_plain(m: DModule, level: int) -> Seq<NodeView>
    decreases m,
{
    seq![(plain("[mod] "@ + m.id@), level)] + mod_simple_plain(m, level + 1) + mod_data_plain(
        m,
        level + 1,
    ) + mods_plain(m.modules@, level + 1)
}

pub open spec fn mods_plain(ms: Seq<DModule>, level: int) -> Seq<NodeView>
    decreases ms,
{
    if ms.len() == 0 {
        seq![]
    } else {
        mods_plain(ms.subrange(0, ms.len() - 1), level) + mod_plain(ms[ms.len() - 1], level)
    }
}

/// A plain node with the text.
fn plain_node(text: String) -> (r: DocTree)
    ensures
        r.leaves@.len() == 0,
        text_tag_view(r.root) == plain(text@),
{
    DocTree::new(text, Tag::Unknown, None)
}

/// The text of a label followed by an id.
fn labeled(label: &str, id: &ID) -> (r: String)
    ensures
        r@ == label@ + id@,
{
    let mut s = str_to_string(label);
    string_push_str(&mut s, id.as_str());
    s
}

/// Plain nodes of the items' ids.
fn plain_id_nodes<T: HasId>(items: &Vec<T>) -> (r: Vec<DocTree>)
    ensures
        leafy(r@),
        roots_view(r@) == plain_ids(ids_of(items@)),
{
    let mut out: Vec<DocTree> = Vec::new();
    let mut i: usize = 0;
    while i < items.len()
        invariant
            i <= items@.len(),
            leafy(out@),
            roots_view(out@) == plain_ids(ids_of(items@.subrange(0, i as int))),
        decreases items@.len() - i,
    {
        let n = plain_node(items[i].item_id().id.clone());
        let ghost before = out@;
        out.push(n);
        proof {
            assert(ids_of(items@.subrange(0, i + 1)) =~= ids_of(items@.subrange(0, i as int)).push(
                items@[i as int].spec_id()@,
            ));
            assert(roots_view(out@) =~= roots_view(before).push(text_tag_view(n.root)));
            assert(roots_view(out@) =~= plain_ids(ids_of(items@.subrange(0, i + 1))));
        }
        i = i + 1;
    }
    assert(items@.subrange(0, i as int) == items@);
    out
}

/// Plain nodes of the ids.
pub fn show_ids(ids: &Vec<ID>) -> (r: Vec<DocTree>)
    ensures
        leafy(r@),
        roots_view(r@) == plain_ids(ids_seq(ids@)),
{
    proof {
        lemma_ids_plain(ids@);
    }
    plain_id_nodes(ids)
}

proof fn lemma_ids_plain(v: Seq<ID>)
    ensures
        ids_of(v) == ids_seq(v),
{
    assert(ids_of(v) =~= ids_seq(v));
}

/// A plain title over the plain ids of the items.
fn plain_list_tree<T: HasId>(title: &str, items: &Vec<T>) -> (r: DocTree)
    ensures
        forall|level: int| nodes_view(#[trigger] tree_nodes(r, level)) == plain_list(
            title@,
            ids_of(items@),
            level,
        ),
{
    let root = plain_node(str_to_string(title));
    let leaves = plain_id_nodes(items);
    let ghost lv = leaves@;
    let r = tree_with(root, leaves);
    assert forall|level: int| nodes_view(#[trigger] tree_nodes(r, level)) == plain_list(
        title@,
        ids_of(items@),
        level,
    ) by {
        lemma_forest_leafy(lv, level + 1);
    }
    r
}

/// Push a plain title over the plain ids when there are any.
fn push_plain_list_if_any(out: &mut Vec<DocTree>, title: &str, ids: &Vec<ID>)
    ensures
        forall|level: int| nodes_view(#[trigger] forest_nodes(final(out)@, level)) == nodes_view(
            forest_nodes(old(out)@, level),
        ) + plain_list_if_any(title@, ids_seq(ids@), level),
{
    let ghost before = out@;
    proof {
        lemma_ids_plain(ids@);
    }
    if ids.len() > 0 {
        let t = plain_list_tree(title, ids);
        push_tree(out, t);
    }
    assert forall|level: int| nodes_view(#[trigger] forest_nodes(out@, level)) == nodes_view(
        forest_nodes(before, level),
    ) + plain_list_if_any(title@, ids_seq(ids@), level) by {
        assert(nodes_view(forest_nodes(out@, level)) =~= nodes_view(forest_nodes(before, level))
            + plain_list_if_any(title@, ids_seq(ids@), level));
    }
}

impl DImplInner {
    /// The block by its id with its functions, constants and types by their ids.
    pub fn show(&self) -> (r: DocTree)
        ensures
            forall|level: int| nodes_view(#[trigger] tree_nodes(r, level)) == block_plain(
                *self,
                level,
            ),
    {
        let root = plain_node(self.id.id.clone());
        let mut leaves: Vec<DocTree> = Vec::new();
        let ghost s0 = leaves@;
        assert(forall|level: int| #[trigger] forest_nodes(s0, level) == Seq::<(crate::tree::doctree::TextTag, int)>::empty());
        push_plain_list_if_any(&mut leaves, "Functions", &self.functions);
        let ghost s1 = leaves@;
        push_plain_list_if_any(&mut leaves, "Constants", &self.constants);
        let ghost s2 = leaves@;
        push_plain_list_if_any(&mut leaves, "Types", &self.types);
        let r = tree_with(root, leaves);
        assert forall|level: int| nodes_view(#[trigger] tree_nodes(r, level)) == block_plain(
            *self,
            level,
        ) by {
            let _ = forest_nodes(s1, level + 1);
            let _ = forest_nodes(s2, level + 1);
            assert(nodes_view(tree_nodes(r, level)) =~= block_plain(*self, level));
        }
        r
    }
}

/// A plain title over the blocks' plain forms.
fn blocks_tree(title: &str, bs: &Vec<DImplInner>) -> (r: DocTree)
    ensures
        forall|level: int| nodes_view(#[trigger] tree_nodes(r, level)) == blocks_titled(
            title@,
            bs@,
            level,
        ),
{
    let root = plain_node(str_to_string(title));
    let mut leaves: Vec<DocTree> = Vec::new();
    let ghost start = leaves@;
    assert(forall|level: int| #[trigger] forest_nodes(start, level) == Seq::<(crate::tree::doctree::TextTag, int)>::empty());
    let mut i: usize = 0;
    while i < bs.len()
        invariant
            i <= bs@.len(),
            forall|level: int| nodes_view(#[trigger] forest_nodes(leaves@, level)) == blocks_plain(
                bs@.subrange(0, i as int),
                level,
            ),
        decreases bs@.len() - i,
    {
        let t = bs[i].show();
        let ghost before = leaves@;
        push_tree(&mut leaves, t);
        proof {
            let s = bs@.subrange(0, i + 1);
            assert(s.drop_last() == bs@.subrange(0, i as int));
            assert(s.last() == bs@[i as int]);
            assert forall|level: int| nodes_view(#[trigger] forest_nodes(leaves@, level))
                == blocks_plain(s, level) by {
                let _ = forest_nodes(before, level);
                assert(nodes_view(forest_nodes(leaves@, level)) =~= blocks_plain(s, level));
            }
        }
        i = i + 1;
    }
    assert(bs@.subrange(0, i as int) == bs@);
    let r = tree_with(root, leaves);
    assert forall|level: int| nodes_view(#[trigger] tree_nodes(r, level)) == blocks_titled(
        title@,
        bs@,
        level,
    ) by {
        assert(nodes_view(tree_nodes(r, level)) =~= blocks_titled(title@, bs@, level));
    }
    r
}

impl DImpl {
    /// Each kind's title with its blocks in their plain forms.
    pub fn show(&self) -> (r: DocTree)
        ensures
            forall|level: int| nodes_view(#[trigger] tree_nodes(r, level)) == impl_plain(
                *self,
                level,
            ),
    {
        let root = plain_node(str_to_string("Implementations"));
        let mut leaves: Vec<DocTree> = Vec::new();
        let ghost s0 = leaves@;
        assert(forall|level: int| #[trigger] forest_nodes(s0, level) == Seq::<(crate::tree::doctree::TextTag, int)>::empty());
        push_tree(&mut leaves, blocks_tree("Inherent Impls", &self.inherent));
        let ghost s1 = leaves@;
        push_tree(&mut leaves, blocks_tree("Trait Impls", &self.trait_));
        let ghost s2 = leaves@;
        push_tree(&mut leaves, blocks_tree("Auto Impls", &self.auto));
        let ghost s3 = leaves@;
        push_tree(&mut leaves, blocks_tree("Blanket Impls", &self.blanket));
        let r = tree_with(root, leaves);
        assert forall|level: int| nodes_view(#[trigger] tree_nodes(r, level)) == impl_plain(
            *self,
            level,
        ) by {
            let _ = forest_nodes(s1, level + 1);
            let _ = forest_nodes(s2, level + 1);
            let _ = forest_nodes(s3, level + 1);
            assert(nodes_view(tree_nodes(r, level)) =~= impl_plain(*self, level));
        }
        r
    }
}

impl DMacro {
    /// The macro by its kind's label and id.
    pub fn show(&self) -> (r: DocTree)
        ensures
            forall|level: int| nodes_view(#[trigger] tree_nodes(r, level)) == seq![
                (plain(macro_label(self.kind) + self.id@), level),
            ],
    {
        let label = match self.kind {
            DMacroKind::Declarative => "[decl] ",
            DMacroKind::ProcFunction => "[func] ",
            DMacroKind::ProcAttribute => "[attr] ",
            DMacroKind::ProcDerive => "[derv] ",
        };
        let r = plain_node(labeled(label, &self.id));
        assert forall|level: int| nodes_view(#[trigger] tree_nodes(r, level)) == seq![
            (plain(macro_label(self.kind) + self.id@), level),
        ] by {
            lemma_single(r, level);
        }
        r
    }

    /// As the plain form.
    pub fn show_prettier(&self) -> (r: DocTree)
        ensures
            forall|level: int| nodes_view(#[trigger] tree_nodes(r, level)) == seq![
                (plain(macro_label(self.kind) + self.id@), level),
            ],
    {
        self.show()
    }
}

/// A struct in its plain form.
pub(crate) fn struct_show(s: &DStruct) -> (r: DocTree)
    ensures
        forall|level: int| nodes_view(#[trigger] tree_nodes(r, level)) == struct_plain(*s, level),
{
    let root = plain_node(labeled("[struct] ", &s.id));
    let fields_root = plain_node(str_to_string("Fields"));
    let mut fields = plain_id_nodes(&s.fields);
    if s.contain_private_fields {
        fields.push(heading_node(Tag::FieldsPrivate));
    }
    let ghost fv = fields@;
    assert(leafy(fv));
    let f = tree_with(fields_root, fields);
    let b = s.impls.show();
    let r = root.with_leaves(vec![f, b]);
    assert forall|level: int| nodes_view(#[trigger] tree_nodes(r, level)) == struct_plain(*s, level) by {
        crate::tree::prettier::lemma_root_two(r, f, b, level);
        lemma_forest_leafy(fv, level + 2);
        lemma_ids_plain(s.fields@);
        assert(nodes_view(tree_nodes(r, level)) =~= struct_plain(*s, level));
    }
    r
}

/// An enum in its plain form.
pub(crate) fn enum_show(e: &DEnum) -> (r: DocTree)
    ensures
        forall|level: int| nodes_view(#[trigger] tree_nodes(r, level)) == enum_plain(*e, level),
{
    let root = plain_node(str_to_string("[enum]"));
    let a = plain_list_tree("Variants", &e.variants);
    let b = e.impls.show();
    let r = root.with_leaves(vec![a, b]);
    assert forall|level: int| nodes_view(#[trigger] tree_nodes(r, level)) == enum_plain(*e, level) by {
        crate::tree::prettier::lemma_root_two(r, a, b, level);
        lemma_ids_plain(e.variants@);
    }
    r
}

/// A union in its plain form.
pub(crate) fn union_show(u: &DUnion) -> (r: DocTree)
    ensures
        forall|level: int| nodes_view(#[trigger] tree_nodes(r, level)) == union_plain(*u, level),
{
    let root = plain_node(labeled("[union] ", &u.id));
    let a = plain_list_tree("Fields", &u.fields);
    let b = u.impls.show();
    let r = root.with_leaves(vec![a, b]);
    assert forall|level: int| nodes_view(#[trigger] tree_nodes(r, level)) == union_plain(*u, level) by {
        crate::tree::prettier::lemma_root_two(r, a, b, level);
        lemma_ids_plain(u.fields@);
    }
    r
}

/// A trait in its plain form.
pub(crate) fn trait_show(t: &DTrait) -> (r: DocTree)
    ensures
        forall|level: int| nodes_view(#[trigger] tree_nodes(r, level)) == trait_plain(*t, level),
{
    let root = plain_node(labeled("[trait] ", &t.id));
    let mut leaves: Vec<DocTree> = Vec::new();
    let ghost s0 = leaves@;
    assert(forall|level: int| #[trigger] forest_nodes(s0, level) == Seq::<(crate::tree::doctree::TextTag, int)>::empty());
    push_tree(&mut leaves, plain_list_tree("Associated Constants", &t.constants));
    let ghost s1 = leaves@;
    push_tree(&mut leaves, plain_list_tree("Associated Types", &t.types));
    let ghost s2 = leaves@;
    push_tree(&mut leaves, plain_list_tree("Associated Functions", &t.functions));
    let ghost s3 = leaves@;
    push_tree(&mut leaves, plain_list_tree("Implementors", &t.implementations));
    let r = tree_with(root, leaves);
    assert forall|level: int| nodes_view(#[trigger] tree_nodes(r, level)) == trait_plain(*t, level) by {
        let _ = forest_nodes(s1, level + 1);
        let _ = forest_nodes(s2, level + 1);
        let _ = forest_nodes(s3, level + 1);
        lemma_ids_plain(t.constants@);
        lemma_ids_plain(t.types@);
        lemma_ids_plain(t.functions@);
        lemma_ids_plain(t.implementations@);
        assert(nodes_view(tree_nodes(r, level)) =~= trait_plain(*t, level));
    }
    r
}

/// Push a kind's heading over the items' ids when there are any.
fn push_plain_ids_group<T: HasId>(out: &mut Vec<DocTree>, title: Tag, items: &Vec<T>)
    requires
        title.spec_heading_text() is Some,
    ensures
        forall|level: int| nodes_view(#[trigger] forest_nodes(final(out)@, level)) == nodes_view(
            forest_nodes(old(out)@, level),
        ) + plain_ids_group(title, ids_of(items@), level),
{
    let ghost before = out@;
    if items.len() > 0 {
        let root = heading_node(title);
        let leaves = plain_id_nodes(items);
        let ghost lv = leaves@;
        let t = tree_with(root, leaves);
        push_tree(out, t);
        assert forall|level: int| nodes_view(#[trigger] forest_nodes(out@, level)) == nodes_view(
            forest_nodes(before, level),
        ) + plain_ids_group(title, ids_of(items@), level) by {
            lemma_forest_leafy(lv, level + 1);
            assert(nodes_view(forest_nodes(out@, level)) =~= nodes_view(forest_nodes(before, level))
                + plain_ids_group(title, ids_of(items@), level));
        }
    } else {
        assert forall|level: int| nodes_view(#[trigger] forest_nodes(out@, level)) == nodes_view(
            forest_nodes(before, level),
        ) + plain_ids_group(title, ids_of(items@), level) by {
            assert(nodes_view(forest_nodes(out@, level)) =~= nodes_view(forest_nodes(before, level))
                + plain_ids_group(title, ids_of(items@), level));
        }
    }
}

/// Push a kind's heading over the items' plain forms when there are any.
fn push_plain_group<T: Show>(out: &mut Vec<DocTree>, title: Tag, xs: &Vec<T>)
    requires
        title.spec_heading_text() is Some,
    ensures
        forall|level: int| nodes_view(#[trigger] forest_nodes(final(out)@, level)) == nodes_view(
            forest_nodes(old(out)@, level),
        ) + plain_group(title, xs@, level),
{
    let ghost before = out@;
    if xs.len() > 0 {
        let root = heading_node(title);
        let mut leaves: Vec<DocTree> = Vec::new();
        let ghost start = leaves@;
        assert(forall|level: int| #[trigger] forest_nodes(start, level) == Seq::<(crate::tree::doctree::TextTag, int)>::empty());
        let mut i: usize = 0;
        while i < xs.len()
            invariant
                i <= xs@.len(),
                forall|level: int| nodes_view(#[trigger] forest_nodes(leaves@, level)) == plain_seq(
                    xs@.subrange(0, i as int),
                    level,
                ),
            decreases xs@.len() - i,
        {
            let t = xs[i].show();
            let ghost prev = leaves@;
            push_tree(&mut leaves, t);
            proof {
                let sub = xs@.subrange(0, i + 1);
                assert(sub.drop_last() == xs@.subrange(0, i as int));
                assert(sub.last() == xs@[i as int]);
                assert forall|level: int| nodes_view(#[trigger] forest_nodes(leaves@, level))
                    == plain_seq(sub, level) by {
                    let _ = forest_nodes(prev, level);
                    assert(nodes_view(forest_nodes(leaves@, level)) =~= plain_seq(sub, level));
                }
            }
            i = i + 1;
        }
        assert(xs@.subrange(0, i as int) == xs@);
        let ghost lv = leaves@;
        let t = tree_with(root, leaves);
        push_tree(out, t);
        assert forall|level: int| nodes_view(#[trigger] forest_nodes(out@, level)) == nodes_view(
            forest_nodes(before, level),
        ) + plain_group(title, xs@, level) by {
            let _ = forest_nodes(lv, level + 1);
            assert(nodes_view(forest_nodes(out@, level)) =~= nodes_view(forest_nodes(before, level))
                + plain_group(title, xs@, level));
        }
    } else {
        assert forall|level: int| nodes_view(#[trigger] forest_nodes(out@, level)) == nodes_view(
            forest_nodes(before, level),
        ) + plain_group(title, xs@, level) by {
            assert(nodes_view(forest_nodes(out@, level)) =~= nodes_view(forest_nodes(before, level))
                + plain_group(title, xs@, level));
        }
    }
}

fn push_values_plain(out: &mut Vec<DocTree>, m: &DModule)
    ensures
        forall|level: int| nodes_view(#[trigger] forest_nodes(final(out)@, level)) == nodes_view(
            forest_nodes(old(out)@, level),
        ) + mod_values_plain(*m, level),
{
    let ghost s0 = out@;
    push_plain_ids_group(out, Tag::Functions, &m.functions);
    let ghost s1 = out@;
    push_plain_ids_group(out, Tag::Constants, &m.constants);
    let ghost s2 = out@;
    push_plain_ids_group(out, Tag::Statics, &m.statics);
    let ghost s3 = out@;
    push_plain_ids_group(out, Tag::TypeAliass, &m.type_alias);
    assert forall|level: int| nodes_view(#[trigger] forest_nodes(out@, level)) == nodes_view(
        forest_nodes(s0, level),
    ) + mod_values_plain(*m, level) by {
        let _ = forest_nodes(s1, level);
        let _ = forest_nodes(s2, level);
        let _ = forest_nodes(s3, level);
        assert(nodes_view(forest_nodes(out@, level)) =~= nodes_view(forest_nodes(s0, level))
            + mod_values_plain(*m, level));
    }
}

fn push_macros_plain(out: &mut Vec<DocTree>, m: &DModule)
    ensures
        forall|level: int| nodes_view(#[trigger] forest_nodes(final(out)@, level)) == nodes_view(
            forest_nodes(old(out)@, level),
        ) + mod_macros_plain(*m, level),
{
    let ghost s0 = out@;
    push_plain_ids_group(out, Tag::MacroDecls, &m.macros_decl);
    let ghost s1 = out@;
    push_plain_ids_group(out, Tag::MacroFuncs, &m.macros_func);
    let ghost s2 = out@;
    push_plain_ids_group(out, Tag::MacroAttrs, &m.macros_attr);
    let ghost s3 = out@;
    push_plain_ids_group(out, Tag::MacroDervs, &m.macros_derv);
    assert forall|level: int| nodes_view(#[trigger] forest_nodes(out@, level)) == nodes_view(
        forest_nodes(s0, level),
    ) + mod_macros_plain(*m, level) by {
        let _ = forest_nodes(s1, level);
        let _ = forest_nodes(s2, level);
        let _ = forest_nodes(s3, level);
        assert(nodes_view(forest_nodes(out@, level)) =~= nodes_view(forest_nodes(s0, level))
            + mod_macros_plain(*m, level));
    }
}

fn push_simple_plain(out: &mut Vec<DocTree>, m: &DModule)
    ensures
        forall|level: int| nodes_view(#[trigger] forest_nodes(final(out)@, level)) == nodes_view(
            forest_nodes(old(out)@, level),
        ) + mod_simple_plain(*m, level),
{
    let ghost s0 = out@;
    push_values_plain(out, m);
    let ghost s1 = out@;
    push_macros_plain(out, m);
    assert forall|level: int| nodes_view(#[trigger] forest_nodes(out@, level)) == nodes_view(
        forest_nodes(s0, level),
    ) + mod_simple_plain(*m, level) by {
        let _ = forest_nodes(s1, level);
        assert(nodes_view(forest_nodes(out@, level)) =~= nodes_view(forest_nodes(s0, level))
            + mod_simple_plain(*m, level));
    }
}

fn push_data_plain(out: &mut Vec<DocTree>, m: &DModule)
    ensures
        forall|level: int| nodes_view(#[trigger] forest_nodes(final(out)@, level)) == nodes_view(
            forest_nodes(old(out)@, level),
        ) + mod_data_plain(*m, level),
{
    let ghost s0 = out@;
    push_plain_group(out, Tag::Traits, &m.traits);
    let ghost s1 = out@;
    push_plain_group(out, Tag::Structs, &m.structs);
    let ghost s2 = out@;
    push_plain_group(out, Tag::Unions, &m.unions);
    let ghost s3 = out@;
    push_plain_group(out, Tag::Enums, &m.enums);
    assert forall|level: int| nodes_view(#[trigger] forest_nodes(out@, level)) == nodes_view(
        forest_nodes(s0, level),
    ) + mod_data_plain(*m, level) by {
        let _ = forest_nodes(s1, level);
        let _ = forest_nodes(s2, level);
        let _ = forest_nodes(s3, level);
        assert(nodes_view(forest_nodes(out@, level)) =~= nodes_view(forest_nodes(s0, level))
            + mod_data_plain(*m, level));
    }
}

impl DModule {
    /// The module in its plain form: ids under each kind's heading, then submodules likewise.
    pub fn show(&self) -> (r: DocTree)
        ensures
            forall|level: int| nodes_view(#[trigger] tree_nodes(r, level)) == mod_plain(
                *self,
                level,
            ),
        decreases self,
    {
        let root = plain_node(labeled("[mod] ", &self.id));
        let mut leaves: Vec<DocTree> = Vec::new();
        let ghost s0 = leaves@;
        assert(forall|level: int| #[trigger] forest_nodes(s0, level) == Seq::<(crate::tree::doctree::TextTag, int)>::empty());
        push_simple_plain(&mut leaves, self);
        let ghost s1 = leaves@;
        push_data_plain(&mut leaves, self);
        let ghost kinds = leaves@;
        let mut i: usize = 0;
        while i < self.modules.len()
            invariant
                i <= self.modules@.len(),
                forall|level: int| nodes_view(#[trigger] forest_nodes(leaves@, level)) == nodes_view(
                    forest_nodes(kinds, level),
                ) + mods_plain(self.modules@.subrange(0, i as int), level),
            decreases self.modules@.len() - i,
        {
            proof {
                assert(decreases_to!(self => self.modules));
                assert(decreases_to!(self.modules => self.modules@));
                assert(decreases_to!(self.modules@ => self.modules@[i as int]));
            }
            let t = self.modules[i].show();
            let ghost prev = leaves@;
            push_tree(&mut leaves, t);
            proof {
                let ms = self.modules@.subrange(0, i + 1);
                assert(ms.subrange(0, ms.len() - 1) == self.modules@.subrange(0, i as int));
                assert(ms[ms.len() - 1] == self.modules@[i as int]);
                assert forall|level: int| nodes_view(#[trigger] forest_nodes(leaves@, level))
                    == nodes_view(forest_nodes(kinds, level)) + mods_plain(ms, level) by {
                    let _ = forest_nodes(prev, level);
                    assert(nodes_view(forest_nodes(leaves@, level)) =~= nodes_view(
                        forest_nodes(kinds, level),
                    ) + mods_plain(ms, level));
                }
            }
            i = i + 1;
        }
        assert(self.modules@.subrange(0, i as int) == self.modules@);
        let r = tree_with(root, leaves);
        assert forall|level: int| nodes_view(#[trigger] tree_nodes(r, level)) == mod_plain(
            *self,
            level,
        ) by {
            let _ = forest_nodes(s1, level + 1);
            let _ = forest_nodes(kinds, level + 1);
            assert(nodes_view(tree_nodes(r, level)) =~= mod_plain(*self, level));
        }
        r
    }
}

} // verus!
