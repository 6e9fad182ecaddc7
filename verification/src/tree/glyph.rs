use vstd::prelude::*;
use crate::util::strings_view;
use crate::tree::tag::GlyphPalette;
use termtree::Tree;

verus! {

/// The tree type of `termtree`, used here only with empty text nodes
/// so that its display gives the stripe glyph of each node.
#[verifier::external_type_specification]
#[verifier::external_body]
#[verifier::reject_recursive_types(D)]
pub struct ExTree<D: std::fmt::Display>(termtree::Tree<D>);

/// The six glyph texts of a palette: middle item, last item, item indent, middle skip, last
/// skip and skip indent.
pub type PaletteV = (Seq<char>, Seq<char>, Seq<char>, Seq<char>, Seq<char>, Seq<char>);

/// A node of a glyph tree: its text, its glyphs where they were set, its depth below the
/// root, and whether it is drawn as multiline.
pub type GlyphRow = (Seq<char>, Option<PaletteV>, int, bool);

/// The nodes of a glyph tree in display order: the root, then each leaf's nodes in turn.
pub uninterp spec fn glyph_tree_rows(t: Tree<String>) -> Seq<GlyphRow>;

pub open spec fn palette_view(g: GlyphPalette) -> PaletteV {
    (g.middle_item@, g.last_item@, g.item_indent@, g.middle_skip@, g.last_skip@, g.skip_indent@)
}

/// The rows one level deeper, as the nodes of a leaf are below its parent's root.
pub open spec fn deepen(rows: Seq<GlyphRow>) -> Seq<GlyphRow> {
    rows.map_values(|r: GlyphRow| (r.0, r.1, r.2 + 1, r.3))
}

pub open spec fn no_line_break(s: Seq<char>) -> bool {
    !s.contains('\n') && !s.contains('\r')
}

pub open spec fn palette_single_line(p: PaletteV) -> bool {
    &&& no_line_break(p.0)
    &&& no_line_break(p.1)
    &&& no_line_break(p.2)
    &&& no_line_break(p.3)
    &&& no_line_break(p.4)
    &&& no_line_break(p.5)
}

/// The first row from `j` on whose depth is at most `d`, or the number of rows.
pub open spec fn first_at_most(rows: Seq<GlyphRow>, d: int, j: int) -> int
    decreases rows.len() - j,
{
    if j < 0 || j >= rows.len() {
        rows.len() as int
    } else if rows[j].2 <= d {
        j
    } else {
        first_at_most(rows, d, j + 1)
    }
}

/// The row is the last leaf of its parent: the next row that is not deeper is shallower, or
/// there is none.
pub open spec fn is_last_row(rows: Seq<GlyphRow>, k: int) -> bool {
    let j = first_at_most(rows, rows[k].2, k + 1);
    j >= rows.len() || rows[j].2 < rows[k].2
}

/// The last row at depth `d` up to row `j`: for a row below it, its ancestor at that depth.
pub open spec fn last_at(rows: Seq<GlyphRow>, d: int, j: int) -> int
    decreases j + 1,
{
    if j < 0 || j >= rows.len() {
        -1
    } else if rows[j].2 == d {
        j
    } else {
        last_at(rows, d, j - 1)
    }
}

pub open spec fn palette_of(rows: Seq<GlyphRow>, k: int) -> PaletteV {
    match rows[k].1 {
        Some(p) => p,
        None => (seq![], seq![], seq![], seq![], seq![], seq![]),
    }
}

/// What an ancestor draws on the lines below it: its skip glyph, a blank one once it is the
/// last leaf, then its skip indent (nothing for a row that is not there).
pub open spec fn space_of(rows: Seq<GlyphRow>, a: int) -> Seq<char> {
    if a < 0 || a >= rows.len() {
        seq![]
    } else {
        let p = palette_of(rows, a);
        (if is_last_row(rows, a) {
            p.4
        } else {
            p.3
        }) + p.5
    }
}

/// The spaces of the ancestors of row `k` from depth `l` down to its parent.
pub open spec fn spaces_from(rows: Seq<GlyphRow>, k: int, l: int) -> Seq<char>
    decreases rows[k].2 - l,
{
    if l >= rows[k].2 {
        seq![]
    } else {
        space_of(rows, last_at(rows, l, k - 1)) + spaces_from(rows, k, l + 1)
    }
}

/// The line that the tree's display gives for row `k`: the root's text alone; below it, the
/// ancestors' spaces, the row's item glyph (the last one for the last leaf), its item indent,
/// and its text.
pub open spec fn glyph_line(rows: Seq<GlyphRow>, k: int) -> Seq<char> {
    if k == 0 {
        rows[0].0
    } else {
        let p = palette_of(rows, k);
        spaces_from(rows, k, 1) + (if is_last_row(rows, k) {
            p.1
        } else {
            p.0
        }) + p.2 + rows[k].0
    }
}

/// The text the display writes for the rows: each row's line, then a line break, for the
/// first `n` rows.
pub open spec fn display_upto(rows: Seq<GlyphRow>, n: int) -> Seq<char>
    decreases n,
{
    if n <= 0 {
        seq![]
    } else {
        display_upto(rows, n - 1) + glyph_line(rows, n - 1) + seq!['\n']
    }
}

/// The rows have the same glyphs and depths, whatever their texts.
pub open spec fn same_shape(a: Seq<GlyphRow>, b: Seq<GlyphRow>) -> bool {
    &&& a.len() == b.len()
    &&& forall|k: int| 0 <= k < a.len() ==> (#[trigger] a[k]).1 == b[k].1 && a[k].2 == b[k].2
}

proof fn lemma_first_at_most_range(rows: Seq<GlyphRow>, d: int, j: int)
    requires
        0 <= j,
    ensures
        j <= first_at_most(rows, d, j) <= rows.len() || first_at_most(rows, d, j) == rows.len(),
    decreases rows.len() - j,
{
    if j < rows.len() && rows[j].2 > d {
        lemma_first_at_most_range(rows, d, j + 1);
    }
}

proof fn lemma_first_at_most_shape(a: Seq<GlyphRow>, b: Seq<GlyphRow>, d: int, j: int)
    requires
        same_shape(a, b),
    ensures
        first_at_most(a, d, j) == first_at_most(b, d, j),
    decreases a.len() - j,
{
    if 0 <= j < a.len() {
        assert(a[j].2 == b[j].2);
        lemma_first_at_most_shape(a, b, d, j + 1);
    }
}

proof fn lemma_last_at_shape(a: Seq<GlyphRow>, b: Seq<GlyphRow>, d: int, j: int)
    requires
        same_shape(a, b),
    ensures
        last_at(a, d, j) == last_at(b, d, j),
    decreases j + 1,
{
    if 0 <= j < a.len() {
        assert(a[j].2 == b[j].2);
        lemma_last_at_shape(a, b, d, j - 1);
    }
}

proof fn lemma_space_of_shape(a: Seq<GlyphRow>, b: Seq<GlyphRow>, p: int)
    requires
        same_shape(a, b),
    ensures
        space_of(a, p) == space_of(b, p),
{
    if 0 <= p < a.len() {
        assert(a[p].1 == b[p].1 && a[p].2 == b[p].2);
        lemma_first_at_most_shape(a, b, a[p].2, p + 1);
        lemma_first_at_most_range(a, a[p].2, p + 1);
        let j = first_at_most(a, a[p].2, p + 1);
        if 0 <= j < a.len() {
            assert(a[j].2 == b[j].2);
        }
        assert(is_last_row(a, p) == is_last_row(b, p));
        assert(palette_of(a, p) == palette_of(b, p));
    }
}

proof fn lemma_spaces_shape(a: Seq<GlyphRow>, b: Seq<GlyphRow>, k: int, l: int)
    requires
        same_shape(a, b),
        0 <= k < a.len(),
    ensures
        spaces_from(a, k, l) == spaces_from(b, k, l),
    decreases a[k].2 - l,
{
    assert(a[k].2 == b[k].2);
    if l < a[k].2 {
        lemma_last_at_shape(a, b, l, k - 1);
        lemma_space_of_shape(a, b, last_at(a, l, k - 1));
        lemma_spaces_shape(a, b, k, l + 1);
    }
}

/// Below the root, a row's line is what the same shape draws for it, then the row's text.
pub proof fn lemma_glyph_line_shape(a: Seq<GlyphRow>, b: Seq<GlyphRow>, k: int)
    requires
        same_shape(a, b),
        0 < k < a.len(),
        b[k].0 == Seq::<char>::empty(),
    ensures
        glyph_line(a, k) == glyph_line(b, k) + a[k].0,
{
    assert(a[k].1 == b[k].1 && a[k].2 == b[k].2);
    lemma_spaces_shape(a, b, k, 1);
    lemma_first_at_most_shape(a, b, a[k].2, k + 1);
    lemma_first_at_most_range(a, a[k].2, k + 1);
    let j = first_at_most(a, a[k].2, k + 1);
    if 0 <= j < a.len() {
        assert(a[j].2 == b[j].2);
    }
    assert(is_last_row(a, k) == is_last_row(b, k));
    assert(palette_of(a, k) == palette_of(b, k));
    let pa = palette_of(a, k);
    let item = if is_last_row(a, k) {
        pa.1
    } else {
        pa.0
    };
    let pre = spaces_from(a, k, 1) + item + pa.2;
    assert(glyph_line(b, k) == pre + Seq::<char>::empty());
    assert(pre + Seq::<char>::empty() =~= pre);
}

/// Every node has its glyphs set, is not multiline, and draws no line break.
pub open spec fn rows_drawable(rows: Seq<GlyphRow>) -> bool {
    forall|k: int|
        0 <= k < rows.len() ==> {
            &&& (#[trigger] rows[k]).1 is Some
            &&& !rows[k].3
            &&& no_line_break(rows[k].0)
            &&& palette_single_line(palette_of(rows, k))
        }
}

/// Calls `termtree::Tree::new` on an empty text and then `Tree::with_glyphs`.
/// Claims: the new tree is a single node with the empty text and these glyphs, not multiline
/// (`Tree::new` sets `multiline` to false).
#[verifier::external_body]
pub(crate) fn glyph_tree_node(glyph: GlyphPalette) -> (r: Tree<String>)
    ensures
        glyph_tree_rows(r) == seq![(Seq::<char>::empty(), Some(palette_view(glyph)), 0int, false)],
{
    let palette = termtree::GlyphPalette {
        middle_item: glyph.middle_item,
        last_item: glyph.last_item,
        item_indent: glyph.item_indent,
        middle_skip: glyph.middle_skip,
        last_skip: glyph.last_skip,
        skip_indent: glyph.skip_indent,
    };
    Tree::new(String::new()).with_glyphs(palette)
}

/// Calls `termtree::Tree::push`: the child becomes the last leaf of the parent.
/// Claims: the nodes in display order are the parent's, then the child's one level deeper.
#[verifier::external_body]
pub(crate) fn glyph_tree_push(parent: &mut Tree<String>, child: Tree<String>)
    ensures
        glyph_tree_rows(*final(parent)) == glyph_tree_rows(*old(parent)) + deepen(glyph_tree_rows(child)),
{
    parent.push(child);
}

/// Calls the `Display` impl of `termtree::Tree` and splits the text into lines.
/// Claims: when every node has glyphs, is not multiline and holds no line break, the display
/// writes one line per node in display order, each ended by a line break: the root's text,
/// then for each node below it the spaces of its ancestors (below the root), its item glyph
/// and item indent, and its text (`glyph_line`).
#[verifier::external_body]
pub(crate) fn glyph_lines(layout: &Tree<String>) -> (r: Vec<String>)
    ensures
        rows_drawable(glyph_tree_rows(*layout)) ==> strings_view(r@) == Seq::new(
            glyph_tree_rows(*layout).len(),
            |k: int| glyph_line(glyph_tree_rows(*layout), k),
        ),
{
    let text = format!("{layout}");
    text.lines().map(String::from).collect()
}

/// Every tag's glyphs hold no line break.
pub proof fn lemma_tag_glyph_single_line(tag: crate::tree::tag::Tag)
    ensures
        palette_single_line(palette_view(tag.spec_glyph())),
{
    reveal_strlit("── [Mod] ");
    reveal_strlit("── [Struct] ");
    reveal_strlit("── [Union] ");
    reveal_strlit("── [Enum] ");
    reveal_strlit("── [Trait] ");
    reveal_strlit("── [Fn] ");
    reveal_strlit("── [Const] ");
    reveal_strlit("── [Static] ");
    reveal_strlit("── [type alias] ");
    reveal_strlit("── [macro decl] ");
    reveal_strlit("── [macro func] ");
    reveal_strlit("── [macro attr] ");
    reveal_strlit("── [macro derv] ");
    reveal_strlit("── [field] ");
    reveal_strlit("── [variant] ");
    reveal_strlit("── [assoc type] ");
    reveal_strlit("── [assoc constant] ");
    reveal_strlit("── [assoc fn] ");
    reveal_strlit("├");
    reveal_strlit("└");
    reveal_strlit("── ");
    reveal_strlit("│");
    reveal_strlit(" ");
    reveal_strlit("   ");
}

} // verus!
