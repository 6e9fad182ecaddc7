use vstd::prelude::*;
use crate::style::{Color, Style};
use crate::tree::doctree::{DocTree, TextTag};
use crate::tree::glyph::{
    deepen, display_upto, glyph_line, glyph_lines, glyph_tree_node, glyph_tree_push, glyph_tree_rows, lemma_tag_glyph_single_line,
    no_line_break, palette_of, palette_view, rows_drawable, GlyphRow,
};
use crate::tree::id::{opt_id_view, ID};
use crate::tree::tag::Tag;
use crate::ui::scroll::LineState;
use crate::util::{str_width, strings_view, unicode_width_of};
use termtree::Tree;

verus! {

/// An owned styled text, mainly being a small styled string.
pub struct Text {
    pub text: String,
    pub style: Style,
}

impl Text {
    pub fn new(text: String, style: Style) -> (r: Text)
        ensures
            r.text == text,
            r.style == style,
    {
        Text { text, style }
    }

    pub fn new_text(text: String) -> (r: Text)
        ensures
            r.text == text,
            r.style == Style::spec_new(),
    {
        Text { text, style: Style::new() }
    }
}

impl Clone for Text {
    fn clone(&self) -> (r: Text)
        ensures
            r == *self,
    {
        Text { text: self.text.clone(), style: self.style }
    }
}

pub struct TreeLine {
    pub glyph: Text,
    pub tag: Tag,
    /// Indentation level with range of 0..=u8::MAX
    pub level: u8,
    /// Node/Item id from the crate
    pub id: Option<ID>,
    pub name: Text,
}

/// What a line shows of a tagged text: the text, tag, id and level, with the tag's style.
pub open spec fn line_of(tt: TextTag, level: u8, line: TreeLine) -> bool {
    &&& line.name.text@ == tt.text@
    &&& line.name.style == tt.tag.spec_style()
    &&& line.tag == tt.tag
    &&& opt_id_view(line.id) == opt_id_view(tt.id)
    &&& line.level == level
    &&& line.glyph.text@.len() == 0
}

/// The nodes of a tree in display order, each with its depth counted from `level`.
pub open spec fn tree_nodes(t: DocTree, level: int) -> Seq<(TextTag, int)>
    decreases t,
{
    seq![(t.root, level)] + forest_nodes(t.leaves@, level + 1)
}

pub open spec fn forest_nodes(ts: Seq<DocTree>, level: int) -> Seq<(TextTag, int)>
    decreases ts,
{
    if ts.len() == 0 {
        seq![]
    } else {
        tree_nodes(ts[0], level) + forest_nodes(ts.subrange(1, ts.len() as int), level)
    }
}

/// The deepest level below a forest that a flattening reaches, counting an empty forest as
/// one step.
pub open spec fn forest_depth(ts: Seq<DocTree>) -> nat
    decreases ts,
{
    if ts.len() == 0 {
        0
    } else {
        let first = 1 + forest_depth(ts[0].leaves@);
        let rest = forest_depth(ts.subrange(1, ts.len() as int));
        if first >= rest {
            first
        } else {
            rest
        }
    }
}

/// The flattened lines match the nodes one for one.
pub open spec fn lines_match(lines: Seq<TreeLine>, nodes: Seq<(TextTag, int)>) -> bool {
    &&& lines.len() == nodes.len()
    &&& forall|i: int|
        0 <= i < lines.len() ==> line_of(nodes[i].0, nodes[i].1 as u8, #[trigger] lines[i])
}

impl TreeLine {
    pub fn new(tt: TextTag, level: u8) -> (r: TreeLine)
        ensures
            line_of(tt, level, r),
            r.glyph.style == Style::spec_new(),
    {
        let style = tt.tag.style();
        let text = tt.text;
        let glyph = Text { text: String::new(), style: Style::new() };
        let name = Text { text, style };
        TreeLine { glyph, tag: tt.tag, level, id: tt.id, name }
    }

    fn set_glyph(&mut self, glyph: String)
        ensures
            final(self).glyph.text == glyph,
            final(self).glyph.style == (Style { fg: Some(Color::Gray), ..Style::spec_new() }),
            final(self).name == old(self).name,
            final(self).tag == old(self).tag,
            final(self).level == old(self).level,
            final(self).id == old(self).id,
    {
        self.glyph.text = glyph;
        self.glyph.style = Style::new().fg(Color::Gray);
    }

    /// texts and styles of glyph and name
    pub fn glyph_name(&self) -> (r: [(&str, Style); 2])
        ensures
            r[0].0@ == self.glyph.text@,
            r[0].1 == self.glyph.style,
            r[1].0@ == self.name.text@,
            r[1].1 == self.name.style,
    {
        [(self.glyph.text.as_str(), self.glyph.style), (self.name.text.as_str(), self.name.style)]
    }

    /// The styles of glyph and name on the line under the cursor: a dark gray background
    /// behind the glyph, and the name's colour turned into its background behind black text.
    pub fn current_line_styles(&self) -> (r: (Style, Style))
        ensures
            r.0 == (Style { bg: Some(Color::DarkGray), ..self.glyph.style }),
            r.1 == (Style { bg: self.name.style.fg, fg: Some(Color::Black), ..self.name.style }),
    {
        let g = self.glyph.style.bg(Color::DarkGray);
        let mut n = self.name.style;
        n.bg = n.fg;
        n.fg = Some(Color::Black);
        (g, n)
    }

    pub open spec fn spec_width(&self) -> int {
        (unicode_width_of(self.glyph.text@) + unicode_width_of(self.name.text@)) as int
    }

    /// Unicode width including glyph and name.
    pub fn width(&self) -> (r: u16)
        requires
            self.spec_width() <= u16::MAX,
        ensures
            r == self.spec_width(),
    {
        let g = str_width(self.glyph.text.as_str());
        let n = str_width(self.name.text.as_str());
        (g + n) as u16
    }

    /// Flatten a tree into lines in display order, and build the glyph tree of the same shape.
    fn flatten(tree: DocTree) -> (r: (Vec<TreeLine>, Tree<String>))
        requires
            1 + forest_depth(tree.leaves@) <= u8::MAX,
        ensures
            lines_match(r.0@, tree_nodes(tree, 0)),
            glyph_tree_rows(r.1) == lines_rows(r.0@, 0),
    {
        let ghost t = tree;
        let mut level = 0u8;
        let mut emptytree = glyph_tree_node(tree.root.tag.glyph());
        let DocTree { root, glyph: _, leaves } = tree;
        let line = TreeLine::new(root, level);
        let ghost line_g = line;
        let mut flatten: Vec<TreeLine> = Vec::new();
        flatten.push(line);
        empty_tree_and_flatten(leaves, &mut level, &mut flatten, &mut emptytree);
        proof {
            let f = flatten@;
            assert(tree_nodes(t, 0) == seq![(t.root, 0int)] + forest_nodes(t.leaves@, 1));
            assert(f.subrange(0, 1) == seq![line_g]);
            assert(f[0] == f.subrange(0, 1)[0]);
            assert(f == Seq::<TreeLine>::empty() + f);
            assert(f.subrange(1, f.len() as int) == f.subrange(1, f.len() as int));
            lemma_lines_match_concat(
                Seq::<TreeLine>::empty(),
                Seq::<(TextTag, int)>::empty(),
                f,
                tree_nodes(t, 0),
            );
            assert(Seq::<(TextTag, int)>::empty() + tree_nodes(t, 0) == tree_nodes(t, 0));
            assert(f == seq![line_g] + f.subrange(1, f.len() as int));
            lemma_lines_rows_concat(seq![line_g], f.subrange(1, f.len() as int), 0);
            assert(lines_rows(seq![line_g], 0) =~= seq![(Seq::<char>::empty(), Some(palette_view(t.root.tag.spec_glyph())), 0int, false)]);
        }
        (flatten, emptytree)
    }
}

/// Write the lines of the leaves (one level deeper) into `flatten`, and their glyph nodes into
/// `empty`.
fn empty_tree_and_flatten(
    leaves: Vec<DocTree>,
    level: &mut u8,
    flatten: &mut Vec<TreeLine>,
    empty: &mut Tree<String>,
)
    requires
        *old(level) + 1 + forest_depth(leaves@) <= u8::MAX,
    ensures
        *final(level) == *old(level) + 1,
        final(flatten)@.len() >= old(flatten)@.len(),
        final(flatten)@.subrange(0, old(flatten)@.len() as int) == old(flatten)@,
        lines_match(
            final(flatten)@.subrange(old(flatten)@.len() as int, final(flatten)@.len() as int),
            forest_nodes(leaves@, *old(level) + 1),
        ),
        glyph_tree_rows(*final(empty)) == glyph_tree_rows(*old(empty)) + lines_rows(
            final(flatten)@.subrange(old(flatten)@.len() as int, final(flatten)@.len() as int),
            *old(level) as int,
        ),
    decreases leaves@,
{
    let ghost all = leaves@;
    let ghost start = flatten@.len() as int;
    *level = *level + 1;
    let ghost lv = *level as int;
    let mut rest = leaves;
    let mut i: usize = 0;
    let n = rest.len();
    proof {
        assert(all.subrange(0, all.len() as int) == all);
    }
    while i < n
        invariant
            n == all.len(),
            i <= n,
            rest@ == all.subrange(i as int, n as int),
            all == leaves@,
            *level as int == lv,
            lv + forest_depth(all) <= u8::MAX,
            flatten@.len() >= start,
            flatten@.subrange(0, start) == old(flatten)@,
            start == old(flatten)@.len(),
            lines_match(
                flatten@.subrange(start, flatten@.len() as int),
                forest_nodes(all.subrange(0, i as int), lv),
            ),
            glyph_tree_rows(*empty) == glyph_tree_rows(*old(empty)) + lines_rows(
                flatten@.subrange(start, flatten@.len() as int),
                lv - 1,
            ),
        decreases n - i,
    {
        let tree = rest.remove(0);
        assert(tree == all[i as int]);
        let ghost tree_g = tree;
        let mut current = *level;
        let ghost rows_before = glyph_tree_rows(*empty);
        proof {
            lemma_forest_depth_elem(all, i as int);
            lemma_forest_nodes_split(all, i as int, lv);
        }
        let glyph = tree.root.tag.glyph();
        let DocTree { root: troot, glyph: _, leaves: tleaves } = tree;
        let ghost before = flatten@;
        let line = TreeLine::new(troot, current);
        let ghost line_g = line;
        flatten.push(line);
        let ghost mid = flatten@;
        let mut root = glyph_tree_node(glyph);
        proof {
            assert(decreases_to!(all => all[i as int]));
            assert(decreases_to!(all[i as int] => all[i as int].leaves));
            assert(decreases_to!(all[i as int].leaves => all[i as int].leaves@));
            assert(decreases_to!(all => tree_g.leaves@));
            assert(tleaves@ == tree_g.leaves@);
            assert(decreases_to!(all => tleaves@));
        }
        let ghost root_rows = glyph_tree_rows(root);
        empty_tree_and_flatten(tleaves, &mut current, flatten, &mut root);
        let ghost root_rows2 = glyph_tree_rows(root);
        glyph_tree_push(empty, root);
        proof {
            let end = flatten@.len() as int;
            let added = flatten@.subrange(before.len() as int, end);
            assert(flatten@.subrange(0, mid.len() as int) == mid);
            assert(mid == before.push(line_g));
            assert(tree_nodes(tree_g, lv) == seq![(tree_g.root, lv)] + forest_nodes(
                tree_g.leaves@,
                lv + 1,
            ));
            assert(flatten@.subrange(0, start) == mid.subrange(0, start));
            assert(mid.subrange(0, start) == before.subrange(0, start));
            assert forall|k: int| 0 <= k < before.len() implies flatten@[k] == before[k] by {
                assert(flatten@.subrange(0, mid.len() as int)[k] == mid[k]);
            }
            assert(flatten@.subrange(start, end) =~= before.subrange(start, before.len() as int)
                + added);
            assert(flatten@.subrange(0, mid.len() as int)[before.len() as int] == mid[before.len() as int]);
            assert(added[0] == line_g);
            assert(added.subrange(1, added.len() as int) == flatten@.subrange(
                mid.len() as int,
                end,
            ));
            lemma_lines_match_concat(
                before.subrange(start, before.len() as int),
                forest_nodes(all.subrange(0, i as int), lv),
                added,
                tree_nodes(tree_g, lv),
            );
            let sub = added.subrange(1, added.len() as int);
            assert(added == seq![line_g] + sub);
            lemma_lines_rows_concat(seq![line_g], sub, lv - 1);
            lemma_lines_rows_concat(before.subrange(start, before.len() as int), added, lv - 1);
            lemma_deepen_lines_rows(sub, lv);
            assert(root_rows2 == root_rows + lines_rows(sub, lv));
            assert(deepen(root_rows2) =~= deepen(root_rows) + deepen(lines_rows(sub, lv)));
            assert(deepen(root_rows) =~= lines_rows(seq![line_g], lv - 1));
        }
        i = i + 1;
    }
    proof {
        assert(all.subrange(0, n as int) == all);
    }
}

proof fn lemma_lines_match_concat(
    a: Seq<TreeLine>,
    na: Seq<(TextTag, int)>,
    b: Seq<TreeLine>,
    nb: Seq<(TextTag, int)>,
)
    requires
        lines_match(a, na),
        b.len() == nb.len(),
        line_of(nb[0].0, nb[0].1 as u8, b[0]),
        lines_match(b.subrange(1, b.len() as int), nb.subrange(1, nb.len() as int)),
        nb.len() >= 1,
    ensures
        lines_match(a + b, na + nb),
{
    assert forall|i: int| 0 <= i < (a + b).len() implies line_of(
        (na + nb)[i].0,
        (na + nb)[i].1 as u8,
        #[trigger] (a + b)[i],
    ) by {
        if i < a.len() {
        } else if i == a.len() {
        } else {
            let j = i - a.len();
            assert(b.subrange(1, b.len() as int)[j - 1] == b[j]);
            assert(nb.subrange(1, nb.len() as int)[j - 1] == nb[j]);
        }
    }
}

proof fn lemma_forest_depth_elem(ts: Seq<DocTree>, i: int)
    requires
        0 <= i < ts.len(),
    ensures
        1 + forest_depth(ts[i].leaves@) <= forest_depth(ts),
    decreases ts.len(),
{
    if i > 0 {
        let rest = ts.subrange(1, ts.len() as int);
        lemma_forest_depth_elem(rest, i - 1);
        assert(rest[i - 1] == ts[i]);
    }
}

/// The nodes of the first `i + 1` trees are those of the first `i` followed by the `i`-th.
proof fn lemma_forest_nodes_split(ts: Seq<DocTree>, i: int, level: int)
    requires
        0 <= i < ts.len(),
    ensures
        forest_nodes(ts.subrange(0, i + 1), level) == forest_nodes(ts.subrange(0, i), level)
            + tree_nodes(ts[i], level),
    decreases i,
{
    let pre = ts.subrange(0, i + 1);
    if i == 0 {
        assert(pre.subrange(1, pre.len() as int) == Seq::<DocTree>::empty());
        assert(ts.subrange(0, 0) == Seq::<DocTree>::empty());
    } else {
        let rest = ts.subrange(1, ts.len() as int);
        lemma_forest_nodes_split(rest, i - 1, level);
        assert(pre.subrange(1, pre.len() as int) == rest.subrange(0, i));
        let pre2 = ts.subrange(0, i);
        assert(pre2.subrange(1, pre2.len() as int) == rest.subrange(0, i - 1));
        assert(rest[i - 1] == ts[i]);
    }
}

/// What a line shows of a tagged text once its glyph is set: the text, tag, id and level, with
/// the tag's style, and a gray glyph.
pub open spec fn line_shows(tt: TextTag, level: u8, line: TreeLine) -> bool {
    &&& line.name.text@ == tt.text@
    &&& line.name.style == tt.tag.spec_style()
    &&& line.tag == tt.tag
    &&& opt_id_view(line.id) == opt_id_view(tt.id)
    &&& line.level == level
    &&& line.glyph.style == (Style { fg: Some(Color::Gray), ..Style::spec_new() })
}

/// The lines show the nodes one for one.
pub open spec fn lines_show(lines: Seq<TreeLine>, nodes: Seq<(TextTag, int)>) -> bool {
    &&& lines.len() == nodes.len()
    &&& forall|i: int|
        0 <= i < lines.len() ==> line_shows(nodes[i].0, nodes[i].1 as u8, #[trigger] lines[i])
}

/// Every node lies at most at the given level.
pub open spec fn levels_within(nodes: Seq<(TextTag, int)>, max: int) -> bool {
    forall|i: int| 0 <= i < nodes.len() ==> (#[trigger] nodes[i]).1 <= max
}

/// A non-empty forest has a node as deep as its depth says.
proof fn lemma_forest_deepest(ts: Seq<DocTree>, level: int)
    requires
        ts.len() > 0,
    ensures
        exists|i: int|
            0 <= i < forest_nodes(ts, level).len() && (#[trigger] forest_nodes(ts, level)[i]).1
                == level + forest_depth(ts) - 1,
    decreases ts,
{
    let t0 = ts[0];
    let rest = ts.subrange(1, ts.len() as int);
    let f0 = tree_nodes(t0, level);
    let fr = forest_nodes(rest, level);
    assert(forest_nodes(ts, level) == f0 + fr);
    let first = 1 + forest_depth(t0.leaves@);
    let second = forest_depth(rest);
    if first >= second {
        if t0.leaves@.len() == 0 {
            assert(f0[0].1 == level);
            assert((f0 + fr)[0] == f0[0]);
        } else {
            assert(decreases_to!(ts => ts[0]));
            assert(decreases_to!(ts[0] => ts[0].leaves));
            assert(decreases_to!(ts[0].leaves => ts[0].leaves@));
            lemma_forest_deepest(t0.leaves@, level + 1);
            let lv = forest_nodes(t0.leaves@, level + 1);
            let k = choose|k: int| 0 <= k < lv.len() && (#[trigger] lv[k]).1 == level + 1
                + forest_depth(t0.leaves@) - 1;
            assert(f0 == seq![(t0.root, level)] + lv);
            assert(f0[k + 1] == lv[k]);
            assert((f0 + fr)[k + 1] == f0[k + 1]);
        }
    } else {
        lemma_forest_deepest(rest, level);
        let k = choose|k: int| 0 <= k < fr.len() && (#[trigger] fr[k]).1 == level + forest_depth(
            rest,
        ) - 1;
        assert((f0 + fr)[f0.len() + k] == fr[k]);
    }
}

/// Flattening reaches no deeper than the deepest node.
proof fn lemma_depth_from_levels(t: DocTree)
    requires
        levels_within(tree_nodes(t, 0), u8::MAX - 1),
    ensures
        1 + forest_depth(t.leaves@) <= u8::MAX,
{
    let all = tree_nodes(t, 0);
    let lv = forest_nodes(t.leaves@, 1);
    assert(all == seq![(t.root, 0int)] + lv);
    if t.leaves@.len() > 0 {
        lemma_forest_deepest(t.leaves@, 1);
        let k = choose|k: int| 0 <= k < lv.len() && (#[trigger] lv[k]).1 == 1 + forest_depth(
            t.leaves@,
        ) - 1;
        assert(all[k + 1] == lv[k]);
    }
}

/// The glyph tree's nodes for the lines: empty texts with the glyphs of the lines' tags, at
/// their levels counted below `base`.
pub open spec fn lines_rows(ls: Seq<TreeLine>, base: int) -> Seq<GlyphRow> {
    ls.map_values(
        |l: TreeLine| (Seq::<char>::empty(), Some(palette_view(l.tag.spec_glyph())), l.level - base, false),
    )
}

/// Each line's glyph is the one that termtree draws before it for the tree of the lines'
/// tags and levels, in order (see `glyph_line`).
pub open spec fn glyphs_drawn(ls: Seq<TreeLine>) -> bool {
    forall|k: int| 0 <= k < ls.len() ==> (#[trigger] ls[k]).glyph.text@ == glyph_line(lines_rows(ls, 0), k)
}

/// The nodes of the tree as its display draws them: each node's text with its tag's glyphs,
/// at its depth.
pub open spec fn doc_rows(t: DocTree) -> Seq<GlyphRow> {
    tree_nodes(t, 0).map_values(
        |n: (TextTag, int)| (n.0.text@, Some(palette_view(n.0.tag.spec_glyph())), n.1, false),
    )
}

/// The tree's display: a line for each node in display order (its ancestors' stripes, its
/// glyph and its text), each ended by a line break.
pub open spec fn tree_display(t: DocTree) -> Seq<char> {
    display_upto(doc_rows(t), tree_nodes(t, 0).len() as int)
}

proof fn lemma_lines_rows_concat(a: Seq<TreeLine>, b: Seq<TreeLine>, base: int)
    ensures
        lines_rows(a + b, base) == lines_rows(a, base) + lines_rows(b, base),
{
    assert(lines_rows(a + b, base) =~= lines_rows(a, base) + lines_rows(b, base));
}

proof fn lemma_deepen_lines_rows(a: Seq<TreeLine>, base: int)
    ensures
        deepen(lines_rows(a, base)) == lines_rows(a, base - 1),
{
    assert(deepen(lines_rows(a, base)) =~= lines_rows(a, base - 1));
}

proof fn lemma_lines_rows_drawable(ls: Seq<TreeLine>)
    ensures
        rows_drawable(lines_rows(ls, 0)),
{
    let rows = lines_rows(ls, 0);
    assert forall|k: int| 0 <= k < rows.len() implies {
        &&& (#[trigger] rows[k]).1 is Some
        &&& !rows[k].3
        &&& no_line_break(rows[k].0)
        &&& crate::tree::glyph::palette_single_line(palette_of(rows, k))
    } by {
        lemma_tag_glyph_single_line(ls[k].tag);
        assert(!Seq::<char>::empty().contains('\n'));
        assert(!Seq::<char>::empty().contains('\r'));
    }
}

impl DocTree {
    /// The lines of the tree in display order, each with the stripe glyph drawn before it.
    pub fn cache_lines(self) -> (r: Vec<TreeLine>)
        requires
            levels_within(tree_nodes(self, 0), u8::MAX - 1),
        ensures
            lines_show(r@, tree_nodes(self, 0)),
            glyphs_drawn(r@),
    {
        proof {
            lemma_depth_from_levels(self);
        }
        let ghost nodes = tree_nodes(self, 0);
        let (mut lines, layout) = TreeLine::flatten(self);
        let glyphs = glyph_lines(&layout);
        proof {
            lemma_lines_rows_drawable(lines@);
            assert(glyph_tree_rows(layout) == lines_rows(lines@, 0));
            assert(rows_drawable(glyph_tree_rows(layout)));
            assert(strings_view(glyphs@).len() == glyphs@.len());
            assert(glyphs@.len() == lines@.len());
        }
        let ghost rows = lines_rows(lines@, 0);
        let n = lines.len();
        let mut i: usize = 0;
        let mut out: Vec<TreeLine> = Vec::new();
        let mut glyphs = glyphs;
        let ghost gl = glyphs@;
        let ghost ls = lines@;
        proof {
            assert forall|k: int| 0 <= k < n implies (#[trigger] gl[k])@ == glyph_line(rows, k) by {
                assert(strings_view(gl)[k] == gl[k]@);
            }
        }
        while i < n
            invariant
                n == ls.len(),
                gl.len() == n,
                i <= n,
                lines_match(ls, nodes),
                lines@ == ls.subrange(i as int, n as int),
                glyphs@ == gl.subrange(i as int, n as int),
                out@.len() == i,
                forall|k: int|
                    0 <= k < i ==> line_shows(nodes[k].0, nodes[k].1 as u8, #[trigger] out@[k]),
                rows == lines_rows(ls, 0),
                forall|k: int| 0 <= k < n ==> (#[trigger] gl[k])@ == glyph_line(rows, k),
                forall|k: int|
                    0 <= k < i ==> (#[trigger] out@[k]).glyph.text@ == glyph_line(rows, k) && out@[k].tag
                        == ls[k].tag && out@[k].level == ls[k].level,
            decreases n - i,
        {
            let mut line = lines.remove(0);
            let g = glyphs.remove(0);
            assert(line == ls[i as int]);
            assert(g == gl[i as int]);
            line.set_glyph(g);
            out.push(line);
            i = i + 1;
        }
        proof {
            assert(lines_rows(out@, 0) =~= rows);
        }
        out
    }
}

impl LineState for TreeLine {
    type State = Option<ID>;

    type StateView = Option<Seq<char>>;

    open spec fn state_view(state: Option<ID>) -> Option<Seq<char>> {
        opt_id_view(state)
    }

    open spec fn spec_state(&self) -> Option<Seq<char>> {
        opt_id_view(self.id)
    }

    open spec fn spec_identical(&self, state: Option<Seq<char>>) -> bool {
        opt_id_view(self.id) == state
    }

    fn state(&self) -> (r: Option<ID>) {
        match &self.id {
            Some(id) => Some(id.clone()),
            None => None,
        }
    }

    fn is_identical(&self, state: &Option<ID>) -> (r: bool) {
        match (&self.id, state) {
            (Some(a), Some(b)) => a.id == b.id,
            (None, None) => true,
            _ => false,
        }
    }
}

/// A tree node that shows nothing: the outline's layout only holds its glyphs.
pub struct Empty;

} // verus!
