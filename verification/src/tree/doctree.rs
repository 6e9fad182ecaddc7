use vstd::prelude::*;
use crate::tree::id::ID;
use crate::tree::tag::{GlyphPalette, Tag};

verus! {

/// Tagged text including headings and nodes.
pub struct TextTag {
    pub text: String,
    pub tag: Tag,
    pub id: Option<ID>,
}

/// Doc node in a display tree: a tagged text, the glyphs drawn before its leaves, and the leaves.
pub struct DocTree {
    pub root: TextTag,
    pub glyph: GlyphPalette,
    pub leaves: Vec<DocTree>,
}

impl DocTree {
    pub fn new(text: String, tag: Tag, id: Option<ID>) -> (r: DocTree)
        ensures
            r.root.text@ == text@,
            r.root.tag == tag,
            r.root.id == id,
            r.glyph == tag.spec_glyph(),
            r.leaves@.len() == 0,
    {
        DocTree { root: TextTag { text, tag, id }, glyph: tag.glyph(), leaves: Vec::new() }
    }

    /// Replace the leaves.
    pub fn with_leaves(self, leaves: Vec<DocTree>) -> (r: DocTree)
        ensures
            r.root == self.root,
            r.glyph == self.glyph,
            r.leaves@ == leaves@,
    {
        DocTree { root: self.root, glyph: self.glyph, leaves }
    }

    /// Append a leaf.
    pub fn push(&mut self, node: DocTree)
        ensures
            final(self).root == old(self).root,
            final(self).glyph == old(self).glyph,
            final(self).leaves@ == old(self).leaves@.push(node),
    {
        self.leaves.push(node);
    }

    /// Append leaves in order.
    pub fn extend(&mut self, nodes: Vec<DocTree>)
        ensures
            final(self).root == old(self).root,
            final(self).glyph == old(self).glyph,
            final(self).leaves@ == old(self).leaves@ + nodes@,
    {
        let mut nodes = nodes;
        self.leaves.append(&mut nodes);
    }
}

} // verus!
