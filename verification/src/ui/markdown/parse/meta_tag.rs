use vstd::prelude::*;
use crate::tree::id::ID;

verus! {

/// What a link points to.
pub enum LinkTag {
    /// local crate item can be referred by item ID
    LocalItemLink(ID),
    /// points to an external crate item path
    ExternalItemLink(usize),
    /// Reference link
    ReferenceLink(usize),
    /// a link to styled text
    Footnote(String),
    /// broken link or invalid input tag
    Unknown,
}

/// Extra meaning of a word, besides its style.
pub enum MetaTag {
    Normal,
    Link(LinkTag),
    InlineCode,
    ListItem,
    ListItemN(u8),
    // separate block elements: directly rendered as a truncatable line
    Heading(usize),
    Image,
    Rule,
    FootnoteSource,
    CodeBlock(String),
    QuoteBlock,
}

impl Clone for LinkTag {
    fn clone(&self) -> (r: LinkTag)
        ensures
            r == *self,
    {
        match self {
            LinkTag::LocalItemLink(id) => LinkTag::LocalItemLink(id.clone()),
            LinkTag::ExternalItemLink(n) => LinkTag::ExternalItemLink(*n),
            LinkTag::ReferenceLink(n) => LinkTag::ReferenceLink(*n),
            LinkTag::Footnote(s) => LinkTag::Footnote(s.clone()),
            LinkTag::Unknown => LinkTag::Unknown,
        }
    }
}

impl Clone for MetaTag {
    fn clone(&self) -> (r: MetaTag)
        ensures
            r == *self,
    {
        match self {
            MetaTag::Normal => MetaTag::Normal,
            MetaTag::Link(l) => MetaTag::Link(l.clone()),
            MetaTag::InlineCode => MetaTag::InlineCode,
            MetaTag::ListItem => MetaTag::ListItem,
            MetaTag::ListItemN(n) => MetaTag::ListItemN(*n),
            MetaTag::Heading(n) => MetaTag::Heading(*n),
            MetaTag::Image => MetaTag::Image,
            MetaTag::Rule => MetaTag::Rule,
            MetaTag::FootnoteSource => MetaTag::FootnoteSource,
            MetaTag::CodeBlock(s) => MetaTag::CodeBlock(s.clone()),
            MetaTag::QuoteBlock => MetaTag::QuoteBlock,
        }
    }
}

impl Default for MetaTag {
    fn default() -> (r: MetaTag)
        ensures
            r == MetaTag::Normal,
    {
        MetaTag::Normal
    }
}

} // verus!
