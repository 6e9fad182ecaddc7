use vstd::prelude::*;
use crate::style::{Color, Modifier, Style};
use crate::tree::doctree::DocTree;
use crate::util::str_to_string;

verus! {

/// The kind of a node in the outline: an item kind, or a heading over a list of items.
#[derive(Clone, Copy, Debug, PartialEq, Eq, PartialOrd, Ord, Hash)]
pub enum Tag {
    Module,
    /// A module whose items are hidden in the outline.
    ModuleFolded,
    Struct,
    Union,
    Enum,
    Trait,
    Function,
    Constant,
    Static,
    TypeAlias,
    Import,
    MacroDecl,
    MacroFunc,
    MacroAttr,
    MacroDerv,
    Unknown,
    NoImpls,
    Implementations,
    ImplInherent,
    InherentImpls,
    ImplTrait,
    TraitImpls,
    ImplAuto,
    AutoImpls,
    ImplBlanket,
    BlanketImpls,
    NoVariants,
    Variants,
    Variant,
    NoFields,
    Fields,
    Field,
    FieldsPrivate,
    NoAssocOrImpls,
    AssocTypes,
    AssocType,
    AssocConsts,
    AssocConst,
    AssocFns,
    AssocFn,
    Implementors,
    Implementor,
    Structs,
    Unions,
    Enums,
    Traits,
    Functions,
    Constants,
    Statics,
    TypeAliass,
    MacroDecls,
    MacroFuncs,
    MacroAttrs,
    MacroDervs,
}

/// The glyphs drawn before a tree node and its descendants.
#[derive(Clone, Copy, Debug, PartialEq, Eq)]
pub struct GlyphPalette {
    pub middle_item: &'static str,
    pub last_item: &'static str,
    pub item_indent: &'static str,
    pub middle_skip: &'static str,
    pub last_skip: &'static str,
    pub skip_indent: &'static str,
}

/// The plain foreground style, for each normal item or list element.
pub open spec fn spec_style_fg(c: Color) -> Style {
    Style { fg: Some(c), ..Style::spec_new() }
}

/// The bold foreground style, for the title of a list of items.
pub open spec fn spec_style_bold(c: Color) -> Style {
    Style { fg: Some(c), add_modifier: Modifier { bits: Modifier::BOLD }, ..Style::spec_new() }
}

/// The bold and underlined style, for a data structure's name.
pub open spec fn spec_style_bold_underlined(c: Color) -> Style {
    Style {
        fg: Some(c),
        add_modifier: Modifier { bits: (Modifier::BOLD | Modifier::UNDERLINED) as u16 },
        ..Style::spec_new()
    }
}

fn style_fg(c: Color) -> (r: Style)
    ensures
        r == spec_style_fg(c),
{
    Style::new().fg(c)
}

fn style_bold(c: Color) -> (r: Style)
    ensures
        r == spec_style_bold(c),
{
    let s = Style::new().fg(c);
    Style { add_modifier: Modifier::from_bits(Modifier::BOLD), ..s }
}

fn style_bold_underlined(c: Color) -> (r: Style)
    ensures
        r == spec_style_bold_underlined(c),
{
    let s = Style::new().fg(c);
    Style { add_modifier: Modifier::from_bits(Modifier::BOLD | Modifier::UNDERLINED), ..s }
}

/// The default glyphs: `├── `, `└── `, with `│` and blanks below.
pub open spec fn spec_plain_glyph() -> GlyphPalette {
    GlyphPalette {
        middle_item: "├",
        last_item: "└",
        item_indent: "── ",
        middle_skip: "│",
        last_skip: " ",
        skip_indent: "   ",
    }
}

/// The glyphs with an item label after the branch, like `── [Mod] `.
pub open spec fn spec_icon_glyph(indent: &'static str) -> GlyphPalette {
    GlyphPalette { item_indent: indent, ..spec_plain_glyph() }
}

fn plain_glyph() -> (r: GlyphPalette)
    ensures
        r == spec_plain_glyph(),
{
    GlyphPalette {
        middle_item: "├",
        last_item: "└",
        item_indent: "── ",
        middle_skip: "│",
        last_skip: " ",
        skip_indent: "   ",
    }
}

fn icon_glyph(indent: &'static str) -> (r: GlyphPalette)
    ensures
        r == spec_icon_glyph(indent),
{
    GlyphPalette { item_indent: indent, ..plain_glyph() }
}

impl Tag {
    pub open spec fn spec_style(self) -> Style {
        match self {
            Tag::Module | Tag::ModuleFolded => spec_style_bold(Color::Rgb(213, 245, 85)),
            Tag::Structs => spec_style_bold(Color::Rgb(60, 148, 165)),
            Tag::Struct => spec_style_bold_underlined(Color::Rgb(60, 148, 165)),
            Tag::Fields => spec_style_bold(Color::Rgb(137, 199, 210)),
            Tag::Field => spec_style_fg(Color::Rgb(137, 199, 210)),
            Tag::NoFields => spec_style_fg(Color::Rgb(137, 199, 210)),
            Tag::Unions => spec_style_bold_underlined(Color::Rgb(183, 64, 168)),
            Tag::Union => spec_style_fg(Color::Rgb(183, 64, 168)),
            Tag::Enums => spec_style_bold(Color::Rgb(61, 176, 181)),
            Tag::Enum => spec_style_bold_underlined(Color::Rgb(61, 176, 181)),
            Tag::Variants => spec_style_bold(Color::Rgb(141, 218, 187)),
            Tag::Variant => spec_style_fg(Color::Rgb(141, 218, 187)),
            Tag::NoVariants => spec_style_fg(Color::Rgb(141, 218, 187)),
            Tag::Traits => spec_style_bold(Color::Rgb(255, 140, 41)),
            Tag::Trait => spec_style_bold_underlined(Color::Rgb(255, 140, 41)),
            Tag::Functions => spec_style_bold(Color::Rgb(214, 83, 76)),
            Tag::Function => spec_style_fg(Color::Rgb(214, 83, 76)),
            Tag::Constants => spec_style_bold(Color::Rgb(232, 218, 104)),
            Tag::Constant => spec_style_fg(Color::Rgb(232, 218, 104)),
            Tag::Statics => spec_style_bold(Color::Rgb(43, 43, 175)),
            Tag::Static => spec_style_bold(Color::Rgb(43, 43, 175)),
            Tag::TypeAliass => spec_style_bold(Color::Rgb(144, 99, 200)),
            Tag::TypeAlias => spec_style_fg(Color::Rgb(144, 99, 200)),
            Tag::Import => spec_style_fg(Color::Rgb(212, 61, 141)),
            Tag::MacroDecls => spec_style_bold(Color::Rgb(15, 129, 29)),
            Tag::MacroDecl => spec_style_fg(Color::Rgb(15, 129, 29)),
            Tag::MacroFuncs => spec_style_bold(Color::Rgb(96, 215, 117)),
            Tag::MacroFunc => spec_style_fg(Color::Rgb(96, 215, 117)),
            Tag::MacroAttrs => spec_style_bold(Color::Rgb(159, 233, 27)),
            Tag::MacroAttr => spec_style_fg(Color::Rgb(159, 233, 27)),
            Tag::MacroDervs => spec_style_bold(Color::Rgb(98, 152, 0)),
            Tag::MacroDerv => spec_style_fg(Color::Rgb(98, 152, 0)),
            Tag::Unknown => spec_style_fg(Color::DarkGray),
            Tag::FieldsPrivate => spec_style_fg(Color::DarkGray),
            Tag::Implementations => spec_style_fg(Color::White),
            Tag::InherentImpls => spec_style_bold(Color::Rgb(243, 101, 134)),
            Tag::ImplInherent => spec_style_fg(Color::Rgb(243, 101, 134)),
            Tag::TraitImpls => spec_style_bold(Color::Rgb(255, 195, 144)),
            Tag::ImplTrait => spec_style_fg(Color::Rgb(255, 195, 144)),
            Tag::AutoImpls => spec_style_bold(Color::Rgb(255, 140, 41)),
            Tag::ImplAuto => spec_style_fg(Color::Rgb(255, 140, 41)),
            Tag::BlanketImpls => spec_style_bold(Color::Rgb(222, 186, 0)),
            Tag::ImplBlanket => spec_style_fg(Color::Rgb(222, 186, 0)),
            _ => Style::spec_new(),
        }
    }

    pub fn style(self) -> (r: Style)
        ensures
            r == self.spec_style(),
    {
        match self {
            Tag::Module | Tag::ModuleFolded => style_bold(Color::Rgb(213, 245, 85)),
            Tag::Structs => style_bold(Color::Rgb(60, 148, 165)),
            Tag::Struct => style_bold_underlined(Color::Rgb(60, 148, 165)),
            Tag::Fields => style_bold(Color::Rgb(137, 199, 210)),
            Tag::Field => style_fg(Color::Rgb(137, 199, 210)),
            Tag::NoFields => style_fg(Color::Rgb(137, 199, 210)),
            Tag::Unions => style_bold_underlined(Color::Rgb(183, 64, 168)),
            Tag::Union => style_fg(Color::Rgb(183, 64, 168)),
            Tag::Enums => style_bold(Color::Rgb(61, 176, 181)),
            Tag::Enum => style_bold_underlined(Color::Rgb(61, 176, 181)),
            Tag::Variants => style_bold(Color::Rgb(141, 218, 187)),
            Tag::Variant => style_fg(Color::Rgb(141, 218, 187)),
            Tag::NoVariants => style_fg(Color::Rgb(141, 218, 187)),
            Tag::Traits => style_bold(Color::Rgb(255, 140, 41)),
            Tag::Trait => style_bold_underlined(Color::Rgb(255, 140, 41)),
            Tag::Functions => style_bold(Color::Rgb(214, 83, 76)),
            Tag::Function => style_fg(Color::Rgb(214, 83, 76)),
            Tag::Constants => style_bold(Color::Rgb(232, 218, 104)),
            Tag::Constant => style_fg(Color::Rgb(232, 218, 104)),
            Tag::Statics => style_bold(Color::Rgb(43, 43, 175)),
            Tag::Static => style_bold(Color::Rgb(43, 43, 175)),
            Tag::TypeAliass => style_bold(Color::Rgb(144, 99, 200)),
            Tag::TypeAlias => style_fg(Color::Rgb(144, 99, 200)),
            Tag::Import => style_fg(Color::Rgb(212, 61, 141)),
            Tag::MacroDecls => style_bold(Color::Rgb(15, 129, 29)),
            Tag::MacroDecl => style_fg(Color::Rgb(15, 129, 29)),
            Tag::MacroFuncs => style_bold(Color::Rgb(96, 215, 117)),
            Tag::MacroFunc => style_fg(Color::Rgb(96, 215, 117)),
            Tag::MacroAttrs => style_bold(Color::Rgb(159, 233, 27)),
            Tag::MacroAttr => style_fg(Color::Rgb(159, 233, 27)),
            Tag::MacroDervs => style_bold(Color::Rgb(98, 152, 0)),
            Tag::MacroDerv => style_fg(Color::Rgb(98, 152, 0)),
            Tag::Unknown => style_fg(Color::DarkGray),
            Tag::FieldsPrivate => style_fg(Color::DarkGray),
            Tag::Implementations => style_fg(Color::White),
            Tag::InherentImpls => style_bold(Color::Rgb(243, 101, 134)),
            Tag::ImplInherent => style_fg(Color::Rgb(243, 101, 134)),
            Tag::TraitImpls => style_bold(Color::Rgb(255, 195, 144)),
            Tag::ImplTrait => style_fg(Color::Rgb(255, 195, 144)),
            Tag::AutoImpls => style_bold(Color::Rgb(255, 140, 41)),
            Tag::ImplAuto => style_fg(Color::Rgb(255, 140, 41)),
            Tag::BlanketImpls => style_bold(Color::Rgb(222, 186, 0)),
            Tag::ImplBlanket => style_fg(Color::Rgb(222, 186, 0)),
            _ => Style::new(),
        }
    }

    pub open spec fn spec_glyph(self) -> GlyphPalette {
        match self {
            Tag::Module | Tag::ModuleFolded => spec_icon_glyph("── [Mod] "),
            Tag::Struct => spec_icon_glyph("── [Struct] "),
            Tag::Union => spec_icon_glyph("── [Union] "),
            Tag::Enum => spec_icon_glyph("── [Enum] "),
            Tag::Trait => spec_icon_glyph("── [Trait] "),
            Tag::Function => spec_icon_glyph("── [Fn] "),
            Tag::Constant => spec_icon_glyph("── [Const] "),
            Tag::Static => spec_icon_glyph("── [Static] "),
            Tag::TypeAlias => spec_icon_glyph("── [type alias] "),
            Tag::MacroDecl => spec_icon_glyph("── [macro decl] "),
            Tag::MacroFunc => spec_icon_glyph("── [macro func] "),
            Tag::MacroAttr => spec_icon_glyph("── [macro attr] "),
            Tag::MacroDerv => spec_icon_glyph("── [macro derv] "),
            Tag::Field => spec_icon_glyph("── [field] "),
            Tag::Variant => spec_icon_glyph("── [variant] "),
            Tag::AssocType => spec_icon_glyph("── [assoc type] "),
            Tag::AssocConst => spec_icon_glyph("── [assoc constant] "),
            Tag::AssocFn => spec_icon_glyph("── [assoc fn] "),
            _ => spec_plain_glyph(),
        }
    }

    pub fn glyph(self) -> (r: GlyphPalette)
        ensures
            r == self.spec_glyph(),
    {
        match self {
            Tag::Module | Tag::ModuleFolded => icon_glyph("── [Mod] "),
            Tag::Struct => icon_glyph("── [Struct] "),
            Tag::Union => icon_glyph("── [Union] "),
            Tag::Enum => icon_glyph("── [Enum] "),
            Tag::Trait => icon_glyph("── [Trait] "),
            Tag::Function => icon_glyph("── [Fn] "),
            Tag::Constant => icon_glyph("── [Const] "),
            Tag::Static => icon_glyph("── [Static] "),
            Tag::TypeAlias => icon_glyph("── [type alias] "),
            Tag::MacroDecl => icon_glyph("── [macro decl] "),
            Tag::MacroFunc => icon_glyph("── [macro func] "),
            Tag::MacroAttr => icon_glyph("── [macro attr] "),
            Tag::MacroDerv => icon_glyph("── [macro derv] "),
            Tag::Field => icon_glyph("── [field] "),
            Tag::Variant => icon_glyph("── [variant] "),
            Tag::AssocType => icon_glyph("── [assoc type] "),
            Tag::AssocConst => icon_glyph("── [assoc constant] "),
            Tag::AssocFn => icon_glyph("── [assoc fn] "),
            _ => plain_glyph(),
        }
    }

    /// The text of a heading node that needs no context, if the tag is a heading.
    pub open spec fn spec_heading_text(self) -> Option<Seq<char>> {
        match self {
            Tag::Implementations => Some("Implementations"@),
            Tag::NoImpls => Some("No Implementations!"@),
            Tag::InherentImpls => Some("Inherent Impls"@),
            Tag::TraitImpls => Some("Trait Impls"@),
            Tag::AutoImpls => Some("Auto Impls"@),
            Tag::BlanketImpls => Some("Blanket Impls"@),
            Tag::NoVariants => Some("No Variants!"@),
            Tag::Variants => Some("Variants"@),
            Tag::NoFields => Some("No Fields!"@),
            Tag::Fields => Some("Fields"@),
            Tag::FieldsPrivate => Some("/* private fields */"@),
            Tag::NoAssocOrImpls => Some("No Associated Items Or Implementors!"@),
            Tag::AssocTypes => Some("Associated Types"@),
            Tag::AssocConsts => Some("Associated Constants"@),
            Tag::AssocFns => Some("Associated Functions"@),
            Tag::Implementors => Some("Implementors"@),
            Tag::Structs => Some("Structs"@),
            Tag::Unions => Some("Unions"@),
            Tag::Enums => Some("Enums"@),
            Tag::Traits => Some("Traits"@),
            Tag::Functions => Some("Functions"@),
            Tag::Constants => Some("Constants"@),
            Tag::Statics => Some("Statics"@),
            Tag::TypeAliass => Some("Type Alias"@),
            Tag::MacroDecls => Some("Macros - Declarative"@),
            Tag::MacroFuncs => Some("Macros - Function"@),
            Tag::MacroAttrs => Some("Macros - Attribute"@),
            Tag::MacroDervs => Some("Macros - Derive"@),
            _ => None,
        }
    }

    fn heading_text(self) -> (r: Option<&'static str>)
        ensures
            r is Some == self.spec_heading_text() is Some,
            r matches Some(s) ==> s@ == self.spec_heading_text()->0,
    {
        match self {
            Tag::Implementations => Some("Implementations"),
            Tag::NoImpls => Some("No Implementations!"),
            Tag::InherentImpls => Some("Inherent Impls"),
            Tag::TraitImpls => Some("Trait Impls"),
            Tag::AutoImpls => Some("Auto Impls"),
            Tag::BlanketImpls => Some("Blanket Impls"),
            Tag::NoVariants => Some("No Variants!"),
            Tag::Variants => Some("Variants"),
            Tag::NoFields => Some("No Fields!"),
            Tag::Fields => Some("Fields"),
            Tag::FieldsPrivate => Some("/* private fields */"),
            Tag::NoAssocOrImpls => Some("No Associated Items Or Implementors!"),
            Tag::AssocTypes => Some("Associated Types"),
            Tag::AssocConsts => Some("Associated Constants"),
            Tag::AssocFns => Some("Associated Functions"),
            Tag::Implementors => Some("Implementors"),
            Tag::Structs => Some("Structs"),
            Tag::Unions => Some("Unions"),
            Tag::Enums => Some("Enums"),
            Tag::Traits => Some("Traits"),
            Tag::Functions => Some("Functions"),
            Tag::Constants => Some("Constants"),
            Tag::Statics => Some("Statics"),
            Tag::TypeAliass => Some("Type Alias"),
            Tag::MacroDecls => Some("Macros - Declarative"),
            Tag::MacroFuncs => Some("Macros - Function"),
            Tag::MacroAttrs => Some("Macros - Attribute"),
            Tag::MacroDervs => Some("Macros - Derive"),
            _ => None,
        }
    }

    /// Show as a simple heading node with no need for contexts.
    /// A tag that needs a name, a path or a type shows a notice under the `Unknown` tag instead.
    pub fn show(self) -> (r: DocTree)
        ensures
            r.leaves@.len() == 0,
            r.root.id is None,
            self.spec_heading_text() matches Some(t) ==> r.root.text@ == t && r.root.tag == self
                && r.glyph == self.spec_glyph(),
            self.spec_heading_text() is None ==> r.root.text@
                == "A Tag shouldn't be here. Check out the log."@ && r.root.tag == Tag::Unknown
                && r.glyph == Tag::Unknown.spec_glyph(),
    {
        match self.heading_text() {
            Some(text) => DocTree::new(str_to_string(text), self, None),
            None => DocTree::new(
                str_to_string("A Tag shouldn't be here. Check out the log."),
                Tag::Unknown,
                None,
            ),
        }
    }
}

} // verus!
