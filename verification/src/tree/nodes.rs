use vstd::prelude::*;
use crate::tree::id::ID;

verus! {

/// A simple item only carries its id.
pub struct DFunction {
    pub id: ID,
}

pub struct DConstant {
    pub id: ID,
}

pub struct DStatic {
    pub id: ID,
}

pub struct DMacroDecl {
    pub id: ID,
}

pub struct DMacroFunc {
    pub id: ID,
}

pub struct DMacroAttr {
    pub id: ID,
}

pub struct DMacroDerv {
    pub id: ID,
}

impl DFunction {
    pub fn new(id: ID) -> (r: Self)
        ensures
            r.id == id,
    {
        DFunction { id }
    }
}

impl DConstant {
    pub fn new(id: ID) -> (r: Self)
        ensures
            r.id == id,
    {
        DConstant { id }
    }
}

impl DStatic {
    pub fn new(id: ID) -> (r: Self)
        ensures
            r.id == id,
    {
        DStatic { id }
    }
}

impl DMacroDecl {
    pub fn new(id: ID) -> (r: Self)
        ensures
            r.id == id,
    {
        DMacroDecl { id }
    }
}

impl DMacroFunc {
    pub fn new(id: ID) -> (r: Self)
        ensures
            r.id == id,
    {
        DMacroFunc { id }
    }
}

impl DMacroAttr {
    pub fn new(id: ID) -> (r: Self)
        ensures
            r.id == id,
    {
        DMacroAttr { id }
    }
}

impl DMacroDerv {
    pub fn new(id: ID) -> (r: Self)
        ensures
            r.id == id,
    {
        DMacroDerv { id }
    }
}

/// A type alias, with the id of the type it names when that type is a path.
pub struct DTypeAlias {
    pub id: ID,
    /// points to a source type resolved as path
    ///
    /// A type alias may point to non-path-based type though.
    pub source_path: Option<ID>,
}

impl DTypeAlias {
    pub fn new(id: ID, source_path: Option<ID>) -> (r: Self)
        ensures
            r.id == id,
            r.source_path == source_path,
    {
        DTypeAlias { id, source_path }
    }
}

#[derive(Clone, Copy, Debug, PartialEq, Eq)]
pub enum DMacroKind {
    Declarative,
    ProcFunction,
    ProcAttribute,
    ProcDerive,
}

/// A macro of any kind.
pub struct DMacro {
    pub id: ID,
    pub kind: DMacroKind,
}

impl DMacro {
    pub fn new(id: ID, kind: DMacroKind) -> (r: Self)
        ensures
            r.id == id,
            r.kind == kind,
    {
        DMacro { id, kind }
    }
}

/// The items of one impl block.
pub struct DImplInner {
    pub id: ID,
    pub functions: Vec<ID>,
    pub constants: Vec<ID>,
    pub types: Vec<ID>,
}

impl DImplInner {
    pub open spec fn spec_is_empty(&self) -> bool {
        self.functions@.len() == 0 && self.constants@.len() == 0 && self.types@.len() == 0
    }

    /// An impl block known by its id only.
    pub fn new_with_no_details(id: ID) -> (r: Self)
        ensures
            r.id == id,
            r.spec_is_empty(),
    {
        DImplInner { id, functions: Vec::new(), constants: Vec::new(), types: Vec::new() }
    }

    pub fn is_empty(&self) -> (r: bool)
        ensures
            r == self.spec_is_empty(),
    {
        self.functions.len() == 0 && self.constants.len() == 0 && self.types.len() == 0
    }
}

impl Default for DImplInner {
    /// A block with the first id and no items.
    fn default() -> (r: Self)
        ensures
            r.id@ == "0"@,
            r.spec_is_empty(),
    {
        DImplInner::new_with_no_details(ID::new("0"))
    }
}

/// The impl blocks of a data type, ordered by name.
///
/// Types with impl blocks are refused: `DImpl::new` takes only an empty id list, and the
/// module tree is built only from an index whose types list no impls, so every list here is
/// empty.
pub struct DImpl {
    pub inherent: Vec<DImplInner>,
    pub trait_: Vec<DImplInner>,
    pub auto: Vec<DImplInner>,
    pub blanket: Vec<DImplInner>,
    /// Inherent items from multiple impl blocks are merged into one block
    /// with themselves sorted by name; its id is empty.
    pub merged_inherent: DImplInner,
}

impl DImpl {
    pub open spec fn spec_is_empty(&self) -> bool {
        &&& self.auto@.len() == 0
        &&& self.blanket@.len() == 0
        &&& self.inherent@.len() == 0
        &&& self.trait_@.len() == 0
    }

    /// No impl blocks at all.
    pub fn empty() -> (r: Self)
        ensures
            r.spec_is_empty(),
            r.merged_inherent.spec_is_empty(),
            r.merged_inherent.id@ == "0"@,
    {
        DImpl {
            inherent: Vec::new(),
            trait_: Vec::new(),
            auto: Vec::new(),
            blanket: Vec::new(),
            merged_inherent: DImplInner::default(),
        }
    }

    /// The impls of a type with the given impl ids.
    /// Only a type without impls is accepted: the classification of impl blocks into
    /// inherent, trait, auto and blanket ones is not written, so a non-empty list is refused
    /// by the `requires`.
    pub fn new(ids: &[ID]) -> (r: Self)
        requires
            ids@.len() == 0,
        ensures
            r.spec_is_empty(),
            r.merged_inherent.spec_is_empty(),
    {
        DImpl::empty()
    }

    pub fn is_empty(&self) -> (r: bool)
        ensures
            r == self.spec_is_empty(),
    {
        self.auto.len() == 0 && self.blanket.len() == 0 && self.inherent.len() == 0
            && self.trait_.len() == 0
    }
}

pub struct DStruct {
    pub id: ID,
    pub fields: Vec<ID>,
    pub contain_private_fields: bool,
    pub impls: DImpl,
}

impl DStruct {
    /// External items need external crates compiled to know details,
    /// so fields are unknown and counted as private.
    pub fn new_external(id: ID) -> (r: Self)
        ensures
            r.id == id,
            r.fields@.len() == 0,
            r.impls.spec_is_empty(),
            r.contain_private_fields,
    {
        DStruct { id, fields: Vec::new(), impls: DImpl::empty(), contain_private_fields: true }
    }
}

pub struct DEnum {
    pub id: ID,
    pub variants: Vec<ID>,
    pub impls: DImpl,
}

impl DEnum {
    pub fn new_external(id: ID) -> (r: Self)
        ensures
            r.id == id,
            r.variants@.len() == 0,
            r.impls.spec_is_empty(),
    {
        DEnum { id, variants: Vec::new(), impls: DImpl::empty() }
    }
}

pub struct DUnion {
    pub id: ID,
    pub fields: Vec<ID>,
    pub impls: DImpl,
}

impl DUnion {
    pub fn new_external(id: ID) -> (r: Self)
        ensures
            r.id == id,
            r.fields@.len() == 0,
            r.impls.spec_is_empty(),
    {
        DUnion { id, fields: Vec::new(), impls: DImpl::empty() }
    }
}

pub struct DTrait {
    pub id: ID,
    pub types: Vec<ID>,
    pub constants: Vec<ID>,
    pub functions: Vec<ID>,
    pub implementations: Vec<ID>,
}

impl DTrait {
    pub fn new_external(id: ID) -> (r: Self)
        ensures
            r.id == id,
            r.types@.len() == 0,
            r.constants@.len() == 0,
            r.functions@.len() == 0,
            r.implementations@.len() == 0,
    {
        DTrait {
            id,
            types: Vec::new(),
            constants: Vec::new(),
            functions: Vec::new(),
            implementations: Vec::new(),
        }
    }
}

/// Module tree with structural items.
/// All the items only carry ids without actual data.
pub struct DModule {
    pub id: ID,
    pub modules: Vec<DModule>,
    pub structs: Vec<DStruct>,
    pub unions: Vec<DUnion>,
    pub enums: Vec<DEnum>,
    pub traits: Vec<DTrait>,
    pub functions: Vec<DFunction>,
    pub constants: Vec<DConstant>,
    pub statics: Vec<DStatic>,
    pub type_alias: Vec<DTypeAlias>,
    pub macros_decl: Vec<DMacroDecl>,
    pub macros_func: Vec<DMacroFunc>,
    pub macros_attr: Vec<DMacroAttr>,
    pub macros_derv: Vec<DMacroDerv>,
}

impl Default for DModule {
    /// A module with the first id and no items.
    fn default() -> (r: Self)
        ensures
            r.id@ == "0"@,
            r.is_bare(),
    {
        DModule::new_external(ID::new("0"))
    }
}

impl DModule {
    pub open spec fn is_bare(&self) -> bool {
        &&& self.modules@.len() == 0
        &&& self.structs@.len() == 0
        &&& self.unions@.len() == 0
        &&& self.enums@.len() == 0
        &&& self.traits@.len() == 0
        &&& self.functions@.len() == 0
        &&& self.constants@.len() == 0
        &&& self.statics@.len() == 0
        &&& self.type_alias@.len() == 0
        &&& self.macros_decl@.len() == 0
        &&& self.macros_func@.len() == 0
        &&& self.macros_attr@.len() == 0
        &&& self.macros_derv@.len() == 0
    }

    /// A module with no items.
    pub fn new_external(id: ID) -> (r: Self)
        ensures
            r.id == id,
            r.is_bare(),
    {
        DModule {
            id,
            modules: Vec::new(),
            structs: Vec::new(),
            unions: Vec::new(),
            enums: Vec::new(),
            traits: Vec::new(),
            functions: Vec::new(),
            constants: Vec::new(),
            statics: Vec::new(),
            type_alias: Vec::new(),
            macros_decl: Vec::new(),
            macros_func: Vec::new(),
            macros_attr: Vec::new(),
            macros_derv: Vec::new(),
        }
    }
}

} // verus!
