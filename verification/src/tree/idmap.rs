use vstd::prelude::*;
use crate::util::strings_view;
use crate::tree::id::{opt_id_view, ID};
use crate::tree::nodes::{DMacroKind, DModule};
use crate::util::{str_to_string, string_push, string_push_str};
use crate::type_names::TypeV;

verus! {

/// The kind of an item that only the path map knows, such as an item of another crate.
#[derive(Clone, Copy, Debug, PartialEq, Eq)]
pub enum ItemKind {
    Module,
    Struct,
    Union,
    Enum,
    Function,
    TypeAlias,
    Constant,
    Trait,
    Static,
    Macro,
    ProcAttribute,
    ProcDerive,
    Primitive,
    Other,
}

/// What the outline reads of an item's content in the crate's index.
#[allow(inconsistent_fields)]
pub enum ItemInner {
    Module { is_crate: bool, items: Vec<ID> },
    /// The fields in order; a tuple field that is not public shows as `None`.
    StructTuple { fields: Vec<Option<ID>>, impls: Vec<ID> },
    StructPlain { fields: Vec<ID>, has_stripped_fields: bool, impls: Vec<ID> },
    StructUnit { impls: Vec<ID> },
    Union { fields: Vec<ID>, impls: Vec<ID> },
    Enum { variants: Vec<ID>, impls: Vec<ID> },
    Trait { items: Vec<ID>, implementations: Vec<ID> },
    Function,
    Constant,
    Static,
    /// A type alias, with the id of the type it names when that type is a path.
    TypeAlias { source: Option<ID> },
    Macro,
    ProcMacro(DMacroKind),
    AssocType,
    AssocConst,
    /// A `pub use` item: the name it brings in and the id of its source, if any.
    Use { name: String, id: Option<ID> },
    /// An impl block, with the implementor and the trait written out as types.
    Impl { implementor: String, trait_: Option<String> },
    /// A field of a struct, union or enum variant, with its type.
    StructField { ty: TypeV },
    Other,
}

/// An item of the crate's index.
pub struct Item {
    pub id: ID,
    pub crate_id: u32,
    pub name: Option<String>,
    pub docs: Option<String>,
    pub inner: ItemInner,
}

/// An entry of the crate's path map: the full path and the kind of an item.
pub struct ItemSummary {
    pub id: ID,
    pub path: Vec<String>,
    pub kind: ItemKind,
}

/// The crate's index and path map, with the module tree built from them.
pub struct IDMap {
    pub index: Vec<Item>,
    pub paths: Vec<ItemSummary>,
    pub dmod: DModule,
}

impl Default for IDMap {
    /// An empty crate: no items, no paths, and a root module with the first id.
    fn default() -> (r: Self)
        ensures
            r.index@.len() == 0,
            r.paths@.len() == 0,
            r.dmod.id@ == "0"@,
            r.dmod.is_bare(),
    {
        IDMap { index: Vec::new(), paths: Vec::new(), dmod: DModule::default() }
    }
}

/// The position of the first item with the id.
pub open spec fn find_item(index: Seq<Item>, id: Seq<char>) -> Option<int> {
    if exists|i: int| 0 <= i < index.len() && (#[trigger] index[i]).id@ == id {
        Some(choose|i: int|
            0 <= i < index.len() && (#[trigger] index[i]).id@ == id && forall|j: int|
                0 <= j < i ==> (#[trigger] index[j]).id@ != id)
    } else {
        None
    }
}

/// The position of the first path entry with the id.
pub open spec fn find_path(paths: Seq<ItemSummary>, id: Seq<char>) -> Option<int> {
    if exists|i: int| 0 <= i < paths.len() && (#[trigger] paths[i]).id@ == id {
        Some(choose|i: int|
            0 <= i < paths.len() && (#[trigger] paths[i]).id@ == id && forall|j: int|
                0 <= j < i ==> (#[trigger] paths[j]).id@ != id)
    } else {
        None
    }
}

/// The path components joined with `::`.
pub open spec fn spec_join_path(path: Seq<Seq<char>>) -> Seq<char>
    decreases path.len(),
{
    if path.len() == 0 {
        seq![]
    } else if path.len() == 1 {
        path[0]
    } else {
        spec_join_path(path.drop_last()) + seq![':', ':'] + path.last()
    }
}

/// Join path components with `::`.
pub fn join_path(path: &Vec<String>) -> (r: String)
    ensures
        r@ == spec_join_path(strings_view(path@)),
{
    let mut s = String::new();
    let mut i: usize = 0;
    while i < path.len()
        invariant
            i <= path.len(),
            s@ == spec_join_path(strings_view(path@.subrange(0, i as int))),
        decreases path.len() - i,
    {
        proof {
            let p = strings_view(path@.subrange(0, i + 1));
            assert(p.drop_last() == strings_view(path@.subrange(0, i as int)));
            assert(p.last() == path@[i as int]@);
        }
        if i > 0 {
            string_push_str(&mut s, "::");
            proof {
                reveal_strlit("::");
            }
        }
        string_push_str(&mut s, path[i].as_str());
        i = i + 1;
    }
    assert(path@.subrange(0, i as int) == path@);
    s
}

/// How an item id is written where nothing better is known of it: `Id(` and the id, then `)`.
pub open spec fn spec_id_debug(id: Seq<char>) -> Seq<char> {
    seq!['I', 'd', '('] + id + seq![')']
}

/// Write the id as `Id(..)`.
pub fn id_debug(id: &ID) -> (r: String)
    ensures
        r@ == spec_id_debug(id@),
{
    let mut s = str_to_string("Id(");
    proof {
        reveal_strlit("Id(");
    }
    string_push_str(&mut s, id.id.as_str());
    string_push(&mut s, ')');
    s
}

/// The name deduced from the item's content when it has none of its own.
pub open spec fn spec_item_name(item: Item) -> Option<Seq<char>> {
    match item.inner {
        ItemInner::Impl { implementor, trait_ } => match trait_ {
            Some(t) => Some(implementor@ + seq![':', ' '] + t@),
            None => Some(implementor@),
        },
        ItemInner::Use { name, id: _ } => Some(name@),
        _ => None,
    }
}

/// Deduce the name from the item's content.
pub fn item_name(item: &Item) -> (r: Option<String>)
    ensures
        r matches Some(s) ==> spec_item_name(*item) == Some(s@),
        r is None ==> spec_item_name(*item) is None,
{
    match &item.inner {
        ItemInner::Impl { implementor, trait_ } => {
            let mut s = implementor.clone();
            match trait_ {
                Some(t) => {
                    string_push_str(&mut s, ": ");
                    proof {
                        reveal_strlit(": ");
                    }
                    string_push_str(&mut s, t.as_str());
                },
                None => {},
            }
            Some(s)
        },
        ItemInner::Use { name, id: _ } => Some(name.clone()),
        _ => None,
    }
}

impl IDMap {
    pub open spec fn spec_get_item(&self, id: Seq<char>) -> Option<Item> {
        match find_item(self.index@, id) {
            Some(i) => Some(self.index@[i]),
            None => None,
        }
    }

    pub open spec fn spec_get_path(&self, id: Seq<char>) -> Option<ItemSummary> {
        match find_path(self.paths@, id) {
            Some(i) => Some(self.paths@[i]),
            None => None,
        }
    }

    /// The name of an item: its own name, or the one deduced from its content, or the
    /// last path component, or else the id written as `Id(..)`.
    pub open spec fn spec_name(&self, id: Seq<char>) -> Seq<char> {
        match self.spec_get_item(id) {
            Some(item) => match item.name {
                Some(n) => n@,
                None => match spec_item_name(item) {
                    Some(n) => n,
                    None => spec_id_debug(id),
                },
            },
            None => match self.spec_get_path(id) {
                Some(p) => if p.path@.len() > 0 {
                    p.path@.last()@
                } else {
                    spec_id_debug(id)
                },
                None => spec_id_debug(id),
            },
        }
    }

    /// The full path of an item if the path map has it, or its name.
    pub open spec fn spec_path(&self, id: Seq<char>) -> Seq<char> {
        match self.spec_get_path(id) {
            Some(p) => spec_join_path(strings_view(p.path@)),
            None => self.spec_name(id),
        }
    }

    /// The documentation of an item; a `pub use` item gives that of its source, unless the
    /// source is another `pub use` item.
    pub open spec fn spec_get_doc(&self, id: Seq<char>) -> Option<Seq<char>> {
        match self.spec_get_item(id) {
            Some(item) => match item.inner {
                ItemInner::Use { name: _, id: inner } => match inner {
                    Some(inner_id) => match self.spec_get_item(inner_id@) {
                        Some(re) => match re.inner {
                            ItemInner::Use { .. } => None,
                            _ => match re.docs {
                                Some(d) => Some(d@),
                                None => None,
                            },
                        },
                        None => None,
                    },
                    None => None,
                },
                _ => match item.docs {
                    Some(d) => Some(d@),
                    None => None,
                },
            },
            None => None,
        }
    }

    /// The item in the index with the id.
    pub fn get_item(&self, id: &ID) -> (r: Option<&Item>)
        ensures
            r matches Some(item) ==> self.spec_get_item(id@) == Some(*item),
            r is None ==> self.spec_get_item(id@) is None,
    {
        let mut i: usize = 0;
        while i < self.index.len()
            invariant
                i <= self.index@.len(),
                forall|j: int| 0 <= j < i ==> (#[trigger] self.index@[j]).id@ != id@,
            decreases self.index@.len() - i,
        {
            if self.index[i].id.id == id.id {
                proof {
                    let w = i as int;
                    assert(self.index@[w].id@ == id@);
                    let c = choose|k: int|
                        0 <= k < self.index@.len() && (#[trigger] self.index@[k]).id@ == id@
                            && forall|j: int| 0 <= j < k ==> (#[trigger] self.index@[j]).id@ != id@;
                    assert(c == w) by {
                        if c < w {
                            assert(self.index@[c].id@ != id@);
                        }
                        if c > w {
                            assert(self.index@[w].id@ != id@);
                        }
                    }
                }
                return Some(&self.index[i]);
            }
            i = i + 1;
        }
        None
    }

    /// The entry in the path map with the id.
    pub fn get_path(&self, id: &ID) -> (r: Option<&ItemSummary>)
        ensures
            r matches Some(p) ==> self.spec_get_path(id@) == Some(*p),
            r is None ==> self.spec_get_path(id@) is None,
    {
        let mut i: usize = 0;
        while i < self.paths.len()
            invariant
                i <= self.paths@.len(),
                forall|j: int| 0 <= j < i ==> (#[trigger] self.paths@[j]).id@ != id@,
            decreases self.paths@.len() - i,
        {
            if self.paths[i].id.id == id.id {
                proof {
                    let w = i as int;
                    assert(self.paths@[w].id@ == id@);
                    let c = choose|k: int|
                        0 <= k < self.paths@.len() && (#[trigger] self.paths@[k]).id@ == id@
                            && forall|j: int| 0 <= j < k ==> (#[trigger] self.paths@[j]).id@ != id@;
                    assert(c == w) by {
                        if c < w {
                            assert(self.paths@[c].id@ != id@);
                        }
                        if c > w {
                            assert(self.paths@[w].id@ != id@);
                        }
                    }
                }
                return Some(&self.paths[i]);
            }
            i = i + 1;
        }
        None
    }

    /// The name of an item.
    pub fn name(&self, id: &ID) -> (r: String)
        ensures
            r@ == self.spec_name(id@),
    {
        match self.get_item(id) {
            Some(item) => match &item.name {
                Some(n) => n.clone(),
                None => match item_name(item) {
                    Some(n) => n,
                    None => id_debug(id),
                },
            },
            None => match self.get_path(id) {
                Some(p) => {
                    if p.path.len() > 0 {
                        p.path[p.path.len() - 1].clone()
                    } else {
                        id_debug(id)
                    }
                },
                None => id_debug(id),
            },
        }
    }

    /// The full path of an item if it exists, or its name.
    pub fn path(&self, id: &ID) -> (r: String)
        ensures
            r@ == self.spec_path(id@),
    {
        match self.get_path(id) {
            Some(p) => join_path(&p.path),
            None => self.name(id),
        }
    }

    /// Like `path`, but gives the name as the error when the path map lacks the item.
    pub fn path_or_name(&self, id: &ID) -> (r: Result<String, String>)
        ensures
            r matches Ok(s) ==> self.spec_get_path(id@) is Some && s@ == self.spec_path(id@),
            r matches Err(s) ==> self.spec_get_path(id@) is None && s@ == self.spec_name(id@),
    {
        match self.get_path(id) {
            Some(p) => Ok(join_path(&p.path)),
            None => Err(self.name(id)),
        }
    }

    /// The documentation of an item.
    pub fn get_doc(&self, id: &ID) -> (r: Option<&str>)
        ensures
            r matches Some(d) ==> self.spec_get_doc(id@) == Some(d@),
            r is None ==> self.spec_get_doc(id@) is None,
    {
        match self.get_item(id) {
            Some(item) => match &item.inner {
                ItemInner::Use { name: _, id: inner } => match inner {
                    Some(inner_id) => match self.get_item(inner_id) {
                        Some(re) => match &re.inner {
                            ItemInner::Use { .. } => None,
                            _ => match &re.docs {
                                Some(d) => Some(d.as_str()),
                                None => None,
                            },
                        },
                        None => None,
                    },
                    None => None,
                },
                _ => match &item.docs {
                    Some(d) => Some(d.as_str()),
                    None => None,
                },
            },
            None => None,
        }
    }

    pub open spec fn spec_is_same_id(&self, src: Seq<char>, target: Seq<char>) -> bool {
        src == target || match self.spec_get_item(src) {
            Some(item) => match item.inner {
                ItemInner::Use { name: _, id } => opt_id_view(id) == Some(target),
                _ => false,
            },
            None => false,
        }
    }

    /// Whether two ids refer to the same item, also through a `pub use` item.
    pub fn is_same_id(&self, src: &ID, target: &ID) -> (r: bool)
        ensures
            r == self.spec_is_same_id(src@, target@),
    {
        if src.id == target.id {
            return true;
        }
        match self.get_item(src) {
            Some(item) => match &item.inner {
                ItemInner::Use { name: _, id } => match id {
                    Some(i) => i.id == target.id,
                    None => false,
                },
                _ => false,
            },
            None => false,
        }
    }

    pub fn dmodule(&self) -> (r: &DModule)
        ensures
            *r == self.dmod,
    {
        &self.dmod
    }

    /// The crate's index of items.
    pub fn indexmap(&self) -> (r: &Vec<Item>)
        ensures
            r@ == self.index@,
    {
        &self.index
    }

    /// The crate's path map.
    pub fn pathmap(&self) -> (r: &Vec<ItemSummary>)
        ensures
            r@ == self.paths@,
    {
        &self.paths
    }

    /// Like `path`, for an item expected of the given kind: the full path when the path map
    /// has the item, whatever its kind there, else the id written as `Id(..)`.
    pub fn path_with_kind_check(&self, id: &ID, _kind: ItemKind) -> (r: String)
        ensures
            r@ == match self.spec_get_path(id@) {
                Some(p) => spec_join_path(strings_view(p.path@)),
                None => spec_id_debug(id@),
            },
    {
        match self.get_path(id) {
            Some(p) => join_path(&p.path),
            None => id_debug(id),
        }
    }
}

} // verus!
