use vstd::prelude::*;
use crate::decl::{buf, vis_text, Visibility};
use crate::tree::id::ID;
use crate::tree::idmap::{IDMap, ItemInner};
use crate::type_names::{short_type_name, type_name_v, TypeV};
use crate::util::{string_push, string_push_str};

verus! {

/// The fields of a struct.
pub enum StructKind {
    /// `struct A;`
    Unit,
    /// `struct A(T, U);` with a field that is not public as `None`.
    Tuple(Vec<Option<ID>>),
    /// `struct A { t: T }`, and whether some fields are not public.
    Plain { fields: Vec<ID>, fields_stripped: bool },
}

/// A struct as its declaration shows it: its fields, and its generic parameters and where
/// clause as written out.
pub struct Struct {
    pub kind: StructKind,
    /// The generic parameters between `<` and `>`, if there are any.
    pub generics_def: Option<String>,
    /// The predicates of the where clause, if there are any.
    pub generics_where: Option<String>,
}

/// The comment written in place of fields that are not public.
pub open spec fn private_text(b: bool) -> Seq<char> {
    if b {
        "/* private fields */"@
    } else {
        seq![]
    }
}

/// The comment for fields that are not public, or nothing.
fn private(b: bool) -> (r: &'static str)
    ensures
        r@ == private_text(b),
{
    if b {
        "/* private fields */"
    } else {
        proof {
            reveal_strlit("");
        }
        ""
    }
}

/// A field's type as a declaration writes it: its short name, or `_` for a type without one.
pub open spec fn field_type_text(ty: TypeV) -> Seq<char> {
    match type_name_v(ty, true) {
        Some(n) => n,
        None => "_"@,
    }
}

fn field_type(ty: &TypeV) -> (r: String)
    ensures
        r@ == field_type_text(*ty),
{
    match short_type_name(ty) {
        Some(n) => n,
        None => crate::util::str_to_string("_"),
    }
}

/// The line of a named field: written only for a field of the index with a name.
pub open spec fn field_text(map: IDMap, id: Seq<char>) -> Seq<char> {
    match map.spec_get_item(id) {
        Some(item) => match item.name {
            Some(n) => match item.inner {
                ItemInner::StructField { ty } => "\n    "@ + n@ + ": "@ + field_type_text(ty) + ","@,
                _ => seq![],
            },
            None => seq![],
        },
        None => seq![],
    }
}

pub open spec fn fields_text(map: IDMap, ids: Seq<ID>) -> Seq<char>
    decreases ids.len(),
{
    if ids.len() == 0 {
        seq![]
    } else {
        fields_text(map, ids.drop_last()) + field_text(map, ids.last()@)
    }
}

/// The line of a tuple field: `_` for one that is not public, the type for a field of the
/// index, nothing else.
pub open spec fn tuple_field_text(map: IDMap, id: Option<ID>) -> Seq<char> {
    match id {
        Some(i) => match map.spec_get_item(i@) {
            Some(item) => match item.inner {
                ItemInner::StructField { ty } => "\n    "@ + field_type_text(ty) + ","@,
                _ => seq![],
            },
            None => seq![],
        },
        None => "\n    _,"@,
    }
}

pub open spec fn tuple_fields_text(map: IDMap, ids: Seq<Option<ID>>) -> Seq<char>
    decreases ids.len(),
{
    if ids.len() == 0 {
        seq![]
    } else {
        tuple_fields_text(map, ids.drop_last()) + tuple_field_text(map, ids.last())
    }
}

/// `n` underscores separated by `, `.
pub open spec fn underscores(n: nat) -> Seq<char>
    decreases n,
{
    if n == 0 {
        seq![]
    } else if n == 1 {
        "_"@
    } else {
        underscores((n - 1) as nat) + ", "@ + "_"@
    }
}

/// No field of the tuple is public.
pub open spec fn all_hidden(ids: Seq<Option<ID>>) -> bool {
    forall|i: int| 0 <= i < ids.len() ==> (#[trigger] ids[i]) is None
}

/// The inside of a tuple struct's parentheses: `_, _` when no field is public, else a line
/// per field and a line break.
pub open spec fn tuple_text(map: IDMap, ids: Seq<Option<ID>>) -> Seq<char> {
    if all_hidden(ids) {
        underscores(ids.len())
    } else {
        tuple_fields_text(map, ids) + "\n"@
    }
}

/// The braces of a plain struct with its fields; `p` comes before the braces of a struct
/// whose fields are all stripped.
pub open spec fn body_text(map: IDMap, fields: Seq<ID>, stripped: bool, p: Seq<char>) -> Seq<char> {
    if fields.len() == 0 {
        if stripped {
            p + "{ "@ + "/* private fields */"@ + " }"@
        } else {
            " {}"@
        }
    } else {
        "\n{"@ + fields_text(map, fields) + (if stripped {
            "\n    "@
        } else {
            seq![]
        }) + private_text(stripped) + "\n}"@
    }
}

/// What follows the name of a plain struct.
pub open spec fn plain_rest(
    map: IDMap,
    fields: Seq<ID>,
    stripped: bool,
    def: Option<String>,
    where_: Option<String>,
) -> Seq<char> {
    match (def, where_) {
        (None, None) => body_text(map, fields, stripped, " "@),
        (Some(d), None) => "<"@ + d@ + ">"@ + body_text(map, fields, stripped, " "@),
        (Some(d), Some(w)) => "<"@ + d@ + ">\nwhere\n"@ + w@ + body_text(map, fields, stripped, "\n"@),
        (None, Some(w)) => "\nwhere\n"@ + w@ + body_text(map, fields, stripped, "\n"@),
    }
}

/// What follows the name of a tuple struct.
pub open spec fn tuple_rest(
    map: IDMap,
    t: Seq<Option<ID>>,
    def: Option<String>,
    where_: Option<String>,
) -> Seq<char> {
    match (def, where_) {
        (None, None) => "("@ + tuple_text(map, t) + ");"@,
        (Some(d), None) => "<"@ + d@ + ">("@ + tuple_text(map, t) + ");"@,
        (Some(d), Some(w)) => "<"@ + d@ + ">("@ + tuple_text(map, t) + ")\nwhere\n"@ + w@ + ";"@,
        (None, Some(w)) => "("@ + tuple_text(map, t) + ")\nwhere\n"@ + w@ + ";"@,
    }
}

/// What follows the name of a unit struct.
pub open spec fn unit_rest(def: Option<String>, where_: Option<String>) -> Seq<char> {
    match (def, where_) {
        (None, None) => ";"@,
        (Some(d), None) => "<"@ + d@ + ">;"@,
        (None, Some(w)) => "\nwhere\n"@ + w@ + ";"@,
        (Some(d), Some(w)) => "<"@ + d@ + ">\nwhere\n"@ + w@ + ";"@,
    }
}

/// What follows `struct name` in the declaration.
pub open spec fn decl_rest(s: Struct, map: IDMap) -> Seq<char> {
    match s.kind {
        StructKind::Plain { fields, fields_stripped } => plain_rest(
            map,
            fields@,
            fields_stripped,
            s.generics_def,
            s.generics_where,
        ),
        StructKind::Tuple(t) => tuple_rest(map, t@, s.generics_def, s.generics_where),
        StructKind::Unit => unit_rest(s.generics_def, s.generics_where),
    }
}

/// The whole declaration of a struct.
pub open spec fn decl_text(s: Struct, v: Visibility, fname: Seq<char>, map: IDMap) -> Seq<char> {
    vis_text(v) + "struct "@ + fname + decl_rest(s, map)
}

/// Write the line of a named field.
fn push_field(id: &ID, map: &IDMap, buf: &mut String)
    ensures
        final(buf)@ == old(buf)@ + field_text(*map, id@),
{
    let ghost start = buf@;
    if let Some(fi) = map.get_item(id) {
        if let Some(name) = &fi.name {
            if let ItemInner::StructField { ty } = &fi.inner {
                string_push_str(buf, "\n    ");
                string_push_str(buf, name.as_str());
                string_push_str(buf, ": ");
                let t = field_type(ty);
                string_push_str(buf, t.as_str());
                string_push_str(buf, ",");
                return;
            }
        }
    }
    assert(buf@ =~= start + field_text(*map, id@));
}

/// Write the line of a tuple field.
fn push_tuple_field(id: &Option<ID>, map: &IDMap, buf: &mut String)
    ensures
        final(buf)@ == old(buf)@ + tuple_field_text(*map, *id),
{
    let ghost start = buf@;
    match id {
        Some(id) => {
            if let Some(fi) = map.get_item(id) {
                if let ItemInner::StructField { ty } = &fi.inner {
                    string_push_str(buf, "\n    ");
                    let t = field_type(ty);
                    string_push_str(buf, t.as_str());
                    string_push_str(buf, ",");
                    return;
                }
            }
            assert(buf@ =~= start + tuple_field_text(*map, Some(*id)));
        },
        None => string_push_str(buf, "\n    _,"),
    }
}

/// Write the line of each named field.
pub fn push_fields(ids: &Vec<ID>, map: &IDMap, buf: &mut String)
    ensures
        final(buf)@ == old(buf)@ + fields_text(*map, ids@),
{
    let ghost start = buf@;
    let mut i: usize = 0;
    while i < ids.len()
        invariant
            i <= ids@.len(),
            buf@ == start + fields_text(*map, ids@.subrange(0, i as int)),
        decreases ids@.len() - i,
    {
        push_field(&ids[i], map, buf);
        proof {
            let p = ids@.subrange(0, i + 1);
            assert(p.drop_last() == ids@.subrange(0, i as int));
            assert(p.last() == ids@[i as int]);
        }
        i = i + 1;
    }
    assert(ids@.subrange(0, i as int) == ids@);
}

/// Every field from `k` on is hidden.
fn hidden_from(ids: &Vec<Option<ID>>) -> (r: bool)
    ensures
        r == all_hidden(ids@),
{
    let mut i: usize = 0;
    while i < ids.len()
        invariant
            i <= ids@.len(),
            forall|j: int| 0 <= j < i ==> (#[trigger] ids@[j]) is None,
        decreases ids@.len() - i,
    {
        if ids[i].is_some() {
            return false;
        }
        i = i + 1;
    }
    true
}

/// Write the inside of a tuple struct's parentheses.
pub fn push_tuple_fields(ids: &Vec<Option<ID>>, map: &IDMap, buf: &mut String)
    ensures
        final(buf)@ == old(buf)@ + tuple_text(*map, ids@),
{
    let ghost start = buf@;
    if hidden_from(ids) {
        // no field is public: no line for each field
        let n = ids.len();
        let mut i: usize = 0;
        while i < n
            invariant
                i <= n,
                buf@ == start + underscores(i as nat),
            decreases n - i,
        {
            if i > 0 {
                string_push_str(buf, ", ");
            }
            string_push_str(buf, "_");
            proof {
                if i == 0 {
                    assert(buf@ =~= start + underscores(1));
                } else {
                    assert(buf@ =~= start + underscores((i + 1) as nat));
                }
            }
            i = i + 1;
        }
        return;
    }
    let mut i: usize = 0;
    while i < ids.len()
        invariant
            i <= ids@.len(),
            buf@ == start + tuple_fields_text(*map, ids@.subrange(0, i as int)),
        decreases ids@.len() - i,
    {
        push_tuple_field(&ids[i], map, buf);
        proof {
            let p = ids@.subrange(0, i + 1);
            assert(p.drop_last() == ids@.subrange(0, i as int));
            assert(p.last() == ids@[i as int]);
        }
        i = i + 1;
    }
    assert(ids@.subrange(0, i as int) == ids@);
    string_push(buf, '\n');
    proof {
        reveal_strlit("\n");
        assert(buf@ =~= start + tuple_text(*map, ids@));
    }
}

/// Write the braces of a plain struct with its fields.
pub fn write_body(b: &mut String, fields: &Vec<ID>, map: &IDMap, fields_stripped: bool, p: &str)
    ensures
        final(b)@ == old(b)@ + body_text(*map, fields@, fields_stripped, p@),
{
    let ghost start = b@;
    if fields.len() == 0 {
        if fields_stripped {
            string_push_str(b, p);
            string_push_str(b, "{ ");
            string_push_str(b, "/* private fields */");
            string_push_str(b, " }");
        } else {
            string_push_str(b, " {}");
        }
        assert(b@ =~= start + body_text(*map, fields@, fields_stripped, p@));
        return;
    }
    string_push_str(b, "\n{");
    push_fields(fields, map, b);
    if fields_stripped {
        string_push_str(b, "\n    ");
    }
    let ghost mid = b@;
    string_push_str(b, private(fields_stripped));
    string_push_str(b, "\n}");
    proof {
        if !fields_stripped {
            assert(mid =~= start + "\n{"@ + fields_text(*map, fields@));
        }
        assert(b@ =~= start + body_text(*map, fields@, fields_stripped, p@));
    }
}

fn write_plain_rest(
    b: &mut String,
    fields: &Vec<ID>,
    stripped: bool,
    def: &Option<String>,
    where_: &Option<String>,
    map: &IDMap,
)
    ensures
        final(b)@ == old(b)@ + plain_rest(*map, fields@, stripped, *def, *where_),
{
    let ghost start = b@;
    match (def, where_) {
        (None, None) => write_body(b, fields, map, stripped, " "),
        (Some(d), None) => {
            string_push_str(b, "<");
            string_push_str(b, d.as_str());
            string_push_str(b, ">");
            write_body(b, fields, map, stripped, " ");
        },
        (Some(d), Some(w)) => {
            string_push_str(b, "<");
            string_push_str(b, d.as_str());
            string_push_str(b, ">\nwhere\n");
            string_push_str(b, w.as_str());
            write_body(b, fields, map, stripped, "\n");
        },
        (None, Some(w)) => {
            string_push_str(b, "\nwhere\n");
            string_push_str(b, w.as_str());
            write_body(b, fields, map, stripped, "\n");
        },
    }
    assert(b@ =~= start + plain_rest(*map, fields@, stripped, *def, *where_));
}

fn write_tuple_rest(
    b: &mut String,
    t: &Vec<Option<ID>>,
    def: &Option<String>,
    where_: &Option<String>,
    map: &IDMap,
)
    ensures
        final(b)@ == old(b)@ + tuple_rest(*map, t@, *def, *where_),
{
    let ghost start = b@;
    match def {
        None => string_push_str(b, "("),
        Some(d) => {
            string_push_str(b, "<");
            string_push_str(b, d.as_str());
            string_push_str(b, ">(");
        },
    }
    push_tuple_fields(t, map, b);
    match where_ {
        None => string_push_str(b, ");"),
        Some(w) => {
            string_push_str(b, ")\nwhere\n");
            string_push_str(b, w.as_str());
            string_push_str(b, ";");
        },
    }
    assert(b@ =~= start + tuple_rest(*map, t@, *def, *where_));
}

fn write_unit_rest(b: &mut String, def: &Option<String>, where_: &Option<String>)
    ensures
        final(b)@ == old(b)@ + unit_rest(*def, *where_),
{
    let ghost start = b@;
    match (def, where_) {
        (None, None) => string_push_str(b, ";"),
        (Some(d), None) => {
            string_push_str(b, "<");
            string_push_str(b, d.as_str());
            string_push_str(b, ">;");
        },
        (None, Some(w)) => {
            string_push_str(b, "\nwhere\n");
            string_push_str(b, w.as_str());
            string_push_str(b, ";");
        },
        (Some(d), Some(w)) => {
            string_push_str(b, "<");
            string_push_str(b, d.as_str());
            string_push_str(b, ">\nwhere\n");
            string_push_str(b, w.as_str());
            string_push_str(b, ";");
        },
    }
    assert(b@ =~= start + unit_rest(*def, *where_));
}

impl Struct {
    /// The declaration of the struct named `fname` with the visibility, its fields looked up
    /// in the index.
    pub fn parse(&self, v: &Visibility, fname: &str, map: &IDMap) -> (r: String)
        ensures
            r@ == decl_text(*self, *v, fname@, *map),
    {
        let mut b = buf(v);
        string_push_str(&mut b, "struct ");
        string_push_str(&mut b, fname);
        let ghost head = b@;
        match &self.kind {
            StructKind::Plain { fields, fields_stripped } => write_plain_rest(
                &mut b,
                fields,
                *fields_stripped,
                &self.generics_def,
                &self.generics_where,
                map,
            ),
            StructKind::Tuple(t) => write_tuple_rest(
                &mut b,
                t,
                &self.generics_def,
                &self.generics_where,
                map,
            ),
            StructKind::Unit => write_unit_rest(&mut b, &self.generics_def, &self.generics_where),
        }
        assert(b@ =~= head + decl_rest(*self, *map));
        b
    }
}

} // verus!
