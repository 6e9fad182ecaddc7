use vstd::prelude::*;
use crate::util::{string_push, string_push_str, str_to_string};

verus! {

/// A type as far as its name is written out.
pub enum TypeV {
    /// A struct, enum, union or type alias by its path.
    ResolvedPath(PathV),
    /// A generic parameter.
    Generic(String),
    /// A reference, with its lifetime and mutability.
    BorrowedRef { lifetime: Option<String>, mutable: bool, type_: Box<TypeV> },
    /// Any other type, whose name is not written out.
    Other,
}

/// A path to a type with its generic arguments.
pub struct PathV {
    pub name: String,
    pub args: Option<Box<ArgsV>>,
}

/// The generic arguments of a path: `<..>`, or `(..) -> ..` for function traits.
pub enum ArgsV {
    AngleBracketed(Vec<ArgV>),
    Parenthesized { inputs: Vec<TypeV>, output: Option<TypeV> },
}

/// A generic argument.
pub enum ArgV {
    Lifetime(String),
    Type(TypeV),
    Const,
    Infer,
}

/// The text after the last `:`, or the whole text.
pub open spec fn after_last_colon(s: Seq<char>) -> Seq<char>
    decreases s.len(),
{
    if s.len() == 0 {
        s
    } else if s.last() == ':' {
        seq![]
    } else {
        after_last_colon(s.drop_last()).push(s.last())
    }
}

/// The names that are there, joined with `, `.
pub open spec fn join_names(ns: Seq<Option<Seq<char>>>) -> Seq<char>
    decreases ns.len(),
{
    if ns.len() == 0 {
        seq![]
    } else {
        let rest = join_names(ns.drop_first());
        match ns[0] {
            Some(n) => if rest.len() == 0 && !has_name(ns.drop_first()) {
                n
            } else {
                n + seq![',', ' '] + rest
            },
            None => rest,
        }
    }
}

/// Some name is there.
pub open spec fn has_name(ns: Seq<Option<Seq<char>>>) -> bool {
    exists|i: int| 0 <= i < ns.len() && ns[i] is Some
}

/// The written name of a type; `short` keeps only the last segment of paths' names.
pub open spec fn type_name_v(t: TypeV, short: bool) -> Option<Seq<char>>
    decreases t,
{
    match t {
        TypeV::ResolvedPath(p) => Some(path_name_v(p, short)),
        TypeV::Generic(g) => Some(g@),
        TypeV::BorrowedRef { lifetime, mutable, type_ } => match type_name_v(*type_, short) {
            Some(ty) => Some(
                match lifetime {
                    None => if mutable {
                        seq!['&', 'm', 'u', 't', ' '] + ty
                    } else {
                        seq!['&'] + ty
                    },
                    Some(life) => if mutable {
                        seq!['&', '\''] + life@ + seq![' ', 'm', 'u', 't', ' '] + ty
                    } else {
                        seq!['&', '\''] + life@ + seq![' '] + ty
                    },
                },
            ),
            None => None,
        },
        TypeV::Other => None,
    }
}

/// The written name of a path with its generic arguments.
pub open spec fn path_name_v(p: PathV, short: bool) -> Seq<char>
    decreases p,
{
    let name = if short {
        after_last_colon(p.name@)
    } else {
        p.name@
    };
    match p.args {
        None => name,
        Some(a) => match *a {
            ArgsV::AngleBracketed(args) => if args@.len() == 0 {
                name
            } else {
                name + seq!['<'] + join_names(arg_names_v(args@, short)) + seq!['>']
            },
            ArgsV::Parenthesized { inputs, output } => {
                let ret = match output {
                    Some(o) => match type_name_v(o, short) {
                        Some(r) => seq![' ', '-', '>', ' '] + r,
                        None => seq![],
                    },
                    None => seq![],
                };
                name + seq!['('] + join_names(type_names_v(inputs@, short)) + seq![')'] + ret
            },
        },
    }
}

/// The names of generic arguments: a lifetime by itself, a type by its name, `_` for one to
/// infer, none for a constant.
pub open spec fn arg_names_v(args: Seq<ArgV>, short: bool) -> Seq<Option<Seq<char>>>
    decreases args,
{
    if args.len() == 0 {
        seq![]
    } else {
        let first = match args[0] {
            ArgV::Lifetime(l) => Some(l@),
            ArgV::Type(t) => type_name_v(t, short),
            ArgV::Const => None,
            ArgV::Infer => Some(seq!['_']),
        };
        seq![first] + arg_names_v(args.drop_first(), short)
    }
}

/// The names of types.
pub open spec fn type_names_v(ts: Seq<TypeV>, short: bool) -> Seq<Option<Seq<char>>>
    decreases ts,
{
    if ts.len() == 0 {
        seq![]
    } else {
        seq![type_name_v(ts[0], short)] + type_names_v(ts.drop_first(), short)
    }
}

/// A name as text.
pub open spec fn opt_view(o: Option<String>) -> Option<Seq<char>> {
    match o {
        Some(s) => Some(s@),
        None => None,
    }
}

/// Names as texts.
pub open spec fn names_view(v: Seq<Option<String>>) -> Seq<Option<Seq<char>>> {
    Seq::new(v.len(), |i: int| opt_view(v[i]))
}

/// Join the names that are there with `, `.
fn join(ns: Vec<Option<String>>) -> (r: String)
    ensures
        r@ == join_names(names_view(ns@)),
{
    let ghost view = names_view(ns@);
    let mut out = String::new();
    let mut any = false;
    let n = ns.len();
    let mut i = n;
    // built from the end, each name put in front
    while i > 0
        invariant
            i <= n,
            n == ns@.len(),
            view == names_view(ns@),
            out@ == join_names(view.skip(i as int)),
            any == has_name(view.skip(i as int)),
        decreases i,
    {
        i = i - 1;
        let ghost rest = view.skip(i + 1);
        proof {
            assert(view.skip(i as int)[0] == view[i as int]);
            assert(view.skip(i as int).drop_first() =~= rest);
        }
        match &ns[i] {
            Some(s) => {
                let mut front = s.clone();
                if any {
                    string_push_str(&mut front, ", ");
                    proof {
                        reveal_strlit(", ");
                    }
                    string_push_str(&mut front, out.as_str());
                } else {
                    proof {
                        assert(out@ == join_names(rest));
                        lemma_no_names(rest);
                    }
                }
                out = front;
                any = true;
                proof {
                    assert(has_name(view.skip(i as int))) by {
                        assert(view.skip(i as int)[0] is Some);
                    }
                }
            },
            None => {
                proof {
                    if has_name(view.skip(i as int)) {
                        let k = choose|k: int| 0 <= k < view.skip(i as int).len() && view.skip(i as int)[k] is Some;
                        assert(k > 0);
                        assert(rest[k - 1] is Some);
                    }
                    if has_name(rest) {
                        let k = choose|k: int| 0 <= k < rest.len() && rest[k] is Some;
                        assert(view.skip(i as int)[k + 1] is Some);
                    }
                }
            },
        }
    }
    assert(view.skip(0) =~= view);
    out
}

/// With no names there, nothing is written.
proof fn lemma_no_names(ns: Seq<Option<Seq<char>>>)
    requires
        !has_name(ns),
    ensures
        join_names(ns) == Seq::<char>::empty(),
    decreases ns.len(),
{
    if ns.len() > 0 {
        assert(ns[0] is None);
        assert(!has_name(ns.drop_first())) by {
            if has_name(ns.drop_first()) {
                let k = choose|k: int| 0 <= k < ns.drop_first().len() && ns.drop_first()[k] is Some;
                assert(ns[k + 1] is Some);
            }
        }
        lemma_no_names(ns.drop_first());
    }
}

/// The text after the last `:`, or the whole text.
fn short_name(name: &str) -> (r: String)
    ensures
        r@ == after_last_colon(name@),
{
    let n = name.unicode_len();
    let mut out = String::new();
    let mut i: usize = 0;
    while i < n
        invariant
            i <= n,
            n == name@.len(),
            out@ == after_last_colon(name@.subrange(0, i as int)),
        decreases n - i,
    {
        let c = name.get_char(i);
        proof {
            let p = name@.subrange(0, i + 1);
            assert(p.drop_last() =~= name@.subrange(0, i as int));
            assert(p.last() == c);
        }
        if c == ':' {
            out = String::new();
        } else {
            string_push(&mut out, c);
        }
        i = i + 1;
    }
    assert(name@.subrange(0, i as int) =~= name@);
    out
}

/// The written name of a type, if it has one; `short` keeps only the last segment of
/// paths' names.
fn type_name_of(ty: &TypeV, short: bool) -> (r: Option<String>)
    ensures
        match r {
            Some(s) => type_name_v(*ty, short) == Some(s@),
            None => type_name_v(*ty, short) is None,
        },
    decreases ty, 0int,
{
    match ty {
        TypeV::ResolvedPath(p) => Some(path_name_of(p, short)),
        TypeV::Generic(t) => Some(t.clone()),
        TypeV::BorrowedRef { lifetime, mutable, type_ } => match type_name_of(type_, short) {
            Some(t) => {
                let mut s = String::new();
                match lifetime {
                    None => {
                        if *mutable {
                            string_push_str(&mut s, "&mut ");
                        } else {
                            string_push_str(&mut s, "&");
                        }
                    },
                    Some(life) => {
                        string_push_str(&mut s, "&'");
                        string_push_str(&mut s, life.as_str());
                        if *mutable {
                            string_push_str(&mut s, " mut ");
                        } else {
                            string_push_str(&mut s, " ");
                        }
                    },
                }
                string_push_str(&mut s, t.as_str());
                proof {
                    reveal_strlit("&mut ");
                    reveal_strlit("&");
                    reveal_strlit("&'");
                    reveal_strlit(" mut ");
                    reveal_strlit(" ");
                }
                Some(s)
            },
            None => None,
        },
        TypeV::Other => None,
    }
}

/// The written name of a path with its generic arguments.
fn path_name_of(p: &PathV, short: bool) -> (r: String)
    ensures
        r@ == path_name_v(*p, short),
    decreases p, 0int,
{
    let mut name = if short {
        short_name(p.name.as_str())
    } else {
        p.name.clone()
    };
    match &p.args {
        None => name,
        Some(a) => match &**a {
            ArgsV::AngleBracketed(args) => {
                if args.len() == 0 {
                    name
                } else {
                    let names = arg_names_of(args, 0, short);
                    assert(args@.skip(0) =~= args@);
                    string_push(&mut name, '<');
                    string_push_str(&mut name, join(names).as_str());
                    string_push(&mut name, '>');
                    name
                }
            },
            ArgsV::Parenthesized { inputs, output } => {
                let names = type_names_of(inputs, 0, short);
                assert(inputs@.skip(0) =~= inputs@);
                string_push(&mut name, '(');
                string_push_str(&mut name, join(names).as_str());
                string_push(&mut name, ')');
                match output {
                    Some(o) => match type_name_of(o, short) {
                        Some(r) => {
                            string_push_str(&mut name, " -> ");
                            proof {
                                reveal_strlit(" -> ");
                            }
                            string_push_str(&mut name, r.as_str());
                        },
                        None => {},
                    },
                    None => {},
                }
                name
            },
        },
    }
}

/// The names of the generic arguments from `k` on.
fn arg_names_of(args: &Vec<ArgV>, k: usize, short: bool) -> (r: Vec<Option<String>>)
    requires
        k <= args@.len(),
    ensures
        names_view(r@) == arg_names_v(args@.skip(k as int), short),
    decreases args, args@.len() - k,
{
    if k >= args.len() {
        let r: Vec<Option<String>> = Vec::new();
        assert(names_view(r@) =~= Seq::<Option<Seq<char>>>::empty());
        return r;
    }
    let ghost rest = args@.skip(k as int);
    proof {
        assert(rest[0] == args@[k as int]);
        assert(rest.drop_first() =~= args@.skip(k + 1));
        assert(decreases_to!(args => args@));
        assert(decreases_to!(args@ => args@[k as int]));
    }
    let first = match &args[k] {
        ArgV::Lifetime(l) => {
            let c = l.clone();
            assert(c@ == l@);
            Some(c)
        },
        ArgV::Type(t) => type_name_of(t, short),
        ArgV::Const => None,
        ArgV::Infer => {
            let u = str_to_string("_");
            proof {
                reveal_strlit("_");
            }
            assert(u@ == seq!['_']);
            Some(u)
        },
    };
    assert(opt_view(first) == arg_names_v(rest, short)[0]);
    let mut later = arg_names_of(args, k + 1, short);
    let ghost later_v = later@;
    let mut r: Vec<Option<String>> = Vec::new();
    r.push(first);
    r.append(&mut later);
    proof {
        assert(r@ =~= seq![first] + later_v);
        assert(names_view(r@) =~= seq![opt_view(first)] + names_view(later_v));
    }
    r
}

/// The names of the types from `k` on.
fn type_names_of(ts: &Vec<TypeV>, k: usize, short: bool) -> (r: Vec<Option<String>>)
    requires
        k <= ts@.len(),
    ensures
        names_view(r@) == type_names_v(ts@.skip(k as int), short),
    decreases ts, ts@.len() - k,
{
    if k >= ts.len() {
        let r: Vec<Option<String>> = Vec::new();
        assert(names_view(r@) =~= Seq::<Option<Seq<char>>>::empty());
        return r;
    }
    let ghost rest = ts@.skip(k as int);
    proof {
        assert(rest[0] == ts@[k as int]);
        assert(rest.drop_first() =~= ts@.skip(k + 1));
        assert(decreases_to!(ts => ts@));
        assert(decreases_to!(ts@ => ts@[k as int]));
    }
    let first = type_name_of(&ts[k], short);
    let mut later = type_names_of(ts, k + 1, short);
    let ghost later_v = later@;
    let mut r: Vec<Option<String>> = Vec::new();
    r.push(first);
    r.append(&mut later);
    proof {
        assert(r@ =~= seq![first] + later_v);
        assert(names_view(r@) =~= seq![opt_view(first)] + names_view(later_v));
    }
    r
}

/// The written name of a type, if it has one.
pub fn full_type_name(ty: &TypeV) -> (r: Option<String>)
    ensures
        match r {
            Some(s) => type_name_v(*ty, false) == Some(s@),
            None => type_name_v(*ty, false) is None,
        },
{
    type_name_of(ty, false)
}

/// The written name of a type, with only the last segment of paths' names.
pub fn short_type_name(ty: &TypeV) -> (r: Option<String>)
    ensures
        match r {
            Some(s) => type_name_v(*ty, true) == Some(s@),
            None => type_name_v(*ty, true) is None,
        },
{
    type_name_of(ty, true)
}

/// The written name of a path with its generic arguments.
pub fn resolved_path_name(p: &PathV) -> (r: Option<String>)
    ensures
        r matches Some(s) && s@ == path_name_v(*p, false),
{
    Some(path_name_of(p, false))
}

/// The written name of a path with its generic arguments, only the last segment of names
/// kept.
pub fn short_resolved_path_name(p: &PathV) -> (r: Option<String>)
    ensures
        r matches Some(s) && s@ == path_name_v(*p, true),
{
    Some(path_name_of(p, true))
}

} // verus!
