use vstd::prelude::*;
use crate::decl::{buf, vis_text, Visibility};
use crate::util::string_push_str;

verus! {

/// A function as its declaration shows it, its parts written out: the qualifiers before
/// `fn`, the generic parameters, the parameters with the return type, and the where clause.
pub struct Function {
    /// The qualifiers such as `const `, `async `, `unsafe `, each followed by a space.
    pub header: String,
    /// The generic parameters between `<` and `>`, if there are any.
    pub generics_def: Option<String>,
    /// The parameter list with its parentheses and the return type.
    pub decl: String,
    /// The predicates of the where clause, if there are any.
    pub generics_where: Option<String>,
}

/// The whole declaration of a function.
pub open spec fn fn_text(f: Function, v: Visibility, fname: Seq<char>) -> Seq<char> {
    vis_text(v) + f.header@ + "fn "@ + fname + (match f.generics_def {
        Some(d) => "<"@ + d@ + ">"@,
        None => seq![],
    }) + f.decl@ + match f.generics_where {
        Some(w) => " where "@ + w@,
        None => seq![],
    }
}

impl Function {
    /// The declaration of the function named `fname` with the visibility.
    pub fn parse(&self, v: &Visibility, fname: &str) -> (r: String)
        ensures
            r@ == fn_text(*self, *v, fname@),
    {
        let mut b = buf(v);
        string_push_str(&mut b, self.header.as_str());
        string_push_str(&mut b, "fn ");
        string_push_str(&mut b, fname);
        let ghost named = b@;
        if let Some(d) = &self.generics_def {
            string_push_str(&mut b, "<");
            string_push_str(&mut b, d.as_str());
            string_push_str(&mut b, ">");
        }
        let ghost with_generics = b@;
        string_push_str(&mut b, self.decl.as_str());
        let ghost with_decl = b@;
        if let Some(w) = &self.generics_where {
            string_push_str(&mut b, " where ");
            string_push_str(&mut b, w.as_str());
        }
        proof {
            assert(with_generics =~= named + match self.generics_def {
                Some(d) => "<"@ + d@ + ">"@,
                None => seq![],
            });
            assert(b@ =~= with_decl + match self.generics_where {
                Some(w) => " where "@ + w@,
                None => seq![],
            });
            assert(b@ =~= fn_text(*self, *v, fname@));
        }
        b
    }
}

} // verus!
