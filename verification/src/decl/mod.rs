//! Rust declarations of items written out as source text.
use vstd::prelude::*;
use crate::util::string_push_str;

pub mod fn_;
pub mod struct_;

verus! {

/// Who can see an item.
pub enum Visibility {
    /// `pub`
    Public,
    /// Private, as nothing is written.
    Default,
    /// `pub(crate)`
    Crate,
    /// `pub(path)`
    Restricted { path: String },
}

/// The text written before an item for its visibility.
pub open spec fn vis_text(v: Visibility) -> Seq<char> {
    match v {
        Visibility::Public => "pub "@,
        Visibility::Default => seq![],
        Visibility::Crate => "pub(crate) "@,
        Visibility::Restricted { path } => "pub("@ + path@ + ") "@,
    }
}

/// Write the visibility of an item.
pub fn vis(v: &Visibility, buf: &mut String)
    ensures
        final(buf)@ == old(buf)@ + vis_text(*v),
{
    match v {
        Visibility::Public => string_push_str(buf, "pub "),
        Visibility::Default => {
            assert(old(buf)@ + vis_text(*v) =~= old(buf)@);
        },
        Visibility::Crate => string_push_str(buf, "pub(crate) "),
        Visibility::Restricted { path } => {
            string_push_str(buf, "pub(");
            string_push_str(buf, path.as_str());
            string_push_str(buf, ") ");
        },
    }
}

/// A new declaration text, started with the visibility.
pub fn buf(v: &Visibility) -> (r: String)
    ensures
        r@ == vis_text(*v),
{
    let mut b = String::new();
    vis(v, &mut b);
    assert(b@ =~= vis_text(*v));
    b
}

} // verus!
