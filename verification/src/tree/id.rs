use vstd::prelude::*;

verus! {

/// An owned item id as it appears in the documentation JSON.
#[derive(PartialEq, Eq, Hash, Debug)]
pub struct ID {
    pub id: String,
}

impl View for ID {
    type V = Seq<char>;

    open spec fn view(&self) -> Seq<char> {
        self.id@
    }
}

/// The texts of an optional id.
pub open spec fn opt_id_view(o: Option<ID>) -> Option<Seq<char>> {
    match o {
        Some(i) => Some(i@),
        None => None,
    }
}

impl Clone for ID {
    fn clone(&self) -> (r: ID)
        ensures
            r == *self,
    {
        ID { id: self.id.clone() }
    }
}

impl ID {
    pub fn new(s: &str) -> (r: ID)
        ensures
            r@ == s@,
    {
        ID { id: s.to_owned() }
    }

    pub fn as_str(&self) -> (r: &str)
        ensures
            r@ == self@,
    {
        self.id.as_str()
    }
}

/// An id reads as its text.
impl core::ops::Deref for ID {
    type Target = str;

    fn deref(&self) -> (r: &str)
        ensures
            r@ == self@,
    {
        self.id.as_str()
    }
}

impl From<&str> for ID {
    fn from(s: &str) -> (r: ID)
        ensures
            r@ == s@,
    {
        ID::new(s)
    }
}

/// `from` is `ID::new`: its own `ensures` gives the result's view. Two strings with one view
/// are not known to be equal values, so `from_spec` promises no more than that.
impl vstd::std_specs::convert::FromSpecImpl<&str> for ID {
    open spec fn obeys_from_spec() -> bool {
        false
    }

    open spec fn from_spec(s: &str) -> ID {
        choose|i: ID| i@ == s@
    }
}

} // verus!
