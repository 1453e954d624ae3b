use vstd::prelude::*;

verus! {

/// A name in a program: a variable, a parameter, a function or a native.
#[derive(Debug)]
pub struct Ident {
    pub name: String,
}

impl View for Ident {
    type V = Seq<char>;

    open spec fn view(&self) -> Seq<char> {
        self.name@
    }
}

impl Ident {
    pub fn new(s: &str) -> (r: Ident)
        ensures
            r@ == s@,
    {
        Ident { name: String::from_str(s) }
    }

    /// Compares two identifiers by their text.
    pub fn same(&self, other: &Ident) -> (r: bool)
        ensures
            r == (self@ == other@),
    {
        self.name == other.name
    }

    pub fn duplicate(&self) -> (r: Ident)
        ensures
            r == *self,
    {
        Ident { name: self.name.clone() }
    }

    pub fn as_str(&self) -> (r: &str)
        ensures
            r@ == self@,
    {
        self.name.as_str()
    }
}

/// The identifier `prefix` followed by the text of `id`.
pub fn prefix_ident(id: &Ident, prefix: &str) -> (r: Ident)
    ensures
        r@ == prefix@ + id@,
{
    Ident { name: String::from_str(prefix).concat(id.name.as_str()) }
}

} // verus!
