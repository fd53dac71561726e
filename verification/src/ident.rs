//! Names of variables, functions and parameters.

use vstd::prelude::*;

verus! {

/// A name. Its view is the text of the name.
#[derive(Debug, PartialEq, Eq, Hash)]
pub struct Ident(pub String);

impl View for Ident {
    type V = Seq<char>;

    open spec fn view(&self) -> Seq<char> {
        self.0@
    }
}

impl Clone for Ident {
    fn clone(&self) -> (r: Self)
        ensures
            r@ == self@,
    {
        Ident(self.0.clone())
    }
}

impl Ident {
    /// The name with the text `ident`.
    pub fn new(ident: &str) -> (r: Ident)
        ensures
            r@ == ident@,
    {
        Ident(ident.to_owned())
    }

    /// The text of the name.
    pub fn value(&self) -> (r: String)
        ensures
            r@ == self@,
    {
        self.0.clone()
    }
}

/// The texts of a sequence of names, in order.
pub open spec fn names_view(names: Seq<Ident>) -> Seq<Seq<char>> {
    Seq::new(names.len(), |i: int| names[i]@)
}

/// A copy of `names`.
pub fn clone_names(names: &Vec<Ident>) -> (r: Vec<Ident>)
    ensures
        names_view(r@) == names_view(names@),
{
    let mut copy: Vec<Ident> = Vec::new();
    let mut i: usize = 0;
    while i < names.len()
        invariant
            i <= names.len(),
            copy.len() == i,
            forall|k: int| 0 <= k < i ==> copy@[k]@ == names@[k]@,
        decreases names.len() - i,
    {
        copy.push(names[i].clone());
        i = i + 1;
    }
    assert(names_view(copy@) =~= names_view(names@));
    copy
}

} // verus!
