//! Node identifiers: the part of a dot identifier that the algorithm compares.

use vstd::prelude::*;

verus! {

/// The syntactic flavour of a dot identifier. Two identifiers are the same
/// node only when both the flavour and the text agree.
#[derive(Clone, Copy, PartialEq, Eq, Structural)]
pub enum IdKind {
    Plain,
    Html,
    Escaped,
    Anonymous,
}

/// Mathematical value of an identifier: its flavour and its characters.
#[verifier::ext_equal]
pub ghost struct IdV {
    pub kind: IdKind,
    pub text: Seq<char>,
}

/// An identifier as the algorithm holds it: flavour plus owned text.
pub struct Ident {
    pub kind: IdKind,
    pub text: String,
}

impl View for Ident {
    type V = IdV;

    open spec fn view(&self) -> IdV {
        IdV { kind: self.kind, text: self.text@ }
    }
}

impl Clone for Ident {
    fn clone(&self) -> (r: Self)
        ensures
            r@ == self@,
    {
        Ident { kind: self.kind, text: self.text.clone() }
    }
}

/// Equality of identifiers, decided on the flavour and the text.
pub fn ident_eq(a: &Ident, b: &Ident) -> (r: bool)
    ensures
        r == (a@ == b@),
{
    let same = a.kind == b.kind && a.text == b.text;
    proof {
        if same {
            assert(a@ =~= b@);
        }
    }
    same
}

} // verus!
