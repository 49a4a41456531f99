//! `Inherit`: a binding pulled into a scope's preamble from an external
//! source, rendered as one `inherit (<path>) <name>;` line.

use vstd::prelude::*;

verus! {

/// A named binding sourced from an external dependency set.
///
/// Within one scope preamble the `name` acts as the rendering key: two
/// bindings are the same binding exactly when both `path` and `name`
/// agree, and two different bindings may not share a `name`.
pub struct Inherit {
    /// The source the binding is taken from, e.g. `inputs`.
    pub path: String,
    /// The local name the binding introduces.
    pub name: String,
}

/// The mathematical value of an [`Inherit`]: both fields as character
/// sequences.
pub struct InheritView {
    pub path: Seq<char>,
    pub name: Seq<char>,
}

impl View for Inherit {
    type V = InheritView;

    open spec fn view(&self) -> InheritView {
        InheritView { path: self.path@, name: self.name@ }
    }
}

impl Clone for Inherit {
    fn clone(&self) -> (r: Self)
        ensures
            r@ == self@,
    {
        Inherit { path: self.path.clone(), name: self.name.clone() }
    }
}

/// The preamble line a binding renders to.
pub open spec fn inherit_line(v: InheritView) -> Seq<char> {
    "inherit ("@ + v.path + ") "@ + v.name + ";"@
}

impl Inherit {
    /// The preamble line this binding renders to:
    /// `inherit (<path>) <name>;`.
    pub fn render_line(&self) -> (r: String)
        ensures
            r@ == inherit_line(self@),
    {
        let mut r = String::from_str("inherit (");
        r.append(self.path.as_str());
        r.append(") ");
        r.append(self.name.as_str());
        r.append(";");
        r
    }

    /// A binding of `name` taken from the source `path`.
    pub fn new(path: &str, name: &str) -> (r: Self)
        ensures
            r@ == (InheritView { path: path@, name: name@ }),
    {
        Inherit { path: String::from_str(path), name: String::from_str(name) }
    }

    /// The conventional `nixpkgs` binding from `inputs`.
    pub fn nixpkgs() -> (r: Self)
        ensures
            r@ == (InheritView { path: "inputs"@, name: "nixpkgs"@ }),
    {
        Inherit { path: String::from_str("inputs"), name: String::from_str("nixpkgs") }
    }

    /// The conventional `home-manager` binding from `inputs`.
    pub fn home_manager() -> (r: Self)
        ensures
            r@ == (InheritView { path: "inputs"@, name: "home-manager"@ }),
    {
        Inherit { path: String::from_str("inputs"), name: String::from_str("home-manager") }
    }

    /// The conventional `disko` binding from `inputs`.
    pub fn disko() -> (r: Self)
        ensures
            r@ == (InheritView { path: "inputs"@, name: "disko"@ }),
    {
        Inherit { path: String::from_str("inputs"), name: String::from_str("disko") }
    }

    /// Whether `self` and `other` are the same binding: both the source
    /// and the local name agree.
    pub fn same_binding(&self, other: &Inherit) -> (r: bool)
        ensures
            r == (self@ == other@),
    {
        self.path == other.path && self.name == other.name
    }
}

} // verus!
