//! Conversion of programming identifiers between naming conventions
//! (camelCase, snake_case, kebab-case).
//!
//! A convention decomposes an identifier into an ordered sequence of
//! word-components and re-joins components into an identifier.  The crate
//! offers the three concrete conventions, a runtime-tagged [`dynamic::CaseType`]
//! with a convention-guessing heuristic, and a disambiguating parser for
//! identifiers whose components were produced under several conventions at
//! once.

pub mod case;
pub mod dynamic;
pub mod laws;
pub mod model;
pub mod text;

use vstd::prelude::*;

verus! {

/// A convention's parsing half: it decomposes an identifier into components.
pub trait DefiningCase {
    /// The components this convention finds in the text, in order.
    spec fn components_spec(&self, s: Seq<char>) -> Seq<Seq<char>>;

    /// Decompose `src` into its components, left to right.
    fn components(&self, src: &str) -> (r: Vec<String>)
        ensures
            r.deep_view() == self.components_spec(src@),
    ;
}

/// A convention's building half: it joins components into an identifier.
pub trait Case {
    /// The identifier this convention builds from the given components.
    spec fn built_spec(&self, cs: Seq<Seq<char>>) -> Seq<char>;

    /// Join the components into one identifier under this convention.
    fn build_identifier(&self, components: &Vec<String>) -> (r: String)
        ensures
            r@ == self.built_spec(components.deep_view()),
    ;
}

/// Decompose `src` under `src_case` and re-join the components under
/// `dst_case`.
pub fn convert<A: DefiningCase, B: Case>(src: &str, src_case: A, dst_case: B) -> (r: String)
    ensures
        r@ == dst_case.built_spec(src_case.components_spec(src@)),
{
    let components = src_case.components(src);
    dst_case.build_identifier(&components)
}

} // verus!
