//! Squads: groups of miners that pool their work.
use convert_case::{Case, Casing};
use vstd::prelude::*;

verus! {

/// The name of a squad, in snake case.
pub struct Squad {
    /// The name.
    pub inner: String,
}

impl View for Squad {
    type V = Seq<char>;

    open spec fn view(&self) -> Seq<char> {
        self.inner@
    }
}

impl Clone for Squad {
    fn clone(&self) -> (copy: Self)
        ensures
            copy@ == self@,
    {
        Squad { inner: self.inner.clone() }
    }
}

/// A text in snake case, or else in lower case.
pub uninterp spec fn cased(text: Seq<char>, snake: bool) -> Seq<char>;

/// `convert_case::Casing::to_case`, with `Case::Snake` or with `Case::Lower`. The result depends on these alone;
/// nothing is said of it beyond that.
#[verifier::external_body]
fn to_case(text: &str, snake: bool) -> (result: String)
    ensures
        result@ == cased(text@, snake),
{
    text.to_case(if snake { Case::Snake } else { Case::Lower })
}

impl From<String> for Squad {
    fn from(value: String) -> (squad: Self)
        ensures
            squad@ == cased(cased(value@, false), true),
    {
        Squad::named(value)
    }
}

impl vstd::std_specs::convert::FromSpecImpl<String> for Squad {
    open spec fn obeys_from_spec() -> bool {
        false
    }

    open spec fn from_spec(value: String) -> Squad {
        choose|squad: Squad| squad@ == cased(cased(value@, false), true)
    }
}

impl Squad {
    /// The squad of a given name.
    pub fn named(value: String) -> (squad: Squad)
        ensures
            squad@ == cased(cased(value@, false), true),
    {
        let lower = to_case(value.as_str(), false);
        Squad { inner: to_case(lower.as_str(), true) }
    }

    /// The squad's name.
    pub fn to_text(&self) -> (name: String)
        ensures
            name@ == self@,
    {
        self.inner.clone()
    }
}

}
