use vstd::prelude::*;

verus! {

/// The set of selectors: each selector text is kept once, for the whole process.
pub struct SelectorSet {}

/// The interned copy of `name`; a wrapper of `ustr::ustr` and `Ustr::as_str`, which the ustr
/// documentation describes as answering a cached string with the same text (the same cached
/// string for equal texts, which this contract does not state).
#[verifier::external_body]
fn intern(name: &str) -> (r: &'static str)
    ensures
        r@ == name@,
{
    ustr::ustr(name).as_str()
}

impl SelectorSet {
    /// The selector with the text `name`.
    pub fn get(name: &str) -> (r: &'static str)
        ensures
            r@ == name@,
    {
        intern(name)
    }
}

} // verus!
