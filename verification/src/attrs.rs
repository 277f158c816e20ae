//! Free-form string attributes attached to a response, held as
//! association pairs.

use vstd::prelude::*;

verus! {

/// A set of named string attributes.
#[derive(Debug, Clone)]
pub struct Attrs {
    pub attrs: Vec<(String, String)>,
}

impl Attrs {
    /// Wraps the given name/value pairs.
    pub fn new(attrs: Vec<(String, String)>) -> (r: Attrs)
        ensures
            r.attrs@ == attrs@,
    {
        Attrs { attrs }
    }

    /// A single name/value pair.
    pub fn singleton(name: String, value: String) -> (r: Attrs)
        ensures
            r.attrs@.len() == 1,
            r.attrs@[0].0@ == name@,
            r.attrs@[0].1@ == value@,
    {
        let mut attrs: Vec<(String, String)> = Vec::new();
        attrs.push((name, value));
        Attrs::new(attrs)
    }
}

} // verus!
