//! A string that never prints itself.

use vstd::prelude::*;
use vstd::string::*;

verus! {

/// A string that never prints itself.
///
/// The upstream API key flows through config, state and error paths; wrapping it
/// means an accidental log line or a panic message cannot leak it. The inner
/// value is only reachable through [`Secret::expose`], which is easy to search for.
pub struct Secret(String);

impl View for Secret {
    type V = Seq<char>;

    closed spec fn view(&self) -> Seq<char> {
        self.0@
    }
}

impl Secret {
    pub fn new(value: &str) -> (r: Self)
        ensures
            r@ == value@,
    {
        Secret(value.to_owned())
    }

    /// Yields the wrapped secret. Call sites are deliberately conspicuous.
    pub fn expose(&self) -> (r: &str)
        ensures
            r@ == self@,
    {
        self.0.as_str()
    }

    pub fn is_empty(&self) -> (r: bool)
        ensures
            r == (self@.len() == 0),
    {
        self.0.as_str().is_empty()
    }

    /// How a debug dump shows a secret: the same text for every one of them.
    pub fn to_debug_string(&self) -> (r: String)
        ensures
            r@ == "Secret(***)"@,
    {
        "Secret(***)".to_owned()
    }

    /// How a message shows a secret: the same text for every one of them.
    pub fn to_display_string(&self) -> (r: String)
        ensures
            r@ == "***"@,
    {
        "***".to_owned()
    }
}

impl Clone for Secret {
    fn clone(&self) -> (r: Self)
        ensures
            r@ == self@,
    {
        Secret(self.0.clone())
    }
}

impl PartialEq for Secret {
    fn eq(&self, other: &Self) -> (r: bool) {
        self.0 == other.0
    }
}

impl vstd::std_specs::cmp::PartialEqSpecImpl for Secret {
    open spec fn obeys_eq_spec() -> bool {
        true
    }

    open spec fn eq_spec(&self, other: &Self) -> bool {
        self@ == other@
    }
}

impl Eq for Secret {

}

} // verus!
