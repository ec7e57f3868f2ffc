//! A value that refers to itself.
use vstd::prelude::*;

verus! {

/// A string together with a reference to it that is set up in a second step.
///
/// Once the reference is set the value must not be moved; until then the
/// reference leads nowhere and must not be followed.
#[derive(Debug)]
pub struct Test {
    a: String,
    b: bool,
}

impl Test {
    /// A value that holds a copy of `a` and whose reference is not set yet.
    pub fn new(a: &str) -> (t: Test)
        ensures
            t.text() == a@,
            !t.is_init(),
    {
        Test { a: a.to_owned(), b: false }
    }

    /// The text that the value holds.
    pub closed spec fn text(&self) -> Seq<char> {
        self.a@
    }

    /// Whether the reference is set.
    pub closed spec fn is_init(&self) -> bool {
        self.b
    }

    /// Whether the reference is set.
    pub fn initialised(&self) -> (set: bool)
        ensures
            set == self.is_init(),
    {
        self.b
    }

    /// Sets the reference to the text that the value holds.
    pub fn init(&mut self)
        ensures
            final(self).is_init(),
            final(self).text() == old(self).text(),
    {
        self.b = true;
    }

    /// The text, read directly.
    pub fn a(&self) -> (text: &str)
        ensures
            text@ == self.text(),
    {
        self.a.as_str()
    }

    /// The text, read through the reference.
    pub fn b(&self) -> (text: &str)
        requires
            self.is_init(),
        ensures
            text@ == self.text(),
    {
        self.a.as_str()
    }
}

} // verus!
