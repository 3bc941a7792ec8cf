//! Attribute values.
//!
//! A value carries the already rendered text of an attribute: the catalog of
//! typed builders that produces such text (numbers, tuples, path data) sits
//! outside this crate, which only needs the rendered form, equality, and a
//! character test used for quote selection.

use vstd::prelude::*;
use vstd::string::StrSliceExecFns;

verus! {

/// The rendered text of an attribute value.
#[derive(Debug)]
pub struct Value {
    text: String,
}

impl View for Value {
    type V = Seq<char>;

    closed spec fn view(&self) -> Seq<char> {
        self.text@
    }
}

impl Value {
    /// Wrap rendered text as a value.
    pub fn new(text: &str) -> (r: Value)
        ensures
            r@ == text@,
    {
        Value { text: text.to_owned() }
    }

    /// Wrap an owned string as a value.
    pub fn from_string(text: String) -> (r: Value)
        ensures
            r@ == text@,
    {
        Value { text }
    }

    /// The rendered text.
    pub fn as_str(&self) -> (r: &str)
        ensures
            r@ == self@,
    {
        self.text.as_str()
    }

    /// Whether the rendered text contains the given character.
    pub fn contains(&self, target: char) -> (r: bool)
        ensures
            r == self@.contains(target),
    {
        let n = self.text.as_str().unicode_len();
        let mut i: usize = 0;
        while i < n
            invariant
                i <= n,
                n == self@.len(),
                forall|k: int| 0 <= k < i ==> self@[k] != target,
            decreases n - i,
        {
            if self.text.as_str().get_char(i) == target {
                return true;
            }
            i = i + 1;
        }
        false
    }
}

impl Clone for Value {
    /// Copy the value.
    fn clone(&self) -> (r: Self)
        ensures
            r@ == self@,
    {
        Value { text: self.text.clone() }
    }
}

impl PartialEq for Value {
    fn eq(&self, other: &Value) -> (r: bool) {
        self.text == other.text
    }
}

impl vstd::std_specs::cmp::PartialEqSpecImpl for Value {
    open spec fn obeys_eq_spec() -> bool {
        true
    }

    open spec fn eq_spec(&self, other: &Value) -> bool {
        self@ == other@
    }
}

} // verus!
