//! The record a completed prompt sequence captures.

use crate::parse::is_u32_numeral;
use crate::parse::parse_age;
use crate::parse::trim;
use crate::parse::trimmed;
use crate::parse::u32_numeral_value;
use vstd::prelude::*;

verus! {

/// One captured person: the name as it was read, line terminator included,
/// and the age parsed from its field's text.
pub struct Person {
    pub name: String,
    pub age: u32,
}

impl Person {
    /// Builds the record from the raw input lines. The name is stored
    /// unchanged, terminator and all; consumers that want it bare trim it
    /// themselves. The age line must trim to an unsigned numeral fitting a
    /// `u32`, else no record is built.
    pub fn from_input(name: String, age_text: &str) -> (r: Option<Person>)
        ensures
            r is Some <==> is_u32_numeral(trimmed(age_text@)),
            r matches Some(p) ==> p.name@ == name@ && p.age as nat == u32_numeral_value(
                trimmed(age_text@),
            ),
    {
        match parse_age(age_text) {
            Some(age) => Some(Person { name, age }),
            None => None,
        }
    }

    /// The name as a consumer should display it: with the line terminator
    /// and any other surrounding whitespace stripped.
    pub fn trimmed_name(&self) -> (r: &str)
        ensures
            r@ == trimmed(self.name@),
    {
        trim(self.name.as_str())
    }
}

} // verus!
