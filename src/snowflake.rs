//! Positive numeric identifiers of the chat platform.

use vstd::prelude::*;

use crate::digits::{chars_of, decimal, parse_u64, parse_u64_spec, push_decimal};

verus! {

/// A platform identifier: a strictly positive 64-bit integer.
#[derive(Clone, Copy, Debug, PartialEq, Eq, Hash, Structural)]
pub struct Snowflake {
    value: u64,
}

impl View for Snowflake {
    type V = u64;

    closed spec fn view(&self) -> u64 {
        self.value
    }
}

impl Snowflake {
    #[verifier::type_invariant]
    spec fn positive(self) -> bool {
        self.value > 0
    }

    /// Builds the identifier `value`, which must be positive.
    pub fn new(value: u64) -> (r: Option<Snowflake>)
        ensures
            r is Some <==> value > 0,
            r matches Some(s) ==> s@ == value,
    {
        if value > 0 {
            Some(Snowflake { value })
        } else {
            None
        }
    }

    /// The identifier's number.
    pub fn get(&self) -> (r: u64)
        ensures
            r == self@,
            r > 0,
    {
        proof {
            use_type_invariant(self);
        }
        self.value
    }

    /// Reads an identifier from decimal text, as `u64` parsing does, refusing
    /// zero.
    pub fn parse(s: &str) -> (r: Option<Snowflake>)
        ensures
            r is Some <==> (parse_u64_spec(s@) matches Some(v) && v > 0),
            r matches Some(id) ==> parse_u64_spec(s@) == Some(id@),
    {
        Snowflake::parse_chars(&chars_of(s))
    }

    /// Reads an identifier from the characters of a decimal text.
    pub fn parse_chars(s: &Vec<char>) -> (r: Option<Snowflake>)
        ensures
            r is Some <==> (parse_u64_spec(s@) matches Some(v) && v > 0),
            r matches Some(id) ==> parse_u64_spec(s@) == Some(id@),
    {
        match parse_u64(s) {
            Some(v) => Snowflake::new(v),
            None => None,
        }
    }

    /// Appends the decimal text of the identifier to `s`.
    pub fn push_to(&self, s: &mut String)
        ensures
            final(s)@ == old(s)@ + decimal(self@ as nat),
    {
        push_decimal(s, self.get());
    }
}

/// Reads every identifier of a list, as the remote API lists message
/// identifiers; `None` when any of them is not a positive integer.
pub fn parse_all(texts: &Vec<String>) -> (r: Option<Vec<Snowflake>>)
    ensures
        r is Some <==> forall|i: int|
            0 <= i < texts@.len() ==> (parse_u64_spec(#[trigger] texts@[i]@) matches Some(v) && v
                > 0),
        r matches Some(ids) ==> ids@.len() == texts@.len() && forall|i: int|
            0 <= i < ids@.len() ==> parse_u64_spec(texts@[i]@) == Some(#[trigger] ids@[i]@),
{
    let mut ids: Vec<Snowflake> = Vec::new();
    let mut i: usize = 0;
    while i < texts.len()
        invariant
            i <= texts@.len(),
            ids@.len() == i,
            forall|j: int|
                0 <= j < i ==> (parse_u64_spec(#[trigger] texts@[j]@) matches Some(v) && v > 0),
            forall|j: int| 0 <= j < i ==> parse_u64_spec(texts@[j]@) == Some(#[trigger] ids@[j]@),
        decreases texts@.len() - i,
    {
        match Snowflake::parse(texts[i].as_str()) {
            Some(id) => {
                ids.push(id);
            },
            None => {
                return None;
            },
        }
        i = i + 1;
    }
    Some(ids)
}

} // verus!
