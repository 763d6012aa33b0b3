//! Environment variables as values.

use vstd::prelude::*;

use crate::text;
use crate::text::{opt_text};

verus! {

/// A set of environment variables.
#[derive(Debug, Clone, Default)]
pub struct Vars {
    pub pairs: Vec<(String, String)>,
}

/// The value of the first pair with this key, from index `from` on.
pub open spec fn lookup(pairs: Seq<(String, String)>, key: Seq<char>, from: int) -> Option<Seq<char>>
    decreases pairs.len() - from,
{
    if from < 0 || from >= pairs.len() {
        None
    } else if pairs[from].0@ == key {
        Some(pairs[from].1@)
    } else {
        lookup(pairs, key, from + 1)
    }
}

/// The value, unless it is empty: an empty value counts as unset.
pub open spec fn set_value(value: Option<Seq<char>>) -> Option<Seq<char>> {
    match value {
        Some(v) if v.len() > 0 => Some(v),
        _ => None,
    }
}

/// The first value where there is one, else the second.
pub open spec fn or_else(first: Option<Seq<char>>, second: Option<Seq<char>>) -> Option<Seq<char>> {
    match first {
        Some(v) => Some(v),
        None => second,
    }
}

/// The value where there is one, else the default.
pub open spec fn or_default(value: Option<Seq<char>>, default: Seq<char>) -> Seq<char> {
    match value {
        Some(v) => v,
        None => default,
    }
}

impl Vars {
    /// The value of a variable.
    pub open spec fn var(&self, key: Seq<char>) -> Option<Seq<char>> {
        lookup(self.pairs@, key, 0)
    }

    /// The value of a variable that is not empty.
    pub open spec fn set_var(&self, key: Seq<char>) -> Option<Seq<char>> {
        set_value(self.var(key))
    }

    /// No variable at all.
    pub fn none() -> (vars: Vars)
        ensures
            forall|key: Seq<char>| #[trigger] vars.var(key) is None,
    {
        Vars { pairs: Vec::new() }
    }

    /// The value of a variable.
    pub fn get(&self, key: &str) -> (value: Option<String>)
        ensures
            opt_text(value) == self.var(key@),
    {
        let mut i: usize = 0;
        while i < self.pairs.len()
            invariant
                i <= self.pairs.len(),
                lookup(self.pairs@, key@, i as int) == self.var(key@),
            decreases self.pairs.len() - i,
        {
            if text::same(self.pairs[i].0.as_str(), key) {
                return Some(self.pairs[i].1.clone());
            }
            i = i + 1;
        }
        None
    }

    /// The value of a variable that is not empty.
    pub fn nonempty(&self, key: &str) -> (value: Option<String>)
        ensures
            opt_text(value) == self.set_var(key@),
    {
        nonempty(self.get(key))
    }
}

/// The value, unless it is empty.
pub fn nonempty(value: Option<String>) -> (set: Option<String>)
    ensures
        opt_text(set) == set_value(opt_text(value)),
{
    match value {
        Some(v) => if v.as_str().is_empty() {
            None
        } else {
            Some(v)
        },
        None => None,
    }
}

/// The first value where there is one, else the second.
pub fn either(first: Option<String>, second: Option<String>) -> (value: Option<String>)
    ensures
        opt_text(value) == or_else(opt_text(first), opt_text(second)),
{
    match first {
        Some(v) => Some(v),
        None => second,
    }
}

/// The value where there is one, else the default.
pub fn default_to(value: Option<String>, default: &str) -> (v: String)
    ensures
        v@ == or_default(opt_text(value), default@),
{
    match value {
        Some(v) => v,
        None => default.to_owned(),
    }
}

} // verus!
