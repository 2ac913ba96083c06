//! The modifiers that compute a text from the texts of their arguments.

use vstd::prelude::*;
use vstd::string::*;
use super::Modifier;
use crate::text::{lowercase_of, to_lowercase, to_uppercase, uppercase_of};

verus! {

/// The texts of `parts` one after the other, with nothing between them.
pub open spec fn joined(parts: Seq<Seq<char>>) -> Seq<char>
    decreases parts.len(),
{
    if parts.len() == 0 {
        Seq::empty()
    } else {
        joined(parts.drop_last()) + parts.last()
    }
}

/// Joins the texts of `parts`.
pub fn join(parts: &Vec<String>) -> (text: String)
    ensures
        text@ == joined(parts.deep_view()),
{
    let ghost all = parts.deep_view();
    let mut text = String::new();
    let mut i: usize = 0;
    while i < parts.len()
        invariant
            0 <= i <= parts.len(),
            all == parts.deep_view(),
            text@ == joined(all.take(i as int)),
        decreases parts.len() - i,
    {
        proof {
            assert(all.take(i + 1).drop_last() =~= all.take(i as int));
            assert(all.take(i + 1).last() == parts[i as int]@);
        }
        text.append(parts[i].as_str());
        i += 1;
    }
    proof {
        assert(all.take(parts.len() as int) =~= all);
    }
    text
}

/// Simple modifier that returns a fixed string everytime it is applied
#[derive(Debug)]
pub struct StringModifier {
    string: String,
}

/// Converts the provided string(s) to uppercase representation.
#[derive(Debug)]
pub struct UppercaseModifier;

/// Converts the provided string(s) to lowercase representation
#[derive(Debug)]
pub struct LowercaseModifier;

/// Combines the provided arguments into a single string
#[derive(Debug)]
pub struct CombineModifier;

/// Reads the provided file into memory and returns a random **line** when
/// the modifier is applied. Lines might be reused.
#[derive(Debug)]
pub struct FileModifier {}

impl Modifier for UppercaseModifier {
    open spec fn applied(args: Seq<Seq<char>>) -> Seq<char> {
        uppercase_of(joined(args))
    }

    fn apply(args: Vec<String>) -> (value: String) {
        to_uppercase(join(&args).as_str())
    }
}

impl Modifier for LowercaseModifier {
    open spec fn applied(args: Seq<Seq<char>>) -> Seq<char> {
        lowercase_of(joined(args))
    }

    fn apply(args: Vec<String>) -> (value: String) {
        to_lowercase(join(&args).as_str())
    }
}

impl Modifier for CombineModifier {
    open spec fn applied(args: Seq<Seq<char>>) -> Seq<char> {
        joined(args)
    }

    fn apply(args: Vec<String>) -> (value: String) {
        join(&args)
    }
}

} // verus!
