//! Common types across the library.

use vstd::prelude::*;

verus! {

/// A generated entry: its distinguished name and its attributes in the order
/// they were generated, each with its one value.
pub type LdapEntry = (String, Vec<(String, String)>);

/// The mathematical value of an `LdapEntry`.
pub type EntryView = (Seq<char>, Seq<(Seq<char>, Seq<char>)>);

} // verus!
