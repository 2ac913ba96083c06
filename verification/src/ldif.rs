//! Generated entries as LDIF text: one block per entry, with the
//! distinguished name on the first line, one line `name: value` per attribute
//! and an empty line at the end. The values are written as they are.

use vstd::prelude::*;
use vstd::string::*;
use crate::types::LdapEntry;

verus! {

/// The lines `name: value` of `attributes`, in their order.
pub open spec fn attribute_lines(attributes: Seq<(Seq<char>, Seq<char>)>) -> Seq<char>
    decreases attributes.len(),
{
    if attributes.len() == 0 {
        Seq::empty()
    } else {
        attribute_lines(attributes.drop_last()) + attributes.last().0 + ": "@ + attributes.last().1
            + "\n"@
    }
}

/// The LDIF block of the entry `dn` with `attributes`.
pub open spec fn entry_text(dn: Seq<char>, attributes: Seq<(Seq<char>, Seq<char>)>) -> Seq<char> {
    "dn: "@ + dn + "\n"@ + attribute_lines(attributes) + "\n"@
}

/// Builds the LDIF block of `entry`.
pub fn build_entry_string(entry: LdapEntry) -> (text: String)
    ensures
        text@ == entry_text(entry.0@, entry.1.deep_view()),
{
    let (dn, attributes) = entry;
    let mut entry_string = String::new();
    entry_string.append("dn: ");
    entry_string.append(dn.as_str());
    entry_string.append("\n");
    let ghost head = entry_string@;
    let ghost all = attributes.deep_view();
    let mut i: usize = 0;
    while i < attributes.len()
        invariant
            0 <= i <= attributes.len(),
            all == attributes.deep_view(),
            head == "dn: "@ + dn@ + "\n"@,
            entry_string@ == head + attribute_lines(all.take(i as int)),
        decreases attributes.len() - i,
    {
        let ghost before = entry_string@;
        entry_string.append(attributes[i].0.as_str());
        entry_string.append(": ");
        entry_string.append(attributes[i].1.as_str());
        entry_string.append("\n");
        proof {
            let upto = all.take(i + 1);
            assert(upto.drop_last() =~= all.take(i as int));
            assert(upto.last() == (attributes[i as int].0@, attributes[i as int].1@));
            assert(entry_string@ =~= head + attribute_lines(upto));
        }
        i += 1;
    }
    proof {
        assert(all.take(attributes.len() as int) =~= all);
    }
    entry_string.append("\n");
    entry_string
}

} // verus!
