//! Generated entries as rows of a table, one table for each object class.
//!
//! When an object class is first seen, the names of the entry's attributes
//! become the header of its table, and their order is retained for every
//! later entry of the class.

use vstd::prelude::*;
use vstd::string::*;
use crate::table::Table;
use crate::text::texts;

verus! {

/// After how many seconds the tables are flushed again.
pub const FLUSH_INTERVAL_SECS: u64 = 5;

/// The names of `attributes`, in their order.
pub open spec fn names(attributes: Seq<(Seq<char>, Seq<char>)>) -> Seq<Seq<char>> {
    Seq::new(attributes.len(), |i: int| attributes[i].0)
}

/// The value of the first attribute from `from` on that is called `name`.
pub open spec fn value_from(attributes: Seq<(Seq<char>, Seq<char>)>, name: Seq<char>, from: int) -> Option<
    Seq<char>,
>
    decreases attributes.len() - from,
{
    if from < 0 || from >= attributes.len() {
        None
    } else if attributes[from].0 == name {
        Some(attributes[from].1)
    } else {
        value_from(attributes, name, from + 1)
    }
}

/// The row of `attributes` in a table with the header `order`: the value of
/// each column's attribute. `None` if an attribute of the header is missing.
pub open spec fn record_of(order: Seq<Seq<char>>, attributes: Seq<(Seq<char>, Seq<char>)>) -> Option<
    Seq<Seq<char>>,
> {
    if forall|i: int| 0 <= i < order.len() ==> value_from(attributes, #[trigger] order[i], 0) is Some {
        Some(Seq::new(order.len(), |i: int| value_from(attributes, order[i], 0)->0))
    } else {
        None
    }
}

/// Whether the tables are due to be flushed, `elapsed_secs` whole seconds
/// after they last were.
pub fn flush_due(elapsed_secs: u64) -> (due: bool)
    ensures
        due == (elapsed_secs >= FLUSH_INTERVAL_SECS),
{
    elapsed_secs >= FLUSH_INTERVAL_SECS
}

/// Retains the order of `new_attributes` as the header of `new_class`.
pub fn handle_new_object_class(
    class_map: &mut Table,
    new_class: &str,
    new_attributes: &Vec<(String, String)>,
)
    ensures
        final(class_map)@ == old(class_map)@.insert(new_class@, names(new_attributes.deep_view())),
{
    let mut order: Vec<String> = Vec::new();
    let mut i: usize = 0;
    while i < new_attributes.len()
        invariant
            0 <= i <= new_attributes.len(),
            order.deep_view() == names(new_attributes.deep_view()).take(i as int),
        decreases new_attributes.len() - i,
    {
        let ghost before = order.deep_view();
        order.push(new_attributes[i].0.clone());
        proof {
            assert(order.deep_view() =~= before.push(new_attributes[i as int].0@));
            assert(order.deep_view() =~= names(new_attributes.deep_view()).take(i + 1));
        }
        i += 1;
    }
    proof {
        assert(order.deep_view() =~= names(new_attributes.deep_view()));
    }
    class_map.insert(new_class.to_owned(), order);
}

/// The value of the attribute called `name`.
fn find_value<'a>(attributes: &'a Vec<(String, String)>, name: &String) -> (value: Option<&'a str>)
    ensures
        match value {
            Some(v) => value_from(attributes.deep_view(), name@, 0) == Some(v@),
            None => value_from(attributes.deep_view(), name@, 0) is None,
        },
{
    let ghost all = attributes.deep_view();
    let mut i: usize = 0;
    while i < attributes.len()
        invariant
            0 <= i <= attributes.len(),
            all == attributes.deep_view(),
            value_from(all, name@, 0) == value_from(all, name@, i as int),
        decreases attributes.len() - i,
    {
        assert(all[i as int] == (attributes[i as int].0@, attributes[i as int].1@));
        if attributes[i].0 == *name {
            return Some(attributes[i].1.as_str());
        }
        i += 1;
    }
    None
}

/// Puts the values of `attributes` in the order of the header `order`.
pub fn build_record<'a>(order: &Vec<String>, attributes: &'a Vec<(String, String)>) -> (record: Option<
    Vec<&'a str>,
>)
    ensures
        match record {
            Some(row) => record_of(order.deep_view(), attributes.deep_view()) == Some(texts(row@)),
            None => record_of(order.deep_view(), attributes.deep_view()) is None,
        },
{
    let ghost columns = order.deep_view();
    let ghost all = attributes.deep_view();
    let mut record: Vec<&str> = Vec::new();
    let mut i: usize = 0;
    while i < order.len()
        invariant
            0 <= i <= order.len(),
            columns == order.deep_view(),
            all == attributes.deep_view(),
            record.len() == i,
            forall|k: int| 0 <= k < i ==> value_from(all, #[trigger] columns[k], 0) == Some(record[k]@),
        decreases order.len() - i,
    {
        assert(columns[i as int] == order[i as int]@);
        match find_value(attributes, &order[i]) {
            Some(value) => {
                record.push(value);
            },
            None => {
                return None;
            },
        }
        i += 1;
    }
    proof {
        assert(texts(record@) =~= record_of(columns, all)->0);
    }
    Some(record)
}

} // verus!
