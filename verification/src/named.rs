//! Lists of named values, kept in the order in which the names came.

use crate::text::same_text;
use vstd::prelude::*;

verus! {

/// The first index at or after `from` at which `name` stands in `names`, or
/// the length of `names` where it does not occur.
pub open spec fn position(names: Seq<Seq<char>>, name: Seq<char>, from: int) -> int
    decreases names.len() - from,
{
    if 0 <= from < names.len() && names[from] != name {
        position(names, name, from + 1)
    } else {
        from
    }
}

/// Whether no name occurs twice.
pub open spec fn distinct(names: Seq<Seq<char>>) -> bool {
    forall|i: int, j: int| 0 <= i < j < names.len() ==> names[i] != names[j]
}

/// `position` stays within the list, stops on `name` and passes over
/// nothing that is `name`.
pub proof fn lemma_position(names: Seq<Seq<char>>, name: Seq<char>, from: int)
    requires
        0 <= from <= names.len(),
    ensures
        from <= position(names, name, from) <= names.len(),
        position(names, name, from) < names.len() ==> names[position(names, name, from)] == name,
        forall|k: int| from <= k < position(names, name, from) ==> names[k] != name,
    decreases names.len() - from,
{
    if from < names.len() && names[from] != name {
        lemma_position(names, name, from + 1);
    }
}

/// The index that ends a run of other names is what `position` finds.
pub proof fn lemma_position_is(names: Seq<Seq<char>>, name: Seq<char>, from: int, at: int)
    requires
        0 <= from <= at <= names.len(),
        forall|k: int| from <= k < at ==> names[k] != name,
        at == names.len() || names[at] == name,
    ensures
        position(names, name, from) == at,
    decreases at - from,
{
    if from < at {
        lemma_position_is(names, name, from + 1, at);
    }
}

/// The names of a list of named values.
pub open spec fn names_of<V>(entries: Seq<(String, V)>) -> Seq<Seq<char>> {
    Seq::new(entries.len(), |i: int| entries[i].0@)
}

/// Finds the first entry called `name`.
pub fn find_name<V>(entries: &Vec<(String, V)>, name: &str) -> (r: usize)
    ensures
        r == position(names_of(entries@), name@, 0),
        r <= entries.len(),
        r < entries.len() ==> entries@[r as int].0@ == name@,
{
    let mut i: usize = 0;
    while i < entries.len()
        invariant
            i <= entries.len(),
            position(names_of(entries@), name@, 0) == position(names_of(entries@), name@, i as int),
        decreases entries.len() - i,
    {
        if same_text(entries[i].0.as_str(), name) {
            return i;
        }
        i += 1;
    }
    i
}

} // verus!
