//! Bus names: the unique name of a connection, or a well-known name that
//! connections claim and release.

use vstd::prelude::*;

verus! {

/// A name on the bus.
///
/// The variant is part of the name: a unique name and a well-known name with
/// the same text are different names.
#[derive(Debug, PartialEq, Eq, Hash)]
pub enum BusName {
    /// The name the bus gave to one connection, such as `:1.42`.
    Unique(String),
    /// A name that a connection may own for a while, such as `org.example.Foo`.
    WellKnown(String),
}

impl View for BusName {
    type V = (bool, Seq<char>);

    /// Whether the name is unique, and its text.
    open spec fn view(&self) -> (bool, Seq<char>) {
        match self {
            BusName::Unique(text) => (true, text@),
            BusName::WellKnown(text) => (false, text@),
        }
    }
}

impl Clone for BusName {
    fn clone(&self) -> (r: Self)
        ensures
            r@ == self@,
    {
        match self {
            BusName::Unique(text) => BusName::Unique(text.clone()),
            BusName::WellKnown(text) => BusName::WellKnown(text.clone()),
        }
    }
}

impl BusName {
    /// The unique name with the given text.
    pub fn unique(text: &str) -> (r: Self)
        ensures
            r@ == (true, text@),
    {
        BusName::Unique(text.to_owned())
    }

    /// The well-known name with the given text.
    pub fn well_known(text: &str) -> (r: Self)
        ensures
            r@ == (false, text@),
    {
        BusName::WellKnown(text.to_owned())
    }

    pub fn is_unique(&self) -> (r: bool)
        ensures
            r == self@.0,
    {
        match self {
            BusName::Unique(_) => true,
            BusName::WellKnown(_) => false,
        }
    }

    /// The text of the name.
    pub fn as_str(&self) -> (r: &str)
        ensures
            r@ == self@.1,
    {
        match self {
            BusName::Unique(text) => text.as_str(),
            BusName::WellKnown(text) => text.as_str(),
        }
    }

    /// Whether both are the same name: the same variant with the same text.
    pub fn same_as(&self, other: &BusName) -> (r: bool)
        ensures
            r == (self@ == other@),
    {
        match (self, other) {
            (BusName::Unique(a), BusName::Unique(b)) => *a == *b,
            (BusName::WellKnown(a), BusName::WellKnown(b)) => *a == *b,
            _ => false,
        }
    }

    /// Whether this is the unique name with the given text.
    pub fn is_unique_named(&self, text: &String) -> (r: bool)
        ensures
            r == (self@ == (true, text@)),
    {
        match self {
            BusName::Unique(own) => *own == *text,
            BusName::WellKnown(_) => false,
        }
    }

    /// The name as a pair of its variant and an owned copy of its text.
    pub fn to_key(&self) -> (r: (bool, String))
        ensures
            r.0 == self@.0,
            r.1@ == self@.1,
    {
        match self {
            BusName::Unique(text) => (true, text.clone()),
            BusName::WellKnown(text) => (false, text.clone()),
        }
    }
}

/// Whether the names hold `name`.
pub open spec fn holds_name(names: Seq<BusName>, name: (bool, Seq<char>)) -> bool {
    exists|i: int| 0 <= i < names.len() && (#[trigger] names[i])@ == name
}

/// The names as a set.
pub open spec fn name_set(names: Seq<BusName>) -> Set<(bool, Seq<char>)> {
    Set::new(|name: (bool, Seq<char>)| holds_name(names, name))
}

/// No name is there twice.
pub open spec fn names_once(names: Seq<BusName>) -> bool {
    forall|i: int, j: int|
        0 <= i < j < names.len() ==> (#[trigger] names[i])@ != (#[trigger] names[j])@
}

/// Whether the names hold `name`.
pub fn contains_name(names: &Vec<BusName>, name: &BusName) -> (found: bool)
    ensures
        found == holds_name(names@, name@),
{
    let mut i: usize = 0;
    while i < names.len()
        invariant
            i <= names.len(),
            forall|k: int| 0 <= k < i ==> (#[trigger] names[k])@ != name@,
        decreases names.len() - i,
    {
        if names[i].same_as(name) {
            return true;
        }
        i += 1;
    }
    false
}

} // verus!
