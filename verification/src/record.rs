//! One decoded row of a table.

use vstd::hash_map::StringHashMap;
use vstd::prelude::*;

use crate::value::{FieldValue, FieldValueView};

verus! {

/// The values of one row, each under the name of its column.
pub struct Record {
    fields: StringHashMap<FieldValue>,
}

impl View for Record {
    type V = Map<Seq<char>, FieldValueView>;

    closed spec fn view(&self) -> Map<Seq<char>, FieldValueView> {
        self.fields@.map_values(|v: FieldValue| v@)
    }
}

impl Record {
    /// A record without fields.
    pub fn new() -> (r: Self)
        ensures
            r@ == Map::<Seq<char>, FieldValueView>::empty(),
    {
        let r = Record { fields: StringHashMap::new() };
        assert(r@ =~= Map::<Seq<char>, FieldValueView>::empty());
        r
    }

    /// Puts `value` under `name`, in place of what was there.
    pub fn insert(&mut self, name: String, value: FieldValue)
        ensures
            final(self)@ == old(self)@.insert(name@, value@),
    {
        self.fields.insert(name, value);
        assert(self@ =~= old(self)@.insert(name@, value@));
    }

    /// The value under `name`, if the record has that field.
    pub fn get(&self, name: &str) -> (r: Option<&FieldValue>)
        ensures
            match r {
                Some(v) => self@.contains_key(name@) && v@ == self@[name@],
                None => !self@.contains_key(name@),
            },
    {
        self.fields.get(name)
    }

    /// Whether the record has a field called `name`.
    pub fn contains_key(&self, name: &str) -> (r: bool)
        ensures
            r == self@.contains_key(name@),
    {
        self.fields.contains_key(name)
    }

    /// The number of fields.
    pub fn len(&self) -> (n: usize)
        ensures
            n == self@.len(),
    {
        broadcast use vstd::hash_map::group_hash_map_axioms;

        assert(self@.dom() =~= self.fields@.dom());
        self.fields.len()
    }

    /// Whether the record has no field.
    pub fn is_empty(&self) -> (r: bool)
        ensures
            r == (self@.len() == 0),
    {
        self.len() == 0
    }
}

/// The views of the records in `records`, in the same order.
pub open spec fn record_views(records: Seq<Record>) -> Seq<Map<Seq<char>, FieldValueView>> {
    Seq::new(records.len(), |i: int| records[i]@)
}

} // verus!
