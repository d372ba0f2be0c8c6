//! Minimal model of a parsed structured-config (manifest) document:
//! exactly the shapes the workspace validator inspects. The surrounding
//! application parses raw manifest text into this model.

use vstd::prelude::*;

verus! {

/// A parsed manifest value, reduced to what validation reads:
/// strings, booleans and tables; every other value kind is opaque.
#[derive(Debug)]
pub enum TomlValue {
    /// A string value.
    Str(String),
    /// A boolean value.
    Bool(bool),
    /// A table: key/value pairs in document order.
    Table(Vec<(String, TomlValue)>),
    /// Any other value kind (integer, array, date, ...).
    Other,
}

/// First value bound to `key` in a table's entry list.
pub open spec fn lookup(entries: Seq<(String, TomlValue)>, key: Seq<char>) -> Option<TomlValue>
    decreases entries.len(),
{
    if entries.len() == 0 {
        None
    } else if entries[0].0@ == key {
        Some(entries[0].1)
    } else {
        lookup(entries.drop_first(), key)
    }
}

/// The value bound to `key` in `v`, when `v` is a table holding it.
pub open spec fn get(v: TomlValue, key: Seq<char>) -> Option<TomlValue> {
    match v {
        TomlValue::Table(entries) => lookup(entries@, key),
        _ => None,
    }
}

impl TomlValue {
    /// The string content, when this value is a string.
    pub open spec fn as_str_spec(self) -> Option<Seq<char>> {
        match self {
            TomlValue::Str(s) => Some(s@),
            _ => None,
        }
    }

    /// The boolean content, when this value is a boolean.
    pub open spec fn as_bool_spec(self) -> Option<bool> {
        match self {
            TomlValue::Bool(b) => Some(b),
            _ => None,
        }
    }

    /// Looks up `key` when this value is a table; `None` otherwise.
    pub fn get<'a>(&'a self, key: &String) -> (r: Option<&'a TomlValue>)
        ensures
            (match r {
                Some(v) => get(*self, key@) == Some(*v),
                None => get(*self, key@) is None,
            }),
    {
        match self {
            TomlValue::Table(entries) => {
                let ghost all = entries@;
                let mut i: usize = 0;
                proof {
                    assert(all.skip(0) =~= all);
                }
                while i < entries.len()
                    invariant
                        self is Table,
                        all == self->Table_0@,
                        all == entries@,
                        i <= all.len(),
                        lookup(all, key@) == lookup(all.skip(i as int), key@),
                    decreases all.len() - i,
                {
                    let entry = &entries[i];
                    if entry.0.eq(key) {
                        proof {
                            assert(all.skip(i as int).len() > 0);
                            assert(all.skip(i as int)[0] == all[i as int]);
                            assert(all[i as int].0@ == key@);
                            assert(lookup(all.skip(i as int), key@) == Some(all[i as int].1));
                            assert(get(*self, key@) == Some(all[i as int].1));
                        }
                        return Some(&entry.1);
                    }
                    proof {
                        assert(all.skip(i as int).drop_first() =~= all.skip(i + 1));
                        assert(all.skip(i as int)[0] == all[i as int]);
                    }
                    i += 1;
                }
                proof {
                    assert(all.skip(all.len() as int) =~= Seq::<(String, TomlValue)>::empty());
                }
                None
            },
            _ => None,
        }
    }

    /// Returns the string content, when this value is a string.
    pub fn as_str(&self) -> (r: Option<&String>)
        ensures
            (match r {
                Some(s) => self.as_str_spec() == Some(s@),
                None => self.as_str_spec() is None,
            }),
    {
        match self {
            TomlValue::Str(s) => Some(s),
            _ => None,
        }
    }

    /// Returns the boolean content, when this value is a boolean.
    pub fn as_bool(&self) -> (r: Option<bool>)
        ensures
            (match r {
                Some(b) => self.as_bool_spec() == Some(b),
                None => self.as_bool_spec() is None,
            }),
    {
        match self {
            TomlValue::Bool(b) => Some(*b),
            _ => None,
        }
    }
}

} // verus!
