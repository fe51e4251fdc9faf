//! An in-memory document tree for configuration data.
//!
//! The configuration file reaches the library as a tree of plain values —
//! the shape a JSON text decodes to — so that everything the library reads
//! out of it is verified.  Decoding the text into this tree is the caller's
//! concern; numbers carry no payload because no part of the configuration
//! reads one.

use vstd::prelude::*;

verus! {

/// One node of a configuration document.
pub enum JsonVal {
    /// An explicit null.
    Null,
    /// A boolean.
    Bool(bool),
    /// A number (its value is never read by the configuration).
    Num,
    /// A string.
    Str(String),
    /// An ordered array of nodes.
    Arr(Vec<JsonVal>),
    /// An object: ordered fields, looked up by name (first match wins).
    Obj(Vec<(String, JsonVal)>),
}

/// First value bound to `key` among the fields of an object.
pub open spec fn obj_get(entries: Seq<(String, JsonVal)>, key: Seq<char>) -> Option<JsonVal>
    decreases entries.len(),
{
    if entries.len() == 0 {
        None
    } else if entries[0].0@ == key {
        Some(entries[0].1)
    } else {
        obj_get(entries.drop_first(), key)
    }
}

/// Field lookup: defined only on objects.
pub open spec fn spec_get(v: JsonVal, key: Seq<char>) -> Option<JsonVal> {
    match v {
        JsonVal::Obj(entries) => obj_get(entries@, key),
        _ => None,
    }
}

/// The string a node holds, if it is a string.
pub open spec fn spec_as_str(v: JsonVal) -> Option<Seq<char>> {
    match v {
        JsonVal::Str(s) => Some(s@),
        _ => None,
    }
}

/// The boolean a node holds, if it is a boolean.
pub open spec fn spec_as_bool(v: JsonVal) -> Option<bool> {
    match v {
        JsonVal::Bool(b) => Some(b),
        _ => None,
    }
}

/// Whether a node is an array.
pub open spec fn spec_is_array(v: JsonVal) -> bool {
    v is Arr
}

/// The elements of a node: its members when it is an array, none
/// otherwise.
pub open spec fn spec_members(v: JsonVal) -> Seq<JsonVal> {
    match v {
        JsonVal::Arr(items) => items@,
        _ => Seq::empty(),
    }
}

impl JsonVal {
    /// Look a field up by name; `None` on a non-object and on an absent
    /// field alike.
    pub fn get<'a>(&'a self, key: &String) -> (r: Option<&'a JsonVal>)
        ensures
            match r {
                Some(x) => spec_get(*self, key@) == Some(*x),
                None => spec_get(*self, key@) == None::<JsonVal>,
            },
    {
        match self {
            JsonVal::Obj(entries) => {
                let n = entries.len();
                proof {
                    assert(entries@.skip(0) =~= entries@);
                }
                for i in 0..n
                    invariant
                        n == entries@.len(),
                        spec_get(*self, key@) == obj_get(entries@, key@),
                        obj_get(entries@, key@) == obj_get(entries@.skip(i as int), key@),
                    decreases n - i,
                {
                    proof {
                        assert(entries@.skip(i as int)[0] == entries@[i as int]);
                    }
                    if entries[i].0 == *key {
                        return Some(&entries[i].1);
                    }
                    proof {
                        assert(entries@.skip(i as int).drop_first() =~= entries@.skip(i + 1));
                    }
                }
                None
            },
            _ => None,
        }
    }

    /// The string this node holds, if it is a string.
    pub fn as_str(&self) -> (r: Option<&String>)
        ensures
            match r {
                Some(s) => spec_as_str(*self) == Some(s@),
                None => spec_as_str(*self) == None::<Seq<char>>,
            },
    {
        match self {
            JsonVal::Str(s) => Some(s),
            _ => None,
        }
    }

    /// The boolean this node holds, if it is a boolean.
    pub fn as_bool(&self) -> (r: Option<bool>)
        ensures
            r == spec_as_bool(*self),
    {
        match self {
            JsonVal::Bool(b) => Some(*b),
            _ => None,
        }
    }

    /// Whether this node is an array.
    pub fn is_array(&self) -> (r: bool)
        ensures
            r == spec_is_array(*self),
    {
        match self {
            JsonVal::Arr(_) => true,
            _ => false,
        }
    }

    /// The members of this node, when it is an array.
    pub fn as_array(&self) -> (r: Option<&Vec<JsonVal>>)
        ensures
            match r {
                Some(items) => spec_is_array(*self) && spec_members(*self) == items@,
                None => !spec_is_array(*self),
            },
    {
        match self {
            JsonVal::Arr(items) => Some(items),
            _ => None,
        }
    }
}

} // verus!
