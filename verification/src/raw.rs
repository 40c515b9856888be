//! A decoded generic document value tree.
//!
//! Document decoding itself is an external capability; the environment
//! hands the library one of these trees.  Numbers are fixed-point
//! integers in millionths of a unit.

use vstd::prelude::*;

verus! {

/// One node of a decoded document tree.
pub enum RawValue {
    Null,
    Bool(bool),
    /// A number, in millionths of a unit.
    Num(i64),
    Str(String),
    Arr(Vec<RawValue>),
    Obj(Vec<(String, RawValue)>),
}

/// The value of the first field named `key`, if any.
pub open spec fn spec_lookup(fields: Seq<(String, RawValue)>, key: Seq<char>) -> Option<RawValue>
    decreases fields.len(),
{
    if fields.len() == 0 {
        None
    } else if fields[0].0@ == key {
        Some(fields[0].1)
    } else {
        spec_lookup(fields.drop_first(), key)
    }
}

impl RawValue {
    /// The value of field `key`, when this node is an object that has
    /// one; `None` otherwise.
    pub open spec fn spec_get(self, key: Seq<char>) -> Option<RawValue> {
        match self {
            RawValue::Obj(fields) => spec_lookup(fields@, key),
            _ => None,
        }
    }

    /// Field lookup on an object node.
    pub fn get<'a>(&'a self, key: &str) -> (r: Option<&'a RawValue>)
        ensures
            match r {
                Some(v) => self.spec_get(key@) == Some(*v),
                None => self.spec_get(key@) is None,
            },
    {
        let key_owned: String = key.to_owned();
        match self {
            RawValue::Obj(fields) => {
                let n = fields.len();
                proof {
                    assert(fields@.skip(0) =~= fields@);
                }
                for i in 0..n
                    invariant
                        n == fields@.len(),
                        key_owned@ == key@,
                        self.spec_get(key@) == spec_lookup(fields@, key@),
                        spec_lookup(fields@, key@) == spec_lookup(fields@.skip(i as int), key@),
                {
                    proof {
                        assert(fields@.skip(i as int).drop_first() =~= fields@.skip(i + 1));
                    }
                    if fields[i].0 == key_owned {
                        let r = &fields[i].1;
                        proof {
                            assert(fields@.skip(i as int)[0] == fields@[i as int]);
                            assert(spec_lookup(fields@.skip(i as int), key@)
                                == Some(fields@[i as int].1));
                            assert(*r == fields@[i as int].1);
                        }
                        return Some(r);
                    }
                }
                None
            },
            _ => None,
        }
    }
}

} // verus!
