//! The tag-tree data model the codec reads and writes. The external
//! compressed-stream transport parses a file into this shape; the codec
//! itself only walks and builds trees of plain values. Typed getters
//! return absence, never an error, on a missing key or a type mismatch.

use vstd::prelude::*;

use crate::strutil::str_eq;

verus! {

/// One typed node of a tag tree. Node kinds the codec never reads
/// (floating-point scalars, plain strings, and so on) are carried as
/// `Other` so that a tree converted from a real file keeps its entry list.
pub enum Tag {
    Short(i16),
    Int(i32),
    Long(i64),
    ByteArray(Vec<u8>),
    IntArray(Vec<i32>),
    LongArray(Vec<i64>),
    List(Vec<Tag>),
    Compound(Compound),
    Other,
}

/// A named collection of child tags, in file order.
pub struct Compound {
    pub entries: Vec<(String, Tag)>,
}

/// The first entry named `key`, if any.
pub open spec fn spec_lookup(entries: Seq<(String, Tag)>, key: Seq<char>) -> Option<Tag>
    decreases entries.len(),
{
    if entries.len() == 0 {
        None
    } else if entries[0].0@ == key {
        Some(entries[0].1)
    } else {
        spec_lookup(entries.drop_first(), key)
    }
}

impl Compound {
    pub open spec fn spec_get(&self, key: Seq<char>) -> Option<Tag> {
        spec_lookup(self.entries@, key)
    }

    pub fn new() -> (c: Compound)
        ensures
            c.entries@.len() == 0,
    {
        Compound { entries: Vec::new() }
    }

    /// Append a named child tag.
    pub fn put(&mut self, name: String, tag: Tag)
        ensures
            final(self).entries@ == old(self).entries@.push((name, tag)),
    {
        self.entries.push((name, tag));
    }

    /// The first child named `key`.
    pub fn get(&self, key: &str) -> (r: Option<&Tag>)
        ensures
            match r {
                Some(t) => self.spec_get(key@) == Some(*t),
                None => self.spec_get(key@) is None,
            },
    {
        let n = self.entries.len();
        let mut i: usize = 0;
        proof {
            assert(self.entries@.subrange(0, n as int) =~= self.entries@);
        }
        while i < n
            invariant
                n == self.entries@.len(),
                i <= n,
                spec_lookup(self.entries@, key@) == spec_lookup(
                    self.entries@.subrange(i as int, n as int),
                    key@,
                ),
            decreases n - i,
        {
            proof {
                let sub = self.entries@.subrange(i as int, n as int);
                assert(sub[0] == self.entries@[i as int]);
                assert(sub.drop_first() =~= self.entries@.subrange(i as int + 1, n as int));
            }
            if str_eq(self.entries[i].0.as_str(), key) {
                return Some(&self.entries[i].1);
            }
            i = i + 1;
        }
        proof {
            assert(self.entries@.subrange(n as int, n as int) =~= Seq::<(String, Tag)>::empty());
        }
        None
    }

    /// The 16-bit integer named `key`, if present with that type.
    pub fn get_short(&self, key: &str) -> (r: Option<i16>)
        ensures
            r == (match self.spec_get(key@) {
                Some(Tag::Short(v)) => Some(v),
                _ => None::<i16>,
            }),
    {
        match self.get(key) {
            Some(Tag::Short(v)) => Some(*v),
            _ => None,
        }
    }

    /// The 32-bit integer named `key`, if present with that type.
    pub fn get_int(&self, key: &str) -> (r: Option<i32>)
        ensures
            r == (match self.spec_get(key@) {
                Some(Tag::Int(v)) => Some(v),
                _ => None::<i32>,
            }),
    {
        match self.get(key) {
            Some(Tag::Int(v)) => Some(*v),
            _ => None,
        }
    }

    /// The child compound named `key`, if present with that type.
    pub fn get_compound(&self, key: &str) -> (r: Option<&Compound>)
        ensures
            match r {
                Some(c) => self.spec_get(key@) matches Some(Tag::Compound(cc)) && cc == *c,
                None => !(self.spec_get(key@) matches Some(Tag::Compound(_))),
            },
    {
        match self.get(key) {
            Some(Tag::Compound(c)) => Some(c),
            _ => None,
        }
    }

    /// The integer array named `key`, if present with that type.
    pub fn get_int_array(&self, key: &str) -> (r: Option<&Vec<i32>>)
        ensures
            match r {
                Some(a) => self.spec_get(key@) matches Some(Tag::IntArray(aa)) && aa == *a,
                None => !(self.spec_get(key@) matches Some(Tag::IntArray(_))),
            },
    {
        match self.get(key) {
            Some(Tag::IntArray(a)) => Some(a),
            _ => None,
        }
    }

    /// The 64-bit word array named `key`, if present with that type.
    pub fn get_long_array(&self, key: &str) -> (r: Option<&Vec<i64>>)
        ensures
            match r {
                Some(a) => self.spec_get(key@) matches Some(Tag::LongArray(aa)) && aa == *a,
                None => !(self.spec_get(key@) matches Some(Tag::LongArray(_))),
            },
    {
        match self.get(key) {
            Some(Tag::LongArray(a)) => Some(a),
            _ => None,
        }
    }

    /// The byte array named `key`, if present with that type.
    pub fn get_byte_array(&self, key: &str) -> (r: Option<&Vec<u8>>)
        ensures
            match r {
                Some(a) => self.spec_get(key@) matches Some(Tag::ByteArray(aa)) && aa == *a,
                None => !(self.spec_get(key@) matches Some(Tag::ByteArray(_))),
            },
    {
        match self.get(key) {
            Some(Tag::ByteArray(a)) => Some(a),
            _ => None,
        }
    }

    /// The tag list named `key`, if present with that type.
    pub fn get_list(&self, key: &str) -> (r: Option<&Vec<Tag>>)
        ensures
            match r {
                Some(l) => self.spec_get(key@) matches Some(Tag::List(ll)) && ll == *l,
                None => !(self.spec_get(key@) matches Some(Tag::List(_))),
            },
    {
        match self.get(key) {
            Some(Tag::List(l)) => Some(l),
            _ => None,
        }
    }
}

impl Tag {
    /// The 32-bit integer payload, if this node is one.
    pub fn extract_int(&self) -> (r: Option<i32>)
        ensures
            r == (match *self {
                Tag::Int(v) => Some(v),
                _ => None::<i32>,
            }),
    {
        match self {
            Tag::Int(v) => Some(*v),
            _ => None,
        }
    }
}

} // verus!
