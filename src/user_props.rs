//! User properties as a multimap: each key holds its values in the order they
//! were added. The order of the keys carries no meaning.

use crate::codec::{MQTTCodecError, MAX_FIELD_LEN};
use crate::wire::{encode_utf8_string, fits_field, utf8_field};
use vstd::prelude::*;

verus! {

/// Sizes of an encoded value.
pub trait Size {
    /// The number of bytes the value takes on the wire.
    spec fn encoded_len(&self) -> nat;

    /// Whether the value can be encoded and its length fits in a `u32`.
    spec fn size_ok(&self) -> bool;

    /// The length in bytes of the encoding.
    fn size(&self) -> (r: u32)
        requires
            self.size_ok(),
        ensures
            r == self.encoded_len(),
    ;

    /// The number of bytes of properties in the encoding.
    spec fn properties_len(&self) -> nat;

    /// The number of bytes of payload in the encoding.
    spec fn payload_len(&self) -> nat;

    /// The length of the property part of the encoding.
    fn property_size(&self) -> (r: u32)
        requires
            self.size_ok(),
        ensures
            r == self.properties_len(),
    ;

    /// The length of the payload part of the encoding.
    fn payload_size(&self) -> (r: u32)
        requires
            self.size_ok(),
        ensures
            r == self.payload_len(),
    ;
}

/// Identifier byte of a user property.
pub const USER_PROPERTY_ID: u8 = 0x26;

pub open spec fn strings_view(v: Seq<String>) -> Seq<Seq<char>> {
    Seq::new(v.len(), |i: int| v[i]@)
}

pub open spec fn entries_view(e: Seq<(String, Vec<String>)>) -> Seq<(Seq<char>, Seq<Seq<char>>)> {
    Seq::new(e.len(), |i: int| (e[i].0@, strings_view(e[i].1@)))
}

pub open spec fn keys_distinct(e: Seq<(Seq<char>, Seq<Seq<char>>)>) -> bool {
    forall|i: int, j: int| 0 <= i < j < e.len() ==> e[i].0 != e[j].0
}

pub open spec fn has_key(e: Seq<(Seq<char>, Seq<Seq<char>>)>, k: Seq<char>) -> bool {
    exists|i: int| 0 <= i < e.len() && e[i].0 == k
}

/// One user property on the wire: identifier, key, value.
pub open spec fn user_property_bytes(k: Seq<char>, v: Seq<char>) -> Seq<u8> {
    seq![USER_PROPERTY_ID] + utf8_field(k) + utf8_field(v)
}

/// The user properties of one key, one per value, in order.
pub open spec fn key_bytes(k: Seq<char>, vs: Seq<Seq<char>>) -> Seq<u8>
    decreases vs.len(),
{
    if vs.len() == 0 {
        Seq::empty()
    } else {
        key_bytes(k, vs.drop_last()) + user_property_bytes(k, vs.last())
    }
}

/// The user properties of all keys, in the order the keys were added.
pub open spec fn user_props_bytes(e: Seq<(Seq<char>, Seq<Seq<char>>)>) -> Seq<u8>
    decreases e.len(),
{
    if e.len() == 0 {
        Seq::empty()
    } else {
        user_props_bytes(e.drop_last()) + key_bytes(e.last().0, e.last().1)
    }
}

/// A key and each of its values fit a string field.
pub open spec fn entry_fits(x: (Seq<char>, Seq<Seq<char>>)) -> bool {
    fits_field(x.0) && forall|j: int| 0 <= j < x.1.len() ==> fits_field(#[trigger] x.1[j])
}

/// Every key and value fits a string field.
pub open spec fn user_props_fit(e: Seq<(Seq<char>, Seq<Seq<char>>)>) -> bool {
    forall|i: int| 0 <= i < e.len() ==> entry_fits(#[trigger] e[i])
}

/// A multimap from key to the values added under it.
#[derive(Debug, Clone)]
pub struct UserPropertyMap {
    map: Vec<(String, Vec<String>)>,
}

impl View for UserPropertyMap {
    type V = Seq<(Seq<char>, Seq<Seq<char>>)>;

    closed spec fn view(&self) -> Seq<(Seq<char>, Seq<Seq<char>>)> {
        entries_view(self.map@)
    }
}

impl UserPropertyMap {
    pub fn new() -> (r: UserPropertyMap)
        ensures
            r@ == Seq::<(Seq<char>, Seq<Seq<char>>)>::empty(),
    {
        let r = UserPropertyMap { map: Vec::new() };
        assert(r@ =~= Seq::<(Seq<char>, Seq<Seq<char>>)>::empty());
        r
    }

    /// The keys with their values, keys in the order they were first added.
    pub fn map(&self) -> (r: &Vec<(String, Vec<String>)>)
        ensures
            entries_view(r@) == self@,
    {
        &self.map
    }

    fn position(&self, key: &String) -> (r: Option<usize>)
        ensures
            match r {
                Some(i) => i < self@.len() && self@[i as int].0 == key@,
                None => !has_key(self@, key@),
            },
    {
        let mut i: usize = 0;
        while i < self.map.len()
            invariant
                i <= self.map@.len(),
                forall|j: int| 0 <= j < i ==> self@[j].0 != key@,
            decreases self.map@.len() - i,
        {
            if self.map[i].0 == *key {
                return Some(i);
            }
            i = i + 1;
        }
        None
    }

    pub fn contains_key(&self, key: &str) -> (r: bool)
        ensures
            r == has_key(self@, key@),
    {
        let k = key.to_owned();
        self.position(&k).is_some()
    }

    /// Adds `value` after the values already under `key`.
    pub fn add_property(&mut self, key: &str, value: &str)
        requires
            keys_distinct(old(self)@),
        ensures
            keys_distinct(final(self)@),
            has_key(old(self)@, key@) ==> exists|i: int|
                0 <= i < old(self)@.len() && old(self)@[i].0 == key@ && final(self)@ == old(
                    self,
                )@.update(i, (key@, old(self)@[i].1.push(value@))),
            !has_key(old(self)@, key@) ==> final(self)@ == old(self)@.push((key@, seq![value@])),
    {
        let k = key.to_owned();
        let v = value.to_owned();
        let ghost before = self@;
        match self.position(&k) {
            Some(i) => {
                let mut entry = self.map.remove(i);
                let ghost ev = strings_view(entry.1@);
                entry.1.push(v);
                assert(strings_view(entry.1@) =~= ev.push(value@));
                self.map.insert(i, entry);
                assert(self@ =~= before.update(i as int, (key@, before[i as int].1.push(value@))));
            },
            None => {
                let mut values: Vec<String> = Vec::new();
                values.push(v);
                assert(strings_view(values@) =~= seq![value@]);
                self.map.push((k, values));
                assert(self@ =~= before.push((key@, seq![value@])));
            },
        }
    }

    /// Appends every value of every key as a user property; a key or value
    /// longer than a string field is an error.
    pub fn encode(&self, dest: &mut Vec<u8>) -> (r: Result<(), MQTTCodecError>)
        ensures
            r is Ok <==> user_props_fit(self@),
            r is Ok ==> final(dest)@ == old(dest)@ + user_props_bytes(self@),
    {
        let ghost e = self@;
        let ghost start = dest@;
        let mut i: usize = 0;
        while i < self.map.len()
            invariant
                i <= self.map@.len(),
                e == self@,
                dest@ == start + user_props_bytes(e.subrange(0, i as int)),
                forall|a: int| 0 <= a < i ==> entry_fits(#[trigger] e[a]),
            decreases self.map@.len() - i,
        {
            let key = &self.map[i].0;
            let values = &self.map[i].1;
            let ghost vs = e[i as int].1;
            assert(vs == strings_view(values@));
            assert(key@ == e[i as int].0);
            if key.as_str().as_bytes().len() > MAX_FIELD_LEN {
                assert(!fits_field(e[i as int].0));
                assert(!entry_fits(e[i as int]));
                return Err(MQTTCodecError::new("user property key exceeds max length"));
            }
            let ghost mid = dest@;
            assert(key_bytes(key@, vs.subrange(0, 0)) =~= Seq::<u8>::empty());
            assert(mid + Seq::<u8>::empty() =~= mid);
            let mut j: usize = 0;
            while j < values.len()
                invariant
                    j <= values@.len(),
                    i < e.len(),
                    e == self@,
                    vs == e[i as int].1,
                    vs == strings_view(values@),
                    key@ == e[i as int].0,
                    dest@ == mid + key_bytes(key@, vs.subrange(0, j as int)),
                    fits_field(key@),
                    forall|b: int| 0 <= b < j ==> fits_field(#[trigger] vs[b]),
                decreases values@.len() - j,
            {
                let ghost before = dest@;
                dest.push(USER_PROPERTY_ID);
                if encode_utf8_string(key.as_str(), dest).is_err() {
                    return Err(MQTTCodecError::new("user property key exceeds max length"));
                }
                assert(vs[j as int] == values@[j as int]@);
                assert(vs[j as int] == values@[j as int]@);
                if encode_utf8_string(values[j].as_str(), dest).is_err() {
                    assert(!fits_field(e[i as int].1[j as int]));
                    assert(!entry_fits(e[i as int]));
                    return Err(MQTTCodecError::new("user property value exceeds max length"));
                }
                assert(vs.subrange(0, j + 1).drop_last() =~= vs.subrange(0, j as int));
                assert(dest@ =~= before + user_property_bytes(key@, vs[j as int]));
                j = j + 1;
            }
            assert(vs.subrange(0, j as int) =~= vs);
            assert(entry_fits(e[i as int]));
            assert(e.subrange(0, i + 1).drop_last() =~= e.subrange(0, i as int));
            assert(dest@ =~= start + user_props_bytes(e.subrange(0, i + 1)));
            i = i + 1;
        }
        assert(e.subrange(0, i as int) =~= e);
        Ok(())
    }
}

impl Size for UserPropertyMap {
    open spec fn encoded_len(&self) -> nat {
        user_props_bytes(self@).len()
    }

    open spec fn size_ok(&self) -> bool {
        user_props_fit(self@) && user_props_bytes(self@).len() <= u32::MAX
    }

    /// User properties stand inside another packet's property block; on
    /// their own they have no property block and no payload.
    open spec fn properties_len(&self) -> nat {
        0
    }

    open spec fn payload_len(&self) -> nat {
        0
    }

    fn size(&self) -> (r: u32) {
        let mut out: Vec<u8> = Vec::new();
        let _ = self.encode(&mut out);
        assert(out@ =~= user_props_bytes(self@));
        out.len() as u32
    }

    fn property_size(&self) -> u32 {
        0
    }

    fn payload_size(&self) -> u32 {
        0
    }
}

} // verus!
