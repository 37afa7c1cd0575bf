//! Server configuration read from a properties file.

use vstd::prelude::*;
use crate::util::{all_digit_chars, chars_value, parse_u64, str_eq};

verus! {

/// The key/value pairs that the properties file format assigns to the given
/// bytes, in file order.
pub uninterp spec fn props_of(bytes: Seq<u8>) -> Seq<(Seq<char>, Seq<char>)>;

/// Relies on `java_properties::PropertiesIter::read_into`: parses the
/// properties file format from the bytes and hands every key/value pair
/// over in file order; pairs read before a malformed line are still handed
/// over.
#[verifier::external_body]
fn parse_properties(bytes: &Vec<u8>) -> (r: Vec<(String, String)>)
    ensures
        r@.len() == props_of(bytes@).len(),
        forall|i: int| 0 <= i < r@.len() ==> (#[trigger] r@[i]).0@ == props_of(bytes@)[i].0
            && r@[i].1@ == props_of(bytes@)[i].1,
{
    let mut pairs: Vec<(String, String)> = Vec::new();
    let _ = java_properties::PropertiesIter::new(&bytes[..]).read_into(|k, v| {
        pairs.push((k, v));
    });
    pairs
}

/// The value the configuration assigns to `key`: the value of the last
/// pair carrying that key, if any.
pub open spec fn lookup(s: Seq<(String, String)>, key: Seq<char>) -> Option<Seq<char>>
    decreases s.len(),
{
    if s.len() == 0 {
        None
    } else if s.last().0@ == key {
        Some(s.last().1@)
    } else {
        lookup(s.drop_last(), key)
    }
}

/// Configuration: key/value pairs from the properties file, and whether a
/// file was read at all.
pub struct Properties {
    pub data: Vec<(String, String)>,
    pub read: bool,
}

impl Properties {
    /// Configuration parsed from the bytes of the properties file, or the
    /// empty configuration when no file exists.
    pub fn new(contents: Option<&Vec<u8>>) -> (r: Properties)
        ensures
            (match contents {
                Some(b) => {
                    &&& r.read == true
                    &&& r.data@.len() == props_of(b@).len()
                    &&& forall|i: int| 0 <= i < r.data@.len() ==> (#[trigger] r.data@[i]).0@
                        == props_of(b@)[i].0 && r.data@[i].1@ == props_of(b@)[i].1
                },
                None => r.read == false && r.data@.len() == 0,
            }),
    {
        match contents {
            Option::None => Properties { data: Vec::new(), read: false },
            Option::Some(b) => Properties { data: parse_properties(b), read: true },
        }
    }

    /// The configured value for `key`, if any.
    pub fn get(&self, key: &str) -> (r: Option<String>)
        ensures
            r is Some <==> lookup(self.data@, key@) is Some,
            r matches Some(v) ==> lookup(self.data@, key@) == Some(v@),
    {
        let n = self.data.len();
        let mut i: usize = n;
        proof {
            assert(self.data@.subrange(0, n as int) =~= self.data@);
        }
        while i > 0
            invariant
                0 <= i <= n,
                n == self.data@.len(),
                lookup(self.data@, key@) == lookup(self.data@.subrange(0, i as int), key@),
            decreases i,
        {
            let pair = &self.data[i - 1];
            proof {
                assert(self.data@.subrange(0, i as int).last() == self.data@[i - 1]);
                assert(self.data@.subrange(0, i as int).drop_last() =~= self.data@.subrange(
                    0,
                    i - 1 as int,
                ));
            }
            if str_eq(&pair.0, key) {
                return Option::Some(pair.1.clone());
            }
            i = i - 1;
        }
        Option::None
    }

    /// The configured value for `key`, or `default_value` when the key is
    /// not configured.
    pub fn get_or_default(&self, key: &str, default_value: &str) -> (r: String)
        ensures
            (match lookup(self.data@, key@) {
                Some(v) => r@ == v,
                None => r@ == default_value@,
            }),
    {
        match self.get(key) {
            Option::None => String::from_str(default_value),
            Option::Some(v) => v,
        }
    }

    /// The configured per-connection read buffer size, in bytes; `8192`
    /// when the key is absent or does not hold a number that fits.
    pub fn buf_size(&self) -> (r: usize)
        ensures
            (match lookup(self.data@, "cogru.BufferSize"@) {
                Some(v) => {
                    if v.len() > 0 && all_digit_chars(v) && chars_value(v) <= usize::MAX {
                        r == chars_value(v)
                    } else {
                        r == 8192
                    }
                },
                None => r == 8192,
            }),
    {
        let got = self.get_or_default("cogru.BufferSize", "8192");
        proof {
            reveal_strlit("8192");
            reveal_with_fuel(crate::util::chars_value, 6);
            assert(all_digit_chars("8192"@));
            assert(chars_value("8192"@) == 8192);
        }
        match parse_u64(Option::Some(got)) {
            Option::None => 8192,
            Option::Some(v) => {
                if v <= usize::MAX as u64 {
                    v as usize
                } else {
                    8192
                }
            },
        }
    }
}

} // verus!
