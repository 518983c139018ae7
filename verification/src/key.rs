//! The key-value key under which an address's rate-limit entry would be
//! persisted: a fixed tag followed by the address text.
//!
//! The wire form is `/!lm` followed by the address bytes and a `NUL`
//! terminator; the scan range for all such keys runs from `/!ip\0` to
//! `/!ip\xff`. The address must be ASCII and `NUL`-free, so the terminator
//! is unambiguous and the round trip is exact.

use vstd::prelude::*;
use crate::err::Error;
use crate::strutil::{chars_of, push_char, string_of_chars};

verus! {

broadcast use vstd::std_specs::vec::group_vec_axioms, vstd::seq::group_seq_axioms;

/// A rate-limit key: the address it stands for.
#[derive(Debug, PartialEq, Eq)]
pub struct Ip {
    /// The address text.
    pub ip: String,
}

/// Whether the address text can be encoded: ASCII with no `NUL`.
pub open spec fn spec_encodable(s: Seq<char>) -> bool {
    forall|i: int| 0 <= i < s.len() ==> 0 < (#[trigger] s[i] as u32) < 128
}

/// The wire form of a key: the tag `/!lm`, the address bytes, a `NUL`.
pub open spec fn spec_encode(s: Seq<char>) -> Seq<u8> {
    seq![47u8, 33u8, 108u8, 109u8] + Seq::new(s.len(), |i: int| ((s[i] as u32) as u8)) + seq![
        0u8,
    ]
}

/// A new key for this address.
pub fn new(bu: &str) -> (r: Ip)
    ensures
        r.ip@ == bu@,
{
    Ip::new(bu)
}

/// The lower bound of the key range: `/!ip` then `NUL`.
pub fn prefix() -> (r: Vec<u8>)
    ensures
        r@ == seq![47u8, 33u8, 105u8, 112u8, 0u8],
{
    let mut k: Vec<u8> = Vec::new();
    k.push(47);
    k.push(33);
    k.push(105);
    k.push(112);
    k.push(0);
    assert(k@ =~= seq![47u8, 33u8, 105u8, 112u8, 0u8]);
    k
}

/// The upper bound of the key range: `/!ip` then `0xff`.
pub fn suffix() -> (r: Vec<u8>)
    ensures
        r@ == seq![47u8, 33u8, 105u8, 112u8, 255u8],
{
    let mut k: Vec<u8> = Vec::new();
    k.push(47);
    k.push(33);
    k.push(105);
    k.push(112);
    k.push(255);
    assert(k@ =~= seq![47u8, 33u8, 105u8, 112u8, 255u8]);
    k
}

impl Ip {
    /// A new key for this address.
    pub fn new(ip: &str) -> (r: Ip)
        ensures
            r.ip@ == ip@,
    {
        Ip { ip: String::from_str(ip) }
    }

    /// The wire form of the key; an address that is not ASCII or holds a
    /// `NUL` cannot be encoded.
    #[verifier::loop_isolation(false)]
    pub fn encode(&self) -> (r: Result<Vec<u8>, Error>)
        ensures
            spec_encodable(self.ip@) <==> r is Ok,
            r is Ok ==> r->Ok_0@ == spec_encode(self.ip@),
    {
        let cs = chars_of(self.ip.as_str());
        let mut out: Vec<u8> = Vec::new();
        out.push(47);
        out.push(33);
        out.push(108);
        out.push(109);
        let mut i: usize = 0;
        while i < cs.len()
            invariant
                i <= cs@.len(),
                out@.len() == 4 + i,
                out@[0] == 47u8 && out@[1] == 33u8 && out@[2] == 108u8 && out@[3] == 109u8,
                forall|k: int| 0 <= k < i ==> 0 < (cs@[k] as u32) < 128 && out@[4 + k] == ((
                cs@[k] as u32) as u8),
            decreases cs@.len() - i,
        {
            let u = cs[i] as u32;
            if u == 0 || u >= 128 {
                proof {
                    assert(!(0 < (cs@[i as int] as u32) < 128));
                }
                return Err(Error::InvalidParam { name: self.ip.clone() });
            }
            out.push(u as u8);
            i = i + 1;
        }
        out.push(0);
        proof {
            assert(out@ =~= spec_encode(self.ip@));
        }
        Ok(out)
    }

    /// The key read back from its wire form; refused unless the bytes are
    /// exactly an encoded key.
    #[verifier::loop_isolation(false)]
    pub fn decode(bytes: &Vec<u8>) -> (r: Result<Ip, Error>)
        ensures
            r is Ok ==> spec_encodable(r->Ok_0.ip@) && bytes@ == spec_encode(r->Ok_0.ip@),
            (exists|s: Seq<char>| spec_encodable(s) && bytes@ == spec_encode(s)) ==> r is Ok,
    {
        let n = bytes.len();
        if n < 5 || bytes[0] != 47 || bytes[1] != 33 || bytes[2] != 108 || bytes[3] != 109
            || bytes[n - 1] != 0 {
            proof {
                if exists|s: Seq<char>| spec_encodable(s) && bytes@ == spec_encode(s) {
                    let s = choose|s: Seq<char>| spec_encodable(s) && bytes@ == spec_encode(s);
                    assert(bytes@.len() == s.len() + 5);
                    assert(bytes@[0] == 47u8);
                    assert(bytes@[1] == 33u8);
                    assert(bytes@[2] == 108u8);
                    assert(bytes@[3] == 109u8);
                    assert(bytes@[4 + s.len() as int] == 0u8);
                }
            }
            return Err(Error::QueryEmpty);
        }
        let mut cs: Vec<char> = Vec::new();
        let mut i: usize = 4;
        while i < n - 1
            invariant
                4 <= i <= n - 1,
                n == bytes@.len(),
                cs@.len() == i - 4,
                forall|k: int| 0 <= k < i - 4 ==> 0 < (cs@[k] as u32) < 128 && bytes@[4 + k]
                    == ((cs@[k] as u32) as u8),
            decreases n - 1 - i,
        {
            let b = bytes[i];
            if b == 0 || b >= 128 {
                proof {
                    if exists|s: Seq<char>| spec_encodable(s) && bytes@ == spec_encode(s) {
                        let s = choose|s: Seq<char>|
                            spec_encodable(s) && bytes@ == spec_encode(s);
                        assert(bytes@.len() == s.len() + 5);
                        assert(bytes@[i as int] == ((s[i - 4] as u32) as u8));
                        assert(0 < (s[i - 4] as u32) < 128);
                    }
                }
                return Err(Error::QueryEmpty);
            }
            cs.push(b as char);
            proof {
                assert(cs@.last() == b as char);
                assert((b as char) as u32 == b);
                assert((b as char) as u8 == b);
            }
            i = i + 1;
        }
        let ip = string_of_chars(&cs);
        let r = Ip { ip };
        proof {
            assert(bytes@ =~= spec_encode(r.ip@));
        }
        Ok(r)
    }
}

/// Law: decoding an encoded key gives the key back.
pub proof fn lemma_key_round_trip(s: Seq<char>, t: Seq<char>)
    requires
        spec_encodable(s),
        spec_encodable(t),
        spec_encode(s) == spec_encode(t),
    ensures
        s == t,
{
    assert(spec_encode(s).len() == 5 + s.len());
    assert(spec_encode(t).len() == 5 + t.len());
    assert(s.len() == t.len());
    assert forall|i: int| 0 <= i < s.len() implies s[i] == t[i] by {
        assert(spec_encode(s)[4 + i] == ((s[i] as u32) as u8));
        assert(spec_encode(t)[4 + i] == ((t[i] as u32) as u8));
        assert((s[i] as u32) < 128 && (t[i] as u32) < 128);
        assert((s[i] as u32) == (t[i] as u32));
        vstd::utf8::char_u32_cast(s[i], s[i] as u32);
        vstd::utf8::char_u32_cast(t[i], t[i] as u32);
    }
    assert(s =~= t);
}

} // verus!
