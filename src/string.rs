//! Strings handed to foreign functions, in the encoding they expect.
use vstd::prelude::*;
use vstd::string::StringSliceAdditionalSpecFns;

use crate::utility::{encode_utf16, utf16_encode};

verus! {

/// The encodings a foreign function may expect.
#[derive(Clone, Copy, Debug, PartialEq, Eq, Structural, Hash)]
pub enum Encoding {
    Utf8,
    Utf16,
}

/// UTF-16 code units as little-endian bytes.
pub open spec fn le_bytes(units: Seq<u16>) -> Seq<u8>
    decreases units.len(),
{
    if units.len() == 0 {
        Seq::empty()
    } else {
        let u = units.last();
        le_bytes(units.drop_last()).push((u & 0xFFu16) as u8).push((u >> 8u16) as u8)
    }
}

/// The bytes of text `s` in `encoding`, without a terminator.
pub open spec fn encoded(s: Seq<char>, encoding: Encoding) -> Seq<u8> {
    match encoding {
        Encoding::Utf8 => vstd::utf8::encode_utf8(s),
        Encoding::Utf16 => le_bytes(utf16_encode(s)),
    }
}

/// A string and the encoding a foreign function wants it in.
#[derive(Clone, Debug, PartialEq, Eq, Hash)]
pub struct ManagedString {
    data: String,
    encoding: Encoding,
}

fn push_le(out: &mut Vec<u8>, units: &Vec<u16>)
    ensures
        final(out)@ == old(out)@ + le_bytes(units@),
{
    let ghost start = out@;
    let mut i: usize = 0;
    while i < units.len()
        invariant
            0 <= i <= units@.len(),
            out@ == start + le_bytes(units@.take(i as int)),
        decreases units@.len() - i,
    {
        let u = units[i];
        assert(units@.take(i + 1).drop_last() =~= units@.take(i as int));
        assert(units@.take(i + 1).last() == u);
        out.push((u & 0xFFu16) as u8);
        out.push((u >> 8u16) as u8);
        assert(start + le_bytes(units@.take(i + 1)) =~= (start + le_bytes(units@.take(i as int))).push(
            (u & 0xFFu16) as u8,
        ).push((u >> 8u16) as u8));
        i = i + 1;
    }
    assert(units@.take(i as int) =~= units@);
}

impl ManagedString {
    pub closed spec fn view_data(&self) -> Seq<char> {
        self.data@
    }

    pub closed spec fn view_encoding(&self) -> Encoding {
        self.encoding
    }

    pub fn new(data: String, encoding: Encoding) -> (r: ManagedString)
        ensures
            r.view_data() == data@,
            r.view_encoding() == encoding,
    {
        ManagedString { data, encoding }
    }

    pub fn new_utf8(data: String) -> (r: ManagedString)
        ensures
            r.view_data() == data@,
            r.view_encoding() == Encoding::Utf8,
    {
        ManagedString { data, encoding: Encoding::Utf8 }
    }

    pub fn data(&self) -> (r: &str)
        ensures
            r@ == self.view_data(),
    {
        self.data.as_str()
    }

    pub fn encoding(&self) -> (r: Encoding)
        ensures
            r == self.view_encoding(),
    {
        self.encoding
    }

    /// The encoded bytes, without a terminator.
    pub fn to_bytes(&self) -> (r: Vec<u8>)
        ensures
            r@ == encoded(self.view_data(), self.view_encoding()),
    {
        let mut out: Vec<u8> = Vec::new();
        match self.encoding {
            Encoding::Utf8 => {
                let b = self.data.as_str().as_bytes();
                let mut i: usize = 0;
                while i < b.len()
                    invariant
                        0 <= i <= b@.len(),
                        out@ =~= b@.take(i as int),
                    decreases b@.len() - i,
                {
                    out.push(b[i]);
                    i = i + 1;
                }
                assert(b@.take(i as int) =~= b@);
            },
            Encoding::Utf16 => {
                let units = encode_utf16(self.data.as_str());
                push_le(&mut out, &units);
                assert(Seq::<u8>::empty() + le_bytes(units@) =~= le_bytes(units@));
            },
        }
        out
    }

    /// The encoded bytes followed by a terminator of the encoding's unit size.
    pub fn to_bytes_with_nul(&self) -> (r: Vec<u8>)
        ensures
            r@ == match self.view_encoding() {
                Encoding::Utf8 => encoded(self.view_data(), Encoding::Utf8).push(0),
                Encoding::Utf16 => le_bytes(utf16_encode(self.view_data()).push(0)),
            },
    {
        let mut out = self.to_bytes();
        out.push(0);
        match self.encoding {
            Encoding::Utf8 => {},
            Encoding::Utf16 => {
                out.push(0);
                proof {
                    let units = utf16_encode(self.view_data());
                    assert(units.push(0).drop_last() =~= units);
                    assert((0u16 & 0xFFu16) as u8 == 0 && (0u16 >> 8u16) as u8 == 0) by (bit_vector);
                }
            },
        }
        out
    }
}

} // verus!
