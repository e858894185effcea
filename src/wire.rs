//! The packet framing as mathematics: what a byte sequence decodes to, and
//! what a packet encodes to.

use vstd::prelude::*;

use crate::error::Error;

verus! {

/// What a packet is: its tag and its body.
pub struct PacketModel {
    pub tag: u8,
    pub contents: Seq<u8>,
}

/// `256` to the power `n`.
pub open spec fn pow256(n: nat) -> nat
    decreases n,
{
    if n == 0 {
        1
    } else {
        256 * pow256((n - 1) as nat)
    }
}

/// The unsigned big-endian integer that `s` spells.
pub open spec fn be_value(s: Seq<u8>) -> nat
    decreases s.len(),
{
    if s.len() == 0 {
        0
    } else {
        (be_value(s.drop_last()) * 256 + s.last()) as nat
    }
}

/// The `n` bytes that spell `v` modulo `256^n`, big-endian.
pub open spec fn be_bytes(v: nat, n: nat) -> Seq<u8>
    decreases n,
{
    if n == 0 {
        Seq::empty()
    } else {
        be_bytes(v / 256, (n - 1) as nat).push((v % 256) as u8)
    }
}

/// The number of bytes of an old-format length field, by the low two bits
/// of the tag byte (the value three, an indefinite length, excluded).
pub open spec fn old_length_size(code: u8) -> nat {
    if code == 0 {
        1
    } else if code == 1 {
        2
    } else {
        4
    }
}

/// A new-format length field at the start of `s`: the number of bytes it
/// takes and the body length it declares.
pub open spec fn varlen_header(s: Seq<u8>) -> Result<(nat, nat), Error> {
    if s.len() == 0 {
        Err(Error::PrematureEOF)
    } else if s[0] < 192 {
        Ok((1, s[0] as nat))
    } else if s[0] < 224 {
        if s.len() < 2 {
            Err(Error::PrematureEOF)
        } else {
            Ok((2, ((s[0] - 192) * 256 + s[1] + 192) as nat))
        }
    } else if s[0] == 255 {
        if s.len() < 5 {
            Err(Error::PrematureEOF)
        } else {
            Ok((5, be_value(s.subrange(1, 5))))
        }
    } else {
        Err(Error::PartialLength)
    }
}

/// The header at the start of `s`: `None` for an empty input, else the tag,
/// the number of header bytes and the declared body length.
pub open spec fn packet_header(s: Seq<u8>) -> Result<Option<(u8, nat, nat)>, Error> {
    if s.len() == 0 {
        Ok(None)
    } else if s[0] & 0x80 == 0 {
        Err(Error::PacketFirstBitZero)
    } else if s[0] & 0x40 == 0 {
        let code = s[0] & 3;
        if code == 3 {
            Err(Error::PartialLength)
        } else {
            let n = old_length_size(code);
            if s.len() < 1 + n {
                Err(Error::PrematureEOF)
            } else {
                Ok(Some(((s[0] >> 2) & 0xF, 1 + n, be_value(s.subrange(1, (1 + n) as int)))))
            }
        }
    } else {
        match varlen_header(s.drop_first()) {
            Err(e) => Err(e),
            Ok((n, len)) => Ok(Some((s[0] & 0x3F, 1 + n, len))),
        }
    }
}

/// What reading one packet from `s` gives: `None` at the end of the input,
/// else the packet and the number of bytes it spans.
pub open spec fn decode(s: Seq<u8>) -> Result<Option<(PacketModel, nat)>, Error> {
    match packet_header(s) {
        Err(e) => Err(e),
        Ok(None) => Ok(None),
        Ok(Some((tag, h, len))) => {
            if s.len() < h + len {
                Err(Error::PrematureEOF)
            } else if tag == 0 {
                Err(Error::BadTag)
            } else {
                Ok(Some((PacketModel { tag, contents: s.subrange(h as int, (h + len) as int) }, h + len)))
            }
        }
    }
}

/// The canonical new-format length field for a body of `len` bytes.
pub open spec fn varlen_field(len: nat) -> Seq<u8> {
    if len < 192 {
        seq![len as u8]
    } else if len < 8384 {
        seq![((len - 192) / 256 + 192) as u8, ((len - 192) % 256) as u8]
    } else {
        seq![0xFFu8] + be_bytes(len, 4)
    }
}

/// The canonical new-format framing of a packet.
pub open spec fn encode(tag: u8, contents: Seq<u8>) -> Seq<u8> {
    seq![tag | 0xC0] + varlen_field(contents.len()) + contents
}

/// An old-format framing of a packet, with length field size selector `code`.
pub open spec fn old_encode(tag: u8, code: u8, contents: Seq<u8>) -> Seq<u8> {
    seq![(0x80 | (tag << 2) | code) as u8] + be_bytes(contents.len(), old_length_size(code))
        + contents
}

/// The big-endian value of at most four bytes.
pub fn read_be(bytes: &[u8]) -> (v: u32)
    requires
        bytes@.len() <= 4,
    ensures
        v as nat == be_value(bytes@),
{
    let mut v: u32 = 0;
    let mut i: usize = 0;
    while i < bytes.len()
        invariant
            i <= bytes@.len() <= 4,
            v as nat == be_value(bytes@.take(i as int)),
            (v as nat) < pow256(i as nat),
        decreases bytes@.len() - i,
    {
        let b = bytes[i];
        proof {
            assert(bytes@.take(i + 1).drop_last() =~= bytes@.take(i as int));
            assert(pow256(i as nat) <= 0x100_0000) by {
                reveal_with_fuel(pow256, 4);
            }
            assert(v * 256 + b < pow256(i as nat) * 256 <= 0x1_0000_0000) by (nonlinear_arith)
                requires
                    (v as nat) < pow256(i as nat) <= 0x100_0000,
                    b < 256,
            ;
        }
        v = v * 256 + b as u32;
        i = i + 1;
    }
    assert(bytes@.take(i as int) =~= bytes@);
    v
}

} // verus!
