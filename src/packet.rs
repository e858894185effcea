//! Reading and writing OpenPGP packets.

use vstd::prelude::*;

use crate::error::Error;
use crate::reader::Reader;
use crate::wire::{be_bytes, decode, encode, read_be, varlen_field, varlen_header, PacketModel};

verus! {

/// The format of a packet header, told by bit 6 of the tag byte.
#[derive(Clone, Copy, Debug, PartialEq, Eq, Structural)]
pub enum Format {
    /// Old format: bit 6 clear.
    Old,
    /// New format: bit 6 set.
    New,
}

/// An OpenPGP packet: a tag and a body borrowed from the input.
#[derive(Clone, Copy, Debug)]
pub struct Packet<'a> {
    tag: u8,
    buffer: &'a [u8],
}

impl<'a> View for Packet<'a> {
    type V = PacketModel;

    closed spec fn view(&self) -> PacketModel {
        PacketModel { tag: self.tag, contents: self.buffer@ }
    }
}

/// Reads a new-format length field and the body it declares.
pub(crate) fn get_varlen_bytes<'a>(reader: &mut Reader<'a>) -> (r: Result<&'a [u8], Error>)
    requires
        old(reader).wf(),
    ensures
        final(reader).wf(),
        match varlen_header(old(reader)@) {
            Err(e) => r == Err::<&'a [u8], Error>(e),
            Ok((n, len)) => if old(reader)@.len() < n + len {
                r == Err::<&'a [u8], Error>(Error::PrematureEOF)
            } else {
                &&& r.is_ok()
                &&& r.unwrap()@ == old(reader)@.subrange(n as int, (n + len) as int)
                &&& final(reader)@ == old(reader)@.skip((n + len) as int)
            },
        },
{
    let ghost s = reader@;
    let keybyte: u8 = reader.byte()?;
    let len: usize = if keybyte < 192 {
        keybyte as usize
    } else if keybyte < 224 {
        let second = reader.byte()?;
        (keybyte as usize - 192) * 256 + second as usize + 192
    } else if keybyte == 255 {
        let v = reader.be_u32()?;
        proof {
            assert(s.drop_first().take(4) =~= s.subrange(1, 5));
        }
        v as usize
    } else {
        // Partial body lengths are deliberately not supported.
        return Err(Error::PartialLength);
    };
    let ghost n: int = s.len() - reader@.len();
    let body = reader.get_bytes(len)?;
    proof {
        assert(body@ =~= s.subrange(n, n + len));
        assert(reader@ =~= s.skip(n + len));
    }
    Ok(body)
}

/// Reads one packet from `reader`: `Ok(Some(packet))` when a packet is read,
/// `Ok(None)` when the reader is empty, and `Err` on malformed or truncated
/// input.
pub fn next<'a>(reader: &mut Reader<'a>) -> (r: Result<Option<Packet<'a>>, Error>)
    requires
        old(reader).wf(),
    ensures
        final(reader).wf(),
        match decode(old(reader)@) {
            Err(e) => r == Err::<Option<Packet<'a>>, Error>(e),
            Ok(None) => r == Ok::<Option<Packet<'a>>, Error>(None) && final(reader)@ == old(reader)@,
            Ok(Some((m, n))) => {
                &&& r.is_ok() && r.unwrap().is_some()
                &&& r.unwrap().unwrap()@ == m
                &&& final(reader)@ == old(reader)@.skip(n as int)
            },
        },
        old(reader)@.len() == 0 <==> r == Ok::<Option<Packet<'a>>, Error>(None),
        old(reader)@.len() > 0 && old(reader)@[0] & 0x80 == 0
            ==> r == Err::<Option<Packet<'a>>, Error>(Error::PacketFirstBitZero),
        old(reader)@.len() > 0 && old(reader)@[0] & 0xC3 == 0x83
            ==> r == Err::<Option<Packet<'a>>, Error>(Error::PartialLength),
        old(reader)@.len() > 1 && old(reader)@[0] & 0xC0 == 0xC0 && 224 <= old(reader)@[1] <= 254
            ==> r == Err::<Option<Packet<'a>>, Error>(Error::PartialLength),
{
    let ghost s = reader@;
    let tagbyte: u8 = match reader.maybe_byte() {
        Some(e) => e,
        None => return Ok(None),
    };
    assert(tagbyte & 0xC3 == 0x83 ==> tagbyte & 0x80 != 0 && tagbyte & 0x40 == 0
        && tagbyte & 3 == 3) by (bit_vector);
    assert(tagbyte & 0xC0 == 0xC0 ==> tagbyte & 0x80 != 0 && tagbyte & 0x40 != 0) by (bit_vector);
    if tagbyte & 0x80 == 0 {
        return Err(Error::PacketFirstBitZero);
    }
    let format = if tagbyte & 0x40 == 0 {
        Format::Old
    } else {
        Format::New
    };
    let packet = match format {
        Format::Old => {
            let code: u8 = tagbyte & 0b11;
            assert(code < 4) by (bit_vector)
                requires
                    code == tagbyte & 0b11,
            ;
            let lenlen: u8 = 1u8 << code;
            assert(code < 4 && (code == 3 <==> lenlen > 4) && (code == 0 ==> lenlen == 1)
                && (code == 1 ==> lenlen == 2) && (code == 2 ==> lenlen == 4)) by (bit_vector)
                requires
                    code == tagbyte & 0b11,
                    lenlen == 1u8 << code,
            ;
            // Indefinite-length packets are deliberately not supported.
            if lenlen > 4 {
                return Err(Error::PartialLength);
            }
            let field = reader.get_bytes(lenlen as usize)?;
            let len = read_be(field) as usize;
            proof {
                assert(field@ =~= s.subrange(1, 1 + lenlen));
            }
            let buffer = reader.get_bytes(len)?;
            proof {
                assert(buffer@ =~= s.subrange(1 + lenlen, 1 + lenlen + len));
                assert(reader@ =~= s.skip(1 + lenlen + len));
            }
            Packet { tag: (tagbyte >> 2) & 0xF, buffer }
        },
        Format::New => {
            let buffer = get_varlen_bytes(reader)?;
            proof {
                if let Ok((n, len)) = varlen_header(s.drop_first()) {
                    assert(buffer@ =~= s.subrange(1 + n as int, 1 + n + len as int));
                    assert(reader@ =~= s.skip(1 + n + len as int));
                }
            }
            Packet { tag: tagbyte & 0x3F, buffer }
        },
    };
    if packet.tag != 0 {
        Ok(Some(packet))
    } else {
        Err(Error::BadTag)
    }
}

impl<'a> Packet<'a> {
    /// A packet with the given tag and body.
    pub fn new(tag: u8, buffer: &'a [u8]) -> (p: Self)
        ensures
            p@ == (PacketModel { tag, contents: buffer@ }),
    {
        Packet { tag, buffer }
    }

    /// The packet's tag: its low six bits, never zero for a decoded packet.
    pub fn tag(&self) -> (t: u8)
        ensures
            t == self@.tag & 0x3F,
    {
        self.tag & 0x3F
    }

    /// The packet's body, borrowed from the input it was read from.
    pub fn contents(&self) -> (c: &'a [u8])
        ensures
            c@ == self@.contents,
    {
        self.buffer
    }

    /// The packet in canonical new-format framing: the tag byte, the
    /// shortest length field, then the body.
    pub fn serialize(&self) -> (v: Vec<u8>)
        requires
            self@.contents.len() <= u32::MAX,
        ensures
            v@ == encode(self@.tag, self@.contents),
    {
        let len = self.buffer.len();
        let tag_byte = self.tag | 0b1100_0000u8;
        let mut v: Vec<u8> = Vec::with_capacity(len.saturating_add(6));
        v.push(tag_byte);
        if len < 192 {
            v.push(len as u8);
        } else if len < 8384 {
            let rest = len - 192;
            v.push((rest / 256) as u8 + 192);
            v.push((rest % 256) as u8);
        } else {
            let l1 = len / 256;
            let l2 = l1 / 256;
            let l3 = l2 / 256;
            v.push(0xFF);
            v.push((l3 % 256) as u8);
            v.push((l2 % 256) as u8);
            v.push((l1 % 256) as u8);
            v.push((len % 256) as u8);
            proof {
                reveal_with_fuel(be_bytes, 5);
            }
        }
        let ghost header = v@;
        assert(header =~= seq![tag_byte] + varlen_field(len as nat));
        v.extend_from_slice(self.buffer);
        assert(v@ =~= header + self.buffer@);
        v
    }
}

} // verus!
