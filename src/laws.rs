//! Properties of the framing: decoding undoes encoding, in both header
//! formats, and every truncated frame is reported as truncated.

use vstd::prelude::*;

use crate::error::Error;
use crate::wire::{
    be_bytes, be_value, decode, encode, old_encode, old_length_size, packet_header, pow256,
    varlen_field, varlen_header, PacketModel,
};

verus! {

/// Spelling a value in `n` big-endian bytes and reading them back gives the
/// value, when it fits.
pub proof fn lemma_be_bytes_value(v: nat, n: nat)
    requires
        v < pow256(n),
    ensures
        be_bytes(v, n).len() == n,
        be_value(be_bytes(v, n)) == v,
    decreases n,
{
    if n > 0 {
        let m = (n - 1) as nat;
        assert(v / 256 < pow256(m)) by (nonlinear_arith)
            requires
                v < 256 * pow256(m),
        ;
        lemma_be_bytes_value(v / 256, m);
        let s = be_bytes(v, n);
        assert(s.drop_last() =~= be_bytes(v / 256, m));
        assert(v == (v / 256) * 256 + v % 256) by (nonlinear_arith);
    }
}

proof fn lemma_pow256_4()
    ensures
        pow256(4) == 0x1_0000_0000,
{
    reveal_with_fuel(pow256, 5);
}

/// A canonical length field, followed by anything, reads back as itself.
proof fn lemma_varlen_field_reads(len: nat, t: Seq<u8>)
    requires
        len <= u32::MAX,
        t.len() >= varlen_field(len).len(),
        t.take(varlen_field(len).len() as int) == varlen_field(len),
    ensures
        varlen_header(t) == Ok::<(nat, nat), Error>((varlen_field(len).len(), len)),
{
    let f = varlen_field(len);
    assert(t[0] == f[0]);
    if len < 192 {
    } else if len < 8384 {
        assert(t[1] == f[1]);
        let r = (len - 192) as nat;
        assert(r / 256 < 32 && r == (r / 256) * 256 + r % 256) by (nonlinear_arith)
            requires
                r < 8192,
        ;
    } else {
        lemma_pow256_4();
        lemma_be_bytes_value(len, 4);
        assert(t.subrange(1, 5) =~= f.subrange(1, 5));
        assert(f.subrange(1, 5) =~= be_bytes(len, 4));
    }
}

/// A strict, non-empty prefix of a canonical length field reads as truncated.
proof fn lemma_varlen_field_short(len: nat, t: Seq<u8>)
    requires
        len <= u32::MAX,
        t.len() < varlen_field(len).len(),
        t == varlen_field(len).take(t.len() as int),
    ensures
        varlen_header(t) == Err::<(nat, nat), Error>(Error::PrematureEOF),
{
    if t.len() > 0 {
        let r = (len - 192) as nat;
        assert(t[0] == varlen_field(len)[0]);
        if len >= 8384 {
            lemma_pow256_4();
            lemma_be_bytes_value(len, 4);
        } else if 192 <= len {
            assert(r / 256 < 32) by (nonlinear_arith)
                requires
                    r < 8192,
            ;
        }
    }
}

/// The header of a new-format frame reads back with its tag's low six bits.
proof fn lemma_new_header(tag: u8, contents: Seq<u8>, rest: Seq<u8>)
    requires
        contents.len() <= u32::MAX,
    ensures
        packet_header(encode(tag, contents) + rest) == Ok::<Option<(u8, nat, nat)>, Error>(
            Some((tag & 0x3F, 1 + varlen_field(contents.len()).len(), contents.len())),
        ),
{
    let s = encode(tag, contents) + rest;
    let f = varlen_field(contents.len());
    let b = tag | 0xC0;
    assert(b & 0x80 != 0 && b & 0x40 != 0 && b & 0x3F == tag & 0x3F) by (bit_vector)
        requires
            b == tag | 0xC0,
    ;
    assert(s.drop_first().take(f.len() as int) =~= f);
    lemma_varlen_field_reads(contents.len(), s.drop_first());
}

/// The header of an old-format frame reads back with its tag.
proof fn lemma_old_header(tag: u8, code: u8, contents: Seq<u8>, rest: Seq<u8>)
    requires
        tag <= 15,
        code <= 2,
        contents.len() < pow256(old_length_size(code)),
    ensures
        packet_header(old_encode(tag, code, contents) + rest) == Ok::<
            Option<(u8, nat, nat)>,
            Error,
        >(Some((tag, 1 + old_length_size(code), contents.len()))),
        old_encode(tag, code, contents).len() == 1 + old_length_size(code) + contents.len(),
{
    let s = old_encode(tag, code, contents) + rest;
    let n = old_length_size(code);
    let b = (0x80 | (tag << 2) | code) as u8;
    assert(b & 0x80 != 0 && b & 0x40 == 0 && b & 3 == code && (b >> 2) & 0xF == tag)
        by (bit_vector)
        requires
            b == (0x80 | (tag << 2) | code) as u8,
            tag <= 15,
            code <= 2,
    ;
    lemma_be_bytes_value(contents.len(), n);
    assert(s.subrange(1, 1 + n as int) =~= be_bytes(contents.len(), n));
}

/// Decoding the canonical encoding of a packet with a tag in `1..=63` gives
/// that packet back and consumes exactly the encoding, whatever follows it.
pub proof fn lemma_decode_encode(tag: u8, contents: Seq<u8>, rest: Seq<u8>)
    requires
        1 <= tag <= 63,
        contents.len() <= u32::MAX,
    ensures
        decode(encode(tag, contents) + rest) == Ok::<Option<(PacketModel, nat)>, Error>(
            Some((PacketModel { tag, contents }, encode(tag, contents).len())),
        ),
{
    let e = encode(tag, contents);
    let s = e + rest;
    lemma_new_header(tag, contents, rest);
    assert(tag & 0x3F == tag) by (bit_vector)
        requires
            tag <= 63,
    ;
    let h = 1 + varlen_field(contents.len()).len();
    assert(s.subrange(h as int, (h + contents.len()) as int) =~= contents);
}

/// Every non-empty strict prefix of a new-format frame reads as truncated.
pub proof fn lemma_encode_truncated(tag: u8, contents: Seq<u8>, k: int)
    requires
        contents.len() <= u32::MAX,
        1 <= k < encode(tag, contents).len(),
    ensures
        decode(encode(tag, contents).take(k)) == Err::<Option<(PacketModel, nat)>, Error>(
            Error::PrematureEOF,
        ),
{
    let e = encode(tag, contents);
    let s = e.take(k);
    let f = varlen_field(contents.len());
    let b = tag | 0xC0;
    assert(b & 0x80 != 0 && b & 0x40 != 0) by (bit_vector)
        requires
            b == tag | 0xC0,
    ;
    if k < 1 + f.len() {
        assert(s.drop_first() =~= f.take(k - 1));
        lemma_varlen_field_short(contents.len(), s.drop_first());
    } else {
        assert(s.drop_first().take(f.len() as int) =~= f);
        lemma_varlen_field_reads(contents.len(), s.drop_first());
    }
}

/// Decoding an old-format frame with a tag in `1..=15` and a 1-, 2- or
/// 4-byte length field that holds the body length gives the packet back and
/// consumes exactly the frame, whatever follows it.
pub proof fn lemma_decode_old_encode(tag: u8, code: u8, contents: Seq<u8>, rest: Seq<u8>)
    requires
        1 <= tag <= 15,
        code <= 2,
        contents.len() < pow256(old_length_size(code)),
    ensures
        decode(old_encode(tag, code, contents) + rest) == Ok::<
            Option<(PacketModel, nat)>,
            Error,
        >(Some((PacketModel { tag, contents }, old_encode(tag, code, contents).len()))),
{
    let s = old_encode(tag, code, contents) + rest;
    let h = 1 + old_length_size(code);
    lemma_old_header(tag, code, contents, rest);
    assert(s.subrange(h as int, (h + contents.len()) as int) =~= contents);
}

/// Every non-empty strict prefix of an old-format frame reads as truncated.
pub proof fn lemma_old_encode_truncated(tag: u8, code: u8, contents: Seq<u8>, k: int)
    requires
        tag <= 15,
        code <= 2,
        contents.len() < pow256(old_length_size(code)),
        1 <= k < old_encode(tag, code, contents).len(),
    ensures
        decode(old_encode(tag, code, contents).take(k)) == Err::<
            Option<(PacketModel, nat)>,
            Error,
        >(Error::PrematureEOF),
{
    let e = old_encode(tag, code, contents);
    let s = e.take(k);
    let n = old_length_size(code);
    let b = (0x80 | (tag << 2) | code) as u8;
    assert(b & 0x80 != 0 && b & 0x40 == 0 && b & 3 == code) by (bit_vector)
        requires
            b == (0x80 | (tag << 2) | code) as u8,
            tag <= 15,
            code <= 2,
    ;
    lemma_be_bytes_value(contents.len(), n);
    if k >= 1 + n {
        assert(s.subrange(1, 1 + n as int) =~= be_bytes(contents.len(), n));
    }
}

/// A complete frame whose tag is zero is rejected as a bad tag, in the new
/// format and in the old one.
pub proof fn lemma_zero_tag_rejected(code: u8, contents: Seq<u8>)
    requires
        code <= 2,
        contents.len() < pow256(old_length_size(code)),
        contents.len() <= u32::MAX,
    ensures
        decode(encode(0, contents)) == Err::<Option<(PacketModel, nat)>, Error>(Error::BadTag),
        decode(old_encode(0, code, contents)) == Err::<Option<(PacketModel, nat)>, Error>(
            Error::BadTag,
        ),
{
    let e = encode(0, contents);
    let o = old_encode(0, code, contents);
    assert(e + Seq::<u8>::empty() =~= e);
    assert(o + Seq::<u8>::empty() =~= o);
    lemma_new_header(0, contents, Seq::empty());
    lemma_old_header(0, code, contents, Seq::empty());
    assert(0u8 & 0x3F == 0) by (bit_vector);
}

} // verus!
