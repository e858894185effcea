use openpgp_parser::wire::read_be;
use openpgp_parser::{next, Error, Packet, Reader};

fn decode_one(bytes: &[u8]) -> Result<Option<(u8, Vec<u8>, usize)>, Error> {
    let mut reader = Reader::new(bytes);
    let packet = next(&mut reader)?;
    Ok(packet.map(|p| (p.tag(), p.contents().to_vec(), reader.len())))
}

#[test]
fn new_format_empty_body_round_trip() {
    assert_eq!(decode_one(&[0xCF, 0x00]), Ok(Some((15, vec![], 0))));
    assert_eq!(Packet::new(15, &[]).serialize(), vec![0xCF, 0x00]);
}

#[test]
fn new_format_one_byte_body() {
    assert_eq!(decode_one(&[0xC7, 0x01, 0x61]), Ok(Some((7, vec![0x61], 0))));
}

#[test]
fn old_format_two_byte_length() {
    let bytes = [0x91, 0x00, 0x05, 1, 2, 3, 4, 5];
    assert_eq!(decode_one(&bytes), Ok(Some((4, vec![1, 2, 3, 4, 5], 0))));
}

#[test]
fn old_format_length_field_missing() {
    assert_eq!(decode_one(&[0x91]), Err(Error::PrematureEOF));
}

#[test]
fn old_format_one_byte_length_selector() {
    let bytes = [0x90, 0x02, 0xAA, 0xBB, 0xCC];
    assert_eq!(decode_one(&bytes), Ok(Some((4, vec![0xAA, 0xBB], 1))));
}

#[test]
fn old_format_four_byte_length() {
    let bytes = [0x8A, 0x00, 0x00, 0x00, 0x03, 9, 8, 7];
    assert_eq!(decode_one(&bytes), Ok(Some((2, vec![9, 8, 7], 0))));
}

#[test]
fn empty_reader_is_end_of_stream() {
    assert_eq!(decode_one(&[]), Ok(None));
}

#[test]
fn first_bit_zero_rejected() {
    assert_eq!(decode_one(&[0x4F, 0x00]), Err(Error::PacketFirstBitZero));
    assert_eq!(decode_one(&[0x00]), Err(Error::PacketFirstBitZero));
    assert_eq!(decode_one(&[0x7F, 0x01, 0x61]), Err(Error::PacketFirstBitZero));
}

#[test]
fn zero_tag_rejected_in_both_formats() {
    assert_eq!(decode_one(&[0xC0, 0x00]), Err(Error::BadTag));
    assert_eq!(decode_one(&[0x80, 0x01, 0x61]), Err(Error::BadTag));
    assert_eq!(decode_one(&[0x82, 0, 0, 0, 0]), Err(Error::BadTag));
}

#[test]
fn zero_tag_with_truncated_body_is_truncation() {
    assert_eq!(decode_one(&[0xC0, 0x02, 0x61]), Err(Error::PrematureEOF));
}

#[test]
fn indefinite_length_unsupported() {
    assert_eq!(decode_one(&[0x83]), Err(Error::PartialLength));
    assert_eq!(decode_one(&[0xBF, 0, 0, 0, 0, 0, 0, 0, 0]), Err(Error::PartialLength));
}

#[test]
fn partial_body_length_unsupported() {
    for keybyte in 224u8..=254 {
        assert_eq!(decode_one(&[0xC1, keybyte, 0, 0]), Err(Error::PartialLength));
        assert_eq!(decode_one(&[0xC1, keybyte]), Err(Error::PartialLength));
    }
}

#[test]
fn new_format_length_boundaries() {
    let body = vec![0x5Au8; 8384];
    for &len in &[0usize, 191, 192, 8383, 8384] {
        let encoded = Packet::new(3, &body[..len]).serialize();
        let header = if len < 192 { 2 } else if len < 8384 { 3 } else { 6 };
        assert_eq!(encoded.len(), header + len);
        assert_eq!(decode_one(&encoded), Ok(Some((3, body[..len].to_vec(), 0))));
        for k in 1..encoded.len() {
            assert_eq!(decode_one(&encoded[..k]), Err(Error::PrematureEOF));
        }
    }
}

#[test]
fn exact_length_fields() {
    assert_eq!(Packet::new(1, &[0u8; 191]).serialize()[..2], [0xC1, 191]);
    assert_eq!(Packet::new(1, &[0u8; 192]).serialize()[..3], [0xC1, 192, 0]);
    assert_eq!(Packet::new(1, &[0u8; 1000]).serialize()[..3], [0xC1, 195, 40]);
    assert_eq!(Packet::new(1, &[0u8; 8383]).serialize()[..3], [0xC1, 223, 255]);
    assert_eq!(Packet::new(1, &[0u8; 8384]).serialize()[..6], [0xC1, 0xFF, 0, 0, 0x20, 0xC0]);
    assert_eq!(
        Packet::new(1, &vec![0u8; 0x0102_0304]).serialize()[..6],
        [0xC1, 0xFF, 0x01, 0x02, 0x03, 0x04]
    );
}

#[test]
fn two_byte_and_five_byte_length_decoding() {
    let mut bytes = vec![0xC2, 195, 40];
    bytes.extend(vec![7u8; 1000]);
    assert_eq!(decode_one(&bytes), Ok(Some((2, vec![7u8; 1000], 0))));
    let mut bytes = vec![0xC2, 0xFF, 0, 0, 0, 2, 1, 2, 3];
    assert_eq!(decode_one(&bytes), Ok(Some((2, vec![1, 2], 1))));
    bytes.truncate(4);
    assert_eq!(decode_one(&bytes), Err(Error::PrematureEOF));
}

#[test]
fn serialize_keeps_tag_and_body_and_round_trips() {
    let body = [1u8, 2, 3];
    let encoded = Packet::new(63, &body).serialize();
    assert_eq!(encoded, vec![0xFF, 3, 1, 2, 3]);
    assert_eq!(decode_one(&encoded), Ok(Some((63, body.to_vec(), 0))));
}

#[test]
fn old_format_decodes_and_reencodes_in_new_format() {
    let bytes = [0x88, 0x02, 0xDE, 0xAD];
    let mut reader = Reader::new(&bytes);
    let packet = next(&mut reader).unwrap().unwrap();
    assert_eq!(packet.serialize(), vec![0xC2, 0x02, 0xDE, 0xAD]);
}

#[test]
fn consecutive_packets() {
    let bytes = [0xC1, 0x01, 0xAA, 0x88, 0x00, 0xCE, 0x02, 0xBB, 0xCC];
    let mut reader = Reader::new(&bytes);
    let first = next(&mut reader).unwrap().unwrap();
    assert_eq!((first.tag(), first.contents()), (1, &[0xAA][..]));
    let second = next(&mut reader).unwrap().unwrap();
    assert_eq!((second.tag(), second.contents()), (2, &[][..]));
    let third = next(&mut reader).unwrap().unwrap();
    assert_eq!((third.tag(), third.contents()), (14, &[0xBB, 0xCC][..]));
    assert!(next(&mut reader).unwrap().is_none());
}

#[test]
fn tag_accessor_masks_to_six_bits() {
    assert_eq!(Packet::new(0x4F, &[]).tag(), 15);
    assert_eq!(Packet::new(0xFF, &[]).tag(), 63);
}

#[test]
fn reader_operations() {
    let bytes = [1u8, 2, 3, 4, 5, 6];
    let mut reader = Reader::new(&bytes);
    assert_eq!(reader.maybe_byte(), Some(1));
    assert_eq!(reader.byte(), Ok(2));
    assert_eq!(reader.len(), 4);
    assert_eq!(reader.get_bytes(5), Err(Error::PrematureEOF));
    assert_eq!(reader.be_u32(), Ok(0x0304_0506));
    assert_eq!(reader.len(), 0);
    assert_eq!(reader.maybe_byte(), None);
    assert_eq!(reader.byte(), Err(Error::PrematureEOF));
    assert_eq!(reader.be_u32(), Err(Error::PrematureEOF));
    assert_eq!(reader.get_bytes(0), Ok(&[][..]));
}

#[test]
fn big_endian_values() {
    assert_eq!(read_be(&[]), 0);
    assert_eq!(read_be(&[0x12]), 0x12);
    assert_eq!(read_be(&[0x12, 0x34]), 0x1234);
    assert_eq!(read_be(&[0xFF, 0xFF, 0xFF, 0xFF]), u32::MAX);
}
