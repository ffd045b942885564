use fc_blackbox::frame::{
    sign_extend, sign_extend_14bit, sign_extend_word, take_le_signed, take_varint,
    zigzag_decode, Fault, Field, FieldEncoding, RawFieldEncoding,
};

fn values(field: Field) -> Vec<i64> {
    match field {
        Field::Unsigned(v) => vec![v as i64],
        Field::Signed(v) => vec![v as i64],
        Field::SignedTriple(a) => a.iter().map(|v| *v as i64).collect(),
        Field::SignedQuadruple(a) => a.iter().map(|v| *v as i64).collect(),
        Field::SignedOctuple(a, n) => a[..n].iter().map(|v| *v as i64).collect(),
    }
}

fn decode(encoding: FieldEncoding, bytes: &[u8]) -> Result<(usize, Vec<i64>), Fault> {
    encoding.parse(bytes, 0).map(|(next, field)| (next, values(field)))
}

#[test]
fn varint_of_one_byte() {
    assert_eq!(take_varint(&[0x00], 0), Ok((1, 0)));
    assert_eq!(take_varint(&[0x7f, 0xaa], 0), Ok((1, 127)));
}

#[test]
fn varint_of_several_bytes() {
    assert_eq!(take_varint(&[0x80, 0x01], 0), Ok((2, 128)));
    assert_eq!(take_varint(&[0xac, 0x02], 0), Ok((2, 300)));
    assert_eq!(take_varint(&[0xff, 0xff, 0x03], 0), Ok((3, 65535)));
}

#[test]
fn varint_starts_at_the_position() {
    assert_eq!(take_varint(&[0xff, 0xac, 0x02, 0x09], 1), Ok((3, 300)));
}

#[test]
fn varint_of_five_bytes_is_accepted() {
    assert_eq!(take_varint(&[0xff, 0xff, 0xff, 0xff, 0x0f], 0), Ok((5, u32::MAX)));
    assert_eq!(take_varint(&[0x80, 0x80, 0x80, 0x80, 0x01], 0), Ok((5, 1 << 28)));
}

#[test]
fn varint_of_five_bytes_is_cut_to_32_bits() {
    assert_eq!(take_varint(&[0x80, 0x80, 0x80, 0x80, 0x7f], 0), Ok((5, 0xf000_0000)));
}

#[test]
fn varint_of_six_bytes_is_rejected() {
    assert_eq!(take_varint(&[0x80, 0x80, 0x80, 0x80, 0x80, 0x00], 0), Err(Fault::Fatal));
    assert_eq!(take_varint(&[0xff, 0xff, 0xff, 0xff, 0xff], 0), Err(Fault::Fatal));
}

#[test]
fn varint_cut_short_is_incomplete() {
    assert_eq!(take_varint(&[], 0), Err(Fault::Incomplete));
    assert_eq!(take_varint(&[0x80], 0), Err(Fault::Incomplete));
    assert_eq!(take_varint(&[0x80, 0x80, 0x80, 0x80], 0), Err(Fault::Incomplete));
    assert_eq!(take_varint(&[0x01], 5), Err(Fault::Incomplete));
}

fn varint_encode(mut n: u32) -> Vec<u8> {
    let mut out = Vec::new();
    while n >= 128 {
        out.push((n % 128) as u8 | 0x80);
        n /= 128;
    }
    out.push(n as u8);
    out
}

#[test]
fn varint_round_trip() {
    for n in [0u32, 1, 127, 128, 16383, 16384, 2097151, 2097152, 268435455, 268435456, u32::MAX] {
        let code = varint_encode(n);
        assert_eq!(take_varint(&code, 0), Ok((code.len(), n)));
    }
}

#[test]
fn zigzag_values() {
    assert_eq!(zigzag_decode(0), 0);
    assert_eq!(zigzag_decode(1), -1);
    assert_eq!(zigzag_decode(2), 1);
    assert_eq!(zigzag_decode(3), -2);
    assert_eq!(zigzag_decode(6), 3);
    assert_eq!(zigzag_decode(u32::MAX), i32::MIN);
    assert_eq!(zigzag_decode(u32::MAX - 1), i32::MAX);
}

#[test]
fn zigzag_round_trip() {
    for v in [0i32, 1, -1, 2, -2, 1000, -1000, i32::MAX, i32::MIN] {
        let code = ((v << 1) ^ (v >> 31)) as u32;
        assert_eq!(zigzag_decode(code), v);
    }
}

#[test]
fn sign_extension_of_small_widths() {
    assert_eq!(sign_extend(0b11, 2), -1);
    assert_eq!(sign_extend(0b10, 2), -2);
    assert_eq!(sign_extend(0b01, 2), 1);
    assert_eq!(sign_extend(0b00, 2), 0);
    assert_eq!(sign_extend(0xf, 4), -1);
    assert_eq!(sign_extend(0x7, 4), 7);
    assert_eq!(sign_extend(0x20, 6), -32);
}

#[test]
fn sign_extension_looks_at_the_low_bits_only() {
    assert_eq!(sign_extend(0xf7, 4), 7);
    assert_eq!(sign_extend(-1, 4), -1);
    assert_eq!(sign_extend(0x1234_5680, 8), -128);
}

#[test]
fn sign_extension_of_whole_words() {
    assert_eq!(sign_extend_word(0xffff_ffff, 32), -1);
    assert_eq!(sign_extend_word(0x7fff_ffff, 32), i32::MAX);
    assert_eq!(sign_extend_word(0x8000, 16), -32768);
    assert_eq!(sign_extend_word(0x1, 1), -1);
}

#[test]
fn sign_extension_from_14_bits() {
    assert_eq!(sign_extend_14bit(0), 0);
    assert_eq!(sign_extend_14bit(0x1fff), 8191);
    assert_eq!(sign_extend_14bit(0x2000), -8192);
    assert_eq!(sign_extend_14bit(0x3fff), -1);
    assert_eq!(sign_extend_14bit(0xc001), 1);
}

#[test]
fn little_endian_integers() {
    assert_eq!(take_le_signed(&[0xff], 0, 1), Ok((1, -1)));
    assert_eq!(take_le_signed(&[0x00, 0x80], 0, 2), Ok((2, -32768)));
    assert_eq!(take_le_signed(&[0xff, 0xff, 0x7f], 0, 3), Ok((3, 8388607)));
    assert_eq!(take_le_signed(&[0x00, 0x00, 0x80], 0, 3), Ok((3, -8388608)));
    assert_eq!(take_le_signed(&[0x78, 0x56, 0x34, 0x12], 0, 4), Ok((4, 0x12345678)));
    assert_eq!(take_le_signed(&[0x78, 0x56, 0x34], 0, 4), Err(Fault::Incomplete));
}

#[test]
fn null_reads_nothing() {
    assert_eq!(decode(FieldEncoding::Null, &[]), Ok((0, vec![0])));
    assert_eq!(decode(FieldEncoding::Null, &[0x55]), Ok((0, vec![0])));
}

#[test]
fn unsigned_vb() {
    assert_eq!(decode(FieldEncoding::UnsignedVB, &[0xac, 0x02]), Ok((2, vec![300])));
    assert_eq!(
        decode(FieldEncoding::UnsignedVB, &[0xff, 0xff, 0xff, 0xff, 0x0f]),
        Ok((5, vec![4294967295]))
    );
}

#[test]
fn signed_vb() {
    assert_eq!(decode(FieldEncoding::SignedVB, &[0x06]), Ok((1, vec![3])));
    assert_eq!(decode(FieldEncoding::SignedVB, &[0x01]), Ok((1, vec![-1])));
}

#[test]
fn negative_14_bit_vb_of_zero_is_zero() {
    assert_eq!(decode(FieldEncoding::Negative14BitVB, &[0x00]), Ok((1, vec![0])));
}

#[test]
fn negative_14_bit_vb() {
    assert_eq!(decode(FieldEncoding::Negative14BitVB, &[0x05]), Ok((1, vec![-5])));
    // 0x3fff is -1 in 14 bits, and is negated
    assert_eq!(decode(FieldEncoding::Negative14BitVB, &[0xff, 0x7f]), Ok((2, vec![1])));
    // 0x2000 is -8192 in 14 bits
    assert_eq!(decode(FieldEncoding::Negative14BitVB, &[0x80, 0x40]), Ok((2, vec![8192])));
    // bits above the 14th do not count
    assert_eq!(decode(FieldEncoding::Negative14BitVB, &[0x85, 0x80, 0x01]), Ok((3, vec![-5])));
}

#[test]
fn tag2_3s32_two_bit_values() {
    assert_eq!(decode(FieldEncoding::Tag2_3S32(3), &[0b0011_0110]), Ok((1, vec![-1, 1, -2])));
    assert_eq!(decode(FieldEncoding::Tag2_3S32(3), &[0x00]), Ok((1, vec![0, 0, 0])));
}

#[test]
fn tag2_3s32_four_bit_values() {
    assert_eq!(decode(FieldEncoding::Tag2_3S32(3), &[0x4f, 0x78]), Ok((2, vec![-1, 7, -8])));
    assert_eq!(decode(FieldEncoding::Tag2_3S32(3), &[0x4f]), Err(Fault::Incomplete));
}

#[test]
fn tag2_3s32_six_bit_values() {
    assert_eq!(
        decode(FieldEncoding::Tag2_3S32(3), &[0x80, 0x3f, 0x1f, 0x20]),
        Ok((4, vec![-1, 31, -32]))
    );
    assert_eq!(decode(FieldEncoding::Tag2_3S32(3), &[0x80, 0x3f, 0x1f]), Err(Fault::Incomplete));
}

#[test]
fn tag2_3s32_values_of_24_16_and_32_bits() {
    let bytes = [0xf6, 0xff, 0xff, 0xff, 0x00, 0x80, 0x78, 0x56, 0x34, 0x12];
    assert_eq!(
        decode(FieldEncoding::Tag2_3S32(3), &bytes),
        Ok((10, vec![-1, -32768, 0x12345678]))
    );
}

#[test]
fn tag2_3s32_lead_byte_c6_selects_24_16_and_8_bits() {
    let bytes = [0xc6, 0x01, 0x00, 0x80, 0xfe, 0xff, 0x85, 0x77];
    assert_eq!(
        decode(FieldEncoding::Tag2_3S32(3), &bytes),
        Ok((7, vec![-8388607, -2, -123]))
    );
}

#[test]
fn tag2_3s32_cut_short() {
    assert_eq!(decode(FieldEncoding::Tag2_3S32(3), &[]), Err(Fault::Incomplete));
    assert_eq!(
        decode(FieldEncoding::Tag2_3S32(3), &[0xf6, 0xff, 0xff, 0xff, 0x00]),
        Err(Fault::Incomplete)
    );
}

#[test]
fn tag8_4s16_all_zero_selectors() {
    assert_eq!(decode(FieldEncoding::Tag8_4S16(4), &[0x00]), Ok((1, vec![0, 0, 0, 0])));
    assert_eq!(decode(FieldEncoding::Tag8_4S16(4), &[0x00, 0xff]), Ok((1, vec![0, 0, 0, 0])));
}

#[test]
fn tag8_4s16_mixed_widths() {
    // selectors, lowest bits first: 0, 1, 2 and 4 nibbles
    let bytes = [0b1110_0100, 0xf8, 0x07, 0xff, 0xf0];
    assert_eq!(decode(FieldEncoding::Tag8_4S16(4), &bytes), Ok((5, vec![0, -1, -128, 32767])));
}

#[test]
fn tag8_4s16_four_words() {
    let bytes = [0xff, 0x80, 0x00, 0xff, 0xff, 0x00, 0x01, 0x12, 0x34];
    assert_eq!(
        decode(FieldEncoding::Tag8_4S16(4), &bytes),
        Ok((9, vec![-32768, -1, 1, 0x1234]))
    );
}

#[test]
fn tag8_4s16_cut_short() {
    assert_eq!(decode(FieldEncoding::Tag8_4S16(4), &[]), Err(Fault::Incomplete));
    assert_eq!(decode(FieldEncoding::Tag8_4S16(4), &[0xff, 0x80, 0x00]), Err(Fault::Incomplete));
}

#[test]
fn tag8_8svb_of_one_field_has_no_selector() {
    assert_eq!(decode(FieldEncoding::Tag8_8SVB(1), &[0x06]), Ok((1, vec![3])));
}

#[test]
fn tag8_8svb_reads_the_selected_fields() {
    assert_eq!(
        decode(FieldEncoding::Tag8_8SVB(4), &[0b0000_0101, 0x06, 0x01]),
        Ok((3, vec![3, 0, -1, 0]))
    );
    assert_eq!(decode(FieldEncoding::Tag8_8SVB(3), &[0x00]), Ok((1, vec![0, 0, 0])));
}

#[test]
fn tag8_8svb_of_eight_fields() {
    let bytes = [0xff, 0x02, 0x04, 0x06, 0x08, 0x0a, 0x0c, 0x0e, 0x10];
    assert_eq!(
        decode(FieldEncoding::Tag8_8SVB(8), &bytes),
        Ok((9, vec![1, 2, 3, 4, 5, 6, 7, 8]))
    );
}

#[test]
fn tag8_8svb_passes_over_selector_bits_beyond_its_fields() {
    assert_eq!(decode(FieldEncoding::Tag8_8SVB(2), &[0xfe, 0x06]), Ok((2, vec![0, 3])));
}

#[test]
fn tag8_8svb_faults() {
    assert_eq!(decode(FieldEncoding::Tag8_8SVB(2), &[]), Err(Fault::Incomplete));
    assert_eq!(decode(FieldEncoding::Tag8_8SVB(2), &[0x03, 0x06]), Err(Fault::Incomplete));
    assert_eq!(
        decode(FieldEncoding::Tag8_8SVB(2), &[0x01, 0x80, 0x80, 0x80, 0x80, 0x80]),
        Err(Fault::Fatal)
    );
}

#[test]
fn tag2_3svariable_is_fatal() {
    assert_eq!(decode(FieldEncoding::Tag2_3SVariable(3), &[0x00, 0x00]), Err(Fault::Fatal));
}

#[test]
fn defaults_are_null() {
    assert_eq!(FieldEncoding::default(), FieldEncoding::Null);
    assert_eq!(RawFieldEncoding::default(), RawFieldEncoding::Null);
}

fn octuple(encoding: FieldEncoding, bytes: &[u8]) -> (usize, [i32; 8], usize) {
    match encoding.parse(bytes, 0) {
        Ok((next, Field::SignedOctuple(slots, n))) => (next, slots, n),
        other => panic!("no octuple: {:?}", other),
    }
}

#[test]
fn tag8_8svb_leaves_the_slots_beyond_its_fields_zero() {
    assert_eq!(
        octuple(FieldEncoding::Tag8_8SVB(1), &[0x01, 0x04]),
        (1, [-1, 0, 0, 0, 0, 0, 0, 0], 1)
    );
    assert_eq!(
        octuple(FieldEncoding::Tag8_8SVB(3), &[0x05, 0x02, 0x03]),
        (3, [1, 0, -2, 0, 0, 0, 0, 0], 3)
    );
    assert_eq!(
        octuple(FieldEncoding::Tag8_8SVB(2), &[0xff, 0x02, 0x04, 0x06]),
        (3, [1, 2, 0, 0, 0, 0, 0, 0], 2)
    );
}
