use fc_blackbox::frame::header::{parse_header, Frame, RecordClass};
use fc_blackbox::frame::text::{
    bool_from_dec, bool_list, encoding_list, field_encoding_from_dec, field_predictor_from_dec,
    find_byte, i16_from_dec, i64_from_dec, parse_i16_dec, parse_str, parse_str_list,
    parse_u16_dec, parse_u16_ratio_dec, parse_u16_ratio_dec_or_inverse_dec, parse_u32_dec,
    parse_u32_hex, predictor_list, split_items, str_from_bytes, str_list, u16_from_dec,
    u32_from_dec, u32_from_hex,
};
use fc_blackbox::frame::{Fault, FieldEncoding, RawFieldEncoding};
use fc_blackbox::stream::builder::HeaderBuilder;
use fc_blackbox::stream::header::{
    add_encoding, first_ip_field, home_index, last_ip_field, parse_headers, setting,
    setting_first_number, setting_number, str_eq, widths_sum_to, Header, HeaderBuildError,
    IPField, ParseHeadersError,
};
use fc_blackbox::stream::interval::PInterval;
use fc_blackbox::stream::predictor::{
    AnyGPredictor, AnyIPredictor, AnyPPredictor, FieldPredictor,
};

#[test]
fn decimal_numbers() {
    assert_eq!(u16_from_dec(b"0"), Ok(0));
    assert_eq!(u16_from_dec(b"65535"), Ok(65535));
    assert_eq!(u16_from_dec(b"+7"), Ok(7));
    assert_eq!(u16_from_dec(b"007"), Ok(7));
    assert_eq!(u16_from_dec(b"65536"), Err(()));
    assert_eq!(u16_from_dec(b""), Err(()));
    assert_eq!(u16_from_dec(b"+"), Err(()));
    assert_eq!(u16_from_dec(b"-1"), Err(()));
    assert_eq!(u16_from_dec(b"1 "), Err(()));
    assert_eq!(u16_from_dec(b"1a"), Err(()));
    assert_eq!(u32_from_dec(b"4294967295"), Ok(u32::MAX));
    assert_eq!(u32_from_dec(b"4294967296"), Err(()));
    assert_eq!(u32_from_dec(b"99999999999999999999999999"), Err(()));
}

#[test]
fn signed_decimal_numbers() {
    assert_eq!(i16_from_dec(b"32"), Ok(32));
    assert_eq!(i16_from_dec(b"-32768"), Ok(-32768));
    assert_eq!(i16_from_dec(b"+32767"), Ok(32767));
    assert_eq!(i16_from_dec(b"32768"), Err(()));
    assert_eq!(i16_from_dec(b"-32769"), Err(()));
    assert_eq!(i16_from_dec(b"-"), Err(()));
    assert_eq!(i16_from_dec(b"--1"), Err(()));
    assert_eq!(i16_from_dec(b"-+1"), Err(()));
    assert_eq!(i64_from_dec(b"-9223372036854775808"), Ok(i64::MIN));
    assert_eq!(i64_from_dec(b"9223372036854775807"), Ok(i64::MAX));
    assert_eq!(i64_from_dec(b"9223372036854775808"), Err(()));
    assert_eq!(i64_from_dec(b"-9223372036854775809"), Err(()));
}

#[test]
fn hexadecimal_numbers() {
    assert_eq!(u32_from_hex(b"3f800000"), Ok(0x3f800000));
    assert_eq!(u32_from_hex(b"FFffFFff"), Ok(u32::MAX));
    assert_eq!(u32_from_hex(b"100000000"), Err(()));
    assert_eq!(u32_from_hex(b"g"), Err(()));
    assert_eq!(u32_from_hex(b""), Err(()));
}

#[test]
fn text_must_be_utf8() {
    assert_eq!(str_from_bytes(b"gyroADC[0]"), Ok("gyroADC[0]"));
    assert_eq!(str_from_bytes("h\u{e9}".as_bytes()), Ok("h\u{e9}"));
    assert_eq!(str_from_bytes(b""), Ok(""));
    assert_eq!(str_from_bytes(&[0x61, 0xff]), Err(()));
    assert_eq!(str_from_bytes(&[0xc3]), Err(()));
}

#[test]
fn flags_and_codes() {
    assert_eq!(bool_from_dec(b"0"), Ok(false));
    assert_eq!(bool_from_dec(b"1"), Ok(true));
    assert_eq!(bool_from_dec(b"2"), Ok(true));
    assert_eq!(bool_from_dec(b"x"), Err(()));
    assert_eq!(field_encoding_from_dec(b"0"), Ok(RawFieldEncoding::SignedVB));
    assert_eq!(field_encoding_from_dec(b"1"), Ok(RawFieldEncoding::UnsignedVB));
    assert_eq!(field_encoding_from_dec(b"3"), Ok(RawFieldEncoding::Negative14BitVB));
    assert_eq!(field_encoding_from_dec(b"6"), Ok(RawFieldEncoding::Tag8_8SVB));
    assert_eq!(field_encoding_from_dec(b"7"), Ok(RawFieldEncoding::Tag2_3S32));
    assert_eq!(field_encoding_from_dec(b"8"), Ok(RawFieldEncoding::Tag8_4S16));
    assert_eq!(field_encoding_from_dec(b"9"), Ok(RawFieldEncoding::Null));
    assert_eq!(field_encoding_from_dec(b"10"), Ok(RawFieldEncoding::Tag2_3SVariable));
    assert_eq!(field_encoding_from_dec(b"2"), Err(()));
    assert_eq!(field_encoding_from_dec(b"11"), Err(()));
    assert_eq!(field_predictor_from_dec(b"0"), Ok(FieldPredictor::Zero));
    assert_eq!(field_predictor_from_dec(b"1"), Ok(FieldPredictor::Previous));
    assert_eq!(field_predictor_from_dec(b"2"), Ok(FieldPredictor::StraightLine));
    assert_eq!(field_predictor_from_dec(b"3"), Ok(FieldPredictor::Average2));
    assert_eq!(field_predictor_from_dec(b"4"), Ok(FieldPredictor::MinThrottle));
    assert_eq!(field_predictor_from_dec(b"5"), Ok(FieldPredictor::Motor0));
    assert_eq!(field_predictor_from_dec(b"6"), Ok(FieldPredictor::Increment));
    assert_eq!(field_predictor_from_dec(b"7"), Ok(FieldPredictor::HomeCoordinates));
    assert_eq!(field_predictor_from_dec(b"8"), Ok(FieldPredictor::Around1500));
    assert_eq!(field_predictor_from_dec(b"9"), Ok(FieldPredictor::VBatRef));
    assert_eq!(field_predictor_from_dec(b"10"), Ok(FieldPredictor::LastMainFrameTime));
    assert_eq!(field_predictor_from_dec(b"11"), Ok(FieldPredictor::MinMotor));
    assert_eq!(field_predictor_from_dec(b"12"), Err(()));
    assert_eq!(FieldPredictor::default(), FieldPredictor::Zero);
}

#[test]
fn line_values() {
    assert_eq!(find_byte(b"abc\ndef\n", 0, b'\n'), Some(3));
    assert_eq!(find_byte(b"abc\ndef\n", 4, b'\n'), Some(7));
    assert_eq!(find_byte(b"abc", 0, b'\n'), None);
    assert_eq!(find_byte(b"abc", 9, b'c'), None);
    assert_eq!(parse_str(b"k:some text\nrest", 2), Ok((11, "some text")));
    assert_eq!(parse_str(b"k:some text", 2), Err(Fault::Incomplete));
    assert_eq!(parse_str(b"k:\xff\n", 2), Err(Fault::Soft));
    assert_eq!(parse_i16_dec(b"-32\n", 0), Ok((3, -32)));
    assert_eq!(parse_i16_dec(b"x\n", 0), Err(Fault::Soft));
    assert_eq!(parse_i16_dec(b"12", 0), Err(Fault::Incomplete));
    assert_eq!(parse_u16_dec(b"125\n", 0), Ok((3, 125)));
    assert_eq!(parse_u32_dec(b"70000\n", 0), Ok((5, 70000)));
    assert_eq!(parse_u32_hex(b"0x3f800000\n", 0), Ok((10, 0x3f800000)));
    assert_eq!(parse_u32_hex(b"3f800000\n", 0), Err(Fault::Soft));
    assert_eq!(parse_u32_hex(b"0x\n", 0), Err(Fault::Soft));
    assert_eq!(parse_u32_hex(b"0", 0), Err(Fault::Incomplete));
}

#[test]
fn ratios_are_in_lowest_terms() {
    assert_eq!(PInterval::new(4, 8), Some(PInterval { numer: 1, denom: 2 }));
    assert_eq!(PInterval::new(6, 4), Some(PInterval { numer: 3, denom: 2 }));
    assert_eq!(PInterval::new(0, 5), Some(PInterval { numer: 0, denom: 1 }));
    assert_eq!(PInterval::new(7, 7), Some(PInterval { numer: 1, denom: 1 }));
    assert_eq!(PInterval::new(1, 0), None);
    assert_eq!(PInterval { numer: 3, denom: 2 }.recip(), PInterval { numer: 2, denom: 3 });
}

#[test]
fn interval_lines() {
    assert_eq!(parse_u16_ratio_dec(b"2/4\n", 0), Ok((3, PInterval { numer: 1, denom: 2 })));
    assert_eq!(parse_u16_ratio_dec(b"4\n", 0), Err(Fault::Soft));
    assert_eq!(parse_u16_ratio_dec(b"1/0\n", 0), Err(Fault::Soft));
    assert_eq!(parse_u16_ratio_dec(b"1/2", 0), Err(Fault::Incomplete));
    assert_eq!(
        parse_u16_ratio_dec_or_inverse_dec(b"1/2\n", 0),
        Ok((3, PInterval { numer: 1, denom: 2 }))
    );
    assert_eq!(
        parse_u16_ratio_dec_or_inverse_dec(b"16\n1/2\n", 0),
        Ok((2, PInterval { numer: 1, denom: 16 }))
    );
    assert_eq!(parse_u16_ratio_dec_or_inverse_dec(b"0\n", 0), Err(Fault::Soft));
    assert_eq!(parse_u16_ratio_dec_or_inverse_dec(b"1/x\n", 0), Err(Fault::Soft));
    assert_eq!(parse_u16_ratio_dec_or_inverse_dec(b"/2\n", 0), Err(Fault::Soft));
}

#[test]
fn lists() {
    assert_eq!(split_items(b"a,bc,,d"), vec![(0, 1), (2, 4), (5, 5), (6, 7)]);
    assert_eq!(split_items(b""), vec![(0, 0)]);
    assert_eq!(split_items(b"a,"), vec![(0, 1), (2, 2)]);
    assert_eq!(str_list(b"a,bc,d"), Some(vec!["a".to_string(), "bc".to_string(), "d".to_string()]));
    assert_eq!(str_list(b""), Some(vec![]));
    assert_eq!(str_list(b"a,,d"), None);
    assert_eq!(str_list(b"a,"), None);
    assert_eq!(str_list(b",a"), None);
    assert_eq!(str_list(b"a,\xff"), None);
    assert_eq!(bool_list(b"0,1,1,5"), Some(vec![false, true, true, true]));
    assert_eq!(bool_list(b"0,x"), None);
    assert_eq!(
        encoding_list(b"1,0,7"),
        Some(vec![
            RawFieldEncoding::UnsignedVB,
            RawFieldEncoding::SignedVB,
            RawFieldEncoding::Tag2_3S32
        ])
    );
    assert_eq!(encoding_list(b"1,2"), None);
    assert_eq!(
        predictor_list(b"6,2"),
        Some(vec![FieldPredictor::Increment, FieldPredictor::StraightLine])
    );
    assert_eq!(predictor_list(b"6,12"), None);
    assert_eq!(
        parse_str_list(b"a,b\nc", 0),
        Ok((3, vec!["a".to_string(), "b".to_string()]))
    );
    assert_eq!(parse_str_list(b"a,b", 0), Err(Fault::Incomplete));
    assert_eq!(parse_str_list(b"a,,b\n", 0), Err(Fault::Soft));
}

fn line(input: &[u8]) -> Result<(usize, Frame), Fault> {
    parse_header(input, 0)
}

#[test]
fn header_lines() {
    match line(b"H Product:Blackbox\nI") {
        Ok((19, Frame::Product(v))) => assert_eq!(v, "Blackbox"),
        other => panic!("{:?}", other),
    }
    match line(b"H Data version:2\n") {
        Ok((17, Frame::DataVersion(v))) => assert_eq!(v, "2"),
        other => panic!("{:?}", other),
    }
    assert!(matches!(line(b"H I interval:-4\n"), Ok((16, Frame::IInterval(-4)))));
    assert!(matches!(
        line(b"H P interval:3/6\n"),
        Ok((17, Frame::PInterval(PInterval { numer: 1, denom: 2 })))
    ));
    assert!(matches!(
        line(b"H P interval:8\n"),
        Ok((15, Frame::PInterval(PInterval { numer: 1, denom: 8 })))
    ));
    assert!(matches!(line(b"H P ratio:16\n"), Ok((13, Frame::PRatio(16)))));
    assert!(matches!(
        line(b"H gyro_scale:0x3f800000\n"),
        Ok((24, Frame::GyroScale(0x3f800000)))
    ));
    assert!(matches!(line(b"H looptime:125\n"), Ok((15, Frame::LoopTime(125)))));
    match line(b"H Firmware type:Cleanflight\n") {
        Ok((28, Frame::UnknownHeader(k, v))) => {
            assert_eq!(k, "Firmware type");
            assert_eq!(v, "Cleanflight");
        }
        other => panic!("{:?}", other),
    }
}

#[test]
fn header_lines_of_field_lists() {
    match line(b"H Field I name:loopIteration,time\n") {
        Ok((34, Frame::FieldName(RecordClass::Intra, names))) => {
            assert_eq!(names, vec!["loopIteration", "time"])
        }
        other => panic!("{:?}", other),
    }
    match line(b"H Field G signed:0,1\n") {
        Ok((21, Frame::FieldSignedness(RecordClass::Gnss, flags))) => {
            assert_eq!(flags, vec![false, true])
        }
        other => panic!("{:?}", other),
    }
    match line(b"H Field P encoding:9,0\n") {
        Ok((23, Frame::FieldEncoding(RecordClass::Predicted, encodings))) => {
            assert_eq!(encodings, vec![RawFieldEncoding::Null, RawFieldEncoding::SignedVB])
        }
        other => panic!("{:?}", other),
    }
    match line(b"H Field S predictor:0\n") {
        Ok((22, Frame::FieldPredictor(RecordClass::Slow, predictors))) => {
            assert_eq!(predictors, vec![FieldPredictor::Zero])
        }
        other => panic!("{:?}", other),
    }
    match line(b"H Field H name:\n") {
        Ok((16, Frame::FieldName(RecordClass::Home, names))) => assert!(names.is_empty()),
        other => panic!("{:?}", other),
    }
}

#[test]
fn header_line_faults() {
    assert!(matches!(line(b""), Err(Fault::Incomplete)));
    assert!(matches!(line(b"H"), Err(Fault::Incomplete)));
    assert!(matches!(line(b"I\x00"), Err(Fault::Soft)));
    assert!(matches!(line(b"Hx"), Err(Fault::Soft)));
    assert!(matches!(line(b"H Product"), Err(Fault::Incomplete)));
    assert!(matches!(line(b"H Product:Blackbox"), Err(Fault::Incomplete)));
    assert!(matches!(line(b"H P ratio:x\n"), Err(Fault::Soft)));
    assert!(matches!(line(b"H Field I encoding:1,2\n"), Err(Fault::Soft)));
    assert!(matches!(line(b"H \xff:1\n"), Err(Fault::Soft)));
    assert!(matches!(line(b"H key:\xff\n"), Err(Fault::Soft)));
}

fn grouped(raws: &[RawFieldEncoding]) -> Vec<FieldEncoding> {
    let mut groups = Vec::new();
    for raw in raws {
        add_encoding(&mut groups, *raw);
    }
    groups
}

#[test]
fn consecutive_tags_are_grouped() {
    let (signed_vb, null) = (RawFieldEncoding::SignedVB, RawFieldEncoding::Null);
    let (tag8_8svb, tag2_3s32) = (RawFieldEncoding::Tag8_8SVB, RawFieldEncoding::Tag2_3S32);
    let (tag8_4s16, tag2_3svariable) =
        (RawFieldEncoding::Tag8_4S16, RawFieldEncoding::Tag2_3SVariable);
    assert_eq!(grouped(&[]), vec![]);
    assert_eq!(
        grouped(&[signed_vb, signed_vb, null, null]),
        vec![FieldEncoding::SignedVB, FieldEncoding::SignedVB, FieldEncoding::Null, FieldEncoding::Null]
    );
    assert_eq!(
        grouped(&[tag8_8svb, tag8_8svb, tag8_8svb, signed_vb, tag8_8svb]),
        vec![FieldEncoding::Tag8_8SVB(3), FieldEncoding::SignedVB, FieldEncoding::Tag8_8SVB(1)]
    );
    assert_eq!(grouped(&[tag8_8svb; 8]), vec![FieldEncoding::Tag8_8SVB(8)]);
    assert_eq!(
        grouped(&[tag8_8svb; 9]),
        vec![FieldEncoding::Tag8_8SVB(8), FieldEncoding::Tag8_8SVB(1)]
    );
    assert_eq!(
        grouped(&[tag2_3s32; 4]),
        vec![FieldEncoding::Tag2_3S32(3), FieldEncoding::Tag2_3S32(1)]
    );
    assert_eq!(
        grouped(&[tag8_4s16; 5]),
        vec![FieldEncoding::Tag8_4S16(4), FieldEncoding::Tag8_4S16(1)]
    );
    assert_eq!(
        grouped(&[tag2_3svariable; 4]),
        vec![FieldEncoding::Tag2_3SVariable(3), FieldEncoding::Tag2_3SVariable(1)]
    );
    assert_eq!(
        grouped(&[tag2_3s32, tag8_4s16, tag8_4s16, tag2_3s32]),
        vec![
            FieldEncoding::Tag2_3S32(1),
            FieldEncoding::Tag8_4S16(2),
            FieldEncoding::Tag2_3S32(1)
        ]
    );
}

#[test]
fn widths_of_grouped_encodings() {
    let groups = vec![
        FieldEncoding::UnsignedVB,
        FieldEncoding::Tag8_8SVB(5),
        FieldEncoding::Tag2_3S32(3),
        FieldEncoding::Tag8_4S16(4),
        FieldEncoding::Null,
    ];
    assert!(widths_sum_to(&groups, 14));
    assert!(!widths_sum_to(&groups, 13));
    assert!(!widths_sum_to(&groups, 15));
    assert!(widths_sum_to(&vec![], 0));
    assert!(!widths_sum_to(&vec![FieldEncoding::Tag2_3S32(2)], 2));
}

fn settings() -> Vec<(String, String)> {
    vec![
        ("minthrottle".to_string(), "1070".to_string()),
        ("vbatref".to_string(), "416".to_string()),
        ("motorOutput".to_string(), "158,2047".to_string()),
        ("vbatref".to_string(), "420".to_string()),
        ("name".to_string(), "quad".to_string()),
    ]
}

fn fields(names: &[&str]) -> Vec<IPField> {
    names
        .iter()
        .enumerate()
        .map(|(ix, name)| IPField { name: name.to_string(), ix, signed: false })
        .collect()
}

#[test]
fn settings_are_looked_up_by_key() {
    let settings = settings();
    assert!(str_eq("time", "time"));
    assert!(!str_eq("time", "tim"));
    assert!(!str_eq("time", "timf"));
    assert_eq!(setting(&settings, "minthrottle").map(|s| s.as_str()), Some("1070"));
    assert_eq!(setting(&settings, "vbatref").map(|s| s.as_str()), Some("420"));
    assert_eq!(setting(&settings, "maxthrottle"), None);
    assert_eq!(setting_number(&settings, "vbatref"), Some(420));
    assert_eq!(setting_number(&settings, "motorOutput"), None);
    assert_eq!(setting_number(&settings, "name"), None);
    assert_eq!(setting_first_number(&settings, "motorOutput"), Some(158));
    assert_eq!(setting_first_number(&settings, "vbatref"), Some(420));
    assert_eq!(setting_first_number(&settings, "name"), None);
}

#[test]
fn fields_are_looked_up_by_name() {
    let fields = fields(&["loopIteration", "time", "motor[0]", "time"]);
    assert_eq!(first_ip_field(&fields, "time"), Some(1));
    assert_eq!(last_ip_field(&fields, "time"), Some(3));
    assert_eq!(first_ip_field(&fields, "motor[0]"), Some(2));
    assert_eq!(last_ip_field(&fields, "motor[1]"), None);
    assert_eq!(first_ip_field(&fields, "motor[1]"), None);
}

#[test]
fn home_coordinate_of_a_field() {
    assert_eq!(home_index("GPS_coord[0]"), 0);
    assert_eq!(home_index("GPS_coord[1]"), 1);
    assert_eq!(home_index("GPS_coord[2]"), 1);
    assert_eq!(home_index("GPS_coord"), 1);
    assert_eq!(home_index("GPS_coord["), 1);
    assert_eq!(home_index("a[1][0]"), 1);
    assert_eq!(home_index(""), 1);
}

#[test]
fn predictors_of_intra_frames() {
    let settings = settings();
    let fields = fields(&["loopIteration", "time", "motor[0]", "motor[1]"]);
    let make = |p| AnyIPredictor::try_new(p, &settings, &fields, 3);
    assert!(matches!(
        make(FieldPredictor::Zero),
        Some(AnyIPredictor::AddConstant(p)) if p.base == 0 && p.field_ix == 3
    ));
    assert!(matches!(
        make(FieldPredictor::Around1500),
        Some(AnyIPredictor::AddConstant(p)) if p.base == 1500
    ));
    assert!(matches!(
        make(FieldPredictor::MinThrottle),
        Some(AnyIPredictor::AddConstant(p)) if p.base == 1070
    ));
    assert!(matches!(
        make(FieldPredictor::MinMotor),
        Some(AnyIPredictor::AddConstant(p)) if p.base == 158
    ));
    assert!(matches!(
        make(FieldPredictor::VBatRef),
        Some(AnyIPredictor::AddConstant(p)) if p.base == 420
    ));
    assert!(matches!(
        make(FieldPredictor::Motor0),
        Some(AnyIPredictor::AddField(p)) if p.base_field_ix == 2 && p.field_ix == 3
    ));
    assert!(matches!(
        AnyIPredictor::new(FieldPredictor::Around1500, &settings, &fields, 1),
        AnyIPredictor::AddConstant(p) if p.base == 1500 && p.field_ix == 1
    ));
    for p in [
        FieldPredictor::Previous,
        FieldPredictor::StraightLine,
        FieldPredictor::Average2,
        FieldPredictor::Increment,
        FieldPredictor::HomeCoordinates,
        FieldPredictor::LastMainFrameTime,
    ] {
        assert!(make(p).is_none());
    }
    let none = Vec::new();
    assert!(AnyIPredictor::try_new(FieldPredictor::MinThrottle, &none, &fields, 0).is_none());
    assert!(AnyIPredictor::try_new(FieldPredictor::Motor0, &settings, &Vec::new(), 0).is_none());
}

#[test]
fn predictors_of_predicted_frames() {
    let interval = PInterval { numer: 2, denom: 1 };
    assert!(matches!(
        AnyPPredictor::try_new(FieldPredictor::Zero, interval, 4),
        Some(AnyPPredictor::Zero(p)) if p.field_ix == 4
    ));
    assert!(matches!(
        AnyPPredictor::try_new(FieldPredictor::Previous, interval, 4),
        Some(AnyPPredictor::Previous(p)) if p.field_ix == 4
    ));
    assert!(matches!(
        AnyPPredictor::try_new(FieldPredictor::StraightLine, interval, 4),
        Some(AnyPPredictor::StraightLine(p)) if p.field_ix == 4
    ));
    assert!(matches!(
        AnyPPredictor::try_new(FieldPredictor::Average2, interval, 4),
        Some(AnyPPredictor::Average(p)) if p.field_ix == 4
    ));
    assert!(matches!(
        AnyPPredictor::new(FieldPredictor::Increment, interval, 4),
        AnyPPredictor::Inc(p) if p.field_ix == 4 && p.step_numer == 1 && p.step_denom == 2
            && p.whole == 0 && p.remainder == 0 && p.base == 0 && p.expected_value == 0
    ));
    assert!(matches!(AnyPPredictor::none(2), AnyPPredictor::Zero(p) if p.field_ix == 2));
    let zero = PInterval { numer: 0, denom: 1 };
    assert!(AnyPPredictor::try_new(FieldPredictor::Increment, zero, 0).is_none());
    for p in [
        FieldPredictor::MinThrottle,
        FieldPredictor::Motor0,
        FieldPredictor::HomeCoordinates,
        FieldPredictor::Around1500,
        FieldPredictor::VBatRef,
        FieldPredictor::LastMainFrameTime,
        FieldPredictor::MinMotor,
    ] {
        assert!(AnyPPredictor::try_new(p, interval, 0).is_none());
    }
}

#[test]
fn predictors_of_gnss_frames() {
    let fields = fields(&["loopIteration", "time"]);
    assert!(matches!(
        AnyGPredictor::try_new(FieldPredictor::Zero, 3, 0, &fields),
        Some(AnyGPredictor::Zero(p)) if p.field_ix == 3
    ));
    assert!(matches!(
        AnyGPredictor::try_new(FieldPredictor::HomeCoordinates, 3, 1, &fields),
        Some(AnyGPredictor::HomeCoordinates(p)) if p.field_ix == 3 && p.gnss_home_ix == 1
    ));
    assert!(matches!(
        AnyGPredictor::new(FieldPredictor::LastMainFrameTime, 0, 0, &fields),
        AnyGPredictor::LastMainFrameTime(p) if p.field_ix == 0 && p.time_ix == 1
    ));
    assert!(AnyGPredictor::try_new(FieldPredictor::HomeCoordinates, 3, 2, &fields).is_none());
    assert!(
        AnyGPredictor::try_new(FieldPredictor::LastMainFrameTime, 0, 0, &Vec::new()).is_none()
    );
    assert!(AnyGPredictor::try_new(FieldPredictor::Previous, 0, 0, &fields).is_none());
}

fn builder(lines: &[&str]) -> HeaderBuilder {
    let mut builder = HeaderBuilder::new();
    for text in lines {
        let mut input = text.as_bytes().to_vec();
        input.push(b'\n');
        let (_, frame) = parse_header(&input, 0).unwrap();
        builder.apply(frame);
    }
    builder
}

const FULL: [&str; 10] = [
    "H Product:Blackbox",
    "H Data version:2",
    "H I interval:32",
    "H P interval:1/2",
    "H gyro_scale:0x3f800000",
    "H looptime:125",
    "H Field I name:loopIteration,time,a,b,c",
    "H Field I signed:0,0,1,1,1",
    "H Field I encoding:1,1,7,7,7",
    "H Field P encoding:9,0,6,6,6",
];

fn build(more: &[&str]) -> Result<Header, HeaderBuildError> {
    let mut lines = FULL.to_vec();
    lines.extend_from_slice(more);
    Header::try_from(builder(&lines))
}

fn missing(without: &str) -> Option<String> {
    let lines: Vec<&str> = FULL.iter().copied().filter(|l| !l.starts_with(without)).collect();
    match Header::try_from(builder(&lines)) {
        Err(HeaderBuildError::MissingHeader(key)) => Some(key.to_string()),
        _ => None,
    }
}

fn invalid(more: &[&str]) -> Option<String> {
    match build(more) {
        Err(HeaderBuildError::InvalidHeader(key)) => Some(key.to_string()),
        _ => None,
    }
}

#[test]
fn schema_is_built_from_the_lines() {
    let header = build(&[
        "H Field I predictor:0,0,0,0,0",
        "H Field P predictor:6,2,1,1,1",
        "H P ratio:4",
        "H rates:1,2,3",
    ])
    .unwrap();
    assert_eq!(header.product, "Blackbox");
    assert_eq!(header.data_version, "2");
    assert_eq!(header.i_interval, 32);
    assert_eq!(header.p_interval, PInterval { numer: 1, denom: 2 });
    assert_eq!(header.p_ratio, 4);
    assert_eq!(header.raw_gyro_scale, 0x3f800000);
    assert_eq!(header.loop_time, 125);
    assert_eq!(header.other_headers, vec![("rates".to_string(), "1,2,3".to_string())]);
    assert_eq!(header.ip_fields_in_order.len(), 5);
    assert_eq!(header.ip_fields_in_order[4].name, "c");
    assert_eq!(header.ip_fields_in_order[4].ix, 4);
    assert!(header.ip_fields_in_order[4].signed);
    assert_eq!(
        header.i_field_encodings,
        vec![FieldEncoding::UnsignedVB, FieldEncoding::UnsignedVB, FieldEncoding::Tag2_3S32(3)]
    );
    assert_eq!(
        header.p_field_encodings,
        vec![FieldEncoding::Null, FieldEncoding::SignedVB, FieldEncoding::Tag8_8SVB(3)]
    );
    assert_eq!(header.i_field_predictors.len(), 5);
    assert_eq!(header.p_field_predictors.len(), 5);
    for (j, field) in header.ip_fields_in_order.iter().enumerate() {
        assert_eq!(field.ix, j);
    }
    assert!(matches!(
        header.p_field_predictors[0],
        AnyPPredictor::Inc(p) if p.step_numer == 2 && p.step_denom == 1 && p.field_ix == 0
    ));
    assert!(header.s_fields_in_order.is_empty());
    assert!(header.g_field_predictors.is_empty());
}

#[test]
fn p_ratio_is_one_where_no_line_gives_it() {
    let header =
        build(&["H Field I predictor:0,0,0,0,0", "H Field P predictor:6,2,1,1,1"]).unwrap();
    assert_eq!(header.p_ratio, 1);
}

#[test]
fn fields_of_the_other_classes() {
    let header = build(&[
        "H Field I predictor:0,0,0,0,0",
        "H Field P predictor:6,2,1,1,1",
        "H Field S name:flags,state",
        "H Field S signed:0,1",
        "H Field S predictor:0,1",
        "H Field S encoding:1,0",
        "H Field G name:time,GPS_coord[0],GPS_coord[1]",
        "H Field G signed:0,1,1",
        "H Field G predictor:10,7,7",
        "H Field G encoding:1,0,0",
        "H Field H name:GPS_home[0],GPS_home[1]",
        "H Field H signed:1,1",
        "H Field H predictor:0,0",
        "H Field H encoding:0,0",
    ])
    .unwrap();
    assert_eq!(header.s_fields_in_order.len(), 2);
    assert_eq!(header.s_fields_in_order[1].name, "state");
    assert_eq!(header.s_fields_in_order[1].ix, 1);
    assert!(header.s_fields_in_order[1].signed);
    assert_eq!(header.s_fields_in_order[1].predictor, FieldPredictor::Previous);
    assert_eq!(header.s_field_encodings, vec![FieldEncoding::UnsignedVB, FieldEncoding::SignedVB]);
    assert_eq!(header.g_fields_in_order.len(), 3);
    assert_eq!(header.g_fields_in_order[2].name, "GPS_coord[1]");
    assert_eq!(header.g_fields_in_order[2].predictor, FieldPredictor::HomeCoordinates);
    assert!(matches!(
        header.g_field_predictors[0],
        AnyGPredictor::LastMainFrameTime(p) if p.time_ix == 1 && p.field_ix == 0
    ));
    assert!(matches!(
        header.g_field_predictors[1],
        AnyGPredictor::HomeCoordinates(p) if p.gnss_home_ix == 0 && p.field_ix == 1
    ));
    assert!(matches!(
        header.g_field_predictors[2],
        AnyGPredictor::HomeCoordinates(p) if p.gnss_home_ix == 1 && p.field_ix == 2
    ));
    assert_eq!(header.h_fields_in_order.len(), 2);
    assert_eq!(header.h_fields_in_order[0].name, "GPS_home[0]");
    assert_eq!(header.h_field_predictors.len(), 2);
    assert!(matches!(header.h_field_predictors[1], AnyPPredictor::Zero(p) if p.field_ix == 1));
}

#[test]
fn lines_that_must_be_there() {
    assert_eq!(missing("H Product").as_deref(), Some("Product"));
    assert_eq!(missing("H Data version").as_deref(), Some("Data version"));
    assert_eq!(missing("H I interval").as_deref(), Some("I interval"));
    assert_eq!(missing("H P interval").as_deref(), Some("P interval"));
    assert_eq!(missing("H gyro_scale").as_deref(), Some("gyro_scale"));
    assert_eq!(missing("H looptime").as_deref(), Some("looptime"));
    assert_eq!(HeaderBuildError::MissingHeader("Product").as_ref(), "Product");
    assert_eq!(HeaderBuildError::InvalidHeader("Field I name").as_ref(), "Field I name");
}

#[test]
fn lists_that_do_not_fit() {
    let i = "H Field I predictor:0,0,0,0,0";
    let p = "H Field P predictor:6,2,1,1,1";
    assert_eq!(invalid(&["H Field I predictor:0,0,1,0,0", p]).as_deref(), Some("Field I predictor"));
    assert_eq!(invalid(&["H Field I predictor:0,0,4,0,0", p]).as_deref(), Some("Field I predictor"));
    assert_eq!(invalid(&["H Field I predictor:0,0,5,0,0", p]).as_deref(), Some("Field I predictor"));
    assert_eq!(invalid(&[i, "H Field P predictor:6,2,8,1,1"]).as_deref(), Some("Field P predictor"));
    assert_eq!(invalid(&[i, "H Field P predictor:6,2,1,1"]).as_deref(), Some("Field P predictor"));
    assert_eq!(
        invalid(&[i, p, "H P interval:0/5"]).as_deref(),
        Some("Field P predictor")
    );
    assert_eq!(
        invalid(&[i, p, "H Field I encoding:1,1,7,7,1"]).as_deref(),
        Some("Field I encoding")
    );
    assert_eq!(
        invalid(&[i, p, "H Field P encoding:9,0,8,8,8"]).as_deref(),
        Some("Field P encoding")
    );
    let g = ["H Field G name:a,b", "H Field G signed:0,0", "H Field G encoding:7,7"];
    assert_eq!(
        invalid(&[i, p, g[0], g[1], g[2], "H Field G predictor:0,1"]).as_deref(),
        Some("Field G predictor")
    );
    assert_eq!(
        invalid(&[i, p, g[0], g[1], g[2], "H Field G predictor:0,0"]).as_deref(),
        Some("Field G encoding")
    );
    let h = ["H Field H name:a,b", "H Field H signed:0,0", "H Field H encoding:0,0"];
    assert_eq!(
        invalid(&[i, p, h[0], h[1], h[2], "H Field H predictor:0,1"]).as_deref(),
        Some("Field H predictor")
    );
}

#[test]
fn headers_are_read_up_to_the_body() {
    let mut input = Vec::new();
    for l in FULL {
        input.extend_from_slice(l.as_bytes());
        input.push(b'\n');
    }
    input.extend_from_slice(b"H Field I predictor:0,0,0,0,0\nH Field P predictor:6,2,1,1,1\n");
    let end = input.len();
    input.extend_from_slice(&[b'H', 0x00, b'I']);
    match parse_headers(&input) {
        Ok((at, header)) => {
            assert_eq!(at, end);
            assert_eq!(header.ip_fields_in_order.len(), 5);
        }
        Err(e) => panic!("{:?}", e),
    }
    assert!(matches!(parse_headers(&input[..end]), Err(ParseHeadersError::Incomplete)));
    assert!(matches!(parse_headers(&input[..end - 3]), Err(ParseHeadersError::Incomplete)));
    assert!(matches!(
        parse_headers(b"H Product:x\nI"),
        Err(ParseHeadersError::HeaderBuildError(HeaderBuildError::MissingHeader("Data version")))
    ));
    assert!(matches!(
        parse_headers(b"H Product:x\nH looptime:fast\nI"),
        Err(ParseHeadersError::Malformed)
    ));
}

#[test]
fn lists_of_a_class_must_be_of_one_length() {
    let i = "H Field I predictor:0,0,0,0,0";
    let p = "H Field P predictor:6,2,1,1,1";
    assert_eq!(invalid(&[p]).as_deref(), Some("Field I name"));
    assert_eq!(invalid(&[i]).as_deref(), Some("Field P predictor"));
    assert_eq!(invalid(&["H Field I predictor:0,0,0,0", p]).as_deref(), Some("Field I name"));
    assert_eq!(invalid(&["H Field I predictor:0,0,0,0,0,0", p]).as_deref(), Some("Field I name"));
    assert_eq!(invalid(&[i, p, "H Field I signed:0,0,1,1"]).as_deref(), Some("Field I name"));
    assert_eq!(invalid(&[i, p, "H Field I name:loopIteration,time"]).as_deref(), Some("Field I name"));
    assert_eq!(invalid(&[i, p, "H Field I encoding:1,1,1,1"]).as_deref(), Some("Field I name"));
    assert_eq!(invalid(&[i, p, "H Field P encoding:9,0,0,0"]).as_deref(), Some("Field P encoding"));
    assert_eq!(
        invalid(&[i, "H Field P predictor:6,2,1,1,1,1"]).as_deref(),
        Some("Field P predictor")
    );
    assert_eq!(invalid(&[i, p, "H Field S name:a,b"]).as_deref(), Some("Field S name"));
    assert_eq!(
        invalid(&[
            i,
            p,
            "H Field G name:a,b",
            "H Field G signed:0,0",
            "H Field G encoding:0,0",
            "H Field G predictor:0"
        ])
        .as_deref(),
        Some("Field G name")
    );
    assert_eq!(
        invalid(&[
            i,
            p,
            "H Field H name:a,b",
            "H Field H signed:0",
            "H Field H encoding:0,0",
            "H Field H predictor:0,0"
        ])
        .as_deref(),
        Some("Field H name")
    );
}

#[test]
fn two_tagged_fields_do_not_stand_for_three() {
    let lines = [
        "H Product:Blackbox",
        "H Data version:2",
        "H I interval:32",
        "H P interval:1/2",
        "H gyro_scale:0x3f800000",
        "H looptime:125",
        "H Field I name:loopIteration,time",
        "H Field I signed:0,0",
        "H Field I encoding:7,7",
        "H Field P encoding:7,7",
    ];
    let with = |i: &'static str, p: &'static str| {
        let mut all = lines.to_vec();
        all.push(i);
        all.push(p);
        match Header::try_from(builder(&all)) {
            Err(HeaderBuildError::InvalidHeader(key)) => Some(key),
            _ => None,
        }
    };
    // three predictors for two fields
    assert_eq!(with("H Field I predictor:0,0,0", "H Field P predictor:0,0,0"), Some("Field I name"));
    // two predictors, but codecs that yield three values
    assert_eq!(with("H Field I predictor:0,0", "H Field P predictor:0,0"), Some("Field I encoding"));
}
