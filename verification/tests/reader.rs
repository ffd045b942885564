use fc_blackbox::frame::event::{
    Adjustment, Disarm, FlightMode, Frame, InFlightAdjustment, LoggingResume, SyncBeep,
};
use fc_blackbox::{
    BlackboxReader, BlackboxReaderError, BlackboxRecord, MultiSegmentBlackboxReader, Strictness,
};

struct Schema {
    p_interval: &'static str,
    names: &'static str,
    signed: &'static str,
    i_predictor: &'static str,
    i_encoding: &'static str,
    p_predictor: &'static str,
    p_encoding: &'static str,
    extra: &'static str,
}

impl Schema {
    fn three_fields() -> Schema {
        Schema {
            p_interval: "1/1",
            names: "loopIteration,time,value",
            signed: "0,0,1",
            i_predictor: "0,0,8",
            i_encoding: "1,1,0",
            p_predictor: "6,2,1",
            p_encoding: "9,0,0",
            extra: "",
        }
    }

    fn header(&self) -> Vec<u8> {
        let mut text = String::new();
        text.push_str("H Product:Blackbox flight data recorder by Nicholas Sherlock\n");
        text.push_str("H Data version:2\n");
        text.push_str("H I interval:32\n");
        text.push_str(&format!("H P interval:{}\n", self.p_interval));
        text.push_str(&format!("H Field I name:{}\n", self.names));
        text.push_str(&format!("H Field I signed:{}\n", self.signed));
        text.push_str(&format!("H Field I predictor:{}\n", self.i_predictor));
        text.push_str(&format!("H Field I encoding:{}\n", self.i_encoding));
        text.push_str(&format!("H Field P predictor:{}\n", self.p_predictor));
        text.push_str(&format!("H Field P encoding:{}\n", self.p_encoding));
        text.push_str(self.extra);
        text.push_str("H gyro_scale:0x3f800000\n");
        text.push_str("H looptime:125\n");
        text.into_bytes()
    }

    fn log(&self, body: &[u8]) -> Vec<u8> {
        let mut log = self.header();
        log.extend_from_slice(body);
        log
    }
}

fn main_values(record: Option<BlackboxRecord>) -> Vec<i64> {
    match record {
        Some(BlackboxRecord::Main(values)) => values.to_vec(),
        other => panic!("no main record: {:?}", other),
    }
}

fn event(record: Option<BlackboxRecord>) -> Frame {
    match record {
        Some(BlackboxRecord::Event(frame)) => frame,
        other => panic!("no event: {:?}", other),
    }
}

#[test]
fn intra_frame_around_1500() {
    let schema = Schema::three_fields();
    let log = schema.log(&[b'I', 0x00, 0x00, 0x06]);
    let start = schema.header().len();
    let mut reader = BlackboxReader::from_bytes(&log).unwrap();
    assert_eq!(reader.bytes_read(), start);
    assert_eq!(main_values(reader.next()), vec![0, 0, 1503]);
    assert_eq!(reader.bytes_read(), start + 4);
    assert!(reader.next().is_none());
    assert_eq!(reader.bytes_read(), start + 4);
}

#[test]
fn predicted_frame_follows_the_previous_value() {
    let schema = Schema::three_fields();
    let log = schema.log(&[b'I', 0x05, 0x0a, 0x06, b'P', 0x00, 0x02]);
    let mut reader = BlackboxReader::from_bytes(&log).unwrap();
    assert_eq!(main_values(reader.next()), vec![5, 10, 1503]);
    assert_eq!(reader.last_loop_iteration, 5);
    assert_eq!(reader.last_time, 10);
    assert_eq!(main_values(reader.next()), vec![6, 10, 1504]);
    assert_eq!(reader.last_loop_iteration, 6);
    assert_eq!(reader.last_time, 10);
}

#[test]
fn increment_with_step_one_half() {
    let mut schema = Schema::three_fields();
    schema.p_interval = "2/1";
    let log = schema.log(&[b'P', 0x00, 0x00, b'P', 0x00, 0x00, b'P', 0x00, 0x00]);
    let mut reader = BlackboxReader::from_bytes(&log).unwrap();
    assert_eq!(main_values(reader.next())[0], 0);
    assert_eq!(main_values(reader.next())[0], 1);
    assert_eq!(main_values(reader.next())[0], 1);
}

#[test]
fn increment_starts_anew_after_an_intra_frame() {
    let schema = Schema::three_fields();
    let body = [b'P', 0x00, 0x00, b'P', 0x00, 0x00, b'I', 0x20, 0x00, 0x00, b'P', 0x00, 0x00];
    let log = schema.log(&body);
    let mut reader = BlackboxReader::from_bytes(&log).unwrap();
    assert_eq!(main_values(reader.next())[0], 1);
    assert_eq!(main_values(reader.next())[0], 2);
    assert_eq!(main_values(reader.next())[0], 32);
    assert_eq!(main_values(reader.next())[0], 33);
}

#[test]
fn straight_line_and_average() {
    let mut schema = Schema::three_fields();
    schema.p_predictor = "6,2,3";
    let body = [b'I', 0x00, 0x0a, 0x06, b'P', 0x0a, 0x00, b'P', 0x00, 0x00, b'P', 0x01, 0x01];
    let log = schema.log(&body);
    let mut reader = BlackboxReader::from_bytes(&log).unwrap();
    assert_eq!(main_values(reader.next()), vec![0, 10, 1503]);
    // time: 2 * 10 - 10 + 5; value: (1503 + 1503) / 2 + 0
    assert_eq!(main_values(reader.next()), vec![1, 15, 1503]);
    // time: 2 * 15 - 10 + 0
    assert_eq!(main_values(reader.next()), vec![2, 20, 1503]);
    // time: 2 * 20 - 15 - 1; value: (1503 + 1503) / 2 - 1
    assert_eq!(main_values(reader.next()), vec![3, 24, 1502]);
}

#[test]
fn average_rounds_down() {
    let mut schema = Schema::three_fields();
    schema.i_predictor = "0,0,0";
    schema.p_predictor = "6,0,3";
    // value: -3 in the intra frame, then -3 + 1 = -2 by residual, then the mean of -2 and -3
    let body = [b'I', 0x00, 0x00, 0x05, b'P', 0x00, 0x02, b'P', 0x00, 0x00];
    let log = schema.log(&body);
    let mut reader = BlackboxReader::from_bytes(&log).unwrap();
    assert_eq!(main_values(reader.next())[2], -3);
    assert_eq!(main_values(reader.next())[2], -2);
    assert_eq!(main_values(reader.next())[2], -3);
}

#[test]
fn predictors_that_read_settings() {
    let mut schema = Schema::three_fields();
    schema.names = "loopIteration,time,motor[0],motor[1],vbat,throttle";
    schema.signed = "0,0,0,0,0,0";
    schema.i_predictor = "0,0,11,5,9,4";
    schema.i_encoding = "1,1,1,0,3,1";
    schema.p_predictor = "6,2,1,1,1,1";
    schema.p_encoding = "9,0,0,0,0,0";
    schema.extra = "H minthrottle:1070\nH motorOutput:158,2047\nH vbatref:416\nH vbatref:420\n";
    let log = schema.log(&[b'I', 0x00, 0x00, 0x0a, 0x05, 0x03, 0x01]);
    let mut reader = BlackboxReader::from_bytes(&log).unwrap();
    // motor[0]: 158 + 10; motor[1]: motor[0] - 3; vbat: 420 - 3; throttle: 1070 + 1
    let values = main_values(reader.next());
    assert_eq!(values, vec![0, 0, 168, 165, 417, 1071]);
    assert_eq!(values.len(), reader.header.ip_fields_in_order.len());
}

#[test]
fn sync_beep_event() {
    let schema = Schema::three_fields();
    let log = schema.log(&[b'E', 0x00, 0x05]);
    let mut reader = BlackboxReader::from_bytes(&log).unwrap();
    assert_eq!(event(reader.next()), Frame::SyncBeep(SyncBeep { time: 5 }));
}

#[test]
fn the_other_events() {
    let schema = Schema::three_fields();
    let mut body = Vec::new();
    body.extend_from_slice(&[b'E', 13, 0x05, 0x03]);
    body.extend_from_slice(&[b'E', 13, 0x85, 0x00, 0x00, 0x80, 0x3f]);
    body.extend_from_slice(&[b'E', 14, 0xac, 0x02, 0x07]);
    body.extend_from_slice(&[b'E', 15, 0x04]);
    body.extend_from_slice(&[b'E', 30, 0x01, 0x02]);
    body.extend_from_slice(b"E\xffEnd of log\0");
    let log = schema.log(&body);
    let mut reader = BlackboxReader::from_bytes(&log).unwrap();
    assert_eq!(
        event(reader.next()),
        Frame::InFlightAdjustment(InFlightAdjustment {
            function: 5,
            adjustment: Adjustment::Int(-2)
        })
    );
    assert_eq!(
        event(reader.next()),
        Frame::InFlightAdjustment(InFlightAdjustment {
            function: 5,
            adjustment: Adjustment::Float(1.0f32.to_bits())
        })
    );
    assert_eq!(
        event(reader.next()),
        Frame::LoggingResume(LoggingResume { iteration: 300, time: 7 })
    );
    assert_eq!(event(reader.next()), Frame::Disarm(Disarm { reason: 4 }));
    assert_eq!(event(reader.next()), Frame::FlightMode(FlightMode { flags: 1, old_flags: 2 }));
    assert_eq!(event(reader.next()), Frame::EndOfLog);
    assert!(reader.next().is_none());
    assert_eq!(reader.bytes_read(), log.len());
}

#[test]
fn truncated_predicted_frame() {
    let schema = Schema::three_fields();
    let log = schema.log(&[b'I', 0x00, 0x00, 0x06, b'P', 0x80]);
    let start = schema.header().len();
    for strictness in [Strictness::Lenient, Strictness::Strict] {
        let mut reader = BlackboxReader::new(&log, strictness).unwrap();
        assert_eq!(main_values(reader.next()), vec![0, 0, 1503]);
        assert!(reader.next().is_none());
        assert_eq!(reader.bytes_read(), start + 4);
        assert!(reader.next().is_none());
        assert_eq!(reader.bytes_read(), start + 4);
    }
}

#[test]
fn strict_reader_stops_at_the_first_fault() {
    let schema = Schema::three_fields();
    let log = schema.log(&[b'I', 0x00, 0x00, 0x06, 0xff, b'Z', b'E', 0x00, 0x05]);
    let start = schema.header().len();
    let mut reader = BlackboxReader::new(&log, Strictness::Strict).unwrap();
    assert_eq!(main_values(reader.next()), vec![0, 0, 1503]);
    assert!(reader.next().is_none());
    assert_eq!(reader.bytes_read(), start + 4);
    assert!(reader.next().is_none());
    assert_eq!(reader.bytes_read(), start + 4);
}

#[test]
fn lenient_reader_passes_over_faults() {
    let schema = Schema::three_fields();
    let log = schema.log(&[b'I', 0x00, 0x00, 0x06, 0xff, b'Z', b'E', 99, b'E', 0x00, 0x05, 0x01]);
    let start = schema.header().len();
    let mut reader = BlackboxReader::new(&log, Strictness::Lenient).unwrap();
    assert_eq!(main_values(reader.next()), vec![0, 0, 1503]);
    assert_eq!(reader.bytes_read(), start + 4);
    assert_eq!(event(reader.next()), Frame::SyncBeep(SyncBeep { time: 5 }));
    assert_eq!(reader.bytes_read(), start + 11);
    assert!(reader.next().is_none());
    assert_eq!(reader.bytes_read(), log.len());
}

#[test]
fn too_long_varint_ends_the_reading() {
    let schema = Schema::three_fields();
    let body = [b'I', 0x80, 0x80, 0x80, 0x80, 0x80, 0x00, b'E', 0x00, 0x05];
    let log = schema.log(&body);
    let start = schema.header().len();
    let mut reader = BlackboxReader::new(&log, Strictness::Lenient).unwrap();
    assert!(reader.next().is_none());
    assert_eq!(reader.bytes_read(), start);
}

#[test]
fn frame_of_a_class_without_fields_is_its_tag_alone() {
    let schema = Schema::three_fields();
    let log = schema.log(&[b'H', b'H', b'G', b'E', 0x00, 0x05]);
    let start = schema.header().len();
    let mut reader = BlackboxReader::new(&log, Strictness::Strict).unwrap();
    // the home frames give no record
    match reader.next() {
        Some(BlackboxRecord::GNSS(values)) => assert!(values.is_empty()),
        other => panic!("no GNSS record: {:?}", other),
    }
    assert_eq!(reader.bytes_read(), start + 3);
    assert_eq!(event(reader.next()), Frame::SyncBeep(SyncBeep { time: 5 }));
}

#[test]
fn home_frame_of_one_value_changes_nothing() {
    let mut schema = gnss_schema();
    schema.extra = "H Field G name:GPS_coord[0],GPS_coord[1]\n\
                    H Field G signed:1,1\n\
                    H Field G predictor:7,7\n\
                    H Field G encoding:0,0\n\
                    H Field H name:GPS_home[0]\n\
                    H Field H signed:1\n\
                    H Field H predictor:0\n\
                    H Field H encoding:0\n";
    let log = schema.log(&[b'I', 0x00, 0x00, 0x00, b'H', 0x0a, b'G', 0x02, 0x04]);
    let mut reader = BlackboxReader::from_bytes(&log).unwrap();
    assert_eq!(main_values(reader.next()), vec![0, 0, 1500]);
    match reader.next() {
        Some(BlackboxRecord::GNSS(values)) => assert_eq!(values, vec![1, 2]),
        other => panic!("no GNSS record: {:?}", other),
    }
    assert_eq!(reader.bytes_read(), log.len());
}

#[test]
fn slow_frames_are_handed_up_as_they_are() {
    let mut schema = Schema::three_fields();
    schema.extra = "H Field S name:flags,state\nH Field S signed:0,1\nH Field S predictor:0,1\nH Field S encoding:1,0\n";
    let log = schema.log(&[b'S', 0x03, 0x05, b'S', 0x03, 0x05]);
    let mut reader = BlackboxReader::from_bytes(&log).unwrap();
    for _ in 0..2 {
        match reader.next() {
            Some(BlackboxRecord::Slow(values)) => assert_eq!(values, vec![3, -3]),
            other => panic!("no slow record: {:?}", other),
        }
    }
}

fn gnss_schema() -> Schema {
    let mut schema = Schema::three_fields();
    schema.extra = "H Field G name:time,GPS_coord[0],GPS_coord[1],GPS_numSat\n\
                    H Field G signed:0,1,1,0\n\
                    H Field G predictor:10,7,7,0\n\
                    H Field G encoding:1,0,0,1\n\
                    H Field H name:GPS_home[0],GPS_home[1]\n\
                    H Field H signed:1,1\n\
                    H Field H predictor:0,0\n\
                    H Field H encoding:0,0\n";
    schema
}

#[test]
fn gnss_frames_refer_to_home_and_main_time() {
    let schema = gnss_schema();
    let mut body = Vec::new();
    body.extend_from_slice(&[b'I', 0x00, 0x64, 0x00]);
    body.extend_from_slice(&[b'H', 0xd0, 0x0f, 0xa0, 0x1f]);
    body.extend_from_slice(&[b'G', 0x05, 0x02, 0x03, 0x07]);
    body.extend_from_slice(&[b'G', 0x01, 0x01, 0x04, 0x08]);
    let log = schema.log(&body);
    let mut reader = BlackboxReader::from_bytes(&log).unwrap();
    assert_eq!(main_values(reader.next()), vec![0, 100, 1500]);
    // the home frame is processed on the way: home is (1000, 2000)
    match reader.next() {
        Some(BlackboxRecord::GNSS(values)) => assert_eq!(values, vec![105, 1001, 1998, 7]),
        other => panic!("no GNSS record: {:?}", other),
    }
    match reader.next() {
        Some(BlackboxRecord::GNSS(values)) => assert_eq!(values, vec![101, 999, 2002, 8]),
        other => panic!("no GNSS record: {:?}", other),
    }
    assert!(reader.next().is_none());
    assert_eq!(reader.bytes_read(), log.len());
}

#[test]
fn home_frame_gives_no_record() {
    let schema = gnss_schema();
    let log = schema.log(&[b'H', 0x02, 0x04, b'E', 0x00, 0x05]);
    let mut reader = BlackboxReader::from_bytes(&log).unwrap();
    assert_eq!(event(reader.next()), Frame::SyncBeep(SyncBeep { time: 5 }));
    assert_eq!(reader.bytes_read(), log.len());
}

#[test]
fn header_without_loop_iteration_or_time() {
    let mut schema = Schema::three_fields();
    schema.names = "loopIteration,clock,value";
    let log = schema.log(&[b'I']);
    assert_eq!(
        BlackboxReader::from_bytes(&log).err(),
        Some(BlackboxReaderError::NoLoopIterationAndTime)
    );
    schema.names = "iteration,time,value";
    let log = schema.log(&[b'I']);
    assert_eq!(
        BlackboxReader::from_bytes(&log).err(),
        Some(BlackboxReaderError::NoLoopIterationAndTime)
    );
}

#[test]
fn header_that_ends_with_the_input_is_incomplete() {
    let schema = Schema::three_fields();
    let header = schema.header();
    assert_eq!(BlackboxReader::from_bytes(&header).err(), Some(BlackboxReaderError::Incomplete));
    assert_eq!(
        BlackboxReader::from_bytes(&header[..header.len() - 1]).err(),
        Some(BlackboxReaderError::Incomplete)
    );
    assert_eq!(BlackboxReader::from_bytes(&[]).err(), Some(BlackboxReaderError::Incomplete));
}

#[test]
fn header_without_a_line_that_must_be_there() {
    let log = b"H Product:Blackbox\nH Data version:2\nI".to_vec();
    assert_eq!(BlackboxReader::from_bytes(&log).err(), Some(BlackboxReaderError::ParseHeader));
    assert_eq!(BlackboxReader::from_bytes(b"I\x00").err(), Some(BlackboxReaderError::ParseHeader));
}

#[test]
fn header_with_a_malformed_line() {
    let mut schema = Schema::three_fields();
    schema.extra = "H P ratio:many\n";
    let log = schema.log(&[b'I', 0x00, 0x00, 0x06]);
    assert_eq!(BlackboxReader::from_bytes(&log).err(), Some(BlackboxReaderError::ParseHeader));
}

#[test]
fn error_messages() {
    assert_eq!(BlackboxReaderError::ParseHeader.message(), "couldn't parse header");
    assert_eq!(
        BlackboxReaderError::NoLoopIterationAndTime.message(),
        "loopIteration or time I/P fields have not been found"
    );
    assert_eq!(BlackboxReaderError::Incomplete.message(), "log is truncated");
}

#[test]
fn reader_shows_its_header() {
    let schema = Schema::three_fields();
    let log = schema.log(&[b'I']);
    let reader = BlackboxReader::from_bytes(&log).unwrap();
    let names: Vec<&str> =
        reader.header.ip_fields_in_order.iter().map(|f| f.name.as_str()).collect();
    assert_eq!(names, vec!["loopIteration", "time", "value"]);
    assert_eq!(reader.header.ip_fields_in_order[2].ix, 2);
    assert!(reader.header.ip_fields_in_order[2].signed);
    assert!(!reader.header.ip_fields_in_order[0].signed);
    assert_eq!(reader.header.loop_time, 125);
    assert_eq!(f32::from_bits(reader.header.raw_gyro_scale), 1.0);
    assert_eq!(reader.header.product, "Blackbox flight data recorder by Nicholas Sherlock");
}

#[test]
fn several_logs_in_one_file() {
    let schema = Schema::three_fields();
    let first = schema.log(&[b'I', 0x00, 0x00, 0x06]);
    let second = schema.log(&[b'I', 0x01, 0x02, 0x08]);
    let mut file = vec![0x00, 0x11, 0x22];
    file.extend_from_slice(&first);
    file.extend_from_slice(b"H Product:Blackbox\n?");
    file.extend_from_slice(&second);

    let mut finder = MultiSegmentBlackboxReader::from_bytes(&file);
    let mut reader = finder.next().unwrap().unwrap();
    assert_eq!(reader.bytes_read(), schema.header().len());
    assert_eq!(main_values(reader.next()), vec![0, 0, 1503]);

    // the second start of a log is a header of one line
    assert_eq!(finder.next().unwrap().err(), Some(BlackboxReaderError::ParseHeader));

    let mut reader = finder.next().unwrap().unwrap();
    assert_eq!(main_values(reader.next()), vec![1, 2, 1504]);
    assert!(finder.next().is_none());
    assert!(finder.next().is_none());
}

#[test]
fn only_the_logs_that_open() {
    let schema = Schema::three_fields();
    let mut file = b"junk H Product:Blackbox\nmore junk ".to_vec();
    file.extend_from_slice(&schema.log(&[b'I', 0x00, 0x00, 0x06]));
    file.extend_from_slice(&schema.log(&[b'E', 0x00, 0x05]));
    file.extend_from_slice(&schema.header());

    let finder = MultiSegmentBlackboxReader::new(&file, Strictness::Strict);
    let mut readers = finder.successful_only();
    assert_eq!(readers.len(), 2);
    assert_eq!(main_values(readers[0].next()), vec![0, 0, 1503]);
    assert_eq!(event(readers[1].next()), Frame::SyncBeep(SyncBeep { time: 5 }));
}

#[test]
fn no_log_in_the_file() {
    let mut finder = MultiSegmentBlackboxReader::from_bytes(b"H Product:Blackbo");
    assert!(finder.next().is_none());
    let finder = MultiSegmentBlackboxReader::from_bytes(b"");
    assert!(finder.successful_only().is_empty());
}

#[test]
fn records_are_lent_until_the_reader_reads_on() {
    let schema = gnss_schema();
    let mut body = Vec::new();
    body.extend_from_slice(&[b'I', 0x00, 0x64, 0x00]);
    body.extend_from_slice(&[b'G', 0x05, 0x02, 0x03, 0x07]);
    body.extend_from_slice(&[b'P', 0x00, 0x02]);
    let log = schema.log(&body);
    let mut reader = BlackboxReader::from_bytes(&log).unwrap();
    match reader.next() {
        Some(BlackboxRecord::Main(values)) => assert_eq!(values, &[0i64, 100, 1500][..]),
        other => panic!("no main record: {:?}", other),
    }
    // a GNSS record in between does not disturb the main history
    match reader.next() {
        Some(BlackboxRecord::GNSS(values)) => assert_eq!(values, &[105i64, 1, -2, 7][..]),
        other => panic!("no GNSS record: {:?}", other),
    }
    match reader.next() {
        Some(BlackboxRecord::Main(values)) => assert_eq!(values, &[1i64, 100, 1501][..]),
        other => panic!("no main record: {:?}", other),
    }
}
