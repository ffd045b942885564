use fc_blackbox::{
    BlackboxReader, BlackboxReaderError, BlackboxRecord, MultiSegmentBlackboxReader,
};

struct SignedLog2Histogram<const N: usize, const STRICT: bool> {
    neg: [usize; N],
    zero: usize,
    pos: [usize; N],
}

impl<const N: usize, const STRICT: bool> SignedLog2Histogram<N, STRICT> {
    pub fn push(&mut self, v: i64) {
        if v == 0 {
            self.zero += 1;
        } else {
            let is_positive = v.is_positive();
            let v = v.saturating_abs();
            let mut bin = 63usize - v.leading_zeros() as usize;
            if bin >= N {
                if STRICT {
                    panic!("");
                } else {
                    bin = N - 1;
                }
            }

            if is_positive {
                self.pos[bin] += 1;
            } else {
                self.neg[N - bin - 1] += 1;
            }
        }
    }
}

impl<const N: usize, const STRICT: bool> Default for SignedLog2Histogram<N, STRICT> {
    fn default() -> Self {
        Self { neg: [0usize; N], zero: 0, pos: [0usize; N] }
    }
}

#[test]
fn signed_histogram_works_for_0() {
    let mut histo: SignedLog2Histogram<4, false> = Default::default();
    histo.push(0);

    assert_eq!(histo.zero, 1);
    assert_eq!(histo.neg, [0; 4]);
    assert_eq!(histo.pos, [0; 4]);
}

#[test]
fn signed_histogram_works_for_1() {
    let mut histo: SignedLog2Histogram<4, false> = Default::default();
    histo.push(1);

    assert_eq!(histo.zero, 0);
    assert_eq!(histo.neg, [0; 4]);
    assert_eq!(histo.pos, [1, 0, 0, 0]);
}

#[test]
fn signed_histogram_works_for_second_bucket() {
    let mut histo: SignedLog2Histogram<4, false> = Default::default();
    histo.push(2);
    histo.push(3);

    assert_eq!(histo.zero, 0);
    assert_eq!(histo.neg, [0; 4]);
    assert_eq!(histo.pos, [0, 2, 0, 0]);
}

#[test]
fn signed_histogram_works_for_third_bucket() {
    let mut histo: SignedLog2Histogram<4, false> = Default::default();
    histo.push(4);
    histo.push(7);

    assert_eq!(histo.zero, 0);
    assert_eq!(histo.neg, [0; 4]);
    assert_eq!(histo.pos, [0, 0, 2, 0]);
}

#[test]
fn signed_histogram_works_for_the_last_bucket() {
    let mut histo: SignedLog2Histogram<4, false> = Default::default();
    histo.push(i64::MAX);
    histo.push((i64::MAX >> 1) + 1);

    assert_eq!(histo.zero, 0);
    assert_eq!(histo.neg, [0; 4]);
    assert_eq!(histo.pos, [0, 0, 0, 2]);
}

#[test]
#[should_panic]
fn strict_signed_histogram_panics_for_the_last_bucket() {
    let mut histo: SignedLog2Histogram<4, true> = Default::default();
    histo.push(i64::MAX);
    histo.push((i64::MAX >> 1) + 1);

    assert_eq!(histo.zero, 0);
    assert_eq!(histo.neg, [0; 4]);
    assert_eq!(histo.pos, [0, 0, 0, 2]);
}

#[derive(Default)]
struct LogStats {
    main: usize,
    gnss: usize,
    slow: usize,
    event: usize,
    garbage: usize,
    remaining_bytes: usize,
    body_bytes: usize,
    gyro_adc0_histo: SignedLog2Histogram<32, true>,
}

fn consume(reader: &mut BlackboxReader, total: usize) -> LogStats {
    let mut stats = LogStats::default();
    let gyro_adc0_field_ix = reader
        .header
        .ip_fields_in_order
        .iter()
        .position(|f| f.name == "gyroADC[0]")
        .unwrap();

    while let Some(record) = reader.next() {
        match record {
            BlackboxRecord::Main(record) => {
                stats.main += 1;
                stats.gyro_adc0_histo.push(record[gyro_adc0_field_ix]);
            }
            BlackboxRecord::GNSS(_) => stats.gnss += 1,
            BlackboxRecord::Slow(_) => stats.slow += 1,
            BlackboxRecord::Event(_) => stats.event += 1,
            BlackboxRecord::Garbage(_) => stats.garbage += 1,
        }
    }

    stats.remaining_bytes = total - reader.bytes_read();
    stats
}

fn small_log() -> Vec<u8> {
    let mut log = Vec::new();
    log.extend_from_slice(b"H Product:Blackbox flight data recorder by Nicholas Sherlock\n");
    log.extend_from_slice(b"H Data version:2\n");
    log.extend_from_slice(b"H I interval:32\n");
    log.extend_from_slice(b"H P interval:1/2\n");
    log.extend_from_slice(b"H Field I name:loopIteration,time,gyroADC[0]\n");
    log.extend_from_slice(b"H Field I signed:0,0,1\n");
    log.extend_from_slice(b"H Field I predictor:0,0,0\n");
    log.extend_from_slice(b"H Field I encoding:1,1,0\n");
    log.extend_from_slice(b"H Field P predictor:6,2,1\n");
    log.extend_from_slice(b"H Field P encoding:9,0,0\n");
    log.extend_from_slice(b"H Field S name:flightModeFlags\n");
    log.extend_from_slice(b"H Field S signed:0\n");
    log.extend_from_slice(b"H Field S predictor:0\n");
    log.extend_from_slice(b"H Field S encoding:1\n");
    log.extend_from_slice(b"H gyro_scale:0x3f800000\n");
    log.extend_from_slice(b"H looptime:125\n");
    // I: loopIteration 0, time 100, gyroADC[0] zigzag(9) = -5
    log.extend_from_slice(&[b'I', 0x00, 0x64, 0x09]);
    // P: time +2 on a straight line, gyroADC[0] previous + zigzag(2) = -4
    log.extend_from_slice(&[b'P', 0x04, 0x02]);
    // S: flags 3
    log.extend_from_slice(&[b'S', 0x03]);
    // E: sync beep at 5
    log.extend_from_slice(&[b'E', 0x00, 0x05]);
    // P: gyroADC[0] previous + zigzag(8) = 0
    log.extend_from_slice(&[b'P', 0x00, 0x08]);
    // garbage, then the end of the log
    log.extend_from_slice(&[0xff, 0x00]);
    log.extend_from_slice(b"E\xffEnd of log\0");
    log
}

#[test]
fn log_stats_of_a_small_log() {
    let log = small_log();
    let mut reader = BlackboxReader::from_bytes(&log).unwrap();
    let stats = consume(&mut reader, log.len());

    assert_eq!(stats.main, 3);
    assert_eq!(stats.gnss, 0);
    assert_eq!(stats.slow, 1);
    assert_eq!(stats.event, 2);
    assert_eq!(stats.garbage, 0);
    assert_eq!(stats.remaining_bytes, 0);
    assert_eq!(stats.gyro_adc0_histo.zero, 1);
    assert_eq!(stats.gyro_adc0_histo.neg[32 - 2 - 1], 2);
    assert_eq!(stats.gyro_adc0_histo.pos, [0; 32]);
    assert_eq!(reader.last_loop_iteration, 4);
    assert_eq!(reader.last_time, 104);
}

fn multilog_stats(file: &[u8]) -> Vec<Result<LogStats, BlackboxReaderError>> {
    let mut finder = MultiSegmentBlackboxReader::from_bytes(file);
    let mut all = Vec::new();
    while let Some(opened) = finder.next() {
        all.push(opened.map(|mut reader| {
            let read_before = reader.bytes_read();
            let mut stats = consume(&mut reader, file.len());
            // what the reader has read behind the header of its log
            stats.body_bytes = reader.bytes_read() - read_before;
            stats
        }));
    }
    all
}

#[test]
fn log_stats() {
    // an event whose varint does not end: no reader reads on behind it
    let barrier = [b'E', 0x00, 0x80, 0x80, 0x80, 0x80, 0x80];
    let mut file = Vec::new();
    file.extend_from_slice(&small_log());
    file.extend_from_slice(&barrier);
    file.extend_from_slice(b"H Product:Blackbox\n?");
    let mut third = small_log();
    third.truncate(third.len() - 13);
    third.extend_from_slice(&[b'P', 0x00, 0x0a, b'P', 0x00, 0x7f]);
    third.extend_from_slice(b"E\xffEnd of log\0");
    file.extend_from_slice(&third);

    let stats = multilog_stats(&file);
    assert_eq!(stats.len(), 3);

    let first = stats[0].as_ref().ok().unwrap();
    assert_eq!(first.body_bytes, 30);
    assert_eq!(first.main, 3);
    assert_eq!(first.slow, 1);
    assert_eq!(first.event, 2);
    assert_eq!(first.gnss, 0);
    assert_eq!(first.garbage, 0);
    assert_eq!(first.gyro_adc0_histo.zero, 1);
    assert_eq!(first.gyro_adc0_histo.neg[32 - 2 - 1], 2);
    assert_eq!(first.gyro_adc0_histo.pos, [0; 32]);

    assert_eq!(stats[1].as_ref().err(), Some(&BlackboxReaderError::ParseHeader));

    let third = stats[2].as_ref().ok().unwrap();
    assert_eq!(third.body_bytes, 36);
    assert_eq!(third.main, 5);
    assert_eq!(third.slow, 1);
    assert_eq!(third.event, 2);
    assert_eq!(third.gnss, 0);
    assert_eq!(third.garbage, 0);
    // gyroADC[0]: -5, -4, 0, then 0 + 5 and 5 - 64
    assert_eq!(third.gyro_adc0_histo.zero, 1);
    assert_eq!(third.gyro_adc0_histo.pos[2], 1);
    assert_eq!(third.gyro_adc0_histo.neg[32 - 2 - 1], 2);
    assert_eq!(third.gyro_adc0_histo.neg[32 - 5 - 1], 1);
}
