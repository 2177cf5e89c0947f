use fmcw_tlv::tlv_translator::{
    parse_detected_points, parse_frame, parse_raw_range_profile, Frame, FrameHeader,
    PointCloudPoint, TlvHeader, TlvType,
};

fn point_of_floats(x: f32, y: f32, z: f32, d: f32) -> PointCloudPoint {
    PointCloudPoint { x: x.to_bits(), y: y.to_bits(), z: z.to_bits(), d: d.to_bits() }
}

fn bytes_of_floats(x: f32, y: f32, z: f32, d: f32) -> Vec<u8> {
    let mut bytes = Vec::new();
    bytes.extend_from_slice(&x.to_le_bytes());
    bytes.extend_from_slice(&y.to_le_bytes());
    bytes.extend_from_slice(&z.to_le_bytes());
    bytes.extend_from_slice(&d.to_le_bytes());
    bytes
}

fn record_bytes(record_type: u32, payload: &[u8]) -> Vec<u8> {
    let mut bytes = Vec::new();
    bytes.extend_from_slice(&record_type.to_le_bytes());
    bytes.extend_from_slice(&(payload.len() as u32).to_le_bytes());
    bytes.extend_from_slice(payload);
    bytes
}

fn header_with_number(frame_number: u32) -> FrameHeader {
    FrameHeader {
        magic_word: 0x0708_0506_0304_0102,
        version: 1,
        package_length: 40,
        platform: 0x000a_6843,
        frame_number,
        time: 0,
        num_detected_obj: 0,
        num_tlv: 0,
        subframe_number: 0,
    }
}

fn decibels(sample: u16) -> f64 {
    20.0 * f64::log10(2f64.powf(sample as f64 / 512.0))
}

#[test]
fn empty_frame_has_no_measurements() {
    let frame = Frame::empty(63);
    assert_eq!(frame.frame_num(), 63);
    assert!(frame.pointcloud().is_none());
    assert!(frame.range_profile().is_none());
}

#[test]
fn setters_replace_measurements() {
    let mut frame = Frame::empty(63);
    let pc1 = PointCloudPoint::empty();
    let pc2 = point_of_floats(1.0, 2.0, 3.0, 4.0);
    frame.set_pointcloud(vec![pc1, pc2]);
    frame.set_range_profile(vec![512, 0, 1024]);
    assert_eq!(frame.frame_num(), 63);
    assert_eq!(frame.pointcloud(), Some(&vec![pc1, pc2]));
    assert_eq!(frame.range_profile(), Some(&vec![512u16, 0, 1024]));
    frame.set_pointcloud(vec![pc2]);
    assert_eq!(frame.pointcloud(), Some(&vec![pc2]));
    assert_eq!(frame.range_profile(), Some(&vec![512u16, 0, 1024]));
}

#[test]
fn empty_point_is_all_zero() {
    let p = PointCloudPoint::empty();
    assert_eq!(p, PointCloudPoint { x: 0, y: 0, z: 0, d: 0 });
    assert_eq!(f32::from_bits(p.x), 0.0);
    assert_eq!(f32::from_bits(p.d), 0.0);
}

#[test]
fn point_from_bytes_reads_little_endian_floats() {
    let mut raw = [0u8; 16];
    raw.copy_from_slice(&bytes_of_floats(1.0, 2.0, 3.0, 4.0));
    let p = PointCloudPoint::from_bytes(raw);
    assert_eq!(p.x, 0x3f80_0000);
    assert_eq!(f32::from_bits(p.x), 1.0);
    assert_eq!(f32::from_bits(p.y), 2.0);
    assert_eq!(f32::from_bits(p.z), 3.0);
    assert_eq!(f32::from_bits(p.d), 4.0);
}

#[test]
fn point_round_trip_is_bit_exact() {
    let values = [
        (1.5f32, -2.25f32, 1.0e-20f32, 3.0e20f32),
        (0.0, -0.0, f32::INFINITY, f32::NEG_INFINITY),
        (f32::MIN_POSITIVE, f32::MAX, f32::EPSILON, 0.1),
    ];
    for (x, y, z, d) in values {
        let p = point_of_floats(x, y, z, d);
        let bytes = p.to_bytes();
        assert_eq!(bytes.to_vec(), bytes_of_floats(x, y, z, d));
        let q = PointCloudPoint::from_bytes(bytes);
        assert_eq!(q, p);
        assert_eq!(f32::from_bits(q.x).to_bits(), x.to_bits());
        assert_eq!(f32::from_bits(q.y).to_bits(), y.to_bits());
        assert_eq!(f32::from_bits(q.z).to_bits(), z.to_bits());
        assert_eq!(f32::from_bits(q.d).to_bits(), d.to_bits());
    }
}

#[test]
fn point_round_trip_keeps_nan_payload() {
    let p = PointCloudPoint { x: 0x7fc0_1234, y: 0xffff_ffff, z: 0x8000_0000, d: 0x0000_0001 };
    assert_eq!(PointCloudPoint::from_bytes(p.to_bytes()), p);
    assert_eq!(
        p.to_bytes(),
        [0x34, 0x12, 0xc0, 0x7f, 0xff, 0xff, 0xff, 0xff, 0, 0, 0, 0x80, 1, 0, 0, 0]
    );
}

#[test]
fn tlv_type_from_num_knows_one_to_nine() {
    assert!(TlvType::from_num(0).is_none());
    assert_eq!(TlvType::from_num(1), Some(TlvType::DetectedPoints));
    assert_eq!(TlvType::from_num(2), Some(TlvType::RangeProfile));
    assert_eq!(TlvType::from_num(3), Some(TlvType::NoiseFloorProfile));
    assert_eq!(TlvType::from_num(4), Some(TlvType::AzimuthStaticHeatmap));
    assert_eq!(TlvType::from_num(5), Some(TlvType::RangeDopplerHeatmap));
    assert_eq!(TlvType::from_num(6), Some(TlvType::PerformanceStatistics));
    assert_eq!(TlvType::from_num(7), Some(TlvType::SideInforForDetectedPoints));
    assert_eq!(TlvType::from_num(8), Some(TlvType::AzimuthElevationStaticHeatmap));
    assert_eq!(TlvType::from_num(9), Some(TlvType::TemperatureStatistics));
    assert!(TlvType::from_num(10).is_none());
    assert!(TlvType::from_num(usize::MAX).is_none());
}

#[test]
fn frame_header_fields_sit_at_fixed_offsets() {
    let mut data = [0u8; 40];
    data[..8].copy_from_slice(&[0x02, 0x01, 0x04, 0x03, 0x06, 0x05, 0x08, 0x07]);
    data[8..12].copy_from_slice(&0x0302_0104u32.to_le_bytes());
    data[12..16].copy_from_slice(&1234u32.to_le_bytes());
    data[16..20].copy_from_slice(&0x000a_6843u32.to_le_bytes());
    data[20..24].copy_from_slice(&77u32.to_le_bytes());
    data[24..28].copy_from_slice(&0xdead_beefu32.to_le_bytes());
    data[28..32].copy_from_slice(&5u32.to_le_bytes());
    data[32..36].copy_from_slice(&3u32.to_le_bytes());
    data[36..40].copy_from_slice(&9u32.to_le_bytes());
    let header = FrameHeader::new(data);
    assert_eq!(header.magic_word, 0x0708_0506_0304_0102);
    assert_eq!(header.version, 0x0302_0104);
    assert_eq!(header.package_length, 1234);
    assert_eq!(header.platform, 0x000a_6843);
    assert_eq!(header.frame_number, 77);
    assert_eq!(header.time, 0xdead_beef);
    assert_eq!(header.num_detected_obj, 5);
    assert_eq!(header.num_tlv, 3);
    assert_eq!(header.subframe_number, 9);
    assert_eq!(header.frame_len(), 1234);
    assert_eq!(header.frame_num(), 77);
    assert_eq!(header.obj_count(), 5);
    assert_eq!(header.tlv_count(), 3);
    assert_eq!(header.subframe_num(), 9);
}

#[test]
fn frame_header_decode_reads_at_an_offset() {
    let mut bytes = vec![0xaau8; 3];
    bytes.extend_from_slice(&[0x02, 0x01, 0x04, 0x03, 0x06, 0x05, 0x08, 0x07]);
    for field in [1u32, 0xffff_ffff, 3, 4, 5, 6, 7, 8] {
        bytes.extend_from_slice(&field.to_le_bytes());
    }
    let header = FrameHeader::decode(&bytes, 3);
    assert_eq!(header.version, 1);
    assert_eq!(header.package_length, 0xffff_ffff);
    assert_eq!(header.subframe_number, 8);
}

#[test]
fn tlv_header_is_taken_off_the_front() {
    let mut input = record_bytes(2, &[9, 8, 7]);
    let header = TlvHeader::extract_tlv_header(&mut input).unwrap();
    assert_eq!(header.tlv_type(), 2);
    assert_eq!(header.tlv_len(), 3);
    assert_eq!(input, vec![9, 8, 7]);
    assert!(TlvHeader::extract_tlv_header(&mut input).is_none());
    assert_eq!(input, vec![9, 8, 7]);
}

#[test]
fn tlv_header_new_reads_type_then_length() {
    let header = TlvHeader::new([1, 0, 0, 0, 0x10, 0x02, 0, 0]);
    assert_eq!(header, TlvHeader { record_type: 1, record_length: 0x0210 });
}

#[test]
fn detected_points_decode_each_chunk_in_order() {
    let mut payload = bytes_of_floats(1.0, 2.0, 3.0, 4.0);
    payload.extend_from_slice(&bytes_of_floats(-1.0, 0.5, 8.0, -0.25));
    let points = parse_detected_points(payload);
    assert_eq!(
        points,
        vec![point_of_floats(1.0, 2.0, 3.0, 4.0), point_of_floats(-1.0, 0.5, 8.0, -0.25)]
    );
}

#[test]
fn detected_points_drop_a_short_trailing_chunk() {
    let mut payload = bytes_of_floats(1.0, 2.0, 3.0, 4.0);
    payload.extend_from_slice(&[1, 2, 3, 4, 5, 6, 7, 8, 9, 10, 11, 12, 13, 14, 15]);
    assert_eq!(parse_detected_points(payload), vec![point_of_floats(1.0, 2.0, 3.0, 4.0)]);
    assert!(parse_detected_points(vec![0; 15]).is_empty());
    assert!(parse_detected_points(vec![]).is_empty());
}

#[test]
fn range_profile_samples_are_big_endian() {
    let samples = parse_raw_range_profile(vec![0x02, 0x00, 0x00, 0x01, 0xff, 0xfe]);
    assert_eq!(samples, vec![512, 1, 0xfffe]);
}

#[test]
fn range_profile_drops_a_trailing_odd_byte() {
    assert_eq!(parse_raw_range_profile(vec![0x01, 0x02, 0x03]), vec![0x0102]);
    assert!(parse_raw_range_profile(vec![0x01]).is_empty());
    assert!(parse_raw_range_profile(vec![]).is_empty());
}

#[test]
fn q9_sample_512_is_six_decibels() {
    let samples = parse_raw_range_profile(vec![0x02, 0x00]);
    assert_eq!(samples, vec![512]);
    let expected = 20.0 * f64::log10(2.0);
    assert!((decibels(samples[0]) - expected).abs() < 1e-9);
    assert!((decibels(samples[0]) - 6.0206).abs() < 1e-4);
    assert_eq!(decibels(0), 0.0);
}

#[test]
fn parse_frame_fills_both_measurements() {
    let mut body = record_bytes(1, &bytes_of_floats(1.0, 2.0, 3.0, 4.0));
    body.extend_from_slice(&record_bytes(2, &[0x02, 0x00, 0x04, 0x00]));
    let frame = parse_frame(header_with_number(7), body);
    assert_eq!(frame.frame_num(), 7);
    assert_eq!(frame.pointcloud(), Some(&vec![point_of_floats(1.0, 2.0, 3.0, 4.0)]));
    assert_eq!(frame.range_profile(), Some(&vec![512u16, 1024]));
}

#[test]
fn parse_frame_skips_known_records_it_does_not_decode() {
    for code in 3u32..=9 {
        let mut body = record_bytes(code, &[1, 2, 3, 4, 5]);
        body.extend_from_slice(&record_bytes(2, &[0x00, 0x07]));
        let frame = parse_frame(header_with_number(1), body);
        assert!(frame.pointcloud().is_none());
        assert_eq!(frame.range_profile(), Some(&vec![7u16]));
    }
}

#[test]
fn parse_frame_stops_at_an_unknown_type() {
    for code in [0u32, 10, 0xffff_ffff] {
        let mut body = record_bytes(code, &[1, 2, 3, 4]);
        body.extend_from_slice(&record_bytes(2, &[0x02, 0x00]));
        body.extend_from_slice(&record_bytes(1, &bytes_of_floats(1.0, 2.0, 3.0, 4.0)));
        let frame = parse_frame(header_with_number(5), body);
        assert_eq!(frame.frame_num(), 5);
        assert!(frame.range_profile().is_none());
        assert!(frame.pointcloud().is_none());
    }
}

#[test]
fn parse_frame_keeps_records_before_an_unknown_type() {
    let mut body = record_bytes(2, &[0x02, 0x00]);
    body.extend_from_slice(&record_bytes(42, &[]));
    body.extend_from_slice(&record_bytes(1, &bytes_of_floats(1.0, 2.0, 3.0, 4.0)));
    let frame = parse_frame(header_with_number(5), body);
    assert_eq!(frame.range_profile(), Some(&vec![512u16]));
    assert!(frame.pointcloud().is_none());
}

#[test]
fn parse_frame_drops_a_truncated_record() {
    let mut body = record_bytes(2, &[0x00, 0x01]);
    body.extend_from_slice(&1u32.to_le_bytes());
    body.extend_from_slice(&32u32.to_le_bytes());
    body.extend_from_slice(&bytes_of_floats(1.0, 2.0, 3.0, 4.0));
    let frame = parse_frame(header_with_number(5), body);
    assert_eq!(frame.range_profile(), Some(&vec![1u16]));
    assert!(frame.pointcloud().is_none());
}

#[test]
fn parse_frame_ignores_trailing_padding() {
    let mut body = record_bytes(2, &[0x00, 0x01]);
    body.extend_from_slice(&[0, 0, 0, 0, 0, 0, 0]);
    let frame = parse_frame(header_with_number(5), body);
    assert_eq!(frame.range_profile(), Some(&vec![1u16]));
    let frame = parse_frame(header_with_number(6), vec![]);
    assert_eq!(frame.frame_num(), 6);
    assert!(frame.range_profile().is_none() && frame.pointcloud().is_none());
}

#[test]
fn parse_frame_lets_a_later_record_replace_an_earlier_one() {
    let mut body = record_bytes(2, &[0x00, 0x01]);
    body.extend_from_slice(&record_bytes(2, &[0x00, 0x02, 0x00, 0x03]));
    let frame = parse_frame(header_with_number(5), body);
    assert_eq!(frame.range_profile(), Some(&vec![2u16, 3]));
}

#[test]
fn parse_frame_accepts_an_empty_payload() {
    let body = record_bytes(1, &[]);
    let frame = parse_frame(header_with_number(5), body);
    assert_eq!(frame.pointcloud(), Some(&vec![]));
}
