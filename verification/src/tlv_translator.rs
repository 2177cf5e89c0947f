//! Frames, their headers and records, and the decoding of one frame.
//!
//! A frame is a 40-byte header followed by TLV records. Each record is an
//! 8-byte header (type code, payload length) and its payload. Detected points
//! and the range profile are decoded; the other known record types are
//! skipped; an unknown type code ends the decoding of that frame.

use vstd::prelude::*;
use crate::wire::{le_bytes_of_u32, lemma_u32_le_of_written, read_u16_be, read_u32_le, read_u64_le, u16_be, u32_le, u64_le};

verus! {

/// Length of a frame header in bytes.
pub const HEADER_LEN: usize = 40;

/// Length of a record header in bytes.
pub const TLV_HEADER_LEN: usize = 8;

/// Length of one detected point in bytes.
pub const POINT_LEN: usize = 16;

/// Whether the magic word `02 01 04 03 06 05 08 07` stands at offset `i` of `s`.
pub open spec fn magic_at(s: Seq<u8>, i: int) -> bool {
    &&& 0 <= i
    &&& i + 8 <= s.len()
    &&& s[i] == 0x02
    &&& s[i + 1] == 0x01
    &&& s[i + 2] == 0x04
    &&& s[i + 3] == 0x03
    &&& s[i + 4] == 0x06
    &&& s[i + 5] == 0x05
    &&& s[i + 6] == 0x08
    &&& s[i + 7] == 0x07
}

/// One detected target: position and Doppler velocity.
///
/// Each field holds the bit pattern of a 32-bit IEEE 754 value exactly as it
/// arrived, so that decoding loses nothing; `f32::from_bits` gives the number.
#[derive(Clone, Copy, Debug, PartialEq, Eq, Structural)]
pub struct PointCloudPoint {
    pub x: u32,
    pub y: u32,
    pub z: u32,
    pub d: u32,
}

/// The point that the 16 bytes at `at` encode: `x`, `y`, `z`, `d`, each low byte first.
pub open spec fn point_at(s: Seq<u8>, at: int) -> PointCloudPoint {
    PointCloudPoint {
        x: u32_le(s, at) as u32,
        y: u32_le(s, at + 4) as u32,
        z: u32_le(s, at + 8) as u32,
        d: u32_le(s, at + 12) as u32,
    }
}

/// The 16 bytes that encode `p`.
pub open spec fn point_bytes(p: PointCloudPoint) -> Seq<u8> {
    le_bytes_of_u32(p.x) + le_bytes_of_u32(p.y) + le_bytes_of_u32(p.z) + le_bytes_of_u32(p.d)
}

impl PointCloudPoint {
    /// Decodes one point from its 16 bytes.
    pub fn from_bytes(data: [u8; 16]) -> (p: PointCloudPoint)
        ensures
            p == point_at(data@, 0),
    {
        let bytes: &[u8] = data.as_slice();
        PointCloudPoint {
            x: read_u32_le(bytes, 0),
            y: read_u32_le(bytes, 4),
            z: read_u32_le(bytes, 8),
            d: read_u32_le(bytes, 12),
        }
    }

    /// Encodes the point into the 16 bytes that `from_bytes` decodes to it.
    pub fn to_bytes(&self) -> (data: [u8; 16])
        ensures
            data@ == point_bytes(*self),
            point_at(data@, 0) == *self,
    {
        let x: u32 = self.x;
        let y: u32 = self.y;
        let z: u32 = self.z;
        let d: u32 = self.d;
        let data: [u8; 16] = [
            (x % 256) as u8,
            (x / 256 % 256) as u8,
            (x / 65536 % 256) as u8,
            (x / 16777216) as u8,
            (y % 256) as u8,
            (y / 256 % 256) as u8,
            (y / 65536 % 256) as u8,
            (y / 16777216) as u8,
            (z % 256) as u8,
            (z / 256 % 256) as u8,
            (z / 65536 % 256) as u8,
            (z / 16777216) as u8,
            (d % 256) as u8,
            (d / 256 % 256) as u8,
            (d / 65536 % 256) as u8,
            (d / 16777216) as u8,
        ];
        proof {
            assert(data@ =~= point_bytes(*self));
            lemma_point_round_trip(*self);
        }
        data
    }

    /// The point at the origin with no velocity.
    pub fn empty() -> (p: PointCloudPoint)
        ensures
            p == (PointCloudPoint { x: 0, y: 0, z: 0, d: 0 }),
    {
        PointCloudPoint { x: 0, y: 0, z: 0, d: 0 }
    }
}

/// Decoding undoes encoding, for every bit pattern.
pub proof fn lemma_point_round_trip(p: PointCloudPoint)
    ensures
        point_bytes(p).len() == 16,
        point_at(point_bytes(p), 0) == p,
{
    let s = point_bytes(p);
    assert(s.len() == 16);
    assert(s.subrange(0, 4) =~= le_bytes_of_u32(p.x));
    assert(s.subrange(4, 8) =~= le_bytes_of_u32(p.y));
    assert(s.subrange(8, 12) =~= le_bytes_of_u32(p.z));
    assert(s.subrange(12, 16) =~= le_bytes_of_u32(p.d));
    lemma_u32_le_of_written(s, 0, p.x);
    lemma_u32_le_of_written(s, 4, p.y);
    lemma_u32_le_of_written(s, 8, p.z);
    lemma_u32_le_of_written(s, 12, p.d);
}

/// The kinds of record that a frame may carry, by their type codes 1 to 9.
#[derive(Clone, Copy, Debug, PartialEq, Eq, Structural)]
pub enum TlvType {
    DetectedPoints,
    RangeProfile,
    NoiseFloorProfile,
    AzimuthStaticHeatmap,
    RangeDopplerHeatmap,
    PerformanceStatistics,
    SideInforForDetectedPoints,
    AzimuthElevationStaticHeatmap,
    TemperatureStatistics,
}

/// The record kind that the type code `n` names, if it names one.
pub open spec fn tlv_type_of(n: int) -> Option<TlvType> {
    if n == 1 {
        Some(TlvType::DetectedPoints)
    } else if n == 2 {
        Some(TlvType::RangeProfile)
    } else if n == 3 {
        Some(TlvType::NoiseFloorProfile)
    } else if n == 4 {
        Some(TlvType::AzimuthStaticHeatmap)
    } else if n == 5 {
        Some(TlvType::RangeDopplerHeatmap)
    } else if n == 6 {
        Some(TlvType::PerformanceStatistics)
    } else if n == 7 {
        Some(TlvType::SideInforForDetectedPoints)
    } else if n == 8 {
        Some(TlvType::AzimuthElevationStaticHeatmap)
    } else if n == 9 {
        Some(TlvType::TemperatureStatistics)
    } else {
        None
    }
}

impl TlvType {
    /// The record kind for a type code; `None` for a code outside 1 to 9.
    pub fn from_num(n: usize) -> (t: Option<TlvType>)
        ensures
            t == tlv_type_of(n as int),
            t is Some <==> 1 <= n <= 9,
    {
        if n < 1 || n > 9 {
            return None;
        }
        let result = match n {
            1 => TlvType::DetectedPoints,
            2 => TlvType::RangeProfile,
            3 => TlvType::NoiseFloorProfile,
            4 => TlvType::AzimuthStaticHeatmap,
            5 => TlvType::RangeDopplerHeatmap,
            6 => TlvType::PerformanceStatistics,
            7 => TlvType::SideInforForDetectedPoints,
            8 => TlvType::AzimuthElevationStaticHeatmap,
            _ => TlvType::TemperatureStatistics,
        };
        Some(result)
    }
}

/// The nine fields of a frame header.
#[derive(Clone, Copy, Debug, PartialEq, Eq, Structural)]
pub struct FrameHeader {
    pub magic_word: u64,
    pub version: u32,
    pub package_length: u32,
    pub platform: u32,
    pub frame_number: u32,
    pub time: u32,
    pub num_detected_obj: u32,
    pub num_tlv: u32,
    pub subframe_number: u32,
}

/// The header that the 40 bytes at `at` encode, every field low byte first.
pub open spec fn header_at(s: Seq<u8>, at: int) -> FrameHeader {
    FrameHeader {
        magic_word: u64_le(s, at) as u64,
        version: u32_le(s, at + 8) as u32,
        package_length: u32_le(s, at + 12) as u32,
        platform: u32_le(s, at + 16) as u32,
        frame_number: u32_le(s, at + 20) as u32,
        time: u32_le(s, at + 24) as u32,
        num_detected_obj: u32_le(s, at + 28) as u32,
        num_tlv: u32_le(s, at + 32) as u32,
        subframe_number: u32_le(s, at + 36) as u32,
    }
}

impl FrameHeader {
    /// Decodes a header from its 40 bytes, field by field at fixed offsets.
    pub fn new(data: [u8; 40]) -> (h: FrameHeader)
        ensures
            h == header_at(data@, 0),
    {
        FrameHeader::decode(data.as_slice(), 0)
    }

    /// Decodes the header that starts at offset `at` of `bytes`.
    pub fn decode(bytes: &[u8], at: usize) -> (h: FrameHeader)
        requires
            at + 40 <= bytes.len(),
        ensures
            h == header_at(bytes@, at as int),
    {
        FrameHeader {
            magic_word: read_u64_le(bytes, at),
            version: read_u32_le(bytes, at + 8),
            package_length: read_u32_le(bytes, at + 12),
            platform: read_u32_le(bytes, at + 16),
            frame_number: read_u32_le(bytes, at + 20),
            time: read_u32_le(bytes, at + 24),
            num_detected_obj: read_u32_le(bytes, at + 28),
            num_tlv: read_u32_le(bytes, at + 32),
            subframe_number: read_u32_le(bytes, at + 36),
        }
    }

    /// Total length of the frame in bytes, this header included.
    pub fn frame_len(&self) -> (n: usize)
        ensures
            n == self.package_length,
    {
        self.package_length as usize
    }

    /// Sequence number of the frame.
    pub fn frame_num(&self) -> (n: usize)
        ensures
            n == self.frame_number,
    {
        self.frame_number as usize
    }

    /// Number of the subframe.
    pub fn subframe_num(&self) -> (n: usize)
        ensures
            n == self.subframe_number,
    {
        self.subframe_number as usize
    }

    /// Number of records that the sensor says follow; advisory only.
    pub fn tlv_count(&self) -> (n: usize)
        ensures
            n == self.num_tlv,
    {
        self.num_tlv as usize
    }

    /// Number of detected objects that the sensor reports; advisory only.
    pub fn obj_count(&self) -> (n: usize)
        ensures
            n == self.num_detected_obj,
    {
        self.num_detected_obj as usize
    }
}

/// The two fields of a record header.
#[derive(Clone, Copy, Debug, PartialEq, Eq, Structural)]
pub struct TlvHeader {
    pub record_type: u32,
    pub record_length: u32,
}

/// The record header that the 8 bytes at `at` encode.
pub open spec fn tlv_header_at(s: Seq<u8>, at: int) -> TlvHeader {
    TlvHeader { record_type: u32_le(s, at) as u32, record_length: u32_le(s, at + 4) as u32 }
}

impl TlvHeader {
    /// Takes a record header off the front of `input`.
    ///
    /// With fewer than 8 bytes there is no header and `input` stays as it was.
    pub fn extract_tlv_header(input: &mut Vec<u8>) -> (h: Option<TlvHeader>)
        ensures
            old(input)@.len() < 8 ==> h is None && final(input)@ == old(input)@,
            old(input)@.len() >= 8 ==> h == Some(tlv_header_at(old(input)@, 0)) && final(input)@
                == old(input)@.skip(8),
    {
        if input.len() < TLV_HEADER_LEN {
            return None;
        }
        let header = TlvHeader {
            record_type: read_u32_le(input.as_slice(), 0),
            record_length: read_u32_le(input.as_slice(), 4),
        };
        let rest = input.split_off(TLV_HEADER_LEN);
        *input = rest;
        Some(header)
    }

    /// Decodes a record header from its 8 bytes.
    pub fn new(data: [u8; 8]) -> (h: TlvHeader)
        ensures
            h == tlv_header_at(data@, 0),
    {
        let bytes: &[u8] = data.as_slice();
        TlvHeader { record_type: read_u32_le(bytes, 0), record_length: read_u32_le(bytes, 4) }
    }

    /// The type code of the record.
    pub fn tlv_type(&self) -> (n: usize)
        ensures
            n == self.record_type,
    {
        self.record_type as usize
    }

    /// The length of the payload in bytes, the record header not included.
    pub fn tlv_len(&self) -> (n: usize)
        ensures
            n == self.record_length,
    {
        self.record_length as usize
    }
}

/// What a frame holds, as mathematical values.
pub struct FrameView {
    pub frame_num: nat,
    pub pointcloud: Option<Seq<PointCloudPoint>>,
    pub range_profile: Option<Seq<u16>>,
}

/// The measurements of one frame.
///
/// The range profile holds the samples as they were sent: 16-bit log
/// magnitudes in Q9 fixed point, so that sample `v` stands for
/// `20 * log10(2^(v / 512))` dB.
#[derive(Clone, Debug)]
pub struct Frame {
    frame_num: usize,
    pointcloud: Option<Vec<PointCloudPoint>>,
    range_profile: Option<Vec<u16>>,
}

impl View for Frame {
    type V = FrameView;

    closed spec fn view(&self) -> FrameView {
        FrameView {
            frame_num: self.frame_num as nat,
            pointcloud: match self.pointcloud {
                Some(pc) => Some(pc@),
                None => None,
            },
            range_profile: match self.range_profile {
                Some(rp) => Some(rp@),
                None => None,
            },
        }
    }
}

/// The view of a frame with the given number and no measurements.
pub open spec fn empty_frame(frame_num: nat) -> FrameView {
    FrameView { frame_num, pointcloud: None, range_profile: None }
}

impl Frame {
    /// A frame with the given number and no measurements.
    pub fn empty(frame_num: usize) -> (frame: Frame)
        ensures
            frame@ == empty_frame(frame_num as nat),
    {
        Frame { frame_num, pointcloud: None, range_profile: None }
    }

    /// Replaces the point cloud of the frame.
    pub fn set_pointcloud(&mut self, pc: Vec<PointCloudPoint>)
        ensures
            final(self)@ == (FrameView { pointcloud: Some(pc@), ..old(self)@ }),
    {
        self.pointcloud = Some(pc);
    }

    /// Replaces the range profile of the frame.
    pub fn set_range_profile(&mut self, rp: Vec<u16>)
        ensures
            final(self)@ == (FrameView { range_profile: Some(rp@), ..old(self)@ }),
    {
        self.range_profile = Some(rp);
    }

    /// The sequence number of the frame.
    pub fn frame_num(&self) -> (n: usize)
        ensures
            n == self@.frame_num,
    {
        self.frame_num
    }

    /// The detected points, if the frame carried any such record.
    pub fn pointcloud(&self) -> (pc: Option<&Vec<PointCloudPoint>>)
        ensures
            match pc {
                Some(v) => self@.pointcloud == Some(v@),
                None => self@.pointcloud is None,
            },
    {
        self.pointcloud.as_ref()
    }

    /// The range profile samples, if the frame carried any such record.
    pub fn range_profile(&self) -> (rp: Option<&Vec<u16>>)
        ensures
            match rp {
                Some(v) => self@.range_profile == Some(v@),
                None => self@.range_profile is None,
            },
    {
        self.range_profile.as_ref()
    }
}

/// The points of a detected-points payload: one for each whole 16 bytes, in order.
pub open spec fn points_of(payload: Seq<u8>) -> Seq<PointCloudPoint> {
    Seq::new((payload.len() / 16) as nat, |i: int| point_at(payload, 16 * i))
}

/// The samples of a range-profile payload: one for each whole pair of bytes, in order.
pub open spec fn samples_of(payload: Seq<u8>) -> Seq<u16> {
    Seq::new((payload.len() / 2) as nat, |i: int| u16_be(payload, 2 * i) as u16)
}

/// The frame that results from decoding the records in `body` onto `frame`.
///
/// Decoding stops where fewer than 8 bytes remain, where a record claims more
/// bytes than remain, and at the first type code outside 1 to 9. A later
/// record of a kind replaces an earlier one.
pub open spec fn decode_records(body: Seq<u8>, frame: FrameView) -> FrameView
    decreases body.len(),
{
    if body.len() < 8 {
        frame
    } else {
        let header = tlv_header_at(body, 0);
        let rest = body.skip(8);
        if header.record_length > rest.len() {
            frame
        } else {
            let payload = rest.take(header.record_length as int);
            let after = rest.skip(header.record_length as int);
            match tlv_type_of(header.record_type as int) {
                None => frame,
                Some(TlvType::DetectedPoints) => decode_records(
                    after,
                    FrameView { pointcloud: Some(points_of(payload)), ..frame },
                ),
                Some(TlvType::RangeProfile) => decode_records(
                    after,
                    FrameView { range_profile: Some(samples_of(payload)), ..frame },
                ),
                Some(_) => decode_records(after, frame),
            }
        }
    }
}

/// The records of a frame never change its number.
pub proof fn lemma_frame_number_kept(body: Seq<u8>, frame: FrameView)
    ensures
        decode_records(body, frame).frame_num == frame.frame_num,
    decreases body.len(),
{
    if body.len() >= 8 {
        let header = tlv_header_at(body, 0);
        let rest = body.skip(8);
        if header.record_length <= rest.len() {
            let payload = rest.take(header.record_length as int);
            let after = rest.skip(header.record_length as int);
            match tlv_type_of(header.record_type as int) {
                None => {},
                Some(TlvType::DetectedPoints) => {
                    lemma_frame_number_kept(
                        after,
                        FrameView { pointcloud: Some(points_of(payload)), ..frame },
                    );
                },
                Some(TlvType::RangeProfile) => {
                    lemma_frame_number_kept(
                        after,
                        FrameView { range_profile: Some(samples_of(payload)), ..frame },
                    );
                },
                Some(_) => {
                    lemma_frame_number_kept(after, frame);
                },
            }
        }
    }
}

/// The frame that a header and the body bytes behind it decode to.
pub open spec fn frame_of(header: FrameHeader, body: Seq<u8>) -> FrameView {
    decode_records(body, empty_frame(header.frame_number as nat))
}

/// Decodes a detected-points payload; a trailing piece shorter than 16 bytes is dropped.
pub fn parse_detected_points(data: Vec<u8>) -> (points: Vec<PointCloudPoint>)
    ensures
        points@ == points_of(data@),
{
    let mut result: Vec<PointCloudPoint> = Vec::new();
    let count: usize = data.len() / POINT_LEN;
    let mut i: usize = 0;
    while i < count
        invariant
            count == data.len() / 16,
            i <= count,
            result@.len() == i,
            forall|j: int| 0 <= j < i ==> result@[j] == point_at(data@, 16 * j),
        decreases count - i,
    {
        let o: usize = POINT_LEN * i;
        let raw: [u8; 16] = [
            data[o],
            data[o + 1],
            data[o + 2],
            data[o + 3],
            data[o + 4],
            data[o + 5],
            data[o + 6],
            data[o + 7],
            data[o + 8],
            data[o + 9],
            data[o + 10],
            data[o + 11],
            data[o + 12],
            data[o + 13],
            data[o + 14],
            data[o + 15],
        ];
        result.push(PointCloudPoint::from_bytes(raw));
        i += 1;
    }
    assert(result@ =~= points_of(data@));
    result
}

/// Decodes a range-profile payload into its samples; a trailing odd byte is dropped.
pub fn parse_raw_range_profile(data: Vec<u8>) -> (samples: Vec<u16>)
    ensures
        samples@ == samples_of(data@),
{
    let mut result: Vec<u16> = Vec::new();
    let count: usize = data.len() / 2;
    let mut i: usize = 0;
    while i < count
        invariant
            count == data.len() / 2,
            i <= count,
            result@.len() == i,
            forall|j: int| 0 <= j < i ==> result@[j] as int == u16_be(data@, 2 * j),
        decreases count - i,
    {
        result.push(read_u16_be(data.as_slice(), 2 * i));
        i += 1;
    }
    assert(result@ =~= samples_of(data@));
    result
}

/// Decodes the records of one frame whose header has been read already.
pub fn parse_frame(frame_header: FrameHeader, data: Vec<u8>) -> (frame: Frame)
    ensures
        frame@ == frame_of(frame_header, data@),
        frame@.frame_num == frame_header.frame_number,
{
    let ghost target = frame_of(frame_header, data@);
    proof {
        lemma_frame_number_kept(data@, empty_frame(frame_header.frame_number as nat));
    }
    let mut data = data;
    let mut frame = Frame::empty(frame_header.frame_num());
    loop
        invariant_except_break
            decode_records(data@, frame@) == target,
        ensures
            frame@ == target,
        decreases data@.len(),
    {
        let tlv_header = match TlvHeader::extract_tlv_header(&mut data) {
            Some(h) => h,
            None => { break ; },
        };
        if tlv_header.tlv_len() > data.len() {
            break ;
        }
        let after = data.split_off(tlv_header.tlv_len());
        let raw_tlv_data = data;
        data = after;
        match TlvType::from_num(tlv_header.tlv_type()) {
            Some(TlvType::DetectedPoints) => {
                let point_cloud = parse_detected_points(raw_tlv_data);
                frame.set_pointcloud(point_cloud);
            },
            Some(TlvType::RangeProfile) => {
                let range_profile = parse_raw_range_profile(raw_tlv_data);
                frame.set_range_profile(range_profile);
            },
            Some(_) => {},
            None => { break ; },
        }
    }
    frame
}

/// Whether the magic word stands somewhere in `s`.
pub open spec fn has_magic(s: Seq<u8>) -> bool {
    exists|i: int| magic_at(s, i)
}

/// Whether `off` is the first offset of `s` at which the magic word stands.
pub open spec fn is_first_magic(s: Seq<u8>, off: int) -> bool {
    &&& magic_at(s, off)
    &&& forall|j: int| 0 <= j < off ==> !magic_at(s, j)
}

/// The first offset of `s` at which the magic word stands, where `has_magic(s)`.
pub open spec fn first_magic(s: Seq<u8>) -> int {
    choose|off: int| is_first_magic(s, off)
}

/// The body of a frame of `len` bytes that starts at `off`: what follows its header.
pub open spec fn frame_body(s: Seq<u8>, off: int, len: int) -> Seq<u8> {
    if len > 40 {
        s.subrange(off + 40, off + len)
    } else {
        Seq::empty()
    }
}

/// A frame taken out of a stream, and the bytes that stay behind it.
pub struct Extraction {
    pub frame: FrameView,
    pub rest: Seq<u8>,
}

/// The first frame of `s` and what is left behind it, if `s` holds a whole frame.
///
/// The frame starts at the first magic word. It is whole when the 40 bytes of
/// its header are there and as many bytes as the header gives as the
/// package length. What precedes the magic word leaves with the frame. A
/// package length of 40 or less gives a frame without records.
pub open spec fn next_frame(s: Seq<u8>) -> Option<Extraction> {
    if !has_magic(s) {
        None
    } else {
        let off = first_magic(s);
        if s.len() - off < 40 {
            None
        } else {
            let header = header_at(s, off);
            let len = header.package_length as int;
            if s.len() - off < len {
                None
            } else {
                Some(
                    Extraction {
                        frame: frame_of(header, frame_body(s, off, len)),
                        rest: s.skip(off + len),
                    },
                )
            }
        }
    }
}

/// The first magic word of a sequence is where any first magic word is.
pub proof fn lemma_first_magic_unique(s: Seq<u8>, off: int)
    requires
        is_first_magic(s, off),
    ensures
        has_magic(s),
        first_magic(s) == off,
{
    let chosen = first_magic(s);
    assert(is_first_magic(s, chosen));
    if chosen < off {
        assert(!magic_at(s, chosen));
    }
    if off < chosen {
        assert(!magic_at(s, off));
    }
}

/// Where the magic word stands at all, `first_magic` is where it stands first.
pub proof fn lemma_first_magic_exists(s: Seq<u8>)
    requires
        has_magic(s),
    ensures
        is_first_magic(s, first_magic(s)),
        0 <= first_magic(s),
        first_magic(s) + 8 <= s.len(),
{
    let i = choose|i: int| magic_at(s, i);
    lemma_magic_has_first(s, i);
}

proof fn lemma_magic_has_first(s: Seq<u8>, i: int)
    requires
        magic_at(s, i),
    ensures
        exists|off: int| is_first_magic(s, off),
    decreases i,
{
    if exists|j: int| 0 <= j < i && magic_at(s, j) {
        let j = choose|j: int| 0 <= j < i && magic_at(s, j);
        lemma_magic_has_first(s, j);
    } else {
        assert(is_first_magic(s, i));
    }
}

/// Whether the magic word stands at `index` of `input`.
pub fn is_magic(input: &Vec<u8>, index: usize) -> (found: bool)
    ensures
        found == magic_at(input@, index as int),
{
    let input_size: usize = input.len();
    if input_size < 8 || index > input_size - 8 {
        return false;
    }
    input[index] == 0x02 && input[index + 1] == 0x01 && input[index + 2] == 0x04 && input[index
        + 3] == 0x03 && input[index + 4] == 0x06 && input[index + 5] == 0x05 && input[index + 6]
        == 0x08 && input[index + 7] == 0x07
}

/// Every offset of `input` at which the magic word stands, in ascending order.
pub fn locate_magic(input: &Vec<u8>) -> (offsets: Vec<usize>)
    ensures
        forall|k: int| 0 <= k < offsets@.len() ==> magic_at(input@, #[trigger] offsets@[k] as int),
        forall|k: int, l: int| 0 <= k < l < offsets@.len() ==> offsets@[k] < offsets@[l],
        forall|i: int| magic_at(input@, i) ==> offsets@.contains(i as usize),
{
    let mut offsets: Vec<usize> = Vec::new();
    let mut i: usize = 0;
    while i < input.len()
        invariant
            i <= input.len(),
            forall|k: int| 0 <= k < offsets@.len() ==> magic_at(input@, #[trigger] offsets@[k] as int),
            forall|k: int| 0 <= k < offsets@.len() ==> #[trigger] offsets@[k] < i,
            forall|k: int, l: int| 0 <= k < l < offsets@.len() ==> offsets@[k] < offsets@[l],
            forall|j: int| 0 <= j < i && magic_at(input@, j) ==> offsets@.contains(j as usize),
        decreases input.len() - i,
    {
        if is_magic(input, i) {
            let ghost before = offsets@;
            offsets.push(i);
            assert(offsets@[before.len() as int] == i);
            assert forall|j: int| 0 <= j < i + 1 && magic_at(input@, j) implies offsets@.contains(
                j as usize,
            ) by {
                if j < i {
                    let k = choose|k: int| 0 <= k < before.len() && before[k] == j as usize;
                    assert(offsets@[k] == j as usize);
                }
            }
        }
        i += 1;
    }
    offsets
}

/// The first offset of `input` at which the magic word stands.
pub fn find_magic(input: &Vec<u8>) -> (found: Option<usize>)
    ensures
        match found {
            Some(off) => is_first_magic(input@, off as int),
            None => !has_magic(input@),
        },
{
    let mut i: usize = 0;
    while i < input.len()
        invariant
            i <= input.len(),
            forall|j: int| 0 <= j < i ==> !magic_at(input@, j),
        decreases input.len() - i,
    {
        if is_magic(input, i) {
            return Some(i);
        }
        i += 1;
    }
    None
}

/// Reads the header at the top of `input`, leaving `input` as it is.
///
/// There is a header to read as soon as `input` holds 40 bytes.
pub fn read_header(input: &Vec<u8>) -> (header: Option<FrameHeader>)
    ensures
        input@.len() < 40 ==> header is None,
        input@.len() >= 40 ==> header == Some(header_at(input@, 0)),
{
    if input.len() < HEADER_LEN {
        return None;
    }
    Some(FrameHeader::decode(input.as_slice(), 0))
}

/// Takes the first whole frame out of `data` and decodes it.
///
/// Where `data` holds no whole frame yet, nothing is returned and `data`
/// stays as it was. Otherwise the frame leaves `data` together with whatever
/// preceded its magic word: the frame itself spans exactly the package length
/// that its header gives.
pub fn read_frame(data: &mut Vec<u8>) -> (frame: Option<Frame>)
    ensures
        match next_frame(old(data)@) {
            Some(taken) => frame is Some && frame->0@ == taken.frame && final(data)@ == taken.rest,
            None => frame is None && final(data)@ == old(data)@,
        },
        frame is Some ==> old(data)@.len() - final(data)@.len() == first_magic(old(data)@)
            + header_at(old(data)@, first_magic(old(data)@)).package_length,
{
    let off: usize = match find_magic(data) {
        Some(off) => off,
        None => { return None; },
    };
    proof {
        lemma_first_magic_unique(data@, off as int);
    }
    if data.len() - off < HEADER_LEN {
        return None;
    }
    let header = FrameHeader::decode(data.as_slice(), off);
    let frame_len: usize = header.frame_len();
    if data.len() - off < frame_len {
        return None;
    }
    let rest = data.split_off(off + frame_len);
    let body: Vec<u8> = if frame_len > HEADER_LEN {
        data.split_off(off + HEADER_LEN)
    } else {
        Vec::new()
    };
    *data = rest;
    assert(body@ =~= frame_body(old(data)@, off as int, frame_len as int));
    Some(parse_frame(header, body))
}

/// The views of the frames in `frames`, in order.
pub open spec fn frame_views(frames: Seq<Frame>) -> Seq<FrameView> {
    Seq::new(frames.len(), |i: int| frames[i]@)
}

/// The frames that can be taken out of `s` one after another.
///
/// A frame that spans no byte at all (package length 0 right at the front)
/// could be taken out for ever; extraction stops before it.
pub open spec fn drained_frames(s: Seq<u8>) -> Seq<FrameView>
    decreases s.len(),
{
    match next_frame(s) {
        Some(taken) => if taken.rest.len() < s.len() {
            seq![taken.frame] + drained_frames(taken.rest)
        } else {
            Seq::empty()
        },
        None => Seq::empty(),
    }
}

/// What is left of `s` once the frames of `drained_frames(s)` are taken out.
pub open spec fn drained_rest(s: Seq<u8>) -> Seq<u8>
    decreases s.len(),
{
    match next_frame(s) {
        Some(taken) => if taken.rest.len() < s.len() {
            drained_rest(taken.rest)
        } else {
            s
        },
        None => s,
    }
}

/// Takes every whole frame out of `input` and decodes it, in stream order.
///
/// What stays in `input` is the beginning of a frame that is not whole yet,
/// or bytes among which no magic word has been seen. A header at the very
/// front that gives the package length 0 stays too, and its frame is not
/// returned: taking it out would leave `input` as it is, for ever.
pub fn translate_tlv(input: &mut Vec<u8>) -> (frames: Vec<Frame>)
    ensures
        frame_views(frames@) == drained_frames(old(input)@),
        final(input)@ == drained_rest(old(input)@),
{
    let ghost target_frames = drained_frames(input@);
    let ghost target_rest = drained_rest(input@);
    let mut result: Vec<Frame> = Vec::new();
    assert(frame_views(result@) =~= Seq::<FrameView>::empty());
    loop
        invariant_except_break
            frame_views(result@) + drained_frames(input@) == target_frames,
            drained_rest(input@) == target_rest,
        ensures
            frame_views(result@) == target_frames,
            input@ == target_rest,
        decreases input@.len(),
    {
        let before: usize = input.len();
        let ghost views = frame_views(result@);
        let ghost bytes = input@;
        match read_frame(input) {
            None => {
                assert(views + Seq::<FrameView>::empty() =~= views);
                break ;
            },
            Some(frame) => {
                if input.len() >= before {
                    proof {
                        lemma_first_magic_exists(bytes);
                        assert(views + Seq::<FrameView>::empty() =~= views);
                        assert(input@ =~= bytes);
                    }
                    break ;
                }
                result.push(frame);
                assert(frame_views(result@) =~= views + seq![frame@]);
                assert((views + seq![frame@]) + drained_frames(input@) =~= views + (seq![frame@]
                    + drained_frames(input@)));
            },
        }
    }
    result
}

} // verus!
