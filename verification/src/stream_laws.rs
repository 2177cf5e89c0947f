//! What holds of frame extraction whatever the stream.
//!
//! Extraction looks only at the front of the pending bytes, so bytes that
//! arrive later never change a frame that could be taken out already. From
//! this follows that a stream yields the same frames however it is cut into
//! chunks.

use vstd::prelude::*;
use crate::tlv_translator::{
    decode_records,
    drained_frames,
    drained_rest,
    first_magic,
    frame_body,
    frame_of,
    has_magic,
    header_at,
    is_first_magic,
    lemma_first_magic_exists,
    lemma_first_magic_unique,
    magic_at,
    next_frame,
    points_of,
    samples_of,
    tlv_header_at,
    tlv_type_of,
    Extraction,
    FrameView,
    TlvType,
};

verus! {

/// A frame that can be taken out stays the same when more bytes arrive behind it.
pub proof fn lemma_next_frame_extends(s: Seq<u8>, more: Seq<u8>)
    requires
        next_frame(s) is Some,
    ensures
        next_frame(s + more) == Some(
            Extraction { frame: next_frame(s)->0.frame, rest: next_frame(s)->0.rest + more },
        ),
{
    lemma_first_magic_exists(s);
    let off = first_magic(s);
    let t = s + more;
    assert forall|j: int| 0 <= j < off implies !magic_at(t, j) by {
        assert(!magic_at(s, j));
        assert(t[j] == s[j] && t[j + 1] == s[j + 1] && t[j + 2] == s[j + 2] && t[j + 3] == s[j
            + 3] && t[j + 4] == s[j + 4] && t[j + 5] == s[j + 5] && t[j + 6] == s[j + 6] && t[j
            + 7] == s[j + 7]);
    }
    assert(magic_at(t, off));
    lemma_first_magic_unique(t, off);
    lemma_header_extends(s, more, off);
    let len = header_at(s, off).package_length as int;
    assert(frame_body(t, off, len) =~= frame_body(s, off, len));
    assert(t.skip(off + len) =~= s.skip(off + len) + more);
}

/// A header that is wholly there reads the same when more bytes arrive behind it.
pub proof fn lemma_header_extends(s: Seq<u8>, more: Seq<u8>, off: int)
    requires
        0 <= off,
        off + 40 <= s.len(),
    ensures
        header_at(s + more, off) == header_at(s, off),
{
    let t = s + more;
    assert forall|i: int| off <= i < off + 40 implies #[trigger] t[i] == s[i] by {}
}

/// The frame that is taken out spans exactly the package length of its header.
///
/// The bytes that leave the buffer are those before the first magic word and,
/// from there on, as many as the header gives.
pub proof fn lemma_frame_span(s: Seq<u8>)
    requires
        next_frame(s) is Some,
    ensures
        0 <= first_magic(s),
        first_magic(s) + header_at(s, first_magic(s)).package_length <= s.len(),
        next_frame(s)->0.rest == s.skip(
            first_magic(s) + header_at(s, first_magic(s)).package_length,
        ),
        s.len() - next_frame(s)->0.rest.len() == first_magic(s) + header_at(
            s,
            first_magic(s),
        ).package_length,
{
    lemma_first_magic_exists(s);
}

/// Cutting a stream in two does not change the frames that come out of it.
///
/// Draining after the first part and again after the second gives the frames,
/// and leaves the bytes, that draining the whole gives.
pub proof fn lemma_chunk_independence(first: Seq<u8>, second: Seq<u8>)
    ensures
        drained_frames(first + second) == drained_frames(first) + drained_frames(
            drained_rest(first) + second,
        ),
        drained_rest(first + second) == drained_rest(drained_rest(first) + second),
    decreases first.len(),
{
    let whole = first + second;
    let empty = Seq::<FrameView>::empty();
    match next_frame(first) {
        Some(taken) => {
            if taken.rest.len() < first.len() {
                lemma_next_frame_extends(first, second);
                lemma_chunk_independence(taken.rest, second);
                let later = drained_frames(drained_rest(taken.rest) + second);
                assert(seq![taken.frame] + (drained_frames(taken.rest) + later) =~= (seq![
                    taken.frame,
                ] + drained_frames(taken.rest)) + later);
            } else {
                assert(empty + drained_frames(whole) =~= drained_frames(whole));
            }
        },
        None => {
            assert(empty + drained_frames(whole) =~= drained_frames(whole));
        },
    }
}

/// Once drained, a buffer yields no further frame until more bytes arrive.
///
/// What is left holds no whole frame, or a frame at its front that spans no
/// byte, so that taking it out would change nothing.
pub proof fn lemma_drained_is_settled(s: Seq<u8>)
    ensures
        drained_frames(drained_rest(s)) == Seq::<FrameView>::empty(),
        drained_rest(drained_rest(s)) == drained_rest(s),
        next_frame(drained_rest(s)) matches Some(taken) ==> taken.rest.len() == drained_rest(
            s,
        ).len(),
    decreases s.len(),
{
    match next_frame(s) {
        Some(taken) => {
            if taken.rest.len() < s.len() {
                lemma_drained_is_settled(taken.rest);
            } else {
                lemma_frame_span(s);
            }
        },
        None => {},
    }
}

/// What stays in the buffer after draining is the tail of what was in it.
pub proof fn lemma_drained_rest_is_suffix(s: Seq<u8>)
    ensures
        drained_rest(s).len() <= s.len(),
        drained_rest(s) == s.skip(s.len() - drained_rest(s).len()),
    decreases s.len(),
{
    match next_frame(s) {
        Some(taken) => {
            if taken.rest.len() < s.len() {
                lemma_frame_span(s);
                lemma_drained_rest_is_suffix(taken.rest);
                let k = s.len() - taken.rest.len();
                let m = taken.rest.len() - drained_rest(taken.rest).len();
                assert(s.skip(k).skip(m) =~= s.skip(k + m));
            } else {
                assert(s.skip(0) =~= s);
            }
        },
        None => {
            assert(s.skip(0) =~= s);
        },
    }
}

/// The chunks of a stream laid end to end.
pub open spec fn joined(chunks: Seq<Seq<u8>>) -> Seq<u8>
    decreases chunks.len(),
{
    if chunks.len() == 0 {
        Seq::empty()
    } else {
        chunks[0] + joined(chunks.skip(1))
    }
}

/// The frames that come out when `chunks` are fed one by one into a buffer
/// that holds `pending`, draining after each.
pub open spec fn fed_frames(pending: Seq<u8>, chunks: Seq<Seq<u8>>) -> Seq<FrameView>
    decreases chunks.len(),
{
    if chunks.len() == 0 {
        Seq::empty()
    } else {
        drained_frames(pending + chunks[0]) + fed_frames(
            drained_rest(pending + chunks[0]),
            chunks.skip(1),
        )
    }
}

/// The bytes that stay pending when `chunks` have been fed one by one.
pub open spec fn fed_rest(pending: Seq<u8>, chunks: Seq<Seq<u8>>) -> Seq<u8>
    decreases chunks.len(),
{
    if chunks.len() == 0 {
        pending
    } else {
        fed_rest(drained_rest(pending + chunks[0]), chunks.skip(1))
    }
}

/// Feeding chunks into a drained buffer gives what feeding them as one chunk gives.
pub proof fn lemma_fed_from_settled(pending: Seq<u8>, chunks: Seq<Seq<u8>>)
    requires
        drained_frames(pending) == Seq::<FrameView>::empty(),
        drained_rest(pending) == pending,
    ensures
        fed_frames(pending, chunks) == drained_frames(pending + joined(chunks)),
        fed_rest(pending, chunks) == drained_rest(pending + joined(chunks)),
    decreases chunks.len(),
{
    if chunks.len() == 0 {
        assert(pending + joined(chunks) =~= pending);
    } else {
        let head = chunks[0];
        let tail = chunks.skip(1);
        let after = drained_rest(pending + head);
        lemma_drained_is_settled(pending + head);
        lemma_fed_from_settled(after, tail);
        lemma_chunk_independence(pending + head, joined(tail));
        assert((pending + head) + joined(tail) =~= pending + joined(chunks));
    }
}

/// However a stream is cut into chunks, the frames that come out are those
/// that come out of the stream fed as a single chunk, and the same bytes stay
/// pending.
pub proof fn lemma_chunk_boundaries_do_not_matter(chunks: Seq<Seq<u8>>)
    ensures
        fed_frames(Seq::empty(), chunks) == drained_frames(joined(chunks)),
        fed_rest(Seq::empty(), chunks) == drained_rest(joined(chunks)),
{
    let none = Seq::<u8>::empty();
    assert(!has_magic(none));
    lemma_fed_from_settled(none, chunks);
    assert(none + joined(chunks) =~= joined(chunks));
}

/// Whether `bytes` are exactly one frame: a magic word, a header, and as many
/// bytes in all as the header gives as the package length.
pub open spec fn is_whole_frame(bytes: Seq<u8>) -> bool {
    &&& bytes.len() >= 40
    &&& magic_at(bytes, 0)
    &&& header_at(bytes, 0).package_length == bytes.len()
}

/// No magic word begins in `garbage` when a frame follows it.
proof fn lemma_no_magic_before_frame(garbage: Seq<u8>, bytes: Seq<u8>, j: int)
    requires
        !has_magic(garbage),
        bytes.len() == 0 || bytes[0] == 0x02,
        0 <= j < garbage.len(),
    ensures
        !magic_at(garbage + bytes, j),
{
    let t = garbage + bytes;
    if magic_at(t, j) {
        if j + 8 <= garbage.len() {
            assert(t[j] == garbage[j] && t[j + 1] == garbage[j + 1] && t[j + 2] == garbage[j + 2]
                && t[j + 3] == garbage[j + 3] && t[j + 4] == garbage[j + 4] && t[j + 5]
                == garbage[j + 5] && t[j + 6] == garbage[j + 6] && t[j + 7] == garbage[j + 7]);
            assert(magic_at(garbage, j));
        } else {
            let g = garbage.len() as int;
            assert(t[g] == bytes[0]);
        }
    }
}

/// Garbage in front of a whole frame does not hide it.
///
/// Where bytes without a magic word are followed by one whole frame and then
/// by anything, extraction returns that frame and leaves what followed it.
pub proof fn lemma_garbage_then_frame(garbage: Seq<u8>, frame_bytes: Seq<u8>, tail: Seq<u8>)
    requires
        !has_magic(garbage),
        is_whole_frame(frame_bytes),
    ensures
        next_frame(garbage + frame_bytes + tail) == Some(
            Extraction {
                frame: frame_of(header_at(frame_bytes, 0), frame_bytes.skip(40)),
                rest: tail,
            },
        ),
{
    let g = garbage.len() as int;
    let t = garbage + frame_bytes + tail;
    let rest = frame_bytes + tail;
    assert(t =~= garbage + rest);
    assert forall|j: int| 0 <= j < g implies !magic_at(t, j) by {
        lemma_no_magic_before_frame(garbage, rest, j);
    }
    assert forall|i: int| 0 <= i < frame_bytes.len() implies #[trigger] t[g + i]
        == frame_bytes[i] by {}
    assert(t[g + 0] == frame_bytes[0]);
    assert(magic_at(t, g));
    lemma_first_magic_unique(t, g);
    assert(header_at(t, g) == header_at(frame_bytes, 0));
    let len = frame_bytes.len() as int;
    assert(frame_body(t, g, len) =~= frame_bytes.skip(40));
    assert(t.skip(g + len) =~= tail);
}

/// A frame that has not arrived in full is waited for.
///
/// Where bytes without a magic word are followed by only the first `arrived`
/// bytes of a frame, nothing can be taken out; once the missing bytes are
/// appended, the frame comes out and nothing stays behind.
pub proof fn lemma_partial_frame_waits(garbage: Seq<u8>, frame_bytes: Seq<u8>, arrived: int)
    requires
        !has_magic(garbage),
        is_whole_frame(frame_bytes),
        0 <= arrived < frame_bytes.len(),
    ensures
        next_frame(garbage + frame_bytes.take(arrived)) is None,
        next_frame(garbage + frame_bytes.take(arrived) + frame_bytes.skip(arrived)) == Some(
            Extraction {
                frame: frame_of(header_at(frame_bytes, 0), frame_bytes.skip(40)),
                rest: Seq::empty(),
            },
        ),
{
    let g = garbage.len() as int;
    let part = frame_bytes.take(arrived);
    let t = garbage + part;
    assert(garbage + part + frame_bytes.skip(arrived) =~= garbage + frame_bytes + Seq::<
        u8,
    >::empty());
    lemma_garbage_then_frame(garbage, frame_bytes, Seq::empty());
    if has_magic(t) {
        lemma_first_magic_exists(t);
        let off = first_magic(t);
        if off < g {
            lemma_no_magic_before_frame(garbage, part, off);
        } else if off == g {
            if t.len() - off >= 40 {
                assert forall|i: int| 0 <= i < 40 implies #[trigger] t[g + i]
                    == frame_bytes[i] by {}
                assert(header_at(t, g) == header_at(frame_bytes, 0));
            }
        } else {
            assert forall|i: int| 0 <= i < arrived implies #[trigger] t[g + i]
                == frame_bytes[i] by {}
            assert(t[g + 0] == frame_bytes[0]);
            assert(magic_at(t, g));
        }
    }
}

/// A record that is accepted takes exactly its header and the payload length
/// that the header gives; decoding goes on directly behind it.
pub proof fn lemma_known_record_is_consumed(body: Seq<u8>, frame: FrameView)
    requires
        body.len() >= 8,
        tlv_header_at(body, 0).record_length <= body.len() - 8,
        tlv_type_of(tlv_header_at(body, 0).record_type as int) is Some,
    ensures
        ({
            let header = tlv_header_at(body, 0);
            let payload = body.subrange(8, 8 + header.record_length);
            let after = body.skip(8 + header.record_length);
            decode_records(body, frame) == decode_records(
                after,
                match tlv_type_of(header.record_type as int) {
                    Some(TlvType::DetectedPoints) => FrameView {
                        pointcloud: Some(points_of(payload)),
                        ..frame
                    },
                    Some(TlvType::RangeProfile) => FrameView {
                        range_profile: Some(samples_of(payload)),
                        ..frame
                    },
                    _ => frame,
                },
            )
        }),
{
    let header = tlv_header_at(body, 0);
    let rest = body.skip(8);
    assert(rest.take(header.record_length as int) =~= body.subrange(
        8,
        8 + header.record_length,
    ));
    assert(rest.skip(header.record_length as int) =~= body.skip(8 + header.record_length));
}

/// A record with a type code outside 1 to 9 ends the decoding of its frame:
/// neither it nor any record behind it adds to the frame.
pub proof fn lemma_unknown_type_stops(body: Seq<u8>, frame: FrameView)
    requires
        body.len() >= 8,
        tlv_type_of(tlv_header_at(body, 0).record_type as int) is None,
    ensures
        decode_records(body, frame) == frame,
{
}

/// A record that claims more bytes than remain is dropped with all behind it.
pub proof fn lemma_truncated_record_stops(body: Seq<u8>, frame: FrameView)
    requires
        body.len() >= 8,
        tlv_header_at(body, 0).record_length > body.len() - 8,
    ensures
        decode_records(body, frame) == frame,
{
}

} // verus!
