use vstd::prelude::*;

use vstd::bytes::{
    lemma_auto_spec_u64_to_from_le_bytes, spec_u64_from_le_bytes, spec_u64_to_le_bytes,
    u64_from_le_bytes, u64_to_le_bytes,
};
use vstd::slice::{slice_subrange, slice_to_vec};

use crate::error::{TransportError, Violation};

verus! {

pub const TAG_DATA: u8 = 0;
pub const TAG_STREAM_WINDOW: u8 = 1;
pub const TAG_CONNECTION_WINDOW: u8 = 2;
pub const TAG_FINISH: u8 = 3;
pub const TAG_RESET: u8 = 4;

/// One unit exchanged over the channel.
#[derive(Debug, PartialEq, Eq)]
pub enum Frame {
    /// `payload` holds the stream's bytes from `offset` on.
    Data { stream_id: u64, offset: u64, payload: Vec<u8> },
    /// Extra credit for one stream (`Some(id)`) or for the whole connection.
    WindowUpdate { stream: Option<u64>, credit: u64 },
    /// The stream carries exactly `final_size` bytes.
    Finish { stream_id: u64, final_size: u64 },
    /// The stream was abandoned for `reason`.
    Reset { stream_id: u64, reason: u64 },
}

/// A frame as a mathematical value.
pub enum FrameView {
    Data { stream_id: u64, offset: u64, payload: Seq<u8> },
    WindowUpdate { stream: Option<u64>, credit: u64 },
    Finish { stream_id: u64, final_size: u64 },
    Reset { stream_id: u64, reason: u64 },
}

impl View for Frame {
    type V = FrameView;

    open spec fn view(&self) -> FrameView {
        match self {
            Frame::Data { stream_id, offset, payload } => FrameView::Data {
                stream_id: *stream_id,
                offset: *offset,
                payload: payload@,
            },
            Frame::WindowUpdate { stream, credit } => FrameView::WindowUpdate {
                stream: *stream,
                credit: *credit,
            },
            Frame::Finish { stream_id, final_size } => FrameView::Finish {
                stream_id: *stream_id,
                final_size: *final_size,
            },
            Frame::Reset { stream_id, reason } => FrameView::Reset {
                stream_id: *stream_id,
                reason: *reason,
            },
        }
    }
}

/// A frame whose payload length fits the length field.
pub open spec fn encodable(f: FrameView) -> bool {
    f matches FrameView::Data { payload, .. } ==> payload.len() <= u64::MAX
}

pub open spec fn le(x: u64) -> Seq<u8> {
    spec_u64_to_le_bytes(x)
}

/// The wire form: a tag byte, then little-endian `u64` fields, then for data
/// the payload length and the payload.
pub open spec fn encoding(f: FrameView) -> Seq<u8> {
    match f {
        FrameView::Data { stream_id, offset, payload } => seq![TAG_DATA] + le(stream_id) + le(offset)
            + le(payload.len() as u64) + payload,
        FrameView::WindowUpdate { stream, credit } => match stream {
            Some(id) => seq![TAG_STREAM_WINDOW] + le(id) + le(credit),
            None => seq![TAG_CONNECTION_WINDOW] + le(credit),
        },
        FrameView::Finish { stream_id, final_size } => seq![TAG_FINISH] + le(stream_id) + le(
            final_size,
        ),
        FrameView::Reset { stream_id, reason } => seq![TAG_RESET] + le(stream_id) + le(reason),
    }
}

/// The `u64` stored at `s[at..at + 8]`.
pub open spec fn field(s: Seq<u8>, at: int) -> u64 {
    spec_u64_from_le_bytes(s.subrange(at, at + 8))
}

/// The frame at the front of `s` and its length, if `s` starts with one.
pub open spec fn parse(s: Seq<u8>) -> Option<(FrameView, nat)> {
    if s.len() < 1 {
        None
    } else if s[0] == TAG_DATA {
        if s.len() < 25 {
            None
        } else {
            let len = field(s, 17);
            if s.len() - 25 < len {
                None
            } else {
                Some(
                    (
                        FrameView::Data {
                            stream_id: field(s, 1),
                            offset: field(s, 9),
                            payload: s.subrange(25, 25 + len),
                        },
                        (25 + len) as nat,
                    ),
                )
            }
        }
    } else if s[0] == TAG_STREAM_WINDOW {
        if s.len() < 17 {
            None
        } else {
            Some((FrameView::WindowUpdate { stream: Some(field(s, 1)), credit: field(s, 9) }, 17))
        }
    } else if s[0] == TAG_CONNECTION_WINDOW {
        if s.len() < 9 {
            None
        } else {
            Some((FrameView::WindowUpdate { stream: None, credit: field(s, 1) }, 9))
        }
    } else if s[0] == TAG_FINISH {
        if s.len() < 17 {
            None
        } else {
            Some((FrameView::Finish { stream_id: field(s, 1), final_size: field(s, 9) }, 17))
        }
    } else if s[0] == TAG_RESET {
        if s.len() < 17 {
            None
        } else {
            Some((FrameView::Reset { stream_id: field(s, 1), reason: field(s, 9) }, 17))
        }
    } else {
        None
    }
}

/// Appends `s` to `v`.
pub fn push_all(v: &mut Vec<u8>, s: &[u8])
    ensures
        final(v)@ == old(v)@ + s@,
{
    let ghost v0 = v@;
    let mut i: usize = 0;
    while i < s.len()
        invariant
            i <= s@.len(),
            v@ == v0 + s@.subrange(0, i as int),
        decreases s@.len() - i,
    {
        v.push(s[i]);
        i = i + 1;
    }
    assert(s@.subrange(0, s@.len() as int) =~= s@);
}

/// Appends the little-endian bytes of `x` to `v`.
fn push_u64(v: &mut Vec<u8>, x: u64)
    ensures
        final(v)@ == old(v)@ + le(x),
{
    let b = u64_to_le_bytes(x);
    push_all(v, b.as_slice());
}

/// The wire form of `f`.
pub fn encode(f: &Frame) -> (r: Vec<u8>)
    ensures
        r@ == encoding(f@),
{
    let mut v: Vec<u8> = Vec::new();
    match f {
        Frame::Data { stream_id, offset, payload } => {
            v.push(TAG_DATA);
            push_u64(&mut v, *stream_id);
            push_u64(&mut v, *offset);
            push_u64(&mut v, payload.len() as u64);
            push_all(&mut v, payload.as_slice());
        },
        Frame::WindowUpdate { stream, credit } => {
            match stream {
                Some(id) => {
                    v.push(TAG_STREAM_WINDOW);
                    push_u64(&mut v, *id);
                },
                None => {
                    v.push(TAG_CONNECTION_WINDOW);
                },
            }
            push_u64(&mut v, *credit);
        },
        Frame::Finish { stream_id, final_size } => {
            v.push(TAG_FINISH);
            push_u64(&mut v, *stream_id);
            push_u64(&mut v, *final_size);
        },
        Frame::Reset { stream_id, reason } => {
            v.push(TAG_RESET);
            push_u64(&mut v, *stream_id);
            push_u64(&mut v, *reason);
        },
    }
    assert(v@ =~= encoding(f@));
    v
}

fn read_u64(s: &[u8], at: usize) -> (r: u64)
    requires
        at + 8 <= s.len(),
    ensures
        r == field(s@, at as int),
{
    u64_from_le_bytes(slice_subrange(s, at, at + 8))
}

/// Parses the frame at the front of `s`; returns it with the number of bytes
/// it took, or a violation when `s` does not start with a whole frame.
pub fn decode(s: &[u8]) -> (r: Result<(Frame, usize), TransportError>)
    ensures
        match parse(s@) {
            Some((v, n)) => r matches Ok((f, m)) && f@ == v && m == n,
            None => r == Err::<(Frame, usize), TransportError>(
                TransportError::ProtocolViolation { detail: Violation::MalformedFrame },
            ),
        },
{
    let bad = Err(TransportError::ProtocolViolation { detail: Violation::MalformedFrame });
    let n = s.len();
    if n < 1 {
        return bad;
    }
    let tag = s[0];
    if tag == TAG_DATA {
        if n < 25 {
            return bad;
        }
        let stream_id = read_u64(s, 1);
        let offset = read_u64(s, 9);
        let len = read_u64(s, 17);
        if ((n - 25) as u64) < len {
            return bad;
        }
        let end = 25 + len as usize;
        let payload = crate::stream::copy_range(&slice_to_vec(s), 25, end);
        Ok((Frame::Data { stream_id, offset, payload }, end))
    } else if tag == TAG_STREAM_WINDOW {
        if n < 17 {
            return bad;
        }
        Ok((Frame::WindowUpdate { stream: Some(read_u64(s, 1)), credit: read_u64(s, 9) }, 17))
    } else if tag == TAG_CONNECTION_WINDOW {
        if n < 9 {
            return bad;
        }
        Ok((Frame::WindowUpdate { stream: None, credit: read_u64(s, 1) }, 9))
    } else if tag == TAG_FINISH {
        if n < 17 {
            return bad;
        }
        Ok((Frame::Finish { stream_id: read_u64(s, 1), final_size: read_u64(s, 9) }, 17))
    } else if tag == TAG_RESET {
        if n < 17 {
            return bad;
        }
        Ok((Frame::Reset { stream_id: read_u64(s, 1), reason: read_u64(s, 9) }, 17))
    } else {
        bad
    }
}

/// Decoding the wire form of a frame, whatever follows it, gives the frame
/// back and consumes exactly its wire form.
pub proof fn lemma_round_trip(f: FrameView, rest: Seq<u8>)
    requires
        encodable(f),
    ensures
        parse(encoding(f) + rest) == Some((f, encoding(f).len())),
{
    lemma_auto_spec_u64_to_from_le_bytes();
    let s = encoding(f) + rest;
    match f {
        FrameView::Data { stream_id, offset, payload } => {
            assert(s.subrange(1, 9) =~= le(stream_id));
            assert(s.subrange(9, 17) =~= le(offset));
            assert(s.subrange(17, 25) =~= le(payload.len() as u64));
            assert(s.subrange(25, 25 + payload.len() as int) =~= payload);
        },
        FrameView::WindowUpdate { stream, credit } => match stream {
            Some(id) => {
                assert(s.subrange(1, 9) =~= le(id));
                assert(s.subrange(9, 17) =~= le(credit));
            },
            None => {
                assert(s.subrange(1, 9) =~= le(credit));
            },
        },
        FrameView::Finish { stream_id, final_size } => {
            assert(s.subrange(1, 9) =~= le(stream_id));
            assert(s.subrange(9, 17) =~= le(final_size));
        },
        FrameView::Reset { stream_id, reason } => {
            assert(s.subrange(1, 9) =~= le(stream_id));
            assert(s.subrange(9, 17) =~= le(reason));
        },
    }
}

/// Whatever `parse` accepts starts with the wire form of what it returns.
pub proof fn lemma_parse_sound(s: Seq<u8>)
    ensures
        parse(s) matches Some((v, n)) ==> n <= s.len() && s.take(n as int) == encoding(v),
{
    lemma_auto_spec_u64_to_from_le_bytes();
    if let Some((v, n)) = parse(s) {
        let t = s.take(n as int);
        assert(s.subrange(1, 9).len() == 8);
        assert(le(field(s, 1)) == s.subrange(1, 9));
        if s[0] != TAG_CONNECTION_WINDOW {
            assert(le(field(s, 9)) == s.subrange(9, 17));
        }
        if s[0] == TAG_DATA {
            assert(le(field(s, 17)) == s.subrange(17, 25));
        }
        assert(t =~= encoding(v));
    }
}

} // verus!
