//! Wire format of the transport.
//!
//! Reliable streams carry length-delimited frames: a 4-byte big-endian
//! length prefix followed by exactly that many payload bytes. Unreliable
//! datagrams carry the 1-byte channel id followed by the payload. The
//! identity handshake frame carries the client id as a fixed-width
//! big-endian unsigned integer.
use vstd::prelude::*;
use crate::channels::ChannelId;
use crate::ClientId;

verus! {

/// Frame payloads are length-prefixed with a 4-byte big-endian integer, so a
/// single frame can carry at most this many payload bytes.
pub const MAX_FRAME_PAYLOAD_LEN: u64 = 0xFFFF_FFFF;

/// The 4-byte big-endian encoding of a 32-bit integer.
pub open spec fn be32_of(n: u32) -> Seq<u8> {
    seq![(n >> 24) as u8, (n >> 16) as u8, (n >> 8) as u8, n as u8]
}

/// The 32-bit integer read big-endian from the first 4 bytes.
pub open spec fn be32_val(b: Seq<u8>) -> u32
    recommends
        b.len() >= 4,
{
    ((b[0] as u32) << 24) | ((b[1] as u32) << 16) | ((b[2] as u32) << 8) | (b[3] as u32)
}

/// The 8-byte big-endian encoding of a 64-bit integer.
pub open spec fn be64_of(n: u64) -> Seq<u8> {
    seq![
        (n >> 56) as u8,
        (n >> 48) as u8,
        (n >> 40) as u8,
        (n >> 32) as u8,
        (n >> 24) as u8,
        (n >> 16) as u8,
        (n >> 8) as u8,
        n as u8,
    ]
}

/// The 64-bit integer read big-endian from the first 8 bytes.
pub open spec fn be64_val(b: Seq<u8>) -> u64
    recommends
        b.len() >= 8,
{
    ((b[0] as u64) << 56) | ((b[1] as u64) << 48) | ((b[2] as u64) << 40) | ((b[3] as u64) << 32)
        | ((b[4] as u64) << 24) | ((b[5] as u64) << 16) | ((b[6] as u64) << 8) | (b[7] as u64)
}

/// Reading back the 4 bytes of a big-endian encoding yields the encoded value.
pub proof fn lemma_be32_round(n: u32)
    ensures
        be32_val(be32_of(n)) == n,
{
    assert((((((n >> 24) as u8) as u32) << 24) | ((((n >> 16) as u8) as u32) << 16) | ((((n
        >> 8) as u8) as u32) << 8) | ((n as u8) as u32)) == n) by (bit_vector);
}

/// Reading back the 8 bytes of a big-endian encoding yields the encoded value.
pub proof fn lemma_be64_round(n: u64)
    ensures
        be64_val(be64_of(n)) == n,
{
    assert((((((n >> 56) as u8) as u64) << 56) | ((((n >> 48) as u8) as u64) << 48) | ((((n
        >> 40) as u8) as u64) << 40) | ((((n >> 32) as u8) as u64) << 32) | ((((n
        >> 24) as u8) as u64) << 24) | ((((n >> 16) as u8) as u64) << 16) | ((((n
        >> 8) as u8) as u64) << 8) | ((n as u8) as u64)) == n) by (bit_vector);
}

/// The length-delimited frame carrying one payload.
pub open spec fn frame_of(payload: Seq<u8>) -> Seq<u8> {
    be32_of(payload.len() as u32) + payload
}

/// The byte stream carrying a sequence of payloads as consecutive frames.
pub open spec fn frames_of(payloads: Seq<Seq<u8>>) -> Seq<u8>
    decreases payloads.len(),
{
    if payloads.len() == 0 {
        Seq::empty()
    } else {
        frame_of(payloads[0]) + frames_of(payloads.drop_first())
    }
}

/// A payload small enough for its length to fit the 4-byte frame prefix.
pub open spec fn frameable(payload: Seq<u8>) -> bool {
    payload.len() <= MAX_FRAME_PAYLOAD_LEN
}

/// The payloads carried by a byte stream of consecutive length-delimited
/// frames, or `None` if the stream is not such a concatenation.
pub open spec fn parse_frames(b: Seq<u8>) -> Option<Seq<Seq<u8>>>
    decreases b.len(),
{
    if b.len() == 0 {
        Some(Seq::empty())
    } else if b.len() < 4 {
        None
    } else {
        let len = be32_val(b) as int;
        if b.len() < 4 + len {
            None
        } else {
            match parse_frames(b.skip(4 + len)) {
                Some(rest) => Some(seq![b.subrange(4, 4 + len)] + rest),
                None => None,
            }
        }
    }
}

/// Encodes one payload as a length-delimited frame.
pub fn encode_frame(payload: &Vec<u8>) -> (r: Vec<u8>)
    requires
        frameable(payload@),
    ensures
        r@ == frame_of(payload@),
{
    let len: u32 = payload.len() as u32;
    let mut out: Vec<u8> = Vec::new();
    out.push((len >> 24) as u8);
    out.push((len >> 16) as u8);
    out.push((len >> 8) as u8);
    out.push(len as u8);
    let mut i: usize = 0;
    while i < payload.len()
        invariant
            i <= payload@.len(),
            out@ == be32_of(payload@.len() as u32) + payload@.subrange(0, i as int),
        decreases payload@.len() - i,
    {
        out.push(payload[i]);
        i = i + 1;
        proof {
            assert(payload@.subrange(0, i as int) =~= payload@.subrange(0, i - 1).push(
                payload@[i - 1],
            ));
        }
    }
    proof {
        assert(payload@.subrange(0, payload@.len() as int) =~= payload@);
        assert(out@ =~= frame_of(payload@));
    }
    out
}

/// Appending one payload to a stream appends exactly its frame.
pub proof fn lemma_frames_of_push(payloads: Seq<Seq<u8>>, payload: Seq<u8>)
    ensures
        frames_of(payloads.push(payload)) == frames_of(payloads) + frame_of(payload),
    decreases payloads.len(),
{
    if payloads.len() == 0 {
        assert(payloads.push(payload).drop_first() =~= payloads);
        assert(frames_of(payloads.push(payload)) =~= frames_of(payloads) + frame_of(payload));
    } else {
        assert(payloads.push(payload).drop_first() =~= payloads.drop_first().push(payload));
        lemma_frames_of_push(payloads.drop_first(), payload);
        assert(frames_of(payloads.push(payload)) =~= frames_of(payloads) + frame_of(payload));
    }
}

/// Parsing a well-formed stream followed by a remainder recovers the
/// stream's payloads in front of whatever the remainder parses to.
pub proof fn lemma_parse_frames_prefix(payloads: Seq<Seq<u8>>, c: Seq<u8>)
    requires
        forall|k: int| 0 <= k < payloads.len() ==> frameable(#[trigger] payloads[k]),
    ensures
        parse_frames(frames_of(payloads) + c) == (match parse_frames(c) {
            Some(rest) => Some(payloads + rest),
            None => None::<Seq<Seq<u8>>>,
        }),
    decreases payloads.len(),
{
    if payloads.len() == 0 {
        assert(frames_of(payloads) + c =~= c);
        match parse_frames(c) {
            Some(rest) => {
                assert(payloads + rest =~= rest);
            },
            None => {},
        }
    } else {
        let p0 = payloads[0];
        let len0 = p0.len() as int;
        let tail = frames_of(payloads.drop_first()) + c;
        let b = frames_of(payloads) + c;
        assert(b =~= (frame_of(p0) + tail));
        assert(b.len() >= 4 + len0);
        // The length prefix reads back as the first payload's length.
        assert(p0.len() <= MAX_FRAME_PAYLOAD_LEN);
        lemma_be32_round(p0.len() as u32);
        assert(b[0] == be32_of(p0.len() as u32)[0]);
        assert(b[1] == be32_of(p0.len() as u32)[1]);
        assert(b[2] == be32_of(p0.len() as u32)[2]);
        assert(b[3] == be32_of(p0.len() as u32)[3]);
        assert(be32_val(b) == be32_val(be32_of(p0.len() as u32)));
        assert(be32_val(b) as int == len0);
        assert(b.subrange(4, 4 + len0) =~= p0);
        assert(b.skip(4 + len0) =~= tail);
        lemma_parse_frames_prefix(payloads.drop_first(), c);
        match parse_frames(c) {
            Some(rest) => {
                assert(parse_frames(tail) == Some(payloads.drop_first() + rest));
                assert(seq![p0] + (payloads.drop_first() + rest) =~= payloads + rest);
            },
            None => {
                assert(parse_frames(tail) is None);
            },
        }
    }
}

/// Order preservation of the reliable framing: parsing the stream that
/// carries a sequence of payloads yields the same payloads in the same
/// order.
pub proof fn lemma_frames_round(payloads: Seq<Seq<u8>>)
    requires
        forall|k: int| 0 <= k < payloads.len() ==> frameable(#[trigger] payloads[k]),
    ensures
        parse_frames(frames_of(payloads)) == Some(payloads),
{
    lemma_parse_frames_prefix(payloads, Seq::empty());
    assert(frames_of(payloads) + Seq::<u8>::empty() =~= frames_of(payloads));
    assert(payloads + Seq::<Seq<u8>>::empty() =~= payloads);
}

/// Splits a byte stream into the payloads of its consecutive
/// length-delimited frames; `None` if the stream is not such a
/// concatenation.
pub fn decode_frames(bytes: &Vec<u8>) -> (r: Option<Vec<Vec<u8>>>)
    ensures
        match r {
            Some(v) => parse_frames(bytes@) == Some(v.deep_view()),
            None => parse_frames(bytes@) is None,
        },
{
    let n = bytes.len();
    let mut acc: Vec<Vec<u8>> = Vec::new();
    let mut i: usize = 0;
    proof {
        assert(bytes@.skip(0) =~= bytes@);
        assert(acc.deep_view() =~= Seq::<Seq<u8>>::empty());
        match parse_frames(bytes@) {
            Some(rest) => {
                assert(acc.deep_view() + rest =~= rest);
            },
            None => {},
        }
    }
    while i < n
        invariant
            n == bytes@.len(),
            i <= n,
            match parse_frames(bytes@.skip(i as int)) {
                Some(rest) => parse_frames(bytes@) == Some(acc.deep_view() + rest),
                None => parse_frames(bytes@) is None,
            },
        decreases n - i,
    {
        let rem = n - i;
        if rem < 4 {
            return None;
        }
        let b0 = bytes[i];
        let b1 = bytes[i + 1];
        let b2 = bytes[i + 2];
        let b3 = bytes[i + 3];
        let len: u32 = ((b0 as u32) << 24) | ((b1 as u32) << 16) | ((b2 as u32) << 8) | (b3
            as u32);
        proof {
            assert(bytes@.skip(i as int)[0] == b0);
            assert(bytes@.skip(i as int)[1] == b1);
            assert(bytes@.skip(i as int)[2] == b2);
            assert(bytes@.skip(i as int)[3] == b3);
            assert(be32_val(bytes@.skip(i as int)) == len);
        }
        let avail: usize = rem - 4;
        if (len as u64) > (avail as u64) {
            return None;
        }
        let len_us: usize = len as usize;
        let mut payload: Vec<u8> = Vec::new();
        let mut j: usize = 0;
        while j < len_us
            invariant
                n == bytes@.len(),
                i + 4 + len_us <= n,
                j <= len_us,
                payload@ == bytes@.subrange(i + 4, i + 4 + j),
            decreases len_us - j,
        {
            payload.push(bytes[i + 4 + j]);
            j = j + 1;
            proof {
                assert(bytes@.subrange(i + 4, i + 4 + j) =~= bytes@.subrange(
                    i + 4,
                    i + 4 + (j - 1),
                ).push(bytes@[i + 4 + (j - 1)]));
            }
        }
        let next: usize = i + 4 + len_us;
        let ghost old_deep = acc.deep_view();
        proof {
            let old_rest = bytes@.skip(i as int);
            assert(old_rest.subrange(4, 4 + len as int) =~= bytes@.subrange(
                i + 4,
                i + 4 + len as int,
            ));
            assert(old_rest.skip(4 + len as int) =~= bytes@.skip(next as int));
            assert(parse_frames(old_rest) == (match parse_frames(bytes@.skip(next as int)) {
                Some(rest) => Some(seq![payload@] + rest),
                None => None::<Seq<Seq<u8>>>,
            }));
        }
        acc.push(payload);
        i = next;
        proof {
            assert(acc.deep_view() =~~= old_deep.push(acc@[acc@.len() - 1]@));
            match parse_frames(bytes@.skip(i as int)) {
                Some(rest) => {
                    assert(old_deep + (seq![acc@[acc@.len() - 1]@] + rest) =~= acc.deep_view()
                        + rest);
                },
                None => {},
            }
        }
    }
    proof {
        assert(bytes@.skip(n as int) =~= Seq::<u8>::empty());
        assert(parse_frames(bytes@) == Some(acc.deep_view() + Seq::<Seq<u8>>::empty()));
        assert(acc.deep_view() + Seq::<Seq<u8>>::empty() =~= acc.deep_view());
    }
    Some(acc)
}

/// The datagram carrying one payload on one channel: the 1-byte channel id
/// followed by the payload.
pub open spec fn datagram_of(channel_id: ChannelId, payload: Seq<u8>) -> Seq<u8> {
    seq![channel_id] + payload
}

/// Encodes one payload as an unreliable datagram.
pub fn encode_datagram(channel_id: ChannelId, payload: &Vec<u8>) -> (r: Vec<u8>)
    requires
        payload@.len() < usize::MAX,
    ensures
        r@ == datagram_of(channel_id, payload@),
{
    let mut out: Vec<u8> = Vec::new();
    out.push(channel_id);
    let mut i: usize = 0;
    while i < payload.len()
        invariant
            i <= payload@.len(),
            out@ == seq![channel_id] + payload@.subrange(0, i as int),
        decreases payload@.len() - i,
    {
        out.push(payload[i]);
        i = i + 1;
        proof {
            assert(payload@.subrange(0, i as int) =~= payload@.subrange(0, i - 1).push(
                payload@[i - 1],
            ));
        }
    }
    proof {
        assert(payload@.subrange(0, payload@.len() as int) =~= payload@);
        assert(out@ =~= datagram_of(channel_id, payload@));
    }
    out
}

/// Splits a datagram into its channel id and payload; `None` if the
/// datagram is below the minimum header size.
pub fn decode_datagram(datagram: &Vec<u8>) -> (r: Option<(ChannelId, Vec<u8>)>)
    ensures
        match r {
            Some((channel_id, payload)) => datagram@.len() >= 1 && channel_id == datagram@[0]
                && payload@ == datagram@.skip(1),
            None => datagram@.len() == 0,
        },
{
    if datagram.len() == 0 {
        return None;
    }
    let channel_id = datagram[0];
    let mut payload: Vec<u8> = Vec::new();
    let mut i: usize = 1;
    while i < datagram.len()
        invariant
            1 <= i <= datagram@.len(),
            payload@ == datagram@.subrange(1, i as int),
        decreases datagram@.len() - i,
    {
        payload.push(datagram[i]);
        i = i + 1;
        proof {
            assert(datagram@.subrange(1, i as int) =~= datagram@.subrange(1, i - 1).push(
                datagram@[i - 1],
            ));
        }
    }
    proof {
        assert(datagram@.subrange(1, datagram@.len() as int) =~= datagram@.skip(1));
    }
    Some((channel_id, payload))
}

/// Decoding the datagram of a payload recovers the channel id and payload.
pub proof fn lemma_datagram_round(channel_id: ChannelId, payload: Seq<u8>)
    ensures
        datagram_of(channel_id, payload).len() == payload.len() + 1,
        datagram_of(channel_id, payload)[0] == channel_id,
        datagram_of(channel_id, payload).skip(1) == payload,
{
    assert(datagram_of(channel_id, payload).skip(1) =~= payload);
}

/// Encodes a client id as the fixed-width big-endian identity frame.
pub fn encode_client_id(id: ClientId) -> (r: Vec<u8>)
    ensures
        r@ == be64_of(id),
{
    let mut out: Vec<u8> = Vec::new();
    out.push((id >> 56) as u8);
    out.push((id >> 48) as u8);
    out.push((id >> 40) as u8);
    out.push((id >> 32) as u8);
    out.push((id >> 24) as u8);
    out.push((id >> 16) as u8);
    out.push((id >> 8) as u8);
    out.push(id as u8);
    proof {
        assert(out@ =~= be64_of(id));
    }
    out
}

/// Reads the client id carried big-endian in the first 8 bytes of an
/// identity frame; `None` if the frame is shorter than the id width.
pub fn read_client_id(frame: &Vec<u8>) -> (r: Option<ClientId>)
    ensures
        frame@.len() >= 8 ==> r == Some(be64_val(frame@)),
        frame@.len() < 8 ==> r is None,
{
    if frame.len() < 8 {
        return None;
    }
    let id: u64 = ((frame[0] as u64) << 56) | ((frame[1] as u64) << 48) | ((frame[2] as u64)
        << 40) | ((frame[3] as u64) << 32) | ((frame[4] as u64) << 24) | ((frame[5] as u64)
        << 16) | ((frame[6] as u64) << 8) | (frame[7] as u64);
    Some(id)
}

} // verus!
