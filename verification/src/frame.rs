//! Frames: how content is cut and laid on the wire, and that nothing is lost
//! by it.

use vstd::prelude::*;
use vstd::slice::slice_subrange;

verus! {

/// Largest payload of a frame when the caller names no chunk size.
pub const DEFAULT_CHUNK_SIZE: usize = 4096;

/// Largest payload that the length field of a frame can announce.
pub const MAX_CHUNK_SIZE: u32 = 0xFFFF_FFFF;

/// The four bytes that close a stream of frames: a frame of length zero.
pub const END_OF_STREAM: [u8; 4] = [0, 0, 0, 0];

/// The chunk size that a request stands for: the default where none is
/// named, and never more than a length field can announce.
pub open spec fn chunk_limit_of(requested: Option<usize>) -> nat {
    let wanted = match requested {
        Some(n) => n as nat,
        None => DEFAULT_CHUNK_SIZE as nat,
    };
    if wanted <= MAX_CHUNK_SIZE { wanted } else { MAX_CHUNK_SIZE as nat }
}

/// The length field of a frame: `n` as four bytes, most significant first.
#[verifier::opaque]
pub open spec fn be32(n: nat) -> Seq<u8> {
    seq![
        (n / 0x100_0000 % 0x100) as u8,
        (n / 0x1_0000 % 0x100) as u8,
        (n / 0x100 % 0x100) as u8,
        (n % 0x100) as u8,
    ]
}

/// The number that a length field announces.
#[verifier::opaque]
pub open spec fn be32_value(field: Seq<u8>) -> nat {
    (field[0] * 0x100_0000 + field[1] * 0x1_0000 + field[2] * 0x100 + field[3]) as nat
}

/// The terminator on the wire.
pub open spec fn terminator() -> Seq<u8> {
    seq![0u8, 0u8, 0u8, 0u8]
}

/// One frame on the wire: the length of the payload, then the payload.
pub open spec fn frame(payload: Seq<u8>) -> Seq<u8> {
    be32(payload.len()) + payload
}

/// The payloads into which `data` is cut: runs of `limit` bytes in the order
/// of `data`, the last run holding what is left. No data, no payload.
pub open spec fn pieces(data: Seq<u8>, limit: nat) -> Seq<Seq<u8>>
    decreases data.len(),
{
    if limit == 0 || data.len() == 0 {
        Seq::empty()
    } else if data.len() <= limit {
        seq![data]
    } else {
        seq![data.take(limit as int)] + pieces(data.skip(limit as int), limit)
    }
}

/// The wire image of a list of payloads: their frames, one after the other.
pub open spec fn frames(payloads: Seq<Seq<u8>>) -> Seq<u8>
    decreases payloads.len(),
{
    if payloads.len() == 0 {
        Seq::empty()
    } else {
        frame(payloads.first()) + frames(payloads.drop_first())
    }
}

/// The wire image of `data` under a chunk size of `limit`.
pub open spec fn framed(data: Seq<u8>, limit: nat) -> Seq<u8> {
    frames(pieces(data, limit))
}

/// What the reader of a stream of frames recovers: the payloads in their
/// order, up to the terminator. Nothing is recovered from bytes that stop
/// short of a terminator or go on behind it.
pub open spec fn unframed(wire: Seq<u8>) -> Option<Seq<Seq<u8>>>
    decreases wire.len(),
{
    if wire.len() < 4 {
        None
    } else {
        let n = be32_value(wire.take(4)) as int;
        if n == 0 {
            if wire.len() == 4 {
                Some(Seq::empty())
            } else {
                None
            }
        } else if wire.len() < 4 + n {
            None
        } else {
            match unframed(wire.skip(4 + n)) {
                Some(rest) => Some(seq![wire.subrange(4, 4 + n)] + rest),
                None => None,
            }
        }
    }
}

/// Settles the chunk size of a scan. A chunk size of zero is refused: no
/// payload could be cut to it.
pub fn chunk_limit(requested: Option<usize>) -> (limit: Option<u32>)
    ensures
        limit is Some <==> requested != Some(0usize),
        limit matches Some(n) ==> n == chunk_limit_of(requested) && n >= 1,
{
    let wanted: usize = match requested {
        Some(n) => n,
        None => DEFAULT_CHUNK_SIZE,
    };
    if wanted == 0 {
        None
    } else if wanted <= MAX_CHUNK_SIZE as usize {
        Some(wanted as u32)
    } else {
        Some(MAX_CHUNK_SIZE)
    }
}

/// The length field for a payload of `len` bytes.
pub fn frame_header(len: u32) -> (field: [u8; 4])
    ensures
        field@ == be32(len as nat),
{
    let field = [
        (len / 0x100_0000) as u8,
        (len / 0x1_0000 % 0x100) as u8,
        (len / 0x100 % 0x100) as u8,
        (len % 0x100) as u8,
    ];
    assert(field@ =~= be32(len as nat)) by {
        reveal(be32);
    }
    field
}

/// Cuts `data` into payloads of at most `limit` bytes and frames each.
pub fn encode_frames(data: &[u8], limit: u32) -> (wire: Vec<u8>)
    requires
        limit >= 1,
    ensures
        wire@ == framed(data@, limit as nat),
{
    let mut wire: Vec<u8> = Vec::new();
    let mut offset: usize = 0;
    assert(data@.skip(0) =~= data@);
    while offset < data.len()
        invariant
            limit >= 1,
            offset <= data.len(),
            wire@ + framed(data@.skip(offset as int), limit as nat) == framed(data@, limit as nat),
        decreases data.len() - offset,
    {
        let left: usize = data.len() - offset;
        let len: u32 = if left <= limit as usize { left as u32 } else { limit };
        let field = frame_header(len);
        let payload = slice_subrange(data, offset, offset + len as usize);
        proof {
            let rest = data@.skip(offset as int);
            framed_unfolds(rest, limit as nat);
            assert(rest.take(len as int) =~= payload@);
            assert(rest.skip(len as int) =~= data@.skip(offset + len));
        }
        let ghost before = wire@;
        wire.extend_from_slice(field.as_slice());
        wire.extend_from_slice(payload);
        assert(wire@ =~= before + frame(payload@));
        offset += len as usize;
    }
    assert(data@.skip(offset as int) =~= Seq::<u8>::empty());
    wire
}

/// A length field is four bytes long.
proof fn be32_len(n: nat)
    ensures
        be32(n).len() == 4,
{
    reveal(be32);
}

/// A length field announces the number it was made from.
pub proof fn be32_round_trip(n: nat)
    requires
        n <= MAX_CHUNK_SIZE,
    ensures
        be32(n).len() == 4,
        be32_value(be32(n)) == n,
{
    reveal(be32);
    reveal(be32_value);
}

/// The first piece of non-empty data leads its wire image, and the rest of
/// the image is that of the rest of the data.
proof fn framed_unfolds(data: Seq<u8>, limit: nat)
    requires
        limit >= 1,
        data.len() >= 1,
    ensures
        ({
            let n = if data.len() <= limit { data.len() as int } else { limit as int };
            framed(data, limit) == frame(data.take(n)) + framed(data.skip(n), limit)
        }),
{
    let n = if data.len() <= limit { data.len() as int } else { limit as int };
    let head = data.take(n);
    let tail = pieces(data.skip(n), limit);
    if data.len() <= limit {
        assert(head =~= data);
        assert(data.skip(n).len() == 0);
        assert(tail =~= Seq::<Seq<u8>>::empty());
        assert(pieces(data, limit) =~= seq![head]);
    }
    let all = seq![head] + tail;
    assert(pieces(data, limit) =~= all);
    assert(all.first() == head);
    assert(all.drop_first() =~= tail);
}

/// Every payload cut from `data` holds at least one byte and at most
/// `limit`, and the payloads joined in their order are `data` again.
pub proof fn pieces_rejoin(data: Seq<u8>, limit: nat)
    requires
        limit >= 1,
    ensures
        pieces(data, limit).flatten() == data,
        forall|i: int|
            0 <= i < pieces(data, limit).len() ==> 1 <= #[trigger] pieces(data, limit)[i].len()
                <= limit,
    decreases data.len(),
{
    let cut = pieces(data, limit);
    if data.len() == 0 {
        assert(cut.flatten() =~= data);
    } else if data.len() <= limit {
        cut.lemma_flatten_one_element();
    } else {
        let head = data.take(limit as int);
        let tail = pieces(data.skip(limit as int), limit);
        pieces_rejoin(data.skip(limit as int), limit);
        assert(cut.first() == head);
        assert(cut.drop_first() =~= tail);
        assert(cut.flatten() =~= head + tail.flatten());
        assert(head + data.skip(limit as int) =~= data);
        assert forall|i: int| 0 <= i < cut.len() implies 1 <= #[trigger] cut[i].len() <= limit by {
            if i > 0 {
                assert(cut[i] == tail[i - 1]);
            }
        }
    }
}

/// Data that fits the chunk size goes out as one frame: its length, then
/// the data as it stands.
pub proof fn fitting_data_is_one_frame(data: Seq<u8>, limit: nat)
    requires
        1 <= data.len() <= limit,
    ensures
        framed(data, limit) == frame(data),
{
    framed_unfolds(data, limit);
    assert(data.take(data.len() as int) =~= data);
    assert(data.skip(data.len() as int) =~= Seq::<u8>::empty());
    assert(framed(data, limit) =~= frame(data));
}

/// The frames of two lists of payloads, one after the other, are the frames
/// of the two lists joined.
pub proof fn frames_concat(a: Seq<Seq<u8>>, b: Seq<Seq<u8>>)
    ensures
        frames(a + b) == frames(a) + frames(b),
    decreases a.len(),
{
    if a.len() == 0 {
        assert(a + b =~= b);
        assert(frames(a) + frames(b) =~= frames(b));
    } else {
        frames_concat(a.drop_first(), b);
        assert((a + b).first() == a.first());
        assert((a + b).drop_first() =~= a.drop_first() + b);
        assert(frames(a + b) =~= frames(a) + frames(b));
    }
}

/// The wire image of data that is not empty is longer than the terminator,
/// so that no reader takes the one for the other.
pub proof fn framed_is_no_terminator(data: Seq<u8>, limit: nat)
    requires
        limit >= 1,
        data.len() >= 1,
    ensures
        framed(data, limit).len() >= 5,
        framed(data, limit) != terminator(),
{
    let n = if data.len() <= limit { data.len() as int } else { limit as int };
    framed_unfolds(data, limit);
    be32_len(data.take(n).len());
}

/// A reader that meets the terminator has read all payloads.
proof fn unframed_terminator()
    ensures
        unframed(terminator()) == Some(Seq::<Seq<u8>>::empty()),
{
    reveal(be32_value);
    assert(terminator().take(4) =~= terminator());
}

/// A reader that meets a frame takes its payload and reads on behind it.
proof fn unframed_frame(payload: Seq<u8>, rest: Seq<u8>)
    requires
        1 <= payload.len() <= MAX_CHUNK_SIZE,
    ensures
        unframed(frame(payload) + rest) == match unframed(rest) {
            Some(more) => Some(seq![payload] + more),
            None => None,
        },
{
    let wire = frame(payload) + rest;
    let field = be32(payload.len());
    assert(be32_value(field) == payload.len() && field.len() == 4) by {
        be32_round_trip(payload.len());
    }
    let n = payload.len() as int;
    assert(wire.take(4) =~= field);
    assert(wire.subrange(4, 4 + n) =~= payload);
    assert(wire.skip(4 + n) =~= rest);
}

/// Frames are read back as they were written: behind the frames of any
/// payloads that a length field can announce, closed by the terminator, a
/// reader finds those payloads and no others.
pub proof fn frames_read_back(payloads: Seq<Seq<u8>>)
    requires
        forall|i: int|
            0 <= i < payloads.len() ==> 1 <= #[trigger] payloads[i].len() <= MAX_CHUNK_SIZE,
    ensures
        unframed(frames(payloads) + terminator()) == Some(payloads),
    decreases payloads.len(),
{
    let wire = frames(payloads) + terminator();
    if payloads.len() == 0 {
        assert(wire =~= terminator());
        unframed_terminator();
        assert(payloads =~= Seq::<Seq<u8>>::empty());
    } else {
        let head = payloads.first();
        let tail = payloads.drop_first();
        assert forall|i: int| 0 <= i < tail.len() implies 1 <= #[trigger] tail[i].len()
            <= MAX_CHUNK_SIZE by {
            assert(tail[i] == payloads[i + 1]);
        }
        frames_read_back(tail);
        unframed_frame(head, frames(tail) + terminator());
        assert(wire =~= frame(head) + (frames(tail) + terminator()));
        assert(seq![head] + tail =~= payloads);
    }
}

/// Framing is lossless and keeps the order: for every chunk size that a
/// length field can announce, a reader of the wire image of `data` recovers
/// payloads of at most that size which, joined in their order, are `data`.
pub proof fn framing_is_lossless(data: Seq<u8>, limit: nat)
    requires
        1 <= limit <= MAX_CHUNK_SIZE,
    ensures
        unframed(framed(data, limit) + terminator()) == Some(pieces(data, limit)),
        pieces(data, limit).flatten() == data,
        forall|i: int|
            0 <= i < pieces(data, limit).len() ==> 1 <= #[trigger] pieces(data, limit)[i].len()
                <= limit,
{
    pieces_rejoin(data, limit);
    frames_read_back(pieces(data, limit));
}

} // verus!
