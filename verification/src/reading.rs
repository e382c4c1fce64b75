//! Reading the frame of a request off a connection: when to read on, when to
//! stop, and the text of the bytes that came.

use vstd::prelude::*;
use vstd::string::*;
use vstd::utf8::*;

use crate::search::{find_bytes, find_from, lemma_find};

verus! {

/// How many bytes of a frame are buffered at most.
pub const MAX_REQUEST_BYTES: usize = 16384;

/// How many bytes one read takes at most.
pub const READ_CHUNK_BYTES: usize = 1024;

/// How long, in milliseconds, the rest of a body is waited for.
pub const BODY_WAIT_MILLIS: u64 = 50;

/// The position after the empty line that ends the head.
pub open spec fn body_boundary(buf: Seq<u8>) -> Option<int> {
    match find_from(buf, seq![13u8, 10, 13, 10], 0) {
        Some(i) => Some(i + 4),
        None => match find_from(buf, seq![10u8, 10], 0) {
            Some(i) => Some(i + 2),
            None => None,
        },
    }
}

/// The position after the empty line that ends the head.
pub fn find_body_boundary(buf: &[u8]) -> (r: Option<usize>)
    ensures
        body_boundary(buf@) == (match r {
            Some(i) => Some(i as int),
            None => None::<int>,
        }),
{
    let crlf2: [u8; 4] = [13, 10, 13, 10];
    let lf2: [u8; 2] = [10, 10];
    proof {
        assert(crlf2@ == seq![13u8, 10, 13, 10]);
        assert(lf2@ == seq![10u8, 10]);
        lemma_find(buf@, crlf2@, 0);
        lemma_find(buf@, lf2@, 0);
    }
    let n: usize = buf.len();
    match find_bytes(buf, &crlf2, 0) {
        Some(i) => {
            assert(i + 4 <= n);
            Some(i + 4)
        },
        None => match find_bytes(buf, &lf2, 0) {
            Some(i) => {
                assert(i + 2 <= n);
                Some(i + 2)
            },
            None => None,
        },
    }
}

/// What to do next with a connection whose frame is being read.
#[derive(Debug, Clone, Copy, PartialEq, Eq, Structural)]
pub enum NextRead {
    /// Read, for as long as it takes.
    Wait,
    /// Read, for at most [`BODY_WAIT_MILLIS`].
    WaitBriefly,
    /// The frame is complete.
    Done,
}

/// What came of a read.
#[derive(Debug, Clone, Copy)]
pub enum ReadEvent<'a> {
    /// These bytes; none of them at the end of the stream.
    Bytes(&'a [u8]),
    /// Nothing in the time that was given.
    TimedOut,
}

/// The bytes that a read brought.
pub open spec fn brought(event: ReadEvent) -> Seq<u8> {
    match event {
        ReadEvent::Bytes(b) => b@,
        ReadEvent::TimedOut => seq![],
    }
}

/// What is buffered after a read that brought `bytes`: no more than fits.
pub open spec fn buffered(buf: Seq<u8>, bytes: Seq<u8>) -> Seq<u8> {
    if buf.len() >= MAX_REQUEST_BYTES {
        buf
    } else if buf.len() + bytes.len() > MAX_REQUEST_BYTES {
        (buf + bytes).take(MAX_REQUEST_BYTES as int)
    } else {
        buf + bytes
    }
}

/// What to do after a read that was made as `asked` and left `buf` in the
/// buffer. A read that brings nothing ends the frame, and so does a full buffer.
/// Once the head is there, a read that waited for as long as it took is followed
/// by one that waits only briefly.
pub open spec fn next_read(buf: Seq<u8>, asked: NextRead, nothing: bool) -> NextRead {
    if nothing || buf.len() >= MAX_REQUEST_BYTES {
        NextRead::Done
    } else if asked == NextRead::Wait && body_boundary(buf) is Some {
        NextRead::WaitBriefly
    } else {
        NextRead::Wait
    }
}

/// How many bytes the next read may take: at most a chunk, and no more than fits.
pub open spec fn room_for(buf: Seq<u8>) -> int {
    if buf.len() >= MAX_REQUEST_BYTES {
        0
    } else if MAX_REQUEST_BYTES - buf.len() < READ_CHUNK_BYTES {
        MAX_REQUEST_BYTES - buf.len()
    } else {
        READ_CHUNK_BYTES as int
    }
}

/// How many bytes the next read may take.
pub fn room(buf: &Vec<u8>) -> (r: usize)
    ensures
        r == room_for(buf@),
{
    if buf.len() >= MAX_REQUEST_BYTES {
        return 0;
    }
    let left: usize = MAX_REQUEST_BYTES - buf.len();
    if left < READ_CHUNK_BYTES {
        left
    } else {
        READ_CHUNK_BYTES
    }
}

/// Takes what a read brought, and says what to do next.
pub fn take_read(buf: &mut Vec<u8>, asked: NextRead, event: ReadEvent<'_>) -> (r: NextRead)
    ensures
        final(buf)@ == buffered(old(buf)@, brought(event)),
        r == next_read(final(buf)@, asked, brought(event).len() == 0),
{
    let bytes = match event {
        ReadEvent::Bytes(b) => b,
        ReadEvent::TimedOut => {
            assert(old(buf)@ + brought(event) == old(buf)@);
            return NextRead::Done;
        },
    };
    if bytes.len() == 0 {
        assert(old(buf)@ + brought(event) == old(buf)@);
        return NextRead::Done;
    }
    let ghost before = buf@;
    let mut i: usize = 0;
    while i < bytes.len() && buf.len() < MAX_REQUEST_BYTES
        invariant
            i <= bytes.len(),
            buf@ == before + bytes@.take(i as int),
            i > 0 ==> buf@.len() <= MAX_REQUEST_BYTES,
        decreases bytes.len() - i,
    {
        buf.push(bytes[i]);
        assert(bytes@.take(i + 1) == bytes@.take(i as int).push(bytes@[i as int]));
        i += 1;
    }
    assert(buf@ == buffered(before, bytes@)) by {
        if before.len() >= MAX_REQUEST_BYTES {
            assert(before + bytes@.take(0) == before);
        } else {
            assert(buf@ =~= (before + bytes@).take(buf@.len() as int));
            assert((before + bytes@).take((before + bytes@).len() as int) == before + bytes@);
        }
    }
    if buf.len() >= MAX_REQUEST_BYTES {
        return NextRead::Done;
    }
    let waited = match asked {
        NextRead::Wait => true,
        _ => false,
    };
    if waited && find_body_boundary(buf.as_slice()).is_some() {
        NextRead::WaitBriefly
    } else {
        NextRead::Wait
    }
}

/// The text that `String::from_utf8_lossy` makes of bytes.
pub uninterp spec fn lossy_text(bytes: Seq<u8>) -> Seq<char>;

/// Bytes that are valid UTF-8 are made into the text that they encode.
pub open spec fn reads_plainly(bytes: Seq<u8>) -> bool {
    valid_utf8(bytes) ==> lossy_text(bytes) == decode_utf8(bytes)
}

/// `String::from_utf8_lossy`: the text of the bytes. Bytes that are valid UTF-8
/// are decoded; what replaces the others is left to `lossy_text`.
#[verifier::external_body]
pub(crate) fn decode_lossy(bytes: &[u8]) -> (r: String)
    ensures
        r@ == lossy_text(bytes@),
        valid_utf8(bytes@) ==> r@ == decode_utf8(bytes@),
{
    String::from_utf8_lossy(bytes).into_owned()
}

} // verus!
