//! Stream reassembly for control frames.
//!
//! A `MessageReader` turns the arbitrary byte chunks a socket hands over into
//! complete decoded messages. It buffers whatever tail is not yet a whole
//! frame and never needs look-ahead beyond a frame's declared length. The
//! reassembly law at the bottom states that the chunk boundaries do not
//! matter: any split of a frame stream feeds back the original messages.

use vstd::prelude::*;

use crate::errors::TransferError;
use crate::message::{
    frames_bad, frames_of, frames_rest, parse_frame, concat_frames, msg_wf, FrameStep, Message,
    CONTROL_TAG,
};
use crate::text::string_from_utf8;
use crate::wire::{read_be4, vec_subrange};

verus! {

use vstd::slice::slice_to_vec;

/// An incremental parser of control frames, one per connection.
pub struct MessageReader {
    buffer: Vec<u8>,
}

impl View for MessageReader {
    type V = Seq<u8>;

    /// The bytes fed so far that no emitted frame has consumed.
    closed spec fn view(&self) -> Seq<u8> {
        self.buffer@
    }
}

impl MessageReader {
    /// A reader with nothing buffered.
    pub fn new() -> (r: MessageReader)
        ensures
            r@ == Seq::<u8>::empty(),
    {
        MessageReader { buffer: Vec::new() }
    }

    /// Feeds one chunk and returns every message it completes, in order.
    ///
    /// The retained tail is exactly what the complete frames did not consume.
    /// Fails with `ProtocolError` exactly where the stream can no longer grow
    /// into a frame: a wrong tag or a non-UTF-8 payload.
    pub fn read(&mut self, chunk: &[u8]) -> (r: Result<Vec<Message>, TransferError>)
        ensures
            r is Err <==> frames_bad(old(self)@ + chunk@),
            r is Ok ==> r->Ok_0.deep_view() == frames_of(old(self)@ + chunk@),
            r is Ok ==> final(self)@ == frames_rest(old(self)@ + chunk@),
            r is Err ==> r->Err_0 == TransferError::ProtocolError,
    {
        let mut incoming = slice_to_vec(chunk);
        self.buffer.append(&mut incoming);
        let ghost all: Seq<u8> = self.buffer@;
        let mut out: Vec<Message> = Vec::new();
        proof {
            assert(frames_of(all) =~= out.deep_view() + frames_of(self.buffer@));
        }
        loop
            invariant
                all == old(self)@ + chunk@,
                frames_of(all) == out.deep_view() + frames_of(self.buffer@),
                frames_rest(all) == frames_rest(self.buffer@),
                frames_bad(all) == frames_bad(self.buffer@),
            decreases self.buffer@.len(),
        {
            let blen = self.buffer.len();
            if blen == 0 {
                proof {
                    assert(parse_frame(self.buffer@) is Incomplete);
                    assert(frames_of(all) =~= out.deep_view());
                }
                return Ok(out);
            }
            if self.buffer[0] != CONTROL_TAG {
                proof {
                    assert(parse_frame(self.buffer@) is Bad);
                }
                return Err(TransferError::ProtocolError);
            }
            if blen < 5 {
                proof {
                    assert(parse_frame(self.buffer@) is Incomplete);
                    assert(frames_of(all) =~= out.deep_view());
                }
                return Ok(out);
            }
            let n = read_be4(&self.buffer, 1) as usize;
            if blen - 5 < n {
                proof {
                    assert(parse_frame(self.buffer@) is Incomplete);
                    assert(frames_of(all) =~= out.deep_view());
                }
                return Ok(out);
            }
            let payload = vec_subrange(&self.buffer, 5, 5 + n);
            match string_from_utf8(payload) {
                None => {
                    proof {
                        assert(parse_frame(self.buffer@) is Bad);
                    }
                    return Err(TransferError::ProtocolError);
                },
                Some(content) => {
                    let ghost pre = self.buffer@;
                    let ghost old_dv = out.deep_view();
                    let rest = vec_subrange(&self.buffer, 5 + n, blen);
                    proof {
                        assert(pre.skip(5 + n as int) =~= rest@);
                        assert(parse_frame(pre) == FrameStep::Msg(content@, rest@));
                    }
                    out.push(Message { content });
                    self.buffer = rest;
                    proof {
                        assert(out.deep_view() =~~= old_dv.push(parse_frame(pre)->Msg_0));
                        assert(frames_of(pre) == seq![parse_frame(pre)->Msg_0] + frames_of(
                            self.buffer@,
                        ));
                        assert(frames_of(all) =~= out.deep_view() + frames_of(self.buffer@));
                    }
                },
            }
        }
    }
}

/// The messages that successive reads of `chunks` emit, starting from a
/// reader holding `buffer`.
pub open spec fn feed_outputs(buffer: Seq<u8>, chunks: Seq<Seq<u8>>) -> Seq<Seq<char>>
    decreases chunks.len(),
{
    if chunks.len() == 0 {
        Seq::<Seq<char>>::empty()
    } else {
        frames_of(buffer + chunks.first()) + feed_outputs(
            frames_rest(buffer + chunks.first()),
            chunks.drop_first(),
        )
    }
}

/// What the reader holds after successive reads of `chunks`.
pub open spec fn feed_buffer(buffer: Seq<u8>, chunks: Seq<Seq<u8>>) -> Seq<u8>
    decreases chunks.len(),
{
    if chunks.len() == 0 {
        buffer
    } else {
        feed_buffer(frames_rest(buffer + chunks.first()), chunks.drop_first())
    }
}

/// Whether any read along the way fails.
pub open spec fn feed_bad(buffer: Seq<u8>, chunks: Seq<Seq<u8>>) -> bool
    decreases chunks.len(),
{
    if chunks.len() == 0 {
        false
    } else {
        frames_bad(buffer + chunks.first()) || feed_bad(
            frames_rest(buffer + chunks.first()),
            chunks.drop_first(),
        )
    }
}

/// The bytes of all chunks, in order.
pub open spec fn concat_chunks(chunks: Seq<Seq<u8>>) -> Seq<u8>
    decreases chunks.len(),
{
    if chunks.len() == 0 {
        Seq::<u8>::empty()
    } else {
        chunks.first() + concat_chunks(chunks.drop_first())
    }
}

/// The tail a drain leaves holds no complete frame, and stays clean.
proof fn lemma_frames_rest_drained(b: Seq<u8>)
    requires
        !frames_bad(b),
    ensures
        frames_of(frames_rest(b)) == Seq::<Seq<char>>::empty(),
        frames_rest(frames_rest(b)) == frames_rest(b),
        !frames_bad(frames_rest(b)),
    decreases b.len(),
{
    match parse_frame(b) {
        FrameStep::Msg(m, rest) => {
            lemma_frames_rest_drained(rest);
        },
        _ => {},
    }
}

/// Feeding chunk by chunk equals feeding everything at once.
proof fn lemma_feed_equals_whole(buffer: Seq<u8>, chunks: Seq<Seq<u8>>)
    requires
        !frames_bad(buffer + concat_chunks(chunks)),
        frames_of(buffer) == Seq::<Seq<char>>::empty(),
        frames_rest(buffer) == buffer,
        !frames_bad(buffer),
    ensures
        !feed_bad(buffer, chunks),
        feed_outputs(buffer, chunks) == frames_of(buffer + concat_chunks(chunks)),
        feed_buffer(buffer, chunks) == frames_rest(buffer + concat_chunks(chunks)),
    decreases chunks.len(),
{
    if chunks.len() == 0 {
        assert(buffer + concat_chunks(chunks) =~= buffer);
        assert(feed_outputs(buffer, chunks) =~= frames_of(buffer + concat_chunks(chunks)));
    } else {
        let c0 = chunks.first();
        let cc = concat_chunks(chunks.drop_first());
        let step = buffer + c0;
        assert(buffer + concat_chunks(chunks) =~= step + cc);
        if frames_bad(step) {
            crate::message::lemma_frames_bad_extend(step, cc);
            assert(false);
        }
        crate::message::lemma_frames_extend(step, cc);
        let tail = frames_rest(step);
        lemma_frames_rest_drained(step);
        assert(!frames_bad(tail + cc));
        lemma_feed_equals_whole(tail, chunks.drop_first());
        assert(feed_outputs(buffer, chunks) =~= frames_of(step + cc));
    }
}

/// Law: frame reassembly is chunking-independent. However a concatenation of
/// complete well-formed frames is split into chunks, feeding the chunks one
/// at a time to a fresh reader emits exactly the original messages, in their
/// original order, with nothing held back and no error.
pub proof fn lemma_frame_reassembly(msgs: Seq<Seq<char>>, chunks: Seq<Seq<u8>>)
    requires
        forall|i: int| 0 <= i < msgs.len() ==> msg_wf(#[trigger] msgs[i]),
        concat_chunks(chunks) == concat_frames(msgs),
    ensures
        !feed_bad(Seq::<u8>::empty(), chunks),
        feed_outputs(Seq::<u8>::empty(), chunks) == msgs,
        feed_buffer(Seq::<u8>::empty(), chunks) == Seq::<u8>::empty(),
{
    let e = Seq::<u8>::empty();
    crate::message::lemma_frames_of_concat(msgs);
    assert(e + concat_chunks(chunks) =~= concat_frames(msgs));
    assert(parse_frame(e) is Incomplete);
    lemma_feed_equals_whole(e, chunks);
}

} // verus!
