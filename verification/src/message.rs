//! Control messages and their frame encoding.
//!
//! A control frame is self-delimiting: a one-byte type tag, a four-byte
//! big-endian payload length, then the UTF-8 payload. The tag differs from
//! the file-envelope tag, so the two families can never be confused on a
//! connection.

use vstd::prelude::*;

use crate::wire::{push_be4, push_bytes, spec_be4, spec_be4_val, lemma_be4_round_trip};

verus! {

use vstd::utf8::{valid_utf8, decode_utf8, encode_utf8};

/// The type tag that opens every control frame.
pub const CONTROL_TAG: u8 = 100;

/// One operator command, carried as free text.
///
/// The recognized command words are case-sensitive; anything else is accepted
/// on the wire and ignored by the state machine.
#[derive(Clone, Debug)]
pub struct Message {
    pub content: String,
}

impl View for Message {
    type V = Seq<char>;

    open spec fn view(&self) -> Seq<char> {
        self.content@
    }
}

impl DeepView for Message {
    type V = Seq<char>;

    open spec fn deep_view(&self) -> Seq<char> {
        self.content@
    }
}

/// Whether a message's payload length fits the frame's four-byte field.
pub open spec fn msg_wf(c: Seq<char>) -> bool {
    encode_utf8(c).len() <= u32::MAX
}

/// The complete frame that carries the content `c`.
pub open spec fn frame_bytes(c: Seq<char>) -> Seq<u8> {
    seq![CONTROL_TAG] + spec_be4(encode_utf8(c).len() as u32) + encode_utf8(c)
}

impl Message {
    /// Wraps command text in a message.
    pub fn new(content: &str) -> (r: Message)
        ensures
            r@ == content@,
    {
        Message { content: content.to_owned() }
    }

    /// The frame that carries this message.
    pub fn encode(&self) -> (r: Vec<u8>)
        requires
            msg_wf(self@),
        ensures
            r@ == frame_bytes(self@),
    {
        let payload = self.content.as_str().as_bytes_vec();
        let mut out: Vec<u8> = Vec::new();
        out.push(CONTROL_TAG);
        push_be4(&mut out, payload.len() as u32);
        push_bytes(&mut out, &payload);
        proof {
            assert(out@ =~= frame_bytes(self@));
        }
        out
    }
}

/// One attempt to take a frame off the front of a byte stream.
pub enum FrameStep {
    /// The bytes so far are a proper prefix of a frame.
    Incomplete,
    /// The bytes can never grow into a frame: wrong tag or non-UTF-8 payload.
    Bad,
    /// A complete frame: its decoded content and the bytes after it.
    Msg(Seq<char>, Seq<u8>),
}

/// Parses one frame off the front of `b`.
pub open spec fn parse_frame(b: Seq<u8>) -> FrameStep {
    if b.len() == 0 {
        FrameStep::Incomplete
    } else if b[0] != CONTROL_TAG {
        FrameStep::Bad
    } else if b.len() < 5 {
        FrameStep::Incomplete
    } else {
        let n = spec_be4_val(b.subrange(1, 5)) as int;
        if b.len() < 5 + n {
            FrameStep::Incomplete
        } else {
            let payload = b.subrange(5, 5 + n);
            if !valid_utf8(payload) {
                FrameStep::Bad
            } else {
                FrameStep::Msg(decode_utf8(payload), b.skip(5 + n))
            }
        }
    }
}

/// The contents of all complete frames at the front of `b`, in order.
pub open spec fn frames_of(b: Seq<u8>) -> Seq<Seq<char>>
    decreases b.len(),
{
    match parse_frame(b) {
        FrameStep::Msg(c, rest) => seq![c] + frames_of(rest),
        _ => Seq::<Seq<char>>::empty(),
    }
}

/// What remains of `b` after all complete frames at its front.
pub open spec fn frames_rest(b: Seq<u8>) -> Seq<u8>
    decreases b.len(),
{
    match parse_frame(b) {
        FrameStep::Msg(c, rest) => frames_rest(rest),
        _ => b,
    }
}

/// Whether `b` reaches a state no further bytes can repair.
pub open spec fn frames_bad(b: Seq<u8>) -> bool
    decreases b.len(),
{
    match parse_frame(b) {
        FrameStep::Msg(c, rest) => frames_bad(rest),
        FrameStep::Bad => true,
        FrameStep::Incomplete => false,
    }
}

/// A parse of the front of a stream is unchanged by bytes appended behind it.
pub proof fn lemma_parse_frame_extend(b: Seq<u8>, c: Seq<u8>)
    ensures
        parse_frame(b) is Msg ==> parse_frame(b + c) == FrameStep::Msg(
            parse_frame(b)->Msg_0,
            parse_frame(b)->Msg_1 + c,
        ),
        parse_frame(b) is Bad ==> parse_frame(b + c) is Bad,
{
    let w = b + c;
    if b.len() > 0 {
        assert(w[0] == b[0]);
        if b[0] == CONTROL_TAG && b.len() >= 5 {
            assert(w.subrange(1, 5) =~= b.subrange(1, 5));
            let n = spec_be4_val(b.subrange(1, 5)) as int;
            if b.len() >= 5 + n {
                assert(w.subrange(5, 5 + n) =~= b.subrange(5, 5 + n));
                let payload = b.subrange(5, 5 + n);
                if valid_utf8(payload) {
                    assert(w.skip(5 + n) =~= b.skip(5 + n) + c);
                }
            }
        }
    }
}

/// A hopeless stream stays hopeless under appended bytes.
pub proof fn lemma_frames_bad_extend(b: Seq<u8>, c: Seq<u8>)
    requires
        frames_bad(b),
    ensures
        frames_bad(b + c),
    decreases b.len(),
{
    lemma_parse_frame_extend(b, c);
    match parse_frame(b) {
        FrameStep::Msg(m, rest) => {
            lemma_frames_bad_extend(rest, c);
        },
        _ => {},
    }
}

/// Draining the complete frames commutes with appending bytes: the frames of
/// `b + c` are those of `b` followed by those of `b`'s tail extended with `c`.
pub proof fn lemma_frames_extend(b: Seq<u8>, c: Seq<u8>)
    requires
        !frames_bad(b),
    ensures
        frames_of(b + c) == frames_of(b) + frames_of(frames_rest(b) + c),
        frames_rest(b + c) == frames_rest(frames_rest(b) + c),
        frames_bad(b + c) == frames_bad(frames_rest(b) + c),
    decreases b.len(),
{
    lemma_parse_frame_extend(b, c);
    match parse_frame(b) {
        FrameStep::Msg(m, rest) => {
            lemma_frames_extend(rest, c);
            assert(frames_of(b + c) =~= frames_of(b) + frames_of(frames_rest(b) + c));
        },
        FrameStep::Incomplete => {
            assert(frames_rest(b) == b);
            assert(frames_of(b + c) =~= frames_of(b) + frames_of(frames_rest(b) + c));
        },
        FrameStep::Bad => {},
    }
}

/// An encoded frame parses back to its content, whatever follows it.
pub proof fn lemma_parse_encoded(c: Seq<char>, rest: Seq<u8>)
    requires
        msg_wf(c),
    ensures
        parse_frame(frame_bytes(c) + rest) == FrameStep::Msg(c, rest),
{
    broadcast use vstd::utf8::encode_utf8_valid_utf8;
    broadcast use vstd::utf8::encode_utf8_decode_utf8;

    let payload = encode_utf8(c);
    let n = payload.len() as u32;
    let fb = frame_bytes(c);
    let w = fb + rest;
    assert(spec_be4(n).len() == 4);
    assert(w[0] == CONTROL_TAG);
    assert(w.len() >= 5);
    assert(w.subrange(1, 5) =~= spec_be4(n));
    lemma_be4_round_trip(n);
    assert(spec_be4_val(w.subrange(1, 5)) == n);
    assert(w.len() >= 5 + n as int);
    assert(w.subrange(5, 5 + n as int) =~= payload);
    assert(w.skip(5 + n as int) =~= rest);
}

/// The concatenated frames of a message sequence.
pub open spec fn concat_frames(msgs: Seq<Seq<char>>) -> Seq<u8>
    decreases msgs.len(),
{
    if msgs.len() == 0 {
        Seq::<u8>::empty()
    } else {
        frame_bytes(msgs.first()) + concat_frames(msgs.drop_first())
    }
}

/// A concatenation of well-formed frames drains to exactly its messages.
pub proof fn lemma_frames_of_concat(msgs: Seq<Seq<char>>)
    requires
        forall|i: int| 0 <= i < msgs.len() ==> msg_wf(#[trigger] msgs[i]),
    ensures
        frames_of(concat_frames(msgs)) == msgs,
        frames_rest(concat_frames(msgs)) == Seq::<u8>::empty(),
        !frames_bad(concat_frames(msgs)),
    decreases msgs.len(),
{
    if msgs.len() == 0 {
        assert(parse_frame(concat_frames(msgs)) is Incomplete);
        assert(frames_of(concat_frames(msgs)) =~= msgs);
    } else {
        let m0 = msgs.first();
        let rest = concat_frames(msgs.drop_first());
        lemma_parse_encoded(m0, rest);
        lemma_frames_of_concat(msgs.drop_first());
        assert(frames_of(concat_frames(msgs)) =~= msgs);
    }
}

} // verus!
