//! Payload accounting for the data-plane server.
//!
//! An `EnvelopeReader` consumes the arbitrary chunks a connection yields,
//! assembles the envelope, and hands back exactly the payload bytes the
//! caller must write to disk — never more than the envelope's declared
//! `payload_length`. The exact-length law at the bottom states that a stream
//! carrying the envelope and exactly its declared payload is emitted in full
//! and completes; a shorter stream leaves the transfer incomplete, which the
//! caller must surface as an `IoError`.

use vstd::prelude::*;

use crate::errors::TransferError;
use crate::file_info::{
    envelope_bytes, fi_wf, lemma_envelope_round_trip, lemma_parse_envelope_extend, parse_envelope,
    try_parse_envelope, EnvStep, EnvelopeParse, FileInfo, FileInfoView,
};
use crate::wire::vec_subrange;

verus! {

use vstd::slice::slice_to_vec;

/// The payload bytes a stream has delivered: what follows the envelope,
/// capped at the declared length.
pub open spec fn spec_emitted(s: Seq<u8>) -> Seq<u8> {
    match parse_envelope(s) {
        EnvStep::Env(v, rest) => {
            if rest.len() <= v.f_len {
                rest
            } else {
                rest.take(v.f_len as int)
            }
        },
        _ => Seq::<u8>::empty(),
    }
}

/// Whether a stream has delivered its whole declared payload.
pub open spec fn spec_complete(s: Seq<u8>) -> bool {
    parse_envelope(s) is Env && spec_emitted(s).len() == parse_envelope(s)->Env_0.f_len
}

/// An incremental reader of one file transfer: envelope, then payload.
pub struct EnvelopeReader {
    buffer: Vec<u8>,
    header: Option<FileInfo>,
    remaining: u64,
    failed: bool,
    fed: Ghost<Seq<u8>>,
}

impl EnvelopeReader {
    /// Every byte fed so far.
    pub closed spec fn stream(&self) -> Seq<u8> {
        self.fed@
    }

    /// The reader's state agrees with its stream.
    pub closed spec fn wf(&self) -> bool {
        match parse_envelope(self.fed@) {
            EnvStep::Incomplete => !self.failed && self.header is None && self.buffer@
                == self.fed@,
            EnvStep::Bad => self.failed && self.header is None,
            EnvStep::Env(v, rest) => {
                &&& !self.failed
                &&& self.header is Some
                &&& self.header->Some_0@ == v
                &&& self.remaining == v.f_len - spec_emitted(self.fed@).len()
            },
        }
    }

    /// A reader that has seen nothing.
    pub fn new() -> (r: EnvelopeReader)
        ensures
            r.wf(),
            r.stream() == Seq::<u8>::empty(),
    {
        EnvelopeReader {
            buffer: Vec::new(),
            header: None,
            remaining: 0,
            failed: false,
            fed: Ghost(Seq::empty()),
        }
    }

    /// The decoded envelope, once the stream holds one.
    pub fn header(&self) -> (r: &Option<FileInfo>)
        requires
            self.wf(),
        ensures
            parse_envelope(self.stream()) is Env ==> r is Some && r->0@ == parse_envelope(
                self.stream(),
            )->Env_0,
            parse_envelope(self.stream()) is Incomplete ==> r is None,
    {
        &self.header
    }

    /// Whether the whole declared payload has arrived.
    pub fn complete(&self) -> (r: bool)
        requires
            self.wf(),
        ensures
            r == spec_complete(self.stream()),
    {
        match &self.header {
            Some(_) => self.remaining == 0,
            None => false,
        }
    }

    /// Feeds one chunk; returns the payload bytes it contributes, in order.
    ///
    /// The returned bytes extend the stream's emitted payload exactly; bytes
    /// beyond the declared length are dropped. Fails with `ProtocolError`
    /// exactly where the stream can never hold a valid envelope.
    pub fn feed(&mut self, chunk: &[u8]) -> (r: Result<Vec<u8>, TransferError>)
        requires
            old(self).wf(),
        ensures
            final(self).wf(),
            final(self).stream() == old(self).stream() + chunk@,
            r is Err <==> parse_envelope(old(self).stream() + chunk@) is Bad,
            r is Err ==> r->Err_0 == TransferError::ProtocolError,
            r is Ok ==> spec_emitted(old(self).stream() + chunk@) == spec_emitted(
                old(self).stream(),
            ) + r->Ok_0@,
    {
        let ghost old_stream = self.fed@;
        let ghost new_stream = self.fed@ + chunk@;
        proof {
            self.fed@ = new_stream;
            lemma_parse_envelope_extend(old_stream, chunk@);
        }
        if self.failed {
            proof {
                assert(parse_envelope(new_stream) is Bad);
            }
            return Err(TransferError::ProtocolError);
        }
        match &self.header {
            Some(_) => {
                let ghost v = parse_envelope(old_stream)->Env_0;
                let ghost rest = parse_envelope(old_stream)->Env_1;
                let clen = chunk.len();
                let take: usize = if (clen as u64) <= self.remaining {
                    clen
                } else {
                    self.remaining as usize
                };
                let taken = slice_to_vec(vstd::slice::slice_subrange(chunk, 0, take));
                self.remaining = self.remaining - (take as u64);
                proof {
                    assert(parse_envelope(new_stream) == EnvStep::Env(v, rest + chunk@));
                    if rest.len() <= v.f_len {
                        assert(spec_emitted(old_stream) =~= rest);
                        if rest.len() + chunk@.len() <= v.f_len {
                            assert(spec_emitted(new_stream) =~= rest + chunk@);
                            assert(taken@ =~= chunk@);
                        } else {
                            assert(spec_emitted(new_stream) =~= (rest + chunk@).take(
                                v.f_len as int,
                            ));
                            assert(spec_emitted(new_stream) =~= rest + chunk@.take(take as int));
                        }
                    } else {
                        assert(spec_emitted(old_stream) =~= rest.take(v.f_len as int));
                        assert(take == 0);
                        assert(spec_emitted(new_stream) =~= (rest + chunk@).take(v.f_len as int));
                        assert(spec_emitted(new_stream) =~= spec_emitted(old_stream) + taken@);
                    }
                    assert(spec_emitted(new_stream) =~= spec_emitted(old_stream) + taken@);
                }
                Ok(taken)
            },
            None => {
                let mut incoming = slice_to_vec(chunk);
                self.buffer.append(&mut incoming);
                proof {
                    assert(self.buffer@ =~= new_stream);
                }
                match try_parse_envelope(&self.buffer) {
                    EnvelopeParse::NeedMore => {
                        proof {
                            assert(spec_emitted(new_stream) =~= spec_emitted(old_stream)
                                + Seq::<u8>::empty());
                        }
                        Ok(Vec::new())
                    },
                    EnvelopeParse::Malformed => {
                        self.failed = true;
                        self.buffer = Vec::new();
                        Err(TransferError::ProtocolError)
                    },
                    EnvelopeParse::Done(fi, used) => {
                        let ghost v = fi@;
                        let blen = self.buffer.len();
                        let rest_len = blen - used;
                        let take: usize = if (rest_len as u64) <= fi.f_len {
                            rest_len
                        } else {
                            fi.f_len as usize
                        };
                        let out = vec_subrange(&self.buffer, used, used + take);
                        self.remaining = fi.f_len - (take as u64);
                        self.header = Some(fi);
                        self.buffer = Vec::new();
                        proof {
                            let rest = new_stream.skip(used as int);
                            assert(parse_envelope(new_stream) == EnvStep::Env(v, rest));
                            assert(spec_emitted(old_stream) =~= Seq::<u8>::empty());
                            if rest.len() <= v.f_len {
                                assert(out@ =~= rest);
                                assert(spec_emitted(new_stream) =~= out@);
                            } else {
                                assert(out@ =~= rest.take(v.f_len as int));
                                assert(spec_emitted(new_stream) =~= out@);
                            }
                            assert(spec_emitted(new_stream) =~= spec_emitted(old_stream) + out@);
                        }
                        Ok(out)
                    },
                }
            },
        }
    }
}

/// Law: exact-length ingestion. A stream holding a well-formed envelope and
/// exactly its declared payload emits that payload in full and completes;
/// any shorter payload prefix emits only what arrived and never completes,
/// so a connection that closes there leaves a short file and an error.
pub proof fn lemma_exact_length_ingestion(v: FileInfoView, payload: Seq<u8>)
    requires
        fi_wf(v),
        crate::datetime::dt_wf(v.datetime),
        payload.len() == v.f_len,
    ensures
        spec_emitted(envelope_bytes(v) + payload) == payload,
        spec_complete(envelope_bytes(v) + payload),
        forall|k: int|
            0 <= k < payload.len() ==> #[trigger] spec_emitted(
                envelope_bytes(v) + payload.take(k),
            ) == payload.take(k) && !spec_complete(envelope_bytes(v) + payload.take(k)),
{
    lemma_envelope_round_trip(v, payload);
    assert forall|k: int| 0 <= k < payload.len() implies #[trigger] spec_emitted(
        envelope_bytes(v) + payload.take(k),
    ) == payload.take(k) && !spec_complete(envelope_bytes(v) + payload.take(k)) by {
        lemma_envelope_round_trip(v, payload.take(k));
    }
}

} // verus!
