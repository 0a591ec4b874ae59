//! File envelopes: the header that precedes every streamed file.
//!
//! On the wire: a one-byte type tag, the eight-byte big-endian payload
//! length, the two-byte big-endian name length, the name bytes, the four-byte
//! big-endian timestamp length, and the encoded timestamp. The payload's raw
//! bytes follow immediately, with no further framing; `payload_length` is
//! exactly their count.

use vstd::prelude::*;

use crate::datetime::{dt_joined, dt_wf, spec_dt_decode, DateTime, DateTimeView};
use crate::errors::TransferError;
use crate::text::string_from_utf8;
use crate::wire::{
    lemma_be2_round_trip, lemma_be4_round_trip, lemma_be8_round_trip, push_be2, push_be4, push_be8,
    push_bytes, read_be2, read_be4, read_be8, spec_be2, spec_be2_val, spec_be4, spec_be4_val,
    spec_be8, spec_be8_val, vec_subrange,
};

verus! {

use vstd::utf8::{valid_utf8, decode_utf8, encode_utf8};

/// The type tag that opens every file envelope.
pub const FILE_TAG: u8 = 101;

/// The header of one file transfer.
#[derive(Clone, Debug)]
pub struct FileInfo {
    pub _type: u8,
    pub f_len: u64,
    pub fn_len: u16,
    pub filename: String,
    pub dt_len: u32,
    pub datetime: DateTime,
}

/// The mathematical value of a `FileInfo`.
pub struct FileInfoView {
    pub _type: u8,
    pub f_len: u64,
    pub fn_len: u16,
    pub filename: Seq<char>,
    pub dt_len: u32,
    pub datetime: DateTimeView,
}

impl View for FileInfo {
    type V = FileInfoView;

    open spec fn view(&self) -> FileInfoView {
        FileInfoView {
            _type: self._type,
            f_len: self.f_len,
            fn_len: self.fn_len,
            filename: self.filename@,
            dt_len: self.dt_len,
            datetime: self.datetime@,
        }
    }
}

/// A consistent envelope: the right tag, and length fields that match the
/// encoded name and timestamp.
pub open spec fn fi_wf(v: FileInfoView) -> bool {
    &&& v._type == FILE_TAG
    &&& v.fn_len == encode_utf8(v.filename).len()
    &&& v.dt_len == encode_utf8(dt_joined(v.datetime)).len()
}

/// The complete wire form of an envelope.
pub open spec fn envelope_bytes(v: FileInfoView) -> Seq<u8> {
    seq![v._type] + spec_be8(v.f_len) + spec_be2(v.fn_len) + encode_utf8(v.filename) + spec_be4(
        v.dt_len,
    ) + encode_utf8(dt_joined(v.datetime))
}

impl FileInfo {
    /// An envelope for a file of `file_len` bytes named `filename`, captured
    /// at `datetime`. The name is limited to 65535 bytes by its length field.
    pub fn new(file_len: u64, filename: String, datetime: DateTime) -> (r: FileInfo)
        requires
            encode_utf8(filename@).len() <= u16::MAX,
            encode_utf8(dt_joined(datetime@)).len() <= u32::MAX,
        ensures
            r@ == (FileInfoView {
                _type: FILE_TAG,
                f_len: file_len,
                fn_len: encode_utf8(filename@).len() as u16,
                filename: filename@,
                dt_len: encode_utf8(dt_joined(datetime@)).len() as u32,
                datetime: datetime@,
            }),
            fi_wf(r@),
    {
        let fn_len = filename.as_str().len() as u16;
        let dt_len = datetime.encode().len() as u32;
        FileInfo { _type: FILE_TAG, f_len: file_len, fn_len, filename, dt_len, datetime }
    }

    /// The wire form of this envelope.
    pub fn encode(self) -> (r: Vec<u8>)
        ensures
            r@ == envelope_bytes(self@),
    {
        let mut out: Vec<u8> = Vec::new();
        out.push(self._type);
        push_be8(&mut out, self.f_len);
        push_be2(&mut out, self.fn_len);
        let name_bytes = self.filename.as_str().as_bytes_vec();
        push_bytes(&mut out, &name_bytes);
        push_be4(&mut out, self.dt_len);
        let dt_bytes = self.datetime.encode();
        push_bytes(&mut out, &dt_bytes);
        proof {
            assert(out@ =~= envelope_bytes(self@));
        }
        out
    }
}

/// One attempt to take an envelope off the front of a byte stream.
pub enum EnvStep {
    /// The bytes so far are a proper prefix of an envelope.
    Incomplete,
    /// The bytes can never grow into an envelope: wrong tag, a non-UTF-8
    /// name, or a timestamp that does not decode.
    Bad,
    /// A complete envelope and the bytes after it (the payload's start).
    Env(FileInfoView, Seq<u8>),
}

/// Parses one envelope off the front of `b`.
pub open spec fn parse_envelope(b: Seq<u8>) -> EnvStep {
    if b.len() < 1 {
        EnvStep::Incomplete
    } else if b[0] != FILE_TAG {
        EnvStep::Bad
    } else if b.len() < 11 {
        EnvStep::Incomplete
    } else {
        let fl = spec_be8_val(b.subrange(1, 9));
        let nl16 = spec_be2_val(b.subrange(9, 11));
        let nl = nl16 as int;
        if b.len() < 11 + nl + 4 {
            EnvStep::Incomplete
        } else {
            let name_b = b.subrange(11, 11 + nl);
            let dl32 = spec_be4_val(b.subrange(11 + nl, 11 + nl + 4));
            let dl = dl32 as int;
            if b.len() < 15 + nl + dl {
                EnvStep::Incomplete
            } else {
                let dt_b = b.subrange(15 + nl, 15 + nl + dl);
                if !valid_utf8(name_b) {
                    EnvStep::Bad
                } else {
                    match spec_dt_decode(dt_b) {
                        None => EnvStep::Bad,
                        Some(dv) => EnvStep::Env(
                            FileInfoView {
                                _type: FILE_TAG,
                                f_len: fl,
                                fn_len: nl16,
                                filename: decode_utf8(name_b),
                                dt_len: dl32,
                                datetime: dv,
                            },
                            b.skip(15 + nl + dl),
                        ),
                    }
                }
            }
        }
    }
}

/// An envelope parse of the front of a stream is unchanged by bytes appended
/// behind it.
pub proof fn lemma_parse_envelope_extend(b: Seq<u8>, c: Seq<u8>)
    ensures
        parse_envelope(b) is Env ==> parse_envelope(b + c) == EnvStep::Env(
            parse_envelope(b)->Env_0,
            parse_envelope(b)->Env_1 + c,
        ),
        parse_envelope(b) is Bad ==> parse_envelope(b + c) is Bad,
{
    let w = b + c;
    if b.len() >= 1 {
        assert(w[0] == b[0]);
        if b[0] == FILE_TAG && b.len() >= 11 {
            assert(w.subrange(1, 9) =~= b.subrange(1, 9));
            assert(w.subrange(9, 11) =~= b.subrange(9, 11));
            let nl = spec_be2_val(b.subrange(9, 11)) as int;
            if b.len() >= 11 + nl + 4 {
                assert(w.subrange(11, 11 + nl) =~= b.subrange(11, 11 + nl));
                assert(w.subrange(11 + nl, 11 + nl + 4) =~= b.subrange(11 + nl, 11 + nl + 4));
                let dl = spec_be4_val(b.subrange(11 + nl, 11 + nl + 4)) as int;
                if b.len() >= 15 + nl + dl {
                    assert(w.subrange(15 + nl, 15 + nl + dl) =~= b.subrange(15 + nl, 15 + nl + dl));
                    assert(w.skip(15 + nl + dl) =~= b.skip(15 + nl + dl) + c);
                }
            }
        }
    }
}

/// An encoded envelope parses back to its fields, whatever follows it.
pub proof fn lemma_envelope_round_trip(v: FileInfoView, rest: Seq<u8>)
    requires
        fi_wf(v),
        dt_wf(v.datetime),
    ensures
        parse_envelope(envelope_bytes(v) + rest) == EnvStep::Env(v, rest),
{
    broadcast use vstd::utf8::encode_utf8_valid_utf8;

    let name_b = encode_utf8(v.filename);
    let dt_b = encode_utf8(dt_joined(v.datetime));
    let nl = v.fn_len as int;
    let dl = v.dt_len as int;
    let w = envelope_bytes(v) + rest;
    assert(spec_be8(v.f_len).len() == 8);
    assert(spec_be2(v.fn_len).len() == 2);
    assert(spec_be4(v.dt_len).len() == 4);
    assert(w[0] == FILE_TAG);
    assert(w.len() >= 15 + nl + dl);
    assert(w.subrange(1, 9) =~= spec_be8(v.f_len));
    assert(w.subrange(9, 11) =~= spec_be2(v.fn_len));
    lemma_be8_round_trip(v.f_len);
    lemma_be2_round_trip(v.fn_len);
    assert(w.subrange(11, 11 + nl) =~= name_b);
    assert(w.subrange(11 + nl, 11 + nl + 4) =~= spec_be4(v.dt_len));
    lemma_be4_round_trip(v.dt_len);
    assert(w.subrange(15 + nl, 15 + nl + dl) =~= dt_b);
    crate::datetime::lemma_datetime_round_trip(v.datetime);
    broadcast use vstd::utf8::encode_utf8_decode_utf8;

    assert(w.skip(15 + nl + dl) =~= rest);
}

/// The result of one executable attempt to parse an envelope.
pub enum EnvelopeParse {
    /// More bytes are needed before the header is complete.
    NeedMore,
    /// The header can never become valid.
    Malformed,
    /// The parsed header and how many bytes it consumed.
    Done(FileInfo, usize),
}

/// Parses the envelope at the front of `b`, mirroring `parse_envelope`.
pub fn try_parse_envelope(b: &Vec<u8>) -> (r: EnvelopeParse)
    ensures
        r is NeedMore <==> parse_envelope(b@) is Incomplete,
        r is Malformed <==> parse_envelope(b@) is Bad,
        r is Done ==> parse_envelope(b@) == EnvStep::Env(
            r->Done_0@,
            b@.skip(r->Done_1 as int),
        ) && r->Done_1 <= b@.len(),
{
    let blen = b.len();
    if blen < 1 {
        return EnvelopeParse::NeedMore;
    }
    if b[0] != FILE_TAG {
        return EnvelopeParse::Malformed;
    }
    if blen < 11 {
        return EnvelopeParse::NeedMore;
    }
    let f_len = read_be8(b, 1);
    let fn_len = read_be2(b, 9);
    let nl = fn_len as usize;
    if blen < 11 + nl + 4 {
        return EnvelopeParse::NeedMore;
    }
    let dt_len = read_be4(b, 11 + nl);
    let dl = dt_len as usize;
    if blen - (15 + nl) < dl {
        return EnvelopeParse::NeedMore;
    }
    let name_bytes = vec_subrange(b, 11, 11 + nl);
    let dt_bytes = vec_subrange(b, 15 + nl, 15 + nl + dl);
    let filename = match string_from_utf8(name_bytes) {
        None => {
            return EnvelopeParse::Malformed;
        },
        Some(s) => s,
    };
    let datetime = match DateTime::decode(dt_bytes) {
        Err(_) => {
            return EnvelopeParse::Malformed;
        },
        Ok(dt) => dt,
    };
    let fi = FileInfo { _type: FILE_TAG, f_len, fn_len, filename, dt_len, datetime };
    EnvelopeParse::Done(fi, 15 + nl + dl)
}

impl FileInfo {
    /// Decodes the envelope at the front of `bytes`, the mirror of `encode`.
    ///
    /// Returns the header and how many bytes it took. Fails with
    /// `ProtocolError` where the tag is wrong, the name is not UTF-8, the
    /// timestamp does not decode, or the bytes end before the header does.
    pub fn decode(bytes: &Vec<u8>) -> (r: Result<(FileInfo, usize), TransferError>)
        ensures
            r is Ok <==> parse_envelope(bytes@) is Env,
            r is Ok ==> parse_envelope(bytes@) == EnvStep::Env(
                r->Ok_0.0@,
                bytes@.skip(r->Ok_0.1 as int),
            ) && r->Ok_0.1 <= bytes@.len(),
            r is Err ==> r->Err_0 == TransferError::ProtocolError,
    {
        match try_parse_envelope(bytes) {
            EnvelopeParse::Done(fi, used) => Ok((fi, used)),
            EnvelopeParse::NeedMore => Err(TransferError::ProtocolError),
            EnvelopeParse::Malformed => Err(TransferError::ProtocolError),
        }
    }
}

} // verus!
