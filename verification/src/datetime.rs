//! Capture timestamps and their wire encoding.
//!
//! A timestamp is four fields — year, month, day and time of day — kept as the
//! numeric strings they were captured with. Fields are not zero-padded, so any
//! comparison must parse them to integers first; the retention engine does.
//! On the wire the four fields are joined by single spaces and sent as UTF-8;
//! decoding requires exactly four space-separated fields.

use vstd::prelude::*;

use crate::errors::TransferError;
use crate::text::{contains_char, split_on, split_on_char};

verus! {

use vstd::utf8::{valid_utf8, decode_utf8, encode_utf8};

/// A capture timestamp: numeric year, month and day strings and a time of
/// day, all as produced by the capturing side.
#[derive(Clone, Debug)]
pub struct DateTime {
    pub year: String,
    pub month: String,
    pub day: String,
    pub time: String,
}

/// The mathematical value of a `DateTime`: its four fields as character
/// sequences.
pub struct DateTimeView {
    pub year: Seq<char>,
    pub month: Seq<char>,
    pub day: Seq<char>,
    pub time: Seq<char>,
}

impl View for DateTime {
    type V = DateTimeView;

    open spec fn view(&self) -> DateTimeView {
        DateTimeView { year: self.year@, month: self.month@, day: self.day@, time: self.time@ }
    }
}

/// Whether a field can survive the space-joined wire form: it holds no space.
pub open spec fn field_wf(s: Seq<char>) -> bool {
    forall|i: int| 0 <= i < s.len() ==> s[i] != ' '
}

/// Whether a timestamp's fields can survive the space-joined wire form.
pub open spec fn dt_wf(v: DateTimeView) -> bool {
    field_wf(v.year) && field_wf(v.month) && field_wf(v.day) && field_wf(v.time)
}

/// The four fields joined by single spaces.
pub open spec fn dt_joined(v: DateTimeView) -> Seq<char> {
    v.year + seq![' '] + v.month + seq![' '] + v.day + seq![' '] + v.time
}

/// The timestamp a byte sequence decodes to: valid UTF-8 splitting on spaces
/// into exactly four fields, else nothing.
pub open spec fn spec_dt_decode(b: Seq<u8>) -> Option<DateTimeView> {
    if !valid_utf8(b) {
        None
    } else {
        let parts = split_on(decode_utf8(b), ' ');
        if parts.len() != 4 {
            None
        } else {
            Some(DateTimeView { year: parts[0], month: parts[1], day: parts[2], time: parts[3] })
        }
    }
}

impl DateTime {
    /// The four fields joined by single spaces.
    pub fn to_string(&self) -> (r: String)
        ensures
            r@ == dt_joined(self@),
    {
        let mut r = self.year.clone();
        r.append(" ");
        r.append(self.month.as_str());
        r.append(" ");
        r.append(self.day.as_str());
        r.append(" ");
        r.append(self.time.as_str());
        proof {
            reveal_strlit(" ");
            assert(" "@ =~= seq![' ']);
            assert(r@ =~= dt_joined(self@));
        }
        r
    }

    /// The wire form: the space-joined fields as UTF-8 bytes.
    pub fn encode(&self) -> (r: Vec<u8>)
        ensures
            r@ == encode_utf8(dt_joined(self@)),
    {
        let s = self.to_string();
        s.as_str().as_bytes_vec()
    }

    /// Decodes a wire-form timestamp.
    ///
    /// Fails with `ProtocolError` where the bytes are not UTF-8 or do not
    /// split on spaces into exactly four fields.
    pub fn decode(bytes: Vec<u8>) -> (r: Result<DateTime, TransferError>)
        ensures
            r is Ok <==> spec_dt_decode(bytes@) is Some,
            r is Ok ==> r->Ok_0@ == spec_dt_decode(bytes@)->Some_0,
            r is Err ==> r->Err_0 == TransferError::ProtocolError,
    {
        match crate::text::string_from_utf8(bytes) {
            None => Err(TransferError::ProtocolError),
            Some(s) => {
                let mut parts = split_on_char(s.as_str(), ' ');
                if parts.len() != 4 {
                    return Err(TransferError::ProtocolError);
                }
                let year = parts.remove(0);
                let month = parts.remove(0);
                let day = parts.remove(0);
                let time = parts.remove(0);
                Ok(DateTime { year, month, day, time })
            },
        }
    }
}

/// A timestamp decodes back to the fields it was encoded from.
pub proof fn lemma_datetime_round_trip(v: DateTimeView)
    requires
        dt_wf(v),
    ensures
        spec_dt_decode(encode_utf8(dt_joined(v))) == Some(v),
{
    let joined = dt_joined(v);
    let b = encode_utf8(joined);
    broadcast use vstd::utf8::encode_utf8_valid_utf8;
    broadcast use vstd::utf8::encode_utf8_decode_utf8;

    assert(valid_utf8(b));
    assert(decode_utf8(b) == joined);
    let tail2 = v.day + seq![' '] + v.time;
    let tail1 = v.month + seq![' '] + tail2;
    assert(joined =~= v.year + seq![' '] + tail1);
    crate::text::lemma_split_on_concat(v.year, tail1, ' ');
    assert(tail1 =~= v.month + seq![' '] + tail2);
    crate::text::lemma_split_on_concat(v.month, tail2, ' ');
    crate::text::lemma_split_on_concat(v.day, v.time, ' ');
    crate::text::lemma_split_on_no_sep(v.year, ' ');
    crate::text::lemma_split_on_no_sep(v.month, ' ');
    crate::text::lemma_split_on_no_sep(v.day, ' ');
    crate::text::lemma_split_on_no_sep(v.time, ' ');
    let parts = split_on(joined, ' ');
    assert(parts =~= seq![v.year, v.month, v.day, v.time]);
}

/// Relies on `std::time::SystemTime::now` for the instant and on
/// `chrono::DateTime::from_timestamp` with the `Display` of
/// `chrono::DateTime<chrono::Utc>` for its rendering,
/// "YYYY-MM-DD HH:MM:SS.n… UTC". The checked constructor is used so that a
/// platform clock before the Unix epoch or outside chrono's range yields
/// `None` rather than a panic. Nothing is assumed of the result;
/// `parse_clock_string` checks its shape.
#[verifier::external_body]
fn utc_now_string() -> (r: Option<String>) {
    let since_epoch = std::time::SystemTime::now().duration_since(std::time::UNIX_EPOCH).ok()?;
    let secs = i64::try_from(since_epoch.as_secs()).ok()?;
    let instant = chrono::DateTime::from_timestamp(secs, since_epoch.subsec_nanos())?;
    Some(instant.to_string())
}

/// The timestamp a clock string denotes: "Y-M-D T.n… …" with the year, month
/// and day before the first space, the time of day up to the first dot, and
/// no space inside any field.
pub open spec fn spec_parse_clock(s: Seq<char>) -> Option<DateTimeView> {
    let p = split_on(s, '-');
    if p.len() != 3 {
        None
    } else {
        let q = split_on(p[2], ' ');
        if q.len() != 3 {
            None
        } else {
            let r = split_on(q[1], '.');
            let v = DateTimeView { year: p[0], month: p[1], day: q[0], time: r[0] };
            if dt_wf(v) {
                Some(v)
            } else {
                None
            }
        }
    }
}

/// Extracts the year, month, day and time-of-day fields from a wall-clock
/// string of the shape `parse_clock_string` recognizes.
pub fn parse_clock_string(s: &str) -> (r: Option<DateTime>)
    ensures
        r is Some <==> spec_parse_clock(s@) is Some,
        r is Some ==> r->Some_0@ == spec_parse_clock(s@)->Some_0,
        r is Some ==> dt_wf(r->Some_0@),
{
    let mut p = split_on_char(s, '-');
    if p.len() != 3 {
        return None;
    }
    let year = p.remove(0);
    let month = p.remove(0);
    let rest = p.remove(0);
    let mut q = split_on_char(rest.as_str(), ' ');
    if q.len() != 3 {
        return None;
    }
    let day = q.remove(0);
    let clock = q.remove(0);
    let mut r = split_on_char(clock.as_str(), '.');
    proof {
        crate::text::lemma_split_on_len(clock@, '.');
    }
    let time = r.remove(0);
    if contains_char(year.as_str(), ' ') || contains_char(month.as_str(), ' ') || contains_char(
        day.as_str(),
        ' ',
    ) || contains_char(time.as_str(), ' ') {
        return None;
    }
    Some(DateTime { year, month, day, time })
}

impl DateTime {
    /// The current UTC time as a capture timestamp, where the platform
    /// clock is readable and its rendering has the expected shape; its
    /// fields are then space-free. Meant mainly for capture paths; callers
    /// that already hold a timestamp pass it instead.
    pub fn now() -> (r: Option<DateTime>)
        ensures
            r is Some ==> dt_wf(r->Some_0@),
    {
        match utc_now_string() {
            None => None,
            Some(s) => parse_clock_string(s.as_str()),
        }
    }
}

} // verus!
