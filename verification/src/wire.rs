//! The form in which a message travels.
//!
//! A payload is one line of text, a record of three fields in a fixed order:
//! `{"source":S,"timestamp":T,"export":E}`, where `S` and `T` are decimal
//! numbers and `E` is the serialized export, taken as it is.

use crate::decimal::{
    append_signed, append_unsigned, chars_of, decimal_of, digits_of, is_digit,
    lemma_decimal_round_trip, lemma_digits_round_trip, parse_i32_between, parse_unsigned,
    parsed_i32, parsed_unsigned, text_between,
};
use crate::message::Message;
use rf_core::export::Export;
use vstd::prelude::*;
use vstd::string::StringExecFns;

verus! {

/// A message as it travels, with the export in its serialized form.
#[derive(Debug, PartialEq, Eq)]
pub struct Frame {
    /// The device that produced the export.
    pub source: i32,
    /// When the export was produced.
    pub timestamp: u64,
    /// The serialized export.
    pub export: String,
}

/// What opens a payload and names its first field.
pub open spec fn source_key() -> Seq<char> {
    seq!['{', '"', 's', 'o', 'u', 'r', 'c', 'e', '"', ':']
}

/// What ends the first field and names the second.
pub open spec fn timestamp_key() -> Seq<char> {
    seq![',', '"', 't', 'i', 'm', 'e', 's', 't', 'a', 'm', 'p', '"', ':']
}

/// What ends the second field and names the third.
pub open spec fn export_key() -> Seq<char> {
    seq![',', '"', 'e', 'x', 'p', 'o', 'r', 't', '"', ':']
}

/// The payload of a message of `source` at `timestamp` whose export
/// serializes to `export`.
pub open spec fn payload_of(source: i32, timestamp: u64, export: Seq<char>) -> Seq<char> {
    source_key() + decimal_of(source as int) + timestamp_key() + digits_of(timestamp as nat)
        + export_key() + export + seq!['}']
}

/// The source, the timestamp and the serialized export of the message that
/// `text` is the payload of, if it is one.
pub open spec fn framed(text: Seq<char>) -> Option<(i32, u64, Seq<char>)> {
    if exists|frame: (i32, u64, Seq<char>)| payload_of(frame.0, frame.1, frame.2) == text {
        Some(
            choose|frame: (i32, u64, Seq<char>)| payload_of(frame.0, frame.1, frame.2) == text,
        )
    } else {
        None
    }
}

/// Where the fields of a payload stand.
pub struct Layout {
    /// The end of the source.
    pub source_end: int,
    /// The start of the timestamp.
    pub timestamp_start: int,
    /// The end of the timestamp.
    pub timestamp_end: int,
    /// The start of the export.
    pub export_start: int,
    /// The end of the export.
    pub export_end: int,
}

/// Where the fields of the payload of such a message stand.
pub open spec fn layout_of(source: i32, timestamp: u64, export: Seq<char>) -> Layout {
    let source_end: int = 10 + decimal_of(source as int).len() as int;
    let timestamp_start: int = source_end + 13;
    let timestamp_end: int = timestamp_start + digits_of(timestamp as nat).len() as int;
    let export_start: int = timestamp_end + 10;
    Layout {
        source_end,
        timestamp_start,
        timestamp_end,
        export_start,
        export_end: export_start + export.len() as int,
    }
}

/// The decimal text of a number holds no comma.
pub proof fn lemma_decimal_has_no_comma(n: int)
    ensures
        decimal_of(n).len() > 0,
        forall|i: int| 0 <= i < decimal_of(n).len() ==> (#[trigger] decimal_of(n)[i]) != ',',
{
    let text = decimal_of(n);
    if n < 0 {
        let digits = digits_of((-n) as nat);
        lemma_digits_round_trip((-n) as nat);
        assert forall|i: int| 0 <= i < text.len() implies (#[trigger] text[i]) != ',' by {
            if i > 0 {
                assert(text[i] == digits[i - 1]);
                assert(is_digit(digits[i - 1]));
            }
        }
    } else {
        lemma_digits_round_trip(n as nat);
        assert forall|i: int| 0 <= i < text.len() implies (#[trigger] text[i]) != ',' by {
            assert(is_digit(text[i]));
        }
    }
}

/// A payload holds its fields between its keys: the source from position 10
/// to the first comma, the timestamp behind the second key to the next comma,
/// the export behind the third key up to the closing brace.
pub proof fn lemma_payload_layout(source: i32, timestamp: u64, export: Seq<char>)
    ensures
        ({
            let text = payload_of(source, timestamp, export);
            let at = layout_of(source, timestamp, export);
            &&& 10 < at.source_end < at.timestamp_start < at.timestamp_end < at.export_start
                <= at.export_end
            &&& at.timestamp_start == at.source_end + 13
            &&& at.export_start == at.timestamp_end + 10
            &&& text.len() == at.export_end + 1
            &&& text.subrange(0, 10) == source_key()
            &&& text.subrange(10, at.source_end) == decimal_of(source as int)
            &&& text.subrange(at.source_end, at.timestamp_start) == timestamp_key()
            &&& text.subrange(at.timestamp_start, at.timestamp_end) == digits_of(
                timestamp as nat,
            )
            &&& text.subrange(at.timestamp_end, at.export_start) == export_key()
            &&& text.subrange(at.export_start, at.export_end) == export
            &&& text[at.export_end] == '}'
            &&& text[at.source_end] == ','
            &&& text[at.timestamp_end] == ','
            &&& forall|i: int| 10 <= i < at.source_end ==> (#[trigger] text[i]) != ','
            &&& forall|i: int|
                at.timestamp_start <= i < at.timestamp_end ==> (#[trigger] text[i]) != ','
        }),
{
    let text = payload_of(source, timestamp, export);
    let at = layout_of(source, timestamp, export);
    let number = decimal_of(source as int);
    let time = digits_of(timestamp as nat);
    lemma_decimal_has_no_comma(source as int);
    lemma_digits_round_trip(timestamp as nat);
    assert(source_key().len() == 10);
    assert(timestamp_key().len() == 13);
    assert(export_key().len() == 10);
    assert(text.subrange(0, 10) =~= source_key());
    assert(text.subrange(10, at.source_end) =~= number);
    assert(text.subrange(at.source_end, at.timestamp_start) =~= timestamp_key());
    assert(text.subrange(at.timestamp_start, at.timestamp_end) =~= time);
    assert(text.subrange(at.timestamp_end, at.export_start) =~= export_key());
    assert(text.subrange(at.export_start, at.export_end) =~= export);
    assert(text[at.source_end] == timestamp_key()[0]);
    assert(text[at.timestamp_end] == export_key()[0]);
    assert forall|i: int| 10 <= i < at.source_end implies (#[trigger] text[i]) != ',' by {
        assert(text[i] == number[i - 10]);
    }
    assert forall|i: int| at.timestamp_start <= i < at.timestamp_end implies (#[trigger] text[i])
        != ',' by {
        assert(text[i] == time[i - at.timestamp_start]);
        assert(is_digit(time[i - at.timestamp_start]));
    }
}

/// Writes the payload of a message.
pub fn encode(source: i32, timestamp: u64, export: &str) -> (payload: String)
    ensures
        payload@ == payload_of(source, timestamp, export@),
{
    proof {
        reveal_strlit("{\"source\":");
        reveal_strlit(",\"timestamp\":");
        reveal_strlit(",\"export\":");
        reveal_strlit("}");
        assert("{\"source\":"@ =~= source_key());
        assert(",\"timestamp\":"@ =~= timestamp_key());
        assert(",\"export\":"@ =~= export_key());
        assert("}"@ =~= seq!['}']);
    }
    let mut payload = String::from_str("{\"source\":");
    append_signed(&mut payload, source);
    payload.append(",\"timestamp\":");
    append_unsigned(&mut payload, timestamp);
    payload.append(",\"export\":");
    payload.append(export);
    payload.append("}");
    payload
}

/// Whether `key` stands in `chars` at position `at`.
fn stands_at(chars: &Vec<char>, at: usize, key: &str) -> (found: bool)
    requires
        at <= chars.len(),
    ensures
        found == (at + key@.len() <= chars.len() && chars@.subrange(
            at as int,
            at + key@.len(),
        ) == key@),
{
    let pattern = chars_of(key);
    if pattern.len() > chars.len() - at {
        return false;
    }
    let mut i: usize = 0;
    while i < pattern.len()
        invariant
            i <= pattern.len(),
            pattern@ == key@,
            at + pattern.len() <= chars.len(),
            chars@.subrange(at as int, at + i) == pattern@.take(i as int),
        decreases pattern.len() - i,
    {
        if chars[at + i] != pattern[i] {
            proof {
                let window = chars@.subrange(at as int, at + pattern.len());
                assert(window[i as int] == chars[at + i]);
                assert(window[i as int] != key@[i as int]);
            }
            return false;
        }
        assert(chars@.subrange(at as int, at + i + 1) =~= pattern@.take(i as int + 1));
        i = i + 1;
    }
    assert(pattern@.take(i as int) =~= pattern@);
    true
}

/// The position of the first comma of `text` at or behind `from`, or the
/// length of `text` if there is none.
pub open spec fn first_comma(text: Seq<char>, from: int) -> int
    decreases text.len() - from,
{
    if from >= text.len() {
        text.len() as int
    } else if text[from] == ',' {
        from
    } else {
        first_comma(text, from + 1)
    }
}

/// The first comma behind a stretch without commas stands at its end.
pub proof fn lemma_first_comma(text: Seq<char>, from: int, at: int)
    requires
        0 <= from <= at <= text.len(),
        forall|i: int| from <= i < at ==> (#[trigger] text[i]) != ',',
        at < text.len() ==> text[at] == ',',
    ensures
        first_comma(text, from) == at,
    decreases at - from,
{
    if from < at {
        assert(text[from] != ',');
        lemma_first_comma(text, from + 1, at);
    }
}

/// The source and the timestamp that stand in `text` behind their keys, and
/// the position behind the key of the export, if `text` has the three keys
/// in their places and numbers between them.
pub open spec fn scanned(text: Seq<char>) -> Option<(i32, u64, int)> {
    let source_end = first_comma(text, 10);
    let timestamp_start = source_end + 13;
    let timestamp_end = first_comma(text, timestamp_start);
    let export_start = timestamp_end + 10;
    let source = parsed_i32(text.subrange(10, source_end));
    let timestamp = parsed_unsigned(
        text.subrange(timestamp_start, timestamp_end),
        u64::MAX as int,
    );
    if 10 <= text.len() && text.subrange(0, 10) == source_key() && source_end < text.len()
        && source is Some && timestamp_start <= text.len() && text.subrange(
        source_end,
        timestamp_start,
    ) == timestamp_key() && timestamp_end < text.len() && timestamp is Some && export_start
        < text.len() && text.subrange(timestamp_end, export_start) == export_key() {
        Some((source.unwrap(), timestamp.unwrap() as u64, export_start))
    } else {
        None
    }
}

/// In the payload of a message, the scan finds the source and the timestamp
/// of the message and the start of its export.
pub proof fn lemma_scan_finds(source: i32, timestamp: u64, export: Seq<char>)
    ensures
        scanned(payload_of(source, timestamp, export)) == Some(
            (source, timestamp, layout_of(source, timestamp, export).export_start),
        ),
{
    let text = payload_of(source, timestamp, export);
    let at = layout_of(source, timestamp, export);
    lemma_payload_layout(source, timestamp, export);
    lemma_decimal_round_trip(source as int, i32::MIN as int, i32::MAX as int);
    lemma_digits_round_trip(timestamp as nat);
    lemma_first_comma(text, 10, at.source_end);
    lemma_first_comma(text, at.timestamp_start, at.timestamp_end);
}

/// The position of the first comma of `chars` at or behind `from`, or the
/// length of `chars` if there is none.
fn next_comma(chars: &Vec<char>, from: usize) -> (at: usize)
    requires
        from <= chars.len(),
    ensures
        at == first_comma(chars@, from as int),
        from <= at <= chars.len(),
{
    let mut at: usize = from;
    while at < chars.len() && chars[at] != ','
        invariant
            from <= at <= chars.len(),
            first_comma(chars@, from as int) == first_comma(chars@, at as int),
        decreases chars.len() - at,
    {
        at = at + 1;
    }
    at
}

/// Reads the source and the timestamp of a payload and finds where its
/// export starts.
fn scan(chars: &Vec<char>) -> (found: Option<(i32, u64, usize)>)
    ensures
        match found {
            Some((source, timestamp, export_start)) => scanned(chars@) == Some(
                (source, timestamp, export_start as int),
            ),
            None => scanned(chars@) is None,
        },
{
    proof {
        reveal_strlit("{\"source\":");
        reveal_strlit(",\"timestamp\":");
        reveal_strlit(",\"export\":");
        assert("{\"source\":"@ =~= source_key());
        assert(",\"timestamp\":"@ =~= timestamp_key());
        assert(",\"export\":"@ =~= export_key());
    }
    if !stands_at(chars, 0, "{\"source\":") {
        return None;
    }
    let source_end = next_comma(chars, 10);
    if source_end == chars.len() {
        return None;
    }
    let source = match parse_i32_between(chars, 10, source_end) {
        Some(source) => source,
        None => {
            return None;
        },
    };
    if !stands_at(chars, source_end, ",\"timestamp\":") {
        return None;
    }
    let timestamp_start = source_end + 13;
    let timestamp_end = next_comma(chars, timestamp_start);
    if timestamp_end == chars.len() {
        return None;
    }
    let timestamp = match parse_unsigned(chars, timestamp_start, timestamp_end, u64::MAX) {
        Some(timestamp) => timestamp,
        None => {
            return None;
        },
    };
    if !stands_at(chars, timestamp_end, ",\"export\":") {
        return None;
    }
    let export_start = timestamp_end + 10;
    if export_start == chars.len() {
        return None;
    }
    Some((source, timestamp, export_start))
}

/// Reads a payload. The result is the frame that `payload` is the payload
/// of, and nothing if it is the payload of none.
pub fn decode(payload: &str) -> (frame: Option<Frame>)
    ensures
        match frame {
            Some(frame) => {
                &&& payload_of(frame.source, frame.timestamp, frame.export@) == payload@
                &&& framed(payload@) == Some((frame.source, frame.timestamp, frame.export@))
            },
            None => {
                &&& forall|source: i32, timestamp: u64, export: Seq<char>|
                    #[trigger] payload_of(source, timestamp, export) != payload@
                &&& framed(payload@) is None
            },
        },
{
    let chars = chars_of(payload);
    match scan(&chars) {
        Some((source, timestamp, export_start)) => {
            let export = text_between(&chars, export_start, chars.len() - 1);
            let written = encode(source, timestamp, export.as_str());
            let given = payload.to_owned();
            proof {
                assert forall|s: i32, t: u64, e: Seq<char>| #[trigger]
                    payload_of(s, t, e) == payload@ implies written@ == payload@ by {
                    lemma_scan_finds(s, t, e);
                    lemma_payload_layout(s, t, e);
                }
            }
            if written == given {
                proof {
                    law_round_trip(source, timestamp, export@);
                }
                Some(Frame { source, timestamp, export })
            } else {
                None
            }
        },
        None => {
            proof {
                assert forall|s: i32, t: u64, e: Seq<char>| #[trigger]
                    payload_of(s, t, e) != payload@ by {
                    lemma_scan_finds(s, t, e);
                }
            }
            None
        },
    }
}

/// The message that a payload delivers once its export has been read:
/// source and timestamp are those that stand in the payload. There is none
/// if `payload` is no payload or its export could not be read.
pub open spec fn delivered(payload: Seq<char>, export: Option<Export>) -> Option<Message> {
    match (framed(payload), export) {
        (Some(frame), Some(export)) => Some(
            Message { source: frame.0, export, timestamp: frame.1 },
        ),
        _ => None,
    }
}

/// Joins a payload and the export that was read from it into the message
/// that the payload delivers. `export` is what the reader of exports made of
/// the serialized export in `payload`, or nothing if it could not read it.
pub fn message_of(payload: &str, export: Option<Export>) -> (message: Option<Message>)
    ensures
        message == delivered(payload@, export),
{
    match decode(payload) {
        Some(frame) => match export {
            Some(export) => Some(Message::new(frame.source, export, frame.timestamp)),
            None => None,
        },
        None => None,
    }
}

/// A payload is the payload of one message only.
pub proof fn law_payload_tells_the_message(
    source: i32,
    timestamp: u64,
    export: Seq<char>,
    other_source: i32,
    other_timestamp: u64,
    other_export: Seq<char>,
)
    requires
        payload_of(source, timestamp, export) == payload_of(
            other_source,
            other_timestamp,
            other_export,
        ),
    ensures
        source == other_source,
        timestamp == other_timestamp,
        export == other_export,
{
    let text = payload_of(source, timestamp, export);
    let at = layout_of(source, timestamp, export);
    let other = layout_of(other_source, other_timestamp, other_export);
    lemma_payload_layout(source, timestamp, export);
    lemma_payload_layout(other_source, other_timestamp, other_export);
    lemma_decimal_round_trip(source as int, i32::MIN as int, i32::MAX as int);
    lemma_decimal_round_trip(other_source as int, i32::MIN as int, i32::MAX as int);
    lemma_digits_round_trip(timestamp as nat);
    lemma_digits_round_trip(other_timestamp as nat);
    if at.source_end < other.source_end {
        assert(text[at.source_end] == ',');
    } else if other.source_end < at.source_end {
        assert(text[other.source_end] == ',');
    }
    assert(at.source_end == other.source_end);
    if at.timestamp_end < other.timestamp_end {
        assert(text[at.timestamp_end] == ',');
    } else if other.timestamp_end < at.timestamp_end {
        assert(text[other.timestamp_end] == ',');
    }
    assert(at.timestamp_end == other.timestamp_end);
}

/// Writing a message and reading the payload gives the message back: its
/// source, its timestamp and its serialized export.
pub proof fn law_round_trip(source: i32, timestamp: u64, export: Seq<char>)
    ensures
        framed(payload_of(source, timestamp, export)) == Some((source, timestamp, export)),
{
    let text = payload_of(source, timestamp, export);
    let frame = choose|frame: (i32, u64, Seq<char>)| payload_of(frame.0, frame.1, frame.2) == text;
    let written = (source, timestamp, export);
    assert(payload_of(written.0, written.1, written.2) == text);
    law_payload_tells_the_message(source, timestamp, export, frame.0, frame.1, frame.2);
}

} // verus!
