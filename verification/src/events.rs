//! The Jetstream event model, shared by the live tail and archive replay,
//! and the decoding of live frames.
use vstd::prelude::*;

use crate::json::{
    defaulted_text, member, option_view, optional, optional_text, read_defaulted_text,
    read_optional, read_optional_text, read_text, read_unsigned, shaped, slot, string_view,
    text_of, unsigned_of, Json, JsonView,
};
use crate::text::str_eq;
use crate::time::{parse_rfc3339, rfc3339, to_utc, OffsetDateTime};
use crate::wire::{read_record, record_document, Record};

verus! {

/// Cursor values at or above this are microsecond timestamps; below it they
/// are sequence numbers.
pub const CURSOR_SEQ_MAX_THRESHOLD: i64 = 1_000_000_000_000_000;

/// What the single stored cursor value means, decided by magnitude.
#[derive(Debug, Clone, Copy, PartialEq, Eq, Structural)]
pub enum StoredCursor {
    Sequence(u64),
    LegacyTimeUs(i64),
}

/// What a stored cursor value means.
pub open spec fn cursor_meaning(value: i64) -> StoredCursor {
    if value >= CURSOR_SEQ_MAX_THRESHOLD {
        StoredCursor::LegacyTimeUs(value)
    } else if value < 0 {
        StoredCursor::Sequence(0)
    } else {
        StoredCursor::Sequence(value as u64)
    }
}

/// Tells a sequence number from a timestamp of the earlier stream version.
pub fn classify_cursor(value: i64) -> (r: StoredCursor)
    ensures
        r == cursor_meaning(value),
{
    if value >= CURSOR_SEQ_MAX_THRESHOLD {
        StoredCursor::LegacyTimeUs(value)
    } else if value < 0 {
        StoredCursor::Sequence(0)
    } else {
        StoredCursor::Sequence(value as u64)
    }
}

/// A sequence number that was stored as the cursor is read back as one, as
/// long as it lies below the threshold.
pub proof fn law_cursor_round_trip(seq: u64)
    requires
        seq < CURSOR_SEQ_MAX_THRESHOLD,
    ensures
        cursor_meaning(seq as i64) == StoredCursor::Sequence(seq),
{
}

/// One event, whichever transport delivered it.
#[derive(Debug, Clone, PartialEq)]
pub struct Event {
    /// The monotonic sequence number; the stream cursor.
    pub seq: u64,
    pub did: String,
    /// Display timestamp in microseconds. The cursor is `seq`.
    pub time_us: i64,
    pub payload: Payload,
}

/// The kind-specific part of an event. The three markers are delivered even
/// under a collection filter.
#[derive(Debug, Clone, PartialEq)]
pub enum Payload {
    Commit(Commit),
    Identity,
    Account,
    Sync,
}

/// A record mutation. `operation` is the wire word; `record` and `cid` are
/// absent on deletes.
#[derive(Debug, Clone, PartialEq)]
pub struct Commit {
    pub operation: String,
    pub collection: String,
    pub rkey: String,
    pub rev: String,
    pub record: Option<Json>,
    pub cid: Option<String>,
}

/// One decoded live frame. `Unknown` covers the types this client does not
/// know; the protocol requires skipping them.
#[derive(Debug, Clone, PartialEq)]
pub enum Frame {
    Event(Event),
    /// An advisory without a sequence number.
    Info { name: String, message: Option<String> },
    /// Terminal: the server closes the connection after sending it.
    Error { error: String, message: Option<String> },
    Unknown,
}

/// Why a frame cannot be decoded.
#[derive(Debug, Clone, Copy, PartialEq, Eq, Structural)]
pub enum FrameError {
    /// The text is no JSON document, or no frame envelope.
    Undecodable,
    /// A message frame without a payload.
    NoPayload,
    /// An info payload with missing or misshapen members.
    BadInfo,
    /// An event payload with missing or misshapen members.
    BadEvent,
}

// ---- what the values hold ----

#[verifier::ext_equal]
pub struct EventView {
    pub seq: u64,
    pub did: Seq<char>,
    pub time_us: i64,
    pub payload: PayloadView,
}

#[verifier::ext_equal]
pub enum PayloadView {
    Commit(CommitView),
    Identity,
    Account,
    Sync,
}

#[verifier::ext_equal]
pub struct CommitView {
    pub operation: Seq<char>,
    pub collection: Seq<char>,
    pub rkey: Seq<char>,
    pub rev: Seq<char>,
    pub record: Option<JsonView>,
    pub cid: Option<Seq<char>>,
}

#[verifier::ext_equal]
pub enum FrameView {
    Event(EventView),
    Info { name: Seq<char>, message: Option<Seq<char>> },
    Error { error: Seq<char>, message: Option<Seq<char>> },
    Unknown,
}

impl View for Commit {
    type V = CommitView;

    open spec fn view(&self) -> CommitView {
        CommitView {
            operation: self.operation@,
            collection: self.collection@,
            rkey: self.rkey@,
            rev: self.rev@,
            record: option_view(self.record),
            cid: string_view(self.cid),
        }
    }
}

impl View for Payload {
    type V = PayloadView;

    open spec fn view(&self) -> PayloadView {
        match self {
            Payload::Commit(commit) => PayloadView::Commit(commit@),
            Payload::Identity => PayloadView::Identity,
            Payload::Account => PayloadView::Account,
            Payload::Sync => PayloadView::Sync,
        }
    }
}

impl View for Event {
    type V = EventView;

    open spec fn view(&self) -> EventView {
        EventView {
            seq: self.seq,
            did: self.did@,
            time_us: self.time_us,
            payload: self.payload@,
        }
    }
}

impl View for Frame {
    type V = FrameView;

    open spec fn view(&self) -> FrameView {
        match self {
            Frame::Event(event) => FrameView::Event(event@),
            Frame::Info { name, message } => FrameView::Info {
                name: name@,
                message: string_view(*message),
            },
            Frame::Error { error, message } => FrameView::Error {
                error: error@,
                message: string_view(*message),
            },
            Frame::Unknown => FrameView::Unknown,
        }
    }
}

// ---- frames ----

/// The outer object of a frame.
#[verifier::ext_equal]
pub struct EnvelopeView {
    pub kind: Seq<char>,
    pub payload: Option<JsonView>,
    pub error: Option<Seq<char>>,
    pub message: Option<Seq<char>>,
}

/// The envelope that a document is; nothing where a member is missing or
/// misshapen.
pub open spec fn envelope(document: JsonView) -> Option<EnvelopeView> {
    match (
        text_of(slot(document, 0, "$type"@)),
        optional_text(slot(document, 2, "error"@)),
        optional_text(slot(document, 3, "message"@)),
    ) {
        (Some(kind), Some(error), Some(message)) => if shaped(document, 4, 4) {
            Some(
                EnvelopeView {
                    kind,
                    payload: optional(slot(document, 1, "payload"@)),
                    error,
                    message,
                },
            )
        } else {
            None
        },
        _ => None,
    }
}

/// Microseconds since 1970 of a time that was parsed; 0 where it was not.
pub open spec fn micros_of(parsed: Option<OffsetDateTime>) -> int {
    match parsed {
        Some(t) => t.instant().seconds * 1_000_000 + t.instant().nanos as int / 1000,
        None => 0,
    }
}

/// The event that an event payload describes, its kind-specific part given
/// for the markers; nothing where a member is missing or misshapen.
pub open spec fn payload_event(payload: JsonView, marker: Option<PayloadView>) -> Option<
    EventView,
> {
    match (
        unsigned_of(member(payload, "seq"@)),
        text_of(member(payload, "did"@)),
        text_of(member(payload, "time"@)),
        payload_commit(payload),
    ) {
        (Some(seq), Some(did), Some(time), Some(commit)) => Some(
            EventView {
                seq,
                did,
                time_us: micros_of(rfc3339(time)) as i64,
                payload: match marker {
                    Some(marker) => marker,
                    None => PayloadView::Commit(commit),
                },
            },
        ),
        _ => None,
    }
}

/// The commit members of an event payload; nothing where one is misshapen.
pub open spec fn payload_commit(payload: JsonView) -> Option<CommitView> {
    match (
        defaulted_text(member(payload, "rev"@)),
        defaulted_text(member(payload, "operation"@)),
        defaulted_text(member(payload, "collection"@)),
        defaulted_text(member(payload, "rkey"@)),
        optional_text(member(payload, "cid"@)),
    ) {
        (Some(rev), Some(operation), Some(collection), Some(rkey), Some(cid)) => Some(
            CommitView {
                operation,
                collection,
                rkey,
                rev,
                record: optional(member(payload, "record"@)),
                cid,
            },
        ),
        _ => None,
    }
}

/// The frame that a message payload spells, or what is wrong with it.
pub open spec fn message_frame(payload: JsonView) -> Result<FrameView, FrameError> {
    let kind = text_of(member(payload, "$type"@));
    let marker = if kind == Some("network.bsky.jetstream.subscribeEvents#identity"@) {
        Some(PayloadView::Identity)
    } else if kind == Some("network.bsky.jetstream.subscribeEvents#account"@) {
        Some(PayloadView::Account)
    } else if kind == Some("network.bsky.jetstream.subscribeEvents#sync"@) {
        Some(PayloadView::Sync)
    } else {
        None
    };
    if kind == Some("network.bsky.jetstream.subscribeEvents#info"@) {
        match (
            text_of(member(payload, "name"@)),
            optional_text(member(payload, "message"@)),
        ) {
            (Some(name), Some(message)) => Ok(FrameView::Info { name, message }),
            _ => Err(FrameError::BadInfo),
        }
    } else if marker is None && kind != Some(
        "network.bsky.jetstream.subscribeEvents#commit"@,
    ) {
        Ok(FrameView::Unknown)
    } else {
        match payload_event(payload, marker) {
            Some(event) => Ok(FrameView::Event(event)),
            None => Err(FrameError::BadEvent),
        }
    }
}

/// The frame that an envelope holds, or what is wrong with it.
pub open spec fn envelope_frame(envelope: EnvelopeView) -> Result<FrameView, FrameError> {
    if envelope.kind == "message"@ {
        match envelope.payload {
            None => Err(FrameError::NoPayload),
            Some(payload) => message_frame(payload),
        }
    } else if envelope.kind == "error"@ {
        Ok(
            FrameView::Error {
                error: match envelope.error {
                    Some(error) => error,
                    None => Seq::empty(),
                },
                message: envelope.message,
            },
        )
    } else {
        Ok(FrameView::Unknown)
    }
}

/// The frame that a document is, or what is wrong with it.
pub open spec fn document_frame(document: Option<JsonView>) -> Result<FrameView, FrameError> {
    match document {
        None => Err(FrameError::Undecodable),
        Some(document) => match envelope(document) {
            None => Err(FrameError::Undecodable),
            Some(envelope) => envelope_frame(envelope),
        },
    }
}

/// Whether a decoded frame is the one meant.
pub open spec fn frame_matches(
    r: Result<Frame, FrameError>,
    want: Result<FrameView, FrameError>,
) -> bool {
    match want {
        Ok(frame) => r matches Ok(got) && got@ == frame,
        Err(e) => r == Err::<Frame, FrameError>(e),
    }
}

/// Microseconds since 1970 of a time that was parsed; 0 where it was not.
pub fn micros_or_zero(parsed: Option<OffsetDateTime>) -> (r: i64)
    requires
        parsed matches Some(t) ==> t.valid() && t.internet(),
    ensures
        r == micros_of(parsed),
{
    match parsed {
        None => 0,
        Some(t) => {
            let at = to_utc(t);
            proof {
                crate::time::lemma_internet_seconds(t);
            }
            at.seconds * 1_000_000 + (at.nanos / 1000) as i64
        },
    }
}

/// Parses the wire time of an event. The value is informational, so a
/// malformed one becomes 0.
pub fn parse_time_us(time: &str) -> (r: i64)
    ensures
        r == micros_of(rfc3339(time@)),
{
    micros_or_zero(parse_rfc3339(time))
}

/// The outer object of a frame, read.
struct Envelope {
    kind: String,
    payload: Option<Json>,
    error: Option<String>,
    message: Option<String>,
}

impl Envelope {
    spec fn model(self) -> EnvelopeView {
        EnvelopeView {
            kind: self.kind@,
            payload: option_view(self.payload),
            error: string_view(self.error),
            message: string_view(self.message),
        }
    }
}

fn read_envelope(document: &Json) -> (r: Option<Envelope>)
    ensures
        match envelope(document@) {
            Some(want) => r matches Some(got) && got.model() == want,
            None => r is None,
        },
{
    if !document.shaped(4, 4) {
        return None;
    }
    match (
        read_text(document.slot(0, "$type")),
        read_optional_text(document.slot(2, "error")),
        read_optional_text(document.slot(3, "message")),
    ) {
        (Some(kind), Some(error), Some(message)) => Some(
            Envelope {
                kind,
                payload: read_optional(document.slot(1, "payload")),
                error,
                message,
            },
        ),
        _ => None,
    }
}

fn read_commit(payload: &Json) -> (r: Option<Commit>)
    ensures
        match payload_commit(payload@) {
            Some(want) => r matches Some(got) && got@ == want,
            None => r is None,
        },
{
    match (
        read_defaulted_text(payload.get("rev")),
        read_defaulted_text(payload.get("operation")),
        read_defaulted_text(payload.get("collection")),
        read_defaulted_text(payload.get("rkey")),
        read_optional_text(payload.get("cid")),
    ) {
        (Some(rev), Some(operation), Some(collection), Some(rkey), Some(cid)) => Some(
            Commit {
                operation,
                collection,
                rkey,
                rev,
                record: read_optional(payload.get("record")),
                cid,
            },
        ),
        _ => None,
    }
}

/// What an optional kind-specific part holds.
spec fn marker_view(marker: Option<Payload>) -> Option<PayloadView> {
    match marker {
        Some(payload) => Some(payload@),
        None => None,
    }
}

fn read_event(payload: &Json, marker: Option<Payload>) -> (r: Option<Event>)
    ensures
        match payload_event(payload@, marker_view(marker)) {
            Some(want) => r matches Some(got) && got@ == want,
            None => r is None,
        },
{
    match (
        read_unsigned(payload.get("seq")),
        read_text(payload.get("did")),
        read_text(payload.get("time")),
        read_commit(payload),
    ) {
        (Some(seq), Some(did), Some(time), Some(commit)) => Some(
            Event {
                seq,
                did,
                time_us: parse_time_us(time.as_str()),
                payload: match marker {
                    Some(marker) => marker,
                    None => Payload::Commit(commit),
                },
            },
        ),
        _ => None,
    }
}

/// Decodes the payload of a message frame.
pub fn decode_message_payload(payload: &Json) -> (r: Result<Frame, FrameError>)
    ensures
        frame_matches(r, message_frame(payload@)),
{
    let kind = match read_text(payload.get("$type")) {
        None => {
            return Ok(Frame::Unknown);
        },
        Some(kind) => kind,
    };
    if str_eq(kind.as_str(), "network.bsky.jetstream.subscribeEvents#info") {
        return match (
            read_text(payload.get("name")),
            read_optional_text(payload.get("message")),
        ) {
            (Some(name), Some(message)) => Ok(Frame::Info { name, message }),
            _ => Err(FrameError::BadInfo),
        };
    }
    let marker = if str_eq(kind.as_str(), "network.bsky.jetstream.subscribeEvents#identity") {
        Some(Payload::Identity)
    } else if str_eq(kind.as_str(), "network.bsky.jetstream.subscribeEvents#account") {
        Some(Payload::Account)
    } else if str_eq(kind.as_str(), "network.bsky.jetstream.subscribeEvents#sync") {
        Some(Payload::Sync)
    } else if str_eq(kind.as_str(), "network.bsky.jetstream.subscribeEvents#commit") {
        None
    } else {
        return Ok(Frame::Unknown);
    };
    match read_event(payload, marker) {
        Some(event) => Ok(Frame::Event(event)),
        None => Err(FrameError::BadEvent),
    }
}

/// Decodes a frame from the document that its text spells.
pub fn decode_document(document: Option<Json>) -> (r: Result<Frame, FrameError>)
    ensures
        frame_matches(r, document_frame(option_view(document))),
{
    let document = match document {
        None => {
            return Err(FrameError::Undecodable);
        },
        Some(document) => document,
    };
    let envelope = match read_envelope(&document) {
        None => {
            return Err(FrameError::Undecodable);
        },
        Some(envelope) => envelope,
    };
    if str_eq(envelope.kind.as_str(), "message") {
        match envelope.payload {
            None => Err(FrameError::NoPayload),
            Some(payload) => decode_message_payload(&payload),
        }
    } else if str_eq(envelope.kind.as_str(), "error") {
        let error = match envelope.error {
            Some(error) => error,
            None => {
                let empty = String::new();
                assert(empty@ =~= Seq::<char>::empty());
                empty
            },
        };
        Ok(Frame::Error { error, message: envelope.message })
    } else {
        Ok(Frame::Unknown)
    }
}

/// Decodes one text frame of the live stream.
pub fn decode_frame(text: &str) -> (r: Result<Frame, FrameError>)
    ensures
        frame_matches(r, document_frame(record_document(text@, Record::Frame))),
{
    decode_document(read_record(text, Record::Frame))
}

/// Types that this client does not know are skipped, whatever else the frame
/// holds: neither an unknown payload type nor an unknown envelope is an error.
pub proof fn law_unknown_types_are_skipped(payload: JsonView, other: EnvelopeView)
    ensures
        ({
            let kind = text_of(member(payload, "$type"@));
            &&& kind != Some("network.bsky.jetstream.subscribeEvents#info"@)
            &&& kind != Some("network.bsky.jetstream.subscribeEvents#identity"@)
            &&& kind != Some("network.bsky.jetstream.subscribeEvents#account"@)
            &&& kind != Some("network.bsky.jetstream.subscribeEvents#sync"@)
            &&& kind != Some("network.bsky.jetstream.subscribeEvents#commit"@)
        }) ==> message_frame(payload) == Ok::<FrameView, FrameError>(FrameView::Unknown),
        other.kind != "message"@ && other.kind != "error"@ ==> envelope_frame(other) == Ok::<
            FrameView,
            FrameError,
        >(FrameView::Unknown),
{
}

} // verus!
