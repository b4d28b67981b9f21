//! What the documents of the service are read as: frames, plans, messages and
//! addresses.
use vstd::prelude::*;
use vstd::utf8::encode_utf8;

use crate::archive::{
    decode_plan, etag_name, method_url, part_name, range_from, read_plan, unit_views, BlockRange,
    PlanSegment, PlanStats, SnapshotPlan,
};
use crate::encoding::cid_for_digest;
use crate::events::{
    decode_document, decode_message_payload, parse_time_us, Event, Frame, FrameError, Payload,
};
use crate::ingest_laws::{first_member, law_first_member_is_read};
use crate::json::{member, member_of, members, slot, Json, JsonView};
use crate::live::{
    next_frame, parameters, percent_encoded, query, subscribe_url, Incoming, LiveParams, Message,
};
use crate::text::decimal;
use crate::time::{rfc3339, OffsetDateTime};
use crate::wire::{read_record, Record};

verus! {

// ---- members ----

/// Whether an object has a member, its first of that name, with a value.
pub open spec fn has(json: JsonView, name: Seq<char>, value: JsonView) -> bool {
    exists|at: int| first_member(json, name, at, value)
}

/// Whether no member of a value has a name.
pub open spec fn lacks(json: JsonView, name: Seq<char>) -> bool {
    json matches JsonView::Object(fields) ==> forall|i: int|
        0 <= i < fields.len() ==> (#[trigger] fields[i]).0 != name
}

/// A member that is there is read, one that is not is missed.
pub proof fn law_members_are_read(json: JsonView, name: Seq<char>, value: JsonView)
    ensures
        has(json, name, value) ==> member(json, name) == Some(value),
        lacks(json, name) ==> member(json, name) is None,
{
    if has(json, name, value) {
        let at = choose|at: int| first_member(json, name, at, value);
        law_first_member_is_read(json, name, at, value);
    }
    if lacks(json, name) {
        lemma_no_member(members(json), name);
    }
}

proof fn lemma_no_member(fields: Seq<(Seq<char>, JsonView)>, name: Seq<char>)
    requires
        forall|i: int| 0 <= i < fields.len() ==> (#[trigger] fields[i]).0 != name,
    ensures
        member_of(fields, name) is None,
    decreases fields.len(),
{
    if fields.len() > 0 {
        assert(fields[0].0 != name);
        assert forall|i: int| 0 <= i < fields.skip(1).len() implies (#[trigger] fields.skip(1)[i]).0
            != name by {
            assert(fields.skip(1)[i] == fields[i + 1]);
        }
        lemma_no_member(fields.skip(1), name);
    }
}

/// Whether a value spells a record: an object with the members of these names,
/// or an array of the values in their order.
pub open spec fn spells(json: JsonView, names: Seq<Seq<char>>, values: Seq<JsonView>) -> bool {
    ||| json == JsonView::Array(values)
    ||| json is Object && forall|i: int| 0 <= i < names.len() ==> has(json, #[trigger] names[i], values[i])
}

proof fn lemma_slot(json: JsonView, names: Seq<Seq<char>>, values: Seq<JsonView>, i: int)
    requires
        spells(json, names, values),
        0 <= i < names.len() == values.len(),
    ensures
        slot(json, i, names[i]) == Some(values[i]),
{
    if json is Object {
        assert(has(json, names[i], values[i]));
        law_members_are_read(json, names[i], values[i]);
    }
}

// ---- frames ----

proof fn lemma_types_differ()
    ensures
        ({
            let commit = "network.bsky.jetstream.subscribeEvents#commit"@;
            let identity = "network.bsky.jetstream.subscribeEvents#identity"@;
            let account = "network.bsky.jetstream.subscribeEvents#account"@;
            let sync = "network.bsky.jetstream.subscribeEvents#sync"@;
            let info = "network.bsky.jetstream.subscribeEvents#info"@;
            &&& commit != identity && commit != account && commit != sync && commit != info
            &&& identity != account && identity != sync && identity != info
            &&& account != sync && account != info
            &&& sync != info
        }),
{
    reveal_strlit("network.bsky.jetstream.subscribeEvents#commit");
    reveal_strlit("network.bsky.jetstream.subscribeEvents#identity");
    reveal_strlit("network.bsky.jetstream.subscribeEvents#account");
    reveal_strlit("network.bsky.jetstream.subscribeEvents#sync");
    reveal_strlit("network.bsky.jetstream.subscribeEvents#info");
    assert("network.bsky.jetstream.subscribeEvents#commit"@.len() == 45);
    assert("network.bsky.jetstream.subscribeEvents#identity"@.len() == 47);
    assert("network.bsky.jetstream.subscribeEvents#account"@.len() == 46);
    assert("network.bsky.jetstream.subscribeEvents#sync"@.len() == 43);
    assert("network.bsky.jetstream.subscribeEvents#info"@.len() == 43);
    assert("network.bsky.jetstream.subscribeEvents#sync"@[39] == 's');
    assert("network.bsky.jetstream.subscribeEvents#info"@[39] == 'i');
}

/// What every event payload says of its event.
pub open spec fn names_event(
    payload: JsonView,
    seq: u64,
    did: Seq<char>,
    time: OffsetDateTime,
    spelled: Seq<char>,
) -> bool {
    &&& has(payload, "seq"@, JsonView::Unsigned(seq))
    &&& has(payload, "did"@, JsonView::String(did))
    &&& has(payload, "time"@, JsonView::String(spelled))
    &&& rfc3339(spelled) == Some(time)
    &&& time.valid() && time.internet()
}

/// Whether an event has the number, the account and the time.
pub open spec fn is_event(event: Event, seq: u64, did: Seq<char>, time: OffsetDateTime) -> bool {
    &&& event.seq == seq
    &&& event.did@ == did
    &&& event.time_us == time.instant().seconds * 1_000_000 + time.instant().nanos as int / 1000
}

/// A commit frame is read member by member.
pub proof fn law_commits_are_read(
    payload: Json,
    r: Result<Frame, FrameError>,
    seq: u64,
    did: Seq<char>,
    time: OffsetDateTime,
    spelled: Seq<char>,
    operation: Seq<char>,
    collection: Seq<char>,
    rkey: Seq<char>,
    rev: Seq<char>,
    cid: Option<Seq<char>>,
    record: Option<JsonView>,
)
    requires
        call_ensures(decode_message_payload, (&payload,), r),
        has(
            payload@,
            "$type"@,
            JsonView::String("network.bsky.jetstream.subscribeEvents#commit"@),
        ),
        names_event(payload@, seq, did, time, spelled),
        has(payload@, "operation"@, JsonView::String(operation)),
        has(payload@, "collection"@, JsonView::String(collection)),
        has(payload@, "rkey"@, JsonView::String(rkey)),
        has(payload@, "rev"@, JsonView::String(rev)),
        match cid {
            Some(text) => has(payload@, "cid"@, JsonView::String(text)),
            None => lacks(payload@, "cid"@) || has(payload@, "cid"@, JsonView::Null),
        },
        match record {
            Some(value) => !(value is Null) && has(payload@, "record"@, value),
            None => lacks(payload@, "record"@) || has(payload@, "record"@, JsonView::Null),
        },
    ensures
        r matches Ok(Frame::Event(event)) && is_event(event, seq, did, time) && (
        event.payload matches Payload::Commit(commit) && {
            &&& commit.operation@ == operation
            &&& commit.collection@ == collection
            &&& commit.rkey@ == rkey
            &&& commit.rev@ == rev
            &&& commit.cid is Some <==> cid is Some
            &&& commit.cid matches Some(text) ==> text@ == cid->0
            &&& commit.record is Some <==> record is Some
            &&& commit.record matches Some(value) ==> value@ == record->0
        }),
{
    lemma_types_differ();
    lemma_event_members(payload@, seq, did, time, spelled);
    law_members_are_read(
        payload@,
        "$type"@,
        JsonView::String("network.bsky.jetstream.subscribeEvents#commit"@),
    );
    law_members_are_read(payload@, "operation"@, JsonView::String(operation));
    law_members_are_read(payload@, "collection"@, JsonView::String(collection));
    law_members_are_read(payload@, "rkey"@, JsonView::String(rkey));
    law_members_are_read(payload@, "rev"@, JsonView::String(rev));
    law_members_are_read(payload@, "cid"@, JsonView::Null);
    law_members_are_read(payload@, "record"@, JsonView::Null);
    if let Some(text) = cid {
        law_members_are_read(payload@, "cid"@, JsonView::String(text));
    }
    if let Some(value) = record {
        law_members_are_read(payload@, "record"@, value);
    }
    let event = r->Ok_0->Event_0;
    assert(r->Ok_0@ is Event);
    assert(event@.payload is Commit);
}

proof fn lemma_event_members(
    payload: JsonView,
    seq: u64,
    did: Seq<char>,
    time: OffsetDateTime,
    spelled: Seq<char>,
)
    requires
        names_event(payload, seq, did, time, spelled),
    ensures
        member(payload, "seq"@) == Some(JsonView::Unsigned(seq)),
        member(payload, "did"@) == Some(JsonView::String(did)),
        member(payload, "time"@) == Some(JsonView::String(spelled)),
        i64::MIN <= crate::events::micros_of(Some(time)) <= i64::MAX,
{
    law_members_are_read(payload, "seq"@, JsonView::Unsigned(seq));
    law_members_are_read(payload, "did"@, JsonView::String(did));
    law_members_are_read(payload, "time"@, JsonView::String(spelled));
    crate::time::lemma_internet_seconds(time);
}

/// A marker frame is read as the marker it names.
pub proof fn law_markers_are_read(
    payload: Json,
    r: Result<Frame, FrameError>,
    seq: u64,
    did: Seq<char>,
    time: OffsetDateTime,
    spelled: Seq<char>,
    kind: Seq<char>,
)
    requires
        call_ensures(decode_message_payload, (&payload,), r),
        has(payload@, "$type"@, JsonView::String(kind)),
        kind == "network.bsky.jetstream.subscribeEvents#identity"@ || kind
            == "network.bsky.jetstream.subscribeEvents#account"@ || kind
            == "network.bsky.jetstream.subscribeEvents#sync"@,
        names_event(payload@, seq, did, time, spelled),
        lacks(payload@, "operation"@),
        lacks(payload@, "collection"@),
        lacks(payload@, "rkey"@),
        lacks(payload@, "rev"@),
        lacks(payload@, "cid"@),
    ensures
        r matches Ok(Frame::Event(event)) && {
            &&& is_event(event, seq, did, time)
            &&& event.payload is Identity <==> kind
                == "network.bsky.jetstream.subscribeEvents#identity"@
            &&& event.payload is Account <==> kind
                == "network.bsky.jetstream.subscribeEvents#account"@
            &&& event.payload is Sync <==> kind == "network.bsky.jetstream.subscribeEvents#sync"@
        },
{
    lemma_types_differ();
    lemma_event_members(payload@, seq, did, time, spelled);
    law_members_are_read(payload@, "$type"@, JsonView::String(kind));
    law_members_are_read(payload@, "operation"@, JsonView::Null);
    law_members_are_read(payload@, "collection"@, JsonView::Null);
    law_members_are_read(payload@, "rkey"@, JsonView::Null);
    law_members_are_read(payload@, "rev"@, JsonView::Null);
    law_members_are_read(payload@, "cid"@, JsonView::Null);
    let event = r->Ok_0->Event_0;
    assert(r->Ok_0@ is Event);
}

/// An event without a number, an account or a time is refused.
pub proof fn law_nameless_events_are_refused(
    payload: Json,
    r: Result<Frame, FrameError>,
    kind: Seq<char>,
)
    requires
        call_ensures(decode_message_payload, (&payload,), r),
        has(payload@, "$type"@, JsonView::String(kind)),
        kind == "network.bsky.jetstream.subscribeEvents#identity"@ || kind
            == "network.bsky.jetstream.subscribeEvents#account"@ || kind
            == "network.bsky.jetstream.subscribeEvents#sync"@ || kind
            == "network.bsky.jetstream.subscribeEvents#commit"@,
        lacks(payload@, "seq"@) || lacks(payload@, "did"@) || lacks(payload@, "time"@),
    ensures
        r == Err::<Frame, FrameError>(FrameError::BadEvent),
{
    lemma_types_differ();
    law_members_are_read(payload@, "$type"@, JsonView::String(kind));
    law_members_are_read(payload@, "seq"@, JsonView::Null);
    law_members_are_read(payload@, "did"@, JsonView::Null);
    law_members_are_read(payload@, "time"@, JsonView::Null);
}

/// An event with a member of another shape than it should have is refused, and
/// null counts as another shape but for the identifier and the record.
pub proof fn law_misshapen_members_are_refused(
    payload: Json,
    r: Result<Frame, FrameError>,
    kind: Seq<char>,
    name: Seq<char>,
    value: JsonView,
)
    requires
        call_ensures(decode_message_payload, (&payload,), r),
        has(payload@, "$type"@, JsonView::String(kind)),
        kind == "network.bsky.jetstream.subscribeEvents#identity"@ || kind
            == "network.bsky.jetstream.subscribeEvents#account"@ || kind
            == "network.bsky.jetstream.subscribeEvents#sync"@ || kind
            == "network.bsky.jetstream.subscribeEvents#commit"@,
        has(payload@, name, value),
        (name == "seq"@ && !(value is Unsigned)) || ((name == "did"@ || name == "time"@ || name
            == "rev"@ || name == "operation"@ || name == "collection"@ || name == "rkey"@) && !(
        value is String)) || (name == "cid"@ && !(value is String) && !(value is Null)),
    ensures
        r == Err::<Frame, FrameError>(FrameError::BadEvent),
{
    lemma_types_differ();
    law_members_are_read(payload@, "$type"@, JsonView::String(kind));
    law_members_are_read(payload@, name, value);
}

/// A commit without one of its texts has it empty.
pub proof fn law_missing_texts_are_empty(payload: Json, r: Result<Frame, FrameError>)
    requires
        call_ensures(decode_message_payload, (&payload,), r),
    ensures
        r matches Ok(Frame::Event(event)) ==> (event.payload matches Payload::Commit(commit) ==> {
            &&& lacks(payload@, "rev"@) ==> commit.rev@.len() == 0
            &&& lacks(payload@, "operation"@) ==> commit.operation@.len() == 0
            &&& lacks(payload@, "collection"@) ==> commit.collection@.len() == 0
            &&& lacks(payload@, "rkey"@) ==> commit.rkey@.len() == 0
        }),
{
    law_members_are_read(payload@, "rev"@, JsonView::Null);
    law_members_are_read(payload@, "operation"@, JsonView::Null);
    law_members_are_read(payload@, "collection"@, JsonView::Null);
    law_members_are_read(payload@, "rkey"@, JsonView::Null);
    if let Ok(Frame::Event(event)) = r {
        assert(r->Ok_0@ is Event);
    }
}

/// An advisory is read with its name and its message.
pub proof fn law_advisories_are_read(
    payload: Json,
    r: Result<Frame, FrameError>,
    name: Seq<char>,
    words: Seq<char>,
)
    requires
        call_ensures(decode_message_payload, (&payload,), r),
        has(
            payload@,
            "$type"@,
            JsonView::String("network.bsky.jetstream.subscribeEvents#info"@),
        ),
    ensures
        has(payload@, "name"@, JsonView::String(name)) && has(
            payload@,
            "message"@,
            JsonView::String(words),
        ) ==> (r matches Ok(Frame::Info { name: got, message: Some(text) }) && got@ == name && text@
            == words),
        has(payload@, "name"@, JsonView::String(name)) && lacks(payload@, "message"@) ==> (
        r matches Ok(Frame::Info { name: got, message: None }) && got@ == name),
        lacks(payload@, "name"@) ==> r == Err::<Frame, FrameError>(FrameError::BadInfo),
{
    lemma_types_differ();
    law_members_are_read(
        payload@,
        "$type"@,
        JsonView::String("network.bsky.jetstream.subscribeEvents#info"@),
    );
    law_members_are_read(payload@, "name"@, JsonView::String(name));
    law_members_are_read(payload@, "message"@, JsonView::String(words));
    if r is Ok {
        assert(r->Ok_0@ is Info);
    }
}

/// A payload of an unknown type, or without one, is passed over.
pub proof fn law_unknown_payloads_are_passed_over(
    payload: Json,
    r: Result<Frame, FrameError>,
    kind: Seq<char>,
)
    requires
        call_ensures(decode_message_payload, (&payload,), r),
        lacks(payload@, "$type"@) || (has(payload@, "$type"@, JsonView::String(kind)) && kind
            != "network.bsky.jetstream.subscribeEvents#commit"@ && kind
            != "network.bsky.jetstream.subscribeEvents#identity"@ && kind
            != "network.bsky.jetstream.subscribeEvents#account"@ && kind
            != "network.bsky.jetstream.subscribeEvents#sync"@ && kind
            != "network.bsky.jetstream.subscribeEvents#info"@),
    ensures
        r == Ok::<Frame, FrameError>(Frame::Unknown),
{
    law_members_are_read(payload@, "$type"@, JsonView::String(kind));
}

/// A message envelope is read as its payload is; an error envelope as the
/// error it names, whatever payload it has; one without a payload, or no
/// envelope at all, is refused.
pub proof fn law_envelopes_are_opened(
    document: Option<Json>,
    payload: Json,
    inner: Result<Frame, FrameError>,
    r: Result<Frame, FrameError>,
    error: Seq<char>,
    words: Seq<char>,
)
    requires
        call_ensures(decode_document, (document,), r),
        call_ensures(decode_message_payload, (&payload,), inner),
    ensures
        document is None ==> r == Err::<Frame, FrameError>(FrameError::Undecodable),
        document matches Some(json) ==> {
            &&& json@ is Object && lacks(json@, "$type"@) ==> r == Err::<Frame, FrameError>(
                FrameError::Undecodable,
            )
            &&& json@ is Object && has(json@, "$type"@, JsonView::String("message"@)) && lacks(
                json@,
                "error"@,
            ) && lacks(json@, "message"@) ==> {
                &&& lacks(json@, "payload"@) ==> r == Err::<Frame, FrameError>(
                    FrameError::NoPayload,
                )
                &&& has(json@, "payload"@, payload@) && !(payload@ is Null) ==> {
                    &&& r is Ok <==> inner is Ok
                    &&& r is Ok ==> r->Ok_0@ == inner->Ok_0@
                    &&& r is Err ==> r->Err_0 == inner->Err_0
                }
            }
            &&& json@ is Object && has(json@, "$type"@, JsonView::String("error"@)) && has(
                json@,
                "error"@,
                JsonView::String(error),
            ) && has(json@, "message"@, JsonView::String(words)) ==> (
            r matches Ok(Frame::Error { error: got, message: Some(text) }) && got@ == error && text@
                == words)
        },
{
    reveal_strlit("message");
    reveal_strlit("error");
    assert("message"@.len() == 7 && "error"@.len() == 5);
    if let Some(json) = document {
        law_members_are_read(json@, "$type"@, JsonView::String("message"@));
        law_members_are_read(json@, "$type"@, JsonView::String("error"@));
        law_members_are_read(json@, "payload"@, payload@);
        law_members_are_read(json@, "error"@, JsonView::String(error));
        law_members_are_read(json@, "message"@, JsonView::String(words));
        if r is Ok {
            assert(r->Ok_0@ is Error ==> r->Ok_0 is Error);
        }
    }
}

/// An envelope of another kind is passed over, and an error without a name has
/// an empty one.
pub proof fn law_other_envelopes_are_passed_over(
    json: Json,
    r: Result<Frame, FrameError>,
    kind: Seq<char>,
)
    requires
        call_ensures(decode_document, (Some(json),), r),
        json@ is Object,
        has(json@, "$type"@, JsonView::String(kind)),
        lacks(json@, "error"@),
        lacks(json@, "message"@),
    ensures
        kind != "message"@ && kind != "error"@ ==> r == Ok::<Frame, FrameError>(Frame::Unknown),
        kind == "error"@ ==> (r matches Ok(Frame::Error { error, message: None }) && error@.len()
            == 0),
{
    reveal_strlit("message");
    reveal_strlit("error");
    assert("message"@.len() == 7 && "error"@.len() == 5);
    law_members_are_read(json@, "$type"@, JsonView::String(kind));
    law_members_are_read(json@, "error"@, JsonView::Null);
    law_members_are_read(json@, "message"@, JsonView::Null);
}

/// What the socket delivered is told apart: its end and a close frame close
/// the tail, a failure fails it, and what is no text is passed over.
pub proof fn law_messages_are_told_apart(message: Message, r: Option<Incoming>)
    requires
        call_ensures(next_frame, (&message,), r),
    ensures
        message is Ended || message is Close <==> (r matches Some(got) && got is Closed),
        message is Failed ==> (r matches Some(got) && got is Failed),
        message is Other <==> r is None,
        message is Text ==> (r matches Some(got) && (got is Frame || got is Failed)),
{
}

// ---- plans ----

/// Whether a value spells a block range.
pub open spec fn is_range(json: JsonView, range: BlockRange) -> bool {
    spells(
        json,
        seq!["first"@, "last"@],
        seq![JsonView::Unsigned(range.first), JsonView::Unsigned(range.last)],
    )
}

/// Whether a value spells a unit. Its list of blocks may be left out where it
/// is empty.
pub open spec fn is_unit(json: JsonView, blocks: Seq<JsonView>, unit: PlanSegment) -> bool {
    &&& blocks.len() == unit.blocks@.len()
    &&& forall|k: int| 0 <= k < blocks.len() ==> is_range(#[trigger] blocks[k], unit.blocks@[k])
    &&& spells(
        json,
        seq!["name"@, "index"@, "checksum"@, "minSeq"@, "maxSeq"@, "mode"@, "blocks"@],
        unit_values(unit).push(JsonView::Array(blocks)),
    ) || (blocks.len() == 0 && lacks(json, "blocks"@) && spells(
        json,
        seq!["name"@, "index"@, "checksum"@, "minSeq"@, "maxSeq"@, "mode"@],
        unit_values(unit),
    ))
}

/// The members of a unit that are never left out.
pub open spec fn unit_values(unit: PlanSegment) -> Seq<JsonView> {
    seq![
        JsonView::String(unit.name@),
        JsonView::Unsigned(unit.index),
        JsonView::String(unit.checksum@),
        JsonView::Unsigned(unit.min_seq),
        JsonView::Unsigned(unit.max_seq),
        JsonView::String(unit.mode@),
    ]
}

/// Whether a value spells the statistics of a plan.
pub open spec fn is_stats(json: JsonView, stats: PlanStats) -> bool {
    spells(
        json,
        seq!["segmentsExamined"@, "segmentsMatched"@, "blocksMatched"@, "entries"@],
        seq![
            JsonView::Unsigned(stats.segments_examined),
            JsonView::Unsigned(stats.segments_matched),
            JsonView::Unsigned(stats.blocks_matched),
            JsonView::Unsigned(stats.entries),
        ],
    )
}

/// Whether a value spells a page of a plan, the units of which are written as
/// `units` with the block lists `blocks`.
pub open spec fn is_plan(
    json: JsonView,
    units: Seq<JsonView>,
    blocks: Seq<Seq<JsonView>>,
    stats: JsonView,
    plan: SnapshotPlan,
) -> bool {
    &&& units.len() == blocks.len() == plan.segments@.len()
    &&& forall|i: int|
        0 <= i < units.len() ==> is_unit(#[trigger] units[i], blocks[i], plan.segments@[i])
    &&& is_stats(stats, plan.stats)
    &&& spells(
        json,
        seq!["plannedThroughSeq"@, "sealedTipSeq"@, "segments"@, "stats"@],
        seq![
            JsonView::Unsigned(plan.planned_through_seq),
            JsonView::Unsigned(plan.sealed_tip_seq),
            JsonView::Array(units),
            stats,
        ],
    )
}

proof fn lemma_range(json: JsonView, range: BlockRange)
    requires
        is_range(json, range),
    ensures
        crate::archive::range_in(json) == Some(range),
{
    let names = seq!["first"@, "last"@];
    let values = seq![JsonView::Unsigned(range.first), JsonView::Unsigned(range.last)];
    lemma_slot(json, names, values, 0);
    lemma_slot(json, names, values, 1);
}

proof fn lemma_slots(json: JsonView, names: Seq<Seq<char>>, values: Seq<JsonView>)
    requires
        spells(json, names, values),
        6 <= names.len() == values.len(),
    ensures
        slot(json, 0, names[0]) == Some(values[0]),
        slot(json, 1, names[1]) == Some(values[1]),
        slot(json, 2, names[2]) == Some(values[2]),
        slot(json, 3, names[3]) == Some(values[3]),
        slot(json, 4, names[4]) == Some(values[4]),
        slot(json, 5, names[5]) == Some(values[5]),
{
    lemma_slot(json, names, values, 0);
    lemma_slot(json, names, values, 1);
    lemma_slot(json, names, values, 2);
    lemma_slot(json, names, values, 3);
    lemma_slot(json, names, values, 4);
    lemma_slot(json, names, values, 5);
}

proof fn lemma_unit(json: JsonView, blocks: Seq<JsonView>, unit: PlanSegment)
    requires
        is_unit(json, blocks, unit),
    ensures
        crate::archive::unit_in(json) == Some(unit@),
{
    let full = seq!["name"@, "index"@, "checksum"@, "minSeq"@, "maxSeq"@, "mode"@, "blocks"@];
    let most = seq!["name"@, "index"@, "checksum"@, "minSeq"@, "maxSeq"@, "mode"@];
    let values = unit_values(unit);
    if spells(json, full, values.push(JsonView::Array(blocks))) {
        lemma_slots(json, full, values.push(JsonView::Array(blocks)));
        lemma_slot(json, full, values.push(JsonView::Array(blocks)), 6);
    } else {
        lemma_slots(json, most, values);
        law_members_are_read(json, "blocks"@, JsonView::Null);
        assert(unit.blocks@ =~= Seq::empty());
    }
    assert forall|k: int| 0 <= k < blocks.len() implies crate::archive::range_in(
        #[trigger] blocks[k],
    ) == Some(unit.blocks@[k]) by {
        lemma_range(blocks[k], unit.blocks@[k]);
    }
    assert(crate::archive::ranges_in(blocks)->0 =~= unit.blocks@);
}

proof fn lemma_stats(json: JsonView, stats: PlanStats)
    requires
        is_stats(json, stats),
    ensures
        crate::archive::stats_in(json) == Some(stats),
{
    let names = seq!["segmentsExamined"@, "segmentsMatched"@, "blocksMatched"@, "entries"@];
    let values = seq![
        JsonView::Unsigned(stats.segments_examined),
        JsonView::Unsigned(stats.segments_matched),
        JsonView::Unsigned(stats.blocks_matched),
        JsonView::Unsigned(stats.entries),
    ];
    lemma_slot(json, names, values, 0);
    lemma_slot(json, names, values, 1);
    lemma_slot(json, names, values, 2);
    lemma_slot(json, names, values, 3);
}

/// A page that spells a plan is read as that plan, every unit and every block
/// range of it in its place.
pub proof fn law_plans_are_read(
    json: Json,
    units: Seq<JsonView>,
    blocks: Seq<Seq<JsonView>>,
    stats: JsonView,
    plan: SnapshotPlan,
    r: Option<SnapshotPlan>,
    i: int,
)
    requires
        call_ensures(read_plan, (&json,), r),
        is_plan(json@, units, blocks, stats, plan),
    ensures
        r matches Some(got) && {
            &&& got.planned_through_seq == plan.planned_through_seq
            &&& got.sealed_tip_seq == plan.sealed_tip_seq
            &&& got.stats == plan.stats
            &&& got.segments@.len() == plan.segments@.len()
            &&& 0 <= i < got.segments@.len() ==> {
                &&& got.segments@[i].name@ == plan.segments@[i].name@
                &&& got.segments@[i].index == plan.segments@[i].index
                &&& got.segments@[i].checksum@ == plan.segments@[i].checksum@
                &&& got.segments@[i].min_seq == plan.segments@[i].min_seq
                &&& got.segments@[i].max_seq == plan.segments@[i].max_seq
                &&& got.segments@[i].mode@ == plan.segments@[i].mode@
                &&& got.segments@[i].blocks@ == plan.segments@[i].blocks@
            }
        },
{
    let names = seq!["plannedThroughSeq"@, "sealedTipSeq"@, "segments"@, "stats"@];
    let values = seq![
        JsonView::Unsigned(plan.planned_through_seq),
        JsonView::Unsigned(plan.sealed_tip_seq),
        JsonView::Array(units),
        stats,
    ];
    lemma_slot(json@, names, values, 0);
    lemma_slot(json@, names, values, 1);
    lemma_slot(json@, names, values, 2);
    lemma_slot(json@, names, values, 3);
    lemma_stats(stats, plan.stats);
    assert forall|k: int| 0 <= k < units.len() implies crate::archive::unit_in(#[trigger] units[k])
        == Some(plan.segments@[k]@) by {
        lemma_unit(units[k], blocks[k], plan.segments@[k]);
    }
    assert(crate::archive::units_in(units)->0 =~= unit_views(plan.segments@));
    assert(r is Some);
    let got = r->0;
    assert(got@.segments == unit_views(plan.segments@));
    if 0 <= i < got.segments@.len() {
        assert(unit_views(got.segments@)[i] == got.segments@[i]@);
        assert(unit_views(plan.segments@)[i] == plan.segments@[i]@);
    }
    assert(unit_views(got.segments@).len() == got.segments@.len());
}

/// A page without one of its four members is no plan.
pub proof fn law_incomplete_plans_are_refused(json: Json, r: Option<SnapshotPlan>)
    requires
        call_ensures(read_plan, (&json,), r),
        json@ is Object,
        lacks(json@, "plannedThroughSeq"@) || lacks(json@, "sealedTipSeq"@) || lacks(
            json@,
            "segments"@,
        ) || lacks(json@, "stats"@),
    ensures
        r is None,
{
    law_members_are_read(json@, "plannedThroughSeq"@, JsonView::Null);
    law_members_are_read(json@, "sealedTipSeq"@, JsonView::Null);
    law_members_are_read(json@, "segments"@, JsonView::Null);
    law_members_are_read(json@, "stats"@, JsonView::Null);
}

// ---- addresses ----

/// Whether a text holds a query parameter: behind a question mark or an
/// ampersand, and up to the end or to the next ampersand.
pub open spec fn holds_parameter(text: Seq<char>, parameter: Seq<char>) -> bool {
    exists|before: Seq<char>, behind: Seq<char>|
        text == #[trigger] (before + parameter + behind) && before.len() > 0 && (before.last() == '?'
            || before.last() == '&') && (behind.len() == 0 || behind[0] == '&')
}

proof fn lemma_query_holds(all: Seq<Seq<char>>, i: int) -> (r: (Seq<char>, Seq<char>))
    requires
        0 <= i < all.len(),
    ensures
        query(all) == r.0 + all[i] + r.1,
        r.0.len() > 0,
        r.0.last() == if i == 0 {
            '?'
        } else {
            '&'
        },
        r.1.len() == 0 || r.1[0] == '&',
    decreases all.len(),
{
    reveal_strlit("?");
    reveal_strlit("&");
    if i == all.len() - 1 {
        let before = query(all.drop_last()) + if all.len() == 1 {
            "?"@
        } else {
            "&"@
        };
        assert(query(all) =~= before + all[i] + Seq::empty());
        (before, Seq::empty())
    } else {
        let (before, behind) = lemma_query_holds(all.drop_last(), i);
        let more = behind + "&"@ + all.last();
        assert(query(all) =~= before + all[i] + more);
        (before, more)
    }
}

/// The subscribe address asks for every account, for every collection, and for
/// the cursor where there is one.
pub proof fn law_subscription_asks_for_everything(params: LiveParams, r: String, i: int)
    requires
        call_ensures(subscribe_url, (&params,), r),
    ensures
        "wss://"@ + params.hostname@ + "/xrpc/network.bsky.jetstream.subscribeEvents"@ == r@.take(
            ("wss://"@ + params.hostname@ + "/xrpc/network.bsky.jetstream.subscribeEvents"@).len() as int,
        ),
        0 <= i < params.dids@.len() ==> holds_parameter(
            r@,
            "dids="@ + percent_encoded(encode_utf8(params.dids@[i]@)),
        ),
        0 <= i < params.collections@.len() ==> holds_parameter(
            r@,
            "collections="@ + percent_encoded(encode_utf8(params.collections@[i]@)),
        ),
        params.cursor matches Some(cursor) ==> holds_parameter(
            r@,
            "cursor="@ + decimal(cursor as nat),
        ),
        params.cursor is None && params.dids@.len() == 0 && params.collections@.len() == 0 ==> r@
            == "wss://"@ + params.hostname@ + "/xrpc/network.bsky.jetstream.subscribeEvents"@,
{
    let base = "wss://"@ + params.hostname@ + "/xrpc/network.bsky.jetstream.subscribeEvents"@;
    let all = parameters(params);
    assert(r@ =~= base + query(all));
    assert(base =~= r@.take(base.len() as int));
    if 0 <= i < params.dids@.len() {
        let (before, behind) = lemma_query_holds(all, i);
        assert(r@ =~= (base + before) + all[i] + behind);
    }
    if 0 <= i < params.collections@.len() {
        let at = params.dids@.len() + i;
        let (before, behind) = lemma_query_holds(all, at);
        assert(r@ =~= (base + before) + all[at] + behind);
    }
    if let Some(cursor) = params.cursor {
        let at = params.dids@.len() + params.collections@.len();
        let (before, behind) = lemma_query_holds(all, at as int);
        assert(r@ =~= (base + before) + all[at as int] + behind);
    }
}

/// The methods of the archive stand on its host, each under its own name.
pub proof fn law_methods_have_addresses(hostname: &str, method: &str, r: String)
    requires
        call_ensures(method_url, (hostname, method), r),
    ensures
        r@ == "https://"@ + hostname@ + "/xrpc/network.bsky.jetstream."@ + method@,
{
}

/// The files of a download do not get into each other's way.
pub proof fn law_spool_names_differ(name: &str, part: String, etag: String)
    requires
        call_ensures(part_name, (name,), part),
        call_ensures(etag_name, (name,), etag),
    ensures
        part@ != name@,
        etag@ != name@,
        part@ != etag@,
{
    reveal_strlit(".part");
    reveal_strlit(".etag");
    assert(part@.len() == name@.len() + 5);
    assert(etag@.len() == name@.len() + 5);
    assert(part@[name@.len() as int + 1] == 'p');
    assert(etag@[name@.len() as int + 1] == 'e');
}

/// A download that holds some bytes asks for those behind them, one that holds
/// none for the file.
pub proof fn law_ranges_follow_what_is_there(len: u64, r: Option<String>)
    requires
        call_ensures(range_from, (len,), r),
    ensures
        len == 0 <==> r is None,
        r matches Some(text) ==> text@ == "bytes="@ + decimal(len as nat) + "-"@,
{
}

// ---- small readings ----

/// A member of an object is found by its name, the first of that name, and one
/// that is not there is missed.
pub proof fn law_members_are_found(json: Json, name: &str, r: Option<&Json>, value: JsonView)
    requires
        call_ensures(Json::get, (&json, name), r),
    ensures
        has(json@, name@, value) ==> (r matches Some(got) && got@ == value),
        lacks(json@, name@) ==> r is None,
{
    law_members_are_read(json@, name@, value);
}

/// A plan is decoded from what its text is read as.
pub proof fn law_plans_are_decoded_from_their_text(
    text: &str,
    document: Option<Json>,
    page: Option<SnapshotPlan>,
    r: Option<SnapshotPlan>,
)
    requires
        call_ensures(read_record, (text, Record::Plan), document),
        document matches Some(json) ==> call_ensures(read_plan, (&json,), page),
        call_ensures(decode_plan, (text,), r),
    ensures
        document is None ==> r is None,
        document is Some ==> (r is Some <==> page is Some),
        document is Some && r is Some ==> r->0@ == page->0@,
{
}

/// A time is read to the microsecond, and one that cannot be read is zero.
pub proof fn law_times_are_read_to_the_microsecond(text: &str, t: OffsetDateTime, r: i64)
    requires
        call_ensures(parse_time_us, (text,), r),
    ensures
        rfc3339(text@) == Some(t) ==> r == t.instant().seconds * 1_000_000 + t.instant().nanos as int
            / 1000,
        rfc3339(text@) is None ==> r == 0,
{
}

/// The identifier of a record has its version, codec and hash in front.
pub proof fn law_identifiers_name_their_kind(digest: &[u8], r: String)
    requires
        call_ensures(cid_for_digest, (digest,), r),
        digest@.len() == 32,
    ensures
        r@.len() == 59,
        r@.take(7) == "bafyrei"@,
{
    crate::encoding::law_cid_prefix(digest@);
}

} // verus!
