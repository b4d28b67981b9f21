//! The earlier stream version: its events are ordered by microsecond
//! timestamps, it replays a rolling window, and its likes wait in memory.
use vstd::prelude::*;

use crate::bytes::{signed_value, to_signed};
use crate::ingest::{record_intent, write_fits, IngestHandler, IngestPlan, IntentView};
use crate::json::Json;
use crate::runner::{Notice, RECONNECT_DELAY_SECS};
use crate::text::str_eq;

verus! {

/// One event of the stream, with what the service reads of it.
#[derive(Debug)]
pub enum JetstreamEvent {
    Commit {
        did: String,
        time_us: u64,
        operation: String,
        collection: String,
        rkey: String,
        cid: String,
        record: Json,
    },
    Delete { time_us: u64 },
    Identity { time_us: u64 },
    Account { time_us: u64 },
}

/// The stream position of an event.
pub open spec fn position(event: JetstreamEvent) -> u64 {
    match event {
        JetstreamEvent::Commit { time_us, .. } => time_us,
        JetstreamEvent::Delete { time_us } => time_us,
        JetstreamEvent::Identity { time_us } => time_us,
        JetstreamEvent::Account { time_us } => time_us,
    }
}

/// The stream position of any event, whatever its kind.
pub fn event_time_us(event: &JetstreamEvent) -> (r: u64)
    ensures
        r == position(*event),
{
    match event {
        JetstreamEvent::Commit { time_us, .. } => *time_us,
        JetstreamEvent::Delete { time_us } => *time_us,
        JetstreamEvent::Identity { time_us } => *time_us,
        JetstreamEvent::Account { time_us } => *time_us,
    }
}

/// The account that an event is of.
pub open spec fn event_did(event: JetstreamEvent) -> Seq<char> {
    match event {
        JetstreamEvent::Commit { did, .. } => did@,
        _ => Seq::empty(),
    }
}

/// What an event asks for: only created records are indexed.
pub open spec fn stream_intent(event: JetstreamEvent) -> IntentView {
    match event {
        JetstreamEvent::Commit { did, time_us, operation, collection, rkey, cid, record } =>
            if operation@ == "create"@ {
                record_intent(collection@, rkey@, cid@, record@)
            } else {
                IntentView::Nothing
            },
        _ => IntentView::Nothing,
    }
}

/// Decides what to do with an event of the stream. Whatever it is, the cursor
/// moves to its position once it is dealt with.
pub fn handle_stream_event(handler: &IngestHandler, event: &JetstreamEvent) -> (r: IngestPlan)
    ensures
        r.cursor == signed_value(position(*event) as nat),
        write_fits(handler.handle@, event_did(*event), stream_intent(*event), r.write),
{
    let cursor: i64 = to_signed(event_time_us(event));
    let write = match event {
        JetstreamEvent::Commit { did, time_us, operation, collection, rkey, cid, record } =>
            if str_eq(operation.as_str(), "create") {
                handler.handle_record(
                    did.as_str(),
                    collection.as_str(),
                    rkey.as_str(),
                    cid.as_str(),
                    record,
                )
            } else {
                None
            },
        _ => None,
    };
    IngestPlan { write, cursor }
}

/// What to ask the stream for on connecting.
#[derive(Debug, Clone, Copy, PartialEq, Eq, Structural)]
pub enum CursorPlan {
    /// No stored position: take the stream from wherever it is now.
    LiveTail,
    /// Resume from a stored position still inside the replay window.
    Resume(i64),
    /// The stored position has aged out of the replay window: events between
    /// `requested` and `oldest` are gone.
    Truncated { requested: i64, oldest: i64 },
}

/// What to ask for, given the stored position and the age of the oldest event
/// that is still replayed.
pub open spec fn cursor_plan(stored: Option<i64>, now_us: int, max_age_us: int) -> CursorPlan {
    match stored {
        None => CursorPlan::LiveTail,
        Some(stored) => if stored < now_us - max_age_us {
            CursorPlan::Truncated { requested: stored, oldest: (now_us - max_age_us) as i64 }
        } else {
            CursorPlan::Resume(stored)
        },
    }
}

/// Decides what to ask for. The stream does not reject a position that is too
/// old: it silently starts at the oldest event it holds, so a gap has to be
/// worked out here.
pub fn plan_cursor(stored: Option<i64>, now_us: i64, max_age_us: i64) -> (r: CursorPlan)
    requires
        i64::MIN <= now_us - max_age_us <= i64::MAX,
    ensures
        r == cursor_plan(stored, now_us as int, max_age_us as int),
{
    match stored {
        None => CursorPlan::LiveTail,
        Some(stored) => {
            let oldest: i64 = now_us - max_age_us;
            if stored < oldest {
                CursorPlan::Truncated { requested: stored, oldest }
            } else {
                CursorPlan::Resume(stored)
            }
        },
    }
}

/// What a plan asks the stream for never lies before the replay window: a
/// position inside the window is asked for unchanged, and an older one is
/// reported and replaced by the start of the window.
pub proof fn law_plan_stays_in_the_window(stored: Option<i64>, now_us: int, max_age_us: int)
    requires
        i64::MIN <= now_us - max_age_us <= i64::MAX,
    ensures
        match cursor_plan(stored, now_us, max_age_us) {
            CursorPlan::LiveTail => stored is None,
            CursorPlan::Resume(from) => stored == Some(from) && from >= now_us - max_age_us,
            CursorPlan::Truncated { requested, oldest } => stored == Some(requested) && requested
                < oldest && oldest == now_us - max_age_us,
        },
{
}

/// The position to connect at, and whether there is a gap that the stream
/// cannot fill: a stored position is rewound by the safety margin first.
pub open spec fn connect_cursor(
    stored: Option<i64>,
    safety_seconds: int,
    now_us: int,
    max_age_seconds: int,
) -> (Option<i64>, bool) {
    let rewound = match stored {
        Some(position) => Some((position - safety_seconds * 1_000_000) as i64),
        None => None,
    };
    match cursor_plan(rewound, now_us, max_age_seconds * 1_000_000) {
        CursorPlan::LiveTail => (None, false),
        CursorPlan::Resume(from) => (Some(from), false),
        CursorPlan::Truncated { requested, oldest } => (Some(oldest), true),
    }
}

/// Decides where to connect, from the stored position, the current time and
/// the configured margins.
pub fn plan_connection(
    stored: Option<i64>,
    safety_seconds: i64,
    now_us: i64,
    max_age_seconds: i64,
) -> (r: (Option<i64>, bool))
    requires
        i64::MIN <= safety_seconds * 1_000_000 <= i64::MAX,
        i64::MIN <= max_age_seconds * 1_000_000 <= i64::MAX,
        i64::MIN <= now_us - max_age_seconds * 1_000_000 <= i64::MAX,
        stored matches Some(position) ==> i64::MIN <= position - safety_seconds * 1_000_000
            <= i64::MAX,
    ensures
        r == connect_cursor(
            stored,
            safety_seconds as int,
            now_us as int,
            max_age_seconds as int,
        ),
{
    let rewound = match stored {
        Some(position) => Some(position - safety_seconds * 1_000_000),
        None => None,
    };
    match plan_cursor(rewound, now_us, max_age_seconds * 1_000_000) {
        CursorPlan::LiveTail => (None, false),
        CursorPlan::Resume(from) => (Some(from), false),
        CursorPlan::Truncated { requested, oldest } => (Some(oldest), true),
    }
}

/// What follows the end of a connection.
#[derive(Debug, Clone, Copy, PartialEq, Eq, Structural)]
pub struct AfterConnection {
    /// Pause this long and connect again; nothing where the service stops.
    pub pause: Option<u64>,
    pub notice: Option<Notice>,
}

/// Decides what follows the end of a connection: `ok` is whether the consumer
/// ended without an error, `stopping` whether the service was asked to stop,
/// and `recycled` whether the connection was given up because its time was
/// over. A recycle is no fault and raises no notice.
pub fn after_connection(ok: bool, stopping: bool, recycled: bool) -> (r: AfterConnection)
    ensures
        r.pause == if stopping {
            None
        } else {
            Some(RECONNECT_DELAY_SECS)
        },
        r.notice == if !ok {
            Some(Notice::ConnectionError)
        } else if stopping || recycled {
            None
        } else {
            Some(Notice::Disconnected)
        },
{
    let notice = if !ok {
        Some(Notice::ConnectionError)
    } else if stopping || recycled {
        None
    } else {
        Some(Notice::Disconnected)
    };
    let pause = if stopping {
        None
    } else {
        Some(RECONNECT_DELAY_SECS)
    };
    AfterConnection { pause, notice }
}

} // verus!
