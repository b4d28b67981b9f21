//! The archive requests: what is asked, how an answer is judged, and how a
//! segment download is resumed from the spool.
use vstd::prelude::*;
use vstd::string::StringExecFns;

use crate::encoding::power_of_two;
use crate::json::{
    read_text, read_unsigned, ref_view, shaped, slot, text_of, unsigned_of, Json, JsonView,
};
use crate::text::{
    decimal, parse_u64, text_views, trim, trimmed, u64_to_string, unsigned_number,
};
use crate::wire::{read_record, record_document, Record};

verus! {

/// Filters and bounds of one snapshot plan request. `after_seq` is exclusive,
/// `before_seq` inclusive.
#[derive(Debug, Clone)]
pub struct SnapshotRequest {
    pub dids: Vec<String>,
    pub collections: Vec<String>,
    pub after_seq: u64,
    pub before_seq: Option<u64>,
}

/// One page of a snapshot plan.
#[derive(Debug, Clone)]
pub struct SnapshotPlan {
    /// The highest sealed seq this page accounts for. Planning is complete
    /// when it reaches `sealed_tip_seq`.
    pub planned_through_seq: u64,
    pub sealed_tip_seq: u64,
    pub segments: Vec<PlanSegment>,
    pub stats: PlanStats,
}

/// One unit of a plan.
#[derive(Debug, Clone)]
pub struct PlanSegment {
    pub name: String,
    pub index: u64,
    pub checksum: String,
    pub min_seq: u64,
    pub max_seq: u64,
    /// `segment` (download the whole file) or `blocks` (download the listed
    /// ranges).
    pub mode: String,
    pub blocks: Vec<BlockRange>,
}

/// An inclusive range of block indices.
#[derive(Debug, Clone, Copy, PartialEq, Eq, Structural)]
pub struct BlockRange {
    pub first: u64,
    pub last: u64,
}

/// What the planner looked at.
#[derive(Debug, Clone, Copy, PartialEq, Eq, Structural)]
pub struct PlanStats {
    pub segments_examined: u64,
    pub segments_matched: u64,
    pub blocks_matched: u64,
    pub entries: u64,
}

/// Why an archive request failed.
#[derive(Debug, PartialEq)]
pub enum ArchiveError {
    /// The key is missing, malformed or revoked. Retrying cannot help.
    Unauthorized(String),
    /// Byte quota exhausted; retry after the given seconds.
    RateLimited { retry_after: Option<u64> },
    Http { status: u16, body: String },
    /// The request did not complete.
    Other(String),
}

// ---- what the values hold ----

#[verifier::ext_equal]
pub struct SnapshotRequestView {
    pub dids: Seq<Seq<char>>,
    pub collections: Seq<Seq<char>>,
    pub after_seq: u64,
    pub before_seq: Option<u64>,
}

#[verifier::ext_equal]
pub struct SnapshotPlanView {
    pub planned_through_seq: u64,
    pub sealed_tip_seq: u64,
    pub segments: Seq<PlanSegmentView>,
    pub stats: PlanStats,
}

#[verifier::ext_equal]
pub struct PlanSegmentView {
    pub name: Seq<char>,
    pub index: u64,
    pub checksum: Seq<char>,
    pub min_seq: u64,
    pub max_seq: u64,
    pub mode: Seq<char>,
    pub blocks: Seq<BlockRange>,
}

#[verifier::ext_equal]
pub enum ArchiveErrorView {
    Unauthorized(Seq<char>),
    RateLimited { retry_after: Option<u64> },
    Http { status: u16, body: Seq<char> },
    Other(Seq<char>),
}

impl View for SnapshotRequest {
    type V = SnapshotRequestView;

    open spec fn view(&self) -> SnapshotRequestView {
        SnapshotRequestView {
            dids: text_views(self.dids@),
            collections: text_views(self.collections@),
            after_seq: self.after_seq,
            before_seq: self.before_seq,
        }
    }
}

impl View for PlanSegment {
    type V = PlanSegmentView;

    open spec fn view(&self) -> PlanSegmentView {
        PlanSegmentView {
            name: self.name@,
            index: self.index,
            checksum: self.checksum@,
            min_seq: self.min_seq,
            max_seq: self.max_seq,
            mode: self.mode@,
            blocks: self.blocks@,
        }
    }
}

/// What the units of a plan hold.
pub open spec fn unit_views(units: Seq<PlanSegment>) -> Seq<PlanSegmentView> {
    Seq::new(units.len(), |i: int| units[i]@)
}

impl View for SnapshotPlan {
    type V = SnapshotPlanView;

    open spec fn view(&self) -> SnapshotPlanView {
        SnapshotPlanView {
            planned_through_seq: self.planned_through_seq,
            sealed_tip_seq: self.sealed_tip_seq,
            segments: unit_views(self.segments@),
            stats: self.stats,
        }
    }
}

impl View for ArchiveError {
    type V = ArchiveErrorView;

    open spec fn view(&self) -> ArchiveErrorView {
        match self {
            ArchiveError::Unauthorized(body) => ArchiveErrorView::Unauthorized(body@),
            ArchiveError::RateLimited { retry_after } => ArchiveErrorView::RateLimited {
                retry_after: *retry_after,
            },
            ArchiveError::Http { status, body } => ArchiveErrorView::Http {
                status: *status,
                body: body@,
            },
            ArchiveError::Other(message) => ArchiveErrorView::Other(message@),
        }
    }
}

// ---- delays and headers ----

/// The seconds to wait before an archive call is tried again.
pub open spec fn delay_after(attempt: u32) -> nat {
    if attempt >= 6 {
        60
    } else {
        power_of_two(attempt as nat)
    }
}

/// The seconds to wait before a failed archive call is tried again: one,
/// doubling to a minute.
pub fn next_delay(attempt: u32) -> (r: u64)
    ensures
        r == delay_after(attempt),
{
    proof {
        reveal_with_fuel(power_of_two, 6);
    }
    if attempt == 0 {
        1
    } else if attempt == 1 {
        2
    } else if attempt == 2 {
        4
    } else if attempt == 3 {
        8
    } else if attempt == 4 {
        16
    } else if attempt == 5 {
        32
    } else {
        60
    }
}

/// Waits never shrink from one attempt to the next, and lie between a second
/// and a minute.
pub proof fn law_delays_grow(earlier: u32, later: u32)
    requires
        earlier <= later,
    ensures
        1 <= delay_after(earlier) <= delay_after(later) <= 60,
{
    reveal_with_fuel(power_of_two, 6);
}

/// The range of a file that is still missing behind the first `len` bytes.
pub open spec fn range_text(len: u64) -> Option<Seq<char>> {
    if len > 0 {
        Some("bytes="@ + decimal(len as nat) + "-"@)
    } else {
        None
    }
}

/// The Range header for resuming a download that already holds `len` bytes.
pub fn range_from(len: u64) -> (r: Option<String>)
    ensures
        crate::json::string_view(r) == range_text(len),
{
    if len > 0 {
        let mut text = "bytes=".to_owned();
        let digits = u64_to_string(len);
        text.append(digits.as_str());
        text.append("-");
        Some(text)
    } else {
        None
    }
}

/// The address of an archive method.
pub fn method_url(hostname: &str, method: &str) -> (r: String)
    ensures
        r@ == "https://"@ + hostname@ + "/xrpc/network.bsky.jetstream."@ + method@,
{
    let mut url = "https://".to_owned();
    url.append(hostname);
    url.append("/xrpc/network.bsky.jetstream.");
    url.append(method);
    url
}

/// The error that an answer stands for; nothing where it is a success.
pub open spec fn status_error(
    status: u16,
    retry_after: Option<Seq<char>>,
    body: Seq<char>,
) -> Option<ArchiveErrorView> {
    if 200 <= status < 300 {
        None
    } else if status == 401 {
        Some(ArchiveErrorView::Unauthorized(body))
    } else if status == 429 {
        Some(
            ArchiveErrorView::RateLimited {
                retry_after: match retry_after {
                    Some(text) => unsigned_number(text),
                    None => None,
                },
            },
        )
    } else {
        Some(ArchiveErrorView::Http { status, body })
    }
}

/// Maps an answer that is no success onto the error that the replay acts on.
/// `retry_after` is the text of the header of that name.
pub fn check(status: u16, retry_after: Option<&str>, body: String) -> (r: Result<(), ArchiveError>)
    ensures
        match status_error(status, crate::json::str_view(retry_after), body@) {
            None => r is Ok,
            Some(e) => r matches Err(got) && got@ == e,
        },
{
    if 200 <= status && status < 300 {
        return Ok(());
    }
    if status == 401 {
        Err(ArchiveError::Unauthorized(body))
    } else if status == 429 {
        let retry_after = match retry_after {
            Some(text) => parse_u64(text),
            None => None,
        };
        Err(ArchiveError::RateLimited { retry_after })
    } else {
        Err(ArchiveError::Http { status, body })
    }
}

// ---- the segment spool ----

/// How a segment download begins.
#[derive(Debug, PartialEq)]
pub enum SegmentStart {
    /// The whole file lies in the spool already.
    Spooled,
    /// Ask for the file, or for what is missing of it.
    Request { range: Option<String>, if_range: Option<String> },
}

/// What an answer to a segment request means for the spool.
#[derive(Debug, Clone, Copy, PartialEq, Eq, Structural)]
pub enum SegmentAnswer {
    /// The partial file was complete: nothing is left to fetch.
    Complete,
    /// The body is to be written: behind the partial file, or in its place.
    Download { resumed: bool },
}

/// The name of the partial file of a segment.
pub fn part_name(name: &str) -> (r: String)
    ensures
        r@ == name@ + ".part"@,
{
    let mut text = name.to_owned();
    text.append(".part");
    text
}

/// The name of the file that keeps the entity tag of a partial segment.
pub fn etag_name(name: &str) -> (r: String)
    ensures
        r@ == name@ + ".etag"@,
{
    let mut text = name.to_owned();
    text.append(".etag");
    text
}

/// Decides how to fetch a segment, from what the spool holds: whether the
/// finished file is there, the length of the partial one, and the entity tag
/// kept with it. The tag only guards a resumed request: a file that changed
/// comes back whole.
pub fn start_segment(done: bool, existing: u64, etag: Option<&str>) -> (r: SegmentStart)
    ensures
        done ==> r == SegmentStart::Spooled,
        !done ==> {
            &&& r matches SegmentStart::Request { range, if_range }
            &&& crate::json::string_view(range) == range_text(existing)
            &&& crate::json::string_view(if_range) == match etag {
                Some(text) => if existing > 0 {
                    Some(trimmed(text@))
                } else {
                    None
                },
                None => None,
            }
        },
{
    if done {
        return SegmentStart::Spooled;
    }
    let range = range_from(existing);
    let if_range = match etag {
        Some(text) => if existing > 0 {
            Some(trim(text))
        } else {
            None
        },
        None => None,
    };
    SegmentStart::Request { range, if_range }
}

/// Whether an answer says that the partial file was complete.
pub open spec fn spool_complete(existing: u64, status: u16) -> bool {
    existing > 0 && status == 416
}

/// Judges the answer to a segment request that was made with `existing` bytes
/// in the spool.
pub fn answer_segment(
    existing: u64,
    status: u16,
    retry_after: Option<&str>,
    body: String,
) -> (r: Result<SegmentAnswer, ArchiveError>)
    ensures
        spool_complete(existing, status) ==> r == Ok::<SegmentAnswer, ArchiveError>(
            SegmentAnswer::Complete,
        ),
        !spool_complete(existing, status) ==> match status_error(
            status,
            crate::json::str_view(retry_after),
            body@,
        ) {
            None => r == Ok::<SegmentAnswer, ArchiveError>(
                SegmentAnswer::Download { resumed: status == 206 },
            ),
            Some(e) => r matches Err(got) && got@ == e,
        },
{
    if existing > 0 && status == 416 {
        return Ok(SegmentAnswer::Complete);
    }
    match check(status, retry_after, body) {
        Err(e) => Err(e),
        Ok(()) => Ok(SegmentAnswer::Download { resumed: status == 206 }),
    }
}

/// What the partial file holds after an answer was written to it.
pub open spec fn spool_after(part: Seq<u8>, answer: SegmentAnswer, body: Seq<u8>) -> Seq<u8> {
    match answer {
        SegmentAnswer::Complete => part,
        SegmentAnswer::Download { resumed } => if resumed {
            part + body
        } else {
            body
        },
    }
}

/// A resumed download ends with the whole file: whether the server sends the
/// missing suffix, or the file from its start, or says that nothing is
/// missing.
pub proof fn law_resumed_download_is_whole(file: Seq<u8>, existing: int)
    requires
        0 <= existing <= file.len(),
    ensures
        spool_after(
            file.take(existing),
            SegmentAnswer::Download { resumed: true },
            file.skip(existing),
        ) == file,
        spool_after(
            file.take(existing),
            SegmentAnswer::Download { resumed: false },
            file,
        ) == file,
        existing == file.len() ==> spool_after(
            file.take(existing),
            SegmentAnswer::Complete,
            Seq::empty(),
        ) == file,
{
    assert(file.take(existing) + file.skip(existing) =~= file);
    assert(file.take(file.len() as int) =~= file);
}

// ---- the request body ----

/// Texts as a JSON array.
pub open spec fn text_array(texts: Seq<Seq<char>>) -> JsonView {
    JsonView::Array(Seq::new(texts.len(), |i: int| JsonView::String(texts[i])))
}

/// The body of a snapshot plan request: filters that are empty and a bound
/// that is not set are left out.
pub open spec fn request_body(request: SnapshotRequestView) -> JsonView {
    let dids = if request.dids.len() > 0 {
        seq![("dids"@, text_array(request.dids))]
    } else {
        Seq::empty()
    };
    let collections = if request.collections.len() > 0 {
        seq![("collections"@, text_array(request.collections))]
    } else {
        Seq::empty()
    };
    let before = match request.before_seq {
        Some(seq) => seq![("beforeSeq"@, JsonView::Unsigned(seq))],
        None => Seq::empty(),
    };
    JsonView::Object(
        dids + collections + seq![("afterSeq"@, JsonView::Unsigned(request.after_seq))] + before,
    )
}

fn text_array_of(texts: &Vec<String>) -> (r: Json)
    ensures
        r@ == text_array(text_views(texts@)),
{
    let mut items: Vec<Json> = Vec::new();
    let mut i: usize = 0;
    while i < texts.len()
        invariant
            i <= texts@.len(),
            items@.len() == i,
            forall|j: int| 0 <= j < i ==> (#[trigger] items@[j])@ == JsonView::String(texts@[j]@),
        decreases texts@.len() - i,
    {
        let item = Json::String(texts[i].clone());
        assert(item@ == JsonView::String(texts@[i as int]@));
        items.push(item);
        i = i + 1;
    }
    let r = Json::Array(items);
    proof {
        let got = r@->Array_0;
        assert forall|j: int| 0 <= j < got.len() implies got[j] == JsonView::String(
            text_views(texts@)[j],
        ) by {
            assert(got[j] == items@[j]@);
        }
        assert(got =~= text_array(text_views(texts@))->Array_0);
    }
    r
}

/// What the members of an object hold.
spec fn field_views(fields: Seq<(String, Json)>) -> Seq<(Seq<char>, JsonView)> {
    Seq::new(fields.len(), |i: int| (fields[i].0@, fields[i].1@))
}

fn push_field(fields: &mut Vec<(String, Json)>, name: &str, value: Json)
    ensures
        field_views(final(fields)@) == field_views(old(fields)@).push((name@, value@)),
{
    fields.push((name.to_owned(), value));
    assert(field_views(fields@) =~= field_views(old(fields)@).push((name@, value@)));
}

/// The body of a snapshot plan request.
pub fn request_document(request: &SnapshotRequest) -> (r: Json)
    ensures
        r@ == request_body(request@),
{
    let mut fields: Vec<(String, Json)> = Vec::new();
    assert(field_views(fields@) =~= Seq::<(Seq<char>, JsonView)>::empty());
    if request.dids.len() > 0 {
        push_field(&mut fields, "dids", text_array_of(&request.dids));
    }
    if request.collections.len() > 0 {
        push_field(&mut fields, "collections", text_array_of(&request.collections));
    }
    let after = Json::Unsigned(request.after_seq);
    assert(after@ == JsonView::Unsigned(request.after_seq));
    push_field(&mut fields, "afterSeq", after);
    if let Some(seq) = request.before_seq {
        let before = Json::Unsigned(seq);
        assert(before@ == JsonView::Unsigned(seq));
        push_field(&mut fields, "beforeSeq", before);
    }
    let ghost views = field_views(fields@);
    assert(views =~= request_body(request@)->Object_0);
    let r = Json::Object(fields);
    assert(r@->Object_0 =~= views);
    r
}

// ---- the plan document ----

/// The block range that a value spells.
pub open spec fn range_in(json: JsonView) -> Option<BlockRange> {
    match (unsigned_of(slot(json, 0, "first"@)), unsigned_of(slot(json, 1, "last"@))) {
        (Some(first), Some(last)) => if shaped(json, 2, 2) {
            Some(BlockRange { first, last })
        } else {
            None
        },
        _ => None,
    }
}

/// The block ranges that a list of values spells.
pub open spec fn ranges_in(items: Seq<JsonView>) -> Option<Seq<BlockRange>> {
    if forall|i: int| 0 <= i < items.len() ==> range_in(#[trigger] items[i]) is Some {
        Some(Seq::new(items.len(), |i: int| range_in(items[i])->0))
    } else {
        None
    }
}

/// The list of block ranges of a unit; it may be left out.
pub open spec fn blocks_in(json: Option<JsonView>) -> Option<Seq<BlockRange>> {
    match json {
        None => Some(Seq::empty()),
        Some(JsonView::Array(items)) => ranges_in(items),
        Some(_) => None,
    }
}

/// The unit that a value spells.
pub open spec fn unit_in(json: JsonView) -> Option<PlanSegmentView> {
    match (
        text_of(slot(json, 0, "name"@)),
        unsigned_of(slot(json, 1, "index"@)),
        text_of(slot(json, 2, "checksum"@)),
        unsigned_of(slot(json, 3, "minSeq"@)),
        unsigned_of(slot(json, 4, "maxSeq"@)),
        text_of(slot(json, 5, "mode"@)),
        blocks_in(slot(json, 6, "blocks"@)),
    ) {
        (
            Some(name),
            Some(index),
            Some(checksum),
            Some(min_seq),
            Some(max_seq),
            Some(mode),
            Some(blocks),
        ) => if shaped(json, 6, 7) {
            Some(PlanSegmentView { name, index, checksum, min_seq, max_seq, mode, blocks })
        } else {
            None
        },
        _ => None,
    }
}

/// The units that a list of values spells.
pub open spec fn units_in(items: Seq<JsonView>) -> Option<Seq<PlanSegmentView>> {
    if forall|i: int| 0 <= i < items.len() ==> unit_in(#[trigger] items[i]) is Some {
        Some(Seq::new(items.len(), |i: int| unit_in(items[i])->0))
    } else {
        None
    }
}

/// The statistics that a value spells.
pub open spec fn stats_in(json: JsonView) -> Option<PlanStats> {
    match (
        unsigned_of(slot(json, 0, "segmentsExamined"@)),
        unsigned_of(slot(json, 1, "segmentsMatched"@)),
        unsigned_of(slot(json, 2, "blocksMatched"@)),
        unsigned_of(slot(json, 3, "entries"@)),
    ) {
        (
            Some(segments_examined),
            Some(segments_matched),
            Some(blocks_matched),
            Some(entries),
        ) => if shaped(json, 4, 4) {
            Some(PlanStats { segments_examined, segments_matched, blocks_matched, entries })
        } else {
            None
        },
        _ => None,
    }
}

/// The page of a plan that a document is; nothing where a member is missing
/// or misshapen.
pub open spec fn plan_in(json: JsonView) -> Option<SnapshotPlanView> {
    match (
        unsigned_of(slot(json, 0, "plannedThroughSeq"@)),
        unsigned_of(slot(json, 1, "sealedTipSeq"@)),
        slot(json, 2, "segments"@),
        slot(json, 3, "stats"@),
    ) {
        (
            Some(planned_through_seq),
            Some(sealed_tip_seq),
            Some(JsonView::Array(items)),
            Some(stats),
        ) => match (units_in(items), stats_in(stats)) {
            (Some(segments), Some(stats)) => if shaped(json, 4, 4) {
                Some(SnapshotPlanView { planned_through_seq, sealed_tip_seq, segments, stats })
            } else {
                None
            },
            _ => None,
        },
        _ => None,
    }
}

fn read_range(json: &Json) -> (r: Option<BlockRange>)
    ensures
        r == range_in(json@),
{
    if !json.shaped(2, 2) {
        return None;
    }
    match (read_unsigned(json.slot(0, "first")), read_unsigned(json.slot(1, "last"))) {
        (Some(first), Some(last)) => Some(BlockRange { first, last }),
        _ => None,
    }
}

/// What the items of a JSON array hold.
spec fn item_views(items: Seq<Json>) -> Seq<JsonView> {
    Seq::new(items.len(), |i: int| items[i]@)
}

fn read_blocks(json: Option<&Json>) -> (r: Option<Vec<BlockRange>>)
    ensures
        match blocks_in(ref_view(json)) {
            Some(ranges) => r matches Some(got) && got@ == ranges,
            None => r is None,
        },
{
    match json {
        None => {
            let none: Vec<BlockRange> = Vec::new();
            assert(none@ =~= Seq::<BlockRange>::empty());
            Some(none)
        },
        Some(Json::Array(items)) => {
            let ghost all = item_views(items@);
            assert(json->0@->Array_0 =~= all);
            let mut ranges: Vec<BlockRange> = Vec::new();
            let mut i: usize = 0;
            while i < items.len()
                invariant
                    i <= items@.len(),
                    all == item_views(items@),
                    ref_view(json) == Some(JsonView::Array(all)),
                    ranges@.len() == i,
                    forall|j: int|
                        0 <= j < i ==> range_in(#[trigger] all[j]) == Some(ranges@[j]),
                decreases items@.len() - i,
            {
                assert(all[i as int] == items@[i as int]@);
                match read_range(&items[i]) {
                    None => {
                        return None;
                    },
                    Some(range) => {
                        ranges.push(range);
                    },
                }
                i = i + 1;
            }
            assert(ranges@ =~= ranges_in(all)->0);
            Some(ranges)
        },
        Some(_) => None,
    }
}

fn read_unit(json: &Json) -> (r: Option<PlanSegment>)
    ensures
        match unit_in(json@) {
            Some(unit) => r matches Some(got) && got@ == unit,
            None => r is None,
        },
{
    if !json.shaped(6, 7) {
        return None;
    }
    match (
        read_text(json.slot(0, "name")),
        read_unsigned(json.slot(1, "index")),
        read_text(json.slot(2, "checksum")),
        read_unsigned(json.slot(3, "minSeq")),
        read_unsigned(json.slot(4, "maxSeq")),
        read_text(json.slot(5, "mode")),
        read_blocks(json.slot(6, "blocks")),
    ) {
        (
            Some(name),
            Some(index),
            Some(checksum),
            Some(min_seq),
            Some(max_seq),
            Some(mode),
            Some(blocks),
        ) => Some(PlanSegment { name, index, checksum, min_seq, max_seq, mode, blocks }),
        _ => None,
    }
}

fn read_units(items: &Vec<Json>) -> (r: Option<Vec<PlanSegment>>)
    ensures
        match units_in(item_views(items@)) {
            Some(units) => r matches Some(got) && unit_views(got@) == units,
            None => r is None,
        },
{
    let ghost all = item_views(items@);
    let mut units: Vec<PlanSegment> = Vec::new();
    let mut i: usize = 0;
    while i < items.len()
        invariant
            i <= items@.len(),
            all == item_views(items@),
            units@.len() == i,
            forall|j: int| 0 <= j < i ==> unit_in(#[trigger] all[j]) == Some(units@[j]@),
        decreases items@.len() - i,
    {
        assert(all[i as int] == items@[i as int]@);
        match read_unit(&items[i]) {
            None => {
                return None;
            },
            Some(unit) => {
                units.push(unit);
            },
        }
        i = i + 1;
    }
    assert(unit_views(units@) =~= units_in(all)->0);
    Some(units)
}

fn read_stats(json: &Json) -> (r: Option<PlanStats>)
    ensures
        r == stats_in(json@),
{
    if !json.shaped(4, 4) {
        return None;
    }
    match (
        read_unsigned(json.slot(0, "segmentsExamined")),
        read_unsigned(json.slot(1, "segmentsMatched")),
        read_unsigned(json.slot(2, "blocksMatched")),
        read_unsigned(json.slot(3, "entries")),
    ) {
        (
            Some(segments_examined),
            Some(segments_matched),
            Some(blocks_matched),
            Some(entries),
        ) => Some(PlanStats { segments_examined, segments_matched, blocks_matched, entries }),
        _ => None,
    }
}

/// Whether a page that was read is the one meant.
pub open spec fn plan_matches(r: Option<SnapshotPlan>, want: Option<SnapshotPlanView>) -> bool {
    match want {
        Some(plan) => r matches Some(got) && got@ == plan,
        None => r is None,
    }
}

/// Reads a page of a snapshot plan from its document.
pub fn read_plan(json: &Json) -> (r: Option<SnapshotPlan>)
    ensures
        plan_matches(r, plan_in(json@)),
{
    if !json.shaped(4, 4) {
        return None;
    }
    let items = match json.slot(2, "segments") {
        Some(Json::Array(items)) => items,
        _ => {
            return None;
        },
    };
    let stats = match json.slot(3, "stats") {
        Some(stats) => stats,
        None => {
            return None;
        },
    };
    proof {
        let segments = slot(json@, 2, "segments"@)->0;
        assert(segments->Array_0 =~= item_views(items@));
    }
    match (
        read_unsigned(json.slot(0, "plannedThroughSeq")),
        read_unsigned(json.slot(1, "sealedTipSeq")),
        read_units(items),
        read_stats(stats),
    ) {
        (Some(planned_through_seq), Some(sealed_tip_seq), Some(segments), Some(stats)) => Some(
            SnapshotPlan { planned_through_seq, sealed_tip_seq, segments, stats },
        ),
        _ => None,
    }
}

/// Decodes the body of an answer to a snapshot plan request.
pub fn decode_plan(text: &str) -> (r: Option<SnapshotPlan>)
    ensures
        plan_matches(
            r,
            match record_document(text@, Record::Plan) {
                Some(document) => plan_in(document),
                None => None,
            },
        ),
{
    match read_record(text, Record::Plan) {
        Some(document) => read_plan(&document),
        None => None,
    }
}

} // verus!
