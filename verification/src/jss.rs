//! Sealed Jetstream segments (`.jss`) and their block frames.
//!
//! A segment is a fixed header of 256 bytes, block frames with an 8-byte
//! length in front of each, and a footer of indexes that a sequential walk
//! never reads. A block frame decompresses to a columnar body: an event
//! count, the fixed-width columns, then the variable-width columns.
use vstd::prelude::*;
use vstd::slice::{slice_subrange, slice_to_vec};
use vstd::utf8::{decode_utf8, encode_utf8, valid_utf8};

use crate::bytes::{
    byte_capacity, le_at, le_bytes, le_value, lemma_byte_capacity, lemma_le_bytes_len,
    lemma_le_bytes_of_value, lemma_le_round_trip, lemma_le_value_bounded, signed_value, to_signed,
    unsigned_bits,
};
use crate::encoding::{cid_of_digest, record_cid, sha256};
use crate::events::{Commit, CommitView, Event, EventView, Payload, PayloadView};
use crate::ipld::{record_form, record_json};
use crate::text::{string_from_utf8, text_views};

verus! {

/// The size of the fixed header of a segment file.
pub const RESERVED_HEADER_BYTES: u64 = 256;

/// The largest event count that a block may claim.
pub const MAX_BLOCK_EVENTS: u64 = 262_144;

/// The largest uncompressed size that a block frame may declare.
pub const MAX_BLOCK_UNCOMPRESSED: u64 = 268_435_456;

/// The fixed-width bytes that one event takes in a block body.
pub const FIXED_PER_EVENT: u64 = 34;

pub const KIND_CREATE: u8 = 1;

pub const KIND_UPDATE: u8 = 2;

pub const KIND_DELETE: u8 = 3;

pub const KIND_IDENTITY: u8 = 4;

pub const KIND_ACCOUNT: u8 = 5;

pub const KIND_SYNC: u8 = 6;

/// A resync replacement row: commit-shaped, it carries the record as a
/// create does.
pub const KIND_CREATE_RESYNC: u8 = 7;

/// One row of a segment block, still in on-disk terms.
#[derive(Debug, Clone, PartialEq)]
pub struct RawEvent {
    pub seq: u64,
    pub witnessed_at: i64,
    pub indexed_at: i64,
    pub kind: u8,
    pub collection: String,
    pub did: String,
    pub rkey: String,
    pub rev: String,
    /// Raw DAG-CBOR record bytes; empty for kinds that carry none.
    pub payload: Vec<u8>,
}

/// What a row holds, as mathematical values.
#[verifier::ext_equal]
pub struct RawEventView {
    pub seq: u64,
    pub witnessed_at: i64,
    pub indexed_at: i64,
    pub kind: u8,
    pub collection: Seq<char>,
    pub did: Seq<char>,
    pub rkey: Seq<char>,
    pub rev: Seq<char>,
    pub payload: Seq<u8>,
}

impl View for RawEvent {
    type V = RawEventView;

    open spec fn view(&self) -> RawEventView {
        RawEventView {
            seq: self.seq,
            witnessed_at: self.witnessed_at,
            indexed_at: self.indexed_at,
            kind: self.kind,
            collection: self.collection@,
            did: self.did@,
            rkey: self.rkey@,
            rev: self.rev@,
            payload: self.payload@,
        }
    }
}

/// What the rows of a block hold.
pub open spec fn row_views(rows: Seq<RawEvent>) -> Seq<RawEventView> {
    Seq::new(rows.len(), |i: int| rows[i]@)
}

/// Why a block frame or a block body cannot be decoded.
#[derive(Debug, Clone, Copy, PartialEq, Eq, Structural)]
pub enum BlockError {
    /// The frame header is not that of a compressed frame.
    BadFrame,
    /// The frame does not declare its content size.
    UndeclaredSize,
    /// The frame declares more than [`MAX_BLOCK_UNCOMPRESSED`] bytes.
    TooLarge { declared: u64 },
    /// The frame does not decompress.
    Corrupt,
    /// The block claims more than [`MAX_BLOCK_EVENTS`] events.
    TooManyEvents { events: u64 },
    /// The fixed-width columns do not fit the body.
    TruncatedColumns { events: u64, left: u64 },
    /// A value runs past the end of the body.
    Truncated { wanted: u64, left: u64 },
    /// An event count of zero with bytes behind it.
    TrailingAfterEmpty,
    /// A kind outside the known ones.
    InvalidKind { kind: u8 },
    /// A text value that is not UTF-8.
    NotUtf8,
    /// Bytes behind the last column.
    TrailingBytes { left: u64 },
}


// ---- the layout of a block body ----

/// `n` little-endian numbers of `width` bytes each, the first at `at`.
pub open spec fn le_column(buf: Seq<u8>, at: int, width: int, n: int) -> Seq<nat> {
    Seq::new(n as nat, |i: int| le_value(buf.subrange(at + i * width, at + i * width + width)))
}

/// Consecutive pieces of the given lengths from `off` on, and where they
/// end; or the first piece that does not fit.
pub open spec fn pieces_at(buf: Seq<u8>, off: int, lens: Seq<nat>) -> Result<
    (Seq<Seq<u8>>, int),
    BlockError,
>
    decreases lens.len(),
{
    if lens.len() == 0 {
        Ok((Seq::<Seq<u8>>::empty(), off))
    } else {
        match pieces_at(buf, off, lens.drop_last()) {
            Err(e) => Err(e),
            Ok((pieces, end)) => if end + lens.last() > buf.len() {
                Err(
                    BlockError::Truncated {
                        wanted: lens.last() as u64,
                        left: (buf.len() - end) as u64,
                    },
                )
            } else {
                Ok((pieces.push(buf.subrange(end, end + lens.last())), end + lens.last()))
            },
        }
    }
}

/// Consecutive texts of the given encoded lengths from `off` on, and where
/// they end; or what is wrong with the first piece that is no text.
pub open spec fn texts_at(buf: Seq<u8>, off: int, lens: Seq<nat>) -> Result<
    (Seq<Seq<char>>, int),
    BlockError,
>
    decreases lens.len(),
{
    if lens.len() == 0 {
        Ok((Seq::<Seq<char>>::empty(), off))
    } else {
        match texts_at(buf, off, lens.drop_last()) {
            Err(e) => Err(e),
            Ok((texts, end)) => {
                let piece = buf.subrange(end, end + lens.last());
                if end + lens.last() > buf.len() {
                    Err(
                        BlockError::Truncated {
                            wanted: lens.last() as u64,
                            left: (buf.len() - end) as u64,
                        },
                    )
                } else if !valid_utf8(piece) {
                    Err(BlockError::NotUtf8)
                } else {
                    Ok((texts.push(decode_utf8(piece)), end + lens.last()))
                }
            },
        }
    }
}

/// Whether a kind is one of the known ones.
pub open spec fn known_kind(kind: u8) -> bool {
    KIND_CREATE <= kind <= KIND_CREATE_RESYNC
}

/// The first kind that is not a known one.
pub open spec fn first_invalid_kind(kinds: Seq<u8>) -> Option<u8>
    decreases kinds.len(),
{
    if kinds.len() == 0 {
        None
    } else if known_kind(kinds[0]) {
        first_invalid_kind(kinds.skip(1))
    } else {
        Some(kinds[0])
    }
}

/// The rows that the columns of a body of `n` events spell out.
pub open spec fn assembled_rows(
    buf: Seq<u8>,
    n: int,
    collections: Seq<Seq<char>>,
    dids: Seq<Seq<char>>,
    rkeys: Seq<Seq<char>>,
    revs: Seq<Seq<char>>,
    payloads: Seq<Seq<u8>>,
) -> Seq<RawEventView> {
    Seq::new(
        n as nat,
        |i: int|
            RawEventView {
                seq: le_column(buf, 4, 8, n)[i] as u64,
                witnessed_at: signed_value(le_column(buf, 4 + 8 * n, 8, n)[i]) as i64,
                indexed_at: signed_value(le_column(buf, 4 + 16 * n, 8, n)[i]) as i64,
                kind: buf[4 + 24 * n + i],
                collection: collections[i],
                did: dids[i],
                rkey: rkeys[i],
                rev: revs[i],
                payload: payloads[i],
            },
    )
}

/// The rows of a body whose fixed-width columns hold `n` events with known
/// kinds.
pub open spec fn rows_with_columns(buf: Seq<u8>, n: int) -> Result<
    Seq<RawEventView>,
    BlockError,
> {
    match texts_at(buf, 4 + 34 * n, le_column(buf, 4 + 25 * n, 1, n)) {
        Err(e) => Err(e),
        Ok((collections, after_collections)) => match texts_at(
            buf,
            after_collections,
            le_column(buf, 4 + 26 * n, 2, n),
        ) {
            Err(e) => Err(e),
            Ok((dids, after_dids)) => match texts_at(
                buf,
                after_dids,
                le_column(buf, 4 + 28 * n, 1, n),
            ) {
                Err(e) => Err(e),
                Ok((rkeys, after_rkeys)) => match texts_at(
                    buf,
                    after_rkeys,
                    le_column(buf, 4 + 29 * n, 1, n),
                ) {
                    Err(e) => Err(e),
                    Ok((revs, after_revs)) => match pieces_at(
                        buf,
                        after_revs,
                        le_column(buf, 4 + 30 * n, 4, n),
                    ) {
                        Err(e) => Err(e),
                        Ok((payloads, end)) => if end != buf.len() {
                            Err(BlockError::TrailingBytes { left: (buf.len() - end) as u64 })
                        } else {
                            Ok(assembled_rows(buf, n, collections, dids, rkeys, revs, payloads))
                        },
                    },
                },
            },
        },
    }
}

/// The rows that a block body holds, or what is wrong with it.
pub open spec fn block_rows(buf: Seq<u8>) -> Result<Seq<RawEventView>, BlockError> {
    let n = le_value(buf.subrange(0, 4)) as int;
    if buf.len() < 4 {
        Err(BlockError::Truncated { wanted: 4, left: buf.len() as u64 })
    } else if n > MAX_BLOCK_EVENTS {
        Err(BlockError::TooManyEvents { events: n as u64 })
    } else if buf.len() - 4 < n * FIXED_PER_EVENT {
        Err(BlockError::TruncatedColumns { events: n as u64, left: (buf.len() - 4) as u64 })
    } else if n == 0 {
        if buf.len() != 4 {
            Err(BlockError::TrailingAfterEmpty)
        } else {
            Ok(Seq::<RawEventView>::empty())
        }
    } else {
        match first_invalid_kind(buf.subrange(4 + 24 * n, 4 + 25 * n)) {
            Some(kind) => Err(BlockError::InvalidKind { kind }),
            None => rows_with_columns(buf, n),
        }
    }
}

// ---- reading a block body ----

/// The lengths that a column of numbers spells out.
pub open spec fn nats(values: Seq<u64>) -> Seq<nat> {
    Seq::new(values.len(), |i: int| values[i] as nat)
}

/// A text that cannot be read ends the reading of the whole column.
proof fn lemma_texts_err_prefix(buf: Seq<u8>, off: int, lens: Seq<nat>, upto: int)
    requires
        0 <= upto <= lens.len(),
    ensures
        texts_at(buf, off, lens.take(upto)) matches Err(e) ==> texts_at(buf, off, lens) == Err::<
            (Seq<Seq<char>>, int),
            BlockError,
        >(e),
    decreases lens.len() - upto,
{
    if upto == lens.len() {
        assert(lens.take(upto) =~= lens);
    } else {
        lemma_texts_err_prefix(buf, off, lens, upto + 1);
        assert(lens.take(upto + 1).drop_last() =~= lens.take(upto));
    }
}

/// A piece that does not fit ends the reading of the whole column.
proof fn lemma_pieces_err_prefix(buf: Seq<u8>, off: int, lens: Seq<nat>, upto: int)
    requires
        0 <= upto <= lens.len(),
    ensures
        pieces_at(buf, off, lens.take(upto)) matches Err(e) ==> pieces_at(buf, off, lens) == Err::<
            (Seq<Seq<u8>>, int),
            BlockError,
        >(e),
    decreases lens.len() - upto,
{
    if upto == lens.len() {
        assert(lens.take(upto) =~= lens);
    } else {
        lemma_pieces_err_prefix(buf, off, lens, upto + 1);
        assert(lens.take(upto + 1).drop_last() =~= lens.take(upto));
    }
}

/// A bounds-checked little-endian reader over a byte slice.
struct ByteCursor<'a> {
    buf: &'a [u8],
    off: usize,
}

impl<'a> ByteCursor<'a> {
    spec fn valid(self) -> bool {
        self.off <= self.buf@.len() <= usize::MAX
    }

    fn new(buf: &'a [u8]) -> (r: Self)
        ensures
            r.valid(),
            r.buf@ == buf@,
            r.off == 0,
    {
        let len: usize = buf.len();
        ByteCursor { buf, off: 0 }
    }

    fn remaining(&self) -> (r: usize)
        requires
            self.valid(),
        ensures
            r == self.buf@.len() - self.off,
    {
        self.buf.len() - self.off
    }

    fn bytes(&mut self, n: usize) -> (r: Result<&'a [u8], BlockError>)
        requires
            old(self).valid(),
        ensures
            final(self).valid(),
            final(self).buf@ == old(self).buf@,
            r is Ok <==> old(self).off + n <= old(self).buf@.len(),
            match r {
                Ok(piece) => {
                    &&& piece@ == old(self).buf@.subrange(old(self).off as int, old(self).off + n)
                    &&& final(self).off == old(self).off + n
                },
                Err(e) => {
                    &&& e == BlockError::Truncated {
                        wanted: n as u64,
                        left: (old(self).buf@.len() - old(self).off) as u64,
                    }
                    &&& final(self).off == old(self).off
                },
            },
    {
        let left: usize = self.remaining();
        if n > left {
            return Err(BlockError::Truncated { wanted: n as u64, left: left as u64 });
        }
        let piece = slice_subrange(self.buf, self.off, self.off + n);
        self.off = self.off + n;
        Ok(piece)
    }

    fn u32(&mut self) -> (r: Result<u32, BlockError>)
        requires
            old(self).valid(),
        ensures
            final(self).valid(),
            final(self).buf@ == old(self).buf@,
            r is Ok <==> old(self).off + 4 <= old(self).buf@.len(),
            match r {
                Ok(value) => {
                    &&& value == le_value(
                        old(self).buf@.subrange(old(self).off as int, old(self).off + 4),
                    )
                    &&& final(self).off == old(self).off + 4
                },
                Err(e) => e == (BlockError::Truncated {
                    wanted: 4,
                    left: (old(self).buf@.len() - old(self).off) as u64,
                }),
            },
    {
        let piece = self.bytes(4)?;
        proof {
            lemma_byte_capacity();
            assert(piece@.subrange(0, 4) =~= piece@);
        }
        Ok(le_at(piece, 0, 4) as u32)
    }

    /// Reads `n` little-endian numbers of `width` bytes each.
    fn column(&mut self, n: usize, width: usize) -> (r: Result<Vec<u64>, BlockError>)
        requires
            old(self).valid(),
            width <= 8,
            n * width <= usize::MAX,
        ensures
            final(self).valid(),
            final(self).buf@ == old(self).buf@,
            r is Ok <==> old(self).off + n * width <= old(self).buf@.len(),
            r matches Ok(values) ==> {
                &&& values@.len() == n
                &&& forall|i: int|
                    0 <= i < n ==> #[trigger] values@[i] == le_column(
                        old(self).buf@,
                        old(self).off as int,
                        width as int,
                        n as int,
                    )[i] && values@[i] < byte_capacity(width as nat)
                &&& final(self).off == old(self).off + n * width
            },
    {
        let ghost start = self.off as int;
        let piece = self.bytes(n * width)?;
        let mut values: Vec<u64> = Vec::new();
        let mut i: usize = 0;
        while i < n
            invariant
                i <= n,
                width <= 8,
                n * width <= usize::MAX,
                piece@.len() == n * width,
                0 <= start,
                start + n * width <= old(self).buf@.len(),
                piece@ == old(self).buf@.subrange(start, start + n * width),
                values@.len() == i,
                forall|j: int|
                    0 <= j < i ==> #[trigger] values@[j] == le_column(
                        old(self).buf@,
                        start,
                        width as int,
                        n as int,
                    )[j] && values@[j] < byte_capacity(width as nat),
            decreases n - i,
        {
            assert(i * width + width <= n * width && i * width >= 0) by (nonlinear_arith)
                requires
                    i < n,
            ;
            let value: u64 = le_at(piece, i * width, width);
            assert(piece@.subrange(i * width, i * width + width) =~= old(self).buf@.subrange(
                start + i * width,
                start + i * width + width,
            ));
            values.push(value);
            i = i + 1;
        }
        Ok(values)
    }

    /// Reads one text for each length.
    fn string_column(&mut self, lens: &Vec<u64>) -> (r: Result<Vec<String>, BlockError>)
        requires
            old(self).valid(),
            forall|i: int| 0 <= i < lens@.len() ==> lens@[i] <= u32::MAX,
        ensures
            final(self).valid(),
            final(self).buf@ == old(self).buf@,
            match texts_at(old(self).buf@, old(self).off as int, nats(lens@)) {
                Ok((texts, end)) => {
                    &&& r matches Ok(values)
                    &&& text_views(values@) == texts
                    &&& texts.len() == lens@.len()
                    &&& final(self).off == end
                },
                Err(e) => r == Err::<Vec<String>, BlockError>(e),
            },
    {
        let mut values: Vec<String> = Vec::new();
        let ghost all = nats(lens@);
        let mut i: usize = 0;
        assert(all.take(0) =~= Seq::<nat>::empty());
        assert(text_views(values@) =~= Seq::<Seq<char>>::empty());
        while i < lens.len()
            invariant
                i <= lens@.len(),
                self.valid(),
                self.buf@ == old(self).buf@,
                forall|j: int| 0 <= j < lens@.len() ==> lens@[j] <= u32::MAX,
                all == nats(lens@),
                texts_at(self.buf@, old(self).off as int, all.take(i as int)) == Ok::<
                    (Seq<Seq<char>>, int),
                    BlockError,
                >((text_views(values@), self.off as int)),
                values@.len() == i,
            decreases lens@.len() - i,
        {
            let len: usize = lens[i] as usize;
            let ghost before = all.take(i as int);
            let ghost upto = all.take(i + 1);
            let ghost off = self.off as int;
            proof {
                assert(upto.drop_last() =~= before);
                assert(upto.last() == len as nat);
                lemma_texts_err_prefix(self.buf@, old(self).off as int, all, i + 1);
            }
            let piece = self.bytes(len)?;
            match string_from_utf8(slice_to_vec(piece)) {
                None => {
                    return Err(BlockError::NotUtf8);
                },
                Some(text) => {
                    let ghost had = values@;
                    values.push(text);
                    assert(text_views(values@) =~= text_views(had).push(text@));
                },
            }
            i = i + 1;
        }
        assert(all.take(i as int) =~= all);
        Ok(values)
    }

    /// Reads one byte string for each length.
    fn bytes_column(&mut self, lens: &Vec<u64>) -> (r: Result<Vec<Vec<u8>>, BlockError>)
        requires
            old(self).valid(),
            forall|i: int| 0 <= i < lens@.len() ==> lens@[i] <= u32::MAX,
        ensures
            final(self).valid(),
            final(self).buf@ == old(self).buf@,
            match pieces_at(old(self).buf@, old(self).off as int, nats(lens@)) {
                Ok((pieces, end)) => {
                    &&& r matches Ok(values)
                    &&& byte_views(values@) == pieces
                    &&& pieces.len() == lens@.len()
                    &&& final(self).off == end
                },
                Err(e) => r == Err::<Vec<Vec<u8>>, BlockError>(e),
            },
    {
        let mut values: Vec<Vec<u8>> = Vec::new();
        let ghost all = nats(lens@);
        let mut i: usize = 0;
        assert(all.take(0) =~= Seq::<nat>::empty());
        assert(byte_views(values@) =~= Seq::<Seq<u8>>::empty());
        while i < lens.len()
            invariant
                i <= lens@.len(),
                self.valid(),
                self.buf@ == old(self).buf@,
                forall|j: int| 0 <= j < lens@.len() ==> lens@[j] <= u32::MAX,
                all == nats(lens@),
                pieces_at(self.buf@, old(self).off as int, all.take(i as int)) == Ok::<
                    (Seq<Seq<u8>>, int),
                    BlockError,
                >((byte_views(values@), self.off as int)),
                values@.len() == i,
            decreases lens@.len() - i,
        {
            let len: usize = lens[i] as usize;
            proof {
                let upto = all.take(i + 1);
                assert(upto.drop_last() =~= all.take(i as int));
                assert(upto.last() == len as nat);
                lemma_pieces_err_prefix(self.buf@, old(self).off as int, all, i + 1);
            }
            let piece = self.bytes(len)?;
            let ghost had = values@;
            let value = slice_to_vec(piece);
            values.push(value);
            assert(byte_views(values@) =~= byte_views(had).push(value@));
            i = i + 1;
        }
        assert(all.take(i as int) =~= all);
        Ok(values)
    }
}

/// What each byte string of a list holds.
pub open spec fn byte_views(values: Seq<Vec<u8>>) -> Seq<Seq<u8>> {
    Seq::new(values.len(), |i: int| values[i]@)
}

/// The first kind that is not a known one.
fn invalid_kind(kinds: &[u8]) -> (r: Option<u8>)
    ensures
        r == first_invalid_kind(kinds@),
{
    let mut i: usize = 0;
    assert(kinds@.skip(0) =~= kinds@);
    while i < kinds.len()
        invariant
            i <= kinds@.len(),
            first_invalid_kind(kinds@) == first_invalid_kind(kinds@.skip(i as int)),
        decreases kinds@.len() - i,
    {
        let kind: u8 = kinds[i];
        if kind < KIND_CREATE || kind > KIND_CREATE_RESYNC {
            return Some(kind);
        }
        assert(kinds@.skip(i as int).skip(1) =~= kinds@.skip(i + 1));
        i = i + 1;
    }
    None
}

/// Decodes the uncompressed columnar body of a block.
pub fn decode_block_body(buf: &[u8]) -> (r: Result<Vec<RawEvent>, BlockError>)
    ensures
        match block_rows(buf@) {
            Ok(rows) => r matches Ok(events) && row_views(events@) == rows,
            Err(e) => r == Err::<Vec<RawEvent>, BlockError>(e),
        },
{
    let mut cursor = ByteCursor::new(buf);
    let claimed: u64 = cursor.u32()? as u64;
    if claimed > MAX_BLOCK_EVENTS {
        return Err(BlockError::TooManyEvents { events: claimed });
    }
    let left: usize = cursor.remaining();
    if (left as u64) < claimed * FIXED_PER_EVENT {
        return Err(BlockError::TruncatedColumns { events: claimed, left: left as u64 });
    }
    let n: usize = claimed as usize;
    if n == 0 {
        if left != 0 {
            return Err(BlockError::TrailingAfterEmpty);
        }
        let none: Vec<RawEvent> = Vec::new();
        assert(row_views(none@) =~= Seq::<RawEventView>::empty());
        return Ok(none);
    }
    proof {
        lemma_byte_capacity();
    }
    let seqs: Vec<u64> = cursor.column(n, 8)?;
    let witnessed: Vec<u64> = cursor.column(n, 8)?;
    let indexed: Vec<u64> = cursor.column(n, 8)?;
    let kinds = cursor.bytes(n)?;
    if let Some(kind) = invalid_kind(kinds) {
        return Err(BlockError::InvalidKind { kind });
    }
    let collection_lens: Vec<u64> = cursor.column(n, 1)?;
    let did_lens: Vec<u64> = cursor.column(n, 2)?;
    let rkey_lens: Vec<u64> = cursor.column(n, 1)?;
    let rev_lens: Vec<u64> = cursor.column(n, 1)?;
    let payload_lens: Vec<u64> = cursor.column(n, 4)?;
    proof {
        let m = n as int;
        assert(nats(collection_lens@) =~= le_column(buf@, 4 + 25 * m, 1, m));
        assert(nats(did_lens@) =~= le_column(buf@, 4 + 26 * m, 2, m));
        assert(nats(rkey_lens@) =~= le_column(buf@, 4 + 28 * m, 1, m));
        assert(nats(rev_lens@) =~= le_column(buf@, 4 + 29 * m, 1, m));
        assert(nats(payload_lens@) =~= le_column(buf@, 4 + 30 * m, 4, m));
    }
    let collections: Vec<String> = cursor.string_column(&collection_lens)?;
    let dids: Vec<String> = cursor.string_column(&did_lens)?;
    let rkeys: Vec<String> = cursor.string_column(&rkey_lens)?;
    let revs: Vec<String> = cursor.string_column(&rev_lens)?;
    let payloads: Vec<Vec<u8>> = cursor.bytes_column(&payload_lens)?;
    let trailing: usize = cursor.remaining();
    if trailing != 0 {
        return Err(BlockError::TrailingBytes { left: trailing as u64 });
    }
    let ghost rows = assembled_rows(
        buf@,
        n as int,
        text_views(collections@),
        text_views(dids@),
        text_views(rkeys@),
        text_views(revs@),
        byte_views(payloads@),
    );
    let mut events: Vec<RawEvent> = Vec::new();
    let mut i: usize = 0;
    while i < n
        invariant
            i <= n,
            seqs@.len() == n,
            witnessed@.len() == n,
            indexed@.len() == n,
            kinds@.len() == n,
            collections@.len() == n,
            dids@.len() == n,
            rkeys@.len() == n,
            revs@.len() == n,
            payloads@.len() == n,
            4 + 34 * n <= buf@.len(),
            forall|j: int| 0 <= j < n ==> #[trigger] seqs@[j] == le_column(buf@, 4, 8, n as int)[j],
            forall|j: int|
                0 <= j < n ==> #[trigger] witnessed@[j] == le_column(
                    buf@,
                    4 + 8 * n,
                    8,
                    n as int,
                )[j],
            forall|j: int|
                0 <= j < n ==> #[trigger] indexed@[j] == le_column(
                    buf@,
                    4 + 16 * n,
                    8,
                    n as int,
                )[j],
            kinds@ == buf@.subrange(4 + 24 * n, 4 + 25 * n),
            rows == assembled_rows(
                buf@,
                n as int,
                text_views(collections@),
                text_views(dids@),
                text_views(rkeys@),
                text_views(revs@),
                byte_views(payloads@),
            ),
            events@.len() == i,
            forall|j: int| 0 <= j < i ==> #[trigger] events@[j]@ == rows[j],
        decreases n - i,
    {
        let event = RawEvent {
            seq: seqs[i],
            witnessed_at: to_signed(witnessed[i]),
            indexed_at: to_signed(indexed[i]),
            kind: kinds[i],
            collection: collections[i].clone(),
            did: dids[i].clone(),
            rkey: rkeys[i].clone(),
            rev: revs[i].clone(),
            payload: payloads[i].clone(),
        };
        assert(event@ =~= rows[i as int]);
        events.push(event);
        i = i + 1;
    }
    assert(row_views(events@) =~= rows);
    Ok(events)
}

// ---- writing a block body, and what reading it gives back ----

/// Byte strings put one behind the other.
pub open spec fn joined(parts: Seq<Seq<u8>>) -> Seq<u8>
    decreases parts.len(),
{
    if parts.len() == 0 {
        Seq::<u8>::empty()
    } else {
        joined(parts.drop_last()) + parts.last()
    }
}

/// Numbers as a column of `width` bytes each.
pub open spec fn number_column(values: Seq<nat>, width: nat) -> Seq<u8> {
    joined(Seq::new(values.len(), |i: int| le_bytes(values[i], width)))
}

/// The encoded form of each text.
pub open spec fn encoded_texts(texts: Seq<Seq<char>>) -> Seq<Seq<u8>> {
    Seq::new(texts.len(), |i: int| encode_utf8(texts[i]))
}

/// The length of each byte string.
pub open spec fn lengths(parts: Seq<Seq<u8>>) -> Seq<nat> {
    Seq::new(parts.len(), |i: int| parts[i].len())
}

pub open spec fn collections_of(rows: Seq<RawEventView>) -> Seq<Seq<char>> {
    Seq::new(rows.len(), |i: int| rows[i].collection)
}

pub open spec fn dids_of(rows: Seq<RawEventView>) -> Seq<Seq<char>> {
    Seq::new(rows.len(), |i: int| rows[i].did)
}

pub open spec fn rkeys_of(rows: Seq<RawEventView>) -> Seq<Seq<char>> {
    Seq::new(rows.len(), |i: int| rows[i].rkey)
}

pub open spec fn revs_of(rows: Seq<RawEventView>) -> Seq<Seq<char>> {
    Seq::new(rows.len(), |i: int| rows[i].rev)
}

pub open spec fn payloads_of(rows: Seq<RawEventView>) -> Seq<Seq<u8>> {
    Seq::new(rows.len(), |i: int| rows[i].payload)
}

/// The columns of a block body, in the order in which they are written.
pub open spec fn block_columns(rows: Seq<RawEventView>) -> Seq<Seq<u8>> {
    let n = rows.len();
    seq![
        le_bytes(n, 4),
        number_column(Seq::new(n, |i: int| rows[i].seq as nat), 8),
        number_column(Seq::new(n, |i: int| unsigned_bits(rows[i].witnessed_at as int)), 8),
        number_column(Seq::new(n, |i: int| unsigned_bits(rows[i].indexed_at as int)), 8),
        Seq::new(n, |i: int| rows[i].kind),
        number_column(lengths(encoded_texts(collections_of(rows))), 1),
        number_column(lengths(encoded_texts(dids_of(rows))), 2),
        number_column(lengths(encoded_texts(rkeys_of(rows))), 1),
        number_column(lengths(encoded_texts(revs_of(rows))), 1),
        number_column(lengths(payloads_of(rows)), 4),
        joined(encoded_texts(collections_of(rows))),
        joined(encoded_texts(dids_of(rows))),
        joined(encoded_texts(rkeys_of(rows))),
        joined(encoded_texts(revs_of(rows))),
        joined(payloads_of(rows)),
    ]
}

/// The block body that holds the given rows.
pub open spec fn block_body(rows: Seq<RawEventView>) -> Seq<u8> {
    joined(block_columns(rows))
}

/// Whether a block body can hold the rows: the count, the kinds and every
/// length fit their fields.
pub open spec fn storable(rows: Seq<RawEventView>) -> bool {
    &&& rows.len() <= MAX_BLOCK_EVENTS
    &&& forall|i: int| 0 <= i < rows.len() ==> storable_row(#[trigger] rows[i])
}

/// Whether every field of a row fits its column.
pub open spec fn storable_row(row: RawEventView) -> bool {
    &&& known_kind(row.kind)
    &&& encode_utf8(row.collection).len() < 0x100
    &&& encode_utf8(row.did).len() < 0x1_0000
    &&& encode_utf8(row.rkey).len() < 0x100
    &&& encode_utf8(row.rev).len() < 0x100
    &&& row.payload.len() < 0x1_0000_0000
}

proof fn lemma_joined_take(parts: Seq<Seq<u8>>, k: int)
    requires
        0 <= k < parts.len(),
    ensures
        joined(parts.take(k + 1)) == joined(parts.take(k)) + parts[k],
{
    assert(parts.take(k + 1).drop_last() =~= parts.take(k));
}

/// The `k`-th part stands behind the parts before it.
proof fn lemma_joined_part(parts: Seq<Seq<u8>>, k: int)
    requires
        0 <= k < parts.len(),
    ensures
        joined(parts.take(k)).len() + parts[k].len() <= joined(parts).len(),
        joined(parts).subrange(
            joined(parts.take(k)).len() as int,
            (joined(parts.take(k)).len() + parts[k].len()) as int,
        ) == parts[k],
    decreases parts.len(),
{
    if k == parts.len() - 1 {
        assert(parts.drop_last() =~= parts.take(k));
    } else {
        lemma_joined_part(parts.drop_last(), k);
        assert(parts.drop_last().take(k) =~= parts.take(k));
    }
    let start = joined(parts.take(k)).len() as int;
    assert(joined(parts).subrange(start, start + parts[k].len()) =~= parts[k]);
}

/// Parts of one width stand at multiples of it.
proof fn lemma_joined_uniform(parts: Seq<Seq<u8>>, width: int)
    requires
        forall|i: int| 0 <= i < parts.len() ==> (#[trigger] parts[i]).len() == width,
    ensures
        joined(parts).len() == parts.len() * width,
    decreases parts.len(),
{
    if parts.len() > 0 {
        let rest = parts.drop_last();
        assert forall|i: int| 0 <= i < rest.len() implies (#[trigger] rest[i]).len() == width by {
            assert(rest[i] == parts[i]);
        }
        lemma_joined_uniform(rest, width);
        assert(rest.len() * width + width == parts.len() * width) by (nonlinear_arith)
            requires
                rest.len() + 1 == parts.len(),
        ;
    }
}

/// Reading a column of numbers gives back the numbers written.
proof fn lemma_number_column_read(buf: Seq<u8>, at: int, values: Seq<nat>, width: nat)
    requires
        0 <= at,
        at + number_column(values, width).len() <= buf.len(),
        buf.subrange(at, at + number_column(values, width).len()) == number_column(values, width),
        forall|i: int| 0 <= i < values.len() ==> #[trigger] values[i] < byte_capacity(width),
    ensures
        number_column(values, width).len() == values.len() * width,
        le_column(buf, at, width as int, values.len() as int) == values,
{
    let parts = Seq::new(values.len(), |i: int| le_bytes(values[i], width));
    assert forall|i: int| 0 <= i < parts.len() implies (#[trigger] parts[i]).len() == width by {
        lemma_le_bytes_len(values[i], width);
    }
    lemma_joined_uniform(parts, width as int);
    let column = joined(parts);
    assert forall|i: int| 0 <= i < values.len() implies le_column(
        buf,
        at,
        width as int,
        values.len() as int,
    )[i] == #[trigger] values[i] by {
        let before = parts.take(i);
        assert forall|j: int| 0 <= j < before.len() implies (#[trigger] before[j]).len()
            == width by {
            assert(before[j] == parts[j]);
        }
        lemma_joined_uniform(before, width as int);
        lemma_joined_part(parts, i);
        let start = i * width;
        assert(joined(before).len() == start);
        assert(start + width <= values.len() * width && start >= 0) by (nonlinear_arith)
            requires
                start == i * width,
                0 <= i < values.len(),
        ;
        assert(buf.subrange(at + start, at + start + width) =~= buf.subrange(
            at,
            at + column.len(),
        ).subrange(start, start + width));
        lemma_le_round_trip(values[i], width);
    }
    assert(le_column(buf, at, width as int, values.len() as int) =~= values);
}

/// Reading a text column gives back the texts written.
proof fn lemma_texts_read(buf: Seq<u8>, off: int, texts: Seq<Seq<char>>)
    requires
        0 <= off,
        off + joined(encoded_texts(texts)).len() <= buf.len(),
        buf.subrange(off, off + joined(encoded_texts(texts)).len()) == joined(encoded_texts(texts)),
    ensures
        texts_at(buf, off, lengths(encoded_texts(texts))) == Ok::<
            (Seq<Seq<char>>, int),
            BlockError,
        >((texts, off + joined(encoded_texts(texts)).len())),
    decreases texts.len(),
{
    let parts = encoded_texts(texts);
    let lens = lengths(parts);
    if texts.len() == 0 {
        assert(texts =~= Seq::<Seq<char>>::empty());
    } else {
        let rest = texts.drop_last();
        let last = texts.last();
        assert(encoded_texts(rest) =~= parts.drop_last());
        assert(lengths(encoded_texts(rest)) =~= lens.drop_last());
        let end = off + joined(parts.drop_last()).len();
        assert(buf.subrange(off, end) =~= joined(parts.drop_last())) by {
            let whole = buf.subrange(off, off + joined(parts).len());
            assert(whole.subrange(0, joined(parts.drop_last()).len() as int) =~= joined(
                parts.drop_last(),
            ));
            assert(buf.subrange(off, end) =~= whole.subrange(
                0,
                joined(parts.drop_last()).len() as int,
            ));
        }
        lemma_texts_read(buf, off, rest);
        let whole = buf.subrange(off, off + joined(parts).len());
        let split = joined(parts.drop_last()).len() as int;
        assert(buf.subrange(end, end + encode_utf8(last).len()) =~= whole.subrange(
            split,
            split + encode_utf8(last).len(),
        ));
        assert(whole.subrange(split, split + encode_utf8(last).len()) =~= encode_utf8(last));
        vstd::utf8::encode_utf8_valid_utf8(last);
        vstd::utf8::encode_utf8_decode_utf8(last);
        assert(rest.push(last) =~= texts);
    }
}

/// Reading a column of byte strings gives back the byte strings written.
proof fn lemma_pieces_read(buf: Seq<u8>, off: int, parts: Seq<Seq<u8>>)
    requires
        0 <= off,
        off + joined(parts).len() <= buf.len(),
        buf.subrange(off, off + joined(parts).len()) == joined(parts),
    ensures
        pieces_at(buf, off, lengths(parts)) == Ok::<(Seq<Seq<u8>>, int), BlockError>(
            (parts, off + joined(parts).len()),
        ),
    decreases parts.len(),
{
    let lens = lengths(parts);
    if parts.len() == 0 {
        assert(parts =~= Seq::<Seq<u8>>::empty());
    } else {
        let rest = parts.drop_last();
        let last = parts.last();
        assert(lengths(rest) =~= lens.drop_last());
        let end = off + joined(rest).len();
        let whole = buf.subrange(off, off + joined(parts).len());
        assert(buf.subrange(off, end) =~= joined(rest)) by {
            assert(whole.subrange(0, joined(rest).len() as int) =~= joined(rest));
            assert(buf.subrange(off, end) =~= whole.subrange(0, joined(rest).len() as int));
        }
        lemma_pieces_read(buf, off, rest);
        let split = joined(rest).len() as int;
        assert(buf.subrange(end, end + last.len()) =~= whole.subrange(split, split + last.len()));
        assert(whole.subrange(split, split + last.len()) =~= last);
        assert(rest.push(last) =~= parts);
    }
}

/// Where the `k`-th column of a block body starts, and that it stands there.
proof fn lemma_column_place(rows: Seq<RawEventView>, k: int)
    requires
        0 <= k < 15,
    ensures
        joined(block_columns(rows).take(k + 1)).len() == joined(block_columns(rows).take(k)).len()
            + block_columns(rows)[k].len(),
        joined(block_columns(rows).take(k)).len() + block_columns(rows)[k].len()
            <= block_body(rows).len(),
        block_body(rows).subrange(
            joined(block_columns(rows).take(k)).len() as int,
            (joined(block_columns(rows).take(k)).len() + block_columns(rows)[k].len()) as int,
        ) == block_columns(rows)[k],
{
    lemma_joined_take(block_columns(rows), k);
    lemma_joined_part(block_columns(rows), k);
}

/// No kind of a sequence of known kinds is invalid.
proof fn lemma_known_kinds(kinds: Seq<u8>)
    ensures
        first_invalid_kind(kinds) is None <==> forall|i: int|
            0 <= i < kinds.len() ==> known_kind(#[trigger] kinds[i]),
    decreases kinds.len(),
{
    if kinds.len() > 0 {
        let rest = kinds.skip(1);
        lemma_known_kinds(rest);
        if known_kind(kinds[0]) {
            assert forall|i: int|
                0 <= i < kinds.len() && (forall|j: int|
                    0 <= j < rest.len() ==> known_kind(#[trigger] rest[j])) implies known_kind(
                #[trigger] kinds[i],
            ) by {
                if i > 0 {
                    assert(rest[i - 1] == kinds[i]);
                }
            }
        }
    }
}

/// What a block body is read back as is what was written: decoding the body
/// of any storable rows gives exactly those rows.
#[verifier::rlimit(60)]
pub proof fn law_decode_of_encoded(rows: Seq<RawEventView>)
    requires
        storable(rows),
    ensures
        block_rows(block_body(rows)) == Ok::<Seq<RawEventView>, BlockError>(rows),
{
    let buf = block_body(rows);
    let cols = block_columns(rows);
    let n = rows.len() as int;
    lemma_byte_capacity();
    assert(cols.take(0) =~= Seq::<Seq<u8>>::empty());
    lemma_column_place(rows, 0);
    lemma_le_bytes_len(rows.len(), 4);
    lemma_le_round_trip(rows.len(), 4);
    lemma_column_place(rows, 1);
    lemma_number_column_read(buf, 4, Seq::new(rows.len(), |i: int| rows[i].seq as nat), 8);
    lemma_column_place(rows, 2);
    lemma_number_column_read(
        buf,
        4 + 8 * n,
        Seq::new(rows.len(), |i: int| unsigned_bits(rows[i].witnessed_at as int)),
        8,
    );
    lemma_column_place(rows, 3);
    lemma_number_column_read(
        buf,
        4 + 16 * n,
        Seq::new(rows.len(), |i: int| unsigned_bits(rows[i].indexed_at as int)),
        8,
    );
    lemma_column_place(rows, 4);
    lemma_column_place(rows, 5);
    lemma_number_column_read(buf, 4 + 25 * n, lengths(encoded_texts(collections_of(rows))), 1);
    lemma_column_place(rows, 6);
    lemma_number_column_read(buf, 4 + 26 * n, lengths(encoded_texts(dids_of(rows))), 2);
    lemma_column_place(rows, 7);
    lemma_number_column_read(buf, 4 + 28 * n, lengths(encoded_texts(rkeys_of(rows))), 1);
    lemma_column_place(rows, 8);
    lemma_number_column_read(buf, 4 + 29 * n, lengths(encoded_texts(revs_of(rows))), 1);
    lemma_column_place(rows, 9);
    lemma_number_column_read(buf, 4 + 30 * n, lengths(payloads_of(rows)), 4);
    lemma_column_place(rows, 10);
    let collections_end = 4 + 34 * n + cols[10].len();
    lemma_texts_read(buf, 4 + 34 * n, collections_of(rows));
    lemma_column_place(rows, 11);
    let dids_end = collections_end + cols[11].len();
    lemma_texts_read(buf, collections_end, dids_of(rows));
    lemma_column_place(rows, 12);
    let rkeys_end = dids_end + cols[12].len();
    lemma_texts_read(buf, dids_end, rkeys_of(rows));
    lemma_column_place(rows, 13);
    let revs_end = rkeys_end + cols[13].len();
    lemma_texts_read(buf, rkeys_end, revs_of(rows));
    lemma_column_place(rows, 14);
    lemma_pieces_read(buf, revs_end, payloads_of(rows));
    assert(cols.take(15) =~= cols);
    lemma_known_kinds(cols[4]);
    let kinds_at = buf.subrange(4 + 24 * n, 4 + 25 * n);
    assert(kinds_at == cols[4]);
    if n == 0 {
        assert(rows =~= Seq::<RawEventView>::empty());
        assert(cols[10] =~= Seq::<u8>::empty());
        assert(cols[11] =~= Seq::<u8>::empty());
        assert(cols[12] =~= Seq::<u8>::empty());
        assert(cols[13] =~= Seq::<u8>::empty());
        assert(cols[14] =~= Seq::<u8>::empty());
    } else {
        let read = assembled_rows(
            buf,
            n,
            collections_of(rows),
            dids_of(rows),
            rkeys_of(rows),
            revs_of(rows),
            payloads_of(rows),
        );
        assert forall|i: int| 0 <= i < n implies read[i] == #[trigger] rows[i] by {
            assert(kinds_at[i] == buf[4 + 24 * n + i]);
            assert(cols[4][i] == rows[i].kind);
        }
        assert(read =~= rows);
    }
}

/// Writing the numbers of a column gives back its bytes.
proof fn lemma_number_column_write(buf: Seq<u8>, at: int, width: nat, n: int)
    requires
        0 <= at,
        0 <= n,
        at + n * width <= buf.len(),
    ensures
        number_column(le_column(buf, at, width as int, n), width) == buf.subrange(
            at,
            at + n * width,
        ),
        forall|i: int|
            0 <= i < n ==> #[trigger] le_column(buf, at, width as int, n)[i] < byte_capacity(width),
    decreases n,
{
    let values = le_column(buf, at, width as int, n);
    let parts = Seq::new(values.len(), |i: int| le_bytes(values[i], width));
    if n == 0 {
        assert(parts =~= Seq::<Seq<u8>>::empty());
        assert(n * width == 0) by (nonlinear_arith)
            requires
                n == 0,
        ;
        assert(buf.subrange(at, at + n * width) =~= Seq::<u8>::empty());
    } else {
        assert((n - 1) * width + width == n * width && (n - 1) * width >= 0) by (nonlinear_arith)
            requires
                n >= 1,
        ;
        lemma_number_column_write(buf, at, width, n - 1);
        let shorter = le_column(buf, at, width as int, n - 1);
        let fewer = Seq::new(shorter.len(), |i: int| le_bytes(shorter[i], width));
        assert(parts.drop_last() =~= fewer) by {
            assert forall|i: int| 0 <= i < n - 1 implies values[i] == shorter[i] by {}
        }
        let start = at + (n - 1) * width;
        let piece = buf.subrange(start, start + width);
        lemma_le_bytes_of_value(piece);
        lemma_le_value_bounded(piece);
        assert(parts.last() == piece);
        assert(buf.subrange(at, at + n * width) =~= buf.subrange(at, start) + piece);
        assert forall|i: int| 0 <= i < n implies #[trigger] values[i] < byte_capacity(width) by {
            if i < n - 1 {
                assert(values[i] == shorter[i]);
            }
        }
    }
}

/// Writing the texts of a column gives back its bytes, and each takes the
/// length that was read for it.
proof fn lemma_texts_write(buf: Seq<u8>, off: int, lens: Seq<nat>)
    requires
        0 <= off <= buf.len(),
    ensures
        texts_at(buf, off, lens) matches Ok((texts, end)) ==> {
            &&& texts.len() == lens.len()
            &&& off <= end <= buf.len()
            &&& joined(encoded_texts(texts)) == buf.subrange(off, end)
            &&& lengths(encoded_texts(texts)) == lens
        },
    decreases lens.len(),
{
    if lens.len() == 0 {
        assert(buf.subrange(off, off) =~= Seq::<u8>::empty());
        assert(lengths(encoded_texts(Seq::<Seq<char>>::empty())) =~= lens);
    } else {
        lemma_texts_write(buf, off, lens.drop_last());
        if let Ok((texts, end)) = texts_at(buf, off, lens) {
            let before = texts_at(buf, off, lens.drop_last())->Ok_0;
            let rest = before.0;
            let split = before.1;
            let piece = buf.subrange(split, end);
            vstd::utf8::decode_utf8_encode_utf8(piece);
            assert(texts == rest.push(decode_utf8(piece)));
            assert(encoded_texts(texts).drop_last() =~= encoded_texts(rest));
            assert(encoded_texts(texts).last() == piece);
            assert(buf.subrange(off, end) =~= buf.subrange(off, split) + piece);
            assert forall|i: int| 0 <= i < lens.len() implies lengths(encoded_texts(texts))[i]
                == #[trigger] lens[i] by {
                if i < lens.len() - 1 {
                    assert(lengths(encoded_texts(rest))[i] == lens.drop_last()[i]);
                }
            }
            assert(lengths(encoded_texts(texts)) =~= lens);
        }
    }
}

/// Writing the byte strings of a column gives back its bytes.
proof fn lemma_pieces_write(buf: Seq<u8>, off: int, lens: Seq<nat>)
    requires
        0 <= off <= buf.len(),
    ensures
        pieces_at(buf, off, lens) matches Ok((pieces, end)) ==> {
            &&& pieces.len() == lens.len()
            &&& off <= end <= buf.len()
            &&& joined(pieces) == buf.subrange(off, end)
            &&& lengths(pieces) == lens
        },
    decreases lens.len(),
{
    if lens.len() == 0 {
        assert(buf.subrange(off, off) =~= Seq::<u8>::empty());
        assert(lengths(Seq::<Seq<u8>>::empty()) =~= lens);
    } else {
        lemma_pieces_write(buf, off, lens.drop_last());
        if let Ok((pieces, end)) = pieces_at(buf, off, lens) {
            let before = pieces_at(buf, off, lens.drop_last())->Ok_0;
            let rest = before.0;
            let split = before.1;
            let piece = buf.subrange(split, end);
            assert(pieces == rest.push(piece));
            assert(pieces.drop_last() =~= rest);
            assert(buf.subrange(off, end) =~= buf.subrange(off, split) + piece);
            assert forall|i: int| 0 <= i < lens.len() implies lengths(pieces)[i]
                == #[trigger] lens[i] by {
                if i < lens.len() - 1 {
                    assert(lengths(rest)[i] == lens.drop_last()[i]);
                }
            }
            assert(lengths(pieces) =~= lens);
        }
    }
}

/// One more column that continues a prefix of the buffer.
proof fn lemma_prefix_grows(buf: Seq<u8>, cols: Seq<Seq<u8>>, k: int, start: int, end: int)
    requires
        0 <= k < cols.len(),
        0 <= start <= end <= buf.len(),
        joined(cols.take(k)) == buf.subrange(0, start),
        cols[k] == buf.subrange(start, end),
    ensures
        joined(cols.take(k + 1)) == buf.subrange(0, end),
{
    lemma_joined_take(cols, k);
    assert(buf.subrange(0, start) + buf.subrange(start, end) =~= buf.subrange(0, end));
}

/// A body holds nothing beside its rows: whatever decodes is storable, and
/// writing the decoded rows gives back the body byte for byte.
#[verifier::rlimit(60)]
pub proof fn law_encode_of_decoded(buf: Seq<u8>)
    ensures
        block_rows(buf) matches Ok(rows) ==> storable(rows) && block_body(rows) == buf,
{
    if let Ok(rows) = block_rows(buf) {
        let n = le_value(buf.subrange(0, 4)) as int;
        let cols = block_columns(rows);
        lemma_byte_capacity();
        lemma_le_bytes_of_value(buf.subrange(0, 4));
        if n == 0 {
            assert(cols.take(0) =~= Seq::<Seq<u8>>::empty());
            assert(buf.subrange(0, 0) =~= Seq::<u8>::empty());
            assert(buf.subrange(0, 4) =~= buf);
            law_decode_of_encoded(rows);
            lemma_empty_body(rows);
        } else {
            lemma_number_column_write(buf, 4, 8, n);
            lemma_number_column_write(buf, 4 + 8 * n, 8, n);
            lemma_number_column_write(buf, 4 + 16 * n, 8, n);
            lemma_number_column_write(buf, 4 + 25 * n, 1, n);
            lemma_number_column_write(buf, 4 + 26 * n, 2, n);
            lemma_number_column_write(buf, 4 + 28 * n, 1, n);
            lemma_number_column_write(buf, 4 + 29 * n, 1, n);
            lemma_number_column_write(buf, 4 + 30 * n, 4, n);
            let c_lens = le_column(buf, 4 + 25 * n, 1, n);
            let d_lens = le_column(buf, 4 + 26 * n, 2, n);
            let k_lens = le_column(buf, 4 + 28 * n, 1, n);
            let v_lens = le_column(buf, 4 + 29 * n, 1, n);
            let p_lens = le_column(buf, 4 + 30 * n, 4, n);
            lemma_texts_write(buf, 4 + 34 * n, c_lens);
            let (collections, e1) = texts_at(buf, 4 + 34 * n, c_lens)->Ok_0;
            lemma_texts_write(buf, e1, d_lens);
            let (dids, e2) = texts_at(buf, e1, d_lens)->Ok_0;
            lemma_texts_write(buf, e2, k_lens);
            let (rkeys, e3) = texts_at(buf, e2, k_lens)->Ok_0;
            lemma_texts_write(buf, e3, v_lens);
            let (revs, e4) = texts_at(buf, e3, v_lens)->Ok_0;
            lemma_pieces_write(buf, e4, p_lens);
            let (payloads, e5) = pieces_at(buf, e4, p_lens)->Ok_0;
            assert(rows == assembled_rows(buf, n, collections, dids, rkeys, revs, payloads));
            assert(collections_of(rows) =~= collections);
            assert(dids_of(rows) =~= dids);
            assert(rkeys_of(rows) =~= rkeys);
            assert(revs_of(rows) =~= revs);
            assert(payloads_of(rows) =~= payloads);
            assert(Seq::new(rows.len(), |i: int| rows[i].seq as nat) =~= le_column(buf, 4, 8, n));
            assert(Seq::new(rows.len(), |i: int| unsigned_bits(rows[i].witnessed_at as int))
                =~= le_column(buf, 4 + 8 * n, 8, n));
            assert(Seq::new(rows.len(), |i: int| unsigned_bits(rows[i].indexed_at as int))
                =~= le_column(buf, 4 + 16 * n, 8, n));
            let kinds = buf.subrange(4 + 24 * n, 4 + 25 * n);
            lemma_known_kinds(kinds);
            assert(cols[4] =~= kinds);
            assert forall|i: int| 0 <= i < rows.len() implies storable_row(#[trigger] rows[i]) by {
                assert(known_kind(kinds[i]));
                assert(lengths(encoded_texts(collections))[i] == c_lens[i]);
                assert(lengths(encoded_texts(dids))[i] == d_lens[i]);
                assert(lengths(encoded_texts(rkeys))[i] == k_lens[i]);
                assert(lengths(encoded_texts(revs))[i] == v_lens[i]);
                assert(lengths(payloads)[i] == p_lens[i]);
            }
            assert(cols.take(0) =~= Seq::<Seq<u8>>::empty());
            assert(buf.subrange(0, 0) =~= Seq::<u8>::empty());
            lemma_prefix_grows(buf, cols, 0, 0, 4);
            lemma_prefix_grows(buf, cols, 1, 4, 4 + 8 * n);
            lemma_prefix_grows(buf, cols, 2, 4 + 8 * n, 4 + 16 * n);
            lemma_prefix_grows(buf, cols, 3, 4 + 16 * n, 4 + 24 * n);
            lemma_prefix_grows(buf, cols, 4, 4 + 24 * n, 4 + 25 * n);
            lemma_prefix_grows(buf, cols, 5, 4 + 25 * n, 4 + 26 * n);
            lemma_prefix_grows(buf, cols, 6, 4 + 26 * n, 4 + 28 * n);
            lemma_prefix_grows(buf, cols, 7, 4 + 28 * n, 4 + 29 * n);
            lemma_prefix_grows(buf, cols, 8, 4 + 29 * n, 4 + 30 * n);
            lemma_prefix_grows(buf, cols, 9, 4 + 30 * n, 4 + 34 * n);
            lemma_prefix_grows(buf, cols, 10, 4 + 34 * n, e1);
            lemma_prefix_grows(buf, cols, 11, e1, e2);
            lemma_prefix_grows(buf, cols, 12, e2, e3);
            lemma_prefix_grows(buf, cols, 13, e3, e4);
            lemma_prefix_grows(buf, cols, 14, e4, e5);
            assert(cols.take(15) =~= cols);
            assert(buf.subrange(0, e5) =~= buf);
        }
    }
}

/// The body of no rows is the count alone.
proof fn lemma_empty_body(rows: Seq<RawEventView>)
    requires
        rows.len() == 0,
    ensures
        block_body(rows) == le_bytes(0, 4),
{
    let cols = block_columns(rows);
    assert(cols.take(0) =~= Seq::<Seq<u8>>::empty());
    lemma_joined_take(cols, 0);
    assert forall|k: int| 1 <= k < 15 implies #[trigger] cols[k] == Seq::<u8>::empty() by {
        assert(cols[k] =~= Seq::<u8>::empty());
    }
    lemma_empty_tail(cols, 15);
    assert(cols.take(15) =~= cols);
}

/// Empty columns behind the first add nothing.
proof fn lemma_empty_tail(cols: Seq<Seq<u8>>, k: int)
    requires
        1 <= k <= cols.len(),
        forall|i: int| 1 <= i < cols.len() ==> #[trigger] cols[i] == Seq::<u8>::empty(),
    ensures
        joined(cols.take(k)) == cols[0],
    decreases k,
{
    lemma_joined_take(cols, k - 1);
    if k > 1 {
        lemma_empty_tail(cols, k - 1);
        assert(cols[0] + Seq::<u8>::empty() =~= cols[0]);
    } else {
        assert(cols.take(0) =~= Seq::<Seq<u8>>::empty());
        assert(Seq::<u8>::empty() + cols[0] =~= cols[0]);
    }
}

// ---- block frames ----

/// What the header of a compressed frame says of its content size.
#[derive(Debug, Clone, Copy, PartialEq, Eq, Structural)]
pub enum ContentSize {
    /// The bytes do not start with a frame header.
    Bad,
    /// The frame does not declare a size.
    Undeclared,
    Declared(u64),
}

/// What `zstd_safe::get_frame_content_size` reads off the start of a frame.
pub uninterp spec fn frame_content_size(frame: Seq<u8>) -> ContentSize;

/// What `zstd::bulk::decompress` makes of a frame with room for `capacity`
/// bytes; nothing where it fails.
pub uninterp spec fn decompressed(frame: Seq<u8>, capacity: nat) -> Option<Seq<u8>>;

/// `zstd::zstd_safe::get_frame_content_size`: the content size that the
/// frame header declares. The result is a function of the bytes alone.
#[verifier::external_body]
fn content_size_of(frame: &[u8]) -> (r: ContentSize)
    ensures
        r == frame_content_size(frame@),
{
    match zstd::zstd_safe::get_frame_content_size(frame) {
        Err(_) => ContentSize::Bad,
        Ok(None) => ContentSize::Undeclared,
        Ok(Some(size)) => ContentSize::Declared(size),
    }
}

/// `zstd::bulk::decompress`: the bytes that the frame decompresses to, and
/// an error where it is corrupt or where they exceed `capacity`. The result
/// is a function of the frame and the capacity. The call allocates the
/// capacity, so it is bounded.
#[verifier::external_body]
fn decompress(frame: &[u8], capacity: usize) -> (r: Option<Vec<u8>>)
    requires
        capacity <= MAX_BLOCK_UNCOMPRESSED,
    ensures
        match r {
            Some(body) => decompressed(frame@, capacity as nat) == Some(body@),
            None => decompressed(frame@, capacity as nat) is None,
        },
        r matches Some(body) ==> body@.len() <= capacity,
{
    zstd::bulk::decompress(frame, capacity).ok()
}

/// The capacity to decompress with, or why a frame is refused unread.
pub open spec fn admitted_size(size: ContentSize) -> Result<u64, BlockError> {
    match size {
        ContentSize::Bad => Err(BlockError::BadFrame),
        ContentSize::Undeclared => Err(BlockError::UndeclaredSize),
        ContentSize::Declared(declared) => if declared > MAX_BLOCK_UNCOMPRESSED {
            Err(BlockError::TooLarge { declared })
        } else {
            Ok(declared)
        },
    }
}

/// The rows of a block frame, or what is wrong with it.
pub open spec fn frame_rows(frame: Seq<u8>) -> Result<Seq<RawEventView>, BlockError> {
    match admitted_size(frame_content_size(frame)) {
        Err(e) => Err(e),
        Ok(declared) => match decompressed(frame, declared as nat) {
            None => Err(BlockError::Corrupt),
            Some(body) => block_rows(body),
        },
    }
}

/// Decides from the declared content size whether a frame is decompressed,
/// and into how many bytes.
pub fn admit_size(size: ContentSize) -> (r: Result<u64, BlockError>)
    ensures
        r == admitted_size(size),
{
    match size {
        ContentSize::Bad => Err(BlockError::BadFrame),
        ContentSize::Undeclared => Err(BlockError::UndeclaredSize),
        ContentSize::Declared(declared) => if declared > MAX_BLOCK_UNCOMPRESSED {
            Err(BlockError::TooLarge { declared })
        } else {
            Ok(declared)
        },
    }
}

/// Decompresses and decodes one block frame: the bytes that a block request
/// is answered with, or one length-prefixed frame of a segment file.
pub fn decode_block_frame(frame: &[u8]) -> (r: Result<Vec<RawEvent>, BlockError>)
    ensures
        match frame_rows(frame@) {
            Ok(rows) => r matches Ok(events) && row_views(events@) == rows,
            Err(e) => r == Err::<Vec<RawEvent>, BlockError>(e),
        },
{
    let declared: u64 = admit_size(content_size_of(frame))?;
    match decompress(frame, declared as usize) {
        None => Err(BlockError::Corrupt),
        Some(body) => decode_block_body(body.as_slice()),
    }
}

/// A frame that declares the size of its content, within the bound, and that
/// decompresses to it, is read as that content.
pub proof fn law_frame_is_read_as_its_content(frame: Seq<u8>, body: Seq<u8>)
    ensures
        body.len() <= MAX_BLOCK_UNCOMPRESSED && frame_content_size(frame) == ContentSize::Declared(
            body.len() as u64,
        ) && decompressed(frame, body.len()) == Some(body) ==> frame_rows(frame) == block_rows(
            body,
        ),
{
}

// ---- segment files ----

/// The parsed fixed header of a sealed segment.
#[derive(Debug, Clone, Copy, PartialEq, Eq, Structural)]
pub struct SegmentHeader {
    pub version: u16,
    pub block_count: u32,
    pub event_count: u32,
    pub min_seq: u64,
    pub max_seq: u64,
    pub footer_offset: u64,
}

/// Why a segment file cannot be read, or cannot be read further.
#[derive(Debug, Clone, Copy, PartialEq, Eq, Structural)]
pub enum SegmentError {
    /// The file does not start as a segment does.
    BadMagic,
    /// The header checksum is unset: the segment is still being written.
    Unsealed,
    UnsupportedVersion { version: u16 },
    /// The file ends inside its header.
    ShortHeader,
    /// The file ends inside a block length.
    ShortLength { offset: u64 },
    /// A block claims to reach behind the footer.
    PastFooter { offset: u64 },
    /// The file ends inside a block frame.
    ShortFrame { offset: u64 },
    /// A block frame cannot be decoded.
    Block(BlockError),
    /// The header promises another number of blocks than the file holds.
    BlockCount { promised: u32, seen: u64 },
}

/// The number in the header bytes from `from` up to `to`.
pub open spec fn header_field(bytes: Seq<u8>, from: int, to: int) -> nat {
    le_value(bytes.subrange(from, to))
}

/// The header that the first bytes of a segment file hold.
pub open spec fn segment_header(bytes: Seq<u8>) -> Result<SegmentHeader, SegmentError> {
    let version = header_field(bytes, 12, 14) as u16;
    if bytes.subrange(0, 4) != seq![0x6au8, 0x73u8, 0x73u8, 0x30u8] {
        Err(SegmentError::BadMagic)
    } else if header_field(bytes, 4, 12) == 0 {
        Err(SegmentError::Unsealed)
    } else if version != 1 {
        Err(SegmentError::UnsupportedVersion { version })
    } else {
        Ok(
            SegmentHeader {
                version,
                block_count: header_field(bytes, 14, 18) as u32,
                event_count: header_field(bytes, 18, 22) as u32,
                min_seq: header_field(bytes, 26, 34) as u64,
                max_seq: header_field(bytes, 34, 42) as u64,
                footer_offset: header_field(bytes, 58, 66) as u64,
            },
        )
    }
}

/// Parses and validates the fixed header of a sealed segment file.
pub fn read_header(bytes: &[u8; 256]) -> (r: Result<SegmentHeader, SegmentError>)
    ensures
        r == segment_header(bytes@),
{
    let head = bytes.as_slice();
    proof {
        lemma_byte_capacity();
    }
    if head[0] != 0x6a || head[1] != 0x73 || head[2] != 0x73 || head[3] != 0x30 {
        assert(bytes@.subrange(0, 4)[0] == bytes@[0]);
        assert(bytes@.subrange(0, 4)[1] == bytes@[1]);
        assert(bytes@.subrange(0, 4)[2] == bytes@[2]);
        assert(bytes@.subrange(0, 4)[3] == bytes@[3]);
        return Err(SegmentError::BadMagic);
    }
    assert(bytes@.subrange(0, 4) =~= seq![0x6au8, 0x73u8, 0x73u8, 0x30u8]);
    if le_at(head, 4, 8) == 0 {
        return Err(SegmentError::Unsealed);
    }
    let version: u16 = le_at(head, 12, 2) as u16;
    if version != 1 {
        return Err(SegmentError::UnsupportedVersion { version });
    }
    Ok(
        SegmentHeader {
            version,
            block_count: le_at(head, 14, 4) as u32,
            event_count: le_at(head, 18, 4) as u32,
            min_seq: le_at(head, 26, 8),
            max_seq: le_at(head, 34, 8),
            footer_offset: le_at(head, 58, 8),
        },
    )
}

/// The block frames from `offset` on, behind those already passed, and what
/// ends the walk before the footer.
pub open spec fn frames_from(
    bytes: Seq<u8>,
    header: SegmentHeader,
    offset: int,
    passed: Seq<Seq<u8>>,
) -> (Seq<Seq<u8>>, Option<SegmentError>)
    decreases header.footer_offset - offset,
{
    let len = le_value(bytes.subrange(offset, offset + 8)) as int;
    if offset >= header.footer_offset {
        if passed.len() == header.block_count {
            (passed, None)
        } else {
            (
                passed,
                Some(
                    SegmentError::BlockCount {
                        promised: header.block_count,
                        seen: passed.len() as u64,
                    },
                ),
            )
        }
    } else if offset + 8 > bytes.len() {
        (passed, Some(SegmentError::ShortLength { offset: offset as u64 }))
    } else if offset + 8 + len > header.footer_offset {
        (passed, Some(SegmentError::PastFooter { offset: offset as u64 }))
    } else if offset + 8 + len > bytes.len() {
        (passed, Some(SegmentError::ShortFrame { offset: offset as u64 }))
    } else {
        frames_from(
            bytes,
            header,
            offset + 8 + len,
            passed.push(bytes.subrange(offset + 8, offset + 8 + len)),
        )
    }
}

/// The block frames of a segment file, and what ends the walk before the
/// footer.
pub open spec fn framed(bytes: Seq<u8>) -> (Seq<Seq<u8>>, Option<SegmentError>) {
    if bytes.len() < RESERVED_HEADER_BYTES {
        (Seq::empty(), Some(SegmentError::ShortHeader))
    } else {
        match segment_header(bytes.subrange(0, 256)) {
            Err(e) => (Seq::empty(), Some(e)),
            Ok(header) => frames_from(bytes, header, 256, Seq::empty()),
        }
    }
}

/// The rows of the frames up to the first that cannot be decoded, and what
/// is wrong with that one.
pub open spec fn blocks_of(frames: Seq<Seq<u8>>) -> (Seq<Seq<RawEventView>>, Option<BlockError>)
    decreases frames.len(),
{
    if frames.len() == 0 {
        (Seq::empty(), None)
    } else {
        let (before, failed) = blocks_of(frames.drop_last());
        match failed {
            Some(e) => (before, Some(e)),
            None => match frame_rows(frames.last()) {
                Err(e) => (before, Some(e)),
                Ok(rows) => (before.push(rows), None),
            },
        }
    }
}

/// The blocks that a walk over a segment file visits, and what ends it
/// early: the first frame that cannot be decoded or cannot be read.
pub open spec fn segment_blocks(bytes: Seq<u8>) -> (Seq<Seq<RawEventView>>, Option<SegmentError>) {
    let (frames, framing) = framed(bytes);
    let (blocks, failed) = blocks_of(frames);
    match failed {
        Some(e) => (blocks, Some(SegmentError::Block(e))),
        None => (blocks, framing),
    }
}

/// What the blocks of a walk hold.
pub open spec fn block_views(blocks: Seq<Vec<RawEvent>>) -> Seq<Seq<RawEventView>> {
    Seq::new(blocks.len(), |i: int| row_views(blocks[i]@))
}

/// Cuts a sealed segment file into its block frames. The footer is never
/// read.
pub fn segment_frames(bytes: &[u8]) -> (r: (Vec<Vec<u8>>, Option<SegmentError>))
    ensures
        byte_views(r.0@) == framed(bytes@).0,
        r.1 == framed(bytes@).1,
{
    let mut frames: Vec<Vec<u8>> = Vec::new();
    assert(byte_views(frames@) =~= Seq::<Seq<u8>>::empty());
    let total: usize = bytes.len();
    if total < 256 {
        return (frames, Some(SegmentError::ShortHeader));
    }
    let head = header_array(bytes);
    let header = match read_header(&head) {
        Err(e) => {
            return (frames, Some(e));
        },
        Ok(header) => header,
    };
    let mut offset: usize = 256;
    while (offset as u64) < header.footer_offset
        invariant
            total == bytes@.len(),
            256 <= offset <= total,
            segment_header(bytes@.subrange(0, 256)) == Ok::<SegmentHeader, SegmentError>(header),
            total >= 256,
            framed(bytes@) == frames_from(bytes@, header, offset as int, byte_views(frames@)),
        decreases total - offset,
    {
        if total - offset < 8 {
            return (frames, Some(SegmentError::ShortLength { offset: offset as u64 }));
        }
        proof {
            lemma_byte_capacity();
        }
        let len: u64 = le_at(bytes, offset, 8);
        let start: u64 = offset as u64 + 8;
        if start > header.footer_offset || len > header.footer_offset - start {
            return (frames, Some(SegmentError::PastFooter { offset: offset as u64 }));
        }
        if len > (total - offset - 8) as u64 {
            return (frames, Some(SegmentError::ShortFrame { offset: offset as u64 }));
        }
        let end: usize = offset + 8 + len as usize;
        let frame = slice_to_vec(slice_subrange(bytes, offset + 8, end));
        let ghost had = frames@;
        frames.push(frame);
        assert(byte_views(frames@) =~= byte_views(had).push(frame@));
        offset = end;
    }
    let seen: u64 = frames.len() as u64;
    if seen != header.block_count as u64 {
        return (frames, Some(SegmentError::BlockCount { promised: header.block_count, seen }));
    }
    (frames, None)
}

/// The fixed header bytes of a file that is long enough to hold them.
fn header_array(bytes: &[u8]) -> (r: [u8; 256])
    requires
        bytes@.len() >= 256,
    ensures
        r@ == bytes@.subrange(0, 256),
{
    let mut head: [u8; 256] = [0;256];
    let mut i: usize = 0;
    while i < 256
        invariant
            i <= 256,
            bytes@.len() >= 256,
            head@.len() == 256,
            forall|j: int| 0 <= j < i ==> head@[j] == bytes@[j],
        decreases 256 - i,
    {
        head[i] = bytes[i];
        i = i + 1;
    }
    assert(head@ =~= bytes@.subrange(0, 256));
    head
}

/// Walks the bytes of a sealed segment file and decodes its blocks in order,
/// up to the first that cannot be read. The footer is never read.
pub fn for_each_block(bytes: &[u8]) -> (r: (Vec<Vec<RawEvent>>, Option<SegmentError>))
    ensures
        block_views(r.0@) == segment_blocks(bytes@).0,
        r.1 == segment_blocks(bytes@).1,
{
    let (frames, framing) = segment_frames(bytes);
    let ghost all = byte_views(frames@);
    let mut blocks: Vec<Vec<RawEvent>> = Vec::new();
    let mut i: usize = 0;
    assert(all.take(0) =~= Seq::<Seq<u8>>::empty());
    assert(block_views(blocks@) =~= Seq::<Seq<RawEventView>>::empty());
    while i < frames.len()
        invariant
            i <= frames@.len(),
            all == byte_views(frames@),
            all == framed(bytes@).0,
            blocks_of(all.take(i as int)) == (block_views(blocks@), None::<BlockError>),
        decreases frames@.len() - i,
    {
        proof {
            assert(all.take(i + 1).drop_last() =~= all.take(i as int));
            assert(all.take(i + 1).last() == frames@[i as int]@);
            lemma_blocks_failed_prefix(all, i + 1);
        }
        match decode_block_frame(frames[i].as_slice()) {
            Err(e) => {
                return (blocks, Some(SegmentError::Block(e)));
            },
            Ok(rows) => {
                let ghost had = blocks@;
                blocks.push(rows);
                assert(block_views(blocks@) =~= block_views(had).push(row_views(rows@)));
            },
        }
        i = i + 1;
    }
    assert(all.take(i as int) =~= all);
    (blocks, framing)
}

/// A frame that cannot be decoded ends the walk.
proof fn lemma_blocks_failed_prefix(frames: Seq<Seq<u8>>, upto: int)
    requires
        0 <= upto <= frames.len(),
    ensures
        blocks_of(frames.take(upto)).1 is Some ==> blocks_of(frames) == blocks_of(
            frames.take(upto),
        ),
    decreases frames.len() - upto,
{
    if upto == frames.len() {
        assert(frames.take(upto) =~= frames);
    } else {
        lemma_blocks_failed_prefix(frames, upto + 1);
        assert(frames.take(upto + 1).drop_last() =~= frames.take(upto));
    }
}

/// Each frame with its 8-byte length in front.
pub open spec fn prefixed(frames: Seq<Seq<u8>>) -> Seq<Seq<u8>> {
    Seq::new(frames.len(), |i: int| le_bytes(frames[i].len(), 8) + frames[i])
}

/// A sealed segment is walked frame by frame, in order and to its end, and
/// what stands behind the footer offset does not matter.
pub proof fn law_segment_walk(
    head: Seq<u8>,
    header: SegmentHeader,
    frames: Seq<Seq<u8>>,
    footer: Seq<u8>,
)
    requires
        head.len() == RESERVED_HEADER_BYTES,
        segment_header(head) == Ok::<SegmentHeader, SegmentError>(header),
        header.footer_offset == 256 + joined(prefixed(frames)).len(),
        header.block_count == frames.len(),
    ensures
        framed(head + joined(prefixed(frames)) + footer) == (frames, None::<SegmentError>),
{
    let bytes = head + joined(prefixed(frames)) + footer;
    assert(bytes.subrange(0, 256) =~= head);
    assert(frames.take(0) =~= Seq::<Seq<u8>>::empty());
    assert(prefixed(frames).take(0) =~= Seq::<Seq<u8>>::empty());
    lemma_walk_from(head, header, frames, footer, 0);
}

/// The walk over a sealed segment from its `k`-th frame on.
proof fn lemma_walk_from(
    head: Seq<u8>,
    header: SegmentHeader,
    frames: Seq<Seq<u8>>,
    footer: Seq<u8>,
    k: int,
)
    requires
        0 <= k <= frames.len(),
        head.len() == 256,
        header.footer_offset == 256 + joined(prefixed(frames)).len(),
        header.block_count == frames.len(),
    ensures
        frames_from(
            head + joined(prefixed(frames)) + footer,
            header,
            256 + joined(prefixed(frames).take(k)).len() as int,
            frames.take(k),
        ) == (frames, None::<SegmentError>),
    decreases frames.len() - k,
{
    let bytes = head + joined(prefixed(frames)) + footer;
    let parts = prefixed(frames);
    let offset = 256 + joined(parts.take(k)).len() as int;
    if k == frames.len() {
        assert(parts.take(k) =~= parts);
        assert(frames.take(k) =~= frames);
    } else {
        lemma_joined_part(parts, k);
        lemma_joined_take(parts, k);
        lemma_byte_capacity();
        lemma_le_bytes_len(frames[k].len(), 8);
        lemma_le_round_trip(frames[k].len(), 8);
        let part = parts[k];
        let body = joined(parts);
        let at = offset - 256;
        assert(bytes.subrange(offset, offset + part.len()) =~= body.subrange(at, at + part.len()));
        assert(bytes.subrange(offset, offset + 8) =~= part.subrange(0, 8)) by {
            assert(bytes.subrange(offset, offset + part.len()).subrange(0, 8) =~= bytes.subrange(
                offset,
                offset + 8,
            ));
        }
        assert(part.subrange(0, 8) =~= le_bytes(frames[k].len(), 8));
        assert(bytes.subrange(offset + 8, offset + part.len()) =~= frames[k]) by {
            assert(bytes.subrange(offset, offset + part.len()).subrange(8, part.len() as int)
                =~= bytes.subrange(offset + 8, offset + part.len()));
            assert(part.subrange(8, part.len() as int) =~= frames[k]);
        }
        assert(frames.take(k).push(frames[k]) =~= frames.take(k + 1));
        lemma_walk_from(head, header, frames, footer, k + 1);
    }
}

/// Why a row cannot be turned into an event.
#[derive(Debug, Clone, Copy, PartialEq, Eq, Structural)]
pub enum RowError {
    /// The record bytes are no DAG-CBOR value.
    UndecodableRecord,
    UnknownKind { kind: u8 },
}

/// Whether a kind is that of a record mutation.
pub open spec fn commit_kind(kind: u8) -> bool {
    kind == KIND_CREATE || kind == KIND_UPDATE || kind == KIND_DELETE || kind == KIND_CREATE_RESYNC
}

impl RawEventView {
    /// The display timestamp: the imported `indexed_at` when set, else the
    /// witnessed time.
    pub open spec fn time_us(self) -> i64 {
        if self.indexed_at != 0 {
            self.indexed_at
        } else {
            self.witnessed_at
        }
    }

    /// The wire word of a mutation.
    pub open spec fn operation(self) -> Seq<char> {
        if self.kind == KIND_UPDATE {
            "update"@
        } else if self.kind == KIND_DELETE {
            "delete"@
        } else {
            "create"@
        }
    }

    /// Whether the row carries a record.
    pub open spec fn materialises(self) -> bool {
        self.kind != KIND_DELETE && self.payload.len() > 0
    }

    /// The event of a row, with or without its record.
    pub open spec fn event(self, decode_record: bool) -> Result<EventView, RowError> {
        let with_record = decode_record && self.materialises();
        if commit_kind(self.kind) {
            if with_record && record_form(self.payload) is None {
                Err(RowError::UndecodableRecord)
            } else {
                Ok(
                    self.event_of(
                        PayloadView::Commit(
                            CommitView {
                                operation: self.operation(),
                                collection: self.collection,
                                rkey: self.rkey,
                                rev: self.rev,
                                record: if with_record {
                                    record_form(self.payload)
                                } else {
                                    None
                                },
                                cid: if with_record {
                                    Some(cid_of_digest(sha256(self.payload)))
                                } else {
                                    None
                                },
                            },
                        ),
                    ),
                )
            }
        } else if self.kind == KIND_IDENTITY {
            Ok(self.event_of(PayloadView::Identity))
        } else if self.kind == KIND_ACCOUNT {
            Ok(self.event_of(PayloadView::Account))
        } else if self.kind == KIND_SYNC {
            Ok(self.event_of(PayloadView::Sync))
        } else {
            Err(RowError::UnknownKind { kind: self.kind })
        }
    }

    /// The event of a row with the given kind-specific part.
    pub open spec fn event_of(self, payload: PayloadView) -> EventView {
        EventView { seq: self.seq, did: self.did, time_us: self.time_us(), payload }
    }
}

impl RawEvent {
    /// The display timestamp: the imported `indexed_at` when set, else the
    /// witnessed time.
    pub fn time_us(&self) -> (r: i64)
        ensures
            r == self@.time_us(),
    {
        if self.indexed_at != 0 {
            self.indexed_at
        } else {
            self.witnessed_at
        }
    }

    /// Converts a row to the shared event model. Without `decode_record` the
    /// commits carry no record and no identifier, like deletes on the wire.
    pub fn to_event(&self, decode_record: bool) -> (r: Result<Event, RowError>)
        ensures
            match self@.event(decode_record) {
                Ok(event) => r matches Ok(got) && got@ == event,
                Err(e) => r == Err::<Event, RowError>(e),
            },
    {
        let payload = if self.kind == KIND_CREATE || self.kind == KIND_UPDATE || self.kind
            == KIND_DELETE || self.kind == KIND_CREATE_RESYNC {
            let operation = if self.kind == KIND_UPDATE {
                "update"
            } else if self.kind == KIND_DELETE {
                "delete"
            } else {
                "create"
            };
            let materialises = self.kind != KIND_DELETE && self.payload.len() > 0;
            let (record, cid) = if decode_record && materialises {
                match record_json(self.payload.as_slice()) {
                    None => {
                        return Err(RowError::UndecodableRecord);
                    },
                    Some(record) => (Some(record), Some(record_cid(self.payload.as_slice()))),
                }
            } else {
                (None, None)
            };
            Payload::Commit(
                Commit {
                    operation: operation.to_owned(),
                    collection: self.collection.clone(),
                    rkey: self.rkey.clone(),
                    rev: self.rev.clone(),
                    record,
                    cid,
                },
            )
        } else if self.kind == KIND_IDENTITY {
            Payload::Identity
        } else if self.kind == KIND_ACCOUNT {
            Payload::Account
        } else if self.kind == KIND_SYNC {
            Payload::Sync
        } else {
            return Err(RowError::UnknownKind { kind: self.kind });
        };
        Ok(Event { seq: self.seq, did: self.did.clone(), time_us: self.time_us(), payload })
    }
}

/// Every row of a block that decodes has a kind the event model knows: only
/// its record bytes can keep it from becoming an event.
pub proof fn law_decoded_rows_convert(buf: Seq<u8>, i: int, decode_record: bool)
    ensures
        block_rows(buf) matches Ok(rows) ==> (0 <= i < rows.len() ==> {
            &&& known_kind(rows[i].kind)
            &&& rows[i].event(decode_record) matches Err(e) ==> e == RowError::UndecodableRecord
            &&& rows[i].event(decode_record) is Err ==> decode_record && rows[i].materialises()
        }),
{
    law_encode_of_decoded(buf);
    if let Ok(rows) = block_rows(buf) {
        if 0 <= i < rows.len() {
            assert(storable_row(rows[i]));
        }
    }
}

} // verus!
