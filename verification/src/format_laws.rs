//! Where the archive keeps what it holds: the bytes that rows, headers and
//! frames are read from, and what requests and posts are made of.
use vstd::prelude::*;
use vstd::utf8::{decode_utf8, encode_utf8};

use crate::bytes::{le_value, signed_value};
use crate::jss::{
    admit_size, block_views, blocks_of, byte_views, decode_block_body, decode_block_frame,
    first_invalid_kind, for_each_block, framed, joined, le_column, pieces_at, prefixed, read_header,
    row_views, segment_frames, texts_at, BlockError, ContentSize, RawEvent, SegmentError,
    SegmentHeader,
};
use crate::likes::{chunk_views, chunked, notification_script, uri_chunks};
use crate::models::{Post, Source};
use crate::search::MatchType;
use crate::text::text_views;
use crate::time::CivilDateTime;
use crate::wire::{member_views, name_views, pick_members, values_of};

verus! {

// ---- numbers in bytes ----

/// The number in two bytes, the lower one first.
pub open spec fn two(bytes: Seq<u8>, at: int) -> int {
    bytes[at] + 0x100 * bytes[at + 1]
}

/// The number in four bytes, the lowest one first.
pub open spec fn four(bytes: Seq<u8>, at: int) -> int {
    two(bytes, at) + 0x1_0000 * two(bytes, at + 2)
}

/// The number in eight bytes, the lowest one first.
pub open spec fn eight(bytes: Seq<u8>, at: int) -> int {
    four(bytes, at) + 0x1_0000_0000 * four(bytes, at + 4)
}

/// The signed number in eight bytes, in two's complement.
pub open spec fn signed_eight(bytes: Seq<u8>, at: int) -> int {
    if bytes[at + 7] < 0x80 {
        eight(bytes, at)
    } else {
        eight(bytes, at) - 0x1_0000_0000_0000_0000
    }
}

proof fn lemma_one(bytes: Seq<u8>, at: int)
    requires
        0 <= at < bytes.len(),
    ensures
        le_value(bytes.subrange(at, at + 1)) == bytes[at],
{
    reveal_with_fuel(le_value, 2);
}

proof fn lemma_split(bytes: Seq<u8>, at: int, k: int)
    requires
        0 <= at,
        0 <= k,
        at + k < bytes.len(),
    ensures
        le_value(bytes.subrange(at, at + k + 1)) == bytes[at] + 0x100 * le_value(
            bytes.subrange(at + 1, at + 1 + k),
        ),
{
    let part = bytes.subrange(at, at + k + 1);
    assert(part[0] == bytes[at]);
    assert(part.skip(1) =~= bytes.subrange(at + 1, at + 1 + k));
}

proof fn lemma_two(bytes: Seq<u8>, at: int)
    requires
        0 <= at,
        at + 2 <= bytes.len(),
    ensures
        le_value(bytes.subrange(at, at + 2)) == two(bytes, at),
{
    lemma_split(bytes, at, 1);
    lemma_one(bytes, at + 1);
}

proof fn lemma_four(bytes: Seq<u8>, at: int)
    requires
        0 <= at,
        at + 4 <= bytes.len(),
    ensures
        le_value(bytes.subrange(at, at + 4)) == four(bytes, at),
{
    lemma_split(bytes, at, 3);
    lemma_split(bytes, at + 1, 2);
    lemma_two(bytes, at + 2);
}

proof fn lemma_eight(bytes: Seq<u8>, at: int)
    requires
        0 <= at,
        at + 8 <= bytes.len(),
    ensures
        le_value(bytes.subrange(at, at + 8)) == eight(bytes, at),
        signed_value(le_value(bytes.subrange(at, at + 8))) == signed_eight(bytes, at),
{
    lemma_split(bytes, at, 7);
    lemma_split(bytes, at + 1, 6);
    lemma_split(bytes, at + 2, 5);
    lemma_split(bytes, at + 3, 4);
    lemma_four(bytes, at + 4);
}

// ---- blocks ----

/// The sum of some lengths.
pub open spec fn total(lens: Seq<nat>) -> nat
    decreases lens.len(),
{
    if lens.len() == 0 {
        0
    } else {
        total(lens.drop_last()) + lens.last()
    }
}

/// The bytes of the `i`-th of some pieces that stand one behind the other.
spec fn piece(buf: Seq<u8>, off: int, lens: Seq<nat>, i: int) -> Seq<u8> {
    buf.subrange(off + total(lens.take(i)), off + total(lens.take(i)) + lens[i])
}

proof fn lemma_total(lens: Seq<nat>, i: int)
    requires
        0 <= i < lens.len(),
    ensures
        total(lens.take(i)) + lens[i] <= total(lens),
    decreases lens.len(),
{
    let rest = lens.drop_last();
    if i < rest.len() {
        lemma_total(rest, i);
        assert(rest.take(i) =~= lens.take(i));
    } else {
        assert(lens.take(i) =~= rest);
    }
}

proof fn lemma_texts_at(
    buf: Seq<u8>,
    off: int,
    lens: Seq<nat>,
    texts: Seq<Seq<char>>,
    end: int,
)
    requires
        0 <= off <= buf.len(),
        texts_at(buf, off, lens) == Ok::<(Seq<Seq<char>>, int), BlockError>((texts, end)),
    ensures
        texts.len() == lens.len(),
        end == off + total(lens),
        end <= buf.len(),
        forall|i: int|
            0 <= i < lens.len() ==> encode_utf8(#[trigger] texts[i]) == piece(buf, off, lens, i),
    decreases lens.len(),
{
    if lens.len() > 0 {
        let rest = lens.drop_last();
        let (before, middle) = texts_at(buf, off, rest)->Ok_0;
        lemma_texts_at(buf, off, rest, before, middle);
        let last = buf.subrange(middle, middle + lens.last());
        assert(texts == before.push(decode_utf8(last)));
        vstd::utf8::decode_utf8_encode_utf8(last);
        assert forall|i: int| 0 <= i < lens.len() implies encode_utf8(#[trigger] texts[i])
            == piece(buf, off, lens, i) by {
            if i < rest.len() {
                assert(lens.take(i) =~= rest.take(i));
                assert(texts[i] == before[i]);
                assert(piece(buf, off, lens, i) == piece(buf, off, rest, i));
            } else {
                assert(lens.take(i) =~= rest);
            }
        }
    }
}

proof fn lemma_pieces_at(
    buf: Seq<u8>,
    off: int,
    lens: Seq<nat>,
    pieces: Seq<Seq<u8>>,
    end: int,
)
    requires
        0 <= off <= buf.len(),
        pieces_at(buf, off, lens) == Ok::<(Seq<Seq<u8>>, int), BlockError>((pieces, end)),
    ensures
        pieces.len() == lens.len(),
        end == off + total(lens),
        end <= buf.len(),
        forall|i: int| 0 <= i < lens.len() ==> #[trigger] pieces[i] == piece(buf, off, lens, i),
    decreases lens.len(),
{
    if lens.len() > 0 {
        let rest = lens.drop_last();
        let (before, middle) = pieces_at(buf, off, rest)->Ok_0;
        lemma_pieces_at(buf, off, rest, before, middle);
        assert(pieces == before.push(buf.subrange(middle, end)));
        assert forall|i: int| 0 <= i < lens.len() implies #[trigger] pieces[i] == piece(
            buf,
            off,
            lens,
            i,
        ) by {
            if i < rest.len() {
                assert(lens.take(i) =~= rest.take(i));
                assert(pieces[i] == before[i]);
                assert(piece(buf, off, lens, i) == piece(buf, off, rest, i));
            } else {
                assert(lens.take(i) =~= rest);
            }
        }
    }
}

/// The encoded lengths of the collections of rows.
pub open spec fn collection_lengths(rows: Seq<RawEvent>) -> Seq<nat> {
    Seq::new(rows.len(), |i: int| encode_utf8(rows[i].collection@).len())
}

/// The encoded lengths of the accounts of rows.
pub open spec fn did_lengths(rows: Seq<RawEvent>) -> Seq<nat> {
    Seq::new(rows.len(), |i: int| encode_utf8(rows[i].did@).len())
}

/// The encoded lengths of the keys of rows.
pub open spec fn rkey_lengths(rows: Seq<RawEvent>) -> Seq<nat> {
    Seq::new(rows.len(), |i: int| encode_utf8(rows[i].rkey@).len())
}

/// The encoded lengths of the revisions of rows.
pub open spec fn rev_lengths(rows: Seq<RawEvent>) -> Seq<nat> {
    Seq::new(rows.len(), |i: int| encode_utf8(rows[i].rev@).len())
}

/// The lengths of the payloads of rows.
pub open spec fn payload_lengths(rows: Seq<RawEvent>) -> Seq<nat> {
    Seq::new(rows.len(), |i: int| rows[i].payload@.len())
}

/// Whether a text stands in the bytes.
pub open spec fn text_stands(buf: Seq<u8>, at: int, text: Seq<char>) -> bool {
    &&& 0 <= at
    &&& at + encode_utf8(text).len() <= buf.len()
    &&& buf.subrange(at, at + encode_utf8(text).len() as int) == encode_utf8(text)
}

/// The rows of a block stand in its columns: behind the count the numbers,
/// times and kinds, then the lengths, then the texts and the payloads, each
/// column one behind the other, and nothing behind the last.
pub proof fn law_rows_stand_in_columns(
    buf: &[u8],
    r: Result<Vec<RawEvent>, BlockError>,
    i: int,
)
    requires
        call_ensures(decode_block_body, (buf,), r),
    ensures
        r matches Ok(rows) ==> {
            let n = rows@.len() as int;
            let texts = 4 + 34 * n;
            let dids = texts + total(collection_lengths(rows@));
            let rkeys = dids + total(did_lengths(rows@));
            let revs = rkeys + total(rkey_lengths(rows@));
            let payloads = revs + total(rev_lengths(rows@));
            &&& buf@.len() == payloads + total(payload_lengths(rows@))
            &&& n == four(buf@, 0)
            &&& 0 <= i < n ==> {
                let row = rows@[i];
                &&& row.seq == eight(buf@, 4 + 8 * i)
                &&& row.witnessed_at == signed_eight(buf@, 4 + 8 * n + 8 * i)
                &&& row.indexed_at == signed_eight(buf@, 4 + 16 * n + 8 * i)
                &&& row.kind == buf@[4 + 24 * n + i] && 1 <= row.kind <= 7
                &&& encode_utf8(row.collection@).len() == buf@[4 + 25 * n + i]
                &&& encode_utf8(row.did@).len() == two(buf@, 4 + 26 * n + 2 * i)
                &&& encode_utf8(row.rkey@).len() == buf@[4 + 28 * n + i]
                &&& encode_utf8(row.rev@).len() == buf@[4 + 29 * n + i]
                &&& row.payload@.len() == four(buf@, 4 + 30 * n + 4 * i)
                &&& text_stands(
                    buf@,
                    texts + total(collection_lengths(rows@).take(i)),
                    row.collection@,
                )
                &&& text_stands(buf@, dids + total(did_lengths(rows@).take(i)), row.did@)
                &&& text_stands(buf@, rkeys + total(rkey_lengths(rows@).take(i)), row.rkey@)
                &&& text_stands(buf@, revs + total(rev_lengths(rows@).take(i)), row.rev@)
                &&& row.payload@ == buf@.subrange(
                    payloads + total(payload_lengths(rows@).take(i)),
                    payloads + total(payload_lengths(rows@).take(i)) + row.payload@.len(),
                )
            }
        },
{
    if let Ok(rows) = r {
        let b = buf@;
        let n = rows@.len() as int;
        lemma_count(b, rows@);
        lemma_four(b, 0);
        if n == 0 {
            assert(collection_lengths(rows@) =~= Seq::empty());
            assert(did_lengths(rows@) =~= Seq::empty());
            assert(rkey_lengths(rows@) =~= Seq::empty());
            assert(rev_lengths(rows@) =~= Seq::empty());
            assert(payload_lengths(rows@) =~= Seq::empty());
        } else {
            lemma_row_places(b, rows@, n, i);
            if 0 <= i < n {
                lemma_fixed_columns(b, rows@, n, i);
            }
        }
    }
}

proof fn lemma_count(b: Seq<u8>, rows: Seq<RawEvent>)
    requires
        crate::jss::block_rows(b) == Ok::<Seq<crate::jss::RawEventView>, BlockError>(
            row_views(rows),
        ),
    ensures
        b.len() >= 4 + 34 * rows.len(),
        le_value(b.subrange(0, 4)) == rows.len(),
        rows.len() > 0 ==> first_invalid_kind(
            b.subrange(4 + 24 * rows.len() as int, 4 + 25 * rows.len() as int),
        ) is None && crate::jss::rows_with_columns(b, rows.len() as int) == Ok::<
            Seq<crate::jss::RawEventView>,
            BlockError,
        >(row_views(rows)),
        rows.len() == 0 ==> b.len() == 4,
{
    let n = le_value(b.subrange(0, 4)) as int;
    assert(row_views(rows).len() == rows.len());
    if n > 0 {
        assert(crate::jss::rows_with_columns(b, n) is Ok);
        assert(crate::jss::rows_with_columns(b, n)->Ok_0.len() == n);
    }
}

proof fn lemma_fixed_columns(b: Seq<u8>, rows: Seq<RawEvent>, n: int, i: int)
    requires
        crate::jss::block_rows(b) == Ok::<Seq<crate::jss::RawEventView>, BlockError>(
            row_views(rows),
        ),
        n == rows.len(),
        0 <= i < n,
    ensures
        rows[i].seq == eight(b, 4 + 8 * i),
        rows[i].witnessed_at == signed_eight(b, 4 + 8 * n + 8 * i),
        rows[i].indexed_at == signed_eight(b, 4 + 16 * n + 8 * i),
        rows[i].kind == b[4 + 24 * n + i],
        1 <= rows[i].kind <= 7,
{
    lemma_count(b, rows);
    lemma_eight(b, 4 + 8 * i);
    lemma_eight(b, 4 + 8 * n + 8 * i);
    lemma_eight(b, 4 + 16 * n + 8 * i);
    assert(4 + i * 8 == 4 + 8 * i);
    assert(row_views(rows)[i] == rows[i]@);
    let kinds = b.subrange(4 + 24 * n, 4 + 25 * n);
    assert(kinds[i] == b[4 + 24 * n + i]);
    lemma_kinds(kinds, i);
}

proof fn lemma_kinds(kinds: Seq<u8>, i: int)
    requires
        first_invalid_kind(kinds) is None,
        0 <= i < kinds.len(),
    ensures
        1 <= kinds[i] <= 7,
    decreases kinds.len(),
{
    if i > 0 {
        lemma_kinds(kinds.skip(1), i - 1);
        assert(kinds.skip(1)[i - 1] == kinds[i]);
    }
}

/// The columns of texts and payloads of a block, and where they end.
proof fn lemma_columns(b: Seq<u8>, rows: Seq<RawEvent>, n: int) -> (r: (
    (Seq<Seq<char>>, int),
    (Seq<Seq<char>>, int),
    (Seq<Seq<char>>, int),
    (Seq<Seq<char>>, int),
    Seq<Seq<u8>>,
))
    requires
        crate::jss::block_rows(b) == Ok::<Seq<crate::jss::RawEventView>, BlockError>(
            row_views(rows),
        ),
        n == rows.len() > 0,
    ensures
        b.len() >= 4 + 34 * n,
        texts_at(b, 4 + 34 * n, le_column(b, 4 + 25 * n, 1, n)) == Ok::<
            (Seq<Seq<char>>, int),
            BlockError,
        >(r.0),
        texts_at(b, r.0.1, le_column(b, 4 + 26 * n, 2, n)) == Ok::<
            (Seq<Seq<char>>, int),
            BlockError,
        >(r.1),
        texts_at(b, r.1.1, le_column(b, 4 + 28 * n, 1, n)) == Ok::<
            (Seq<Seq<char>>, int),
            BlockError,
        >(r.2),
        texts_at(b, r.2.1, le_column(b, 4 + 29 * n, 1, n)) == Ok::<
            (Seq<Seq<char>>, int),
            BlockError,
        >(r.3),
        pieces_at(b, r.3.1, le_column(b, 4 + 30 * n, 4, n)) == Ok::<
            (Seq<Seq<u8>>, int),
            BlockError,
        >((r.4, b.len() as int)),
        forall|i: int|
            0 <= i < n ==> {
                let row = #[trigger] rows[i];
                &&& row.collection@ == r.0.0[i]
                &&& row.did@ == r.1.0[i]
                &&& row.rkey@ == r.2.0[i]
                &&& row.rev@ == r.3.0[i]
                &&& row.payload@ == r.4[i]
            },
{
    lemma_count(b, rows);
    let c = texts_at(b, 4 + 34 * n, le_column(b, 4 + 25 * n, 1, n))->Ok_0;
    let d = texts_at(b, c.1, le_column(b, 4 + 26 * n, 2, n))->Ok_0;
    let k = texts_at(b, d.1, le_column(b, 4 + 28 * n, 1, n))->Ok_0;
    let v = texts_at(b, k.1, le_column(b, 4 + 29 * n, 1, n))->Ok_0;
    let p = pieces_at(b, v.1, le_column(b, 4 + 30 * n, 4, n))->Ok_0;
    let built = crate::jss::assembled_rows(b, n, c.0, d.0, k.0, v.0, p.0);
    assert(built == row_views(rows));
    assert forall|i: int| 0 <= i < n implies {
        let row = #[trigger] rows[i];
        &&& row.collection@ == c.0[i]
        &&& row.did@ == d.0[i]
        &&& row.rkey@ == k.0[i]
        &&& row.rev@ == v.0[i]
        &&& row.payload@ == p.0[i]
    } by {
        assert(row_views(rows)[i] == rows[i]@);
        assert(built[i].collection == c.0[i]);
    }
    (c, d, k, v, p.0)
}

/// A column of texts, of which the lengths stand in a column of their own.
proof fn lemma_text_column(
    b: Seq<u8>,
    off: int,
    column: Seq<nat>,
    texts: Seq<Seq<char>>,
    end: int,
    lens: Seq<nat>,
)
    requires
        0 <= off <= b.len(),
        texts_at(b, off, column) == Ok::<(Seq<Seq<char>>, int), BlockError>((texts, end)),
        lens.len() == column.len(),
        forall|i: int| 0 <= i < lens.len() ==> #[trigger] lens[i] == encode_utf8(texts[i]).len(),
    ensures
        lens == column,
        texts.len() == column.len(),
        end == off + total(lens),
        end <= b.len(),
        forall|i: int|
            0 <= i < lens.len() ==> text_stands(b, off + total(lens.take(i)), #[trigger] texts[i]),
{
    lemma_texts_at(b, off, column, texts, end);
    assert forall|i: int| 0 <= i < lens.len() implies #[trigger] lens[i] == column[i] by {
        lemma_total(column, i);
        assert(encode_utf8(texts[i]) == piece(b, off, column, i));
    }
    assert(lens =~= column);
    assert forall|i: int| 0 <= i < lens.len() implies text_stands(
        b,
        off + total(lens.take(i)),
        #[trigger] texts[i],
    ) by {
        lemma_total(column, i);
        assert(lens[i] == encode_utf8(texts[i]).len());
    }
}

/// Where the texts and the payload of a row stand.
proof fn lemma_row_places(b: Seq<u8>, rows: Seq<RawEvent>, n: int, i: int)
    requires
        crate::jss::block_rows(b) == Ok::<Seq<crate::jss::RawEventView>, BlockError>(
            row_views(rows),
        ),
        n == rows.len() > 0,
    ensures
        ({
            let texts = 4 + 34 * n;
            let dids = texts + total(collection_lengths(rows));
            let rkeys = dids + total(did_lengths(rows));
            let revs = rkeys + total(rkey_lengths(rows));
            let payloads = revs + total(rev_lengths(rows));
            &&& b.len() == payloads + total(payload_lengths(rows))
            &&& 0 <= i < n ==> {
                let row = rows[i];
                &&& encode_utf8(row.collection@).len() == b[4 + 25 * n + i]
                &&& encode_utf8(row.did@).len() == two(b, 4 + 26 * n + 2 * i)
                &&& encode_utf8(row.rkey@).len() == b[4 + 28 * n + i]
                &&& encode_utf8(row.rev@).len() == b[4 + 29 * n + i]
                &&& row.payload@.len() == four(b, 4 + 30 * n + 4 * i)
                &&& text_stands(
                    b,
                    texts + total(collection_lengths(rows).take(i)),
                    row.collection@,
                )
                &&& text_stands(b, dids + total(did_lengths(rows).take(i)), row.did@)
                &&& text_stands(b, rkeys + total(rkey_lengths(rows).take(i)), row.rkey@)
                &&& text_stands(b, revs + total(rev_lengths(rows).take(i)), row.rev@)
                &&& row.payload@ == b.subrange(
                    payloads + total(payload_lengths(rows).take(i)),
                    payloads + total(payload_lengths(rows).take(i)) + row.payload@.len(),
                )
            }
        }),
{
    let (c, d, k, v, p) = lemma_columns(b, rows, n);
    let l0 = le_column(b, 4 + 25 * n, 1, n);
    let l1 = le_column(b, 4 + 26 * n, 2, n);
    let l2 = le_column(b, 4 + 28 * n, 1, n);
    let l3 = le_column(b, 4 + 29 * n, 1, n);
    let l4 = le_column(b, 4 + 30 * n, 4, n);
    lemma_text_column(b, 4 + 34 * n, l0, c.0, c.1, collection_lengths(rows));
    lemma_text_column(b, c.1, l1, d.0, d.1, did_lengths(rows));
    lemma_text_column(b, d.1, l2, k.0, k.1, rkey_lengths(rows));
    lemma_text_column(b, k.1, l3, v.0, v.1, rev_lengths(rows));
    lemma_pieces_at(b, v.1, l4, p, b.len() as int);
    assert(payload_lengths(rows) =~= l4) by {
        assert forall|j: int| 0 <= j < n implies payload_lengths(rows)[j] == l4[j] by {
            lemma_total(l4, j);
            assert(rows[j].payload@ == p[j]);
            assert(p[j] == piece(b, v.1, l4, j));
        }
    }
    if 0 <= i < n {
        let row = rows[i];
        assert(collection_lengths(rows)[i] == l0[i]);
        assert(did_lengths(rows)[i] == l1[i]);
        assert(rkey_lengths(rows)[i] == l2[i]);
        assert(rev_lengths(rows)[i] == l3[i]);
        assert(payload_lengths(rows)[i] == l4[i]);
        assert(p[i] == piece(b, v.1, l4, i));
        assert(4 + 25 * n + i * 1 == 4 + 25 * n + i);
        assert(4 + 26 * n + i * 2 == 4 + 26 * n + 2 * i);
        assert(4 + 30 * n + i * 4 == 4 + 30 * n + 4 * i);
        lemma_one(b, 4 + 25 * n + i);
        lemma_two(b, 4 + 26 * n + 2 * i);
        lemma_one(b, 4 + 28 * n + i);
        lemma_one(b, 4 + 29 * n + i);
        lemma_four(b, 4 + 30 * n + 4 * i);
    }
}

/// A block that claims too many events is refused for it, and no other is; one
/// that is too short for its count is no block.
pub proof fn law_counts_are_bounded(buf: &[u8], r: Result<Vec<RawEvent>, BlockError>)
    requires
        call_ensures(decode_block_body, (buf,), r),
        buf@.len() >= 4,
    ensures
        four(buf@, 0) > 262_144 <==> (r matches Err(BlockError::TooManyEvents { events })),
        r matches Err(BlockError::TooManyEvents { events }) ==> events == four(buf@, 0),
        buf@.len() < 4 + 34 * four(buf@, 0) ==> r is Err,
        four(buf@, 0) == 0 && buf@.len() == 4 ==> (r matches Ok(rows) && rows@.len() == 0),
        four(buf@, 0) == 0 && buf@.len() > 4 ==> r == Err::<Vec<RawEvent>, BlockError>(
            BlockError::TrailingAfterEmpty,
        ),
{
    lemma_four(buf@, 0);
    let n = four(buf@, 0);
    if 0 < n <= 262_144 && buf@.len() >= 4 + 34 * n {
        lemma_other_errors(buf@, n);
    }
    if let Ok(rows) = r {
        lemma_count(buf@, rows@);
        assert(row_views(rows@).len() == rows@.len());
    }
}

proof fn lemma_other_errors(b: Seq<u8>, n: int)
    ensures
        crate::jss::rows_with_columns(b, n) matches Err(e) ==> !(e is TooManyEvents),
{
    lemma_texts_error(b, 4 + 34 * n, le_column(b, 4 + 25 * n, 1, n));
    if let Ok((c, at)) = texts_at(b, 4 + 34 * n, le_column(b, 4 + 25 * n, 1, n)) {
        lemma_texts_error(b, at, le_column(b, 4 + 26 * n, 2, n));
        if let Ok((d, at)) = texts_at(b, at, le_column(b, 4 + 26 * n, 2, n)) {
            lemma_texts_error(b, at, le_column(b, 4 + 28 * n, 1, n));
            if let Ok((k, at)) = texts_at(b, at, le_column(b, 4 + 28 * n, 1, n)) {
                lemma_texts_error(b, at, le_column(b, 4 + 29 * n, 1, n));
                if let Ok((v, at)) = texts_at(b, at, le_column(b, 4 + 29 * n, 1, n)) {
                    lemma_pieces_error(b, at, le_column(b, 4 + 30 * n, 4, n));
                }
            }
        }
    }
}

proof fn lemma_texts_error(b: Seq<u8>, off: int, lens: Seq<nat>)
    ensures
        texts_at(b, off, lens) matches Err(e) ==> e is Truncated || e is NotUtf8,
    decreases lens.len(),
{
    if lens.len() > 0 {
        lemma_texts_error(b, off, lens.drop_last());
    }
}

proof fn lemma_pieces_error(b: Seq<u8>, off: int, lens: Seq<nat>)
    ensures
        pieces_at(b, off, lens) matches Err(e) ==> e is Truncated,
    decreases lens.len(),
{
    if lens.len() > 0 {
        lemma_pieces_error(b, off, lens.drop_last());
    }
}

/// A frame is decompressed exactly where it declares a size, and one that is
/// not too large.
pub proof fn law_sizes_are_bounded(size: ContentSize, r: Result<u64, BlockError>)
    requires
        call_ensures(admit_size, (size,), r),
    ensures
        r is Ok <==> (size matches ContentSize::Declared(declared) && declared <= 256 * 1024 * 1024),
        r matches Ok(capacity) ==> size == ContentSize::Declared(capacity),
        size is Bad <==> r == Err::<u64, BlockError>(BlockError::BadFrame),
        size is Undeclared <==> r == Err::<u64, BlockError>(BlockError::UndeclaredSize),
{
}

// ---- segment files ----

/// The header of a sealed segment is read field by field, behind the letters
/// `jss0` and a checksum that is set.
pub proof fn law_headers_are_read(bytes: &[u8; 256], r: Result<SegmentHeader, SegmentError>)
    requires
        call_ensures(read_header, (bytes,), r),
    ensures
        r is Ok <==> bytes@[0] == 'j' as u8 && bytes@[1] == 's' as u8 && bytes@[2] == 's' as u8
            && bytes@[3] == '0' as u8 && eight(bytes@, 4) != 0 && two(bytes@, 12) == 1,
        r matches Ok(header) ==> {
            &&& header.version == 1
            &&& header.block_count == four(bytes@, 14)
            &&& header.event_count == four(bytes@, 18)
            &&& header.min_seq == eight(bytes@, 26)
            &&& header.max_seq == eight(bytes@, 34)
            &&& header.footer_offset == eight(bytes@, 58)
        },
{
    let b = bytes@;
    lemma_eight(b, 4);
    lemma_two(b, 12);
    lemma_four(b, 14);
    lemma_four(b, 18);
    lemma_eight(b, 26);
    lemma_eight(b, 34);
    lemma_eight(b, 58);
    let magic = seq![0x6au8, 0x73u8, 0x73u8, 0x30u8];
    if b[0] == 0x6a && b[1] == 0x73 && b[2] == 0x73 && b[3] == 0x30 {
        assert(b.subrange(0, 4) =~= magic);
    } else {
        assert(b.subrange(0, 4)[0] == b[0] && b.subrange(0, 4)[1] == b[1]);
        assert(b.subrange(0, 4)[2] == b[2] && b.subrange(0, 4)[3] == b[3]);
    }
}

/// A sealed segment is cut into the frames that were written to it, whatever
/// its footer holds.
pub proof fn law_segments_are_cut_into_frames(
    bytes: &[u8],
    head: Seq<u8>,
    frames: Seq<Seq<u8>>,
    footer: Seq<u8>,
    r: (Vec<Vec<u8>>, Option<SegmentError>),
    i: int,
)
    requires
        call_ensures(segment_frames, (bytes,), r),
        bytes@ == head + joined(prefixed(frames)) + footer,
        head.len() == 256,
        head[0] == 0x6a && head[1] == 0x73 && head[2] == 0x73 && head[3] == 0x30,
        eight(head, 4) != 0,
        two(head, 12) == 1,
        four(head, 14) == frames.len(),
        eight(head, 58) == 256 + joined(prefixed(frames)).len(),
    ensures
        r.1 is None,
        r.0@.len() == frames.len(),
        0 <= i < frames.len() ==> r.0@[i]@ == frames[i],
{
    lemma_eight(head, 4);
    lemma_two(head, 12);
    lemma_four(head, 14);
    lemma_eight(head, 58);
    assert(head.subrange(0, 4) =~= seq![0x6au8, 0x73u8, 0x73u8, 0x30u8]);
    let header = crate::jss::segment_header(head)->Ok_0;
    crate::jss::law_segment_walk(head, header, frames, footer);
    assert(byte_views(r.0@) == frames);
    assert(byte_views(r.0@).len() == r.0@.len());
    if 0 <= i < frames.len() {
        assert(byte_views(r.0@)[i] == r.0@[i]@);
    }
}

/// The blocks of a segment are those of its frames, in their order, up to the
/// first that cannot be decoded.
pub proof fn law_blocks_are_those_of_the_frames(
    bytes: &[u8],
    cut: (Vec<Vec<u8>>, Option<SegmentError>),
    walk: (Vec<Vec<RawEvent>>, Option<SegmentError>),
    i: int,
    frame: &[u8],
    block: Result<Vec<RawEvent>, BlockError>,
)
    requires
        call_ensures(segment_frames, (bytes,), cut),
        call_ensures(for_each_block, (bytes,), walk),
        0 <= i < cut.0@.len(),
        frame@ == cut.0@[i]@,
        call_ensures(decode_block_frame, (frame,), block),
    ensures
        walk.0@.len() <= cut.0@.len(),
        i < walk.0@.len() ==> (block matches Ok(rows) && row_views(rows@) == row_views(
            walk.0@[i]@,
        )),
        i == walk.0@.len() ==> (block matches Err(e) && walk.1 == Some(SegmentError::Block(e))),
        walk.0@.len() == cut.0@.len() ==> walk.1 == cut.1,
{
    let frames = framed(bytes@).0;
    assert(byte_views(cut.0@)[i] == cut.0@[i]@);
    assert(byte_views(cut.0@).len() == cut.0@.len());
    lemma_blocks_of(frames, i);
    assert(block_views(walk.0@).len() == walk.0@.len());
    if i < walk.0@.len() {
        assert(block_views(walk.0@)[i] == row_views(walk.0@[i]@));
    }
}

proof fn lemma_blocks_of(frames: Seq<Seq<u8>>, i: int)
    requires
        0 <= i < frames.len(),
    ensures
        ({
            let (blocks, failed) = blocks_of(frames);
            &&& blocks.len() <= frames.len()
            &&& blocks.len() == frames.len() <==> failed is None
            &&& i < blocks.len() ==> crate::jss::frame_rows(frames[i]) == Ok::<
                Seq<crate::jss::RawEventView>,
                BlockError,
            >(blocks[i])
            &&& i == blocks.len() ==> (crate::jss::frame_rows(frames[i]) matches Err(e) && failed
                == Some(e))
        }),
    decreases frames.len(),
{
    let rest = frames.drop_last();
    if i < rest.len() {
        lemma_blocks_of(rest, i);
        assert(rest[i] == frames[i]);
    } else if rest.len() > 0 {
        lemma_blocks_of(rest, rest.len() - 1);
    }
}

// ---- requests and posts ----

/// Addresses are asked for in requests of twenty-five, the last of which may
/// be smaller; together they are the addresses in their order.
pub proof fn law_requests_hold_every_address(
    uris: Vec<String>,
    r: Vec<Vec<String>>,
    k: int,
)
    requires
        call_ensures(uri_chunks, (uris,), r),
    ensures
        r@.len() == (uris@.len() + 24) / 25,
        0 <= k < uris@.len() ==> k % 25 < r@[k / 25]@.len() && r@[k / 25]@[k % 25]@ == uris@[k]@,
        0 <= k < r@.len() ==> 0 < r@[k]@.len() <= 25,
        0 <= k < r@.len() - 1 ==> r@[k]@.len() == 25,
{
    let all = text_views(uris@);
    assert(chunk_views(r@).len() == r@.len());
    lemma_chunks(all, k);
    if 0 <= k < uris@.len() {
        lemma_chunks(all, k / 25);
        assert(all[k] == uris@[k]@);
        assert(chunk_views(r@)[k / 25] == text_views(r@[k / 25]@));
        assert(text_views(r@[k / 25]@)[k % 25] == r@[k / 25]@[k % 25]@);
    }
    if 0 <= k < r@.len() {
        assert(chunk_views(r@)[k] == text_views(r@[k]@));
        assert(text_views(r@[k]@).len() == r@[k]@.len());
    }
}

proof fn lemma_chunks(all: Seq<Seq<char>>, k: int)
    ensures
        chunked(all).len() == (all.len() + 24) / 25,
        0 <= k < all.len() ==> k / 25 < chunked(all).len() && k % 25 < chunked(all)[k / 25].len()
            && chunked(all)[k / 25][k % 25] == all[k],
        0 <= k < chunked(all).len() ==> 0 < chunked(all)[k].len() <= 25,
        0 <= k < chunked(all).len() - 1 ==> chunked(all)[k].len() == 25,
    decreases all.len(),
{
    if all.len() > 0 {
        let (batch, rest) = crate::likes::batch_of(all);
        lemma_chunks(rest, k - 25);
        lemma_chunks(rest, k - 1);
        assert(chunked(all) == seq![batch] + chunked(rest));
        if k >= 25 {
            assert((k - 25) / 25 == k / 25 - 1);
            assert((k - 25) % 25 == k % 25);
        }
    }
}

/// A post is stored with what it was made of, under the name of its source.
pub proof fn law_posts_hold_what_they_are_made_of(
    uri: String,
    cid: String,
    author_did: String,
    author_handle: String,
    text: String,
    created_at: String,
    source: Source,
    now: CivilDateTime,
    r: Post,
)
    requires
        call_ensures(
            Post::indexed_at,
            (uri, cid, author_did, author_handle, text, created_at, source, now),
            r,
        ),
    ensures
        r.uri@ == uri@,
        r.cid@ == cid@,
        r.author_did@ == author_did@,
        r.author_handle@ == author_handle@,
        r.text@ == text@,
        r.created_at@ == created_at@,
        source == Source::OwnPost ==> r.source@ == "own_post"@,
        source == Source::Like ==> r.source@ == "like"@,
        source == Source::BackfillPost ==> r.source@ == "backfill_post"@,
        source == Source::BackfillLike ==> r.source@ == "backfill_like"@,
{
    assert(r@.uri == r.uri@ && r@.cid == r.cid@ && r@.text == r.text@);
    assert(r@.author_did == r.author_did@ && r@.author_handle == r.author_handle@);
    assert(r@.created_at == r.created_at@ && r@.source == r.source@);
}

/// A result says how it was found.
pub proof fn law_labels_say_how(found: MatchType, r: &'static str)
    requires
        call_ensures(MatchType::label, (&found,), r),
    ensures
        found == MatchType::Keyword ==> r@ == "keyword"@,
        found == MatchType::Semantic ==> r@ == "semantic"@,
        found == MatchType::KeywordAndSemantic ==> r@ == "keyword+semantic"@,
{
}

/// A notification shows its message under its title.
pub proof fn law_notifications_show_their_message(title: &str, message: &str, r: String)
    requires
        call_ensures(notification_script, (title, message), r),
    ensures
        r@ == "display notification \""@ + message@ + "\" with title \""@ + title@ + "\""@,
{
}

// ---- fields of wire records ----

/// A field that stands once among the members is picked, whatever stands
/// around it, one that is missing is left out, and one that stands twice is
/// refused.
pub proof fn law_fields_are_picked(
    members: Vec<(String, &str)>,
    names: Vec<&'static str>,
    r: Option<Vec<Option<&str>>>,
    i: int,
    a: int,
    b: int,
)
    requires
        call_ensures(pick_members, (&members, &names), r),
        0 <= i < names@.len(),
    ensures
        0 <= a < b < members@.len() && members@[a].0@ == names@[i]@ && members@[b].0@ == names@[i]@
            ==> r is None,
        r matches Some(slots) ==> {
            &&& slots@.len() == names@.len()
            &&& 0 <= a < members@.len() && members@[a].0@ == names@[i]@ ==> (
            slots@[i] matches Some(text) && text@ == members@[a].1@)
            &&& (forall|k: int| 0 <= k < members@.len() ==> (#[trigger] members@[k]).0@
                != names@[i]@) ==> slots@[i] is None
        },
{
    let all = member_views(members@);
    let wanted = name_views(names@);
    let values = values_of(all, wanted[i]);
    assert(wanted[i] == names@[i]@);
    if 0 <= a < members@.len() && members@[a].0@ == names@[i]@ {
        assert(all[a] == (members@[a].0@, members@[a].1@));
        lemma_value_counts(all, wanted[i], a, b);
        if 0 <= a < b < members@.len() && members@[b].0@ == names@[i]@ {
            assert(all[b] == (members@[b].0@, members@[b].1@));
        }
    }
    if forall|k: int| 0 <= k < members@.len() ==> (#[trigger] members@[k]).0@ != names@[i]@ {
        assert forall|k: int| 0 <= k < all.len() implies (#[trigger] all[k]).0 != wanted[i] by {
            assert(all[k].0 == members@[k].0@);
        }
        lemma_no_values(all, wanted[i]);
    }
    if let Some(slots) = r {
        assert(slots@.len() == wanted.len());
        let slot = slots@[i];
        assert(values.len() <= 1);
    }
}

pub proof fn lemma_value_counts(all: Seq<(Seq<char>, Seq<char>)>, name: Seq<char>, a: int, b: int)
    requires
        0 <= a < all.len(),
        all[a].0 == name,
    ensures
        values_of(all, name).len() >= 1,
        values_of(all, name).len() == 1 ==> values_of(all, name)[0] == all[a].1,
        a < b < all.len() && all[b].0 == name ==> values_of(all, name).len() >= 2,
    decreases all.len(),
{
    let rest = all.drop_last();
    if a < rest.len() {
        assert(rest[a] == all[a]);
        if b < rest.len() {
            lemma_value_counts(rest, name, a, b);
            if a < b {
                assert(rest[b] == all[b]);
            }
        } else {
            lemma_value_counts(rest, name, a, a);
        }
    }
}

pub proof fn lemma_no_values(all: Seq<(Seq<char>, Seq<char>)>, name: Seq<char>)
    requires
        forall|k: int| 0 <= k < all.len() ==> (#[trigger] all[k]).0 != name,
    ensures
        values_of(all, name).len() == 0,
    decreases all.len(),
{
    if all.len() > 0 {
        let rest = all.drop_last();
        assert forall|k: int| 0 <= k < rest.len() implies (#[trigger] rest[k]).0 != name by {
            assert(rest[k] == all[k]);
        }
        assert(all[all.len() - 1].0 != name);
        lemma_no_values(rest, name);
    }
}

} // verus!
