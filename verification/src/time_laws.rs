//! How times are written, digit by digit.
use vstd::prelude::*;

use crate::text::{decimal, is_white_space, zero_padded};
use crate::time::{
    format_created_at, format_indexed_at, indexed_text, CivilDateTime, OffsetDateTime,
};

verus! {

/// The digit that a character is.
pub open spec fn digit(c: char) -> int {
    c as int - '0' as int
}

/// Whether the characters from `at` on are `width` digits of a number.
pub open spec fn spells_number(text: Seq<char>, at: int, width: nat, value: int) -> bool
    decreases width,
{
    if width == 0 {
        value == 0
    } else {
        &&& '0' <= text[at + width - 1] <= '9'
        &&& digit(text[at + width - 1]) == value % 10
        &&& spells_number(text, at, (width - 1) as nat, value / 10)
    }
}

proof fn lemma_padded(value: nat, width: nat)
    requires
        width >= 1,
    ensures
        zero_padded(value, width + 1) == zero_padded(value / 10, width).push(
            (48 + value % 10) as char,
        ) || decimal(value).len() > width + 1,
{
    let more = (48 + value % 10) as char;
    if value < 10 {
        assert(zero_padded(value, width + 1) =~= zero_padded(0, width).push(more));
    } else {
        assert(decimal(value) == decimal(value / 10).push(more));
        if decimal(value).len() <= width + 1 {
            assert(zero_padded(value, width + 1) =~= zero_padded(value / 10, width).push(more));
        }
    }
}

/// Ten to the power of a width.
spec fn bound(width: nat) -> nat
    decreases width,
{
    if width == 0 {
        1
    } else {
        10 * bound((width - 1) as nat)
    }
}

proof fn lemma_decimal_fits(value: nat, width: nat)
    requires
        width >= 1,
        value < bound(width),
    ensures
        decimal(value).len() <= width,
    decreases width,
{
    if value >= 10 {
        if width == 1 {
            assert(bound(1) == 10) by {
                reveal_with_fuel(bound, 2);
            }
        } else {
            lemma_decimal_fits(value / 10, (width - 1) as nat);
        }
    }
}

/// A number padded to a width that it fits spells itself.
proof fn lemma_padded_spells(value: nat, width: nat)
    requires
        width >= 1,
        value < bound(width),
    ensures
        zero_padded(value, width).len() == width,
        spells_number(zero_padded(value, width), 0, width, value as int),
    decreases width,
{
    lemma_decimal_fits(value, width);
    let text = zero_padded(value, width);
    if width == 1 {
        reveal_with_fuel(bound, 2);
        reveal_with_fuel(spells_number, 2);
        assert(text =~= seq![(48 + value) as char]);
    } else {
        let less = (width - 1) as nat;
        lemma_padded(value, less);
        lemma_padded_spells(value / 10, less);
        let front = zero_padded(value / 10, less);
        assert(text == front.push((48 + value % 10) as char));
        lemma_same_number(front, text, 0, 0, less, value as int / 10);
        assert(text[width - 1] == (48 + value % 10) as char);
    }
}

/// Equal digits spell equal numbers.
proof fn lemma_same_number(
    a: Seq<char>,
    b: Seq<char>,
    at: int,
    there: int,
    width: nat,
    value: int,
)
    requires
        spells_number(a, at, width, value),
        forall|i: int| 0 <= i < width ==> #[trigger] a[at + i] == b[there + i],
    ensures
        spells_number(b, there, width, value),
    decreases width,
{
    if width > 0 {
        let last = width - 1;
        assert(a[at + last] == b[there + last]);
        lemma_same_number(a, b, at, there, (width - 1) as nat, value / 10);
    }
}

/// A padded number within a text.
proof fn lemma_padded_within(front: Seq<char>, value: nat, width: nat, back: Seq<char>)
    requires
        width >= 1,
        value < bound(width),
    ensures
        zero_padded(value, width).len() == width,
        spells_number(
            front + zero_padded(value, width) + back,
            front.len() as int,
            width,
            value as int,
        ),
{
    lemma_padded_spells(value, width);
    let middle = zero_padded(value, width);
    let text = front + middle + back;
    assert forall|i: int| 0 <= i < width implies #[trigger] middle[0 + i] == text[front.len() + i] by {
        assert(text[front.len() + i] == middle[i]);
    }
    lemma_same_number(middle, text, 0, front.len() as int, width, value as int);
}

/// Whether a text starts with a time: year, month and day, a `T`, hour, minute
/// and second, a leap second as second sixty, and the microseconds behind a
/// point exactly where there are any.
pub open spec fn starts_with_time(text: Seq<char>, t: CivilDateTime) -> bool {
    &&& text.len() >= 19
    &&& spells_number(text, 0, 4, t.year as int) && text[4] == '-'
    &&& spells_number(text, 5, 2, t.month as int) && text[7] == '-'
    &&& spells_number(text, 8, 2, t.day as int) && text[10] == 'T'
    &&& spells_number(text, 11, 2, t.hour as int) && text[13] == ':'
    &&& spells_number(text, 14, 2, t.minute as int) && text[16] == ':'
    &&& spells_number(text, 17, 2, t.second + t.nanos / 1_000_000_000)
    &&& t.nanos >= 1000 ==> text.len() >= 26 && text[19] == '.' && spells_number(
        text,
        20,
        6,
        t.nanos as int / 1000 % 1_000_000,
    )
}

/// The length of a time that is written so.
pub open spec fn time_length(t: CivilDateTime) -> int {
    if t.nanos >= 1000 {
        26
    } else {
        19
    }
}

proof fn lemma_time(t: CivilDateTime, back: Seq<char>)
    requires
        t.valid(),
        0 <= t.year <= 9999,
    ensures
        starts_with_time(indexed_text(t) + back, t),
        indexed_text(t).len() == time_length(t),
{
    reveal_with_fuel(bound, 7);
    assert(crate::time::days_in_month(t.year as int, t.month as int) <= 31);
    let year = zero_padded(t.year as nat, 4);
    let month = zero_padded(t.month as nat, 2);
    let day = zero_padded(t.day as nat, 2);
    let hour = zero_padded(t.hour as nat, 2);
    let minute = zero_padded(t.minute as nat, 2);
    let seconds = (t.second + t.nanos / 1_000_000_000) as nat;
    let second = zero_padded(seconds, 2);
    let micros = (t.nanos / 1000 % 1_000_000) as nat;
    let fraction = if t.nanos >= 1000 {
        seq!['.'] + zero_padded(micros, 6)
    } else {
        Seq::<char>::empty()
    };
    assert(seconds < 100);
    lemma_padded_spells(t.year as nat, 4);
    lemma_padded_spells(t.month as nat, 2);
    lemma_padded_spells(t.day as nat, 2);
    lemma_padded_spells(t.hour as nat, 2);
    lemma_padded_spells(t.minute as nat, 2);
    lemma_padded_spells(seconds, 2);
    lemma_padded_spells(micros, 6);
    let text = indexed_text(t) + back;
    let f1 = year + seq!['-'];
    let f2 = f1 + month + seq!['-'];
    let f3 = f2 + day + seq!['T'];
    let f4 = f3 + hour + seq![':'];
    let f5 = f4 + minute + seq![':'];
    let f6 = f5 + second;
    assert(text =~= f6 + fraction + back);
    let b6 = fraction + back;
    let b5 = seq![':'] + second + b6;
    let b4 = seq![':'] + minute + b5;
    let b3 = seq!['T'] + hour + b4;
    let b2 = seq!['-'] + day + b3;
    let b1 = seq!['-'] + month + b2;
    assert(text =~= Seq::<char>::empty() + year + b1);
    lemma_padded_within(Seq::empty(), t.year as nat, 4, b1);
    assert(text =~= f1 + month + b2);
    lemma_padded_within(f1, t.month as nat, 2, b2);
    assert(text =~= f2 + day + b3);
    lemma_padded_within(f2, t.day as nat, 2, b3);
    assert(text =~= f3 + hour + b4);
    lemma_padded_within(f3, t.hour as nat, 2, b4);
    assert(text =~= f4 + minute + b5);
    lemma_padded_within(f4, t.minute as nat, 2, b5);
    assert(text =~= f5 + second + b6);
    lemma_padded_within(f5, seconds, 2, b6);
    if t.nanos >= 1000 {
        let f7 = f6 + seq!['.'];
        assert(text =~= f7 + zero_padded(micros, 6) + back);
        lemma_padded_within(f7, micros, 6, back);
    }
}

/// A time without an offset is written field by field, and nothing behind it.
pub proof fn law_clock_readings_are_spelled_out(dt: CivilDateTime, r: String)
    requires
        call_ensures(format_indexed_at, (dt,), r),
        dt.valid(),
        0 <= dt.year <= 9999,
    ensures
        starts_with_time(r@, dt),
        r@.len() == time_length(dt),
{
    lemma_time(dt, Seq::empty());
    assert(indexed_text(dt) + Seq::<char>::empty() =~= indexed_text(dt));
}

/// A time with an offset is written field by field, with the sign of the
/// offset, its hours and its minutes behind.
pub proof fn law_offset_times_are_spelled_out(dt: OffsetDateTime, r: String)
    requires
        call_ensures(format_created_at, (dt,), r),
        dt.valid(),
        dt.internet(),
    ensures
        ({
            let at = time_length(dt.local);
            let minutes = if dt.offset < 0 {
                -dt.offset / 60
            } else {
                dt.offset as int / 60
            };
            &&& starts_with_time(r@, dt.local)
            &&& r@.len() == at + 6
            &&& r@[at] == if dt.offset < 0 {
                '-'
            } else {
                '+'
            }
            &&& spells_number(r@, at + 1, 2, minutes / 60)
            &&& r@[at + 3] == ':'
            &&& spells_number(r@, at + 4, 2, minutes % 60)
        }),
{
    reveal_with_fuel(bound, 3);
    let offset = dt.offset as int;
    let size = if offset < 0 {
        -offset
    } else {
        offset
    };
    let minutes = (size + 30) / 60;
    assert(size % 60 == 0);
    assert(minutes == size / 60);
    assert(0 <= minutes < 1440);
    let hours = (minutes / 60) as nat;
    let rest = (minutes % 60) as nat;
    let front = indexed_text(dt.local);
    let sign = if offset < 0 {
        seq!['-']
    } else {
        seq!['+']
    };
    let back = crate::time::offset_text(offset);
    lemma_time(dt.local, back);
    lemma_padded_spells(hours, 2);
    lemma_padded_spells(rest, 2);
    let h = zero_padded(hours, 2);
    let m = zero_padded(rest, 2);
    assert(r@ =~= (front + sign) + h + (seq![':'] + m));
    lemma_padded_within(front + sign, hours, 2, seq![':'] + m);
    assert(r@ =~= (front + sign + h + seq![':']) + m + Seq::<char>::empty());
    lemma_padded_within(front + sign + h + seq![':'], rest, 2, Seq::empty());
}

/// White space is what Unicode says it is.
pub proof fn law_white_space_is_that_of_unicode(c: char, r: bool)
    requires
        call_ensures(is_white_space, (c,), r),
    ensures
        r <==> {
            let code = c as int;
            ||| 0x9 <= code <= 0xd
            ||| code == 0x20 || code == 0x85 || code == 0xa0 || code == 0x1680
            ||| 0x2000 <= code <= 0x200a
            ||| code == 0x2028 || code == 0x2029 || code == 0x202f || code == 0x205f || code
                == 0x3000
        },
{
}

} // verus!
