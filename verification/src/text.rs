//! Text as sequences of characters: conversions and small parsers.
use vstd::prelude::*;
use vstd::slice::slice_subrange;
use vstd::utf8::{decode_utf8, encode_utf8, encode_utf8_decode_utf8, valid_utf8};

verus! {

/// What each text of a list holds.
pub open spec fn text_views(texts: Seq<String>) -> Seq<Seq<char>> {
    Seq::new(texts.len(), |i: int| texts[i]@)
}

/// `String::from_utf8`: the text that the bytes encode, exactly where they
/// are valid UTF-8.
#[verifier::external_body]
pub(crate) fn string_from_utf8(bytes: Vec<u8>) -> (r: Option<String>)
    ensures
        r is Some <==> valid_utf8(bytes@),
        r matches Some(text) ==> text@ == decode_utf8(bytes@),
{
    String::from_utf8(bytes).ok()
}

// ---- comparison ----

/// Whether two texts are the same.
pub fn str_eq(a: &str, b: &str) -> (r: bool)
    ensures
        r == (a@ == b@),
{
    let x = a.as_bytes();
    let y = b.as_bytes();
    proof {
        encode_utf8_decode_utf8(a@);
        encode_utf8_decode_utf8(b@);
    }
    if x.len() != y.len() {
        return false;
    }
    let mut i: usize = 0;
    while i < x.len()
        invariant
            i <= x@.len() == y@.len(),
            x@ == encode_utf8(a@),
            y@ == encode_utf8(b@),
            forall|j: int| 0 <= j < i ==> x@[j] == y@[j],
        decreases x@.len() - i,
    {
        if x[i] != y[i] {
            return false;
        }
        i = i + 1;
    }
    assert(x@ =~= y@);
    true
}

/// Whether a text is one of a list.
pub fn contains_text(texts: &Vec<String>, text: &str) -> (r: bool)
    ensures
        r == text_views(texts@).contains(text@),
{
    let mut i: usize = 0;
    while i < texts.len()
        invariant
            i <= texts@.len(),
            forall|j: int| 0 <= j < i ==> (#[trigger] texts@[j])@ != text@,
        decreases texts@.len() - i,
    {
        if str_eq(texts[i].as_str(), text) {
            assert(text_views(texts@)[i as int] == text@);
            return true;
        }
        i = i + 1;
    }
    false
}

// ---- characters ----

/// The characters of a text, one by one.
pub fn chars_of(text: &str) -> (r: Vec<char>)
    ensures
        r@ == text@,
{
    let mut chars: Vec<char> = Vec::new();
    for c in it: text.chars()
        invariant
            chars@ == it.seq().take(it.index() as int),
            it.seq() == text@,
    {
        chars.push(c);
    }
    assert(chars@ =~= text@);
    chars
}

/// `String::from_iter`: the text that the characters make.
#[verifier::external_body]
pub(crate) fn string_from_chars(chars: &[char]) -> (r: String)
    ensures
        r@ == chars@,
{
    String::from_iter(chars)
}

/// Whether a character is white space by the Unicode property of that name.
pub open spec fn white_space(c: char) -> bool {
    ||| '\u{9}' <= c <= '\u{d}'
    ||| c == ' ' || c == '\u{85}' || c == '\u{a0}' || c == '\u{1680}'
    ||| '\u{2000}' <= c <= '\u{200a}'
    ||| c == '\u{2028}' || c == '\u{2029}' || c == '\u{202f}' || c == '\u{205f}' || c == '\u{3000}'
}

/// Whether a character is white space.
pub fn is_white_space(c: char) -> (r: bool)
    ensures
        r == white_space(c),
{
    ('\u{9}' <= c && c <= '\u{d}') || c == ' ' || c == '\u{85}' || c == '\u{a0}' || c == '\u{1680}'
        || ('\u{2000}' <= c && c <= '\u{200a}') || c == '\u{2028}' || c == '\u{2029}' || c
        == '\u{202f}' || c == '\u{205f}' || c == '\u{3000}'
}

/// Whether a text is nothing but white space.
pub open spec fn blank(text: Seq<char>) -> bool {
    forall|i: int| 0 <= i < text.len() ==> white_space(#[trigger] text[i])
}

/// A text without the white space in front.
pub open spec fn trimmed_start(text: Seq<char>) -> Seq<char>
    decreases text.len(),
{
    if text.len() > 0 && white_space(text[0]) {
        trimmed_start(text.skip(1))
    } else {
        text
    }
}

/// A text without the white space behind.
pub open spec fn trimmed_end(text: Seq<char>) -> Seq<char>
    decreases text.len(),
{
    if text.len() > 0 && white_space(text.last()) {
        trimmed_end(text.drop_last())
    } else {
        text
    }
}

/// A text without the white space around it.
pub open spec fn trimmed(text: Seq<char>) -> Seq<char> {
    trimmed_end(trimmed_start(text))
}

/// The part of some characters from `from` up to `to` that the white space
/// around it leaves.
pub fn trimmed_range(chars: &Vec<char>, from: usize, to: usize) -> (r: (usize, usize))
    requires
        from <= to <= chars@.len(),
    ensures
        from <= r.0 <= r.1 <= to,
        chars@.subrange(r.0 as int, r.1 as int) == trimmed(
            chars@.subrange(from as int, to as int),
        ),
{
    let mut start: usize = from;
    while start < to && is_white_space(chars[start])
        invariant
            from <= start <= to <= chars@.len(),
            trimmed_start(chars@.subrange(from as int, to as int)) == trimmed_start(
                chars@.subrange(start as int, to as int),
            ),
        decreases to - start,
    {
        assert(chars@.subrange(start as int, to as int).skip(1) =~= chars@.subrange(
            start + 1,
            to as int,
        ));
        start = start + 1;
    }
    let ghost front = chars@.subrange(start as int, to as int);
    assert(trimmed_start(front) == front);
    let mut end: usize = to;
    while end > start && is_white_space(chars[end - 1])
        invariant
            start <= end <= to <= chars@.len(),
            trimmed_end(front) == trimmed_end(chars@.subrange(start as int, end as int)),
        decreases end - start,
    {
        assert(chars@.subrange(start as int, end as int).drop_last() =~= chars@.subrange(
            start as int,
            end - 1,
        ));
        end = end - 1;
    }
    (start, end)
}

/// The characters from `from` up to `to`, as a text.
pub fn text_between(chars: &Vec<char>, from: usize, to: usize) -> (r: String)
    requires
        from <= to <= chars@.len(),
    ensures
        r@ == chars@.subrange(from as int, to as int),
{
    string_from_chars(slice_subrange(chars.as_slice(), from, to))
}

/// A text without the white space around it.
pub fn trim(text: &str) -> (r: String)
    ensures
        r@ == trimmed(text@),
{
    let chars = chars_of(text);
    let (start, end) = trimmed_range(&chars, 0, chars.len());
    assert(chars@.subrange(0, chars@.len() as int) =~= chars@);
    text_between(&chars, start, end)
}

/// Whether a text is nothing but white space.
pub fn is_blank(text: &str) -> (r: bool)
    ensures
        r == blank(text@),
{
    let chars = chars_of(text);
    let mut i: usize = 0;
    while i < chars.len()
        invariant
            i <= chars@.len(),
            chars@ == text@,
            forall|j: int| 0 <= j < i ==> white_space(#[trigger] chars@[j]),
        decreases chars@.len() - i,
    {
        if !is_white_space(chars[i]) {
            assert(!white_space(text@[i as int]));
            return false;
        }
        i = i + 1;
    }
    true
}

// ---- decimal numbers ----

/// The character of a decimal digit.
pub open spec fn digit_char(digit: nat) -> char {
    (48 + digit) as char
}

/// A number in decimal, without leading zeros.
pub open spec fn decimal(value: nat) -> Seq<char>
    decreases value,
{
    if value < 10 {
        seq![digit_char(value)]
    } else {
        decimal(value / 10).push(digit_char(value % 10))
    }
}

/// A number in decimal, padded with zeros to at least `width` digits.
pub open spec fn zero_padded(value: nat, width: nat) -> Seq<char> {
    if decimal(value).len() < width {
        Seq::new((width - decimal(value).len()) as nat, |i: int| '0') + decimal(value)
    } else {
        decimal(value)
    }
}

/// Appends a number in decimal.
fn push_decimal(out: &mut Vec<char>, value: u64)
    ensures
        final(out)@ == old(out)@ + decimal(value as nat),
    decreases value,
{
    if value >= 10 {
        push_decimal(out, value / 10);
    }
    let digit: u8 = 48 + (value % 10) as u8;
    out.push(digit as char);
    assert(out@ =~= old(out)@ + decimal(value as nat));
}

/// Writes a number in decimal.
pub(crate) fn u64_to_string(value: u64) -> (r: String)
    ensures
        r@ == decimal(value as nat),
{
    let mut out: Vec<char> = Vec::new();
    push_decimal(&mut out, value);
    assert(out@ =~= decimal(value as nat));
    string_from_chars(out.as_slice())
}

/// Whether a character is a decimal digit.
pub open spec fn is_digit(c: char) -> bool {
    '0' <= c <= '9'
}

/// The number that decimal digits spell.
pub open spec fn digits_value(digits: Seq<char>) -> nat
    decreases digits.len(),
{
    if digits.len() == 0 {
        0
    } else {
        10 * digits_value(digits.drop_last()) + (digits.last() as int - 48) as nat
    }
}

/// Whether a text is one or more decimal digits.
pub open spec fn all_digits(text: Seq<char>) -> bool {
    text.len() > 0 && forall|i: int| 0 <= i < text.len() ==> is_digit(#[trigger] text[i])
}

/// A text without a plus sign in front.
pub open spec fn without_plus(text: Seq<char>) -> Seq<char> {
    if text.len() > 0 && text[0] == '+' {
        text.skip(1)
    } else {
        text
    }
}

/// The unsigned 64-bit number that a text spells: digits with at most one
/// plus sign in front.
pub open spec fn unsigned_number(text: Seq<char>) -> Option<u64> {
    let digits = without_plus(text);
    if all_digits(digits) && digits_value(digits) <= u64::MAX {
        Some(digits_value(digits) as u64)
    } else {
        None
    }
}

/// Reads an unsigned number.
pub fn parse_u64(text: &str) -> (r: Option<u64>)
    ensures
        r == unsigned_number(text@),
{
    let chars = chars_of(text);
    let start: usize = if chars.len() > 0 && chars[0] == '+' {
        1
    } else {
        0
    };
    let ghost digits = without_plus(text@);
    assert(digits =~= chars@.subrange(start as int, chars@.len() as int));
    if start == chars.len() {
        return None;
    }
    let mut value: u64 = 0;
    let mut i: usize = start;
    assert(digits.take(0) =~= Seq::<char>::empty());
    let mut fits: bool = true;
    while i < chars.len()
        invariant
            start <= i <= chars@.len(),
            start < chars@.len(),
            digits == chars@.subrange(start as int, chars@.len() as int),
            digits == without_plus(text@),
            forall|j: int| 0 <= j < i - start ==> is_digit(#[trigger] digits[j]),
            fits ==> value == digits_value(digits.take(i - start)),
            !fits ==> digits_value(digits.take(i - start)) > u64::MAX,
        decreases chars@.len() - i,
    {
        let c: char = chars[i];
        assert(digits[i - start] == c);
        if c < '0' || c > '9' {
            assert(!is_digit(digits[i - start]));
            return None;
        }
        let digit: u64 = (c as u32 - '0' as u32) as u64;
        proof {
            assert(digits.take(i - start + 1).drop_last() =~= digits.take(i - start));
            assert(digits.take(i - start + 1).last() == c);
        }
        if fits {
            if value > 1_844_674_407_370_955_161 || (value == 1_844_674_407_370_955_161 && digit
                > 5) {
                fits = false;
            } else {
                value = value * 10 + digit;
            }
        }
        i = i + 1;
    }
    assert(digits.take(i - start) =~= digits);
    if fits {
        Some(value)
    } else {
        None
    }
}

/// A text as std's `Debug` of `str` writes it.
pub uninterp spec fn debug_text(text: Seq<char>) -> Seq<char>;

/// `format!` with `{:?}` of a text: the text between quotation marks, with the
/// characters escaped that would not show. The result is a function of the
/// text alone; which characters are escaped, and how, is left unsaid.
#[verifier::external_body]
pub(crate) fn debug_of(text: &str) -> (r: String)
    ensures
        r@ == debug_text(text@),
{
    format!("{text:?}")
}

/// A signed number in decimal.
pub open spec fn signed_decimal(value: int) -> Seq<char> {
    if value < 0 {
        seq!['-'] + decimal((-value) as nat)
    } else {
        decimal(value as nat)
    }
}

/// Writes a number in decimal, behind a minus sign where it is negative.
pub(crate) fn i64_to_string(value: i64) -> (r: String)
    ensures
        r@ == signed_decimal(value as int),
{
    let mut out: Vec<char> = Vec::new();
    if value < 0 {
        out.push('-');
        let magnitude: u64 = (-(value as i128)) as u64;
        push_decimal(&mut out, magnitude);
    } else {
        push_decimal(&mut out, value as u64);
    }
    assert(out@ =~= signed_decimal(value as int));
    string_from_chars(out.as_slice())
}

/// The signed 64-bit number that a text spells: digits with at most one sign
/// in front.
pub open spec fn signed_number(text: Seq<char>) -> Option<i64> {
    if text.len() > 0 && text[0] == '-' {
        let digits = text.skip(1);
        if all_digits(digits) && digits_value(digits) <= 0x8000_0000_0000_0000 {
            Some((-(digits_value(digits) as int)) as i64)
        } else {
            None
        }
    } else {
        match unsigned_number(text) {
            Some(value) => if value <= i64::MAX {
                Some(value as i64)
            } else {
                None
            },
            None => None,
        }
    }
}

/// Reads a signed number.
pub fn parse_i64(text: &str) -> (r: Option<i64>)
    ensures
        r == signed_number(text@),
{
    let chars = chars_of(text);
    if chars.len() > 0 && chars[0] == '-' {
        let rest = text_between(&chars, 1, chars.len());
        assert(rest@ =~= text@.skip(1));
        let plus = chars.len() > 1 && chars[1] == '+';
        if plus {
            assert(!is_digit(text@.skip(1)[0]));
            return None;
        }
        assert(without_plus(rest@) == rest@);
        match parse_u64(rest.as_str()) {
            Some(value) => if value <= 0x7fff_ffff_ffff_ffff {
                Some(-(value as i64))
            } else if value == 0x8000_0000_0000_0000 {
                Some(i64::MIN)
            } else {
                None
            },
            None => None,
        }
    } else {
        match parse_u64(text) {
            Some(value) => if value <= i64::MAX as u64 {
                Some(value as i64)
            } else {
                None
            },
            None => None,
        }
    }
}

/// A number in decimal is digits, and spells the number.
pub proof fn lemma_decimal_value(value: nat)
    ensures
        all_digits(decimal(value)),
        digits_value(decimal(value)) == value,
    decreases value,
{
    if value < 10 {
        let text = decimal(value);
        assert(text.drop_last() =~= Seq::<char>::empty());
        assert(digits_value(text.drop_last()) == 0);
    } else {
        lemma_decimal_value(value / 10);
        let text = decimal(value);
        assert(text.drop_last() =~= decimal(value / 10));
        assert forall|i: int| 0 <= i < text.len() implies is_digit(#[trigger] text[i]) by {
            if i < text.len() - 1 {
                assert(text[i] == decimal(value / 10)[i]);
            }
        }
    }
}

/// A signed number that was written in decimal is read back as itself.
pub proof fn law_signed_decimal_round_trip(value: i64)
    ensures
        signed_number(signed_decimal(value as int)) == Some(value),
{
    let text = signed_decimal(value as int);
    if value < 0 {
        lemma_decimal_value((-value) as nat);
        assert(text.skip(1) =~= decimal((-value) as nat));
    } else {
        lemma_decimal_value(value as nat);
        assert(is_digit(text[0]));
        assert(without_plus(text) == text);
    }
}

/// An unsigned number that was written in decimal is read back as itself.
pub proof fn law_decimal_round_trip(value: u64)
    ensures
        unsigned_number(decimal(value as nat)) == Some(value),
{
    lemma_decimal_value(value as nat);
    assert(is_digit(decimal(value as nat)[0]));
}

// ---- pieces ----

/// The pieces of a text between the occurrences of a separator.
pub open spec fn pieces(text: Seq<char>, separator: char) -> Seq<Seq<char>>
    decreases text.len(),
{
    if text.len() == 0 {
        seq![Seq::<char>::empty()]
    } else {
        let before = pieces(text.drop_last(), separator);
        if text.last() == separator {
            before.push(Seq::empty())
        } else {
            before.drop_last().push(before.last().push(text.last()))
        }
    }
}

/// There is always a piece.
pub proof fn lemma_pieces_nonempty(text: Seq<char>, separator: char)
    ensures
        pieces(text, separator).len() > 0,
    decreases text.len(),
{
    if text.len() > 0 {
        lemma_pieces_nonempty(text.drop_last(), separator);
    }
}

/// The parts of some characters that ranges name.
pub open spec fn range_views(chars: Seq<char>, ranges: Seq<(usize, usize)>) -> Seq<Seq<char>> {
    Seq::new(ranges.len(), |i: int| chars.subrange(ranges[i].0 as int, ranges[i].1 as int))
}

/// The ranges of the pieces between the occurrences of a separator.
pub fn split_ranges(chars: &Vec<char>, separator: char) -> (r: Vec<(usize, usize)>)
    ensures
        range_views(chars@, r@) == pieces(chars@, separator),
        forall|i: int| 0 <= i < r@.len() ==> (#[trigger] r@[i]).0 <= r@[i].1 <= chars@.len(),
{
    let mut ranges: Vec<(usize, usize)> = Vec::new();
    let mut start: usize = 0;
    let mut i: usize = 0;
    proof {
        assert(chars@.take(0) =~= Seq::<char>::empty());
        assert(range_views(chars@, ranges@).push(chars@.subrange(0, 0)) =~= pieces(
            chars@.take(0),
            separator,
        ));
    }
    while i < chars.len()
        invariant
            start <= i <= chars@.len(),
            forall|j: int| 0 <= j < ranges@.len() ==> (#[trigger] ranges@[j]).0 <= ranges@[j].1
                <= chars@.len(),
            range_views(chars@, ranges@).push(chars@.subrange(start as int, i as int)) == pieces(
                chars@.take(i as int),
                separator,
            ),
        decreases chars@.len() - i,
    {
        let ghost had = ranges@;
        let ghost before = pieces(chars@.take(i as int), separator);
        proof {
            assert(chars@.take(i + 1).drop_last() =~= chars@.take(i as int));
            assert(chars@.take(i + 1).last() == chars@[i as int]);
            assert(before.last() == chars@.subrange(start as int, i as int));
            assert(before.drop_last() =~= range_views(chars@, had));
        }
        if chars[i] == separator {
            ranges.push((start, i));
            proof {
                assert(range_views(chars@, ranges@) =~= before);
                assert(chars@.subrange(i + 1, i + 1) =~= Seq::<char>::empty());
            }
            start = i + 1;
        } else {
            assert(chars@.subrange(start as int, i + 1) =~= before.last().push(chars@[i as int]));
        }
        i = i + 1;
    }
    assert(chars@.take(i as int) =~= chars@);
    let ghost had = ranges@;
    ranges.push((start, i));
    assert(range_views(chars@, ranges@) =~= range_views(chars@, had).push(
        chars@.subrange(start as int, i as int),
    ));
    ranges
}

} // verus!
