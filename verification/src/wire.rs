//! Records as the texts of the wire spell them.
//!
//! A record is written as an object, or as a list of its fields in a fixed
//! order. A member of an object that the record does not know is passed over,
//! whatever it holds; one that it knows may stand there only once. Where a
//! value ends, and what it is, `serde_json` says; which values make up which
//! field is decided here.
use vstd::prelude::*;
use vstd::string::StringExecFns;

use crate::json::{
    json_document, option_view, parse_json, read_text, str_view, text_of, Json, JsonView,
};
use crate::text::str_eq;

verus! {

// ---- values in a text ----

/// How many characters the JSON value at the start of a text takes; nothing
/// where none stands there. It is what `serde_json` passes over when a value
/// is not wanted.
pub uninterp spec fn json_value_end(text: Seq<char>) -> Option<nat>;

/// `serde_json::StreamDeserializer` over `serde::de::IgnoredAny`: the first
/// value of a text, unread, and what is left behind it. The value takes at
/// least one character. Its length is a function of the text alone.
#[verifier::external_body]
fn first_value<'a>(text: &'a str) -> (r: Option<(&'a str, &'a str)>)
    ensures
        match r {
            Some((value, rest)) => json_value_end(text@) == Some(value@.len()) && value@.len() > 0
                && text@ == value@ + rest@,
            None => json_value_end(text@) is None,
        },
{
    let mut values = serde_json::Deserializer::from_str(text).into_iter::<serde::de::IgnoredAny>();
    match values.next() {
        Some(Ok(_)) => Some(text.split_at(values.byte_offset())),
        _ => None,
    }
}

/// `str::strip_prefix` by a character: the text behind it, where the text
/// starts with it.
#[verifier::external_body]
fn strip_char<'a>(text: &'a str, c: char) -> (r: Option<&'a str>)
    ensures
        match r {
            Some(rest) => starts(text@, c) && rest@ == text@.skip(1),
            None => !starts(text@, c),
        },
{
    text.strip_prefix(c)
}

/// Whether a text starts with a character.
pub open spec fn starts(text: Seq<char>, c: char) -> bool {
    text.len() > 0 && text[0] == c
}

/// Whether a character is white space between the tokens of a document.
pub open spec fn is_space(c: char) -> bool {
    c == ' ' || c == '\n' || c == '\t' || c == '\r'
}

/// A text without the white space at its start.
pub open spec fn past_space(text: Seq<char>) -> Seq<char>
    decreases text.len(),
{
    if text.len() > 0 && is_space(text[0]) {
        past_space(text.skip(1))
    } else {
        text
    }
}

pub proof fn lemma_past_space(text: Seq<char>)
    ensures
        past_space(text).len() <= text.len(),
    decreases text.len(),
{
    if text.len() > 0 && is_space(text[0]) {
        lemma_past_space(text.skip(1));
    }
}

fn skip_space<'a>(text: &'a str) -> (r: &'a str)
    ensures
        r@ == past_space(text@),
{
    let mut rest: &'a str = text;
    loop
        invariant
            past_space(rest@) == past_space(text@),
        decreases rest@.len(),
    {
        let next = match strip_char(rest, ' ') {
            Some(next) => Some(next),
            None => match strip_char(rest, '\n') {
                Some(next) => Some(next),
                None => match strip_char(rest, '\t') {
                    Some(next) => Some(next),
                    None => strip_char(rest, '\r'),
                },
            },
        };
        match next {
            Some(next) => {
                rest = next;
            },
            None => {
                return rest;
            },
        }
    }
}

/// The value at the start of a text, and what is left behind it.
pub open spec fn value_at(text: Seq<char>) -> Option<(Seq<char>, Seq<char>)> {
    match json_value_end(text) {
        Some(end) => if 0 < end <= text.len() {
            Some((text.take(end as int), text.skip(end as int)))
        } else {
            None
        },
        None => None,
    }
}

fn read_value<'a>(text: &'a str) -> (r: Option<(&'a str, &'a str)>)
    ensures
        match value_at(text@) {
            Some((value, rest)) => r matches Some(got) && got.0@ == value && got.1@ == rest,
            None => r is None,
        },
{
    let r = first_value(text);
    proof {
        if let Some((value, rest)) = r {
            assert(text@.take(value@.len() as int) =~= value@);
            assert(text@.skip(value@.len() as int) =~= rest@);
        }
    }
    r
}

/// What a JSON value is that stands within another. The nesting that
/// `serde_json` allows is counted with the level around it.
pub open spec fn inner_document(text: Seq<char>) -> Option<JsonView> {
    match json_document(seq!['['] + text + seq![']']) {
        Some(JsonView::Array(items)) => if items.len() == 1 {
            Some(items[0])
        } else {
            None
        },
        _ => None,
    }
}

fn read_inner(text: &str) -> (r: Option<Json>)
    ensures
        match inner_document(text@) {
            Some(value) => r matches Some(got) && got@ == value,
            None => r is None,
        },
{
    let mut list = "[".to_owned();
    list.append(text);
    list.append("]");
    proof {
        reveal_strlit("[");
        reveal_strlit("]");
        assert(list@ =~= seq!['['] + text@ + seq![']']);
    }
    match parse_json(list.as_str()) {
        Some(Json::Array(items)) => {
            let ghost all = Json::Array(items)@->Array_0;
            assert(all.len() == items@.len());
            let mut items = items;
            if items.len() == 1 {
                assert(all[0] == items@[0]@);
                items.pop()
            } else {
                None
            }
        },
        _ => None,
    }
}

// ---- objects and lists ----

/// The part of an object or a list at the start of a text: the name in front
/// of it, as it is spelled, the value, and what is left behind it.
pub open spec fn part_at(text: Seq<char>, keyed: bool) -> Option<
    (Seq<char>, Seq<char>, Seq<char>),
> {
    if keyed {
        if !starts(text, '"') {
            None
        } else {
            match value_at(text) {
                None => None,
                Some((name, behind)) => if !starts(past_space(behind), ':') {
                    None
                } else {
                    match value_at(past_space(past_space(behind).skip(1))) {
                        None => None,
                        Some((value, rest)) => Some((name, value, rest)),
                    }
                },
            }
        }
    } else {
        match value_at(text) {
            None => None,
            Some((value, rest)) => Some((Seq::empty(), value, rest)),
        }
    }
}

pub proof fn lemma_part_at(text: Seq<char>, keyed: bool)
    ensures
        part_at(text, keyed) matches Some((name, value, rest)) ==> rest.len() < text.len(),
{
    if let Some((name, behind)) = value_at(text) {
        lemma_past_space(behind);
        if starts(past_space(behind), ':') {
            lemma_past_space(past_space(behind).skip(1));
        }
    }
}

fn read_part<'a>(text: &'a str, keyed: bool) -> (r: Option<(&'a str, &'a str, &'a str)>)
    ensures
        match part_at(text@, keyed) {
            Some((name, value, rest)) => r matches Some(got) && got.0@ == name && got.1@ == value
                && got.2@ == rest,
            None => r is None,
        },
{
    if keyed {
        if strip_char(text, '"').is_none() {
            return None;
        }
        match read_value(text) {
            None => None,
            Some((name, behind)) => match strip_char(skip_space(behind), ':') {
                None => None,
                Some(behind) => match read_value(skip_space(behind)) {
                    None => None,
                    Some((value, rest)) => Some((name, value, rest)),
                },
            },
        }
    } else {
        match read_value(text) {
            None => None,
            Some((value, rest)) => {
                let name: &'a str = "";
                proof {
                    reveal_strlit("");
                    assert(name@ =~= Seq::<char>::empty());
                }
                Some((name, value, rest))
            },
        }
    }
}

/// The parts of an object or a list from a point within it on, and what is
/// left behind its end. A comma stands between parts.
pub open spec fn parts_from(text: Seq<char>, close: char, keyed: bool, first: bool) -> Option<
    (Seq<(Seq<char>, Seq<char>)>, Seq<char>),
>
    decreases text.len(),
{
    let here = past_space(text);
    if starts(here, close) {
        Some((Seq::empty(), here.skip(1)))
    } else if !first && !starts(here, ',') {
        None
    } else {
        let from = if first {
            here
        } else {
            past_space(here.skip(1))
        };
        match part_at(from, keyed) {
            None => None,
            Some((name, value, more)) => {
                proof {
                    lemma_past_space(text);
                    lemma_past_space(here.skip(1));
                    lemma_part_at(from, keyed);
                }
                after_part((name, value), parts_from(more, close, keyed, false))
            },
        }
    }
}

/// Parts behind one part.
pub open spec fn after_part(
    part: (Seq<char>, Seq<char>),
    more: Option<(Seq<(Seq<char>, Seq<char>)>, Seq<char>)>,
) -> Option<(Seq<(Seq<char>, Seq<char>)>, Seq<char>)> {
    match more {
        None => None,
        Some((parts, rest)) => Some((seq![part] + parts, rest)),
    }
}

/// The parts of a text that is an object or a list and nothing else.
pub open spec fn parts_of(text: Seq<char>, open: char, close: char, keyed: bool) -> Option<
    Seq<(Seq<char>, Seq<char>)>,
> {
    let here = past_space(text);
    if !starts(here, open) {
        None
    } else {
        match parts_from(here.skip(1), close, keyed, true) {
            None => None,
            Some((parts, rest)) => if past_space(rest).len() == 0 {
                Some(parts)
            } else {
                None
            },
        }
    }
}

/// What pairs of texts hold.
pub open spec fn pair_views(pairs: Seq<(&str, &str)>) -> Seq<(Seq<char>, Seq<char>)> {
    Seq::new(pairs.len(), |i: int| (pairs[i].0@, pairs[i].1@))
}

/// Parts behind several parts.
spec fn after_parts(
    had: Seq<(Seq<char>, Seq<char>)>,
    more: Option<(Seq<(Seq<char>, Seq<char>)>, Seq<char>)>,
) -> Option<(Seq<(Seq<char>, Seq<char>)>, Seq<char>)> {
    match more {
        None => None,
        Some((parts, rest)) => Some((had + parts, rest)),
    }
}

proof fn lemma_after_parts(
    had: Seq<(Seq<char>, Seq<char>)>,
    part: (Seq<char>, Seq<char>),
    more: Option<(Seq<(Seq<char>, Seq<char>)>, Seq<char>)>,
)
    ensures
        after_parts(had, after_part(part, more)) == after_parts(had.push(part), more),
{
    if let Some((parts, rest)) = more {
        assert(had + (seq![part] + parts) =~= had.push(part) + parts);
    }
}

fn read_parts<'a>(text: &'a str, open: char, close: char, keyed: bool) -> (r: Option<
    Vec<(&'a str, &'a str)>,
>)
    ensures
        match parts_of(text@, open, close, keyed) {
            Some(parts) => r matches Some(got) && pair_views(got@) == parts,
            None => r is None,
        },
{
    let mut rest: &'a str = match strip_char(skip_space(text), open) {
        None => {
            return None;
        },
        Some(rest) => rest,
    };
    let ghost start = rest@;
    let mut out: Vec<(&'a str, &'a str)> = Vec::new();
    let mut first = true;
    proof {
        assert(pair_views(out@) =~= Seq::empty());
        if let Some((parts, left)) = parts_from(start, close, keyed, true) {
            assert(Seq::<(Seq<char>, Seq<char>)>::empty() + parts =~= parts);
        }
    }
    loop
        invariant
            start == past_space(text@).skip(1),
            starts(past_space(text@), open),
            parts_from(start, close, keyed, true) == after_parts(
                pair_views(out@),
                parts_from(rest@, close, keyed, first),
            ),
        decreases rest@.len(),
    {
        let here = skip_space(rest);
        match strip_char(here, close) {
            Some(left) => {
                proof {
                    assert(pair_views(out@) + Seq::empty() =~= pair_views(out@));
                }
                if skip_space(left).is_empty() {
                    return Some(out);
                }
                return None;
            },
            None => {},
        }
        let from = if first {
            here
        } else {
            match strip_char(here, ',') {
                None => {
                    return None;
                },
                Some(behind) => skip_space(behind),
            }
        };
        match read_part(from, keyed) {
            None => {
                return None;
            },
            Some((name, value, more)) => {
                proof {
                    lemma_past_space(rest@);
                    lemma_past_space(here@.skip(1));
                    lemma_part_at(from@, keyed);
                    lemma_after_parts(
                        pair_views(out@),
                        (name@, value@),
                        parts_from(more@, close, keyed, false),
                    );
                }
                let ghost had = pair_views(out@);
                out.push((name, value));
                assert(pair_views(out@) =~= had.push((name@, value@)));
                rest = more;
                first = false;
            },
        }
    }
}

/// The members of an object with their names as they are meant; nothing where
/// a name cannot be read.
pub open spec fn named(parts: Seq<(Seq<char>, Seq<char>)>) -> Option<Seq<(Seq<char>, Seq<char>)>> {
    if forall|i: int| 0 <= i < parts.len() ==> text_of(json_document((#[trigger] parts[i]).0)) is Some {
        Some(Seq::new(parts.len(), |i: int| (text_of(json_document(parts[i].0))->0, parts[i].1)))
    } else {
        None
    }
}

/// What members hold.
pub open spec fn member_views(members: Seq<(String, &str)>) -> Seq<(Seq<char>, Seq<char>)> {
    Seq::new(members.len(), |i: int| (members[i].0@, members[i].1@))
}

fn read_names<'a>(parts: &Vec<(&'a str, &'a str)>) -> (r: Option<Vec<(String, &'a str)>>)
    ensures
        match named(pair_views(parts@)) {
            Some(members) => r matches Some(got) && member_views(got@) == members,
            None => r is None,
        },
{
    let ghost all = pair_views(parts@);
    let mut out: Vec<(String, &'a str)> = Vec::new();
    let mut i: usize = 0;
    while i < parts.len()
        invariant
            i <= parts@.len(),
            all == pair_views(parts@),
            out@.len() == i,
            forall|j: int|
                0 <= j < i ==> text_of(json_document((#[trigger] all[j]).0)) == Some(out@[j].0@)
                    && all[j].1 == out@[j].1@,
        decreases parts@.len() - i,
    {
        let (name, value) = parts[i];
        assert(all[i as int] == (name@, value@));
        let document = parse_json(name);
        match read_text(document.as_ref()) {
            None => {
                return None;
            },
            Some(name) => {
                out.push((name, value));
            },
        }
        i = i + 1;
    }
    assert(member_views(out@) =~= named(all)->0);
    Some(out)
}

/// The values of the members with a name, in their order.
pub open spec fn values_of(members: Seq<(Seq<char>, Seq<char>)>, name: Seq<char>) -> Seq<Seq<char>>
    decreases members.len(),
{
    if members.len() == 0 {
        Seq::empty()
    } else if members.last().0 == name {
        values_of(members.drop_last(), name).push(members.last().1)
    } else {
        values_of(members.drop_last(), name)
    }
}

/// A member of another name, wherever it stands, changes nothing about a
/// field.
pub proof fn law_other_members_are_passed_over(
    members: Seq<(Seq<char>, Seq<char>)>,
    at: int,
    other: (Seq<char>, Seq<char>),
    name: Seq<char>,
)
    requires
        0 <= at <= members.len(),
        other.0 != name,
    ensures
        values_of(members.insert(at, other), name) == values_of(members, name),
    decreases members.len(),
{
    let more = members.insert(at, other);
    if at == members.len() {
        assert(more.drop_last() =~= members);
    } else {
        assert(more.drop_last() =~= members.drop_last().insert(at, other));
        assert(more.last() == members.last());
        law_other_members_are_passed_over(members.drop_last(), at, other, name);
    }
}

/// The value of a member, where there is one with its name, and whether
/// others have the same name.
fn find_member<'a>(members: &Vec<(String, &'a str)>, name: &str) -> (r: (Option<&'a str>, bool))
    ensures
        ({
            let values = values_of(member_views(members@), name@);
            &&& r.1 == (values.len() > 1)
            &&& str_view(r.0) == if values.len() == 0 {
                None
            } else {
                Some(values[0])
            }
        }),
{
    let ghost all = member_views(members@);
    let mut found: Option<&'a str> = None;
    let mut repeated = false;
    let mut i: usize = 0;
    assert(all.take(0) =~= Seq::empty());
    while i < members.len()
        invariant
            i <= members@.len(),
            all == member_views(members@),
            repeated == (values_of(all.take(i as int), name@).len() > 1),
            str_view(found) == if values_of(all.take(i as int), name@).len() == 0 {
                None
            } else {
                Some(values_of(all.take(i as int), name@)[0])
            },
        decreases members@.len() - i,
    {
        proof {
            assert(all.take(i + 1).drop_last() =~= all.take(i as int));
            assert(all.take(i + 1).last() == all[i as int]);
        }
        if str_eq(members[i].0.as_str(), name) {
            match found {
                None => {
                    found = Some(members[i].1);
                },
                Some(_) => {
                    repeated = true;
                },
            }
        }
        i = i + 1;
    }
    assert(all.take(i as int) =~= all);
    (found, repeated)
}

// ---- records ----

/// The texts of the fields of a record, in their order; nothing where the text
/// is no such record. An object names each field at most once. A list holds
/// at least the first `least` fields.
pub open spec fn slots_of(text: Seq<char>, names: Seq<Seq<char>>, least: int) -> Option<
    Seq<Option<Seq<char>>>,
> {
    match parts_of(text, '{', '}', true) {
        Some(parts) => match named(parts) {
            Some(members) => if forall|i: int|
                0 <= i < names.len() ==> values_of(members, #[trigger] names[i]).len() <= 1 {
                Some(
                    Seq::new(
                        names.len(),
                        |i: int|
                            if values_of(members, names[i]).len() == 0 {
                                None
                            } else {
                                Some(values_of(members, names[i])[0])
                            },
                    ),
                )
            } else {
                None
            },
            None => None,
        },
        None => match parts_of(text, '[', ']', false) {
            Some(items) => if least <= items.len() <= names.len() {
                Some(
                    Seq::new(
                        names.len(),
                        |i: int|
                            if i < items.len() {
                                Some(items[i].1)
                            } else {
                                None
                            },
                    ),
                )
            } else {
                None
            },
            None => None,
        },
    }
}

/// What texts that may be absent hold.
pub open spec fn slot_views(slots: Seq<Option<&str>>) -> Seq<Option<Seq<char>>> {
    Seq::new(slots.len(), |i: int| str_view(slots[i]))
}

/// What texts hold.
pub open spec fn name_views(names: Seq<&str>) -> Seq<Seq<char>> {
    Seq::new(names.len(), |i: int| names[i]@)
}

/// The texts of the fields of a record, of the members that an object has;
/// nothing where one of the fields stands there twice.
pub fn pick_members<'a>(members: &Vec<(String, &'a str)>, names: &Vec<&'static str>) -> (r: Option<
    Vec<Option<&'a str>>,
>)
    ensures
        ({
            let all = member_views(members@);
            let wanted = name_views(names@);
            if forall|i: int| 0 <= i < wanted.len() ==> values_of(all, #[trigger] wanted[i]).len() <= 1 {
                r matches Some(slots) && slots@.len() == wanted.len() && forall|i: int|
                    0 <= i < slots@.len() ==> str_view(#[trigger] slots@[i]) == if values_of(
                        all,
                        wanted[i],
                    ).len() == 0 {
                        None
                    } else {
                        Some(values_of(all, wanted[i])[0])
                    }
            } else {
                r is None
            }
        }),
{
    let ghost all = member_views(members@);
    let ghost wanted = name_views(names@);
    let mut slots: Vec<Option<&'a str>> = Vec::new();
    let mut i: usize = 0;
    while i < names.len()
        invariant
            i <= names@.len(),
            all == member_views(members@),
            wanted == name_views(names@),
            slots@.len() == i,
            forall|j: int| 0 <= j < i ==> values_of(all, #[trigger] wanted[j]).len() <= 1,
            forall|j: int|
                0 <= j < i ==> str_view(#[trigger] slots@[j]) == if values_of(all, wanted[j]).len()
                    == 0 {
                    None
                } else {
                    Some(values_of(all, wanted[j])[0])
                },
        decreases names@.len() - i,
    {
        let (found, repeated) = find_member(members, names[i]);
        assert(wanted[i as int] == names@[i as int]@);
        if repeated {
            return None;
        }
        slots.push(found);
        i = i + 1;
    }
    Some(slots)
}

/// The texts of `count` fields, of the items that a list has.
fn pick_items<'a>(items: &Vec<(&'a str, &'a str)>, count: usize) -> (r: Vec<Option<&'a str>>)
    ensures
        r@.len() == count,
        forall|i: int|
            0 <= i < count ==> str_view(#[trigger] r@[i]) == if i < items@.len() {
                Some(pair_views(items@)[i].1)
            } else {
                None
            },
{
    let mut slots: Vec<Option<&'a str>> = Vec::new();
    let mut i: usize = 0;
    while i < count
        invariant
            i <= count,
            slots@.len() == i,
            forall|j: int|
                0 <= j < i ==> str_view(#[trigger] slots@[j]) == if j < items@.len() {
                    Some(pair_views(items@)[j].1)
                } else {
                    None
                },
        decreases count - i,
    {
        let slot = if i < items.len() {
            Some(items[i].1)
        } else {
            None
        };
        slots.push(slot);
        i = i + 1;
    }
    slots
}

fn read_slots<'a>(text: &'a str, names: &Vec<&'static str>, least: usize) -> (r: Option<
    Vec<Option<&'a str>>,
>)
    ensures
        match slots_of(text@, name_views(names@), least as int) {
            Some(slots) => r matches Some(got) && slot_views(got@) == slots,
            None => r is None,
        },
{
    match read_parts(text, '{', '}', true) {
        Some(parts) => {
            let members = match read_names(&parts) {
                None => {
                    return None;
                },
                Some(members) => members,
            };
            match pick_members(&members, names) {
                None => None,
                Some(slots) => {
                    assert(slot_views(slots@) =~= slots_of(
                        text@,
                        name_views(names@),
                        least as int,
                    )->0);
                    Some(slots)
                },
            }
        },
        None => match read_parts(text, '[', ']', false) {
            None => None,
            Some(items) => {
                if items.len() < least || items.len() > names.len() {
                    return None;
                }
                let slots = pick_items(&items, names.len());
                assert(slot_views(slots@) =~= slots_of(
                    text@,
                    name_views(names@),
                    least as int,
                )->0);
                Some(slots)
            },
        },
    }
}

/// The records of the wire.
#[derive(Debug, Clone, Copy, PartialEq, Eq, Structural)]
pub enum Record {
    /// The outer object of a frame of the live stream.
    Frame,
    /// A page of a snapshot plan.
    Plan,
    /// What a planner looked at.
    Stats,
    /// A segment that a plan names.
    Unit,
    /// A range of blocks of a segment.
    Range,
}

/// What a field of a record holds.
#[derive(Debug, Clone, Copy, PartialEq, Eq, Structural)]
pub enum Shape {
    /// A value that is read as it is.
    Value,
    /// A record.
    One(Record),
    /// A list of records.
    Many(Record),
}

/// The names of the fields of a record, in their order.
pub open spec fn field_names(record: Record) -> Seq<Seq<char>> {
    match record {
        Record::Frame => seq!["$type"@, "payload"@, "error"@, "message"@],
        Record::Plan => seq!["plannedThroughSeq"@, "sealedTipSeq"@, "segments"@, "stats"@],
        Record::Stats => seq![
            "segmentsExamined"@,
            "segmentsMatched"@,
            "blocksMatched"@,
            "entries"@,
        ],
        Record::Unit => seq![
            "name"@,
            "index"@,
            "checksum"@,
            "minSeq"@,
            "maxSeq"@,
            "mode"@,
            "blocks"@,
        ],
        Record::Range => seq!["first"@, "last"@],
    }
}

/// How many fields a record has at least where it is written as a list: all
/// but the block ranges of a segment.
pub open spec fn least_fields(record: Record) -> int {
    match record {
        Record::Frame => 4,
        Record::Plan => 4,
        Record::Stats => 4,
        Record::Unit => 6,
        Record::Range => 2,
    }
}

/// What a field of a record holds.
pub open spec fn field_shape(record: Record, index: int) -> Shape {
    if record == Record::Plan && index == 2 {
        Shape::Many(Record::Unit)
    } else if record == Record::Plan && index == 3 {
        Shape::One(Record::Stats)
    } else if record == Record::Unit && index == 6 {
        Shape::Many(Record::Range)
    } else {
        Shape::Value
    }
}

/// How deep records lie within a record.
pub open spec fn depth(record: Record) -> nat {
    match record {
        Record::Plan => 3,
        Record::Unit => 2,
        _ => 1,
    }
}

/// How deep records lie within a field.
pub open spec fn shape_depth(shape: Shape) -> nat {
    match shape {
        Shape::Value => 0,
        Shape::One(record) => depth(record),
        Shape::Many(record) => depth(record),
    }
}

fn names_of(record: Record) -> (r: Vec<&'static str>)
    ensures
        name_views(r@) == field_names(record),
{
    let names: Vec<&'static str> = match record {
        Record::Frame => vec!["$type", "payload", "error", "message"],
        Record::Plan => vec!["plannedThroughSeq", "sealedTipSeq", "segments", "stats"],
        Record::Stats => vec!["segmentsExamined", "segmentsMatched", "blocksMatched", "entries"],
        Record::Unit => vec!["name", "index", "checksum", "minSeq", "maxSeq", "mode", "blocks"],
        Record::Range => vec!["first", "last"],
    };
    assert(name_views(names@) =~= field_names(record));
    names
}

fn least_of(record: Record) -> (r: usize)
    ensures
        r == least_fields(record),
{
    match record {
        Record::Frame => 4,
        Record::Plan => 4,
        Record::Stats => 4,
        Record::Unit => 6,
        Record::Range => 2,
    }
}

fn shape_of(record: Record, index: usize) -> (r: Shape)
    ensures
        r == field_shape(record, index as int),
{
    match (record, index) {
        (Record::Plan, 2) => Shape::Many(Record::Unit),
        (Record::Plan, 3) => Shape::One(Record::Stats),
        (Record::Unit, 6) => Shape::Many(Record::Range),
        _ => Shape::Value,
    }
}

/// How many fields a record is read to have: one that may be left out does not
/// count where it is.
pub open spec fn field_count(slots: Seq<Option<Seq<char>>>, least: int) -> int {
    if least < slots.len() && slots.last() is None {
        slots.len() - 1
    } else {
        slots.len() as int
    }
}

/// What a record is that a text spells: the list of its fields, with null for
/// one that was left out. Nothing where the text is no such record.
pub open spec fn record_document(text: Seq<char>, record: Record) -> Option<JsonView>
    decreases depth(record), 1nat,
{
    match slots_of(text, field_names(record), least_fields(record)) {
        None => None,
        Some(slots) => if forall|i: int|
            0 <= i < field_count(slots, least_fields(record)) ==> (
            #[trigger] slots[i] matches Some(field) ==> field_document(
                field,
                field_shape(record, i),
            ) is Some) {
            Some(
                JsonView::Array(
                    Seq::new(
                        field_count(slots, least_fields(record)) as nat,
                        |i: int|
                            match slots[i] {
                                None => JsonView::Null,
                                Some(field) => field_document(field, field_shape(record, i))->0,
                            },
                    ),
                ),
            )
        } else {
            None
        },
    }
}

/// What a field is that a text spells.
pub open spec fn field_document(text: Seq<char>, shape: Shape) -> Option<JsonView>
    decreases shape_depth(shape), 2nat,
{
    match shape {
        Shape::Value => inner_document(text),
        Shape::One(record) => record_document(text, record),
        Shape::Many(record) => match parts_of(text, '[', ']', false) {
            None => None,
            Some(items) => if forall|i: int|
                0 <= i < items.len() ==> record_document((#[trigger] items[i]).1, record) is Some {
                Some(
                    JsonView::Array(
                        Seq::new(items.len(), |i: int| record_document(items[i].1, record)->0),
                    ),
                )
            } else {
                None
            },
        },
    }
}

/// Reads the fields of a record.
pub fn read_record(text: &str, record: Record) -> (r: Option<Json>)
    ensures
        option_view(r) == record_document(text@, record),
    decreases depth(record), 1nat,
{
    let names = names_of(record);
    let least: usize = least_of(record);
    let slots = match read_slots(text, &names, least) {
        None => {
            return None;
        },
        Some(slots) => slots,
    };
    let ghost texts = slot_views(slots@);
    let count: usize = if least < slots.len() && slots[slots.len() - 1].is_none() {
        slots.len() - 1
    } else {
        slots.len()
    };
    let mut fields: Vec<Json> = Vec::new();
    let mut i: usize = 0;
    while i < count
        invariant
            i <= count == field_count(texts, least_fields(record)),
            count <= slots@.len(),
            texts == slot_views(slots@),
            slots_of(text@, field_names(record), least_fields(record)) == Some(texts),
            fields@.len() == i,
            forall|j: int|
                0 <= j < i ==> match #[trigger] texts[j] {
                    None => fields@[j]@ == JsonView::Null,
                    Some(field) => field_document(field, field_shape(record, j)) == Some(
                        fields@[j]@,
                    ),
                },
        decreases count - i,
    {
        assert(texts[i as int] == str_view(slots@[i as int]));
        match slots[i] {
            None => {
                fields.push(Json::Null);
            },
            Some(field) => match read_field(field, shape_of(record, i)) {
                None => {
                    return None;
                },
                Some(value) => {
                    fields.push(value);
                },
            },
        }
        i = i + 1;
    }
    let r = Json::Array(fields);
    proof {
        let got = r@->Array_0;
        let want = record_document(text@, record)->0->Array_0;
        assert forall|j: int| 0 <= j < want.len() implies got[j] == want[j] by {
            assert(got[j] == fields@[j]@);
            assert(texts[j] is None || texts[j] is Some);
        }
        assert(got =~= want);
    }
    Some(r)
}

fn read_field(text: &str, shape: Shape) -> (r: Option<Json>)
    ensures
        option_view(r) == field_document(text@, shape),
    decreases shape_depth(shape), 2nat,
{
    match shape {
        Shape::Value => read_inner(text),
        Shape::One(record) => read_record(text, record),
        Shape::Many(record) => {
            let items = match read_parts(text, '[', ']', false) {
                None => {
                    return None;
                },
                Some(items) => items,
            };
            let ghost texts = pair_views(items@);
            let mut records: Vec<Json> = Vec::new();
            let mut i: usize = 0;
            while i < items.len()
                invariant
                    i <= items@.len(),
                    shape == Shape::Many(record),
                    texts == pair_views(items@),
                    parts_of(text@, '[', ']', false) == Some(texts),
                    records@.len() == i,
                    forall|j: int|
                        0 <= j < i ==> record_document((#[trigger] texts[j]).1, record) == Some(
                            records@[j]@,
                        ),
                decreases items@.len() - i,
            {
                assert(texts[i as int].1 == items@[i as int].1@);
                match read_record(items[i].1, record) {
                    None => {
                        return None;
                    },
                    Some(one) => {
                        records.push(one);
                    },
                }
                i = i + 1;
            }
            let r = Json::Array(records);
            proof {
                let got = r@->Array_0;
                let want = field_document(text@, shape)->0->Array_0;
                assert forall|j: int| 0 <= j < want.len() implies got[j] == want[j] by {
                    assert(got[j] == records@[j]@);
                    assert(record_document(texts[j].1, record) is Some);
                }
                assert(got =~= want);
            }
            Some(r)
        },
    }
}

} // verus!
