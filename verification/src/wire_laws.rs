//! What an object of the wire is read as, in terms of the members that it is
//! written with.
use vstd::prelude::*;

use crate::events::{decode_document, decode_frame, Frame, FrameError};
use crate::format_laws::{lemma_no_values, lemma_value_counts};
use crate::json::{json_document, Json, JsonView};
use crate::wire::{
    field_names, inner_document, is_space, json_value_end, least_fields, named, part_at, parts_from,
    parts_of, past_space, read_record, record_document, slots_of, value_at, values_of, Record,
};

verus! {

/// Whether a value ends where the rest of a text begins.
pub open spec fn ends_before(value: Seq<char>, rest: Seq<char>) -> bool {
    &&& value.len() > 0
    &&& !is_space(value[0])
    &&& json_value_end(value + rest) == Some(value.len())
}

/// The members of an object as they are written, with the brace behind them.
pub open spec fn written(members: Seq<(Seq<char>, Seq<char>)>, first: bool) -> Seq<char>
    decreases members.len(),
{
    if members.len() == 0 {
        seq!['}']
    } else {
        (if first {
            Seq::<char>::empty()
        } else {
            seq![',']
        }) + members[0].0 + seq![':'] + members[0].1 + written(members.skip(1), false)
    }
}

/// Whether members are written so that each name and each value ends where the
/// next one begins.
pub open spec fn spelled(members: Seq<(Seq<char>, Seq<char>)>) -> bool
    decreases members.len(),
{
    members.len() > 0 ==> {
        let (name, value) = members[0];
        let rest = written(members.skip(1), false);
        &&& name.len() > 0 && name[0] == '"'
        &&& ends_before(name, seq![':'] + value + rest)
        &&& ends_before(value, rest)
        &&& spelled(members.skip(1))
    }
}

/// Spaces, line breaks and tabs in front of a token do not matter.
pub proof fn law_space_is_passed_over(pad: Seq<char>, text: Seq<char>)
    requires
        forall|i: int|
            0 <= i < pad.len() ==> #[trigger] pad[i] == ' ' || pad[i] == '\n' || pad[i] == '\t'
                || pad[i] == '\r',
        text.len() > 0 ==> text[0] != ' ' && text[0] != '\n' && text[0] != '\t' && text[0] != '\r',
    ensures
        past_space(pad + text) == text,
    decreases pad.len(),
{
    if pad.len() == 0 {
        assert(pad + text =~= text);
    } else {
        assert((pad + text)[0] == pad[0]);
        assert((pad + text).skip(1) =~= pad.skip(1) + text);
        assert forall|i: int| 0 <= i < pad.skip(1).len() implies #[trigger] pad.skip(1)[i] == ' '
            || pad.skip(1)[i] == '\n' || pad.skip(1)[i] == '\t' || pad.skip(1)[i] == '\r' by {
            assert(pad.skip(1)[i] == pad[i + 1]);
        }
        law_space_is_passed_over(pad.skip(1), text);
    }
}

/// A value at the start of a text is taken off it.
proof fn lemma_value(value: Seq<char>, rest: Seq<char>)
    requires
        ends_before(value, rest),
    ensures
        value_at(value + rest) == Some((value, rest)),
        past_space(value + rest) == value + rest,
{
    let text = value + rest;
    assert(text[0] == value[0]);
    assert(text.take(value.len() as int) =~= value);
    assert(text.skip(value.len() as int) =~= rest);
}

proof fn lemma_parts(members: Seq<(Seq<char>, Seq<char>)>, first: bool)
    requires
        spelled(members),
    ensures
        parts_from(written(members, first), '}', true, first) == Some(
            (members, Seq::<char>::empty()),
        ),
    decreases members.len(),
{
    let text = written(members, first);
    if members.len() == 0 {
        assert(past_space(text) == text);
        assert(text.skip(1) =~= Seq::<char>::empty());
        assert(members =~= Seq::<(Seq<char>, Seq<char>)>::empty());
    } else {
        let (name, value) = members[0];
        let rest = written(members.skip(1), false);
        let behind = seq![':'] + value + rest;
        let from = name + behind;
        assert(text =~= if first {
            from
        } else {
            seq![','] + from
        });
        lemma_value(name, behind);
        assert(past_space(behind) == behind);
        assert(behind.skip(1) =~= value + rest);
        lemma_value(value, rest);
        assert(part_at(from, true) == Some((name, value, rest)));
        if !first {
            assert(text[0] == ',');
            assert(past_space(text) == text);
            assert(text.skip(1) =~= from);
        } else {
            assert(from[0] == '"');
        }
        lemma_parts(members.skip(1), false);
        assert(seq![(name, value)] + members.skip(1) =~= members);
    }
}

/// An object is read member by member, whatever the members are.
pub proof fn law_objects_are_read_member_by_member(members: Seq<(Seq<char>, Seq<char>)>)
    requires
        spelled(members),
    ensures
        parts_of(seq!['{'] + written(members, true), '{', '}', true) == Some(members),
{
    let text = seq!['{'] + written(members, true);
    assert(past_space(text) == text);
    assert(text.skip(1) =~= written(members, true));
    lemma_parts(members, true);
}

/// The items of a list as they are written, with the bracket behind them.
pub open spec fn written_items(items: Seq<Seq<char>>, first: bool) -> Seq<char>
    decreases items.len(),
{
    if items.len() == 0 {
        seq![']']
    } else {
        (if first {
            Seq::<char>::empty()
        } else {
            seq![',']
        }) + items[0] + written_items(items.skip(1), false)
    }
}

/// Whether items are written so that each ends where the next one begins, and
/// none looks like the end of the list.
pub open spec fn spelled_items(items: Seq<Seq<char>>) -> bool
    decreases items.len(),
{
    items.len() > 0 ==> {
        &&& ends_before(items[0], written_items(items.skip(1), false))
        &&& items[0][0] != ']'
        &&& spelled_items(items.skip(1))
    }
}

/// Items as the parts of a list: none has a name.
pub open spec fn nameless(items: Seq<Seq<char>>) -> Seq<(Seq<char>, Seq<char>)> {
    Seq::new(items.len(), |i: int| (Seq::<char>::empty(), items[i]))
}

proof fn lemma_items(items: Seq<Seq<char>>, first: bool)
    requires
        spelled_items(items),
    ensures
        parts_from(written_items(items, first), ']', false, first) == Some(
            (nameless(items), Seq::<char>::empty()),
        ),
    decreases items.len(),
{
    let text = written_items(items, first);
    if items.len() == 0 {
        assert(past_space(text) == text);
        assert(text.skip(1) =~= Seq::<char>::empty());
        assert(nameless(items) =~= Seq::<(Seq<char>, Seq<char>)>::empty());
    } else {
        let rest = written_items(items.skip(1), false);
        let from = items[0] + rest;
        assert(text =~= if first {
            from
        } else {
            seq![','] + from
        });
        lemma_value(items[0], rest);
        assert(part_at(from, false) == Some((Seq::<char>::empty(), items[0], rest)));
        if !first {
            assert(text[0] == ',');
            assert(past_space(text) == text);
            assert(text.skip(1) =~= from);
        } else {
            assert(from[0] == items[0][0]);
        }
        lemma_items(items.skip(1), false);
        assert(seq![(Seq::<char>::empty(), items[0])] + nameless(items.skip(1)) =~= nameless(items));
    }
}

/// A list is read item by item.
pub proof fn law_lists_are_read_item_by_item(items: Seq<Seq<char>>)
    requires
        spelled_items(items),
    ensures
        parts_of(seq!['['] + written_items(items, true), '[', ']', false) == Some(nameless(items)),
{
    let text = seq!['['] + written_items(items, true);
    assert(past_space(text) == text);
    assert(text.skip(1) =~= written_items(items, true));
    lemma_items(items, true);
}

/// Whether the names of members mean what is given.
pub open spec fn meant(members: Seq<(Seq<char>, Seq<char>)>, names: Seq<Seq<char>>) -> bool {
    &&& names.len() == members.len()
    &&& forall|a: int|
        0 <= a < members.len() ==> json_document((#[trigger] members[a]).0) == Some(
            JsonView::String(names[a]),
        )
}

/// The fields of a record by their names.
pub open spec fn field(record: Record, i: int) -> Seq<char> {
    match record {
        Record::Frame => if i == 0 {
            "$type"@
        } else if i == 1 {
            "payload"@
        } else if i == 2 {
            "error"@
        } else {
            "message"@
        },
        Record::Plan => if i == 0 {
            "plannedThroughSeq"@
        } else if i == 1 {
            "sealedTipSeq"@
        } else if i == 2 {
            "segments"@
        } else {
            "stats"@
        },
        Record::Stats => if i == 0 {
            "segmentsExamined"@
        } else if i == 1 {
            "segmentsMatched"@
        } else if i == 2 {
            "blocksMatched"@
        } else {
            "entries"@
        },
        Record::Unit => if i == 0 {
            "name"@
        } else if i == 1 {
            "index"@
        } else if i == 2 {
            "checksum"@
        } else if i == 3 {
            "minSeq"@
        } else if i == 4 {
            "maxSeq"@
        } else if i == 5 {
            "mode"@
        } else {
            "blocks"@
        },
        Record::Range => if i == 0 {
            "first"@
        } else {
            "last"@
        },
    }
}

/// How many fields a record has.
pub open spec fn fields_of(record: Record) -> int {
    match record {
        Record::Unit => 7,
        Record::Range => 2,
        _ => 4,
    }
}

/// What a text spells as the `i`-th field of a record: the units of a page and
/// the block ranges of a unit are lists of records, the statistics of a page
/// are a record, and everything else is a plain value.
pub open spec fn spells_field(text: Seq<char>, record: Record, i: int, value: JsonView) -> bool {
    if record == Record::Plan && i == 2 {
        spells_list(text, Record::Unit, value)
    } else if record == Record::Plan && i == 3 {
        record_document(text, Record::Stats) == Some(value)
    } else if record == Record::Unit && i == 6 {
        spells_list(text, Record::Range, value)
    } else {
        inner_document(text) == Some(value)
    }
}

/// Whether a text is a list of records.
pub open spec fn spells_list(text: Seq<char>, record: Record, value: JsonView) -> bool {
    &&& parts_of(text, '[', ']', false) matches Some(parts)
    &&& value matches JsonView::Array(items)
    &&& items.len() == parts.len()
    &&& forall|k: int|
        0 <= k < items.len() ==> record_document((#[trigger] parts[k]).1, record) == Some(items[k])
}

proof fn lemma_at_most_one(all: Seq<(Seq<char>, Seq<char>)>, name: Seq<char>)
    requires
        forall|a: int, b: int|
            0 <= a < b < all.len() && #[trigger] all[a].0 == name ==> #[trigger] all[b].0 != name,
    ensures
        values_of(all, name).len() <= 1,
    decreases all.len(),
{
    if all.len() > 0 {
        let rest = all.drop_last();
        assert forall|a: int, b: int|
            0 <= a < b < rest.len() && #[trigger] rest[a].0 == name implies #[trigger] rest[b].0
            != name by {
            assert(rest[a] == all[a] && rest[b] == all[b]);
        }
        lemma_at_most_one(rest, name);
        if all.last().0 == name {
            assert forall|k: int| 0 <= k < rest.len() implies (#[trigger] rest[k]).0 != name by {
                assert(rest[k] == all[k]);
                assert(all[all.len() - 1].0 == name);
            }
            lemma_no_values(rest, name);
        }
    }
}

/// A record is read by its fields: one that stands there once is what its text
/// spells, whatever members stand around it, one that does not is null, and
/// one that stands there twice is refused.
pub proof fn law_records_are_read_by_their_fields(
    text: &str,
    record: Record,
    members: Seq<(Seq<char>, Seq<char>)>,
    names: Seq<Seq<char>>,
    r: Option<Json>,
    i: int,
    a: int,
    b: int,
)
    requires
        call_ensures(read_record, (text, record), r),
        text@ == seq!['{'] + written(members, true),
        spelled(members),
        meant(members, names),
        0 <= i < fields_of(record),
    ensures
        0 <= a < b < members.len() && names[a] == field(record, i) && names[b] == field(record, i)
            ==> r is None,
        r matches Some(json) ==> (json@ matches JsonView::Array(items) && {
            &&& items.len() == fields_of(record) || (record == Record::Unit && items.len() == 6
                && forall|k: int| 0 <= k < names.len() ==> #[trigger] names[k] != "blocks"@)
            &&& 0 <= a < members.len() && names[a] == field(record, i) ==> i < items.len()
                && spells_field(members[a].1, record, i, items[i])
            &&& i < items.len() && (forall|k: int|
                0 <= k < names.len() ==> #[trigger] names[k] != field(record, i)) ==> items[i]
                == JsonView::Null
        }),
{
    law_objects_are_read_member_by_member(members);
    let all = named(members)->0;
    let fields = field_names(record);
    lemma_fields(record, i);
    assert forall|k: int| 0 <= k < members.len() implies #[trigger] all[k] == (
        names[k],
        members[k].1,
    ) by {
        assert(json_document(members[k].0) == Some(JsonView::String(names[k])));
    }
    assert(named(members) == Some(all));
    if 0 <= a < members.len() && names[a] == field(record, i) {
        assert(all[a] == (names[a], members[a].1));
        lemma_value_counts(all, fields[i], a, b);
        if a < b < members.len() {
            assert(all[b] == (names[b], members[b].1));
        }
    }
    if forall|k: int| 0 <= k < names.len() ==> #[trigger] names[k] != field(record, i) {
        assert forall|k: int| 0 <= k < all.len() implies (#[trigger] all[k]).0 != fields[i] by {
            assert(all[k].0 == names[k]);
        }
        lemma_no_values(all, fields[i]);
    }
    if let Some(json) = r {
        let slots = slots_of(text@, fields, least_fields(record))->0;
        assert(slots.len() == fields_of(record));
        if record == Record::Unit && slots.last() is None {
            lemma_fields(record, 6);
            assert forall|k: int| 0 <= k < names.len() implies #[trigger] names[k] != "blocks"@ by {
                if names[k] == "blocks"@ {
                    assert(all[k] == (names[k], members[k].1));
                    lemma_value_counts(all, fields[6], k, k);
                }
            }
        }
    }
}

proof fn lemma_fields(record: Record, i: int)
    requires
        0 <= i < fields_of(record),
    ensures
        field_names(record).len() == fields_of(record),
        field_names(record)[i] == field(record, i),
{
}

/// A record of plain values is read where its fields stand there once each and
/// every member can be read.
pub proof fn law_plain_records_are_read(
    text: &str,
    record: Record,
    members: Seq<(Seq<char>, Seq<char>)>,
    names: Seq<Seq<char>>,
    r: Option<Json>,
)
    requires
        call_ensures(read_record, (text, record), r),
        record == Record::Frame || record == Record::Stats || record == Record::Range,
        text@ == seq!['{'] + written(members, true),
        spelled(members),
        meant(members, names),
        forall|x: int, y: int|
            0 <= x < y < names.len() ==> #[trigger] names[x] != #[trigger] names[y],
        forall|k: int| 0 <= k < members.len() ==> inner_document((#[trigger] members[k]).1) is Some,
    ensures
        r is Some,
{
    law_objects_are_read_member_by_member(members);
    let all = named(members)->0;
    let fields = field_names(record);
    assert forall|k: int| 0 <= k < members.len() implies #[trigger] all[k] == (
        names[k],
        members[k].1,
    ) by {
        assert(json_document(members[k].0) == Some(JsonView::String(names[k])));
    }
    assert(named(members) == Some(all));
    assert forall|f: int| 0 <= f < fields.len() implies values_of(all, #[trigger] fields[f]).len()
        <= 1 by {
        assert forall|x: int, y: int|
            0 <= x < y < all.len() && #[trigger] all[x].0 == fields[f] implies #[trigger] all[y].0
            != fields[f] by {
            assert(all[x].0 == names[x] && all[y].0 == names[y]);
        }
        lemma_at_most_one(all, fields[f]);
    }
    let slots = slots_of(text@, fields, least_fields(record));
    assert(slots is Some);
    assert forall|f: int| 0 <= f < fields.len() implies (#[trigger] slots->0[f] matches Some(field)
        ==> inner_document(field) is Some) by {
        if let Some(field) = slots->0[f] {
            let at = lemma_origin(all, fields[f]);
            assert(all[at] == (names[at], members[at].1));
            assert(inner_document(members[at].1) is Some);
        }
    }
}

proof fn lemma_origin(all: Seq<(Seq<char>, Seq<char>)>, name: Seq<char>) -> (at: int)
    requires
        values_of(all, name).len() > 0,
    ensures
        0 <= at < all.len(),
        all[at].0 == name,
        all[at].1 == values_of(all, name)[0],
    decreases all.len(),
{
    let rest = all.drop_last();
    if values_of(rest, name).len() > 0 {
        let at = lemma_origin(rest, name);
        assert(rest[at] == all[at]);
        at
    } else {
        all.len() - 1
    }
}

/// The records of a list, or of a field, are read as they are on their own.
pub proof fn law_records_within_are_read_alike(
    text: &str,
    record: Record,
    r: Option<Json>,
    value: JsonView,
)
    requires
        call_ensures(read_record, (text, record), r),
    ensures
        record_document(text@, record) == Some(value) <==> (r matches Some(json) && json@ == value),
{
}

/// A frame is decoded from what its text is read as.
pub proof fn law_frames_are_decoded_from_their_text(
    text: &str,
    document: Option<Json>,
    from_document: Result<Frame, FrameError>,
    from_text: Result<Frame, FrameError>,
)
    requires
        call_ensures(read_record, (text, Record::Frame), document),
        call_ensures(decode_document, (document,), from_document),
        call_ensures(decode_frame, (text,), from_text),
    ensures
        from_text is Ok <==> from_document is Ok,
        from_text matches Ok(frame) ==> frame@ == from_document->Ok_0@,
        from_text matches Err(e) ==> e == from_document->Err_0,
{
}

} // verus!
