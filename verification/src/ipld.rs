//! Records as they are archived: the DAG-CBOR data model, and its JSON form.
use ipld_core::ipld::Ipld;
use vstd::prelude::*;

use crate::bytes::signed_value;
use crate::encoding::{base64_nopad, radix_text, BASE64_ALPHABET};
use crate::json::{Json, JsonView};

verus! {

/// A value of the DAG-CBOR data model. A float is kept as the bits of its
/// binary64 form, a link as the text of its identifier.
#[derive(Debug, PartialEq)]
pub enum Data {
    Null,
    Bool(bool),
    Integer(i128),
    Float { bits: u64 },
    String(String),
    Bytes(Vec<u8>),
    List(Vec<Data>),
    Fields(Vec<(String, Data)>),
    Link(String),
}

/// What a value holds, as mathematical values.
#[verifier::ext_equal]
pub enum DataView {
    Null,
    Bool(bool),
    Integer(i128),
    Float { bits: u64 },
    String(Seq<char>),
    Bytes(Seq<u8>),
    List(Seq<DataView>),
    Fields(Seq<(Seq<char>, DataView)>),
    Link(Seq<char>),
}

/// What a value holds.
pub open spec fn data_view(value: Data) -> DataView
    decreases value,
{
    match value {
        Data::Null => DataView::Null,
        Data::Bool(b) => DataView::Bool(b),
        Data::Integer(n) => DataView::Integer(n),
        Data::Float { bits } => DataView::Float { bits },
        Data::String(s) => DataView::String(s@),
        Data::Bytes(b) => DataView::Bytes(b@),
        Data::List(items) => DataView::List(
            Seq::new(
                items@.len(),
                |i: int|
                    if 0 <= i < items@.len() {
                        data_view(items@[i])
                    } else {
                        DataView::Null
                    },
            ),
        ),
        Data::Fields(fields) => DataView::Fields(
            Seq::new(
                fields@.len(),
                |i: int|
                    if 0 <= i < fields@.len() {
                        (fields@[i].0@, data_view(fields@[i].1))
                    } else {
                        (Seq::<char>::empty(), DataView::Null)
                    },
            ),
        ),
        Data::Link(cid) => DataView::Link(cid@),
    }
}

impl View for Data {
    type V = DataView;

    open spec fn view(&self) -> DataView {
        data_view(*self)
    }
}

// ---- serde_ipld_dagcbor ----

/// A value of `ipld_core`, carried from the decoder to the tree above.
#[verifier::external_type_specification]
#[verifier::external_body]
pub struct ExIpld(ipld_core::ipld::Ipld);

/// What `serde_ipld_dagcbor::from_slice` reads in a byte string; nothing
/// where the bytes are no single DAG-CBOR value.
pub uninterp spec fn dag_cbor_value(bytes: Seq<u8>) -> Option<DataView>;

/// The tree of an `ipld_core::ipld::Ipld`, node for node, a link by the text
/// of its identifier.
#[verifier::external_body]
fn ipld_of(value: Ipld) -> Data {
    match value {
        Ipld::Null => Data::Null,
        Ipld::Bool(b) => Data::Bool(b),
        Ipld::Integer(n) => Data::Integer(n),
        Ipld::Float(f) => Data::Float { bits: f.to_bits() },
        Ipld::String(s) => Data::String(s),
        Ipld::Bytes(b) => Data::Bytes(b),
        Ipld::List(items) => Data::List(items.into_iter().map(ipld_of).collect()),
        Ipld::Map(m) => Data::Fields(
            m.into_iter().map(|(name, value)| (name, ipld_of(value))).collect(),
        ),
        Ipld::Link(cid) => Data::Link(cid.to_string()),
    }
}

/// `serde_ipld_dagcbor::from_slice`: the value that the bytes encode, as a
/// function of the bytes alone.
#[verifier::external_body]
fn decode_dag_cbor(bytes: &[u8]) -> (r: Option<Data>)
    ensures
        match r {
            Some(value) => dag_cbor_value(bytes@) == Some(value@),
            None => dag_cbor_value(bytes@) is None,
        },
{
    serde_ipld_dagcbor::from_slice::<ipld_core::ipld::Ipld>(bytes).ok().map(ipld_of)
}

// ---- the JSON form ----

/// Whether the bits of a binary64 number are those of an infinity or of no
/// number.
pub open spec fn not_finite(bits: u64) -> bool {
    (bits as nat / 0x10_0000_0000_0000) % 0x800 == 0x7ff
}

/// The signed 64-bit number that an integer is cut to.
pub open spec fn low_signed(value: int) -> int {
    signed_value((value % 0x1_0000_0000_0000_0000) as nat)
}

/// A JSON integer.
pub open spec fn json_integer(value: int) -> JsonView {
    if value >= 0 {
        JsonView::Unsigned(value as u64)
    } else {
        JsonView::Negative(value as i64)
    }
}

/// The JSON form of a value: integers are cut to 64 bits, a float that is no
/// finite number is null, bytes and links are objects with one member.
pub open spec fn json_form(value: DataView) -> JsonView
    decreases value,
{
    match value {
        DataView::Null => JsonView::Null,
        DataView::Bool(b) => JsonView::Bool(b),
        DataView::Integer(n) => json_integer(low_signed(n as int)),
        DataView::Float { bits } => if not_finite(bits) {
            JsonView::Null
        } else {
            JsonView::Float { bits }
        },
        DataView::String(s) => JsonView::String(s),
        DataView::Bytes(b) => JsonView::Object(
            seq![("$bytes"@, JsonView::String(radix_text(b, 6, BASE64_ALPHABET@)))],
        ),
        DataView::List(items) => JsonView::Array(
            Seq::new(
                items.len(),
                |i: int|
                    if 0 <= i < items.len() {
                        json_form(items[i])
                    } else {
                        JsonView::Null
                    },
            ),
        ),
        DataView::Fields(fields) => JsonView::Object(
            Seq::new(
                fields.len(),
                |i: int|
                    if 0 <= i < fields.len() {
                        (fields[i].0, json_form(fields[i].1))
                    } else {
                        (Seq::<char>::empty(), JsonView::Null)
                    },
            ),
        ),
        DataView::Link(cid) => JsonView::Object(seq![("$link"@, JsonView::String(cid))]),
    }
}

/// An object with a single member that is a text.
fn single_member(name: &str, text: String) -> (r: Json)
    ensures
        r@ == JsonView::Object(seq![(name@, JsonView::String(text@))]),
{
    let value = Json::String(text);
    assert(value@ == JsonView::String(text@));
    let mut fields: Vec<(String, Json)> = Vec::new();
    fields.push((name.to_owned(), value));
    let r = Json::Object(fields);
    assert(r@->Object_0 =~= seq![(name@, JsonView::String(text@))]);
    r
}

/// Cuts an integer to the signed number of its low 64 bits.
fn cut_to_i64(value: i128) -> (r: i64)
    ensures
        r == low_signed(value as int),
{
    let cut: i64 = #[verifier::truncate] (value as i64);
    let bits: u64 = #[verifier::truncate] (value as u64);
    assert(value as i64 == (value as u64) as i64) by (bit_vector);
    assert((value as u64) == value % 0x1_0000_0000_0000_0000) by (bit_vector);
    assert(bits < 0x8000_0000_0000_0000u64 ==> (bits as i64) == bits) by (bit_vector);
    assert(bits >= 0x8000_0000_0000_0000u64 ==> (bits as i64) == bits - 0x1_0000_0000_0000_0000)
        by (bit_vector);
    cut
}

/// The JSON form of a value.
pub fn ipld_to_json(value: &Data) -> (r: Json)
    ensures
        r@ == json_form(value@),
    decreases value,
{
    match value {
        Data::Null => Json::Null,
        Data::Bool(b) => Json::Bool(*b),
        Data::Integer(n) => {
            let cut: i64 = cut_to_i64(*n);
            if cut >= 0 {
                Json::Unsigned(cut as u64)
            } else {
                Json::Negative(cut)
            }
        },
        Data::Float { bits } => if (*bits / 0x10_0000_0000_0000) % 0x800 == 0x7ff {
            Json::Null
        } else {
            Json::Float { bits: *bits }
        },
        Data::String(s) => Json::String(s.clone()),
        Data::Bytes(b) => single_member("$bytes", base64_nopad(b.as_slice())),
        Data::List(items) => {
            let mut forms: Vec<Json> = Vec::new();
            let mut i: usize = 0;
            while i < items.len()
                invariant
                    i <= items@.len(),
                    forms@.len() == i,
                    *value == Data::List(*items),
                    forall|j: int| 0 <= j < i ==> (#[trigger] forms@[j])@ == json_form(items@[j]@),
                decreases items@.len() - i,
            {
                assert(decreases_to!(*value => value->List_0));
                assert(decreases_to!(value->List_0 => value->List_0@[i as int]));
                let form = ipld_to_json(&items[i]);
                forms.push(form);
                i = i + 1;
            }
            let r = Json::Array(forms);
            proof {
                let got = r@->Array_0;
                let want = json_form(value@)->Array_0;
                let views = value@->List_0;
                assert forall|j: int| 0 <= j < want.len() implies got[j] == want[j] by {
                    assert(got[j] == forms@[j]@);
                    assert(views[j] == items@[j]@);
                    assert(want[j] == json_form(views[j]));
                }
                assert(got =~= want);
            }
            r
        },
        Data::Fields(fields) => {
            let mut forms: Vec<(String, Json)> = Vec::new();
            let mut i: usize = 0;
            while i < fields.len()
                invariant
                    i <= fields@.len(),
                    forms@.len() == i,
                    *value == Data::Fields(*fields),
                    forall|j: int|
                        0 <= j < i ==> (#[trigger] forms@[j]).0@ == fields@[j].0@
                            && forms@[j].1@ == json_form(fields@[j].1@),
                decreases fields@.len() - i,
            {
                assert(decreases_to!(*value => value->Fields_0));
                assert(decreases_to!(value->Fields_0 => value->Fields_0@[i as int]));
                assert(decreases_to!(value->Fields_0@[i as int] => value->Fields_0@[i as int].1));
                let field = &fields[i];
                let form = ipld_to_json(&field.1);
                forms.push((field.0.clone(), form));
                i = i + 1;
            }
            let r = Json::Object(forms);
            proof {
                let got = r@->Object_0;
                let want = json_form(value@)->Object_0;
                let views = value@->Fields_0;
                assert forall|j: int| 0 <= j < want.len() implies got[j] == want[j] by {
                    assert(got[j] == (forms@[j].0@, forms@[j].1@));
                    assert(views[j] == (fields@[j].0@, fields@[j].1@));
                    assert(want[j] == (views[j].0, json_form(views[j].1)));
                }
                assert(got =~= want);
            }
            r
        },
        Data::Link(cid) => single_member("$link", cid.clone()),
    }
}

/// The JSON form of an archived record; nothing where the bytes are no
/// DAG-CBOR value.
pub open spec fn record_form(dag_cbor: Seq<u8>) -> Option<JsonView> {
    match dag_cbor_value(dag_cbor) {
        Some(value) => Some(json_form(value)),
        None => None,
    }
}

/// Decodes the DAG-CBOR bytes of a record into the JSON value that the live
/// stream carries.
pub fn record_json(dag_cbor: &[u8]) -> (r: Option<Json>)
    ensures
        match r {
            Some(json) => record_form(dag_cbor@) == Some(json@),
            None => record_form(dag_cbor@) is None,
        },
{
    match decode_dag_cbor(dag_cbor) {
        Some(value) => Some(ipld_to_json(&value)),
        None => None,
    }
}

} // verus!
