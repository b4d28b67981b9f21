//! The live tail: its subscribe address, and what its messages mean.
use vstd::prelude::*;
use vstd::string::StringExecFns;
use vstd::utf8::encode_utf8;

use crate::events::{decode_frame, document_frame, Frame, FrameError, FrameView};
use crate::text::{decimal, u64_to_string};
use crate::wire::{record_document, Record};

verus! {

/// What to subscribe to. The cursor is inclusive; none starts at the tip.
#[derive(Debug, Clone)]
pub struct LiveParams {
    pub hostname: String,
    pub dids: Vec<String>,
    pub collections: Vec<String>,
    pub cursor: Option<u64>,
}

/// Why a connection was not made.
#[derive(Debug, PartialEq)]
pub enum ConnectError {
    /// The server refused the upgrade with an HTTP status. A 400 on a
    /// well-formed request means that the cursor is below the retention
    /// floor.
    Rejected { status: u16 },
    Other(String),
}

// ---- percent encoding ----

/// Whether a byte stands for itself in an encoded text.
pub open spec fn unreserved(byte: u8) -> bool {
    ||| 0x30 <= byte <= 0x39
    ||| 0x41 <= byte <= 0x5a
    ||| 0x61 <= byte <= 0x7a
    ||| byte == 0x2d || byte == 0x2e || byte == 0x5f || byte == 0x7e
}

/// A hexadecimal digit in upper case.
pub open spec fn hex_digit(digit: nat) -> char {
    if digit < 10 {
        (48 + digit) as char
    } else {
        (55 + digit) as char
    }
}

/// Bytes with all but the unreserved ones written as `%XX`.
pub open spec fn percent_encoded(bytes: Seq<u8>) -> Seq<char>
    decreases bytes.len(),
{
    if bytes.len() == 0 {
        Seq::empty()
    } else {
        percent_encoded(bytes.drop_last()) + if unreserved(bytes.last()) {
            seq![bytes.last() as char]
        } else {
            seq!['%', hex_digit(bytes.last() as nat / 16), hex_digit(bytes.last() as nat % 16)]
        }
    }
}

/// `urlencoding::encode`: the UTF-8 bytes of the text, with all but
/// alphanumerics and `-`, `_`, `.`, `~` percent-encoded.
#[verifier::external_body]
fn url_encode(text: &str) -> (r: String)
    ensures
        r@ == percent_encoded(encode_utf8(text@)),
{
    urlencoding::encode(text).into_owned()
}

// ---- the subscribe address ----

/// A query parameter.
pub open spec fn parameter(name: Seq<char>, value: Seq<char>) -> Seq<char> {
    name + percent_encoded(encode_utf8(value))
}

/// The query parameters of a subscription, in their order.
pub open spec fn parameters(params: LiveParams) -> Seq<Seq<char>> {
    let dids = Seq::new(
        params.dids@.len(),
        |i: int| parameter("dids="@, params.dids@[i]@),
    );
    let collections = Seq::new(
        params.collections@.len(),
        |i: int| parameter("collections="@, params.collections@[i]@),
    );
    let cursor = match params.cursor {
        Some(cursor) => seq!["cursor="@ + decimal(cursor as nat)],
        None => Seq::empty(),
    };
    dids + collections + cursor
}

/// Parameters as a query: a question mark in front of the first, ampersands
/// in front of the others.
pub open spec fn query(parameters: Seq<Seq<char>>) -> Seq<char>
    decreases parameters.len(),
{
    if parameters.len() == 0 {
        Seq::empty()
    } else {
        query(parameters.drop_last()) + if parameters.len() == 1 {
            "?"@
        } else {
            "&"@
        } + parameters.last()
    }
}

/// The address of a subscription.
pub open spec fn subscription_url(params: LiveParams) -> Seq<char> {
    "wss://"@ + params.hostname@ + "/xrpc/network.bsky.jetstream.subscribeEvents"@ + query(
        parameters(params),
    )
}

/// Adds a parameter to an address that holds some already.
fn add_parameter(url: &mut String, first: bool, name: &str, value: &str, Ghost(base): Ghost<Seq<char>>, Ghost(before): Ghost<Seq<Seq<char>>>)
    requires
        old(url)@ == base + query(before),
        first == (before.len() == 0),
    ensures
        final(url)@ == base + query(before.push(name@ + value@)),
{
    let ghost next = before.push(name@ + value@);
    if first {
        url.append("?");
    } else {
        url.append("&");
    }
    url.append(name);
    url.append(value);
    assert(next.drop_last() =~= before);
    assert(url@ =~= base + query(next));
}

/// Builds the subscribe address.
pub fn subscribe_url(params: &LiveParams) -> (r: String)
    ensures
        r@ == subscription_url(*params),
{
    let mut url = "wss://".to_owned();
    url.append(params.hostname.as_str());
    url.append("/xrpc/network.bsky.jetstream.subscribeEvents");
    let ghost base = url@;
    let ghost all = parameters(*params);
    assert(url@ =~= base + query(all.take(0))) by {
        assert(all.take(0) =~= Seq::<Seq<char>>::empty());
    }
    let dids: usize = params.dids.len();
    let mut i: usize = 0;
    while i < dids
        invariant
            i <= dids == params.dids@.len(),
            all == parameters(*params),
            url@ == base + query(all.take(i as int)),
        decreases dids - i,
    {
        let value = url_encode(params.dids[i].as_str());
        add_parameter(&mut url, i == 0, "dids=", value.as_str(), Ghost(base), Ghost(all.take(i as int)));
        assert(all.take(i as int).push("dids="@ + value@) =~= all.take(i + 1));
        i = i + 1;
    }
    let mut j: usize = 0;
    while j < params.collections.len()
        invariant
            dids == params.dids@.len(),
            j <= params.collections@.len(),
            all == parameters(*params),
            url@ == base + query(all.take(dids + j)),
        decreases params.collections@.len() - j,
    {
        let value = url_encode(params.collections[j].as_str());
        add_parameter(&mut url, dids == 0 && j == 0, "collections=", value.as_str(), Ghost(base), Ghost(all.take(dids + j)));
        assert(all.take(dids + j).push("collections="@ + value@) =~= all.take(dids + j + 1));
        j = j + 1;
    }
    match params.cursor {
        Some(cursor) => {
            let value = u64_to_string(cursor);
            add_parameter(&mut url, dids == 0 && j == 0, "cursor=", value.as_str(), Ghost(base), Ghost(all.take(dids + j)));
            assert(all.take(dids + j).push("cursor="@ + value@) =~= all);
        },
        None => {
            assert(all.take(dids + j) =~= all);
        },
    }
    url
}

// ---- messages ----

/// What the socket delivered.
#[derive(Debug)]
pub enum Message {
    /// The stream ended.
    Ended,
    /// Reading failed.
    Failed,
    /// A close frame.
    Close,
    Text(String),
    /// Anything else; compression is never negotiated, so nothing meaningful
    /// arrives in another form.
    Other,
}

/// What a message means to the reader of the tail.
#[derive(Debug)]
pub enum Incoming {
    Frame(Frame),
    /// The server closed the connection.
    Closed,
    /// The socket failed, or a frame could not be decoded.
    Failed,
    /// The connection is to be given up.
    Cancelled,
}

#[verifier::ext_equal]
pub enum IncomingView {
    Frame(FrameView),
    Closed,
    Failed,
    Cancelled,
}

impl View for Incoming {
    type V = IncomingView;

    open spec fn view(&self) -> IncomingView {
        match self {
            Incoming::Frame(frame) => IncomingView::Frame(frame@),
            Incoming::Closed => IncomingView::Closed,
            Incoming::Failed => IncomingView::Failed,
            Incoming::Cancelled => IncomingView::Cancelled,
        }
    }
}

/// What a decoded text frame means to the reader.
pub open spec fn incoming_frame(frame: Result<FrameView, FrameError>) -> IncomingView {
    match frame {
        Ok(frame) => IncomingView::Frame(frame),
        Err(_) => IncomingView::Failed,
    }
}

/// What a message means to the reader; nothing where it is skipped.
pub open spec fn incoming(message: Message) -> Option<IncomingView> {
    match message {
        Message::Ended => Some(IncomingView::Closed),
        Message::Failed => Some(IncomingView::Failed),
        Message::Close => Some(IncomingView::Closed),
        Message::Text(text) => Some(incoming_frame(document_frame(record_document(text@, Record::Frame)))),
        Message::Other => None,
    }
}

/// Judges one message of the socket; where nothing comes back the next one is
/// to be read.
pub fn next_frame(message: &Message) -> (r: Option<Incoming>)
    ensures
        match r {
            Some(got) => incoming(*message) == Some(got@),
            None => incoming(*message) is None,
        },
{
    match message {
        Message::Ended => Some(Incoming::Closed),
        Message::Failed => Some(Incoming::Failed),
        Message::Close => Some(Incoming::Closed),
        Message::Text(text) => match decode_frame(text.as_str()) {
            Ok(frame) => Some(Incoming::Frame(frame)),
            Err(_) => Some(Incoming::Failed),
        },
        Message::Other => None,
    }
}

} // verus!
