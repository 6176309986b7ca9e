//! The stream forwarder: what is sent to a provider, and how the provider's
//! answer, a stream of JSON objects one per line, becomes response events.
//!
//! The caller sends the request and feeds the bytes it receives, in whatever
//! pieces they arrive, to a [`StreamDecoder`]. JSON is read by `serde_json`.

use vstd::prelude::*;
use vstd::utf8::decode_utf8;
use vstd::utf8::valid_utf8;
use crate::error::MatchError;
use crate::orderbook::Ask;
use crate::orderbook::Bid;

verus! {

/// The byte that ends a line.
pub const NEWLINE: u8 = 10;

/// The factor between a bid's latency ceiling and the time that a streamed
/// answer may take.
pub const TIMEOUT_FACTOR: u64 = 10;

/// A JSON value.
pub enum Json {
    Null,
    Bool(bool),
    Number,
    Text(Seq<char>),
    Array(Seq<Json>),
    Object(Map<Seq<char>, Json>),
}

/// `serde_json::Value`, the JSON value of `serde_json`. Nothing inside it is
/// seen here; what it holds is named by `json_view`.
#[verifier::external_type_specification]
#[verifier::external_body]
pub struct ExValue(serde_json::Value);

/// The JSON value that `serde_json` reads from a text, or nothing where the
/// text is not one JSON value.
pub uninterp spec fn json_of_text(text: Seq<char>) -> Option<Json>;

/// What a `serde_json::Value` holds. Of a number nothing is kept.
pub uninterp spec fn json_view(value: serde_json::Value) -> Json;

/// The member `key` of a JSON object, if `doc` is an object and has it.
pub open spec fn member(doc: Json, key: Seq<char>) -> Option<Json> {
    match doc {
        Json::Object(members) => if members.contains_key(key) {
            Some(members[key])
        } else {
            None
        },
        _ => None,
    }
}

/// The text of the member `key`, if `doc` is an object and has a text there.
pub open spec fn text_member(doc: Json, key: Seq<char>) -> Option<Seq<char>> {
    match member(doc, key) {
        Some(Json::Text(text)) => Some(text),
        _ => None,
    }
}

/// The boolean of the member `key`, if `doc` is an object and has one there.
pub open spec fn flag_member(doc: Json, key: Seq<char>) -> Option<bool> {
    match member(doc, key) {
        Some(Json::Bool(flag)) => Some(flag),
        _ => None,
    }
}

/// One piece of a provider's answer.
#[derive(Debug)]
pub struct StreamResponse {
    pub model: String,
    pub created_at: String,
    pub response: String,
    pub done: bool,
    pub done_reason: Option<String>,
}

/// What a response holds.
pub struct ResponseView {
    pub model: Seq<char>,
    pub created_at: Seq<char>,
    pub response: Seq<char>,
    pub done: bool,
    pub done_reason: Option<Seq<char>>,
}

impl View for StreamResponse {
    type V = ResponseView;

    open spec fn view(&self) -> ResponseView {
        ResponseView {
            model: self.model@,
            created_at: self.created_at@,
            response: self.response@,
            done: self.done,
            done_reason: match self.done_reason {
                Some(reason) => Some(reason@),
                None => None,
            },
        }
    }
}

/// A text, or the empty text.
pub open spec fn or_empty(text: Option<Seq<char>>) -> Seq<char> {
    match text {
        Some(t) => t,
        None => Seq::<char>::empty(),
    }
}

/// The response that a JSON value stands for: the texts `model`, `created_at`
/// and `response`, each empty where the value has no such text; the boolean
/// `done`, false where it has none; and the text `done_reason`, if it has one.
pub open spec fn chunk_of(doc: Json) -> ResponseView {
    ResponseView {
        model: or_empty(text_member(doc, "model"@)),
        created_at: or_empty(text_member(doc, "created_at"@)),
        response: or_empty(text_member(doc, "response"@)),
        done: match flag_member(doc, "done"@) {
            Some(flag) => flag,
            None => false,
        },
        done_reason: text_member(doc, "done_reason"@),
    }
}

/// What a line of the answer stands for: a response, or an upstream error
/// where the line is not UTF-8 or not JSON.
pub open spec fn decoded_chunk(line: Seq<u8>) -> Result<ResponseView, MatchError> {
    if !valid_utf8(line) {
        Err(MatchError::UpstreamError)
    } else {
        match json_of_text(decode_utf8(line)) {
            Some(doc) => Ok(chunk_of(doc)),
            None => Err(MatchError::UpstreamError),
        }
    }
}

/// `core::str::from_utf8`: the text whose UTF-8 encoding the bytes are, or
/// nothing where they are no valid UTF-8.
#[verifier::external_body]
fn utf8_text(bytes: &[u8]) -> (r: Option<&str>)
    ensures
        r is Some <==> valid_utf8(bytes@),
        r matches Some(text) ==> text@ == decode_utf8(bytes@),
{
    match core::str::from_utf8(bytes) {
        Ok(text) => Some(text),
        Err(_) => None,
    }
}

/// `serde_json::from_str` for a `serde_json::Value`. The result depends on
/// the text alone.
#[verifier::external_body]
fn parse_json(text: &str) -> (r: Option<serde_json::Value>)
    ensures
        r is Some <==> json_of_text(text@) is Some,
        r matches Some(value) ==> json_of_text(text@) == Some(json_view(value)),
{
    match serde_json::from_str::<serde_json::Value>(text) {
        Ok(value) => Some(value),
        Err(_) => None,
    }
}

/// `serde_json::Value::get` with a text as index: the member of that name if
/// the value is an object and has one, else nothing.
#[verifier::external_body]
fn json_get<'a>(value: &'a serde_json::Value, key: &str) -> (r: Option<&'a serde_json::Value>)
    ensures
        r is Some <==> member(json_view(*value), key@) is Some,
        r matches Some(found) ==> member(json_view(*value), key@) == Some(json_view(*found)),
{
    value.get(key)
}

/// `serde_json::Value::as_str`: the text if the value is a string, else
/// nothing.
#[verifier::external_body]
fn json_str<'a>(value: &'a serde_json::Value) -> (r: Option<&'a str>)
    ensures
        r is Some <==> json_view(*value) is Text,
        r matches Some(text) ==> json_view(*value) == Json::Text(text@),
{
    value.as_str()
}

/// `serde_json::Value::as_bool`: the boolean if the value is one, else
/// nothing.
#[verifier::external_body]
fn json_bool(value: &serde_json::Value) -> (r: Option<bool>)
    ensures
        r is Some <==> json_view(*value) is Bool,
        r matches Some(flag) ==> json_view(*value) == Json::Bool(flag),
{
    value.as_bool()
}

/// The text of the member `key` of a JSON value.
pub fn read_text_member(value: &serde_json::Value, key: &str) -> (r: Option<String>)
    ensures
        r is Some <==> text_member(json_view(*value), key@) is Some,
        r matches Some(text) ==> text_member(json_view(*value), key@) == Some(text@),
{
    match json_get(value, key) {
        Some(found) => match json_str(found) {
            Some(text) => Some(String::from_str(text)),
            None => None,
        },
        None => None,
    }
}

/// The boolean of the member `key` of a JSON value.
pub fn read_flag_member(value: &serde_json::Value, key: &str) -> (r: Option<bool>)
    ensures
        r == flag_member(json_view(*value), key@),
{
    match json_get(value, key) {
        Some(found) => json_bool(found),
        None => None,
    }
}

/// The response that a JSON value stands for.
pub fn response_of(value: &serde_json::Value) -> (r: StreamResponse)
    ensures
        r@ == chunk_of(json_view(*value)),
{
    let model = match read_text_member(value, "model") {
        Some(text) => text,
        None => String::new(),
    };
    let created_at = match read_text_member(value, "created_at") {
        Some(text) => text,
        None => String::new(),
    };
    let response = match read_text_member(value, "response") {
        Some(text) => text,
        None => String::new(),
    };
    let done = match read_flag_member(value, "done") {
        Some(flag) => flag,
        None => false,
    };
    let done_reason = read_text_member(value, "done_reason");
    StreamResponse { model, created_at, response, done, done_reason }
}

/// Reads one line of a provider's answer.
pub fn decode_chunk(line: &[u8]) -> (r: Result<StreamResponse, MatchError>)
    ensures
        match r {
            Ok(response) => decoded_chunk(line@) == Ok::<ResponseView, MatchError>(response@),
            Err(e) => decoded_chunk(line@) == Err::<ResponseView, MatchError>(e),
        },
{
    let text = match utf8_text(line) {
        Some(text) => text,
        None => {
            return Err(MatchError::UpstreamError);
        },
    };
    match parse_json(text) {
        Some(value) => Ok(response_of(&value)),
        None => Err(MatchError::UpstreamError),
    }
}

/// What is sent to a provider for a match.
#[derive(Debug)]
pub struct UpstreamCall {
    /// Where the request is posted.
    pub endpoint: String,
    /// The member `model` of the JSON body.
    pub model: String,
    /// The member `prompt` of the JSON body.
    pub prompt: String,
    /// The milliseconds that the answer may take where the client set no
    /// deadline.
    pub timeout: u64,
}

/// The request for the bid to the provider of the ask: it is posted to the
/// provider's id, with the bid's model and prompt, and may take ten times the
/// bid's latency ceiling.
pub fn forward_request(ask: &Ask, bid: &Bid) -> (call: UpstreamCall)
    ensures
        call.endpoint@ == ask.provider_id@,
        call.model@ == bid.model@,
        call.prompt@ == bid.prompt@,
        call.timeout == bid.max_latency * TIMEOUT_FACTOR,
{
    UpstreamCall {
        endpoint: ask.provider_id.clone(),
        model: bid.model.clone(),
        prompt: bid.prompt.clone(),
        timeout: (bid.max_latency as u64) * TIMEOUT_FACTOR,
    }
}

/// One event of a response stream: a response, or the error that ends the
/// stream.
#[derive(Debug)]
pub enum StreamEvent {
    Chunk(StreamResponse),
    Failed(MatchError),
}

/// What an event holds.
pub enum EventView {
    Chunk(ResponseView),
    Failed(MatchError),
}

impl View for StreamEvent {
    type V = EventView;

    open spec fn view(&self) -> EventView {
        match self {
            StreamEvent::Chunk(response) => EventView::Chunk(response@),
            StreamEvent::Failed(e) => EventView::Failed(*e),
        }
    }
}

/// The lines that are complete once `data` has followed the unfinished line
/// `pending`, and the line that is unfinished then. A line ends with the
/// newline byte, which is not part of it.
pub open spec fn split_lines(pending: Seq<u8>, data: Seq<u8>) -> (Seq<Seq<u8>>, Seq<u8>)
    decreases data.len(),
{
    if data.len() == 0 {
        (Seq::<Seq<u8>>::empty(), pending)
    } else {
        let (lines, rest) = split_lines(pending, data.drop_last());
        if data.last() == NEWLINE {
            (lines.push(rest), Seq::<u8>::empty())
        } else {
            (lines, rest.push(data.last()))
        }
    }
}

/// The lines in a row, each with a newline byte after it.
pub open spec fn joined(lines: Seq<Seq<u8>>) -> Seq<u8>
    decreases lines.len(),
{
    if lines.len() == 0 {
        Seq::<u8>::empty()
    } else {
        joined(lines.drop_last()) + lines.last().push(NEWLINE)
    }
}

/// Splitting loses nothing and leaves no newline behind: the lines with their
/// newlines, followed by the unfinished line, are the bytes that came in, and
/// neither a line nor the unfinished line holds a newline byte.
pub proof fn lemma_split_lines(pending: Seq<u8>, data: Seq<u8>)
    requires
        !pending.contains(NEWLINE),
    ensures
        ({
            let (lines, rest) = split_lines(pending, data);
            &&& joined(lines) + rest == pending + data
            &&& !rest.contains(NEWLINE)
            &&& forall|i: int| 0 <= i < lines.len() ==> !(#[trigger] lines[i]).contains(NEWLINE)
        }),
    decreases data.len(),
{
    if data.len() == 0 {
        assert(joined(Seq::<Seq<u8>>::empty()) + pending =~= pending + data);
    } else {
        let (lines, rest) = split_lines(pending, data.drop_last());
        lemma_split_lines(pending, data.drop_last());
        assert(pending + data =~= (pending + data.drop_last()).push(data.last()));
        if data.last() == NEWLINE {
            assert(lines.push(rest).drop_last() =~= lines);
            assert(joined(lines.push(rest)) + Seq::<u8>::empty() =~= (joined(lines) + rest).push(
                NEWLINE,
            ));
        } else {
            assert(joined(lines) + rest.push(data.last()) =~= (joined(lines) + rest).push(
                data.last(),
            ));
            assert forall|i: int| 0 <= i < rest.push(data.last()).len() implies rest.push(
                data.last(),
            )[i] != NEWLINE by {
                if i < rest.len() {
                    assert(rest[i] == rest.push(data.last())[i]);
                    assert(rest.contains(rest[i]));
                }
            }
        }
    }
}

/// The events of a row of lines, and whether the stream has ended with them.
/// Empty lines are passed over. A line that cannot be read gives the error
/// that ends the stream; a response that is marked done ends it too; lines
/// after the end give nothing.
pub open spec fn events_of(lines: Seq<Seq<u8>>) -> (Seq<EventView>, bool)
    decreases lines.len(),
{
    if lines.len() == 0 {
        (Seq::<EventView>::empty(), false)
    } else {
        let (events, finished) = events_of(lines.drop_last());
        if finished || lines.last().len() == 0 {
            (events, finished)
        } else {
            match decoded_chunk(lines.last()) {
                Ok(response) => (events.push(EventView::Chunk(response)), response.done),
                Err(e) => (events.push(EventView::Failed(e)), true),
            }
        }
    }
}

/// The decoder of a provider's answer.
pub struct StreamDecoder {
    pending: Vec<u8>,
    finished: bool,
}

impl StreamDecoder {
    /// The bytes of the line that is not complete yet.
    pub closed spec fn pending(self) -> Seq<u8> {
        self.pending@
    }

    /// Whether the stream has ended.
    pub closed spec fn finished(self) -> bool {
        self.finished
    }

    /// A decoder at the start of an answer.
    pub fn new() -> (r: StreamDecoder)
        ensures
            r.pending() == Seq::<u8>::empty(),
            !r.finished(),
    {
        StreamDecoder { pending: Vec::new(), finished: false }
    }

    /// Whether the stream has ended: a response marked done was read, or an
    /// error was met.
    pub fn is_finished(&self) -> (r: bool)
        ensures
            r == self.finished(),
    {
        self.finished
    }

    /// Takes the next bytes of the answer and hands out the events of the
    /// lines that they complete. After the end of the stream nothing is taken
    /// and nothing handed out.
    pub fn feed(&mut self, data: &[u8]) -> (events: Vec<StreamEvent>)
        ensures
            old(self).finished() ==> {
                &&& events@.len() == 0
                &&& final(self).finished()
                &&& final(self).pending() == old(self).pending()
            },
            !old(self).finished() ==> {
                let (lines, rest) = split_lines(old(self).pending(), data@);
                &&& events@.map_values(|e: StreamEvent| e@) == events_of(lines).0
                &&& final(self).finished() == events_of(lines).1
                &&& final(self).pending() == rest
            },
    {
        let mut events: Vec<StreamEvent> = Vec::new();
        if self.finished {
            return events;
        }
        let ghost lines_at: Seq<Seq<u8>> = Seq::empty();
        let mut current: Vec<u8> = Vec::new();
        core::mem::swap(&mut self.pending, &mut current);
        let mut finished = false;
        let mut i: usize = 0;
        proof {
            assert(data@.take(0) =~= Seq::<u8>::empty());
            assert(events@.map_values(|e: StreamEvent| e@) =~= Seq::<EventView>::empty());
        }
        while i < data.len()
            invariant
                i <= data.len(),
                current@ == split_lines(old(self).pending(), data@.take(i as int)).1,
                events@.map_values(|e: StreamEvent| e@) == events_of(
                    split_lines(old(self).pending(), data@.take(i as int)).0,
                ).0,
                finished == events_of(split_lines(old(self).pending(), data@.take(i as int)).0).1,
            decreases data.len() - i,
        {
            let ghost lines = split_lines(old(self).pending(), data@.take(i as int)).0;
            let ghost before = events@.map_values(|e: StreamEvent| e@);
            proof {
                assert(data@.take(i + 1).drop_last() =~= data@.take(i as int));
            }
            if data[i] == NEWLINE {
                proof {
                    assert(lines.push(current@).drop_last() =~= lines);
                }
                if !finished && current.len() > 0 {
                    match decode_chunk(current.as_slice()) {
                        Ok(response) => {
                            finished = response.done;
                            events.push(StreamEvent::Chunk(response));
                        },
                        Err(e) => {
                            finished = true;
                            events.push(StreamEvent::Failed(e));
                        },
                    }
                    proof {
                        assert(events@.map_values(|e: StreamEvent| e@) =~= before.push(
                            events@.last()@,
                        ));
                    }
                }
                current = Vec::new();
            } else {
                current.push(data[i]);
            }
            i += 1;
        }
        proof {
            assert(data@.take(data.len() as int) =~= data@);
        }
        self.pending = current;
        self.finished = finished;
        events
    }

    /// Ends the answer after the transport has failed: unless the stream had
    /// ended before, the upstream error is handed out.
    pub fn abort(&mut self) -> (events: Vec<StreamEvent>)
        ensures
            final(self).finished(),
            final(self).pending() == old(self).pending(),
            events@.map_values(|e: StreamEvent| e@) == if old(self).finished() {
                Seq::<EventView>::empty()
            } else {
                seq![EventView::Failed(MatchError::UpstreamError)]
            },
    {
        let mut events: Vec<StreamEvent> = Vec::new();
        if !self.finished {
            events.push(StreamEvent::Failed(MatchError::UpstreamError));
            self.finished = true;
        }
        proof {
            assert(events@.map_values(|e: StreamEvent| e@) =~= if old(self).finished() {
                Seq::<EventView>::empty()
            } else {
                seq![EventView::Failed(MatchError::UpstreamError)]
            });
        }
        events
    }

    /// Ends the answer: a last line without a newline is read as a line, and
    /// the stream has ended.
    pub fn finish(&mut self) -> (events: Vec<StreamEvent>)
        ensures
            final(self).finished(),
            final(self).pending() == Seq::<u8>::empty(),
            events@.map_values(|e: StreamEvent| e@) == if old(self).finished() {
                Seq::<EventView>::empty()
            } else {
                events_of(seq![old(self).pending()]).0
            },
    {
        let mut events: Vec<StreamEvent> = Vec::new();
        let mut last: Vec<u8> = Vec::new();
        core::mem::swap(&mut self.pending, &mut last);
        proof {
            reveal_with_fuel(events_of, 2);
            assert(last@ == old(self).pending());
            assert(seq![last@].drop_last() =~= Seq::<Seq<u8>>::empty());
            assert(seq![last@].last() == last@);
            assert(events@.map_values(|e: StreamEvent| e@) =~= Seq::<EventView>::empty());
        }
        if !self.finished && last.len() > 0 {
            match decode_chunk(last.as_slice()) {
                Ok(response) => {
                    events.push(StreamEvent::Chunk(response));
                },
                Err(e) => {
                    events.push(StreamEvent::Failed(e));
                },
            }
            proof {
                assert(events@.map_values(|e: StreamEvent| e@) =~= Seq::<EventView>::empty().push(
                    events@.last()@,
                ));
            }
        }
        self.finished = true;
        events
    }
}

} // verus!
