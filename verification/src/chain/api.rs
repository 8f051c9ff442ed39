//! The Anthropic Messages API: routes, bodies, and the generation behind them.

use vstd::prelude::*;

use crate::chain::generation::Ending;
use crate::chain::tools::{self, Piece};
use crate::json;
use crate::text;

verus! {

/// What a request asks for.
#[derive(Debug, Clone, Copy, PartialEq, Eq, Structural)]
pub enum Route {
    Messages,
    CountTokens,
    NotFound,
}

/// The route of a method and a path.
pub open spec fn route_of(method: Seq<char>, path: Seq<char>) -> Route {
    if method == "POST"@ && path == "/v1/messages"@ {
        Route::Messages
    } else if method == "POST"@ && path == "/v1/messages/count_tokens"@ {
        Route::CountTokens
    } else {
        Route::NotFound
    }
}

/// The route of a method and a path.
pub fn route(method: &str, path: &str) -> (r: Route)
    ensures
        r == route_of(method@, path@),
{
    if !text::same_text(method, "POST") {
        return Route::NotFound;
    }
    if text::same_text(path, "/v1/messages") {
        return Route::Messages;
    }
    if text::same_text(path, "/v1/messages/count_tokens") {
        return Route::CountTokens;
    }
    Route::NotFound
}

/// How a request is answered.
#[derive(Debug, Clone, Copy, PartialEq, Eq, Structural)]
pub enum Answer {
    /// There is nothing under this method and path.
    NotFound,
    /// The body cannot be read as a request.
    Invalid,
    /// The number of tokens of the prompt.
    Count,
    /// The events of a reply.
    Stream,
    /// A reply in one piece, which there is not.
    NotImplemented,
}

/// How a request is answered, given its route, whether its body is a request,
/// and whether that asks for a stream.
pub open spec fn answer_of(route: Route, parsed: bool, stream: Option<bool>) -> Answer {
    if route == Route::NotFound {
        Answer::NotFound
    } else if !parsed {
        Answer::Invalid
    } else if route == Route::CountTokens {
        Answer::Count
    } else if stream == Some(true) {
        Answer::Stream
    } else {
        Answer::NotImplemented
    }
}

/// How a request is answered, given its route, whether its body is a request,
/// and whether that asks for a stream.
pub fn answer(route: Route, parsed: bool, stream: Option<bool>) -> (a: Answer)
    ensures
        a == answer_of(route, parsed, stream),
{
    match route {
        Route::NotFound => Answer::NotFound,
        Route::CountTokens => if parsed {
            Answer::Count
        } else {
            Answer::Invalid
        },
        Route::Messages => if !parsed {
            Answer::Invalid
        } else {
            match stream {
                Some(true) => Answer::Stream,
                _ => Answer::NotImplemented,
            }
        },
    }
}

impl Answer {
    pub open spec fn status_code(self) -> u16 {
        match self {
            Answer::NotFound => 404,
            Answer::Invalid => 400,
            Answer::Count => 200,
            Answer::Stream => 200,
            Answer::NotImplemented => 501,
        }
    }

    /// The HTTP status of the answer.
    pub fn status(&self) -> (r: u16)
        ensures
            r == self.status_code(),
    {
        match self {
            Answer::NotFound => 404,
            Answer::Invalid => 400,
            Answer::Count => 200,
            Answer::Stream => 200,
            Answer::NotImplemented => 501,
        }
    }
}

/// One server-sent event.
pub open spec fn sse_frame(event: Seq<char>, data: Seq<char>) -> Seq<char> {
    "event: "@ + event + "\ndata: "@ + data + "\n\n"@
}

/// Format a single SSE event frame: `event: {event}\ndata: {data}\n\n`
pub fn sse_event(event: &str, data: &str) -> (r: String)
    ensures
        r@ == sse_frame(event@, data@),
{
    let mut out: String = "event: ".to_owned();
    out.append(event);
    out.append("\ndata: ");
    out.append(data);
    out.append("\n\n");
    out
}

/// The body of an error response, from the JSON strings of its parts.
pub open spec fn error_json(err_type: Seq<char>, message: Seq<char>) -> Seq<char> {
    "{\"error\":{\"message\":"@ + message + ",\"type\":"@ + err_type + "},\"type\":\"error\"}"@
}

/// The body of an error response, from the JSON strings of its parts.
pub fn error_body_from(err_type_json: &str, message_json: &str) -> (r: String)
    ensures
        r@ == error_json(err_type_json@, message_json@),
{
    let mut out: String = "{\"error\":{\"message\":".to_owned();
    out.append(message_json);
    out.append(",\"type\":");
    out.append(err_type_json);
    out.append("},\"type\":\"error\"}");
    out
}

/// The body of an error response, in the Anthropic error format.
pub fn error_body(err_type: &str, message: &str) -> (r: String)
    ensures
        r@ == error_json(json::json_text(err_type@), json::json_text(message@)),
{
    error_body_from(json::to_json(err_type).as_str(), json::to_json(message).as_str())
}

/// The body of a refusal: what cannot be read is reported with `message`, and a
/// reply in one piece as not implemented. Other answers are none.
pub open spec fn refusal(a: Answer, message: Seq<char>) -> Option<Seq<char>> {
    match a {
        Answer::NotFound => Some("Not Found"@),
        Answer::Invalid => Some(
            error_json(json::json_text("invalid_request_error"@), json::json_text(message)),
        ),
        Answer::NotImplemented => Some(
            error_json(
                json::json_text("not_implemented"@),
                json::json_text("only streaming is supported"@),
            ),
        ),
        Answer::Count => None,
        Answer::Stream => None,
    }
}

/// The body of a refusal; `message` says why a request cannot be read. There is
/// none where the request is served.
pub fn refusal_body(a: Answer, message: &str) -> (r: Option<String>)
    ensures
        match r {
            Some(t) => refusal(a, message@) == Some(t@),
            None => refusal(a, message@) is None,
        },
{
    match a {
        Answer::NotFound => Some("Not Found".to_owned()),
        Answer::Invalid => Some(error_body("invalid_request_error", message)),
        Answer::NotImplemented => Some(
            error_body("not_implemented", "only streaming is supported"),
        ),
        Answer::Count => None,
        Answer::Stream => None,
    }
}

/// The body of a token count.
pub open spec fn count_json(n: nat) -> Seq<char> {
    "{\"input_tokens\":"@ + text::decimal(n) + "}"@
}

/// The body of a token count.
pub fn count_body(n: u64) -> (r: String)
    ensures
        r@ == count_json(n as nat),
{
    let mut out: String = "{\"input_tokens\":".to_owned();
    text::push_decimal(&mut out, n);
    out.append("}");
    out
}

/// The event that reports an error, from the JSON string of its message.
pub open spec fn error_frame(message: Seq<char>) -> Seq<char> {
    sse_frame("error"@, "{\"message\":"@ + message + ",\"type\":\"error\"}"@)
}

/// The event that reports an error, from the JSON string of its message.
pub fn error_event_from(message_json: &str) -> (r: String)
    ensures
        r@ == error_frame(message_json@),
{
    let mut data: String = "{\"message\":".to_owned();
    data.append(message_json);
    data.append(",\"type\":\"error\"}");
    sse_event("error", data.as_str())
}

/// The event that reports an error.
pub fn error_event(message: &str) -> (r: String)
    ensures
        r@ == error_frame(json::json_text(message@)),
{
    error_event_from(json::to_json(message).as_str())
}

/// The event that reports a lock that cannot be taken.
pub fn poisoned_event() -> (r: String)
    ensures
        r@ == sse_frame(
            "error"@,
            "{\"type\":\"error\",\"message\":\"engine lock poisoned\"}"@,
        ),
{
    sse_event("error", "{\"type\":\"error\",\"message\":\"engine lock poisoned\"}")
}

/// The warning in a message's metadata that the context allows no more than
/// this many tokens.
pub open spec fn warning_json(clamped_to: Option<u32>) -> Seq<char> {
    match clamped_to {
        Some(n) => "\"metadata\":{\"warning\":\"max_tokens clamped to "@ + text::decimal(n as nat)
            + "\"},"@,
        None => Seq::empty(),
    }
}

/// The event that opens a message.
pub open spec fn start_frame(input_tokens: nat, clamped_to: Option<u32>) -> Seq<char> {
    sse_frame(
        "message_start"@,
        "{\"message\":{\"content\":[],\"id\":\"msg_1\","@ + warning_json(clamped_to)
            + "\"model\":\"qwen-3.6-35b-a3b-mtp\",\"role\":\"assistant\",\"stop_reason\":null,\"stop_sequence\":null,\"type\":\"message\",\"usage\":{\"input_tokens\":"@
            + text::decimal(input_tokens)
            + ",\"output_tokens\":0}},\"type\":\"message_start\"}"@,
    )
}

/// The event that opens a text block.
pub open spec fn block_start_frame(index: nat) -> Seq<char> {
    sse_frame(
        "content_block_start"@,
        "{\"content_block\":{\"type\":\"text\"},\"index\":"@ + text::decimal(index)
            + ",\"type\":\"content_block_start\"}"@,
    )
}

/// The event that opens the block of a tool call, from the JSON string of the
/// tool's name.
pub open spec fn tool_start_frame(index: nat, name_json: Seq<char>) -> Seq<char> {
    sse_frame(
        "content_block_start"@,
        "{\"content_block\":{\"id\":\"toolu_"@ + text::decimal(index)
            + "\",\"input\":{},\"name\":"@ + name_json + ",\"type\":\"tool_use\"},\"index\":"@
            + text::decimal(index) + ",\"type\":\"content_block_start\"}"@,
    )
}

/// The event that carries a piece of text, from its JSON string.
pub open spec fn delta_frame(index: nat, text_json: Seq<char>) -> Seq<char> {
    sse_frame(
        "content_block_delta"@,
        "{\"delta\":{\"text\":"@ + text_json + ",\"type\":\"text_delta\"},\"index\":"@
            + text::decimal(index) + ",\"type\":\"content_block_delta\"}"@,
    )
}

/// The event that carries the arguments of a tool call, from the JSON string of
/// their JSON.
pub open spec fn input_frame(index: nat, arguments_json: Seq<char>) -> Seq<char> {
    sse_frame(
        "content_block_delta"@,
        "{\"delta\":{\"partial_json\":"@ + arguments_json
            + ",\"type\":\"input_json_delta\"},\"index\":"@ + text::decimal(index)
            + ",\"type\":\"content_block_delta\"}"@,
    )
}

/// The event that closes a block.
pub open spec fn block_stop_frame(index: nat) -> Seq<char> {
    sse_frame(
        "content_block_stop"@,
        "{\"type\":\"content_block_stop\",\"index\":"@ + text::decimal(index) + "}"@,
    )
}

/// The JSON of the stop sequence that ended a reply.
pub open spec fn stop_sequence_json(stop_sequence: Option<String>) -> Seq<char> {
    match stop_sequence {
        Some(t) => json::json_text(t@),
        None => "null"@,
    }
}

/// The event that reports why generation stopped, and the token counts.
pub open spec fn message_delta_frame(input_tokens: nat, ending: Ending) -> Seq<char> {
    sse_frame(
        "message_delta"@,
        "{\"delta\":{\"stop_reason\":\""@ + ending.stop_reason@ + "\",\"stop_sequence\":"@
            + stop_sequence_json(ending.stop_sequence)
            + "},\"type\":\"message_delta\",\"usage\":{\"input_tokens\":"@ + text::decimal(
            input_tokens,
        ) + ",\"output_tokens\":"@ + text::decimal(ending.output_tokens as nat) + "}}"@,
    )
}

/// The event that closes the message.
pub open spec fn message_stop_frame() -> Seq<char> {
    sse_frame("message_stop"@, "{\"type\":\"message_stop\"}"@)
}

fn start_event(input_tokens: u32, clamped_to: Option<u32>) -> (r: String)
    ensures
        r@ == start_frame(input_tokens as nat, clamped_to),
{
    let mut data: String = "{\"message\":{\"content\":[],\"id\":\"msg_1\",".to_owned();
    let mut warning: String = String::new();
    match clamped_to {
        Some(n) => {
            warning.append("\"metadata\":{\"warning\":\"max_tokens clamped to ");
            text::push_decimal(&mut warning, n as u64);
            warning.append("\"},");
        },
        None => {},
    }
    assert(warning@ =~= warning_json(clamped_to));
    data.append(warning.as_str());
    data.append(
        "\"model\":\"qwen-3.6-35b-a3b-mtp\",\"role\":\"assistant\",\"stop_reason\":null,\"stop_sequence\":null,\"type\":\"message\",\"usage\":{\"input_tokens\":",
    );
    text::push_decimal(&mut data, input_tokens as u64);
    data.append(",\"output_tokens\":0}},\"type\":\"message_start\"}");
    sse_event("message_start", data.as_str())
}

fn block_start_event(index: u64) -> (r: String)
    ensures
        r@ == block_start_frame(index as nat),
{
    let mut data: String = "{\"content_block\":{\"type\":\"text\"},\"index\":".to_owned();
    text::push_decimal(&mut data, index);
    data.append(",\"type\":\"content_block_start\"}");
    sse_event("content_block_start", data.as_str())
}

fn tool_start_event(index: u64, name_json: &str) -> (r: String)
    ensures
        r@ == tool_start_frame(index as nat, name_json@),
{
    let mut data: String = "{\"content_block\":{\"id\":\"toolu_".to_owned();
    text::push_decimal(&mut data, index);
    data.append("\",\"input\":{},\"name\":");
    data.append(name_json);
    data.append(",\"type\":\"tool_use\"},\"index\":");
    text::push_decimal(&mut data, index);
    data.append(",\"type\":\"content_block_start\"}");
    sse_event("content_block_start", data.as_str())
}

fn delta_event(index: u64, text_json: &str) -> (r: String)
    ensures
        r@ == delta_frame(index as nat, text_json@),
{
    let mut data: String = "{\"delta\":{\"text\":".to_owned();
    data.append(text_json);
    data.append(",\"type\":\"text_delta\"},\"index\":");
    text::push_decimal(&mut data, index);
    data.append(",\"type\":\"content_block_delta\"}");
    sse_event("content_block_delta", data.as_str())
}

fn input_event(index: u64, arguments_json: &str) -> (r: String)
    ensures
        r@ == input_frame(index as nat, arguments_json@),
{
    let mut data: String = "{\"delta\":{\"partial_json\":".to_owned();
    data.append(arguments_json);
    data.append(",\"type\":\"input_json_delta\"},\"index\":");
    text::push_decimal(&mut data, index);
    data.append(",\"type\":\"content_block_delta\"}");
    sse_event("content_block_delta", data.as_str())
}

fn block_stop_event(index: u64) -> (r: String)
    ensures
        r@ == block_stop_frame(index as nat),
{
    let mut data: String = "{\"type\":\"content_block_stop\",\"index\":".to_owned();
    text::push_decimal(&mut data, index);
    data.append("}");
    sse_event("content_block_stop", data.as_str())
}

fn message_delta_event(input_tokens: u32, ending: &Ending) -> (r: String)
    ensures
        r@ == message_delta_frame(input_tokens as nat, *ending),
{
    let mut data: String = "{\"delta\":{\"stop_reason\":\"".to_owned();
    data.append(ending.stop_reason);
    data.append("\",\"stop_sequence\":");
    let stop_sequence: String = match &ending.stop_sequence {
        Some(t) => json::to_json(t.as_str()),
        None => "null".to_owned(),
    };
    data.append(stop_sequence.as_str());
    data.append("},\"type\":\"message_delta\",\"usage\":{\"input_tokens\":");
    text::push_decimal(&mut data, input_tokens as u64);
    data.append(",\"output_tokens\":");
    text::push_decimal(&mut data, ending.output_tokens);
    data.append("}}");
    sse_event("message_delta", data.as_str())
}

/// The events of the pieces of a reply, behind block `index`, which is a text
/// block that is open, or behind the block before it, which is closed. A tool
/// call has a block of its own; text goes to the text block that is open, or to
/// a new one. The last text block is closed at the end.
pub open spec fn piece_frames(pieces: Seq<Piece>, index: nat, open: bool) -> Seq<char>
    decreases pieces.len(),
{
    if pieces.len() == 0 {
        if open {
            block_stop_frame(index)
        } else {
            Seq::empty()
        }
    } else {
        match pieces[0] {
            Piece::Text(t) => (if open {
                Seq::empty()
            } else {
                block_start_frame(index)
            }) + delta_frame(index, json::json_text(t@)) + piece_frames(
                pieces.skip(1),
                index,
                true,
            ),
            Piece::Tool(c) => {
                let i = if open {
                    index + 1
                } else {
                    index
                };
                (if open {
                    block_stop_frame(index)
                } else {
                    Seq::empty()
                }) + tool_start_frame(i, json::json_text(c.name@)) + input_frame(
                    i,
                    json::json_text(c.arguments@),
                ) + block_stop_frame(i) + piece_frames(pieces.skip(1), i + 1, false)
            },
        }
    }
}

/// All events of a reply.
pub open spec fn reply_frames(input_tokens: nat, pieces: Seq<Piece>, ending: Ending) -> Seq<char> {
    start_frame(input_tokens, ending.clamped_to) + block_start_frame(0) + piece_frames(
        pieces,
        0,
        true,
    ) + message_delta_frame(input_tokens, ending) + message_stop_frame()
}

/// The events of a text behind block `index`.
spec fn text_frames(t: Seq<char>, index: nat, open: bool) -> Seq<char> {
    (if open {
        Seq::empty()
    } else {
        block_start_frame(index)
    }) + delta_frame(index, json::json_text(t))
}

/// The block of a tool call behind block `index`.
spec fn tool_index(index: nat, open: bool) -> nat {
    if open {
        index + 1
    } else {
        index
    }
}

/// The events of a tool call behind block `index`.
spec fn tool_frames(name: Seq<char>, arguments: Seq<char>, index: nat, open: bool) -> Seq<char> {
    let i = tool_index(index, open);
    (if open {
        block_stop_frame(index)
    } else {
        Seq::empty()
    }) + tool_start_frame(i, json::json_text(name)) + input_frame(i, json::json_text(arguments))
        + block_stop_frame(i)
}

/// The events of the first piece, and behind them those of the rest.
proof fn lemma_first_piece(before: Seq<char>, rest: Seq<Piece>, index: nat, open: bool)
    requires
        rest.len() > 0,
    ensures
        before + piece_frames(rest, index, open) == match rest[0] {
            Piece::Text(t) => before + text_frames(t@, index, open) + piece_frames(
                rest.skip(1),
                index,
                true,
            ),
            Piece::Tool(c) => before + tool_frames(c.name@, c.arguments@, index, open)
                + piece_frames(rest.skip(1), tool_index(index, open) + 1, false),
        },
{
    match rest[0] {
        Piece::Text(t) => {
            assert(piece_frames(rest, index, open) == text_frames(t@, index, open) + piece_frames(
                rest.skip(1),
                index,
                true,
            ));
        },
        Piece::Tool(c) => {
            assert(piece_frames(rest, index, open) == tool_frames(
                c.name@,
                c.arguments@,
                index,
                open,
            ) + piece_frames(rest.skip(1), tool_index(index, open) + 1, false));
        },
    }
    assert forall|a: Seq<char>, b: Seq<char>|
        before + #[trigger] (a + b) == before + a + b by {
        assert(before + (a + b) =~= before + a + b);
    }
}

fn push_text(out: &mut String, text: &str, index: u64, open: bool)
    ensures
        final(out)@ == old(out)@ + text_frames(text@, index as nat, open),
{
    let ghost before = out@;
    let delta: String = delta_event(index, json::to_json(text).as_str());
    if open {
        out.append(delta.as_str());
        assert(out@ =~= before + text_frames(text@, index as nat, open));
    } else {
        out.append(block_start_event(index).as_str());
        out.append(delta.as_str());
        assert(out@ =~= before + text_frames(text@, index as nat, open));
    }
}

fn push_tool(out: &mut String, name: &str, arguments: &str, index: u64, open: bool) -> (i: u64)
    requires
        index < u64::MAX,
    ensures
        i == tool_index(index as nat, open),
        final(out)@ == old(out)@ + tool_frames(name@, arguments@, index as nat, open),
{
    let ghost before = out@;
    let mut i: u64 = index;
    let mut part: String = String::new();
    if open {
        part = block_stop_event(index);
        i = index + 1;
    }
    part.append(tool_start_event(i, json::to_json(name).as_str()).as_str());
    part.append(input_event(i, json::to_json(arguments).as_str()).as_str());
    part.append(block_stop_event(i).as_str());
    assert(part@ =~= tool_frames(name@, arguments@, index as nat, open));
    out.append(part.as_str());
    i
}

/// The event stream of a reply.
pub fn reply_body(input_tokens: u32, pieces: &[Piece], ending: &Ending) -> (r: String)
    requires
        2 * pieces@.len() < u64::MAX - 2,
    ensures
        r@ == reply_frames(input_tokens as nat, pieces@, *ending),
{
    let mut out: String = start_event(input_tokens, ending.clamped_to);
    out.append(block_start_event(0).as_str());
    let ghost head = out@;
    let ghost all = piece_frames(pieces@, 0, true);
    let mut index: u64 = 0;
    let mut open: bool = true;
    let mut i: usize = 0;
    assert(pieces@.skip(0) =~= pieces@);
    while i < pieces.len()
        invariant
            i <= pieces@.len(),
            2 * pieces@.len() < u64::MAX - 2,
            index <= 2 * i,
            head + all == out@ + piece_frames(pieces@.skip(i as int), index as nat, open),
        decreases pieces.len() - i,
    {
        proof {
            let rest = pieces@.skip(i as int);
            assert(rest.skip(1) =~= pieces@.skip(i + 1));
            assert(rest[0] == pieces@[i as int]);
            lemma_first_piece(out@, rest, index as nat, open);
        }
        match &pieces[i] {
            Piece::Text(t) => {
                push_text(&mut out, t.as_str(), index, open);
                open = true;
            },
            Piece::Tool(c) => {
                let at: u64 = push_tool(
                    &mut out,
                    c.name.as_str(),
                    c.arguments.as_str(),
                    index,
                    open,
                );
                index = at + 1;
                open = false;
            },
        }
        i = i + 1;
    }
    if open {
        out.append(block_stop_event(index).as_str());
    }
    assert(out@ =~= head + all);
    out.append(message_delta_event(input_tokens, ending).as_str());
    out.append(sse_event("message_stop", "{\"type\":\"message_stop\"}").as_str());
    assert(out@ =~= reply_frames(input_tokens as nat, pieces@, *ending));
    out
}

/// The text events of a reply without tool calls: one for each piece.
pub open spec fn delta_frames(pieces: Seq<Piece>) -> Seq<char>
    decreases pieces.len(),
{
    if pieces.len() == 0 {
        Seq::empty()
    } else {
        let first = match pieces[0] {
            Piece::Text(t) => delta_frame(0, json::json_text(t@)),
            Piece::Tool(_) => Seq::empty(),
        };
        first + delta_frames(pieces.skip(1))
    }
}

proof fn lemma_text_frames(pieces: Seq<Piece>)
    requires
        !tools::calls_tool(pieces),
    ensures
        piece_frames(pieces, 0, true) == delta_frames(pieces) + block_stop_frame(0),
    decreases pieces.len(),
{
    if pieces.len() == 0 {
        assert(delta_frames(pieces) + block_stop_frame(0) =~= block_stop_frame(0));
    } else {
        assert(!(pieces[0] is Tool));
        let rest = pieces.skip(1);
        assert forall|i: int| 0 <= i < rest.len() implies !(#[trigger] rest[i] is Tool) by {
            assert(!(pieces[i + 1] is Tool));
        }
        lemma_text_frames(rest);
        assert(piece_frames(pieces, 0, true) =~= delta_frames(pieces) + block_stop_frame(0));
    }
}

/// A reply opens with `message_start` and closes with `message_stop`. One
/// without tool calls has one text block between them: its start, its deltas,
/// its stop, and then why it stopped and the token counts.
pub proof fn law_reply_order(input_tokens: nat, pieces: Seq<Piece>, ending: Ending)
    requires
        !tools::calls_tool(pieces),
    ensures
        reply_frames(input_tokens, pieces, ending) == start_frame(input_tokens, ending.clamped_to)
            + block_start_frame(0) + delta_frames(pieces) + block_stop_frame(0)
            + message_delta_frame(input_tokens, ending) + message_stop_frame(),
{
    lemma_text_frames(pieces);
    assert(reply_frames(input_tokens, pieces, ending) =~= start_frame(
        input_tokens,
        ending.clamped_to,
    ) + block_start_frame(0) + delta_frames(pieces) + block_stop_frame(0) + message_delta_frame(
        input_tokens,
        ending,
    ) + message_stop_frame());
}

} // verus!
