//! The HTTP server's half that works on text: requests, prompts and responses
//! in the Anthropic Messages format.

use crate::json;
use crate::text;
use vstd::prelude::*;

verus! {

/// Where the server listens.
pub struct Server {
    pub host: String,
    pub port: u16,
}

impl Server {
    /// A server for this host and port.
    pub fn new(host: &str, port: u16) -> (r: Self)
        ensures
            r.host@ == host@,
            r.port == port,
    {
        Server { host: host.to_owned(), port }
    }

    /// The host and the port, with a colon between them.
    pub fn address(&self) -> (r: String)
        ensures
            r@ == self.host@ + ":"@ + text::decimal(self.port as nat),
    {
        let mut out: String = self.host.clone();
        out.append(":");
        text::push_decimal(&mut out, self.port as u64);
        out
    }
}

/// The most tokens of a reply when a request does not say.
pub const DEFAULT_MAX_TOKENS: u32 = 4096;

/// The most tokens of a reply.
pub fn most_tokens(asked: Option<u32>) -> (r: u32)
    ensures
        r == match asked {
            Some(n) => n,
            None => DEFAULT_MAX_TOKENS,
        },
{
    match asked {
        Some(n) => n,
        None => DEFAULT_MAX_TOKENS,
    }
}

/// What arrived on a connection. A body stands from `start` to `end` in the
/// buffer.
#[derive(Clone, Copy, Debug, PartialEq, Eq, Structural)]
pub enum Request {
    Empty,
    NotFound,
    Messages { start: usize, end: usize },
}

/// A blank line follows at `i`.
pub open spec fn blank_line_at(s: Seq<u8>, i: int) -> bool {
    s[i] == 13 && s[i + 1] == 10 && s[i + 2] == 13 && s[i + 3] == 10
}

/// Where the line ends behind which the body starts, from `from` on; the length
/// when there is none.
pub open spec fn headers_end(s: Seq<u8>, from: int) -> int
    decreases s.len() - from,
{
    if from + 4 > s.len() {
        s.len() as int
    } else if blank_line_at(s, from) {
        from
    } else {
        headers_end(s, from + 1)
    }
}

/// The line is the header that gives the length of the body.
pub open spec fn is_length_header(line: Seq<char>) -> bool {
    text::has_prefix(text::ascii_lowered(line), "content-length:"@)
}

/// The length that the header gives: the number behind the colon, up to another
/// colon if there is one. What is no number counts as zero.
pub open spec fn header_length(line: Seq<char>) -> nat {
    let rest = line.skip("content-length:"@.len() as int);
    let value = rest.take(text::first_of(rest, ':') as int);
    match text::number_in(text::trim_back(text::trim_front(value)), usize::MAX as nat) {
        Some(n) => n,
        None => 0,
    }
}

/// The length of the body that the first such header of a request gives; zero
/// when there is none.
pub open spec fn declared_length(s: Seq<char>) -> nat
    decreases s.len(),
{
    let k = text::first_of(s, '\n') as int;
    if is_length_header(s.take(k)) {
        header_length(s.take(k))
    } else if 0 <= k < s.len() {
        declared_length(s.skip(k + 1))
    } else {
        0
    }
}

/// What the first `n` bytes in the buffer ask for, or what is wrong with them.
/// The body is never longer than the buffer.
pub open spec fn request_of(buf: Seq<u8>, n: int) -> Result<Request, Seq<char>> {
    let got = buf.take(n);
    let at = headers_end(got, 0);
    if n == 0 {
        Ok(Request::Empty)
    } else if !vstd::utf8::valid_utf8(got) {
        Err("Invalid UTF-8"@)
    } else if at == n {
        Err("No headers"@)
    } else {
        let s = vstd::utf8::decode_utf8(got);
        if text::has_prefix(s, "POST /v1/messages"@) {
            let start = at + 4;
            let len = declared_length(s);
            let room = buf.len() - start;
            let end = start + if len < room {
                len as int
            } else {
                room
            };
            Ok(Request::Messages { start: start as usize, end: end as usize })
        } else {
            Ok(Request::NotFound)
        }
    }
}

fn find_headers_end(s: &[u8]) -> (r: usize)
    ensures
        r == headers_end(s@, 0),
        r <= s@.len(),
        r < s@.len() ==> r + 4 <= s@.len(),
{
    assert(s.len() == s@.len());
    let n: usize = s.len();
    let mut i: usize = 0;
    while i < n && n - i >= 4
        invariant
            i <= n == s@.len(),
            headers_end(s@, 0) == headers_end(s@, i as int),
        decreases n - i,
    {
        if s[i] == 13 && s[i + 1] == 10 && s[i + 2] == 13 && s[i + 3] == 10 {
            return i;
        }
        i = i + 1;
    }
    n
}

fn length_in(line: &[char]) -> (r: usize)
    requires
        is_length_header(line@),
    ensures
        r == header_length(line@),
{
    let name: Vec<char> = text::to_chars("content-length:");
    let rest: &[char] = vstd::slice::slice_subrange(line, name.len(), line.len());
    assert(rest@ =~= line@.skip("content-length:"@.len() as int));
    let colon: usize = text::find_char(rest, ':');
    let value: &[char] = vstd::slice::slice_subrange(rest, 0, colon);
    assert(value@ =~= rest@.take(colon as int));
    match text::parse_number(text::trim(value), usize::MAX as u64) {
        Some(n) => n as usize,
        None => 0,
    }
}

fn find_length(s: &[char]) -> (r: usize)
    ensures
        r == declared_length(s@),
{
    let mut at: usize = 0;
    assert(s@.skip(0) =~= s@);
    loop
        invariant
            at <= s@.len(),
            declared_length(s@) == declared_length(s@.skip(at as int)),
        decreases s@.len() - at,
    {
        let rest: &[char] = vstd::slice::slice_subrange(s, at, s.len());
        assert(rest@ =~= s@.skip(at as int));
        let k: usize = text::find_char(rest, '\n');
        let line: &[char] = vstd::slice::slice_subrange(rest, 0, k);
        assert(line@ =~= rest@.take(k as int));
        let lowered: Vec<char> = text::to_ascii_lower(line);
        if text::starts_with(lowered.as_slice(), "content-length:") {
            return length_in(line);
        }
        if k < rest.len() {
            assert(rest@.skip(k + 1) =~= s@.skip(at + k + 1));
            at = at + k + 1;
        } else {
            return 0;
        }
    }
}

/// What the first `n` bytes in the buffer ask for.
pub fn parse_request(buf: &[u8], n: usize) -> (r: Result<Request, String>)
    requires
        n <= buf@.len(),
    ensures
        match (r, request_of(buf@, n as int)) {
            (Ok(a), Ok(b)) => a == b,
            (Err(a), Err(b)) => a@ == b,
            _ => false,
        },
        r matches Ok(Request::Messages { start, end }) ==> start <= end <= buf@.len(),
{
    if n == 0 {
        return Ok(Request::Empty);
    }
    let got: &[u8] = vstd::slice::slice_subrange(buf, 0, n);
    assert(got@ =~= buf@.take(n as int));
    let s: String = match text::decode_text(got) {
        Ok(s) => s,
        Err(_) => {
            return Err("Invalid UTF-8".to_owned());
        },
    };
    let at: usize = find_headers_end(got);
    if at == n {
        return Err("No headers".to_owned());
    }
    let chars: Vec<char> = text::to_chars(s.as_str());
    if !text::starts_with(chars.as_slice(), "POST /v1/messages") {
        return Ok(Request::NotFound);
    }
    let start: usize = at + 4;
    let len: usize = find_length(chars.as_slice());
    let room: usize = buf.len() - start;
    let end: usize = if len < room {
        start + len
    } else {
        buf.len()
    };
    Ok(Request::Messages { start, end })
}

/// One message of a conversation.
pub struct Message {
    pub role: String,
    pub content: String,
}

/// What a message says.
pub struct MessageModel {
    pub role: Seq<char>,
    pub content: Seq<char>,
}

impl Message {
    pub open spec fn model(&self) -> MessageModel {
        MessageModel { role: self.role@, content: self.content@ }
    }
}

/// What all messages say.
pub open spec fn conversation(ms: Seq<Message>) -> Seq<MessageModel> {
    Seq::new(ms.len(), |i: int| ms[i].model())
}

/// The role that a message is given; an unknown one counts as the user.
pub open spec fn known_role(role: Seq<char>) -> Seq<char> {
    if role == "assistant"@ || role == "user"@ || role == "system"@ {
        role
    } else {
        "user"@
    }
}

/// One turn of the prompt.
pub open spec fn turn(role: Seq<char>, content: Seq<char>) -> Seq<char> {
    "<|im_start|>"@ + role + "\n"@ + content + "\n<|im_end|>\n"@
}

/// The turns of the messages.
pub open spec fn turns(ms: Seq<MessageModel>) -> Seq<char>
    decreases ms.len(),
{
    if ms.len() == 0 {
        Seq::empty()
    } else {
        turns(ms.drop_last()) + turn(known_role(ms.last().role), ms.last().content)
    }
}

/// The prompt of a conversation: the system's turn if there is one, the turns
/// of the messages, and the start of the assistant's.
pub open spec fn prompt_of(ms: Seq<MessageModel>, system: Option<Seq<char>>) -> Seq<char> {
    let first = match system {
        Some(s) => turn("system"@, s),
        None => Seq::empty(),
    };
    first + turns(ms) + "<|im_start|>assistant\n"@
}

fn push_turn(out: &mut String, role: &str, content: &str)
    ensures
        final(out)@ == old(out)@ + turn(role@, content@),
{
    let ghost start = out@;
    out.append("<|im_start|>");
    out.append(role);
    out.append("\n");
    out.append(content);
    out.append("\n<|im_end|>\n");
    assert(out@ =~= start + turn(role@, content@));
}

/// The prompt of a conversation.
pub fn apply_chat_template(messages: &[Message], system: Option<&str>) -> (r: String)
    ensures
        r@ == prompt_of(
            conversation(messages@),
            match system {
                Some(s) => Some(s@),
                None => None,
            },
        ),
{
    let ghost ms = conversation(messages@);
    let mut out: String = String::new();
    if let Some(s) = system {
        push_turn(&mut out, "system", s);
    }
    let ghost first = out@;
    let mut i: usize = 0;
    assert(turns(ms.take(0)) =~= Seq::<char>::empty());
    assert(out@ =~= first + turns(ms.take(0)));
    while i < messages.len()
        invariant
            i <= messages@.len(),
            ms == conversation(messages@),
            out@ == first + turns(ms.take(i as int)),
        decreases messages.len() - i,
    {
        let ghost next = ms.take(i + 1);
        assert(next.drop_last() =~= ms.take(i as int));
        let m: &Message = &messages[i];
        let role: &str = m.role.as_str();
        let known: bool = text::same_text(role, "assistant") || text::same_text(role, "user")
            || text::same_text(role, "system");
        push_turn(
            &mut out,
            if known {
                role
            } else {
                "user"
            },
            m.content.as_str(),
        );
        i = i + 1;
        assert(out@ =~= first + turns(next));
    }
    assert(ms.take(i as int) =~= ms);
    out.append("<|im_start|>assistant\n");
    out
}

/// One server-sent event.
pub open spec fn sse_frame(event: Seq<char>, data: Seq<char>) -> Seq<char> {
    "event: "@ + event + "\ndata: "@ + data + "\n\n"@
}

/// One server-sent event.
pub fn sse_event(event: &str, data: &str) -> (r: String)
    ensures
        r@ == sse_frame(event@, data@),
{
    let mut out: String = "event: ".to_owned();
    out.append(event);
    out.append("\ndata: ");
    out.append(data);
    out.append("\n\n");
    out
}

/// The head of a streaming response.
pub open spec fn stream_head_text() -> Seq<char> {
    "HTTP/1.1 200 OK\r\nContent-Type: text/event-stream\r\nConnection: keep-alive\r\n\r\n"@
}

/// The head of a streaming response.
pub fn stream_head() -> (r: String)
    ensures
        r@ == stream_head_text(),
        r@
            == "HTTP/1.1 200 OK\r\nContent-Type: text/event-stream\r\nConnection: keep-alive\r\n\r\n"@,
{
    "HTTP/1.1 200 OK\r\nContent-Type: text/event-stream\r\nConnection: keep-alive\r\n\r\n".to_owned()
}

/// The event that opens a message.
pub open spec fn start_frame(input_tokens: nat) -> Seq<char> {
    sse_frame(
        "message_start"@,
        "{\"type\":\"message_start\",\"message\":{\"id\":\"msg_000000000000002a\",\"type\":\"message\",\"role\":\"assistant\",\"content\":[],\"model\":\"qwen3.6-35b-a3b\",\"stop_reason\":null,\"stop_sequence\":null,\"usage\":{\"input_tokens\":"@
            + text::decimal(input_tokens) + ",\"output_tokens\":0}}}"@,
    )
}

/// The event that opens the text.
pub open spec fn block_start_frame() -> Seq<char> {
    sse_frame(
        "content_block_start"@,
        "{\"type\":\"content_block_start\",\"index\":0,\"content_block\":{\"type\":\"text\",\"text\":\"\"}}"@,
    )
}

/// The event that carries a piece of text, from its JSON string.
pub open spec fn delta_frame(text_json: Seq<char>) -> Seq<char> {
    sse_frame(
        "content_block_delta"@,
        "{\"type\":\"content_block_delta\",\"index\":0,\"delta\":{\"type\":\"text_delta\",\"text\":"@
            + text_json + "}}"@,
    )
}

/// The event that closes the text.
pub open spec fn block_stop_frame() -> Seq<char> {
    sse_frame("content_block_stop"@, "{\"type\":\"content_block_stop\",\"index\":0}"@)
}

/// The event that says why the reply ended and how long it is.
pub open spec fn message_delta_frame(output_tokens: nat) -> Seq<char> {
    sse_frame(
        "message_delta"@,
        "{\"type\":\"message_delta\",\"delta\":{\"stop_reason\":\"end_turn\",\"stop_sequence\":null},\"usage\":{\"output_tokens\":"@
            + text::decimal(output_tokens) + "}}"@,
    )
}

/// The event that closes the message.
pub open spec fn message_stop_frame() -> Seq<char> {
    sse_frame("message_stop"@, "{\"type\":\"message_stop\"}"@)
}

/// The events before the first piece of text.
pub fn opening_events(input_tokens: u64) -> (r: Vec<String>)
    ensures
        text::texts(r@) == seq![start_frame(input_tokens as nat), block_start_frame()],
{
    let mut data: String =
        "{\"type\":\"message_start\",\"message\":{\"id\":\"msg_000000000000002a\",\"type\":\"message\",\"role\":\"assistant\",\"content\":[],\"model\":\"qwen3.6-35b-a3b\",\"stop_reason\":null,\"stop_sequence\":null,\"usage\":{\"input_tokens\":".to_owned();
    text::push_decimal(&mut data, input_tokens);
    data.append(",\"output_tokens\":0}}}");
    let first: String = sse_event("message_start", data.as_str());
    let second: String = sse_event(
        "content_block_start",
        "{\"type\":\"content_block_start\",\"index\":0,\"content_block\":{\"type\":\"text\",\"text\":\"\"}}",
    );
    let out: Vec<String> = vec![first, second];
    assert(text::texts(out@) =~= seq![start_frame(input_tokens as nat), block_start_frame()]);
    out
}

/// The event that carries a piece of text, from its JSON string.
pub fn delta_event_from(text_json: &str) -> (r: String)
    ensures
        r@ == delta_frame(text_json@),
{
    let mut data: String =
        "{\"type\":\"content_block_delta\",\"index\":0,\"delta\":{\"type\":\"text_delta\",\"text\":".to_owned();
    data.append(text_json);
    data.append("}}");
    sse_event("content_block_delta", data.as_str())
}

/// The event that carries a piece of text.
pub fn delta_event(piece: &str) -> (r: String)
    ensures
        r@ == delta_frame(json::json_text(piece@)),
{
    delta_event_from(json::to_json(piece).as_str())
}

/// The events behind the last piece of text.
pub fn closing_events(output_tokens: u32) -> (r: Vec<String>)
    ensures
        text::texts(r@) == seq![
            block_stop_frame(),
            message_delta_frame(output_tokens as nat),
            message_stop_frame(),
        ],
{
    let first: String = sse_event(
        "content_block_stop",
        "{\"type\":\"content_block_stop\",\"index\":0}",
    );
    let mut data: String =
        "{\"type\":\"message_delta\",\"delta\":{\"stop_reason\":\"end_turn\",\"stop_sequence\":null},\"usage\":{\"output_tokens\":".to_owned();
    text::push_decimal(&mut data, output_tokens as u64);
    data.append("}}");
    let second: String = sse_event("message_delta", data.as_str());
    let third: String = sse_event("message_stop", "{\"type\":\"message_stop\"}");
    let out: Vec<String> = vec![first, second, third];
    assert(text::texts(out@) =~= seq![
        block_stop_frame(),
        message_delta_frame(output_tokens as nat),
        message_stop_frame(),
    ]);
    out
}

/// The body of a whole reply, from the JSON string of its text.
pub open spec fn reply_json(
    text_json: Seq<char>,
    input_tokens: nat,
    output_tokens: nat,
) -> Seq<char> {
    "{\"id\":\"msg_000000000000002a\",\"type\":\"message\",\"role\":\"assistant\",\"content\":[{\"type\":\"text\",\"text\":"@
        + text_json
        + "}],\"model\":\"qwen3.6-35b-a3b\",\"stop_reason\":\"end_turn\",\"stop_sequence\":null,\"usage\":{\"input_tokens\":"@
        + text::decimal(input_tokens) + ",\"output_tokens\":"@ + text::decimal(output_tokens)
        + "}}"@
}

/// The body of a whole reply, from the JSON string of its text.
pub fn reply_body_from(text_json: &str, input_tokens: u32, output_tokens: u32) -> (r: String)
    ensures
        r@ == reply_json(text_json@, input_tokens as nat, output_tokens as nat),
{
    let mut out: String =
        "{\"id\":\"msg_000000000000002a\",\"type\":\"message\",\"role\":\"assistant\",\"content\":[{\"type\":\"text\",\"text\":".to_owned();
    out.append(text_json);
    out.append(
        "}],\"model\":\"qwen3.6-35b-a3b\",\"stop_reason\":\"end_turn\",\"stop_sequence\":null,\"usage\":{\"input_tokens\":",
    );
    text::push_decimal(&mut out, input_tokens as u64);
    out.append(",\"output_tokens\":");
    text::push_decimal(&mut out, output_tokens as u64);
    out.append("}}");
    out
}

/// The body of a whole reply.
pub fn reply_body(reply: &str, input_tokens: u32, output_tokens: u32) -> (r: String)
    ensures
        r@ == reply_json(json::json_text(reply@), input_tokens as nat, output_tokens as nat),
{
    reply_body_from(json::to_json(reply).as_str(), input_tokens, output_tokens)
}

/// A response with a JSON body, which is measured in bytes.
pub open spec fn json_response_text(status: u16, body: Seq<char>) -> Seq<char> {
    "HTTP/1.1 "@ + text::decimal(status as nat) + (if status == 200 {
        " OK"@
    } else {
        " Error"@
    }) + "\r\nContent-Type: application/json\r\nContent-Length: "@ + text::decimal(
        vstd::utf8::encode_utf8(body).len(),
    ) + "\r\n\r\n"@ + body
}

/// A response with a JSON body.
pub fn json_response(status: u16, body: &str) -> (r: String)
    ensures
        r@ == json_response_text(status, body@),
{
    let mut out: String = "HTTP/1.1 ".to_owned();
    text::push_decimal(&mut out, status as u64);
    if status == 200 {
        out.append(" OK");
    } else {
        out.append(" Error");
    }
    out.append("\r\nContent-Type: application/json\r\nContent-Length: ");
    let bytes: &[u8] = body.as_bytes();
    text::push_decimal(&mut out, bytes.len() as u64);
    out.append("\r\n\r\n");
    out.append(body);
    out
}

/// The response to a request for anything else.
pub fn not_found() -> (r: String)
    ensures
        r@ == json_response_text(404, "{\"error\":\"not found\"}"@),
{
    json_response(404, "{\"error\":\"not found\"}")
}

/// A prompt ends where the assistant's turn begins.
pub proof fn law_prompt_ends_with_assistant(ms: Seq<MessageModel>, system: Option<Seq<char>>)
    ensures
        ({
            let p = prompt_of(ms, system);
            let tail = "<|im_start|>assistant\n"@;
            p.len() >= tail.len() && p.skip(p.len() - tail.len()) == tail
        }),
{
    let p = prompt_of(ms, system);
    let tail = "<|im_start|>assistant\n"@;
    assert(p.skip(p.len() - tail.len()) =~= tail);
}

/// One more message only adds its turn before the assistant's.
pub proof fn law_prompt_grows(
    ms: Seq<MessageModel>,
    next: MessageModel,
    system: Option<Seq<char>>,
)
    ensures
        ({
            let tail = "<|im_start|>assistant\n"@;
            let p = prompt_of(ms, system);
            let before = p.take(p.len() - tail.len());
            prompt_of(ms.push(next), system) == before + turn(known_role(next.role), next.content)
                + tail
        }),
{
    let tail = "<|im_start|>assistant\n"@;
    let p = prompt_of(ms, system);
    let before = p.take(p.len() - tail.len());
    let first = match system {
        Some(s) => turn("system"@, s),
        None => Seq::empty(),
    };
    assert(ms.push(next).drop_last() =~= ms);
    assert(before =~= first + turns(ms));
    assert(prompt_of(ms.push(next), system) =~= before + turn(known_role(next.role), next.content)
        + tail);
}

/// A body is as long as the request says, unless the buffer ends before.
pub proof fn law_body_is_as_long_as_declared(buf: Seq<u8>, n: int)
    requires
        0 <= n <= buf.len() <= usize::MAX,
        request_of(buf, n) matches Ok(Request::Messages { start, end }),
    ensures
        ({
            let r = request_of(buf, n)->Ok_0;
            let len = declared_length(vstd::utf8::decode_utf8(buf.take(n)));
            &&& r->start <= r->end <= buf.len()
            &&& r->end - r->start <= len
            &&& r->end < buf.len() ==> r->end - r->start == len
        }),
{
    lemma_headers_end(buf.take(n), 0);
}

proof fn lemma_headers_end(s: Seq<u8>, from: int)
    requires
        0 <= from <= s.len(),
    ensures
        from <= headers_end(s, from) <= s.len(),
        headers_end(s, from) < s.len() ==> headers_end(s, from) + 4 <= s.len() && blank_line_at(
            s,
            headers_end(s, from),
        ),
    decreases s.len() - from,
{
    if from + 4 <= s.len() && !blank_line_at(s, from) {
        lemma_headers_end(s, from + 1);
    }
}

/// Whatever a piece of text holds, its event has three lines: the kind, the
/// data, and the blank line that ends it.
pub proof fn law_delta_keeps_to_its_lines(piece: Seq<char>)
    ensures
        ({
            let data =
                "{\"type\":\"content_block_delta\",\"index\":0,\"delta\":{\"type\":\"text_delta\",\"text\":"@
                + json::json_text(piece) + "}}"@;
            &&& json::is_one_line(data)
            &&& delta_frame(json::json_text(piece)) == "event: content_block_delta\ndata: "@ + data
                + "\n\n"@
        }),
{
    json::law_json_is_one_line(piece);
    reveal_strlit(
        "{\"type\":\"content_block_delta\",\"index\":0,\"delta\":{\"type\":\"text_delta\",\"text\":",
    );
    reveal_strlit("}}");
    reveal_strlit("event: ");
    reveal_strlit("content_block_delta");
    reveal_strlit("\ndata: ");
    reveal_strlit("event: content_block_delta\ndata: ");
    let head =
        "{\"type\":\"content_block_delta\",\"index\":0,\"delta\":{\"type\":\"text_delta\",\"text\":"@;
    assert(json::is_one_line(head));
    assert("event: "@ + "content_block_delta"@ + "\ndata: "@
        =~= "event: content_block_delta\ndata: "@);
}

} // verus!
