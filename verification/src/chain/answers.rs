//! What a client is told: which requests are served, why others are not, and
//! what the events of a reply say.

use crate::chain::api;
use crate::chain::api::{Answer, Route};
use crate::chain::cli;
use crate::chain::error::Error;
use crate::chain::generation::Ending;
use crate::chain::replies;
use crate::json;
use crate::text;
use vstd::prelude::*;

verus! {

/// Messages and token counts are what one can post; everything else is not there.
pub proof fn law_routes_are_posted(method: Seq<char>, path: Seq<char>)
    ensures
        api::route_of(method, path) == Route::Messages <==> method == "POST"@ && path
            == "/v1/messages"@,
        api::route_of(method, path) == Route::CountTokens <==> method == "POST"@ && path
            == "/v1/messages/count_tokens"@,
{
    reveal_strlit("/v1/messages");
    reveal_strlit("/v1/messages/count_tokens");
    assert("/v1/messages"@.len() != "/v1/messages/count_tokens"@.len());
}

/// A request is served where its route exists, its body can be read, and it
/// counts tokens or asks for a stream; the status tells why others are not, and
/// they alone have a refusal.
pub proof fn law_status_tells_the_answer(
    route: Route,
    parsed: bool,
    stream: Option<bool>,
    message: Seq<char>,
)
    ensures
        ({
            let a = api::answer_of(route, parsed, stream);
            &&& a.status_code() == 404 <==> route == Route::NotFound
            &&& a.status_code() == 400 <==> route != Route::NotFound && !parsed
            &&& a.status_code() == 501 <==> route == Route::Messages && parsed && stream
                != Some(true)
            &&& a == Answer::Count <==> route == Route::CountTokens && parsed
            &&& a == Answer::Stream <==> route == Route::Messages && parsed && stream
                == Some(true)
            &&& (a == Answer::Count || a == Answer::Stream) <==> a.status_code() == 200
            &&& a.status_code() == 200 <==> api::refusal(a, message) is None
        }),
{
}

/// An event begins with its name, and what stands in its data stands in it.
proof fn lemma_frame(event: Seq<char>, data: Seq<char>)
    ensures
        text::stands_at(api::sse_frame(event, data), 0, "event: "@ + event + "\n"@),
        forall|p: Seq<char>|
            text::occurs_in(data, p) ==> #[trigger] text::occurs_in(
                api::sse_frame(event, data),
                p,
            ),
{
    reveal_strlit("\n");
    reveal_strlit("\ndata: ");
    let f = api::sse_frame(event, data);
    let head = "event: "@ + event + "\n"@;
    assert(f.subrange(0, head.len() as int) =~= head);
    assert(text::stands_at(f, 0, head));
    replies::lemma_part("event: "@ + event + "\ndata: "@, data, "\n\n"@);
}

/// The body of an error says that it is one, and holds its kind and its message.
pub proof fn law_errors_say_why(kind: Seq<char>, message: Seq<char>)
    ensures
        text::occurs_in(api::error_json(kind, message), "\"message\":"@ + message + ","@),
        text::occurs_in(api::error_json(kind, message), "\"type\":"@ + kind + "}"@),
        text::occurs_in(api::error_json(kind, message), "\"type\":\"error\"}"@),
{
    reveal_strlit("{\"error\":{\"message\":");
    reveal_strlit(",\"type\":");
    reveal_strlit("},\"type\":\"error\"}");
    reveal_strlit("\"message\":");
    reveal_strlit("\"type\":");
    reveal_strlit("\"type\":\"error\"}");
    reveal_strlit(",");
    reveal_strlit("}");
    let none = Seq::<char>::empty();
    let l1 = "{\"error\":{\"message\":"@;
    let l2 = ",\"type\":"@;
    let l3 = "},\"type\":\"error\"}"@;
    let all = api::error_json(kind, message);
    assert(l1.subrange(10, 20) =~= "\"message\":"@);
    assert((l2 + kind + l3).subrange(0, 1) =~= ","@);
    text::lemma_key(none, l1, message, l2 + kind + l3, "\"message\":"@, ","@);
    assert(none + l1 + message + (l2 + kind + l3) =~= all);
    assert(l2.subrange(1, 8) =~= "\"type\":"@);
    assert(l3.subrange(0, 1) =~= "}"@);
    text::lemma_key(l1 + message, l2, kind, l3, "\"type\":"@, "}"@);
    assert(l3.subrange(2, 17) =~= "\"type\":\"error\"}"@);
    assert(none.subrange(0, 0) =~= none);
    text::lemma_key(l1 + message + l2 + kind, l3, none, none, "\"type\":\"error\"}"@, none);
    assert(l1 + message + l2 + kind + l3 + none + none =~= all);
    assert("\"type\":\"error\"}"@ + none + none =~= "\"type\":\"error\"}"@);
}

/// A body that cannot be read is refused as an invalid request, with the reason,
/// and a reply in one piece as not implemented.
pub proof fn law_refusals_say_why(message: Seq<char>)
    ensures
        ({
            let invalid = api::refusal(Answer::Invalid, message);
            let whole = api::refusal(Answer::NotImplemented, message);
            &&& invalid is Some && whole is Some
            &&& text::occurs_in(
                invalid->0,
                "\"type\":"@ + json::json_text("invalid_request_error"@) + "}"@,
            )
            &&& text::occurs_in(invalid->0, "\"message\":"@ + json::json_text(message) + ","@)
            &&& text::occurs_in(
                whole->0,
                "\"type\":"@ + json::json_text("not_implemented"@) + "}"@,
            )
            &&& text::occurs_in(
                whole->0,
                "\"message\":"@ + json::json_text("only streaming is supported"@) + ","@,
            )
            &&& api::refusal(Answer::NotFound, message) == Some("Not Found"@)
        }),
{
    law_errors_say_why(json::json_text("invalid_request_error"@), json::json_text(message));
    law_errors_say_why(
        json::json_text("not_implemented"@),
        json::json_text("only streaming is supported"@),
    );
}

/// The event of an error is named so, and holds its message.
pub proof fn law_error_event_says_why(message: Seq<char>)
    ensures
        text::stands_at(api::error_frame(message), 0, "event: "@ + "error"@ + "\n"@),
        text::occurs_in(api::error_frame(message), "\"message\":"@ + message + ","@),
        text::occurs_in(api::error_frame(message), "\"type\":\"error\"}"@),
{
    reveal_strlit("{\"message\":");
    reveal_strlit(",\"type\":\"error\"}");
    reveal_strlit("\"message\":");
    reveal_strlit("\"type\":\"error\"}");
    reveal_strlit(",");
    let none = Seq::<char>::empty();
    let l1 = "{\"message\":"@;
    let l2 = ",\"type\":\"error\"}"@;
    let data = l1 + message + l2;
    lemma_frame("error"@, data);
    assert(l1.subrange(1, 11) =~= "\"message\":"@);
    assert(l2.subrange(0, 1) =~= ","@);
    text::lemma_key(none, l1, message, l2, "\"message\":"@, ","@);
    assert(none + l1 + message + l2 =~= data);
    assert(l2.subrange(1, 16) =~= "\"type\":\"error\"}"@);
    assert(none.subrange(0, 0) =~= none);
    text::lemma_key(l1 + message, l2, none, none, "\"type\":\"error\"}"@, none);
    assert(l1 + message + l2 + none + none =~= data);
    assert("\"type\":\"error\"}"@ + none + none =~= "\"type\":\"error\"}"@);
}

/// The count of a prompt's tokens is told in digits.
pub proof fn law_count_is_told(n: nat)
    ensures
        text::occurs_in(api::count_json(n), "\"input_tokens\":"@ + text::decimal(n) + "}"@),
{
    reveal_strlit("{\"input_tokens\":");
    reveal_strlit("\"input_tokens\":");
    reveal_strlit("}");
    let none = Seq::<char>::empty();
    let l1 = "{\"input_tokens\":"@;
    assert(l1.subrange(1, 16) =~= "\"input_tokens\":"@);
    assert("}"@.subrange(0, 1) =~= "}"@);
    text::lemma_key(none, l1, text::decimal(n), "}"@, "\"input_tokens\":"@, "}"@);
    assert(none + l1 + text::decimal(n) + "}"@ =~= api::count_json(n));
}

/// A piece of text is told with the block that it belongs to.
pub proof fn law_text_is_told(b: nat, t: Seq<char>)
    ensures
        text::stands_at(
            api::delta_frame(b, t),
            0,
            "event: "@ + "content_block_delta"@ + "\n"@,
        ),
        text::occurs_in(api::delta_frame(b, t), "\"text\":"@ + t + ",\"type\":\"text_delta\"}"@),
        text::occurs_in(api::delta_frame(b, t), "\"index\":"@ + text::decimal(b) + ","@),
{
    reveal_strlit("{\"delta\":{\"text\":");
    reveal_strlit(",\"type\":\"text_delta\"},\"index\":");
    reveal_strlit(",\"type\":\"content_block_delta\"}");
    reveal_strlit("\"text\":");
    reveal_strlit(",\"type\":\"text_delta\"}");
    reveal_strlit("\"index\":");
    reveal_strlit(",");
    let none = Seq::<char>::empty();
    let l1 = "{\"delta\":{\"text\":"@;
    let l2 = ",\"type\":\"text_delta\"},\"index\":"@;
    let l3 = ",\"type\":\"content_block_delta\"}"@;
    let d = text::decimal(b);
    let data = l1 + t + l2 + d + l3;
    lemma_frame("content_block_delta"@, data);
    let behind = l2 + d + l3;
    assert(l1.subrange(10, 17) =~= "\"text\":"@);
    assert(behind.subrange(0, 21) =~= ",\"type\":\"text_delta\"}"@);
    text::lemma_key(none, l1, t, behind, "\"text\":"@, ",\"type\":\"text_delta\"}"@);
    assert(none + l1 + t + behind =~= data);
    assert(l2.subrange(22, 30) =~= "\"index\":"@);
    assert(l3.subrange(0, 1) =~= ","@);
    text::lemma_key(l1 + t, l2, d, l3, "\"index\":"@, ","@);
}

/// A tool call is told by the name of the tool, under an id of its block.
pub proof fn law_tool_is_told(b: nat, name: Seq<char>)
    ensures
        text::stands_at(
            api::tool_start_frame(b, name),
            0,
            "event: "@ + "content_block_start"@ + "\n"@,
        ),
        text::occurs_in(
            api::tool_start_frame(b, name),
            "\"id\":\"toolu_"@ + text::decimal(b) + "\""@,
        ),
        text::occurs_in(
            api::tool_start_frame(b, name),
            "\"name\":"@ + name + ",\"type\":\"tool_use\"}"@,
        ),
        text::occurs_in(api::tool_start_frame(b, name), "\"index\":"@ + text::decimal(b) + ","@),
{
    reveal_strlit("{\"content_block\":{\"id\":\"toolu_");
    reveal_strlit("\",\"input\":{},\"name\":");
    reveal_strlit(",\"type\":\"tool_use\"},\"index\":");
    reveal_strlit(",\"type\":\"content_block_start\"}");
    reveal_strlit("\"id\":\"toolu_");
    reveal_strlit("\"");
    reveal_strlit("\"name\":");
    reveal_strlit(",\"type\":\"tool_use\"}");
    reveal_strlit("\"index\":");
    reveal_strlit(",");
    let none = Seq::<char>::empty();
    let l1 = "{\"content_block\":{\"id\":\"toolu_"@;
    let l2 = "\",\"input\":{},\"name\":"@;
    let l3 = ",\"type\":\"tool_use\"},\"index\":"@;
    let l4 = ",\"type\":\"content_block_start\"}"@;
    let d = text::decimal(b);
    let data = l1 + d + l2 + name + l3 + d + l4;
    lemma_frame("content_block_start"@, data);
    let from2 = l2 + name + l3 + d + l4;
    assert(l1.subrange(l1.len() - 12, l1.len() as int) =~= "\"id\":\"toolu_"@);
    assert(from2.subrange(0, 1) =~= "\""@);
    text::lemma_key(none, l1, d, from2, "\"id\":\"toolu_"@, "\""@);
    assert(none + l1 + d + from2 =~= data);
    let from3 = l3 + d + l4;
    assert(l2.subrange(l2.len() - 7, l2.len() as int) =~= "\"name\":"@);
    assert(from3.subrange(0, 19) =~= ",\"type\":\"tool_use\"}"@);
    text::lemma_key(l1 + d, l2, name, from3, "\"name\":"@, ",\"type\":\"tool_use\"}"@);
    assert(l1 + d + l2 + name + from3 =~= data);
    assert(l3.subrange(l3.len() - 8, l3.len() as int) =~= "\"index\":"@);
    assert(l4.subrange(0, 1) =~= ","@);
    text::lemma_key(l1 + d + l2 + name, l3, d, l4, "\"index\":"@, ","@);
}

/// The arguments of a tool call are told with the block that they belong to.
pub proof fn law_arguments_are_told(b: nat, t: Seq<char>)
    ensures
        text::stands_at(
            api::input_frame(b, t),
            0,
            "event: "@ + "content_block_delta"@ + "\n"@,
        ),
        text::occurs_in(
            api::input_frame(b, t),
            "\"partial_json\":"@ + t + ",\"type\":\"input_json_delta\"}"@,
        ),
        text::occurs_in(api::input_frame(b, t), "\"index\":"@ + text::decimal(b) + ","@),
{
    reveal_strlit("{\"delta\":{\"partial_json\":");
    reveal_strlit(",\"type\":\"input_json_delta\"},\"index\":");
    reveal_strlit(",\"type\":\"content_block_delta\"}");
    reveal_strlit("\"partial_json\":");
    reveal_strlit(",\"type\":\"input_json_delta\"}");
    reveal_strlit("\"index\":");
    reveal_strlit(",");
    let none = Seq::<char>::empty();
    let l1 = "{\"delta\":{\"partial_json\":"@;
    let l2 = ",\"type\":\"input_json_delta\"},\"index\":"@;
    let l3 = ",\"type\":\"content_block_delta\"}"@;
    let d = text::decimal(b);
    let data = l1 + t + l2 + d + l3;
    lemma_frame("content_block_delta"@, data);
    let behind = l2 + d + l3;
    assert(l1.subrange(l1.len() - 15, l1.len() as int) =~= "\"partial_json\":"@);
    assert(behind.subrange(0, 27) =~= ",\"type\":\"input_json_delta\"}"@);
    text::lemma_key(none, l1, t, behind, "\"partial_json\":"@, ",\"type\":\"input_json_delta\"}"@);
    assert(none + l1 + t + behind =~= data);
    assert(l2.subrange(l2.len() - 8, l2.len() as int) =~= "\"index\":"@);
    assert(l3.subrange(0, 1) =~= ","@);
    text::lemma_key(l1 + t, l2, d, l3, "\"index\":"@, ","@);
}

/// A text block is opened, and a block is closed, under its number.
pub proof fn law_blocks_are_numbered(b: nat)
    ensures
        text::stands_at(
            api::block_start_frame(b),
            0,
            "event: "@ + "content_block_start"@ + "\n"@,
        ),
        text::occurs_in(
            api::block_start_frame(b),
            "{\"type\":\"text\"},\"index\":"@ + text::decimal(b) + ","@,
        ),
        text::stands_at(api::block_stop_frame(b), 0, "event: "@ + "content_block_stop"@ + "\n"@),
        text::occurs_in(api::block_stop_frame(b), "\"index\":"@ + text::decimal(b) + "}"@),
        text::stands_at(api::message_stop_frame(), 0, "event: "@ + "message_stop"@ + "\n"@),
{
    reveal_strlit("{\"content_block\":{\"type\":\"text\"},\"index\":");
    reveal_strlit(",\"type\":\"content_block_start\"}");
    reveal_strlit("{\"type\":\"content_block_stop\",\"index\":");
    reveal_strlit("{\"type\":\"text\"},\"index\":");
    reveal_strlit("\"index\":");
    reveal_strlit(",");
    reveal_strlit("}");
    let none = Seq::<char>::empty();
    let l1 = "{\"content_block\":{\"type\":\"text\"},\"index\":"@;
    let l2 = ",\"type\":\"content_block_start\"}"@;
    let l3 = "{\"type\":\"content_block_stop\",\"index\":"@;
    let d = text::decimal(b);
    lemma_frame("content_block_start"@, l1 + d + l2);
    lemma_frame("content_block_stop"@, l3 + d + "}"@);
    lemma_frame("message_stop"@, "{\"type\":\"message_stop\"}"@);
    assert(l1.subrange(l1.len() - 24, l1.len() as int) =~= "{\"type\":\"text\"},\"index\":"@);
    assert(l2.subrange(0, 1) =~= ","@);
    text::lemma_key(none, l1, d, l2, "{\"type\":\"text\"},\"index\":"@, ","@);
    assert(none + l1 + d + l2 =~= l1 + d + l2);
    assert(l3.subrange(l3.len() - 8, l3.len() as int) =~= "\"index\":"@);
    assert("}"@.subrange(0, 1) =~= "}"@);
    text::lemma_key(none, l3, d, "}"@, "\"index\":"@, "}"@);
    assert(none + l3 + d + "}"@ =~= l3 + d + "}"@);
}

/// The last but one event of a reply tells why it ended, by which text, and how
/// many tokens there were.
pub proof fn law_ending_is_told(n: nat, e: Ending)
    ensures
        ({
            let f = api::message_delta_frame(n, e);
            &&& text::stands_at(f, 0, "event: "@ + "message_delta"@ + "\n"@)
            &&& text::occurs_in(f, "\"stop_reason\":\""@ + e.stop_reason@ + "\""@)
            &&& e.stop_sequence is Some ==> text::occurs_in(
                f,
                "\"stop_sequence\":"@ + json::json_text(e.stop_sequence->0@) + "}"@,
            )
            &&& e.stop_sequence is None ==> text::occurs_in(
                f,
                "\"stop_sequence\":"@ + "null"@ + "}"@,
            )
            &&& text::occurs_in(f, "\"input_tokens\":"@ + text::decimal(n) + ","@)
            &&& text::occurs_in(
                f,
                "\"output_tokens\":"@ + text::decimal(e.output_tokens as nat) + "}"@,
            )
        }),
{
    reveal_strlit("{\"delta\":{\"stop_reason\":\"");
    reveal_strlit("\",\"stop_sequence\":");
    reveal_strlit("},\"type\":\"message_delta\",\"usage\":{\"input_tokens\":");
    reveal_strlit(",\"output_tokens\":");
    reveal_strlit("}}");
    reveal_strlit("\"stop_reason\":\"");
    reveal_strlit("\"stop_sequence\":");
    reveal_strlit("\"input_tokens\":");
    reveal_strlit("\"output_tokens\":");
    reveal_strlit("\"");
    reveal_strlit(",");
    reveal_strlit("}");
    let none = Seq::<char>::empty();
    let l1 = "{\"delta\":{\"stop_reason\":\""@;
    let l2 = "\",\"stop_sequence\":"@;
    let l3 = "},\"type\":\"message_delta\",\"usage\":{\"input_tokens\":"@;
    let l4 = ",\"output_tokens\":"@;
    let l5 = "}}"@;
    let x1 = e.stop_reason@;
    let x2 = api::stop_sequence_json(e.stop_sequence);
    let x3 = text::decimal(n);
    let x4 = text::decimal(e.output_tokens as nat);
    let data = l1 + x1 + l2 + x2 + l3 + x3 + l4 + x4 + l5;
    lemma_frame("message_delta"@, data);
    let from2 = l2 + x2 + l3 + x3 + l4 + x4 + l5;
    assert(l1.subrange(l1.len() - 15, l1.len() as int) =~= "\"stop_reason\":\""@);
    assert(from2.subrange(0, 1) =~= "\""@);
    text::lemma_key(none, l1, x1, from2, "\"stop_reason\":\""@, "\""@);
    assert(none + l1 + x1 + from2 =~= data);
    let from3 = l3 + x3 + l4 + x4 + l5;
    assert(l2.subrange(l2.len() - 16, l2.len() as int) =~= "\"stop_sequence\":"@);
    assert(from3.subrange(0, 1) =~= "}"@);
    text::lemma_key(l1 + x1, l2, x2, from3, "\"stop_sequence\":"@, "}"@);
    assert(l1 + x1 + l2 + x2 + from3 =~= data);
    let from4 = l4 + x4 + l5;
    assert(l3.subrange(l3.len() - 15, l3.len() as int) =~= "\"input_tokens\":"@);
    assert(from4.subrange(0, 1) =~= ","@);
    text::lemma_key(l1 + x1 + l2 + x2, l3, x3, from4, "\"input_tokens\":"@, ","@);
    assert(l1 + x1 + l2 + x2 + l3 + x3 + from4 =~= data);
    assert(l4.subrange(l4.len() - 16, l4.len() as int) =~= "\"output_tokens\":"@);
    assert(l5.subrange(0, 1) =~= "}"@);
    text::lemma_key(l1 + x1 + l2 + x2 + l3 + x3, l4, x4, l5, "\"output_tokens\":"@, "}"@);
}

/// Without arguments no model is named, nothing is tried out, and the server
/// listens at its own port with room for 4096 tokens.
pub proof fn law_settings_without_arguments()
    ensures
        ({
            let a = cli::defaults();
            &&& a.model is None && !a.smoke && !a.test_forward
            &&& a.port == 8787
            &&& a.max_context == 4096
        }),
{
}

/// What is shown of an error begins with the part that failed, and ends with what
/// it says of itself.
pub proof fn law_errors_name_their_part(s: String)
    ensures
        ends_with(Error::Vulkan(s).text(), "Vulkan: "@, s@),
        ends_with(Error::Gguf(s).text(), "GGUF parse: "@, s@),
        ends_with(Error::Api(s).text(), "API: "@, s@),
        ends_with(Error::Tokenizer(s).text(), "Tokenizer: "@, s@),
        ends_with(Error::Architecture(s).text(), "Model architecture mismatch: "@, s@),
        ends_with(Error::Io(s).text(), "IO: "@, s@),
{
    lemma_ends("Vulkan: "@, s@);
    lemma_ends("GGUF parse: "@, s@);
    lemma_ends("API: "@, s@);
    lemma_ends("Tokenizer: "@, s@);
    lemma_ends("Model architecture mismatch: "@, s@);
    lemma_ends("IO: "@, s@);
}

/// `t` is made of `head` and, right behind it, `tail`.
pub open spec fn ends_with(t: Seq<char>, head: Seq<char>, tail: Seq<char>) -> bool {
    &&& t.len() == head.len() + tail.len()
    &&& text::stands_at(t, 0, head)
    &&& text::stands_at(t, head.len() as int, tail)
}

proof fn lemma_ends(head: Seq<char>, tail: Seq<char>)
    ensures
        ends_with(head + tail, head, tail),
{
    let t = head + tail;
    assert(t.subrange(0, head.len() as int) =~= head);
    assert(t.subrange(head.len() as int, t.len() as int) =~= tail);
}

/// What is shown of a shortage tells what is needed and what is there, and of a
/// full cache how many tokens it holds and can hold.
pub proof fn law_shortages_tell_numbers(needed: u64, available: u64, used: usize, max: usize)
    ensures
        ({
            let t = Error::OutOfMemory { needed, available }.text();
            &&& text::occurs_in(t, "needed "@ + text::decimal(needed as nat) + ","@)
            &&& text::occurs_in(t, "available "@ + text::decimal(available as nat))
        }),
        ({
            let t = Error::KvCacheFull(used, max).text();
            &&& text::occurs_in(t, "full: "@ + text::decimal(used as nat) + " tokens"@)
            &&& text::occurs_in(t, "max "@ + text::decimal(max as nat) + ";"@)
        }),
{
    reveal_strlit("Out of memory: needed ");
    reveal_strlit(", available ");
    reveal_strlit("KV cache full: ");
    reveal_strlit(" tokens, max ");
    reveal_strlit("; reduce max_tokens or restart with a shorter context");
    reveal_strlit("needed ");
    reveal_strlit(",");
    reveal_strlit("available ");
    reveal_strlit("full: ");
    reveal_strlit(" tokens");
    reveal_strlit("max ");
    reveal_strlit(";");
    let none = Seq::<char>::empty();
    assert(none.subrange(0, 0) =~= none);
    let l1 = "Out of memory: needed "@;
    let l2 = ", available "@;
    let n = text::decimal(needed as nat);
    let a = text::decimal(available as nat);
    assert(l1.subrange(l1.len() - 7, l1.len() as int) =~= "needed "@);
    assert((l2 + a).subrange(0, 1) =~= ","@);
    text::lemma_key(none, l1, n, l2 + a, "needed "@, ","@);
    assert(none + l1 + n + (l2 + a) =~= l1 + n + l2 + a);
    assert(l2.subrange(l2.len() - 10, l2.len() as int) =~= "available "@);
    text::lemma_key(l1 + n, l2, a, none, "available "@, none);
    assert(l1 + n + l2 + a + none =~= l1 + n + l2 + a);
    assert("available "@ + a + none =~= "available "@ + a);
    let l3 = "KV cache full: "@;
    let l4 = " tokens, max "@;
    let l5 = "; reduce max_tokens or restart with a shorter context"@;
    let u = text::decimal(used as nat);
    let m = text::decimal(max as nat);
    assert(l3.subrange(l3.len() - 6, l3.len() as int) =~= "full: "@);
    assert((l4 + m + l5).subrange(0, 7) =~= " tokens"@);
    text::lemma_key(none, l3, u, l4 + m + l5, "full: "@, " tokens"@);
    assert(none + l3 + u + (l4 + m + l5) =~= l3 + u + l4 + m + l5);
    assert(l4.subrange(l4.len() - 4, l4.len() as int) =~= "max "@);
    assert(l5.subrange(0, 1) =~= ";"@);
    text::lemma_key(l3 + u, l4, m, l5, "max "@, ";"@);
}

} // verus!
