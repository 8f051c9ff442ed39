//! What requests, prompts and responses hold: every message stands in the
//! prompt, lengths are read as they are written, and events name their kind.

use crate::server;
use crate::server::MessageModel;
use crate::text;
use vstd::prelude::*;

verus! {

/// The role under which a message stands in a prompt.
pub open spec fn stands_as(role: Seq<char>, as_role: Seq<char>) -> bool {
    if role == "system"@ {
        as_role == "system"@
    } else if role == "assistant"@ {
        as_role == "assistant"@
    } else {
        as_role == "user"@
    }
}

/// Characters of a turn: 25 of its own, the role and the content.
pub open spec fn turn_size(m: MessageModel) -> int {
    let role = if m.role == "system"@ {
        6int
    } else if m.role == "assistant"@ {
        9
    } else {
        4
    };
    25 + role + m.content.len()
}

/// Where the turn of message `i` starts in the prompt.
pub open spec fn turn_start(ms: Seq<MessageModel>, system: Option<Seq<char>>, i: int) -> int
    decreases i,
{
    if i <= 0 {
        match system {
            Some(s) => 31int + s.len(),
            None => 0,
        }
    } else {
        turn_start(ms, system, i - 1) + turn_size(ms[i - 1])
    }
}

/// At `at` in the prompt a turn stands: its start, the role, the content on
/// lines of its own, and its end.
pub open spec fn is_turn(p: Seq<char>, at: int, role: Seq<char>, content: Seq<char>) -> bool {
    let body = at + 12 + role.len() + 1;
    &&& 0 <= at
    &&& text::stands_at(p, at, "<|im_start|>"@)
    &&& text::stands_at(p, at + 12, role)
    &&& text::stands_at(p, at + 12 + role.len(), "\n"@)
    &&& text::stands_at(p, body, content)
    &&& text::stands_at(p, body + content.len(), "\n<|im_end|>\n"@)
}

proof fn lemma_literals()
    ensures
        "<|im_start|>"@.len() == 12,
        "\n"@.len() == 1,
        "\n<|im_end|>\n"@.len() == 12,
        "system"@.len() == 6,
        "assistant"@.len() == 9,
        "user"@.len() == 4,
        "system"@ != "user"@,
        "system"@ != "assistant"@,
        "assistant"@ != "user"@,
{
    reveal_strlit("<|im_start|>");
    reveal_strlit("\n");
    reveal_strlit("\n<|im_end|>\n");
    reveal_strlit("system");
    reveal_strlit("assistant");
    reveal_strlit("user");
}

proof fn lemma_turn(a: Seq<char>, role: Seq<char>, content: Seq<char>, b: Seq<char>)
    ensures
        is_turn(a + server::turn(role, content) + b, a.len() as int, role, content),
        server::turn(role, content).len() == 25 + role.len() + content.len(),
{
    lemma_literals();
    let p = a + server::turn(role, content) + b;
    let at = a.len() as int;
    let body = at + 12 + role.len() + 1;
    assert(p.subrange(at, at + 12) =~= "<|im_start|>"@);
    assert(p.subrange(at + 12, at + 12 + role.len()) =~= role);
    assert(p.subrange(at + 12 + role.len(), body) =~= "\n"@);
    assert(p.subrange(body, body + content.len()) =~= content);
    assert(p.subrange(body + content.len(), body + content.len() + 12) =~= "\n<|im_end|>\n"@);
}

proof fn lemma_turns(ms: Seq<MessageModel>, system: Option<Seq<char>>, i: int)
    requires
        0 <= i <= ms.len(),
    ensures
        ({
            let first = match system {
                Some(s) => server::turn("system"@, s),
                None => Seq::empty(),
            };
            turn_start(ms, system, i) == first.len() + server::turns(ms.take(i)).len()
        }),
    decreases i,
{
    lemma_literals();
    if i > 0 {
        lemma_turns(ms, system, i - 1);
        assert(ms.take(i).drop_last() =~= ms.take(i - 1));
        let m = ms[i - 1];
        lemma_turn(Seq::empty(), server::known_role(m.role), m.content, Seq::empty());
    } else {
        if system is Some {
            lemma_turn(Seq::empty(), "system"@, system->0, Seq::empty());
        }
        assert(server::turns(ms.take(0)) =~= Seq::<char>::empty());
    }
}

proof fn lemma_turns_split(ms: Seq<MessageModel>, i: int, n: int) -> (rest: Seq<char>)
    requires
        0 <= i <= n <= ms.len(),
    ensures
        server::turns(ms.take(n)) == server::turns(ms.take(i)) + rest,
    decreases n - i,
{
    if i == n {
        assert(server::turns(ms.take(n)) =~= server::turns(ms.take(i)) + Seq::<char>::empty());
        Seq::empty()
    } else {
        let some = lemma_turns_split(ms, i, n - 1);
        assert(ms.take(n).drop_last() =~= ms.take(n - 1));
        let m = ms[n - 1];
        let last = server::turn(server::known_role(m.role), m.content);
        assert(server::turns(ms.take(n)) =~= server::turns(ms.take(i)) + (some + last));
        some + last
    }
}

/// Every message of a conversation stands in the prompt, in order and in full,
/// under its own role if it is one of three and else as the user's; before all
/// of them stands what the system says, if it says anything.
pub proof fn law_messages_stand_in_the_prompt(
    ms: Seq<MessageModel>,
    system: Option<Seq<char>>,
    i: int,
)
    requires
        0 <= i < ms.len(),
    ensures
        ({
            let p = server::prompt_of(ms, system);
            let at = turn_start(ms, system, i);
            &&& exists|role: Seq<char>|
                stands_as(ms[i].role, role) && #[trigger] is_turn(p, at, role, ms[i].content)
            &&& system is Some ==> is_turn(p, 0, "system"@, system->0)
            &&& p.len() == turn_start(ms, system, ms.len() as int) + 22
        }),
{
    lemma_literals();
    reveal_strlit("<|im_start|>assistant\n");
    let p = server::prompt_of(ms, system);
    let tail = "<|im_start|>assistant\n"@;
    let first = match system {
        Some(s) => server::turn("system"@, s),
        None => Seq::empty(),
    };
    let role = server::known_role(ms[i].role);
    let before = first + server::turns(ms.take(i));
    let own = server::turn(role, ms[i].content);
    lemma_turns(ms, system, i);
    lemma_turns(ms, system, ms.len() as int);
    assert(ms.take(ms.len() as int) =~= ms);
    assert(ms.take(i + 1).drop_last() =~= ms.take(i));
    let rest = lemma_turns_split(ms, i + 1, ms.len() as int);
    assert(p =~= before + own + (rest + tail));
    lemma_turn(before, role, ms[i].content, rest + tail);
    assert(stands_as(ms[i].role, role));
    if system is Some {
        let behind = server::turns(ms) + tail;
        assert(p =~= Seq::<char>::empty() + first + behind);
        lemma_turn(Seq::empty(), "system"@, system->0, behind);
    }
}

/// The lines, each with its end.
pub open spec fn joined(lines: Seq<Seq<char>>) -> Seq<char>
    decreases lines.len(),
{
    if lines.len() == 0 {
        Seq::empty()
    } else {
        lines[0] + seq!['\n'] + joined(lines.skip(1))
    }
}

/// The line holds no line end, and is no header for the length in any spelling.
pub open spec fn is_other_line(line: Seq<char>) -> bool {
    &&& forall|i: int| 0 <= i < line.len() ==> #[trigger] line[i] != '\n'
    &&& !(line.len() >= 15 && text::ascii_lowered(line.take(15)) == "content-length:"@)
}

proof fn lemma_first_of(a: Seq<char>, c: char, b: Seq<char>)
    requires
        forall|i: int| 0 <= i < a.len() ==> #[trigger] a[i] != c,
    ensures
        text::first_of(a + seq![c] + b, c) == a.len(),
    decreases a.len(),
{
    let s = a + seq![c] + b;
    if a.len() > 0 {
        let t = a.skip(1);
        assert forall|i: int| 0 <= i < t.len() implies #[trigger] t[i] != c by {
            assert(t[i] == a[i + 1]);
        }
        assert(s[0] == a[0]);
        lemma_first_of(t, c, b);
        assert(s.skip(1) =~= t + seq![c] + b);
    } else {
        assert(s[0] == c);
    }
}

proof fn lemma_none_of(a: Seq<char>, c: char)
    requires
        forall|i: int| 0 <= i < a.len() ==> #[trigger] a[i] != c,
    ensures
        text::first_of(a, c) == a.len(),
    decreases a.len(),
{
    if a.len() > 0 {
        let t = a.skip(1);
        assert forall|i: int| 0 <= i < t.len() implies #[trigger] t[i] != c by {
            assert(t[i] == a[i + 1]);
        }
        assert(a[0] != c);
        lemma_none_of(t, c);
    }
}

proof fn lemma_other_line(line: Seq<char>)
    requires
        is_other_line(line),
    ensures
        !server::is_length_header(line),
{
    reveal_strlit("content-length:");
    if server::is_length_header(line) {
        assert(text::ascii_lowered(line).take(15) =~= text::ascii_lowered(line.take(15)));
    }
}

/// What stands between a space and a carriage return is what is trimmed out.
proof fn lemma_trimmed(d: Seq<char>)
    requires
        d.len() > 0,
        forall|i: int| 0 <= i < d.len() ==> text::is_digit(#[trigger] d[i]),
    ensures
        text::trim_back(text::trim_front(seq![' '] + d + seq!['\r'])) == d,
{
    let s = seq![' '] + d + seq!['\r'];
    let t = d + seq!['\r'];
    assert(s[0] == ' ' && text::white_space(' '));
    assert(s.skip(1) =~= t);
    assert(t[0] == d[0]);
    assert(text::is_digit(d[0]));
    assert(text::trim_front(t) == t);
    assert(t.last() == '\r' && text::white_space('\r'));
    assert(t.drop_last() =~= d);
    assert(text::is_digit(d[d.len() - 1]));
    assert(text::trim_back(d) == d);
}

/// The length of a body is read from the first header that gives it, whatever
/// lines stand before it, however its name is spelled in capitals and small
/// letters, and whatever follows.
pub proof fn law_declared_length_is_read(
    lines: Seq<Seq<char>>,
    name: Seq<char>,
    n: nat,
    rest: Seq<char>,
)
    requires
        forall|i: int| 0 <= i < lines.len() ==> is_other_line(#[trigger] lines[i]),
        text::ascii_lowered(name) == "content-length:"@,
        n <= usize::MAX,
    ensures
        server::declared_length(
            joined(lines) + name + seq![' '] + text::decimal(n) + seq!['\r', '\n'] + rest,
        ) == n,
    decreases lines.len(),
{
    let d = text::decimal(n);
    let s = joined(lines) + name + seq![' '] + d + seq!['\r', '\n'] + rest;
    text::law_decimal_reads_back(n);
    reveal_strlit("content-length:");
    if lines.len() == 0 {
        let value = seq![' '] + d + seq!['\r'];
        let line = name + value;
        assert forall|i: int| 0 <= i < line.len() implies #[trigger] line[i] != '\n' by {
            if i < name.len() {
                assert(text::ascii_lowered(name)[i] == text::ascii_lower(name[i]));
                assert("content-length:"@[i] != '\n');
            } else if name.len() < i < name.len() + 1 + d.len() {
                assert(text::is_digit(d[i - name.len() - 1]));
            }
        }
        assert(s =~= line + seq!['\n'] + rest);
        lemma_first_of(line, '\n', rest);
        assert(s.take(line.len() as int) =~= line);
        assert(name.len() == 15) by {
            assert(text::ascii_lowered(name).len() == name.len());
        }
        assert(text::ascii_lowered(line).take(15) =~= text::ascii_lowered(name));
        assert(server::is_length_header(line));
        assert(line.skip(15) =~= value);
        assert forall|i: int| 0 <= i < value.len() implies #[trigger] value[i] != ':' by {
            if 0 < i < 1 + d.len() {
                assert(text::is_digit(d[i - 1]));
            }
        }
        lemma_none_of(value, ':');
        assert(value.take(value.len() as int) =~= value);
        lemma_trimmed(d);
        assert(text::is_digit(d[0]));
        assert(text::without_plus(d) == d);
    } else {
        let line = lines[0];
        let more = lines.skip(1);
        assert forall|i: int| 0 <= i < more.len() implies is_other_line(#[trigger] more[i]) by {
            assert(more[i] == lines[i + 1]);
        }
        law_declared_length_is_read(more, name, n, rest);
        let t = joined(more) + name + seq![' '] + d + seq!['\r', '\n'] + rest;
        assert(is_other_line(lines[0]));
        assert(s =~= line + seq!['\n'] + t);
        lemma_first_of(line, '\n', t);
        lemma_other_line(line);
        assert(s.take(line.len() as int) =~= line);
        assert(s.skip(line.len() as int + 1) =~= t);
    }
}

/// A response says how many bytes its body has: read as a request is read, its
/// headers give the length of the body in UTF-8, and the body ends the response.
pub proof fn law_response_is_measured(status: u16, body: Seq<char>)
    requires
        vstd::utf8::encode_utf8(body).len() <= usize::MAX,
    ensures
        ({
            let r = server::json_response_text(status, body);
            &&& server::declared_length(r) == vstd::utf8::encode_utf8(body).len()
            &&& r.len() >= body.len()
            &&& r.skip(r.len() - body.len()) == body
            &&& text::stands_at(r, r.len() - body.len() - 4, "\r\n\r\n"@)
            &&& text::stands_at(r, 9, text::decimal(status as nat))
            &&& text::stands_at(r, 9 + text::decimal(status as nat).len() as int, " OK\r\n"@)
                <==> status == 200
        }),
{
    let r = server::json_response_text(status, body);
    let n = vstd::utf8::encode_utf8(body).len();
    reveal_strlit("HTTP/1.1 ");
    reveal_strlit(" OK");
    reveal_strlit(" OK\r\n");
    reveal_strlit(" Error");
    reveal_strlit("\r\nContent-Type: application/json\r\nContent-Length: ");
    reveal_strlit("\r\n\r\n");
    reveal_strlit("content-length:");
    reveal_strlit("Content-Length:");
    reveal_strlit("Content-Type: application/json\r");
    let d = text::decimal(status as nat);
    text::law_decimal_reads_back(status as nat);
    let word = if status == 200 {
        " OK"@
    } else {
        " Error"@
    };
    let head = "HTTP/1.1 "@ + d + word + seq!['\r'];
    let kind = "Content-Type: application/json\r"@;
    let name = "Content-Length:"@;
    let rest = seq!['\r', '\n'] + body;
    let lines = seq![head, kind];
    assert forall|i: int| 0 <= i < head.len() implies #[trigger] head[i] != '\n' by {
        if 9 <= i < 9 + d.len() {
            assert(text::is_digit(d[i - 9]));
        }
    }
    assert(is_other_line(head)) by {
        assert(head[0] == 'H');
        if head.len() >= 15 {
            assert(text::ascii_lowered(head.take(15))[0] == text::ascii_lower('H'));
        }
        assert("content-length:"@[0] == 'c');
    }
    assert(is_other_line(kind)) by {
        assert(text::ascii_lowered(kind.take(15))[8] == text::ascii_lower('T'));
        assert("content-length:"@[8] == 'l');
    }
    assert(text::ascii_lowered(name) =~= "content-length:"@);
    assert(joined(lines) =~= head + seq!['\n'] + kind + seq!['\n']) by {
        assert(lines.skip(1) =~= seq![kind]);
        assert(seq![kind].skip(1) =~= Seq::<Seq<char>>::empty());
        assert(joined(Seq::<Seq<char>>::empty()) =~= Seq::<char>::empty());
        assert(joined(seq![kind]) =~= kind + seq!['\n']);
    }
    assert(r =~= joined(lines) + name + seq![' '] + text::decimal(n) + seq!['\r', '\n'] + rest);
    law_declared_length_is_read(lines, name, n, rest);
    assert(r.skip(r.len() - body.len()) =~= body);
    let k = r.len() - body.len() - 4;
    assert(r.subrange(k, k + 4) =~= "\r\n\r\n"@);
    assert(r.subrange(9, 9int + d.len()) =~= d);
    let at = 9 + d.len() as int;
    if status == 200 {
        assert(r.subrange(at, at + 5) =~= " OK\r\n"@);
    } else {
        assert(r[at + 1] == 'E');
        if text::stands_at(r, at, " OK\r\n"@) {
            assert(r.subrange(at, at + 5)[1] == 'O');
        }
    }
}

/// The frame is an event of this kind: the kind stands in its first line and,
/// as the type, at the front of its data, and a blank line ends it.
pub open spec fn is_event(f: Seq<char>, kind: Seq<char>) -> bool {
    let n = kind.len() as int;
    &&& text::stands_at(f, 0, "event: "@)
    &&& text::stands_at(f, 7, kind)
    &&& text::stands_at(f, 7 + n, "\ndata: {\"type\":\""@)
    &&& text::stands_at(f, 23 + n, kind)
    &&& text::stands_at(f, 23 + n + n, "\""@)
    &&& f.len() >= 3
    &&& text::stands_at(f, f.len() - 3, "}\n\n"@)
}

proof fn lemma_event(kind: Seq<char>, more: Seq<char>)
    ensures
        is_event(
            server::sse_frame(kind, "{\"type\":\""@ + kind + "\""@ + more + "}"@),
            kind,
        ),
{
    reveal_strlit("event: ");
    reveal_strlit("\ndata: ");
    reveal_strlit("\ndata: {\"type\":\"");
    reveal_strlit("{\"type\":\"");
    reveal_strlit("\"");
    reveal_strlit("}");
    reveal_strlit("\n\n");
    reveal_strlit("}\n\n");
    let f = server::sse_frame(kind, "{\"type\":\""@ + kind + "\""@ + more + "}"@);
    let n = kind.len() as int;
    assert(f.subrange(0, 7) =~= "event: "@);
    assert(f.subrange(7, 7 + n) =~= kind);
    assert(f.subrange(7 + n, 23 + n) =~= "\ndata: {\"type\":\""@);
    assert(f.subrange(23 + n, 23 + n + n) =~= kind);
    assert(f.subrange(23 + n + n, 24 + n + n) =~= "\""@);
    assert(f.subrange(f.len() - 3, f.len() as int) =~= "}\n\n"@);
}

/// Every event of a stream names its kind in its first line and in its data,
/// and is ended by a blank line.
pub proof fn law_events_name_their_kind(input_tokens: nat, text_json: Seq<char>, output_tokens: nat)
    ensures
        is_event(server::start_frame(input_tokens), "message_start"@),
        is_event(server::block_start_frame(), "content_block_start"@),
        is_event(server::delta_frame(text_json), "content_block_delta"@),
        is_event(server::block_stop_frame(), "content_block_stop"@),
        is_event(server::message_delta_frame(output_tokens), "message_delta"@),
        is_event(server::message_stop_frame(), "message_stop"@),
{
    reveal_strlit("{\"type\":\"");
    reveal_strlit("\"");
    reveal_strlit("}");
    reveal_strlit("}}");
    lemma_start_event(input_tokens);
    lemma_block_start_event();
    lemma_delta_event(text_json);
    lemma_stop_events();
    lemma_message_delta_event(output_tokens);
}

proof fn lemma_start_event(n: nat)
    ensures
        is_event(server::start_frame(n), "message_start"@),
{
    reveal_strlit("{\"type\":\"");
    reveal_strlit("\"");
    reveal_strlit("}");
    reveal_strlit("message_start");
    reveal_strlit(
        "{\"type\":\"message_start\",\"message\":{\"id\":\"msg_000000000000002a\",\"type\":\"message\",\"role\":\"assistant\",\"content\":[],\"model\":\"qwen3.6-35b-a3b\",\"stop_reason\":null,\"stop_sequence\":null,\"usage\":{\"input_tokens\":",
    );
    reveal_strlit(",\"output_tokens\":0}}}");
    let a =
        "{\"type\":\"message_start\",\"message\":{\"id\":\"msg_000000000000002a\",\"type\":\"message\",\"role\":\"assistant\",\"content\":[],\"model\":\"qwen3.6-35b-a3b\",\"stop_reason\":null,\"stop_sequence\":null,\"usage\":{\"input_tokens\":"@;
    let data = a + text::decimal(n) + ",\"output_tokens\":0}}}"@;
    let more = data.subrange(23, data.len() - 1);
    let front = "{\"type\":\""@ + "message_start"@ + "\""@;
    assert(front.len() == 23);
    assert(a.take(23) =~= front);
    assert(data =~= front + more + "}"@);
    lemma_event("message_start"@, more);
}

proof fn lemma_block_start_event()
    ensures
        is_event(server::block_start_frame(), "content_block_start"@),
{
    reveal_strlit("{\"type\":\"");
    reveal_strlit("\"");
    reveal_strlit("}");
    reveal_strlit("content_block_start");
    reveal_strlit(
        "{\"type\":\"content_block_start\",\"index\":0,\"content_block\":{\"type\":\"text\",\"text\":\"\"}}",
    );
    let data =
        "{\"type\":\"content_block_start\",\"index\":0,\"content_block\":{\"type\":\"text\",\"text\":\"\"}}"@;
    let more = data.subrange(29, data.len() - 1);
    assert(data =~= "{\"type\":\""@ + "content_block_start"@ + "\""@ + more + "}"@);
    lemma_event("content_block_start"@, more);
}

proof fn lemma_delta_event(t: Seq<char>)
    ensures
        is_event(server::delta_frame(t), "content_block_delta"@),
{
    reveal_strlit("{\"type\":\"");
    reveal_strlit("\"");
    reveal_strlit("}");
    reveal_strlit("}}");
    reveal_strlit("content_block_delta");
    reveal_strlit(
        "{\"type\":\"content_block_delta\",\"index\":0,\"delta\":{\"type\":\"text_delta\",\"text\":",
    );
    let a =
        "{\"type\":\"content_block_delta\",\"index\":0,\"delta\":{\"type\":\"text_delta\",\"text\":"@;
    let data = a + t + "}}"@;
    let more = data.subrange(29, data.len() - 1);
    let front = "{\"type\":\""@ + "content_block_delta"@ + "\""@;
    assert(a.take(29) =~= front);
    assert(data =~= front + more + "}"@);
    lemma_event("content_block_delta"@, more);
}

proof fn lemma_stop_events()
    ensures
        is_event(server::block_stop_frame(), "content_block_stop"@),
        is_event(server::message_stop_frame(), "message_stop"@),
{
    reveal_strlit("{\"type\":\"");
    reveal_strlit("\"");
    reveal_strlit("}");
    reveal_strlit("content_block_stop");
    reveal_strlit("message_stop");
    reveal_strlit("{\"type\":\"content_block_stop\",\"index\":0}");
    reveal_strlit("{\"type\":\"message_stop\"}");
    reveal_strlit(",\"index\":0");
    let more = ",\"index\":0"@;
    assert("{\"type\":\"content_block_stop\",\"index\":0}"@ =~= "{\"type\":\""@
        + "content_block_stop"@ + "\""@ + more + "}"@);
    lemma_event("content_block_stop"@, more);
    assert("{\"type\":\"message_stop\"}"@ =~= "{\"type\":\""@ + "message_stop"@ + "\""@ + Seq::<
        char,
    >::empty() + "}"@);
    lemma_event("message_stop"@, Seq::empty());
}

proof fn lemma_message_delta_event(n: nat)
    ensures
        is_event(server::message_delta_frame(n), "message_delta"@),
{
    reveal_strlit("{\"type\":\"");
    reveal_strlit("\"");
    reveal_strlit("}");
    reveal_strlit("}}");
    reveal_strlit("message_delta");
    reveal_strlit(
        "{\"type\":\"message_delta\",\"delta\":{\"stop_reason\":\"end_turn\",\"stop_sequence\":null},\"usage\":{\"output_tokens\":",
    );
    let a =
        "{\"type\":\"message_delta\",\"delta\":{\"stop_reason\":\"end_turn\",\"stop_sequence\":null},\"usage\":{\"output_tokens\":"@;
    let data = a + text::decimal(n) + "}}"@;
    let more = data.subrange(23, data.len() - 1);
    let front = "{\"type\":\""@ + "message_delta"@ + "\""@;
    assert(a.take(23) =~= front);
    assert(data =~= front + more + "}"@);
    lemma_event("message_delta"@, more);
}

/// What stands in a part of a text stands in the text.
proof fn lemma_part(a: Seq<char>, s: Seq<char>, b: Seq<char>)
    ensures
        forall|p: Seq<char>| text::occurs_in(s, p) ==> #[trigger] text::occurs_in(a + s + b, p),
{
    assert forall|p: Seq<char>| text::occurs_in(s, p) implies #[trigger] text::occurs_in(
        a + s + b,
        p,
    ) by {
        let i = choose|i: int| 0 <= i <= s.len() && #[trigger] text::stands_at(s, i, p);
        let t = a + s + b;
        let j = a.len() + i;
        assert(t.subrange(j, j + p.len()) =~= s.subrange(i, i + p.len()));
        assert(text::stands_at(t, j, p));
    }
}

/// The head of a stream is a good status, says that events follow, and ends with
/// a blank line.
pub proof fn law_stream_head_is_whole()
    ensures
        text::has_prefix(server::stream_head_text(), "HTTP/1.1 200 OK\r\n"@),
        text::occurs_in(server::stream_head_text(), "HTTP/1.1 200 OK\r\n"@),
        text::occurs_in(server::stream_head_text(), "\r\nContent-Type: text/event-stream\r\n"@),
        text::occurs_in(server::stream_head_text(), "\r\nConnection: keep-alive\r\n"@),
        text::occurs_in(server::stream_head_text(), "\r\n\r\n"@),
        text::stands_at(
            server::stream_head_text(),
            server::stream_head_text().len() - 4,
            "\r\n\r\n"@,
        ),
{
    reveal_strlit("HTTP/1.1 200 OK\r\nContent-Type: text/event-stream\r\nConnection: keep-alive\r\n\r\n");
    let h = server::stream_head_text();
    reveal_strlit("HTTP/1.1 200 OK\r\n");
    assert(h.subrange(0, 17) =~= "HTTP/1.1 200 OK\r\n"@);
    assert(text::stands_at(h, 0, "HTTP/1.1 200 OK\r\n"@));
    reveal_strlit("\r\nContent-Type: text/event-stream\r\n");
    assert(h.subrange(15, 50) =~= "\r\nContent-Type: text/event-stream\r\n"@);
    assert(text::stands_at(h, 15, "\r\nContent-Type: text/event-stream\r\n"@));
    reveal_strlit("\r\nConnection: keep-alive\r\n");
    assert(h.subrange(48, 74) =~= "\r\nConnection: keep-alive\r\n"@);
    assert(text::stands_at(h, 48, "\r\nConnection: keep-alive\r\n"@));
    reveal_strlit("\r\n\r\n");
    assert(h.subrange(72, 76) =~= "\r\n\r\n"@);
    assert(text::stands_at(h, 72, "\r\n\r\n"@));
    assert(h.take(17) =~= "HTTP/1.1 200 OK\r\n"@);
}

/// The event that opens a message says that the assistant speaks, which model it
/// is, that nothing has ended yet, and how many tokens were read.
pub proof fn law_start_says_who_speaks(input_tokens: nat)
    ensures
        text::occurs_in(server::start_frame(input_tokens), "\"id\":\"msg_000000000000002a\""@),
        text::occurs_in(server::start_frame(input_tokens), "\"type\":\"message\""@),
        text::occurs_in(server::start_frame(input_tokens), "\"role\":\"assistant\""@),
        text::occurs_in(server::start_frame(input_tokens), "\"content\":[]"@),
        text::occurs_in(server::start_frame(input_tokens), "\"model\":\"qwen3.6-35b-a3b\""@),
        text::occurs_in(server::start_frame(input_tokens), "\"stop_reason\":null"@),
        text::occurs_in(server::start_frame(input_tokens), "\"stop_sequence\":null"@),
        text::occurs_in(
            server::start_frame(input_tokens),
            "\"input_tokens\":"@ + text::decimal(input_tokens) + ",\"output_tokens\":0"@,
        ),
{
    reveal_strlit("{\"type\":\"message_start\",\"message\":{\"id\":\"msg_000000000000002a\",\"type\":\"message\",\"role\":\"assistant\",\"content\":[],\"model\":\"qwen3.6-35b-a3b\",\"stop_reason\":null,\"stop_sequence\":null,\"usage\":{\"input_tokens\":");
    reveal_strlit(",\"output_tokens\":0}}}");
    reveal_strlit(",\"output_tokens\":0");
    reveal_strlit("\"input_tokens\":");
    let h = "{\"type\":\"message_start\",\"message\":{\"id\":\"msg_000000000000002a\",\"type\":\"message\",\"role\":\"assistant\",\"content\":[],\"model\":\"qwen3.6-35b-a3b\",\"stop_reason\":null,\"stop_sequence\":null,\"usage\":{\"input_tokens\":"@;
    reveal_strlit("\"id\":\"msg_000000000000002a\"");
    assert(h.subrange(35, 62) =~= "\"id\":\"msg_000000000000002a\""@);
    assert(text::stands_at(h, 35, "\"id\":\"msg_000000000000002a\""@));
    reveal_strlit("\"type\":\"message\"");
    assert(h.subrange(63, 79) =~= "\"type\":\"message\""@);
    assert(text::stands_at(h, 63, "\"type\":\"message\""@));
    reveal_strlit("\"role\":\"assistant\"");
    assert(h.subrange(80, 98) =~= "\"role\":\"assistant\""@);
    assert(text::stands_at(h, 80, "\"role\":\"assistant\""@));
    reveal_strlit("\"content\":[]");
    assert(h.subrange(99, 111) =~= "\"content\":[]"@);
    assert(text::stands_at(h, 99, "\"content\":[]"@));
    reveal_strlit("\"model\":\"qwen3.6-35b-a3b\"");
    assert(h.subrange(112, 137) =~= "\"model\":\"qwen3.6-35b-a3b\""@);
    assert(text::stands_at(h, 112, "\"model\":\"qwen3.6-35b-a3b\""@));
    reveal_strlit("\"stop_reason\":null");
    assert(h.subrange(138, 156) =~= "\"stop_reason\":null"@);
    assert(text::stands_at(h, 138, "\"stop_reason\":null"@));
    reveal_strlit("\"stop_sequence\":null");
    assert(h.subrange(157, 177) =~= "\"stop_sequence\":null"@);
    assert(text::stands_at(h, 157, "\"stop_sequence\":null"@));
    let front = "event: "@ + "message_start"@ + "\ndata: "@;
    let d = text::decimal(input_tokens);
    let behind = ",\"output_tokens\":0}}}"@;
    let f = server::start_frame(input_tokens);
    assert(f =~= front + h + (d + behind + "\n\n"@));
    lemma_part(front, h, d + behind + "\n\n"@);
    let p = "\"input_tokens\":"@ + d + ",\"output_tokens\":0"@;
    let cut = front + h.take(h.len() - 15);
    let rest = behind.skip(18) + "\n\n"@;
    assert(h.skip(h.len() - 15) =~= "\"input_tokens\":"@);
    assert(behind.take(18) =~= ",\"output_tokens\":0"@);
    assert(f =~= cut + p + rest);
    assert(p.subrange(0, p.len() as int) =~= p);
    assert(text::stands_at(p, 0, p));
    lemma_part(cut, p, rest);
}

/// The event behind the text says that the turn ended, and how many tokens the
/// reply has.
pub proof fn law_delta_says_why_it_ends(output_tokens: nat)
    ensures
        text::occurs_in(server::message_delta_frame(output_tokens), "\"stop_reason\":\"end_turn\""@),
        text::occurs_in(server::message_delta_frame(output_tokens), "\"stop_sequence\":null"@),
        text::occurs_in(
            server::message_delta_frame(output_tokens),
            "\"output_tokens\":"@ + text::decimal(output_tokens) + "}}"@,
        ),
{
    reveal_strlit("{\"type\":\"message_delta\",\"delta\":{\"stop_reason\":\"end_turn\",\"stop_sequence\":null},\"usage\":{\"output_tokens\":");
    reveal_strlit("\"output_tokens\":");
    let h = "{\"type\":\"message_delta\",\"delta\":{\"stop_reason\":\"end_turn\",\"stop_sequence\":null},\"usage\":{\"output_tokens\":"@;
    reveal_strlit("\"stop_reason\":\"end_turn\"");
    assert(h.subrange(33, 57) =~= "\"stop_reason\":\"end_turn\""@);
    assert(text::stands_at(h, 33, "\"stop_reason\":\"end_turn\""@));
    reveal_strlit("\"stop_sequence\":null");
    assert(h.subrange(58, 78) =~= "\"stop_sequence\":null"@);
    assert(text::stands_at(h, 58, "\"stop_sequence\":null"@));
    let front = "event: "@ + "message_delta"@ + "\ndata: "@;
    let d = text::decimal(output_tokens);
    let f = server::message_delta_frame(output_tokens);
    assert(f =~= front + h + (d + "}}"@ + "\n\n"@));
    lemma_part(front, h, d + "}}"@ + "\n\n"@);
    let p = "\"output_tokens\":"@ + d + "}}"@;
    let cut = front + h.take(h.len() - 16);
    assert(h.skip(h.len() - 16) =~= "\"output_tokens\":"@);
    assert(f =~= cut + p + "\n\n"@);
    assert(p.subrange(0, p.len() as int) =~= p);
    assert(text::stands_at(p, 0, p));
    lemma_part(cut, p, "\n\n"@);
}

/// A whole reply says that the assistant speaks, which model it is and that the
/// turn ended, and holds the text and both counts.
pub proof fn law_reply_says_all(text_json: Seq<char>, input_tokens: nat, output_tokens: nat)
    ensures
        text::occurs_in(server::reply_json(text_json, input_tokens, output_tokens), "\"id\":\"msg_000000000000002a\""@),
        text::occurs_in(server::reply_json(text_json, input_tokens, output_tokens), "\"type\":\"message\""@),
        text::occurs_in(server::reply_json(text_json, input_tokens, output_tokens), "\"role\":\"assistant\""@),
        text::occurs_in(server::reply_json(text_json, input_tokens, output_tokens), "\"model\":\"qwen3.6-35b-a3b\""@),
        text::occurs_in(server::reply_json(text_json, input_tokens, output_tokens), "\"stop_reason\":\"end_turn\""@),
        text::occurs_in(server::reply_json(text_json, input_tokens, output_tokens), "\"stop_sequence\":null"@),
        text::occurs_in(
            server::reply_json(text_json, input_tokens, output_tokens),
            "\"text\":"@ + text_json + "}]"@,
        ),
        text::occurs_in(
            server::reply_json(text_json, input_tokens, output_tokens),
            "\"input_tokens\":"@ + text::decimal(input_tokens) + ",\"output_tokens\":"@
                + text::decimal(output_tokens) + "}}"@,
        ),
{
    reveal_strlit("{\"id\":\"msg_000000000000002a\",\"type\":\"message\",\"role\":\"assistant\",\"content\":[{\"type\":\"text\",\"text\":");
    reveal_strlit("}],\"model\":\"qwen3.6-35b-a3b\",\"stop_reason\":\"end_turn\",\"stop_sequence\":null,\"usage\":{\"input_tokens\":");
    reveal_strlit("\"text\":");
    reveal_strlit("}]");
    reveal_strlit("\"input_tokens\":");
    let h = "{\"id\":\"msg_000000000000002a\",\"type\":\"message\",\"role\":\"assistant\",\"content\":[{\"type\":\"text\",\"text\":"@;
    let g = "}],\"model\":\"qwen3.6-35b-a3b\",\"stop_reason\":\"end_turn\",\"stop_sequence\":null,\"usage\":{\"input_tokens\":"@;
    reveal_strlit("\"id\":\"msg_000000000000002a\"");
    assert(h.subrange(1, 28) =~= "\"id\":\"msg_000000000000002a\""@);
    assert(text::stands_at(h, 1, "\"id\":\"msg_000000000000002a\""@));
    reveal_strlit("\"type\":\"message\"");
    assert(h.subrange(29, 45) =~= "\"type\":\"message\""@);
    assert(text::stands_at(h, 29, "\"type\":\"message\""@));
    reveal_strlit("\"role\":\"assistant\"");
    assert(h.subrange(46, 64) =~= "\"role\":\"assistant\""@);
    assert(text::stands_at(h, 46, "\"role\":\"assistant\""@));
    reveal_strlit("\"model\":\"qwen3.6-35b-a3b\"");
    assert(g.subrange(3, 28) =~= "\"model\":\"qwen3.6-35b-a3b\""@);
    assert(text::stands_at(g, 3, "\"model\":\"qwen3.6-35b-a3b\""@));
    reveal_strlit("\"stop_reason\":\"end_turn\"");
    assert(g.subrange(29, 53) =~= "\"stop_reason\":\"end_turn\""@);
    assert(text::stands_at(g, 29, "\"stop_reason\":\"end_turn\""@));
    reveal_strlit("\"stop_sequence\":null");
    assert(g.subrange(54, 74) =~= "\"stop_sequence\":null"@);
    assert(text::stands_at(g, 54, "\"stop_sequence\":null"@));
    let a = text::decimal(input_tokens);
    let b = text::decimal(output_tokens);
    let mid = ",\"output_tokens\":"@;
    let f = server::reply_json(text_json, input_tokens, output_tokens);
    let tail = a + mid + b + "}}"@;
    let none = Seq::<char>::empty();
    assert(f =~= none + h + (text_json + g + tail));
    lemma_part(none, h, text_json + g + tail);
    assert(f =~= (h + text_json) + g + tail);
    lemma_part(h + text_json, g, tail);
    let p = "\"text\":"@ + text_json + "}]"@;
    let front = h.take(h.len() - 7);
    let rest = g.skip(2) + tail;
    assert(h.skip(h.len() - 7) =~= "\"text\":"@);
    assert(g.take(2) =~= "}]"@);
    assert(f =~= front + p + rest);
    assert(p.subrange(0, p.len() as int) =~= p);
    assert(text::stands_at(p, 0, p));
    lemma_part(front, p, rest);
    let q = "\"input_tokens\":"@ + a + mid + b + "}}"@;
    let cut = h + text_json + g.take(g.len() - 15);
    assert(g.skip(g.len() - 15) =~= "\"input_tokens\":"@);
    assert(f =~= cut + q + none);
    assert(q.subrange(0, q.len() as int) =~= q);
    assert(text::stands_at(q, 0, q));
    lemma_part(cut, q, none);
}

/// At place `i` stand two line ends, one behind the other.
pub open spec fn two_line_ends(s: Seq<u8>, i: int) -> bool {
    0 <= i && i + 4 <= s.len() && s.subrange(i, i + 4) == seq![13u8, 10, 13, 10]
}

/// The headers end at the first two line ends, up to the very end of what came,
/// and where there are none nothing is behind them.
pub proof fn law_headers_end_at_blank_line(s: Seq<u8>, from: int, j: int)
    requires
        0 <= from <= s.len(),
    ensures
        ({
            let i = server::headers_end(s, from);
            &&& from <= i <= s.len()
            &&& i < s.len() ==> two_line_ends(s, i)
            &&& from <= j && two_line_ends(s, j) ==> i <= j
        }),
    decreases s.len() - from,
{
    if from + 4 <= s.len() {
        let w = s.subrange(from, from + 4);
        if server::blank_line_at(s, from) {
            assert(w =~= seq![13u8, 10, 13, 10]);
        } else {
            assert(w[0] == s[from] && w[1] == s[from + 1] && w[2] == s[from + 2] && w[3] == s[from
                + 3]);
            assert(!two_line_ends(s, from));
            law_headers_end_at_blank_line(s, from + 1, j);
        }
    }
}

} // verus!
