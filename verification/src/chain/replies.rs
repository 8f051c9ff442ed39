//! What a reply comes to: why it ends, how many tokens it may have, and which
//! block of the stream holds which piece.

use crate::chain::api;
use crate::chain::generation;
use crate::chain::generation::{Generation, StopRules};
use crate::chain::tools::Piece;
use crate::json;
use crate::text;
use vstd::prelude::*;

verus! {

/// A reply may have as many tokens as the request asks for, and no more than
/// one for each position that is left and a last one.
pub proof fn law_limit_is_the_lesser(r: StopRules)
    ensures
        r.limit() <= r.max_tokens,
        r.limit() <= r.room + 1,
        r.limit() == r.max_tokens || r.limit() == r.room + 1,
        r.clamps() <==> r.limit() < r.max_tokens,
{
}

/// A text stops a reply when it is not empty and stands in what was generated;
/// of several the first in the request counts.
pub proof fn law_first_stop_counts(stops: Seq<String>, t: Seq<char>, k: int)
    requires
        0 <= k < stops.len(),
    ensures
        ({
            let n = generation::first_stop(stops, t, 0);
            &&& 0 <= n <= stops.len()
            &&& n < stops.len() ==> stops[n]@.len() > 0 && text::occurs_in(t, stops[n]@)
            &&& k < n ==> stops[k]@.len() == 0 || !text::occurs_in(t, stops[k]@)
        }),
{
    lemma_first_stop(stops, t, 0, k);
}

proof fn lemma_first_stop(stops: Seq<String>, t: Seq<char>, from: int, k: int)
    requires
        0 <= from <= stops.len(),
    ensures
        ({
            let n = generation::first_stop(stops, t, from);
            &&& from <= n <= stops.len()
            &&& n < stops.len() ==> stops[n]@.len() > 0 && text::occurs_in(t, stops[n]@)
            &&& from <= k < n ==> stops[k]@.len() == 0 || !text::occurs_in(t, stops[k]@)
        }),
    decreases stops.len() - from,
{
    if from < stops.len() && !generation::ends_at(stops, t, from) {
        lemma_first_stop(stops, t, from + 1, k);
    }
}

/// The end of the turn comes first among the reasons, and names the tool call if
/// there is one; then a stop sequence; then a failure, which counts as an end of
/// the turn; and else the reply has all its tokens.
pub proof fn law_reasons_in_order(g: Generation, called: bool)
    ensures
        g.turn_ended() && called ==> g.reason(called) == "tool_use"@,
        g.turn_ended() && !called ==> g.reason(called) == "end_turn"@,
        !g.turn_ended() && g.stopped() ==> g.reason(called) == "stop_sequence"@,
        !g.turn_ended() && !g.stopped() && g.failed() ==> g.reason(called) == "end_turn"@,
        !g.turn_ended() && !g.stopped() && !g.failed() ==> g.reason(called) == "max_tokens"@,
{
}

/// A reply that goes on has room for a token, and one that does not has a
/// reason: its turn ended, it was stopped, it failed, or it is full.
pub proof fn law_replies_end_with_a_reason(g: Generation)
    requires
        g.well_formed(),
    ensures
        g.goes_on() ==> g.tokens().len() < g.rules().max_tokens && g.tokens().len()
            <= g.rules().room && g.tokens().last() != g.rules().eos && !g.failed() && !g.stopped(),
        !g.goes_on() ==> g.tokens().last() == g.rules().eos || g.stopped() || g.failed()
            || g.tokens().len() >= g.rules().limit(),
{
}

/// The block of piece `i`: the text block that is open at the start is the first
/// one; text that follows text stays in its block, and every other piece begins
/// a new one.
pub open spec fn block_of(pieces: Seq<Piece>, i: int) -> nat
    decreases i,
{
    if i <= 0 {
        if pieces[0] is Text {
            0
        } else {
            1
        }
    } else if pieces[i] is Text && pieces[i - 1] is Text {
        block_of(pieces, i - 1)
    } else {
        block_of(pieces, i - 1) + 1
    }
}

/// The events of one piece in block `b`.
pub open spec fn events_of(p: Piece, b: nat) -> Seq<char> {
    match p {
        Piece::Text(t) => api::delta_frame(b, json::json_text(t@)),
        Piece::Tool(c) => api::tool_start_frame(b, json::json_text(c.name@)) + api::input_frame(
            b,
            json::json_text(c.arguments@),
        ) + api::block_stop_frame(b),
    }
}

/// The block of piece `i`, behind block `index`.
spec fn block_from(pieces: Seq<Piece>, index: nat, open: bool, i: int) -> nat
    decreases i,
{
    if i <= 0 {
        if pieces[0] is Tool && open {
            index + 1
        } else {
            index
        }
    } else {
        let b = block_from(pieces, index, open, 0);
        if pieces[0] is Text {
            block_from(pieces.skip(1), b, true, i - 1)
        } else {
            block_from(pieces.skip(1), b + 1, false, i - 1)
        }
    }
}

proof fn lemma_occurs(a: Seq<char>, p: Seq<char>, b: Seq<char>)
    ensures
        text::occurs_in(a + p + b, p),
{
    let s = a + p + b;
    assert(s.subrange(a.len() as int, (a.len() + p.len()) as int) =~= p);
    assert(text::stands_at(s, a.len() as int, p));
}

proof fn lemma_occurs_behind(a: Seq<char>, s: Seq<char>, p: Seq<char>)
    requires
        text::occurs_in(s, p),
    ensures
        text::occurs_in(a + s, p),
{
    let i = choose|i: int| 0 <= i <= s.len() && #[trigger] text::stands_at(s, i, p);
    let t = a + s;
    let j = a.len() + i;
    assert(t.subrange(j, j + p.len()) =~= s.subrange(i, i + p.len()));
    assert(text::stands_at(t, j, p));
}

proof fn lemma_pieces(pieces: Seq<Piece>, index: nat, open: bool, i: int)
    requires
        0 <= i < pieces.len(),
    ensures
        text::occurs_in(
            api::piece_frames(pieces, index, open),
            events_of(pieces[i], block_from(pieces, index, open, i)),
        ),
    decreases pieces.len(),
{
    let all = api::piece_frames(pieces, index, open);
    let rest = pieces.skip(1);
    let b = block_from(pieces, index, open, 0);
    let own = events_of(pieces[0], b);
    match pieces[0] {
        Piece::Text(t) => {
            let front = if open {
                Seq::empty()
            } else {
                api::block_start_frame(index)
            };
            let behind = api::piece_frames(rest, index, true);
            assert(all == front + own + behind);
            if i == 0 {
                lemma_occurs(front, own, behind);
            } else {
                lemma_pieces(rest, index, true, i - 1);
                assert(rest[i - 1] == pieces[i]);
                lemma_occurs_behind(front + own, behind, events_of(
                    pieces[i],
                    block_from(pieces, index, open, i),
                ));
            }
        },
        Piece::Tool(c) => {
            let front = if open {
                api::block_stop_frame(index)
            } else {
                Seq::empty()
            };
            let behind = api::piece_frames(rest, b + 1, false);
            assert(all =~= front + own + behind);
            if i == 0 {
                lemma_occurs(front, own, behind);
            } else {
                lemma_pieces(rest, b + 1, false, i - 1);
                assert(rest[i - 1] == pieces[i]);
                lemma_occurs_behind(front + own, behind, events_of(
                    pieces[i],
                    block_from(pieces, index, open, i),
                ));
            }
        },
    }
}

/// Both ways to count blocks agree.
proof fn lemma_blocks(pieces: Seq<Piece>, index: nat, open: bool, i: int)
    requires
        0 < i < pieces.len(),
    ensures
        block_from(pieces, index, open, i) == if pieces[i] is Text && pieces[i - 1] is Text {
            block_from(pieces, index, open, i - 1)
        } else {
            block_from(pieces, index, open, i - 1) + 1
        },
    decreases i,
{
    let b = block_from(pieces, index, open, 0);
    let rest = pieces.skip(1);
    assert(rest[0] == pieces[1]);
    if i == 1 {
        assert(block_from(rest, b, true, 0) == if rest[0] is Tool {
            b + 1
        } else {
            b
        });
        assert(block_from(rest, b + 1, false, 0) == b + 1);
    } else {
        assert(rest[i - 1] == pieces[i] && rest[i - 2] == pieces[i - 1]);
        if pieces[0] is Text {
            lemma_blocks(rest, b, true, i - 1);
        } else {
            lemma_blocks(rest, b + 1, false, i - 1);
        }
    }
}

proof fn lemma_same_blocks(pieces: Seq<Piece>, i: int)
    requires
        0 <= i < pieces.len(),
    ensures
        block_from(pieces, 0, true, i) == block_of(pieces, i),
    decreases i,
{
    if i > 0 {
        lemma_same_blocks(pieces, i - 1);
        lemma_blocks(pieces, 0, true, i);
    }
}

/// Every piece of a reply stands in its stream, in the block that is its own: a
/// text as it is, in a text block, and a tool call with its name and its
/// arguments, in a block that is opened and closed for it.
pub proof fn law_pieces_stand_in_the_stream(
    input_tokens: nat,
    pieces: Seq<Piece>,
    ending: generation::Ending,
    i: int,
)
    requires
        0 <= i < pieces.len(),
    ensures
        text::occurs_in(
            api::reply_frames(input_tokens, pieces, ending),
            events_of(pieces[i], block_of(pieces, i)),
        ),
{
    let p = events_of(pieces[i], block_of(pieces, i));
    lemma_pieces(pieces, 0, true, i);
    lemma_same_blocks(pieces, i);
    let head = api::start_frame(input_tokens, ending.clamped_to) + api::block_start_frame(0);
    let mid = api::piece_frames(pieces, 0, true);
    let tail = api::message_delta_frame(input_tokens, ending) + api::message_stop_frame();
    lemma_occurs_behind(head, mid, p);
    let s = head + mid;
    let k = choose|k: int| 0 <= k <= s.len() && #[trigger] text::stands_at(s, k, p);
    let all = api::reply_frames(input_tokens, pieces, ending);
    assert(all =~= s + tail);
    assert((s + tail).subrange(k, k + p.len()) =~= s.subrange(k, k + p.len()));
    assert(text::stands_at(all, k, p));
}

pub proof fn lemma_part(a: Seq<char>, s: Seq<char>, b: Seq<char>)
    ensures
        forall|p: Seq<char>| text::occurs_in(s, p) ==> #[trigger] text::occurs_in(a + s + b, p),
{
    assert forall|p: Seq<char>| text::occurs_in(s, p) implies #[trigger] text::occurs_in(
        a + s + b,
        p,
    ) by {
        let i = choose|i: int| 0 <= i <= s.len() && #[trigger] text::stands_at(s, i, p);
        let t = a + s + b;
        let j = a.len() + i;
        assert(t.subrange(j, j + p.len()) =~= s.subrange(i, i + p.len()));
        assert(text::stands_at(t, j, p));
    }
}

/// The event that opens a message says that the assistant speaks, which model it
/// is, and that nothing has ended yet; where the context allows fewer tokens than
/// were asked for, it says how many.
pub proof fn law_start_says_who_speaks(input_tokens: nat, clamped_to: Option<u32>)
    ensures
        text::occurs_in(api::start_frame(input_tokens, clamped_to), "\"id\":\"msg_1\""@),
        text::occurs_in(api::start_frame(input_tokens, clamped_to), "\"model\":\"qwen-3.6-35b-a3b-mtp\""@),
        text::occurs_in(api::start_frame(input_tokens, clamped_to), "\"role\":\"assistant\""@),
        text::occurs_in(api::start_frame(input_tokens, clamped_to), "\"stop_reason\":null"@),
        text::occurs_in(api::start_frame(input_tokens, clamped_to), "\"stop_sequence\":null"@),
        text::occurs_in(api::start_frame(input_tokens, clamped_to), "\"type\":\"message\""@),
        clamped_to is Some ==> text::occurs_in(
            api::start_frame(input_tokens, clamped_to),
            "\"warning\":\"max_tokens clamped to "@ + text::decimal(clamped_to->0 as nat) + "\""@,
        ),
{
    reveal_strlit("{\"message\":{\"content\":[],\"id\":\"msg_1\",");
    reveal_strlit("\"model\":\"qwen-3.6-35b-a3b-mtp\",\"role\":\"assistant\",\"stop_reason\":null,\"stop_sequence\":null,\"type\":\"message\",\"usage\":{\"input_tokens\":");
    let h = "{\"message\":{\"content\":[],\"id\":\"msg_1\","@;
    let g = "\"model\":\"qwen-3.6-35b-a3b-mtp\",\"role\":\"assistant\",\"stop_reason\":null,\"stop_sequence\":null,\"type\":\"message\",\"usage\":{\"input_tokens\":"@;
    reveal_strlit("\"id\":\"msg_1\"");
    assert(h.subrange(25, 37) =~= "\"id\":\"msg_1\""@);
    assert(text::stands_at(h, 25, "\"id\":\"msg_1\""@));
    reveal_strlit("\"model\":\"qwen-3.6-35b-a3b-mtp\"");
    assert(g.subrange(0, 30) =~= "\"model\":\"qwen-3.6-35b-a3b-mtp\""@);
    assert(text::stands_at(g, 0, "\"model\":\"qwen-3.6-35b-a3b-mtp\""@));
    reveal_strlit("\"role\":\"assistant\"");
    assert(g.subrange(31, 49) =~= "\"role\":\"assistant\""@);
    assert(text::stands_at(g, 31, "\"role\":\"assistant\""@));
    reveal_strlit("\"stop_reason\":null");
    assert(g.subrange(50, 68) =~= "\"stop_reason\":null"@);
    assert(text::stands_at(g, 50, "\"stop_reason\":null"@));
    reveal_strlit("\"stop_sequence\":null");
    assert(g.subrange(69, 89) =~= "\"stop_sequence\":null"@);
    assert(text::stands_at(g, 69, "\"stop_sequence\":null"@));
    reveal_strlit("\"type\":\"message\"");
    assert(g.subrange(90, 106) =~= "\"type\":\"message\""@);
    assert(text::stands_at(g, 90, "\"type\":\"message\""@));
    let front = "event: "@ + "message_start"@ + "\ndata: "@;
    let w = api::warning_json(clamped_to);
    let d = text::decimal(input_tokens);
    let behind = d + ",\"output_tokens\":0}},\"type\":\"message_start\"}"@ + "\n\n"@;
    let f = api::start_frame(input_tokens, clamped_to);
    assert(f =~= front + h + (w + g + behind));
    lemma_part(front, h, w + g + behind);
    assert(f =~= (front + h + w) + g + behind);
    lemma_part(front + h + w, g, behind);
    if clamped_to is Some {
        let n = text::decimal(clamped_to->0 as nat);
        reveal_strlit("\"metadata\":{\"warning\":\"max_tokens clamped to ");
        reveal_strlit("\"warning\":\"max_tokens clamped to ");
        reveal_strlit("\"},");
        reveal_strlit("\"");
        let m = "\"metadata\":{\"warning\":\"max_tokens clamped to "@;
        let p = "\"warning\":\"max_tokens clamped to "@ + n + "\""@;
        assert(m.skip(12) =~= "\"warning\":\"max_tokens clamped to "@);
        assert("\"},"@.take(1) =~= "\""@);
        let rest = "\"},"@.skip(1);
        assert(w =~= m.take(12) + p + rest);
        assert(p.subrange(0, p.len() as int) =~= p);
        assert(text::stands_at(p, 0, p));
        lemma_part(m.take(12), p, rest);
        assert(f =~= (front + h) + w + (g + behind));
        lemma_part(front + h, w, g + behind);
    }
}

/// How a reply ended is told: a stop sequence where one stopped it, which stands
/// in what was generated; how many tokens it has; and the limit where the context
/// set one.
pub proof fn law_ending_is_true(g: Generation, called: bool, e: generation::Ending)
    requires
        g.well_formed(),
        g.is_ending(called, e),
    ensures
        e.output_tokens == g.tokens().len(),
        e.stop_sequence is Some <==> e.stop_reason@ == "stop_sequence"@,
        e.stop_sequence is Some ==> g.stopped(),
        e.clamped_to is Some <==> g.rules().limit() < g.rules().max_tokens,
        e.clamped_to is Some ==> e.clamped_to->0 == g.rules().limit(),
{
    reveal_strlit("stop_sequence");
    reveal_strlit("tool_use");
    reveal_strlit("end_turn");
    reveal_strlit("max_tokens");
    assert("stop_sequence"@.len() == 13 && "tool_use"@.len() == 8 && "end_turn"@.len() == 8
        && "max_tokens"@.len() == 10);
    law_reasons_in_order(g, called);
}

} // verus!
