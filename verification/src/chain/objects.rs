//! What the search for objects in a reply finds: texts whose braces close each
//! other outside of strings, and nothing with a brace that it passes over.

use crate::chain::generation::{self, Output};
use crate::chain::tools;
use crate::chain::tools::{ScanModel, SegmentModel};
use vstd::prelude::*;

verus! {

/// How many backslashes stand right before place `i`.
pub open spec fn backslashes(t: Seq<char>, i: int) -> nat
    decreases i,
{
    if i > 0 && t[i - 1] == '\\' {
        1 + backslashes(t, i - 1)
    } else {
        0
    }
}

/// Place `i` is inside a string: behind its opening quote, and not behind the
/// quote that closes it, before which stands an even number of backslashes.
pub open spec fn in_string(t: Seq<char>, i: int) -> bool
    decreases i,
{
    if i <= 0 {
        false
    } else if t[i - 1] != '"' {
        in_string(t, i - 1)
    } else {
        !in_string(t, i - 1) || backslashes(t, i - 1) % 2 == 1
    }
}

/// Braces that are open before place `i`; those in strings do not count.
pub open spec fn open_braces(t: Seq<char>, i: int) -> int
    decreases i,
{
    if i <= 0 {
        0
    } else {
        open_braces(t, i - 1) + if in_string(t, i - 1) {
            0int
        } else if t[i - 1] == '{' {
            1
        } else if t[i - 1] == '}' {
            -1
        } else {
            0
        }
    }
}

/// A brace is open at every place inside of the text.
pub open spec fn stays_open(t: Seq<char>, n: int) -> bool {
    forall|i: int| 0 < i < n ==> #[trigger] open_braces(t, i) > 0
}

/// The text is an object: the brace that closes its first one is its last
/// character.
pub open spec fn is_object(t: Seq<char>) -> bool {
    &&& t.len() >= 2
    &&& t[0] == '{'
    &&& stays_open(t, t.len() as int)
    &&& open_braces(t, t.len() as int) == 0
}

/// The text is an object that is not closed.
pub open spec fn is_unclosed(t: Seq<char>) -> bool {
    &&& t.len() >= 1
    &&& t[0] == '{'
    &&& stays_open(t, t.len() as int + 1)
}

/// No object begins in the text.
pub open spec fn has_no_brace(t: Seq<char>) -> bool {
    forall|i: int| 0 <= i < t.len() ==> #[trigger] t[i] != '{'
}

/// The part is an object, or text in which none begins.
pub open spec fn is_part(p: SegmentModel) -> bool {
    match p {
        SegmentModel::Object(t) => is_object(t),
        SegmentModel::Text(t) => t.len() > 0 && has_no_brace(t),
    }
}

/// What was read is as these functions say.
spec fn agrees(s: ScanModel) -> bool {
    let n = s.object.len() as int;
    &&& forall|i: int| 0 <= i < s.done.len() ==> is_part(#[trigger] s.done[i])
    &&& has_no_brace(s.plain)
    &&& s.depth == 0 ==> n == 0
    &&& s.depth > 0 ==> {
        &&& is_unclosed(s.object)
        &&& open_braces(s.object, n) == s.depth
        &&& in_string(s.object, n) == s.quoted
        &&& s.quoted ==> (s.escaped <==> backslashes(s.object, n) % 2 == 1)
    }
}

/// What stands before a place does not depend on what follows it.
proof fn lemma_prefix(t: Seq<char>, c: char, i: int)
    requires
        i <= t.len(),
    ensures
        backslashes(t.push(c), i) == backslashes(t, i),
        in_string(t.push(c), i) == in_string(t, i),
        open_braces(t.push(c), i) == open_braces(t, i),
    decreases i,
{
    if i > 0 {
        lemma_prefix(t, c, i - 1);
    }
}

proof fn lemma_stays_open(t: Seq<char>, c: char)
    requires
        stays_open(t, t.len() as int + 1),
    ensures
        stays_open(t.push(c), t.len() as int + 1),
{
    assert forall|i: int| 0 < i < t.len() + 1 implies #[trigger] open_braces(t.push(c), i) > 0 by {
        lemma_prefix(t, c, i);
        assert(open_braces(t, i) > 0);
    }
}

proof fn lemma_flush(s: ScanModel)
    requires
        agrees(s),
    ensures
        agrees(tools::flushed(s)),
        tools::flushed(s).plain.len() == 0,
{
    let f = tools::flushed(s);
    if s.plain.len() > 0 {
        assert forall|i: int| 0 <= i < f.done.len() implies is_part(#[trigger] f.done[i]) by {
            if i < s.done.len() {
                assert(f.done[i] == s.done[i]);
            }
        }
    }
}

proof fn lemma_char(s: ScanModel, c: char)
    requires
        agrees(s),
    ensures
        agrees(tools::scan_char(s, c)),
{
    let t = tools::scan_char(s, c);
    if s.depth == 0 {
        if c == '{' {
            let o = seq![c];
            assert(t.object == o);
            assert(open_braces(o, 0) == 0 && !in_string(o, 0));
            assert(open_braces(o, 1) == 1);
            assert(in_string(o, 1) == false);
        } else {
            assert forall|i: int| 0 <= i < t.plain.len() implies #[trigger] t.plain[i] != '{' by {
                if i < s.plain.len() {
                    assert(t.plain[i] == s.plain[i]);
                }
            }
        }
    } else {
        let n = s.object.len() as int;
        let o = s.object.push(c);
        lemma_prefix(s.object, c, n);
        lemma_stays_open(s.object, c);
        assert(o[n] == c);
        assert(o[0] == '{');
        let now = open_braces(o, n + 1);
        assert(now == open_braces(o, n) + if s.quoted {
            0int
        } else if c == '{' {
            1
        } else if c == '}' {
            -1
        } else {
            0
        });
        if c == '}' && !s.quoted && s.depth == 1 {
            lemma_flush(s);
            let f = tools::flushed(s);
            assert(is_object(o));
            assert forall|i: int| 0 <= i < t.done.len() implies is_part(#[trigger] t.done[i]) by {
                if i < f.done.len() {
                    assert(t.done[i] == f.done[i]);
                }
            }
        } else {
            assert(t.object == o);
            assert(now > 0);
            assert forall|i: int| 0 < i < n + 2 implies #[trigger] open_braces(o, i) > 0 by {
                if i < n + 1 {
                    assert(open_braces(o, i) > 0);
                }
            }
        }
    }
}

proof fn lemma_chars(s: ScanModel, t: Seq<char>)
    requires
        agrees(s),
    ensures
        agrees(tools::scan_chars(s, t)),
    decreases t.len(),
{
    if t.len() > 0 {
        lemma_chars(s, t.drop_last());
        lemma_char(tools::scan_chars(s, t.drop_last()), t.last());
    }
}

proof fn lemma_outputs(outputs: Seq<Output>)
    ensures
        agrees(tools::scan_outputs(outputs)),
    decreases outputs.len(),
{
    if outputs.len() > 0 {
        let s = tools::scan_outputs(outputs.drop_last());
        let t = generation::text_of(outputs.last());
        lemma_outputs(outputs.drop_last());
        lemma_chars(s, t);
        lemma_flush(tools::scan_chars(s, t));
    }
}

/// Where there are tools, every part of a reply is an object, whose last brace
/// is the one that closes its first, or text in which no object begins; only the
/// last part may be one that is not closed.
pub proof fn law_objects_close(outputs: Seq<Output>, i: int)
    requires
        0 <= i < tools::segments_of(outputs, true).len(),
    ensures
        ({
            let v = tools::segments_of(outputs, true);
            ||| is_part(v[i])
            ||| i == v.len() - 1 && v[i] is Text && is_unclosed(v[i]->Text_0)
        }),
{
    lemma_outputs(outputs);
    let s = tools::scan_outputs(outputs);
    if i < s.done.len() {
        assert(is_part(s.done[i]));
    }
}

/// Without tools every text is a part of its own, whatever it holds.
pub proof fn law_texts_are_kept_apart(outputs: Seq<Output>)
    ensures
        ({
            let v = tools::segments_of(outputs, false);
            &&& v.len() <= outputs.len()
            &&& forall|i: int| 0 <= i < v.len() ==> #[trigger] v[i] is Text
            &&& (forall|i: int| 0 <= i < outputs.len() ==> (#[trigger] outputs[i]).text is Some)
                ==> v.len() == outputs.len() && forall|i: int|
                0 <= i < v.len() ==> #[trigger] v[i] == SegmentModel::Text(
                    generation::text_of(outputs[i]),
                )
        }),
    decreases outputs.len(),
{
    if outputs.len() > 0 {
        let before = outputs.drop_last();
        law_texts_are_kept_apart(before);
        let a = tools::segments_of(before, false);
        let v = tools::segments_of(outputs, false);
        assert forall|i: int| 0 <= i < v.len() implies #[trigger] v[i] is Text by {
            if i < a.len() {
                assert(v[i] == a[i]);
            }
        }
        if forall|i: int| 0 <= i < outputs.len() ==> (#[trigger] outputs[i]).text is Some {
            assert forall|i: int| 0 <= i < before.len() implies (#[trigger] before[i]).text is Some by {
                assert(before[i] == outputs[i]);
            }
            assert(outputs[outputs.len() - 1].text is Some);
            assert forall|i: int| 0 <= i < v.len() implies #[trigger] v[i] == SegmentModel::Text(
                generation::text_of(outputs[i]),
            ) by {
                if i < a.len() {
                    assert(v[i] == a[i]);
                    assert(before[i] == outputs[i]);
                }
            }
        }
    }
}

/// An object that is a call becomes that call, and everything else the text that
/// it is.
pub proof fn law_calls_become_tools(s: tools::Segment, call: Option<tools::ToolCall>, p: tools::Piece)
    requires
        tools::is_piece(s, call, p),
    ensures
        p is Tool <==> s is Object && call is Some,
        p is Tool ==> p->Tool_0.name@ == call->Some_0.name@ && p->Tool_0.arguments@
            == call->Some_0.arguments@,
        p is Text ==> p->Text_0@ == tools::segment_text(s@),
{
}

} // verus!
