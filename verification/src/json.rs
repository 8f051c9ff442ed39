//! JSON strings.

use crate::text;
use vstd::prelude::*;

verus! {

/// What stands for a character in a JSON string: quotes, backslashes and
/// control characters are escaped, all others stand for themselves.
pub open spec fn escaped_char(c: char) -> Seq<char> {
    if c == '"' || c == '\\' {
        seq!['\\', c]
    } else if c as int == 8 {
        seq!['\\', 'b']
    } else if c as int == 9 {
        seq!['\\', 't']
    } else if c as int == 10 {
        seq!['\\', 'n']
    } else if c as int == 12 {
        seq!['\\', 'f']
    } else if c as int == 13 {
        seq!['\\', 'r']
    } else if (c as int) < 32 {
        seq![
            '\\',
            'u',
            '0',
            '0',
            text::hex_digit((c as int / 16) as nat),
            text::hex_digit((c as int % 16) as nat),
        ]
    } else {
        seq![c]
    }
}

/// What stands for a text in a JSON string.
pub open spec fn escaped(s: Seq<char>) -> Seq<char>
    decreases s.len(),
{
    if s.len() == 0 {
        Seq::empty()
    } else {
        escaped(s.drop_last()) + escaped_char(s.last())
    }
}

/// The JSON string of a text, quotes included.
pub open spec fn json_text(s: Seq<char>) -> Seq<char> {
    seq!['"'] + escaped(s) + seq!['"']
}

/// Calls `serde_json::to_string` on a text. It writes a JSON string in which
/// only quotes, backslashes and the characters below the space are escaped,
/// with the short escapes where there are some.
#[verifier::external_body]
pub(crate) fn to_json(s: &str) -> (r: String)
    ensures
        r@ == json_text(s@),
{
    serde_json::to_string(s).unwrap_or_default()
}

/// No character is below the space: the text stands on one line.
pub open spec fn is_one_line(s: Seq<char>) -> bool {
    forall|i: int| 0 <= i < s.len() ==> #[trigger] s[i] as int >= 32
}

proof fn lemma_escape_is_one_line(c: char)
    ensures
        is_one_line(escaped_char(c)),
{
    let e = escaped_char(c);
    if e.len() == 6 {
        assert(e[4] as int == 48 + c as int / 16);
        assert(e[5] as int >= 48);
    }
}

proof fn lemma_escaped_is_one_line(s: Seq<char>)
    ensures
        is_one_line(escaped(s)),
    decreases s.len(),
{
    if s.len() > 0 {
        lemma_escaped_is_one_line(s.drop_last());
        lemma_escape_is_one_line(s.last());
    }
}

/// A JSON string never breaks a line, whatever the text.
pub proof fn law_json_is_one_line(s: Seq<char>)
    ensures
        is_one_line(json_text(s)),
{
    lemma_escaped_is_one_line(s);
}

} // verus!
