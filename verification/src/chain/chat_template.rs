//! The chat format of the Qwen models.

use vstd::prelude::*;

verus! {

/// A single message in the conversation.
#[derive(Debug, Clone)]
pub struct Message {
    pub role: String,
    pub content: MessageContent,
}

/// A message's content: plain text or a list of content blocks.
#[derive(Debug, Clone)]
pub enum MessageContent {
    Text(String),
    Blocks(Vec<ContentBlock>),
}

/// A content block within a message. A tool's input is compact JSON text.
#[derive(Debug, Clone)]
pub enum ContentBlock {
    Text { text: String },
    ToolUse { id: String, name: String, input: String },
    ToolResult { tool_use_id: String, content: String },
}

impl ContentBlock {
    /// The text that the model reads for the block.
    pub open spec fn prompt(&self) -> Seq<char> {
        match self {
            ContentBlock::Text { text } => text@,
            ContentBlock::ToolUse { id, name, input } => "{\"name\":\""@ + name@
                + "\",\"arguments\":"@ + input@ + "}"@,
            ContentBlock::ToolResult { tool_use_id, content } => content@,
        }
    }

    /// The text that the model reads for the block.
    pub fn prompt_text(&self) -> (r: String)
        ensures
            r@ == self.prompt(),
    {
        match self {
            ContentBlock::Text { text } => text.clone(),
            ContentBlock::ToolUse { id: _, name, input } => {
                let mut out: String = "{\"name\":\"".to_owned();
                out.append(name.as_str());
                out.append("\",\"arguments\":");
                out.append(input.as_str());
                out.append("}");
                out
            },
            ContentBlock::ToolResult { tool_use_id: _, content } => content.clone(),
        }
    }
}

/// A piece of a prompt: a token as it is, or text for the tokenizer.
#[derive(Debug, Clone)]
pub enum Piece {
    Token(u32),
    Text(String),
}

/// What a piece holds.
pub enum PieceModel {
    Token(u32),
    Text(Seq<char>),
}

impl View for Piece {
    type V = PieceModel;

    open spec fn view(&self) -> PieceModel {
        match self {
            Piece::Token(t) => PieceModel::Token(*t),
            Piece::Text(s) => PieceModel::Text(s@),
        }
    }
}

/// The pieces' contents.
pub open spec fn piece_models(pieces: Seq<Piece>) -> Seq<PieceModel> {
    pieces.map_values(|p: Piece| p@)
}

/// The number that stands for a line break in the token stream.
pub const NEWLINE_TOKEN: u32 = 10;

/// The tokens of the chat format.
#[derive(Debug, Clone, Copy, PartialEq, Eq, Structural)]
pub struct SpecialTokens {
    /// End of sequence.
    pub eos_token: u32,
    /// `<|im_start|>`
    pub im_start: u32,
    /// `<|im_end|>`
    pub im_end: u32,
}

impl SpecialTokens {
    /// The special tokens, from what the vocabulary says of `<|im_start|>` and
    /// `<|im_end|>` and from its own end-of-sequence token.
    pub fn resolve(im_start: Option<u32>, im_end: Option<u32>, vocab_eos: u32) -> (r: Self)
        ensures
            r.im_start == (match im_start {
                Some(t) => t,
                None => 0,
            }),
            r.im_end == r.eos_token,
            r.eos_token == (match im_end {
                Some(t) => t,
                None => vocab_eos,
            }),
    {
        let eos_token: u32 = match im_end {
            Some(t) => t,
            None => vocab_eos,
        };
        SpecialTokens {
            eos_token,
            im_start: match im_start {
                Some(t) => t,
                None => 0,
            },
            im_end: match im_end {
                Some(t) => t,
                None => eos_token,
            },
        }
    }
}

/// The blocks of a message.
pub open spec fn block_pieces(blocks: Seq<ContentBlock>) -> Seq<PieceModel> {
    Seq::new(blocks.len(), |i: int| PieceModel::Text(blocks[i].prompt()))
}

/// A message's content.
pub open spec fn content_pieces(content: MessageContent) -> Seq<PieceModel> {
    match content {
        MessageContent::Text(text) => seq![PieceModel::Text(text@)],
        MessageContent::Blocks(blocks) => block_pieces(blocks@),
    }
}

/// The system prompt, if there is one that is not empty.
pub open spec fn system_pieces(system: Option<Seq<char>>, t: SpecialTokens) -> Seq<PieceModel> {
    match system {
        Some(s) => if s.len() == 0 {
            Seq::empty()
        } else {
            seq![
                PieceModel::Token(t.im_start),
                PieceModel::Text("system\n"@),
                PieceModel::Text(s),
                PieceModel::Token(t.im_end),
                PieceModel::Token(NEWLINE_TOKEN),
            ]
        },
        None => Seq::empty(),
    }
}

/// One message: its role on a line, its content, and its end.
pub open spec fn message_pieces(m: Message, t: SpecialTokens) -> Seq<PieceModel> {
    seq![
        PieceModel::Token(t.im_start),
        PieceModel::Text(m.role@),
        PieceModel::Token(NEWLINE_TOKEN),
    ] + content_pieces(m.content) + seq![
        PieceModel::Token(t.im_end),
        PieceModel::Token(NEWLINE_TOKEN),
    ]
}

/// The messages in order.
pub open spec fn conversation_pieces(messages: Seq<Message>, t: SpecialTokens) -> Seq<PieceModel>
    decreases messages.len(),
{
    if messages.len() == 0 {
        Seq::empty()
    } else {
        conversation_pieces(messages.drop_last(), t) + message_pieces(messages.last(), t)
    }
}

/// The header behind which the model generates.
pub open spec fn assistant_pieces(t: SpecialTokens) -> Seq<PieceModel> {
    seq![PieceModel::Token(t.im_start), PieceModel::Text("assistant\n"@)]
}

/// The whole prompt.
pub open spec fn prompt_pieces(
    messages: Seq<Message>,
    system: Option<Seq<char>>,
    t: SpecialTokens,
) -> Seq<PieceModel> {
    system_pieces(system, t) + conversation_pieces(messages, t) + assistant_pieces(t)
}

/// Texts among the first `n` pieces.
pub open spec fn texts_before(pieces: Seq<PieceModel>, n: nat) -> nat
    decreases n,
{
    if n == 0 {
        0
    } else {
        texts_before(pieces, (n - 1) as nat) + if pieces[n - 1] is Text {
            1nat
        } else {
            0
        }
    }
}

/// The token stream of the first `n` pieces, where the text pieces encode, in
/// order, to `encoded`.
pub open spec fn joined(pieces: Seq<PieceModel>, encoded: Seq<Vec<u32>>, n: nat) -> Seq<u32>
    decreases n,
{
    if n == 0 {
        Seq::empty()
    } else {
        joined(pieces, encoded, (n - 1) as nat) + match pieces[n - 1] {
            PieceModel::Token(t) => seq![t],
            PieceModel::Text(_) => encoded[texts_before(pieces, (n - 1) as nat) as int]@,
        }
    }
}

proof fn lemma_texts_grow(pieces: Seq<PieceModel>, k: nat, n: nat)
    requires
        k <= n,
    ensures
        texts_before(pieces, k) <= texts_before(pieces, n),
    decreases n,
{
    if k < n {
        lemma_texts_grow(pieces, k, (n - 1) as nat);
    }
}

/// Qwen `<|im_start|>role\n...<|im_end|>\n` chat format.
pub struct ChatTemplate;

impl ChatTemplate {
    /// Apply the Qwen chat template to a list of messages.
    ///
    /// The prompt ends with `<|im_start|>assistant\n`, ready for generation.
    pub fn apply(messages: &[Message], system: Option<&str>, tokens: SpecialTokens) -> (r: Vec<
        Piece,
    >)
        ensures
            piece_models(r@) == prompt_pieces(
                messages@,
                match system {
                    Some(s) => Some(s@),
                    None => None,
                },
                tokens,
            ),
    {
        let mut out: Vec<Piece> = Vec::new();
        match system {
            Some(s) => {
                if !s.is_empty() {
                    out.push(Piece::Token(tokens.im_start));
                    out.push(Piece::Text("system\n".to_owned()));
                    out.push(Piece::Text(s.to_owned()));
                    out.push(Piece::Token(tokens.im_end));
                    out.push(Piece::Token(NEWLINE_TOKEN));
                }
            },
            None => {},
        }
        let ghost sys = match system {
            Some(s) => Some(s@),
            None => None,
        };
        let ghost head = system_pieces(sys, tokens);
        assert(piece_models(out@) =~= head);
        let mut i: usize = 0;
        assert(messages@.take(0) =~= Seq::empty());
        assert(head + conversation_pieces(messages@.take(0), tokens) =~= head);
        while i < messages.len()
            invariant
                i <= messages@.len(),
                piece_models(out@) == head + conversation_pieces(
                    messages@.take(i as int),
                    tokens,
                ),
            decreases messages.len() - i,
        {
            let ghost before = out@;
            Self::push_message(&mut out, &messages[i], tokens);
            i = i + 1;
            proof {
                let done = messages@.take(i as int);
                assert(done.drop_last() =~= messages@.take(i - 1));
                assert(piece_models(out@) =~= head + conversation_pieces(done, tokens));
            }
        }
        assert(messages@.take(i as int) =~= messages@);
        out.push(Piece::Token(tokens.im_start));
        out.push(Piece::Text("assistant\n".to_owned()));
        assert(piece_models(out@) =~= prompt_pieces(messages@, sys, tokens));
        out
    }

    fn push_message(out: &mut Vec<Piece>, m: &Message, tokens: SpecialTokens)
        ensures
            piece_models(final(out)@) == piece_models(old(out)@) + message_pieces(*m, tokens),
    {
        let ghost start = piece_models(out@);
        out.push(Piece::Token(tokens.im_start));
        out.push(Piece::Text(m.role.clone()));
        out.push(Piece::Token(NEWLINE_TOKEN));
        let ghost head = start + seq![
            PieceModel::Token(tokens.im_start),
            PieceModel::Text(m.role@),
            PieceModel::Token(NEWLINE_TOKEN),
        ];
        assert(piece_models(out@) =~= head);
        match &m.content {
            MessageContent::Text(text) => {
                out.push(Piece::Text(text.clone()));
                assert(piece_models(out@) =~= head + content_pieces(m.content));
            },
            MessageContent::Blocks(blocks) => {
                let mut i: usize = 0;
                while i < blocks.len()
                    invariant
                        i <= blocks@.len(),
                        piece_models(out@) == head + block_pieces(blocks@).take(i as int),
                    decreases blocks.len() - i,
                {
                    let ghost before = out@;
                    let piece: Piece = Piece::Text(blocks[i].prompt_text());
                    out.push(piece);
                    assert(piece_models(out@) =~= piece_models(before).push(piece@));
                    assert(block_pieces(blocks@).take(i + 1) =~= block_pieces(blocks@).take(
                        i as int,
                    ).push(piece@));
                    i = i + 1;
                    assert(piece_models(out@) =~= head + block_pieces(blocks@).take(i as int));
                }
                assert(block_pieces(blocks@).take(i as int) =~= block_pieces(blocks@));
                assert(piece_models(out@) == head + content_pieces(m.content));
            },
        }
        let ghost body = out@;
        out.push(Piece::Token(tokens.im_end));
        out.push(Piece::Token(NEWLINE_TOKEN));
        assert(piece_models(out@) =~= piece_models(body) + seq![
            PieceModel::Token(tokens.im_end),
            PieceModel::Token(NEWLINE_TOKEN),
        ]);
        assert(piece_models(out@) =~= start + message_pieces(*m, tokens));
    }

    /// The token stream of a prompt, given what the tokenizer makes of its text
    /// pieces, in order.
    pub fn join(pieces: &[Piece], encoded: &[Vec<u32>]) -> (r: Vec<u32>)
        requires
            encoded@.len() == texts_before(piece_models(pieces@), pieces@.len()),
        ensures
            r@ == joined(piece_models(pieces@), encoded@, pieces@.len()),
    {
        let ghost model = piece_models(pieces@);
        let mut out: Vec<u32> = Vec::new();
        let mut text: usize = 0;
        let mut i: usize = 0;
        while i < pieces.len()
            invariant
                i <= pieces@.len(),
                model == piece_models(pieces@),
                encoded@.len() == texts_before(model, pieces@.len()),
                text == texts_before(model, i as nat),
                out@ == joined(model, encoded@, i as nat),
            decreases pieces.len() - i,
        {
            let ghost before = out@;
            assert(model[i as int] == pieces@[i as int]@);
            match &pieces[i] {
                Piece::Token(t) => {
                    out.push(*t);
                    assert(out@ =~= before + seq![*t]);
                },
                Piece::Text(_) => {
                    proof {
                        lemma_texts_grow(model, (i + 1) as nat, pieces@.len());
                    }
                    out.extend_from_slice(encoded[text].as_slice());
                    assert(out@ =~= before + encoded@[text as int]@);
                    text = text + 1;
                },
            }
            i = i + 1;
        }
        out
    }
}

/// Every prompt ends with the assistant's header, whatever was said before.
pub proof fn law_prompt_ends_with_assistant(
    messages: Seq<Message>,
    system: Option<Seq<char>>,
    t: SpecialTokens,
)
    ensures
        ({
            let p = prompt_pieces(messages, system, t);
            let n = p.len() as int;
            n >= 2 && p.subrange(n - 2, n) == assistant_pieces(t)
        }),
{
    let p = prompt_pieces(messages, system, t);
    let n = p.len() as int;
    assert(p.subrange(n - 2, n) =~= assistant_pieces(t));
}

/// One more message only extends the conversation: the prompt before the
/// assistant's header stays, and the new message follows it.
pub proof fn law_prompt_grows(
    messages: Seq<Message>,
    next: Message,
    system: Option<Seq<char>>,
    t: SpecialTokens,
)
    ensures
        prompt_pieces(messages.push(next), system, t) == system_pieces(system, t)
            + conversation_pieces(messages, t) + message_pieces(next, t) + assistant_pieces(t),
{
    assert(messages.push(next).drop_last() =~= messages);
    assert(prompt_pieces(messages.push(next), system, t) =~= system_pieces(system, t)
        + conversation_pieces(messages, t) + message_pieces(next, t) + assistant_pieces(t));
}

/// How many pieces the content of a message has.
pub open spec fn content_size(m: Message) -> int {
    match m.content {
        MessageContent::Text(_) => 1,
        MessageContent::Blocks(blocks) => blocks@.len() as int,
    }
}

/// How many pieces stand before message `k`: five for a system prompt, and for
/// each message its content and five more.
pub open spec fn message_start(messages: Seq<Message>, system: Option<Seq<char>>, k: int) -> int
    decreases k,
{
    if k <= 0 {
        if system is Some && system->0.len() > 0 {
            5
        } else {
            0
        }
    } else {
        message_start(messages, system, k - 1) + 5 + content_size(messages[k - 1])
    }
}

/// The text that stands for a block in a prompt: of a tool call its name and its
/// arguments as JSON, else what was said or what the tool gave back.
pub open spec fn is_block_text(b: ContentBlock, t: Seq<char>) -> bool {
    match b {
        ContentBlock::Text { text } => t == text@,
        ContentBlock::ToolResult { tool_use_id: _, content } => t == content@,
        ContentBlock::ToolUse { id: _, name, input } => {
            let n = name@.len() as int;
            &&& t.len() == 24 + n + input@.len()
            &&& t.subrange(0, 9) == seq!['{', '"', 'n', 'a', 'm', 'e', '"', ':', '"']
            &&& t.subrange(9, 9 + n) == name@
            &&& t.subrange(9 + n, 23 + n) == seq![
                '"',
                ',',
                '"',
                'a',
                'r',
                'g',
                'u',
                'm',
                'e',
                'n',
                't',
                's',
                '"',
                ':',
            ]
            &&& t.subrange(23 + n, 23 + n + input@.len()) == input@
            &&& t.last() == '}'
        },
    }
}

proof fn lemma_block_text(b: ContentBlock)
    ensures
        is_block_text(b, b.prompt()),
{
    match b {
        ContentBlock::ToolUse { id: _, name, input } => {
            reveal_strlit("{\"name\":\"");
            reveal_strlit("\",\"arguments\":");
            reveal_strlit("}");
            let t = b.prompt();
            let n = name@.len() as int;
            assert(t.subrange(0, 9) =~= seq!['{', '"', 'n', 'a', 'm', 'e', '"', ':', '"']);
            assert(t.subrange(9, 9 + n) =~= name@);
            assert(t.subrange(9 + n, 23 + n) =~= seq![
                '"',
                ',',
                '"',
                'a',
                'r',
                'g',
                'u',
                'm',
                'e',
                'n',
                't',
                's',
                '"',
                ':',
            ]);
            assert(t.subrange(23 + n, 23 + n + input@.len()) =~= input@);
        },
        _ => {},
    }
}

/// A piece is the text that stands for a block.
pub open spec fn is_block(p: PieceModel, b: ContentBlock) -> bool {
    p matches PieceModel::Text(x) && is_block_text(b, x)
}

/// The pieces of a message from `at` on: the start token, its role, a line
/// break, what it says, the end token and a line break.
pub open spec fn says(p: Seq<PieceModel>, at: int, m: Message, t: SpecialTokens) -> bool {
    let n = content_size(m);
    &&& 0 <= at && at + 5 + n <= p.len()
    &&& p[at] == PieceModel::Token(t.im_start)
    &&& p[at + 1] == PieceModel::Text(m.role@)
    &&& p[at + 2] == PieceModel::Token(10)
    &&& match m.content {
        MessageContent::Text(said) => p[at + 3] == PieceModel::Text(said@),
        MessageContent::Blocks(blocks) => forall|i: int|
            0 <= i < blocks@.len() ==> #[trigger] is_block(p[at + 3 + i], blocks@[i]),
    }
    &&& p[at + 3 + n] == PieceModel::Token(t.im_end)
    &&& p[at + 4 + n] == PieceModel::Token(10)
}

proof fn lemma_message_says(m: Message, t: SpecialTokens)
    ensures
        message_pieces(m, t).len() == 5 + content_size(m),
        says(message_pieces(m, t), 0, m, t),
{
    let p = message_pieces(m, t);
    match m.content {
        MessageContent::Text(_) => {},
        MessageContent::Blocks(blocks) => {
            assert forall|i: int| 0 <= i < blocks@.len() implies #[trigger] is_block(
                p[0 + 3 + i],
                blocks@[i],
            ) by {
                lemma_block_text(blocks@[i]);
                assert(p[3 + i] == block_pieces(blocks@)[i]);
            }
        },
    }
}

proof fn lemma_conversation_says(messages: Seq<Message>, t: SpecialTokens, k: int)
    requires
        0 <= k < messages.len(),
    ensures
        conversation_pieces(messages, t).len() == message_start(
            messages,
            None,
            messages.len() as int,
        ),
        says(conversation_pieces(messages, t), message_start(messages, None, k), messages[k], t),
    decreases messages.len(),
{
    let rest = messages.drop_last();
    let n = rest.len() as int;
    let head = conversation_pieces(rest, t);
    let p = conversation_pieces(messages, t);
    lemma_message_says(messages.last(), t);
    lemma_starts_agree(messages, rest, None, n);
    lemma_starts_agree(messages, rest, None, if k < n {
        k
    } else {
        n
    });
    if n == 0 {
        assert(head =~= Seq::<PieceModel>::empty());
        assert(p =~= message_pieces(messages.last(), t));
    } else {
        lemma_conversation_says(rest, t, if k < n {
            k
        } else {
            0
        });
    }
    if k < n {
        assert(says(head, message_start(messages, None, k), messages[k], t));
        lemma_says_extends(
            head,
            message_pieces(messages.last(), t),
            message_start(messages, None, k),
            messages[k],
            t,
        );
    } else {
        lemma_says_behind(head, message_pieces(messages.last(), t), messages[k], t);
    }
}

proof fn lemma_starts_agree(
    a: Seq<Message>,
    b: Seq<Message>,
    system: Option<Seq<char>>,
    k: int,
)
    requires
        k <= a.len(),
        k <= b.len(),
        forall|i: int| 0 <= i < k ==> #[trigger] a[i] == b[i],
    ensures
        message_start(a, system, k) == message_start(b, system, k),
    decreases k,
{
    if k > 0 {
        assert(a[k - 1] == b[k - 1]);
        lemma_starts_agree(a, b, system, k - 1);
    }
}

proof fn lemma_says_extends(
    p: Seq<PieceModel>,
    more: Seq<PieceModel>,
    at: int,
    m: Message,
    t: SpecialTokens,
)
    requires
        says(p, at, m, t),
    ensures
        says(p + more, at, m, t),
{
    let q = p + more;
    assert forall|j: int| 0 <= j < p.len() implies #[trigger] q[j] == p[j] by {}
    match m.content {
        MessageContent::Text(_) => {
            assert(q[at + 3] == p[at + 3]);
        },
        MessageContent::Blocks(blocks) => {
            assert forall|i: int| 0 <= i < blocks@.len() implies #[trigger] is_block(
                q[at + 3 + i],
                blocks@[i],
            ) by {
                assert(q[at + 3 + i] == p[at + 3 + i]);
                assert(is_block(p[at + 3 + i], blocks@[i]));
            }
        },
    }
}

proof fn lemma_says_behind(
    head: Seq<PieceModel>,
    p: Seq<PieceModel>,
    m: Message,
    t: SpecialTokens,
)
    requires
        says(p, 0, m, t),
    ensures
        says(head + p, head.len() as int, m, t),
{
    lemma_says_moves(head, p, 0, m, t);
}

proof fn lemma_says_moves(
    head: Seq<PieceModel>,
    p: Seq<PieceModel>,
    at: int,
    m: Message,
    t: SpecialTokens,
)
    requires
        says(p, at, m, t),
    ensures
        says(head + p, head.len() + at, m, t),
{
    let q = head + p;
    let n = head.len() as int;
    assert forall|j: int| 0 <= j < p.len() implies #[trigger] p[j] == q[n + j] by {}
    assert(q[n + at] == p[at] && q[n + at + 1] == p[at + 1] && q[n + at + 2] == p[at + 2]);
    let c = content_size(m);
    assert(q[n + at + 3 + c] == p[at + 3 + c] && q[n + at + 4 + c] == p[at + 4 + c]);
    match m.content {
        MessageContent::Text(_) => {
            assert(q[n + at + 3] == p[at + 3]);
        },
        MessageContent::Blocks(blocks) => {
            assert forall|i: int| 0 <= i < blocks@.len() implies #[trigger] is_block(
                q[n + at + 3 + i],
                blocks@[i],
            ) by {
                assert(q[n + at + 3 + i] == p[at + 3 + i]);
                assert(is_block(p[at + 3 + i], blocks@[i]));
            }
        },
    }
}

proof fn lemma_start_with_system(messages: Seq<Message>, system: Option<Seq<char>>, k: int)
    ensures
        message_start(messages, system, k) == message_start(messages, None, k) + message_start(
            messages,
            system,
            0,
        ),
    decreases k,
{
    if k > 0 {
        lemma_start_with_system(messages, system, k - 1);
    }
}

/// Everything that was said stands in the prompt: the system prompt first, if it
/// is not empty, then each message at its place, its role and what it says
/// between its tokens, and behind the last one the assistant's header.
pub proof fn law_prompt_holds_every_message(
    messages: Seq<Message>,
    system: Option<Seq<char>>,
    t: SpecialTokens,
    k: int,
)
    requires
        0 <= k < messages.len(),
    ensures
        ({
            let p = prompt_pieces(messages, system, t);
            let end = message_start(messages, system, messages.len() as int);
            &&& says(p, message_start(messages, system, k), messages[k], t)
            &&& p.len() == end + 2
            &&& p[end] == PieceModel::Token(t.im_start)
            &&& p[end + 1] == PieceModel::Text("assistant\n"@)
            &&& system is Some && system->0.len() > 0 ==> {
                &&& p[0] == PieceModel::Token(t.im_start)
                &&& p[1] == PieceModel::Text("system\n"@)
                &&& p[2] == PieceModel::Text(system->0)
                &&& p[3] == PieceModel::Token(t.im_end)
                &&& p[4] == PieceModel::Token(10)
            }
        }),
{
    let head = system_pieces(system, t);
    let body = conversation_pieces(messages, t);
    let at = message_start(messages, None, k);
    lemma_conversation_says(messages, t, k);
    lemma_says_moves(head, body, at, messages[k], t);
    lemma_says_extends(head + body, assistant_pieces(t), head.len() + at, messages[k], t);
    lemma_start_with_system(messages, system, k);
    lemma_start_with_system(messages, system, messages.len() as int);
    assert(head.len() == message_start(messages, system, 0));
}

/// Two conversations that are the same up to a message, and differ in who says
/// it or in the text that it says, have different prompts.
pub proof fn law_prompts_differ(
    a: Seq<Message>,
    b: Seq<Message>,
    system: Option<Seq<char>>,
    t: SpecialTokens,
    k: int,
)
    requires
        0 <= k < a.len(),
        k < b.len(),
        forall|i: int| 0 <= i < k ==> #[trigger] a[i] == b[i],
        a[k].role@ != b[k].role@ || (a[k].content matches MessageContent::Text(x)
            && b[k].content matches MessageContent::Text(y) && x@ != y@),
    ensures
        prompt_pieces(a, system, t) != prompt_pieces(b, system, t),
{
    law_prompt_holds_every_message(a, system, t, k);
    law_prompt_holds_every_message(b, system, t, k);
    lemma_starts_agree(a, b, system, k);
}

proof fn lemma_joined_extends(
    a: Seq<PieceModel>,
    b: Seq<PieceModel>,
    encoded: Seq<Vec<u32>>,
    n: nat,
)
    requires
        n <= a.len(),
        n <= b.len(),
        forall|i: int| 0 <= i < n ==> #[trigger] a[i] == b[i],
    ensures
        texts_before(a, n) == texts_before(b, n),
        joined(a, encoded, n) == joined(b, encoded, n),
    decreases n,
{
    if n > 0 {
        lemma_joined_extends(a, b, encoded, (n - 1) as nat);
        assert(a[n - 1] == b[n - 1]);
    }
}

/// In the token stream a token stands for itself, and a text for what the
/// tokenizer made of it, which is used once: the stream of pieces and one more is
/// the stream of the pieces and then that token, or the next encoded text.
pub proof fn law_stream_grows(pieces: Seq<PieceModel>, next: PieceModel, encoded: Seq<Vec<u32>>)
    ensures
        ({
            let all = pieces.push(next);
            let n = pieces.len();
            let texts = pieces.filter(|p: PieceModel| p is Text).len();
            joined(all, encoded, all.len()) == joined(pieces, encoded, n) + match next {
                PieceModel::Token(t) => seq![t],
                PieceModel::Text(_) => encoded[texts as int]@,
            }
        }),
{
    let all = pieces.push(next);
    lemma_joined_extends(all, pieces, encoded, pieces.len());
    lemma_texts_are_counted(pieces);
}

proof fn lemma_texts_are_counted(pieces: Seq<PieceModel>)
    ensures
        texts_before(pieces, pieces.len()) == pieces.filter(|p: PieceModel| p is Text).len(),
    decreases pieces.len(),
{
    let f = |p: PieceModel| p is Text;
    reveal(Seq::filter);
    if pieces.len() > 0 {
        let rest = pieces.drop_last();
        lemma_texts_are_counted(rest);
        lemma_joined_extends(pieces, rest, Seq::empty(), rest.len());
    }
}

} // verus!
