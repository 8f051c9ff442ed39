//! Tool calls in a reply: JSON objects are taken out of its text.

use vstd::prelude::*;

use crate::chain::generation::{self, Output};
use crate::text;

verus! {

/// A part of a reply: plain text, or text from an opening brace to the one that
/// closes it.
pub enum Segment {
    Text(String),
    Object(String),
}

/// A part of a reply, as characters.
pub enum SegmentModel {
    Text(Seq<char>),
    Object(Seq<char>),
}

impl View for Segment {
    type V = SegmentModel;

    open spec fn view(&self) -> SegmentModel {
        match self {
            Segment::Text(t) => SegmentModel::Text(t@),
            Segment::Object(t) => SegmentModel::Object(t@),
        }
    }
}

/// The parts, as characters.
pub open spec fn models(v: Seq<Segment>) -> Seq<SegmentModel> {
    Seq::new(v.len(), |i: int| v[i]@)
}

/// Where the search for objects stands: the parts so far, the plain text behind
/// them, and the object that is open, with the braces that are open in it and
/// whether the next character is in a string or behind a backslash in one.
pub struct ScanModel {
    pub done: Seq<SegmentModel>,
    pub plain: Seq<char>,
    pub object: Seq<char>,
    pub depth: nat,
    pub quoted: bool,
    pub escaped: bool,
}

/// Nothing was read.
pub open spec fn scan_start() -> ScanModel {
    ScanModel {
        done: Seq::empty(),
        plain: Seq::empty(),
        object: Seq::empty(),
        depth: 0,
        quoted: false,
        escaped: false,
    }
}

/// The plain text becomes a part, unless it is empty.
pub open spec fn flushed(s: ScanModel) -> ScanModel {
    if s.plain.len() == 0 {
        s
    } else {
        ScanModel {
            done: s.done.push(SegmentModel::Text(s.plain)),
            plain: Seq::empty(),
            ..s
        }
    }
}

/// One more character: a brace opens an object, and the one that closes it
/// completes it. Braces in strings do not count.
pub open spec fn scan_char(s: ScanModel, c: char) -> ScanModel {
    if s.depth == 0 {
        if c == '{' {
            ScanModel { object: seq![c], depth: 1, quoted: false, escaped: false, ..s }
        } else {
            ScanModel { plain: s.plain.push(c), ..s }
        }
    } else {
        let object = s.object.push(c);
        if s.quoted {
            ScanModel {
                object,
                quoted: s.escaped || c != '"',
                escaped: !s.escaped && c == '\\',
                ..s
            }
        } else if c == '"' {
            ScanModel { object, quoted: true, escaped: false, ..s }
        } else if c == '{' {
            ScanModel { object, depth: s.depth + 1, ..s }
        } else if c == '}' && s.depth == 1 {
            let f = flushed(s);
            ScanModel {
                done: f.done.push(SegmentModel::Object(object)),
                object: Seq::empty(),
                depth: 0,
                ..f
            }
        } else if c == '}' {
            ScanModel { object, depth: (s.depth - 1) as nat, ..s }
        } else {
            ScanModel { object, ..s }
        }
    }
}

/// More characters.
pub open spec fn scan_chars(s: ScanModel, t: Seq<char>) -> ScanModel
    decreases t.len(),
{
    if t.len() == 0 {
        s
    } else {
        scan_char(scan_chars(s, t.drop_last()), t.last())
    }
}

/// The texts of the tokens, each with its plain text as a part of its own.
pub open spec fn scan_outputs(outputs: Seq<Output>) -> ScanModel
    decreases outputs.len(),
{
    if outputs.len() == 0 {
        scan_start()
    } else {
        flushed(
            scan_chars(
                scan_outputs(outputs.drop_last()),
                generation::text_of(outputs.last()),
            ),
        )
    }
}

/// The text of each token that can be decoded.
pub open spec fn plain_segments(outputs: Seq<Output>) -> Seq<SegmentModel>
    decreases outputs.len(),
{
    if outputs.len() == 0 {
        Seq::empty()
    } else {
        let before = plain_segments(outputs.drop_last());
        match outputs.last().text {
            Some(t) => before.push(SegmentModel::Text(t@)),
            None => before,
        }
    }
}

/// The parts of a reply: objects are looked for where there are tools. An
/// object that is still open at the end is text.
pub open spec fn segments_of(outputs: Seq<Output>, tools: bool) -> Seq<SegmentModel> {
    if tools {
        let s = scan_outputs(outputs);
        if s.depth == 0 {
            s.done
        } else {
            s.done.push(SegmentModel::Text(s.object))
        }
    } else {
        plain_segments(outputs)
    }
}

/// The search for objects in a reply.
struct Scan {
    done: Vec<Segment>,
    plain: Vec<char>,
    object: Vec<char>,
    depth: usize,
    quoted: bool,
    escaped: bool,
}

impl Scan {
    spec fn model(&self) -> ScanModel {
        ScanModel {
            done: models(self.done@),
            plain: self.plain@,
            object: self.object@,
            depth: self.depth as nat,
            quoted: self.quoted,
            escaped: self.escaped,
        }
    }

    spec fn well_formed(&self) -> bool {
        self.depth <= self.object@.len()
    }

    fn push(&mut self, part: Segment)
        requires
            old(self).well_formed(),
        ensures
            final(self).well_formed(),
            final(self).model() == (ScanModel {
                done: old(self).model().done.push(part@),
                ..old(self).model()
            }),
    {
        self.done.push(part);
        assert(models(self.done@) =~= models(old(self).done@).push(part@));
    }

    fn flush(&mut self)
        requires
            old(self).well_formed(),
        ensures
            final(self).well_formed(),
            final(self).model() == flushed(old(self).model()),
    {
        if self.plain.len() > 0 {
            let t: String = text::from_chars(self.plain.as_slice());
            self.plain = Vec::new();
            self.push(Segment::Text(t));
        }
    }

    fn read(&mut self, c: char)
        requires
            old(self).well_formed(),
        ensures
            final(self).well_formed(),
            final(self).model() == scan_char(old(self).model(), c),
    {
        if self.depth == 0 {
            if c == '{' {
                self.object = vec![c];
                self.depth = 1;
                self.quoted = false;
                self.escaped = false;
                assert(self.object@ =~= seq![c]);
            } else {
                self.plain.push(c);
            }
            return ;
        }
        self.object.push(c);
        if self.quoted {
            self.quoted = self.escaped || c != '"';
            self.escaped = !self.escaped && c == '\\';
        } else if c == '"' {
            self.quoted = true;
            self.escaped = false;
        } else if c == '{' {
            let n: usize = self.object.len();
            assert(self.depth < n);
            self.depth = self.depth + 1;
        } else if c == '}' && self.depth == 1 {
            let t: String = text::from_chars(self.object.as_slice());
            self.flush();
            self.push(Segment::Object(t));
            self.object = Vec::new();
            self.depth = 0;
        } else if c == '}' {
            self.depth = self.depth - 1;
        }
    }

    fn read_all(&mut self, t: &[char])
        requires
            old(self).well_formed(),
        ensures
            final(self).well_formed(),
            final(self).model() == scan_chars(old(self).model(), t@),
    {
        let mut i: usize = 0;
        while i < t.len()
            invariant
                i <= t@.len(),
                self.well_formed(),
                self.model() == scan_chars(old(self).model(), t@.take(i as int)),
            decreases t.len() - i,
        {
            self.read(t[i]);
            i = i + 1;
            assert(t@.take(i as int).drop_last() =~= t@.take(i - 1));
        }
        assert(t@.take(i as int) =~= t@);
    }
}

/// The parts of a reply; `tools` says whether objects are looked for.
pub fn segments(outputs: &[Output], tools: bool) -> (r: Vec<Segment>)
    ensures
        models(r@) == segments_of(outputs@, tools),
{
    if !tools {
        return texts_of(outputs);
    }
    let mut s: Scan = Scan {
        done: Vec::new(),
        plain: Vec::new(),
        object: Vec::new(),
        depth: 0,
        quoted: false,
        escaped: false,
    };
    assert(s.model().done =~= Seq::<SegmentModel>::empty());
    let mut i: usize = 0;
    while i < outputs.len()
        invariant
            i <= outputs@.len(),
            s.well_formed(),
            s.model() == scan_outputs(outputs@.take(i as int)),
        decreases outputs.len() - i,
    {
        let chars: Vec<char> = match &outputs[i].text {
            Some(t) => text::to_chars(t.as_str()),
            None => Vec::new(),
        };
        s.read_all(chars.as_slice());
        s.flush();
        assert(chars@ =~= generation::text_of(outputs@[i as int]));
        i = i + 1;
        assert(outputs@.take(i as int).drop_last() =~= outputs@.take(i - 1));
    }
    assert(outputs@.take(i as int) =~= outputs@);
    if s.depth > 0 {
        let t: String = text::from_chars(s.object.as_slice());
        s.push(Segment::Text(t));
    }
    s.done
}

fn texts_of(outputs: &[Output]) -> (r: Vec<Segment>)
    ensures
        models(r@) == plain_segments(outputs@),
{
    let mut out: Vec<Segment> = Vec::new();
    let mut i: usize = 0;
    assert(models(out@) =~= Seq::<SegmentModel>::empty());
    while i < outputs.len()
        invariant
            i <= outputs@.len(),
            models(out@) == plain_segments(outputs@.take(i as int)),
        decreases outputs.len() - i,
    {
        let ghost before = out@;
        match &outputs[i].text {
            Some(t) => {
                out.push(Segment::Text(t.as_str().to_owned()));
                assert(models(out@) =~= models(before).push(out@.last()@));
            },
            None => {},
        }
        i = i + 1;
        assert(outputs@.take(i as int).drop_last() =~= outputs@.take(i - 1));
    }
    assert(outputs@.take(i as int) =~= outputs@);
    out
}

/// A call of a tool: its name, and its arguments as JSON.
pub struct ToolCall {
    pub name: String,
    pub arguments: String,
}

/// What a reply consists of.
pub enum Piece {
    Text(String),
    Tool(ToolCall),
}

/// What a part is, given the call that its object stands for, if it is one.
/// Any other object is text.
pub open spec fn is_piece(s: Segment, call: Option<ToolCall>, p: Piece) -> bool {
    match (s, call) {
        (Segment::Object(_), Some(c)) => p matches Piece::Tool(q) && q.name@ == c.name@
            && q.arguments@ == c.arguments@,
        _ => p matches Piece::Text(t) && t@ == segment_text(s@),
    }
}

/// What a reply consists of, given for each part the call that its object stands
/// for, if it is one.
pub fn pieces(segments: &[Segment], calls: &[Option<ToolCall>]) -> (r: Vec<Piece>)
    requires
        segments@.len() == calls@.len(),
    ensures
        r@.len() == segments@.len(),
        forall|i: int| 0 <= i < r@.len() ==> is_piece(segments@[i], calls@[i], #[trigger] r@[i]),
{
    let mut out: Vec<Piece> = Vec::new();
    let mut i: usize = 0;
    while i < segments.len()
        invariant
            i <= segments@.len() == calls@.len(),
            out@.len() == i,
            forall|k: int| 0 <= k < i ==> is_piece(segments@[k], calls@[k], #[trigger] out@[k]),
        decreases segments.len() - i,
    {
        let p: Piece = match (&segments[i], &calls[i]) {
            (Segment::Object(_), Some(c)) => Piece::Tool(
                ToolCall {
                    name: c.name.as_str().to_owned(),
                    arguments: c.arguments.as_str().to_owned(),
                },
            ),
            (Segment::Object(t), None) => Piece::Text(t.as_str().to_owned()),
            (Segment::Text(t), _) => Piece::Text(t.as_str().to_owned()),
        };
        out.push(p);
        i = i + 1;
    }
    out
}

/// A reply holds a tool call.
pub open spec fn calls_tool(v: Seq<Piece>) -> bool {
    exists|i: int| 0 <= i < v.len() && #[trigger] v[i] is Tool
}

/// A reply holds a tool call.
pub fn has_call(v: &[Piece]) -> (r: bool)
    ensures
        r == calls_tool(v@),
{
    let mut i: usize = 0;
    while i < v.len()
        invariant
            i <= v@.len(),
            forall|j: int| 0 <= j < i ==> !(#[trigger] v@[j] is Tool),
        decreases v.len() - i,
    {
        if let Piece::Tool(_) = &v[i] {
            assert(v@[i as int] is Tool);
            return true;
        }
        i = i + 1;
    }
    false
}

/// The characters of a part.
pub open spec fn segment_text(s: SegmentModel) -> Seq<char> {
    match s {
        SegmentModel::Text(t) => t,
        SegmentModel::Object(t) => t,
    }
}

/// The characters of all parts, one after the other.
pub open spec fn segments_text(v: Seq<SegmentModel>) -> Seq<char>
    decreases v.len(),
{
    if v.len() == 0 {
        Seq::empty()
    } else {
        segments_text(v.drop_last()) + segment_text(v.last())
    }
}

/// All characters that were read.
spec fn scanned(s: ScanModel) -> Seq<char> {
    segments_text(s.done) + s.plain + s.object
}

/// An object is open exactly when characters of it were read.
spec fn settled(s: ScanModel) -> bool {
    s.depth == 0 <==> s.object.len() == 0
}

proof fn lemma_flush_keeps(s: ScanModel)
    ensures
        scanned(flushed(s)) == scanned(s),
        settled(s) ==> settled(flushed(s)),
{
    if s.plain.len() > 0 {
        let f = flushed(s);
        assert(f.done.drop_last() =~= s.done);
        assert(scanned(f) =~= scanned(s));
    }
}

proof fn lemma_char_keeps(s: ScanModel, c: char)
    requires
        settled(s),
    ensures
        scanned(scan_char(s, c)) == scanned(s).push(c),
        settled(scan_char(s, c)),
{
    let t = scan_char(s, c);
    lemma_flush_keeps(s);
    let f = flushed(s);
    if s.depth == 1 && !s.quoted && c == '}' {
        assert(t.done.drop_last() =~= f.done);
        assert(f.plain.len() == 0);
        assert(scanned(t) =~= segments_text(f.done) + s.object.push(c));
        assert(scanned(f) =~= segments_text(f.done) + s.object);
    }
    assert(scanned(t) =~= scanned(s).push(c));
}

proof fn lemma_chars_keep(s: ScanModel, t: Seq<char>)
    requires
        settled(s),
    ensures
        scanned(scan_chars(s, t)) == scanned(s) + t,
        settled(scan_chars(s, t)),
    decreases t.len(),
{
    if t.len() == 0 {
        assert(scanned(s) + t =~= scanned(s));
    } else {
        lemma_chars_keep(s, t.drop_last());
        lemma_char_keeps(scan_chars(s, t.drop_last()), t.last());
        assert(scanned(scan_chars(s, t)) =~= scanned(s) + t);
    }
}

proof fn lemma_outputs_keep(outputs: Seq<Output>)
    ensures
        scanned(scan_outputs(outputs)) == generation::joined(outputs),
        settled(scan_outputs(outputs)),
        scan_outputs(outputs).plain.len() == 0,
    decreases outputs.len(),
{
    if outputs.len() == 0 {
        assert(scanned(scan_outputs(outputs)) =~= Seq::<char>::empty());
    } else {
        let s = scan_outputs(outputs.drop_last());
        let t = generation::text_of(outputs.last());
        lemma_outputs_keep(outputs.drop_last());
        lemma_chars_keep(s, t);
        lemma_flush_keeps(scan_chars(s, t));
    }
}

/// Every object goes from a brace to a brace.
pub open spec fn objects_are_braced(v: Seq<SegmentModel>) -> bool {
    forall|i: int|
        0 <= i < v.len() ==> (#[trigger] v[i] matches SegmentModel::Object(t) ==> t.len() >= 2
            && t.first() == '{' && t.last() == '}')
}

proof fn lemma_chars_brace(s: ScanModel, t: Seq<char>)
    requires
        objects_are_braced(s.done),
        settled(s),
        s.object.len() > 0 ==> s.object.first() == '{',
    ensures
        objects_are_braced(scan_chars(s, t).done),
        settled(scan_chars(s, t)),
        scan_chars(s, t).object.len() > 0 ==> scan_chars(s, t).object.first() == '{',
    decreases t.len(),
{
    if t.len() > 0 {
        let p = scan_chars(s, t.drop_last());
        lemma_chars_brace(s, t.drop_last());
        lemma_char_keeps(p, t.last());
    }
}

/// What is taken for an object starts with a brace and ends with one.
pub proof fn law_objects_are_braced(outputs: Seq<Output>, tools: bool)
    ensures
        objects_are_braced(segments_of(outputs, tools)),
    decreases outputs.len(),
{
    if tools {
        lemma_outputs_brace(outputs);
    } else if outputs.len() > 0 {
        law_objects_are_braced(outputs.drop_last(), tools);
    }
}

proof fn lemma_outputs_brace(outputs: Seq<Output>)
    ensures
        objects_are_braced(scan_outputs(outputs).done),
        scan_outputs(outputs).object.len() > 0 ==> scan_outputs(outputs).object.first() == '{',
    decreases outputs.len(),
{
    if outputs.len() > 0 {
        let s = scan_outputs(outputs.drop_last());
        lemma_outputs_brace(outputs.drop_last());
        lemma_outputs_keep(outputs.drop_last());
        lemma_chars_brace(s, generation::text_of(outputs.last()));
    }
}

/// The search for objects loses and adds nothing: the parts of a reply hold its
/// characters, in order.
pub proof fn law_segments_keep_text(outputs: Seq<Output>, tools: bool)
    ensures
        segments_text(segments_of(outputs, tools)) == generation::joined(outputs),
    decreases outputs.len(),
{
    if tools {
        lemma_outputs_keep(outputs);
        let s = scan_outputs(outputs);
        if s.depth == 0 {
            assert(scanned(s) =~= segments_text(s.done));
        } else {
            let all = s.done.push(SegmentModel::Text(s.object));
            assert(all.drop_last() =~= s.done);
            assert(scanned(s) =~= segments_text(all));
        }
    } else if outputs.len() > 0 {
        law_segments_keep_text(outputs.drop_last(), tools);
        let before = plain_segments(outputs.drop_last());
        match outputs.last().text {
            Some(t) => {
                assert(plain_segments(outputs).drop_last() =~= before);
            },
            None => {},
        }
        assert(segments_text(plain_segments(outputs)) =~= generation::joined(outputs));
    }
}

} // verus!
