//! The client of an OpenAI-compatible chat API: its request parameters and
//! the reading of its server-sent event stream.

use vstd::prelude::*;
use vstd::utf8::{decode_utf8, valid_utf8};
use crate::text::{chars_of, copy_opt_string, string_of, trim, trim_bounds};

verus! {

/// One message of a chat.
#[derive(Debug)]
pub struct ChatMessage {
    pub role: String,
    pub content: String,
}

/// The model of a [`ChatMessage`].
pub struct ChatMessageView {
    pub role: Seq<char>,
    pub content: Seq<char>,
}

impl View for ChatMessage {
    type V = ChatMessageView;

    open spec fn view(&self) -> ChatMessageView {
        ChatMessageView { role: self.role@, content: self.content@ }
    }
}

impl DeepView for ChatMessage {
    type V = ChatMessageView;

    open spec fn deep_view(&self) -> ChatMessageView {
        self@
    }
}

/// A client of one provider and model.
#[derive(Debug)]
pub struct AiClient {
    pub api_key: String,
    pub base_url: String,
    pub model: String,
}

impl AiClient {
    pub fn new(api_key: String, base_url: String, model: String) -> (c: Self)
        ensures
            c.api_key@ == api_key@,
            c.base_url@ == base_url@,
            c.model@ == model@,
    {
        AiClient { api_key, base_url, model }
    }

    /// The URL of the chat completions endpoint.
    pub fn completions_url(&self) -> (u: String)
        ensures
            u@ == self.base_url@ + "/chat/completions"@,
    {
        let mut u = self.base_url.clone();
        u.append("/chat/completions");
        u
    }

    /// The value of the `Authorization` header.
    pub fn authorization_header(&self) -> (h: String)
        ensures
            h@ == "Bearer "@ + self.api_key@,
    {
        let mut h = String::from_str("Bearer ");
        h.append(self.api_key.as_str());
        h
    }
}

/// What a chat chunk's delta carries.
#[derive(Debug)]
pub struct ChatDelta {
    pub content: Option<String>,
}

/// One choice of a chat chunk.
#[derive(Debug)]
pub struct ChatChoiceChunk {
    pub delta: ChatDelta,
}

/// One chunk of a streamed chat answer, as the provider sends it in a data
/// line.
#[derive(Debug)]
pub struct ChatResponseChunk {
    pub choices: Vec<ChatChoiceChunk>,
}

/// The text that a chunk adds to the answer: the content of its first
/// choice, if it has one.
pub open spec fn chunk_text(chunk: &ChatResponseChunk) -> Option<Seq<char>> {
    if chunk.choices@.len() > 0 {
        chunk.choices@[0].delta.content.deep_view()
    } else {
        None
    }
}

/// The text that a chunk adds to the answer: the content of its first
/// choice; `None` when it has no choice or its first choice no content.
pub fn chunk_content(chunk: &ChatResponseChunk) -> (r: Option<String>)
    ensures
        r.deep_view() == chunk_text(chunk),
{
    if chunk.choices.len() > 0 {
        copy_opt_string(&chunk.choices[0].delta.content)
    } else {
        None
    }
}

/// What one line of the event stream says.
#[derive(Debug)]
pub enum SseLine {
    /// `data: [DONE]`: the stream is over.
    Done,
    /// `data: ...`: the trimmed payload.
    Data(String),
    /// Any other line.
    Ignore,
}

/// The model of an [`SseLine`].
pub enum SseLineView {
    Done,
    Data(Seq<char>),
    Ignore,
}

impl View for SseLine {
    type V = SseLineView;

    open spec fn view(&self) -> SseLineView {
        match self {
            SseLine::Done => SseLineView::Done,
            SseLine::Data(d) => SseLineView::Data(d@),
            SseLine::Ignore => SseLineView::Ignore,
        }
    }
}

/// The prefix of a data line.
pub open spec fn data_prefix() -> Seq<char> {
    "data: "@
}

/// What the line `line` says.
pub open spec fn sse_line_kind(line: Seq<char>) -> SseLineView {
    if line.len() >= data_prefix().len() && line.take(data_prefix().len() as int) == data_prefix() {
        let data = trim(line.skip(data_prefix().len() as int));
        if data == "[DONE]"@ {
            SseLineView::Done
        } else {
            SseLineView::Data(data)
        }
    } else {
        SseLineView::Ignore
    }
}

/// The result of `String::from_utf8_lossy` on `bytes`.
pub uninterp spec fn utf8_lossy(bytes: Seq<u8>) -> Seq<char>;

/// Calls `String::from_utf8_lossy`. Its result is a function of the bytes,
/// named `utf8_lossy`; as its documentation says, valid UTF-8 is decoded
/// unchanged. What it makes of invalid sequences is left unstated.
#[verifier::external_body]
pub(crate) fn decode_lossy(bytes: &[u8]) -> (s: String)
    ensures
        s@ == utf8_lossy(bytes@),
        valid_utf8(bytes@) ==> s@ == decode_utf8(bytes@),
{
    String::from_utf8_lossy(bytes).to_string()
}

/// The index of the first line feed of `b`, if it holds one.
pub open spec fn first_line_feed(b: Seq<u8>) -> Option<int> {
    if exists|i: int| 0 <= i < b.len() && b[i] == 10u8 && forall|k: int| 0 <= k < i ==> b[k] != 10u8 {
        Some(choose|i: int| 0 <= i < b.len() && b[i] == 10u8 && forall|k: int| 0 <= k < i ==> b[k] != 10u8)
    } else {
        None
    }
}

/// What one step of reading the event stream gives.
#[derive(Debug)]
pub enum SseStep {
    /// The buffer holds no complete line: more bytes are needed.
    NeedMore,
    /// A complete line was taken from the buffer.
    Line(SseLine),
}

/// What the reader of the event stream does next.
#[derive(Debug)]
pub enum StreamAction {
    /// The stream is over.
    End,
    /// The answer continues with this text.
    Emit(String),
    /// Reading failed with this message.
    Fail(String),
    /// Go on reading.
    Continue,
}

/// The model of a [`StreamAction`].
pub enum StreamActionView {
    End,
    Emit(Seq<char>),
    Fail(Seq<char>),
    Continue,
}

impl View for StreamAction {
    type V = StreamActionView;

    open spec fn view(&self) -> StreamActionView {
        match self {
            StreamAction::End => StreamActionView::End,
            StreamAction::Emit(t) => StreamActionView::Emit(t@),
            StreamAction::Fail(m) => StreamActionView::Fail(m@),
            StreamAction::Continue => StreamActionView::Continue,
        }
    }
}

/// What follows a line of the stream: `[DONE]` ends it; a data line whose
/// payload parsed as a chunk with text emits that text; any other line is
/// passed over. `text` is the text of the parsed chunk, `None` when the
/// payload did not parse or the chunk holds no text.
pub open spec fn action_for_line(line: SseLineView, text: Option<Seq<char>>) -> StreamActionView {
    match line {
        SseLineView::Done => StreamActionView::End,
        SseLineView::Data(_) => match text {
            Some(t) => StreamActionView::Emit(t),
            None => StreamActionView::Continue,
        },
        SseLineView::Ignore => StreamActionView::Continue,
    }
}

/// Only a `[DONE]` line ends the stream: a line that is not a data line
/// always lets reading go on, whatever chunk came with it; a data line
/// emits exactly the text of its chunk, and goes on when there is none.
pub proof fn lemma_stream_ends_only_on_done(line: SseLineView, text: Option<Seq<char>>)
    ensures
        action_for_line(line, text) is End <==> line is Done,
        line is Ignore ==> action_for_line(line, text) is Continue,
        line is Data && text is None ==> action_for_line(line, text) is Continue,
        line is Data && text is Some ==> action_for_line(line, text) == StreamActionView::Emit(text->0),
        !(action_for_line(line, text) is Fail),
{
}

/// A line that begins with `data: ` carries the rest of the line, trimmed,
/// and ends the stream when that is `[DONE]`; any other line is passed
/// over.
pub proof fn lemma_sse_lines_are(line: Seq<char>)
    ensures
        !(line.len() >= 6 && line.take(6) == "data: "@) ==> sse_line_kind(line) is Ignore,
        line.len() >= 6 && line.take(6) == "data: "@ && trim(line.skip(6)) == "[DONE]"@ ==> sse_line_kind(
            line,
        ) is Done,
        line.len() >= 6 && line.take(6) == "data: "@ && trim(line.skip(6)) != "[DONE]"@ ==> sse_line_kind(
            line,
        ) == SseLineView::Data(trim(line.skip(6))),
{
    reveal_strlit("data: ");
    assert(data_prefix().len() == 6);
}

/// What follows a line of the stream, given the chunk that a data line's
/// payload parsed as (`None` when it did not parse).
pub fn line_action(line: &SseLine, chunk: Option<&ChatResponseChunk>) -> (a: StreamAction)
    ensures
        a@ == action_for_line(
            line@,
            match chunk {
                Some(c) => chunk_text(c),
                None => None,
            },
        ),
{
    match line {
        SseLine::Done => StreamAction::End,
        SseLine::Ignore => StreamAction::Continue,
        SseLine::Data(_) => match chunk {
            Some(c) => match chunk_content(c) {
                Some(t) => StreamAction::Emit(t),
                None => StreamAction::Continue,
            },
            None => StreamAction::Continue,
        },
    }
}

/// What follows a fetch of more bytes: new bytes are added to the buffer
/// and reading goes on; the end of the body ends the stream; a failed fetch
/// fails with "Stream error: " and its message.
pub fn fetch_action(buffer: &mut Vec<u8>, fetched: Result<Option<Vec<u8>>, String>) -> (a: StreamAction)
    ensures
        match fetched {
            Ok(Some(b)) => a is Continue && final(buffer)@ == old(buffer)@ + b@,
            Ok(None) => a is End && final(buffer)@ == old(buffer)@,
            Err(e) => a@ == StreamActionView::Fail("Stream error: "@ + e@) && final(buffer)@
                == old(buffer)@,
        },
{
    match fetched {
        Ok(Some(b)) => {
            let mut b = b;
            buffer.append(&mut b);
            StreamAction::Continue
        },
        Ok(None) => StreamAction::End,
        Err(e) => {
            let mut m = String::from_str("Stream error: ");
            m.append(e.as_str());
            StreamAction::Fail(m)
        },
    }
}

proof fn lemma_first_line_feed_exists(b: Seq<u8>, i: int)
    requires
        0 <= i < b.len(),
        b[i] == 10u8,
    ensures
        exists|j: int| 0 <= j < b.len() && b[j] == 10u8 && forall|k: int| 0 <= k < j ==> b[k] != 10u8,
    decreases i,
{
    if exists|k: int| 0 <= k < i && b[k] == 10u8 {
        let k = choose|k: int| 0 <= k < i && b[k] == 10u8;
        lemma_first_line_feed_exists(b, k);
    } else {
        assert(forall|k: int| 0 <= k < i ==> b[k] != 10u8);
    }
}

/// A buffer has a complete line exactly when it holds a line feed, and
/// taking a line loses no byte: the line, which ends with the line feed,
/// followed by what stays in the buffer is the buffer before.
pub proof fn lemma_take_line_keeps_bytes(b: Seq<u8>)
    ensures
        first_line_feed(b) is None <==> forall|i: int| 0 <= i < b.len() ==> b[i] != 10u8,
        first_line_feed(b) matches Some(p) ==> b.take(p + 1) + b.skip(p + 1) == b
            && b.take(p + 1).last() == 10u8,
{
    if exists|i: int| 0 <= i < b.len() && b[i] == 10u8 {
        let i = choose|i: int| 0 <= i < b.len() && b[i] == 10u8;
        lemma_first_line_feed_exists(b, i);
    }
    if let Some(p) = first_line_feed(b) {
        assert(b.take(p + 1) + b.skip(p + 1) =~= b);
    }
}

/// Classifies one line of the event stream.
pub fn classify_sse_line(line: &str) -> (k: SseLine)
    ensures
        k@ == sse_line_kind(line@),
{
    let chars = chars_of(line);
    let prefix = chars_of("data: ");
    if chars.len() < prefix.len() {
        return SseLine::Ignore;
    }
    let mut i: usize = 0;
    while i < prefix.len()
        invariant
            chars@ == line@,
            prefix@ == data_prefix(),
            prefix.len() <= chars.len(),
            i <= prefix.len(),
            forall|k: int| 0 <= k < i ==> chars@[k] == prefix@[k],
        decreases prefix.len() - i,
    {
        if chars[i] != prefix[i] {
            assert(chars@.take(prefix@.len() as int)[i as int] != prefix@[i as int]);
            assert(chars@.take(prefix@.len() as int) != prefix@) by {
                if chars@.take(prefix@.len() as int) == prefix@ {
                    assert(chars@.take(prefix@.len() as int)[i as int] == prefix@[i as int]);
                }
            }
            assert(prefix@ == data_prefix());
            return SseLine::Ignore;
        }
        i = i + 1;
    }
    assert(chars@.take(prefix@.len() as int) =~= prefix@);
    let (a, b) = trim_bounds(&chars, prefix.len(), chars.len());
    assert(chars@.subrange(prefix@.len() as int, chars@.len() as int) =~= chars@.skip(
        prefix@.len() as int,
    ));
    let data = string_of(&chars, a, b);
    let done = chars_of("[DONE]");
    let mut same: bool = false;
    if b - a == done.len() {
        let mut j: usize = 0;
        same = true;
        while j < done.len()
            invariant
                b - a == done.len(),
                a <= b <= chars.len(),
                j <= done.len(),
                same == forall|k: int| 0 <= k < j ==> chars@[a + k] == done@[k],
            decreases done.len() - j,
        {
            if chars[a + j] != done[j] {
                same = false;
            }
            j = j + 1;
        }
        if same {
            assert(chars@.subrange(a as int, b as int) =~= done@);
        } else {
            assert(chars@.subrange(a as int, b as int) != done@) by {
                let k = choose|k: int| 0 <= k < done.len() && chars@[a + k] != done@[k];
                assert(chars@.subrange(a as int, b as int)[k] != done@[k]);
            }
        }
    } else {
        same = false;
    }
    if same {
        SseLine::Done
    } else {
        SseLine::Data(data)
    }
}

/// Takes the first complete line, line feed included, from `buffer`.
pub fn take_line(buffer: &mut Vec<u8>) -> (line: Option<Vec<u8>>)
    ensures
        match first_line_feed(old(buffer)@) {
            Some(p) => line matches Some(l) && l@ == old(buffer)@.take(p + 1) && final(buffer)@
                == old(buffer)@.skip(p + 1),
            None => line is None && final(buffer)@ == old(buffer)@,
        },
{
    let mut p: usize = 0;
    while p < buffer.len() && buffer[p] != 10u8
        invariant
            p <= buffer.len(),
            forall|k: int| 0 <= k < p ==> buffer@[k] != 10u8,
        decreases buffer.len() - p,
    {
        p = p + 1;
    }
    if p == buffer.len() {
        return None;
    }
    proof {
        let q = choose|i: int|
            0 <= i < buffer@.len() && buffer@[i] == 10u8 && forall|k: int| 0 <= k < i ==> buffer@[k] != 10u8;
        if q < p {
        } else if q > p {
            assert(buffer@[p as int] == 10u8);
        }
        assert(q == p);
    }
    let mut rest = buffer.split_off(p + 1);
    std::mem::swap(buffer, &mut rest);
    Some(rest)
}

/// One step of reading the event stream from `buffer`: the next complete
/// line, taken from the buffer and classified, or a request for more bytes.
pub fn sse_step(buffer: &mut Vec<u8>) -> (s: SseStep)
    ensures
        match first_line_feed(old(buffer)@) {
            Some(p) => s matches SseStep::Line(k) && k@ == sse_line_kind(
                utf8_lossy(old(buffer)@.take(p + 1)),
            ) && final(buffer)@ == old(buffer)@.skip(p + 1),
            None => s is NeedMore && final(buffer)@ == old(buffer)@,
        },
{
    match take_line(buffer) {
        None => SseStep::NeedMore,
        Some(line) => {
            let text = decode_lossy(line.as_slice());
            SseStep::Line(classify_sse_line(text.as_str()))
        },
    }
}

} // verus!
