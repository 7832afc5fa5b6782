//! Reasoning parser for Gemma 4 thinking models.
//!
//! The model emits its reasoning between channel delimiters:
//!
//! ```text
//! <|channel>thought
//! ...chain of thought reasoning...<channel|>
//! Final answer text.
//! ```
//!
//! A stream is parsed by snapshots: each chunk yields what the text received so
//! far, up to an unfinished control token at its end, adds to the text before.

use vstd::prelude::*;
use vstd::string::*;

use super::format::{
    added, clean, cleaned_content, content_around, diff_reasoning_streaming_snapshots,
    extract_reasoning_non_streaming, has_markup, has_tool_call_markup, safe_text, shown_around,
    split_output, strip_trailing_incomplete_token, ReasoningSnapshot, Snapshot,
};
use super::laws::law_safe_text_grows;
use super::{CHANNEL_END, CHANNEL_START};
use crate::text;

verus! {

/// Reasoning and visible text of one parse.
#[derive(Debug, PartialEq, Eq)]
pub struct ParserResult {
    pub normal_text: String,
    pub reasoning_text: String,
}

/// The texts of a `ParserResult`.
#[verifier::ext_equal]
pub struct Parsed {
    pub normal: Seq<char>,
    pub reasoning: Seq<char>,
}

impl View for ParserResult {
    type V = Parsed;

    open spec fn view(&self) -> Parsed {
        Parsed { normal: self.normal_text@, reasoning: self.reasoning_text@ }
    }
}

/// A parse that yields nothing.
pub open spec fn nothing() -> Parsed {
    Parsed { normal: Seq::empty(), reasoning: Seq::empty() }
}

impl Default for ParserResult {
    fn default() -> (r: ParserResult)
        ensures
            r@ == nothing(),
    {
        ParserResult { normal_text: String::new(), reasoning_text: String::new() }
    }
}

impl Clone for ParserResult {
    fn clone(&self) -> (r: ParserResult)
        ensures
            r == *self,
    {
        ParserResult {
            normal_text: self.normal_text.clone(),
            reasoning_text: self.reasoning_text.clone(),
        }
    }
}

/// The parts of a snapshot, an absent one as empty text.
pub open spec fn parsed(s: Snapshot) -> Parsed {
    Parsed { normal: text::or_empty(s.content), reasoning: text::or_empty(s.reasoning) }
}

/// The first channel of `s` is open: nothing closes it.
pub open spec fn in_open_channel(s: Seq<char>) -> bool {
    text::first(s, CHANNEL_START@) matches Some(i) && !text::contains(
        s.skip(i + CHANNEL_START@.len()),
        CHANNEL_END@,
    )
}

/// What a parser remembers of its stream.
#[verifier::ext_equal]
pub struct Stream {
    /// All text received.
    pub received: Seq<char>,
    /// The content that counts as emitted.
    pub emitted: Seq<char>,
}

/// A stream before its first chunk.
pub open spec fn fresh() -> Stream {
    Stream { received: Seq::empty(), emitted: Seq::empty() }
}

/// The content of the last snapshot, which a chunk is compared with: none where
/// the chunk opens the first channel.
pub open spec fn compared_content(received: Seq<char>, chunk: Seq<char>) -> Option<Seq<char>> {
    if !text::contains(received, CHANNEL_START@) && text::contains(
        received + chunk,
        CHANNEL_START@,
    ) {
        None
    } else {
        split_output(safe_text(received)).content
    }
}

/// One of the texts is the start of the other.
pub open spec fn agrees(a: Seq<char>, b: Seq<char>) -> bool {
    a.is_prefix_of(b) || b.is_prefix_of(a)
}

/// The form in which the emitted text stands at the start of the content `full`:
/// as it is, or else without leading white space, or else as it is shown around a
/// channel. There is none where the content has changed otherwise.
pub open spec fn emitted_form(emitted: Seq<char>, full: Seq<char>) -> Option<Seq<char>> {
    let shown = text::or_empty(shown_around(emitted));
    if agrees(emitted, full) {
        Some(emitted)
    } else if agrees(text::trim_start(emitted), full) {
        Some(text::trim_start(emitted))
    } else if agrees(shown, full) {
        Some(shown)
    } else {
        None
    }
}

/// Where the first channel of `s` ends, or 0 where none is closed.
pub open spec fn channel_close(s: Seq<char>) -> int {
    match text::first(s, CHANNEL_START@) {
        Some(i) => {
            let from = i + CHANNEL_START@.len();
            match text::first(s.skip(from), CHANNEL_END@) {
                Some(e) => from + e + CHANNEL_END@.len(),
                None => 0,
            }
        },
        None => 0,
    }
}

/// The text that a chunk brings: what is safe now and was not before, and stands
/// after the first channel.
pub open spec fn new_text(received: Seq<char>, chunk: Seq<char>) -> Seq<char> {
    let safe = safe_text(received + chunk);
    let old_len = safe_text(received).len() as int;
    if channel_close(safe) > old_len {
        safe.skip(channel_close(safe))
    } else {
        safe.skip(old_len)
    }
}

/// What a chunk adds where the content `full` does not go on from what was
/// emitted: the text `new` that it brings, as content shows it.
pub open spec fn new_content(full: Seq<char>, new: Seq<char>) -> Seq<char> {
    if has_markup(full) {
        text::trim_end(new)
    } else {
        clean(new)
    }
}

/// The text before the first channel of `s`, empty where there is none.
pub open spec fn before_channel(s: Seq<char>) -> Seq<char> {
    match text::first(s, CHANNEL_START@) {
        Some(i) => s.take(i),
        None => Seq::empty(),
    }
}

/// The content `full` of the text `safe` does not start with what was emitted,
/// and text before the channel is part of it: to emit all of it would emit that
/// text twice.
pub open spec fn may_repeat(emitted: Seq<char>, full: Seq<char>, safe: Seq<char>) -> bool {
    &&& emitted.len() > 0
    &&& !emitted.is_prefix_of(full)
    &&& shown_around(before_channel(safe)) is Some
}

/// The content that a chunk adds, where its snapshot is `curr`: what follows the
/// text that was already emitted, or else what is added to the last snapshot. Text
/// before the channel is not emitted twice.
pub open spec fn added_content(st: Stream, chunk: Seq<char>, curr: Snapshot) -> Seq<char> {
    if in_open_channel(st.received + chunk) {
        Seq::empty()
    } else {
        match curr.content {
            Some(full) => if st.emitted.len() > 0 && st.emitted.is_prefix_of(full) {
                full.skip(st.emitted.len() as int)
            } else if may_repeat(st.emitted, full, safe_text(st.received + chunk)) {
                match emitted_form(st.emitted, full) {
                    Some(form) => if form.len() <= full.len() {
                        full.skip(form.len() as int)
                    } else {
                        Seq::empty()
                    },
                    None => new_content(full, new_text(st.received, chunk)),
                }
            } else {
                added(curr.content, compared_content(st.received, chunk))
            },
            None => Seq::empty(),
        }
    }
}

/// What a chunk yields.
pub open spec fn chunk_result(st: Stream, chunk: Seq<char>) -> Parsed {
    let safe = safe_text(st.received + chunk);
    if safe == safe_text(st.received) {
        nothing()
    } else {
        Parsed {
            normal: added_content(st, chunk, split_output(safe)),
            reasoning: added(
                split_output(safe).reasoning,
                split_output(safe_text(st.received)).reasoning,
            ),
        }
    }
}

/// The content that counts as emitted after a chunk: that of its snapshot where
/// some was emitted, or where it has changed and would repeat text.
pub open spec fn emitted_after(st: Stream, chunk: Seq<char>) -> Seq<char> {
    let safe = safe_text(st.received + chunk);
    if safe == safe_text(st.received) || in_open_channel(st.received + chunk) {
        st.emitted
    } else {
        match split_output(safe).content {
            Some(full) => if chunk_result(st, chunk).normal.len() > 0 || (may_repeat(
                st.emitted,
                full,
                safe,
            ) && emitted_form(st.emitted, full) is None) {
                full
            } else {
                st.emitted
            },
            None => st.emitted,
        }
    }
}

/// The stream after a chunk.
pub open spec fn after_chunk(st: Stream, chunk: Seq<char>) -> Stream {
    Stream { received: st.received + chunk, emitted: emitted_after(st, chunk) }
}

/// Whether one of the texts is the start of the other.
fn agree(a: &str, b: &str) -> (r: bool)
    ensures
        r == agrees(a@, b@),
{
    text::starts_with(b, a) || text::starts_with(a, b)
}

/// Where the first channel of `s` ends, or 0 where none is closed.
fn find_channel_close(s: &str) -> (r: usize)
    ensures
        r == channel_close(s@),
        r <= s@.len(),
{
    match text::find(s, CHANNEL_START) {
        Some(i) => {
            let from: usize = i + text::length(CHANNEL_START);
            match text::find(text::skip(s, from), CHANNEL_END) {
                Some(e) => from + e + text::length(CHANNEL_END),
                None => 0,
            }
        },
        None => 0,
    }
}

/// Whether text before the channel of `s` is shown as part of its content.
fn shows_text_before_channel(s: &str) -> (r: bool)
    ensures
        r == (shown_around(before_channel(s@)) is Some),
{
    let before: &str = match text::find(s, CHANNEL_START) {
        Some(i) => text::take(s, i),
        None => text::take(s, 0),
    };
    proof {
        reveal_strlit("");
        assert(s@.take(0) =~= Seq::<char>::empty());
        assert(""@ + before@ =~= before@);
    }
    content_around("", before).is_some()
}

/// How much of `full` stands for the emitted text, if it goes on from it.
fn emitted_len(emitted: &str, full: &str) -> (r: Option<usize>)
    ensures
        match r {
            Some(n) => emitted_form(emitted@, full@) matches Some(form) && n == form.len(),
            None => emitted_form(emitted@, full@) is None,
        },
{
    if agree(emitted, full) {
        return Some(text::length(emitted));
    }
    let trimmed: &str = text::trimmed_start(emitted);
    if agree(trimmed, full) {
        return Some(text::length(trimmed));
    }
    let shown: String = match content_around("", emitted) {
        Some(s) => s,
        None => String::new(),
    };
    proof {
        reveal_strlit("");
        assert(""@ + emitted@ =~= emitted@);
    }
    if agree(shown.as_str(), full) {
        return Some(text::length(shown.as_str()));
    }
    None
}

/// Separates reasoning from visible content, at once or chunk by chunk.
#[derive(Debug)]
pub struct Gemma4ReasoningParser {
    /// All text received.
    cumulative_text: String,
    /// The text received before the last chunk.
    prev_cumulative_text: String,
    /// `cumulative_text` without an unfinished control token at its end.
    last_safe_text: String,
    /// The content that counts as emitted.
    emitted_content: String,
}

impl View for Gemma4ReasoningParser {
    type V = Stream;

    closed spec fn view(&self) -> Stream {
        Stream { received: self.cumulative_text@, emitted: self.emitted_content@ }
    }
}

impl Default for Gemma4ReasoningParser {
    fn default() -> (r: Gemma4ReasoningParser)
        ensures
            r.wf(),
            r@ == fresh(),
    {
        Gemma4ReasoningParser::new()
    }
}

impl Clone for Gemma4ReasoningParser {
    fn clone(&self) -> (r: Gemma4ReasoningParser)
        ensures
            r == *self,
    {
        Gemma4ReasoningParser {
            cumulative_text: self.cumulative_text.clone(),
            prev_cumulative_text: self.prev_cumulative_text.clone(),
            last_safe_text: self.last_safe_text.clone(),
            emitted_content: self.emitted_content.clone(),
        }
    }
}

impl Gemma4ReasoningParser {
    /// The remembered safe text is that of the text received.
    pub closed spec fn wf(&self) -> bool {
        self.last_safe_text@ == safe_text(self.cumulative_text@)
    }

    /// A parser that has received no text.
    pub fn new() -> (r: Gemma4ReasoningParser)
        ensures
            r.wf(),
            r@ == fresh(),
    {
        let r: Gemma4ReasoningParser = Gemma4ReasoningParser {
            cumulative_text: String::new(),
            prev_cumulative_text: String::new(),
            last_safe_text: String::new(),
            emitted_content: String::new(),
        };
        proof {
            lemma_safe_text_of_empty();
        }
        r
    }

    /// The snapshot of a text without an unfinished token at its end.
    pub fn snapshot_from_safe_text(safe_text: &str) -> (r: ReasoningSnapshot)
        ensures
            r@ == split_output(safe_text@),
    {
        extract_reasoning_non_streaming(safe_text)
    }

    /// Whether the first channel is open, with nothing that closes it yet.
    pub fn inside_open_first_channel(text: &str) -> (r: bool)
        ensures
            r == in_open_channel(text@),
    {
        match text::find(text, CHANNEL_START) {
            Some(i) => {
                let after: usize = i + text::length(CHANNEL_START);
                !text::has(text::skip(text, after), CHANNEL_END)
            },
            None => false,
        }
    }

    /// The parts of a snapshot, an absent one as empty text.
    pub fn snapshot_to_parser_result(snapshot: &ReasoningSnapshot) -> (r: ParserResult)
        ensures
            r@ == parsed(snapshot@),
    {
        ParserResult {
            normal_text: match &snapshot.content {
                Some(s) => s.clone(),
                None => String::new(),
            },
            reasoning_text: match &snapshot.reasoning {
                Some(s) => s.clone(),
                None => String::new(),
            },
        }
    }

    /// Parses a whole output. The stream of this parser is left alone.
    pub fn detect_and_parse_reasoning(&mut self, text: &str, _token_ids: &[u32]) -> (r:
        ParserResult)
        ensures
            *final(self) == *old(self),
            r@ == parsed(split_output(text@)),
    {
        Self::snapshot_to_parser_result(&extract_reasoning_non_streaming(text))
    }

    /// Parses the next chunk of a stream.
    pub fn parse_reasoning_streaming_incremental(
        &mut self,
        text: &str,
        _token_ids: &[u32],
    ) -> (r: ParserResult)
        requires
            old(self).wf(),
        ensures
            final(self).wf(),
            r@ == chunk_result(old(self)@, text@),
            final(self)@ == after_chunk(old(self)@, text@),
    {
        self.prev_cumulative_text = self.cumulative_text.clone();
        self.cumulative_text.append(text);
        let safe_curr: String = strip_trailing_incomplete_token(self.cumulative_text.as_str());

        if safe_curr == self.last_safe_text {
            return ParserResult::default();
        }
        let mut prev_snapshot: ReasoningSnapshot = Self::snapshot_from_safe_text(
            self.last_safe_text.as_str(),
        );
        let channel_just_opened: bool = !text::has(
            self.prev_cumulative_text.as_str(),
            CHANNEL_START,
        ) && text::has(self.cumulative_text.as_str(), CHANNEL_START);
        if channel_just_opened {
            prev_snapshot.content = None;
        }
        let curr_snapshot: ReasoningSnapshot = Self::snapshot_from_safe_text(safe_curr.as_str());
        let prev_len: usize = text::length(self.last_safe_text.as_str());
        let (dr, mut dc) = diff_reasoning_streaming_snapshots(&curr_snapshot, &prev_snapshot);

        if Self::inside_open_first_channel(self.cumulative_text.as_str()) {
            dc = String::new();
        } else if let Some(full) = &curr_snapshot.content {
            let mut changed: bool = false;
            if !self.emitted_content.as_str().is_empty() {
                if text::starts_with(full.as_str(), self.emitted_content.as_str()) {
                    let n: usize = text::length(self.emitted_content.as_str());
                    dc = text::skip(full.as_str(), n).to_owned();
                } else if shows_text_before_channel(safe_curr.as_str()) {
                    // Text before the channel must not be emitted twice.
                    match emitted_len(self.emitted_content.as_str(), full.as_str()) {
                        Some(n) => {
                            dc = if n <= text::length(full.as_str()) {
                                text::skip(full.as_str(), n).to_owned()
                            } else {
                                String::new()
                            };
                        },
                        None => {
                            proof {
                                law_safe_text_grows(old(self)@.received, text@);
                            }
                            let close: usize = find_channel_close(safe_curr.as_str());
                            let from: usize = if close > prev_len {
                                close
                            } else {
                                prev_len
                            };
                            let new: &str = text::skip(safe_curr.as_str(), from);
                            dc = if has_tool_call_markup(full.as_str()) {
                                text::trimmed_end(new).to_owned()
                            } else {
                                cleaned_content(new)
                            };
                            changed = true;
                        },
                    }
                }
            }
            if changed || !dc.as_str().is_empty() {
                self.emitted_content = full.clone();
            }
        }
        self.last_safe_text = safe_curr;
        ParserResult { normal_text: dc, reasoning_text: dr }
    }

    /// Ends a stream: parses all of its text as one output, and starts afresh.
    pub fn finish_reasoning_stream(&mut self) -> (r: ParserResult)
        requires
            old(self).wf(),
        ensures
            final(self).wf(),
            old(self)@.received.len() > 0 ==> final(self)@ == fresh(),
            old(self)@.received.len() == 0 ==> final(self)@ == old(self)@,
            r@ == parsed(split_output(old(self)@.received)),
    {
        let full: String = self.cumulative_text.clone();
        let r: ParserResult = Self::snapshot_to_parser_result(
            &extract_reasoning_non_streaming(full.as_str()),
        );
        if full.as_str().is_empty() {
            return r;
        }
        *self = Gemma4ReasoningParser::new();
        r
    }
}

/// Nothing is unfinished in an empty text.
proof fn lemma_safe_text_of_empty()
    ensures
        safe_text(Seq::<char>::empty()) == Seq::<char>::empty(),
{
    let s = Seq::<char>::empty();
    assert(super::format::is_unfinished_len(s, 0));
    super::format::lemma_unfinished_len_is(s, 0);
}

} // verus!
