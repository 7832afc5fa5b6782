//! What holds of the Gemma 4 text functions as a whole.

use vstd::prelude::*;

use super::format::{
    before_markup, channel_body, clean, clean_prose, compact, drop_channel_tokens, drop_channels,
    drop_channels_before_call, drop_control_tokens, drop_empty_thinking, drop_labels,
    drop_tool_grammar, ends_in_start_of, ends_in_unfinished, from_markup, grammar_round,
    has_channel_token, has_markup, has_tool_grammar, is_thought_echo, is_unfinished_len,
    lemma_drop_channel_tokens, lemma_drop_tool_grammar, lemma_unfinished_len_is, markup_start,
    may_leak, safe_text, shown_around, split_output, streamed_tokens, strip_echo, strip_echo_lines,
    strip_echoes, strip_echoes_before, strip_leaks, unfinished_len, visible_delta, Snapshot,
};
use super::reasoning::{
    after_chunk, agrees, before_channel, channel_close, chunk_result, compared_content,
    emitted_form, fresh, in_open_channel, may_repeat, new_content, new_text, nothing, parsed,
    Parsed, Stream,
};
use super::{
    CALL_PREFIX, CHANNEL_END, CHANNEL_START, LABELLED_START, LABELLED_START_CR, STRING_DELIM,
    THOUGHT_PREFIX, TOOL_CALL_END, TOOL_CALL_START,
};
use crate::text;

verus! {

/// `tok` starts with `<` and holds no other.
pub open spec fn is_marker(tok: Seq<char>) -> bool {
    &&& tok.len() > 0
    &&& tok[0] == '<'
    &&& forall|k: int| 0 < k < tok.len() ==> tok[k] != '<'
}

/// The control tokens are markers.
pub proof fn lemma_markers()
    ensures
        is_marker(CHANNEL_START@),
        is_marker(CHANNEL_END@),
        is_marker(LABELLED_START@),
        is_marker(LABELLED_START_CR@),
        is_marker(TOOL_CALL_START@),
        is_marker(TOOL_CALL_END@),
        is_marker(STRING_DELIM@),
        forall|t: int|
            0 <= t < streamed_tokens().len() ==> is_marker(#[trigger] streamed_tokens()[t]),
        CHANNEL_START@.len() == 10,
        CHANNEL_END@.len() == 10,
        THOUGHT_PREFIX@.len() == 8,
        LABELLED_START@ == CHANNEL_START@ + THOUGHT_PREFIX@,
{
    reveal_strlit("<|channel>");
    reveal_strlit("<channel|>");
    reveal_strlit("<|channel>thought\n");
    reveal_strlit("<|channel>thought\r\n");
    reveal_strlit("<|tool_call>");
    reveal_strlit("<tool_call|>");
    reveal_strlit("<|\"|>");
    reveal_strlit("thought\n");
    assert(LABELLED_START@ =~= CHANNEL_START@ + THOUGHT_PREFIX@);
}

/// There is a longest unfinished token at the end of `s`, or none.
pub proof fn lemma_unfinished_len(s: Seq<char>)
    ensures
        is_unfinished_len(s, unfinished_len(s)),
        0 <= unfinished_len(s) <= s.len(),
{
    lemma_unfinished_len_search(s, s.len() as int);
}

/// The longest unfinished token at the end of `s` of length up to `n`.
proof fn lemma_unfinished_len_search(s: Seq<char>, n: int)
    requires
        0 <= n <= s.len(),
        forall|k: int| ends_in_unfinished(s, k) ==> k <= n,
    ensures
        is_unfinished_len(s, unfinished_len(s)),
        0 <= unfinished_len(s) <= s.len(),
    decreases n,
{
    if n == 0 || ends_in_unfinished(s, n) {
        assert(is_unfinished_len(s, n));
        lemma_unfinished_len_is(s, n);
    } else {
        lemma_unfinished_len_search(s, n - 1);
    }
}

/// The unfinished token that is cut from the end of `s` starts with `<`.
proof fn lemma_cut_starts_with_marker(s: Seq<char>)
    requires
        unfinished_len(s) > 0,
    ensures
        s[s.len() - unfinished_len(s)] == '<',
{
    lemma_unfinished_len(s);
    lemma_markers();
    let n = unfinished_len(s);
    let t = choose|t: int|
        0 <= t < streamed_tokens().len() && #[trigger] ends_in_start_of(s, streamed_tokens()[t], n);
    let tok = streamed_tokens()[t];
    assert(ends_in_start_of(s, tok, n));
    assert(s.skip(s.len() - n)[0] == tok.take(n)[0]);
}

/// More text never takes back what was safe: the safe part of a text is a
/// prefix of the safe part of every text that extends it.
pub proof fn law_safe_text_grows(s: Seq<char>, more: Seq<char>)
    ensures
        safe_text(s).is_prefix_of(s),
        safe_text(s).is_prefix_of(safe_text(s + more)),
{
    lemma_unfinished_len(s);
    lemma_unfinished_len(s + more);
    let whole = s + more;
    let n = unfinished_len(whole);
    let start = whole.len() - n;
    if start < s.len() && n > 0 {
        let t = choose|t: int|
            0 <= t < streamed_tokens().len() && #[trigger] ends_in_start_of(
                whole,
                streamed_tokens()[t],
                n,
            );
        let tok = streamed_tokens()[t];
        let k = s.len() - start;
        assert forall|j: int| 0 <= j < k implies s.skip(start)[j] == tok.take(k)[j] by {
            assert(whole.skip(start)[j] == tok.take(n)[j]);
        }
        assert(s.skip(start) =~= tok.take(k));
        assert(ends_in_start_of(s, tok, k));
        assert(ends_in_unfinished(s, k));
    }
    assert(safe_text(s) =~= safe_text(whole).take(safe_text(s).len() as int));
}

/// A text that ends in a complete control token is safe as a whole. The one
/// exception is the opening of a channel, which its label may still follow.
pub proof fn law_complete_token_is_safe(s: Seq<char>, tok: Seq<char>)
    requires
        streamed_tokens().contains(tok),
        tok != CHANNEL_START@,
        tok.is_suffix_of(s),
    ensures
        safe_text(s) == s,
{
    lemma_unfinished_len(s);
    lemma_markers();
    let n = unfinished_len(s);
    if n > 0 {
        let t = choose|t: int|
            0 <= t < streamed_tokens().len() && #[trigger] ends_in_start_of(
                s,
                streamed_tokens()[t],
                n,
            );
        let other = streamed_tokens()[t];
        lemma_cut_starts_with_marker(s);
        let m = tok.len() as int;
        assert(s.skip(s.len() - n) == other.take(n));
        if n < m {
            assert(s[s.len() - n] == tok[m - n]);
        } else if n > m {
            assert(other.take(n)[n - m] == s.skip(s.len() - n)[n - m]);
            assert(s[s.len() - m] == tok[0]);
        } else {
            assert(s.skip(s.len() - n) =~= tok);
            lemma_no_token_starts_another(tok, other);
        }
    }
    assert(s.take(s.len() as int) =~= s);
}

/// No token but the opening of a channel is the start of another.
proof fn lemma_no_token_starts_another(tok: Seq<char>, other: Seq<char>)
    requires
        streamed_tokens().contains(tok),
        streamed_tokens().contains(other),
        tok != CHANNEL_START@,
        tok.len() < other.len(),
    ensures
        other.take(tok.len() as int) != tok,
{
    reveal_strlit("<|channel>");
    reveal_strlit("<channel|>");
    reveal_strlit("<|channel>thought\n");
    reveal_strlit("<|channel>thought\r\n");
    reveal_strlit("<|tool_call>");
    reveal_strlit("<tool_call|>");
    reveal_strlit("<|\"|>");
    if other.take(tok.len() as int) == tok {
        let n = tok.len() as int;
        assert(other.take(n)[2] == tok[2]);
        assert(other.take(n)[1] == tok[1]);
        assert(tok.len() == 18 ==> other.take(n)[17] == tok[17]);
    }
}

/// A control token that starts in the safe part of a text ends in it, whatever
/// text follows.
proof fn lemma_no_straddle(s: Seq<char>, more: Seq<char>, tok: Seq<char>, p: int)
    requires
        streamed_tokens().contains(tok),
        text::occurs_at(safe_text(s + more), tok, p),
        p < safe_text(s).len(),
    ensures
        p + tok.len() <= safe_text(s).len(),
        text::occurs_at(safe_text(s), tok, p),
{
    lemma_unfinished_len(s);
    lemma_unfinished_len(s + more);
    lemma_markers();
    law_safe_text_grows(s, more);
    let whole = s + more;
    let safe = safe_text(s).len() as int;
    let t = streamed_tokens().index_of(tok);
    assert(streamed_tokens()[t] == tok);
    assert forall|j: int| 0 <= j < tok.len() implies whole[p + j] == tok[j] by {
        assert(safe_text(whole).subrange(p, p + tok.len())[j] == tok[j]);
    }
    if p + tok.len() > s.len() {
        let k = s.len() - p;
        assert(s.skip(p) =~= tok.take(k));
        assert(ends_in_start_of(s, streamed_tokens()[t], k));
        assert(ends_in_unfinished(s, k));
    } else if p + tok.len() > safe {
        lemma_cut_starts_with_marker(s);
        assert(whole[p + (safe - p)] == tok[safe - p]);
    }
    assert(safe_text(s).subrange(p, p + tok.len()) =~= tok);
}

/// The first position of a token in a safe text is its first in every longer one.
proof fn lemma_first_is_stable(s: Seq<char>, more: Seq<char>, tok: Seq<char>, from: int)
    requires
        streamed_tokens().contains(tok),
        0 <= from <= safe_text(s).len(),
    ensures
        ({
            let a = text::first(safe_text(s).skip(from), tok);
            let b = text::first(safe_text(s + more).skip(from), tok);
            &&& a is Some ==> b == a
            &&& a is None && b is Some ==> b->0 >= safe_text(s).len() - from
        }),
{
    let a = safe_text(s);
    let b = safe_text(s + more);
    law_safe_text_grows(s, more);
    text::lemma_first(a.skip(from), tok);
    text::lemma_first(b.skip(from), tok);
    assert forall|j: int| text::occurs_at(b.skip(from), tok, j) && from + j < a.len() implies
        text::occurs_at(a.skip(from), tok, j) by {
        assert(b.skip(from).subrange(j, j + tok.len()) =~= b.subrange(
            from + j,
            from + j + tok.len(),
        ));
        assert(text::occurs_at(b, tok, from + j));
        lemma_no_straddle(s, more, tok, from + j);
        assert(a.skip(from).subrange(j, j + tok.len()) =~= a.subrange(
            from + j,
            from + j + tok.len(),
        ));
    }
    match text::first(a.skip(from), tok) {
        Some(i) => {
            assert(a.skip(from).subrange(i, i + tok.len()) =~= b.skip(from).subrange(
                i,
                i + tok.len(),
            ));
            assert(text::occurs_at(b.skip(from), tok, i));
            lemma_markers();
            assert(tok.len() > 0);
            assert(text::is_first(b.skip(from), tok, i));
            text::lemma_first_is(b.skip(from), tok, i);
        },
        None => {
            assert(forall|j: int| !text::occurs_at(a.skip(from), tok, j));
        },
    }
}

/// The reasoning found in a text, empty where there is none.
pub open spec fn reasoning_of(s: Seq<char>) -> Seq<char> {
    text::or_empty(split_output(s).reasoning)
}

/// Whether the label follows the channel that opens at `i` does not change with
/// more text.
proof fn lemma_body_is_stable(s: Seq<char>, more: Seq<char>, i: int)
    requires
        text::occurs_at(safe_text(s), CHANNEL_START@, i),
    ensures
        exists|from: int|
            #![trigger safe_text(s).skip(from)]
            0 <= from <= safe_text(s).len() && channel_body(safe_text(s), i) == safe_text(s).skip(
                from,
            ) && channel_body(safe_text(s + more), i) == safe_text(s + more).skip(from),
{
    lemma_markers();
    law_safe_text_grows(s, more);
    let a = safe_text(s);
    let b = safe_text(s + more);
    let open = i + CHANNEL_START@.len();
    let label = THOUGHT_PREFIX@;
    if label.is_prefix_of(b.skip(open)) {
        assert(b.subrange(i, i + LABELLED_START@.len()) =~= LABELLED_START@) by {
            assert(b.subrange(i, open) =~= a.subrange(i, open));
            assert forall|j: int| 0 <= j < 18 implies b[i + j] == LABELLED_START@[j] by {
                if j < 10 {
                    assert(b.subrange(i, open)[j] == CHANNEL_START@[j]);
                } else {
                    assert(b.skip(open)[j - 10] == label[j - 10]);
                }
            }
        }
        assert(streamed_tokens()[2] == LABELLED_START@);
        assert(text::occurs_at(b, LABELLED_START@, i));
        lemma_no_straddle(s, more, LABELLED_START@, i);
        assert(a.skip(open).take(8) =~= b.skip(open).take(8));
        assert(label.is_prefix_of(a.skip(open)));
        assert(a.skip(open).skip(8) =~= a.skip(open + 8));
        assert(b.skip(open).skip(8) =~= b.skip(open + 8));
        let from = open + 8;
        assert(channel_body(a, i) == a.skip(from));
    } else {
        if label.is_prefix_of(a.skip(open)) {
            assert(b.skip(open).take(8) =~= a.skip(open).take(8));
        }
        let from = open;
        assert(channel_body(a, i) == a.skip(from));
    }
}

/// Reasoning only grows: the reasoning of the safe part of a text is a prefix of
/// that of every text that extends it.
#[verifier::rlimit(40)]
#[verifier::spinoff_prover]
pub proof fn law_reasoning_grows(s: Seq<char>, more: Seq<char>)
    ensures
        reasoning_of(safe_text(s)).is_prefix_of(reasoning_of(safe_text(s + more))),
{
    lemma_markers();
    law_safe_text_grows(s, more);
    let a = safe_text(s);
    let b = safe_text(s + more);
    let toks = streamed_tokens();
    assert(toks[0] == CHANNEL_START@);
    assert(toks[1] == CHANNEL_END@);
    assert(toks[4] == TOOL_CALL_START@);
    text::lemma_first(a, CHANNEL_START@);
    match text::first(a, CHANNEL_START@) {
        None => {
            assert(reasoning_of(a) =~= reasoning_of(b).take(0));
        },
        Some(i) => {
            assert(a.skip(0) =~= a);
            assert(b.skip(0) =~= b);
            lemma_first_is_stable(s, more, CHANNEL_START@, 0);
            lemma_body_is_stable(s, more, i);
            let from = choose|from: int|
                #![trigger a.skip(from)]
                0 <= from <= a.len() && channel_body(a, i) == a.skip(from) && channel_body(b, i)
                    == b.skip(from);
            let x = a.skip(from);
            let y = b.skip(from);
            assert(x =~= y.take(x.len() as int));
            lemma_first_is_stable(s, more, CHANNEL_END@, from);
            lemma_first_is_stable(s, more, TOOL_CALL_START@, from);
            text::lemma_first(x, CHANNEL_END@);
            text::lemma_first(y, CHANNEL_END@);
            text::lemma_first(x, TOOL_CALL_START@);
            text::lemma_first(y, TOOL_CALL_START@);
            let xe = reasoning_end(x);
            let ye = reasoning_end(y);
            lemma_reasoning_of(a, i);
            lemma_reasoning_of(b, i);
            assert(xe <= ye);
            assert(x.take(xe) =~= y.take(ye).take(xe));
            text::lemma_trim_grows(x.take(xe), y.take(ye));
        },
    }
}

/// Where the reasoning in the body of a channel ends.
spec fn reasoning_end(body: Seq<char>) -> int {
    match text::first(body, CHANNEL_END@) {
        Some(e) => e,
        None => match text::first(body, TOOL_CALL_START@) {
            Some(t) => t,
            None => body.len() as int,
        },
    }
}

/// The reasoning of a text in which a channel opens at `i`.
proof fn lemma_reasoning_of(s: Seq<char>, i: int)
    requires
        text::first(s, CHANNEL_START@) == Some(i),
    ensures
        reasoning_of(s) == text::trim(
            channel_body(s, i).take(reasoning_end(channel_body(s, i))),
        ),
{
    let body = channel_body(s, i);
    assert(body.take(body.len() as int) =~= body);
    let r = text::trim(body.take(reasoning_end(body)));
    if r.len() == 0 {
        assert(r =~= Seq::<char>::empty());
    }
}

/// The text of a sequence of chunks.
pub open spec fn joined(chunks: Seq<Seq<char>>) -> Seq<char>
    decreases chunks.len(),
{
    if chunks.len() == 0 {
        Seq::empty()
    } else {
        joined(chunks.drop_last()) + chunks.last()
    }
}

/// The stream of a new parser after a sequence of chunks.
pub open spec fn stream_after(chunks: Seq<Seq<char>>) -> Stream
    decreases chunks.len(),
{
    if chunks.len() == 0 {
        fresh()
    } else {
        after_chunk(stream_after(chunks.drop_last()), chunks.last())
    }
}

/// All that a new parser yields for a sequence of chunks, end to end.
pub open spec fn yielded(chunks: Seq<Seq<char>>) -> Parsed
    decreases chunks.len(),
{
    if chunks.len() == 0 {
        nothing()
    } else {
        let before = yielded(chunks.drop_last());
        let r = chunk_result(stream_after(chunks.drop_last()), chunks.last());
        Parsed { normal: before.normal + r.normal, reasoning: before.reasoning + r.reasoning }
    }
}

/// A parser remembers exactly the text of its chunks.
pub proof fn law_stream_receives_all(chunks: Seq<Seq<char>>)
    ensures
        stream_after(chunks).received == joined(chunks),
    decreases chunks.len(),
{
    if chunks.len() > 0 {
        law_stream_receives_all(chunks.drop_last());
    }
}

/// However an output is cut into chunks, the reasoning that the chunks yield,
/// end to end, is the reasoning of the safe part of the whole output.
pub proof fn law_reasoning_stream(chunks: Seq<Seq<char>>)
    ensures
        yielded(chunks).reasoning == reasoning_of(safe_text(joined(chunks))),
    decreases chunks.len(),
{
    if chunks.len() == 0 {
        lemma_unfinished_len(Seq::<char>::empty());
        assert(safe_text(Seq::<char>::empty()) =~= Seq::<char>::empty());
        lemma_markers();
        text::lemma_first(Seq::<char>::empty(), CHANNEL_START@);
    } else {
        let before = chunks.drop_last();
        let chunk = chunks.last();
        law_reasoning_stream(before);
        law_stream_receives_all(before);
        law_reasoning_grows(joined(before), chunk);
        let a = reasoning_of(safe_text(joined(before)));
        let b = reasoning_of(safe_text(joined(chunks)));
        assert(b =~= a + b.skip(a.len() as int));
        assert(a + Seq::<char>::empty() =~= a);
    }
}

/// A first chunk that leaves no channel open and no token unfinished yields what
/// parsing it as a whole output does.
pub proof fn law_single_chunk(chunk: Seq<char>)
    requires
        safe_text(chunk) == chunk,
        !in_open_channel(chunk),
    ensures
        chunk_result(fresh(), chunk) == parsed(split_output(chunk)),
{
    let empty = Seq::<char>::empty();
    lemma_unfinished_len(empty);
    assert(safe_text(empty) =~= empty);
    assert(empty + chunk =~= chunk);
    lemma_markers();
    text::lemma_first(empty, CHANNEL_START@);
    let r = chunk_result(fresh(), chunk);
    let whole = parsed(split_output(chunk));
    assert(whole.normal.skip(0) =~= whole.normal);
    assert(whole.reasoning.skip(0) =~= whole.reasoning);
    assert(r =~= whole);
}

/// Nothing is shown of a text while its first channel is open.
pub proof fn law_no_content_in_open_channel(st: Stream, chunk: Seq<char>)
    requires
        in_open_channel(st.received + chunk),
    ensures
        chunk_result(st, chunk).normal.len() == 0,
        after_chunk(st, chunk).emitted == st.emitted,
{
}

/// What was emitted is not emitted again where the content of a new snapshot
/// starts with it: a chunk adds the rest. Otherwise, where text before the channel
/// is part of the content, a chunk adds what follows it but for white space and
/// leaks, or nothing where the content is a part of it, or only text that was not
/// received before, from after the first channel.
pub proof fn law_content_not_repeated(st: Stream, chunk: Seq<char>, full: Seq<char>)
    requires
        safe_text(st.received + chunk) != safe_text(st.received),
        !in_open_channel(st.received + chunk),
        split_output(safe_text(st.received + chunk)).content == Some(full),
        st.emitted.len() > 0,
    ensures
        st.emitted.is_prefix_of(full) ==> st.emitted + chunk_result(st, chunk).normal == full
            && after_chunk(st, chunk).emitted == full,
        may_repeat(st.emitted, full, safe_text(st.received + chunk)) ==> match emitted_form(
            st.emitted,
            full,
        ) {
            Some(form) => {
                &&& form.is_prefix_of(full) ==> form + chunk_result(st, chunk).normal == full
                &&& !form.is_prefix_of(full) ==> full.is_prefix_of(form) && chunk_result(
                    st,
                    chunk,
                ).normal.len() == 0
            },
            None => {
                let new = new_text(st.received, chunk);
                &&& chunk_result(st, chunk).normal == new_content(full, new)
                &&& after_chunk(st, chunk).emitted == full
                &&& new.is_suffix_of(safe_text(st.received + chunk))
                &&& new.len() <= safe_text(st.received + chunk).len() - safe_text(st.received).len()
                &&& new.len() <= safe_text(st.received + chunk).len() - channel_close(
                    safe_text(st.received + chunk),
                )
            },
        },
{
    let safe = safe_text(st.received + chunk);
    law_safe_text_grows(st.received, chunk);
    if st.emitted.is_prefix_of(full) {
        assert(st.emitted + full.skip(st.emitted.len() as int) =~= full);
        if full.skip(st.emitted.len() as int).len() == 0 {
            assert(full =~= st.emitted);
        }
    }
    match emitted_form(st.emitted, full) {
        Some(form) => {
            if form.is_prefix_of(full) {
                assert(form + full.skip(form.len() as int) =~= full);
            } else {
                assert(full.is_prefix_of(form));
                if form.len() <= full.len() {
                    assert(form =~= full.take(form.len() as int));
                }
            }
        },
        None => {
            lemma_markers();
            text::lemma_first(safe, CHANNEL_START@);
            if let Some(i) = text::first(safe, CHANNEL_START@) {
                text::lemma_first(safe.skip(i + 10), CHANNEL_END@);
            }
            let new = new_text(st.received, chunk);
            assert(new =~= safe.skip(safe.len() - new.len()));
        },
    }
}

/// An output without a channel passes through: its chunks yield its safe part
/// as content, end to end, and no reasoning.
pub proof fn law_plain_stream(chunks: Seq<Seq<char>>)
    requires
        !text::contains(joined(chunks), CHANNEL_START@),
    ensures
        yielded(chunks).normal == safe_text(joined(chunks)),
        yielded(chunks).reasoning.len() == 0,
        stream_after(chunks).emitted == safe_text(joined(chunks)),
    decreases chunks.len(),
{
    lemma_markers();
    if chunks.len() == 0 {
        lemma_unfinished_len(Seq::<char>::empty());
        assert(safe_text(Seq::<char>::empty()) =~= Seq::<char>::empty());
    } else {
        let before = chunks.drop_last();
        let chunk = chunks.last();
        let a = joined(before);
        let b = joined(chunks);
        assert forall|j: int| !text::occurs_at(a, CHANNEL_START@, j) by {
            if text::occurs_at(a, CHANNEL_START@, j) {
                assert(b.subrange(j, j + CHANNEL_START@.len()) =~= a.subrange(
                    j,
                    j + CHANNEL_START@.len(),
                ));
                assert(text::occurs_at(b, CHANNEL_START@, j));
            }
        }
        assert(!text::contains(a, CHANNEL_START@));
        law_plain_stream(before);
        law_stream_receives_all(before);
        law_safe_text_grows(a, chunk);
        lemma_no_channel_in_safe(a);
        lemma_no_channel_in_safe(b);
        let x = safe_text(a);
        let y = safe_text(b);
        assert(y =~= x + y.skip(x.len() as int));
        assert(x + Seq::<char>::empty() =~= x);
        assert(y.skip(0) =~= y);
        assert(text::or_empty(text::non_empty(y)) =~= y);
    }
}

/// The safe part of a text without a channel has none.
proof fn lemma_no_channel_in_safe(s: Seq<char>)
    requires
        !text::contains(s, CHANNEL_START@),
    ensures
        !text::contains(safe_text(s), CHANNEL_START@),
{
    lemma_unfinished_len(s);
    let a = safe_text(s);
    if text::contains(a, CHANNEL_START@) {
        let j = choose|j: int| text::occurs_at(a, CHANNEL_START@, j);
        assert(s.subrange(j, j + CHANNEL_START@.len()) =~= a.subrange(
            j,
            j + CHANNEL_START@.len(),
        ));
        assert(text::occurs_at(s, CHANNEL_START@, j));
    }
}

/// `open` opens a channel with a label, or without one where no label follows.
pub open spec fn opens(open: Seq<char>, reasoning: Seq<char>) -> bool {
    ||| open == LABELLED_START@
    ||| open == CHANNEL_START@ && !THOUGHT_PREFIX@.is_prefix_of(reasoning)
}

/// The body of the first channel of an output.
proof fn lemma_output_body(
    before: Seq<char>,
    open: Seq<char>,
    reasoning: Seq<char>,
    answer: Seq<char>,
)
    requires
        !text::contains(before, CHANNEL_START@),
        opens(open, reasoning),
    ensures
        ({
            let s = before + open + reasoning + CHANNEL_END@ + answer;
            &&& text::first(s, CHANNEL_START@) == Some(before.len() as int)
            &&& channel_body(s, before.len() as int) == reasoning + CHANNEL_END@ + answer
            &&& channel_body(s, before.len() as int) == s.skip((before.len() + open.len()) as int)
        }),
{
    lemma_markers();
    reveal_strlit("thought\n");
    let s = before + open + reasoning + CHANNEL_END@ + answer;
    let rest = reasoning + CHANNEL_END@ + answer;
    let n = before.len() as int;
    let label = THOUGHT_PREFIX@;
    if open == LABELLED_START@ {
        assert(s =~= before + CHANNEL_START@ + (label + rest));
        text::lemma_first_after(before, CHANNEL_START@, label + rest);
        assert(s.skip(n + 10) =~= label + rest);
        assert((label + rest).take(8) =~= label);
        assert((label + rest).skip(8) =~= rest);
    } else {
        assert(s =~= before + CHANNEL_START@ + rest);
        text::lemma_first_after(before, CHANNEL_START@, rest);
        assert(s.skip(n + 10) =~= rest);
        if label.is_prefix_of(rest) {
            if reasoning.len() >= 8 {
                assert(reasoning.take(8) =~= rest.take(8));
            } else {
                let k = reasoning.len() as int;
                assert(rest[k] == CHANNEL_END@[0]);
                assert(label[k] == rest.take(8)[k]);
            }
        }
    }
    assert(s.skip(n + open.len()) =~= rest);
}

/// An output with a closed channel splits into the reasoning in the channel and
/// the text around it: nothing but white space at the ends of the reasoning is
/// lost, and the content waits until an answer follows.
pub proof fn law_closed_channel(
    before: Seq<char>,
    open: Seq<char>,
    reasoning: Seq<char>,
    answer: Seq<char>,
)
    requires
        !text::contains(before, CHANNEL_START@),
        !text::contains(reasoning, CHANNEL_END@),
        opens(open, reasoning),
    ensures
        split_output(before + open + reasoning + CHANNEL_END@ + answer) == (Snapshot {
            reasoning: Some(text::trim(reasoning)),
            content: if answer.len() == 0 {
                None
            } else {
                shown_around(before + answer)
            },
        }),
{
    lemma_markers();
    lemma_output_body(before, open, reasoning, answer);
    let s = before + open + reasoning + CHANNEL_END@ + answer;
    let body = reasoning + CHANNEL_END@ + answer;
    text::lemma_first_after(reasoning, CHANNEL_END@, answer);
    assert(body.take(reasoning.len() as int) =~= reasoning);
    assert(body.skip((reasoning.len() + 10) as int) =~= answer);
    assert(s.take(before.len() as int) =~= before);
}

/// No part of `s` that a stream may have shown holds markup or may leak.
pub open spec fn is_plain(s: Seq<char>) -> bool {
    forall|n: int|
        0 <= n <= s.len() ==> !has_markup(#[trigger] text::trim(s.take(n))) && !may_leak(
            text::trim(s.take(n)),
        )
}

/// Plain text is shown as it is, without the white space at its ends.
pub proof fn law_plain_answer(answer: Seq<char>)
    requires
        is_plain(answer),
    ensures
        shown_around(answer) == text::non_empty(text::trim(answer)),
{
    assert(answer.take(answer.len() as int) =~= answer);
    let q = text::trim(answer);
    assert(!has_markup(q) && !may_leak(q));
    text::lemma_trim_end_of_trim(answer);
    assert(clean(q) == q);
}

/// The output of a model that reasons in a channel and answers around it.
pub open spec fn output(
    before: Seq<char>,
    open: Seq<char>,
    reasoning: Seq<char>,
    answer: Seq<char>,
) -> Seq<char> {
    before + open + reasoning + CHANNEL_END@ + answer
}

/// Where the channel of such an output ends.
spec fn close_of(before: Seq<char>, open: Seq<char>, reasoning: Seq<char>) -> int {
    (before.len() + open.len() + reasoning.len() + 10) as int
}

/// The content of a part `s` of an output whose channel ends at `close`, where it
/// is closed.
spec fn part_content(s: Seq<char>, before: Seq<char>, close: int) -> Option<Seq<char>> {
    if safe_text(s).len() > close {
        shown_around(before + safe_text(s).skip(close))
    } else {
        None
    }
}

/// What is shown of the text around a channel only grows as its answer does, and
/// goes on from the text before the channel, which is shown by itself too unless
/// it is blank.
pub open spec fn shown_grows(before: Seq<char>, answer: Seq<char>) -> bool {
    &&& shown_around(before) is Some || text::trim(before).len() == 0
    &&& forall|n: int, m: int|
        #![trigger answer.take(n), answer.take(m)]
        0 < n <= m <= answer.len() && shown_around(before + answer.take(n)) is Some && shown_around(
            before + answer.take(m),
        ) is Some ==> shown_around(before + answer.take(n))->0.is_prefix_of(
            shown_around(before + answer.take(m))->0,
        )
    &&& forall|n: int, k: int|
        #![trigger answer.take(n), before.take(k)]
        0 < n <= answer.len() && 0 <= k <= before.len() && shown_around(before + answer.take(n))
            is Some ==> {
            let shown = shown_around(before + answer.take(n))->0;
            &&& agrees(text::trim_start(before.take(k)), shown)
            &&& text::trim(before.take(k)).is_prefix_of(shown)
        }
}

/// Every start of `s` is shown as it is, without the white space at its ends.
pub open spec fn shown_as_is(s: Seq<char>) -> bool {
    forall|n: int|
        0 <= n <= s.len() ==> shown_around(#[trigger] s.take(n)) == text::non_empty(
            text::trim(s.take(n)),
        )
}

/// What is shown of text that is shown as it is only grows.
pub proof fn law_unchanged_text_grows(before: Seq<char>, answer: Seq<char>)
    requires
        shown_as_is(before + answer),
    ensures
        shown_grows(before, answer),
{
    let w = before + answer;
    let b = before.len() as int;
    assert(w.take(b) =~= before);
    assert forall|n: int| 0 <= n <= answer.len() implies w.take(b + n) == before
        + #[trigger] answer.take(n) by {
        assert(w.take(b + n) =~= before + answer.take(n));
    }
    assert forall|n: int, m: int|
        #![trigger answer.take(n), answer.take(m)]
        0 < n <= m <= answer.len() && shown_around(before + answer.take(n)) is Some && shown_around(
            before + answer.take(m),
        ) is Some implies shown_around(before + answer.take(n))->0.is_prefix_of(
        shown_around(before + answer.take(m))->0,
    ) by {
        assert(w.take(b + n) =~= w.take(b + m).take(b + n));
        text::lemma_trim_grows(w.take(b + n), w.take(b + m));
    }
    assert forall|n: int, k: int|
        #![trigger answer.take(n), before.take(k)]
        0 < n <= answer.len() && 0 <= k <= before.len() && shown_around(before + answer.take(n))
            is Some implies ({
        let shown = shown_around(before + answer.take(n))->0;
        &&& agrees(text::trim_start(before.take(k)), shown)
        &&& text::trim(before.take(k)).is_prefix_of(shown)
    }) by {
        let v = w.take(b + n);
        let e = before.take(k);
        assert(e =~= v.take(k));
        text::lemma_trim_grows(e, v);
        lemma_trims_agree(e, v);
    }
}

/// The starts of a text agree without white space.
proof fn lemma_trims_agree(e: Seq<char>, w: Seq<char>)
    requires
        e.is_prefix_of(w),
    ensures
        agrees(text::trim_start(e), text::trim(w)),
{
    let u = text::trim_start(w);
    let q = text::trim_start(e);
    let full = text::trim(w);
    text::lemma_trim_start_grows(e, w);
    text::lemma_trim_end_prefix(u);
    if q.len() == 0 {
        assert(q =~= full.take(0));
    } else if q.len() <= full.len() {
        assert(q =~= full.take(q.len() as int)) by {
            assert forall|j: int| 0 <= j < q.len() implies q[j] == full[j] by {
                assert(q[j] == u.take(q.len() as int)[j]);
                assert(full[j] == u.take(full.len() as int)[j]);
            }
        }
    } else {
        assert(full =~= q.take(full.len() as int)) by {
            assert forall|j: int| 0 <= j < full.len() implies q[j] == full[j] by {
                assert(q[j] == u.take(q.len() as int)[j]);
                assert(full[j] == u.take(full.len() as int)[j]);
            }
        }
    }
}

/// Plain text is shown as it is.
pub proof fn law_plain_text_as_is(s: Seq<char>)
    requires
        is_plain(s),
    ensures
        shown_as_is(s),
{
    assert forall|n: int| 0 <= n <= s.len() implies shown_around(#[trigger] s.take(n))
        == text::non_empty(text::trim(s.take(n))) by {
        let u = s.take(n);
        assert(is_plain(u)) by {
            assert forall|k: int| 0 <= k <= u.len() implies !has_markup(
                #[trigger] text::trim(u.take(k)),
            ) && !may_leak(text::trim(u.take(k))) by {
                assert(u.take(k) =~= s.take(k));
            }
        }
        law_plain_answer(u);
    }
}

/// A tool call after plain text is shown as it is, with the text before it.
pub proof fn law_call_after_text_as_is(plain: Seq<char>, rest: Seq<char>)
    requires
        is_plain(plain + TOOL_CALL_START@.drop_last()),
    ensures
        shown_as_is(plain + TOOL_CALL_START@ + rest),
{
    reveal_strlit("<|tool_call>");
    let tok = TOOL_CALL_START@;
    let front = plain + tok.drop_last();
    let s = plain + tok + rest;
    let p = plain.len() as int;
    law_plain_text_as_is(front);
    assert forall|n: int| 0 <= n <= s.len() implies shown_around(#[trigger] s.take(n))
        == text::non_empty(text::trim(s.take(n))) by {
        let u = s.take(n);
        if n <= front.len() {
            assert(u =~= front.take(n));
        } else {
            assert(u.subrange(p, p + tok.len()) =~= tok);
            assert(text::occurs_at(u, tok, p));
            lemma_trim_keeps_token(u, tok);
        }
    }
}

/// Trimming keeps a token without white space at its ends.
pub proof fn lemma_trim_keeps_token(s: Seq<char>, tok: Seq<char>)
    requires
        tok.len() > 0,
        !text::is_white_space(tok[0]),
        !text::is_white_space(tok.last()),
        text::contains(s, tok),
    ensures
        text::contains(text::trim(s), tok),
{
    let i = choose|i: int| text::occurs_at(s, tok, i);
    let u = text::trim_start(s);
    let n = tok.len() as int;
    text::lemma_trim_start_suffix(s);
    text::lemma_trimmed_is_blank(s);
    let a = s.len() - u.len();
    assert(s.subrange(i, i + n)[0] == s[i]);
    assert(s.subrange(i, i + n)[n - 1] == s[i + n - 1]);
    if i < a {
        lemma_blank_has_only_space(s.take(a), i);
    }
    let front = u.take(i - a + n);
    assert(front.last() == s[i + n - 1]);
    assert(front =~= u.take(front.len() as int));
    lemma_trim_end_reaches(u, front);
    text::lemma_trim_end_prefix(u);
    let t = text::trim(s);
    assert(t.subrange(i - a, i - a + n) =~= tok) by {
        assert(t =~= u.take(t.len() as int));
        assert forall|j: int| 0 <= j < n implies t[i - a + j] == tok[j] by {
            assert(s.subrange(i, i + n)[j] == tok[j]);
            assert(u[i - a + j] == s[i + j]);
        }
    }
    assert(text::occurs_at(t, tok, i - a));
}

/// Blank text is white space throughout.
proof fn lemma_blank_has_only_space(s: Seq<char>, i: int)
    requires
        text::trim_start(s).len() == 0,
        0 <= i < s.len(),
    ensures
        text::is_white_space(s[i]),
    decreases s.len(),
{
    if i > 0 {
        lemma_blank_has_only_space(s.skip(1), i - 1);
    }
}

/// What is shown has no white space at its ends.
proof fn lemma_shown_is_trimmed(s: Seq<char>)
    ensures
        shown_around(s) matches Some(c) ==> c.len() > 0 && text::trim_start(c) == c && text::trim(c)
            == c,
{
    let w = text::trim(s);
    text::lemma_trim_twice(s);
    if w.len() > 0 && !has_markup(w) {
        let d = strip_leaks(w);
        if may_leak(w) {
            text::lemma_trim_twice(strip_echoes(drop_channels(w)));
        }
        assert(text::trim_start(d) == d);
        let c = before_markup(d);
        law_markup_splits(d);
        text::lemma_trim_end_prefix(d);
        if let Some(i) = markup_start(d) {
            text::lemma_trim_end_prefix(d.take(i));
        }
        if c.len() > 0 {
            assert(c[0] == d.take(c.len() as int)[0]);
            text::lemma_trim_start_suffix(d);
            assert(text::trim_start(c) == c);
            assert(!text::is_white_space(c.last()));
            assert(text::trim_end(c) == c);
        }
    }
}

/// Once the channel is closed, the text up to its end is safe.
proof fn lemma_closed_is_safe(
    s: Seq<char>,
    more: Seq<char>,
    before: Seq<char>,
    open: Seq<char>,
    reasoning: Seq<char>,
    answer: Seq<char>,
)
    requires
        s + more == output(before, open, reasoning, answer),
        s.len() >= close_of(before, open, reasoning),
    ensures
        safe_text(s).len() >= close_of(before, open, reasoning),
{
    lemma_markers();
    lemma_unfinished_len(s);
    let close = close_of(before, open, reasoning);
    let p = safe_text(s).len() as int;
    let n = unfinished_len(s);
    if p < close {
        lemma_cut_starts_with_marker(s);
        let t = choose|t: int|
            0 <= t < streamed_tokens().len() && #[trigger] ends_in_start_of(
                s,
                streamed_tokens()[t],
                n,
            );
        let tok = streamed_tokens()[t];
        let whole = s + more;
        assert forall|j: int| 0 <= j < 10 implies s[close - 10 + j] == CHANNEL_END@[j] by {
            assert(whole[close - 10 + j] == CHANNEL_END@[j]);
        }
        if p > close - 10 {
            assert(s[close - 10 + (p - (close - 10))] == CHANNEL_END@[p - (close - 10)]);
        } else if p < close - 10 {
            assert(s.skip(p)[close - 10 - p] == tok.take(n)[close - 10 - p]);
            assert(s[close - 10 + 0] == CHANNEL_END@[0]);
        } else {
            assert(CHANNEL_END@ =~= tok.take(10)) by {
                assert forall|j: int| 0 <= j < 10 implies CHANNEL_END@[j] == tok[j] by {
                    assert(s.skip(p)[j] == tok.take(n)[j]);
                }
            }
            assert(streamed_tokens()[1] == CHANNEL_END@);
            reveal_strlit("<|channel>");
            reveal_strlit("<channel|>");
            assert(CHANNEL_END@[1] != CHANNEL_START@[1]);
            lemma_no_token_starts_another(CHANNEL_END@, tok);
        }
    }
}

/// A part of an output with an opening channel has its first channel where the
/// output has it.
proof fn lemma_channel_of_part(
    s: Seq<char>,
    more: Seq<char>,
    before: Seq<char>,
    open: Seq<char>,
    reasoning: Seq<char>,
    answer: Seq<char>,
)
    requires
        s + more == output(before, open, reasoning, answer),
        opens(open, reasoning),
        !text::contains(before, CHANNEL_START@),
        text::contains(s, CHANNEL_START@) || s.len() >= before.len() + 10,
    ensures
        text::first(s, CHANNEL_START@) == Some(before.len() as int),
        s.len() >= before.len() + 10,
{
    lemma_markers();
    let whole = s + more;
    let n = before.len() as int;
    lemma_output_body(before, open, reasoning, answer);
    text::lemma_first(whole, CHANNEL_START@);
    assert forall|j: int| text::occurs_at(s, CHANNEL_START@, j) implies n <= j by {
        assert(whole.subrange(j, j + 10) =~= s.subrange(j, j + 10));
        assert(text::occurs_at(whole, CHANNEL_START@, j));
    }
    if text::contains(s, CHANNEL_START@) {
        let j = choose|j: int| text::occurs_at(s, CHANNEL_START@, j);
        assert(n <= j);
    }
    assert(s.subrange(n, n + 10) =~= whole.subrange(n, n + 10));
    assert(text::is_first(s, CHANNEL_START@, n));
    text::lemma_first_is(s, CHANNEL_START@, n);
}

/// A part of an output has its channel open unless the text up to its end is
/// safe.
proof fn lemma_open_until_closed(
    s: Seq<char>,
    more: Seq<char>,
    before: Seq<char>,
    open: Seq<char>,
    reasoning: Seq<char>,
    answer: Seq<char>,
)
    requires
        s + more == output(before, open, reasoning, answer),
        opens(open, reasoning),
        !text::contains(before, CHANNEL_START@),
        !text::contains(reasoning, CHANNEL_END@),
        text::contains(s, CHANNEL_START@),
        safe_text(s).len() < close_of(before, open, reasoning),
    ensures
        in_open_channel(s),
{
    lemma_markers();
    let whole = s + more;
    let n = before.len() as int;
    let close = close_of(before, open, reasoning);
    lemma_channel_of_part(s, more, before, open, reasoning, answer);
    let rest = s.skip(n + 10);
    if text::contains(rest, CHANNEL_END@) {
        let j = choose|j: int| text::occurs_at(rest, CHANNEL_END@, j);
        let q = n + 10 + j;
        let body = reasoning + CHANNEL_END@ + answer;
        let from = n + open.len();
        assert forall|k: int| 0 <= k < 10 implies whole[q + k] == CHANNEL_END@[k] by {
            assert(rest.subrange(j, j + 10)[k] == CHANNEL_END@[k]);
        }
        if q < from {
            assert(open == LABELLED_START@);
            assert(whole[q + 0] == LABELLED_START@[q - n]);
        } else {
            assert(whole.skip(from) =~= body);
            assert(body.subrange(q - from, q - from + 10) =~= CHANNEL_END@) by {
                assert forall|k: int| 0 <= k < 10 implies body[q - from + k] == CHANNEL_END@[k] by {
                    assert(whole.skip(from)[q - from + k] == whole[q + k]);
                }
            }
            assert(text::occurs_at(body, CHANNEL_END@, q - from));
            text::lemma_first_after(reasoning, CHANNEL_END@, answer);
            text::lemma_first(body, CHANNEL_END@);
            lemma_closed_is_safe(s, more, before, open, reasoning, answer);
        }
    }
}

/// What is safe of a part of an output before its channel opens comes before the
/// channel.
proof fn lemma_plain_until_open(
    s: Seq<char>,
    more: Seq<char>,
    before: Seq<char>,
    open: Seq<char>,
    reasoning: Seq<char>,
    answer: Seq<char>,
)
    requires
        s + more == output(before, open, reasoning, answer),
        opens(open, reasoning),
        !text::contains(before, CHANNEL_START@),
        !text::contains(s, CHANNEL_START@),
    ensures
        safe_text(s).is_prefix_of(before),
{
    lemma_markers();
    lemma_unfinished_len(s);
    let whole = s + more;
    let n = before.len() as int;
    if s.len() >= n + 10 {
        lemma_channel_of_part(s, more, before, open, reasoning, answer);
    }
    if s.len() > n {
        let k = s.len() - n;
        assert(streamed_tokens()[0] == CHANNEL_START@);
        assert(s.skip(n) =~= CHANNEL_START@.take(k)) by {
            assert forall|j: int| 0 <= j < k implies s[n + j] == CHANNEL_START@[j] by {
                assert(whole[n + j] == open[j]);
            }
        }
        assert(ends_in_start_of(s, streamed_tokens()[0], k));
        assert(ends_in_unfinished(s, k));
    }
    assert(safe_text(s) =~= before.take(safe_text(s).len() as int)) by {
        assert forall|j: int| 0 <= j < safe_text(s).len() implies safe_text(s)[j] == before[j] by {
            assert(whole[j] == s[j]);
        }
    }
}

/// The snapshot of a part of an output whose channel is closed.
proof fn lemma_closed_snapshot(
    s: Seq<char>,
    more: Seq<char>,
    before: Seq<char>,
    open: Seq<char>,
    reasoning: Seq<char>,
    answer: Seq<char>,
)
    requires
        s + more == output(before, open, reasoning, answer),
        opens(open, reasoning),
        !text::contains(before, CHANNEL_START@),
        !text::contains(reasoning, CHANNEL_END@),
        safe_text(s).len() >= close_of(before, open, reasoning),
    ensures
        split_output(safe_text(s)).content == part_content(
            s,
            before,
            close_of(before, open, reasoning),
        ),
        before_channel(safe_text(s)) == before,
        !in_open_channel(s),
        ({
            let part = safe_text(s).skip(close_of(before, open, reasoning));
            part == answer.take(part.len() as int) && part.len() <= answer.len()
        }),
{
    lemma_markers();
    lemma_unfinished_len(s);
    let whole = s + more;
    let n = before.len() as int;
    let close = close_of(before, open, reasoning);
    let a = safe_text(s);
    let part = a.skip(close);
    assert(a =~= output(before, open, reasoning, part)) by {
        assert forall|j: int| 0 <= j < a.len() implies a[j] == output(
            before,
            open,
            reasoning,
            part,
        )[j] by {
            assert(a[j] == whole[j]);
        }
    }
    law_closed_channel(before, open, reasoning, part);
    lemma_output_body(before, open, reasoning, part);
    assert(a.take(n) =~= before);
    assert(whole.skip(close) =~= answer);
    assert(part =~= answer.take(part.len() as int)) by {
        assert forall|j: int| 0 <= j < part.len() implies part[j] == answer[j] by {
            assert(a[close + j] == whole[close + j]);
            assert(whole.skip(close)[j] == answer[j]);
        }
    }
    lemma_channel_of_part(s, more, before, open, reasoning, answer);
    let at = close - 10 - (n + 10);
    assert(s.skip(n + 10).subrange(at, at + 10) =~= CHANNEL_END@) by {
        assert forall|k: int| 0 <= k < 10 implies s[close - 10 + k] == CHANNEL_END@[k] by {
            assert(whole[close - 10 + k] == CHANNEL_END@[k]);
        }
    }
    assert(text::occurs_at(s.skip(n + 10), CHANNEL_END@, at));
}

/// A chunk takes content for shown that an open channel has held back: its content
/// does not go on from what was emitted, and still it adds only what that content
/// adds to the last snapshot.
pub open spec fn withholds(st: Stream, chunk: Seq<char>) -> bool {
    let safe = safe_text(st.received + chunk);
    let full = split_output(safe).content->0;
    &&& !in_open_channel(st.received + chunk)
    &&& safe != safe_text(st.received)
    &&& split_output(safe).content is Some
    &&& st.emitted.len() == 0 || !st.emitted.is_prefix_of(full)
    &&& !may_repeat(st.emitted, full, safe)
    &&& compared_content(st.received, chunk) is Some
    &&& compared_content(st.received, chunk)->0.is_prefix_of(full)
}

/// None of `chunks` withholds content.
pub open spec fn nothing_withheld(chunks: Seq<Seq<char>>) -> bool
    decreases chunks.len(),
{
    chunks.len() == 0 || (nothing_withheld(chunks.drop_last()) && !withholds(
        stream_after(chunks.drop_last()),
        chunks.last(),
    ))
}

/// Nothing was yielded of an output but text before its channel, which reaches as
/// far as the content `now`, if any.
spec fn only_before(
    yielded: Seq<char>,
    emitted: Seq<char>,
    before: Seq<char>,
    now: Option<Seq<char>>,
) -> bool {
    &&& yielded == emitted
    &&& emitted.is_prefix_of(before)
    &&& now matches Some(c) ==> c.is_prefix_of(text::trim_start(emitted))
}

/// What was yielded of an output is what is shown of it with `n` characters of its
/// answer, after white space from before the channel. The content `now` is no
/// other, if there is any.
spec fn shown_with(
    yielded: Seq<char>,
    emitted: Seq<char>,
    before: Seq<char>,
    answer: Seq<char>,
    now: Option<Seq<char>>,
    n: int,
    k: int,
) -> bool {
    &&& 0 < n <= answer.len()
    &&& 0 <= k <= before.len()
    &&& shown_around(before + answer.take(n)) == Some(emitted)
    &&& text::trim_start(before.take(k)).len() == 0
    &&& yielded == before.take(k) + emitted
    &&& now matches Some(c) ==> c == emitted
}

/// How far an output with `len` characters of its answer has been shown.
spec fn shows(
    yielded: Seq<char>,
    emitted: Seq<char>,
    before: Seq<char>,
    answer: Seq<char>,
    now: Option<Seq<char>>,
    len: int,
) -> bool {
    ||| only_before(yielded, emitted, before, now)
    ||| exists|n: int, k: int|
        n <= len && #[trigger] shown_with(yielded, emitted, before, answer, now, n, k)
}

/// A chunk goes on from what was shown.
proof fn lemma_shown_goes_on(
    st: Stream,
    chunk: Seq<char>,
    yielded: Seq<char>,
    before: Seq<char>,
    answer: Seq<char>,
    now: Option<Seq<char>>,
    old_len: int,
    len: int,
)
    requires
        safe_text(st.received + chunk) != safe_text(st.received),
        !in_open_channel(st.received + chunk),
        before_channel(safe_text(st.received + chunk)) == before,
        old_len <= len,
        0 < len <= answer.len(),
        shown_around(before + answer.take(len)) is Some,
        split_output(safe_text(st.received + chunk)).content == shown_around(
            before + answer.take(len),
        ),
        shown_grows(before, answer),
        !withholds(st, chunk),
        shows(yielded, st.emitted, before, answer, now, old_len),
    ensures
        shows(
            yielded + chunk_result(st, chunk).normal,
            after_chunk(st, chunk).emitted,
            before,
            answer,
            shown_around(before + answer.take(len)),
            len,
        ),
{
    let full = shown_around(before + answer.take(len))->0;
    let e = st.emitted;
    let r = chunk_result(st, chunk).normal;
    let none = Seq::<char>::empty();
    let after = after_chunk(st, chunk).emitted;
    lemma_shown_is_trimmed(before + answer.take(len));
    if exists|n: int, k: int|
        n <= old_len && #[trigger] shown_with(yielded, e, before, answer, now, n, k) {
        let (n, k) = choose|n: int, k: int|
            n <= old_len && #[trigger] shown_with(yielded, e, before, answer, now, n, k);
        lemma_shown_is_trimmed(before + answer.take(n));
        assert(e.is_prefix_of(full));
        law_content_not_repeated(st, chunk, full);
        assert(yielded + r =~= before.take(k) + full);
        assert(shown_with(yielded + r, after, before, answer, Some(full), len, k));
    } else if e.len() == 0 {
        assert(full.skip(0) =~= full);
        assert(r == full);
        assert(before.take(0) =~= none);
        assert(yielded + r =~= before.take(0) + full);
        assert(shown_with(yielded + r, after, before, answer, Some(full), len, 0));
    } else {
        law_content_not_repeated(st, chunk, full);
        let q = text::trim_start(e);
        let k = e.len() - q.len();
        let m = e.len() as int;
        text::lemma_trim_start_len(e);
        text::lemma_trimmed_is_blank(e);
        assert(before.take(m) =~= e);
        assert(before.take(k) =~= e.take(k));
        assert(agrees(q, full));
        if e.is_prefix_of(full) {
            assert(before.take(0) =~= none);
            assert(yielded + r =~= before.take(0) + full);
            assert(shown_with(yielded + r, after, before, answer, Some(full), len, 0));
        } else if shown_around(before) is None {
            assert(text::trim(e).len() == 0) by {
                text::lemma_trim_grows(e, before);
            }
            assert(q.len() == 0) by {
                text::lemma_trim_start_suffix(e);
                if q.len() > 0 {
                    lemma_trim_end_reaches(q, q.take(1));
                }
            }
            assert(full.skip(0) =~= full);
            assert(r == full);
            assert(yielded + r =~= before.take(k) + full);
            assert(shown_with(yielded + r, after, before, answer, Some(full), len, k));
        } else if full.is_prefix_of(e) {
            assert(full[0] == e.take(full.len() as int)[0]);
            text::lemma_trim_start_suffix(full);
            assert(text::trim_start(e) == e);
            assert(r =~= none);
            assert(yielded + r =~= yielded);
            assert(only_before(yielded + r, after, before, Some(full)));
        } else {
            assert(emitted_form(e, full) == Some(q));
            if q.is_prefix_of(full) && r.len() > 0 {
                assert(yielded + r =~= before.take(k) + full);
                assert(shown_with(yielded + r, after, before, answer, Some(full), len, k));
            } else {
                if q.is_prefix_of(full) {
                    assert(full =~= q);
                    assert(full =~= q.take(full.len() as int));
                }
                assert(r =~= none);
                assert(yielded + r =~= yielded);
                assert(only_before(yielded + r, after, before, Some(full)));
            }
        }
    }
}

/// What the first chunks of an output yield.
proof fn lemma_around_stream(
    chunks: Seq<Seq<char>>,
    more: Seq<char>,
    before: Seq<char>,
    open: Seq<char>,
    reasoning: Seq<char>,
    answer: Seq<char>,
)
    requires
        joined(chunks) + more == output(before, open, reasoning, answer),
        opens(open, reasoning),
        !text::contains(before, CHANNEL_START@),
        !text::contains(reasoning, CHANNEL_END@),
        shown_grows(before, answer),
        nothing_withheld(chunks),
    ensures
        shows(
            yielded(chunks).normal,
            stream_after(chunks).emitted,
            before,
            answer,
            part_content(joined(chunks), before, close_of(before, open, reasoning)),
            safe_text(joined(chunks)).len() - close_of(before, open, reasoning),
        ),
    decreases chunks.len(),
{
    let none = Seq::<char>::empty();
    let close = close_of(before, open, reasoning);
    let b = joined(chunks);
    lemma_unfinished_len(b);
    if !text::contains(b, CHANNEL_START@) {
        law_plain_stream(chunks);
        lemma_plain_until_open(b, more, before, open, reasoning, answer);
        assert(only_before(yielded(chunks).normal, stream_after(chunks).emitted, before, None));
    } else if chunks.len() == 0 {
        lemma_markers();
        text::lemma_first(none, CHANNEL_START@);
    } else {
        let first = chunks.drop_last();
        let chunk = chunks.last();
        let a = joined(first);
        let st = stream_after(first);
        assert(a + (chunk + more) =~= b + more);
        lemma_around_stream(first, chunk + more, before, open, reasoning, answer);
        law_stream_receives_all(first);
        law_safe_text_grows(a, chunk);
        let now = part_content(a, before, close);
        let then = part_content(b, before, close);
        let old_len = safe_text(a).len() - close;
        let len = safe_text(b).len() - close;
        let r = chunk_result(st, chunk).normal;
        let before_yield = yielded(first).normal;
        assert(before_yield + none =~= before_yield);
        if safe_text(b).len() >= close {
            lemma_closed_snapshot(b, more, before, open, reasoning, answer);
        }
        if safe_text(b) == safe_text(a) {
            assert(r =~= none);
        } else if safe_text(b).len() >= close && then is Some {
            lemma_shown_goes_on(st, chunk, before_yield, before, answer, now, old_len, len);
        } else {
            if safe_text(b).len() < close {
                lemma_open_until_closed(b, more, before, open, reasoning, answer);
            }
            assert(r =~= none);
            assert(stream_after(chunks).emitted == st.emitted);
            if !only_before(before_yield, st.emitted, before, now) {
                let (n, k) = choose|n: int, k: int|
                    n <= old_len && #[trigger] shown_with(
                        before_yield,
                        st.emitted,
                        before,
                        answer,
                        now,
                        n,
                        k,
                    );
                assert(shown_with(before_yield, st.emitted, before, answer, None, n, k));
            } else {
                assert(only_before(before_yield, st.emitted, before, None));
            }
        }
    }
}

/// An open channel without a tool call has no content.
proof fn lemma_open_channel_content(
    s: Seq<char>,
    more: Seq<char>,
    open: Seq<char>,
    reasoning: Seq<char>,
    answer: Seq<char>,
)
    requires
        s + more == output(Seq::empty(), open, reasoning, answer),
        safe_text(s + more) == s + more,
        opens(open, reasoning),
        !text::contains(reasoning, CHANNEL_END@),
        !text::contains(reasoning, TOOL_CALL_START@),
        safe_text(s).len() < close_of(Seq::empty(), open, reasoning),
    ensures
        split_output(safe_text(s)).content is None,
{
    lemma_markers();
    lemma_unfinished_len(s);
    let none = Seq::<char>::empty();
    let whole = s + more;
    let close = close_of(none, open, reasoning);
    let a = safe_text(s);
    assert(!text::contains(none, CHANNEL_START@)) by {
        text::lemma_first(none, CHANNEL_START@);
    }
    text::lemma_first(a, CHANNEL_START@);
    if a.len() > 0 {
        law_safe_text_grows(s, more);
        lemma_output_body(none, open, reasoning, answer);
        text::lemma_first(whole, CHANNEL_START@);
        assert(streamed_tokens()[0] == CHANNEL_START@);
        assert(streamed_tokens()[1] == CHANNEL_END@);
        lemma_no_straddle(s, more, CHANNEL_START@, 0);
        assert(s.subrange(0, 10) =~= a.subrange(0, 10));
        assert(text::occurs_at(s, CHANNEL_START@, 0));
        lemma_channel_of_part(s, more, none, open, reasoning, answer);
        lemma_open_until_closed(s, more, none, open, reasoning, answer);
        assert(text::is_first(a, CHANNEL_START@, 0));
        text::lemma_first_is(a, CHANNEL_START@, 0);
        let body = channel_body(a, 0);
        let from = a.len() - body.len();
        assert(body =~= s.skip(10).subrange(from - 10, a.len() - 10)) by {
            assert(from == 10 || from == 18);
        }
        lemma_part_has_no_token(s.skip(10), from - 10, a.len() - 10, CHANNEL_END@);
        text::lemma_first(body, CHANNEL_END@);
        assert(a.len() <= close - 10) by {
            if a.len() > close - 10 {
                assert(whole.subrange(close - 10, close) =~= CHANNEL_END@);
                assert(text::occurs_at(whole, CHANNEL_END@, close - 10));
                lemma_no_straddle(s, more, CHANNEL_END@, close - 10);
            }
        }
        lemma_body_is_stable(s, more, 0);
        let at = choose|at: int|
            #![trigger a.skip(at)]
            0 <= at <= a.len() && channel_body(a, 0) == a.skip(at) && channel_body(whole, 0)
                == whole.skip(at);
        assert(at == open.len()) by {
            assert(whole.skip(at).len() == (reasoning + CHANNEL_END@ + answer).len());
        }
        assert(body =~= reasoning.subrange(0, body.len() as int)) by {
            assert forall|j: int| 0 <= j < body.len() implies body[j] == reasoning[j] by {
                assert(a[at + j] == whole[at + j]);
            }
        }
        lemma_part_has_no_token(reasoning, 0, body.len() as int, TOOL_CALL_START@);
        text::lemma_first(body, TOOL_CALL_START@);
    }
}

/// No content is held back where no text stands before the channel and no tool
/// call in it.
pub proof fn law_nothing_withheld(
    chunks: Seq<Seq<char>>,
    more: Seq<char>,
    open: Seq<char>,
    reasoning: Seq<char>,
    answer: Seq<char>,
)
    requires
        joined(chunks) + more == output(Seq::empty(), open, reasoning, answer),
        safe_text(joined(chunks) + more) == joined(chunks) + more,
        opens(open, reasoning),
        !text::contains(reasoning, CHANNEL_END@),
        !text::contains(reasoning, TOOL_CALL_START@),
        shown_grows(Seq::empty(), answer),
    ensures
        nothing_withheld(chunks),
    decreases chunks.len(),
{
    if chunks.len() > 0 {
        lemma_markers();
        let none = Seq::<char>::empty();
        let close = close_of(none, open, reasoning);
        let first = chunks.drop_last();
        let chunk = chunks.last();
        let a = joined(first);
        let b = joined(chunks);
        let st = stream_after(first);
        let old_len = safe_text(a).len() - close;
        let len = safe_text(b).len() - close;
        let now = part_content(a, none, close);
        assert(a + (chunk + more) =~= b + more);
        law_nothing_withheld(first, chunk + more, open, reasoning, answer);
        assert(!text::contains(none, CHANNEL_START@)) by {
            text::lemma_first(none, CHANNEL_START@);
        }
        lemma_around_stream(first, chunk + more, none, open, reasoning, answer);
        law_stream_receives_all(first);
        law_safe_text_grows(a, chunk);
        if withholds(st, chunk) {
            if safe_text(a).len() < close {
                lemma_open_channel_content(a, chunk + more, open, reasoning, answer);
            } else {
                lemma_closed_snapshot(a, chunk + more, none, open, reasoning, answer);
                lemma_closed_snapshot(b, more, none, open, reasoning, answer);
                lemma_shown_is_trimmed(none + safe_text(a).skip(close));
                if only_before(yielded(first).normal, st.emitted, none, now) {
                    assert(st.emitted =~= none);
                    assert(text::trim_start(none).len() == 0);
                } else {
                    let (n, k) = choose|n: int, k: int|
                        n <= old_len && #[trigger] shown_with(
                            yielded(first).normal,
                            st.emitted,
                            none,
                            answer,
                            now,
                            n,
                            k,
                        );
                    lemma_shown_is_trimmed(none + answer.take(n));
                    assert(answer.take(len) == safe_text(b).skip(close));
                }
            }
        }
    }
}

/// However an output is cut into chunks, the chunks yield its reasoning and what
/// is shown of the text around it, end to end, each once and whole but for the
/// white space at its ends. What is shown must only grow as the answer comes. Left
/// out are chunks that take content for shown which an open channel has held back,
/// such as `intro <|channel>` and `x<channel|>outro`.
pub proof fn law_answer_stream(
    chunks: Seq<Seq<char>>,
    before: Seq<char>,
    open: Seq<char>,
    reasoning: Seq<char>,
    answer: Seq<char>,
)
    requires
        joined(chunks) == output(before, open, reasoning, answer),
        safe_text(joined(chunks)) == joined(chunks),
        opens(open, reasoning),
        !text::contains(before, CHANNEL_START@),
        !text::contains(reasoning, CHANNEL_END@),
        shown_grows(before, answer),
        before.len() > 0 || text::contains(reasoning, TOOL_CALL_START@) ==> nothing_withheld(
            chunks,
        ),
    ensures
        yielded(chunks).reasoning == text::trim(reasoning),
        answer.len() > 0 ==> (shown_around(before + answer) matches Some(shown) ==> text::trim(
            yielded(chunks).normal,
        ) == shown && (before.len() == 0 ==> yielded(chunks).normal == shown)),
        (forall|n: int| 0 < n <= answer.len() ==> shown_around(before + #[trigger] answer.take(n))
            is None) ==> yielded(chunks).normal.is_prefix_of(before),
{
    lemma_markers();
    let none = Seq::<char>::empty();
    let whole = joined(chunks);
    let close = close_of(before, open, reasoning);
    law_reasoning_stream(chunks);
    law_closed_channel(before, open, reasoning, answer);
    assert(whole + none =~= whole);
    if before.len() == 0 {
        assert(before =~= none);
        if !text::contains(reasoning, TOOL_CALL_START@) {
            law_nothing_withheld(chunks, none, open, reasoning, answer);
        }
    }
    lemma_around_stream(chunks, none, before, open, reasoning, answer);
    assert(whole.skip(close) =~= answer);
    assert(answer.take(answer.len() as int) =~= answer);
    let y = yielded(chunks).normal;
    let e = stream_after(chunks).emitted;
    let now = part_content(whole, before, close);
    lemma_shown_is_trimmed(before + answer);
    if only_before(y, e, before, now) {
        if answer.len() > 0 && now is Some {
            let c = now->0;
            let q = text::trim_start(e);
            assert(before.take(e.len() as int) =~= e);
            assert(answer.take(answer.len() as int) == answer);
            assert(text::trim(before.take(e.len() as int)).is_prefix_of(c));
            text::lemma_trim_end_of_trim(c);
            text::lemma_trim_end_prefix(c);
            lemma_trim_end_reaches(q, c);
            assert(text::trim(e) =~= c) by {
                assert(text::trim(e) =~= c.take(text::trim(e).len() as int));
            }
            if before.len() == 0 {
                assert(e =~= none);
                assert(q.len() == 0);
            }
        }
    } else {
        let (n, k) = choose|n: int, k: int|
            n <= whole.len() - close && #[trigger] shown_with(y, e, before, answer, now, n, k);
        text::lemma_trim_blank_front(before.take(k), e);
        assert(shown_around(before + answer.take(n)) is Some);
        if before.len() == 0 {
            assert(y =~= e);
        }
    }
}

/// An output with plain text around its reasoning yields, however it is cut, that
/// text without the white space at its ends.
pub proof fn law_plain_answer_stream(
    chunks: Seq<Seq<char>>,
    before: Seq<char>,
    open: Seq<char>,
    reasoning: Seq<char>,
    answer: Seq<char>,
)
    requires
        joined(chunks) == output(before, open, reasoning, answer),
        safe_text(joined(chunks)) == joined(chunks),
        opens(open, reasoning),
        !text::contains(before, CHANNEL_START@),
        !text::contains(reasoning, CHANNEL_END@),
        is_plain(before + answer),
        before.len() > 0 || text::contains(reasoning, TOOL_CALL_START@) ==> nothing_withheld(
            chunks,
        ),
    ensures
        yielded(chunks).reasoning == text::trim(reasoning),
        answer.len() > 0 ==> text::trim(yielded(chunks).normal) == text::trim(before + answer),
        before.len() == 0 ==> yielded(chunks).normal == text::trim(answer),
{
    let w = before + answer;
    let b = before.len() as int;
    law_plain_text_as_is(w);
    law_unchanged_text_grows(before, answer);
    law_answer_stream(chunks, before, open, reasoning, answer);
    assert(w.take(w.len() as int) =~= w);
    let y = yielded(chunks).normal;
    if text::trim(w).len() == 0 || answer.len() == 0 {
        assert forall|n: int| 0 < n <= answer.len() implies shown_around(
            before + #[trigger] answer.take(n),
        ) is None by {
            assert(w.take(b + n) =~= before + answer.take(n));
            text::lemma_trim_grows(w.take(b + n), w);
        }
        assert(y =~= w.take(y.len() as int));
        text::lemma_trim_grows(y, w);
        if text::trim(w).len() == 0 {
            assert(text::trim(y) =~= text::trim(w));
        }
        if before.len() == 0 {
            assert(w =~= answer);
            assert(text::trim(answer).len() == 0);
            assert(y =~= text::trim(answer));
        }
    } else if before.len() == 0 {
        assert(w =~= answer);
    }
}

/// Trimming the end of a text does not cut into a start of it that ends in
/// something else than white space.
proof fn lemma_trim_end_reaches(s: Seq<char>, front: Seq<char>)
    requires
        front.is_prefix_of(s),
        front.len() > 0 ==> !text::is_white_space(front.last()),
    ensures
        front.len() <= text::trim_end(s).len(),
    decreases s.len(),
{
    if s.len() > 0 && text::is_white_space(s.last()) {
        if front.len() == s.len() {
            assert(front.last() == s.take(front.len() as int).last());
        } else {
            assert(front =~= s.drop_last().take(front.len() as int));
            lemma_trim_end_reaches(s.drop_last(), front);
        }
    }
}

/// A part of a text holds no token that the text does not hold.
pub proof fn lemma_part_has_no_token(s: Seq<char>, a: int, b: int, tok: Seq<char>)
    requires
        0 <= a <= b <= s.len(),
        !text::contains(s, tok),
    ensures
        !text::contains(s.subrange(a, b), tok),
{
    let part = s.subrange(a, b);
    if text::contains(part, tok) {
        let i = choose|i: int| text::occurs_at(part, tok, i);
        assert(s.subrange(a + i, a + i + tok.len()) =~= part.subrange(i, i + tok.len()));
        assert(text::occurs_at(s, tok, a + i));
    }
}

/// Trimming leaves a part of a text.
proof fn lemma_trim_has_no_token(s: Seq<char>, tok: Seq<char>)
    requires
        !text::contains(s, tok),
    ensures
        !text::contains(text::trim_end(s), tok),
        !text::contains(text::trim(s), tok),
{
    let u = text::trim_start(s);
    text::lemma_trim_start_suffix(s);
    text::lemma_trim_end_prefix(u);
    text::lemma_trim_end_prefix(s);
    let a = s.len() - u.len();
    let b = a + text::trim(s).len();
    assert(text::trim(s) =~= s.subrange(a, b));
    lemma_part_has_no_token(s, a, b, tok);
    let n = text::trim_end(s).len() as int;
    assert(text::trim_end(s) =~= s.subrange(0, n));
    lemma_part_has_no_token(s, 0, n, tok);
}

/// Dropping echoes joins no two lines, so it joins no token together.
proof fn lemma_echo_lines_have_no_token(s: Seq<char>, tok: Seq<char>)
    requires
        tok.len() > 0,
        !tok.contains('\n'),
        !text::contains(s, tok),
    ensures
        !text::contains(strip_echo_lines(s), tok),
    decreases s.len(),
{
    let nl = seq!['\n'];
    text::lemma_first(s, nl);
    if s.len() > 0 {
        match text::first(s, nl) {
            Some(i) => {
                let rest = s.skip(i + 1);
                assert(rest =~= s.subrange(i + 1, s.len() as int));
                lemma_part_has_no_token(s, i + 1, s.len() as int, tok);
                lemma_echo_lines_have_no_token(rest, tok);
                let line = strip_echo(s.take(i), nl);
                let tail = strip_echo_lines(rest);
                let all = line + tail;
                if text::contains(all, tok) {
                    let j = choose|j: int| text::occurs_at(all, tok, j);
                    let n = line.len() as int;
                    assert(line[n - 1] == '\n');
                    if j >= n {
                        assert(tail.subrange(j - n, j - n + tok.len()) =~= all.subrange(
                            j,
                            j + tok.len(),
                        ));
                        assert(text::occurs_at(tail, tok, j - n));
                    } else if j + tok.len() >= n {
                        assert(all.subrange(j, j + tok.len())[n - 1 - j] == tok[n - 1 - j]);
                        assert(tok.contains('\n'));
                    } else {
                        assert(line =~= s.take(i) + nl);
                        assert(s.subrange(j, j + tok.len()) =~= all.subrange(j, j + tok.len()));
                        assert(text::occurs_at(s, tok, j));
                    }
                }
            },
            None => {
                assert(s + Seq::<char>::empty() =~= s);
                if is_thought_echo(compact(s)) {
                    assert(strip_echo_lines(s) =~= Seq::<char>::empty());
                    if text::contains(strip_echo_lines(s), tok) {
                        let j = choose|j: int| text::occurs_at(strip_echo_lines(s), tok, j);
                    }
                }
            },
        }
    }
}

/// Dropping control tokens leaves none, whatever the dropping has joined
/// together.
pub proof fn law_control_tokens_dropped(s: Seq<char>)
    ensures
        !has_channel_token(drop_control_tokens(s)),
        !has_tool_grammar(drop_control_tokens(s)),
    decreases s.len(),
{
    let a = drop_channel_tokens(s);
    let next = drop_tool_grammar(a);
    lemma_drop_channel_tokens(s);
    lemma_drop_tool_grammar(a);
    if next.len() < s.len() {
        law_control_tokens_dropped(next);
    }
}

/// No channel token and no tool-call grammar reaches a client.
pub proof fn law_tokens_do_not_leak(s: Seq<char>, tok: Seq<char>)
    requires
        tok == CHANNEL_START@ || tok == CHANNEL_END@ || tok == TOOL_CALL_END@ || tok
            == STRING_DELIM@,
    ensures
        !text::contains(strip_leaks(s), tok),
        !text::contains(clean(s), tok),
{
    reveal_strlit("<|channel>");
    reveal_strlit("<channel|>");
    reveal_strlit("<tool_call|>");
    reveal_strlit("<|\"|>");
    assert(!tok.contains('\n'));
    if may_leak(s) {
        let d = drop_channels(s);
        law_control_tokens_dropped(drop_labels(drop_empty_thinking(s)));
        lemma_echo_lines_have_no_token(d, tok);
        lemma_trim_has_no_token(strip_echoes(d), tok);
    }
    lemma_before_markup_has_no_token(strip_leaks(s), tok);
}

/// How often `tok` stands in `s`.
pub open spec fn occurrences(s: Seq<char>, tok: Seq<char>) -> nat
    decreases s.len(),
{
    if s.len() == 0 {
        0
    } else {
        occurrences(s.skip(1), tok) + (if text::occurs_at(s, tok, 0) {
            1nat
        } else {
            0
        })
    }
}

/// Nothing is removed from the front of a text up to the first `<`.
proof fn lemma_removal_keeps_front(s: Seq<char>, p: Seq<char>, n: int)
    requires
        is_marker(p),
        0 <= n <= s.len(),
        forall|k: int| 0 <= k < n ==> s[k] != '<',
    ensures
        text::remove_all(s, p) == s.take(n) + text::remove_all(s.skip(n), p),
    decreases n,
{
    if n == 0 {
        assert(s.skip(0) =~= s);
        assert(s.take(0) + text::remove_all(s, p) =~= text::remove_all(s, p));
    } else {
        if text::occurs_at(s, p, 0) {
            assert(s.subrange(0, p.len() as int)[0] == s[0]);
        }
        let rest = s.skip(1);
        lemma_removal_keeps_front(rest, p, n - 1);
        assert(rest.skip(n - 1) =~= s.skip(n));
        assert(s.take(n) =~= seq![s[0]] + rest.take(n - 1));
        assert(seq![s[0]] + (rest.take(n - 1) + text::remove_all(s.skip(n), p)) =~= s.take(n)
            + text::remove_all(s.skip(n), p));
    }
}

/// No marker stands in a text between two positions without a `<`.
proof fn lemma_no_occurrences_before(s: Seq<char>, tok: Seq<char>, n: int)
    requires
        is_marker(tok),
        0 <= n <= s.len(),
        forall|k: int| 0 <= k < n ==> s[k] != '<',
    ensures
        occurrences(s, tok) == occurrences(s.skip(n), tok),
    decreases n,
{
    if n == 0 {
        assert(s.skip(0) =~= s);
    } else {
        if text::occurs_at(s, tok, 0) {
            assert(s.subrange(0, tok.len() as int)[0] == s[0]);
        }
        lemma_no_occurrences_before(s.skip(1), tok, n - 1);
        assert(s.skip(1).skip(n - 1) =~= s.skip(n));
    }
}

/// The removal of one marker keeps another.
proof fn lemma_removal_keeps_marker(s: Seq<char>, p: Seq<char>, tok: Seq<char>)
    requires
        is_marker(p),
        is_marker(tok),
        !p.is_prefix_of(tok),
        !tok.is_prefix_of(p),
    ensures
        occurrences(s, tok) <= occurrences(text::remove_all(s, p), tok),
    decreases s.len(),
{
    let r = text::remove_all(s, p);
    let m = tok.len() as int;
    let n = p.len() as int;
    if s.len() == 0 {
    } else if text::occurs_at(s, p, 0) {
        assert(s.subrange(0, n) == p);
        if text::occurs_at(s, tok, 0) {
            assert(s.subrange(0, m) == tok);
            if m <= n {
                assert(tok =~= p.take(m));
            } else {
                assert(p =~= tok.take(n));
            }
        }
        let rest = s.skip(1);
        assert forall|k: int| 0 <= k < n - 1 implies rest[k] != '<' by {
            assert(s.subrange(0, n)[k + 1] == p[k + 1]);
        }
        lemma_no_occurrences_before(rest, tok, n - 1);
        assert(rest.skip(n - 1) =~= s.skip(n));
        lemma_removal_keeps_marker(s.skip(n), p, tok);
    } else {
        let rest = s.skip(1);
        let q = text::remove_all(rest, p);
        lemma_removal_keeps_marker(rest, p, tok);
        assert(r.skip(1) =~= q);
        if text::occurs_at(s, tok, 0) {
            assert(s.subrange(0, m) == tok);
            assert forall|k: int| 0 <= k < m - 1 implies rest[k] != '<' by {
                assert(s.subrange(0, m)[k + 1] == tok[k + 1]);
            }
            lemma_removal_keeps_front(rest, p, m - 1);
            assert(r.subrange(0, m) =~= s.subrange(0, m)) by {
                assert forall|k: int| 0 <= k < m implies r[k] == s[k] by {
                    if k > 0 {
                        assert(q[k - 1] == rest.take(m - 1)[k - 1]);
                    }
                }
            }
            assert(text::occurs_at(r, tok, 0));
        }
    }
}

/// Every opening tool-call token outlasts the removal of tool-call grammar, and a
/// text without such grammar stays as it is.
pub proof fn law_tool_calls_kept(s: Seq<char>)
    ensures
        occurrences(s, TOOL_CALL_START@) <= occurrences(drop_tool_grammar(s), TOOL_CALL_START@),
        !has_tool_grammar(s) ==> drop_tool_grammar(s) == s,
    decreases s.len(),
{
    lemma_drop_tool_grammar(s);
    if grammar_round(s).len() < s.len() {
        lemma_markers();
        reveal_strlit("<|tool_call>");
        reveal_strlit("<tool_call|>");
        reveal_strlit("<|\"|>");
        let tok = TOOL_CALL_START@;
        let a = text::remove_all(s, TOOL_CALL_END@);
        if TOOL_CALL_END@.is_prefix_of(tok) {
            assert(tok.take(TOOL_CALL_END@.len() as int)[1] == tok[1]);
        }
        if tok.is_prefix_of(TOOL_CALL_END@) {
            assert(TOOL_CALL_END@.take(tok.len() as int)[1] == TOOL_CALL_END@[1]);
        }
        if STRING_DELIM@.is_prefix_of(tok) {
            assert(tok.take(STRING_DELIM@.len() as int)[2] == tok[2]);
        }
        lemma_removal_keeps_marker(s, TOOL_CALL_END@, tok);
        lemma_removal_keeps_marker(a, STRING_DELIM@, tok);
        law_tool_calls_kept(grammar_round(s));
    }
}

/// What stands before tool-call markup is a part of a text.
proof fn lemma_before_markup_has_no_token(s: Seq<char>, tok: Seq<char>)
    requires
        !text::contains(s, tok),
    ensures
        !text::contains(before_markup(s), tok),
{
    lemma_markup_start(s);
    match markup_start(s) {
        Some(i) => {
            assert(s.take(i) =~= s.subrange(0, i));
            lemma_part_has_no_token(s, 0, i, tok);
            lemma_trim_has_no_token(s.take(i), tok);
        },
        None => {
            lemma_trim_has_no_token(s, tok);
        },
    }
}

/// Tool-call markup begins with a tool-call token or with a bare call.
proof fn lemma_markup_start(s: Seq<char>)
    ensures
        markup_start(s) matches Some(i) ==> 0 <= i <= s.len() && (TOOL_CALL_START@.is_prefix_of(
            s.skip(i),
        ) || CALL_PREFIX@.is_prefix_of(s.skip(i))),
        markup_start(s) is None ==> !text::contains(s, TOOL_CALL_START@),
        markup_start(s) matches Some(i) ==> !text::contains(s.take(i), TOOL_CALL_START@),
{
    reveal_strlit("<|tool_call>");
    text::lemma_first(s, TOOL_CALL_START@);
    text::lemma_last(s, CHANNEL_END@);
    match text::first(s, TOOL_CALL_START@) {
        Some(i) => {
            let n = TOOL_CALL_START@.len() as int;
            assert(s.skip(i).take(n) =~= s.subrange(i, i + n));
            if text::contains(s.take(i), TOOL_CALL_START@) {
                let j = choose|j: int| text::occurs_at(s.take(i), TOOL_CALL_START@, j);
                assert(s.subrange(j, j + n) =~= s.take(i).subrange(j, j + n));
                assert(text::occurs_at(s, TOOL_CALL_START@, j));
            }
        },
        None => {
            let from = match text::last(s, CHANNEL_END@) {
                Some(i) => i + CHANNEL_END@.len(),
                None => 0,
            };
            let rest = s.skip(from);
            text::lemma_first(rest, CALL_PREFIX@);
            if let Some(j) = text::first(rest, CALL_PREFIX@) {
                let n = CALL_PREFIX@.len() as int;
                assert(s.skip(from + j).take(n) =~= rest.subrange(j, j + n));
                assert(s.take(from + j) =~= s.subrange(0, from + j));
                lemma_part_has_no_token(s, 0, from + j, TOOL_CALL_START@);
            }
        },
    }
}

/// Nothing is lost or repeated between content and tool parser: a text is what
/// stands before its markup, then white space, then what is handed off, which
/// begins with a tool-call token or a bare call.
pub proof fn law_markup_splits(s: Seq<char>)
    ensures
        before_markup(s).is_prefix_of(s),
        from_markup(s).is_suffix_of(s),
        markup_start(s) is None <==> from_markup(s).len() == 0,
        markup_start(s) is Some ==> {
            &&& TOOL_CALL_START@.is_prefix_of(from_markup(s)) || CALL_PREFIX@.is_prefix_of(
                from_markup(s),
            )
            &&& before_markup(s) == text::trim_end(s.take(s.len() - from_markup(s).len()))
        },
        markup_start(s) is None ==> before_markup(s) == text::trim_end(s),
{
    reveal_strlit("<|tool_call>");
    reveal_strlit("call:");
    lemma_markup_start(s);
    text::lemma_trim_end_prefix(s);
    match markup_start(s) {
        Some(i) => {
            text::lemma_trim_end_prefix(s.take(i));
            assert(before_markup(s) =~= s.take(before_markup(s).len() as int));
            assert(from_markup(s) =~= s.skip(s.len() - from_markup(s).len()));
        },
        None => {
            assert(from_markup(s) =~= s.skip(s.len() as int));
        },
    }
}

/// Cleaning prose keeps the tool-call markup after it, but for white space at its
/// end, and a text without leaks stays as it is.
pub proof fn law_markup_kept(s: Seq<char>)
    ensures
        !may_leak(s) ==> clean_prose(s) == s,
        may_leak(s) && markup_start(s) is Some ==> text::trim_end(from_markup(s)).is_suffix_of(
            clean_prose(s),
        ),
{
    if let Some(i) = markup_start(s) {
        if may_leak(s) {
            lemma_markup_start(s);
            reveal_strlit("<|tool_call>");
            reveal_strlit("call:");
            let m = s.skip(i);
            let x = strip_echoes_before(drop_channels_before_call(s.take(i)), m);
            if TOOL_CALL_START@.is_prefix_of(m) {
                assert(m.take(12)[0] == m[0]);
            } else {
                assert(m.take(5)[0] == m[0]);
            }
            lemma_trim_start_of_front(x, m);
            let u = text::trim_start(x);
            lemma_trim_end_of_back(u, m);
            let r = clean_prose(s);
            assert(text::trim_end(m) =~= r.skip(r.len() - text::trim_end(m).len()));
        }
    }
}

/// Trimming the start of a text stops at what is no white space.
proof fn lemma_trim_start_of_front(x: Seq<char>, m: Seq<char>)
    requires
        m.len() > 0,
        !text::is_white_space(m[0]),
    ensures
        text::trim_start(x + m) == text::trim_start(x) + m,
    decreases x.len(),
{
    if x.len() == 0 {
        assert(x + m =~= m);
    } else {
        assert((x + m).skip(1) =~= x.skip(1) + m);
        if text::is_white_space(x[0]) {
            lemma_trim_start_of_front(x.skip(1), m);
        }
    }
}

/// Trimming the end of a text stops at what is no white space.
proof fn lemma_trim_end_of_back(x: Seq<char>, m: Seq<char>)
    requires
        m.len() > 0,
        !text::is_white_space(m[0]),
    ensures
        text::trim_end(x + m) == x + text::trim_end(m),
    decreases m.len(),
{
    assert((x + m).last() == m.last());
    if text::is_white_space(m.last()) {
        assert((x + m).drop_last() =~= x + m.drop_last());
        lemma_trim_end_of_back(x, m.drop_last());
    }
}

/// What a client sees never holds an opening tool-call token.
pub proof fn law_no_tool_call_shown(s: Seq<char>)
    ensures
        !text::contains(before_markup(s), TOOL_CALL_START@),
        !text::contains(clean(s), TOOL_CALL_START@),
{
    lemma_no_tool_call_before_markup(s);
    lemma_no_tool_call_before_markup(strip_leaks(s));
}

/// No tool-call token stands before the markup of a text.
proof fn lemma_no_tool_call_before_markup(s: Seq<char>)
    ensures
        !text::contains(before_markup(s), TOOL_CALL_START@),
{
    lemma_markup_start(s);
    match markup_start(s) {
        Some(i) => {
            lemma_trim_has_no_token(s.take(i), TOOL_CALL_START@);
        },
        None => {
            lemma_trim_has_no_token(s, TOOL_CALL_START@);
        },
    }
}

/// Where the cleaned text of a stream extends what was shown of it, the shown
/// text and the delta make up the cleaned text.
pub proof fn law_visible_delta_extends(
    previous: Seq<char>,
    current: Seq<char>,
    delta: Seq<char>,
)
    requires
        before_markup(clean(previous)).is_prefix_of(clean(current)),
    ensures
        before_markup(clean(previous)) + text::or_empty(visible_delta(previous, current, delta))
            == clean(current),
{
    let shown = before_markup(clean(previous));
    let whole = clean(current);
    assert(shown + whole.skip(shown.len() as int) =~= whole);
    if whole.skip(shown.len() as int).len() == 0 {
        assert(shown + Seq::<char>::empty() =~= whole);
    }
}

} // verus!
