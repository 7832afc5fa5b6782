//! What a chunk of a stream yields, and what a delta shows, stated on the parts of
//! the text.

use vstd::prelude::*;

use super::format::{
    added, before_markup, clean, clean_prose, drop_channels, drop_channels_before_call,
    has_markup, lemma_drop_channels_keeps_call, markup_start, may_leak, safe_text, shown_around,
    split_output, strip_echo, strip_echo_lines_before, strip_leaks, visible_delta, Snapshot,
};
use super::format_laws::{
    echoes, law_call_in_open_channel, law_echo_line, law_markup_at_token, law_open_channel, text_of,
};
use super::laws::{joined, law_reasoning_grows, law_reasoning_stream, lemma_markers, yielded};
use super::reasoning::{
    after_chunk, agrees, before_channel, channel_close, chunk_result, emitted_form, fresh,
    in_open_channel, may_repeat, new_content, new_text, parsed, Stream,
};
use super::{
    CHANNEL_END, CHANNEL_START, STRING_DELIM, THOUGHT_PREFIX, TOOL_CALL_END, TOOL_CALL_START,
};
use crate::text;

verus! {

/// What a text adds to one that it extends is the rest. It adds all of itself to
/// any other and to none, and nothing where it is absent.
pub proof fn law_added(a: Seq<char>, b: Seq<char>)
    ensures
        added(Some(a + b), Some(a)) == b,
        !a.is_prefix_of(b) ==> added(Some(b), Some(a)) == b,
        added(Some(b), None) == b,
        added(None, None).len() == 0,
        added(None, Some(a)).len() == 0,
{
    let none = Seq::<char>::empty();
    text::law_strip_prefix(a, b);
    text::law_strip_prefix(none, b);
    assert(none + b =~= b);
    text::law_strip_prefix(a, none);
    if a.is_prefix_of(none) {
        assert(a =~= none);
    }
}

/// A parse yields the reasoning and the content of a snapshot, each as it is, and
/// empty text for an absent one.
pub proof fn law_parsed(snapshot: Snapshot)
    ensures
        snapshot.content matches Some(c) ==> parsed(snapshot).normal == c,
        snapshot.content is None ==> parsed(snapshot).normal.len() == 0,
        snapshot.reasoning matches Some(r) ==> parsed(snapshot).reasoning == r,
        snapshot.reasoning is None ==> parsed(snapshot).reasoning.len() == 0,
        fresh().received.len() == 0 && fresh().emitted.len() == 0,
{
}

/// A channel is open exactly where nothing closes it after its opening, and the
/// text before the opening is the text before the channel.
pub proof fn law_open_or_closed(a: Seq<char>, b: Seq<char>)
    requires
        !text::contains(a, CHANNEL_START@),
    ensures
        in_open_channel(a + CHANNEL_START@ + b) <==> !text::contains(b, CHANNEL_END@),
        before_channel(a + CHANNEL_START@ + b) == a,
        !in_open_channel(a),
        before_channel(a).len() == 0,
        channel_close(a) == 0,
{
    lemma_markers();
    let s = a + CHANNEL_START@ + b;
    text::lemma_first_after(a, CHANNEL_START@, b);
    assert(s.skip(a.len() as int + 10) =~= b);
    assert(s.take(a.len() as int) =~= a);
}

/// A channel ends right after the first token that closes it.
pub proof fn law_channel_close(a: Seq<char>, b: Seq<char>, c: Seq<char>)
    requires
        !text::contains(a, CHANNEL_START@),
        !text::contains(b, CHANNEL_END@),
    ensures
        channel_close(a + CHANNEL_START@ + (b + CHANNEL_END@ + c)) == (a + CHANNEL_START@ + b
            + CHANNEL_END@).len(),
{
    lemma_markers();
    let rest = b + CHANNEL_END@ + c;
    let s = a + CHANNEL_START@ + rest;
    text::lemma_first_after(a, CHANNEL_START@, rest);
    text::lemma_first_after(b, CHANNEL_END@, c);
    assert(s.skip(a.len() as int + 10) =~= rest);
}

/// A chunk is received whole. The reasoning that it yields is what the reasoning
/// of the safe text gains by it. It yields nothing where no text becomes safe, and
/// no content where there is none.
pub proof fn law_chunk(st: Stream, chunk: Seq<char>)
    ensures
        after_chunk(st, chunk).received == st.received + chunk,
        ({
            let old_reasoning = text::or_empty(split_output(safe_text(st.received)).reasoning);
            let reasoning = text::or_empty(split_output(safe_text(st.received + chunk)).reasoning);
            reasoning == old_reasoning + chunk_result(st, chunk).reasoning
        }),
        safe_text(st.received + chunk) == safe_text(st.received) ==> chunk_result(
            st,
            chunk,
        ).normal.len() == 0 && after_chunk(st, chunk).emitted == st.emitted,
        split_output(safe_text(st.received + chunk)).content is None ==> chunk_result(
            st,
            chunk,
        ).normal.len() == 0 && after_chunk(st, chunk).emitted == st.emitted,
{
    law_reasoning_grows(st.received, chunk);
    let a = text::or_empty(split_output(safe_text(st.received)).reasoning);
    let b = text::or_empty(split_output(safe_text(st.received + chunk)).reasoning);
    assert(b =~= a + b.skip(a.len() as int));
    assert(a + Seq::<char>::empty() =~= a);
}

/// Content that nothing emitted leads up to comes whole where the last snapshot had
/// none, where the chunk opens the first channel, or where it does not start with
/// the last content. Otherwise it goes on from the last content.
pub proof fn law_new_content_comes(st: Stream, chunk: Seq<char>, full: Seq<char>)
    requires
        safe_text(st.received + chunk) != safe_text(st.received),
        !in_open_channel(st.received + chunk),
        split_output(safe_text(st.received + chunk)).content == Some(full),
        st.emitted.len() == 0 || (!st.emitted.is_prefix_of(full) && shown_around(
            before_channel(safe_text(st.received + chunk)),
        ) is None),
    ensures
        ({
            let normal = chunk_result(st, chunk).normal;
            let opens = !text::contains(st.received, CHANNEL_START@) && text::contains(
                st.received + chunk,
                CHANNEL_START@,
            );
            let old_content = split_output(safe_text(st.received)).content;
            &&& opens || old_content is None ==> normal == full
            &&& !opens && old_content is Some ==> {
                &&& old_content->0.is_prefix_of(full) ==> old_content->0 + normal == full
                &&& !old_content->0.is_prefix_of(full) ==> normal == full
            }
            &&& normal.len() > 0 ==> after_chunk(st, chunk).emitted == full
            &&& normal.len() == 0 ==> after_chunk(st, chunk).emitted == st.emitted
        }),
{
    assert(full.skip(0) =~= full);
    if let Some(c) = split_output(safe_text(st.received)).content {
        if c.is_prefix_of(full) {
            assert(c + full.skip(c.len() as int) =~= full);
        }
    }
}

/// Emitted text stands for itself in content that it starts, for itself without
/// leading white space in content that this starts, or for what is shown of it.
pub proof fn law_emitted_form(emitted: Seq<char>, full: Seq<char>)
    ensures
        agrees(emitted, full) ==> emitted_form(emitted, full) == Some(emitted),
        !agrees(emitted, full) && agrees(text::trim_start(emitted), full) ==> emitted_form(
            emitted,
            full,
        ) == Some(text::trim_start(emitted)),
        emitted_form(emitted, full) matches Some(form) ==> (form.is_prefix_of(full)
            || full.is_prefix_of(form)) && (form == emitted || form == text::trim_start(emitted)
            || shown_around(emitted) == Some(form) || (shown_around(emitted) is None && form.len()
            == 0)),
        emitted_form(emitted, full) is None ==> !emitted.is_prefix_of(full) && !full.is_prefix_of(
            emitted,
        ) && !text::trim_start(emitted).is_prefix_of(full) && !full.is_prefix_of(
            text::trim_start(emitted),
        ) && (shown_around(emitted) matches Some(shown) ==> !shown.is_prefix_of(full)
            && !full.is_prefix_of(shown)),
        agrees(emitted, full) <==> emitted.is_prefix_of(full) || full.is_prefix_of(emitted),
{
    assert(emitted_form(emitted, full) is None ==> !agrees(emitted, full));
}

/// What counts as emitted changes only where text is yielded, or where content that
/// would repeat text has changed otherwise; it is then the whole content.
pub proof fn law_emitted_after(st: Stream, chunk: Seq<char>, full: Seq<char>)
    requires
        safe_text(st.received + chunk) != safe_text(st.received),
        !in_open_channel(st.received + chunk),
        split_output(safe_text(st.received + chunk)).content == Some(full),
    ensures
        chunk_result(st, chunk).normal.len() > 0 ==> after_chunk(st, chunk).emitted == full,
        chunk_result(st, chunk).normal.len() == 0 && emitted_form(st.emitted, full) is Some
            ==> after_chunk(st, chunk).emitted == st.emitted,
        may_repeat(st.emitted, full, safe_text(st.received + chunk)) && emitted_form(
            st.emitted,
            full,
        ) is None ==> after_chunk(st, chunk).emitted == full,
{
}

/// What a chunk brings is all that is safe and was not before, from the end of the
/// first channel on.
pub proof fn law_new_text(received: Seq<char>, chunk: Seq<char>)
    ensures
        ({
            let safe = safe_text(received + chunk);
            let old_len = safe_text(received).len() as int;
            &&& channel_close(safe) <= old_len ==> new_text(received, chunk) == safe.skip(old_len)
            &&& channel_close(safe) >= old_len ==> new_text(received, chunk) == safe.skip(
                channel_close(safe),
            )
        }),
{
}

/// New text comes as it is where tool-call markup stands in the content, and as a
/// client may see it otherwise.
pub proof fn law_new_content(full: Seq<char>, new: Seq<char>)
    ensures
        text::contains(full, TOOL_CALL_START@) || text::contains(full, TOOL_CALL_END@)
            || text::contains(full, STRING_DELIM@) ==> new_content(full, new) == text::trim_end(
            new,
        ),
        !has_markup(full) ==> new_content(full, new) == clean(new),
{
}

/// Emitted text is at risk of coming again exactly where content with text from
/// before the channel does not start with it.
pub proof fn law_may_repeat(emitted: Seq<char>, full: Seq<char>, a: Seq<char>, b: Seq<char>)
    requires
        !text::contains(a, CHANNEL_START@),
    ensures
        may_repeat(emitted, full, a + CHANNEL_START@ + b) <==> emitted.len() > 0
            && !emitted.is_prefix_of(full) && shown_around(a) is Some,
{
    law_open_or_closed(a, b);
}

/// A delta shows the clean delta text where the cleaned text does not go on from
/// what was shown, and nothing where that is empty.
pub proof fn law_visible_delta_otherwise(
    previous: Seq<char>,
    current: Seq<char>,
    delta: Seq<char>,
)
    requires
        !before_markup(clean(previous)).is_prefix_of(clean(current)),
    ensures
        clean(delta).len() > 0 ==> visible_delta(previous, current, delta) == Some(clean(delta)),
        clean(delta).len() == 0 ==> visible_delta(previous, current, delta) is None,
{
}

/// A delta never shows empty text.
pub proof fn law_visible_delta_not_empty(
    previous: Seq<char>,
    current: Seq<char>,
    delta: Seq<char>,
)
    ensures
        visible_delta(previous, current, delta) matches Some(shown) ==> shown.len() > 0,
{
}

/// The lines of prose before a tool call: echoes among the complete lines go, and
/// the last line, which the call goes on, stays.
pub proof fn law_prose_lines(lines: Seq<Seq<char>>) -> (out: Seq<Seq<char>>)
    requires
        lines.len() > 0,
        forall|k: int| 0 <= k < lines.len() ==> !(#[trigger] lines[k]).contains('\n'),
    ensures
        out.len() == lines.len(),
        out.last() == lines.last(),
        forall|k: int|
            #![trigger out[k]]
            0 <= k < lines.len() - 1 ==> if echoes(lines[k]) {
                out[k].len() == 0
            } else {
                out[k] == lines[k]
            },
        strip_echo_lines_before(text_of(lines)) == text_of(out),
    decreases lines.len(),
{
    let nl = seq!['\n'];
    let none = Seq::<char>::empty();
    let a = lines[0];
    let s = text_of(lines);
    assert forall|i: int| !text::occurs_at(a, nl, i) by {
        if text::occurs_at(a, nl, i) {
            assert(a.subrange(i, i + 1)[0] == nl[0]);
            assert(a[i] == '\n');
        }
    }
    assert(!text::contains(a, nl));
    if lines.len() == 1 {
        text::lemma_first(s, nl);
        lines
    } else {
        let rest = lines.skip(1);
        assert forall|k: int| 0 <= k < rest.len() implies !(#[trigger] rest[k]).contains('\n') by {
            assert(rest[k] == lines[k + 1]);
        }
        let more = law_prose_lines(rest);
        let first = if echoes(a) {
            none
        } else {
            a
        };
        let out = seq![first] + more;
        let b = text_of(rest);
        law_echo_line(a, nl);
        assert(s == a + nl + b);
        text::lemma_first_after(a, nl, b);
        assert(s.take(a.len() as int) =~= a);
        assert(s.skip(a.len() as int + 1) =~= b);
        assert(out.skip(1) =~= more);
        assert forall|k: int|
            #![trigger out[k]]
            0 <= k < lines.len() - 1 implies if echoes(lines[k]) {
            out[k].len() == 0
        } else {
            out[k] == lines[k]
        } by {
            if k > 0 {
                assert(out[k] == more[k - 1]);
                assert(rest[k - 1] == lines[k]);
            }
        }
        assert(strip_echo(a, nl) =~= first + nl) by {
            if echoes(a) {
                assert(first + nl =~= nl);
            }
        }
        assert(text_of(out) =~= first + nl + text_of(more));
        out
    }
}

/// Prose before a tool call loses what is dropped from it together with the call,
/// then its echoes where the word `thought` stands in the whole, and then the white
/// space at the ends of the whole. The call stays.
pub proof fn law_prose_before_call(a: Seq<char>, b: Seq<char>)
    requires
        !text::contains(a, TOOL_CALL_START@),
    ensures
        drop_channels_before_call(a) + TOOL_CALL_START@ == drop_channels(a + TOOL_CALL_START@),
        ({
            let prose = drop_channels_before_call(a);
            let markup = TOOL_CALL_START@ + b;
            &&& text::contains(text::lowercase(prose + markup), "thought"@) ==> clean_prose(
                a + TOOL_CALL_START@ + b,
            ) == text::trim(strip_echo_lines_before(prose) + markup)
            &&& !text::contains(text::lowercase(prose + markup), "thought"@) ==> clean_prose(
                a + TOOL_CALL_START@ + b,
            ) == text::trim(prose + markup)
        }),
{
    let s = a + TOOL_CALL_START@ + b;
    let t = a + TOOL_CALL_START@;
    let n = a.len() as int;
    law_markup_at_token(a, b);
    assert(s.take(n) =~= a);
    assert(s.skip(n) =~= TOOL_CALL_START@ + b);
    assert(TOOL_CALL_START@ =~= t.skip(n));
    lemma_drop_channels_keeps_call(t);
    let d = drop_channels(t);
    let m = d.len() - TOOL_CALL_START@.len();
    assert(d =~= d.take(m) + d.skip(m));
    assert(d.skip(m) =~= TOOL_CALL_START@);
    assert(s.subrange(n, n + TOOL_CALL_START@.len()) =~= TOOL_CALL_START@);
    assert(text::occurs_at(s, TOOL_CALL_START@, n));
    assert(may_leak(s));
}

/// The same holds of prose before any markup, a bare call as well, in a text that
/// may leak. A text that may not stays as it is.
pub proof fn law_prose_before_markup(s: Seq<char>, i: int)
    requires
        markup_start(s) == Some(i),
    ensures
        !may_leak(s) ==> clean_prose(s) == s,
        may_leak(s) ==> ({
            let prose = drop_channels_before_call(s.take(i));
            &&& text::contains(text::lowercase(prose + s.skip(i)), "thought"@) ==> clean_prose(s)
                == text::trim(strip_echo_lines_before(prose) + s.skip(i))
            &&& !text::contains(text::lowercase(prose + s.skip(i)), "thought"@) ==> clean_prose(s)
                == text::trim(prose + s.skip(i))
        }),
{
}

/// Prose without tool-call markup after it is cleaned as any text.
pub proof fn law_prose_without_call(s: Seq<char>)
    requires
        !text::contains(s, TOOL_CALL_START@),
        !text::contains(s, CHANNEL_END@),
        !text::contains(s, "call:"@),
    ensures
        clean_prose(s) == strip_leaks(s),
{
    let none = Seq::<char>::empty();
    assert(none + s =~= s);
    super::format_laws::law_no_markup(none, s);
}

/// However an output that ends in its reasoning is cut into chunks, the chunks
/// yield all of that reasoning, end to end, but for the white space at its ends.
pub proof fn law_truncated_stream(
    chunks: Seq<Seq<char>>,
    before: Seq<char>,
    open: Seq<char>,
    reasoning: Seq<char>,
)
    requires
        joined(chunks) == before + open + reasoning,
        safe_text(joined(chunks)) == joined(chunks),
        !text::contains(before, CHANNEL_START@),
        open == CHANNEL_START@ + THOUGHT_PREFIX@ || (open == CHANNEL_START@
            && !THOUGHT_PREFIX@.is_prefix_of(reasoning)),
        !text::contains(reasoning, CHANNEL_END@),
        !text::contains(reasoning, TOOL_CALL_START@),
    ensures
        yielded(chunks).reasoning == text::trim(reasoning),
{
    law_reasoning_stream(chunks);
    law_open_channel(before, open, reasoning);
    if text::trim(reasoning).len() == 0 {
        assert(text::trim(reasoning) =~= Seq::<char>::empty());
    }
}

/// However an output is cut into chunks in which a tool call ends the reasoning of
/// an open channel, the chunks yield all of that reasoning and no part of the call.
pub proof fn law_handed_off_stream(
    chunks: Seq<Seq<char>>,
    before: Seq<char>,
    open: Seq<char>,
    reasoning: Seq<char>,
    rest: Seq<char>,
)
    requires
        joined(chunks) == before + open + (reasoning + TOOL_CALL_START@ + rest),
        safe_text(joined(chunks)) == joined(chunks),
        !text::contains(before, CHANNEL_START@),
        open == CHANNEL_START@ + THOUGHT_PREFIX@ || (open == CHANNEL_START@
            && !THOUGHT_PREFIX@.is_prefix_of(reasoning)),
        !text::contains(reasoning, TOOL_CALL_START@),
        !text::contains(reasoning + TOOL_CALL_START@ + rest, CHANNEL_END@),
    ensures
        yielded(chunks).reasoning == text::trim(reasoning),
{
    law_reasoning_stream(chunks);
    law_call_in_open_channel(before, open, reasoning, rest);
    if text::trim(reasoning).len() == 0 {
        assert(text::trim(reasoning) =~= Seq::<char>::empty());
    }
}

} // verus!
