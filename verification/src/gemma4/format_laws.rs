//! What splitting and cleaning do to a text, stated on the parts of the text.

use vstd::prelude::*;

use super::format::{
    before_markup, channel_body, channel_round, channel_rounds, clean, compact,
    drop_channel_tokens, drop_channels, drop_control_tokens, drop_empty_thinking, drop_labels,
    drop_tool_grammar,
    from_markup, grammar_round, has_channel_token, has_markup, is_thought_echo,
    lemma_drop_tool_grammar, markup_start, may_leak, safe_text, shown_around, split_output,
    streamed_tokens, strip_echo, strip_echo_lines, strip_echoes, strip_leaks, unfinished_len,
};
use super::laws::{
    law_control_tokens_dropped, lemma_markers, lemma_part_has_no_token, lemma_trim_keeps_token,
    lemma_unfinished_len,
};
use super::{
    CALL_PREFIX, CHANNEL_END, CHANNEL_START, EMPTY_THINKING, EMPTY_THINKING_CR,
    LABELLED_EMPTY_THINKING, LABELLED_START, LABELLED_START_CR, STRING_DELIM, THOUGHT_PREFIX,
    THOUGHT_WORD, TOOL_CALL_END, TOOL_CALL_START,
};
use crate::text;

verus! {

/// The text after the opening of a channel, with its label or without, is the body
/// of the channel.
proof fn lemma_open_body(before: Seq<char>, open: Seq<char>, body: Seq<char>)
    requires
        !text::contains(before, CHANNEL_START@),
        open == CHANNEL_START@ + THOUGHT_PREFIX@ || (open == CHANNEL_START@
            && !THOUGHT_PREFIX@.is_prefix_of(body)),
    ensures
        text::first(before + open + body, CHANNEL_START@) == Some(before.len() as int),
        channel_body(before + open + body, before.len() as int) == body,
        (before + open + body).take(before.len() as int) == before,
{
    lemma_markers();
    let s = before + open + body;
    let n = before.len() as int;
    assert(s.take(n) =~= before);
    if open == CHANNEL_START@ + THOUGHT_PREFIX@ {
        assert(s =~= before + CHANNEL_START@ + (THOUGHT_PREFIX@ + body));
        text::lemma_first_after(before, CHANNEL_START@, THOUGHT_PREFIX@ + body);
        assert(s.skip(n + 10) =~= THOUGHT_PREFIX@ + body);
        text::law_strip_prefix(THOUGHT_PREFIX@, body);
    } else {
        text::lemma_first_after(before, CHANNEL_START@, body);
        assert(s.skip(n + 10) =~= body);
    }
}

/// Output without a channel is all content, and none of it is reasoning.
pub proof fn law_no_channel(s: Seq<char>)
    requires
        !text::contains(s, CHANNEL_START@),
    ensures
        split_output(s).reasoning is None,
        s.len() > 0 ==> split_output(s).content == Some(s),
        s.len() == 0 ==> split_output(s).content is None,
{
}

/// A channel that nothing closes is reasoning to its end, all of it but for the
/// white space at its ends, and there is no content.
pub proof fn law_open_channel(before: Seq<char>, open: Seq<char>, reasoning: Seq<char>)
    requires
        !text::contains(before, CHANNEL_START@),
        open == CHANNEL_START@ + THOUGHT_PREFIX@ || (open == CHANNEL_START@
            && !THOUGHT_PREFIX@.is_prefix_of(reasoning)),
        !text::contains(reasoning, CHANNEL_END@),
        !text::contains(reasoning, TOOL_CALL_START@),
    ensures
        text::trim(reasoning).len() > 0 ==> split_output(before + open + reasoning).reasoning
            == Some(text::trim(reasoning)),
        text::trim(reasoning).len() == 0 ==> split_output(before + open + reasoning).reasoning
            is None,
        split_output(before + open + reasoning).content is None,
{
    lemma_open_body(before, open, reasoning);
}

/// A tool call in a channel that nothing closes ends the reasoning. It is content
/// together with the text before the channel, as it is but for the white space at
/// the ends.
pub proof fn law_call_in_open_channel(
    before: Seq<char>,
    open: Seq<char>,
    reasoning: Seq<char>,
    rest: Seq<char>,
)
    requires
        !text::contains(before, CHANNEL_START@),
        open == CHANNEL_START@ + THOUGHT_PREFIX@ || (open == CHANNEL_START@
            && !THOUGHT_PREFIX@.is_prefix_of(reasoning)),
        !text::contains(reasoning, TOOL_CALL_START@),
        !text::contains(reasoning + TOOL_CALL_START@ + rest, CHANNEL_END@),
    ensures
        ({
            let split = split_output(before + open + (reasoning + TOOL_CALL_START@ + rest));
            &&& text::trim(reasoning).len() > 0 ==> split.reasoning == Some(text::trim(reasoning))
            &&& text::trim(reasoning).len() == 0 ==> split.reasoning is None
            &&& split.content == Some(text::trim(before + (TOOL_CALL_START@ + rest)))
        }),
{
    lemma_markers();
    reveal_strlit("<|tool_call>");
    reveal_strlit("thought\n");
    let call = TOOL_CALL_START@;
    let body = reasoning + call + rest;
    let r = reasoning.len() as int;
    if open == CHANNEL_START@ && THOUGHT_PREFIX@.is_prefix_of(body) {
        if r >= 8 {
            assert(reasoning.take(8) =~= body.take(8));
        } else {
            assert(body.take(8)[r] == call[0]);
        }
    }
    lemma_open_body(before, open, body);
    text::lemma_first_after(reasoning, call, rest);
    assert(body.take(r) =~= reasoning);
    assert(body.skip(r) =~= call + rest);
    let around = before + (call + rest);
    let n = before.len() as int;
    assert(around.subrange(n, n + call.len()) =~= call);
    law_markup_is_shown(around, call, n);
}

/// A closed channel is reasoning, all of it but for the white space at its ends and
/// even where nothing is left, whatever the label. Content is what is shown of the
/// text before and after it together, once there is any after it.
pub proof fn law_closed_output(
    before: Seq<char>,
    open: Seq<char>,
    reasoning: Seq<char>,
    answer: Seq<char>,
)
    requires
        !text::contains(before, CHANNEL_START@),
        open == CHANNEL_START@ + THOUGHT_PREFIX@ || (open == CHANNEL_START@
            && !THOUGHT_PREFIX@.is_prefix_of(reasoning)),
        !text::contains(reasoning, CHANNEL_END@),
    ensures
        ({
            let split = split_output(before + open + (reasoning + CHANNEL_END@ + answer));
            &&& split.reasoning == Some(text::trim(reasoning))
            &&& answer.len() == 0 ==> split.content is None
            &&& answer.len() > 0 ==> split.content == shown_around(before + answer)
        }),
{
    lemma_markers();
    reveal_strlit("thought\n");
    let body = reasoning + CHANNEL_END@ + answer;
    let r = reasoning.len() as int;
    if open == CHANNEL_START@ && THOUGHT_PREFIX@.is_prefix_of(body) {
        if r >= 8 {
            assert(reasoning.take(8) =~= body.take(8));
        } else {
            assert(body.take(8)[r] == CHANNEL_END@[0]);
        }
    }
    lemma_open_body(before, open, body);
    text::lemma_first_after(reasoning, CHANNEL_END@, answer);
    assert(body.take(r) =~= reasoning);
    assert(body.skip(r + 10) =~= answer);
}

/// Text around a channel that holds a tool-call token is shown as it is, without
/// the white space at its ends.
pub proof fn law_markup_is_shown(s: Seq<char>, tok: Seq<char>, i: int)
    requires
        tok == TOOL_CALL_START@ || tok == TOOL_CALL_END@ || tok == STRING_DELIM@,
        0 <= i && i + tok.len() <= s.len(),
        s.subrange(i, i + tok.len()) == tok,
    ensures
        shown_around(s) == Some(text::trim(s)),
{
    reveal_strlit("<|tool_call>");
    reveal_strlit("<tool_call|>");
    reveal_strlit("<|\"|>");
    assert(text::occurs_at(s, tok, i));
    lemma_trim_keeps_token(s, tok);
    let t = text::trim(s);
    let j = choose|j: int| text::occurs_at(t, tok, j);
    assert(t.len() > 0);
}

/// Blank text around a channel is not shown.
pub proof fn law_blank_is_not_shown(s: Seq<char>)
    requires
        forall|i: int| 0 <= i < s.len() ==> text::is_white_space(#[trigger] s[i]),
    ensures
        shown_around(s) is None,
{
    text::law_trim(s);
}

/// A text without a closed channel in which a brace follows a bare call has
/// markup.
proof fn lemma_bare_call_has_markup(s: Seq<char>, p: int, q: int)
    requires
        !text::contains(s, CHANNEL_END@),
        text::occurs_at(s, CALL_PREFIX@, p),
        p + 5 <= q < s.len(),
        s[q] == '{',
    ensures
        markup_start(s) is Some,
{
    reveal_strlit("call:");
    reveal_strlit("{");
    text::lemma_last(s, CHANNEL_END@);
    assert(s.skip(0) =~= s);
    text::lemma_first(s, CALL_PREFIX@);
    let c = text::first(s, CALL_PREFIX@)->0;
    let args = s.skip(c + 5);
    let at = q - (c + 5);
    assert(args.subrange(at, at + 1) =~= "{"@);
    assert(text::occurs_at(args, "{"@, at));
}

/// A bare call around a channel is shown as it is, without the white space at the
/// ends of the whole.
pub proof fn law_bare_call_is_shown(a: Seq<char>, b: Seq<char>)
    requires
        !text::contains(a + CALL_PREFIX@ + b, CHANNEL_END@),
        text::contains(b, "{"@),
    ensures
        shown_around(a + CALL_PREFIX@ + b) == Some(text::trim(a + CALL_PREFIX@ + b)),
{
    reveal_strlit("call:");
    reveal_strlit("{");
    let s = a + CALL_PREFIX@ + b;
    let t = text::trim(s);
    text::law_trim(s);
    let (i, j) = choose|i: int, j: int|
        #![trigger s.subrange(i, j)]
        0 <= i <= j <= s.len() && t == s.subrange(i, j) && (forall|k: int|
            0 <= k < i || j <= k < s.len() ==> text::is_white_space(#[trigger] s[k])) && (i < j
            ==> !text::is_white_space(s[i]) && !text::is_white_space(s[j - 1]));
    let n = a.len() as int;
    let m = choose|m: int| text::occurs_at(b, "{"@, m);
    assert(b.subrange(m, m + 1)[0] == '{');
    assert(s[n] == 'c' && s[n + 5 + m] == '{');
    assert(i <= n && n + 5 + m < j);
    lemma_part_has_no_token(s, i, j, CHANNEL_END@);
    assert(t.subrange(n - i, n - i + 5) =~= CALL_PREFIX@) by {
        assert(s.subrange(n, n + 5) =~= CALL_PREFIX@);
        assert(t.subrange(n - i, n - i + 5) =~= s.subrange(n, n + 5));
    }
    lemma_bare_call_has_markup(t, n - i, n + 5 + m - i);
}

/// Markup starts at the first tool-call token. What stands before it is kept but
/// for white space, and all from it on is handed off.
pub proof fn law_markup_at_token(a: Seq<char>, b: Seq<char>)
    requires
        !text::contains(a, TOOL_CALL_START@),
    ensures
        markup_start(a + TOOL_CALL_START@ + b) == Some(a.len() as int),
        before_markup(a + TOOL_CALL_START@ + b) == text::trim_end(a),
        from_markup(a + TOOL_CALL_START@ + b) == TOOL_CALL_START@ + b,
        has_markup(a + TOOL_CALL_START@ + b),
{
    lemma_markers();
    let s = a + TOOL_CALL_START@ + b;
    text::lemma_first_after(a, TOOL_CALL_START@, b);
    assert(s.take(a.len() as int) =~= a);
    assert(s.skip(a.len() as int) =~= TOOL_CALL_START@ + b);
    text::lemma_first(s, TOOL_CALL_START@);
}

/// Without a tool-call token, markup starts at the first bare call after the last
/// closed channel, where a brace follows it.
pub proof fn law_markup_at_call(x: Seq<char>, a: Seq<char>, b: Seq<char>)
    requires
        !text::contains(x + (a + CALL_PREFIX@ + b), TOOL_CALL_START@),
        x.len() == 0 || CHANNEL_END@.is_suffix_of(x),
        !text::contains(a + CALL_PREFIX@ + b, CHANNEL_END@),
        text::first(a + CALL_PREFIX@ + b, CALL_PREFIX@) == Some(a.len() as int),
    ensures
        ({
            let s = x + (a + CALL_PREFIX@ + b);
            &&& text::contains(b, "{"@) ==> {
                &&& markup_start(s) == Some((x.len() + a.len()) as int)
                &&& before_markup(s) == text::trim_end(x + a)
                &&& from_markup(s) == CALL_PREFIX@ + b
                &&& has_markup(s)
            }
            &&& !text::contains(b, "{"@) ==> {
                &&& markup_start(s) is None
                &&& before_markup(s) == text::trim_end(s)
                &&& from_markup(s).len() == 0
            }
        }),
{
    reveal_strlit("call:");
    let y = a + CALL_PREFIX@ + b;
    let s = x + y;
    lemma_last_close(x, y);
    text::lemma_first(s, TOOL_CALL_START@);
    let from = x.len() as int;
    assert(s.skip(from) =~= y);
    assert(s.skip(from + a.len() + 5) =~= b);
    assert(s.take(from + a.len()) =~= x + a);
    assert(s.skip(from + a.len()) =~= CALL_PREFIX@ + b);
}

/// Without a tool-call token, and without a bare call after the last closed
/// channel, a text has no markup.
pub proof fn law_no_markup(x: Seq<char>, y: Seq<char>)
    requires
        !text::contains(x + y, TOOL_CALL_START@),
        x.len() == 0 || CHANNEL_END@.is_suffix_of(x),
        !text::contains(y, CHANNEL_END@),
        !text::contains(y, CALL_PREFIX@),
    ensures
        markup_start(x + y) is None,
        before_markup(x + y) == text::trim_end(x + y),
        from_markup(x + y).len() == 0,
        has_markup(x + y) <==> text::contains(x + y, TOOL_CALL_END@) || text::contains(
            x + y,
            STRING_DELIM@,
        ),
{
    lemma_last_close(x, y);
    text::lemma_first(x + y, TOOL_CALL_START@);
    assert((x + y).skip(x.len() as int) =~= y);
    text::lemma_first(y, CALL_PREFIX@);
}

/// The last closed channel of a text.
proof fn lemma_last_close(x: Seq<char>, y: Seq<char>)
    requires
        x.len() == 0 || CHANNEL_END@.is_suffix_of(x),
        !text::contains(y, CHANNEL_END@),
    ensures
        x.len() == 0 ==> text::last(x + y, CHANNEL_END@) is None,
        x.len() > 0 ==> text::last(x + y, CHANNEL_END@) == Some(x.len() - 10),
        CHANNEL_END@.len() == 10,
{
    lemma_markers();
    let s = x + y;
    let n = x.len() as int;
    text::lemma_last(s, CHANNEL_END@);
    if n == 0 {
        assert(s =~= y);
    } else {
        assert(s.subrange(n - 10, n) =~= CHANNEL_END@) by {
            assert(x.subrange(n - 10, n) =~= s.subrange(n - 10, n));
        }
        assert(text::occurs_at(s, CHANNEL_END@, n - 10));
        assert forall|j: int| text::occurs_at(s, CHANNEL_END@, j) implies j <= n - 10 by {
            if j >= n {
                assert(y.subrange(j - n, j - n + 10) =~= s.subrange(j, j + 10));
                assert(text::occurs_at(y, CHANNEL_END@, j - n));
            } else if j > n - 10 {
                assert(s.subrange(j, j + 10)[0] == s[j]);
                assert(s.subrange(n - 10, n)[j - (n - 10)] == s[j]);
            }
        }
        assert(text::is_last(s, CHANNEL_END@, n - 10));
        text::lemma_last_is(s, CHANNEL_END@, n - 10);
    }
}

/// A text has markup where it holds a closing tool-call token or a string
/// delimiter.
pub proof fn law_grammar_is_markup(a: Seq<char>, tok: Seq<char>, b: Seq<char>)
    requires
        tok == TOOL_CALL_END@ || tok == STRING_DELIM@,
    ensures
        has_markup(a + tok + b),
{
    let s = a + tok + b;
    let n = a.len() as int;
    assert(s.subrange(n, n + tok.len()) =~= tok);
    assert(text::occurs_at(s, tok, n));
}

/// An unfinished control token at the end of a text is not safe.
pub proof fn law_unfinished_token_is_cut(x: Seq<char>, tok: Seq<char>, n: int)
    requires
        tok == CHANNEL_START@ || tok == CHANNEL_END@ || tok == LABELLED_START@ || tok
            == LABELLED_START_CR@ || tok == TOOL_CALL_START@ || tok == TOOL_CALL_END@ || tok
            == STRING_DELIM@,
        0 < n < tok.len(),
    ensures
        safe_text(x + tok.take(n)).len() <= x.len(),
{
    let s = x + tok.take(n);
    let toks = streamed_tokens();
    assert(toks[0] == CHANNEL_START@ && toks[1] == CHANNEL_END@ && toks[2] == LABELLED_START@);
    assert(toks[3] == LABELLED_START_CR@ && toks[4] == TOOL_CALL_START@);
    assert(toks[5] == TOOL_CALL_END@ && toks[6] == STRING_DELIM@);
    assert(exists|t: int| 0 <= t < 7 && toks[t] == tok);
    let t = choose|t: int| 0 <= t < 7 && toks[t] == tok;
    assert(s.skip(s.len() - n) =~= tok.take(n));
    assert(super::format::ends_in_start_of(s, toks[t], n));
    assert(super::format::ends_in_unfinished(s, n));
    lemma_unfinished_len(s);
}

/// Only an unfinished control token is ever cut from the end of a text.
pub proof fn law_only_unfinished_tokens_are_cut(s: Seq<char>)
    ensures
        safe_text(s) == s || exists|tok: Seq<char>, n: int|
            #![trigger tok.take(n)]
            (tok == CHANNEL_START@ || tok == CHANNEL_END@ || tok == LABELLED_START@ || tok
                == LABELLED_START_CR@ || tok == TOOL_CALL_START@ || tok == TOOL_CALL_END@ || tok
                == STRING_DELIM@) && 0 < n < tok.len() && s == safe_text(s) + tok.take(n),
{
    lemma_unfinished_len(s);
    let n = unfinished_len(s);
    if n == 0 {
        assert(safe_text(s) =~= s);
    } else {
        let toks = streamed_tokens();
        let t = choose|t: int|
            0 <= t < toks.len() && #[trigger] super::format::ends_in_start_of(s, toks[t], n);
        let tok = toks[t];
        assert(super::format::ends_in_start_of(s, tok, n));
        assert(s =~= safe_text(s) + tok.take(n));
    }
}

/// Text around a channel without control tokens, without the word `thought` and
/// without a bare call is shown whole, but for the white space at its ends.
pub proof fn law_prose_is_shown(s: Seq<char>)
    requires
        ({
            let t = text::trim(s);
            &&& !text::contains(t, CHANNEL_START@)
            &&& !text::contains(t, CHANNEL_END@)
            &&& !text::contains(t, TOOL_CALL_START@)
            &&& !text::contains(t, TOOL_CALL_END@)
            &&& !text::contains(t, STRING_DELIM@)
            &&& !text::contains(text::lowercase(t), THOUGHT_WORD@)
            &&& !text::contains(t, CALL_PREFIX@)
        }),
    ensures
        text::trim(s).len() > 0 ==> shown_around(s) == Some(text::trim(s)),
{
    let t = text::trim(s);
    text::lemma_first(t, TOOL_CALL_START@);
    text::lemma_last(t, CHANNEL_END@);
    assert(t.skip(0) =~= t);
    text::lemma_first(t, CALL_PREFIX@);
    text::lemma_trim_end_of_trim(s);
}

/// `n` times the word `thought`.
pub open spec fn thoughts(n: nat) -> Seq<char>
    decreases n,
{
    if n == 0 {
        Seq::empty()
    } else {
        "thought"@ + thoughts((n - 1) as nat)
    }
}

/// `line` is an echo: in lower case and without white space it is the start of
/// some number of repetitions of the word `thought`, and not empty.
pub open spec fn echoes(line: Seq<char>) -> bool {
    let c = text::lowercase(line).filter(|c: char| !text::is_white_space(c));
    c.len() > 0 && exists|n: nat| c.is_prefix_of(#[trigger] thoughts(n))
}

proof fn lemma_thoughts(n: nat)
    ensures
        thoughts(n).len() == 7 * n,
        forall|i: int| 0 <= i < 7 * n ==> #[trigger] thoughts(n)[i] == "thought"@[i % 7],
    decreases n,
{
    reveal_strlit("thought");
    if n > 0 {
        let m = (n - 1) as nat;
        lemma_thoughts(m);
        assert forall|i: int| 0 <= i < 7 * n implies #[trigger] thoughts(n)[i]
            == "thought"@[i % 7] by {
            if i >= 7 {
                assert(thoughts(n)[i] == thoughts(m)[i - 7]);
                assert((i - 7) % 7 == i % 7);
            }
        }
    }
}

/// A line is dropped exactly where it is an echo. Its line end stays either way,
/// and so does any other line, character by character.
pub proof fn law_echo_line(line: Seq<char>, nl: Seq<char>)
    ensures
        echoes(line) ==> strip_echo(line, nl) == nl,
        !echoes(line) ==> strip_echo(line, nl) == line + nl,
{
    reveal_strlit("thought");
    let c = text::lowercase(line).filter(|c: char| !text::is_white_space(c));
    assert(compact(line) == c);
    if is_thought_echo(c) {
        let n = c.len();
        lemma_thoughts(n);
        assert(c =~= thoughts(n).take(n as int));
        assert(echoes(line));
    }
    if echoes(line) {
        let n = choose|n: nat| c.is_prefix_of(#[trigger] thoughts(n));
        lemma_thoughts(n);
        assert forall|i: int| 0 <= i < c.len() implies #[trigger] c[i] == THOUGHT_WORD@[i % 7] by {
            assert(c[i] == thoughts(n).take(c.len() as int)[i]);
        }
        assert(is_thought_echo(c));
    }
}

/// The text of `lines`, with a line feed between any two.
pub open spec fn text_of(lines: Seq<Seq<char>>) -> Seq<char>
    decreases lines.len(),
{
    if lines.len() == 0 {
        Seq::empty()
    } else if lines.len() == 1 {
        lines[0]
    } else {
        lines[0] + seq!['\n'] + text_of(lines.skip(1))
    }
}

/// `out` has as many lines as `lines`, each the same or empty where it is an echo.
pub open spec fn only_echoes_dropped(lines: Seq<Seq<char>>, out: Seq<Seq<char>>) -> bool {
    &&& out.len() == lines.len()
    &&& forall|k: int|
        #![trigger out[k]]
        0 <= k < lines.len() ==> if echoes(lines[k]) {
            out[k].len() == 0
        } else {
            out[k] == lines[k]
        }
}

proof fn lemma_echo_lines(lines: Seq<Seq<char>>) -> (out: Seq<Seq<char>>)
    requires
        lines.len() > 0,
        forall|k: int| 0 <= k < lines.len() ==> !(#[trigger] lines[k]).contains('\n'),
    ensures
        only_echoes_dropped(lines, out),
        strip_echo_lines(text_of(lines)) == text_of(out),
    decreases lines.len(),
{
    let nl = seq!['\n'];
    let none = Seq::<char>::empty();
    let a = lines[0];
    let s = text_of(lines);
    law_echo_line(a, nl);
    law_echo_line(a, none);
    assert forall|i: int| !text::occurs_at(a, nl, i) by {
        if text::occurs_at(a, nl, i) {
            assert(a.subrange(i, i + 1)[0] == nl[0]);
            assert(a[i] == '\n');
        }
    }
    assert(!text::contains(a, nl));
    let first = if echoes(a) {
        none
    } else {
        a
    };
    if lines.len() == 1 {
        let out = seq![first];
        text::lemma_first(s, nl);
        assert(a + none =~= a);
        if a.len() == 0 {
            if echoes(a) {
                assert(strip_echo_lines(s) =~= none);
            }
        }
        assert(strip_echo_lines(s) =~= text_of(out));
        out
    } else {
        let rest = lines.skip(1);
        assert forall|k: int| 0 <= k < rest.len() implies !(#[trigger] rest[k]).contains('\n') by {
            assert(rest[k] == lines[k + 1]);
        }
        let more = lemma_echo_lines(rest);
        let out = seq![first] + more;
        let b = text_of(rest);
        assert(s == a + nl + b);
        text::lemma_first_after(a, nl, b);
        assert(s.take(a.len() as int) =~= a);
        assert(s.skip(a.len() as int + 1) =~= b);
        assert(out.skip(1) =~= more);
        assert(only_echoes_dropped(lines, out)) by {
            assert forall|k: int|
                #![trigger out[k]]
                0 <= k < lines.len() implies if echoes(lines[k]) {
                out[k].len() == 0
            } else {
                out[k] == lines[k]
            } by {
                if k > 0 {
                    assert(out[k] == more[k - 1]);
                    assert(rest[k - 1] == lines[k]);
                }
            }
        }
        assert(strip_echo(a, nl) =~= first + nl) by {
            if echoes(a) {
                assert(first + nl =~= nl);
            }
        }
        assert(text_of(out) =~= first + nl + text_of(more));
        out
    }
}

/// Stripping echoes drops no line and changes none but echoes: where the word
/// `thought` stands in a text, the outcome has as many lines, each as it was or
/// empty where it is an echo. Any other text stays as it is.
pub proof fn law_only_echoes_stripped(lines: Seq<Seq<char>>)
    requires
        lines.len() > 0,
        forall|k: int| 0 <= k < lines.len() ==> !(#[trigger] lines[k]).contains('\n'),
    ensures
        text::contains(text::lowercase(text_of(lines)), "thought"@) ==> exists|
            out: Seq<Seq<char>>,
        |
            only_echoes_dropped(lines, out) && strip_echoes(text_of(lines)) == #[trigger] text_of(
                out,
            ),
        !text::contains(text::lowercase(text_of(lines)), "thought"@) ==> strip_echoes(
            text_of(lines),
        ) == text_of(lines),
{
    let out = lemma_echo_lines(lines);
    assert(strip_echo_lines(text_of(lines)) == text_of(out));
}

/// A text none of whose lines is an echo is left alone by the stripping of echoes.
pub proof fn law_no_echo_is_unchanged(lines: Seq<Seq<char>>)
    requires
        lines.len() > 0,
        forall|k: int|
            0 <= k < lines.len() ==> !(#[trigger] lines[k]).contains('\n') && !echoes(lines[k]),
    ensures
        strip_echoes(text_of(lines)) == text_of(lines),
{
    let out = lemma_echo_lines(lines);
    assert(out =~= lines) by {
        assert forall|k: int| 0 <= k < lines.len() implies out[k] == lines[k] by {
            assert(!lines[k].contains('\n'));
        }
    }
}

/// Every text is made of lines.
pub proof fn law_text_has_lines(s: Seq<char>) -> (lines: Seq<Seq<char>>)
    ensures
        lines.len() > 0,
        forall|k: int| 0 <= k < lines.len() ==> !(#[trigger] lines[k]).contains('\n'),
        text_of(lines) == s,
    decreases s.len(),
{
    if s.len() == 0 {
        seq![s]
    } else {
        let rest = law_text_has_lines(s.skip(1));
        let c = s[0];
        if c == '\n' {
            let lines = seq![Seq::<char>::empty()] + rest;
            assert(lines.skip(1) =~= rest);
            assert(text_of(lines) =~= s);
            lines
        } else {
            let lines = rest.update(0, seq![c] + rest[0]);
            assert forall|k: int| 0 <= k < lines.len() implies !(#[trigger] lines[k]).contains(
                '\n',
            ) by {
                assert(!rest[k].contains('\n'));
                if k == 0 && lines[0].contains('\n') {
                    let i = choose|i: int| 0 <= i < lines[0].len() && lines[0][i] == '\n';
                    assert(rest[0][i - 1] == '\n');
                }
            }
            assert(s =~= seq![c] + text_of(rest));
            if rest.len() > 1 {
                assert(lines.skip(1) =~= rest.skip(1));
                let more = text_of(rest.skip(1));
                assert(seq![c] + rest[0] + seq!['\n'] + more =~= seq![c] + (rest[0] + seq!['\n']
                    + more));
            }
            assert(text_of(lines) =~= s);
            lines
        }
    }
}

/// A text without control tokens none of whose lines is an echo loses nothing but
/// the white space at its ends.
pub proof fn law_answer_is_kept(lines: Seq<Seq<char>>)
    requires
        lines.len() > 0,
        forall|k: int|
            0 <= k < lines.len() ==> !(#[trigger] lines[k]).contains('\n') && !echoes(lines[k]),
        !text::contains(text_of(lines), CHANNEL_START@),
        !text::contains(text_of(lines), CHANNEL_END@),
        !text::contains(text_of(lines), TOOL_CALL_END@),
        !text::contains(text_of(lines), STRING_DELIM@),
    ensures
        strip_leaks(text_of(lines)) == text::trim(text_of(lines)) || strip_leaks(text_of(lines))
            == text_of(lines),
        text::trim(strip_leaks(text_of(lines))) == text::trim(text_of(lines)),
{
    let s = text_of(lines);
    law_no_echo_is_unchanged(lines);
    lemma_no_tokens_nothing_dropped(s);
    text::lemma_trim_twice(s);
}

/// Nothing is dropped from a text without control tokens.
proof fn lemma_no_tokens_nothing_dropped(s: Seq<char>)
    requires
        !text::contains(s, CHANNEL_START@),
        !text::contains(s, CHANNEL_END@),
        !text::contains(s, TOOL_CALL_END@),
        !text::contains(s, STRING_DELIM@),
    ensures
        drop_channels(s) == s,
{
    reveal_strlit("thought\n<|channel>thought\n<channel|>");
    reveal_strlit("<|channel>thought\n<channel|>");
    reveal_strlit("<|channel>thought\r\n<channel|>");
    reveal_strlit("<|channel>");
    reveal_strlit("thought\n");
    assert(LABELLED_EMPTY_THINKING@.subrange(8, 18) =~= CHANNEL_START@);
    assert(EMPTY_THINKING@.subrange(0, 10) =~= CHANNEL_START@);
    assert(EMPTY_THINKING_CR@.subrange(0, 10) =~= CHANNEL_START@);
    lemma_pattern_holds_token(s, LABELLED_EMPTY_THINKING@, 8);
    lemma_pattern_holds_token(s, EMPTY_THINKING@, 0);
    lemma_pattern_holds_token(s, EMPTY_THINKING_CR@, 0);
    text::lemma_remove_all(s, LABELLED_EMPTY_THINKING@);
    text::lemma_remove_all(s, EMPTY_THINKING@);
    text::lemma_remove_all(s, EMPTY_THINKING_CR@);
    if THOUGHT_PREFIX@.is_prefix_of(s) {
        assert(s.skip(8) =~= s.subrange(8, s.len() as int));
        lemma_part_has_no_token(s, 8, s.len() as int, CHANNEL_START@);
        lemma_part_has_no_token(s, 8, s.len() as int, CHANNEL_END@);
    }
    lemma_drop_tool_grammar(s);
}

/// A pattern that opens a channel stands nowhere in a text without channels.
proof fn lemma_pattern_holds_token(s: Seq<char>, p: Seq<char>, k: int)
    requires
        !text::contains(s, CHANNEL_START@),
        0 <= k && k + 10 <= p.len(),
        p.subrange(k, k + 10) == CHANNEL_START@,
        CHANNEL_START@.len() == 10,
    ensures
        !text::contains(s, p),
{
    if text::contains(s, p) {
        let j = choose|j: int| text::occurs_at(s, p, j);
        assert(s.subrange(j + k, j + k + 10) =~= s.subrange(j, j + p.len()).subrange(k, k + 10));
        assert(text::occurs_at(s, CHANNEL_START@, j + k));
    }
}

/// Leaks are looked for exactly where a control token stands in a text or the word
/// `thought`, in upper or lower case. Any other text stays as it is.
pub proof fn law_leaks(s: Seq<char>)
    ensures
        may_leak(s) <==> text::contains(s, "<|channel>"@) || text::contains(s, "<channel|>"@)
            || text::contains(s, "<|tool_call>"@) || text::contains(s, "<tool_call|>"@)
            || text::contains(s, "<|\"|>"@) || text::contains(text::lowercase(s), "thought"@),
        !may_leak(s) ==> strip_leaks(s) == s,
        !may_leak(s) ==> clean(s) == before_markup(s),
{
}

/// `part` may be taken out between `a` and `b`: a control token, an empty channel,
/// a label at the front that a channel token still follows, or white space at an
/// end.
pub open spec fn may_go(a: Seq<char>, part: Seq<char>, b: Seq<char>) -> bool {
    ||| part == "<|channel>"@ || part == "<channel|>"@ || part == "<tool_call|>"@ || part
        == "<|\"|>"@
    ||| part == "<|channel>thought\n<channel|>"@ || part == "<|channel>thought\r\n<channel|>"@
        || part == "thought\n<|channel>thought\n<channel|>"@
    ||| a.len() == 0 && part == "thought\n"@ && (text::contains(b, "<|channel>"@)
        || text::contains(b, "<channel|>"@))
    ||| (a.len() == 0 || b.len() == 0) && forall|i: int|
        0 <= i < part.len() ==> text::is_white_space(#[trigger] part[i])
}

/// `out` is what is left of `s` after `n` parts that may go were taken out, one
/// after the other.
pub open spec fn left_after(s: Seq<char>, out: Seq<char>, n: nat) -> bool
    decreases n,
{
    if n == 0 {
        out == s
    } else {
        exists|a: Seq<char>, part: Seq<char>, b: Seq<char>|
            #![trigger may_go(a, part, b)]
            s == a + part + b && may_go(a, part, b) && left_after(a + b, out, (n - 1) as nat)
    }
}

/// `out` is what is left of `s` after some parts that may go were taken out.
pub open spec fn left_of(s: Seq<char>, out: Seq<char>) -> bool {
    exists|n: nat| left_after(s, out, n)
}

proof fn lemma_left_after_more(s: Seq<char>, t: Seq<char>, out: Seq<char>, n: nat, m: nat)
    requires
        left_after(s, t, n),
        left_after(t, out, m),
    ensures
        left_after(s, out, n + m),
    decreases n,
{
    if n > 0 {
        let (a, part, b) = choose|a: Seq<char>, part: Seq<char>, b: Seq<char>|
            #![trigger may_go(a, part, b)]
            s == a + part + b && may_go(a, part, b) && left_after(a + b, t, (n - 1) as nat);
        lemma_left_after_more(a + b, t, out, (n - 1) as nat, m);
        assert((n + m - 1) as nat == (n - 1) as nat + m);
    }
}

proof fn lemma_left_of_more(s: Seq<char>, t: Seq<char>, out: Seq<char>)
    requires
        left_of(s, t),
        left_of(t, out),
    ensures
        left_of(s, out),
{
    let n = choose|n: nat| left_after(s, t, n);
    let m = choose|m: nat| left_after(t, out, m);
    lemma_left_after_more(s, t, out, n, m);
}

proof fn lemma_left_of_same(s: Seq<char>)
    ensures
        left_of(s, s),
{
    assert(left_after(s, s, 0));
}

proof fn lemma_left_of_part(a: Seq<char>, part: Seq<char>, b: Seq<char>)
    requires
        may_go(a, part, b),
    ensures
        left_of(a + part + b, a + b),
{
    assert(left_after(a + b, a + b, 0));
    assert(left_after(a + part + b, a + b, 1)) by {
        assert(may_go(a, part, b));
    }
}

/// Removal of a part that may always go.
proof fn lemma_left_of_removal(x: Seq<char>, s: Seq<char>, p: Seq<char>)
    requires
        p.len() > 0,
        forall|a: Seq<char>, b: Seq<char>| #[trigger] may_go(a, p, b),
    ensures
        left_of(x + s, x + text::remove_all(s, p)),
    decreases s.len(),
{
    if s.len() == 0 {
        lemma_left_of_same(x + s);
    } else if text::occurs_at(s, p, 0) {
        let rest = s.skip(p.len() as int);
        assert(x + s =~= x + p + rest) by {
            assert(s =~= s.subrange(0, p.len() as int) + rest);
        }
        assert(may_go(x, p, rest));
        lemma_left_of_part(x, p, rest);
        lemma_left_of_removal(x, rest, p);
        lemma_left_of_more(x + s, x + rest, x + text::remove_all(s, p));
    } else {
        let rest = s.skip(1);
        let y = x + seq![s[0]];
        assert(x + s =~= y + rest);
        lemma_left_of_removal(y, rest, p);
        assert(y + text::remove_all(rest, p) =~= x + text::remove_all(s, p));
    }
}

proof fn lemma_left_of_remove_all(s: Seq<char>, p: Seq<char>)
    requires
        p.len() > 0,
        forall|a: Seq<char>, b: Seq<char>| #[trigger] may_go(a, p, b),
    ensures
        left_of(s, text::remove_all(s, p)),
{
    let none = Seq::<char>::empty();
    lemma_left_of_removal(none, s, p);
    assert(none + s =~= s);
    assert(none + text::remove_all(s, p) =~= text::remove_all(s, p));
}

proof fn lemma_left_of_front(s: Seq<char>, i: int)
    requires
        0 <= i <= s.len(),
        forall|k: int| 0 <= k < i ==> text::is_white_space(#[trigger] s[k]),
    ensures
        left_of(s, s.skip(i)),
{
    let none = Seq::<char>::empty();
    let a = s.take(i);
    let m = s.skip(i);
    assert forall|k: int| 0 <= k < a.len() implies text::is_white_space(#[trigger] a[k]) by {
        assert(a[k] == s[k]);
    }
    assert(may_go(none, a, m));
    lemma_left_of_part(none, a, m);
    assert(none + a + m =~= s);
    assert(none + m =~= m);
}

proof fn lemma_left_of_back(s: Seq<char>, j: int)
    requires
        0 <= j <= s.len(),
        forall|k: int| j <= k < s.len() ==> text::is_white_space(#[trigger] s[k]),
    ensures
        left_of(s, s.take(j)),
{
    let none = Seq::<char>::empty();
    let a = s.take(j);
    let b = s.skip(j);
    assert forall|k: int| 0 <= k < b.len() implies text::is_white_space(#[trigger] b[k]) by {
        assert(b[k] == s[j + k]);
    }
    assert(may_go(a, b, none));
    lemma_left_of_part(a, b, none);
    assert(a + b + none =~= s);
    assert(a + none =~= a);
}

proof fn lemma_left_of_trim(s: Seq<char>)
    ensures
        left_of(s, text::trim(s)),
{
    text::law_trim_start(s);
    let i = choose|i: int|
        0 <= i <= s.len() && text::trim_start(s) == #[trigger] s.skip(i) && (forall|k: int|
            0 <= k < i ==> text::is_white_space(#[trigger] s[k])) && (i < s.len()
            ==> !text::is_white_space(s[i]));
    lemma_left_of_front(s, i);
    let u = s.skip(i);
    text::law_trim_end(u);
    let m = choose|m: int|
        0 <= m <= u.len() && text::trim_end(u) == #[trigger] u.take(m) && (forall|k: int|
            m <= k < u.len() ==> text::is_white_space(#[trigger] u[k])) && (m > 0
            ==> !text::is_white_space(u[m - 1]));
    lemma_left_of_back(u, m);
    lemma_left_of_more(s, u, text::trim(s));
}

proof fn lemma_left_of_labels(s: Seq<char>)
    ensures
        left_of(s, drop_labels(s)),
    decreases s.len(),
{
    reveal_strlit("thought\n");
    let none = Seq::<char>::empty();
    let label = THOUGHT_PREFIX@;
    if label.is_prefix_of(s) && has_channel_token(s.skip(8)) {
        let rest = s.skip(8);
        assert(may_go(none, label, rest));
        lemma_left_of_part(none, label, rest);
        assert(none + label + rest =~= s) by {
            assert(s =~= s.take(8) + rest);
        }
        assert(none + rest =~= rest);
        lemma_left_of_labels(rest);
        lemma_left_of_more(s, rest, drop_labels(s));
    } else {
        lemma_left_of_same(s);
    }
}

proof fn lemma_left_of_channel_rounds(s: Seq<char>)
    ensures
        left_of(s, channel_rounds(s)),
    decreases s.len(),
{
    if channel_round(s).len() < s.len() {
        reveal_strlit("<|channel>");
        reveal_strlit("<channel|>");
        let a = text::remove_all(s, CHANNEL_START@);
        let b = text::remove_all(a, CHANNEL_END@);
        lemma_left_of_remove_all(s, CHANNEL_START@);
        lemma_left_of_remove_all(a, CHANNEL_END@);
        lemma_left_of_more(s, a, b);
        lemma_left_of_trim(b);
        lemma_left_of_more(s, b, channel_round(s));
        lemma_left_of_channel_rounds(channel_round(s));
        lemma_left_of_more(s, channel_round(s), channel_rounds(s));
    } else {
        lemma_left_of_same(s);
    }
}

proof fn lemma_left_of_grammar(s: Seq<char>)
    ensures
        left_of(s, drop_tool_grammar(s)),
    decreases s.len(),
{
    if grammar_round(s).len() < s.len() {
        reveal_strlit("<tool_call|>");
        reveal_strlit("<|\"|>");
        let a = text::remove_all(s, TOOL_CALL_END@);
        lemma_left_of_remove_all(s, TOOL_CALL_END@);
        lemma_left_of_remove_all(a, STRING_DELIM@);
        lemma_left_of_more(s, a, grammar_round(s));
        lemma_left_of_grammar(grammar_round(s));
        lemma_left_of_more(s, grammar_round(s), drop_tool_grammar(s));
    } else {
        lemma_left_of_same(s);
    }
}

proof fn lemma_left_of_control_tokens(s: Seq<char>)
    ensures
        left_of(s, drop_control_tokens(s)),
    decreases s.len(),
{
    let a = drop_channel_tokens(s);
    let next = drop_tool_grammar(a);
    lemma_left_of_same(s);
    if next.len() < s.len() {
        lemma_left_of_channel_rounds(s);
        lemma_left_of_grammar(a);
        lemma_left_of_more(s, a, next);
        lemma_left_of_control_tokens(next);
        lemma_left_of_more(s, next, drop_control_tokens(s));
    }
}

/// Nothing but control tokens, empty channels, labels before a channel and white
/// space at the ends goes when channels are dropped, and no control token is left.
pub proof fn law_channels_dropped(s: Seq<char>)
    ensures
        left_of(s, drop_channels(s)),
        !text::contains(drop_channels(s), "<|channel>"@),
        !text::contains(drop_channels(s), "<channel|>"@),
        !text::contains(drop_channels(s), "<tool_call|>"@),
        !text::contains(drop_channels(s), "<|\"|>"@),
{
    reveal_strlit("thought\n<|channel>thought\n<channel|>");
    reveal_strlit("<|channel>thought\n<channel|>");
    reveal_strlit("<|channel>thought\r\n<channel|>");
    let a = text::remove_all(s, LABELLED_EMPTY_THINKING@);
    let b = text::remove_all(a, EMPTY_THINKING@);
    let c = text::remove_all(b, EMPTY_THINKING_CR@);
    let d = drop_labels(c);
    lemma_left_of_remove_all(s, LABELLED_EMPTY_THINKING@);
    lemma_left_of_remove_all(a, EMPTY_THINKING@);
    lemma_left_of_remove_all(b, EMPTY_THINKING_CR@);
    lemma_left_of_more(s, a, b);
    lemma_left_of_more(s, b, c);
    lemma_left_of_labels(c);
    lemma_left_of_more(s, c, d);
    lemma_left_of_control_tokens(d);
    lemma_left_of_more(s, d, drop_channels(s));
    law_control_tokens_dropped(d);
}

/// Tool-call grammar is all that goes when it is stripped, and none of it is left.
pub proof fn law_grammar_stripped(s: Seq<char>)
    ensures
        left_of(s, drop_tool_grammar(s)),
        !text::contains(drop_tool_grammar(s), "<tool_call|>"@),
        !text::contains(drop_tool_grammar(s), "<|\"|>"@),
{
    lemma_left_of_grammar(s);
    lemma_drop_tool_grammar(s);
}

/// Cleaning a text that may leak drops its channels, then its echoes, and then the
/// white space at the ends of the rest; what a client sees of it comes before
/// tool-call markup.
pub proof fn law_leaks_stripped(s: Seq<char>)
    requires
        may_leak(s),
    ensures
        exists|d: Seq<char>|
            {
                &&& left_of(s, d)
                &&& !text::contains(d, "<|channel>"@) && !text::contains(d, "<channel|>"@)
                &&& !text::contains(d, "<tool_call|>"@) && !text::contains(d, "<|\"|>"@)
                &&& strip_leaks(s) == text::trim(#[trigger] strip_echoes(d))
            },
        strip_leaks(s) == text::trim(strip_echoes(drop_channels(s))),
        clean(s) == before_markup(strip_leaks(s)),
{
    law_channels_dropped(s);
    assert(strip_leaks(s) == text::trim(strip_echoes(drop_channels(s))));
}

/// No pattern that starts after a `<` in it stands across text without one.
proof fn lemma_removal_after_prose(a: Seq<char>, p: Seq<char>, b: Seq<char>)
    requires
        p.len() > 0,
        p[0] == '<',
        forall|k: int| 0 <= k < a.len() ==> a[k] != '<',
    ensures
        text::remove_all(a + b, p) == a + text::remove_all(b, p),
    decreases a.len(),
{
    let s = a + b;
    if a.len() == 0 {
        assert(s =~= b);
        assert(a + text::remove_all(b, p) =~= text::remove_all(b, p));
    } else {
        if text::occurs_at(s, p, 0) {
            assert(s.subrange(0, p.len() as int)[0] == s[0]);
        }
        let rest = a.skip(1);
        assert(s.skip(1) =~= rest + b);
        lemma_removal_after_prose(rest, p, b);
        assert(seq![s[0]] + (rest + text::remove_all(b, p)) =~= a + text::remove_all(b, p));
    }
}

/// A pattern at the front of a text is removed.
proof fn lemma_removal_at_front(p: Seq<char>, b: Seq<char>)
    requires
        p.len() > 0,
    ensures
        text::remove_all(p + b, p) == text::remove_all(b, p),
{
    let s = p + b;
    assert(s.subrange(0, p.len() as int) =~= p);
    assert(s.skip(p.len() as int) =~= b);
}

/// The labelled pattern stands nowhere in prose up to a `<` after which no channel
/// opens and closes with its label, nor within such a channel.
proof fn lemma_no_labelled_pattern(a: Seq<char>, p: Seq<char>, b: Seq<char>)
    requires
        p == EMPTY_THINKING@ || p == EMPTY_THINKING_CR@,
        forall|k: int| 0 <= k < a.len() ==> a[k] != '<',
        p == EMPTY_THINKING@ ==> !THOUGHT_PREFIX@.is_suffix_of(a),
    ensures
        text::remove_all(a + p + b, LABELLED_EMPTY_THINKING@) == a + p + text::remove_all(
            b,
            LABELLED_EMPTY_THINKING@,
        ),
    decreases a.len() + p.len(),
{
    reveal_strlit("thought\n<|channel>thought\n<channel|>");
    reveal_strlit("<|channel>thought\n<channel|>");
    reveal_strlit("<|channel>thought\r\n<channel|>");
    reveal_strlit("thought\n");
    lemma_no_labelled_pattern_from(a, p, b, 0);
    let s = a + p + b;
    assert(s.skip(0) =~= s);
    assert((a + p).skip(0) =~= a + p);
}

proof fn lemma_no_labelled_pattern_from(a: Seq<char>, p: Seq<char>, b: Seq<char>, i: int)
    requires
        p == EMPTY_THINKING@ || p == EMPTY_THINKING_CR@,
        forall|k: int| 0 <= k < a.len() ==> a[k] != '<',
        p == EMPTY_THINKING@ ==> !THOUGHT_PREFIX@.is_suffix_of(a),
        0 <= i <= a.len() + p.len(),
    ensures
        text::remove_all((a + p + b).skip(i), LABELLED_EMPTY_THINKING@) == (a + p).skip(i)
            + text::remove_all(b, LABELLED_EMPTY_THINKING@),
    decreases a.len() + p.len() - i,
{
    reveal_strlit("thought\n<|channel>thought\n<channel|>");
    reveal_strlit("<|channel>thought\n<channel|>");
    reveal_strlit("<|channel>thought\r\n<channel|>");
    reveal_strlit("thought\n");
    let pat = LABELLED_EMPTY_THINKING@;
    let s = a + p + b;
    let n = a.len() as int;
    let t = s.skip(i);
    let r = text::remove_all(b, pat);
    if i == n + p.len() {
        assert(t =~= b);
        assert((a + p).skip(i) + r =~= r);
    } else {
        lemma_no_labelled_pattern_from(a, p, b, i + 1);
        assert(t.skip(1) =~= s.skip(i + 1));
        if text::occurs_at(t, pat, 0) {
            assert forall|k: int| 0 <= k < 36 implies s[i + k] == pat[k] by {
                assert(t.subrange(0, 36)[k] == pat[k]);
            }
            assert(pat[8] == '<');
            assert(s[i + 8] == '<');
            if i + 8 < n {
                assert(s[i + 8] == a[i + 8]);
            } else if i + 8 == n {
                if p == EMPTY_THINKING@ {
                    assert(THOUGHT_PREFIX@ =~= a.subrange(n - 8, n)) by {
                        assert forall|k: int| 0 <= k < 8 implies a[n - 8 + k]
                            == THOUGHT_PREFIX@[k] by {
                            assert(s[i + k] == pat[k]);
                        }
                    }
                } else {
                    assert(s[i + 25] == pat[25]);
                    assert(s[i + 25] == p[17]);
                }
            } else if i < n {
                assert(s[i + (n - i)] == pat[n - i]);
                assert(s[n] == p[0]);
            } else {
                let k = i - n;
                assert(s[i + 0] == pat[0]);
                assert(s[i] == p[k]);
                assert(k == 10 || k == 16);
                assert(s[i + 1] == pat[1] && s[i + 1] == p[k + 1]);
                assert(s[i + 7] == pat[7] && s[i + 9] == pat[9]);
                if k == 10 {
                    assert(s[i + 7] == p[17] && s[i + 9] == p[19]);
                }
            }
        }
        assert(seq![t[0]] + ((a + p).skip(i + 1) + r) =~= (a + p).skip(i) + r);
    }
}

/// An empty reasoning channel leaves no trace: the text before and after it moves
/// together. One whose label is echoed before it goes together with the echo.
pub proof fn law_empty_channel_vanishes(a: Seq<char>, p: Seq<char>, b: Seq<char>)
    requires
        p == "<|channel>thought\n<channel|>"@ || p == "<|channel>thought\r\n<channel|>"@,
        forall|k: int| 0 <= k < a.len() ==> a[k] != '<',
        forall|k: int| 0 <= k < b.len() ==> b[k] != '<',
        p == "<|channel>thought\n<channel|>"@ ==> !"thought\n"@.is_suffix_of(a),
    ensures
        drop_channels(a + p + b) == a + b,
        strip_leaks(a + p + b) == text::trim(strip_echoes(a + b)),
{
    let s = a + p + b;
    let n = a.len() as int;
    lemma_empty_channel_removed(a, p, b);
    lemma_prose_is_kept(a + b);
    assert(drop_channels(s) == drop_channels_of_rest(a + b));
    lemma_no_tokens_nothing_dropped(a + b);
    lemma_empty_patterns();
    assert(s.subrange(n, n + 10) =~= p.subrange(0, 10));
    assert(text::occurs_at(s, CHANNEL_START@, n));
}

proof fn lemma_empty_patterns()
    ensures
        EMPTY_THINKING@.len() > 10,
        EMPTY_THINKING@[0] == '<',
        EMPTY_THINKING@.subrange(0, 10) == CHANNEL_START@,
        EMPTY_THINKING_CR@.len() > 10,
        EMPTY_THINKING_CR@[0] == '<',
        EMPTY_THINKING_CR@.subrange(0, 10) == CHANNEL_START@,
        EMPTY_THINKING@ != EMPTY_THINKING_CR@,
        CHANNEL_START@.len() == 10,
{
    reveal_strlit("<|channel>");
    reveal_strlit("<|channel>thought\n<channel|>");
    reveal_strlit("<|channel>thought\r\n<channel|>");
    assert(EMPTY_THINKING@.subrange(0, 10) =~= CHANNEL_START@);
    assert(EMPTY_THINKING_CR@.subrange(0, 10) =~= CHANNEL_START@);
}

/// An empty channel between prose is removed.
proof fn lemma_empty_channel_removed(a: Seq<char>, p: Seq<char>, b: Seq<char>)
    requires
        p == EMPTY_THINKING@ || p == EMPTY_THINKING_CR@,
        forall|k: int| 0 <= k < a.len() ==> a[k] != '<',
        forall|k: int| 0 <= k < b.len() ==> b[k] != '<',
        p == EMPTY_THINKING@ ==> !THOUGHT_PREFIX@.is_suffix_of(a),
    ensures
        drop_empty_thinking(a + p + b) == a + b,
{
    lemma_empty_patterns();
    let s = a + p + b;
    lemma_prose_is_kept(b);
    lemma_prose_is_kept(a + b);
    lemma_no_labelled_pattern(a, p, b);
    assert(s =~= a + (p + b));
    if p == EMPTY_THINKING@ {
        lemma_removal_after_prose(a, p, p + b);
        lemma_removal_at_front(p, b);
    } else {
        lemma_removal_after_prose(a, EMPTY_THINKING@, p + b);
        lemma_other_pattern_stays(p, EMPTY_THINKING@, b);
        lemma_removal_after_prose(a, p, p + b);
        lemma_removal_at_front(p, b);
    }
}

/// What is dropped after empty channels.
spec fn drop_channels_of_rest(s: Seq<char>) -> Seq<char> {
    drop_control_tokens(drop_labels(s))
}

/// A channel with one kind of line end in it is none with the other.
proof fn lemma_other_pattern_stays(p: Seq<char>, other: Seq<char>, b: Seq<char>)
    requires
        p == EMPTY_THINKING_CR@,
        other == EMPTY_THINKING@,
        forall|k: int| 0 <= k < b.len() ==> b[k] != '<',
    ensures
        text::remove_all(p + b, other) == p + b,
{
    reveal_strlit("<|channel>thought\n<channel|>");
    reveal_strlit("<|channel>thought\r\n<channel|>");
    let s = p + b;
    if text::contains(s, other) {
        let j = choose|j: int| text::occurs_at(s, other, j);
        assert(s.subrange(j, j + 28)[0] == s[j]);
        assert(s.subrange(j, j + 28)[1] == s[j + 1]);
        assert(s.subrange(j, j + 28)[17] == s[j + 17]);
        if j >= p.len() {
            assert(s[j] == b[j - p.len()]);
        }
    }
    text::lemma_remove_all(s, other);
}

/// Text without a `<` holds no token and no pattern.
proof fn lemma_prose_is_kept(s: Seq<char>)
    requires
        forall|k: int| 0 <= k < s.len() ==> s[k] != '<',
    ensures
        !text::contains(s, CHANNEL_START@),
        !text::contains(s, CHANNEL_END@),
        !text::contains(s, TOOL_CALL_END@),
        !text::contains(s, STRING_DELIM@),
        text::remove_all(s, LABELLED_EMPTY_THINKING@) == s,
        text::remove_all(s, EMPTY_THINKING@) == s,
        text::remove_all(s, EMPTY_THINKING_CR@) == s,
{
    lemma_markers();
    reveal_strlit("<|channel>thought\n<channel|>");
    reveal_strlit("<|channel>thought\r\n<channel|>");
    reveal_strlit("thought\n<|channel>thought\n<channel|>");
    lemma_prose_holds_no(s, CHANNEL_START@, 0);
    lemma_prose_holds_no(s, CHANNEL_END@, 0);
    lemma_prose_holds_no(s, TOOL_CALL_END@, 0);
    lemma_prose_holds_no(s, STRING_DELIM@, 0);
    lemma_prose_holds_no(s, LABELLED_EMPTY_THINKING@, 8);
    lemma_prose_holds_no(s, EMPTY_THINKING@, 0);
    lemma_prose_holds_no(s, EMPTY_THINKING_CR@, 0);
    text::lemma_remove_all(s, LABELLED_EMPTY_THINKING@);
    text::lemma_remove_all(s, EMPTY_THINKING@);
    text::lemma_remove_all(s, EMPTY_THINKING_CR@);
}

proof fn lemma_prose_holds_no(s: Seq<char>, p: Seq<char>, k: int)
    requires
        forall|j: int| 0 <= j < s.len() ==> s[j] != '<',
        0 <= k < p.len(),
        p[k] == '<',
    ensures
        !text::contains(s, p),
{
    if text::contains(s, p) {
        let j = choose|j: int| text::occurs_at(s, p, j);
        assert(s.subrange(j, j + p.len())[k] == s[j + k]);
    }
}

proof fn lemma_pattern_is_first(a: Seq<char>, p: Seq<char>, b: Seq<char>)
    requires
        forall|k: int| 0 <= k < a.len() ==> a[k] != '<',
        p.len() > 8,
        p[8] == '<',
        forall|k: int| 0 <= k < 8 ==> p[k] != '<',
    ensures
        text::first(a + p + b, p) == Some(a.len() as int),
{
    let s = a + p + b;
    let n = a.len() as int;
    assert(s.subrange(n, n + p.len()) =~= p);
    assert(text::occurs_at(s, p, n));
    assert forall|j: int| text::occurs_at(s, p, j) implies n <= j by {
        assert(s.subrange(j, j + p.len())[8] == s[j + 8]);
        if j < n {
            if j + 8 >= n {
                assert(s[j + 8] == p[j + 8 - n]);
            } else {
                assert(s[j + 8] == a[j + 8]);
            }
        }
    }
    assert(text::is_first(s, p, n));
    text::lemma_first_is(s, p, n);
}

proof fn lemma_labelled_pattern()
    ensures
        LABELLED_EMPTY_THINKING@.len() == 36,
        LABELLED_EMPTY_THINKING@[8] == '<',
        forall|k: int| 0 <= k < 8 ==> LABELLED_EMPTY_THINKING@[k] != '<',
        LABELLED_EMPTY_THINKING@.subrange(8, 18) == CHANNEL_START@,
        CHANNEL_START@.len() == 10,
{
    reveal_strlit("<|channel>");
    reveal_strlit("thought\n<|channel>thought\n<channel|>");
    assert(LABELLED_EMPTY_THINKING@.subrange(8, 18) =~= CHANNEL_START@);
}

/// An empty channel with an echo of its label before it leaves no trace, and
/// neither does the echo.
pub proof fn law_echoed_channel_vanishes(a: Seq<char>, b: Seq<char>)
    requires
        forall|k: int| 0 <= k < a.len() ==> a[k] != '<',
        forall|k: int| 0 <= k < b.len() ==> b[k] != '<',
    ensures
        drop_channels(a + "thought\n<|channel>thought\n<channel|>"@ + b) == a + b,
        strip_leaks(a + "thought\n<|channel>thought\n<channel|>"@ + b) == text::trim(
            strip_echoes(a + b),
        ),
{
    lemma_labelled_pattern();
    let p = LABELLED_EMPTY_THINKING@;
    let s = a + p + b;
    let n = a.len() as int;
    lemma_prose_is_kept(b);
    lemma_prose_is_kept(a + b);
    lemma_pattern_is_first(a, p, b);
    text::law_remove_all(a, p, b);
    assert(drop_channels(s) == drop_channels_of_rest(a + b));
    lemma_no_tokens_nothing_dropped(a + b);
    assert(s.subrange(n + 8, n + 18) =~= p.subrange(8, 18));
    assert(text::occurs_at(s, CHANNEL_START@, n + 8));
}

/// A label at the front goes where a channel token still follows, and stays where
/// none does. Nothing else is a label.
pub proof fn law_label_before_channel(s: Seq<char>)
    ensures
        text::contains(s, "<|channel>"@) || text::contains(s, "<channel|>"@) ==> drop_labels(
            "thought\n"@ + s,
        ) == drop_labels(s),
        !text::contains(s, "<|channel>"@) && !text::contains(s, "<channel|>"@) ==> drop_labels(
            "thought\n"@ + s,
        ) == "thought\n"@ + s,
        !"thought\n"@.is_prefix_of(s) ==> drop_labels(s) == s,
{
    reveal_strlit("thought\n");
    let t = THOUGHT_PREFIX@ + s;
    assert(t.take(8) =~= THOUGHT_PREFIX@);
    assert(t.skip(8) =~= s);
}

/// Channels are dropped in this order: empty channels with an echoed label, empty
/// channels, labels, and then all control tokens.
pub proof fn law_order_of_dropping(s: Seq<char>)
    ensures
        ({
            let a = text::remove_all(s, "thought\n<|channel>thought\n<channel|>"@);
            let b = text::remove_all(a, "<|channel>thought\n<channel|>"@);
            let c = text::remove_all(b, "<|channel>thought\r\n<channel|>"@);
            drop_channels(s) == drop_control_tokens(drop_labels(c))
        }),
        left_of(s, drop_control_tokens(s)),
        !text::contains(drop_control_tokens(s), "<|channel>"@),
        !text::contains(drop_control_tokens(s), "<channel|>"@),
        !text::contains(drop_control_tokens(s), "<tool_call|>"@),
        !text::contains(drop_control_tokens(s), "<|\"|>"@),
{
    lemma_left_of_control_tokens(s);
    law_control_tokens_dropped(s);
}

/// Text around a channel without tool-call markup is shown as a client may see it,
/// and not at all where nothing of it may be seen.
pub proof fn law_text_is_shown_clean(s: Seq<char>)
    requires
        text::trim(s).len() > 0,
        !has_markup(text::trim(s)),
    ensures
        clean(text::trim(s)).len() > 0 ==> shown_around(s) == Some(clean(text::trim(s))),
        clean(text::trim(s)).len() == 0 ==> shown_around(s) is None,
{
}

/// A compacted text is its lower-case form with every white space character left
/// out and every other one kept, in order.
pub proof fn law_compact(s: Seq<char>, a: Seq<char>, c: char, b: Seq<char>)
    requires
        text::lowercase(s) == a + seq![c] + b,
    ensures
        ({
            let keep = |c: char| !text::is_white_space(c);
            &&& text::is_white_space(c) ==> compact(s) == a.filter(keep) + b.filter(keep)
            &&& !text::is_white_space(c) ==> compact(s) == a.filter(keep) + seq![c] + b.filter(keep)
        }),
        forall|i: int|
            0 <= i < compact(s).len() ==> !text::is_white_space(#[trigger] compact(s)[i]),
{
    let keep = |c: char| !text::is_white_space(c);
    let m = seq![c];
    Seq::filter_distributes_over_add(a + m, b, keep);
    Seq::filter_distributes_over_add(a, m, keep);
    assert(m.filter(keep) =~= if keep(c) {
        m
    } else {
        Seq::<char>::empty()
    }) by {
        reveal(Seq::filter);
        assert(m.drop_last() =~= Seq::<char>::empty());
        assert(m.drop_last().filter(keep) =~= Seq::<char>::empty());
    }
    assert(a.filter(keep) + Seq::<char>::empty() =~= a.filter(keep));
    broadcast use vstd::seq_lib::group_filter_ensures;
    assert forall|i: int| 0 <= i < compact(s).len() implies !text::is_white_space(
        #[trigger] compact(s)[i],
    ) by {
        assert(keep(compact(s)[i]));
    }
}

} // verus!
