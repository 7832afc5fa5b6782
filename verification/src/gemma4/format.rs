//! Cleaning of model output: control tokens, echoed labels and tool-call
//! markup are kept out of what a client sees.

use vstd::prelude::*;
use vstd::string::*;
use vstd::utf8::*;

use super::{
    ARGS_OPEN, CALL_PREFIX, CHANNEL_END, CHANNEL_START, EMPTY_THINKING, EMPTY_THINKING_CR,
    LABELLED_EMPTY_THINKING, LABELLED_START, LABELLED_START_CR, STRING_DELIM, THOUGHT_PREFIX,
    THOUGHT_WORD, TOOL_CALL_END, TOOL_CALL_START,
};
use crate::text;

verus! {

/// The tokens of which a streamed text may end in an unfinished piece.
pub open spec fn streamed_tokens() -> Seq<Seq<char>> {
    seq![
        CHANNEL_START@,
        CHANNEL_END@,
        LABELLED_START@,
        LABELLED_START_CR@,
        TOOL_CALL_START@,
        TOOL_CALL_END@,
        STRING_DELIM@,
    ]
}

/// The last `n` characters of `s` are the start, but not the whole, of `tok`.
pub open spec fn ends_in_start_of(s: Seq<char>, tok: Seq<char>, n: int) -> bool {
    1 <= n < tok.len() && n <= s.len() && s.skip(s.len() - n) == tok.take(n)
}

/// The last `n` characters of `s` are an unfinished token.
pub open spec fn ends_in_unfinished(s: Seq<char>, n: int) -> bool {
    exists|t: int|
        0 <= t < streamed_tokens().len() && #[trigger] ends_in_start_of(
            s,
            streamed_tokens()[t],
            n,
        )
}

/// `n` is the length of the longest unfinished token at the end of `s`, or 0.
pub open spec fn is_unfinished_len(s: Seq<char>, n: int) -> bool {
    &&& n == 0 || ends_in_unfinished(s, n)
    &&& forall|k: int| ends_in_unfinished(s, k) ==> k <= n
}

/// The length of the longest unfinished token at the end of `s`, or 0.
pub open spec fn unfinished_len(s: Seq<char>) -> int {
    choose|n: int| is_unfinished_len(s, n)
}

/// `s` without the unfinished token at its end.
pub open spec fn safe_text(s: Seq<char>) -> Seq<char> {
    s.take(s.len() - unfinished_len(s))
}

/// There is one such length, and it does not exceed that of `s`.
pub proof fn lemma_unfinished_len_is(s: Seq<char>, n: int)
    requires
        is_unfinished_len(s, n),
    ensures
        unfinished_len(s) == n,
        0 <= n <= s.len(),
{
    let m = unfinished_len(s);
    assert(is_unfinished_len(s, m));
}

/// Grows `longest` to the length of the longest unfinished `tok` at the end.
fn longer_unfinished(text: &Vec<char>, tok: &str, longest: usize) -> (r: usize)
    ensures
        longest <= r,
        r == longest || ends_in_start_of(text@, tok@, r as int),
        forall|k: int| ends_in_start_of(text@, tok@, k) ==> k <= r,
{
    let tc: Vec<char> = text::chars_of(tok);
    let n: usize = text.len();
    let m: usize = tc.len();
    let mut longest: usize = longest;
    let ghost start = longest;
    let mut i: usize = 1;
    while i < m && i <= n
        invariant
            tc@ == tok@,
            n == text@.len(),
            m == tc@.len(),
            1 <= i,
            start <= longest,
            longest == start || ends_in_start_of(text@, tok@, longest as int),
            forall|k: int| ends_in_start_of(text@, tok@, k) && k < i ==> k <= longest,
        decreases m - i,
    {
        let mut k: usize = 0;
        while k < i && text[n - i + k] == tc[k]
            invariant
                tc@ == tok@,
                n == text@.len(),
                m == tc@.len(),
                1 <= i < m,
                i <= n,
                k <= i,
                forall|j: int| 0 <= j < k ==> text@[n - i + j] == tc@[j],
            decreases i - k,
        {
            k += 1;
        }
        if k == i {
            assert(text@.skip(n - i) =~= tok@.take(i as int));
            if i > longest {
                longest = i;
            }
        } else {
            assert(text@.skip(n - i)[k as int] != tok@.take(i as int)[k as int]);
        }
        i += 1;
    }
    longest
}

/// The length of the longest unfinished control token at the end of `text`.
pub fn longest_incomplete_suffix_len(text: &str) -> (n: usize)
    ensures
        n == unfinished_len(text@),
        n <= text@.len(),
{
    let tc: Vec<char> = text::chars_of(text);
    let a: usize = longer_unfinished(&tc, CHANNEL_START, 0);
    let b: usize = longer_unfinished(&tc, CHANNEL_END, a);
    let c: usize = longer_unfinished(&tc, LABELLED_START, b);
    let d: usize = longer_unfinished(&tc, LABELLED_START_CR, c);
    let e: usize = longer_unfinished(&tc, TOOL_CALL_START, d);
    let f: usize = longer_unfinished(&tc, TOOL_CALL_END, e);
    let n: usize = longer_unfinished(&tc, STRING_DELIM, f);
    proof {
        let toks = streamed_tokens();
        assert(toks[0] == CHANNEL_START@);
        assert(toks[1] == CHANNEL_END@);
        assert(toks[2] == LABELLED_START@);
        assert(toks[3] == LABELLED_START_CR@);
        assert(toks[4] == TOOL_CALL_START@);
        assert(toks[5] == TOOL_CALL_END@);
        assert(toks[6] == STRING_DELIM@);
        if n > 0 {
            assert(exists|t: int|
                0 <= t < toks.len() && #[trigger] ends_in_start_of(text@, toks[t], n as int));
        }
        assert(is_unfinished_len(text@, n as int));
        lemma_unfinished_len_is(text@, n as int);
    }
    n
}

/// Trims a suffix that may be an unfinished control token.
pub fn strip_trailing_incomplete_token(text: &str) -> (r: String)
    ensures
        r@ == safe_text(text@),
{
    let cut: usize = longest_incomplete_suffix_len(text);
    let n: usize = text::length(text);
    text::take(text, n - cut).to_owned()
}

/// Where tool-call markup begins: at the first tool-call token, or else at the
/// first `call:` after the last closed channel, if an opening brace follows it.
pub open spec fn markup_start(s: Seq<char>) -> Option<int> {
    match text::first(s, TOOL_CALL_START@) {
        Some(i) => Some(i),
        None => {
            let from = match text::last(s, CHANNEL_END@) {
                Some(i) => i + CHANNEL_END@.len(),
                None => 0,
            };
            match text::first(s.skip(from), CALL_PREFIX@) {
                Some(j) => if text::contains(s.skip(from + j + CALL_PREFIX@.len()), ARGS_OPEN@) {
                    Some(from + j)
                } else {
                    None
                },
                None => None,
            }
        },
    }
}

/// `s` holds a tool-call token or a bare call.
pub open spec fn has_markup(s: Seq<char>) -> bool {
    ||| text::contains(s, TOOL_CALL_START@)
    ||| text::contains(s, TOOL_CALL_END@)
    ||| text::contains(s, STRING_DELIM@)
    ||| markup_start(s) is Some
}

/// `s` before its tool-call markup, without trailing white space.
pub open spec fn before_markup(s: Seq<char>) -> Seq<char> {
    match markup_start(s) {
        Some(i) => text::trim_end(s.take(i)),
        None => text::trim_end(s),
    }
}

/// `s` from its tool-call markup on, empty where there is none.
pub open spec fn from_markup(s: Seq<char>) -> Seq<char> {
    match markup_start(s) {
        Some(i) => s.skip(i),
        None => Seq::empty(),
    }
}

/// The position, in characters, at which tool-call markup begins.
fn markup_position(text: &str) -> (r: Option<usize>)
    ensures
        match r {
            Some(i) => markup_start(text@) == Some(i as int) && i <= text@.len(),
            None => markup_start(text@) is None,
        },
{
    if let Some(i) = text::find(text, TOOL_CALL_START) {
        return Some(i);
    }
    let from: usize = match text::rfind(text, CHANNEL_END) {
        Some(i) => i + text::length(CHANNEL_END),
        None => 0,
    };
    let rest: &str = text::skip(text, from);
    match text::find(rest, CALL_PREFIX) {
        Some(j) => {
            let call: usize = from + j;
            let args: usize = call + text::length(CALL_PREFIX);
            if text::has(text::skip(text, args), ARGS_OPEN) {
                Some(call)
            } else {
                None
            }
        },
        None => None,
    }
}

/// The byte index at which tool-call markup begins, if there is any.
pub fn tool_call_markup_start(text: &str) -> (r: Option<usize>)
    ensures
        match r {
            Some(b) => markup_start(text@) matches Some(i) && b == encode_utf8(
                text@.take(i),
            ).len() as usize,
            None => markup_start(text@) is None,
        },
{
    match markup_position(text) {
        Some(i) => Some(text::take(text, i).len()),
        None => None,
    }
}

/// Whether `text` holds tool-call tokens or a bare `call:name{` block.
pub fn has_tool_call_markup(text: &str) -> (r: bool)
    ensures
        r == has_markup(text@),
{
    text::has(text, TOOL_CALL_START) || text::has(text, TOOL_CALL_END) || text::has(
        text,
        STRING_DELIM,
    ) || markup_position(text).is_some()
}

/// Removes trailing tool-call markup, so that no client sees it as content.
pub fn strip_tool_call_suffix(text: &str) -> (r: String)
    ensures
        r@ == before_markup(text@),
{
    match markup_position(text) {
        Some(i) => text::trimmed_end(text::take(text, i)).to_owned(),
        None => text::trimmed_end(text).to_owned(),
    }
}

/// The text from the first tool-call marker on, to be handed to a tool parser.
pub fn extract_tool_handoff_text(text: &str) -> (r: String)
    ensures
        r@ == from_markup(text@),
{
    match markup_position(text) {
        Some(i) => text::skip(text, i).to_owned(),
        None => String::new(),
    }
}

/// The lower-case form of `s` without its white space.
pub open spec fn compact(s: Seq<char>) -> Seq<char> {
    text::lowercase(s).filter(|c: char| !text::is_white_space(c))
}

/// `s` is cut from the front of an endless repetition of the word `thought`.
pub open spec fn is_thought_echo(s: Seq<char>) -> bool {
    &&& s.len() > 0
    &&& forall|i: int|
        0 <= i < s.len() ==> #[trigger] s[i] == THOUGHT_WORD@[i % (THOUGHT_WORD@.len() as int)]
}

/// A line without its echo: `core` is dropped where it is one.
pub open spec fn strip_echo(core: Seq<char>, nl: Seq<char>) -> Seq<char> {
    if is_thought_echo(compact(core)) {
        nl
    } else {
        core + nl
    }
}

/// The lines of `s`, each without its echo.
pub open spec fn strip_echo_lines(s: Seq<char>) -> Seq<char>
    decreases s.len(),
{
    if s.len() == 0 {
        s
    } else {
        match text::first(s, seq!['\n']) {
            Some(i) => if 0 <= i < s.len() {
                strip_echo(s.take(i), seq!['\n']) + strip_echo_lines(s.skip(i + 1))
            } else {
                s
            },
            None => strip_echo(s, Seq::empty()),
        }
    }
}

/// `s` without the lines that only echo the word `thought`.
pub open spec fn strip_echoes(s: Seq<char>) -> Seq<char> {
    if text::contains(text::lowercase(s), THOUGHT_WORD@) {
        strip_echo_lines(s)
    } else {
        s
    }
}

/// The lower-case form of `core` without its white space.
pub fn compact_cf_no_ws(core: &str) -> (r: String)
    ensures
        r@ == compact(core@),
{
    let lower: String = core.to_lowercase();
    let lc: Vec<char> = text::chars_of(lower.as_str());
    let mut r: String = String::new();
    let ghost keep = |c: char| !text::is_white_space(c);
    let mut i: usize = 0;
    let n: usize = lc.len();
    assert(lc@.take(0).filter(keep) =~= Seq::<char>::empty()) by {
        reveal(Seq::filter);
    }
    while i < n
        invariant
            n == lc@.len(),
            i <= n,
            keep == (|c: char| !text::is_white_space(c)),
            r@ == lc@.take(i as int).filter(keep),
        decreases n - i,
    {
        let c: char = lc[i];
        proof {
            assert(lc@.take(i + 1).drop_last() =~= lc@.take(i as int));
            assert(lc@.take(i + 1).last() == c);
            reveal(Seq::filter);
        }
        if !text::is_whitespace(c) {
            r.push(c);
        }
        i += 1;
    }
    assert(lc@.take(n as int) =~= lc@);
    r
}

/// Whether `s` is cut from the front of a repetition of the word `thought`.
fn echoes_thought(s: &str) -> (r: bool)
    ensures
        r == is_thought_echo(s@),
{
    let sc: Vec<char> = text::chars_of(s);
    let word: Vec<char> = text::chars_of(THOUGHT_WORD);
    proof {
        reveal_strlit("thought");
    }
    let n: usize = sc.len();
    let m: usize = word.len();
    if n == 0 {
        return false;
    }
    let mut i: usize = 0;
    while i < n
        invariant
            sc@ == s@,
            word@ == THOUGHT_WORD@,
            n == sc@.len(),
            m == word@.len(),
            m == 7,
            i <= n,
            forall|j: int| 0 <= j < i ==> #[trigger] s@[j] == THOUGHT_WORD@[j % 7],
        decreases n - i,
    {
        if sc[i] != word[i % m] {
            assert(s@[i as int] != THOUGHT_WORD@[i as int % 7]);
            return false;
        }
        i += 1;
    }
    true
}

/// Drops `core` where it is an echo; `nl` follows either way.
pub fn strip_one_thought_shard_line(core: &str, nl: &str) -> (r: String)
    ensures
        r@ == strip_echo(core@, nl@),
{
    let compacted: String = compact_cf_no_ws(core);
    if echoes_thought(compacted.as_str()) {
        nl.to_owned()
    } else {
        text::concat(core, nl)
    }
}

/// Strips the lines of `text` that only echo the word `thought`.
pub fn strip_thought_shard_echoes(text: &str) -> (r: String)
    ensures
        r@ == strip_echoes(text@),
{
    let lower: String = text.to_lowercase();
    if !text::has(lower.as_str(), THOUGHT_WORD) {
        return text.to_owned();
    }
    let mut rebuilt: String = String::new();
    let mut rest: &str = text;
    proof {
        reveal_strlit("\n");
        reveal_strlit("");
        assert("\n"@ =~= seq!['\n']);
        assert(""@ =~= Seq::<char>::empty());
        assert(rebuilt@ + strip_echo_lines(rest@) =~= strip_echo_lines(text@));
    }
    while !rest.is_empty()
        invariant
            "\n"@ == seq!['\n'],
            ""@ == Seq::<char>::empty(),
            rebuilt@ + strip_echo_lines(rest@) == strip_echo_lines(text@),
        decreases rest@.len(),
    {
        let ghost before = rebuilt@;
        match text::find(rest, "\n") {
            Some(i) => {
                let line: String = strip_one_thought_shard_line(text::take(rest, i), "\n");
                rebuilt.append(line.as_str());
                let after: &str = text::skip(rest, i + 1);
                assert(rebuilt@ + strip_echo_lines(after@) =~= before + (line@ + strip_echo_lines(
                    after@,
                )));
                rest = after;
            },
            None => {
                let line: String = strip_one_thought_shard_line(rest, "");
                rebuilt.append(line.as_str());
                let n: usize = text::length(rest);
                let after: &str = text::skip(rest, n);
                assert(after@ =~= Seq::<char>::empty());
                assert(rebuilt@ + strip_echo_lines(after@) =~= before + line@);
                rest = after;
            },
        }
    }
    assert(rebuilt@ + strip_echo_lines(rest@) =~= rebuilt@);
    rebuilt
}

/// `s` may hold control tokens or echoes that must not reach clients.
pub open spec fn may_leak(s: Seq<char>) -> bool {
    ||| text::contains(s, CHANNEL_START@)
    ||| text::contains(s, CHANNEL_END@)
    ||| text::contains(text::lowercase(s), THOUGHT_WORD@)
    ||| text::contains(s, TOOL_CALL_START@)
    ||| text::contains(s, TOOL_CALL_END@)
    ||| text::contains(s, STRING_DELIM@)
}

/// `s` without its empty reasoning channels.
pub open spec fn drop_empty_thinking(s: Seq<char>) -> Seq<char> {
    text::remove_all(
        text::remove_all(text::remove_all(s, LABELLED_EMPTY_THINKING@), EMPTY_THINKING@),
        EMPTY_THINKING_CR@,
    )
}

/// A channel token stands somewhere in `s`.
pub open spec fn has_channel_token(s: Seq<char>) -> bool {
    text::contains(s, CHANNEL_START@) || text::contains(s, CHANNEL_END@)
}

/// `s` without the labels at its front that a channel token still follows.
pub open spec fn drop_labels(s: Seq<char>) -> Seq<char>
    decreases s.len(),
{
    if THOUGHT_PREFIX@.len() > 0 && THOUGHT_PREFIX@.is_prefix_of(s) && has_channel_token(
        s.skip(THOUGHT_PREFIX@.len() as int),
    ) {
        drop_labels(s.skip(THOUGHT_PREFIX@.len() as int))
    } else {
        s
    }
}

/// One round of dropping channel tokens and the white space around the rest.
pub open spec fn channel_round(s: Seq<char>) -> Seq<char> {
    text::trim(text::remove_all(text::remove_all(s, CHANNEL_START@), CHANNEL_END@))
}

/// Rounds of dropping channel tokens until one changes nothing.
pub open spec fn channel_rounds(s: Seq<char>) -> Seq<char>
    decreases s.len(),
{
    if channel_round(s).len() < s.len() {
        channel_rounds(channel_round(s))
    } else {
        s
    }
}

/// `s` without channel tokens, as it is where it holds none.
pub open spec fn drop_channel_tokens(s: Seq<char>) -> Seq<char> {
    if has_channel_token(s) {
        channel_rounds(s)
    } else {
        s
    }
}

/// One round of dropping closing tool-call tokens and string delimiters.
pub open spec fn grammar_round(s: Seq<char>) -> Seq<char> {
    text::remove_all(text::remove_all(s, TOOL_CALL_END@), STRING_DELIM@)
}

/// `s` without closing tool-call tokens and string delimiters, dropped in rounds
/// until one changes nothing.
pub open spec fn drop_tool_grammar(s: Seq<char>) -> Seq<char>
    decreases s.len(),
{
    if grammar_round(s).len() < s.len() {
        drop_tool_grammar(grammar_round(s))
    } else {
        s
    }
}

/// `s` without channel tokens and tool-call grammar, dropped in turn until
/// nothing changes.
pub open spec fn drop_control_tokens(s: Seq<char>) -> Seq<char>
    decreases s.len(),
{
    let next = drop_tool_grammar(drop_channel_tokens(s));
    if next.len() < s.len() {
        drop_control_tokens(next)
    } else {
        s
    }
}

/// `s` without its empty reasoning channels, labels and control tokens.
pub open spec fn drop_channels(s: Seq<char>) -> Seq<char> {
    drop_control_tokens(drop_labels(drop_empty_thinking(s)))
}

/// `s` without what may leak into it, as it is where nothing may.
pub open spec fn strip_leaks(s: Seq<char>) -> Seq<char> {
    if may_leak(s) {
        text::trim(strip_echoes(drop_channels(s)))
    } else {
        s
    }
}

/// What a client may see of `s`: without leaks, and before tool-call markup.
pub open spec fn clean(s: Seq<char>) -> Seq<char> {
    before_markup(strip_leaks(s))
}

/// A round shortens a text or keeps it.
pub proof fn lemma_channel_round(s: Seq<char>)
    ensures
        channel_round(s).len() <= s.len(),
        channel_round(s).len() == s.len() ==> channel_round(s) == s && !has_channel_token(s),
{
    reveal_strlit("<|channel>");
    reveal_strlit("<channel|>");
    let a = text::remove_all(s, CHANNEL_START@);
    let b = text::remove_all(a, CHANNEL_END@);
    text::lemma_remove_all(s, CHANNEL_START@);
    text::lemma_remove_all(a, CHANNEL_END@);
    text::lemma_trim_start_len(b);
    text::lemma_trim_end_len(text::trim_start(b));
}

/// Rounds of dropping channel tokens shorten a text or keep it, and leave no
/// channel token.
pub proof fn lemma_drop_channel_tokens(s: Seq<char>)
    ensures
        drop_channel_tokens(s).len() <= s.len(),
        drop_channel_tokens(s).len() == s.len() ==> drop_channel_tokens(s) == s,
        !has_channel_token(drop_channel_tokens(s)),
{
    lemma_channel_rounds(s);
}

proof fn lemma_channel_rounds(s: Seq<char>)
    ensures
        channel_rounds(s).len() <= s.len(),
        channel_rounds(s).len() == s.len() ==> channel_rounds(s) == s,
        !has_channel_token(channel_rounds(s)),
    decreases s.len(),
{
    lemma_channel_round(s);
    if channel_round(s).len() < s.len() {
        lemma_channel_rounds(channel_round(s));
    }
}

/// A round shortens a text or keeps it.
pub proof fn lemma_grammar_round(s: Seq<char>)
    ensures
        grammar_round(s).len() <= s.len(),
        grammar_round(s).len() == s.len() ==> grammar_round(s) == s && !has_tool_grammar(s),
        !has_tool_grammar(s) ==> grammar_round(s) == s,
{
    reveal_strlit("<tool_call|>");
    reveal_strlit("<|\"|>");
    text::lemma_remove_all(s, TOOL_CALL_END@);
    text::lemma_remove_all(text::remove_all(s, TOOL_CALL_END@), STRING_DELIM@);
}

/// A closing tool-call token or a string delimiter stands somewhere in `s`.
pub open spec fn has_tool_grammar(s: Seq<char>) -> bool {
    text::contains(s, TOOL_CALL_END@) || text::contains(s, STRING_DELIM@)
}

/// Rounds of dropping tool-call grammar shorten a text or keep it, and leave no
/// such token.
pub proof fn lemma_drop_tool_grammar(s: Seq<char>)
    ensures
        drop_tool_grammar(s).len() <= s.len(),
        drop_tool_grammar(s).len() == s.len() ==> drop_tool_grammar(s) == s,
        !has_tool_grammar(drop_tool_grammar(s)),
        !has_tool_grammar(s) ==> drop_tool_grammar(s) == s,
    decreases s.len(),
{
    lemma_grammar_round(s);
    if grammar_round(s).len() < s.len() {
        lemma_drop_tool_grammar(grammar_round(s));
    }
}

/// Whether `text` may hold control tokens that must not reach clients.
pub fn may_contain_gemma4_control_leak(text: &str) -> (r: bool)
    ensures
        r == may_leak(text@),
{
    let lower: String = text.to_lowercase();
    text::has(text, CHANNEL_START) || text::has(text, CHANNEL_END) || text::has(
        lower.as_str(),
        THOUGHT_WORD,
    ) || text::has(text, TOOL_CALL_START) || text::has(text, TOOL_CALL_END) || text::has(
        text,
        STRING_DELIM,
    )
}

/// Removes orphaned tool-call grammar tokens, those included that the removal of
/// others joins together. The opening tool-call token stays:
/// `strip_tool_call_suffix` takes care of it on the whole text.
pub fn strip_leaked_tool_grammar(text: &str) -> (r: String)
    ensures
        r@ == drop_tool_grammar(text@),
        !text::contains(r@, TOOL_CALL_END@),
        !text::contains(r@, STRING_DELIM@),
{
    proof {
        reveal_strlit("<tool_call|>");
        reveal_strlit("<|\"|>");
        lemma_drop_tool_grammar(text@);
    }
    let mut s: String = text.to_owned();
    loop
        invariant_except_break
            TOOL_CALL_END@.len() > 0,
            STRING_DELIM@.len() > 0,
            drop_tool_grammar(s@) == drop_tool_grammar(text@),
        ensures
            s@ == drop_tool_grammar(text@),
        decreases s@.len(),
    {
        let a: String = text::without(s.as_str(), TOOL_CALL_END);
        let next: String = text::without(a.as_str(), STRING_DELIM);
        proof {
            lemma_grammar_round(s@);
        }
        if next == s {
            break ;
        }
        s = next;
    }
    s
}

/// Drops the labels at the front that a channel token still follows.
fn without_labels<'a>(text: &'a str) -> (r: &'a str)
    ensures
        r@ == drop_labels(text@),
{
    proof {
        reveal_strlit("thought\n");
    }
    let mut s: &'a str = text;
    let n: usize = text::length(THOUGHT_PREFIX);
    while text::starts_with(s, THOUGHT_PREFIX)
        invariant_except_break
            n == THOUGHT_PREFIX@.len(),
            n > 0,
            drop_labels(s@) == drop_labels(text@),
        ensures
            s@ == drop_labels(text@),
        decreases s@.len(),
    {
        let rest: &'a str = text::skip(s, n);
        if !text::has(rest, CHANNEL_START) && !text::has(rest, CHANNEL_END) {
            break ;
        }
        s = rest;
    }
    s
}

/// Drops channel tokens in rounds, until one changes nothing.
fn without_channel_tokens(text: &str) -> (r: String)
    ensures
        r@ == drop_channel_tokens(text@),
{
    if !text::has(text, CHANNEL_START) && !text::has(text, CHANNEL_END) {
        return text.to_owned();
    }
    proof {
        reveal_strlit("<|channel>");
        reveal_strlit("<channel|>");
    }
    let mut s: String = text.to_owned();
    loop
        invariant_except_break
            CHANNEL_START@.len() > 0,
            CHANNEL_END@.len() > 0,
            channel_rounds(s@) == channel_rounds(text@),
        ensures
            s@ == channel_rounds(text@),
        decreases s@.len(),
    {
        let a: String = text::without(s.as_str(), CHANNEL_START);
        let b: String = text::without(a.as_str(), CHANNEL_END);
        let next: String = text::trimmed(b.as_str()).to_owned();
        proof {
            lemma_channel_round(s@);
        }
        if next == s {
            break ;
        }
        s = next;
    }
    s
}

/// Drops channel tokens and tool-call grammar in turn, until nothing changes.
fn without_control_tokens(text: &str) -> (r: String)
    ensures
        r@ == drop_control_tokens(text@),
{
    let mut s: String = text.to_owned();
    loop
        invariant_except_break
            drop_control_tokens(s@) == drop_control_tokens(text@),
        ensures
            s@ == drop_control_tokens(text@),
        decreases s@.len(),
    {
        let a: String = without_channel_tokens(s.as_str());
        let next: String = strip_leaked_tool_grammar(a.as_str());
        proof {
            lemma_drop_channel_tokens(s@);
            lemma_drop_tool_grammar(a@);
        }
        if next == s {
            break ;
        }
        s = next;
    }
    s
}

/// `text` without its empty reasoning channels, labels and control tokens.
fn without_channels(text: &str) -> (r: String)
    ensures
        r@ == drop_channels(text@),
{
    proof {
        reveal_strlit("thought\n<|channel>thought\n<channel|>");
        reveal_strlit("<|channel>thought\n<channel|>");
        reveal_strlit("<|channel>thought\r\n<channel|>");
    }
    let a: String = text::without(text, LABELLED_EMPTY_THINKING);
    let b: String = text::without(a.as_str(), EMPTY_THINKING);
    let c: String = text::without(b.as_str(), EMPTY_THINKING_CR);
    without_control_tokens(without_labels(c.as_str()))
}

/// Removes echoed empty reasoning channels and orphaned control tokens.
pub fn strip_leaked_empty_thinking(text: &str) -> (r: String)
    ensures
        r@ == strip_leaks(text@),
{
    if !may_contain_gemma4_control_leak(text) {
        return text.to_owned();
    }
    let d: String = without_channels(text);
    let e: String = strip_thought_shard_echoes(d.as_str());
    text::trimmed(e.as_str()).to_owned()
}

/// What a client may see of `text`, if anything.
pub fn finalize_client_content(text: &str) -> (r: Option<String>)
    ensures
        text::opt_view(r) == text::non_empty(clean(text@)),
{
    let cleaned: String = cleaned_content(text);
    text::some_if_non_empty(cleaned.as_str())
}

/// `text` without leaks, and before its tool-call markup.
pub fn cleaned_content(text: &str) -> (r: String)
    ensures
        r@ == clean(text@),
{
    let s: String = strip_leaked_empty_thinking(text);
    strip_tool_call_suffix(s.as_str())
}

/// The prose `s`, before a tool call, without its empty reasoning channels, labels
/// and control tokens. The white space before the call stays.
pub open spec fn drop_channels_before_call(s: Seq<char>) -> Seq<char> {
    let dropped = drop_channels(s + TOOL_CALL_START@);
    dropped.take(dropped.len() - TOOL_CALL_START@.len())
}

/// The complete lines of `s`, each without its echo, and then its last line as it
/// is.
pub open spec fn strip_echo_lines_before(s: Seq<char>) -> Seq<char>
    decreases s.len(),
{
    match text::first(s, seq!['\n']) {
        Some(i) => if 0 <= i < s.len() {
            strip_echo(s.take(i), seq!['\n']) + strip_echo_lines_before(s.skip(i + 1))
        } else {
            s
        },
        None => s,
    }
}

/// `prose` without the lines that only echo the word `thought`, where the word
/// stands somewhere in it or in the `markup` after it.
pub open spec fn strip_echoes_before(prose: Seq<char>, markup: Seq<char>) -> Seq<char> {
    if text::contains(text::lowercase(prose + markup), THOUGHT_WORD@) {
        strip_echo_lines_before(prose)
    } else {
        prose
    }
}

/// `s` with its prose cleaned and its tool-call markup kept, without the white
/// space at the ends of the whole; as it is where nothing may leak.
pub open spec fn clean_prose(s: Seq<char>) -> Seq<char> {
    match markup_start(s) {
        Some(i) => if may_leak(s) {
            let markup = s.skip(i);
            text::trim(
                strip_echoes_before(drop_channels_before_call(s.take(i)), markup) + markup,
            )
        } else {
            s
        },
        None => strip_leaks(s),
    }
}

/// `p` is no part of a text that overlaps an opening tool-call token.
spec fn is_apart(p: Seq<char>) -> bool {
    &&& p.len() > 0
    &&& p[0] == '<' || p.len() > 12
    &&& forall|k: int|
        0 <= k < p.len() && #[trigger] p[k] == '<' ==> k + 2 < p.len() && (p[k + 1] != '|' || p[k
            + 2] != 't')
}

/// Removal keeps a tool-call token at the end of a text.
proof fn lemma_removal_keeps_call(s: Seq<char>, p: Seq<char>)
    requires
        is_apart(p),
        TOOL_CALL_START@.is_suffix_of(s),
    ensures
        TOOL_CALL_START@.is_suffix_of(text::remove_all(s, p)),
    decreases s.len(),
{
    reveal_strlit("<|tool_call>");
    let call = TOOL_CALL_START@;
    let n = s.len() - 12;
    assert forall|j: int| text::occurs_at(s, p, j) implies j + p.len() <= n by {
        if j + p.len() > n {
            let k = n - j;
            assert forall|i: int| 0 <= i < p.len() implies p[i] == s[j + i] by {
                assert(s.subrange(j, j + p.len())[i] == p[i]);
            }
            assert forall|i: int| 0 <= i < 12 implies s[n + i] == call[i] by {
                assert(s.skip(n)[i] == call[i]);
            }
            if k >= 0 {
                assert(p[k] == s[j + k]);
                assert(s[n + 0] == call[0]);
                assert(p[k] == '<');
                assert(p[k + 1] == s[j + (k + 1)] && s[n + 1] == call[1]);
                assert(p[k + 2] == s[j + (k + 2)] && s[n + 2] == call[2]);
            } else {
                assert(forall|i: int| 0 < i < 12 ==> call[i] != '<');
                assert(p[0] == s[j + 0]);
                assert(s[n + (j - n)] == call[j - n]);
            }
        }
    }
    if n == 0 {
        if text::contains(s, p) {
            let j = choose|j: int| text::occurs_at(s, p, j);
            assert(j + p.len() <= n);
        }
        text::lemma_remove_all(s, p);
    } else if text::occurs_at(s, p, 0) {
        let rest = s.skip(p.len() as int);
        assert(call =~= rest.skip(rest.len() - 12)) by {
            assert(s.skip(n) =~= rest.skip(rest.len() - 12));
        }
        lemma_removal_keeps_call(rest, p);
    } else {
        let rest = s.skip(1);
        assert(call =~= rest.skip(rest.len() - 12)) by {
            assert(s.skip(n) =~= rest.skip(rest.len() - 12));
        }
        lemma_removal_keeps_call(rest, p);
        let r = text::remove_all(rest, p);
        let all = text::remove_all(s, p);
        assert(all == seq![s[0]] + r);
        assert(call =~= all.skip(all.len() - 12)) by {
            assert(all.skip(all.len() - 12) =~= r.skip(r.len() - 12));
        }
    }
}

/// The tokens and patterns that are removed do not overlap a tool-call token.
proof fn lemma_patterns_are_apart()
    ensures
        is_apart(LABELLED_EMPTY_THINKING@),
        is_apart(EMPTY_THINKING@),
        is_apart(EMPTY_THINKING_CR@),
        is_apart(CHANNEL_START@),
        is_apart(CHANNEL_END@),
        is_apart(TOOL_CALL_END@),
        is_apart(STRING_DELIM@),
{
    reveal_strlit("thought\n<|channel>thought\n<channel|>");
    reveal_strlit("<|channel>thought\n<channel|>");
    reveal_strlit("<|channel>thought\r\n<channel|>");
    reveal_strlit("<|channel>");
    reveal_strlit("<channel|>");
    reveal_strlit("<tool_call|>");
    reveal_strlit("<|\"|>");
}

/// Trimming keeps a tool-call token at the end of a text.
proof fn lemma_trim_keeps_call(s: Seq<char>)
    requires
        TOOL_CALL_START@.is_suffix_of(s),
    ensures
        TOOL_CALL_START@.is_suffix_of(text::trim(s)),
    decreases s.len(),
{
    reveal_strlit("<|tool_call>");
    let call = TOOL_CALL_START@;
    let n = s.len() - 12;
    assert(s.skip(n)[0] == call[0]);
    assert(s.skip(n)[11] == call[11]);
    if text::is_white_space(s[0]) {
        let rest = s.skip(1);
        assert(n > 0);
        assert(call =~= rest.skip(rest.len() - 12)) by {
            assert(s.skip(n) =~= rest.skip(rest.len() - 12));
        }
        lemma_trim_keeps_call(rest);
    } else {
        assert(text::trim(s) == s);
    }
}

/// Rounds of dropping channel tokens keep a tool-call token at the end.
proof fn lemma_channel_rounds_keep_call(s: Seq<char>)
    requires
        TOOL_CALL_START@.is_suffix_of(s),
    ensures
        TOOL_CALL_START@.is_suffix_of(channel_rounds(s)),
    decreases s.len(),
{
    if channel_round(s).len() < s.len() {
        lemma_patterns_are_apart();
        lemma_removal_keeps_call(s, CHANNEL_START@);
        let a = text::remove_all(s, CHANNEL_START@);
        lemma_removal_keeps_call(a, CHANNEL_END@);
        lemma_trim_keeps_call(text::remove_all(a, CHANNEL_END@));
        lemma_channel_rounds_keep_call(channel_round(s));
    }
}

/// Dropping tool-call grammar keeps a tool-call token at the end.
proof fn lemma_grammar_rounds_keep_call(s: Seq<char>)
    requires
        TOOL_CALL_START@.is_suffix_of(s),
    ensures
        TOOL_CALL_START@.is_suffix_of(drop_tool_grammar(s)),
    decreases s.len(),
{
    if grammar_round(s).len() < s.len() {
        lemma_patterns_are_apart();
        lemma_removal_keeps_call(s, TOOL_CALL_END@);
        lemma_removal_keeps_call(text::remove_all(s, TOOL_CALL_END@), STRING_DELIM@);
        lemma_grammar_rounds_keep_call(grammar_round(s));
    }
}

/// Dropping control tokens keeps a tool-call token at the end.
proof fn lemma_control_tokens_keep_call(s: Seq<char>)
    requires
        TOOL_CALL_START@.is_suffix_of(s),
    ensures
        TOOL_CALL_START@.is_suffix_of(drop_control_tokens(s)),
    decreases s.len(),
{
    lemma_channel_rounds_keep_call(s);
    let a = drop_channel_tokens(s);
    lemma_grammar_rounds_keep_call(a);
    if drop_tool_grammar(a).len() < s.len() {
        lemma_control_tokens_keep_call(drop_tool_grammar(a));
    }
}

/// Dropping labels keeps a tool-call token at the end.
proof fn lemma_labels_keep_call(s: Seq<char>)
    requires
        TOOL_CALL_START@.is_suffix_of(s),
    ensures
        TOOL_CALL_START@.is_suffix_of(drop_labels(s)),
    decreases s.len(),
{
    reveal_strlit("<|tool_call>");
    reveal_strlit("thought\n");
    let call = TOOL_CALL_START@;
    let label = THOUGHT_PREFIX@;
    if label.is_prefix_of(s) && has_channel_token(s.skip(8)) {
        let n = s.len() - 12;
        let rest = s.skip(8);
        if n < 8 {
            assert(s.skip(n)[0] == call[0]);
            assert(s.take(8)[n] == label[n]);
        }
        assert(call =~= rest.skip(rest.len() - 12)) by {
            assert(s.skip(n) =~= rest.skip(rest.len() - 12));
        }
        lemma_labels_keep_call(rest);
    }
}

/// Dropping empty channels, labels and control tokens keeps a tool-call token at
/// the end of a text.
pub proof fn lemma_drop_channels_keeps_call(s: Seq<char>)
    requires
        TOOL_CALL_START@.is_suffix_of(s),
    ensures
        TOOL_CALL_START@.is_suffix_of(drop_channels(s)),
{
    lemma_patterns_are_apart();
    lemma_removal_keeps_call(s, LABELLED_EMPTY_THINKING@);
    let a = text::remove_all(s, LABELLED_EMPTY_THINKING@);
    lemma_removal_keeps_call(a, EMPTY_THINKING@);
    let b = text::remove_all(a, EMPTY_THINKING@);
    lemma_removal_keeps_call(b, EMPTY_THINKING_CR@);
    lemma_labels_keep_call(drop_empty_thinking(s));
    lemma_control_tokens_keep_call(drop_labels(drop_empty_thinking(s)));
}

/// The prose before a tool call without what is dropped from it.
fn without_channels_before_call(prose: &str) -> (r: String)
    ensures
        r@ == drop_channels_before_call(prose@),
{
    let whole: String = text::concat(prose, TOOL_CALL_START);
    let dropped: String = without_channels(whole.as_str());
    proof {
        assert(TOOL_CALL_START@ =~= whole@.skip(whole@.len() - TOOL_CALL_START@.len()));
        lemma_drop_channels_keeps_call(whole@);
    }
    let n: usize = text::length(dropped.as_str());
    let m: usize = text::length(TOOL_CALL_START);
    text::take(dropped.as_str(), n - m).to_owned()
}

/// Strips echoes from the complete lines of `prose`.
fn without_echo_lines_before(prose: &str) -> (r: String)
    ensures
        r@ == strip_echo_lines_before(prose@),
{
    let mut rebuilt: String = String::new();
    let mut rest: &str = prose;
    proof {
        reveal_strlit("\n");
        assert("\n"@ =~= seq!['\n']);
        assert(rebuilt@ + strip_echo_lines_before(rest@) =~= strip_echo_lines_before(prose@));
    }
    loop
        invariant_except_break
            "\n"@ == seq!['\n'],
            rebuilt@ + strip_echo_lines_before(rest@) == strip_echo_lines_before(prose@),
        ensures
            rebuilt@ == strip_echo_lines_before(prose@),
        decreases rest@.len(),
    {
        let ghost before = rebuilt@;
        match text::find(rest, "\n") {
            Some(i) => {
                let line: String = strip_one_thought_shard_line(text::take(rest, i), "\n");
                rebuilt.append(line.as_str());
                let after: &str = text::skip(rest, i + 1);
                assert(rebuilt@ + strip_echo_lines_before(after@) =~= before + (line@
                    + strip_echo_lines_before(after@)));
                rest = after;
            },
            None => {
                rebuilt.append(rest);
                break ;
            },
        }
    }
    rebuilt
}

/// Cleans a prefix of prose and keeps the tool-call markup that follows it.
pub fn clean_visible_prefix(text: &str) -> (r: String)
    ensures
        r@ == clean_prose(text@),
{
    match markup_position(text) {
        Some(i) => {
            if !may_contain_gemma4_control_leak(text) {
                return text.to_owned();
            }
            let markup: &str = text::skip(text, i);
            let prose: String = without_channels_before_call(text::take(text, i));
            let whole: String = text::concat(prose.as_str(), markup);
            let lower: String = whole.as_str().to_lowercase();
            let whole: String = if text::has(lower.as_str(), THOUGHT_WORD) {
                let stripped: String = without_echo_lines_before(prose.as_str());
                text::concat(stripped.as_str(), markup)
            } else {
                whole
            };
            text::trimmed(whole.as_str()).to_owned()
        },
        None => strip_leaked_empty_thinking(text),
    }
}

/// Strips the label from the start of a reasoning body.
pub fn strip_thought_label<'a>(text: &'a str) -> (r: &'a str)
    ensures
        r@ == text::strip_prefix(text@, THOUGHT_PREFIX@),
{
    text::without_prefix(text, THOUGHT_PREFIX)
}

/// A copy of an optional string.
fn copied(s: &Option<String>) -> (r: Option<String>)
    ensures
        r == *s,
{
    match s {
        Some(t) => Some(t.clone()),
        None => None,
    }
}

/// Reasoning and visible content at a point in the stream.
#[derive(Debug, PartialEq, Eq)]
pub struct ReasoningSnapshot {
    pub reasoning: Option<String>,
    pub content: Option<String>,
}

/// The texts of a `ReasoningSnapshot`.
#[verifier::ext_equal]
pub struct Snapshot {
    pub reasoning: Option<Seq<char>>,
    pub content: Option<Seq<char>>,
}

impl View for ReasoningSnapshot {
    type V = Snapshot;

    open spec fn view(&self) -> Snapshot {
        Snapshot {
            reasoning: text::opt_view(self.reasoning),
            content: text::opt_view(self.content),
        }
    }
}

impl Default for ReasoningSnapshot {
    fn default() -> (r: ReasoningSnapshot)
        ensures
            r@ == (Snapshot { reasoning: None, content: None }),
    {
        ReasoningSnapshot { reasoning: None, content: None }
    }
}

impl Clone for ReasoningSnapshot {
    fn clone(&self) -> (r: ReasoningSnapshot)
        ensures
            r == *self,
    {
        ReasoningSnapshot {
            reasoning: copied(&self.reasoning),
            content: copied(&self.content),
        }
    }
}

/// What is shown of the text around a channel: kept as it is where it holds
/// tool-call markup, and cleaned otherwise.
pub open spec fn shown_around(s: Seq<char>) -> Option<Seq<char>> {
    if text::trim(s).len() == 0 {
        None
    } else if has_markup(text::trim(s)) {
        Some(text::trim(s))
    } else {
        text::non_empty(clean(text::trim(s)))
    }
}

/// The text after the opening of the first channel of `s` at `i` and its label.
pub open spec fn channel_body(s: Seq<char>, i: int) -> Seq<char> {
    text::strip_prefix(s.skip(i + CHANNEL_START@.len()), THOUGHT_PREFIX@)
}

/// Reasoning and content of model output in which a channel opens at `i`.
///
/// A closed channel holds the reasoning, and what stands before and after it is
/// the content, held back until something follows the channel. The reasoning of
/// an open channel goes up to a tool call, or else to the end.
pub open spec fn split_at_channel(s: Seq<char>, i: int) -> Snapshot {
    let before = s.take(i);
    let body = channel_body(s, i);
    match text::first(body, CHANNEL_END@) {
        Some(e) => {
            let after = body.skip(e + CHANNEL_END@.len());
            Snapshot {
                reasoning: Some(text::trim(body.take(e))),
                content: if after.len() == 0 {
                    None
                } else {
                    shown_around(before + after)
                },
            }
        },
        None => match text::first(body, TOOL_CALL_START@) {
            Some(t) => Snapshot {
                reasoning: text::non_empty(text::trim(body.take(t))),
                content: shown_around(before + body.skip(t)),
            },
            None => Snapshot { reasoning: text::non_empty(text::trim(body)), content: None },
        },
    }
}

/// Reasoning and content of model output. Output without a channel is content.
pub open spec fn split_output(s: Seq<char>) -> Snapshot {
    match text::first(s, CHANNEL_START@) {
        Some(i) => split_at_channel(s, i),
        None => Snapshot { reasoning: None, content: text::non_empty(s) },
    }
}

/// What is shown of the text `before` and `after` a channel.
pub fn content_around(before: &str, after: &str) -> (r: Option<String>)
    ensures
        text::opt_view(r) == shown_around(before@ + after@),
{
    let merged: String = text::concat(before, after);
    let merged: &str = text::trimmed(merged.as_str());
    if merged.is_empty() {
        None
    } else if has_tool_call_markup(merged) {
        Some(merged.to_owned())
    } else {
        finalize_client_content(merged)
    }
}

/// Splits model output into reasoning and visible content.
pub fn extract_reasoning_non_streaming(model_output: &str) -> (r: ReasoningSnapshot)
    ensures
        r@ == split_output(model_output@),
{
    let start: usize = match text::find(model_output, CHANNEL_START) {
        Some(i) => i,
        None => {
            return ReasoningSnapshot {
                reasoning: None,
                content: text::some_if_non_empty(model_output),
            };
        },
    };
    let before: &str = text::take(model_output, start);
    let after_start: &str = text::skip(model_output, start + text::length(CHANNEL_START));
    let body: &str = strip_thought_label(after_start);

    if let Some(end) = text::find(body, CHANNEL_END) {
        let reasoning: &str = text::trimmed(text::take(body, end));
        let after: &str = text::skip(body, end + text::length(CHANNEL_END));
        return ReasoningSnapshot {
            reasoning: Some(reasoning.to_owned()),
            content: if after.is_empty() {
                None
            } else {
                content_around(before, after)
            },
        };
    }
    if let Some(tool) = text::find(body, TOOL_CALL_START) {
        let reasoning: &str = text::trimmed(text::take(body, tool));
        return ReasoningSnapshot {
            reasoning: text::some_if_non_empty(reasoning),
            content: content_around(before, text::skip(body, tool)),
        };
    }
    ReasoningSnapshot {
        reasoning: text::some_if_non_empty(text::trimmed(body)),
        content: None,
    }
}

/// The text of one part of a snapshot, empty where it is absent.
pub fn norm_snapshot_part(x: Option<&str>) -> (r: String)
    ensures
        r@ == (match x {
            Some(s) => s@,
            None => Seq::empty(),
        }),
{
    match x {
        Some(s) => s.to_owned(),
        None => String::new(),
    }
}

/// What `curr` adds to `prev`: the rest where it extends it, or else all of it.
pub open spec fn added(curr: Option<Seq<char>>, prev: Option<Seq<char>>) -> Seq<char> {
    text::strip_prefix(text::or_empty(curr), text::or_empty(prev))
}

/// `s` as an optional slice.
fn as_part(s: &Option<String>) -> (r: Option<&str>)
    ensures
        match r {
            Some(t) => text::opt_view(*s) == Some(t@),
            None => s is None,
        },
{
    match s {
        Some(t) => Some(t.as_str()),
        None => None,
    }
}

/// The reasoning and the content that `curr` adds to `prev`.
pub fn diff_reasoning_streaming_snapshots(
    curr: &ReasoningSnapshot,
    prev: &ReasoningSnapshot,
) -> (r: (String, String))
    ensures
        r.0@ == added(curr@.reasoning, prev@.reasoning),
        r.1@ == added(curr@.content, prev@.content),
{
    let nr: String = norm_snapshot_part(as_part(&curr.reasoning));
    let nc: String = norm_snapshot_part(as_part(&curr.content));
    let nr_prev: String = norm_snapshot_part(as_part(&prev.reasoning));
    let nc_prev: String = norm_snapshot_part(as_part(&prev.content));
    let dr: String = text::without_prefix(nr.as_str(), nr_prev.as_str()).to_owned();
    let dc: String = text::without_prefix(nc.as_str(), nc_prev.as_str()).to_owned();
    (dr, dc)
}

/// The text that becomes visible between `previous` and `current`, before the
/// first tool call: the rest of the cleaned text where it extends the cleaned
/// `previous`, or else the cleaned `delta`.
pub open spec fn visible_delta(
    previous: Seq<char>,
    current: Seq<char>,
    delta: Seq<char>,
) -> Option<Seq<char>> {
    let shown = before_markup(clean(previous));
    if shown.is_prefix_of(clean(current)) {
        text::non_empty(clean(current).skip(shown.len() as int))
    } else {
        text::non_empty(clean(delta))
    }
}

/// Cleans streamed content that comes before a tool call, chunk by chunk.
#[derive(Debug)]
pub struct StreamingContentCleaner {
    clean_content_prefix: String,
    clean_content_previous_text: Option<String>,
}

impl View for StreamingContentCleaner {
    type V = Option<Seq<char>>;

    /// The text of the last call, if there was one.
    closed spec fn view(&self) -> Option<Seq<char>> {
        text::opt_view(self.clean_content_previous_text)
    }
}

impl Default for StreamingContentCleaner {
    fn default() -> (r: StreamingContentCleaner)
        ensures
            r.wf(),
            r@ is None,
    {
        StreamingContentCleaner::new()
    }
}

impl Clone for StreamingContentCleaner {
    fn clone(&self) -> (r: StreamingContentCleaner)
        ensures
            r == *self,
    {
        StreamingContentCleaner {
            clean_content_prefix: self.clean_content_prefix.clone(),
            clean_content_previous_text: copied(&self.clean_content_previous_text),
        }
    }
}

impl StreamingContentCleaner {
    /// The cached prefix is the cleaned text of the last call.
    pub closed spec fn wf(&self) -> bool {
        match self@ {
            Some(previous) => self.clean_content_prefix@ == clean(previous),
            None => self.clean_content_prefix@.len() == 0,
        }
    }

    /// A cleaner that has seen no text.
    pub fn new() -> (r: StreamingContentCleaner)
        ensures
            r.wf(),
            r@ is None,
    {
        StreamingContentCleaner {
            clean_content_prefix: String::new(),
            clean_content_previous_text: None,
        }
    }

    /// The text that becomes visible before the first tool call. What the
    /// cleaner remembers saves work and never changes the outcome.
    pub fn pre_tool_content_delta(
        &mut self,
        previous_text: &str,
        current_text: &str,
        delta_text: &str,
    ) -> (r: Option<String>)
        requires
            old(self).wf(),
        ensures
            final(self).wf(),
            final(self)@ == Some(current_text@),
            text::opt_view(r) == visible_delta(previous_text@, current_text@, delta_text@),
    {
        let same_stream: bool = match &self.clean_content_previous_text {
            Some(prev) => text::same(prev.as_str(), previous_text),
            None => false,
        };
        let clean_prev: String = if same_stream && !previous_text.is_empty() {
            self.clean_content_prefix.clone()
        } else {
            cleaned_content(previous_text)
        };
        let clean_curr: String = cleaned_content(current_text);
        let clean_prev: String = strip_tool_call_suffix(clean_prev.as_str());
        self.clean_content_prefix = clean_curr.clone();
        self.clean_content_previous_text = Some(current_text.to_owned());

        if text::starts_with(clean_curr.as_str(), clean_prev.as_str()) {
            let n: usize = text::length(clean_prev.as_str());
            return text::some_if_non_empty(text::skip(clean_curr.as_str(), n));
        }
        finalize_client_content(delta_text)
    }
}

} // verus!
