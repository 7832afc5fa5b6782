//! What holds of whole streams.

use gemma4_serving::gemma4::format::{
    extract_reasoning_non_streaming, extract_tool_handoff_text, finalize_client_content,
    strip_leaked_empty_thinking, strip_tool_call_suffix, strip_trailing_incomplete_token,
    StreamingContentCleaner,
};
use gemma4_serving::gemma4::reasoning::{Gemma4ReasoningParser, ParserResult};

fn stream(text: &str, size: usize) -> (String, String) {
    let mut parser = Gemma4ReasoningParser::new();
    let mut reasoning = String::new();
    let mut content = String::new();
    let chars: Vec<char> = text.chars().collect();
    for chunk in chars.chunks(size) {
        let chunk: String = chunk.iter().collect();
        let r = parser.parse_reasoning_streaming_incremental(&chunk, &[]);
        reasoning.push_str(&r.reasoning_text);
        content.push_str(&r.normal_text);
    }
    (reasoning, content)
}

#[test]
fn cuts_do_not_change_reasoning_and_answer() {
    let text = "<|channel>thought\nfirst, زن then  second\n<channel|>The answer is 42.";
    for size in 1..=text.chars().count() {
        let (reasoning, content) = stream(text, size);
        assert_eq!(reasoning, "first, زن then  second", "{size}");
        assert_eq!(content, "The answer is 42.", "{size}");
    }
}

#[test]
fn plain_output_passes_through() {
    let text = "a < b, <|not a token>, é";
    for size in 1..=text.chars().count() {
        assert_eq!(stream(text, size), (String::new(), text.to_string()), "{size}");
    }
    // An unfinished token at the end is held back.
    assert_eq!(stream("abc<|chan", 4), (String::new(), "abc".to_string()));
}

#[test]
fn open_channels_show_no_content() {
    let (reasoning, content) = stream("<|channel>thought\nabc", 3);
    assert_eq!(reasoning, "abc");
    assert_eq!(content, "");
}

#[test]
fn safe_text_only_grows() {
    let text = "x<|channel>thought\r\ny<channel|><|tool_call>call:f{a:<|\"|>b<|\"|>}<tool_call|>";
    let chars: Vec<char> = text.chars().collect();
    let mut before = String::new();
    for n in 0..=chars.len() {
        let prefix: String = chars[..n].iter().collect();
        let safe = strip_trailing_incomplete_token(&prefix);
        assert!(safe.starts_with(&before), "{prefix}");
        before = safe;
    }
    assert_eq!(before, text);
}

#[test]
fn one_chunk_yields_the_whole_parse() {
    let text = "<|channel>thought\na<channel|>b";
    let mut whole = Gemma4ReasoningParser::new();
    let mut streamed = Gemma4ReasoningParser::new();
    assert_eq!(
        streamed.parse_reasoning_streaming_incremental(text, &[]),
        whole.detect_and_parse_reasoning(text, &[])
    );
}

#[test]
fn finished_streams_start_afresh() {
    let mut parser = Gemma4ReasoningParser::new();
    assert_eq!(parser.finish_reasoning_stream(), ParserResult::default());
    parser.parse_reasoning_streaming_incremental("<|channel>a<channel|>b<|chan", &[]);
    let r = parser.finish_reasoning_stream();
    assert_eq!(r.reasoning_text, "a");
    assert_eq!(r.normal_text, "b<|chan");
    let r = parser.parse_reasoning_streaming_incremental("new", &[]);
    assert_eq!(r.normal_text, "new");
    assert_eq!(r.reasoning_text, "");
}

#[test]
fn content_is_not_repeated() {
    let mut parser = Gemma4ReasoningParser::new();
    let a = parser.parse_reasoning_streaming_incremental("Hello. ", &[]);
    assert_eq!(a.normal_text, "Hello. ");
    let b = parser.parse_reasoning_streaming_incremental("<|channel>thought\nx<channel|>", &[]);
    assert_eq!((b.reasoning_text.as_str(), b.normal_text.as_str()), ("x", ""));
    let c = parser.parse_reasoning_streaming_incremental("Bye", &[]);
    assert_eq!(c.normal_text, "Bye");
}

fn yields(chunks: &[&str]) -> Vec<String> {
    let mut parser = Gemma4ReasoningParser::new();
    chunks
        .iter()
        .map(|chunk| parser.parse_reasoning_streaming_incremental(chunk, &[]).normal_text)
        .collect()
}

#[test]
fn text_before_the_channel_is_not_emitted_twice() {
    assert_eq!(
        yields(&["\nintro ", "<|channel>thought\nx<channel|>", "outro"]),
        ["\nintro ", "", "outro"]
    );
    assert_eq!(
        yields(&["intro ", "<|channel>x<channel|>", " ", "outro"]),
        ["intro ", "", "", " outro"]
    );
    assert_eq!(yields(&["\n ", "<|channel>x<channel|>", "outro"]), ["\n ", "", "outro"]);
    assert_eq!(yields(&["thought\nHi ", "<|channel>x<channel|>", "you"]), [
        "thought\nHi ",
        "",
        " you"
    ]);
    // An echo that goes with the answer changes the text before it.
    assert_eq!(yields(&["tho\nHi", "<|channel>x<channel|>", " a thought"]), [
        "tho\nHi",
        "",
        "a thought"
    ]);
}

#[test]
fn text_around_the_channel_comes_once() {
    let text = "\n intro  <|channel>thought\nx y<channel|> outro\nend";
    let chars: Vec<char> = text.chars().collect();
    for a in 1..chars.len() {
        for b in a..chars.len() {
            let parts: Vec<String> = [&chars[..a], &chars[a..b], &chars[b..]]
                .iter()
                .map(|part| part.iter().collect())
                .collect();
            let parts: Vec<&str> = parts.iter().map(|part| part.as_str()).collect();
            assert_eq!(yields(&parts).concat().trim(), "intro   outro\nend", "{parts:?}");
        }
    }
}

#[test]
fn changed_content_does_not_repeat_text_before_the_channel() {
    assert_eq!(
        yields(&["Hi ", "<|channel>x<channel|>", "you\nthough", "t", "ful"]),
        ["Hi ", "", "you\nthough", "", "tful"]
    );
    assert_eq!(
        yields(&["Hi ", "<|channel>x<channel|>", "you\nthough", "t", "\nBye"]),
        ["Hi ", "", "you\nthough", "", "\nBye"]
    );
    // A tool call after cleaned text comes alone and unchanged.
    assert_eq!(
        yields(&["a ", "<|channel>x<channel|>", "thought\nthought\nb", "<|tool_call>call:f{}"]),
        ["a ", "", "thought\n\nb", "<|tool_call>call:f{}"]
    );
}

#[test]
fn changed_content_comes_whole_without_text_before_the_channel() {
    assert_eq!(
        yields(&["<|channel>x<channel|>b<channel|>a", "<|tool_call>"]),
        ["ba", "b<channel|>a<|tool_call>"]
    );
    assert_eq!(
        yields(&["<|channel>x<channel|>", "Hello\nthough", "t"]),
        ["", "Hello\nthough", "Hello"]
    );
}

#[test]
fn answers_with_calls_and_thoughts_come_once() {
    for answer in [
        "I thought so.",
        "Thoughtful!",
        "Let me see.\n<|tool_call>call:f{a:<|\"|>b<|\"|>}<tool_call|>",
    ] {
        let text = format!("<|channel>thought\nplan<channel|>{answer}");
        for size in 1..=text.chars().count() {
            let (reasoning, content) = stream(&text, size);
            assert_eq!(reasoning, "plan", "{size}");
            assert_eq!(content, answer, "{size}");
        }
    }
}

#[test]
fn closed_channels_split_output() {
    let s = extract_reasoning_non_streaming("a <|channel> b <channel|> c");
    assert_eq!(s.reasoning, Some("b".to_string()));
    assert_eq!(s.content, Some("a  c".to_string()));
    let s = extract_reasoning_non_streaming("a<|channel>b<channel|>");
    assert_eq!(s.reasoning, Some("b".to_string()));
    assert_eq!(s.content, None);
}

#[test]
fn tokens_do_not_leak() {
    for s in [
        "x<|channel>y<channel|>z",
        "<|chan<|channel>nel>",
        "a<tool_call|>b<|\"|>c",
        "thought\nthought\n<channel|>Hi",
    ] {
        let cleaned = strip_leaked_empty_thinking(s);
        for token in ["<|channel>", "<channel|>", "<tool_call|>", "<|\"|>"] {
            assert!(!cleaned.contains(token), "{s} {cleaned}");
        }
    }
    assert_eq!(strip_leaked_empty_thinking("<|chan<|channel>nel>"), "");
    // Removing a delimiter may join another token together, which goes too.
    assert_eq!(strip_leaked_empty_thinking("a<|chan<|\"|>nel>b"), "ab");
    assert_eq!(strip_leaked_empty_thinking("<|<|\"|>\"|>"), "");
    assert_eq!(strip_leaked_empty_thinking("<tool_<|channel>call|>x"), "x");
}

#[test]
fn markup_splits_text() {
    let text = "Hi there \n<|tool_call>call:f{}<tool_call|>";
    assert_eq!(strip_tool_call_suffix(text), "Hi there");
    assert_eq!(extract_tool_handoff_text(text), "<|tool_call>call:f{}<tool_call|>");
    assert_eq!(finalize_client_content("<|tool_call>call:f{}"), None);
    assert_eq!(finalize_client_content(""), None);
    let shown = finalize_client_content("Hi<|tool_call>call:f{}").expect("content");
    assert!(!shown.contains("<|tool_call>"));
}

#[test]
fn deltas_make_up_the_cleaned_text() {
    let text = "Let me see.<|tool_call>call:f{}<tool_call|>";
    let chars: Vec<char> = text.chars().collect();
    let mut cleaner = StreamingContentCleaner::new();
    let mut shown = String::new();
    let mut previous = String::new();
    // The opening token is one chunk, as a tokenizer emits it.
    let mut cuts: Vec<usize> = (1..=11).collect();
    cuts.extend(23..=chars.len());
    for n in cuts {
        let current: String = chars[..n].iter().collect();
        let delta = current[previous.len()..].to_string();
        if let Some(d) = cleaner.pre_tool_content_delta(&previous, &current, &delta) {
            shown.push_str(&d);
        }
        previous = current;
    }
    assert_eq!(shown, "Let me see.");
}

#[test]
fn forgetful_cleaners_agree() {
    let mut cleaner = StreamingContentCleaner::new();
    cleaner.pre_tool_content_delta("", "Hi", "Hi");
    let remembered = cleaner.clone().pre_tool_content_delta("Hi", "Hi you", " you");
    let forgotten = StreamingContentCleaner::new().pre_tool_content_delta("Hi", "Hi you", " you");
    assert_eq!(remembered, Some(" you".to_string()));
    assert_eq!(forgotten, remembered);
    // Where the cleaned text does not extend what was shown, the delta is cleaned.
    let changed = cleaner.pre_tool_content_delta("Hi", "thought<|\"|>", "x<|\"|>");
    assert_eq!(changed, Some("x".to_string()));
}
