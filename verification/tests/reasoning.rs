//! Reasoning and content, parsed at once and from a stream.

use gemma4_serving::gemma4::reasoning::Gemma4ReasoningParser;

#[test]
fn detect_basic_thinking() {
    let mut p = Gemma4ReasoningParser::new();
    let r = p.detect_and_parse_reasoning(
        "<|channel>thought\nstep one\nstep two<channel|>The answer is 42.",
        &[],
    );
    assert_eq!(r.reasoning_text, "step one\nstep two");
    assert_eq!(r.normal_text, "The answer is 42.");
}

#[test]
fn detect_no_markers_passes_through() {
    let mut p = Gemma4ReasoningParser::new();
    let r = p.detect_and_parse_reasoning("just a plain answer", &[]);
    assert_eq!(r.reasoning_text, "");
    assert_eq!(r.normal_text, "just a plain answer");
}

#[test]
fn detect_truncated_reasoning_open_only() {
    let mut p = Gemma4ReasoningParser::new();
    let r = p.detect_and_parse_reasoning("intro <|channel>thought\npartial", &[]);
    assert_eq!(r.reasoning_text, "partial");
    assert_eq!(r.normal_text, "");
}

#[test]
fn detect_text_before_and_after() {
    let mut p = Gemma4ReasoningParser::new();
    let r = p.detect_and_parse_reasoning(
        "Hello. <|channel>thought\nrumination<channel|> Goodbye.",
        &[],
    );
    assert_eq!(r.reasoning_text, "rumination");
    assert_eq!(r.normal_text, "Hello.  Goodbye.");
}

#[test]
fn detect_dangling_end_marker_passes_through_as_content() {
    let mut p = Gemma4ReasoningParser::new();
    let r = p.detect_and_parse_reasoning("some thinking<channel|>final answer", &[]);
    assert_eq!(r.reasoning_text, "");
    assert_eq!(r.normal_text, "some thinking<channel|>final answer");
}

#[test]
fn detect_dangling_end_with_thought_prefix_in_content() {
    let mut p = Gemma4ReasoningParser::new();
    let r = p.detect_and_parse_reasoning("thought\nrumination<channel|>final answer", &[]);
    assert_eq!(r.reasoning_text, "");
    assert!(r.normal_text.contains("<channel|>"));
}

#[test]
fn detect_no_thought_prefix() {
    let mut p = Gemma4ReasoningParser::new();
    let r = p.detect_and_parse_reasoning(
        "<|channel>raw reasoning without prefix<channel|>answer",
        &[],
    );
    assert_eq!(r.reasoning_text, "raw reasoning without prefix");
    assert_eq!(r.normal_text, "answer");
}

#[test]
fn streaming_single_chunk() {
    let mut p = Gemma4ReasoningParser::new();
    let r = p.parse_reasoning_streaming_incremental(
        "<|channel>thought\nrumination<channel|>final",
        &[],
    );
    assert_eq!(r.reasoning_text, "rumination");
    assert_eq!(r.normal_text, "final");
}

#[test]
fn streaming_thought_prefix_split_across_deltas() {
    let mut p = Gemma4ReasoningParser::new();
    let chunks = [
        "<|channel>",
        "thou",
        "ght\n",
        "real reasoning here",
        "<channel|>",
        "the answer.",
    ];
    let mut reasoning = String::new();
    let mut normal = String::new();
    for c in chunks {
        let r = p.parse_reasoning_streaming_incremental(c, &[]);
        reasoning.push_str(&r.reasoning_text);
        normal.push_str(&r.normal_text);
    }
    assert_eq!(reasoning, "real reasoning here");
    assert_eq!(normal, "the answer.");
}

#[test]
fn streaming_start_marker_split() {
    let mut p = Gemma4ReasoningParser::new();
    let chunks = [
        "intro ",
        "<|chan",
        "nel>thought\n",
        "rumination",
        "<channel|>",
        "outro",
    ];
    let mut reasoning = String::new();
    let mut normal = String::new();
    for c in chunks {
        let r = p.parse_reasoning_streaming_incremental(c, &[]);
        reasoning.push_str(&r.reasoning_text);
        normal.push_str(&r.normal_text);
    }
    assert_eq!(reasoning, "rumination");
    assert_eq!(normal, "intro outro");
}

#[test]
fn streaming_end_marker_split() {
    let mut p = Gemma4ReasoningParser::new();
    let chunks = [
        "<|channel>thought\n",
        "thinking",
        "<chan",
        "nel|>",
        "answer",
    ];
    let mut reasoning = String::new();
    let mut normal = String::new();
    for c in chunks {
        let r = p.parse_reasoning_streaming_incremental(c, &[]);
        reasoning.push_str(&r.reasoning_text);
        normal.push_str(&r.normal_text);
    }
    assert_eq!(reasoning, "thinking");
    assert_eq!(normal, "answer");
}
#[test]
fn streaming_no_thought_prefix_streaming() {
    let mut p = Gemma4ReasoningParser::new();
    let chunks = [
        "<|channel>",
        "raw stream of consciousness",
        "<channel|>",
        "answer",
    ];
    let mut reasoning = String::new();
    let mut normal = String::new();
    for c in chunks {
        let r = p.parse_reasoning_streaming_incremental(c, &[]);
        reasoning.push_str(&r.reasoning_text);
        normal.push_str(&r.normal_text);
    }
    assert_eq!(reasoning, "raw stream of consciousness");
    assert_eq!(normal, "answer");
}

#[test]
fn streaming_no_markers() {
    let mut p = Gemma4ReasoningParser::new();
    let r = p.parse_reasoning_streaming_incremental("plain text only", &[]);
    assert_eq!(r.reasoning_text, "");
    assert_eq!(r.normal_text, "plain text only");
}

#[test]
fn detect_multiple_reasoning_spans_first_only() {
    let mut p = Gemma4ReasoningParser::new();
    let input =
        "<|channel>thought\nfirst<channel|> middle <|channel>thought\nsecond<channel|> done";
    let r = p.detect_and_parse_reasoning(input, &[]);
    assert_eq!(r.reasoning_text, "first");
    assert!(r.normal_text.contains("middle"));
    assert!(r.normal_text.contains("second"));
}

#[test]
fn detect_open_channel_tool_handoff() {
    let mut p = Gemma4ReasoningParser::new();
    let input = format!(
        "{}{}",
        "<|channel>thought\nplanning",
        "<|tool_call>call:get_weather{location:<|\"|>SF<|\"|>}<tool_call|>",
    );
    let r = p.detect_and_parse_reasoning(&input, &[]);
    assert_eq!(r.reasoning_text, "planning");
    assert_eq!(
        r.normal_text,
        r#"<|tool_call>call:get_weather{location:<|"|>SF<|"|>}<tool_call|>"#,
    );
}

#[test]
fn paired_reasoning_then_tool_call_non_streaming() {
    let mut p = Gemma4ReasoningParser::new();
    let input = format!(
        "{}{}",
        "<|channel>thought\nthinking about the request<channel|>",
        "<|tool_call>call:get_weather{location:<|\"|>Tokyo<|\"|>}<tool_call|>",
    );
    let r = p.detect_and_parse_reasoning(&input, &[]);
    assert_eq!(r.reasoning_text, "thinking about the request");
    assert_eq!(
        r.normal_text, r#"<|tool_call>call:get_weather{location:<|"|>Tokyo<|"|>}<tool_call|>"#,
    );
}

#[test]
fn streaming_suppressed_empty_thinking_not_in_content() {
    let mut p = Gemma4ReasoningParser::new();
    let chunks = [
        "<|channel>",
        "thought\n",
        "<channel|>",
        "<|channel>",
        "Hi. ",
    ];
    let mut normal = String::new();
    for c in chunks {
        let r = p.parse_reasoning_streaming_incremental(c, &[]);
        normal.push_str(&r.normal_text);
    }
    assert!(!normal.contains("<|channel>"));
    assert!(!normal.contains("<channel|>"));
    assert!(normal.starts_with("Hi."));
}
