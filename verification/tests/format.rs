//! Cleaning of model output.

use gemma4_serving::gemma4::format::{
    diff_reasoning_streaming_snapshots, extract_reasoning_non_streaming, finalize_client_content,
    strip_leaked_empty_thinking, strip_thought_shard_echoes, strip_tool_call_suffix,
    strip_trailing_incomplete_token, ReasoningSnapshot, StreamingContentCleaner,
};
use gemma4_serving::gemma4::STRING_DELIM;

#[test]
fn strip_trailing_incomplete_token_preserves_complete_markers() {
    // `<|channel>` alone is a proper prefix of `<|channel>thought\n` and is stripped.
    assert_eq!(strip_trailing_incomplete_token("<|channel>"), "");
    assert_eq!(strip_trailing_incomplete_token("<channel|>"), "<channel|>");
    assert_eq!(strip_trailing_incomplete_token("<|tool_call>"), "<|tool_call>");
    assert_eq!(strip_trailing_incomplete_token("<tool_call|>"), "<tool_call|>");
    assert_eq!(strip_trailing_incomplete_token(STRING_DELIM), STRING_DELIM);
    assert_eq!(
        strip_trailing_incomplete_token("{location:<|\"|>NYC<|\"|>}"),
        "{location:<|\"|>NYC<|\"|>}"
    );
}

#[test]
fn strip_trailing_incomplete_token_strips_partial_markers() {
    assert_eq!(strip_trailing_incomplete_token("Hi<|chan"), "Hi");
    assert_eq!(strip_trailing_incomplete_token("Hi<|\"|"), "Hi");
    assert_eq!(strip_trailing_incomplete_token("partial<tho"), "partial<tho");
    assert_eq!(
        strip_trailing_incomplete_token("<|channel>thought\n"),
        "<|channel>thought\n"
    );
}

#[test]
fn strip_leaked_empty_thinking_preserves_tool_call_start_for_suffix_strip() {
    let input = "I'll help!<|tool_call>call:f{}<tool_call|>";
    assert_eq!(
        strip_tool_call_suffix(&strip_leaked_empty_thinking(input)),
        "I'll help!"
    );
}

#[test]
fn strip_leaked_empty_thinking_removes_tool_grammar_leaks() {
    let banking = "<|\"|>Great news! You are eligible for a personal loan.";
    assert_eq!(
        strip_leaked_empty_thinking(banking),
        "Great news! You are eligible for a personal loan."
    );

    assert_eq!(strip_leaked_empty_thinking("thought<tool_call|>"), "");
    assert_eq!(strip_leaked_empty_thinking("<tool_call|>"), "");
    assert_eq!(strip_leaked_empty_thinking("<|\"|>"), "");
}

#[test]
fn strip_leaked_empty_thinking_removes_echoed_channel() {
    let input = "Hello <|channel>thought\n<channel|>world";
    assert_eq!(strip_leaked_empty_thinking(input), "Hello world");

    let composite = "thought\n<|channel>thought\n<channel|>أعتذر جداً";
    assert_eq!(strip_leaked_empty_thinking(composite), "أعتذر جداً");

    let orphan = "thought\n<channel|>أعتذر";
    assert_eq!(strip_leaked_empty_thinking(orphan), "أعتذر");

    let arabic = "أعتذر جداً عن التأخير!";
    assert_eq!(strip_leaked_empty_thinking(arabic), arabic);
}

#[test]
fn strip_thought_shard_echoes_removes_glued_shards() {
    assert_eq!(strip_thought_shard_echoes("thoughtthought"), "");
    assert_eq!(
        strip_thought_shard_echoes("thoughtthoughtful"),
        "thoughtthoughtful"
    );
    assert_eq!(strip_thought_shard_echoes("thoughtthoughtHello"), "thoughtthoughtHello");
    let core = "thought".repeat(11) + "tho";
    assert_eq!(strip_thought_shard_echoes(&core).trim(), "");
}

#[test]
fn strip_tool_call_suffix_keeps_prefix() {
    let input = "I'll help!<|tool_call>call:f{}<tool_call|>";
    assert_eq!(strip_tool_call_suffix(input), "I'll help!");
}

#[test]
fn finalize_client_content_strips_empty_thinking_and_tool_suffix() {
    let input = "Hi <|channel>thought\n<channel|>there<|tool_call>call:f{}<tool_call|>";
    assert_eq!(finalize_client_content(input).as_deref(), Some("Hi there"));
}

#[test]
fn extract_reasoning_non_streaming_basic() {
    let snap = extract_reasoning_non_streaming(
        "<|channel>thought\nstep one\nstep two<channel|>The answer is 42.",
    );
    assert_eq!(snap.reasoning.as_deref(), Some("step one\nstep two"));
    assert_eq!(snap.content.as_deref(), Some("The answer is 42."));
}

#[test]
fn extract_reasoning_non_streaming_no_channel() {
    let snap = extract_reasoning_non_streaming("just a plain answer");
    assert!(snap.reasoning.is_none());
    assert_eq!(snap.content.as_deref(), Some("just a plain answer"));
}

#[test]
fn extract_reasoning_non_streaming_dangling_end() {
    let snap = extract_reasoning_non_streaming("some thinking<channel|>final answer");
    assert!(snap.reasoning.is_none());
    assert_eq!(
        snap.content.as_deref(),
        Some("some thinking<channel|>final answer")
    );
}

#[test]
fn diff_reasoning_streaming_snapshots_basic() {
    let prev = ReasoningSnapshot {
        reasoning: Some("step".to_string()),
        content: None,
    };
    let curr = ReasoningSnapshot {
        reasoning: Some("step one".to_string()),
        content: None,
    };
    let (dr, dc) = diff_reasoning_streaming_snapshots(&curr, &prev);
    assert_eq!(dr, " one");
    assert_eq!(dc, "");
}

#[test]
fn streaming_content_cleaner_prefix_diff() {
    let mut cleaner = StreamingContentCleaner::new();
    let d1 = cleaner.pre_tool_content_delta("", "<|channel>", "<|channel>");
    assert!(d1.is_none());

    let d2 = cleaner.pre_tool_content_delta(
        "<|channel>",
        "<|channel>thought\n<channel|>Hi.",
        "thought\n<channel|>Hi.",
    );
    assert_eq!(d2.as_deref(), Some("Hi."));
}
