//! Operations on text.

use gemma4_serving::gemma4::format::{
    clean_visible_prefix, compact_cf_no_ws, extract_tool_handoff_text, has_tool_call_markup,
    longest_incomplete_suffix_len, may_contain_gemma4_control_leak, norm_snapshot_part,
    strip_leaked_tool_grammar, strip_one_thought_shard_line, strip_thought_label,
    tool_call_markup_start,
};
use gemma4_serving::http_status::{is_client_error, is_server_error, is_success};
use gemma4_serving::json::{array, field, object, string, Json};
use gemma4_serving::text;
use gemma4_serving::text::{
    chars_of, find, has, is_whitespace, length, rfind, same, same_ignoring_ascii_case, skip,
    slice, some_if_non_empty, starts_with, take, trimmed, trimmed_end, trimmed_start, without,
    without_prefix,
};

#[test]
fn white_space_is_that_of_unicode() {
    for c in '\0'..=char::MAX {
        assert_eq!(is_whitespace(c), c.is_whitespace(), "{c:?}");
    }
}

#[test]
fn positions_are_counted_in_characters() {
    assert_eq!(find("é<é", "é"), Some(0));
    assert_eq!(rfind("é<é", "é"), Some(2));
    assert_eq!(find("é<é", "<é"), Some(1));
    assert_eq!(find("abc", "d"), None);
    assert_eq!(rfind("abc", "d"), None);
    assert_eq!(find("abc", ""), Some(0));
    assert_eq!(rfind("abc", ""), Some(3));
    assert_eq!(length("é<é"), 3);
    assert_eq!(chars_of("é<"), vec!['é', '<']);
    assert_eq!(take("é<é", 1), "é");
    assert_eq!(skip("é<é", 1), "<é");
    assert_eq!(slice("é<é", 1, 2), "<");
}

#[test]
fn removal_does_not_look_back() {
    assert_eq!(without("aabb", "ab"), "ab");
    assert_eq!(without("ababa", "ab"), "a");
    assert_eq!(without("aaa", "aa"), "a");
    assert_eq!(without("xyz", "ab"), "xyz");
}

#[test]
fn trimming() {
    assert_eq!(trimmed("\u{a0} a b\u{3000}\n"), "a b");
    assert_eq!(trimmed_start(" a "), "a ");
    assert_eq!(trimmed_end(" a "), " a");
    assert_eq!(trimmed(" \n"), "");
}

#[test]
fn comparisons() {
    assert!(has("abc", "bc"));
    assert!(!has("abc", "cb"));
    assert!(starts_with("abc", "ab"));
    assert!(!starts_with("a", "ab"));
    assert!(same("é", "é"));
    assert!(!same("e", "é"));
    assert!(same_ignoring_ascii_case("AbZ", "abz"));
    assert!(!same_ignoring_ascii_case("É", "é"));
    assert_eq!(without_prefix("abc", "ab"), "c");
    assert_eq!(without_prefix("abc", "b"), "abc");
    assert_eq!(text::concat("a", "b"), "ab");
    assert_eq!(some_if_non_empty(""), None);
    assert_eq!(some_if_non_empty("a"), Some("a".to_string()));
}

#[test]
fn compacted_text_is_lower_case_without_white_space() {
    assert_eq!(compact_cf_no_ws(" Tho\tUGHT\u{2003}É "), "thoughté");
    assert_eq!(compact_cf_no_ws("\u{130}ΑΣ"), "i\u{307}ας");
}

#[test]
fn markup_starts_at_a_byte() {
    assert_eq!(tool_call_markup_start("é<|tool_call>"), Some(2));
    assert_eq!(tool_call_markup_start("جcall:f{"), Some(2));
    assert_eq!(tool_call_markup_start("call:f"), None);
    assert_eq!(tool_call_markup_start("call:a{<channel|>x call:b{"), Some(19));
    assert_eq!(tool_call_markup_start("call:a{<channel|>x"), None);
    assert_eq!(tool_call_markup_start("plain"), None);
}

#[test]
fn markup_is_handed_off() {
    assert_eq!(extract_tool_handoff_text("Hi <|tool_call>call:f{}"), "<|tool_call>call:f{}");
    assert_eq!(extract_tool_handoff_text("Hi call:f{}"), "call:f{}");
    assert_eq!(extract_tool_handoff_text("Hi"), "");
    assert!(has_tool_call_markup("a<tool_call|>"));
    assert!(has_tool_call_markup("<|\"|>"));
    assert!(has_tool_call_markup("call:f{"));
    assert!(!has_tool_call_markup("call me {"));
}

#[test]
fn echoed_lines_are_dropped() {
    assert_eq!(strip_one_thought_shard_line("thoughtthoughtthoughttho", "\n"), "\n");
    assert_eq!(strip_one_thought_shard_line(" T h ", ""), "");
    assert_eq!(strip_one_thought_shard_line("ought", ""), "ought");
    assert_eq!(strip_one_thought_shard_line("thoughtful", "\n"), "thoughtful\n");
    assert_eq!(strip_one_thought_shard_line("", "\n"), "\n");
    assert_eq!(strip_one_thought_shard_line("  ", "\n"), "  \n");
}

#[test]
fn leaks_are_detected() {
    for s in ["a<|channel>", "a<channel|>", "A THOUGHT", "<|tool_call>", "<tool_call|>", "<|\"|>"] {
        assert!(may_contain_gemma4_control_leak(s), "{s}");
    }
    assert!(!may_contain_gemma4_control_leak("though"));
    assert_eq!(strip_leaked_tool_grammar("a<tool_call|>b<|\"|>c<|tool_call>"), "abc<|tool_call>");
    assert_eq!(strip_leaked_tool_grammar("<tool_<|\"|>call|>"), "");
    assert_eq!(strip_leaked_tool_grammar("<|<|\"|>\"|><|tool_call>"), "<|tool_call>");
    assert_eq!(
        clean_visible_prefix("I'll help!<|tool_call>call:f{}<tool_call|>"),
        "I'll help!<|tool_call>call:f{}<tool_call|>"
    );
    assert_eq!(
        clean_visible_prefix("<channel|>Hi <|\"|><|tool_call>call:f{a:<|\"|>b<|\"|>}<tool_call|>"),
        "Hi <|tool_call>call:f{a:<|\"|>b<|\"|>}<tool_call|>"
    );
    assert_eq!(clean_visible_prefix("  Hi<|tool_call>call:f{} "), "Hi<|tool_call>call:f{}");
    assert_eq!(
        clean_visible_prefix("<channel|>Hi <|tool_call>call:f{}"),
        "Hi <|tool_call>call:f{}"
    );
    assert_eq!(clean_visible_prefix("thought\n<|tool_call>call:f{}"), "<|tool_call>call:f{}");
    assert_eq!(clean_visible_prefix("thought<|tool_call>call:f{}"), "thought<|tool_call>call:f{}");
    assert_eq!(clean_visible_prefix("tho\nHi call:f{thought}"), "Hi call:f{thought}");
    assert_eq!(clean_visible_prefix("  Hi call:f{} "), "  Hi call:f{} ");
    assert_eq!(clean_visible_prefix("Hi<tool_call|>"), "Hi");
    assert_eq!(clean_visible_prefix(" plain "), " plain ");
}

#[test]
fn labels_and_absent_parts() {
    assert_eq!(strip_thought_label("thought\nx"), "x");
    assert_eq!(strip_thought_label("thoughts"), "thoughts");
    assert_eq!(norm_snapshot_part(None), "");
    assert_eq!(norm_snapshot_part(Some("a")), "a");
    assert_eq!(longest_incomplete_suffix_len("é<|channel>thought\r"), 18);
    assert_eq!(longest_incomplete_suffix_len("plain"), 0);
}

#[test]
fn status_classes() {
    for status in 0..=1000u16 {
        assert_eq!(is_success(status), status / 100 == 2);
        assert_eq!(is_client_error(status), status / 100 == 4);
        assert_eq!(is_server_error(status), status / 100 == 5);
    }
}

#[test]
fn json_copies_are_equal() {
    let value = object(vec![
        field("a", array(vec![Json::Null, Json::Bool(false), Json::UInt(7)])),
        field("b", Json::Number("-1.5".to_string())),
        field("c", string("x")),
    ]);
    assert_eq!(value.clone(), value);
}
