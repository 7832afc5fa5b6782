//! Constraints on decoding and the other readings of a request.

use gemma4_serving::chat_completions::{
    build_gemma4_structural_tag, checks, ChatCompletionTool, ChatCompletionToolChoiceOption,
    CommonExt, CreateChatCompletionRequest, FunctionObject, NvCreateChatCompletionRequest, NvExt,
    RequestCheck, ResponseFormat, ResponseFormatJsonSchema, Stop, ValidationError,
    GEMMA4_ARGS_GRAMMAR,
};
use gemma4_serving::json::{array, field, object, string, Json};

fn get<'a>(value: &'a Json, name: &str) -> &'a Json {
    match value {
        Json::Object(fields) => {
            &fields.iter().find(|f| f.name == name).unwrap_or_else(|| panic!("no {name}")).value
        }
        _ => panic!("not an object: {value:?}"),
    }
}

fn items(value: &Json) -> &Vec<Json> {
    match value {
        Json::Array(items) => items,
        _ => panic!("not an array: {value:?}"),
    }
}

fn weather_parameters() -> Json {
    object(vec![
        field("type", string("object")),
        field(
            "properties",
            object(vec![field("location", object(vec![field("type", string("string"))]))]),
        ),
        field("required", array(vec![string("location")])),
    ])
}

fn weather_tool() -> ChatCompletionTool {
    ChatCompletionTool {
        function: FunctionObject {
            name: "get_weather".to_string(),
            parameters: Some(weather_parameters()),
        },
    }
}

fn reply_schema() -> Json {
    object(vec![
        field("type", string("object")),
        field(
            "properties",
            object(vec![field("answer", object(vec![field("type", string("string"))]))]),
        ),
        field("required", array(vec![string("answer")])),
    ])
}

fn response_format_schema() -> ResponseFormat {
    ResponseFormat::JsonSchema {
        json_schema: ResponseFormatJsonSchema {
            name: "reply".to_string(),
            schema: Some(reply_schema()),
        },
    }
}

fn request() -> NvCreateChatCompletionRequest {
    NvCreateChatCompletionRequest {
        inner: CreateChatCompletionRequest {
            tools: None,
            tool_choice: None,
            response_format: None,
            stop: None,
            seed: None,
            n: None,
            max_completion_tokens: None,
            max_tokens: None,
            logprobs: None,
            top_logprobs: None,
        },
        common: CommonExt {
            ignore_eos: None,
            min_tokens: None,
            top_k: None,
            include_stop_str_in_output: None,
            skip_special_tokens: None,
            guided_json: None,
            guided_regex: None,
            guided_grammar: None,
            guided_choice: None,
            guided_decoding_backend: None,
            guided_whitespace_pattern: None,
        },
        nvext: None,
        return_tokens_as_token_ids: None,
        unsupported_fields: vec![],
    }
}

fn all_passed() -> Vec<Result<(), String>> {
    checks().iter().map(|_| Ok(())).collect()
}

#[test]
fn test_skip_special_tokens_none() {
    let request = request();
    assert_eq!(request.common.skip_special_tokens, None);
    assert_eq!(request.get_skip_special_tokens(), None);
}

#[test]
fn test_skip_special_tokens_propagates() {
    for skip_value in [true, false] {
        let mut request = request();
        request.common.skip_special_tokens = Some(skip_value);
        assert_eq!(request.get_skip_special_tokens(), Some(skip_value));
    }
}

#[test]
fn test_stop_contract() {
    let mut r = request();
    r.inner.stop = Some(Stop::One(" The".to_string()));
    assert_eq!(r.get_stop(), Some(vec![" The".to_string()]));
    assert_eq!(r.get_stop_token_ids(), None);

    r.inner.stop = Some(Stop::Many(vec!["A".to_string(), "B".to_string()]));
    assert_eq!(r.get_stop(), Some(vec!["A".to_string(), "B".to_string()]));
    assert_eq!(r.get_stop_token_ids(), None);

    r.inner.stop = Some(Stop::TokenIds(vec![32, 34]));
    assert_eq!(r.get_stop(), None);
    assert_eq!(r.get_stop_token_ids(), Some(vec![32, 34]));

    r.inner.stop = Some(Stop::One("token_id:576".to_string()));
    assert_eq!(r.get_stop(), Some(vec!["token_id:576".to_string()]));
    assert_eq!(r.get_stop_token_ids(), None);

    r.inner.stop = Some(Stop::Many(vec!["token_id:576".to_string()]));
    assert_eq!(r.get_stop(), Some(vec!["token_id:576".to_string()]));
    assert_eq!(r.get_stop_token_ids(), None);

    let mut r = request();
    assert_eq!(r.get_stop(), None);
    assert_eq!(r.get_stop_token_ids(), None);
    r.unsupported_fields = vec!["stop_token_ids".to_string()];
    assert!(r.validate(&all_passed()).is_err());
}

#[test]
fn structural_tag_built_for_tools_plus_response_format() {
    let mut req = request();
    req.inner.tools = Some(vec![weather_tool()]);
    req.inner.response_format = Some(response_format_schema());

    assert!(req.get_guided_json(None).is_none());
    let tag = req.get_structural_tag().expect("structural tag expected");
    assert_eq!(get(&tag, "type"), &string("structural_tag"));
    let format = get(&tag, "format");
    assert_eq!(get(format, "type"), &string("or"));
    let elements = items(get(format, "elements"));
    assert_eq!(elements.len(), 2);
    assert_eq!(get(&elements[0], "type"), &string("json_schema"));
    assert_eq!(get(&elements[0], "json_schema"), &reply_schema());
    assert_eq!(get(&elements[1], "type"), &string("tags_with_separator"));
    assert_eq!(get(&elements[1], "separator"), &string(""));
    assert_eq!(get(&elements[1], "at_least_one"), &Json::Bool(true));
    let first_tag = &items(get(&elements[1], "tags"))[0];
    assert_eq!(get(first_tag, "begin"), &string("<|tool_call>call:get_weather{"));
    assert_eq!(get(first_tag, "end"), &string("}<tool_call|>"));
    let content = get(first_tag, "content");
    assert_eq!(get(content, "type"), &string("grammar"));
    assert_eq!(get(content, "grammar"), &string(GEMMA4_ARGS_GRAMMAR));
}

#[test]
fn no_structural_tag_without_response_format() {
    let mut req = request();
    req.inner.tools = Some(vec![weather_tool()]);
    assert!(req.get_structural_tag().is_none());
}

#[test]
fn no_structural_tag_without_tools() {
    let mut req = request();
    req.inner.response_format = Some(response_format_schema());
    assert!(req.get_structural_tag().is_none());
    assert!(req.get_guided_json(None).is_some());

    // An empty list offers no tool either.
    req.inner.tools = Some(vec![]);
    assert!(req.get_structural_tag().is_none());
    assert_eq!(req.get_guided_json(None), Some(reply_schema()));
}

#[test]
fn no_structural_tag_for_required_tool_choice() {
    let mut req = request();
    req.inner.tools = Some(vec![weather_tool()]);
    req.inner.tool_choice = Some(ChatCompletionToolChoiceOption::Required);
    req.inner.response_format = Some(response_format_schema());
    assert!(req.get_structural_tag().is_none());
    let derived = weather_parameters();
    assert_eq!(req.get_guided_json(Some(&derived)), Some(weather_parameters()));

    req.inner.tool_choice = Some(ChatCompletionToolChoiceOption::Named("get_weather".to_string()));
    assert!(req.get_structural_tag().is_none());
    assert_eq!(req.get_guided_json(Some(&derived)), Some(weather_parameters()));
}

#[test]
fn auto_tool_choice_gets_a_tag() {
    let mut req = request();
    req.inner.tools = Some(vec![weather_tool()]);
    req.inner.tool_choice = Some(ChatCompletionToolChoiceOption::Auto);
    req.inner.response_format = Some(ResponseFormat::JsonObject);
    let any_object = object(vec![field("type", string("object"))]);
    assert_eq!(
        req.get_structural_tag(),
        Some(build_gemma4_structural_tag(&any_object, &vec![weather_tool()]))
    );
    assert_eq!(req.get_guided_json(None), None);
    assert_eq!(req.structural_tag_response_schema(), Some(any_object));
}

#[test]
fn forbidden_tools_compile_no_tool_branch() {
    let mut req = request();
    req.inner.tools = Some(vec![weather_tool()]);
    req.inner.tool_choice = Some(ChatCompletionToolChoiceOption::Never);
    req.inner.response_format = Some(response_format_schema());
    assert!(req.get_structural_tag().is_none());
    assert_eq!(req.get_guided_json(None), Some(reply_schema()));
    assert_eq!(req.get_guided_json(Some(&weather_parameters())), Some(reply_schema()));
}

#[test]
fn explicit_schema_comes_first() {
    let mut req = request();
    req.common.guided_json = Some(string("mine"));
    req.inner.tools = Some(vec![weather_tool()]);
    req.inner.response_format = Some(response_format_schema());
    assert_eq!(req.get_guided_json(Some(&weather_parameters())), Some(string("mine")));
    assert_eq!(req.get_structural_tag(), None);
}

#[test]
fn tag_rules_out_a_derived_schema() {
    let mut req = request();
    req.inner.tools = Some(vec![weather_tool()]);
    req.inner.tool_choice = Some(ChatCompletionToolChoiceOption::Auto);
    req.inner.response_format = Some(response_format_schema());
    assert_eq!(req.get_guided_json(Some(&weather_parameters())), None);
    assert!(req.get_structural_tag().is_some());
}

#[test]
fn text_format_constrains_nothing() {
    let mut req = request();
    req.inner.tools = Some(vec![weather_tool()]);
    req.inner.response_format = Some(ResponseFormat::Text);
    assert_eq!(req.get_guided_json(None), None);
    assert_eq!(req.get_structural_tag(), None);
}

#[test]
fn each_tool_has_a_tag() {
    let mut other = weather_tool();
    other.function.name = "b".to_string();
    let tag = build_gemma4_structural_tag(&Json::Null, &vec![weather_tool(), other]);
    let tags = items(get(&items(get(get(&tag, "format"), "elements"))[1], "tags"));
    assert_eq!(tags.len(), 2);
    assert_eq!(get(&tags[1], "begin"), &string("<|tool_call>call:b{"));
    assert_eq!(get(&tags[1], "type"), &string("tag"));
}

#[test]
fn log_probabilities() {
    let mut req = request();
    assert_eq!(req.get_logprobs(), None);
    req.inner.top_logprobs = Some(5);
    assert_eq!(req.get_logprobs(), None);
    req.inner.logprobs = Some(false);
    assert_eq!(req.get_logprobs(), None);
    req.inner.logprobs = Some(true);
    assert_eq!(req.get_logprobs(), Some(5));
    req.inner.top_logprobs = None;
    assert_eq!(req.get_logprobs(), Some(1));
    assert_eq!(req.get_prompt_logprobs(), None);
}

#[test]
fn newer_token_limit_wins() {
    let mut req = request();
    assert_eq!(req.get_max_tokens(), None);
    req.inner.max_tokens = Some(10);
    assert_eq!(req.get_max_tokens(), Some(10));
    req.inner.max_completion_tokens = Some(20);
    assert_eq!(req.get_max_tokens(), Some(20));
}

#[test]
fn annotations_are_found() {
    let mut req = request();
    assert_eq!(req.annotations(), None);
    assert!(!req.has_annotation("a"));
    assert!(req.nvext().is_none());
    req.nvext = Some(NvExt { annotations: Some(vec!["a".to_string(), "b".to_string()]) });
    assert_eq!(req.annotations(), Some(vec!["a".to_string(), "b".to_string()]));
    assert!(req.has_annotation("b"));
    assert!(!req.has_annotation("c"));
    assert!(req.nvext().is_some());
    assert_eq!(req.raw_prompt(), None);
}

#[test]
fn plain_fields_are_handed_on() {
    let mut req = request();
    req.inner.seed = Some(-7);
    req.inner.n = Some(2);
    req.common.top_k = Some(40);
    req.common.min_tokens = Some(3);
    req.common.ignore_eos = Some(true);
    req.common.include_stop_str_in_output = Some(false);
    req.common.guided_regex = Some("a+".to_string());
    req.common.guided_grammar = Some("root ::= x".to_string());
    req.common.guided_choice = Some(vec!["x".to_string()]);
    req.common.guided_decoding_backend = Some("xgrammar".to_string());
    req.common.guided_whitespace_pattern = Some(" *".to_string());
    req.return_tokens_as_token_ids = Some(true);
    assert_eq!(req.get_seed(), Some(-7));
    assert_eq!(req.get_n(), Some(2));
    assert_eq!(req.get_best_of(), None);
    assert_eq!(req.get_top_k(), Some(40));
    assert_eq!(req.get_min_tokens(), Some(3));
    assert_eq!(req.get_ignore_eos(), Some(true));
    assert_eq!(req.get_common_ignore_eos(), Some(true));
    assert_eq!(req.get_include_stop_str_in_output(), Some(false));
    assert_eq!(req.get_guided_regex(), Some("a+".to_string()));
    assert_eq!(req.get_guided_grammar(), Some("root ::= x".to_string()));
    assert_eq!(req.get_guided_choice(), Some(vec!["x".to_string()]));
    assert_eq!(req.get_guided_decoding_backend(), Some("xgrammar".to_string()));
    assert_eq!(req.get_guided_whitespace_pattern(), Some(" *".to_string()));
    assert_eq!(req.get_return_tokens_as_token_ids(), Some(true));
    assert_eq!(req.get_formatted_prompt(), None);
    assert_eq!(req.common_ext().unwrap().top_k, Some(40));
}

#[test]
fn first_failed_check_decides() {
    let mut req = request();
    let mut outcomes = all_passed();
    assert_eq!(outcomes.len(), 20);
    assert_eq!(req.validate(&outcomes), Ok(()));
    outcomes[18] = Err("top_k".to_string());
    outcomes[7] = Err("n".to_string());
    assert_eq!(
        req.validate(&outcomes),
        Err(ValidationError::Failed { check: RequestCheck::N, message: "n".to_string() })
    );
    req.unsupported_fields = vec!["x".to_string()];
    assert_eq!(req.validate(&outcomes), Err(ValidationError::UnsupportedFields));
}
