//! Chat completion requests: which constraint they put on decoding, and what
//! else an engine reads from them.

use vstd::prelude::*;
use vstd::string::*;

use crate::json::{array, field, object, string, Json, JsonView};
use crate::text;

verus! {

/// The grammar of the arguments of a native tool call: what stands between
/// `<|tool_call>call:NAME{` and `}<tool_call|>`. Keys are bare, strings stand
/// between `<|"|>` delimiters, and objects and arrays nest. A string cannot hold
/// the delimiter, as `<` is never followed by `|` in it. The grammar knows
/// nothing of the parameters of a particular tool.
pub const GEMMA4_ARGS_GRAMMAR: &'static str = r#"root    ::= (entry ("," entry)*)?
entry   ::= key ":" value
key     ::= [a-zA-Z0-9_.\-]+
value   ::= string | number | bool | null | object | array
string  ::= "<|\"|>" char* "<|\"|>"
char    ::= [^<] | "<" [^|]
number  ::= "-"? [0-9]+ ("." [0-9]+)?
bool    ::= "true" | "false"
null    ::= "null" | "none" | "nil"
object  ::= "{" (entry ("," entry)*)? "}"
array   ::= "[" (value ("," value)*)? "]""#;

/// Opens a native tool call, before the name of the tool.
pub const TOOL_CALL_BEGIN: &'static str = "<|tool_call>call:";

/// Closes the arguments of a native tool call and the call.
pub const TOOL_CALL_FINISH: &'static str = "}<tool_call|>";

/// A function that the model may call.
pub struct FunctionObject {
    pub name: String,
    pub parameters: Option<Json>,
}

/// A tool that a request offers.
pub struct ChatCompletionTool {
    pub function: FunctionObject,
}

/// Whether and how the model is to call a tool.
pub enum ChatCompletionToolChoiceOption {
    /// No tool is called.
    Never,
    /// The model chooses.
    Auto,
    /// Some tool is called.
    Required,
    /// The tool of this name is called.
    Named(String),
}

/// A JSON schema that the response is to follow.
pub struct ResponseFormatJsonSchema {
    pub name: String,
    pub schema: Option<Json>,
}

/// The form of the response.
pub enum ResponseFormat {
    Text,
    JsonObject,
    JsonSchema { json_schema: ResponseFormatJsonSchema },
}

/// Where generation is to stop: at texts or at tokens.
pub enum Stop {
    One(String),
    Many(Vec<String>),
    TokenIds(Vec<u32>),
}

/// The fields of a chat completion request that are read here.
pub struct CreateChatCompletionRequest {
    pub tools: Option<Vec<ChatCompletionTool>>,
    pub tool_choice: Option<ChatCompletionToolChoiceOption>,
    pub response_format: Option<ResponseFormat>,
    pub stop: Option<Stop>,
    pub seed: Option<i64>,
    pub n: Option<u8>,
    pub max_completion_tokens: Option<u32>,
    pub max_tokens: Option<u32>,
    pub logprobs: Option<bool>,
    pub top_logprobs: Option<u8>,
}

/// Fields that several kinds of requests have in common.
pub struct CommonExt {
    pub ignore_eos: Option<bool>,
    pub min_tokens: Option<u32>,
    pub top_k: Option<i32>,
    pub include_stop_str_in_output: Option<bool>,
    pub skip_special_tokens: Option<bool>,
    pub guided_json: Option<Json>,
    pub guided_regex: Option<String>,
    pub guided_grammar: Option<String>,
    pub guided_choice: Option<Vec<String>>,
    pub guided_decoding_backend: Option<String>,
    pub guided_whitespace_pattern: Option<String>,
}

/// Vendor extensions of a request.
pub struct NvExt {
    pub annotations: Option<Vec<String>>,
}

/// A chat completion request with its extensions.
pub struct NvCreateChatCompletionRequest {
    pub inner: CreateChatCompletionRequest,
    pub common: CommonExt,
    pub nvext: Option<NvExt>,
    /// Whether token fields are to hold `token_id:<id>` in place of text.
    pub return_tokens_as_token_ids: Option<bool>,
    /// The names of the fields that are not supported.
    pub unsupported_fields: Vec<String>,
}

/// The names of `tools`.
pub open spec fn tool_names(tools: Seq<ChatCompletionTool>) -> Seq<Seq<char>> {
    Seq::new(tools.len(), |i: int| tools[i].function.name@)
}

/// The schema of any JSON object.
pub open spec fn any_object() -> JsonView {
    JsonView::Object(seq![("type"@, JsonView::Str("object"@))])
}

/// What `j` says, if it is there.
pub open spec fn opt_json(j: Option<Json>) -> Option<JsonView> {
    match j {
        Some(v) => Some(v@),
        None => None,
    }
}

/// The schema that a response format asks for, if any.
pub open spec fn format_schema(format: Option<ResponseFormat>) -> Option<JsonView> {
    match format {
        Some(ResponseFormat::JsonObject) => Some(any_object()),
        Some(ResponseFormat::JsonSchema { json_schema }) => opt_json(json_schema.schema),
        _ => None,
    }
}

/// What opens a call of the tool `name`.
pub open spec fn call_begin(name: Seq<char>) -> Seq<char> {
    TOOL_CALL_BEGIN@ + name + "{"@
}

/// The tag of the native calls of the tool `name`.
pub open spec fn tool_tag(name: Seq<char>) -> JsonView {
    JsonView::Object(
        seq![
            ("type"@, JsonView::Str("tag"@)),
            ("begin"@, JsonView::Str(call_begin(name))),
            (
                "content"@,
                JsonView::Object(
                    seq![
                        ("type"@, JsonView::Str("grammar"@)),
                        ("grammar"@, JsonView::Str(GEMMA4_ARGS_GRAMMAR@)),
                    ],
                ),
            ),
            ("end"@, JsonView::Str(TOOL_CALL_FINISH@)),
        ],
    )
}

/// The branch of a structural tag that follows the schema.
pub open spec fn schema_branch(schema: JsonView) -> JsonView {
    JsonView::Object(
        seq![("type"@, JsonView::Str("json_schema"@)), ("json_schema"@, schema)],
    )
}

/// The branch of a structural tag that calls one or more of the tools.
pub open spec fn tools_branch(names: Seq<Seq<char>>) -> JsonView {
    JsonView::Object(
        seq![
            ("type"@, JsonView::Str("tags_with_separator"@)),
            ("separator"@, JsonView::Str(""@)),
            ("at_least_one"@, JsonView::Bool(true)),
            ("tags"@, JsonView::Array(Seq::new(names.len(), |i: int| tool_tag(names[i])))),
        ],
    )
}

/// The structural tag that lets the model either follow the schema or call
/// tools, and nothing else.
pub open spec fn structural_tag(schema: JsonView, names: Seq<Seq<char>>) -> JsonView {
    JsonView::Object(
        seq![
            ("type"@, JsonView::Str("structural_tag"@)),
            (
                "format"@,
                JsonView::Object(
                    seq![
                        ("type"@, JsonView::Str("or"@)),
                        (
                            "elements"@,
                            JsonView::Array(seq![schema_branch(schema), tools_branch(names)]),
                        ),
                    ],
                ),
            ),
        ],
    )
}

/// The tag of the native calls of the tool `name`.
fn build_tool_tag(name: &str) -> (r: Json)
    ensures
        r@ == tool_tag(name@),
{
    let mut begin: String = TOOL_CALL_BEGIN.to_owned();
    begin.append(name);
    begin.append("{");
    let content: Json = object(
        vec![field("type", string("grammar")), field("grammar", string(GEMMA4_ARGS_GRAMMAR))],
    );
    proof {
        assert(content@->Object_0 =~= seq![
            ("type"@, JsonView::Str("grammar"@)),
            ("grammar"@, JsonView::Str(GEMMA4_ARGS_GRAMMAR@)),
        ]);
    }
    let r: Json = object(
        vec![
            field("type", string("tag")),
            field("begin", string(begin.as_str())),
            field("content", content),
            field("end", string(TOOL_CALL_FINISH)),
        ],
    );
    proof {
        assert(r@->Object_0 =~= tool_tag(name@)->Object_0);
    }
    r
}

/// Builds a structural tag with two alternatives: the schema of the response,
/// and calls of the tools. No branch admits free text, so the schema stays a
/// hard guarantee.
pub fn build_gemma4_structural_tag(
    response_schema: &Json,
    tools: &Vec<ChatCompletionTool>,
) -> (r: Json)
    ensures
        r@ == structural_tag(response_schema@, tool_names(tools@)),
{
    let mut tags: Vec<Json> = Vec::new();
    let n: usize = tools.len();
    let mut i: usize = 0;
    while i < n
        invariant
            n == tools@.len(),
            i <= n,
            tags@.len() == i,
            forall|j: int| 0 <= j < i ==> (#[trigger] tags@[j])@ == tool_tag(tool_names(tools@)[j]),
        decreases n - i,
    {
        tags.push(build_tool_tag(tools[i].function.name.as_str()));
        i += 1;
    }
    let ghost names = tool_names(tools@);
    let tags: Json = array(tags);
    proof {
        assert(tags@->Array_0 =~= Seq::new(names.len(), |i: int| tool_tag(names[i])));
    }
    let by_schema: Json = object(
        vec![field("type", string("json_schema")), field("json_schema", response_schema.clone())],
    );
    proof {
        assert(by_schema@->Object_0 =~= schema_branch(response_schema@)->Object_0);
    }
    let by_tools: Json = object(
        vec![
            field("type", string("tags_with_separator")),
            field("separator", string("")),
            field("at_least_one", Json::Bool(true)),
            field("tags", tags),
        ],
    );
    proof {
        assert(by_tools@->Object_0 =~= tools_branch(names)->Object_0);
    }
    let elements: Json = array(vec![by_schema, by_tools]);
    proof {
        assert(elements@->Array_0 =~= seq![schema_branch(response_schema@), tools_branch(names)]);
    }
    let format: Json = object(vec![field("type", string("or")), field("elements", elements)]);
    proof {
        assert(format@->Object_0 =~= seq![
            ("type"@, JsonView::Str("or"@)),
            (
                "elements"@,
                JsonView::Array(seq![schema_branch(response_schema@), tools_branch(names)]),
            ),
        ]);
    }
    let r: Json = object(vec![field("type", string("structural_tag")), field("format", format)]);
    proof {
        assert(r@->Object_0 =~= structural_tag(response_schema@, names)->Object_0);
    }
    r
}

/// The texts of `v`.
pub open spec fn texts(v: Seq<String>) -> Seq<Seq<char>> {
    Seq::new(v.len(), |i: int| v[i]@)
}

/// The texts of `v`, if it is there.
pub open spec fn opt_texts(v: Option<Vec<String>>) -> Option<Seq<Seq<char>>> {
    match v {
        Some(s) => Some(texts(s@)),
        None => None,
    }
}

/// A copy of a vector of strings.
fn copy_strings(v: &Vec<String>) -> (r: Vec<String>)
    ensures
        texts(r@) == texts(v@),
{
    let mut r: Vec<String> = Vec::new();
    let n: usize = v.len();
    let mut i: usize = 0;
    while i < n
        invariant
            n == v@.len(),
            i <= n,
            r@.len() == i,
            forall|j: int| 0 <= j < i ==> (#[trigger] r@[j])@ == v@[j]@,
        decreases n - i,
    {
        r.push(v[i].clone());
        i += 1;
    }
    assert(texts(r@) =~= texts(v@));
    r
}

/// A copy of an optional string.
fn copy_string(s: &Option<String>) -> (r: Option<String>)
    ensures
        text::opt_view(r) == text::opt_view(*s),
{
    match s {
        Some(t) => Some(t.clone()),
        None => None,
    }
}

/// A copy of an optional JSON value.
fn copy_json(j: &Option<Json>) -> (r: Option<Json>)
    ensures
        opt_json(r) == opt_json(*j),
{
    match j {
        Some(v) => Some(v.clone()),
        None => None,
    }
}

impl Stop {
    /// The stop texts, if it is made of texts.
    pub fn strings(&self) -> (r: Option<Vec<String>>)
        ensures
            opt_texts(r) == (match *self {
                Stop::One(s) => Some(seq![s@]),
                Stop::Many(v) => Some(texts(v@)),
                Stop::TokenIds(_) => None,
            }),
    {
        match self {
            Stop::One(s) => {
                let r: Vec<String> = vec![s.clone()];
                assert(texts(r@) =~= seq![s@]);
                Some(r)
            },
            Stop::Many(v) => Some(copy_strings(v)),
            Stop::TokenIds(_) => None,
        }
    }

    /// The stop tokens, if it is made of tokens.
    pub fn token_ids(&self) -> (r: Option<Vec<u32>>)
        ensures
            match *self {
                Stop::TokenIds(v) => r matches Some(ids) && ids@ == v@,
                _ => r is None,
            },
    {
        match self {
            Stop::TokenIds(v) => {
                let mut ids: Vec<u32> = Vec::new();
                let n: usize = v.len();
                let mut i: usize = 0;
                while i < n
                    invariant
                        n == v@.len(),
                        i <= n,
                        ids@ == v@.take(i as int),
                    decreases n - i,
                {
                    ids.push(v[i]);
                    i += 1;
                }
                assert(v@.take(n as int) =~= v@);
                Some(ids)
            },
            _ => None,
        }
    }
}

/// The schema that a response format asks for, if any.
fn schema_of_format(format: &Option<ResponseFormat>) -> (r: Option<Json>)
    ensures
        opt_json(r) == format_schema(*format),
{
    match format {
        Some(ResponseFormat::JsonObject) => {
            let r: Json = object(vec![field("type", string("object"))]);
            assert(r@->Object_0 =~= any_object()->Object_0);
            Some(r)
        },
        Some(ResponseFormat::JsonSchema { json_schema }) => copy_json(&json_schema.schema),
        _ => None,
    }
}

impl NvCreateChatCompletionRequest {
    /// The request offers at least one tool.
    pub open spec fn offers_tools(&self) -> bool {
        self.inner.tools matches Some(tools) && tools@.len() > 0
    }

    /// It is up to the model whether a tool is called.
    pub open spec fn tool_is_optional(&self) -> bool {
        match self.inner.tool_choice {
            None => true,
            Some(ChatCompletionToolChoiceOption::Auto) => true,
            _ => false,
        }
    }

    /// The schema for a structural tag. There is one where the request offers
    /// tools, leaves it to the model to call them, and asks for JSON.
    pub open spec fn tag_schema(&self) -> Option<JsonView> {
        if self.offers_tools() && self.tool_is_optional() {
            format_schema(self.inner.response_format)
        } else {
            None
        }
    }

    /// The structural tag of the request, which an explicit schema rules out.
    pub open spec fn tag(&self) -> Option<JsonView> {
        match (self.tag_schema(), self.inner.tools) {
            (Some(schema), Some(tools)) => if self.common.guided_json is Some {
                None
            } else {
                Some(structural_tag(schema, tool_names(tools@)))
            },
            _ => None,
        }
    }

    /// The request offers tools and makes a choice among them, other than none.
    pub open spec fn may_derive_schema(&self) -> bool {
        self.inner.tools is Some && match self.inner.tool_choice {
            None => false,
            Some(ChatCompletionToolChoiceOption::Never) => false,
            Some(_) => true,
        }
    }

    /// The schema that decoding must follow, given the one that was derived from
    /// the choice of tools.
    pub open spec fn guided(&self, tool_schema: Option<JsonView>) -> Option<JsonView> {
        if self.common.guided_json is Some {
            opt_json(self.common.guided_json)
        } else if self.tag_schema() is Some {
            None
        } else if self.may_derive_schema() && tool_schema is Some {
            tool_schema
        } else {
            format_schema(self.inner.response_format)
        }
    }

    /// The schema for a structural tag, if the request calls for one.
    pub fn structural_tag_response_schema(&self) -> (r: Option<Json>)
        ensures
            opt_json(r) == self.tag_schema(),
    {
        let has_tools: bool = match &self.inner.tools {
            Some(tools) => tools.len() > 0,
            None => false,
        };
        if !has_tools {
            return None;
        }
        match &self.inner.tool_choice {
            None | Some(ChatCompletionToolChoiceOption::Auto) => schema_of_format(
                &self.inner.response_format,
            ),
            _ => None,
        }
    }

    /// The schema that decoding must follow, given the one that was derived from
    /// the choice of tools, if any. An explicit schema comes first. A request with
    /// a structural tag has none besides. Then come the derived schema, unless no
    /// tool is to be called, and that of the response format.
    pub fn get_guided_json(&self, tool_schema: Option<&Json>) -> (r: Option<Json>)
        ensures
            opt_json(r) == self.guided(
                match tool_schema {
                    Some(s) => Some(s@),
                    None => None,
                },
            ),
    {
        if let Some(value) = &self.common.guided_json {
            return Some(value.clone());
        }
        if self.structural_tag_response_schema().is_some() {
            return None;
        }
        let may_derive: bool = self.inner.tools.is_some() && match &self.inner.tool_choice {
            None | Some(ChatCompletionToolChoiceOption::Never) => false,
            Some(_) => true,
        };
        if may_derive {
            if let Some(schema) = tool_schema {
                return Some(schema.clone());
            }
        }
        schema_of_format(&self.inner.response_format)
    }

    /// The structural tag that lets decoding either call a tool or follow the
    /// schema of the response. An explicit schema rules it out.
    pub fn get_structural_tag(&self) -> (r: Option<Json>)
        ensures
            opt_json(r) == self.tag(),
    {
        if self.common.guided_json.is_some() {
            return None;
        }
        match (self.structural_tag_response_schema(), &self.inner.tools) {
            (Some(schema), Some(tools)) => Some(build_gemma4_structural_tag(&schema, tools)),
            _ => None,
        }
    }

    /// The vendor extensions, if there are any.
    pub fn nvext(&self) -> (r: Option<&NvExt>)
        ensures
            match self.nvext {
                Some(ext) => r == Some(&ext),
                None => r is None,
            },
    {
        self.nvext.as_ref()
    }

    /// No raw prompt is ever extracted.
    pub fn raw_prompt(&self) -> (r: Option<String>)
        ensures
            r is None,
    {
        None
    }

    /// The annotations that the request asks for.
    pub open spec fn asked_annotations(&self) -> Option<Seq<Seq<char>>> {
        match self.nvext {
            Some(ext) => opt_texts(ext.annotations),
            None => None,
        }
    }

    /// The annotations that the request asks for.
    pub fn annotations(&self) -> (r: Option<Vec<String>>)
        ensures
            opt_texts(r) == self.asked_annotations(),
    {
        match &self.nvext {
            Some(ext) => match &ext.annotations {
                Some(v) => Some(copy_strings(v)),
                None => None,
            },
            None => None,
        }
    }

    /// Whether the request asks for `annotation`.
    pub fn has_annotation(&self, annotation: &str) -> (r: bool)
        ensures
            r == (self.asked_annotations() matches Some(v) && v.contains(annotation@)),
    {
        let v: &Vec<String> = match &self.nvext {
            Some(ext) => match &ext.annotations {
                Some(v) => v,
                None => {
                    return false;
                },
            },
            None => {
                return false;
            },
        };
        let n: usize = v.len();
        let mut i: usize = 0;
        while i < n
            invariant
                n == v@.len(),
                i <= n,
                self.asked_annotations() == Some(texts(v@)),
                forall|j: int| 0 <= j < i ==> texts(v@)[j] != annotation@,
            decreases n - i,
        {
            if text::same(v[i].as_str(), annotation) {
                assert(texts(v@)[i as int] == annotation@);
                return true;
            }
            i += 1;
        }
        false
    }

    /// The seed of the random numbers, if set.
    pub fn get_seed(&self) -> (r: Option<i64>)
        ensures
            r == self.inner.seed,
    {
        self.inner.seed
    }

    /// The number of completions, if set.
    pub fn get_n(&self) -> (r: Option<u8>)
        ensures
            r == self.inner.n,
    {
        self.inner.n
    }

    /// Not supported in chat completions.
    pub fn get_best_of(&self) -> (r: Option<u8>)
        ensures
            r is None,
    {
        None
    }

    /// The fields that several kinds of requests have in common.
    pub fn common_ext(&self) -> (r: Option<&CommonExt>)
        ensures
            r == Some(&self.common),
    {
        Some(&self.common)
    }

    /// The regular expression that decoding must follow, if set.
    pub fn get_guided_regex(&self) -> (r: Option<String>)
        ensures
            text::opt_view(r) == text::opt_view(self.common.guided_regex),
    {
        copy_string(&self.common.guided_regex)
    }

    /// The grammar that decoding must follow, if set.
    pub fn get_guided_grammar(&self) -> (r: Option<String>)
        ensures
            text::opt_view(r) == text::opt_view(self.common.guided_grammar),
    {
        copy_string(&self.common.guided_grammar)
    }

    /// The texts among which decoding must choose, if set.
    pub fn get_guided_choice(&self) -> (r: Option<Vec<String>>)
        ensures
            opt_texts(r) == opt_texts(self.common.guided_choice),
    {
        match &self.common.guided_choice {
            Some(v) => Some(copy_strings(v)),
            None => None,
        }
    }

    /// The backend of constrained decoding, if set.
    pub fn get_guided_decoding_backend(&self) -> (r: Option<String>)
        ensures
            text::opt_view(r) == text::opt_view(self.common.guided_decoding_backend),
    {
        copy_string(&self.common.guided_decoding_backend)
    }

    /// The white space that constrained decoding admits, if set.
    pub fn get_guided_whitespace_pattern(&self) -> (r: Option<String>)
        ensures
            text::opt_view(r) == text::opt_view(self.common.guided_whitespace_pattern),
    {
        copy_string(&self.common.guided_whitespace_pattern)
    }

    /// The number of tokens to sample from, if set.
    pub fn get_top_k(&self) -> (r: Option<i32>)
        ensures
            r == self.common.top_k,
    {
        self.common.top_k
    }

    /// Whether a stop text is part of the output, if set.
    pub fn get_include_stop_str_in_output(&self) -> (r: Option<bool>)
        ensures
            r == self.common.include_stop_str_in_output,
    {
        self.common.include_stop_str_in_output
    }

    /// Whether special tokens are left out of the output, if set.
    pub fn get_skip_special_tokens(&self) -> (r: Option<bool>)
        ensures
            r == self.common.skip_special_tokens,
    {
        self.common.skip_special_tokens
    }

    /// The most tokens that the response may have. The newer field wins.
    pub fn get_max_tokens(&self) -> (r: Option<u32>)
        ensures
            r == (if self.inner.max_completion_tokens is Some {
                self.inner.max_completion_tokens
            } else {
                self.inner.max_tokens
            }),
    {
        match self.inner.max_completion_tokens {
            Some(n) => Some(n),
            None => self.inner.max_tokens,
        }
    }

    /// The fewest tokens that the response must have, if set.
    pub fn get_min_tokens(&self) -> (r: Option<u32>)
        ensures
            r == self.common.min_tokens,
    {
        self.common.min_tokens
    }

    /// The texts at which generation stops, if it stops at texts.
    pub fn get_stop(&self) -> (r: Option<Vec<String>>)
        ensures
            opt_texts(r) == (match self.inner.stop {
                Some(Stop::One(s)) => Some(seq![s@]),
                Some(Stop::Many(v)) => Some(texts(v@)),
                _ => None,
            }),
    {
        match &self.inner.stop {
            Some(stop) => stop.strings(),
            None => None,
        }
    }

    /// The tokens at which generation stops, if it stops at tokens.
    pub fn get_stop_token_ids(&self) -> (r: Option<Vec<u32>>)
        ensures
            match self.inner.stop {
                Some(Stop::TokenIds(v)) => r matches Some(ids) && ids@ == v@,
                _ => r is None,
            },
    {
        match &self.inner.stop {
            Some(stop) => stop.token_ids(),
            None => None,
        }
    }

    /// Whether the end-of-sequence token is ignored, as the common field says.
    pub fn get_common_ignore_eos(&self) -> (r: Option<bool>)
        ensures
            r == self.common.ignore_eos,
    {
        self.common.ignore_eos
    }

    /// Whether the end-of-sequence token is ignored.
    pub fn get_ignore_eos(&self) -> (r: Option<bool>)
        ensures
            r == self.common.ignore_eos,
    {
        self.common.ignore_eos
    }

    /// How many log probabilities each token comes with: none unless they are
    /// asked for, and one where no number is given.
    pub fn get_logprobs(&self) -> (r: Option<u32>)
        ensures
            r == (if self.inner.logprobs == Some(true) {
                match self.inner.top_logprobs {
                    Some(n) => Some(n as u32),
                    None => Some(1u32),
                }
            } else {
                None
            }),
    {
        match self.inner.logprobs {
            Some(true) => match self.inner.top_logprobs {
                Some(n) => Some(n as u32),
                None => Some(1u32),
            },
            _ => None,
        }
    }

    /// Log probabilities of the prompt are not supported.
    pub fn get_prompt_logprobs(&self) -> (r: Option<u32>)
        ensures
            r is None,
    {
        None
    }

    /// The formatted prompt is not returned.
    pub fn get_formatted_prompt(&self) -> (r: Option<bool>)
        ensures
            r is None,
    {
        None
    }

    /// Whether token fields hold identifiers in place of text, if set.
    pub fn get_return_tokens_as_token_ids(&self) -> (r: Option<bool>)
        ensures
            r == self.return_tokens_as_token_ids,
    {
        self.return_tokens_as_token_ids
    }
}

/// A check of one part of a request.
#[derive(Debug, Clone, Copy, PartialEq, Eq, Structural)]
pub enum RequestCheck {
    Messages,
    Model,
    ReasoningEffort,
    FrequencyPenalty,
    LogitBias,
    TopLogprobs,
    MaxCompletionTokens,
    N,
    PresencePenalty,
    ResponseFormat,
    ServiceTier,
    Stop,
    Temperature,
    TopP,
    Tools,
    User,
    RepetitionPenalty,
    MinP,
    TopK,
    NWithTemperature,
}

/// Why a request is not valid.
#[derive(Debug, PartialEq, Eq)]
pub enum ValidationError {
    /// It has fields that are not supported.
    UnsupportedFields,
    /// A check failed, with this message.
    Failed { check: RequestCheck, message: String },
}

/// The checks of a request, in the order in which their failures count.
pub open spec fn request_checks() -> Seq<RequestCheck> {
    seq![
        RequestCheck::Messages,
        RequestCheck::Model,
        RequestCheck::ReasoningEffort,
        RequestCheck::FrequencyPenalty,
        RequestCheck::LogitBias,
        RequestCheck::TopLogprobs,
        RequestCheck::MaxCompletionTokens,
        RequestCheck::N,
        RequestCheck::PresencePenalty,
        RequestCheck::ResponseFormat,
        RequestCheck::ServiceTier,
        RequestCheck::Stop,
        RequestCheck::Temperature,
        RequestCheck::TopP,
        RequestCheck::Tools,
        RequestCheck::User,
        RequestCheck::RepetitionPenalty,
        RequestCheck::MinP,
        RequestCheck::TopK,
        RequestCheck::NWithTemperature,
    ]
}

/// `i` is the first of the outcomes that is a failure.
pub open spec fn is_first_failure(outcomes: Seq<Result<(), String>>, i: int) -> bool {
    &&& 0 <= i < outcomes.len()
    &&& outcomes[i] is Err
    &&& forall|j: int| 0 <= j < i ==> outcomes[j] is Ok
}

/// The checks of a request, in the order in which their failures count.
pub fn checks() -> (r: Vec<RequestCheck>)
    ensures
        r@ == request_checks(),
{
    let r: Vec<RequestCheck> = vec![
        RequestCheck::Messages,
        RequestCheck::Model,
        RequestCheck::ReasoningEffort,
        RequestCheck::FrequencyPenalty,
        RequestCheck::LogitBias,
        RequestCheck::TopLogprobs,
        RequestCheck::MaxCompletionTokens,
        RequestCheck::N,
        RequestCheck::PresencePenalty,
        RequestCheck::ResponseFormat,
        RequestCheck::ServiceTier,
        RequestCheck::Stop,
        RequestCheck::Temperature,
        RequestCheck::TopP,
        RequestCheck::Tools,
        RequestCheck::User,
        RequestCheck::RepetitionPenalty,
        RequestCheck::MinP,
        RequestCheck::TopK,
        RequestCheck::NWithTemperature,
    ];
    assert(r@ =~= request_checks());
    r
}

impl NvCreateChatCompletionRequest {
    /// Whether the request is valid, given the outcomes of its checks. Fields that
    /// are not supported come before every check, and the first failure decides.
    pub fn validate(&self, outcomes: &Vec<Result<(), String>>) -> (r: Result<(), ValidationError>)
        requires
            outcomes@.len() == request_checks().len(),
        ensures
            r matches Err(ValidationError::UnsupportedFields) <==> self.unsupported_fields@.len()
                > 0,
            r is Ok <==> self.unsupported_fields@.len() == 0 && forall|i: int|
                0 <= i < outcomes@.len() ==> outcomes@[i] is Ok,
            r matches Err(ValidationError::Failed { check, message }) ==> exists|i: int|
                #[trigger] is_first_failure(outcomes@, i) && check == request_checks()[i]
                    && message@ == (outcomes@[i]->Err_0)@,
    {
        if self.unsupported_fields.len() > 0 {
            return Err(ValidationError::UnsupportedFields);
        }
        let order: Vec<RequestCheck> = checks();
        let n: usize = outcomes.len();
        let mut i: usize = 0;
        while i < n
            invariant
                self.unsupported_fields@.len() == 0,
                n == outcomes@.len(),
                order@ == request_checks(),
                n == order@.len(),
                i <= n,
                forall|j: int| 0 <= j < i ==> outcomes@[j] is Ok,
            decreases n - i,
        {
            if let Err(message) = &outcomes[i] {
                assert(is_first_failure(outcomes@, i as int));
                return Err(ValidationError::Failed { check: order[i], message: message.clone() });
            }
            i += 1;
        }
        Ok(())
    }
}

/// Decoding gets a structural tag or a schema, never both.
pub proof fn law_tag_excludes_schema(
    r: NvCreateChatCompletionRequest,
    tool_schema: Option<JsonView>,
)
    ensures
        r.tag() is None || r.guided(tool_schema) is None,
{
}

/// A request that leaves the choice of a tool to the model and asks for JSON, but
/// gives no schema of its own, gets a tag with two branches and no third: the
/// schema, and one or more tool calls.
pub proof fn law_optional_tools_get_a_tag(
    r: NvCreateChatCompletionRequest,
    tools: Vec<ChatCompletionTool>,
    schema: JsonView,
)
    requires
        r.inner.tools == Some(tools),
        tools@.len() > 0,
        r.tool_is_optional(),
        r.common.guided_json is None,
        format_schema(r.inner.response_format) == Some(schema),
    ensures
        r.tag() == Some(structural_tag(schema, tool_names(tools@))),
{
}

/// A request that forbids tool calls gets no tag, so no tool branch is compiled;
/// the schema of its response format is enforced alone.
pub proof fn law_never_compiles_no_tool_branch(
    r: NvCreateChatCompletionRequest,
    tool_schema: Option<JsonView>,
)
    requires
        r.inner.tool_choice == Some(ChatCompletionToolChoiceOption::Never),
    ensures
        r.tag() is None,
        r.common.guided_json is None ==> r.guided(tool_schema) == format_schema(
            r.inner.response_format,
        ),
{
}

/// A request that forces a tool call gets no tag, and the schema that was derived
/// from its tools where there is one.
pub proof fn law_forced_tool_gets_no_tag(
    r: NvCreateChatCompletionRequest,
    tool_schema: JsonView,
)
    requires
        r.inner.tool_choice matches Some(choice) && (choice
            == ChatCompletionToolChoiceOption::Required || choice is Named),
    ensures
        r.tag() is None,
        r.inner.tools is Some && r.common.guided_json is None ==> r.guided(Some(tool_schema))
            == Some(tool_schema),
{
}

/// A request without tools and without a schema of its own must follow the schema
/// of its response format, whatever its choice of tools: that of any object where
/// it asks for JSON, the given one where it gives one, and none otherwise.
pub proof fn law_response_format_is_followed(
    r: NvCreateChatCompletionRequest,
    tool_schema: Option<JsonView>,
)
    requires
        r.common.guided_json is None,
        r.inner.tools is None,
    ensures
        r.inner.response_format matches Some(ResponseFormat::JsonObject) ==> r.guided(tool_schema)
            == Some(JsonView::Object(seq![("type"@, JsonView::Str("object"@))])),
        r.inner.response_format matches Some(ResponseFormat::JsonSchema { json_schema }) ==> (
        json_schema.schema matches Some(schema) ==> r.guided(tool_schema) == Some(schema@)),
        r.inner.response_format matches Some(ResponseFormat::JsonSchema { json_schema }) ==> (
        json_schema.schema is None ==> r.guided(tool_schema) is None),
        r.inner.response_format matches Some(ResponseFormat::Text) ==> r.guided(tool_schema)
            is None,
        r.inner.response_format is None ==> r.guided(tool_schema) is None,
        r.tag() is None,
{
}

/// The schema that a request gives itself is followed, whatever else it holds, and
/// rules out a tag.
pub proof fn law_explicit_schema_is_followed(
    r: NvCreateChatCompletionRequest,
    schema: Json,
    tool_schema: Option<JsonView>,
)
    requires
        r.common.guided_json == Some(schema),
    ensures
        r.guided(tool_schema) == Some(schema@),
        r.tag() is None,
{
}

/// A request that asks for text, or for no format, or for a schema that it does not
/// give, gets no tag. It must follow the schema that was derived from its choice of
/// tools, if it offers tools and chooses some, and none otherwise.
pub proof fn law_free_format(r: NvCreateChatCompletionRequest, tool_schema: Option<JsonView>)
    requires
        r.common.guided_json is None,
        match r.inner.response_format {
            None => true,
            Some(ResponseFormat::Text) => true,
            Some(ResponseFormat::JsonObject) => false,
            Some(ResponseFormat::JsonSchema { json_schema }) => json_schema.schema is None,
        },
    ensures
        r.tag() is None,
        r.inner.tools is Some && (r.inner.tool_choice matches Some(choice) && !(choice is Never))
            ==> r.guided(tool_schema) == tool_schema,
        r.inner.tools is None || r.inner.tool_choice is None || (r.inner.tool_choice matches Some(
            choice,
        ) && choice is Never) ==> r.guided(tool_schema) is None,
{
}

/// A list of tools that is empty offers none: there is no tag, and the format is
/// followed where no schema was derived.
pub proof fn law_no_tool_offered(
    r: NvCreateChatCompletionRequest,
    tools: Vec<ChatCompletionTool>,
    schema: Json,
)
    requires
        r.inner.tools == Some(tools),
        tools@.len() == 0,
        r.common.guided_json is None,
    ensures
        r.tag() is None,
        r.inner.response_format matches Some(ResponseFormat::JsonObject) ==> r.guided(None)
            == Some(JsonView::Object(seq![("type"@, JsonView::Str("object"@))])),
        r.inner.response_format matches Some(ResponseFormat::JsonSchema { json_schema }) ==> (
        json_schema.schema == Some(schema) ==> r.guided(None) == Some(schema@)),
{
}

/// A forced tool call for which no schema was derived leaves the format to follow.
pub proof fn law_forced_tool_without_schema(r: NvCreateChatCompletionRequest)
    requires
        r.common.guided_json is None,
        r.inner.tool_choice matches Some(choice) && (choice is Required || choice is Named),
    ensures
        r.inner.response_format matches Some(ResponseFormat::JsonObject) ==> r.guided(None)
            == Some(JsonView::Object(seq![("type"@, JsonView::Str("object"@))])),
        r.inner.response_format matches Some(ResponseFormat::JsonSchema { json_schema }) ==> (
        json_schema.schema matches Some(schema) ==> r.guided(None) == Some(schema@)),
{
}

/// The tag follows the schema of the response format: that of any object where the
/// request asks for JSON, and the given one where it gives one.
pub proof fn law_tag_follows_format(
    r: NvCreateChatCompletionRequest,
    tools: Vec<ChatCompletionTool>,
)
    requires
        r.inner.tools == Some(tools),
        tools@.len() > 0,
        r.inner.tool_choice is None || (r.inner.tool_choice matches Some(choice) && choice is Auto),
        r.common.guided_json is None,
    ensures
        r.inner.response_format matches Some(ResponseFormat::JsonObject) ==> r.tag() == Some(
            structural_tag(
                JsonView::Object(seq![("type"@, JsonView::Str("object"@))]),
                tool_names(tools@),
            ),
        ),
        r.inner.response_format matches Some(ResponseFormat::JsonSchema { json_schema }) ==> (
        json_schema.schema matches Some(schema) ==> r.tag() == Some(
            structural_tag(schema@, tool_names(tools@)),
        )),
        r.tag() is Some ==> r.guided(None) is None,
{
}

/// The value of the first field of a JSON object with this name.
pub open spec fn value_of(j: JsonView, name: Seq<char>) -> Option<JsonView> {
    match j {
        JsonView::Object(fields) => first_value(fields, name),
        _ => None,
    }
}

/// The value of the first of `fields` with this name.
pub open spec fn first_value(fields: Seq<(Seq<char>, JsonView)>, name: Seq<char>) -> Option<
    JsonView,
>
    decreases fields.len(),
{
    if fields.len() == 0 {
        None
    } else if fields[0].0 == name {
        Some(fields[0].1)
    } else {
        first_value(fields.skip(1), name)
    }
}

/// A structural tag admits one of exactly two elements. The first follows the
/// schema. The second is one or more calls with nothing between them, each to one
/// of the tools: it opens with the name of the tool, goes on by the grammar of the
/// arguments, and closes.
pub proof fn law_tag_shape(schema: JsonView, names: Seq<Seq<char>>)
    ensures
        ({
            let tag = structural_tag(schema, names);
            let format = value_of(tag, "format"@)->0;
            let elements = value_of(format, "elements"@)->0->Array_0;
            let calls = elements[1];
            let tags = value_of(calls, "tags"@)->0->Array_0;
            &&& value_of(tag, "type"@) == Some(JsonView::Str("structural_tag"@))
            &&& value_of(format, "type"@) == Some(JsonView::Str("or"@))
            &&& value_of(format, "elements"@) == Some(JsonView::Array(elements))
            &&& elements.len() == 2
            &&& value_of(elements[0], "type"@) == Some(JsonView::Str("json_schema"@))
            &&& value_of(elements[0], "json_schema"@) == Some(schema)
            &&& value_of(calls, "type"@) == Some(JsonView::Str("tags_with_separator"@))
            &&& value_of(calls, "separator"@) == Some(JsonView::Str(""@))
            &&& value_of(calls, "at_least_one"@) == Some(JsonView::Bool(true))
            &&& value_of(calls, "tags"@) == Some(JsonView::Array(tags))
            &&& tags.len() == names.len()
            &&& forall|i: int|
                #![trigger tags[i]]
                0 <= i < names.len() ==> {
                    let content = value_of(tags[i], "content"@)->0;
                    &&& value_of(tags[i], "type"@) == Some(JsonView::Str("tag"@))
                    &&& value_of(tags[i], "begin"@) == Some(
                        JsonView::Str("<|tool_call>call:"@ + names[i] + "{"@),
                    )
                    &&& value_of(tags[i], "end"@) == Some(JsonView::Str("}<tool_call|>"@))
                    &&& value_of(content, "type"@) == Some(JsonView::Str("grammar"@))
                    &&& value_of(content, "grammar"@) == Some(JsonView::Str(GEMMA4_ARGS_GRAMMAR@))
                }
        }),
{
    lemma_field_names();
    reveal_with_fuel(first_value, 5);
    assert forall|i: int| 0 <= i < names.len() implies {
        let t = #[trigger] tool_tag(names[i]);
        let content = value_of(t, "content"@)->0;
        &&& value_of(t, "type"@) == Some(JsonView::Str("tag"@))
        &&& value_of(t, "begin"@) == Some(
            JsonView::Str("<|tool_call>call:"@ + names[i] + "{"@),
        )
        &&& value_of(t, "end"@) == Some(JsonView::Str("}<tool_call|>"@))
        &&& value_of(content, "type"@) == Some(JsonView::Str("grammar"@))
        &&& value_of(content, "grammar"@) == Some(JsonView::Str(GEMMA4_ARGS_GRAMMAR@))
    } by {
        lemma_tool_tag(names[i]);
    }
}

/// The fields of the tag of a tool.
proof fn lemma_tool_tag(name: Seq<char>)
    ensures
        ({
            let t = tool_tag(name);
            let content = value_of(t, "content"@)->0;
            &&& value_of(t, "type"@) == Some(JsonView::Str("tag"@))
            &&& value_of(t, "begin"@) == Some(JsonView::Str("<|tool_call>call:"@ + name + "{"@))
            &&& value_of(t, "end"@) == Some(JsonView::Str("}<tool_call|>"@))
            &&& value_of(content, "type"@) == Some(JsonView::Str("grammar"@))
            &&& value_of(content, "grammar"@) == Some(JsonView::Str(GEMMA4_ARGS_GRAMMAR@))
        }),
{
    lemma_field_names();
    reveal_with_fuel(first_value, 5);
}

/// The names of the fields of a tag differ.
proof fn lemma_field_names()
    ensures
        "type"@ != "format"@,
        "type"@ != "elements"@,
        "type"@ != "json_schema"@,
        "type"@ != "separator"@,
        "type"@ != "at_least_one"@,
        "type"@ != "tags"@,
        "separator"@ != "at_least_one"@,
        "separator"@ != "tags"@,
        "at_least_one"@ != "tags"@,
        "type"@ != "begin"@,
        "type"@ != "content"@,
        "type"@ != "end"@,
        "begin"@ != "content"@,
        "begin"@ != "end"@,
        "content"@ != "end"@,
        "type"@ != "grammar"@,
{
    reveal_strlit("type");
    reveal_strlit("format");
    reveal_strlit("elements");
    reveal_strlit("json_schema");
    reveal_strlit("separator");
    reveal_strlit("at_least_one");
    reveal_strlit("tags");
    reveal_strlit("begin");
    reveal_strlit("content");
    reveal_strlit("end");
    reveal_strlit("grammar");
    assert("type"@[1] != "tags"@[1]);
    assert("separator"@[0] != "at_least_one"@[0]);
    assert("separator"@[0] != "tags"@[0]);
    assert("at_least_one"@[0] != "tags"@[0]);
    assert("begin"@[0] != "content"@[0]);
    assert("begin"@[0] != "end"@[0]);
    assert("content"@[0] != "end"@[0]);
}

/// A tag names every tool of the request, in order and as it is named.
pub proof fn law_every_tool_is_named(tools: Seq<ChatCompletionTool>, i: int)
    requires
        0 <= i < tools.len(),
    ensures
        tool_names(tools).len() == tools.len(),
        tool_names(tools)[i] == tools[i].function.name@,
{
}

/// A request asks for the annotations of its extensions, each as it is written, and
/// for none without extensions.
pub proof fn law_annotations(r: NvCreateChatCompletionRequest)
    ensures
        r.nvext is None ==> r.asked_annotations() is None,
        r.nvext matches Some(ext) ==> (ext.annotations is None ==> r.asked_annotations() is None),
        r.nvext matches Some(ext) ==> (ext.annotations matches Some(v) ==> (r.asked_annotations()
            matches Some(asked) && asked.len() == v@.len() && forall|i: int|
            0 <= i < v@.len() ==> #[trigger] asked[i] == v@[i]@)),
{
}

/// The checks of a request come in this order, each once: its fields one by one,
/// then the common extensions, and last what concerns several fields.
pub proof fn law_order_of_checks()
    ensures
        request_checks().len() == 20,
        request_checks()[0] == RequestCheck::Messages,
        request_checks()[1] == RequestCheck::Model,
        request_checks()[2] == RequestCheck::ReasoningEffort,
        request_checks()[3] == RequestCheck::FrequencyPenalty,
        request_checks()[4] == RequestCheck::LogitBias,
        request_checks()[5] == RequestCheck::TopLogprobs,
        request_checks()[6] == RequestCheck::MaxCompletionTokens,
        request_checks()[7] == RequestCheck::N,
        request_checks()[8] == RequestCheck::PresencePenalty,
        request_checks()[9] == RequestCheck::ResponseFormat,
        request_checks()[10] == RequestCheck::ServiceTier,
        request_checks()[11] == RequestCheck::Stop,
        request_checks()[12] == RequestCheck::Temperature,
        request_checks()[13] == RequestCheck::TopP,
        request_checks()[14] == RequestCheck::Tools,
        request_checks()[15] == RequestCheck::User,
        request_checks()[16] == RequestCheck::RepetitionPenalty,
        request_checks()[17] == RequestCheck::MinP,
        request_checks()[18] == RequestCheck::TopK,
        request_checks()[19] == RequestCheck::NWithTemperature,
{
}

/// Texts are handed on one by one, in order and as they are.
pub proof fn law_texts(v: Seq<String>, i: int)
    requires
        0 <= i < v.len(),
    ensures
        texts(v).len() == v.len(),
        texts(v)[i] == v[i]@,
{
}

/// A choice among no tools at all leaves the schema that was derived, and no choice
/// leaves that of the format.
pub proof fn law_choice_among_no_tools(
    r: NvCreateChatCompletionRequest,
    tools: Vec<ChatCompletionTool>,
    schema: JsonView,
)
    requires
        r.inner.tools == Some(tools),
        tools@.len() == 0,
        r.common.guided_json is None,
    ensures
        r.inner.tool_choice matches Some(choice) ==> (!(choice is Never) ==> r.guided(Some(schema))
            == Some(schema)),
        r.inner.tool_choice is None ==> (r.inner.response_format matches Some(
            ResponseFormat::JsonObject,
        ) ==> r.guided(Some(schema)) == Some(
            JsonView::Object(seq![("type"@, JsonView::Str("object"@))]),
        )),
        r.inner.tool_choice is None ==> (r.inner.response_format matches Some(
            ResponseFormat::JsonSchema { json_schema },
        ) ==> (json_schema.schema matches Some(s) ==> r.guided(Some(schema)) == Some(s@))),
{
}

/// There is a schema for a tag exactly where a request offers a tool, leaves the
/// choice to the model, and asks for JSON: that of any object, or the given one.
pub proof fn law_schema_for_tag(r: NvCreateChatCompletionRequest)
    ensures
        r.inner.tools is None ==> r.tag_schema() is None,
        r.inner.tools matches Some(tools) ==> (tools@.len() == 0 ==> r.tag_schema() is None),
        r.inner.tool_choice matches Some(choice) ==> (!(choice is Auto) ==> r.tag_schema() is None),
        (r.inner.tools matches Some(tools) && tools@.len() > 0) && (r.inner.tool_choice is None || (
        r.inner.tool_choice matches Some(choice) && choice is Auto)) ==> {
            &&& (r.inner.response_format is None ==> r.tag_schema() is None)
            &&& (r.inner.response_format matches Some(ResponseFormat::Text) ==> r.tag_schema()
                is None)
            &&& (r.inner.response_format matches Some(ResponseFormat::JsonObject)
                ==> r.tag_schema() == Some(
                JsonView::Object(seq![("type"@, JsonView::Str("object"@))]),
            ))
            &&& (r.inner.response_format matches Some(ResponseFormat::JsonSchema { json_schema })
                ==> (json_schema.schema matches Some(s) ==> r.tag_schema() == Some(s@)) && (
            json_schema.schema is None ==> r.tag_schema() is None))
        },
{
}

/// The first failure is a failure with none before it, and there is one wherever
/// some check failed.
pub proof fn law_first_failure(outcomes: Seq<Result<(), String>>, i: int)
    ensures
        is_first_failure(outcomes, i) <==> 0 <= i < outcomes.len() && outcomes[i] is Err
            && outcomes.take(i).all(|r: Result<(), String>| r is Ok),
        0 <= i < outcomes.len() && outcomes[i] is Err ==> exists|j: int|
            j <= i && #[trigger] is_first_failure(outcomes, j),
    decreases i,
{
    let ok = |r: Result<(), String>| r is Ok;
    if 0 <= i < outcomes.len() {
        assert forall|j: int| 0 <= j < i implies outcomes.take(i)[j] == outcomes[j] by {}
        if outcomes.take(i).all(ok) {
            assert forall|j: int| 0 <= j < i implies outcomes[j] is Ok by {
                assert(ok(outcomes.take(i)[j]));
            }
        }
        if outcomes[i] is Err && !is_first_failure(outcomes, i) {
            let j = choose|j: int| 0 <= j < i && !(outcomes[j] is Ok);
            law_first_failure(outcomes, j);
        }
    }
}

} // verus!
