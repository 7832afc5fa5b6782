//! The control tokens of the Gemma 4 output format.

use vstd::prelude::*;

pub mod format;
pub mod format_laws;
pub mod laws;
pub mod reasoning;
pub mod stream_laws;

verus! {

/// Opens a channel, the span in which the model reasons.
pub const CHANNEL_START: &'static str = "<|channel>";

/// Closes a channel.
pub const CHANNEL_END: &'static str = "<channel|>";

/// The label that may follow the opening of a reasoning channel.
pub const THOUGHT_PREFIX: &'static str = "thought\n";

/// Opens a tool call.
pub const TOOL_CALL_START: &'static str = "<|tool_call>";

/// Closes a tool call.
pub const TOOL_CALL_END: &'static str = "<tool_call|>";

/// Delimits a string among the arguments of a tool call.
pub const STRING_DELIM: &'static str = "<|\"|>";

/// Starts the body of a tool call, before the name of the tool.
pub const CALL_PREFIX: &'static str = "call:";

/// The word whose echoes leak out of an empty reasoning channel.
pub const THOUGHT_WORD: &'static str = "thought";

/// An opening channel together with its label.
pub const LABELLED_START: &'static str = "<|channel>thought\n";

/// The same, with a carriage return before the line feed.
pub const LABELLED_START_CR: &'static str = "<|channel>thought\r\n";

/// An empty reasoning channel.
pub const EMPTY_THINKING: &'static str = "<|channel>thought\n<channel|>";

/// The same, with a carriage return before the line feed.
pub const EMPTY_THINKING_CR: &'static str = "<|channel>thought\r\n<channel|>";

/// An empty reasoning channel after an echo of its own label.
pub const LABELLED_EMPTY_THINKING: &'static str = "thought\n<|channel>thought\n<channel|>";

/// Opens the arguments of a tool call.
pub const ARGS_OPEN: &'static str = "{";

} // verus!
