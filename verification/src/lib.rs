//! Serving-side logic for Gemma 4 chat models: separating reasoning from
//! visible content, cleaning leaked control tokens, constraining decoding,
//! billing usage and relaying metrics.

pub mod chat_completions;
pub mod flexprice;
pub mod gemma4;
pub mod http_status;
pub mod json;
pub mod relay_metrics;
pub mod text;
