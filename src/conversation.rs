//! The conversation item types that turn payloads carry. The library moves
//! them as plain values; their MessagePack form is produced outside it.

use vstd::prelude::*;
use std::collections::HashMap;

verus! {

pub const TYPE_ID_CONVERSATION_ITEM: &'static str = "cxdb.ConversationItem";
pub const TYPE_VERSION_CONVERSATION_ITEM: u32 = 3;
pub const TYPE_ID_CONVERSATION_ITEM_LEGACY: &'static str = "cxdb.v3:ConversationItem";

pub const ITEM_TYPE_USER_INPUT: &'static str = "user_input";
pub const ITEM_TYPE_ASSISTANT_TURN: &'static str = "assistant_turn";
pub const ITEM_TYPE_SYSTEM: &'static str = "system";
pub const ITEM_TYPE_HANDOFF: &'static str = "handoff";
pub const ITEM_TYPE_ASSISTANT: &'static str = "assistant";
pub const ITEM_TYPE_TOOL_CALL: &'static str = "tool_call";
pub const ITEM_TYPE_TOOL_RESULT: &'static str = "tool_result";

pub const ITEM_STATUS_PENDING: &'static str = "pending";
pub const ITEM_STATUS_STREAMING: &'static str = "streaming";
pub const ITEM_STATUS_COMPLETE: &'static str = "complete";
pub const ITEM_STATUS_ERROR: &'static str = "error";
pub const ITEM_STATUS_CANCELLED: &'static str = "cancelled";

pub const TOOL_CALL_STATUS_PENDING: &'static str = "pending";
pub const TOOL_CALL_STATUS_EXECUTING: &'static str = "executing";
pub const TOOL_CALL_STATUS_COMPLETE: &'static str = "complete";
pub const TOOL_CALL_STATUS_ERROR: &'static str = "error";
pub const TOOL_CALL_STATUS_SKIPPED: &'static str = "skipped";

pub const SYSTEM_KIND_INFO: &'static str = "info";
pub const SYSTEM_KIND_WARNING: &'static str = "warning";
pub const SYSTEM_KIND_ERROR: &'static str = "error";
pub const SYSTEM_KIND_GUARDRAIL: &'static str = "guardrail";
pub const SYSTEM_KIND_RATE_LIMIT: &'static str = "rate_limit";
pub const SYSTEM_KIND_REWIND: &'static str = "rewind";

/// One item of a conversation; the variant named by `item_type` is set.
#[derive(Debug, Clone, PartialEq)]
pub struct ConversationItem {
    pub item_type: String,
    pub status: String,
    pub timestamp: i64,
    pub id: String,
    pub user_input: Option<UserInput>,
    pub turn: Option<AssistantTurn>,
    pub system: Option<SystemMessage>,
    pub handoff: Option<HandoffInfo>,
    pub assistant: Option<Assistant>,
    pub tool_call: Option<ToolCall>,
    pub tool_result: Option<ToolResult>,
    pub context_metadata: Option<ContextMetadata>,
}

#[derive(Debug, Clone, PartialEq)]
pub struct UserInput {
    pub text: String,
    pub files: Vec<String>,
}

#[derive(Debug, Clone, PartialEq)]
pub struct AssistantTurn {
    pub text: String,
    pub tool_calls: Vec<ToolCallItem>,
    pub reasoning: String,
    pub metrics: Option<TurnMetrics>,
    pub agent: String,
    pub turn_number: i64,
    pub max_turns: i64,
    pub finish_reason: String,
}

#[derive(Debug, Clone, PartialEq)]
pub struct ToolCallItem {
    pub id: String,
    pub name: String,
    pub args: String,
    pub status: String,
    pub description: String,
    pub streaming_output: String,
    pub streaming_output_truncated: bool,
    pub result: Option<ToolCallResult>,
    pub error: Option<ToolCallError>,
    pub duration_ms: i64,
}

#[derive(Debug, Clone, PartialEq)]
pub struct ToolCallResult {
    pub content: String,
    pub content_truncated: bool,
    pub success: bool,
    pub exit_code: Option<i64>,
}

#[derive(Debug, Clone, PartialEq)]
pub struct ToolCallError {
    pub code: String,
    pub message: String,
    pub exit_code: Option<i64>,
}

#[derive(Debug, Clone, PartialEq)]
pub struct TurnMetrics {
    pub input_tokens: i64,
    pub output_tokens: i64,
    pub total_tokens: i64,
    pub cached_tokens: Option<i64>,
    pub reasoning_tokens: Option<i64>,
    pub duration_ms: Option<i64>,
    pub model: String,
}

#[derive(Debug, Clone, PartialEq)]
pub struct SystemMessage {
    pub kind: String,
    pub title: String,
    pub content: String,
}

#[derive(Debug, Clone, PartialEq)]
pub struct HandoffInfo {
    pub from_agent: String,
    pub to_agent: String,
    pub tool_name: String,
    pub input: String,
    pub reason: String,
}

#[derive(Debug, Clone, PartialEq)]
pub struct Assistant {
    pub text: String,
    pub reasoning: String,
    pub model: String,
    pub input_tokens: i64,
    pub output_tokens: i64,
    pub stop_reason: String,
}

#[derive(Debug, Clone, PartialEq)]
pub struct ToolCall {
    pub call_id: String,
    pub name: String,
    pub args: String,
    pub description: String,
}

#[derive(Debug, Clone, PartialEq)]
pub struct ToolResult {
    pub call_id: String,
    pub content: String,
    pub is_error: bool,
    pub exit_code: Option<i64>,
    pub streaming_output: String,
    pub output_truncated: bool,
    pub duration_ms: i64,
}

#[derive(Debug, Clone, PartialEq)]
pub struct ContextMetadata {
    pub client_tag: String,
    pub title: String,
    pub labels: Vec<String>,
    pub custom: HashMap<String, String>,
    pub provenance: Option<crate::provenance::Provenance>,
}

/// Relies on `SystemTime::now` and `duration_since(UNIX_EPOCH)`: the wall
/// clock in milliseconds since the epoch, 0 when the clock reads earlier.
#[verifier::external_body]
pub(crate) fn wall_clock_ms() -> (r: i64) {
    match std::time::SystemTime::now().duration_since(std::time::UNIX_EPOCH) {
        Ok(d) => d.as_millis() as i64,
        Err(_) => 0,
    }
}

/// The current time in milliseconds since the Unix epoch.
#[allow(non_snake_case)]
pub fn Now() -> i64 {
    wall_clock_ms()
}

/// Whether an integer field is left out of the encoding: when it is 0.
pub fn is_zero_i64(value: &i64) -> (r: bool)
    ensures
        r == (*value == 0),
{
    *value == 0
}

/// Whether a flag is left out of the encoding: when it is false.
pub fn is_false(value: &bool) -> (r: bool)
    ensures
        r == !*value,
{
    !*value
}

/// Whether a map field is left out of the encoding: when it is empty.
pub fn map_is_empty(map: &HashMap<String, String>) -> (r: bool)
    ensures
        r == (map@.len() == 0),
{
    map.is_empty()
}

} // verus!
