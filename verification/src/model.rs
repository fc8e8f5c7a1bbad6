//! The plain values the engine's rules read: registry rows (chats, spaces,
//! devices, sessions), run requests, transcript entries and queued commands.

use vstd::prelude::*;

verus! {

/// The agent harness a chat runs on.
#[derive(Clone, Copy, Debug, PartialEq, Eq, Structural)]
pub enum HarnessId {
    Claude,
    Codex,
    Cursor,
    Grok,
    Hermes,
    Pi,
    OpenCode,
}

/// How much of the machine a harness run may touch.
#[derive(Clone, Copy, Debug, PartialEq, Eq, Structural)]
pub enum SandboxLevel {
    ReadOnly,
    WorkspaceWrite,
    FullAccess,
}

/// Reasoning effort requested from a model.
#[derive(Clone, Copy, Debug, PartialEq, Eq, Structural)]
pub enum ReasoningLevel {
    Minimal,
    Low,
    Medium,
    High,
}

/// Where the workspace data of a profile lives; always local here.
#[derive(Clone, Copy, Debug, PartialEq, Eq, Structural)]
pub enum WorkspaceScope {
    Local,
}

/// The run configuration remembered for a chat.
#[derive(Clone, Debug, PartialEq)]
pub struct ChatConfig {
    pub harness: HarnessId,
    pub model: Option<String>,
    pub reasoning: Option<ReasoningLevel>,
    /// Harness-specific model options, as key/value pairs.
    pub model_options: Vec<(String, String)>,
    pub sandbox: SandboxLevel,
}

/// A request to run one harness turn.
#[derive(Clone, Debug, PartialEq)]
pub struct RunRequest {
    pub prompt: String,
    pub harness: Option<HarnessId>,
    pub model: Option<String>,
    pub reasoning: Option<ReasoningLevel>,
    pub model_options: Vec<(String, String)>,
    pub cwd: String,
    pub sandbox: SandboxLevel,
    pub auto_approve: bool,
    /// Identifiers of the uploads attached to the turn.
    pub attachments: Vec<String>,
    /// Harness-native session to resume, if any.
    pub resume: Option<String>,
}

/// A chat row of the workspace registry. Times are Unix milliseconds.
#[derive(Clone, Debug, PartialEq)]
pub struct Chat {
    pub id: String,
    pub device_id: String,
    pub title: Option<String>,
    pub archived: bool,
    pub cwd: Option<String>,
    pub branch: Option<String>,
    pub checkout_id: Option<String>,
    pub config: Option<ChatConfig>,
    pub last_message_preview: Option<String>,
    pub last_message_at: Option<i64>,
    pub created_at: i64,
    pub harness_session_id: Option<String>,
    pub harness_session_cwd: Option<String>,
    pub space_id: Option<String>,
    pub last_seen_at: Option<i64>,
}

/// A project (a directory on a device) of the workspace registry.
#[derive(Clone, Debug, PartialEq)]
pub struct Space {
    pub id: String,
    pub device_id: String,
    pub path: String,
    pub name: Option<String>,
    pub git_detected: bool,
    pub git_checked_at: Option<i64>,
    pub checkout_id: Option<String>,
    pub created_at: i64,
}

/// A device row of the workspace registry.
#[derive(Clone, Debug, PartialEq)]
pub struct Device {
    pub id: String,
    pub name: String,
    pub platform: String,
    pub last_seen_at: Option<i64>,
    pub created_at: Option<i64>,
    pub version: Option<String>,
}

/// The live status row of a chat's session.
#[derive(Clone, Debug, PartialEq)]
pub struct Session {
    pub chat_id: String,
    pub device_id: String,
    pub running: bool,
}

/// A question a harness asked the user.
#[derive(Clone, Debug, PartialEq)]
pub struct UserInputQuestion {
    pub id: String,
    pub question: String,
}

/// The labels the user picked for one question.
#[derive(Clone, Debug, PartialEq)]
pub struct UserInputAnswer {
    pub question_id: String,
    pub labels: Vec<String>,
}

#[derive(Clone, Copy, Debug, PartialEq, Eq, Structural)]
pub enum MessageRole {
    User,
    Assistant,
}

#[derive(Clone, Copy, Debug, PartialEq, Eq, Structural)]
pub enum MessageStatus {
    Streaming,
    Complete,
    Aborted,
}

/// One part of a transcript message.
#[derive(Clone, Debug, PartialEq)]
pub enum MessagePart {
    Text { id: String, text: String },
    Input { request_id: String, questions: Vec<UserInputQuestion>, resolved: bool },
    Error { id: String, text: String },
}

/// One transcript message of a chat document.
#[derive(Clone, Debug, PartialEq)]
pub struct SessionMessageEntry {
    pub id: String,
    pub role: MessageRole,
    pub parts: Vec<MessagePart>,
    pub created_at: i64,
    pub device_id: String,
    pub status: Option<MessageStatus>,
    pub continuation_of: Option<String>,
}

/// The lifecycle of a queued command.
#[derive(Clone, Copy, Debug, PartialEq, Eq, Structural)]
pub enum SessionCommandStatus {
    Pending,
    Applied,
    Rejected,
    Expired,
    Superseded,
}

/// What the command evaluator decided for a pending command.
#[derive(Clone, Copy, Debug, PartialEq, Eq, Structural)]
pub enum CommandDisposition {
    Skip,
    Expired,
    Superseded,
    Execute,
}

/// What a queued command asks the sessions engine to do.
#[derive(Clone, Debug, PartialEq)]
pub enum SessionCommandPayload {
    Run { request: RunRequest, message_id: String },
    Steer { prompt: String, message_id: Option<String> },
    Interrupt,
    RespondInput { request_id: String, answers: Vec<UserInputAnswer> },
}

/// The transcript position a command was issued against.
#[derive(Clone, Debug, PartialEq)]
pub struct CommandBasedOn {
    pub turn_id: Option<String>,
    pub frontier: Option<Vec<u8>>,
}

/// A command in a chat document's queue.
#[derive(Clone, Debug, PartialEq)]
pub struct SessionCommandEntry {
    pub id: String,
    pub payload: SessionCommandPayload,
    pub issued_by: String,
    pub issued_at: i64,
    pub based_on: Option<CommandBasedOn>,
    pub expires_at: Option<i64>,
    pub status: SessionCommandStatus,
    pub resolution: Option<String>,
}

/// The engine's error.
#[derive(Clone, Debug, PartialEq)]
pub enum EngineError {
    Other(String),
}

/// An `EngineError::Other` whose message is `msg`.
pub open spec fn is_other_error(e: EngineError, msg: Seq<char>) -> bool {
    match e {
        EngineError::Other(m) => m@ == msg,
    }
}

pub fn other_error(msg: &str) -> (e: EngineError)
    ensures
        is_other_error(e, msg@),
{
    EngineError::Other(String::from_str(msg))
}

} // verus!
