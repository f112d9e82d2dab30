//! Data exchanged with a chat-completion service that writes lines for characters.
use vstd::prelude::*;

verus! {

/// A request for the next generated line, after the given character and goal.
pub struct GPTGetEvent {
    pub past_character: String,
    pub past_goal: String,
}

/// A request that a character speak toward a goal, with optional advice.
pub struct GPTSayEvent {
    pub name: String,
    pub goal: String,
    pub advice: Option<String>,
}

/// A generated line for a character.
pub struct CharacterSayEvent {
    pub name: String,
    pub message: String,
}

/// A generated change of a GUI sprite.
pub struct GUIChangeEvent {
    pub gui_id: String,
    pub sprite_id: String,
}

/// One message of a chat conversation.
#[derive(Debug, Clone)]
pub struct Message {
    pub role: String,
    pub content: String,
}

/// One answer of a chat completion.
#[derive(Debug)]
pub struct ChatChoice {
    pub message: Message,
}

/// One answer of a text completion.
#[derive(Debug)]
pub struct CompletionChoice {
    pub text: String,
}

/// The tokens that a request used.
#[derive(Debug)]
pub struct Usage {
    pub total_tokens: usize,
}

/// The answers of a chat completion.
#[derive(Debug)]
pub struct ChatResponse {
    pub choices: Vec<ChatChoice>,
    pub usage: Option<Usage>,
}

/// The answers of a text completion.
#[derive(Debug)]
pub struct CompletionResponse {
    pub choices: Vec<CompletionChoice>,
    pub usage: Option<Usage>,
}

/// Whether a character reached its goal, why, and what it could do next.
pub struct GoalResponse {
    pub reason: Option<String>,
    pub goal_status: String,
    pub advice: Option<String>,
}

/// Why a request to the completion service failed.
#[derive(Debug)]
pub enum GPTError {
    RequestBuilderError,
    LengthError,
    IOError,
    OpenAIError,
    UnparseableOpenAIResponse,
    Null,
}

} // verus!
