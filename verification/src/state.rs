//! The client's settings and the messages of a conversation.

use vstd::prelude::*;

verus! {

/// One message of a conversation: who sent it, and its text when it has one.
pub struct ChatMessage {
    pub role: String,
    pub content: Option<String>,
}

impl ChatMessage {
    /// A message typed by the user.
    pub fn user(content: &str) -> (m: ChatMessage)
        ensures
            m.role@ == "user"@,
            m.content matches Some(c) && c@ == content@,
    {
        ChatMessage { role: "user".to_owned(), content: Some(content.to_owned()) }
    }

    /// A message written by the assistant.
    pub fn assistant(content: String) -> (m: ChatMessage)
        ensures
            m.role@ == "assistant"@,
            m.content == Some(content),
    {
        ChatMessage { role: "assistant".to_owned(), content: Some(content) }
    }
}

impl Clone for ChatMessage {
    fn clone(&self) -> (m: ChatMessage)
        ensures
            m == *self,
    {
        let content = match &self.content {
            Some(c) => Some(c.clone()),
            None => None,
        };
        ChatMessage { role: self.role.clone(), content }
    }
}

/// Settings of the chat API.
pub struct ApiSettings {
    /// Base URL of the OpenAI-compatible endpoint.
    pub base_url: String,
    /// The API key, when one is configured.
    pub api_key: Option<String>,
    /// Most tokens a reply may use.
    pub max_tokens: u32,
    /// Request timeout in seconds.
    pub timeout: u64,
    /// Whether replies are streamed.
    pub streaming: bool,
}

impl ApiSettings {
    /// The configured API key, if any.
    pub fn get_api_key(&self) -> (k: Option<String>)
        ensures
            k == self.api_key,
    {
        match &self.api_key {
            Some(key) => Some(key.clone()),
            None => None,
        }
    }
}

/// All settings of the client.
pub struct Settings {
    /// The model that answers.
    pub model: String,
    pub api: ApiSettings,
}

/// The state the REPL starts from.
pub struct AppState {
    pub settings: Settings,
}

impl Default for AppState {
    fn default() -> (s: AppState)
        ensures
            s.settings.model@ == "sonnet"@,
            s.settings.api.base_url@ == "https://api.anthropic.com"@,
            s.settings.api.api_key is None,
            s.settings.api.max_tokens == 4096,
            s.settings.api.timeout == 60,
            !s.settings.api.streaming,
    {
        AppState {
            settings: Settings {
                model: "sonnet".to_owned(),
                api: ApiSettings {
                    base_url: "https://api.anthropic.com".to_owned(),
                    api_key: None,
                    max_tokens: 4096,
                    timeout: 60,
                    streaming: false,
                },
            },
        }
    }
}

} // verus!
