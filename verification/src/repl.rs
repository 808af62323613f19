//! The REPL: what each input line asks for, the conversation history, and how a chat
//! exchange with the API changes it.

use vstd::prelude::*;
use crate::state::{AppState, ChatMessage};
use crate::text;
use crate::text::{decimal, str_eq, trim};
use crate::ui::StatusInfo;

verus! {

/// What an input line asks the REPL to do.
#[derive(PartialEq, Eq, Structural, Clone, Copy, Debug)]
pub enum Command {
    /// Nothing (a blank line): prompt again.
    Empty,
    /// `exit`, `quit`, `.exit` or `:q`: say goodbye and stop.
    Exit,
    /// `help`, `.help` or `:h`: show the commands.
    Help,
    /// `status` or `.status`: show the status report.
    Status,
    /// `clear`, `.clear` or `:c`: clear the screen.
    Clear,
    /// `history` or `.history`: list the conversation.
    History,
    /// `reset` or `.reset`: forget the conversation.
    Reset,
    /// `config` or `.config`: show the settings.
    Config,
    /// Anything else: send the line to the assistant.
    Chat,
}

/// The command named by an input line that has already been trimmed.
pub open spec fn command_for(t: Seq<char>) -> Command {
    if t.len() == 0 {
        Command::Empty
    } else if t == "exit"@ || t == "quit"@ || t == ".exit"@ || t == ":q"@ {
        Command::Exit
    } else if t == "help"@ || t == ".help"@ || t == ":h"@ {
        Command::Help
    } else if t == "status"@ || t == ".status"@ {
        Command::Status
    } else if t == "clear"@ || t == ".clear"@ || t == ":c"@ {
        Command::Clear
    } else if t == "history"@ || t == ".history"@ {
        Command::History
    } else if t == "reset"@ || t == ".reset"@ {
        Command::Reset
    } else if t == "config"@ || t == ".config"@ {
        Command::Config
    } else {
        Command::Chat
    }
}

/// Commands are exact words: a trimmed line asks for a command only when it is exactly one
/// of that command's words, a blank line asks for nothing, and every other line (one that
/// merely starts with a command word, say) is a chat message.
pub proof fn commands_are_exact_words(t: Seq<char>)
    ensures
        command_for(t) == Command::Empty <==> t.len() == 0,
        command_for(t) == Command::Exit <==> (t == "exit"@ || t == "quit"@ || t == ".exit"@
            || t == ":q"@),
        command_for(t) == Command::Help ==> (t == "help"@ || t == ".help"@ || t == ":h"@),
        command_for(t) == Command::Status ==> (t == "status"@ || t == ".status"@),
        command_for(t) == Command::Clear ==> (t == "clear"@ || t == ".clear"@ || t == ":c"@),
        command_for(t) == Command::History ==> (t == "history"@ || t == ".history"@),
        command_for(t) == Command::Reset ==> (t == "reset"@ || t == ".reset"@),
        command_for(t) == Command::Config ==> (t == "config"@ || t == ".config"@),
        command_for(t) == Command::Chat ==> t.len() > 0 && t != "exit"@ && t != "quit"@ && t
            != ".exit"@ && t != ":q"@ && t != "help"@ && t != ".help"@ && t != ":h"@ && t
            != "status"@ && t != ".status"@ && t != "clear"@ && t != ".clear"@ && t != ":c"@
            && t != "history"@ && t != ".history"@ && t != "reset"@ && t != ".reset"@ && t
            != "config"@ && t != ".config"@,
{
    reveal_strlit("exit");
    reveal_strlit("quit");
    reveal_strlit(".exit");
    reveal_strlit(":q");
}

/// White space around a line never changes what it asks for: the line padded with white
/// space on either side, and the line already trimmed, ask for the same command as the line.
pub proof fn command_ignores_surrounding_white_space(
    before: Seq<char>,
    line: Seq<char>,
    after: Seq<char>,
)
    requires
        text::all_white_space(before),
        text::all_white_space(after),
    ensures
        command_for(text::trim_seq(before + line + after)) == command_for(text::trim_seq(line)),
        command_for(text::trim_seq(text::trim_seq(line))) == command_for(text::trim_seq(line)),
{
    text::trim_ignores_padding(before, line, after);
    text::trim_is_idempotent(line);
}

/// The command that an input line asks for; surrounding white space is ignored.
pub fn parse_command(line: &str) -> (c: Command)
    ensures
        c == command_for(text::trim_seq(line@)),
{
    let t = trim(line);
    if t.is_empty() {
        Command::Empty
    } else if str_eq(t, "exit") || str_eq(t, "quit") || str_eq(t, ".exit") || str_eq(t, ":q") {
        Command::Exit
    } else if str_eq(t, "help") || str_eq(t, ".help") || str_eq(t, ":h") {
        Command::Help
    } else if str_eq(t, "status") || str_eq(t, ".status") {
        Command::Status
    } else if str_eq(t, "clear") || str_eq(t, ".clear") || str_eq(t, ":c") {
        Command::Clear
    } else if str_eq(t, "history") || str_eq(t, ".history") {
        Command::History
    } else if str_eq(t, "reset") || str_eq(t, ".reset") {
        Command::Reset
    } else if str_eq(t, "config") || str_eq(t, ".config") {
        Command::Config
    } else {
        Command::Chat
    }
}


/// The interactive session: the settings it runs with and the conversation so far.
pub struct Repl {
    state: AppState,
    conversation_history: Vec<ChatMessage>,
}

/// A request to send to the chat completions endpoint.
pub struct ChatRequest {
    /// The endpoint's URL.
    pub url: String,
    /// The value of the `Authorization` header.
    pub authorization: String,
    pub model: String,
    /// The whole conversation, the new user message last.
    pub messages: Vec<ChatMessage>,
    pub max_tokens: u32,
    /// Whether the reply is streamed (never, here).
    pub stream: bool,
}

/// Why an exchange with the assistant produced no reply.
pub enum ChatError {
    /// No API key is configured; nothing was sent.
    MissingApiKey,
    /// The server answered with a status other than success.
    Http { status: String, body: String },
    /// The request could not be sent or answered.
    Transport(String),
}

/// The error's text, as the REPL shows it.
pub open spec fn error_text(e: ChatError) -> Seq<char> {
    match e {
        ChatError::MissingApiKey => "API key not configured\n\nSet it with:\n  assistant-code config set api_key \"your-api-key\""@,
        ChatError::Http { status, body } => "API error ("@ + status@ + "): "@ + body@,
        ChatError::Transport(reason) => "Request failed: "@ + reason@,
    }
}

impl ChatError {
    /// The error's text, as the REPL shows it.
    pub fn message(&self) -> (m: String)
        ensures
            m@ == error_text(*self),
    {
        match self {
            ChatError::MissingApiKey => "API key not configured\n\nSet it with:\n  assistant-code config set api_key \"your-api-key\"".to_owned(),
            ChatError::Http { status, body } => {
                let mut m = "API error (".to_owned();
                m.append(status.as_str());
                m.append("): ");
                m.append(body.as_str());
                m
            },
            ChatError::Transport(reason) => {
                let mut m = "Request failed: ".to_owned();
                m.append(reason.as_str());
                m
            },
        }
    }
}

/// The parts of a chat completion response that the REPL reads.
pub struct ChatResponse {
    /// `choices`, when it is an array: each choice's `message.content`, when it is a string.
    pub choices: Option<Vec<Option<String>>>,
    /// `usage`, when present.
    pub usage: Option<Usage>,
}

/// Token counts of a response, each when present as an unsigned integer.
pub struct Usage {
    pub prompt_tokens: Option<u64>,
    pub completion_tokens: Option<u64>,
}

/// Token counts shown after a reply.
#[derive(PartialEq, Eq, Structural, Clone, Copy, Debug)]
pub struct TokenUsage {
    pub prompt: u64,
    pub completion: u64,
    pub total: u64,
}

/// The assistant's reply and, when the response reports both counts, its token usage.
pub struct AssistantReply {
    pub content: String,
    pub usage: Option<TokenUsage>,
}

/// The text of the first choice of a response, when it has one.
pub open spec fn reply_content(r: ChatResponse) -> Option<String> {
    match r.choices {
        Some(choices) => if choices@.len() > 0 {
            choices@[0]
        } else {
            None
        },
        None => None,
    }
}

/// The prompt and completion token counts, when the response reports both.
pub open spec fn reported_tokens(r: ChatResponse) -> Option<(u64, u64)> {
    match r.usage {
        Some(u) => match (u.prompt_tokens, u.completion_tokens) {
            (Some(p), Some(c)) => Some((p, c)),
            _ => None,
        },
        None => None,
    }
}

/// Whether the total token count of a response fits in a `u64`.
pub open spec fn token_total_fits(r: ChatResponse) -> bool {
    match reported_tokens(r) {
        Some((p, c)) => p + c <= u64::MAX,
        None => true,
    }
}

/// Whether conversation `after` is `before` followed by the user's message `input`.
pub open spec fn adds_user_message(
    before: Seq<ChatMessage>,
    after: Seq<ChatMessage>,
    input: Seq<char>,
) -> bool {
    &&& after.len() == before.len() + 1
    &&& after.drop_last() == before
    &&& after.last().role@ == "user"@
    &&& after.last().content matches Some(c) && c@ == input
}

/// Whether conversation `after` is `before` followed by the assistant's message `content`.
pub open spec fn adds_assistant_message(
    before: Seq<ChatMessage>,
    after: Seq<ChatMessage>,
    content: String,
) -> bool {
    &&& after.len() == before.len() + 1
    &&& after.drop_last() == before
    &&& after.last().role@ == "assistant"@
    &&& after.last().content == Some(content)
}

/// A completed exchange (a started chat, then a reply) adds exactly two messages to the
/// conversation, the user's and then the assistant's, and keeps all earlier messages.
pub proof fn exchange_adds_two_messages(
    h0: Seq<ChatMessage>,
    h1: Seq<ChatMessage>,
    h2: Seq<ChatMessage>,
    input: Seq<char>,
    reply: String,
)
    requires
        adds_user_message(h0, h1, input),
        adds_assistant_message(h1, h2, reply),
    ensures
        h2.len() == h0.len() + 2,
        h2.take(h0.len() as int) == h0,
        h2[h0.len() as int].role@ == "user"@,
        h2[h0.len() as int].content matches Some(c) && c@ == input,
        h2[h0.len() + 1 as int].role@ == "assistant"@,
        h2[h0.len() + 1 as int].content == Some(reply),
{
    assert(h2[h0.len() as int] == h1.last());
    assert(h2.take(h0.len() as int) =~= h1.drop_last());
}

impl Repl {
    /// The conversation so far, oldest message first.
    pub closed spec fn history(&self) -> Seq<ChatMessage> {
        self.conversation_history@
    }

    /// The settings the session runs with.
    pub closed spec fn app_state(&self) -> AppState {
        self.state
    }

    /// A new session with the given settings and an empty conversation.
    pub fn new(state: AppState) -> (r: Repl)
        ensures
            r.app_state() == state,
            r.history() == Seq::<ChatMessage>::empty(),
    {
        Repl { state, conversation_history: Vec::new() }
    }

    /// The settings the session runs with.
    pub fn state(&self) -> (s: &AppState)
        ensures
            *s == self.app_state(),
    {
        &self.state
    }

    /// The conversation so far, oldest message first.
    pub fn conversation_history(&self) -> (h: &Vec<ChatMessage>)
        ensures
            h@ == self.history(),
    {
        &self.conversation_history
    }

    /// Forgets the conversation; the settings stay.
    pub fn reset_conversation(&mut self)
        ensures
            final(self).history() == Seq::<ChatMessage>::empty(),
            final(self).app_state() == old(self).app_state(),
    {
        self.conversation_history = Vec::new();
    }

    /// What the `status` command reports.
    pub fn status_info(&self) -> (s: StatusInfo)
        ensures
            s.model@ == self.app_state().settings.model@,
            s.api_base@ == self.app_state().settings.api.base_url@,
            s.max_tokens@ == text::decimal_seq(self.app_state().settings.api.max_tokens as nat),
            s.timeout == self.app_state().settings.api.timeout,
            s.streaming == self.app_state().settings.api.streaming,
            s.message_count == self.history().len(),
            s.api_key_set == self.app_state().settings.api.api_key is Some,
    {
        let api = &self.state.settings.api;
        StatusInfo {
            model: self.state.settings.model.clone(),
            api_base: api.base_url.clone(),
            max_tokens: decimal(api.max_tokens as u64),
            timeout: api.timeout,
            streaming: api.streaming,
            message_count: self.conversation_history.len(),
            api_key_set: api.get_api_key().is_some(),
        }
    }

    /// Starts an exchange with the assistant. Without an API key nothing changes and the
    /// exchange fails with `MissingApiKey`; otherwise the user's message joins the
    /// conversation and the request that carries the whole conversation is returned.
    pub fn begin_chat(&mut self, input: &str) -> (r: Result<ChatRequest, ChatError>)
        ensures
            final(self).app_state() == old(self).app_state(),
            old(self).app_state().settings.api.api_key is None ==> {
                &&& r matches Err(ChatError::MissingApiKey)
                &&& final(self).history() == old(self).history()
            },
            old(self).app_state().settings.api.api_key matches Some(key) ==> {
                &&& adds_user_message(old(self).history(), final(self).history(), input@)
                &&& r matches Ok(req) && {
                    &&& req.url@ == old(self).app_state().settings.api.base_url@
                        + "/v1/chat/completions"@
                    &&& req.authorization@ == "Bearer "@ + key@
                    &&& req.model@ == old(self).app_state().settings.model@
                    &&& req.messages@ == final(self).history()
                    &&& req.max_tokens == old(self).app_state().settings.api.max_tokens
                    &&& !req.stream
                }
            },
    {
        let key = match self.state.settings.api.get_api_key() {
            Some(k) => k,
            None => {
                return Err(ChatError::MissingApiKey);
            },
        };
        let ghost before = self.conversation_history@;
        self.conversation_history.push(ChatMessage::user(input));
        assert(self.conversation_history@.drop_last() =~= before);
        let mut messages: Vec<ChatMessage> = Vec::new();
        let mut i: usize = 0;
        while i < self.conversation_history.len()
            invariant
                i <= self.conversation_history@.len(),
                messages@ == self.conversation_history@.take(i as int),
            decreases self.conversation_history.len() - i,
        {
            messages.push(self.conversation_history[i].clone());
            i = i + 1;
            assert(messages@ =~= self.conversation_history@.take(i as int));
        }
        assert(messages@ =~= self.conversation_history@);
        let mut url = self.state.settings.api.base_url.clone();
        url.append("/v1/chat/completions");
        let mut authorization = "Bearer ".to_owned();
        authorization.append(key.as_str());
        Ok(
            ChatRequest {
                url,
                authorization,
                model: self.state.settings.model.clone(),
                messages,
                max_tokens: self.state.settings.api.max_tokens,
                stream: false,
            },
        )
    }

    /// Ends an exchange with the server's response. When its first choice has text, that
    /// text joins the conversation as the assistant's message and is returned, with the
    /// token counts when the response reports both; otherwise nothing changes.
    pub fn finish_chat(&mut self, response: &ChatResponse) -> (r: Option<AssistantReply>)
        requires
            reply_content(*response) is Some ==> token_total_fits(*response),
        ensures
            final(self).app_state() == old(self).app_state(),
            reply_content(*response) is None ==> {
                &&& r is None
                &&& final(self).history() == old(self).history()
            },
            reply_content(*response) matches Some(c) ==> {
                &&& adds_assistant_message(old(self).history(), final(self).history(), c)
                &&& r matches Some(reply) && {
                    &&& reply.content@ == c@
                    &&& reply.usage == match reported_tokens(*response) {
                        Some((p, q)) => Some(TokenUsage { prompt: p, completion: q, total: (p + q) as u64 }),
                        None => None,
                    }
                }
            },
    {
        let content = match &response.choices {
            Some(choices) => if choices.len() > 0 {
                match &choices[0] {
                    Some(c) => c.clone(),
                    None => {
                        return None;
                    },
                }
            } else {
                return None;
            },
            None => {
                return None;
            },
        };
        let usage = match &response.usage {
            Some(u) => match (u.prompt_tokens, u.completion_tokens) {
                (Some(p), Some(q)) => Some(TokenUsage { prompt: p, completion: q, total: p + q }),
                _ => None,
            },
            None => None,
        };
        let ghost before = self.conversation_history@;
        self.conversation_history.push(ChatMessage::assistant(content.clone()));
        assert(self.conversation_history@.drop_last() =~= before);
        Some(AssistantReply { content, usage })
    }
}


/// Who sent a message, as the history list shows it.
#[derive(PartialEq, Eq, Structural, Clone, Copy, Debug)]
pub enum Speaker {
    /// Shown as "You", in orange.
    User,
    /// Shown as "Assistant", in purple.
    Assistant,
    /// Shown as "Unknown", in grey.
    Other,
}

/// The speaker of a message with the given role.
pub open spec fn speaker_of(role: Seq<char>) -> Speaker {
    if role == "user"@ {
        Speaker::User
    } else if role == "assistant"@ {
        Speaker::Assistant
    } else {
        Speaker::Other
    }
}

/// The name shown for a speaker.
pub open spec fn speaker_label(s: Speaker) -> Seq<char> {
    match s {
        Speaker::User => "You"@,
        Speaker::Assistant => "Assistant"@,
        Speaker::Other => "Unknown"@,
    }
}

impl Speaker {
    /// The name shown for this speaker.
    pub fn label(&self) -> (l: &'static str)
        ensures
            l@ == speaker_label(*self),
    {
        match self {
            Speaker::User => "You",
            Speaker::Assistant => "Assistant",
            Speaker::Other => "Unknown",
        }
    }
}

/// One line of the history list: its number, speaker, the first 50 characters of the
/// message, and whether the message is longer than 50 bytes (then "..." follows).
pub struct HistoryEntry {
    pub number: String,
    pub speaker: Speaker,
    pub preview: String,
    pub truncated: bool,
}

/// The text of a message, empty when it has none.
pub open spec fn content_text(m: ChatMessage) -> Seq<char> {
    match m.content {
        Some(c) => c@,
        None => Seq::<char>::empty(),
    }
}

/// Whether `e` is the history line of message `m` at position `i` (counting from 0).
pub open spec fn entry_is(e: HistoryEntry, m: ChatMessage, i: int) -> bool {
    let c = content_text(m);
    &&& e.number@ == text::decimal_seq((i + 1) as nat)
    &&& e.speaker == speaker_of(m.role@)
    &&& e.preview@ == c.take(if c.len() < 50 { c.len() as int } else { 50 })
    &&& e.truncated == (text::byte_len(c) > 50)
}

/// The heading of the history list.
pub fn history_title(count: usize) -> (t: String)
    ensures
        t@ == "Conversation history ("@ + text::decimal_seq(count as nat) + " messages)"@,
{
    let mut t = "Conversation history (".to_owned();
    let n = decimal(count as u64);
    t.append(n.as_str());
    t.append(" messages)");
    t
}

/// The history line of one message at position `index` (counting from 0).
pub fn history_entry(m: &ChatMessage, index: usize) -> (e: HistoryEntry)
    requires
        index < usize::MAX,
    ensures
        entry_is(e, *m, index as int),
{
    let content: &str = match &m.content {
        Some(c) => c.as_str(),
        None => "",
    };
    assert(content@ == content_text(*m)) by {
        if m.content is None {
            reveal_strlit("");
        }
    }
    let n = text::chars_of(content).len();
    let take = if n < 50 { n } else { 50 };
    let preview = content.substring_char(0, take).to_owned();
    assert(preview@ =~= content@.take(take as int));
    let speaker = if str_eq(m.role.as_str(), "user") {
        Speaker::User
    } else if str_eq(m.role.as_str(), "assistant") {
        Speaker::Assistant
    } else {
        Speaker::Other
    };
    HistoryEntry {
        number: decimal((index + 1) as u64),
        speaker,
        preview,
        truncated: content.len() > 50,
    }
}

impl Repl {
    /// The history list: one line per message, oldest first.
    pub fn history_entries(&self) -> (r: Vec<HistoryEntry>)
        ensures
            r@.len() == self.history().len(),
            forall|i: int| 0 <= i < r@.len() ==> entry_is(#[trigger] r@[i], self.history()[i], i),
    {
        let mut r: Vec<HistoryEntry> = Vec::new();
        let mut i: usize = 0;
        while i < self.conversation_history.len()
            invariant
                i <= self.conversation_history@.len(),
                r@.len() == i,
                forall|j: int|
                    0 <= j < i ==> entry_is(#[trigger] r@[j], self.conversation_history@[j], j),
            decreases self.conversation_history.len() - i,
        {
            r.push(history_entry(&self.conversation_history[i], i));
            i = i + 1;
        }
        r
    }
}

} // verus!
