use claude_code::repl::{
    history_title, parse_command, ChatError, ChatResponse, Command, Repl, Speaker, TokenUsage,
    Usage,
};
use claude_code::state::{AppState, ChatMessage};

#[test]
fn test_repl_creation() {
    let state = AppState::default();
    let repl = Repl::new(state);
    assert!(repl.conversation_history().is_empty());
}

fn state_with_key(key: Option<&str>) -> AppState {
    let mut state = AppState::default();
    state.settings.api.api_key = key.map(|k| k.to_string());
    state.settings.api.base_url = "https://example.test".to_string();
    state.settings.model = "test-model".to_string();
    state.settings.api.max_tokens = 321;
    state
}

#[test]
fn parse_command_recognises_every_alias() {
    for (line, cmd) in [
        ("exit", Command::Exit),
        ("quit", Command::Exit),
        (".exit", Command::Exit),
        (":q", Command::Exit),
        ("help", Command::Help),
        (".help", Command::Help),
        (":h", Command::Help),
        ("status", Command::Status),
        (".status", Command::Status),
        ("clear", Command::Clear),
        (".clear", Command::Clear),
        (":c", Command::Clear),
        ("history", Command::History),
        (".history", Command::History),
        ("reset", Command::Reset),
        (".reset", Command::Reset),
        ("config", Command::Config),
        (".config", Command::Config),
    ] {
        assert_eq!(parse_command(line), cmd, "line {:?}", line);
    }
}

#[test]
fn parse_command_trims_and_falls_back_to_chat() {
    assert_eq!(parse_command("  exit \n"), Command::Exit);
    assert_eq!(parse_command("\u{3000}help\t"), Command::Help);
    assert_eq!(parse_command(""), Command::Empty);
    assert_eq!(parse_command(" \t\r\n"), Command::Empty);
    assert_eq!(parse_command("Exit"), Command::Chat);
    assert_eq!(parse_command("exit now"), Command::Chat);
    assert_eq!(parse_command("hello there"), Command::Chat);
}

#[test]
fn begin_chat_without_key_changes_nothing() {
    let mut repl = Repl::new(state_with_key(None));
    let r = repl.begin_chat("hi");
    match r {
        Err(ChatError::MissingApiKey) => {}
        _ => panic!("expected a missing key error"),
    }
    assert!(repl.conversation_history().is_empty());
    let msg = ChatError::MissingApiKey.message();
    assert_eq!(
        msg,
        "API key not configured\n\nSet it with:\n  assistant-code config set api_key \"your-api-key\""
    );
}

#[test]
fn begin_chat_builds_the_request() {
    let mut repl = Repl::new(state_with_key(Some("sk-1")));
    let req = match repl.begin_chat("hello") {
        Ok(req) => req,
        Err(_) => panic!("expected a request"),
    };
    assert_eq!(req.url, "https://example.test/v1/chat/completions");
    assert_eq!(req.authorization, "Bearer sk-1");
    assert_eq!(req.model, "test-model");
    assert_eq!(req.max_tokens, 321);
    assert!(!req.stream);
    assert_eq!(req.messages.len(), 1);
    assert_eq!(req.messages[0].role, "user");
    assert_eq!(req.messages[0].content.as_deref(), Some("hello"));
    assert_eq!(repl.conversation_history().len(), 1);
}

#[test]
fn finish_chat_appends_the_reply_and_counts_tokens() {
    let mut repl = Repl::new(state_with_key(Some("k")));
    let _ = repl.begin_chat("question");
    let response = ChatResponse {
        choices: Some(vec![Some("answer".to_string()), Some("other".to_string())]),
        usage: Some(Usage { prompt_tokens: Some(12), completion_tokens: Some(30) }),
    };
    let reply = repl.finish_chat(&response).expect("a reply");
    assert_eq!(reply.content, "answer");
    assert_eq!(reply.usage, Some(TokenUsage { prompt: 12, completion: 30, total: 42 }));
    let h = repl.conversation_history();
    assert_eq!(h.len(), 2);
    assert_eq!(h[0].role, "user");
    assert_eq!(h[0].content.as_deref(), Some("question"));
    assert_eq!(h[1].role, "assistant");
    assert_eq!(h[1].content.as_deref(), Some("answer"));
}

#[test]
fn finish_chat_without_content_changes_nothing() {
    let mut repl = Repl::new(state_with_key(Some("k")));
    for response in [
        ChatResponse { choices: None, usage: None },
        ChatResponse { choices: Some(vec![]), usage: None },
        ChatResponse { choices: Some(vec![None]), usage: None },
    ] {
        assert!(repl.finish_chat(&response).is_none());
    }
    assert!(repl.conversation_history().is_empty());
}

#[test]
fn finish_chat_needs_both_token_counts() {
    let mut repl = Repl::new(state_with_key(Some("k")));
    let response = ChatResponse {
        choices: Some(vec![Some("x".to_string())]),
        usage: Some(Usage { prompt_tokens: Some(1), completion_tokens: None }),
    };
    let reply = repl.finish_chat(&response).expect("a reply");
    assert_eq!(reply.usage, None);
}

#[test]
fn error_messages() {
    let e = ChatError::Http { status: "404 Not Found".to_string(), body: "nope".to_string() };
    assert_eq!(e.message(), "API error (404 Not Found): nope");
    let e = ChatError::Transport("timed out".to_string());
    assert_eq!(e.message(), "Request failed: timed out");
}

#[test]
fn reset_conversation_forgets_everything() {
    let mut repl = Repl::new(state_with_key(Some("k")));
    let _ = repl.begin_chat("a");
    let _ = repl.begin_chat("b");
    assert_eq!(repl.conversation_history().len(), 2);
    repl.reset_conversation();
    assert!(repl.conversation_history().is_empty());
    assert_eq!(repl.state().settings.model, "test-model");
}

#[test]
fn status_info_reports_settings() {
    let mut repl = Repl::new(state_with_key(Some("k")));
    let _ = repl.begin_chat("a");
    let s = repl.status_info();
    assert_eq!(s.model, "test-model");
    assert_eq!(s.api_base, "https://example.test");
    assert_eq!(s.max_tokens, "321");
    assert_eq!(s.timeout, 60);
    assert!(!s.streaming);
    assert_eq!(s.message_count, 1);
    assert!(s.api_key_set);
    let s = Repl::new(state_with_key(None)).status_info();
    assert!(!s.api_key_set);
    assert_eq!(s.message_count, 0);
}

#[test]
fn history_entries_number_and_truncate() {
    let mut repl = Repl::new(state_with_key(Some("k")));
    let long = "é".repeat(30); // 30 characters, 60 bytes
    let _ = repl.begin_chat(&long);
    let response = ChatResponse { choices: Some(vec![Some("a".repeat(51))]), usage: None };
    let _ = repl.finish_chat(&response);
    let _ = repl.begin_chat("short");
    let entries = repl.history_entries();
    assert_eq!(entries.len(), 3);
    assert_eq!(entries[0].number, "1");
    assert_eq!(entries[0].speaker, Speaker::User);
    assert_eq!(entries[0].preview, long);
    assert!(entries[0].truncated);
    assert_eq!(entries[1].number, "2");
    assert_eq!(entries[1].speaker, Speaker::Assistant);
    assert_eq!(entries[1].preview, "a".repeat(50));
    assert!(entries[1].truncated);
    assert_eq!(entries[2].number, "3");
    assert_eq!(entries[2].preview, "short");
    assert!(!entries[2].truncated);
    assert_eq!(Speaker::User.label(), "You");
    assert_eq!(Speaker::Assistant.label(), "Assistant");
    assert_eq!(Speaker::Other.label(), "Unknown");
}

#[test]
fn history_entry_for_other_roles_and_missing_content() {
    let m = ChatMessage { role: "system".to_string(), content: None };
    let e = claude_code::repl::history_entry(&m, 9);
    assert_eq!(e.number, "10");
    assert_eq!(e.speaker, Speaker::Other);
    assert_eq!(e.preview, "");
    assert!(!e.truncated);
}

#[test]
fn history_title_counts_messages() {
    assert_eq!(history_title(0), "Conversation history (0 messages)");
    assert_eq!(history_title(12), "Conversation history (12 messages)");
}

#[test]
fn chat_message_clone_is_equal() {
    let m = ChatMessage::user("x");
    let c = m.clone();
    assert_eq!(c.role, "user");
    assert_eq!(c.content.as_deref(), Some("x"));
    let a = ChatMessage::assistant("y".to_string());
    assert_eq!(a.role, "assistant");
}
