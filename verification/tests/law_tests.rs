use claude_code::repl::{parse_command, ChatResponse, Command, Repl};
use claude_code::state::AppState;
use claude_code::text::{decimal, lines, trim};
use claude_code::ui::{column_widths, format_inline_styles};

#[test]
fn trimming_twice_is_trimming_once() {
    for s in ["  a  ", "\u{2028}b c\u{2029}", "", "   "] {
        assert_eq!(trim(trim(s)), trim(s));
    }
}

#[test]
fn padding_does_not_change_the_command() {
    assert_eq!(parse_command("\t\u{a0} reset \u{3000}\n"), Command::Reset);
    assert_eq!(parse_command(trim("  status  ")), parse_command("  status  "));
}

#[test]
fn lines_rejoin_to_the_text() {
    for s in ["a\nb", "a\nb\n", "\n\nx", "", "one"] {
        let mut joined = lines(s).join("\n");
        if s.ends_with('\n') {
            joined.push('\n');
        }
        assert_eq!(joined, s);
    }
}

#[test]
fn decimal_reads_back() {
    for n in [0u64, 5, 10, 65535, 18446744073709551615] {
        assert_eq!(decimal(n).parse::<u64>().unwrap(), n);
    }
}

#[test]
fn text_without_markup_is_unchanged() {
    for s in ["plain", "", "no stars or backticks here: _ # >", "2 * 3", "*"] {
        assert_eq!(format_inline_styles(s), s);
    }
}

#[test]
fn every_cell_fits_its_column() {
    let rows = vec![vec!["wide cell".to_string()], vec!["x".to_string(), "yy".to_string()]];
    let w = column_widths(&["h", "header"], &rows);
    assert!(w[0] >= "h".len() && w[0] >= "wide cell".len() && w[0] >= "x".len());
    assert!(w[1] >= "header".len() && w[1] >= "yy".len());
    // Each width is the length of the header or of one of the column's cells.
    assert_eq!(w, vec!["wide cell".len(), "header".len()]);
}

#[test]
fn an_exchange_adds_two_messages() {
    let mut state = AppState::default();
    state.settings.api.api_key = Some("k".to_string());
    let mut repl = Repl::new(state);
    let _ = repl.begin_chat("first");
    let _ = repl.finish_chat(&ChatResponse { choices: Some(vec![Some("r1".to_string())]), usage: None });
    let before = repl.conversation_history().len();
    let _ = repl.begin_chat("second");
    let _ = repl.finish_chat(&ChatResponse { choices: Some(vec![Some("r2".to_string())]), usage: None });
    let h = repl.conversation_history();
    assert_eq!(h.len(), before + 2);
    assert_eq!(h[before].content.as_deref(), Some("second"));
    assert_eq!(h[before + 1].content.as_deref(), Some("r2"));
    assert_eq!(h[0].content.as_deref(), Some("first"));
}
