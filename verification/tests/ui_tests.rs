use claude_code::ui::{
    banner_style, classify_assistant_line, code_block_footer, code_block_header, column_widths,
    divider, format_inline_styles, help_rows, highlight_code_line, render_assistant_message,
    size_or_default, typing_frame, typing_frames, banner, help_tip, help_title, logo, typing_label, status_row, status_rows, table_layout, terminal_size,
    BannerStyle, AssistantLine, CodeStyle, HeaderStyle, StatusInfo,
};

#[test]
fn test_format_inline_styles() {
    let text = "This is **bold** text";
    let _result = format_inline_styles(text);
    // Just verify it doesn't panic
}

#[test]
fn test_terminal_size() {
    let (w, h) = terminal_size();
    assert!(w > 0);
    assert!(h > 0);
}

#[test]
fn inline_bold() {
    assert_eq!(format_inline_styles("This is **bold** text"), "This is \x1b[1mbold\x1b[0m text");
    assert_eq!(format_inline_styles("a**b"), "a\x1b[1mb\x1b[0m");
    assert_eq!(format_inline_styles("****"), "\x1b[1m\x1b[0m");
}

#[test]
fn inline_code() {
    assert_eq!(
        format_inline_styles("run `ls` now"),
        "run \x1b[48;5;238m\x1b[38;5;250mls\x1b[0m now"
    );
    // Code spans win over bold markers.
    assert_eq!(format_inline_styles("`**`"), "\x1b[48;5;238m\x1b[38;5;250m**\x1b[0m");
    assert_eq!(format_inline_styles("open `"), "open \x1b[48;5;238m\x1b[38;5;250m");
}

#[test]
fn inline_plain_is_unchanged() {
    assert_eq!(format_inline_styles("plain text, no markup"), "plain text, no markup");
    assert_eq!(format_inline_styles(""), "");
}

#[test]
fn inline_code_and_bold_together() {
    assert_eq!(
        format_inline_styles("a `b` **c**"),
        "a \x1b[48;5;238m\x1b[38;5;250mb\x1b[0m \x1b[1mc\x1b[0m"
    );
}

#[test]
fn inline_italic() {
    assert_eq!(format_inline_styles("an *it* word"), "an \x1b[3mit\x1b[0m word");
    // A lone star is kept as text.
    assert_eq!(format_inline_styles("plain * text"), "plain * text");
    assert_eq!(format_inline_styles("2 * 3"), "2 * 3");
    assert_eq!(format_inline_styles("*`"), "*\x1b[48;5;238m\x1b[38;5;250m");
    assert_eq!(format_inline_styles("a***b"), "a\x1b[1m*b\x1b[0m");
    // A star inside a code span does not close italic.
    assert_eq!(format_inline_styles("*a `*`"), "*a \x1b[48;5;238m\x1b[38;5;250m*\x1b[0m");
    // Closing one style re-opens the other one after the reset.
    assert_eq!(
        format_inline_styles("**a *b* c**"),
        "\x1b[1ma \x1b[3mb\x1b[0m\x1b[1m c\x1b[0m"
    );
    // Stars inside a code span stay literal.
    assert_eq!(
        format_inline_styles("`*x*`"),
        "\x1b[48;5;238m\x1b[38;5;250m*x*\x1b[0m"
    );
}

fn text_of(l: &AssistantLine) -> (&'static str, String) {
    match l {
        AssistantLine::Fence(t) => ("fence", t.clone()),
        AssistantLine::Header(HeaderStyle::Title, t) => ("h1", t.clone()),
        AssistantLine::Header(HeaderStyle::Section, t) => ("h2", t.clone()),
        AssistantLine::Header(HeaderStyle::Minor, t) => ("h3", t.clone()),
        AssistantLine::Bullet(t) => ("bullet", t.clone()),
        AssistantLine::Quote(t) => ("quote", t.clone()),
        AssistantLine::Text(t) => ("text", t.clone()),
    }
}

#[test]
fn assistant_lines_are_classified() {
    let cases = [
        ("```rust", ("fence", "───── rust ─────")),
        ("```", ("fence", "─────────────────────")),
        ("# Title ", ("h1", "Title")),
        ("## Part", ("h2", "Part")),
        ("#### Deep #", ("h3", "Deep #")),
        ("- item", ("bullet", "item")),
        ("**bold** start", ("bullet", "*bold** start")),
        ("> quoted ", ("quote", "quoted")),
        ("plain **x**", ("text", "plain \x1b[1mx\x1b[0m")),
        ("", ("text", "")),
    ];
    for (line, (kind, expected)) in cases {
        let (k, t) = text_of(&classify_assistant_line(line));
        assert_eq!((k, t.as_str()), (kind, expected), "line {:?}", line);
    }
}

#[test]
fn assistant_message_is_split_into_lines() {
    let lines = render_assistant_message("# Hi\r\n\nsome `code`\n```\n");
    let kinds: Vec<&str> = lines.iter().map(|l| text_of(l).0).collect();
    assert_eq!(kinds, vec!["h1", "text", "text", "fence"]);
    assert_eq!(text_of(&lines[0]).1, "Hi");
}

#[test]
fn code_highlighting() {
    assert_eq!(highlight_code_line("    let x = 1;"), CodeStyle::Keyword);
    assert_eq!(highlight_code_line("x = iffy"), CodeStyle::Plain);
    assert_eq!(highlight_code_line("a if b"), CodeStyle::Keyword);
    assert_eq!(highlight_code_line("fnord()"), CodeStyle::Keyword);
    assert_eq!(highlight_code_line("print(\"hi\")"), CodeStyle::Literal);
    assert_eq!(highlight_code_line("c = 'x'"), CodeStyle::Literal);
    assert_eq!(highlight_code_line("  // note"), CodeStyle::Comment);
    assert_eq!(highlight_code_line("# heading"), CodeStyle::Comment);
    assert_eq!(highlight_code_line("x + y"), CodeStyle::Plain);
}

#[test]
fn code_block_rules() {
    assert_eq!(code_block_header(Some("rust")), "───── rust ─────");
    assert_eq!(code_block_header(None), "─────  ─────");
    assert_eq!(code_block_footer(), "─────────────────────");
}

#[test]
fn divider_is_capped_at_seventy() {
    assert_eq!(divider(100), "─".repeat(70));
    assert_eq!(divider(70), "─".repeat(70));
    assert_eq!(divider(5), "─".repeat(5));
    assert_eq!(divider(0), "");
}

#[test]
fn banner_styles() {
    assert_eq!(banner_style(0), BannerStyle::Frame);
    assert_eq!(banner_style(7), BannerStyle::Frame);
    assert_eq!(banner_style(3), BannerStyle::Title);
    assert_eq!(banner_style(5), BannerStyle::Tagline);
    assert_eq!(banner_style(1), BannerStyle::Muted);
    assert_eq!(banner_style(8), BannerStyle::Muted);
}

#[test]
fn terminal_size_defaults() {
    assert_eq!(size_or_default(None), (80, 24));
    assert_eq!(size_or_default(Some((120, 40))), (120, 40));
    assert_eq!(size_or_default(Some((0, 40))), (80, 24));
    assert_eq!(size_or_default(Some((120, 0))), (80, 24));
}

#[test]
fn status_report_rows() {
    let info = StatusInfo {
        model: "m".to_string(),
        api_base: "http://b".to_string(),
        max_tokens: "4096".to_string(),
        timeout: 30,
        streaming: false,
        message_count: 7,
        api_key_set: true,
    };
    let rows = status_rows(&info);
    let got: Vec<(String, String, bool)> =
        rows.into_iter().map(|r| (r.label, r.value, r.positive)).collect();
    let want = vec![
        ("Model:         ", "m", true),
        ("API Base:      ", "http://b", true),
        ("Max Tokens:    ", "4096", true),
        ("Timeout:       ", "30s", true),
        ("Streaming:     ", "Off", false),
        ("Messages:      ", "7", true),
        ("API Key:       ", "Set ✓", true),
    ];
    let want: Vec<(String, String, bool)> =
        want.into_iter().map(|(a, b, c)| (a.to_string(), b.to_string(), c)).collect();
    assert_eq!(got, want);
    let row = status_row("A very long label", "v", false);
    assert_eq!(row.label, "A very long label:");
}

#[test]
fn help_table_rows() {
    let rows = help_rows();
    assert_eq!(rows.len(), 7);
    assert_eq!(rows[0].command, "help        ");
    assert_eq!(rows[0].alias, ".help       ");
    assert_eq!(rows[0].description, "Show help information");
    assert_eq!(rows[6].command, format!("{:12}", "exit"));
    assert_eq!(rows[6].description, "Exit REPL");
}

#[test]
fn table_widths_take_the_widest_cell() {
    let rows = vec![
        vec!["a".to_string(), "bbbbbb".to_string(), "extra".to_string()],
        vec!["ééé".to_string()],
    ];
    let w = column_widths(&["id", "name"], &rows);
    assert_eq!(w, vec![6, 6]);
}

#[test]
fn table_layout_pads_cells() {
    assert!(table_layout(&["a"], &[]).is_none());
    let rows = vec![vec!["x".to_string(), "yy".to_string(), "z".to_string()]];
    let t = table_layout(&["col", "c"], &rows).expect("layout");
    assert_eq!(t.header, vec!["col".to_string(), "c ".to_string()]);
    assert_eq!(t.divider, vec!["───".to_string(), "──".to_string()]);
    assert_eq!(t.rows, vec![vec!["x  ".to_string(), "yy".to_string(), format!("{:10}", "z")]]);
}

#[test]
fn spinner_cycles_through_ten_frames() {
    assert_eq!(typing_frame(0), "⠋");
    assert_eq!(typing_frame(9), "⠏");
    assert_eq!(typing_frame(10), "⠋");
    assert_eq!(typing_frame(13), "⠸");
}

#[test]
fn typing_indicator_shows_twenty_frames() {
    let frames = typing_frames();
    assert_eq!(frames.len(), 20);
    assert_eq!(frames[0], "⠋");
    assert_eq!(frames[10], "⠋");
    assert_eq!(frames[19], "⠏");
}

#[test]
fn fixed_texts() {
    assert_eq!(help_title(), "📖 Available Commands");
    assert_eq!(help_tip(), ("💡 Tip:", "     Type any message to chat with Assistant"));
    assert_eq!(typing_label(), "Assistant is thinking");
    let lines: Vec<&str> = banner().lines().collect();
    assert_eq!(lines.len(), 9);
    assert_eq!(lines[0], "");
    assert!(lines[3].contains("Assistant Code"));
    assert_eq!(lines[8], "    ");
    assert_eq!(lines[3].chars().count(), 65);
    assert!(logo().contains("Assistant Code"));
}
