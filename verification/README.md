# claude_code (verified core)

The verified library behind an interactive terminal chat client.

- `src/text.rs`: character-level string operations (`trim`, `lines`, padding, repetition,
  decimal formatting, searching), each specified over `Seq<char>`, with laws such as
  idempotent trimming, line splitting that loses only line endings, and decimal output that
  reads back as its number.
- `src/ui.rs`: the layout rules of the terminal UI: inline markdown styling, classification
  of assistant message lines, code highlighting, the status and help tables, table column
  widths, the divider and the terminal size fallback.
- `src/state.rs`: settings and chat messages.
- `src/repl.rs`: command parsing, the conversation history, and how a chat exchange with the
  API changes it.
- `app/`: the program itself: terminal input and colored output, and the HTTP exchange
  with the chat API.
