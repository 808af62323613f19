//! Layout rules of the terminal UI: what each printed line holds and how it is styled.

use vstd::prelude::*;
use crate::text;
use crate::text::{chars_of, contains_char, contains_str, decimal, pad_right, push_char, repeat_str, starts_with, trim};

verus! {

/// The escape sequence that opens an inline code span (grey background, light text).
pub open spec fn code_on_seq() -> Seq<char> {
    "\x1b[48;5;238m\x1b[38;5;250m"@
}

/// The escape sequence that resets all styling.
pub open spec fn reset_seq() -> Seq<char> {
    "\x1b[0m"@
}

/// The escape sequence that turns on bold text.
pub open spec fn bold_on_seq() -> Seq<char> {
    "\x1b[1m"@
}

/// The escape sequence that turns on italic text.
pub open spec fn italic_on_seq() -> Seq<char> {
    "\x1b[3m"@
}

/// The escapes that turn the still-open styles back on after a reset.
pub open spec fn reopen_seq(bold: bool, italic: bool) -> Seq<char> {
    (if bold {
        bold_on_seq()
    } else {
        Seq::<char>::empty()
    }) + (if italic {
        italic_on_seq()
    } else {
        Seq::<char>::empty()
    })
}

/// Whether a single `*` outside code spans comes in `s`, read from the code-span state
/// `code`: backticks open and close code spans, and a `**` is a bold marker, not a star.
pub open spec fn star_ahead(s: Seq<char>, code: bool) -> bool
    decreases s.len(),
{
    if s.len() == 0 {
        false
    } else if s[0] == '`' {
        star_ahead(s.drop_first(), !code)
    } else if code {
        star_ahead(s.drop_first(), code)
    } else if s.len() >= 2 && s[0] == '*' && s[1] == '*' {
        star_ahead(s.skip(2), false)
    } else if s[0] == '*' {
        true
    } else {
        star_ahead(s.drop_first(), code)
    }
}

/// Whether `s` holds two stars.
pub open spec fn has_star_pair(s: Seq<char>) -> bool {
    exists|i: int, j: int| 0 <= i < j < s.len() && s[i] == '*' && s[j] == '*'
}

/// Inline markdown styling of `s`, read left to right with the styles open so far.
/// A backtick opens or closes a code span; inside a code span every other character is
/// kept as it is. Outside code spans, `**` opens or closes bold, and a single `*` closes
/// italic, or opens it when another single `*` follows outside code spans (an unpaired `*`
/// is kept as text). Each marker is replaced by the escape that opens its style, or by a reset
/// followed by the escapes of the styles that stay open. At the end of the line a reset
/// closes bold or italic when either is still open.
#[verifier::opaque]
pub open spec fn styled_from(s: Seq<char>, code: bool, bold: bool, italic: bool) -> Seq<char>
    decreases s.len(),
{
    if s.len() == 0 {
        if bold || italic {
            reset_seq()
        } else {
            Seq::<char>::empty()
        }
    } else if s[0] == '`' {
        if code {
            reset_seq() + reopen_seq(bold, italic) + styled_from(s.drop_first(), false, bold, italic)
        } else {
            code_on_seq() + styled_from(s.drop_first(), true, bold, italic)
        }
    } else if code {
        seq![s[0]] + styled_from(s.drop_first(), code, bold, italic)
    } else if s.len() >= 2 && s[0] == '*' && s[1] == '*' {
        if bold {
            reset_seq() + reopen_seq(false, italic) + styled_from(s.skip(2), false, false, italic)
        } else {
            bold_on_seq() + styled_from(s.skip(2), false, true, italic)
        }
    } else if s[0] == '*' {
        if italic {
            reset_seq() + reopen_seq(bold, false) + styled_from(s.drop_first(), false, bold, false)
        } else if star_ahead(s.drop_first(), false) {
            italic_on_seq() + styled_from(s.drop_first(), false, bold, true)
        } else {
            seq![s[0]] + styled_from(s.drop_first(), code, bold, italic)
        }
    } else {
        seq![s[0]] + styled_from(s.drop_first(), code, bold, italic)
    }
}

/// The inline markdown styling (code, bold, italic) of one line of text.
pub open spec fn inline_styled(s: Seq<char>) -> Seq<char> {
    styled_from(s, false, false, false)
}

proof fn lemma_no_star_ahead(t: Seq<char>)
    requires
        !t.contains('`'),
        !t.contains('*'),
    ensures
        !star_ahead(t, false),
    decreases t.len(),
{
    if t.len() > 0 {
        assert(t.contains(t[0]));
        assert(!t.drop_first().contains('`') && !t.drop_first().contains('*')) by {
            if t.drop_first().contains('`') || t.drop_first().contains('*') {
                let j = choose|j: int|
                    0 <= j < t.drop_first().len() && (t.drop_first()[j] == '`'
                        || t.drop_first()[j] == '*');
                assert(t[j + 1] == t.drop_first()[j]);
            }
        }
        lemma_no_star_ahead(t.drop_first());
    }
}

/// A line without backticks and with at most one star has no markup: styling leaves it
/// unchanged (a lone star is kept as text).
pub proof fn plain_text_is_unchanged(s: Seq<char>)
    requires
        !s.contains('`'),
        !has_star_pair(s),
    ensures
        inline_styled(s) == s,
    decreases s.len(),
{
    reveal(styled_from);
    if s.len() > 0 {
        let rest = s.drop_first();
        assert(s.contains(s[0]));
        assert(!rest.contains('`')) by {
            if rest.contains('`') {
                let j = choose|j: int| 0 <= j < rest.len() && rest[j] == '`';
                assert(s[j + 1] == '`');
            }
        }
        assert(!has_star_pair(rest)) by {
            if has_star_pair(rest) {
                let (i, j) = choose|i: int, j: int|
                    0 <= i < j < rest.len() && rest[i] == '*' && rest[j] == '*';
                assert(s[i + 1] == '*' && s[j + 1] == '*');
            }
        }
        if s[0] == '*' {
            assert(!rest.contains('*')) by {
                if rest.contains('*') {
                    let j = choose|j: int| 0 <= j < rest.len() && rest[j] == '*';
                    assert(s[j + 1] == '*');
                }
            }
            lemma_no_star_ahead(rest);
            if s.len() >= 2 {
                assert(s[1] == rest[0]);
                assert(rest.contains(rest[0]));
            }
        }
        plain_text_is_unchanged(rest);
        assert(s =~= seq![s[0]] + rest);
    }
}

fn append_reopen(r: &mut String, bold: bool, italic: bool)
    ensures
        final(r)@ == old(r)@ + reopen_seq(bold, italic),
{
    let ghost start = r@;
    if bold {
        r.append("\x1b[1m");
    }
    let ghost mid = r@;
    assert(mid == start + (if bold { bold_on_seq() } else { Seq::<char>::empty() }));
    if italic {
        r.append("\x1b[3m");
    }
    assert(r@ == mid + (if italic { italic_on_seq() } else { Seq::<char>::empty() }));
    assert(r@ =~= start + reopen_seq(bold, italic));
}

/// How many characters the first marker or character of `t` takes: two for a `**`
/// outside a code span, one otherwise.
spec fn step_len(t: Seq<char>, code: bool) -> int {
    if t[0] != '`' && !code && t.len() >= 2 && t[0] == '*' && t[1] == '*' {
        2
    } else {
        1
    }
}

/// The styles open after the first marker or character of `t`.
spec fn step_state(t: Seq<char>, code: bool, bold: bool, italic: bool) -> (bool, bool, bool) {
    if t[0] == '`' {
        (!code, bold, italic)
    } else if code {
        (code, bold, italic)
    } else if t.len() >= 2 && t[0] == '*' && t[1] == '*' {
        (false, !bold, italic)
    } else if t[0] == '*' {
        if italic || star_ahead(t.drop_first(), false) {
            (false, bold, !italic)
        } else {
            (code, bold, italic)
        }
    } else {
        (code, bold, italic)
    }
}

/// What the first marker or character of `t` becomes.
spec fn step_out(t: Seq<char>, code: bool, bold: bool, italic: bool) -> Seq<char> {
    if t[0] == '`' {
        if code {
            reset_seq() + reopen_seq(bold, italic)
        } else {
            code_on_seq()
        }
    } else if code {
        seq![t[0]]
    } else if t.len() >= 2 && t[0] == '*' && t[1] == '*' {
        if bold {
            reset_seq() + reopen_seq(false, italic)
        } else {
            bold_on_seq()
        }
    } else if t[0] == '*' {
        if italic {
            reset_seq() + reopen_seq(bold, false)
        } else if star_ahead(t.drop_first(), false) {
            italic_on_seq()
        } else {
            seq![t[0]]
        }
    } else {
        seq![t[0]]
    }
}

proof fn lemma_styled_step(t: Seq<char>, code: bool, bold: bool, italic: bool)
    requires
        t.len() > 0,
    ensures
        styled_from(t, code, bold, italic) == step_out(t, code, bold, italic) + styled_from(
            t.skip(step_len(t, code)),
            step_state(t, code, bold, italic).0,
            step_state(t, code, bold, italic).1,
            step_state(t, code, bold, italic).2,
        ),
{
    reveal(styled_from);
    assert(t.skip(1) =~= t.drop_first());
}

proof fn lemma_styled_end(code: bool, bold: bool, italic: bool)
    ensures
        styled_from(Seq::<char>::empty(), code, bold, italic) == if bold || italic {
            reset_seq()
        } else {
            Seq::<char>::empty()
        },
{
    reveal(styled_from);
}

/// Whether a single `*` outside code spans comes at or after position `start`.
fn star_follows(v: &Vec<char>, start: usize) -> (b: bool)
    requires
        start <= v@.len(),
    ensures
        b == star_ahead(v@.skip(start as int), false),
{
    let n = v.len();
    let mut j = start;
    let mut code = false;
    while j < n
        invariant
            start <= j <= n,
            n == v@.len(),
            star_ahead(v@.skip(start as int), false) == star_ahead(v@.skip(j as int), code),
        decreases n - j,
    {
        let ghost t = v@.skip(j as int);
        assert(t[0] == v@[j as int]);
        assert(t.len() >= 2 ==> t[1] == v@[j + 1]);
        assert(t.drop_first() =~= v@.skip(j + 1));
        let c = v[j];
        if c == '`' {
            code = !code;
            j = j + 1;
        } else if code {
            j = j + 1;
        } else if j + 1 < n && c == '*' && v[j + 1] == '*' {
            assert(t.skip(2) =~= v@.skip(j + 2));
            j = j + 2;
        } else if c == '*' {
            return true;
        } else {
            j = j + 1;
        }
    }
    assert(v@.skip(j as int) =~= Seq::<char>::empty());
    false
}

/// Styles the marker or character at position `i`: returns the position after it and the
/// styles then open.
fn style_step(v: &Vec<char>, i: usize, r: &mut String, code: bool, bold: bool, italic: bool) -> (res: (
    usize,
    bool,
    bool,
    bool,
))
    requires
        i < v@.len(),
    ensures
        i < res.0 <= v@.len(),
        final(r)@ + styled_from(v@.skip(res.0 as int), res.1, res.2, res.3) == old(r)@
            + styled_from(v@.skip(i as int), code, bold, italic),
{
    let ghost t = v@.skip(i as int);
    let ghost before = r@;
    proof {
        lemma_styled_step(t, code, bold, italic);
    }
    let n = v.len();
    let c = v[i];
    assert(t[0] == c);
    assert(t.len() >= 2 ==> t[1] == v@[i + 1]);
    assert(t.drop_first() =~= v@.skip(i + 1));
    let res = if c == '`' {
        if code {
            r.append("\x1b[0m");
            append_reopen(r, bold, italic);
            (i + 1, false, bold, italic)
        } else {
            r.append("\x1b[48;5;238m\x1b[38;5;250m");
            (i + 1, true, bold, italic)
        }
    } else if code {
        push_char(r, c);
        (i + 1, code, bold, italic)
    } else if i + 1 < n && c == '*' && v[i + 1] == '*' {
        if bold {
            r.append("\x1b[0m");
            append_reopen(r, false, italic);
            (i + 2, false, false, italic)
        } else {
            r.append("\x1b[1m");
            (i + 2, false, true, italic)
        }
    } else if c == '*' {
        if italic {
            r.append("\x1b[0m");
            append_reopen(r, bold, false);
            (i + 1, false, bold, false)
        } else if star_follows(v, i + 1) {
            r.append("\x1b[3m");
            (i + 1, false, bold, true)
        } else {
            push_char(r, c);
            (i + 1, code, bold, italic)
        }
    } else {
        push_char(r, c);
        (i + 1, code, bold, italic)
    };
    assert(r@ =~= before + step_out(t, code, bold, italic));
    assert(res.0 == i + step_len(t, code));
    assert((res.1, res.2, res.3) == step_state(t, code, bold, italic));
    assert(t.skip(step_len(t, code)) =~= v@.skip(res.0 as int));
    res
}

/// Applies the inline markdown styles of a line of assistant text: code spans between
/// backticks, bold between `**` pairs and italic between single stars.
pub fn format_inline_styles(text: &str) -> (r: String)
    ensures
        r@ == inline_styled(text@),
        !text@.contains('`') && !has_star_pair(text@) ==> r@ == text@,
{
    let v = chars_of(text);
    let n = v.len();
    let mut r = String::new();
    let mut code = false;
    let mut bold = false;
    let mut italic = false;
    let mut i: usize = 0;
    assert(text@.skip(0) =~= text@);
    assert(r@ + styled_from(text@.skip(0), false, false, false) == inline_styled(text@));
    while i < n
        invariant
            n == v@.len(),
            v@ == text@,
            i <= n,
            r@ + styled_from(text@.skip(i as int), code, bold, italic) == inline_styled(text@),
        decreases n - i,
    {
        let (next, c2, b2, it2) = style_step(&v, i, &mut r, code, bold, italic);
        i = next;
        code = c2;
        bold = b2;
        italic = it2;
    }
    assert(text@.skip(i as int) =~= Seq::<char>::empty());
    let ghost before = r@;
    if bold || italic {
        r.append("\x1b[0m");
    }
    proof {
        lemma_styled_end(code, bold, italic);
    }
    assert(r@ =~= before + styled_from(Seq::<char>::empty(), code, bold, italic));
    proof {
        if !text@.contains('`') && !has_star_pair(text@) {
            plain_text_is_unchanged(text@);
        }
    }
    r
}

proof fn lemma_styled_prefix(x: Seq<char>, y: Seq<char>, code: bool, bold: bool, italic: bool)
    requires
        !x.contains('`'),
        code || !x.contains('*'),
    ensures
        styled_from(x + y, code, bold, italic) == x + styled_from(y, code, bold, italic),
    decreases x.len(),
{
    if x.len() > 0 {
        reveal(styled_from);
        assert(x.contains(x[0]));
        let rest = x.drop_first();
        assert(!rest.contains('`') && (code || !rest.contains('*'))) by {
            if rest.contains('`') || (!code && rest.contains('*')) {
                let j = choose|j: int|
                    0 <= j < rest.len() && (rest[j] == '`' || (!code && rest[j] == '*'));
                assert(x[j + 1] == rest[j]);
            }
        }
        assert((x + y)[0] == x[0]);
        assert((x + y).drop_first() =~= rest + y);
        lemma_styled_prefix(rest, y, code, bold, italic);
        assert(x =~= seq![x[0]] + rest);
    } else {
        assert(x + y =~= y);
    }
}

proof fn lemma_star_ahead_prefix(x: Seq<char>, y: Seq<char>)
    requires
        !x.contains('`'),
        !x.contains('*'),
    ensures
        star_ahead(x + y, false) == star_ahead(y, false),
    decreases x.len(),
{
    if x.len() > 0 {
        assert(x.contains(x[0]));
        let rest = x.drop_first();
        assert(!rest.contains('`') && !rest.contains('*')) by {
            if rest.contains('`') || rest.contains('*') {
                let j = choose|j: int| 0 <= j < rest.len() && (rest[j] == '`' || rest[j] == '*');
                assert(x[j + 1] == rest[j]);
            }
        }
        assert((x + y)[0] == x[0]);
        assert((x + y).drop_first() =~= rest + y);
        lemma_star_ahead_prefix(rest, y);
    } else {
        assert(x + y =~= y);
    }
}

/// Code spans: in a line that starts with unstyled text `p`, the first backtick opens a
/// code span and the next backtick closes it; the text between them is kept exactly
/// (stars included), and styling goes on afresh after the span.
pub proof fn backticks_delimit_code_spans(p: Seq<char>, q: Seq<char>, rest: Seq<char>)
    requires
        !p.contains('`'),
        !p.contains('*'),
        !q.contains('`'),
    ensures
        inline_styled(p + seq!['`'] + q + seq!['`'] + rest) == p + code_on_seq() + q + reset_seq()
            + inline_styled(rest),
{
    reveal(styled_from);
    let a = seq!['`'] + q + seq!['`'] + rest;
    let b = seq!['`'] + rest;
    assert(p + seq!['`'] + q + seq!['`'] + rest =~= p + a);
    lemma_styled_prefix(p, a, false, false, false);
    assert(a.drop_first() =~= q + b);
    lemma_styled_prefix(q, b, true, false, false);
    assert(b.drop_first() =~= rest);
    assert(reopen_seq(false, false) =~= Seq::<char>::empty());
    assert(p + (code_on_seq() + (q + (reset_seq() + reopen_seq(false, false) + styled_from(
        rest,
        false,
        false,
        false,
    )))) =~= p + code_on_seq() + q + reset_seq() + inline_styled(rest));
}

/// Bold spans: in a line that starts with unstyled text `p`, a `**` opens bold and the
/// next `**` closes it; each pair makes its own span, and styling goes on afresh after it.
pub proof fn double_stars_delimit_bold_spans(p: Seq<char>, q: Seq<char>, rest: Seq<char>)
    requires
        !p.contains('`'),
        !p.contains('*'),
        !q.contains('`'),
        !q.contains('*'),
    ensures
        inline_styled(p + seq!['*', '*'] + q + seq!['*', '*'] + rest) == p + bold_on_seq() + q
            + reset_seq() + inline_styled(rest),
{
    reveal(styled_from);
    let a = seq!['*', '*'] + q + seq!['*', '*'] + rest;
    let b = seq!['*', '*'] + rest;
    assert(p + seq!['*', '*'] + q + seq!['*', '*'] + rest =~= p + a);
    lemma_styled_prefix(p, a, false, false, false);
    assert(a.skip(2) =~= q + b);
    lemma_styled_prefix(q, b, false, true, false);
    assert(b.skip(2) =~= rest);
    assert(reopen_seq(false, false) =~= Seq::<char>::empty());
    assert(p + (bold_on_seq() + (q + (reset_seq() + reopen_seq(false, false) + styled_from(
        rest,
        false,
        false,
        false,
    )))) =~= p + bold_on_seq() + q + reset_seq() + inline_styled(rest));
}

/// Italic spans: in a line that starts with unstyled text `p`, a single `*` followed by
/// unstyled text `q` and another single `*` makes an italic span.
pub proof fn single_stars_delimit_italic_spans(p: Seq<char>, q: Seq<char>, rest: Seq<char>)
    requires
        !p.contains('`'),
        !p.contains('*'),
        !q.contains('`'),
        !q.contains('*'),
        q.len() > 0,
        rest.len() == 0 || rest[0] != '*',
    ensures
        inline_styled(p + seq!['*'] + q + seq!['*'] + rest) == p + italic_on_seq() + q
            + reset_seq() + inline_styled(rest),
{
    reveal(styled_from);
    let a = seq!['*'] + q + seq!['*'] + rest;
    let b = seq!['*'] + rest;
    assert(p + seq!['*'] + q + seq!['*'] + rest =~= p + a);
    lemma_styled_prefix(p, a, false, false, false);
    assert(a.drop_first() =~= q + b);
    assert(q.contains(q[0]));
    assert(a[1] == q[0]);
    lemma_star_ahead_prefix(q, b);
    assert(b.drop_first() =~= rest);
    assert(star_ahead(b, false));
    lemma_styled_prefix(q, b, false, false, true);
    assert(reopen_seq(false, false) =~= Seq::<char>::empty());
    assert(p + (italic_on_seq() + (q + (reset_seq() + reopen_seq(false, false) + styled_from(
        rest,
        false,
        false,
        false,
    )))) =~= p + italic_on_seq() + q + reset_seq() + inline_styled(rest));
}

proof fn lemma_concat_no_backtick(a: Seq<char>, b: Seq<char>)
    requires
        !a.contains('`'),
        !b.contains('`'),
    ensures
        !(a + b).contains('`'),
{
    if (a + b).contains('`') {
        let j = choose|j: int| 0 <= j < (a + b).len() && (a + b)[j] == '`';
        if j < a.len() {
            assert(a[j] == '`');
        } else {
            assert(b[j - a.len()] == '`');
        }
    }
}

proof fn lemma_escapes_have_no_backtick(bold: bool, italic: bool)
    ensures
        !code_on_seq().contains('`'),
        !reset_seq().contains('`'),
        !bold_on_seq().contains('`'),
        !italic_on_seq().contains('`'),
        !reopen_seq(bold, italic).contains('`'),
        !(reset_seq() + reopen_seq(bold, italic)).contains('`'),
{
    reveal_strlit("\x1b[48;5;238m\x1b[38;5;250m");
    reveal_strlit("\x1b[0m");
    reveal_strlit("\x1b[1m");
    reveal_strlit("\x1b[3m");
    assert(!Seq::<char>::empty().contains('`'));
    lemma_concat_no_backtick(
        if bold { bold_on_seq() } else { Seq::<char>::empty() },
        if italic { italic_on_seq() } else { Seq::<char>::empty() },
    );
    lemma_concat_no_backtick(reset_seq(), reopen_seq(bold, italic));
}

proof fn lemma_styled_has_no_backtick(s: Seq<char>, code: bool, bold: bool, italic: bool)
    ensures
        !styled_from(s, code, bold, italic).contains('`'),
    decreases s.len(),
{
    lemma_escapes_have_no_backtick(bold, italic);
    lemma_escapes_have_no_backtick(false, italic);
    lemma_escapes_have_no_backtick(bold, false);
    if s.len() == 0 {
        reveal(styled_from);
        assert(!Seq::<char>::empty().contains('`'));
    } else {
        lemma_styled_step(s, code, bold, italic);
        let k = step_len(s, code);
        let st = step_state(s, code, bold, italic);
        lemma_styled_has_no_backtick(s.skip(k), st.0, st.1, st.2);
        let o = step_out(s, code, bold, italic);
        if s[0] != '`' {
            assert(!seq![s[0]].contains('`')) by {
                if seq![s[0]].contains('`') {
                    let j = choose|j: int| 0 <= j < seq![s[0]].len() && seq![s[0]][j] == '`';
                }
            }
        }
        assert(!o.contains('`'));
        lemma_concat_no_backtick(o, styled_from(s.skip(k), st.0, st.1, st.2));
    }
}

/// Every backtick is markup: the styled line never holds a backtick.
pub proof fn styled_text_has_no_backtick(s: Seq<char>)
    ensures
        !inline_styled(s).contains('`'),
{
    lemma_styled_has_no_backtick(s, false, false, false);
}

/// How a markdown header is styled, by its level.
#[derive(PartialEq, Eq, Structural, Clone, Copy, Debug)]
pub enum HeaderStyle {
    /// Level 1: orange, bold, underlined.
    Title,
    /// Level 2: light purple, bold.
    Section,
    /// Deeper levels: bright white, bold.
    Minor,
}

/// How one line of an assistant message is shown.
pub enum AssistantLine {
    /// A code fence, replaced by a grey rule line (the text given here).
    Fence(String),
    /// A markdown header, with its style and its text.
    Header(HeaderStyle, String),
    /// A list item, shown with a purple bullet before the given text.
    Bullet(String),
    /// A block quote, shown behind a purple bar in dim text.
    Quote(String),
    /// Ordinary text, with its inline styles applied.
    Text(String),
}

/// Whether a line opens or closes a code fence.
pub open spec fn is_fence(l: Seq<char>) -> bool {
    l.len() >= 3 && l[0] == '`' && l[1] == '`' && l[2] == '`'
}

/// The rule line shown for a code fence: it names the language when one follows the fence.
pub open spec fn fence_text(l: Seq<char>) -> Seq<char> {
    if l.len() > 3 {
        "───── "@ + l.skip(3) + " ─────"@
    } else {
        "─────────────────────"@
    }
}

/// The number of `'#'` characters at the start of `l`.
pub open spec fn leading_hashes(l: Seq<char>) -> nat
    decreases l.len(),
{
    if l.len() > 0 && l[0] == '#' {
        1 + leading_hashes(l.drop_first())
    } else {
        0
    }
}

/// The style of a header of the given level.
pub open spec fn header_style_of(level: nat) -> HeaderStyle {
    if level == 1 {
        HeaderStyle::Title
    } else if level == 2 {
        HeaderStyle::Section
    } else {
        HeaderStyle::Minor
    }
}

/// Whether `r` is how the assistant line `l` is shown: fences first, then headers, list
/// items (`-` or `*`), quotes (`>`), and inline-styled text.
pub open spec fn assistant_line_is(l: Seq<char>, r: AssistantLine) -> bool {
    if is_fence(l) {
        r matches AssistantLine::Fence(t) && t@ == fence_text(l)
    } else if l.len() > 0 && l[0] == '#' {
        r matches AssistantLine::Header(st, t) && st == header_style_of(leading_hashes(l))
            && t@ == text::trim_seq(l.skip(leading_hashes(l) as int))
    } else if l.len() > 0 && (l[0] == '-' || l[0] == '*') {
        r matches AssistantLine::Bullet(t) && t@ == text::trim_seq(l.drop_first())
    } else if l.len() > 0 && l[0] == '>' {
        r matches AssistantLine::Quote(t) && t@ == text::trim_seq(l.drop_first())
    } else {
        r matches AssistantLine::Text(t) && t@ == inline_styled(l)
    }
}

proof fn lemma_leading_hashes(l: Seq<char>, k: int)
    requires
        0 <= k <= l.len(),
        forall|j: int| 0 <= j < k ==> l[j] == '#',
        k < l.len() ==> l[k] != '#',
    ensures
        leading_hashes(l) == k,
    decreases k,
{
    if k > 0 {
        lemma_leading_hashes(l.drop_first(), k - 1);
    }
}

/// Classifies one line of an assistant message and prepares its text.
pub fn classify_assistant_line(line: &str) -> (r: AssistantLine)
    ensures
        assistant_line_is(line@, r),
{
    let v = chars_of(line);
    let n = v.len();
    if n >= 3 && v[0] == '`' && v[1] == '`' && v[2] == '`' {
        if n > 3 {
            let mut t = "───── ".to_owned();
            t.append(line.substring_char(3, n));
            t.append(" ─────");
            AssistantLine::Fence(t)
        } else {
            AssistantLine::Fence("─────────────────────".to_owned())
        }
    } else if n > 0 && v[0] == '#' {
        let mut k: usize = 0;
        while k < n && v[k] == '#'
            invariant
                k <= n,
                n == v@.len(),
                v@ == line@,
                forall|j: int| 0 <= j < k ==> line@[j] == '#',
            decreases n - k,
        {
            k = k + 1;
        }
        proof {
            lemma_leading_hashes(line@, k as int);
        }
        let style = if k == 1 {
            HeaderStyle::Title
        } else if k == 2 {
            HeaderStyle::Section
        } else {
            HeaderStyle::Minor
        };
        let rest = line.substring_char(k, n);
        assert(rest@ =~= line@.skip(k as int));
        AssistantLine::Header(style, trim(rest).to_owned())
    } else if n > 0 && (v[0] == '-' || v[0] == '*') {
        let rest = line.substring_char(1, n);
        assert(rest@ =~= line@.drop_first());
        AssistantLine::Bullet(trim(rest).to_owned())
    } else if n > 0 && v[0] == '>' {
        let rest = line.substring_char(1, n);
        assert(rest@ =~= line@.drop_first());
        AssistantLine::Quote(trim(rest).to_owned())
    } else {
        AssistantLine::Text(format_inline_styles(line))
    }
}

/// Header levels: a line starting with exactly one `#` is a title, with exactly two a
/// section, and with three or more a minor header.
pub proof fn header_levels(l: Seq<char>, r: AssistantLine)
    requires
        assistant_line_is(l, r),
        l.len() > 0,
        l[0] == '#',
    ensures
        r matches AssistantLine::Header(st, _) && {
            &&& (st == HeaderStyle::Title <==> (l.len() == 1 || l[1] != '#'))
            &&& (st == HeaderStyle::Section <==> (l.len() >= 2 && l[1] == '#' && (l.len() == 2
                || l[2] != '#')))
            &&& (st == HeaderStyle::Minor <==> (l.len() >= 3 && l[1] == '#' && l[2] == '#'))
        },
{
    let t1 = l.drop_first();
    assert(leading_hashes(l) == 1 + leading_hashes(t1));
    if t1.len() > 0 && t1[0] == '#' {
        let t2 = t1.drop_first();
        assert(leading_hashes(t1) == 1 + leading_hashes(t2));
        if t2.len() > 0 && t2[0] == '#' {
            assert(leading_hashes(t2) == 1 + leading_hashes(t2.drop_first()));
        }
    }
}

/// The lines of an assistant message, each classified for display.
pub fn render_assistant_message(content: &str) -> (r: Vec<AssistantLine>)
    ensures
        r@.len() == text::lines_seq(content@).len(),
        forall|i: int| 0 <= i < r@.len() ==> assistant_line_is(text::lines_seq(content@)[i], #[trigger] r@[i]),
{
    let ls = text::lines(content);
    let mut r: Vec<AssistantLine> = Vec::new();
    let mut i: usize = 0;
    while i < ls.len()
        invariant
            i <= ls@.len(),
            ls@.len() == text::lines_seq(content@).len(),
            forall|j: int| 0 <= j < ls@.len() ==> #[trigger] ls@[j]@ == text::lines_seq(content@)[j],
            r@.len() == i,
            forall|j: int| 0 <= j < i ==> assistant_line_is(text::lines_seq(content@)[j], #[trigger] r@[j]),
        decreases ls.len() - i,
    {
        let c = classify_assistant_line(ls[i]);
        assert(ls@[i as int]@ == text::lines_seq(content@)[i as int]);
        r.push(c);
        i = i + 1;
    }
    r
}


/// How a line of a code block is tinted.
#[derive(PartialEq, Eq, Structural, Clone, Copy, Debug)]
pub enum CodeStyle {
    /// Purple: the line holds a keyword.
    Keyword,
    /// Green: the line holds a quote character.
    Literal,
    /// Grey: the line is a comment.
    Comment,
    /// No tint.
    Plain,
}

/// The keywords that tint a code line.
pub open spec fn code_keywords() -> Seq<Seq<char>> {
    seq![
        "fn"@,
        "let"@,
        "mut"@,
        "use"@,
        "pub"@,
        "struct"@,
        "impl"@,
        "if"@,
        "else"@,
        "return"@,
        "match"@,
    ]
}

/// Whether keyword `kw` marks line `l`: the trimmed line starts with it, or it stands
/// between two spaces.
pub open spec fn keyword_marks(l: Seq<char>, kw: Seq<char>) -> bool {
    text::starts_with_seq(text::trim_seq(l), kw) || text::contains_seq(l, " "@ + kw + " "@)
}

/// The tint of a code line: keywords first, then string or char literals, then comments.
pub open spec fn code_style_of(l: Seq<char>) -> CodeStyle {
    if exists|i: int| 0 <= i < code_keywords().len() && keyword_marks(l, #[trigger] code_keywords()[i]) {
        CodeStyle::Keyword
    } else if l.contains('"') || l.contains('\'') {
        CodeStyle::Literal
    } else if text::starts_with_seq(text::trim_seq(l), "//"@) || text::starts_with_seq(
        text::trim_seq(l),
        "#"@,
    ) {
        CodeStyle::Comment
    } else {
        CodeStyle::Plain
    }
}

/// Whether `k` is one of the words that tint a code line as a keyword.
pub open spec fn is_code_keyword(k: Seq<char>) -> bool {
    ||| k == "fn"@
    ||| k == "let"@
    ||| k == "mut"@
    ||| k == "use"@
    ||| k == "pub"@
    ||| k == "struct"@
    ||| k == "impl"@
    ||| k == "if"@
    ||| k == "else"@
    ||| k == "return"@
    ||| k == "match"@
}

/// Keywords win: a line whose trimmed text starts with a keyword, or that holds a keyword
/// between two spaces, is tinted as a keyword whatever else it holds (quotes included).
pub proof fn keyword_lines_are_keywords(l: Seq<char>, k: Seq<char>)
    requires
        is_code_keyword(k),
        text::starts_with_seq(text::trim_seq(l), k) || text::contains_seq(l, " "@ + k + " "@),
    ensures
        code_style_of(l) == CodeStyle::Keyword,
{
    let kws = code_keywords();
    let i: int = if k == "fn"@ { 0 }
        else if k == "let"@ { 1 }
        else if k == "mut"@ { 2 }
        else if k == "use"@ { 3 }
        else if k == "pub"@ { 4 }
        else if k == "struct"@ { 5 }
        else if k == "impl"@ { 6 }
        else if k == "if"@ { 7 }
        else if k == "else"@ { 8 }
        else if k == "return"@ { 9 }
        else { 10 };
    assert(kws[i] == k);
    assert(keyword_marks(l, kws[i]));
}

/// What each tint means: a keyword tint needs a keyword mark; a literal tint needs a quote
/// and no keyword mark; a comment tint needs a trimmed line starting with `//` or `#`, no
/// quote and no keyword mark; a plain line has none of these.
pub proof fn code_tints_have_their_reasons(l: Seq<char>)
    ensures
        code_style_of(l) == CodeStyle::Keyword <==> exists|k: Seq<char>|
            is_code_keyword(k) && (text::starts_with_seq(text::trim_seq(l), k)
                || text::contains_seq(l, " "@ + k + " "@)),
        code_style_of(l) == CodeStyle::Literal ==> l.contains('"') || l.contains('\''),
        code_style_of(l) == CodeStyle::Comment ==> !l.contains('"') && !l.contains('\'') && (
        text::starts_with_seq(text::trim_seq(l), "//"@) || text::starts_with_seq(
            text::trim_seq(l),
            "#"@,
        )),
        code_style_of(l) == CodeStyle::Plain ==> !l.contains('"') && !l.contains('\''),
{
    let kws = code_keywords();
    if code_style_of(l) == CodeStyle::Keyword {
        let i = choose|i: int| 0 <= i < kws.len() && keyword_marks(l, #[trigger] kws[i]);
        assert(is_code_keyword(kws[i]));
        assert(is_code_keyword(kws[i]) && (text::starts_with_seq(text::trim_seq(l), kws[i])
            || text::contains_seq(l, " "@ + kws[i] + " "@)));
    }
    if exists|k: Seq<char>|
        is_code_keyword(k) && (text::starts_with_seq(text::trim_seq(l), k) || text::contains_seq(
            l,
            " "@ + k + " "@,
        )) {
        let k = choose|k: Seq<char>|
            is_code_keyword(k) && (text::starts_with_seq(text::trim_seq(l), k)
                || text::contains_seq(l, " "@ + k + " "@));
        keyword_lines_are_keywords(l, k);
    }
}

fn code_keyword(i: usize) -> (k: &'static str)
    requires
        i < 11,
    ensures
        k@ == code_keywords()[i as int],
{
    if i == 0 { "fn" }
    else if i == 1 { "let" }
    else if i == 2 { "mut" }
    else if i == 3 { "use" }
    else if i == 4 { "pub" }
    else if i == 5 { "struct" }
    else if i == 6 { "impl" }
    else if i == 7 { "if" }
    else if i == 8 { "else" }
    else if i == 9 { "return" }
    else { "match" }
}

/// The tint of one line of a code block.
pub fn highlight_code_line(line: &str) -> (r: CodeStyle)
    ensures
        r == code_style_of(line@),
{
    let trimmed = trim(line);
    let mut i: usize = 0;
    while i < 11
        invariant
            i <= 11,
            code_keywords().len() == 11,
            trimmed@ == text::trim_seq(line@),
            forall|j: int| 0 <= j < i ==> !keyword_marks(line@, #[trigger] code_keywords()[j]),
        decreases 11 - i,
    {
        let kw = code_keyword(i);
        let mut pattern = " ".to_owned();
        pattern.append(kw);
        pattern.append(" ");
        if starts_with(trimmed, kw) || contains_str(line, pattern.as_str()) {
            assert(keyword_marks(line@, code_keywords()[i as int]));
            return CodeStyle::Keyword;
        }
        i = i + 1;
    }
    if contains_char(line, '"') || contains_char(line, '\'') {
        CodeStyle::Literal
    } else if starts_with(trimmed, "//") || starts_with(trimmed, "#") {
        CodeStyle::Comment
    } else {
        CodeStyle::Plain
    }
}

/// The rule line above a code block, naming its language (empty when none is given).
pub fn code_block_header(language: Option<&str>) -> (r: String)
    ensures
        r@ == "───── "@ + (match language {
            Some(l) => l@,
            None => Seq::<char>::empty(),
        }) + " ─────"@,
{
    let mut r = "───── ".to_owned();
    match language {
        Some(l) => r.append(l),
        None => {},
    }
    r.append(" ─────");
    r
}

/// The rule line below a code block.
pub fn code_block_footer() -> (r: String)
    ensures
        r@ == "─────────────────────"@,
{
    "─────────────────────".to_owned()
}

/// The divider line: `─` repeated across the terminal, at most 70 columns.
pub fn divider(columns: u16) -> (r: String)
    ensures
        r@ == text::repeat_seq("─"@, if columns < 70 { columns as nat } else { 70 }),
        r@.len() == if columns < 70 { columns as nat } else { 70 },
{
    proof {
        reveal_strlit("─");
        text::repeat_single_len("─"@, if columns < 70 { columns as nat } else { 70 });
    }
    let width: u16 = if columns < 70 { columns } else { 70 };
    repeat_str("─", width as usize)
}

/// How a line of the welcome banner is coloured.
#[derive(PartialEq, Eq, Structural, Clone, Copy, Debug)]
pub enum BannerStyle {
    /// Bright purple, bold.
    Frame,
    /// Light purple, bold.
    Title,
    /// Orange.
    Tagline,
    /// Grey.
    Muted,
}

/// The colour of banner line number `index` (counting from 0).
pub fn banner_style(index: usize) -> (r: BannerStyle)
    ensures
        r == (if index == 0 || index == 7 {
            BannerStyle::Frame
        } else if index == 3 {
            BannerStyle::Title
        } else if index == 5 {
            BannerStyle::Tagline
        } else {
            BannerStyle::Muted
        }),
{
    if index == 0 || index == 7 {
        BannerStyle::Frame
    } else if index == 3 {
        BannerStyle::Title
    } else if index == 5 {
        BannerStyle::Tagline
    } else {
        BannerStyle::Muted
    }
}


/// Status information shown by the `status` command.
pub struct StatusInfo {
    pub model: String,
    pub api_base: String,
    pub max_tokens: String,
    pub timeout: u64,
    pub streaming: bool,
    pub message_count: usize,
    pub api_key_set: bool,
}

/// One row of the status report: its padded label, its value, and whether the value is
/// shown as good (green) or bad (red).
pub struct StatusRow {
    pub label: String,
    pub value: String,
    pub positive: bool,
}

/// The label column of a status row: the label and a colon, in a field of 15 characters.
pub open spec fn status_label(label: Seq<char>) -> Seq<char> {
    text::pad_seq(label + ":"@, 15)
}

/// Whether `r` is the status row for `label`, `value` and `positive`.
pub open spec fn row_is(r: StatusRow, label: Seq<char>, value: Seq<char>, positive: bool) -> bool {
    r.label@ == status_label(label) && r.value@ == value && r.positive == positive
}

/// Lays out one row of the status report.
pub fn status_row(label: &str, value: &str, positive: bool) -> (r: StatusRow)
    ensures
        row_is(r, label@, value@, positive),
{
    let mut l = label.to_owned();
    l.append(":");
    StatusRow { label: pad_right(l.as_str(), 15), value: value.to_owned(), positive }
}

/// The rows of the status report, in order: model, API base, max tokens, timeout,
/// streaming, message count and whether an API key is set.
pub fn status_rows(status: &StatusInfo) -> (r: Vec<StatusRow>)
    ensures
        r@.len() == 7,
        row_is(r@[0], "Model"@, status.model@, true),
        row_is(r@[1], "API Base"@, status.api_base@, true),
        row_is(r@[2], "Max Tokens"@, status.max_tokens@, true),
        row_is(r@[3], "Timeout"@, text::decimal_seq(status.timeout as nat) + "s"@, true),
        row_is(
            r@[4],
            "Streaming"@,
            if status.streaming { "On"@ } else { "Off"@ },
            status.streaming,
        ),
        row_is(r@[5], "Messages"@, text::decimal_seq(status.message_count as nat), true),
        row_is(
            r@[6],
            "API Key"@,
            if status.api_key_set { "Set ✓"@ } else { "Not Set ✗"@ },
            status.api_key_set,
        ),
{
    let mut r: Vec<StatusRow> = Vec::new();
    r.push(status_row("Model", status.model.as_str(), true));
    r.push(status_row("API Base", status.api_base.as_str(), true));
    r.push(status_row("Max Tokens", status.max_tokens.as_str(), true));
    let mut timeout = decimal(status.timeout);
    timeout.append("s");
    r.push(status_row("Timeout", timeout.as_str(), true));
    let streaming = if status.streaming { "On" } else { "Off" };
    r.push(status_row("Streaming", streaming, status.streaming));
    let count = decimal(status.message_count as u64);
    r.push(status_row("Messages", count.as_str(), true));
    let key = if status.api_key_set { "Set ✓" } else { "Not Set ✗" };
    r.push(status_row("API Key", key, status.api_key_set));
    r
}

/// One row of the help table: command and alias, each in a field of 12 characters,
/// and what the command does.
pub struct HelpRow {
    pub command: String,
    pub alias: String,
    pub description: String,
}

/// The commands listed by `help`: name, alias and description.
pub open spec fn help_entries() -> Seq<(Seq<char>, Seq<char>, Seq<char>)> {
    seq![
        ("help"@, ".help"@, "Show help information"@),
        ("status"@, ".status"@, "Show current status"@),
        ("config"@, ".config"@, "Show configuration"@),
        ("history"@, ".history"@, "Show conversation history"@),
        ("reset"@, ".reset"@, "Reset conversation"@),
        ("clear"@, ".clear"@, "Clear screen"@),
        ("exit"@, ".exit"@, "Exit REPL"@),
    ]
}

fn help_entry(i: usize) -> (r: (&'static str, &'static str, &'static str))
    requires
        i < 7,
    ensures
        (r.0@, r.1@, r.2@) == help_entries()[i as int],
{
    if i == 0 { ("help", ".help", "Show help information") }
    else if i == 1 { ("status", ".status", "Show current status") }
    else if i == 2 { ("config", ".config", "Show configuration") }
    else if i == 3 { ("history", ".history", "Show conversation history") }
    else if i == 4 { ("reset", ".reset", "Reset conversation") }
    else if i == 5 { ("clear", ".clear", "Clear screen") }
    else { ("exit", ".exit", "Exit REPL") }
}

/// The rows of the help table, one per command, in the order of `help_entries`.
pub fn help_rows() -> (r: Vec<HelpRow>)
    ensures
        r@.len() == help_entries().len(),
        forall|i: int|
            0 <= i < r@.len() ==> {
                &&& (#[trigger] r@[i]).command@ == text::pad_seq(help_entries()[i].0, 12)
                &&& r@[i].alias@ == text::pad_seq(help_entries()[i].1, 12)
                &&& r@[i].description@ == help_entries()[i].2
            },
{
    let mut r: Vec<HelpRow> = Vec::new();
    let mut i: usize = 0;
    while i < 7
        invariant
            i <= 7,
            help_entries().len() == 7,
            r@.len() == i,
            forall|j: int|
                0 <= j < i ==> {
                    &&& (#[trigger] r@[j]).command@ == text::pad_seq(help_entries()[j].0, 12)
                    &&& r@[j].alias@ == text::pad_seq(help_entries()[j].1, 12)
                    &&& r@[j].description@ == help_entries()[j].2
                },
        decreases 7 - i,
    {
        let (cmd, alias, desc) = help_entry(i);
        r.push(
            HelpRow {
                command: pad_right(cmd, 12),
                alias: pad_right(alias, 12),
                description: desc.to_owned(),
            },
        );
        i = i + 1;
    }
    r
}


/// The header cells as character sequences.
pub open spec fn header_view(headers: Seq<&str>) -> Seq<Seq<char>> {
    headers.map_values(|h: &str| h@)
}

/// The table cells as character sequences, row by row.
pub open spec fn cells_view(rows: Seq<Vec<String>>) -> Seq<Seq<Seq<char>>> {
    rows.map_values(|r: Vec<String>| r@.map_values(|c: String| c@))
}

/// The width of column `i`: the largest byte length among its header and its cells
/// (a row with fewer cells contributes nothing).
pub open spec fn column_width(headers: Seq<Seq<char>>, rows: Seq<Seq<Seq<char>>>, i: int) -> usize
    decreases rows.len(),
{
    if rows.len() == 0 {
        text::byte_len(headers[i])
    } else {
        let w = column_width(headers, rows.drop_last(), i);
        let last = rows.last();
        if i < last.len() && text::byte_len(last[i]) > w {
            text::byte_len(last[i])
        } else {
            w
        }
    }
}

/// Every header and every cell of a column fits in its width.
pub proof fn column_width_fits(headers: Seq<Seq<char>>, rows: Seq<Seq<Seq<char>>>, i: int)
    ensures
        text::byte_len(headers[i]) <= column_width(headers, rows, i),
        forall|r: int|
            0 <= r < rows.len() && 0 <= i < rows[r].len() ==> text::byte_len(#[trigger] rows[r][i])
                <= column_width(headers, rows, i),
    decreases rows.len(),
{
    if rows.len() > 0 {
        column_width_fits(headers, rows.drop_last(), i);
        assert forall|r: int|
            0 <= r < rows.len() && 0 <= i < rows[r].len() implies text::byte_len(
            #[trigger] rows[r][i],
        ) <= column_width(headers, rows, i) by {
            if r < rows.len() - 1 {
                assert(rows.drop_last()[r] == rows[r]);
            }
        }
    }
}

/// A column's width is the byte length of its header or of one of its cells.
pub proof fn column_width_attained(headers: Seq<Seq<char>>, rows: Seq<Seq<Seq<char>>>, i: int)
    requires
        0 <= i < headers.len(),
    ensures
        column_width(headers, rows, i) == text::byte_len(headers[i]) || exists|r: int|
            0 <= r < rows.len() && 0 <= i < rows[r].len() && column_width(headers, rows, i)
                == text::byte_len(#[trigger] rows[r][i]),
    decreases rows.len(),
{
    if rows.len() > 0 {
        column_width_attained(headers, rows.drop_last(), i);
        let w = column_width(headers, rows.drop_last(), i);
        if column_width(headers, rows, i) == w {
            if w != text::byte_len(headers[i]) {
                let r = choose|r: int|
                    0 <= r < rows.drop_last().len() && 0 <= i < rows.drop_last()[r].len() && w
                        == text::byte_len(#[trigger] rows.drop_last()[r][i]);
                assert(rows.drop_last()[r] == rows[r]);
                assert(rows[r][i] == rows.drop_last()[r][i]);
            }
        } else {
            assert(rows[rows.len() - 1] == rows.last());
            assert(column_width(headers, rows, i) == text::byte_len(rows[rows.len() - 1][i]));
        }
    }
}

/// The column widths of a table: for each header, the largest byte length among the
/// header and the cells below it.
pub fn column_widths(headers: &[&str], rows: &[Vec<String>]) -> (w: Vec<usize>)
    ensures
        w@.len() == headers@.len(),
        forall|i: int|
            0 <= i < w@.len() ==> #[trigger] w@[i] == column_width(
                header_view(headers@),
                cells_view(rows@),
                i,
            ),
        forall|i: int|
            0 <= i < w@.len() ==> text::byte_len(headers@[i]@) <= #[trigger] w@[i],
        forall|i: int|
            0 <= i < w@.len() ==> #[trigger] w@[i] == text::byte_len(headers@[i]@) || exists|r: int|
                0 <= r < rows@.len() && 0 <= i < rows@[r]@.len() && w@[i] == text::byte_len(
                    #[trigger] rows@[r]@[i]@,
                ),
        forall|r: int, i: int|
            #![trigger rows@[r]@[i], w@[i]]
            0 <= r < rows@.len() && 0 <= i < rows@[r]@.len() && i < w@.len() ==> text::byte_len(
                rows@[r]@[i]@,
            ) <= w@[i],
{
    let ghost hv = header_view(headers@);
    let ghost cv = cells_view(rows@);
    let nh = headers.len();
    let mut w: Vec<usize> = Vec::new();
    let mut i: usize = 0;
    while i < nh
        invariant
            nh == headers@.len(),
            hv == header_view(headers@),
            i <= nh,
            w@.len() == i,
            forall|j: int| 0 <= j < i ==> #[trigger] w@[j] == text::byte_len(hv[j]),
        decreases nh - i,
    {
        w.push(headers[i].len());
        i = i + 1;
    }
    let mut k: usize = 0;
    assert(cv.take(0) =~= Seq::<Seq<Seq<char>>>::empty());
    while k < rows.len()
        invariant
            nh == headers@.len(),
            hv == header_view(headers@),
            cv == cells_view(rows@),
            k <= rows@.len(),
            w@.len() == nh,
            forall|j: int| 0 <= j < nh ==> #[trigger] w@[j] == column_width(hv, cv.take(k as int), j),
        decreases rows.len() - k,
    {
        let row = &rows[k];
        let ghost prev = w@;
        assert(cv.take(k + 1).drop_last() =~= cv.take(k as int));
        assert(cv.take(k + 1).last() == cv[k as int]);
        assert(cv[k as int] == row@.map_values(|c: String| c@));
        let mut j: usize = 0;
        while j < row.len()
            invariant
                w@.len() == nh,
                j <= row@.len(),
                cv[k as int] == row@.map_values(|c: String| c@),
                forall|m: int|
                    0 <= m < nh ==> #[trigger] w@[m] == if m < j && text::byte_len(row@[m]@)
                        > prev[m] {
                        text::byte_len(row@[m]@)
                    } else {
                        prev[m]
                    },
            decreases row.len() - j,
        {
            if j < w.len() {
                let len = row[j].as_str().len();
                if len > w[j] {
                    w.set(j, len);
                }
            }
            j = j + 1;
        }
        k = k + 1;
    }
    assert(cv.take(rows@.len() as int) =~= cv);
    proof {
        assert forall|i: int| 0 <= i < w@.len() implies text::byte_len(headers@[i]@) <= #[trigger] w@[i] by {
            column_width_fits(hv, cv, i);
        }
        assert forall|i: int|
            0 <= i < w@.len() implies #[trigger] w@[i] == text::byte_len(headers@[i]@) || exists|r: int|
            0 <= r < rows@.len() && 0 <= i < rows@[r]@.len() && w@[i] == text::byte_len(
                #[trigger] rows@[r]@[i]@,
            ) by {
            column_width_attained(hv, cv, i);
            if w@[i] != text::byte_len(headers@[i]@) {
                let r = choose|r: int|
                    0 <= r < cv.len() && 0 <= i < cv[r].len() && column_width(hv, cv, i)
                        == text::byte_len(#[trigger] cv[r][i]);
                assert(cv[r][i] == rows@[r]@[i]@);
            }
        }
        assert forall|r: int, i: int|
            #![trigger rows@[r]@[i], w@[i]]
            0 <= r < rows@.len() && 0 <= i < rows@[r]@.len() && i < w@.len() implies text::byte_len(
            rows@[r]@[i]@,
        ) <= w@[i] by {
            column_width_fits(hv, cv, i);
            assert(cv[r][i] == rows@[r]@[i]@);
        }
    }
    w
}


/// The widths of all columns of a table, one per header.
pub open spec fn widths_of(headers: Seq<&str>, rows: Seq<Vec<String>>) -> Seq<usize> {
    Seq::new(
        headers.len(),
        |i: int| column_width(header_view(headers), cells_view(rows), i),
    )
}

/// The field width of column `i`: its computed width, or 10 past the last header.
pub open spec fn cell_width(widths: Seq<usize>, i: int) -> nat {
    if 0 <= i < widths.len() {
        widths[i] as nat
    } else {
        10
    }
}

/// A table laid out for printing: header cells, divider segments and body cells, each
/// already padded to its column's width.
pub struct TableLayout {
    pub header: Vec<String>,
    pub divider: Vec<String>,
    pub rows: Vec<Vec<String>>,
}

fn pad_cells(cells: &Vec<String>, widths: &Vec<usize>) -> (r: Vec<String>)
    ensures
        r@.len() == cells@.len(),
        forall|i: int|
            0 <= i < r@.len() ==> #[trigger] r@[i]@ == text::pad_seq(
                cells@[i]@,
                cell_width(widths@, i),
            ),
{
    let mut r: Vec<String> = Vec::new();
    let mut i: usize = 0;
    while i < cells.len()
        invariant
            i <= cells@.len(),
            r@.len() == i,
            forall|j: int|
                0 <= j < i ==> #[trigger] r@[j]@ == text::pad_seq(
                    cells@[j]@,
                    cell_width(widths@, j),
                ),
        decreases cells.len() - i,
    {
        let width: usize = if i < widths.len() { widths[i] } else { 10 };
        r.push(pad_right(cells[i].as_str(), width));
        i = i + 1;
    }
    r
}

/// Lays out a table: `None` when there are no rows (the table then reads "(no data)");
/// otherwise each header and cell padded to its column's width, and one divider segment of
/// `─` per column.
pub fn table_layout(headers: &[&str], rows: &[Vec<String>]) -> (r: Option<TableLayout>)
    ensures
        r is None <==> rows@.len() == 0,
        r matches Some(t) ==> {
            let w = widths_of(headers@, rows@);
            &&& t.header@.len() == headers@.len()
            &&& forall|i: int|
                0 <= i < headers@.len() ==> #[trigger] t.header@[i]@ == text::pad_seq(
                    headers@[i]@,
                    cell_width(w, i),
                )
            &&& t.divider@.len() == headers@.len()
            &&& forall|i: int|
                0 <= i < headers@.len() ==> #[trigger] t.divider@[i]@ == text::repeat_seq(
                    "─"@,
                    w[i] as nat,
                )
            &&& t.rows@.len() == rows@.len()
            &&& forall|k: int|
                0 <= k < rows@.len() ==> (#[trigger] t.rows@[k])@.len() == rows@[k]@.len()
            &&& forall|k: int, i: int|
                0 <= k < rows@.len() && 0 <= i < rows@[k]@.len() ==> #[trigger] t.rows@[k]@[i]@
                    == text::pad_seq(rows@[k]@[i]@, cell_width(w, i))
        },
{
    if rows.len() == 0 {
        return None;
    }
    let widths = column_widths(headers, rows);
    let ghost w = widths_of(headers@, rows@);
    assert(widths@ =~= w);
    let mut header: Vec<String> = Vec::new();
    let mut divider: Vec<String> = Vec::new();
    let mut i: usize = 0;
    while i < headers.len()
        invariant
            widths@ == w,
            w.len() == headers@.len(),
            i <= headers@.len(),
            header@.len() == i,
            divider@.len() == i,
            forall|j: int|
                0 <= j < i ==> #[trigger] header@[j]@ == text::pad_seq(
                    headers@[j]@,
                    cell_width(w, j),
                ),
            forall|j: int|
                0 <= j < i ==> #[trigger] divider@[j]@ == text::repeat_seq("─"@, w[j] as nat),
        decreases headers.len() - i,
    {
        header.push(pad_right(headers[i], widths[i]));
        divider.push(repeat_str("─", widths[i]));
        i = i + 1;
    }
    let mut body: Vec<Vec<String>> = Vec::new();
    let mut k: usize = 0;
    while k < rows.len()
        invariant
            widths@ == w,
            k <= rows@.len(),
            body@.len() == k,
            forall|m: int| 0 <= m < k ==> (#[trigger] body@[m])@.len() == rows@[m]@.len(),
            forall|m: int, j: int|
                0 <= m < k && 0 <= j < rows@[m]@.len() ==> #[trigger] body@[m]@[j]@
                    == text::pad_seq(rows@[m]@[j]@, cell_width(w, j)),
        decreases rows.len() - k,
    {
        body.push(pad_cells(&rows[k], &widths));
        k = k + 1;
    }
    Some(TableLayout { header, divider, rows: body })
}


/// The welcome banner, line by line (it begins with an empty line and ends with four
/// spaces).
pub open spec fn banner_spec() -> Seq<char> {
    "
    ╭────────────────────────────────────────────────────────────╮
    │                                                            │
    │     🟣  Assistant Code  ·  High-Performance Rust Edition   │
    │                                                            │
    │         ⚡ 2.5x faster  ·  📦 97% smaller  ·  🦀 Rust       │
    │                                                            │
    ╰────────────────────────────────────────────────────────────╯
    "@
}

/// The welcome banner.
pub fn banner() -> (b: &'static str)
    ensures
        b@ == banner_spec(),
{
    "
    ╭────────────────────────────────────────────────────────────╮
    │                                                            │
    │     🟣  Assistant Code  ·  High-Performance Rust Edition   │
    │                                                            │
    │         ⚡ 2.5x faster  ·  📦 97% smaller  ·  🦀 Rust       │
    │                                                            │
    ╰────────────────────────────────────────────────────────────╯
    "
}

/// The small logo.
pub fn logo() -> (l: &'static str)
    ensures
        l@ == "
   ╭──────────────────────────────────────╮
   │                                      │
   │   🟣 Assistant Code                  │
   │      High-Performance Rust Edition   │
   │                                      │
   ╰──────────────────────────────────────╯
"@,
{
    "
   ╭──────────────────────────────────────╮
   │                                      │
   │   🟣 Assistant Code                  │
   │      High-Performance Rust Edition   │
   │                                      │
   ╰──────────────────────────────────────╯
"
}

/// The heading of the help table.
pub fn help_title() -> (t: &'static str)
    ensures
        t@ == "📖 Available Commands"@,
{
    "📖 Available Commands"
}

/// The tip below the help table: its heading and its text line (indented by five spaces).
pub fn help_tip() -> (t: (&'static str, &'static str))
    ensures
        t.0@ == "💡 Tip:"@,
        t.1@ == "     Type any message to chat with Assistant"@,
{
    ("💡 Tip:", "     Type any message to chat with Assistant")
}

/// The text of the typing indicator, shown before the spinner.
pub fn typing_label() -> (t: &'static str)
    ensures
        t@ == "Assistant is thinking"@,
{
    "Assistant is thinking"
}

/// The frames of the typing indicator's spinner, in order.
pub open spec fn spinner_frames() -> Seq<Seq<char>> {
    seq!["⠋"@, "⠙"@, "⠹"@, "⠸"@, "⠼"@, "⠴"@, "⠦"@, "⠧"@, "⠇"@, "⠏"@]
}

/// The spinner frame shown at a step of the typing indicator: the frames repeat in order.
pub fn typing_frame(step: usize) -> (f: &'static str)
    ensures
        f@ == spinner_frames()[(step % 10) as int],
{
    let i = step % 10;
    if i == 0 { "⠋" }
    else if i == 1 { "⠙" }
    else if i == 2 { "⠹" }
    else if i == 3 { "⠸" }
    else if i == 4 { "⠼" }
    else if i == 5 { "⠴" }
    else if i == 6 { "⠦" }
    else if i == 7 { "⠧" }
    else if i == 8 { "⠇" }
    else { "⠏" }
}

/// The frames the typing indicator shows, in order: the spinner's ten frames, twice over.
pub fn typing_frames() -> (r: Vec<&'static str>)
    ensures
        r@.len() == 20,
        forall|i: int| 0 <= i < 20 ==> (#[trigger] r@[i])@ == spinner_frames()[i % 10],
{
    let mut r: Vec<&'static str> = Vec::new();
    let mut step: usize = 0;
    while step < 20
        invariant
            step <= 20,
            r@.len() == step,
            forall|i: int| 0 <= i < step ==> (#[trigger] r@[i])@ == spinner_frames()[i % 10],
        decreases 20 - step,
    {
        r.push(typing_frame(step));
        step = step + 1;
    }
    r
}

/// Asks the terminal for its size, as `terminal_size::terminal_size` reports it: columns and
/// rows of the first of stdout, stderr and stdin that is a terminal, or `None` when none is.
/// Nothing is stated of the result: it depends on the process's streams. (On Unix the crate
/// returns `Some` only with both numbers positive; its Windows code does not check that.)
#[verifier::external_body]
fn query_terminal_size() -> (r: Option<(u16, u16)>) {
    terminal_size::terminal_size().map(|(w, h)| (w.0, h.0))
}

/// The terminal size to use: the reported one when both numbers are positive, otherwise
/// 80 columns by 24 rows.
pub fn size_or_default(reported: Option<(u16, u16)>) -> (r: (u16, u16))
    ensures
        r == (match reported {
            Some((w, h)) => if w > 0 && h > 0 {
                (w, h)
            } else {
                (80u16, 24u16)
            },
            None => (80u16, 24u16),
        }),
        r.0 > 0 && r.1 > 0,
{
    match reported {
        Some((w, h)) => if w > 0 && h > 0 {
            (w, h)
        } else {
            (80, 24)
        },
        None => (80, 24),
    }
}

/// The terminal's size as (columns, rows): the size the terminal reports when both numbers
/// are positive, otherwise (80, 24). Both numbers are always positive.
pub fn terminal_size() -> (r: (u16, u16))
    ensures
        r.0 > 0 && r.1 > 0,
{
    size_or_default(query_terminal_size())
}

} // verus!
