//! Reading a command line: the tokenizer and the read–parse–run cycle.
use vstd::prelude::*;
use colored::Colorize;
use crate::commands::listing::sgr;
use crate::text::{
    chars_of, concat3, is_space, joined, push_char, same_text, string_views, trim, trim_end,
    trim_start, trimmed,
};

verus! {

/// What `parse_command` makes of the text entered so far.
pub enum ParseResult {
    /// A whole command line: the command word followed by its arguments.
    Complete(Vec<String>),
    /// An open quote or a trailing backslash: more input is needed.
    Incomplete,
    /// Nothing to run; the message to print (empty for a blank line).
    Error(String),
}

/// `ParseResult` with its strings taken as character sequences.
pub enum ParseView {
    Complete(Seq<Seq<char>>),
    Incomplete,
    Error(Seq<char>),
}

impl View for ParseResult {
    type V = ParseView;

    open spec fn view(&self) -> ParseView {
        match self {
            ParseResult::Complete(parts) => ParseView::Complete(string_views(parts@)),
            ParseResult::Incomplete => ParseView::Incomplete,
            ParseResult::Error(msg) => ParseView::Error(msg@),
        }
    }
}

/// Where the tokenizer stands after some prefix of the line.
pub struct ScanState {
    /// The words finished so far.
    pub parts: Seq<Seq<char>>,
    /// The word being read.
    pub current: Seq<char>,
    /// Inside double quotes.
    pub double: bool,
    /// Inside single quotes.
    pub single: bool,
    /// Just after a backslash that escapes the next character.
    pub escape: bool,
}

/// The state before the first character.
pub open spec fn scan_start() -> ScanState {
    ScanState { parts: Seq::empty(), current: Seq::empty(), double: false, single: false, escape: false }
}

/// What a backslash followed by `c` stands for.
pub open spec fn escaped(c: char) -> Seq<char> {
    if c == 'n' {
        seq!['\n']
    } else if c == 't' {
        seq!['\t']
    } else if c == 'r' {
        seq!['\r']
    } else if c == '\\' || c == '"' || c == '\'' || c == ' ' {
        seq![c]
    } else {
        seq!['\\', c]
    }
}

/// Whether `c` separates words outside quotes.
pub open spec fn is_separator(c: char) -> bool {
    c == ' ' || c == '\t'
}

/// The tokenizer reading one character.
pub open spec fn scan_step(st: ScanState, c: char) -> ScanState {
    if st.escape {
        ScanState { current: st.current + escaped(c), escape: false, ..st }
    } else if c == '"' && !st.single {
        ScanState { double: !st.double, ..st }
    } else if c == '\'' && !st.double {
        ScanState { single: !st.single, ..st }
    } else if c == '\\' && !st.single {
        ScanState { escape: true, ..st }
    } else if is_separator(c) && !st.double && !st.single {
        if st.current.len() > 0 {
            ScanState { parts: st.parts.push(st.current), current: Seq::empty(), ..st }
        } else {
            st
        }
    } else {
        ScanState { current: st.current.push(c), ..st }
    }
}

/// The tokenizer reading all of `s`, from `st`.
pub open spec fn scan(st: ScanState, s: Seq<char>) -> ScanState
    decreases s.len(),
{
    if s.len() == 0 {
        st
    } else {
        scan_step(scan(st, s.drop_last()), s.last())
    }
}

/// The outcome once the whole line has been read.
pub open spec fn scan_outcome(st: ScanState) -> ParseView {
    if st.escape || st.double || st.single {
        ParseView::Incomplete
    } else {
        let parts = if st.current.len() > 0 { st.parts.push(st.current) } else { st.parts };
        if parts.len() == 0 {
            ParseView::Error(Seq::empty())
        } else {
            ParseView::Complete(parts)
        }
    }
}

/// What a line parses to: its trimmed text split into words, where quotes
/// group and backslashes escape.
pub open spec fn parsed(input: Seq<char>) -> ParseView {
    let t = trimmed(input);
    if t.len() == 0 {
        ParseView::Error(Seq::empty())
    } else {
        scan_outcome(scan(scan_start(), t))
    }
}

/// Every word recorded by the tokenizer is non-empty.
pub open spec fn words_nonempty(parts: Seq<Seq<char>>) -> bool {
    forall|k: int| 0 <= k < parts.len() ==> #[trigger] parts[k].len() > 0
}

/// Appends what a backslash followed by `c` stands for.
fn push_escaped(current: &mut String, c: char)
    ensures
        final(current)@ == old(current)@ + escaped(c),
{
    if c == 'n' {
        push_char(current, '\n');
    } else if c == 't' {
        push_char(current, '\t');
    } else if c == 'r' {
        push_char(current, '\r');
    } else if c == '\\' || c == '"' || c == '\'' || c == ' ' {
        push_char(current, c);
    } else {
        push_char(current, '\\');
        push_char(current, c);
    }
}

proof fn lemma_string_views_push(v: Seq<String>, s: String)
    ensures
        string_views(v.push(s)) == string_views(v).push(s@),
{
    assert(string_views(v.push(s)) =~= string_views(v).push(s@));
}

/// Splits a command line into words. White space around the line is ignored;
/// spaces and tabs separate words outside quotes; double and single quotes
/// group text into one word and are dropped; outside single quotes a
/// backslash escapes the next character (`\n`, `\t`, `\r` stand for control
/// characters, `\\`, `\"`, `\'` and `\ ` for themselves, any other pair is
/// kept as written). An open quote or a final backslash makes the line
/// incomplete; a line without words is an error with an empty message.
pub fn parse_command(input: &str) -> (r: ParseResult)
    ensures
        r@ == parsed(input@),
        r@ matches ParseView::Complete(parts) ==> parts.len() > 0 && words_nonempty(parts),
{
    let t = trim(input);
    let ts = t.as_str();
    let cs = chars_of(ts);
    let n = cs.len();
    if n == 0 {
        return ParseResult::Error(String::new());
    }
    let ghost line = ts@;
    let mut parts: Vec<String> = Vec::new();
    let mut current = String::new();
    let mut in_double_quote = false;
    let mut in_single_quote = false;
    let mut i: usize = 0;
    assert(line.take(0) =~= Seq::<char>::empty());
    assert(string_views(parts@) =~= Seq::<Seq<char>>::empty());
    while i < n
        invariant
            n == line.len(),
            line == ts@,
            cs@ == line,
            line == trimmed(input@),
            i <= n,
            scan(scan_start(), line.take(i as int)) == (ScanState {
                parts: string_views(parts@),
                current: current@,
                double: in_double_quote,
                single: in_single_quote,
                escape: false,
            }),
            words_nonempty(string_views(parts@)),
        decreases n - i,
    {
        let ch = cs[i];
        let ghost before = scan(scan_start(), line.take(i as int));
        assert(line.take(i + 1).drop_last() =~= line.take(i as int));
        assert(line.take(i + 1).last() == ch);
        assert(scan(scan_start(), line.take(i + 1)) == scan_step(before, ch));
        if ch == '"' && !in_single_quote {
            in_double_quote = !in_double_quote;
        } else if ch == '\'' && !in_double_quote {
            in_single_quote = !in_single_quote;
        } else if ch == '\\' && !in_single_quote {
            if i + 1 < n {
                let next_ch = cs[i + 1];
                assert(line.take(i + 2).drop_last() =~= line.take(i + 1));
                assert(line.take(i + 2).last() == next_ch);
                assert(scan(scan_start(), line.take(i + 2)) == scan_step(
                    scan_step(before, ch),
                    next_ch,
                ));
                push_escaped(&mut current, next_ch);
                i = i + 1;
            } else {
                assert(line.take(i + 1) =~= line);
                return ParseResult::Incomplete;
            }
        } else if (ch == ' ' || ch == '\t') && !in_double_quote && !in_single_quote {
            if !current.as_str().is_empty() {
                proof {
                    lemma_string_views_push(parts@, current);
                }
                parts.push(current.clone());
                current = String::new();
            }
        } else {
            push_char(&mut current, ch);
        }
        i = i + 1;
    }
    assert(line.take(n as int) =~= line);
    if in_double_quote || in_single_quote {
        return ParseResult::Incomplete;
    }
    if !current.as_str().is_empty() {
        proof {
            lemma_string_views_push(parts@, current);
        }
        parts.push(current);
    }
    if parts.len() == 0 {
        ParseResult::Error(String::new())
    } else {
        ParseResult::Complete(parts)
    }
}


/// Reading `a` then `b` is reading `a + b`.
pub proof fn lemma_scan_concat(st: ScanState, a: Seq<char>, b: Seq<char>)
    ensures
        scan(st, a + b) == scan(scan(st, a), b),
    decreases b.len(),
{
    if b.len() == 0 {
        assert(a + b =~= a);
    } else {
        lemma_scan_concat(st, a, b.drop_last());
        assert((a + b).drop_last() =~= a + b.drop_last());
        assert((a + b).last() == b.last());
    }
}

/// A word that the tokenizer copies as it stands: no white space, no quote,
/// no backslash.
pub open spec fn is_plain_word(w: Seq<char>) -> bool {
    &&& w.len() > 0
    &&& forall|k: int|
        0 <= k < w.len() ==> {
            let c = #[trigger] w[k];
            !is_space(c) && c != '"' && c != '\'' && c != '\\'
        }
}

/// Outside quotes, plain characters are appended to the current word.
proof fn lemma_scan_plain(st: ScanState, w: Seq<char>)
    requires
        !st.escape,
        !st.double,
        !st.single,
        forall|k: int|
            0 <= k < w.len() ==> {
                let c = #[trigger] w[k];
                !is_space(c) && c != '"' && c != '\'' && c != '\\'
            },
    ensures
        scan(st, w) == (ScanState { current: st.current + w, ..st }),
    decreases w.len(),
{
    if w.len() == 0 {
        assert(st.current + w =~= st.current);
        assert(scan(st, w) == st);
    } else {
        let c = w.last();
        assert(w[w.len() - 1] == c);
        lemma_scan_plain(st, w.drop_last());
        assert((st.current + w.drop_last()).push(c) =~= st.current + w);
    }
}

/// Inside double quotes, text without `"` and `\` is appended to the word.
proof fn lemma_scan_double_quoted(st: ScanState, w: Seq<char>)
    requires
        !st.escape,
        st.double,
        !st.single,
        forall|k: int| 0 <= k < w.len() ==> #[trigger] w[k] != '"' && w[k] != '\\',
    ensures
        scan(st, w) == (ScanState { current: st.current + w, ..st }),
    decreases w.len(),
{
    if w.len() == 0 {
        assert(st.current + w =~= st.current);
        assert(scan(st, w) == st);
    } else {
        let c = w.last();
        assert(w[w.len() - 1] == c);
        lemma_scan_double_quoted(st, w.drop_last());
        assert((st.current + w.drop_last()).push(c) =~= st.current + w);
    }
}

/// Inside single quotes, text without `'` is appended to the word.
proof fn lemma_scan_single_quoted(st: ScanState, w: Seq<char>)
    requires
        !st.escape,
        !st.double,
        st.single,
        forall|k: int| 0 <= k < w.len() ==> #[trigger] w[k] != '\'',
    ensures
        scan(st, w) == (ScanState { current: st.current + w, ..st }),
    decreases w.len(),
{
    if w.len() == 0 {
        assert(st.current + w =~= st.current);
        assert(scan(st, w) == st);
    } else {
        let c = w.last();
        assert(w[w.len() - 1] == c);
        lemma_scan_single_quoted(st, w.drop_last());
        assert((st.current + w.drop_last()).push(c) =~= st.current + w);
    }
}

/// Words joined by single spaces are read back word by word.
proof fn lemma_scan_words(ws: Seq<Seq<char>>)
    requires
        ws.len() > 0,
        forall|k: int| 0 <= k < ws.len() ==> is_plain_word(#[trigger] ws[k]),
    ensures
        scan(scan_start(), joined(ws, seq![' '])) == (ScanState {
            parts: ws.drop_last(),
            current: ws.last(),
            ..scan_start()
        }),
    decreases ws.len(),
{
    if ws.len() == 1 {
        assert(is_plain_word(ws[0]));
        lemma_scan_plain(scan_start(), ws[0]);
        assert(Seq::<char>::empty() + ws[0] =~= ws[0]);
        assert(ws.drop_last() =~= Seq::<Seq<char>>::empty());
    } else {
        let init = ws.drop_last();
        assert forall|k: int| 0 <= k < init.len() implies is_plain_word(#[trigger] init[k]) by {
            assert(init[k] == ws[k]);
        }
        lemma_scan_words(init);
        let a = joined(init, seq![' ']);
        let w = ws.last();
        assert(is_plain_word(ws[ws.len() - 1]));
        lemma_scan_concat(scan_start(), a + seq![' '], w);
        lemma_scan_concat(scan_start(), a, seq![' ']);
        let mid = scan(scan_start(), a);
        assert(scan(mid, seq![' ']) == scan_step(scan(mid, Seq::<char>::empty()), ' ')) by {
            assert(seq![' '].drop_last() =~= Seq::<char>::empty());
        }
        assert(is_plain_word(init[init.len() - 1]));
        let after = scan(mid, seq![' ']);
        assert(after == (ScanState { parts: init, current: Seq::empty(), ..scan_start() })) by {
            assert(init.drop_last().push(init.last()) =~= init);
        }
        lemma_scan_plain(after, w);
        assert(Seq::<char>::empty() + w =~= w);
    }
}

proof fn lemma_joined_ends(ws: Seq<Seq<char>>)
    requires
        ws.len() > 0,
        forall|k: int| 0 <= k < ws.len() ==> #[trigger] ws[k].len() > 0,
    ensures
        joined(ws, seq![' ']).len() > 0,
        joined(ws, seq![' '])[0] == ws[0][0],
        joined(ws, seq![' ']).last() == ws.last().last(),
    decreases ws.len(),
{
    if ws.len() > 1 {
        let init = ws.drop_last();
        assert forall|k: int| 0 <= k < init.len() implies #[trigger] init[k].len() > 0 by {
            assert(init[k] == ws[k]);
        }
        lemma_joined_ends(init);
        assert(ws.last().len() > 0);
        let j = joined(init, seq![' ']) + seq![' '] + ws.last();
        assert(j[0] == joined(init, seq![' '])[0]);
        assert(j.last() == ws.last().last());
    } else {
        assert(ws[0].len() > 0);
    }
}

proof fn lemma_trimmed_unchanged(s: Seq<char>)
    requires
        s.len() > 0,
        !is_space(s[0]),
        !is_space(s.last()),
    ensures
        trimmed(s) == s,
{
}

/// Whether `s` holds no quote and no backslash.
pub open spec fn free_of_quotes(s: Seq<char>) -> bool {
    forall|k: int| 0 <= k < s.len() ==> #[trigger] s[k] != '"' && s[k] != '\'' && s[k] != '\\'
}

/// The pieces of `s` between spaces and tabs, empty pieces included, as
/// `str::split` on those two characters gives them.
pub open spec fn blank_pieces(s: Seq<char>) -> Seq<Seq<char>>
    decreases s.len(),
{
    if s.len() == 0 {
        seq![Seq::<char>::empty()]
    } else {
        let p = blank_pieces(s.drop_last());
        if is_separator(s.last()) {
            p.push(Seq::<char>::empty())
        } else {
            p.update(p.len() - 1, p.last().push(s.last()))
        }
    }
}

/// The non-empty ones among `pieces`.
pub open spec fn nonempty_pieces(pieces: Seq<Seq<char>>) -> Seq<Seq<char>> {
    pieces.filter(|w: Seq<char>| w.len() > 0)
}

/// The words of `s`: its non-empty pieces between spaces and tabs.
pub open spec fn blank_words(s: Seq<char>) -> Seq<Seq<char>> {
    nonempty_pieces(blank_pieces(s))
}

proof fn lemma_nonempty_pieces_push(p: Seq<Seq<char>>, w: Seq<char>)
    ensures
        nonempty_pieces(p.push(w)) == (if w.len() > 0 {
            nonempty_pieces(p).push(w)
        } else {
            nonempty_pieces(p)
        }),
{
    reveal(Seq::filter);
    assert(p.push(w).drop_last() =~= p);
}

proof fn lemma_trim_start_free_of_quotes(s: Seq<char>)
    requires
        free_of_quotes(s),
    ensures
        free_of_quotes(trim_start(s)),
    decreases s.len(),
{
    if s.len() > 0 && is_space(s[0]) {
        assert forall|k: int| 0 <= k < s.drop_first().len() implies #[trigger] s.drop_first()[k] != '"'
            && s.drop_first()[k] != '\'' && s.drop_first()[k] != '\\' by {
            assert(s.drop_first()[k] == s[k + 1]);
        }
        lemma_trim_start_free_of_quotes(s.drop_first());
    }
}

proof fn lemma_trim_end_free_of_quotes(s: Seq<char>)
    requires
        free_of_quotes(s),
    ensures
        free_of_quotes(trim_end(s)),
    decreases s.len(),
{
    if s.len() > 0 && is_space(s.last()) {
        assert forall|k: int| 0 <= k < s.drop_last().len() implies #[trigger] s.drop_last()[k] != '"'
            && s.drop_last()[k] != '\'' && s.drop_last()[k] != '\\' by {
            assert(s.drop_last()[k] == s[k]);
        }
        lemma_trim_end_free_of_quotes(s.drop_last());
    }
}

/// Outside quotes, text without quotes and backslashes is read piece by
/// piece: the finished words are the non-empty pieces before the last one,
/// which is the word being read.
proof fn lemma_scan_free_of_quotes(s: Seq<char>)
    requires
        free_of_quotes(s),
    ensures
        blank_pieces(s).len() > 0,
        scan(scan_start(), s) == (ScanState {
            parts: nonempty_pieces(blank_pieces(s).drop_last()),
            current: blank_pieces(s).last(),
            ..scan_start()
        }),
    decreases s.len(),
{
    if s.len() == 0 {
        let p = blank_pieces(s);
        assert(p.drop_last() =~= Seq::<Seq<char>>::empty());
        reveal(Seq::filter);
    } else {
        let init = s.drop_last();
        let c = s.last();
        assert(c == s[s.len() - 1]);
        assert forall|k: int| 0 <= k < init.len() implies #[trigger] init[k] != '"' && init[k] != '\''
            && init[k] != '\\' by {
            assert(init[k] == s[k]);
        }
        lemma_scan_free_of_quotes(init);
        let q = blank_pieces(init);
        assert(q =~= q.drop_last().push(q.last()));
        lemma_nonempty_pieces_push(q.drop_last(), q.last());
        if is_separator(c) {
            assert(blank_pieces(s).drop_last() =~= q);
        } else {
            assert(blank_pieces(s).drop_last() =~= q.drop_last());
        }
    }
}

/// A line without quotes and backslashes splits at its spaces and tabs:
/// its words are the non-empty pieces of the trimmed line, and a line
/// without any is an error with an empty message.
pub proof fn law_unquoted_line_splits_at_blanks(s: Seq<char>)
    requires
        free_of_quotes(s),
    ensures
        parsed(s) == (if blank_words(trimmed(s)).len() == 0 {
            ParseView::Error(Seq::empty())
        } else {
            ParseView::Complete(blank_words(trimmed(s)))
        }),
{
    let t = trimmed(s);
    lemma_trim_start_free_of_quotes(s);
    lemma_trim_end_free_of_quotes(trim_start(s));
    lemma_scan_free_of_quotes(t);
    let p = blank_pieces(t);
    assert(p =~= p.drop_last().push(p.last()));
    lemma_nonempty_pieces_push(p.drop_last(), p.last());
    if t.len() == 0 {
        assert(p =~= seq![Seq::<char>::empty()]);
        assert(p.drop_last() =~= Seq::<Seq<char>>::empty());
        reveal(Seq::filter);
        assert(nonempty_pieces(p.drop_last()) =~= Seq::<Seq<char>>::empty());
    }
}

/// Words without white space, quotes or backslashes, written with single
/// spaces between them, parse back to the same words.
pub proof fn law_plain_words_roundtrip(ws: Seq<Seq<char>>)
    requires
        ws.len() > 0,
        forall|k: int| 0 <= k < ws.len() ==> is_plain_word(#[trigger] ws[k]),
    ensures
        parsed(joined(ws, seq![' '])) == ParseView::Complete(ws),
{
    assert forall|k: int| 0 <= k < ws.len() implies #[trigger] ws[k].len() > 0 by {
        assert(is_plain_word(ws[k]));
    }
    lemma_joined_ends(ws);
    let line = joined(ws, seq![' ']);
    assert(is_plain_word(ws[0]));
    assert(is_plain_word(ws[ws.len() - 1]));
    assert(ws[0][0] == ws[0][0]);
    assert(ws.last()[ws.last().len() - 1] == ws.last().last());
    lemma_trimmed_unchanged(line);
    lemma_scan_words(ws);
    assert(ws.drop_last().push(ws.last()) =~= ws);
}

/// Text between double quotes, holding neither `"` nor `\`, is one word,
/// its spaces included.
pub proof fn law_double_quoted_word(w: Seq<char>)
    requires
        w.len() > 0,
        forall|k: int| 0 <= k < w.len() ==> #[trigger] w[k] != '"' && w[k] != '\\',
    ensures
        parsed(seq!['"'] + w + seq!['"']) == ParseView::Complete(seq![w]),
{
    let line = seq!['"'] + w + seq!['"'];
    assert(line[0] == '"');
    assert(line.last() == '"');
    lemma_trimmed_unchanged(line);
    lemma_scan_concat(scan_start(), seq!['"'] + w, seq!['"']);
    lemma_scan_concat(scan_start(), seq!['"'], w);
    assert(seq!['"'].drop_last() =~= Seq::<char>::empty());
    assert(seq!['"'].last() == '"');
    assert(scan(scan_start(), Seq::<char>::empty()) == scan_start());
    let opened = scan(scan_start(), seq!['"']);
    assert(opened == ScanState { double: true, ..scan_start() });
    lemma_scan_double_quoted(opened, w);
    assert(Seq::<char>::empty() + w =~= w);
    let inside = scan(opened, w);
    assert(scan(inside, Seq::<char>::empty()) == inside);
    assert(Seq::<Seq<char>>::empty().push(w) =~= seq![w]);
}

/// Text between single quotes, holding no `'`, is one word, taken as it
/// stands: spaces, double quotes and backslashes included.
pub proof fn law_single_quoted_word(w: Seq<char>)
    requires
        w.len() > 0,
        forall|k: int| 0 <= k < w.len() ==> #[trigger] w[k] != '\'',
    ensures
        parsed(seq!['\''] + w + seq!['\'']) == ParseView::Complete(seq![w]),
{
    let line = seq!['\''] + w + seq!['\''];
    assert(line[0] == '\'');
    assert(line.last() == '\'');
    lemma_trimmed_unchanged(line);
    lemma_scan_concat(scan_start(), seq!['\''] + w, seq!['\'']);
    lemma_scan_concat(scan_start(), seq!['\''], w);
    assert(seq!['\''].drop_last() =~= Seq::<char>::empty());
    assert(seq!['\''].last() == '\'');
    assert(scan(scan_start(), Seq::<char>::empty()) == scan_start());
    let opened = scan(scan_start(), seq!['\'']);
    assert(opened == ScanState { single: true, ..scan_start() });
    lemma_scan_single_quoted(opened, w);
    assert(Seq::<char>::empty() + w =~= w);
    let inside = scan(opened, w);
    assert(scan(inside, Seq::<char>::empty()) == inside);
    assert(Seq::<Seq<char>>::empty().push(w) =~= seq![w]);
}

/// A double quote that is never closed leaves the line incomplete.
pub proof fn law_open_quote_incomplete(w: Seq<char>)
    requires
        forall|k: int| 0 <= k < w.len() ==> #[trigger] w[k] != '"' && w[k] != '\\',
        w.len() == 0 || !is_space(w.last()),
    ensures
        parsed(seq!['"'] + w) == ParseView::Incomplete,
{
    let line = seq!['"'] + w;
    assert(line[0] == '"');
    if w.len() > 0 {
        assert(line.last() == w.last());
    }
    lemma_trimmed_unchanged(line);
    lemma_scan_concat(scan_start(), seq!['"'], w);
    assert(seq!['"'].drop_last() =~= Seq::<char>::empty());
    assert(seq!['"'].last() == '"');
    assert(scan(scan_start(), Seq::<char>::empty()) == scan_start());
    let opened = scan(scan_start(), seq!['"']);
    assert(opened == ScanState { double: true, ..scan_start() });
    lemma_scan_double_quoted(opened, w);
}


/// The built-in commands.
#[derive(Clone, Copy, PartialEq, Eq, Structural, Debug)]
pub enum Command {
    Echo,
    Pwd,
    Mkdir,
    Rm,
    Mv,
    Cd,
    Ls,
    Cat,
    Cp,
    Exit,
}

/// The word that names a built-in command.
pub open spec fn command_name(c: Command) -> Seq<char> {
    match c {
        Command::Echo => "echo"@,
        Command::Pwd => "pwd"@,
        Command::Mkdir => "mkdir"@,
        Command::Rm => "rm"@,
        Command::Mv => "mv"@,
        Command::Cd => "cd"@,
        Command::Ls => "ls"@,
        Command::Cat => "cat"@,
        Command::Cp => "cp"@,
        Command::Exit => "exit"@,
    }
}

/// Whether `name` is the name of a built-in command.
pub open spec fn is_command_name(name: Seq<char>) -> bool {
    ||| name == "echo"@
    ||| name == "pwd"@
    ||| name == "mkdir"@
    ||| name == "rm"@
    ||| name == "mv"@
    ||| name == "cd"@
    ||| name == "ls"@
    ||| name == "cat"@
    ||| name == "cp"@
    ||| name == "exit"@
}

/// Each built-in command has a name of its own, so looking its name up
/// finds that command and no other.
pub proof fn law_each_command_found_by_its_name(c: Command, d: Command)
    ensures
        is_command_name(command_name(c)),
        command_name(d) == command_name(c) ==> d == c,
{
    reveal_strlit("echo");
    reveal_strlit("pwd");
    reveal_strlit("mkdir");
    reveal_strlit("rm");
    reveal_strlit("mv");
    reveal_strlit("cd");
    reveal_strlit("ls");
    reveal_strlit("cat");
    reveal_strlit("cp");
    reveal_strlit("exit");
    if command_name(d) == command_name(c) && d != c {
        let a = command_name(c);
        let b = command_name(d);
        assert(a.len() == b.len());
        assert(a[0] == b[0]);
        assert(a[a.len() - 1] == b[b.len() - 1]);
    }
}

/// The message for a word that names no command.
pub open spec fn unknown_command_message(name: Seq<char>) -> Seq<char> {
    "Command '"@ + name + "' not found"@
}

/// The built-in command that `name` names, or the message that no command
/// has that name.
pub fn lookup_command(name: &str) -> (r: Result<Command, String>)
    ensures
        r is Ok <==> is_command_name(name@),
        r matches Ok(c) ==> command_name(c) == name@,
        r matches Err(m) ==> m@ == unknown_command_message(name@),
{
    if same_text(name, "echo") {
        Ok(Command::Echo)
    } else if same_text(name, "pwd") {
        Ok(Command::Pwd)
    } else if same_text(name, "mkdir") {
        Ok(Command::Mkdir)
    } else if same_text(name, "rm") {
        Ok(Command::Rm)
    } else if same_text(name, "mv") {
        Ok(Command::Mv)
    } else if same_text(name, "cd") {
        Ok(Command::Cd)
    } else if same_text(name, "ls") {
        Ok(Command::Ls)
    } else if same_text(name, "cat") {
        Ok(Command::Cat)
    } else if same_text(name, "cp") {
        Ok(Command::Cp)
    } else if same_text(name, "exit") {
        Ok(Command::Exit)
    } else {
        Err(concat3("Command '", name, "' not found"))
    }
}


/// What the terminal gave the shell.
pub enum InputEvent {
    /// End of input (Ctrl-D).
    EndOfInput,
    /// A line, with its line terminator.
    Line(String),
    /// Reading failed, with the reason.
    ReadFailed(String),
}

/// `InputEvent` with its strings taken as character sequences.
pub enum InputView {
    EndOfInput,
    Line(Seq<char>),
    ReadFailed(Seq<char>),
}

impl View for InputEvent {
    type V = InputView;

    open spec fn view(&self) -> InputView {
        match self {
            InputEvent::EndOfInput => InputView::EndOfInput,
            InputEvent::Line(l) => InputView::Line(l@),
            InputEvent::ReadFailed(m) => InputView::ReadFailed(m@),
        }
    }
}

/// What the shell does next.
pub enum ShellAction {
    /// Print a newline and leave the shell.
    Exit,
    /// Print a newline, drop the unfinished command and prompt again.
    DiscardPending,
    /// Run a command with its arguments.
    Run { command: String, args: Vec<String> },
    /// Print the message to standard error and prompt again.
    Report(String),
    /// Print `Error reading input: ` and the reason, then prompt again.
    ReadError(String),
    /// The command is unfinished: prompt for a continuation line.
    NeedMore,
}

/// `ShellAction` with its strings taken as character sequences.
pub enum ActionView {
    Exit,
    DiscardPending,
    Run { command: Seq<char>, args: Seq<Seq<char>> },
    Report(Seq<char>),
    ReadError(Seq<char>),
    NeedMore,
}

impl View for ShellAction {
    type V = ActionView;

    open spec fn view(&self) -> ActionView {
        match self {
            ShellAction::Exit => ActionView::Exit,
            ShellAction::DiscardPending => ActionView::DiscardPending,
            ShellAction::Run { command, args } => ActionView::Run {
                command: command@,
                args: string_views(args@),
            },
            ShellAction::Report(m) => ActionView::Report(m@),
            ShellAction::ReadError(m) => ActionView::ReadError(m@),
            ShellAction::NeedMore => ActionView::NeedMore,
        }
    }
}

/// Which prompt to show.
#[derive(Clone, Copy, PartialEq, Eq, Structural, Debug)]
pub enum Prompt {
    /// `$ <directory> $`: a new command.
    Primary,
    /// `> `: the continuation of an unfinished command.
    Continuation,
}

/// Whether `r` is `text` in the colour `code`: uncoloured where the
/// terminal gets no colours, otherwise in the escapes of that colour.
pub open spec fn coloured(r: Seq<char>, text: Seq<char>, code: Seq<char>) -> bool {
    r == text || r == sgr(code, text)
}

/// `colored`: `text.green().to_string()`. Whether colours are written
/// depends on the environment and the terminal; when they are, the text is
/// wrapped in the escapes for green, and the colour is written again after
/// each reset escape inside the text.
#[verifier::external_body]
fn green(text: &str) -> (r: String)
    ensures
        coloured(r@, text@, "32"@),
{
    text.green().to_string()
}

/// `colored`: `text.blue().to_string()`, as `green` with blue.
#[verifier::external_body]
fn blue(text: &str) -> (r: String)
    ensures
        coloured(r@, text@, "34"@),
{
    text.blue().to_string()
}

/// `colored`: `text.yellow().to_string()`, as `green` with yellow.
#[verifier::external_body]
fn yellow(text: &str) -> (r: String)
    ensures
        coloured(r@, text@, "33"@),
{
    text.yellow().to_string()
}

/// The banner the shell shows when it starts.
pub const LOGO: &'static str = "\n_______                   .__           .__  .__   \n\\   _  \\             _____|  |__   ____ |  | |  |  \n/  /_\\  \\   ______  /  ___/  |  \\_/ __ \\|  | |  |  \n\\  \\_/   \\ /_____/  \\___ \\|   Y  \\  ___/|  |_|  |__\n \\_____  /         /____  >___|  /\\___  >____/____/\n       \\/               \\/     \\/     \\/             \n";

/// Whether `r` is the prompt `p` in the directory `cwd`: for a new command
/// a green `$`, the directory in blue and another green `$`, each followed
/// by a space; for a continuation a yellow `> ` and a space.
pub open spec fn prompt_shown(r: Seq<char>, p: Prompt, cwd: Seq<char>) -> bool {
    match p {
        Prompt::Primary => exists|a: Seq<char>, b: Seq<char>, c: Seq<char>|
            #![trigger coloured(a, "$"@, "32"@), coloured(b, cwd, "34"@), coloured(c, "$"@, "32"@)]
            coloured(a, "$"@, "32"@) && coloured(b, cwd, "34"@) && coloured(c, "$"@, "32"@) && r
                == a + " "@ + b + " "@ + c + " "@,
        Prompt::Continuation => exists|a: Seq<char>|
            #[trigger] coloured(a, "> "@, "33"@) && r == a + " "@,
    }
}

/// The text of the prompt `p` in the directory `cwd`.
pub fn prompt_text(p: Prompt, cwd: &str) -> (r: String)
    ensures
        prompt_shown(r@, p, cwd@),
{
    match p {
        Prompt::Primary => {
            let a = green("$");
            let b = blue(cwd);
            let c = green("$");
            let mut r = a.clone();
            r.append(" ");
            r.append(b.as_str());
            r.append(" ");
            r.append(c.as_str());
            r.append(" ");
            assert(coloured(a@, "$"@, "32"@) && coloured(b@, cwd@, "34"@) && coloured(c@, "$"@, "32"@));
            assert(r@ =~= a@ + " "@ + b@ + " "@ + c@ + " "@);
            r
        },
        Prompt::Continuation => {
            let a = yellow("> ");
            let mut r = a.clone();
            r.append(" ");
            assert(coloured(a@, "> "@, "33"@));
            assert(r@ =~= a@ + " "@);
            r
        },
    }
}

/// The banner, in yellow where the terminal gets colours.
pub fn logo_text() -> (r: String)
    ensures
        coloured(r@, LOGO@, "33"@),
{
    yellow(LOGO)
}

/// What the shell does with `event` while `pending` holds the unfinished
/// command text.
pub open spec fn next_action(pending: Seq<char>, event: InputView) -> ActionView {
    match event {
        InputView::EndOfInput => if pending.len() > 0 {
            ActionView::DiscardPending
        } else {
            ActionView::Exit
        },
        InputView::Line(l) => match parsed(pending + l) {
            ParseView::Complete(words) => ActionView::Run {
                command: words[0],
                args: words.drop_first(),
            },
            ParseView::Incomplete => ActionView::NeedMore,
            ParseView::Error(m) => ActionView::Report(m),
        },
        InputView::ReadFailed(m) => ActionView::ReadError(m),
    }
}

/// The unfinished command text after `event`: kept, with the new line
/// appended, only while the command stays incomplete.
pub open spec fn next_pending(pending: Seq<char>, event: InputView) -> Seq<char> {
    match event {
        InputView::Line(l) => if parsed(pending + l) is Incomplete {
            pending + l
        } else {
            Seq::empty()
        },
        _ => Seq::empty(),
    }
}

/// The read–parse–run cycle of the interactive shell: the text of a
/// command that spans several lines accumulates here until it parses.
pub struct Shell {
    pending: String,
}

impl View for Shell {
    type V = Seq<char>;

    closed spec fn view(&self) -> Seq<char> {
        self.pending@
    }
}

impl Shell {
    /// A shell with no unfinished command.
    pub fn new() -> (r: Shell)
        ensures
            r@ == Seq::<char>::empty(),
    {
        Shell { pending: String::new() }
    }

    /// The prompt to show before reading the next line.
    pub fn prompt(&self) -> (r: Prompt)
        ensures
            r == (if self@.len() == 0 { Prompt::Primary } else { Prompt::Continuation }),
    {
        if self.pending.as_str().is_empty() {
            Prompt::Primary
        } else {
            Prompt::Continuation
        }
    }

    /// Takes one input event and says what to do next.
    pub fn on_input(&mut self, event: InputEvent) -> (r: ShellAction)
        ensures
            r@ == next_action(old(self)@, event@),
            final(self)@ == next_pending(old(self)@, event@),
    {
        match event {
            InputEvent::EndOfInput => {
                let had_pending = !self.pending.as_str().is_empty();
                self.pending = String::new();
                if had_pending {
                    ShellAction::DiscardPending
                } else {
                    ShellAction::Exit
                }
            },
            InputEvent::Line(line) => {
                self.pending.append(line.as_str());
                match parse_command(self.pending.as_str()) {
                    ParseResult::Complete(mut parts) => {
                        self.pending = String::new();
                        let ghost words = string_views(parts@);
                        let command = parts.remove(0);
                        assert(string_views(parts@) =~= words.drop_first());
                        ShellAction::Run { command, args: parts }
                    },
                    ParseResult::Incomplete => ShellAction::NeedMore,
                    ParseResult::Error(message) => {
                        self.pending = String::new();
                        ShellAction::Report(message)
                    },
                }
            },
            InputEvent::ReadFailed(reason) => {
                self.pending = String::new();
                ShellAction::ReadError(reason)
            },
        }
    }
}


/// The shell asks for a continuation line exactly when the text entered so
/// far is an unfinished command; any other event leaves nothing pending.
pub proof fn law_pending_only_while_incomplete(pending: Seq<char>, event: InputView)
    ensures
        next_pending(pending, event).len() > 0 <==> (event matches InputView::Line(l) && parsed(
            pending + l,
        ) is Incomplete),
{
    if let InputView::Line(l) = event {
        let text = pending + l;
        if text.len() == 0 {
            assert(trim_start(text) == text);
            assert(trim_end(text) == text);
        }
    }
}


/// A command entered over two lines, the first of them unfinished, is
/// treated as if both lines had been entered at once.
pub proof fn law_continued_line_is_one_line(first: Seq<char>, second: Seq<char>)
    requires
        parsed(first) is Incomplete,
    ensures
        next_action(Seq::empty(), InputView::Line(first)) == ActionView::NeedMore,
        next_action(next_pending(Seq::empty(), InputView::Line(first)), InputView::Line(second))
            == next_action(Seq::empty(), InputView::Line(first + second)),
        next_pending(next_pending(Seq::empty(), InputView::Line(first)), InputView::Line(second))
            == next_pending(Seq::empty(), InputView::Line(first + second)),
{
    assert(Seq::<char>::empty() + first =~= first);
    assert(Seq::<char>::empty() + (first + second) =~= first + second);
}

} // verus!
