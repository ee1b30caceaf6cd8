//! `echo`: its arguments joined by spaces, and the continuation of an
//! unbalanced double quote over further input lines.
use vstd::prelude::*;
use crate::text::{
    char_views, count_char, count_of, join, joined, push_char, remove_char, starts_with_char,
    without,
};

verus! {

/// The line `echo` prints: its arguments joined by single spaces.
pub fn echo_line(args: &[&str]) -> (r: String)
    ensures
        r@ == joined(char_views(args@), " "@),
{
    join(args, " ")
}

/// The text of an `echo` whose double quotes may span several input lines.
pub struct EchoInput {
    text: String,
    strip_newline: bool,
    open: bool,
}

/// `EchoInput` as values: the text so far, whether a final newline is
/// dropped from the output, and whether a double quote is still open.
pub struct EchoView {
    pub text: Seq<char>,
    pub strip_newline: bool,
    pub open: bool,
}

impl View for EchoInput {
    type V = EchoView;

    closed spec fn view(&self) -> EchoView {
        EchoView { text: self.text@, strip_newline: self.strip_newline, open: self.open }
    }
}

/// Whether `s` holds an odd number of double quotes.
pub open spec fn quote_open(s: Seq<char>) -> bool {
    count_of(s, '"') % 2 != 0
}

/// How an `echo` with these arguments starts: the arguments joined by
/// spaces. With an odd number of double quotes more lines are read; if the
/// text begins with its only double quote, a newline is added and the
/// output loses its final newline.
pub open spec fn echo_start_view(args: Seq<Seq<char>>) -> EchoView {
    let raw = joined(args, " "@);
    let strip = quote_open(raw) && raw.len() > 0 && raw[0] == '"' && count_of(raw, '"') == 1;
    EchoView {
        text: if strip { raw.push('\n') } else { raw },
        strip_newline: strip,
        open: quote_open(raw),
    }
}

/// What `echo` prints for the text read: the text without its final
/// newline where that is to be dropped, and without double quotes.
pub open spec fn echo_output(v: EchoView) -> Seq<char> {
    let t = if v.strip_newline && v.text.len() > 0 && v.text.last() == '\n' {
        v.text.drop_last()
    } else {
        v.text
    };
    without(t, '"')
}

impl EchoInput {
    /// Starts an `echo` with its arguments.
    pub fn start(args: &[&str]) -> (r: EchoInput)
        ensures
            r@ == echo_start_view(char_views(args@)),
    {
        let mut text = join(args, " ");
        let quotes = count_char(text.as_str(), '"');
        let open = quotes % 2 != 0;
        let strip_newline = open && starts_with_char(text.as_str(), '"') && quotes == 1;
        if strip_newline {
            push_char(&mut text, '\n');
        }
        EchoInput { text, strip_newline, open }
    }

    /// Whether a double quote is still open, so that another line is read.
    pub fn needs_more(&self) -> (r: bool)
        ensures
            r == self@.open,
    {
        self.open
    }

    /// Adds an input line (with its line terminator); the quote stays open
    /// while the text holds an odd number of double quotes.
    pub fn add_line(&mut self, line: &str)
        ensures
            final(self)@ == (EchoView {
                text: old(self)@.text + line@,
                open: quote_open(old(self)@.text + line@),
                ..old(self)@
            }),
    {
        self.text.append(line);
        let quotes = count_char(self.text.as_str(), '"');
        self.open = quotes % 2 != 0;
    }

    /// Stops reading lines (end of input).
    pub fn finish_input(&mut self)
        ensures
            final(self)@ == (EchoView { open: false, ..old(self)@ }),
    {
        self.open = false;
    }

    /// The text `echo` prints.
    pub fn output(&self) -> (r: String)
        ensures
            r@ == echo_output(self@),
    {
        let n = self.text.as_str().unicode_len();
        if self.strip_newline && n > 0 && self.text.as_str().get_char(n - 1) == '\n' {
            let t = self.text.as_str().substring_char(0, n - 1);
            assert(self.text@.subrange(0, n - 1) =~= self.text@.drop_last());
            remove_char(t, '"')
        } else {
            remove_char(self.text.as_str(), '"')
        }
    }
}


proof fn lemma_without_lacks(s: Seq<char>, c: char)
    ensures
        !without(s, c).contains(c),
    decreases s.len(),
{
    if s.len() > 0 {
        lemma_without_lacks(s.drop_last(), c);
        if s.last() != c {
            let w = without(s.drop_last(), c);
            assert forall|k: int| 0 <= k < w.push(s.last()).len() implies #[trigger] w.push(
                s.last(),
            )[k] != c by {
                if k < w.len() {
                    assert(w.push(s.last())[k] == w[k]);
                }
            }
        }
    }
}

/// What `echo` prints never holds a double quote.
pub proof fn law_echo_output_has_no_quotes(v: EchoView)
    ensures
        !echo_output(v).contains('"'),
{
    let t = if v.strip_newline && v.text.len() > 0 && v.text.last() == '\n' {
        v.text.drop_last()
    } else {
        v.text
    };
    lemma_without_lacks(t, '"');
}

/// Arguments with an even number of double quotes need no further input,
/// and `echo` prints them joined by spaces with the quotes removed.
pub proof fn law_balanced_echo(args: Seq<Seq<char>>)
    requires
        count_of(joined(args, " "@), '"') % 2 == 0,
    ensures
        !echo_start_view(args).open,
        echo_output(echo_start_view(args)) == without(joined(args, " "@), '"'),
{
}

} // verus!
