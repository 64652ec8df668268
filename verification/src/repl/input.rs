//! How the REPL gathers lines into inputs: blank lines and the quit words
//! between inputs, lines joined until the input is complete, and what is
//! shown for an answer.

use vstd::prelude::*;
use vstd::utf8::encode_utf8;

use crate::repl::complete_spec;
use crate::repl::diagnostics::{is_white_space, trimmed_end, white_space};
use crate::repl::is_complete_reconf_input;
use crate::text::{chars_of, str_eq, string_from_chars};

verus! {

broadcast use vstd::std_specs::vec::group_vec_axioms;

/// The index of the first character from `i` on that is not white space.
pub open spec fn leading_end(s: Seq<char>, i: nat) -> nat
    decreases s.len() - i,
{
    if i < s.len() && white_space(s[i as int]) {
        leading_end(s, i + 1)
    } else {
        i
    }
}

/// `s` without the white space at either end.
pub open spec fn trim_spec(s: Seq<char>) -> Seq<char> {
    let a = leading_end(s, 0);
    let b = trimmed_end(s, s.len());
    if a >= b {
        Seq::empty()
    } else {
        s.subrange(a as int, b as int)
    }
}

/// The characters of `s` without the white space at either end.
pub fn trim_chars(s: &Vec<char>) -> (r: Vec<char>)
    ensures
        r@ == trim_spec(s@),
{
    let mut a: usize = 0;
    while a < s.len() && is_white_space(s[a])
        invariant
            a <= s@.len(),
            leading_end(s@, a as nat) == leading_end(s@, 0),
        decreases s.len() - a,
    {
        a = a + 1;
    }
    let mut b: usize = s.len();
    while b > 0 && is_white_space(s[b - 1])
        invariant
            b <= s@.len(),
            trimmed_end(s@, b as nat) == trimmed_end(s@, s@.len()),
        decreases b,
    {
        b = b - 1;
    }
    let mut out: Vec<char> = Vec::new();
    if a >= b {
        return out;
    }
    let mut i: usize = a;
    while i < b
        invariant
            a <= i <= b <= s@.len(),
            out@ == s@.subrange(a as int, i as int),
        decreases b - i,
    {
        out.push(s[i]);
        assert(out@ =~= s@.subrange(a as int, i + 1));
        i = i + 1;
    }
    out
}

/// The words that end the REPL.
pub open spec fn quit_word(t: Seq<char>) -> bool {
    t == ":quit"@ || t == ":q"@ || t == "quit"@ || t == "exit"@
}

fn is_quit_word(t: &str) -> (b: bool)
    ensures
        b == quit_word(t@),
{
    str_eq(t, ":quit") || str_eq(t, ":q") || str_eq(t, "quit") || str_eq(t, "exit")
}

/// What to do with a line read by the REPL.
#[derive(Debug, PartialEq, Eq)]
pub enum LineAction {
    /// Nothing: a blank line between inputs.
    Skip,
    /// Stop reading.
    Quit,
    /// The input goes on in the next line.
    Pending,
    /// Evaluate this complete input.
    Evaluate(String),
}

/// The lines of an input that is not complete yet.
pub struct LineBuffer {
    buffer: Vec<char>,
}

impl LineBuffer {
    pub closed spec fn pending(&self) -> Seq<char> {
        self.buffer@
    }

    /// A buffer holding nothing.
    pub fn new() -> (b: LineBuffer)
        ensures
            b.pending().len() == 0,
    {
        LineBuffer { buffer: Vec::new() }
    }

    /// Takes a line: between inputs a blank line is skipped and a quit word
    /// ends the REPL; otherwise the trimmed line joins the pending lines
    /// (after a line break), and once they form a complete input it is
    /// handed out, trimmed, and the buffer is emptied.
    pub fn feed(&mut self, line: &str) -> (r: LineAction)
        ensures
            ({
                let t = trim_spec(line@);
                let before = old(self).pending();
                let joined = if before.len() == 0 { t } else { before + seq!['\n'] + t };
                if before.len() == 0 && t.len() == 0 {
                    r == LineAction::Skip && final(self).pending() == before
                } else if before.len() == 0 && quit_word(t) {
                    r == LineAction::Quit && final(self).pending() == before
                } else if complete_spec(encode_utf8(joined)) {
                    r matches LineAction::Evaluate(input) && input@ == trim_spec(joined)
                        && final(self).pending().len() == 0
                } else {
                    r == LineAction::Pending && final(self).pending() == joined
                }
            }),
    {
        let t = trim_chars(&chars_of(line));
        let text = string_from_chars(t.as_slice());
        if self.buffer.len() == 0 && t.len() == 0 {
            return LineAction::Skip;
        }
        if self.buffer.len() == 0 && is_quit_word(text.as_str()) {
            return LineAction::Quit;
        }
        let ghost before = self.buffer@;
        if self.buffer.len() > 0 {
            self.buffer.push('\n');
        }
        let mut i: usize = 0;
        let ghost start = self.buffer@;
        while i < t.len()
            invariant
                i <= t@.len(),
                self.buffer@ == start + t@.take(i as int),
            decreases t.len() - i,
        {
            self.buffer.push(t[i]);
            assert(t@.take(i + 1) =~= t@.take(i as int).push(t@[i as int]));
            i = i + 1;
        }
        assert(t@.take(t@.len() as int) =~= t@);
        proof {
            if before.len() == 0 {
                assert(self.buffer@ =~= t@);
            } else {
                assert(self.buffer@ =~= before + seq!['\n'] + t@);
            }
        }
        let joined = string_from_chars(self.buffer.as_slice());
        if !is_complete_reconf_input(joined.as_str()) {
            return LineAction::Pending;
        }
        let input = trim_chars(&self.buffer);
        self.buffer = Vec::new();
        LineAction::Evaluate(string_from_chars(input.as_slice()))
    }
}

/// What the REPL shows for an answer: nothing for the `0` that answers
/// declarations (an input ending in `;`), the answer itself otherwise.
pub fn shown_answer(input: &str, output: &str) -> (s: String)
    ensures
        s@ == (if input@.len() > 0 && input@.last() == ';' && output@ == "0"@ { Seq::empty() } else { output@ }),
{
    let chars = chars_of(input);
    if chars.len() > 0 && chars[chars.len() - 1] == ';' && str_eq(output, "0") {
        String::new()
    } else {
        output.to_owned()
    }
}

} // verus!
