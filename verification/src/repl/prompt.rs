//! The texts the REPL's prompt is made of, and the words it completes.

use vstd::prelude::*;
use vstd::string::StringSliceAdditionalSpecFns;

use crate::text::{concat3, nat_digits, usize_to_string};

verus! {

/// The text left of the input.
pub fn left_prompt() -> (s: &'static str)
    ensures
        s@ == "reconf "@,
{
    "reconf "
}

/// The text right of the input: the number of inputs read so far.
pub fn right_prompt(counter: usize) -> (s: String)
    ensures
        s@ == " -<"@ + nat_digits(counter as nat) + ">- "@,
{
    let n = usize_to_string(counter);
    concat3(" -<", n.as_str(), ">- ")
}

/// The start of a continuation line: as many spaces as the prompt has
/// bytes, then `| `.
pub fn multiline_indicator(prompt: &str) -> (s: String)
    ensures
        s@ == Seq::new(prompt.spec_bytes().len(), |i: int| ' ') + "| "@,
{
    let n = prompt.as_bytes().len();
    let mut out = String::new();
    let mut i: usize = 0;
    while i < n
        invariant
            i <= n,
            out@ == Seq::new(i as nat, |j: int| ' '),
        decreases n - i,
    {
        out.append(" ");
        proof {
            reveal_strlit(" ");
        }
        assert(out@ =~= Seq::new((i + 1) as nat, |j: int| ' '));
        i = i + 1;
    }
    out.append("| ");
    out
}

/// The words offered for completion.
pub open spec fn keyword_list() -> Seq<Seq<char>> {
    seq![
        "import"@, "export"@, "native"@, "type"@, "let"@, "in"@, "if"@, "then"@, "else"@,
        "true"@, "false"@, "none"@, "some"@,
    ]
}

/// The words offered for completion: the keywords and literal words.
pub fn keywords() -> (r: Vec<String>)
    ensures
        r@.len() == keyword_list().len(),
        forall|i: int| 0 <= i < r@.len() ==> #[trigger] r@[i]@ == keyword_list()[i],
{
    let words = ["import", "export", "native", "type", "let", "in", "if", "then", "else", "true", "false", "none", "some"];
    let mut out: Vec<String> = Vec::new();
    let mut i: usize = 0;
    while i < 13
        invariant
            i <= 13,
            out@.len() == i,
            forall|j: int| 0 <= j < i ==> #[trigger] out@[j]@ == words@[j]@,
        decreases 13 - i,
    {
        out.push(words[i].to_owned());
        i = i + 1;
    }
    out
}

} // verus!
