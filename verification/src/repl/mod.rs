//! The interactive loop's logic: when an input is complete, what the
//! evaluator answers, and which words are highlighted as types.

use vstd::prelude::*;
use vstd::string::StringSliceAdditionalSpecFns;

pub mod diagnostics;
pub mod eval;
pub mod highlighter;
pub mod input;
pub mod prompt;
pub mod semantic;

verus! {

broadcast use vstd::std_specs::vec::group_vec_axioms;

/// Where a scan of the input stands: the brackets still open, whether it
/// is inside a string (just after a backslash in it) or a comment, and
/// whether a bracket was closed that was not open.
pub struct ScanState {
    pub open: Seq<u8>,
    pub in_string: bool,
    pub escaped: bool,
    pub in_comment: bool,
    pub broken: bool,
}

/// The opening bracket a closing one matches.
pub open spec fn opener(b: u8) -> u8 {
    if b == 41 {
        40
    } else if b == 93 {
        91
    } else {
        123
    }
}

/// One byte of the scan. A string runs to the next unescaped `"`, a comment
/// from `#` to the end of the line.
pub open spec fn scan_step(st: ScanState, b: u8) -> ScanState {
    if st.broken {
        st
    } else if st.in_comment {
        if b == 10 {
            ScanState { in_comment: false, ..st }
        } else {
            st
        }
    } else if st.in_string {
        if st.escaped {
            ScanState { escaped: false, ..st }
        } else if b == 92 {
            ScanState { escaped: true, ..st }
        } else if b == 34 {
            ScanState { in_string: false, ..st }
        } else {
            st
        }
    } else if b == 34 {
        ScanState { in_string: true, ..st }
    } else if b == 35 {
        ScanState { in_comment: true, ..st }
    } else if b == 40 || b == 91 || b == 123 {
        ScanState { open: st.open.push(b), ..st }
    } else if b == 41 || b == 93 || b == 125 {
        if st.open.len() > 0 && st.open.last() == opener(b) {
            ScanState { open: st.open.drop_last(), ..st }
        } else {
            ScanState { broken: true, ..st }
        }
    } else {
        st
    }
}

/// The state after scanning the bytes.
pub open spec fn scan(s: Seq<u8>) -> ScanState
    decreases s.len(),
{
    if s.len() == 0 {
        ScanState { open: Seq::empty(), in_string: false, escaped: false, in_comment: false, broken: false }
    } else {
        scan_step(scan(s.drop_last()), s.last())
    }
}

/// Input is complete when every bracket opened is closed, in order, and no
/// string is left open.
pub open spec fn complete_spec(s: Seq<u8>) -> bool {
    let st = scan(s);
    !st.broken && !st.in_string && st.open.len() == 0
}

/// Whether the input can be evaluated as it is, or more lines are needed.
pub fn is_complete_reconf_input(input: &str) -> (b: bool)
    ensures
        b == complete_spec(input.spec_bytes()),
{
    let bytes = input.as_bytes();
    let mut open: Vec<u8> = Vec::new();
    let mut in_string = false;
    let mut escaped = false;
    let mut in_comment = false;
    let mut broken = false;
    let mut i: usize = 0;
    assert(bytes@.take(0) =~= Seq::<u8>::empty());
    while i < bytes.len()
        invariant
            i <= bytes@.len(),
            bytes@ == input.spec_bytes(),
            scan(bytes@.take(i as int)) == (ScanState { open: open@, in_string, escaped, in_comment, broken }),
        decreases bytes.len() - i,
    {
        let b = bytes[i];
        assert(bytes@.take(i + 1).drop_last() =~= bytes@.take(i as int));
        if broken {
        } else if in_comment {
            if b == 10 {
                in_comment = false;
            }
        } else if in_string {
            if escaped {
                escaped = false;
            } else if b == 92 {
                escaped = true;
            } else if b == 34 {
                in_string = false;
            }
        } else if b == 34 {
            in_string = true;
        } else if b == 35 {
            in_comment = true;
        } else if b == 40 || b == 91 || b == 123 {
            open.push(b);
        } else if b == 41 || b == 93 || b == 125 {
            let want: u8 = if b == 41 {
                40
            } else if b == 93 {
                91
            } else {
                123
            };
            if open.len() > 0 && open[open.len() - 1] == want {
                let ghost before = open@;
                open.pop();
                assert(open@ =~= before.drop_last());
            } else {
                broken = true;
            }
        }
        i = i + 1;
    }
    assert(bytes@.take(i as int) =~= bytes@);
    !broken && !in_string && open.len() == 0
}

} // verus!
