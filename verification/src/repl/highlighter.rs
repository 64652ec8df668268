//! What the REPL highlights: the syntax definition it hands to the
//! highlighter, and the words of a line that are known type names.

use vstd::prelude::*;
use vstd::string::StringSliceAdditionalSpecFns;

use crate::repl::semantic::SemanticState;

verus! {

broadcast use vstd::std_specs::vec::group_vec_axioms;

/// The text of the syntax definition.
pub const SYNTAX_DEFINITION: &'static str = "%YAML 1.2\n---\nname: ReConf\nfile_extensions:\n  - reconf\nscope: source.reconf\n\nvariables:\n  ident: '[A-Za-z_][A-Za-z0-9_-]*'\n\ncontexts:\n  main:\n    - include: comments\n    - include: strings\n    - include: keywords\n    - include: literals\n    - include: numbers\n    - include: types\n    - include: identifiers\n    - include: operators\n\n  comments:\n    - match: '#.*$'\n      scope: comment.line.number-sign.reconf\n\n  strings:\n    - match: '\"'\n      scope: punctuation.definition.string.begin.reconf\n      push:\n        - meta_scope: string.quoted.double.reconf\n        - match: '\\\\.'\n          scope: constant.character.escape.reconf\n        - match: '\"'\n          scope: punctuation.definition.string.end.reconf\n          pop: true\n\n  keywords:\n    - match: '\\b(import|export|native|type|let|in|if|then|else)\\b'\n      scope: keyword.control.reconf\n\n  literals:\n    - match: '\\b(true|false|none|some)\\b'\n      scope: constant.language.reconf\n\n  numbers:\n    - match: '\\b[0-9]+(\\.[0-9]+)?\\b'\n      scope: constant.numeric.reconf\n\n  types:\n    - match: '\\b[A-Z][A-Za-z0-9_]*\\b'\n      scope: entity.name.type.reconf\n\n  identifiers:\n    - match: '{{ident}}'\n      scope: variable.other.reconf\n\n  operators:\n    - match: '==|!=|<=|>=|&&|\\|\\||->|\\+\\+|[-+*/%<>=!|:.,;]'\n      scope: keyword.operator.reconf\n";

/// The syntax definition of the language, in the sublime-syntax format.
/// Keywords and literals are listed on their own; type names and ordinary
/// identifiers (the native functions among them) have rules of their own.
pub fn syntax_definition_source() -> (s: &'static str)
    ensures
        s@ == SYNTAX_DEFINITION@,
{
    SYNTAX_DEFINITION
}

/// A byte that can start an identifier.
pub open spec fn ident_start(b: u8) -> bool {
    b == 95 || (65 <= b && b <= 90) || (97 <= b && b <= 122)
}

/// A byte that can continue an identifier.
pub open spec fn ident_continue(b: u8) -> bool {
    ident_start(b) || b == 45 || (48 <= b && b <= 57)
}

/// The end of the identifier run that continues at `i`.
pub open spec fn ident_end(s: Seq<u8>, i: nat) -> nat
    decreases s.len() - i,
{
    if i < s.len() && ident_continue(s[i as int]) {
        ident_end(s, i + 1)
    } else {
        i
    }
}

pub proof fn lemma_ident_end(s: Seq<u8>, i: nat)
    ensures
        ident_end(s, i) >= i,
        i <= s.len() ==> ident_end(s, i) <= s.len(),
    decreases s.len() - i,
{
    if i < s.len() && ident_continue(s[i as int]) {
        lemma_ident_end(s, i + 1);
    }
}

/// ASCII bytes as characters.
pub open spec fn ascii_chars(s: Seq<u8>) -> Seq<char> {
    s.map_values(|b: u8| b as char)
}

/// The spans, from byte `i` on, of the identifiers outside strings and
/// comments that are known type names.
pub open spec fn spans_from(s: Seq<u8>, i: nat, in_string: bool, escaped: bool, names: Seq<Seq<char>>) -> Seq<(usize, usize)>
    decreases s.len() - i,
{
    if i >= s.len() {
        Seq::empty()
    } else if in_string {
        if escaped {
            spans_from(s, i + 1, true, false, names)
        } else if s[i as int] == 92 {
            spans_from(s, i + 1, true, true, names)
        } else if s[i as int] == 34 {
            spans_from(s, i + 1, false, false, names)
        } else {
            spans_from(s, i + 1, true, false, names)
        }
    } else if s[i as int] == 35 {
        Seq::empty()
    } else if s[i as int] == 34 {
        spans_from(s, i + 1, true, false, names)
    } else if ident_start(s[i as int]) {
        let e = ident_end(s, i + 1);
        proof {
            lemma_ident_end(s, i + 1);
        }
        if names.contains(ascii_chars(s.subrange(i as int, e as int))) {
            seq![(i as usize, e as usize)] + spans_from(s, e, false, false, names)
        } else {
            spans_from(s, e, false, false, names)
        }
    } else {
        spans_from(s, i + 1, false, false, names)
    }
}

/// The byte spans of the words of `line` that `semantics` knows as type
/// names; words inside strings and comments do not count.
pub fn semantic_type_spans_for_test(line: &str, semantics: &SemanticState) -> (r: Vec<(usize, usize)>)
    ensures
        r@ == spans_from(line.spec_bytes(), 0, false, false, semantics.names_spec()),
{
    let bytes = line.as_bytes();
    let ghost s = bytes@;
    let ghost names = semantics.names_spec();
    let mut out: Vec<(usize, usize)> = Vec::new();
    let mut in_string = false;
    let mut escaped = false;
    let mut i: usize = 0;
    while i < bytes.len()
        invariant
            i <= bytes@.len(),
            s == bytes@,
            s == line.spec_bytes(),
            names == semantics.names_spec(),
            out@ + spans_from(s, i as nat, in_string, escaped, names) == spans_from(s, 0, false, false, names),
            !in_string ==> !escaped,
        decreases bytes.len() - i,
    {
        let b = bytes[i];
        if in_string {
            if escaped {
                escaped = false;
            } else if b == 92 {
                escaped = true;
            } else if b == 34 {
                in_string = false;
            }
            i = i + 1;
        } else if b == 35 {
            assert(out@ + Seq::<(usize, usize)>::empty() =~= out@);
            return out;
        } else if b == 34 {
            in_string = true;
            i = i + 1;
        } else if b == 95 || (65 <= b && b <= 90) || (97 <= b && b <= 122) {
            let start = i;
            let mut j: usize = i + 1;
            let mut word: Vec<char> = Vec::new();
            word.push(b as char);
            while j < bytes.len() && (bytes[j] == 95 || (65 <= bytes[j] && bytes[j] <= 90) || (97 <= bytes[j] && bytes[j] <= 122)
                || bytes[j] == 45 || (48 <= bytes[j] && bytes[j] <= 57))
                invariant
                    start < j <= bytes@.len(),
                    s == bytes@,
                    ident_end(s, (start + 1) as nat) == ident_end(s, j as nat),
                    word@ == ascii_chars(s.subrange(start as int, j as int)),
                decreases bytes.len() - j,
            {
                let ghost w0 = word@;
                word.push(bytes[j] as char);
                assert(ascii_chars(s.subrange(start as int, j + 1)) =~= w0.push(bytes[j as int] as char));
                j = j + 1;
            }
            assert(ident_end(s, j as nat) == j);
            let name = crate::text::string_from_chars(word.as_slice());
            let known = semantics.contains_type(name.as_str());
            proof {
                lemma_ident_end(s, (start + 1) as nat);
            }
            if known {
                let ghost before = out@;
                out.push((start, j));
                assert(before + spans_from(s, start as nat, false, false, names) =~= out@ + spans_from(s, j as nat, false, false, names));
            }
            in_string = false;
            escaped = false;
            i = j;
        } else {
            i = i + 1;
        }
    }
    assert(out@ + Seq::<(usize, usize)>::empty() =~= out@);
    out
}

/// A run of one highlighted piece: its bytes `start..end`, counted from the
/// start of the piece, drawn as a type name when `semantic`, otherwise in
/// the piece's own style.
#[derive(Debug, Clone, Copy, PartialEq, Eq, Structural)]
pub struct StyledRun {
    pub piece: usize,
    pub start: usize,
    pub end: usize,
    pub semantic: bool,
}

/// The total length of the pieces.
pub open spec fn total_len(lens: Seq<usize>) -> nat
    decreases lens.len(),
{
    if lens.len() == 0 {
        0
    } else {
        total_len(lens.drop_last()) + lens.last() as nat
    }
}

pub open spec fn spec_max(a: int, b: int) -> int {
    if a >= b { a } else { b }
}

pub open spec fn spec_min(a: int, b: int) -> int {
    if a <= b { a } else { b }
}

/// The runs of piece `p`, which covers the line's bytes `ps..pe`, from span
/// `k` on, with the bytes before `cursor` already drawn: each span that
/// meets the piece draws the bytes before it in the piece's style and its
/// own part of the piece as a type name; what is left after the last span
/// is drawn in the piece's style.
pub open spec fn piece_runs(p: nat, ps: int, pe: int, spans: Seq<(usize, usize)>, k: nat, cursor: int) -> Seq<StyledRun>
    decreases spans.len() - k,
{
    if k >= spans.len() {
        if cursor < pe {
            seq![StyledRun { piece: p as usize, start: (cursor - ps) as usize, end: (pe - ps) as usize, semantic: false }]
        } else {
            Seq::empty()
        }
    } else {
        let ss = spans[k as int].0 as int;
        let se = spans[k as int].1 as int;
        if se <= ps || ss >= pe {
            piece_runs(p, ps, pe, spans, k + 1, cursor)
        } else {
            let start = spec_max(ss, ps);
            let end = spec_min(se, pe);
            let before = if cursor < start {
                seq![StyledRun { piece: p as usize, start: (cursor - ps) as usize, end: (start - ps) as usize, semantic: false }]
            } else {
                Seq::empty()
            };
            before + seq![StyledRun { piece: p as usize, start: (start - ps) as usize, end: (end - ps) as usize, semantic: true }]
                + piece_runs(p, ps, pe, spans, k + 1, end)
        }
    }
}

/// The runs of the pieces from piece `p` on.
pub open spec fn runs_from(lens: Seq<usize>, spans: Seq<(usize, usize)>, p: nat) -> Seq<StyledRun>
    decreases lens.len() - p,
{
    if p >= lens.len() {
        Seq::empty()
    } else {
        let ps = total_len(lens.take(p as int)) as int;
        piece_runs(p, ps, ps + lens[p as int], spans, 0, ps) + runs_from(lens, spans, p + 1)
    }
}

/// Span `span` meets piece `p`.
pub open spec fn meets(lens: Seq<usize>, p: int, span: (usize, usize)) -> bool {
    (span.1 as int) > total_len(lens.take(p)) && (span.0 as int) < total_len(lens.take(p)) + lens[p]
}

/// No span that meets a piece ends before it starts (such a span cannot be
/// cut out of the piece).
pub open spec fn spans_cut_cleanly(lens: Seq<usize>, spans: Seq<(usize, usize)>) -> bool {
    forall|p: int, k: int| 0 <= p < lens.len() && 0 <= k < spans.len() && #[trigger] meets(lens, p, spans[k])
        ==> spans[k].0 <= spans[k].1
}

proof fn lemma_total_len_take(lens: Seq<usize>, p: int)
    requires
        0 <= p < lens.len(),
    ensures
        total_len(lens.take(p + 1)) == total_len(lens.take(p)) + lens[p],
        total_len(lens.take(p + 1)) <= total_len(lens),
    decreases lens.len() - p,
{
    assert(lens.take(p + 1).drop_last() =~= lens.take(p));
    if p + 1 < lens.len() {
        lemma_total_len_take(lens, p + 1);
    } else {
        assert(lens.take(p + 1) =~= lens);
    }
}

fn piece_runs_into(out: &mut Vec<StyledRun>, p: usize, ps: usize, pe: usize, spans: &Vec<(usize, usize)>)
    requires
        ps <= pe,
        forall|k: int| 0 <= k < spans@.len() && (spans@[k].1 as int) > ps && (spans@[k].0 as int) < pe
            ==> spans@[k].0 <= spans@[k].1,
    ensures
        final(out)@ == old(out)@ + piece_runs(p as nat, ps as int, pe as int, spans@, 0, ps as int),
{
    let ghost start_out = out@;
    let mut cursor: usize = ps;
    let mut k: usize = 0;
    while k < spans.len()
        invariant
            ps <= pe,
            forall|j: int| 0 <= j < spans@.len() && (spans@[j].1 as int) > ps && (spans@[j].0 as int) < pe
                ==> spans@[j].0 <= spans@[j].1,
            k <= spans@.len(),
            ps <= cursor <= usize::MAX,
            out@ + piece_runs(p as nat, ps as int, pe as int, spans@, k as nat, cursor as int)
                == start_out + piece_runs(p as nat, ps as int, pe as int, spans@, 0, ps as int),
        decreases spans.len() - k,
    {
        let (ss, se) = spans[k];
        if se <= ps || ss >= pe {
        } else {
            let start = if ss >= ps { ss } else { ps };
            let end = if se <= pe { se } else { pe };
            let ghost before = out@;
            let ghost rest = piece_runs(p as nat, ps as int, pe as int, spans@, (k + 1) as nat, end as int);
            if cursor < start {
                out.push(StyledRun { piece: p, start: cursor - ps, end: start - ps, semantic: false });
            }
            out.push(StyledRun { piece: p, start: start - ps, end: end - ps, semantic: true });
            proof {
                let b = if (cursor as int) < (start as int) {
                    seq![StyledRun { piece: p, start: (cursor - ps) as usize, end: (start - ps) as usize, semantic: false }]
                } else {
                    Seq::<StyledRun>::empty()
                };
                assert(out@ =~= before + b + seq![StyledRun { piece: p, start: (start - ps) as usize, end: (end - ps) as usize, semantic: true }]);
                assert(out@ + rest =~= before + (b + seq![StyledRun { piece: p, start: (start - ps) as usize, end: (end - ps) as usize, semantic: true }] + rest));
            }
            cursor = end;
        }
        k = k + 1;
    }
    if cursor < pe {
        let ghost before = out@;
        out.push(StyledRun { piece: p, start: cursor - ps, end: pe - ps, semantic: false });
        assert(out@ =~= before + piece_runs(p as nat, ps as int, pe as int, spans@, k as nat, cursor as int));
    } else {
        assert(out@ + Seq::<StyledRun>::empty() =~= out@);
    }
}

/// Cuts highlighted pieces of a line (given by their byte lengths, in
/// order) where the type-name spans of the line fall: each piece becomes
/// its runs in order, as `piece_runs` describes.
pub fn apply_semantic_spans(piece_lens: &Vec<usize>, spans: &Vec<(usize, usize)>) -> (r: Vec<StyledRun>)
    requires
        total_len(piece_lens@) <= usize::MAX,
        spans_cut_cleanly(piece_lens@, spans@),
    ensures
        r@ == runs_from(piece_lens@, spans@, 0),
{
    let mut out: Vec<StyledRun> = Vec::new();
    let mut offset: usize = 0;
    let mut p: usize = 0;
    assert(piece_lens@.take(0) =~= Seq::<usize>::empty());
    while p < piece_lens.len()
        invariant
            p <= piece_lens@.len(),
            total_len(piece_lens@) <= usize::MAX,
            offset == total_len(piece_lens@.take(p as int)),
            spans_cut_cleanly(piece_lens@, spans@),
            out@ + runs_from(piece_lens@, spans@, p as nat) == runs_from(piece_lens@, spans@, 0),
        decreases piece_lens.len() - p,
    {
        proof {
            lemma_total_len_take(piece_lens@, p as int);
        }
        let end = offset + piece_lens[p];
        let ghost before = out@;
        proof {
            assert forall|k: int| 0 <= k < spans@.len() && (spans@[k].1 as int) > offset && (spans@[k].0 as int) < end
                implies spans@[k].0 <= spans@[k].1 by {
                assert(meets(piece_lens@, p as int, spans@[k]));
            }
        }
        piece_runs_into(&mut out, p, offset, end, spans);
        assert(out@ + runs_from(piece_lens@, spans@, (p + 1) as nat) =~= before + runs_from(piece_lens@, spans@, p as nat));
        offset = end;
        p = p + 1;
    }
    assert(out@ + Seq::<StyledRun>::empty() =~= out@);
    out
}

} // verus!
