//! Pointing an error that carries no span at the part of the source it is
//! about: an unknown type at the first free-standing occurrence of its
//! name, a failed refinement at the value written before the last `:`.

use vstd::prelude::*;
use vstd::utf8::encode_utf8;

use crate::error::{ByteRange, Error};
use crate::text::{
    byte_offset, byte_offset_of, chars_of, concat3, lemma_byte_offset_mono, string_from_chars,
};

verus! {

broadcast use vstd::std_specs::vec::group_vec_axioms;

/// A character that continues an identifier.
pub open spec fn word_char(c: char) -> bool {
    let v = c as u32;
    c == '_' || c == '-' || (48 <= v && v <= 57) || (65 <= v && v <= 90) || (97 <= v && v <= 122)
}

fn is_word_char(c: char) -> (b: bool)
    ensures
        b == word_char(c),
{
    let v = c as u32;
    c == '_' || c == '-' || (48 <= v && v <= 57) || (65 <= v && v <= 90) || (97 <= v && v <= 122)
}

/// `w` occurs in `s` at index `i`.
pub open spec fn occurs_at(s: Seq<char>, w: Seq<char>, i: int) -> bool {
    0 <= i && i + w.len() <= s.len() && s.subrange(i, i + w.len()) == w
}

/// `w` occurs somewhere in `s`.
pub open spec fn contains_text(s: Seq<char>, w: Seq<char>) -> bool {
    exists|i: int| occurs_at(s, w, i)
}

/// The first index from `from` on where `w` occurs in `s`.
pub open spec fn first_occurrence(s: Seq<char>, w: Seq<char>, from: nat) -> Option<nat>
    decreases s.len() + 1 - from,
{
    if from + w.len() > s.len() {
        None
    } else if occurs_at(s, w, from as int) {
        Some(from)
    } else {
        first_occurrence(s, w, from + 1)
    }
}

pub proof fn lemma_first_occurrence(s: Seq<char>, w: Seq<char>, from: nat)
    ensures
        match first_occurrence(s, w, from) {
            Some(st) => from <= st && occurs_at(s, w, st as int)
                && forall|k: int| from <= k < st ==> !occurs_at(s, w, k),
            None => forall|k: int| from <= k ==> !occurs_at(s, w, k),
        },
    decreases s.len() + 1 - from,
{
    if from + w.len() > s.len() {
    } else if occurs_at(s, w, from as int) {
    } else {
        lemma_first_occurrence(s, w, from + 1);
    }
}

/// Neither the character before `st` nor the one at `en` continues an
/// identifier.
pub open spec fn free_standing(s: Seq<char>, st: int, en: int) -> bool {
    (st == 0 || !word_char(s[st - 1])) && (en >= s.len() || !word_char(s[en]))
}

/// The character range of the first free-standing occurrence of `w` in `s`
/// found from `from` on, where the search after an occurrence that is not
/// free-standing resumes at its end.
pub open spec fn find_word_from(s: Seq<char>, w: Seq<char>, from: nat) -> Option<(nat, nat)>
    decreases s.len() + 1 - from,
{
    match first_occurrence(s, w, from) {
        None => None,
        Some(st) => {
            if free_standing(s, st as int, (st + w.len()) as int) {
                Some((st, (st + w.len()) as nat))
            } else if w.len() == 0 {
                None
            } else {
                proof {
                    lemma_first_occurrence(s, w, from);
                }
                find_word_from(s, w, (st + w.len()) as nat)
            }
        },
    }
}

/// The search for `w` ends: an empty word is found at once only where it
/// is free-standing at the start.
pub open spec fn find_word_terminates(s: Seq<char>, w: Seq<char>) -> bool {
    w.len() > 0 || s.len() == 0 || !word_char(s[0])
}

fn matches_at(s: &Vec<char>, w: &Vec<char>, i: usize) -> (b: bool)
    requires
        i + w@.len() <= s@.len(),
    ensures
        b == occurs_at(s@, w@, i as int),
{
    let n = s.len();
    let mut k: usize = 0;
    while k < w.len()
        invariant
            k <= w@.len(),
            n == s@.len(),
            i + w@.len() <= s@.len(),
            forall|j: int| 0 <= j < k ==> s@[i + j] == w@[j],
        decreases w.len() - k,
    {
        if s[i + k] != w[k] {
            assert(s@.subrange(i as int, i + w@.len())[k as int] != w@[k as int]);
            return false;
        }
        k = k + 1;
    }
    assert(s@.subrange(i as int, i + w@.len()) =~= w@);
    true
}

fn first_occurrence_of(s: &Vec<char>, w: &Vec<char>, from: usize) -> (r: Option<usize>)
    requires
        from <= s@.len(),
    ensures
        match r {
            Some(st) => first_occurrence(s@, w@, from as nat) == Some(st as nat),
            None => first_occurrence(s@, w@, from as nat) is None,
        },
{
    if w.len() > s.len() {
        return None;
    }
    let last = s.len() - w.len();
    if from > last {
        return None;
    }
    let mut i: usize = from;
    loop
        invariant
            from <= i <= last,
            last + w@.len() == s@.len(),
            first_occurrence(s@, w@, from as nat) == first_occurrence(s@, w@, i as nat),
        decreases last - i,
    {
        if matches_at(s, w, i) {
            return Some(i);
        }
        if i == last {
            assert(first_occurrence(s@, w@, (i + 1) as nat) is None);
            return None;
        }
        i = i + 1;
    }
}

/// The byte range of the first free-standing occurrence of `word` in
/// `source`.
pub fn find_word(source: &str, word: &str) -> (r: Option<ByteRange>)
    requires
        find_word_terminates(source@, word@),
    ensures
        match find_word_from(source@, word@, 0) {
            Some((a, b)) => r matches Some(span) && span.start == byte_offset(source@, a as int)
                && span.end == byte_offset(source@, b as int),
            None => r is None,
        },
{
    let s = chars_of(source);
    let w = chars_of(word);
    let total = source.as_bytes().len();
    let mut offset: usize = 0;
    if w.len() == 0 {
        assert(s@.subrange(0, 0) =~= w@);
        assert(occurs_at(s@, w@, 0));
    }
    loop
        invariant
            s@ == source@,
            w@ == word@,
            offset <= s@.len(),
            total == encode_utf8(s@).len(),
            find_word_from(s@, w@, offset as nat) == find_word_from(s@, w@, 0),
            w@.len() == 0 ==> offset == 0 && occurs_at(s@, w@, 0),
            find_word_terminates(s@, w@),
        decreases s@.len() + 1 - offset,
    {
        match first_occurrence_of(&s, &w, offset) {
            None => {
                return None;
            },
            Some(st) => {
                proof {
                    lemma_first_occurrence(s@, w@, offset as nat);
                }
                let en = st + w.len();
                let before = st == 0 || !is_word_char(s[st - 1]);
                let after = en >= s.len() || !is_word_char(s[en]);
                if before && after {
                    let a = byte_offset_of(&s, st, total);
                    let b = byte_offset_of(&s, en, total);
                    return Some(ByteRange::new(a, b));
                }
                offset = en;
            },
        }
    }
}

/// The Unicode white space characters.
pub open spec fn white_space(c: char) -> bool {
    let v = c as u32;
    (9 <= v && v <= 13) || v == 32 || v == 0x85 || v == 0xA0 || v == 0x1680 || (0x2000 <= v && v <= 0x200A)
        || v == 0x2028 || v == 0x2029 || v == 0x202F || v == 0x205F || v == 0x3000
}

pub fn is_white_space(c: char) -> (b: bool)
    ensures
        b == white_space(c),
{
    let v = c as u32;
    (9 <= v && v <= 13) || v == 32 || v == 0x85 || v == 0xA0 || v == 0x1680 || (0x2000 <= v && v <= 0x200A)
        || v == 0x2028 || v == 0x2029 || v == 0x202F || v == 0x205F || v == 0x3000
}

/// A character that ends a value when read backwards.
pub open spec fn value_stop(c: char) -> bool {
    white_space(c) || c == '=' || c == ',' || c == '{' || c == '[' || c == '('
}

/// The index of the last `:` before index `k`.
pub open spec fn last_colon(s: Seq<char>, k: nat) -> Option<nat>
    decreases k,
{
    if k == 0 || k > s.len() {
        None
    } else if s[k - 1] == ':' {
        Some((k - 1) as nat)
    } else {
        last_colon(s, (k - 1) as nat)
    }
}

/// `k` with the white space that ends `s.take(k)` removed.
pub open spec fn trimmed_end(s: Seq<char>, k: nat) -> nat
    decreases k,
{
    if k == 0 || k > s.len() {
        k
    } else if white_space(s[k - 1]) {
        trimmed_end(s, (k - 1) as nat)
    } else {
        k
    }
}

/// Where the value that ends at `k` starts: after the last stop character
/// before `k`.
pub open spec fn value_start(s: Seq<char>, k: nat) -> nat
    decreases k,
{
    if k == 0 || k > s.len() {
        k
    } else if value_stop(s[k - 1]) {
        k
    } else {
        value_start(s, (k - 1) as nat)
    }
}

/// The characters of the value before the last `:`, when there are any.
pub open spec fn refinement_value(s: Seq<char>) -> Option<(nat, nat)> {
    match last_colon(s, s.len()) {
        None => None,
        Some(c) => {
            let e = trimmed_end(s, c);
            let b = value_start(s, e);
            if b < e {
                Some((b, e))
            } else {
                None
            }
        },
    }
}

proof fn lemma_refinement_bounds(s: Seq<char>, k: nat)
    requires
        k <= s.len(),
    ensures
        last_colon(s, k) matches Some(c) ==> c < k,
        trimmed_end(s, k) <= k,
        value_start(s, k) <= k,
    decreases k,
{
    if k > 0 {
        lemma_refinement_bounds(s, (k - 1) as nat);
    }
}

/// The byte range of the value written before the last `:` of `source`,
/// without the white space that follows it.
pub fn find_refinement_value(source: &str) -> (r: Option<ByteRange>)
    ensures
        match refinement_value(source@) {
            Some((a, b)) => r matches Some(span) && span.start == byte_offset(source@, a as int)
                && span.end == byte_offset(source@, b as int),
            None => r is None,
        },
{
    let s = chars_of(source);
    let total = source.as_bytes().len();
    let mut k: usize = s.len();
    while k > 0 && s[k - 1] != ':'
        invariant
            k <= s@.len(),
            last_colon(s@, k as nat) == last_colon(s@, s@.len()),
        decreases k,
    {
        k = k - 1;
    }
    if k == 0 {
        return None;
    }
    let colon = k - 1;
    let mut e: usize = colon;
    while e > 0 && is_white_space(s[e - 1])
        invariant
            e <= colon < s@.len(),
            trimmed_end(s@, e as nat) == trimmed_end(s@, colon as nat),
        decreases e,
    {
        e = e - 1;
    }
    let mut b: usize = e;
    while b > 0 && !(is_white_space(s[b - 1]) || s[b - 1] == '=' || s[b - 1] == ',' || s[b - 1] == '{'
        || s[b - 1] == '[' || s[b - 1] == '(')
        invariant
            b <= e < s@.len(),
            e == trimmed_end(s@, colon as nat),
            value_start(s@, b as nat) == value_start(s@, e as nat),
        decreases b,
    {
        b = b - 1;
    }
    if b < e {
        let start = byte_offset_of(&s, b, total);
        let end = byte_offset_of(&s, e, total);
        Some(ByteRange::new(start, end))
    } else {
        None
    }
}

/// The type name in a message of the form ``unknown type `name` ``.
pub open spec fn named_unknown_type_spec(m: Seq<char>) -> Option<Seq<char>> {
    let p = "unknown type `"@;
    if m.len() >= p.len() + 1 && m.take(p.len() as int) == p && m.last() == '`' {
        Some(m.subrange(p.len() as int, m.len() - 1))
    } else {
        None
    }
}

/// The name an ``unknown type `name` `` message is about.
pub fn named_unknown_type(message: &str) -> (r: Option<String>)
    ensures
        match named_unknown_type_spec(message@) {
            Some(t) => r matches Some(name) && name@ == t,
            None => r is None,
        },
{
    let m = chars_of(message);
    let p = chars_of("unknown type `");
    proof {
        reveal_strlit("unknown type `");
    }
    if m.len() < p.len() + 1 || m[m.len() - 1] != '`' {
        return None;
    }
    let mut i: usize = 0;
    while i < p.len()
        invariant
            i <= p@.len(),
            m@ == message@,
            p@ == "unknown type `"@,
            p@.len() + 1 <= m@.len(),
            forall|j: int| 0 <= j < i ==> m@[j] == p@[j],
        decreases p.len() - i,
    {
        if m[i] != p[i] {
            assert(m@.take(p@.len() as int)[i as int] != p@[i as int]);
            return None;
        }
        i = i + 1;
    }
    assert(m@.take(p@.len() as int) =~= p@);
    let mut name: Vec<char> = Vec::new();
    let mut k: usize = p.len();
    while k < m.len() - 1
        invariant
            p@.len() <= k <= m@.len() - 1,
            name@ == m@.subrange(p@.len() as int, k as int),
        decreases m.len() - 1 - k,
    {
        name.push(m[k]);
        assert(name@ =~= m@.subrange(p@.len() as int, k + 1));
        k = k + 1;
    }
    Some(string_from_chars(name.as_slice()))
}

/// The span and label that `attach_best_effort_span` adds for a message and
/// a source, in characters: an unknown type's first free-standing name,
/// otherwise, for a failed refinement, the value before the last `:`.
pub open spec fn best_effort_label(m: Seq<char>, s: Seq<char>) -> Option<(nat, nat, Seq<char>)> {
    let by_type = match named_unknown_type_spec(m) {
        Some(t) => match find_word_from(s, t, 0) {
            Some((a, b)) => Some((a, b, "unknown type `"@ + t + "`"@)),
            None => None,
        },
        None => None,
    };
    if by_type is Some {
        by_type
    } else if contains_text(m, "refinement failed"@) {
        match refinement_value(s) {
            Some((a, b)) => Some((a, b, "value does not satisfy refinement"@)),
            None => None,
        }
    } else {
        None
    }
}

/// Attaches `source` under `name` to an error and labels the span it is
/// most likely about, when its message names an unknown type or a failed
/// refinement and that span is found; any other error is returned as it is.
pub fn attach_best_effort_span(error: Error, name: &str, source: &str) -> (e: Error)
    requires
        named_unknown_type_spec(error.message_spec()) matches Some(t) ==> find_word_terminates(source@, t),
    ensures
        match best_effort_label(error.message_spec(), source@) {
            Some((a, b, label)) => {
                &&& e.code_spec() == error.code_spec()
                &&& e.message_spec() == error.message_spec()
                &&& e.notes_spec() == error.notes_spec()
                &&& e.source_spec() matches Some(src) && src.name@ == name@ && src.text@ == source@
                &&& e.labels_spec().len() == error.labels_spec().len() + 1
                &&& e.labels_spec().drop_last() == error.labels_spec()
                &&& e.labels_spec().last().span.start == byte_offset(source@, a as int)
                &&& e.labels_spec().last().span.end == byte_offset(source@, b as int)
                &&& e.labels_spec().last().message@ == label
            },
            None => e == error,
        },
{
    let ghost s = source@;
    proof {
        reveal_strlit("unknown type `");
        reveal_strlit("`");
    }
    match named_unknown_type(error.message()) {
        Some(found_name) => {
            match find_word(source, found_name.as_str()) {
                Some(span) => {
                    proof {
                        let (a, b) = find_word_from(s, found_name@, 0)->0;
                        lemma_find_word_range(s, found_name@, 0);
                        lemma_byte_offset_mono(s, a as int, b as int);
                    }
                    let label = concat3("unknown type `", found_name.as_str(), "`");
                    return error.with_source(name, source).with_label(span, label.as_str());
                },
                None => {},
            }
        },
        None => {},
    }
    let m = chars_of(error.message());
    let pattern = chars_of("refinement failed");
    let found = first_occurrence_of(&m, &pattern, 0);
    proof {
        lemma_first_occurrence(m@, pattern@, 0);
    }
    if found.is_some() {
        match find_refinement_value(source) {
            Some(span) => {
                proof {
                    let (a, b) = refinement_value(s)->0;
                    lemma_byte_offset_mono(s, a as int, b as int);
                    let c = last_colon(s, s.len())->0;
                    lemma_refinement_bounds(s, s.len());
                    lemma_refinement_bounds(s, c);
                    lemma_refinement_bounds(s, trimmed_end(s, c));
                }
                return error.with_source(name, source).with_label(span, "value does not satisfy refinement");
            },
            None => {},
        }
    }
    error
}

/// A found word spans its own characters, inside the source.
proof fn lemma_find_word_range(s: Seq<char>, w: Seq<char>, from: nat)
    ensures
        find_word_from(s, w, from) matches Some((a, b)) ==> a <= b <= s.len() && b == a + w.len(),
    decreases s.len() + 1 - from,
{
    lemma_first_occurrence(s, w, from);
    match first_occurrence(s, w, from) {
        None => {},
        Some(st) => {
            if !free_standing(s, st as int, (st + w.len()) as int) && w.len() > 0 {
                lemma_find_word_range(s, w, (st + w.len()) as nat);
            }
        },
    }
}

} // verus!
