//! Lexical normalization of module paths: `.` segments and empty segments
//! are dropped, and `..` removes the segment before it, so that one file
//! reached by two spellings of its path is one module.

use vstd::prelude::*;

use crate::text::{chars_of, string_from_chars};

verus! {

broadcast use vstd::std_specs::vec::group_vec_axioms;

pub open spec fn is_dot(seg: Seq<char>) -> bool {
    seg.len() == 1 && seg[0] == '.'
}

pub open spec fn is_dot_dot(seg: Seq<char>) -> bool {
    seg.len() == 2 && seg[0] == '.' && seg[1] == '.'
}

/// The segments kept so far, after the segment `seg`: an empty or `.`
/// segment adds nothing, and `..` removes the last kept name; at the root
/// of an absolute path it is dropped, and in a relative path with no name
/// left to remove it is kept.
pub open spec fn seg_step(out: Seq<Seq<char>>, seg: Seq<char>, abs: bool) -> Seq<Seq<char>> {
    if seg.len() == 0 || is_dot(seg) {
        out
    } else if is_dot_dot(seg) {
        if out.len() > 0 && !is_dot_dot(out.last()) {
            out.drop_last()
        } else if abs {
            out
        } else {
            out.push(seg)
        }
    } else {
        out.push(seg)
    }
}

/// The segments kept and the segment being read after the characters `p`.
pub open spec fn scan(p: Seq<char>, abs: bool) -> (Seq<Seq<char>>, Seq<char>)
    decreases p.len(),
{
    if p.len() == 0 {
        (Seq::empty(), Seq::empty())
    } else {
        let (out, cur) = scan(p.drop_last(), abs);
        if p.last() == '/' {
            (seg_step(out, cur, abs), Seq::empty())
        } else {
            (out, cur.push(p.last()))
        }
    }
}

/// The state after reading the characters `b` from the state `st`.
pub open spec fn scan_from(st: (Seq<Seq<char>>, Seq<char>), b: Seq<char>, abs: bool) -> (Seq<Seq<char>>, Seq<char>)
    decreases b.len(),
{
    if b.len() == 0 {
        st
    } else {
        let (out, cur) = scan_from(st, b.drop_last(), abs);
        if b.last() == '/' {
            (seg_step(out, cur, abs), Seq::empty())
        } else {
            (out, cur.push(b.last()))
        }
    }
}

/// Reading `a + b` is reading `a`, then `b`.
pub proof fn lemma_scan_append(a: Seq<char>, b: Seq<char>, abs: bool)
    ensures
        scan(a + b, abs) == scan_from(scan(a, abs), b, abs),
    decreases b.len(),
{
    if b.len() == 0 {
        assert(a + b =~= a);
    } else {
        lemma_scan_append(a, b.drop_last(), abs);
        assert((a + b).drop_last() =~= a + b.drop_last());
    }
}

/// After a segment has ended, a `./` segment changes nothing.
pub proof fn lemma_dot_segment(x: Seq<char>, y: Seq<char>, abs: bool)
    requires
        scan(x, abs).1.len() == 0,
    ensures
        scan(x + seq!['.', '/'] + y, abs) == scan(x + y, abs),
{
    let d = seq!['.', '/'];
    let st = scan(x, abs);
    lemma_scan_append(x, d, abs);
    assert(d.drop_last() =~= seq!['.']);
    assert(seq!['.'].drop_last() =~= Seq::<char>::empty());
    assert(scan_from(st, Seq::<char>::empty(), abs) == st);
    assert(st.1.push('.') =~= seq!['.']);
    assert(scan_from(st, seq!['.'], abs) == (st.0, seq!['.']));
    assert(is_dot(seq!['.']));
    assert(seg_step(st.0, seq!['.'], abs) == st.0);
    assert(scan_from(st, d, abs) == (st.0, Seq::<char>::empty()));
    assert(st.1 =~= Seq::<char>::empty());
    assert(scan(x + d, abs) == scan(x, abs));
    lemma_scan_append(x + d, y, abs);
    lemma_scan_append(x, y, abs);
    assert(x + d + y =~= (x + d) + y);
}

/// The segments joined by `/`.
pub open spec fn joined(segs: Seq<Seq<char>>) -> Seq<char>
    decreases segs.len(),
{
    if segs.len() == 0 {
        Seq::empty()
    } else if segs.len() == 1 {
        segs[0]
    } else {
        joined(segs.drop_last()) + seq!['/'] + segs.last()
    }
}

/// The normal form of a path: its kept segments joined by `/`, after a
/// `/` when the path is absolute, and `.` for a relative path that keeps
/// none.
pub open spec fn normalize_spec(p: Seq<char>) -> Seq<char> {
    let abs = p.len() > 0 && p[0] == '/';
    let segs = seg_step(scan(p, abs).0, scan(p, abs).1, abs);
    if abs {
        seq!['/'] + joined(segs)
    } else if segs.len() == 0 {
        seq!['.']
    } else {
        joined(segs)
    }
}

pub open spec fn segs_view(v: Seq<Vec<char>>) -> Seq<Seq<char>> {
    v.map_values(|x: Vec<char>| x@)
}

fn dot_dot(seg: &Vec<char>) -> (b: bool)
    ensures
        b == is_dot_dot(seg@),
{
    seg.len() == 2 && seg[0] == '.' && seg[1] == '.'
}

/// Keeps the segment `seg` in `out` as `seg_step` does.
fn step(out: &mut Vec<Vec<char>>, seg: Vec<char>, abs: bool)
    ensures
        segs_view(final(out)@) == seg_step(segs_view(old(out)@), seg@, abs),
{
    let ghost before = segs_view(out@);
    if seg.len() == 0 || (seg.len() == 1 && seg[0] == '.') {
        return;
    }
    if dot_dot(&seg) {
        let n = out.len();
        if n > 0 && !dot_dot(&out[n - 1]) {
            assert(before.last() == out@[n - 1]@);
            out.pop();
            assert(segs_view(out@) =~= before.drop_last());
            return;
        }
        if abs {
            return;
        }
    }
    out.push(seg);
    assert(segs_view(out@) =~= before.push(seg@));
}

/// The normal form of a path.
pub fn normalize_path(path: &str) -> (r: String)
    ensures
        r@ == normalize_spec(path@),
{
    let chars = chars_of(path);
    let abs = chars.len() > 0 && chars[0] == '/';
    let mut out: Vec<Vec<char>> = Vec::new();
    let mut cur: Vec<char> = Vec::new();
    let mut i: usize = 0;
    while i < chars.len()
        invariant
            i <= chars@.len(),
            abs == (chars@.len() > 0 && chars@[0] == '/'),
            (segs_view(out@), cur@) == scan(chars@.take(i as int), abs),
        decreases chars.len() - i,
    {
        let c = chars[i];
        assert(chars@.take(i + 1).drop_last() =~= chars@.take(i as int));
        if c == '/' {
            let seg = cur;
            cur = Vec::new();
            step(&mut out, seg, abs);
        } else {
            cur.push(c);
        }
        i = i + 1;
    }
    assert(chars@.take(chars@.len() as int) =~= chars@);
    step(&mut out, cur, abs);
    let ghost segs = segs_view(out@);
    let mut text: Vec<char> = Vec::new();
    let mut k: usize = 0;
    while k < out.len()
        invariant
            k <= out@.len(),
            segs == segs_view(out@),
            text@ == joined(segs.take(k as int)),
        decreases out.len() - k,
    {
        assert(segs.take(k + 1).drop_last() =~= segs.take(k as int));
        assert(segs.take(k + 1).last() == out@[k as int]@);
        if k > 0 {
            text.push('/');
        }
        crate::emit::push_chars(&mut text, &out[k]);
        assert(k == 0 ==> text@ =~= joined(segs.take(k + 1)));
        k = k + 1;
    }
    assert(segs.take(segs.len() as int) =~= segs);
    let mut result: Vec<char> = Vec::new();
    if abs {
        result.push('/');
        crate::emit::push_chars(&mut result, &text);
        assert(result@ =~= seq!['/'] + joined(segs));
    } else if out.len() == 0 {
        result.push('.');
        assert(result@ =~= seq!['.']);
    } else {
        result = text;
    }
    string_from_chars(result.as_slice())
}

} // verus!
