//! JSON for output values: options become `null` or their content, and
//! records are objects with their fields in name order. With `pretty`, each
//! item goes on a line of its own, indented two spaces per level.

use vstd::prelude::*;

use crate::emit::{push_chars, push_str};
use crate::error::{Error, ErrorCode, Result};
use crate::eval::value::{lemma_value_fields_view, lemma_values_view, value_fields_view, values_view, SpecValue, Value};
use crate::resolve::modules::{any_field_function_spec, any_function_spec, contains_function_spec};
use crate::text::{chars_of, int_text, int_to_string};

verus! {

broadcast use vstd::std_specs::vec::group_vec_axioms;

/// The control characters: U+0000 to U+001F and U+007F to U+009F.
pub open spec fn is_control(c: char) -> bool {
    (c as u32) < 0x20 || (0x7f <= (c as u32) && (c as u32) <= 0x9f)
}

/// The hexadecimal digit of `d`, in lower case.
pub open spec fn hex_digit(d: nat) -> char {
    "0123456789abcdef"@[d as int]
}

/// Four hexadecimal digits of `n`.
pub open spec fn hex4(n: nat) -> Seq<char> {
    seq![hex_digit(n / 4096 % 16), hex_digit(n / 256 % 16), hex_digit(n / 16 % 16), hex_digit(n % 16)]
}

/// How one character is written inside a JSON string.
pub open spec fn json_char(c: char) -> Seq<char> {
    if c == '"' {
        seq!['\\', '"']
    } else if c == '\\' {
        seq!['\\', '\\']
    } else if c == '\n' {
        seq!['\\', 'n']
    } else if c == '\r' {
        seq!['\\', 'r']
    } else if c == '\t' {
        seq!['\\', 't']
    } else if is_control(c) {
        seq!['\\', 'u'] + hex4(c as u32 as nat)
    } else {
        seq![c]
    }
}

pub open spec fn json_chars_spec(s: Seq<char>) -> Seq<char>
    decreases s.len(),
{
    if s.len() == 0 {
        Seq::empty()
    } else {
        json_char(s[0]) + json_chars_spec(s.drop_first())
    }
}

/// A JSON string literal.
pub open spec fn json_string_spec(s: Seq<char>) -> Seq<char> {
    seq!['"'] + json_chars_spec(s) + seq!['"']
}

/// What goes before the item at `index`: a comma after the first, and in
/// pretty mode a new line indented one level deeper than `pad`.
pub open spec fn json_sep(index: nat, pretty: bool, pad: Seq<char>) -> Seq<char> {
    (if index > 0 {
        seq![',']
    } else {
        Seq::empty()
    }) + (if pretty {
        seq!['\n'] + pad + seq![' ', ' ']
    } else {
        Seq::empty()
    })
}

/// What goes before the closing bracket of a non-empty list or object in
/// pretty mode.
pub open spec fn json_close(pretty: bool, n: nat, pad: Seq<char>) -> Seq<char> {
    if pretty && n > 0 {
        seq!['\n'] + pad
    } else {
        Seq::empty()
    }
}

/// The JSON text of a value at indentation `pad`.
pub open spec fn json_spec(v: SpecValue, pretty: bool, pad: Seq<char>) -> Seq<char>
    decreases v,
{
    match v {
        SpecValue::Int(i) => int_text(i as int),
        SpecValue::Float(t) => t,
        SpecValue::Bool(b) => if b {
            "true"@
        } else {
            "false"@
        },
        SpecValue::Str(s) => json_string_spec(s),
        SpecValue::OptNone => "null"@,
        SpecValue::OptSome(x) => json_spec(*x, pretty, pad),
        SpecValue::List(items) => seq!['['] + json_items_spec(items, pretty, pad, 0) + json_close(pretty, items.len(), pad) + seq![']'],
        SpecValue::Record(fields) => seq!['{'] + json_fields_spec(fields, pretty, pad, 0) + json_close(pretty, fields.len(), pad) + seq!['}'],
        _ => Seq::empty(),
    }
}

pub open spec fn json_items_spec(items: Seq<SpecValue>, pretty: bool, pad: Seq<char>, index: nat) -> Seq<char>
    decreases items,
{
    if items.len() == 0 {
        Seq::empty()
    } else {
        json_sep(index, pretty, pad) + json_spec(items[0], pretty, pad + seq![' ', ' '])
            + json_items_spec(items.drop_first(), pretty, pad, index + 1)
    }
}

pub open spec fn json_fields_spec(fields: Seq<(Seq<char>, SpecValue)>, pretty: bool, pad: Seq<char>, index: nat) -> Seq<char>
    decreases fields,
{
    if fields.len() == 0 {
        Seq::empty()
    } else {
        json_sep(index, pretty, pad) + json_string_spec(fields[0].0) + seq![':'] + (if pretty {
            seq![' ']
        } else {
            Seq::empty()
        }) + json_spec(fields[0].1, pretty, pad + seq![' ', ' ']) + json_fields_spec(fields.drop_first(), pretty, pad, index + 1)
    }
}

/// The JSON text of `value`; a value holding a function has none.
pub fn emit_json(value: &Value, pretty: bool) -> (r: Result<String>)
    ensures
        match r {
            Ok(s) => !contains_function_spec(value@) && s@ == json_spec(value@, pretty, Seq::empty()),
            Err(e) => contains_function_spec(value@) && e.code_spec() == ErrorCode::OutputFunction,
        },
{
    let mut out: Vec<char> = Vec::new();
    let pad: Vec<char> = Vec::new();
    write_value(value, pretty, &pad, &mut out)?;
    assert(out@ =~= Seq::<char>::empty() + json_spec(value@, pretty, Seq::empty()));
    Ok(crate::text::string_from_chars(out.as_slice()))
}

fn write_hex4(n: u32, out: &mut Vec<char>)
    requires
        n < 0x10000,
    ensures
        final(out)@ == old(out)@ + hex4(n as nat),
{
    let digits = chars_of("0123456789abcdef");
    proof {
        reveal_strlit("0123456789abcdef");
    }
    let a = ((n / 4096) % 16) as usize;
    let b = ((n / 256) % 16) as usize;
    let c = ((n / 16) % 16) as usize;
    let d = (n % 16) as usize;
    out.push(digits[a]);
    out.push(digits[b]);
    out.push(digits[c]);
    out.push(digits[d]);
    assert(out@ =~= old(out)@ + hex4(n as nat));
}

/// Writes a JSON string literal.
pub fn write_json_string(s: &str, out: &mut Vec<char>)
    ensures
        final(out)@ == old(out)@ + json_string_spec(s@),
{
    let chars = chars_of(s);
    out.push('"');
    let ghost mark = out@;
    proof {
        assert(chars@.skip(0) =~= chars@);
    }
    let mut i: usize = 0;
    while i < chars.len()
        invariant
            i <= chars@.len(),
            chars@ == s@,
            out@ + json_chars_spec(chars@.skip(i as int)) == mark + json_chars_spec(chars@),
        decreases chars.len() - i,
    {
        proof {
            assert(chars@.skip(i as int).drop_first() =~= chars@.skip(i + 1));
            assert(chars@.skip(i as int)[0] == chars@[i as int]);
        }
        let ghost before = out@;
        let c = chars[i];
        if c == '"' {
            out.push('\\');
            out.push('"');
        } else if c == '\\' {
            out.push('\\');
            out.push('\\');
        } else if c == '\n' {
            out.push('\\');
            out.push('n');
        } else if c == '\r' {
            out.push('\\');
            out.push('r');
        } else if c == '\t' {
            out.push('\\');
            out.push('t');
        } else if (c as u32) < 0x20 || (0x7f <= (c as u32) && (c as u32) <= 0x9f) {
            out.push('\\');
            out.push('u');
            write_hex4(c as u32, out);
        } else {
            out.push(c);
        }
        proof {
            assert(out@ =~= before + json_char(c));
            assert(out@ + json_chars_spec(chars@.skip(i + 1)) =~= before + json_chars_spec(chars@.skip(i as int)));
        }
        i = i + 1;
    }
    proof {
        assert(chars@.skip(i as int) =~= Seq::<char>::empty());
        assert(out@ + Seq::<char>::empty() =~= out@);
    }
    out.push('"');
    assert(out@ =~= old(out)@ + json_string_spec(s@));
}

fn write_sep(index: usize, pretty: bool, pad: &Vec<char>, out: &mut Vec<char>)
    ensures
        final(out)@ == old(out)@ + json_sep(index as nat, pretty, pad@),
{
    if index > 0 {
        out.push(',');
    }
    if pretty {
        out.push('\n');
        push_chars(out, pad);
        out.push(' ');
        out.push(' ');
    }
    assert(out@ =~= old(out)@ + json_sep(index as nat, pretty, pad@));
}

fn write_close(pretty: bool, n: usize, pad: &Vec<char>, out: &mut Vec<char>)
    ensures
        final(out)@ == old(out)@ + json_close(pretty, n as nat, pad@),
{
    if pretty && n > 0 {
        out.push('\n');
        push_chars(out, pad);
    }
    assert(out@ =~= old(out)@ + json_close(pretty, n as nat, pad@));
}

fn deeper(pad: &Vec<char>) -> (p: Vec<char>)
    ensures
        p@ == pad@ + seq![' ', ' '],
{
    let mut p: Vec<char> = Vec::new();
    push_chars(&mut p, pad);
    p.push(' ');
    p.push(' ');
    assert(p@ =~= pad@ + seq![' ', ' ']);
    p
}

#[verifier::loop_isolation(false)]
fn write_value(value: &Value, pretty: bool, pad: &Vec<char>, out: &mut Vec<char>) -> (r: Result<()>)
    ensures
        r is Ok <==> !contains_function_spec(value@),
        r is Ok ==> final(out)@ == old(out)@ + json_spec(value@, pretty, pad@),
        r matches Err(e) ==> e.code_spec() == ErrorCode::OutputFunction,
    decreases value, 1nat,
{
    match value {
        Value::Int(i) => {
            let t = int_to_string(*i);
            push_str(out, t.as_str());
            Ok(())
        },
        Value::Float(t) => {
            push_str(out, t.as_str());
            Ok(())
        },
        Value::Bool(b) => {
            if *b {
                push_str(out, "true");
            } else {
                push_str(out, "false");
            }
            Ok(())
        },
        Value::Str(s) => {
            write_json_string(s.as_str(), out);
            Ok(())
        },
        Value::OptNone => {
            push_str(out, "null");
            Ok(())
        },
        Value::OptSome(x) => write_value(x, pretty, pad, out),
        Value::List(items) => {
            proof {
                lemma_values_view(items@);
            }
            out.push('[');
            write_items(items, pretty, pad, out)?;
            write_close(pretty, items.len(), pad, out);
            out.push(']');
            assert(out@ =~= old(out)@ + json_spec(value@, pretty, pad@));
            Ok(())
        },
        Value::Record(fields) => {
            proof {
                lemma_value_fields_view(fields.entries@);
            }
            out.push('{');
            write_fields(&fields.entries, pretty, pad, out)?;
            write_close(pretty, fields.entries.len(), pad, out);
            out.push('}');
            assert(out@ =~= old(out)@ + json_spec(value@, pretty, pad@));
            Ok(())
        },
        Value::Closure { .. } | Value::Native(_) => Err(Error::with_code(ErrorCode::OutputFunction, "function escaped into output")),
    }
}

#[verifier::loop_isolation(false)]
fn write_items(items: &Vec<Value>, pretty: bool, pad: &Vec<char>, out: &mut Vec<char>) -> (r: Result<()>)
    ensures
        r is Ok <==> !any_function_spec(values_view(items@)),
        r is Ok ==> final(out)@ == old(out)@ + json_items_spec(values_view(items@), pretty, pad@, 0),
        r matches Err(e) ==> e.code_spec() == ErrorCode::OutputFunction,
    decreases items, 0nat,
{
    let ghost vs = values_view(items@);
    proof {
        lemma_values_view(items@);
        assert(vs.skip(0) =~= vs);
    }
    let ghost mark = out@;
    let inner = deeper(pad);
    let mut i: usize = 0;
    while i < items.len()
        invariant
            i <= items@.len(),
            vs.len() == items@.len(),
            inner@ == pad@ + seq![' ', ' '],
            out@ + json_items_spec(vs.skip(i as int), pretty, pad@, i as nat) == mark + json_items_spec(vs, pretty, pad@, 0),
            any_function_spec(vs) == any_function_spec(vs.skip(i as int)),
        decreases items.len() - i,
    {
        proof {
            assert(vs.skip(i as int).drop_first() =~= vs.skip(i + 1));
            assert(vs.skip(i as int)[0] == vs[i as int]);
        }
        let ghost before = out@;
        write_sep(i, pretty, pad, out);
        write_value(&items[i], pretty, &inner, out)?;
        proof {
            assert(out@ + json_items_spec(vs.skip(i + 1), pretty, pad@, (i + 1) as nat) =~= before + json_items_spec(vs.skip(i as int), pretty, pad@, i as nat));
        }
        i = i + 1;
    }
    proof {
        assert(vs.skip(i as int) =~= Seq::<SpecValue>::empty());
        assert(out@ + Seq::<char>::empty() =~= out@);
    }
    Ok(())
}

#[verifier::loop_isolation(false)]
fn write_fields(fields: &Vec<(String, Value)>, pretty: bool, pad: &Vec<char>, out: &mut Vec<char>) -> (r: Result<()>)
    ensures
        r is Ok <==> !any_field_function_spec(value_fields_view(fields@)),
        r is Ok ==> final(out)@ == old(out)@ + json_fields_spec(value_fields_view(fields@), pretty, pad@, 0),
        r matches Err(e) ==> e.code_spec() == ErrorCode::OutputFunction,
    decreases fields, 0nat,
{
    let ghost fs = value_fields_view(fields@);
    proof {
        lemma_value_fields_view(fields@);
        assert(fs.skip(0) =~= fs);
    }
    let ghost mark = out@;
    let inner = deeper(pad);
    let mut i: usize = 0;
    while i < fields.len()
        invariant
            i <= fields@.len(),
            fs.len() == fields@.len(),
            inner@ == pad@ + seq![' ', ' '],
            out@ + json_fields_spec(fs.skip(i as int), pretty, pad@, i as nat) == mark + json_fields_spec(fs, pretty, pad@, 0),
            any_field_function_spec(fs) == any_field_function_spec(fs.skip(i as int)),
        decreases fields.len() - i,
    {
        proof {
            assert(decreases_to!(fields => fields@[i as int]));
            assert(fs.skip(i as int).drop_first() =~= fs.skip(i + 1));
            assert(fs.skip(i as int)[0] == fs[i as int]);
        }
        let ghost before = out@;
        write_sep(i, pretty, pad, out);
        write_json_string(fields[i].0.as_str(), out);
        out.push(':');
        if pretty {
            out.push(' ');
        }
        write_value(&fields[i].1, pretty, &inner, out)?;
        proof {
            assert(out@ + json_fields_spec(fs.skip(i + 1), pretty, pad@, (i + 1) as nat) =~= before + json_fields_spec(fs.skip(i as int), pretty, pad@, i as nat));
        }
        i = i + 1;
    }
    proof {
        assert(fs.skip(i as int) =~= Seq::<(Seq<char>, SpecValue)>::empty());
        assert(out@ + Seq::<char>::empty() =~= out@);
    }
    Ok(())
}

} // verus!
