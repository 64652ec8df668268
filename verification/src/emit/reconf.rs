//! The ReConf text format for output data: literals as in the language,
//! lists in brackets, records in braces with `name = value` fields.

use vstd::prelude::*;

use crate::emit::data::{data_fields_view, datas_view, lemma_data_fields_view, lemma_datas_view, DataValue};
use crate::emit::push_str;
use crate::eval::value::SpecValue;
use crate::text::{int_text, int_to_string};

verus! {

broadcast use vstd::std_specs::vec::group_vec_axioms;

/// What std's `Debug` formatting gives for a string: the text in double
/// quotes, with quotes, backslashes and unprintable characters escaped.
pub uninterp spec fn debug_quoted(s: Seq<char>) -> Seq<char>;

/// Formats a string with std's `Debug` formatting (`<str as Debug>::fmt`
/// through `format!`). The result is named, not described: which characters
/// std escapes rests on its Unicode tables.
#[verifier::external_body]
fn quote_debug(s: &str) -> (r: String)
    ensures
        r@ == debug_quoted(s@),
{
    format!("{s:?}")
}

/// The separator before the item at `index`.
pub open spec fn item_sep(index: nat) -> Seq<char> {
    if index > 0 {
        ", "@
    } else {
        ""@
    }
}

/// The ReConf text of a value.
pub open spec fn reconf_spec(v: SpecValue) -> Seq<char>
    decreases v,
{
    match v {
        SpecValue::Int(i) => int_text(i as int),
        SpecValue::Float(t) => t,
        SpecValue::Bool(b) => if b {
            "true"@
        } else {
            "false"@
        },
        SpecValue::Str(s) => debug_quoted(s),
        SpecValue::OptNone => "none"@,
        SpecValue::OptSome(x) => "some "@ + reconf_spec(*x),
        SpecValue::List(items) => "["@ + reconf_items_spec(items, 0) + "]"@,
        SpecValue::Record(fields) => "{ "@ + reconf_fields_spec(fields, 0) + " }"@,
        _ => Seq::empty(),
    }
}

/// The items of a list, separated by `, `; `index` counts the items before.
pub open spec fn reconf_items_spec(items: Seq<SpecValue>, index: nat) -> Seq<char>
    decreases items,
{
    if items.len() == 0 {
        Seq::empty()
    } else {
        item_sep(index) + reconf_spec(items[0]) + reconf_items_spec(items.drop_first(), index + 1)
    }
}

/// The fields of a record as `name = value`, separated by `, `.
pub open spec fn reconf_fields_spec(fields: Seq<(Seq<char>, SpecValue)>, index: nat) -> Seq<char>
    decreases fields,
{
    if fields.len() == 0 {
        Seq::empty()
    } else {
        item_sep(index) + fields[0].0 + " = "@ + reconf_spec(fields[0].1) + reconf_fields_spec(fields.drop_first(), index + 1)
    }
}

/// Writes output data in the ReConf format.
#[derive(Clone, Copy, Debug, Default)]
pub struct ReconfEmitter;

impl ReconfEmitter {
    pub fn new() -> (e: ReconfEmitter) {
        ReconfEmitter
    }

    /// The ReConf text of `value`.
    pub fn emit(&self, value: &DataValue) -> (s: String)
        ensures
            s@ == reconf_spec(value@),
    {
        let mut out: Vec<char> = Vec::new();
        write_reconf(value, &mut out);
        assert(out@ =~= Seq::<char>::empty() + reconf_spec(value@));
        crate::text::string_from_chars(out.as_slice())
    }
}

fn push_sep(out: &mut Vec<char>, index: usize)
    ensures
        final(out)@ == old(out)@ + item_sep(index as nat),
{
    if index > 0 {
        push_str(out, ", ");
        proof {
            reveal_strlit(", ");
        }
    } else {
        proof {
            reveal_strlit("");
            assert(old(out)@ + ""@ =~= old(out)@);
        }
    }
}

#[verifier::loop_isolation(false)]
fn write_reconf(value: &DataValue, out: &mut Vec<char>)
    ensures
        final(out)@ == old(out)@ + reconf_spec(value@),
    decreases value,
{
    match value {
        DataValue::Int(i) => {
            let t = int_to_string(*i);
            push_str(out, t.as_str());
        },
        DataValue::Float(t) => push_str(out, t.as_str()),
        DataValue::Bool(b) => {
            if *b {
                push_str(out, "true");
            } else {
                push_str(out, "false");
            }
        },
        DataValue::Str(s) => {
            let q = quote_debug(s.as_str());
            push_str(out, q.as_str());
        },
        DataValue::OptNone => push_str(out, "none"),
        DataValue::OptSome(x) => {
            push_str(out, "some ");
            write_reconf(x, out);
            assert(out@ =~= old(out)@ + ("some "@ + reconf_spec((**x)@)));
        },
        DataValue::List(items) => {
            let ghost vs = datas_view(items@);
            proof {
                lemma_datas_view(items@);
                assert(vs.skip(0) =~= vs);
            }
            push_str(out, "[");
            let ghost mark = out@;
            let mut i: usize = 0;
            while i < items.len()
                invariant
                    i <= items@.len(),
                    vs.len() == items@.len(),
                    out@ + reconf_items_spec(vs.skip(i as int), i as nat) == mark + reconf_items_spec(vs, 0),
                decreases items.len() - i,
            {
                proof {
                    assert(vs.skip(i as int).drop_first() =~= vs.skip(i + 1));
                    assert(vs.skip(i as int)[0] == vs[i as int]);
                }
                let ghost before = out@;
                push_sep(out, i);
                write_reconf(&items[i], out);
                proof {
                    assert(out@ + reconf_items_spec(vs.skip(i + 1), (i + 1) as nat) =~= before + reconf_items_spec(vs.skip(i as int), i as nat));
                }
                i = i + 1;
            }
            proof {
                assert(vs.skip(i as int) =~= Seq::<SpecValue>::empty());
                assert(out@ + Seq::<char>::empty() =~= out@);
            }
            push_str(out, "]");
            assert(out@ =~= old(out)@ + ("["@ + reconf_items_spec(vs, 0) + "]"@));
        },
        DataValue::Record(fields) => {
            let ghost fs = data_fields_view(fields.entries@);
            proof {
                lemma_data_fields_view(fields.entries@);
                assert(fs.skip(0) =~= fs);
            }
            push_str(out, "{ ");
            let ghost mark = out@;
            let mut i: usize = 0;
            while i < fields.entries.len()
                invariant
                    i <= fields.entries@.len(),
                    fs.len() == fields.entries@.len(),
                    out@ + reconf_fields_spec(fs.skip(i as int), i as nat) == mark + reconf_fields_spec(fs, 0),
                decreases fields.entries.len() - i,
            {
                proof {
                    assert(decreases_to!(fields.entries => fields.entries@[i as int]));
                    assert(fs.skip(i as int).drop_first() =~= fs.skip(i + 1));
                    assert(fs.skip(i as int)[0] == fs[i as int]);
                }
                let ghost before = out@;
                push_sep(out, i);
                push_str(out, fields.entries[i].0.as_str());
                push_str(out, " = ");
                write_reconf(&fields.entries[i].1, out);
                proof {
                    assert(out@ + reconf_fields_spec(fs.skip(i + 1), (i + 1) as nat) =~= before + reconf_fields_spec(fs.skip(i as int), i as nat));
                }
                i = i + 1;
            }
            proof {
                assert(fs.skip(i as int) =~= Seq::<(Seq<char>, SpecValue)>::empty());
                assert(out@ + Seq::<char>::empty() =~= out@);
            }
            push_str(out, " }");
            assert(out@ =~= old(out)@ + ("{ "@ + reconf_fields_spec(fs, 0) + " }"@));
        },
    }
}

} // verus!
