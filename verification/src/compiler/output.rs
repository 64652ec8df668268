//! The output of a module must be data: no function may escape into it.

use vstd::prelude::*;

use crate::emit::data::{data_view, data_fields_view, datas_view, lemma_data_fields_view, lemma_datas_view, DataValue};
use crate::error::{Error, ErrorCode, Result};
use crate::eval::value::{lemma_value_fields_view, lemma_values_view, value_fields_view, values_view, Value};
use crate::fields::FieldMap;
use crate::resolve::modules::{any_field_function_spec, any_function_spec, contains_function_spec};

verus! {

broadcast use vstd::std_specs::vec::group_vec_axioms;

/// Turns output values into data.
#[derive(Clone, Copy, Debug, Default)]
pub struct OutputValidator;

impl OutputValidator {
    pub fn new() -> (v: OutputValidator) {
        OutputValidator
    }

    /// The value as data, unless a function hides in it.
    #[verifier::loop_isolation(false)]
    pub fn validate(&self, value: &Value) -> (r: Result<DataValue>)
        ensures
            match r {
                Ok(d) => d@ == value@ && !contains_function_spec(value@),
                Err(e) => contains_function_spec(value@) && e.code_spec() == ErrorCode::OutputFunction,
            },
        decreases value,
    {
        match value {
            Value::Int(i) => Ok(DataValue::Int(*i)),
            Value::Float(t) => Ok(DataValue::Float(t.clone())),
            Value::Bool(b) => Ok(DataValue::Bool(*b)),
            Value::Str(s) => Ok(DataValue::Str(s.clone())),
            Value::OptNone => Ok(DataValue::OptNone),
            Value::OptSome(x) => {
                let d = self.validate(x)?;
                Ok(DataValue::OptSome(Box::new(d)))
            },
            Value::List(items) => {
                let ghost vs = values_view(items@);
                proof {
                    lemma_values_view(items@);
                    assert(vs.skip(0) =~= vs);
                }
                let mut out: Vec<DataValue> = Vec::new();
                let mut i: usize = 0;
                while i < items.len()
                    invariant
                        i <= items@.len(),
                        vs.len() == items@.len(),
                        out@.len() == i,
                        forall|j: int| 0 <= j < i ==> #[trigger] data_view(out@[j]) == vs[j],
                        any_function_spec(vs) == any_function_spec(vs.skip(i as int)),
                    decreases items.len() - i,
                {
                    proof {
                        assert(vs.skip(i as int).drop_first() =~= vs.skip(i + 1));
                        assert(vs.skip(i as int)[0] == vs[i as int]);
                    }
                    let d = self.validate(&items[i])?;
                    out.push(d);
                    i = i + 1;
                }
                proof {
                    lemma_datas_view(out@);
                    assert(datas_view(out@) =~= vs);
                    assert(vs.skip(i as int) =~= Seq::<crate::eval::value::SpecValue>::empty());
                }
                Ok(DataValue::List(out))
            },
            Value::Record(fields) => {
                let ghost fs = value_fields_view(fields.entries@);
                proof {
                    lemma_value_fields_view(fields.entries@);
                    assert(fs.skip(0) =~= fs);
                }
                let mut out: Vec<(String, DataValue)> = Vec::new();
                let mut i: usize = 0;
                while i < fields.entries.len()
                    invariant
                        i <= fields.entries@.len(),
                        fs.len() == fields.entries@.len(),
                        out@.len() == i,
                        forall|j: int| 0 <= j < i ==> (#[trigger] out@[j]).0@ == fs[j].0 && data_view(out@[j].1) == fs[j].1,
                        any_field_function_spec(fs) == any_field_function_spec(fs.skip(i as int)),
                    decreases fields.entries.len() - i,
                {
                    proof {
                        assert(decreases_to!(fields.entries => fields.entries@[i as int]));
                        assert(fs.skip(i as int).drop_first() =~= fs.skip(i + 1));
                        assert(fs.skip(i as int)[0] == fs[i as int]);
                    }
                    let d = self.validate(&fields.entries[i].1)?;
                    out.push((fields.entries[i].0.clone(), d));
                    i = i + 1;
                }
                proof {
                    lemma_data_fields_view(out@);
                    assert(data_fields_view(out@) =~= fs);
                    assert(fs.skip(i as int) =~= Seq::<(Seq<char>, crate::eval::value::SpecValue)>::empty());
                }
                Ok(DataValue::Record(FieldMap { entries: out }))
            },
            Value::Closure { .. } | Value::Native(_) => Err(Error::with_code(ErrorCode::OutputFunction, "function escaped into output")),
        }
    }
}

} // verus!
