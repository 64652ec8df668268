//! Output data: values that hold no function.

use vstd::prelude::*;

use crate::eval::value::SpecValue;
use crate::fields::FieldMap;

verus! {

/// A value that can be written out: no function inside. A float is kept as
/// the text of its literal.
#[derive(Debug)]
pub enum DataValue {
    Int(i64),
    Float(String),
    Bool(bool),
    Str(String),
    OptNone,
    OptSome(Box<DataValue>),
    List(Vec<DataValue>),
    Record(FieldMap<DataValue>),
}

/// Output data seen as a value.
pub open spec fn data_view(d: DataValue) -> SpecValue
    decreases d,
{
    match d {
        DataValue::Int(i) => SpecValue::Int(i),
        DataValue::Float(t) => SpecValue::Float(t@),
        DataValue::Bool(b) => SpecValue::Bool(b),
        DataValue::Str(s) => SpecValue::Str(s@),
        DataValue::OptNone => SpecValue::OptNone,
        DataValue::OptSome(x) => SpecValue::OptSome(Box::new(data_view(*x))),
        DataValue::List(items) => SpecValue::List(datas_view(items@)),
        DataValue::Record(fields) => SpecValue::Record(data_fields_view(fields.entries@)),
    }
}

pub open spec fn datas_view(s: Seq<DataValue>) -> Seq<SpecValue>
    decreases s,
{
    if s.len() == 0 {
        Seq::empty()
    } else {
        datas_view(s.drop_last()).push(data_view(s.last()))
    }
}

pub open spec fn data_fields_view(s: Seq<(String, DataValue)>) -> Seq<(Seq<char>, SpecValue)>
    decreases s,
{
    if s.len() == 0 {
        Seq::empty()
    } else {
        data_fields_view(s.drop_last()).push((s.last().0@, data_view(s.last().1)))
    }
}

pub proof fn lemma_datas_view(s: Seq<DataValue>)
    ensures
        datas_view(s).len() == s.len(),
        forall|i: int| 0 <= i < s.len() ==> #[trigger] datas_view(s)[i] == data_view(s[i]),
    decreases s.len(),
{
    if s.len() > 0 {
        lemma_datas_view(s.drop_last());
    }
}

pub proof fn lemma_data_fields_view(s: Seq<(String, DataValue)>)
    ensures
        data_fields_view(s).len() == s.len(),
        forall|i: int| 0 <= i < s.len() ==> #[trigger] data_fields_view(s)[i] == (s[i].0@, data_view(s[i].1)),
    decreases s.len(),
{
    if s.len() > 0 {
        lemma_data_fields_view(s.drop_last());
    }
}

impl View for DataValue {
    type V = SpecValue;

    open spec fn view(&self) -> SpecValue {
        data_view(*self)
    }
}

} // verus!
