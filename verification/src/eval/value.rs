//! Runtime values and evaluation environments, with their models.

use vstd::prelude::*;

use crate::core_lang::ast::{CoreExpr, GlobalRef, SpecExpr};
use crate::fields::{lookup, FieldMap};

verus! {

broadcast use vstd::std_specs::vec::group_vec_axioms;

/// A value. A float is kept as the source text of its literal.
#[derive(Debug)]
pub enum Value {
    Int(i64),
    Float(String),
    Bool(bool),
    Str(String),
    OptNone,
    OptSome(Box<Value>),
    List(Vec<Value>),
    Record(FieldMap<Value>),
    Closure { param: String, body: CoreExpr, env: Env },
    Native(NativeFunction),
}

/// A native function with the arguments applied to it so far.
#[derive(Debug)]
pub struct NativeFunction {
    pub name: String,
    pub args: Vec<Value>,
}

/// What an expression is evaluated in: names bound by `let`, lambdas and
/// declarations (innermost last), the locals counted from the innermost
/// binder, and the values of global references.
#[derive(Debug)]
pub struct Env {
    pub names: Vec<(String, Value)>,
    pub locals: Vec<Value>,
    pub globals: Vec<(GlobalRef, Value)>,
}

/// The model of a value.
pub enum SpecValue {
    Int(i64),
    Float(Seq<char>),
    Bool(bool),
    Str(Seq<char>),
    OptNone,
    OptSome(Box<SpecValue>),
    List(Seq<SpecValue>),
    Record(Seq<(Seq<char>, SpecValue)>),
    Closure { param: Seq<char>, body: SpecExpr, env: SpecEnv },
    Native { name: Seq<char>, args: Seq<SpecValue> },
}

/// The model of an environment.
pub struct SpecEnv {
    pub names: Seq<(Seq<char>, SpecValue)>,
    pub locals: Seq<SpecValue>,
    pub globals: Seq<(GlobalRef, SpecValue)>,
}

pub open spec fn value_view(v: Value) -> SpecValue
    decreases v,
{
    match v {
        Value::Int(i) => SpecValue::Int(i),
        Value::Float(t) => SpecValue::Float(t@),
        Value::Bool(b) => SpecValue::Bool(b),
        Value::Str(s) => SpecValue::Str(s@),
        Value::OptNone => SpecValue::OptNone,
        Value::OptSome(inner) => SpecValue::OptSome(Box::new(value_view(*inner))),
        Value::List(items) => SpecValue::List(values_view(items@)),
        Value::Record(fields) => SpecValue::Record(value_fields_view(fields.entries@)),
        Value::Closure { param, body, env } => SpecValue::Closure { param: param@, body: body@, env: env_view(env) },
        Value::Native(f) => SpecValue::Native { name: f.name@, args: values_view(f.args@) },
    }
}

pub open spec fn values_view(s: Seq<Value>) -> Seq<SpecValue>
    decreases s,
{
    if s.len() == 0 {
        Seq::empty()
    } else {
        values_view(s.drop_last()).push(value_view(s.last()))
    }
}

pub open spec fn value_fields_view(s: Seq<(String, Value)>) -> Seq<(Seq<char>, SpecValue)>
    decreases s,
{
    if s.len() == 0 {
        Seq::empty()
    } else {
        value_fields_view(s.drop_last()).push((s.last().0@, value_view(s.last().1)))
    }
}

pub open spec fn globals_view(s: Seq<(GlobalRef, Value)>) -> Seq<(GlobalRef, SpecValue)>
    decreases s,
{
    if s.len() == 0 {
        Seq::empty()
    } else {
        globals_view(s.drop_last()).push((s.last().0, value_view(s.last().1)))
    }
}

pub open spec fn env_view(e: Env) -> SpecEnv
    decreases e,
{
    SpecEnv { names: value_fields_view(e.names@), locals: values_view(e.locals@), globals: globals_view(e.globals@) }
}

impl View for Value {
    type V = SpecValue;

    open spec fn view(&self) -> SpecValue {
        value_view(*self)
    }
}

impl View for Env {
    type V = SpecEnv;

    open spec fn view(&self) -> SpecEnv {
        env_view(*self)
    }
}

pub proof fn lemma_values_view(s: Seq<Value>)
    ensures
        values_view(s).len() == s.len(),
        forall|i: int| 0 <= i < s.len() ==> #[trigger] values_view(s)[i] == value_view(s[i]),
    decreases s.len(),
{
    if s.len() > 0 {
        lemma_values_view(s.drop_last());
    }
}

pub proof fn lemma_value_fields_view(s: Seq<(String, Value)>)
    ensures
        value_fields_view(s).len() == s.len(),
        forall|i: int| 0 <= i < s.len() ==> #[trigger] value_fields_view(s)[i] == (s[i].0@, value_view(s[i].1)),
    decreases s.len(),
{
    if s.len() > 0 {
        lemma_value_fields_view(s.drop_last());
    }
}

pub proof fn lemma_globals_view(s: Seq<(GlobalRef, Value)>)
    ensures
        globals_view(s).len() == s.len(),
        forall|i: int| 0 <= i < s.len() ==> #[trigger] globals_view(s)[i] == (s[i].0, value_view(s[i].1)),
    decreases s.len(),
{
    if s.len() > 0 {
        lemma_globals_view(s.drop_last());
    }
}

/// The value most recently bound to a name.
pub open spec fn lookup_name(names: Seq<(Seq<char>, SpecValue)>, n: Seq<char>) -> Option<SpecValue>
    decreases names.len(),
{
    if names.len() == 0 {
        None
    } else if names.last().0 == n {
        Some(names.last().1)
    } else {
        lookup_name(names.drop_last(), n)
    }
}

/// The local `index` binders out from the innermost one.
pub open spec fn local_at(locals: Seq<SpecValue>, index: usize) -> Option<SpecValue> {
    if index < locals.len() {
        Some(locals[locals.len() - 1 - index])
    } else {
        None
    }
}

/// The environment with one more innermost binder, reachable both by its
/// name and as local 0.
pub open spec fn env_bind(env: SpecEnv, name: Seq<char>, v: SpecValue) -> SpecEnv {
    SpecEnv { names: env.names.push((name, v)), locals: env.locals.push(v), globals: env.globals }
}

/// Structural equality of values; functions are never equal, and records
/// are equal when they have as many fields and every field of the first
/// equals the field of that name in the second.
pub open spec fn value_eq_spec(a: SpecValue, b: SpecValue) -> bool
    decreases a,
{
    match (a, b) {
        (SpecValue::Int(x), SpecValue::Int(y)) => x == y,
        (SpecValue::Float(x), SpecValue::Float(y)) => x == y,
        (SpecValue::Bool(x), SpecValue::Bool(y)) => x == y,
        (SpecValue::Str(x), SpecValue::Str(y)) => x == y,
        (SpecValue::OptNone, SpecValue::OptNone) => true,
        (SpecValue::OptSome(x), SpecValue::OptSome(y)) => value_eq_spec(*x, *y),
        (SpecValue::List(xs), SpecValue::List(ys)) => xs.len() == ys.len() && list_eq_spec(xs, ys),
        (SpecValue::Record(xs), SpecValue::Record(ys)) => xs.len() == ys.len() && fields_eq_spec(xs, ys),
        _ => false,
    }
}

pub open spec fn list_eq_spec(xs: Seq<SpecValue>, ys: Seq<SpecValue>) -> bool
    decreases xs,
{
    if xs.len() == 0 {
        true
    } else {
        ys.len() > 0 && value_eq_spec(xs[0], ys[0]) && list_eq_spec(xs.drop_first(), ys.drop_first())
    }
}

pub open spec fn fields_eq_spec(xs: Seq<(Seq<char>, SpecValue)>, ys: Seq<(Seq<char>, SpecValue)>) -> bool
    decreases xs,
{
    if xs.len() == 0 {
        true
    } else {
        (match lookup(ys, xs[0].0) {
            Some(y) => value_eq_spec(xs[0].1, y),
            None => false,
        }) && fields_eq_spec(xs.drop_first(), ys)
    }
}

impl Value {
    /// A deep copy.
    #[verifier::loop_isolation(false)]
    pub fn duplicate(&self) -> (r: Value)
        ensures
            r@ == self@,
        decreases self,
    {
        match self {
            Value::Int(i) => Value::Int(*i),
            Value::Float(t) => Value::Float(t.clone()),
            Value::Bool(b) => Value::Bool(*b),
            Value::Str(s) => Value::Str(s.clone()),
            Value::OptNone => Value::OptNone,
            Value::OptSome(inner) => Value::OptSome(Box::new(inner.duplicate())),
            Value::List(items) => Value::List(duplicate_values(items)),
            Value::Record(fields) => Value::Record(FieldMap { entries: duplicate_fields(&fields.entries) }),
            Value::Closure { param, body, env } => Value::Closure { param: param.clone(), body: body.duplicate(), env: env.duplicate() },
            Value::Native(f) => Value::Native(NativeFunction { name: f.name.clone(), args: duplicate_values(&f.args) }),
        }
    }
}

impl Env {
    /// A deep copy.
    #[verifier::loop_isolation(false)]
    pub fn duplicate(&self) -> (r: Env)
        ensures
            r@ == self@,
        decreases self,
    {
        let names = duplicate_fields(&self.names);
        let locals = duplicate_values(&self.locals);
        let mut globals: Vec<(GlobalRef, Value)> = Vec::new();
        let mut i: usize = 0;
        while i < self.globals.len()
            invariant
                i <= self.globals@.len(),
                globals_view(globals@) == globals_view(self.globals@).take(i as int),
            decreases self.globals.len() - i,
        {
            proof {
                lemma_globals_view(self.globals@);
                assert(decreases_to!(self.globals => self.globals@[i as int]));
                assert(decreases_to!(self.globals@[i as int] => self.globals@[i as int].1));
            }
            let ghost prev = globals@;
            let v = self.globals[i].1.duplicate();
            globals.push((self.globals[i].0, v));
            proof {
                assert(globals@.drop_last() =~= prev);
                assert(globals_view(self.globals@).take(i + 1) =~= globals_view(self.globals@).take(i as int).push((self.globals@[i as int].0, value_view(self.globals@[i as int].1))));
            }
            i = i + 1;
        }
        proof {
            lemma_globals_view(self.globals@);
            assert(globals_view(self.globals@).take(i as int) =~= globals_view(self.globals@));
        }
        Env { names, locals, globals }
    }

    /// An environment with nothing bound.
    pub fn new() -> (e: Env)
        ensures
            e@.names.len() == 0,
            e@.locals.len() == 0,
            e@.globals.len() == 0,
    {
        Env { names: Vec::new(), locals: Vec::new(), globals: Vec::new() }
    }

    /// Binds a value both by name and as the innermost local.
    pub fn bind(&mut self, name: String, value: Value)
        ensures
            final(self)@ == env_bind(old(self)@, name@, value@),
    {
        let copy = value.duplicate();
        let ghost n0 = self.names@;
        let ghost l0 = self.locals@;
        self.names.push((name, value));
        self.locals.push(copy);
        proof {
            assert(self.names@.drop_last() =~= n0);
            assert(self.locals@.drop_last() =~= l0);
        }
    }

    /// Pushes a value as the innermost local, without a name.
    pub fn push_local(&mut self, value: Value)
        ensures
            final(self)@.names == old(self)@.names,
            final(self)@.locals == old(self)@.locals.push(value@),
            final(self)@.globals == old(self)@.globals,
    {
        let ghost l0 = self.locals@;
        self.locals.push(value);
        proof {
            assert(self.locals@.drop_last() =~= l0);
        }
    }

    /// Binds a global reference to a value.
    pub fn define_global(&mut self, binding: GlobalRef, value: Value)
        ensures
            final(self)@.names == old(self)@.names,
            final(self)@.locals == old(self)@.locals,
            final(self)@.globals == old(self)@.globals.push((binding, value@)),
    {
        let ghost g0 = self.globals@;
        self.globals.push((binding, value));
        proof {
            assert(self.globals@.drop_last() =~= g0);
        }
    }

    /// Binds a name without a local slot (a declaration).
    pub fn define_name(&mut self, name: String, value: Value)
        ensures
            final(self)@.names == old(self)@.names.push((name@, value@)),
            final(self)@.locals == old(self)@.locals,
            final(self)@.globals == old(self)@.globals,
    {
        let ghost n0 = self.names@;
        self.names.push((name, value));
        proof {
            assert(self.names@.drop_last() =~= n0);
        }
    }
}

#[verifier::loop_isolation(false)]
pub fn duplicate_values(items: &Vec<Value>) -> (r: Vec<Value>)
    ensures
        values_view(r@) == values_view(items@),
    decreases items,
{
    let mut out: Vec<Value> = Vec::new();
    let mut i: usize = 0;
    proof {
        lemma_values_view(items@);
    }
    while i < items.len()
        invariant
            i <= items@.len(),
            values_view(out@) == values_view(items@).take(i as int),
        decreases items.len() - i,
    {
        proof {
            assert(decreases_to!(items => items@[i as int]));
        }
        let ghost prev = out@;
        out.push(items[i].duplicate());
        proof {
            assert(out@.drop_last() =~= prev);
            assert(values_view(items@).take(i + 1) =~= values_view(items@).take(i as int).push(value_view(items@[i as int])));
        }
        i = i + 1;
    }
    assert(values_view(items@).take(i as int) =~= values_view(items@));
    out
}

#[verifier::loop_isolation(false)]
pub fn duplicate_fields(fields: &Vec<(String, Value)>) -> (r: Vec<(String, Value)>)
    ensures
        value_fields_view(r@) == value_fields_view(fields@),
        crate::fields::entry_keys(r@) == crate::fields::entry_keys(fields@),
    decreases fields,
{
    let mut out: Vec<(String, Value)> = Vec::new();
    let mut i: usize = 0;
    proof {
        lemma_value_fields_view(fields@);
    }
    while i < fields.len()
        invariant
            i <= fields@.len(),
            value_fields_view(out@) == value_fields_view(fields@).take(i as int),
            crate::fields::entry_keys(out@) == crate::fields::entry_keys(fields@).take(i as int),
        decreases fields.len() - i,
    {
        proof {
            assert(decreases_to!(fields => fields@[i as int]));
            assert(decreases_to!(fields@[i as int] => fields@[i as int].1));
        }
        let ghost prev = out@;
        let v = fields[i].1.duplicate();
        out.push((fields[i].0.clone(), v));
        proof {
            assert(out@.drop_last() =~= prev);
            assert(value_fields_view(fields@).take(i + 1) =~= value_fields_view(fields@).take(i as int).push((fields@[i as int].0@, value_view(fields@[i as int].1))));
            assert(crate::fields::entry_keys(out@) =~= crate::fields::entry_keys(fields@).take(i + 1));
        }
        i = i + 1;
    }
    assert(value_fields_view(fields@).take(i as int) =~= value_fields_view(fields@));
    assert(crate::fields::entry_keys(fields@).take(i as int) =~= crate::fields::entry_keys(fields@));
    out
}

} // verus!
