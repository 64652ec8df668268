//! Evaluation of whole modules: imports bound by name, declarations in
//! order (each one seeing what the ones before it declared), and the output
//! expression, whose value is bound as `$output`.

use vstd::prelude::*;

use crate::core_lang::ast::{CoreDecl, CoreExpr, CoreImport, CoreModule, CoreType, SpecExpr, SpecType, strings_view};
use crate::core_lang::types::{CoreTypeContext, CoreTypeEnv};
use crate::error::{Error, ErrorCode, Result};
use crate::eval::builtins::{declared, native_arity};
use crate::eval::interp::{eval_coded, eval_spec, CoreEvaluator, DEFAULT_DEPTH};
use crate::eval::value::{
    duplicate_fields, lemma_value_fields_view, lookup_name, value_fields_view, values_view, Env, NativeFunction,
    SpecEnv, SpecValue, Value,
};
use crate::text::{concat3, str_eq};
use crate::fields::{lemma_lookup_first, lemma_lookup_none, lookup};
use crate::compiler::output::OutputValidator;
use crate::emit::reconf::{reconf_spec, ReconfEmitter};
use crate::typeck::bidir::{after_expand, agrees, check_expr, check_expr_spec};
use crate::typeck::elaborate::{unchecked_spec, CodeResult, CoreElaborator};
use crate::typeck::unify::expand_spec;
use crate::typeck::wf::{bound_aliases_spec, expr_aliases_spec, first_problem, well_formed_expr, well_formed_type};

verus! {

broadcast use vstd::std_specs::vec::group_vec_axioms;

/// What a module exports under a name.
#[derive(Debug)]
pub enum Export {
    Value(Value),
    Type(CoreType),
}

/// The model of an export.
pub enum SpecExport {
    Value(SpecValue),
    Type(SpecType),
}

pub open spec fn export_view(e: Export) -> SpecExport {
    match e {
        Export::Value(v) => SpecExport::Value(v@),
        Export::Type(t) => SpecExport::Type(t@),
    }
}

/// The model of the exports, in the order they were made.
pub open spec fn exports_view(s: Seq<(String, Export)>) -> Seq<(Seq<char>, SpecExport)> {
    s.map_values(|e: (String, Export)| (e.0@, export_view(e.1)))
}

/// The entry most recently made under a name.
pub open spec fn latest<M>(s: Seq<(Seq<char>, M)>, n: Seq<char>) -> Option<M>
    decreases s.len(),
{
    if s.len() == 0 {
        None
    } else if s.last().0 == n {
        Some(s.last().1)
    } else {
        latest(s.drop_last(), n)
    }
}

/// The exports after a declaration: the entry is added when exported.
pub open spec fn exports_after(ex: Seq<(Seq<char>, SpecExport)>, export: bool, name: Seq<char>, e: SpecExport) -> Seq<(Seq<char>, SpecExport)> {
    if export {
        ex.push((name, e))
    } else {
        ex
    }
}

/// The outcome of an executable step, by error code.
pub open spec fn code_of(r: Result<()>) -> CodeResult<()> {
    match r {
        Ok(()) => Ok(()),
        Err(e) => Err(e.code_spec()),
    }
}

/// Whether a value holds a function anywhere inside it.
pub open spec fn contains_function_spec(v: SpecValue) -> bool
    decreases v,
{
    match v {
        SpecValue::Closure { .. } => true,
        SpecValue::Native { .. } => true,
        SpecValue::OptSome(x) => contains_function_spec(*x),
        SpecValue::List(items) => any_function_spec(items),
        SpecValue::Record(fields) => any_field_function_spec(fields),
        _ => false,
    }
}

pub open spec fn any_function_spec(items: Seq<SpecValue>) -> bool
    decreases items,
{
    if items.len() == 0 {
        false
    } else {
        contains_function_spec(items[0]) || any_function_spec(items.drop_first())
    }
}

pub open spec fn any_field_function_spec(fields: Seq<(Seq<char>, SpecValue)>) -> bool
    decreases fields,
{
    if fields.len() == 0 {
        false
    } else {
        contains_function_spec(fields[0].1) || any_field_function_spec(fields.drop_first())
    }
}

/// Whether `value` holds a function anywhere inside it.
#[verifier::loop_isolation(false)]
pub fn contains_function(value: &Value) -> (b: bool)
    ensures
        b == contains_function_spec(value@),
    decreases value,
{
    match value {
        Value::Closure { .. } | Value::Native(_) => true,
        Value::OptSome(x) => contains_function(x),
        Value::List(items) => {
            let ghost vs = values_view(items@);
            proof {
                crate::eval::value::lemma_values_view(items@);
                assert(vs.skip(0) =~= vs);
            }
            let mut i: usize = 0;
            while i < items.len()
                invariant
                    i <= items@.len(),
                    vs.len() == items@.len(),
                    any_function_spec(vs) == any_function_spec(vs.skip(i as int)),
                decreases items.len() - i,
            {
                proof {
                    assert(vs.skip(i as int).drop_first() =~= vs.skip(i + 1));
                    assert(vs.skip(i as int)[0] == vs[i as int]);
                }
                if contains_function(&items[i]) {
                    return true;
                }
                i = i + 1;
            }
            false
        },
        Value::Record(fields) => {
            let ghost fs = value_fields_view(fields.entries@);
            proof {
                lemma_value_fields_view(fields.entries@);
                assert(fs.skip(0) =~= fs);
            }
            let mut i: usize = 0;
            while i < fields.entries.len()
                invariant
                    i <= fields.entries@.len(),
                    fs.len() == fields.entries@.len(),
                    any_field_function_spec(fs) == any_field_function_spec(fs.skip(i as int)),
                decreases fields.entries.len() - i,
            {
                proof {
                    assert(decreases_to!(fields.entries => fields.entries@[i as int]));
                    assert(fs.skip(i as int).drop_first() =~= fs.skip(i + 1));
                    assert(fs.skip(i as int)[0] == fs[i as int]);
                }
                if contains_function(&fields.entries[i].1) {
                    return true;
                }
                i = i + 1;
            }
            false
        },
        _ => false,
    }
}

/// An evaluated module: its values by name (the latest binding of a name
/// wins), its type aliases, and what it exports.
pub struct Module {
    names: Vec<(String, Value)>,
    types: CoreTypeEnv,
    exports: Vec<(String, Export)>,
}

/// A trace of states for running `step` on each item in turn: one state
/// before each item and one after the last, every step succeeding.
pub open spec fn trace<X>(states: Seq<Module>, items: Seq<X>, step: spec_fn(Module, X, CodeResult<()>, Module) -> bool) -> bool {
    &&& states.len() == items.len() + 1
    &&& forall|j: int| 0 <= j < items.len() ==> #[trigger] step(states[j], items[j], Ok(()), states[j + 1])
}

/// Running `step` on each item in turn from `m0`, every step succeeding,
/// ends in `m`.
pub open spec fn chain<X>(m0: Module, items: Seq<X>, m: Module, step: spec_fn(Module, X, CodeResult<()>, Module) -> bool) -> bool {
    exists|states: Seq<Module>| #[trigger] trace(states, items, step) && states[0] == m0 && states.last() == m
}

/// Running the steps on the items fails at one of them: the ones before it
/// succeed, and it fails with `c`.
pub open spec fn chain_fails<X>(m0: Module, items: Seq<X>, c: ErrorCode, step: spec_fn(Module, X, CodeResult<()>, Module) -> bool) -> bool {
    exists|k: int, mid: Module| 0 <= k < items.len() && #[trigger] chain(m0, items.take(k), mid, step)
        && forall|m2: Module| #[trigger] step(mid, items[k], Err(c), m2)
}

proof fn lemma_chain_empty<X>(m0: Module, items: Seq<X>, step: spec_fn(Module, X, CodeResult<()>, Module) -> bool)
    requires
        items.len() == 0,
    ensures
        chain(m0, items, m0, step),
{
    let states = seq![m0];
    assert(trace(states, items, step));
}

proof fn lemma_chain_extend<X>(m0: Module, items: Seq<X>, i: int, mid: Module, m: Module, step: spec_fn(Module, X, CodeResult<()>, Module) -> bool)
    requires
        0 <= i < items.len(),
        chain(m0, items.take(i), mid, step),
        step(mid, items[i], Ok(()), m),
    ensures
        chain(m0, items.take(i + 1), m, step),
{
    let states = choose|states: Seq<Module>| #[trigger] trace(states, items.take(i), step) && states[0] == m0 && states.last() == mid;
    let t = items.take(i + 1);
    let s2 = states.push(m);
    assert forall|j: int| 0 <= j < t.len() implies #[trigger] step(s2[j], t[j], Ok(()), s2[j + 1]) by {
        if j < i {
            assert(items.take(i)[j] == t[j]);
            assert(step(states[j], items.take(i)[j], Ok(()), states[j + 1]));
            assert(s2[j] == states[j] && s2[j + 1] == states[j + 1]);
        } else {
            assert(j == i);
            assert(s2[j] == mid && s2[j + 1] == m && t[j] == items[i]);
        }
    }
    assert(trace(s2, t, step));
}

/// The value the initializer of a `let` gives in the module: the types it
/// writes must name bound aliases; its ascriptions and inner annotations
/// are elaborated away; it is then checked against the annotation when
/// there is one, else evaluated.
pub open spec fn let_value_spec(m: Module, annotation: Option<SpecType>, expr: SpecExpr) -> CodeResult<SpecValue> {
    match annotation {
        Some(t) => match first_problem(bound_aliases_spec(m.type_env(), t), expr_aliases_spec(m.type_env(), expr)) {
            Some(c) => Err(c),
            None => match unchecked_spec(expr) {
                Err(c) => Err(c),
                Ok(p) => after_expand(expand_spec(m.type_env(), t, Seq::empty()), |et: SpecType| check_expr_spec(p, et, m.env_model())),
            },
        },
        None => match expr_aliases_spec(m.type_env(), expr) {
            Some(c) => Err(c),
            None => match unchecked_spec(expr) {
                Err(c) => Err(c),
                Ok(p) => eval_coded(p, m.env_model(), DEFAULT_DEPTH as nat),
            },
        },
    }
}

pub open spec fn annotation_view(a: Option<CoreType>) -> Option<SpecType> {
    match a {
        Some(t) => Some(t@),
        None => None,
    }
}

/// The expression with its ascriptions and `let` annotations checked and
/// erased by elaboration.
fn prepare(expr: &CoreExpr) -> (r: Result<CoreExpr>)
    ensures
        match r {
            Ok(p) => unchecked_spec(expr@) == Ok::<SpecExpr, ErrorCode>(p@),
            Err(e) => unchecked_spec(expr@) == Err::<SpecExpr, ErrorCode>(e.code_spec()),
        },
{
    let mut elaborator = CoreElaborator::new();
    elaborator.prepare_expr(expr.duplicate())
}

/// What evaluating one declaration does to the module.
pub open spec fn decl_step(m: Module, d: CoreDecl, r: CodeResult<()>, m2: Module) -> bool {
    match d {
        CoreDecl::Native { export, name, ty } => match bound_aliases_spec(m.type_env(), ty@) {
            Some(c) => r == Err::<(), ErrorCode>(c),
            None => if native_arity(name@) is None {
                r == Err::<(), ErrorCode>(ErrorCode::Reconf)
            } else {
                let v = SpecValue::Native { name: name@, args: Seq::empty() };
                &&& r == Ok::<(), ErrorCode>(())
                &&& m2.values_model() == m.values_model().push((name@, v))
                &&& m2.type_env() == m.type_env()
                &&& m2.exports_model() == exports_after(m.exports_model(), export, name@, SpecExport::Value(v))
            },
        },
        CoreDecl::Type { export, name, ty } => match bound_aliases_spec(m.type_env(), ty@) {
            Some(c) => r == Err::<(), ErrorCode>(c),
            None => if m.type_env().next_id() == usize::MAX {
                r == Err::<(), ErrorCode>(ErrorCode::Reconf)
            } else {
                &&& r == Ok::<(), ErrorCode>(())
                &&& m2.values_model() == m.values_model()
                &&& m2.type_env().named(name@) == Some(ty@)
                &&& forall|n: Seq<char>| n != name@ ==> m2.type_env().named(n) == m.type_env().named(n)
                &&& m2.exports_model() == exports_after(m.exports_model(), export, name@, SpecExport::Type(ty@))
            },
        },
        CoreDecl::Let { export, name, annotation, expr } => match let_value_spec(m, annotation_view(annotation), expr@) {
            Err(c) => r == Err::<(), ErrorCode>(c),
            Ok(v) => {
                &&& r == Ok::<(), ErrorCode>(())
                &&& m2.values_model() == m.values_model().push((name@, v))
                &&& m2.type_env() == m.type_env()
                &&& m2.exports_model() == exports_after(m.exports_model(), export, name@, SpecExport::Value(v))
            },
        },
    }
}

pub open spec fn decl_rel() -> spec_fn(Module, CoreDecl, CodeResult<()>, Module) -> bool {
    |m: Module, d: CoreDecl, r: CodeResult<()>, m2: Module| decl_step(m, d, r, m2)
}

/// What importing one name from `imported` does to the module: a name the
/// module already binds is a duplicate; a name `imported` does not export
/// is refused.
pub open spec fn import_step(m: Module, imported: Module, name: Seq<char>, r: CodeResult<()>, m2: Module) -> bool {
    if lookup_name(m.values_model(), name) is Some || m.type_env().named(name) is Some {
        r == Err::<(), ErrorCode>(ErrorCode::NameDuplicateImport)
    } else {
        match latest(imported.exports_model(), name) {
            None => r == Err::<(), ErrorCode>(ErrorCode::ModuleUnexportedImport),
            Some(SpecExport::Value(v)) => {
                &&& r == Ok::<(), ErrorCode>(())
                &&& m2.values_model() == m.values_model().push((name, v))
                &&& m2.type_env() == m.type_env()
                &&& m2.exports_model() == m.exports_model()
            },
            Some(SpecExport::Type(t)) => if m.type_env().next_id() == usize::MAX {
                r == Err::<(), ErrorCode>(ErrorCode::Reconf)
            } else {
                &&& r == Ok::<(), ErrorCode>(())
                &&& m2.values_model() == m.values_model()
                &&& m2.type_env().named(name) == Some(t)
                &&& forall|n: Seq<char>| n != name ==> m2.type_env().named(n) == m.type_env().named(n)
                &&& m2.exports_model() == m.exports_model()
            },
        }
    }
}

pub open spec fn import_rel(imported: Module) -> spec_fn(Module, Seq<char>, CodeResult<()>, Module) -> bool {
    |m: Module, name: Seq<char>, r: CodeResult<()>, m2: Module| import_step(m, imported, name, r, m2)
}

/// What evaluating the output does: the types it writes must name bound
/// aliases, its ascriptions and annotations are elaborated away, and its
/// value is bound as `$output`, unless it holds a function.
pub open spec fn output_step(m: Module, output: Option<SpecExpr>, r: CodeResult<()>, m2: Module) -> bool {
    match output {
        None => r == Ok::<(), ErrorCode>(()) && m2 == m,
        Some(e) => match expr_aliases_spec(m.type_env(), e) {
            Some(c) => r == Err::<(), ErrorCode>(c),
            None => match unchecked_spec(e) {
                Err(c) => r == Err::<(), ErrorCode>(c),
                Ok(p) => match eval_spec(p, m.env_model(), DEFAULT_DEPTH as nat) {
                    Err(c) => r == Err::<(), ErrorCode>(c.0),
                    Ok(v) => if contains_function_spec(v) {
                        r == Err::<(), ErrorCode>(ErrorCode::OutputFunction)
                    } else {
                        &&& r == Ok::<(), ErrorCode>(())
                        &&& m2.values_model() == m.values_model().push(("$output"@, v))
                        &&& m2.type_env() == m.type_env()
                        &&& m2.exports_model() == m.exports_model()
                    },
                },
            },
        },
    }
}

pub open spec fn output_view(o: Option<CoreExpr>) -> Option<SpecExpr> {
    match o {
        Some(e) => Some(e@),
        None => None,
    }
}

impl Module {
    /// The values by name, in the order they were bound.
    pub closed spec fn values_model(&self) -> Seq<(Seq<char>, SpecValue)> {
        value_fields_view(self.names@)
    }

    /// The type aliases.
    pub closed spec fn type_env(&self) -> CoreTypeEnv {
        self.types
    }

    /// The exports, in the order they were made.
    pub closed spec fn exports_model(&self) -> Seq<(Seq<char>, SpecExport)> {
        exports_view(self.exports@)
    }

    /// The environment expressions of the module are evaluated in.
    pub open spec fn env_model(&self) -> SpecEnv {
        SpecEnv { names: self.values_model(), locals: Seq::empty(), globals: Seq::empty() }
    }

    /// A module that binds nothing.
    pub fn new() -> (m: Module)
        ensures
            m.values_model().len() == 0,
            m.exports_model().len() == 0,
            forall|n: Seq<char>| m.type_env().named(n) is None,
            m.type_env().next_id() == 0,
    {
        let m = Module { names: Vec::new(), types: CoreTypeEnv::new(), exports: Vec::new() };
        assert(m.exports_model() =~= Seq::<(Seq<char>, SpecExport)>::empty());
        m
    }

    /// A deep copy: the same values, aliases and exports.
    pub fn duplicate(&self) -> (r: Module)
        ensures
            r.values_model() == self.values_model(),
            r.exports_model() == self.exports_model(),
            forall|n: Seq<char>| r.type_env().named(n) == self.type_env().named(n),
            r.type_env().next_id() == self.type_env().next_id(),
    {
        let names = duplicate_fields(&self.names);
        let mut exports: Vec<(String, Export)> = Vec::new();
        let mut i: usize = 0;
        while i < self.exports.len()
            invariant
                i <= self.exports@.len(),
                exports@.len() == i,
                forall|j: int| 0 <= j < i ==> (#[trigger] exports@[j]).0@ == self.exports@[j].0@
                    && export_view(exports@[j].1) == export_view(self.exports@[j].1),
            decreases self.exports.len() - i,
        {
            let e = match &self.exports[i].1 {
                Export::Value(v) => Export::Value(v.duplicate()),
                Export::Type(t) => Export::Type(t.duplicate()),
            };
            exports.push((self.exports[i].0.clone(), e));
            i = i + 1;
        }
        let r = Module { names, types: self.types.duplicate(), exports };
        assert(r.exports_model() =~= self.exports_model());
        r
    }

    /// The value most recently bound to `name`.
    pub fn value(&self, name: &str) -> (r: Option<&Value>)
        ensures
            match r {
                Some(v) => lookup_name(self.values_model(), name@) == Some(v@),
                None => lookup_name(self.values_model(), name@) is None,
            },
    {
        let ghost vs = self.values_model();
        proof {
            lemma_value_fields_view(self.names@);
        }
        let mut i: usize = self.names.len();
        assert(vs.take(vs.len() as int) =~= vs);
        while i > 0
            invariant
                i <= self.names@.len(),
                vs == value_fields_view(self.names@),
                vs.len() == self.names@.len(),
                lookup_name(vs, name@) == lookup_name(vs.take(i as int), name@),
            decreases i,
        {
            proof {
                lemma_value_fields_view(self.names@);
            }
            let ghost t = vs.take(i as int);
            assert(t.drop_last() =~= vs.take(i - 1));
            assert(t.last() == vs[i - 1]);
            if str_eq(self.names[i - 1].0.as_str(), name) {
                return Some(&self.names[i - 1].1);
            }
            i = i - 1;
        }
        assert(vs.take(0) =~= Seq::<(Seq<char>, SpecValue)>::empty());
        None
    }

    /// The output value.
    pub fn output(&self) -> (r: Result<&Value>)
        ensures
            match r {
                Ok(v) => lookup_name(self.values_model(), "$output"@) == Some(v@),
                Err(e) => lookup_name(self.values_model(), "$output"@) is None && e.code_spec() == ErrorCode::Reconf,
            },
    {
        match self.value("$output") {
            Some(v) => Ok(v),
            None => Err(Error::new("internal error: missing output")),
        }
    }

    /// The output value, taken out of the module.
    pub fn into_output(self) -> (r: Result<Value>)
        ensures
            match r {
                Ok(v) => lookup_name(self.values_model(), "$output"@) == Some(v@),
                Err(e) => lookup_name(self.values_model(), "$output"@) is None && e.code_spec() == ErrorCode::Reconf,
            },
    {
        match self.value("$output") {
            Some(v) => Ok(v.duplicate()),
            None => Err(Error::new("internal error: missing output")),
        }
    }

    /// The export most recently made under `name`.
    pub fn export(&self, name: &str) -> (r: Option<&Export>)
        ensures
            match r {
                Some(e) => latest(self.exports_model(), name@) == Some(export_view(*e)),
                None => latest(self.exports_model(), name@) is None,
            },
    {
        let ghost es = self.exports_model();
        let mut i: usize = self.exports.len();
        assert(es.take(es.len() as int) =~= es);
        while i > 0
            invariant
                i <= self.exports@.len(),
                es == exports_view(self.exports@),
                latest(es, name@) == latest(es.take(i as int), name@),
            decreases i,
        {
            let ghost t = es.take(i as int);
            assert(t.drop_last() =~= es.take(i - 1));
            assert(t.last() == es[i - 1]);
            if str_eq(self.exports[i - 1].0.as_str(), name) {
                return Some(&self.exports[i - 1].1);
            }
            i = i - 1;
        }
        assert(es.take(0) =~= Seq::<(Seq<char>, SpecExport)>::empty());
        None
    }

    /// The type aliases of the module.
    pub fn types(&self) -> (t: &CoreTypeEnv)
        ensures
            *t == self.type_env(),
    {
        &self.types
    }

    /// The environment the module's expressions are evaluated in.
    pub fn runtime_env(&self) -> (env: Env)
        ensures
            env@ == self.env_model(),
    {
        let env = Env { names: duplicate_fields(&self.names), locals: Vec::new(), globals: Vec::new() };
        assert(values_view(env.locals@) =~= Seq::<SpecValue>::empty());
        assert(crate::eval::value::globals_view(env.globals@) =~= Seq::<(crate::core_lang::ast::GlobalRef, SpecValue)>::empty());
        env
    }

    fn bind_value(&mut self, name: String, value: Value)
        ensures
            final(self).values_model() == old(self).values_model().push((name@, value@)),
            final(self).type_env() == old(self).type_env(),
            final(self).exports_model() == old(self).exports_model(),
    {
        let ghost before = self.names@;
        self.names.push((name, value));
        assert(self.names@.drop_last() =~= before);
    }

    fn add_export(&mut self, export: bool, name: String, e: Export)
        ensures
            final(self).exports_model() == exports_after(old(self).exports_model(), export, name@, export_view(e)),
            final(self).values_model() == old(self).values_model(),
            final(self).type_env() == old(self).type_env(),
    {
        if export {
            let ghost before = self.exports@;
            self.exports.push((name, e));
            assert(exports_view(self.exports@) =~= exports_view(before).push((name@, export_view(e))));
        }
    }

    fn define_alias(&mut self, name: String, ty: CoreType)
        requires
            old(self).type_env().next_id() < usize::MAX,
        ensures
            final(self).type_env().named(name@) == Some(ty@),
            forall|n: Seq<char>| n != name@ ==> final(self).type_env().named(n) == old(self).type_env().named(n),
            final(self).values_model() == old(self).values_model(),
            final(self).exports_model() == old(self).exports_model(),
    {
        let _previous = self.types.define(name, ty);
    }

    /// Binds the native function `name` under its own name and exports it.
    pub fn bind_native(&mut self, name: &str)
        requires
            native_arity(name@) is Some,
        ensures
            final(self).values_model() == old(self).values_model().push((name@, SpecValue::Native { name: name@, args: Seq::empty() })),
            final(self).exports_model() == old(self).exports_model().push((name@, SpecExport::Value(SpecValue::Native { name: name@, args: Seq::empty() }))),
            final(self).type_env() == old(self).type_env(),
    {
        let value = Value::Native(NativeFunction::new(name));
        let copy = Value::Native(NativeFunction::new(name));
        assert(value@ == SpecValue::Native { name: name@, args: Seq::empty() }) by {
            if let Value::Native(f) = value {
                assert(f.args@ =~= Seq::<Value>::empty());
                assert(values_view(f.args@) =~= Seq::<SpecValue>::empty());
            }
        }
        assert(copy@ == value@) by {
            if let Value::Native(f) = copy {
                assert(f.args@ =~= Seq::<Value>::empty());
                assert(values_view(f.args@) =~= Seq::<SpecValue>::empty());
            }
        }
        self.bind_value(name.to_owned(), value);
        self.add_export(true, name.to_owned(), Export::Value(copy));
    }

    /// Evaluates a `native` declaration.
    fn eval_native(&mut self, export: bool, name: String, ty: CoreType) -> (r: Result<()>)
        ensures
            decl_step(*old(self), CoreDecl::Native { export, name, ty }, code_of(r), *final(self)),
    {
        well_formed_type(&ty, &self.types)?;
        if !declared(name.as_str()) {
            return Err(Error::new(concat3("unknown native `", name.as_str(), "`").as_str()));
        }
        let value = Value::Native(NativeFunction::new(name.as_str()));
        let copy = Value::Native(NativeFunction::new(name.as_str()));
        assert(value@ == SpecValue::Native { name: name@, args: Seq::empty() }) by {
            assert(values_view(Seq::<Value>::empty()) =~= Seq::<SpecValue>::empty());
            if let Value::Native(f) = value {
                assert(f.args@ =~= Seq::<Value>::empty());
            }
        }
        assert(copy@ == value@) by {
            if let Value::Native(f) = copy {
                assert(f.args@ =~= Seq::<Value>::empty());
                assert(values_view(f.args@) =~= Seq::<SpecValue>::empty());
            }
        }
        self.bind_value(name.clone(), value);
        self.add_export(export, name, Export::Value(copy));
        Ok(())
    }

    /// Evaluates a `type` declaration.
    fn eval_type(&mut self, export: bool, name: String, ty: CoreType) -> (r: Result<()>)
        ensures
            decl_step(*old(self), CoreDecl::Type { export, name, ty }, code_of(r), *final(self)),
    {
        well_formed_type(&ty, &self.types)?;
        if !self.types.has_fresh_ref() {
            return Err(Error::new("too many type aliases"));
        }
        let copy = ty.duplicate();
        self.define_alias(name.clone(), ty);
        self.add_export(export, name, Export::Type(copy));
        Ok(())
    }

    /// The value of a `let` initializer in the module.
    fn let_value(&self, annotation: &Option<CoreType>, expr: &CoreExpr) -> (r: Result<Value>)
        ensures
            agrees(r, let_value_spec(*self, annotation_view(*annotation), expr@)),
    {
        let env = self.runtime_env();
        match annotation {
            Some(ty) => {
                well_formed_type(ty, &self.types)?;
                well_formed_expr(expr, &self.types)?;
                let prepared = prepare(expr)?;
                check_expr(&prepared, ty, &env, &self.types)
            },
            None => {
                well_formed_expr(expr, &self.types)?;
                let prepared = prepare(expr)?;
                let mut evaluator = CoreEvaluator::new();
                evaluator.eval(&prepared, &env)
            },
        }
    }

    /// Evaluates a `let` declaration.
    fn eval_let(&mut self, export: bool, name: String, annotation: Option<CoreType>, expr: CoreExpr) -> (r: Result<()>)
        ensures
            decl_step(*old(self), CoreDecl::Let { export, name, annotation, expr }, code_of(r), *final(self)),
    {
        let value = self.let_value(&annotation, &expr)?;
        let copy = value.duplicate();
        self.bind_value(name.clone(), value);
        self.add_export(export, name, Export::Value(copy));
        Ok(())
    }

    /// Evaluates one declaration.
    pub fn eval_decl(&mut self, decl: CoreDecl) -> (r: Result<()>)
        ensures
            decl_step(*old(self), decl, code_of(r), *final(self)),
    {
        match decl {
            CoreDecl::Native { export, name, ty } => self.eval_native(export, name, ty),
            CoreDecl::Type { export, name, ty } => self.eval_type(export, name, ty),
            CoreDecl::Let { export, name, annotation, expr } => self.eval_let(export, name, annotation, expr),
        }
    }

    /// Evaluates the declarations in order, stopping at the first failure.
    #[verifier::loop_isolation(false)]
    pub fn eval_decls(&mut self, decls: Vec<CoreDecl>) -> (r: Result<()>)
        ensures
            match r {
                Ok(()) => chain(*old(self), decls@, *final(self), decl_rel()),
                Err(e) => chain_fails(*old(self), decls@, e.code_spec(), decl_rel()),
            },
    {
        let ghost m0 = *self;
        let ghost all = decls@;
        assert(all.len() == decls.len());
        let mut pending = decls;
        let mut i: usize = 0;
        assert(all.take(0) =~= Seq::<CoreDecl>::empty());
        proof {
            lemma_chain_empty(m0, all.take(0), decl_rel());
        }
        while pending.len() > 0
            invariant
                i + pending@.len() == all.len(),
                all.len() <= usize::MAX,
                pending@ == all.skip(i as int),
                chain(m0, all.take(i as int), *self, decl_rel()),
            decreases pending.len(),
        {
            let ghost before = *self;
            let decl = pending.remove(0);
            assert(decl == all[i as int]);
            let r = self.eval_decl(decl);
            match r {
                Ok(()) => {
                    proof {
                        lemma_chain_extend(m0, all, i as int, before, *self, decl_rel());
                    }
                },
                Err(e) => {
                    proof {
                        assert(chain(m0, all.take(i as int), before, decl_rel()));
                        assert forall|m2: Module| #[trigger] decl_rel()(before, all[i as int], Err(e.code_spec()), m2) by {
                            assert(decl_step(before, all[i as int], Err(e.code_spec()), *self));
                        }
                        assert(chain_fails(m0, all, e.code_spec(), decl_rel()));
                    }
                    return Err(e);
                },
            }
            i = i + 1;
            assert(pending@ =~= all.skip(i as int));
        }
        assert(all.take(i as int) =~= all);
        Ok(())
    }

    /// Binds one name that `imported` exports.
    pub fn import_name(&mut self, imported: &Module, name: &String) -> (r: Result<()>)
        ensures
            import_step(*old(self), *imported, name@, code_of(r), *final(self)),
    {
        let taken = match self.value(name.as_str()) {
            Some(_) => true,
            None => false,
        };
        if taken || self.types.alias(name.as_str()).is_some() {
            return Err(Error::with_code(
                ErrorCode::NameDuplicateImport,
                concat3("duplicate import `", name.as_str(), "`").as_str(),
            ));
        }
        match imported.export(name.as_str()) {
            Some(Export::Value(v)) => {
                self.bind_value(name.clone(), v.duplicate());
                Ok(())
            },
            Some(Export::Type(t)) => {
                if !self.types.has_fresh_ref() {
                    return Err(Error::new("too many type aliases"));
                }
                self.define_alias(name.clone(), t.duplicate());
                Ok(())
            },
            None => Err(Error::with_code(
                ErrorCode::ModuleUnexportedImport,
                concat3("unexported import `", name.as_str(), "`").as_str(),
            )),
        }
    }

    /// Binds the listed names that `imported` exports, in order.
    #[verifier::loop_isolation(false)]
    pub fn import(&mut self, imported: &Module, names: &Vec<String>) -> (r: Result<()>)
        ensures
            match r {
                Ok(()) => chain(*old(self), strings_view(names@), *final(self), import_rel(*imported)),
                Err(e) => chain_fails(*old(self), strings_view(names@), e.code_spec(), import_rel(*imported)),
            },
    {
        let ghost m0 = *self;
        let ghost all = strings_view(names@);
        let mut i: usize = 0;
        assert(all.take(0) =~= Seq::<Seq<char>>::empty());
        proof {
            lemma_chain_empty(m0, all.take(0), import_rel(*imported));
        }
        while i < names.len()
            invariant
                i <= names@.len(),
                all == strings_view(names@),
                all.len() == names@.len(),
                chain(m0, all.take(i as int), *self, import_rel(*imported)),
            decreases names.len() - i,
        {
            let ghost before = *self;
            assert(all[i as int] == names@[i as int]@);
            let r = self.import_name(imported, &names[i]);
            match r {
                Ok(()) => {
                    proof {
                        lemma_chain_extend(m0, all, i as int, before, *self, import_rel(*imported));
                    }
                },
                Err(e) => {
                    proof {
                        assert(chain(m0, all.take(i as int), before, import_rel(*imported)));
                        assert forall|m2: Module| #[trigger] import_rel(*imported)(before, all[i as int], Err(e.code_spec()), m2) by {
                            assert(import_step(before, *imported, all[i as int], Err(e.code_spec()), *self));
                        }
                        assert(chain_fails(m0, all, e.code_spec(), import_rel(*imported)));
                    }
                    return Err(e);
                },
            }
            i = i + 1;
        }
        assert(all.take(i as int) =~= all);
        Ok(())
    }

    /// Evaluates the output expression, if there is one, and binds its
    /// value as `$output`.
    pub fn eval_output(&mut self, output: Option<CoreExpr>) -> (r: Result<()>)
        ensures
            output_step(*old(self), output_view(output), code_of(r), *final(self)),
    {
        match output {
            None => Ok(()),
            Some(expr) => {
                well_formed_expr(&expr, &self.types)?;
                let prepared = prepare(&expr)?;
                let env = self.runtime_env();
                let mut evaluator = CoreEvaluator::new();
                let value = evaluator.eval(&prepared, &env)?;
                if contains_function(&value) {
                    return Err(Error::with_code(ErrorCode::OutputFunction, "function escaped into output"));
                }
                self.bind_value("$output".to_owned(), value);
                Ok(())
            },
        }
    }
}

/// Modules already loaded, by path, and the paths being loaded, so that an
/// import that leads back to a file being loaded is reported as a cycle.
pub struct Loader {
    cache: Vec<(String, Module)>,
    loading: Vec<String>,
}

impl Loader {
    /// The paths of the loaded modules.
    pub closed spec fn cached_paths(&self) -> Seq<Seq<char>> {
        self.cache@.map_values(|e: (String, Module)| e.0@)
    }

    /// The paths being loaded.
    pub closed spec fn loading_paths(&self) -> Seq<Seq<char>> {
        strings_view(self.loading@)
    }

    /// A loader with nothing loaded.
    pub fn new() -> (l: Loader)
        ensures
            l.cached_paths().len() == 0,
            l.loading_paths().len() == 0,
    {
        let l = Loader { cache: Vec::new(), loading: Vec::new() };
        assert(l.cached_paths() =~= Seq::<Seq<char>>::empty());
        assert(l.loading_paths() =~= Seq::<Seq<char>>::empty());
        l
    }

    fn cache_index(&self, path: &str) -> (r: Option<usize>)
        ensures
            match r {
                Some(i) => i < self.cache@.len() && self.cache@[i as int].0@ == path@
                    && forall|j: int| 0 <= j < i ==> self.cache@[j].0@ != path@,
                None => !self.cached_paths().contains(path@) && forall|j: int| 0 <= j < self.cache@.len() ==> self.cache@[j].0@ != path@,
            },
    {
        let mut i: usize = 0;
        while i < self.cache.len()
            invariant
                i <= self.cache@.len(),
                forall|j: int| 0 <= j < i ==> self.cache@[j].0@ != path@,
            decreases self.cache.len() - i,
        {
            if str_eq(self.cache[i].0.as_str(), path) {
                return Some(i);
            }
            i = i + 1;
        }
        assert forall|j: int| 0 <= j < self.cached_paths().len() implies self.cached_paths()[j] != path@ by {
            assert(self.cached_paths()[j] == self.cache@[j].0@);
        }
        None
    }

    fn loading_index(&self, path: &str) -> (r: Option<usize>)
        ensures
            match r {
                Some(i) => i < self.loading@.len() && self.loading@[i as int]@ == path@,
                None => !self.loading_paths().contains(path@),
            },
    {
        let mut i: usize = 0;
        while i < self.loading.len()
            invariant
                i <= self.loading@.len(),
                forall|j: int| 0 <= j < i ==> self.loading@[j]@ != path@,
            decreases self.loading.len() - i,
        {
            if str_eq(self.loading[i].as_str(), path) {
                return Some(i);
            }
            i = i + 1;
        }
        assert forall|j: int| 0 <= j < self.loading_paths().len() implies self.loading_paths()[j] != path@ by {
            assert(self.loading_paths()[j] == self.loading@[j]@);
        }
        None
    }

    /// Starts loading `path`: `true` when it is loaded already, an error
    /// when it is being loaded (the imports form a cycle), and otherwise
    /// `false`, with the path marked as being loaded.
    pub fn begin(&mut self, path: &str) -> (r: Result<bool>)
        ensures
            old(self).cached_paths().contains(path@) ==> r == Ok::<bool, Error>(true) && final(self).cached_paths() == old(self).cached_paths() && final(self).loading_paths() == old(self).loading_paths(),
            !old(self).cached_paths().contains(path@) && old(self).loading_paths().contains(path@) ==> (r matches Err(e) && e.code_spec() == ErrorCode::ModuleCycle) && final(self).cached_paths() == old(self).cached_paths() && final(self).loading_paths() == old(self).loading_paths(),
            !old(self).cached_paths().contains(path@) && !old(self).loading_paths().contains(path@) ==> r == Ok::<bool, Error>(false) && final(self).cached_paths() == old(self).cached_paths() && final(self).loading_paths() == old(self).loading_paths().push(path@),
    {
        match self.cache_index(path) {
            Some(i) => {
                assert(self.cached_paths()[i as int] == path@);
                return Ok(true);
            },
            None => {},
        }
        match self.loading_index(path) {
            Some(i) => {
                assert(self.loading_paths()[i as int] == path@);
                return Err(Error::with_code(ErrorCode::ModuleCycle, concat3("cyclic import `", path, "`").as_str()));
            },
            None => {},
        }
        let ghost before = self.loading@;
        self.loading.push(path.to_owned());
        assert(strings_view(self.loading@) =~= strings_view(before).push(path@));
        Ok(false)
    }

    /// The loaded modules by path, in the order they were loaded.
    pub closed spec fn cache_model(&self) -> Seq<(Seq<char>, Module)> {
        self.cache@.map_values(|e: (String, Module)| (e.0@, e.1))
    }

    /// The loaded module for `path`.
    pub fn cached(&self, path: &str) -> (r: Option<&Module>)
        ensures
            r is Some <==> self.cached_paths().contains(path@),
            match r {
                Some(m) => lookup(self.cache_model(), path@) == Some(*m),
                None => lookup(self.cache_model(), path@) is None,
            },
    {
        proof {
            assert forall|j: int| 0 <= j < self.cache@.len() implies #[trigger] self.cache_model()[j].0 == self.cached_paths()[j] by {}
        }
        match self.cache_index(path) {
            Some(i) => {
                assert(self.cached_paths()[i as int] == path@);
                proof {
                    lemma_lookup_first(self.cache_model(), path@, i as int);
                }
                Some(&self.cache[i].1)
            },
            None => {
                proof {
                    lemma_lookup_none(self.cache_model(), path@);
                }
                None
            },
        }
    }

    /// Records the module loaded for `path`, which is no longer being loaded.
    pub fn finish(&mut self, path: String, module: Module)
        ensures
            final(self).cached_paths() == old(self).cached_paths().push(path@),
            !final(self).loading_paths().contains(path@),
            forall|p: Seq<char>| p != path@ ==> (final(self).loading_paths().contains(p) <==> old(self).loading_paths().contains(p)),
    {
        let ghost old_loading = self.loading@;
        let mut rest: Vec<String> = Vec::new();
        let mut i: usize = 0;
        while i < self.loading.len()
            invariant
                i <= self.loading@.len(),
                self.loading@ == old_loading,
                forall|j: int| 0 <= j < rest@.len() ==> rest@[j]@ != path@,
                forall|q: Seq<char>| q != path@ ==> (strings_view(rest@).contains(q) <==> strings_view(old_loading.take(i as int)).contains(q)),
            decreases self.loading.len() - i,
        {
            let ghost before = rest@;
            if !str_eq(self.loading[i].as_str(), path.as_str()) {
                rest.push(self.loading[i].clone());
            }
            proof {
                assert(old_loading.take(i + 1) =~= old_loading.take(i as int).push(old_loading[i as int]));
                assert(strings_view(old_loading.take(i + 1)) =~= strings_view(old_loading.take(i as int)).push(old_loading[i as int]@));
                if rest@.len() > before.len() {
                    assert(strings_view(rest@) =~= strings_view(before).push(old_loading[i as int]@));
                } else {
                    assert(rest@ == before);
                }
                assert forall|q: Seq<char>| q != path@ implies (strings_view(rest@).contains(q) <==> strings_view(old_loading.take(i + 1)).contains(q)) by {
                    let a = strings_view(old_loading.take(i as int));
                    let b = strings_view(before);
                    if strings_view(old_loading.take(i + 1)).contains(q) {
                        let k = choose|k: int| 0 <= k < strings_view(old_loading.take(i + 1)).len() && #[trigger] strings_view(old_loading.take(i + 1))[k] == q;
                        if k < a.len() {
                            assert(a[k] == q);
                            assert(b.contains(q));
                            let m = choose|m: int| 0 <= m < b.len() && #[trigger] b[m] == q;
                            assert(strings_view(rest@)[m] == q);
                        } else {
                            assert(old_loading[i as int]@ == q);
                            assert(strings_view(rest@)[strings_view(rest@).len() - 1] == q);
                        }
                    }
                    if strings_view(rest@).contains(q) {
                        let k = choose|k: int| 0 <= k < strings_view(rest@).len() && #[trigger] strings_view(rest@)[k] == q;
                        if k < b.len() {
                            assert(b[k] == q);
                            assert(b.contains(q));
                            assert(a.contains(q));
                            let m = choose|m: int| 0 <= m < a.len() && #[trigger] a[m] == q;
                            assert(strings_view(old_loading.take(i + 1))[m] == q);
                        } else {
                            assert(strings_view(old_loading.take(i + 1))[i as int] == q);
                        }
                    }
                }
            }
            i = i + 1;
        }
        proof {
            assert(old_loading.take(i as int) =~= old_loading);
            assert forall|j: int| 0 <= j < strings_view(rest@).len() implies strings_view(rest@)[j] != path@ by {
                assert(strings_view(rest@)[j] == rest@[j]@);
            }
        }
        self.loading = rest;
        let ghost cache_before = self.cache@;
        self.cache.push((path, module));
        assert(self.cached_paths() =~= cache_before.map_values(|e: (String, Module)| e.0@).push(path@));
    }
}

/// The output of a module in the ReConf format; a module without output, or
/// whose output holds a function, has none.
pub fn run(module: &Module) -> (r: Result<String>)
    ensures
        match r {
            Ok(s) => (lookup_name(module.values_model(), "$output"@) matches Some(v) && !contains_function_spec(v)
                && s@ == reconf_spec(v)),
            Err(e) => match lookup_name(module.values_model(), "$output"@) {
                Some(v) => contains_function_spec(v) && e.code_spec() == ErrorCode::OutputFunction,
                None => e.code_spec() == ErrorCode::Reconf,
            },
        },
{
    let output = module.output()?;
    let data = OutputValidator::new().validate(output)?;
    Ok(ReconfEmitter::new().emit(&data))
}

/// The names of each import.
pub open spec fn import_names(imports: Seq<CoreImport>) -> Seq<Seq<Seq<char>>> {
    imports.map_values(|i: CoreImport| strings_view(i.names@))
}

/// Binding the imports of a file in order, each from its loaded module.
pub open spec fn imports_done(m0: Module, names: Seq<Seq<Seq<char>>>, loaded: Seq<Module>, m: Module) -> bool {
    &&& names.len() == loaded.len()
    &&& exists|states: Seq<Module>| {
        &&& states.len() == names.len() + 1
        &&& states[0] == m0
        &&& states.last() == m
        &&& forall|j: int| 0 <= j < names.len() ==> #[trigger] chain(states[j], names[j], states[j + 1], import_rel(loaded[j]))
    }
}

proof fn lemma_imports_extend(m0: Module, names: Seq<Seq<Seq<char>>>, loaded: Seq<Module>, i: int, mid: Module, m: Module)
    requires
        names.len() == loaded.len(),
        0 <= i < names.len(),
        imports_done(m0, names.take(i), loaded.take(i), mid),
        chain(mid, names[i], m, import_rel(loaded[i])),
    ensures
        imports_done(m0, names.take(i + 1), loaded.take(i + 1), m),
{
    let states = choose|states: Seq<Module>| {
        &&& states.len() == names.take(i).len() + 1
        &&& states[0] == m0
        &&& states.last() == mid
        &&& forall|j: int| 0 <= j < names.take(i).len() ==> #[trigger] chain(states[j], names.take(i)[j], states[j + 1], import_rel(loaded.take(i)[j]))
    };
    let s2 = states.push(m);
    let n2 = names.take(i + 1);
    let l2 = loaded.take(i + 1);
    assert forall|j: int| 0 <= j < n2.len() implies #[trigger] chain(s2[j], n2[j], s2[j + 1], import_rel(l2[j])) by {
        if j < i {
            assert(names.take(i)[j] == n2[j] && loaded.take(i)[j] == l2[j]);
            assert(chain(states[j], names.take(i)[j], states[j + 1], import_rel(loaded.take(i)[j])));
            assert(s2[j] == states[j] && s2[j + 1] == states[j + 1]);
        } else {
            assert(s2[j] == mid && s2[j + 1] == m && n2[j] == names[i] && l2[j] == loaded[i]);
        }
    }
    assert(s2.len() == n2.len() + 1 && s2[0] == m0 && s2.last() == m);
}

/// Evaluating a file fails with `c` at one of its steps, every step before
/// it succeeding: binding the names of one import, one declaration, or the
/// output.
pub open spec fn file_fails(module: Module, file: CoreModule, loaded: Seq<Module>, c: ErrorCode) -> bool {
    let names = import_names(file.imports@);
    ||| exists|i: int, mid: Module| 0 <= i < names.len()
        && #[trigger] imports_done(module, names.take(i), loaded.take(i), mid)
        && chain_fails(mid, names[i], c, import_rel(loaded[i]))
    ||| exists|m1: Module| #[trigger] imports_done(module, names, loaded, m1)
        && chain_fails(m1, file.decls@, c, decl_rel())
    ||| exists|m1: Module, m2: Module| #[trigger] imports_done(module, names, loaded, m1)
        && #[trigger] chain(m1, file.decls@, m2, decl_rel())
        && forall|m3: Module| #[trigger] output_step(m2, output_view(file.output), Err(c), m3)
}

/// Evaluates a lowered file on top of `module` (the prelude, or nothing):
/// the imports are bound from the loaded modules given for them, in order,
/// then the declarations are evaluated and the output bound.
#[verifier::loop_isolation(false)]
pub fn eval_file(module: Module, file: CoreModule, loaded: &Vec<Module>) -> (r: Result<Module>)
    requires
        loaded@.len() == file.imports@.len(),
    ensures
        r matches Ok(m) ==> exists|m1: Module, m2: Module|
            #[trigger] imports_done(module, import_names(file.imports@), loaded@, m1)
                && #[trigger] chain(m1, file.decls@, m2, decl_rel())
                && output_step(m2, output_view(file.output), Ok(()), m),
        r matches Err(e) ==> file_fails(module, file, loaded@, e.code_spec()),
{
    let mut current = module;
    let ghost names = import_names(file.imports@);
    let mut i: usize = 0;
    assert(names.take(0) =~= Seq::<Seq<Seq<char>>>::empty());
    assert(loaded@.take(0) =~= Seq::<Module>::empty());
    proof {
        let states = seq![module];
        assert(states.len() == names.take(0).len() + 1);
        assert(imports_done(module, names.take(0), loaded@.take(0), current));
    }
    while i < file.imports.len()
        invariant
            i <= file.imports@.len(),
            loaded@.len() == file.imports@.len(),
            names == import_names(file.imports@),
            imports_done(module, names.take(i as int), loaded@.take(i as int), current),
        decreases file.imports.len() - i,
    {
        let ghost before = current;
        match current.import(&loaded[i], &file.imports[i].names) {
            Ok(()) => {},
            Err(e) => {
                proof {
                    assert(names[i as int] == strings_view(file.imports@[i as int].names@));
                    assert(imports_done(module, names.take(i as int), loaded@.take(i as int), before));
                }
                return Err(e);
            },
        }
        proof {
            assert(names[i as int] == strings_view(file.imports@[i as int].names@));
            lemma_imports_extend(module, names, loaded@, i as int, before, current);
        }
        i = i + 1;
    }
    assert(names.take(i as int) =~= names);
    assert(loaded@.take(i as int) =~= loaded@);
    let ghost m1 = current;
    assert(imports_done(module, names, loaded@, m1));
    match current.eval_decls(file.decls) {
        Ok(()) => {},
        Err(e) => {
            return Err(e);
        },
    }
    let ghost m2 = current;
    match current.eval_output(file.output) {
        Ok(()) => {},
        Err(e) => {
            proof {
                assert forall|m3: Module| #[trigger] output_step(m2, output_view(file.output), Err(e.code_spec()), m3) by {
                    assert(output_step(m2, output_view(file.output), code_of(Err::<(), Error>(e)), current));
                }
            }
            return Err(e);
        },
    }
    Ok(current)
}

} // verus!
