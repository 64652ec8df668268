//! The types of the values in scope while an expression is elaborated.

use vstd::prelude::*;

use crate::core_lang::ast::{CoreType, GlobalRef, LocalRef, SpecType};
use crate::fields::{lookup, lemma_lookup_first, lemma_lookup_none, model, FieldMap};

verus! {

/// Where the types of values are looked up.
pub trait CoreValueTypeContext {
    fn value_type(&self, name: &str) -> Option<&CoreType>;

    fn global_value(&self, name: &str) -> Option<(GlobalRef, &CoreType)>;

    fn local_value(&self, name: &str) -> Option<(LocalRef, &CoreType)>;

    fn local_type(&self, local: LocalRef) -> Option<&CoreType>;

    fn global_type(&self, binding: GlobalRef) -> Option<&CoreType>;
}

/// Top-level value bindings by name, each with its reference and type.
pub struct ValueTypeScope {
    globals: FieldMap<(GlobalRef, CoreType)>,
}

/// The model of the global bindings.
pub open spec fn globals_model(s: Seq<(String, (GlobalRef, CoreType))>) -> Seq<(Seq<char>, (GlobalRef, SpecType))> {
    model(s, |b: (GlobalRef, CoreType)| (b.0, b.1@))
}

/// The type of the first binding (in name order) with the given reference.
pub open spec fn binding_type(s: Seq<(Seq<char>, (GlobalRef, SpecType))>, binding: GlobalRef) -> Option<SpecType>
    decreases s.len(),
{
    if s.len() == 0 {
        None
    } else if s[0].1.0 == binding {
        Some(s[0].1.1)
    } else {
        binding_type(s.drop_first(), binding)
    }
}

/// The name of the first binding (in name order) with the given reference.
pub open spec fn binding_name(s: Seq<(Seq<char>, (GlobalRef, SpecType))>, binding: GlobalRef) -> Option<Seq<char>>
    decreases s.len(),
{
    if s.len() == 0 {
        None
    } else if s[0].1.0 == binding {
        Some(s[0].0)
    } else {
        binding_name(s.drop_first(), binding)
    }
}

impl ValueTypeScope {
    pub closed spec fn entries(&self) -> Seq<(String, (GlobalRef, CoreType))> {
        self.globals.entries@
    }

    /// The model: names with their references and types.
    pub open spec fn spec_globals(&self) -> Seq<(Seq<char>, (GlobalRef, SpecType))> {
        globals_model(self.entries())
    }

    /// A scope without bindings.
    pub fn new() -> (s: ValueTypeScope)
        ensures
            s.spec_globals().len() == 0,
    {
        ValueTypeScope { globals: FieldMap::new() }
    }

    /// Binds `name`, replacing an earlier binding of the same name.
    pub fn define(&mut self, name: String, binding: GlobalRef, ty: CoreType)
        ensures
            lookup(final(self).spec_globals(), name@) == Some((binding, ty@)),
            forall|n: Seq<char>| n != name@ ==> lookup(final(self).spec_globals(), n) == lookup(old(self).spec_globals(), n),
    {
        let ghost before = self.globals.entries@;
        let ghost k = name;
        let ghost v = (binding, ty);
        let replaced = self.globals.insert(name, (binding, ty));
        proof {
            crate::fields::lemma_model_after_insert(before, self.globals.entries@, k, v, replaced, |b: (GlobalRef, CoreType)| (b.0, b.1@));
        }
    }

    /// A deep copy.
    pub fn duplicate(&self) -> (r: ValueTypeScope)
        ensures
            r.spec_globals() == self.spec_globals(),
    {
        let mut out: Vec<(String, (GlobalRef, CoreType))> = Vec::new();
        let mut i: usize = 0;
        while i < self.globals.entries.len()
            invariant
                i <= self.globals.entries@.len(),
                globals_model(out@) == globals_model(self.globals.entries@).take(i as int),
            decreases self.globals.entries.len() - i,
        {
            let entry = &self.globals.entries[i];
            let ghost prev = out@;
            out.push((entry.0.clone(), (entry.1.0, entry.1.1.duplicate())));
            assert(globals_model(out@) =~= globals_model(prev).push((entry.0@, (entry.1.0, entry.1.1@))));
            assert(globals_model(self.globals.entries@).take(i + 1) =~= globals_model(self.globals.entries@).take(i as int).push((entry.0@, (entry.1.0, entry.1.1@))));
            i = i + 1;
        }
        assert(globals_model(self.globals.entries@).take(i as int) =~= globals_model(self.globals.entries@));
        ValueTypeScope { globals: FieldMap { entries: out } }
    }

    /// The reference and type bound to `name`.
    pub fn lookup_global(&self, name: &str) -> (r: Option<(GlobalRef, &CoreType)>)
        ensures
            match r {
                Some((g, t)) => lookup(self.spec_globals(), name@) == Some((g, t@)),
                None => lookup(self.spec_globals(), name@) is None,
            },
    {
        let ghost s = self.globals.entries@;
        match self.globals.get(name) {
            Some(entry) => {
                proof {
                    let i = choose|i: int|
                        0 <= i < s.len() && s[i].0@ == name@ && s[i].1 == *entry
                            && forall|j: int| 0 <= j < i ==> s[j].0@ != name@;
                    lemma_lookup_first(globals_model(s), name@, i);
                }
                Some((entry.0, &entry.1))
            },
            None => {
                proof {
                    lemma_lookup_none(globals_model(s), name@);
                }
                None
            },
        }
    }

    /// The type of the binding with the given reference.
    pub fn lookup_binding(&self, binding: GlobalRef) -> (r: Option<(&String, &CoreType)>)
        ensures
            match r {
                Some((n, t)) => binding_type(self.spec_globals(), binding) == Some(t@)
                    && binding_name(self.spec_globals(), binding) == Some(n@),
                None => binding_type(self.spec_globals(), binding) is None
                    && binding_name(self.spec_globals(), binding) is None,
            },
    {
        let ghost m = self.spec_globals();
        let mut i: usize = 0;
        assert(m.skip(0) =~= m);
        while i < self.globals.entries.len()
            invariant
                i <= self.globals.entries@.len(),
                m.len() == self.globals.entries@.len(),
                m == self.spec_globals(),
                binding_type(m, binding) == binding_type(m.skip(i as int), binding),
                binding_name(m, binding) == binding_name(m.skip(i as int), binding),
            decreases self.globals.entries.len() - i,
        {
            assert(m.skip(i as int)[0] == m[i as int]);
            proof {
                crate::fields::lemma_model_index(self.globals.entries@, |b: (GlobalRef, CoreType)| (b.0, b.1@), i as int);
            }
            if self.globals.entries[i].1.0 == binding {
                return Some((&self.globals.entries[i].0, &self.globals.entries[i].1.1));
            }
            assert(m.skip(i as int).drop_first() =~= m.skip(i + 1));
            i = i + 1;
        }
        None
    }
}

impl CoreValueTypeContext for ValueTypeScope {
    fn value_type(&self, name: &str) -> (r: Option<&CoreType>)
        ensures
            match r {
                Some(t) => lookup(self.spec_globals(), name@) matches Some(b) && b.1 == t@,
                None => lookup(self.spec_globals(), name@) is None,
            },
    {
        match self.lookup_global(name) {
            Some((_, ty)) => Some(ty),
            None => None,
        }
    }

    fn global_value(&self, name: &str) -> (r: Option<(GlobalRef, &CoreType)>)
        ensures
            match r {
                Some((g, t)) => lookup(self.spec_globals(), name@) == Some((g, t@)),
                None => lookup(self.spec_globals(), name@) is None,
            },
    {
        self.lookup_global(name)
    }

    fn local_value(&self, name: &str) -> Option<(LocalRef, &CoreType)> {
        None
    }

    fn local_type(&self, local: LocalRef) -> Option<&CoreType> {
        None
    }

    fn global_type(&self, binding: GlobalRef) -> (r: Option<&CoreType>)
        ensures
            match r {
                Some(t) => binding_type(self.spec_globals(), binding) == Some(t@),
                None => binding_type(self.spec_globals(), binding) is None,
            },
    {
        match self.lookup_binding(binding) {
            Some((_, ty)) => Some(ty),
            None => None,
        }
    }
}

/// The innermost local named `name`, counted outward from the innermost binder.
pub open spec fn local_value_spec(locals: Seq<(Seq<char>, SpecType)>, name: Seq<char>) -> Option<(LocalRef, SpecType)>
    decreases locals.len(),
{
    if locals.len() == 0 {
        None
    } else if locals.last().0 == name {
        Some((LocalRef(0), locals.last().1))
    } else {
        match local_value_spec(locals.drop_last(), name) {
            Some((l, t)) => Some((LocalRef((l.0 + 1) as usize), t)),
            None => None,
        }
    }
}

/// The type of the local `index` binders out from the innermost one.
pub open spec fn local_type_spec(locals: Seq<(Seq<char>, SpecType)>, local: LocalRef) -> Option<SpecType> {
    if local.0 < locals.len() {
        Some(locals[locals.len() - 1 - local.0].1)
    } else {
        None
    }
}

/// The model of a stack of locals, innermost last.
pub open spec fn locals_model(s: Seq<(String, CoreType)>) -> Seq<(Seq<char>, SpecType)> {
    s.map_values(|e: (String, CoreType)| (e.0@, e.1@))
}

proof fn lemma_local_found(m: Seq<(Seq<char>, SpecType)>, name: Seq<char>, j: int)
    requires
        0 <= j < m.len(),
        m[j].0 == name,
        forall|q: int| j < q < m.len() ==> m[q].0 != name,
        m.len() <= usize::MAX,
    ensures
        local_value_spec(m, name) == Some((LocalRef((m.len() - 1 - j) as usize), m[j].1)),
    decreases m.len(),
{
    if j < m.len() - 1 {
        assert forall|q: int| j < q < m.drop_last().len() implies m.drop_last()[q].0 != name by {
            assert(m.drop_last()[q] == m[q]);
        }
        lemma_local_found(m.drop_last(), name, j);
        assert(m.drop_last()[j] == m[j]);
    }
}

proof fn lemma_local_absent(m: Seq<(Seq<char>, SpecType)>, name: Seq<char>)
    requires
        forall|q: int| 0 <= q < m.len() ==> m[q].0 != name,
    ensures
        local_value_spec(m, name) is None,
    decreases m.len(),
{
    if m.len() > 0 {
        assert forall|q: int| 0 <= q < m.drop_last().len() implies m.drop_last()[q].0 != name by {
            assert(m.drop_last()[q] == m[q]);
        }
        lemma_local_absent(m.drop_last(), name);
    }
}

/// Finds the innermost local named `name`.
pub fn find_local<'a>(locals: &'a Vec<(String, CoreType)>, name: &String) -> (r: Option<(LocalRef, &'a CoreType)>)
    ensures
        match r {
            Some((l, t)) => local_value_spec(locals_model(locals@), name@) == Some((l, t@)),
            None => local_value_spec(locals_model(locals@), name@) is None,
        },
{
    let ghost m = locals_model(locals@);
    assert(m.len() == locals.len());
    let mut k: usize = locals.len();
    while k > 0
        invariant
            k <= locals@.len(),
            m == locals_model(locals@),
            m.len() == locals.len(),
            forall|q: int| k <= q < m.len() ==> m[q].0 != name@,
        decreases k,
    {
        assert(m[k - 1] == (locals@[k - 1].0@, locals@[k - 1].1@));
        if locals[k - 1].0 == *name {
            proof {
                lemma_local_found(m, name@, k - 1);
            }
            return Some((LocalRef::new(locals.len() - k), &locals[k - 1].1));
        }
        k = k - 1;
    }
    proof {
        lemma_local_absent(m, name@);
    }
    None
}

/// The type of a local counted outward from the innermost binder.
pub fn find_local_type<'a>(locals: &'a Vec<(String, CoreType)>, local: LocalRef) -> (r: Option<&'a CoreType>)
    ensures
        match r {
            Some(t) => local_type_spec(locals_model(locals@), local) == Some(t@),
            None => local_type_spec(locals_model(locals@), local) is None,
        },
{
    if local.index() < locals.len() {
        Some(&locals[locals.len() - 1 - local.index()].1)
    } else {
        None
    }
}

} // verus!
