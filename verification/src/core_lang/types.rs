//! Type environments, structural type equivalence and well-formedness of types.

use vstd::prelude::*;

use crate::core_lang::ast::{
    CoreExpr, CoreType, SpecExpr, SpecType, TypeAliasRef, lemma_type_fields_view, lemma_type_fields_view_model, strings_view, strings_same,
    lemma_type_fields_view_insert, lemma_type_fields_view_update, type_fields_view, type_view,
};
use crate::error::{ByteRange, Error, ErrorCode, Result};
use crate::fields::{
    entry_keys, lemma_lookup_first, lemma_lookup_insert, lemma_lookup_none, lemma_lookup_some_index,
    lemma_lookup_update, lemma_model_after_insert, lookup, model, FieldMap,
};
use crate::text::{concat3, str_eq};

verus! {

broadcast use vstd::std_specs::vec::group_vec_axioms;

/// Where type aliases are looked up, by name or by reference.
pub trait CoreTypeContext {
    /// The alias bound to a name.
    spec fn alias_spec(&self, name: Seq<char>) -> Option<SpecType>;

    /// The alias bound to a reference.
    spec fn alias_by_ref_spec(&self, alias: TypeAliasRef) -> Option<SpecType>;

    /// A finite set holding every bound name.
    spec fn alias_names(&self) -> Set<Seq<char>>;

    /// A finite set holding every bound reference.
    spec fn alias_refs(&self) -> Set<TypeAliasRef>;

    proof fn lemma_alias_names(&self, name: Seq<char>)
        ensures
            self.alias_names().finite(),
            self.alias_spec(name) is Some ==> self.alias_names().contains(name),
    ;

    proof fn lemma_alias_refs(&self, alias: TypeAliasRef)
        ensures
            self.alias_refs().finite(),
            self.alias_by_ref_spec(alias) is Some ==> self.alias_refs().contains(alias),
    ;

    fn alias(&self, name: &str) -> (r: Option<&CoreType>)
        ensures
            match r {
                Some(t) => self.alias_spec(name@) == Some(t@),
                None => self.alias_spec(name@) is None,
            },
    ;

    fn alias_by_ref(&self, alias: TypeAliasRef) -> (r: Option<&CoreType>)
        ensures
            match r {
                Some(t) => self.alias_by_ref_spec(alias) == Some(t@),
                None => self.alias_by_ref_spec(alias) is None,
            },
    ;
}

/// A context with no aliases at all.
#[derive(Default)]
pub struct EmptyCoreTypeContext;

impl CoreTypeContext for EmptyCoreTypeContext {
    open spec fn alias_spec(&self, name: Seq<char>) -> Option<SpecType> {
        None
    }

    open spec fn alias_by_ref_spec(&self, alias: TypeAliasRef) -> Option<SpecType> {
        None
    }

    open spec fn alias_names(&self) -> Set<Seq<char>> {
        Set::empty()
    }

    open spec fn alias_refs(&self) -> Set<TypeAliasRef> {
        Set::empty()
    }

    proof fn lemma_alias_names(&self, name: Seq<char>) {
    }

    proof fn lemma_alias_refs(&self, alias: TypeAliasRef) {
    }

    fn alias(&self, name: &str) -> (r: Option<&CoreType>) {
        None
    }

    fn alias_by_ref(&self, alias: TypeAliasRef) -> (r: Option<&CoreType>) {
        None
    }
}

/// Type aliases by name and by reference, handing out fresh references.
pub struct CoreTypeEnv {
    alias_ids: FieldMap<TypeAliasRef>,
    aliases_by_id: Vec<(TypeAliasRef, CoreType)>,
    aliases: FieldMap<CoreType>,
    next_alias_id: usize,
}

/// The model of the reference bindings.
pub open spec fn ref_model(s: Seq<(TypeAliasRef, CoreType)>) -> Seq<(TypeAliasRef, SpecType)> {
    s.map_values(|e: (TypeAliasRef, CoreType)| (e.0, e.1@))
}

impl CoreTypeEnv {
    pub closed spec fn aliases_entries(&self) -> Seq<(String, CoreType)> {
        self.aliases.entries@
    }

    pub closed spec fn ids_entries(&self) -> Seq<(String, TypeAliasRef)> {
        self.alias_ids.entries@
    }

    pub closed spec fn refs_entries(&self) -> Seq<(TypeAliasRef, CoreType)> {
        self.aliases_by_id@
    }

    /// The alias bound to a name.
    pub open spec fn named(&self, name: Seq<char>) -> Option<SpecType> {
        lookup(type_fields_view(self.aliases_entries()), name)
    }

    /// The reference a name was given.
    pub open spec fn named_ref(&self, name: Seq<char>) -> Option<TypeAliasRef> {
        lookup(model(self.ids_entries(), |r: TypeAliasRef| r), name)
    }

    /// The alias bound to a reference.
    pub open spec fn by_ref(&self, alias: TypeAliasRef) -> Option<SpecType> {
        lookup(ref_model(self.refs_entries()), alias)
    }

    /// The names bound to aliases.
    pub open spec fn names(&self) -> Seq<Seq<char>> {
        entry_keys(self.aliases_entries())
    }

    /// The next fresh reference.
    pub closed spec fn next_id(&self) -> usize {
        self.next_alias_id
    }

    /// Every reference a name holds lies below the next fresh one.
    pub open spec fn refs_below_next(&self) -> bool {
        forall|n: Seq<char>| #[trigger] self.named_ref(n) matches Some(r) ==> r.0 < self.next_id()
    }

    /// An empty environment.
    pub fn new() -> (env: CoreTypeEnv)
        ensures
            forall|n: Seq<char>| env.named(n) is None,
            forall|n: Seq<char>| env.named_ref(n) is None,
            forall|r: TypeAliasRef| env.by_ref(r) is None,
            env.next_id() == 0,
            env.refs_below_next(),
    {
        let env = CoreTypeEnv {
            alias_ids: FieldMap::new(),
            aliases_by_id: Vec::new(),
            aliases: FieldMap::new(),
            next_alias_id: 0,
        };
        assert(type_fields_view(env.aliases.entries@) =~= Seq::empty());
        assert(model(env.alias_ids.entries@, |r: TypeAliasRef| r) =~= Seq::empty());
        assert(ref_model(env.aliases_by_id@) =~= Seq::empty());
        env
    }

    /// A deep copy: the same names, references and aliases.
    pub fn duplicate(&self) -> (r: CoreTypeEnv)
        ensures
            forall|n: Seq<char>| r.named(n) == self.named(n),
            forall|n: Seq<char>| r.named_ref(n) == self.named_ref(n),
            forall|q: TypeAliasRef| r.by_ref(q) == self.by_ref(q),
            r.names() == self.names(),
            r.alias_names() == self.alias_names(),
            r.alias_refs() == self.alias_refs(),
            r.next_id() == self.next_id(),
    {
        let mut ids: Vec<(String, TypeAliasRef)> = Vec::new();
        let mut i: usize = 0;
        while i < self.alias_ids.entries.len()
            invariant
                i <= self.alias_ids.entries@.len(),
                ids@.len() == i,
                forall|j: int| 0 <= j < i ==> #[trigger] ids@[j].0@ == self.alias_ids.entries@[j].0@
                    && ids@[j].1 == self.alias_ids.entries@[j].1,
            decreases self.alias_ids.entries.len() - i,
        {
            let name = self.alias_ids.entries[i].0.clone();
            ids.push((name, self.alias_ids.entries[i].1));
            i = i + 1;
        }
        let mut by_id: Vec<(TypeAliasRef, CoreType)> = Vec::new();
        let mut k: usize = 0;
        while k < self.aliases_by_id.len()
            invariant
                k <= self.aliases_by_id@.len(),
                by_id@.len() == k,
                forall|j: int| 0 <= j < k ==> #[trigger] by_id@[j].0 == self.aliases_by_id@[j].0
                    && by_id@[j].1@ == self.aliases_by_id@[j].1@,
            decreases self.aliases_by_id.len() - k,
        {
            by_id.push((self.aliases_by_id[k].0, self.aliases_by_id[k].1.duplicate()));
            k = k + 1;
        }
        let mut named: Vec<(String, CoreType)> = Vec::new();
        let mut m: usize = 0;
        while m < self.aliases.entries.len()
            invariant
                m <= self.aliases.entries@.len(),
                named@.len() == m,
                forall|j: int| 0 <= j < m ==> #[trigger] named@[j].0@ == self.aliases.entries@[j].0@
                    && named@[j].1@ == self.aliases.entries@[j].1@,
            decreases self.aliases.entries.len() - m,
        {
            let name = self.aliases.entries[m].0.clone();
            named.push((name, self.aliases.entries[m].1.duplicate()));
            m = m + 1;
        }
        let r = CoreTypeEnv {
            alias_ids: FieldMap { entries: ids },
            aliases_by_id: by_id,
            aliases: FieldMap { entries: named },
            next_alias_id: self.next_alias_id,
        };
        proof {
            lemma_type_fields_view(r.aliases.entries@);
            lemma_type_fields_view(self.aliases.entries@);
            assert(type_fields_view(r.aliases.entries@) =~= type_fields_view(self.aliases.entries@));
            assert(model(r.alias_ids.entries@, |q: TypeAliasRef| q) =~= model(self.alias_ids.entries@, |q: TypeAliasRef| q));
            assert(ref_model(r.aliases_by_id@) =~= ref_model(self.aliases_by_id@));
            assert(r.names() =~= self.names());
        }
        r
    }

    /// Whether another fresh reference can still be handed out.
    pub fn has_fresh_ref(&self) -> (b: bool)
        ensures
            b == (self.next_id() < usize::MAX),
    {
        self.next_alias_id < usize::MAX
    }

    fn set_by_ref(&mut self, alias: TypeAliasRef, ty: CoreType)
        ensures
            final(self).by_ref(alias) == Some(ty@),
            forall|q: TypeAliasRef| q != alias ==> final(self).by_ref(q) == old(self).by_ref(q),
            final(self).alias_ids == old(self).alias_ids,
            final(self).aliases == old(self).aliases,
            final(self).next_alias_id == old(self).next_alias_id,
    {
        let ghost before = ref_model(self.aliases_by_id@);
        let mut i: usize = 0;
        while i < self.aliases_by_id.len()
            invariant
                i <= self.aliases_by_id@.len(),
                self.aliases_by_id@ == old(self).aliases_by_id@,
                before == ref_model(self.aliases_by_id@),
                self.alias_ids == old(self).alias_ids,
                self.aliases == old(self).aliases,
                self.next_alias_id == old(self).next_alias_id,
                forall|j: int| 0 <= j < i ==> self.aliases_by_id@[j].0 != alias,
            decreases self.aliases_by_id.len() - i,
        {
            if self.aliases_by_id[i].0 == alias {
                let ghost tv = ty@;
                self.aliases_by_id.set(i, (alias, ty));
                proof {
                    assert(ref_model(self.aliases_by_id@) =~= before.update(i as int, (alias, tv)));
                    assert forall|q: TypeAliasRef| true implies lookup(before.update(i as int, (before[i as int].0, tv)), q) == if q == before[i as int].0 { Some(tv) } else { lookup(before, q) } by {
                        lemma_lookup_update(before, i as int, tv, q);
                    }
                }
                return;
            }
            i = i + 1;
        }
        let ghost tv = ty@;
        self.aliases_by_id.push((alias, ty));
        proof {
            assert(ref_model(self.aliases_by_id@) =~= before.insert(before.len() as int, (alias, tv)));
            assert forall|q: TypeAliasRef| true implies lookup(before.insert(before.len() as int, (alias, tv)), q) == if q == alias { Some(tv) } else { lookup(before, q) } by {
                lemma_lookup_insert(before, before.len() as int, alias, tv, q);
            }
        }
    }

    fn get_by_ref(&self, alias: TypeAliasRef) -> (r: Option<&CoreType>)
        ensures
            match r {
                Some(t) => self.by_ref(alias) == Some(t@),
                None => self.by_ref(alias) is None,
            },
    {
        let ghost m = ref_model(self.aliases_by_id@);
        let mut i: usize = 0;
        while i < self.aliases_by_id.len()
            invariant
                i <= self.aliases_by_id@.len(),
                m == ref_model(self.aliases_by_id@),
                forall|j: int| 0 <= j < i ==> self.aliases_by_id@[j].0 != alias,
            decreases self.aliases_by_id.len() - i,
        {
            if self.aliases_by_id[i].0 == alias {
                proof {
                    lemma_lookup_first(m, alias, i as int);
                }
                return Some(&self.aliases_by_id[i].1);
            }
            i = i + 1;
        }
        proof {
            lemma_lookup_none(m, alias);
        }
        None
    }

    /// Binds `name` to `ty`, giving the name a fresh reference the first time;
    /// returns the type the name was bound to before.
    pub fn define(&mut self, name: String, ty: CoreType) -> (previous: Option<CoreType>)
        requires
            old(self).next_id() < usize::MAX,
        ensures
            final(self).named(name@) == Some(ty@),
            forall|n: Seq<char>| n != name@ ==> final(self).named(n) == old(self).named(n),
            match previous {
                Some(p) => old(self).named(name@) == Some(p@),
                None => old(self).named(name@) is None,
            },
            forall|n: Seq<char>| n != name@ ==> final(self).named_ref(n) == old(self).named_ref(n),
            match old(self).named_ref(name@) {
                Some(r) => final(self).named_ref(name@) == Some(r) && final(self).next_id()
                    == old(self).next_id() && final(self).by_ref(r) == Some(ty@) && forall|q: TypeAliasRef|
                    q != r ==> final(self).by_ref(q) == old(self).by_ref(q),
                None => final(self).named_ref(name@) == Some(TypeAliasRef(old(self).next_id()))
                    && final(self).next_id() == old(self).next_id() + 1 && final(self).by_ref(
                    TypeAliasRef(old(self).next_id()),
                ) == Some(ty@) && forall|q: TypeAliasRef|
                    q != TypeAliasRef(old(self).next_id()) ==> final(self).by_ref(q) == old(self).by_ref(q),
            },
            old(self).refs_below_next() ==> final(self).refs_below_next(),
            old(self).refs_below_next() && old(self).named_ref(name@) is None
                ==> forall|m: Seq<char>| m != name@ ==> #[trigger] final(self).named_ref(m) != final(self).named_ref(name@),
    {
        let ghost ids_before = self.alias_ids.entries@;
        let alias = match self.alias_ids.get(name.as_str()) {
            Some(alias) => {
                proof {
                    let i = choose|i: int|
                        0 <= i < ids_before.len() && ids_before[i].0@ == name@ && ids_before[i].1 == *alias
                            && forall|j: int| 0 <= j < i ==> ids_before[j].0@ != name@;
                    lemma_lookup_first(model(ids_before, |r: TypeAliasRef| r), name@, i);
                }
                *alias
            },
            None => {
                proof {
                    lemma_lookup_none(model(ids_before, |r: TypeAliasRef| r), name@);
                }
                let alias = TypeAliasRef::new(self.next_alias_id);
                self.next_alias_id = self.next_alias_id + 1;
                let replaced = self.alias_ids.insert(name.clone(), alias);
                proof {
                    lemma_model_after_insert(ids_before, self.alias_ids.entries@, name, alias, replaced, |r: TypeAliasRef| r);
                }
                alias
            },
        };
        assert(self.aliases_by_id@ == old(self).aliases_by_id@);
        let ghost mid = *self;
        self.set_by_ref(alias, ty.duplicate());
        let ghost after_refs = *self;
        let ghost refs_after = self.aliases_by_id@;
        let ghost before = self.aliases.entries@;
        let ghost k = name;
        let ghost t = ty;
        let previous = self.aliases.insert(name, ty);
        proof {
            lemma_type_fields_view_model(before);
            lemma_type_fields_view_model(self.aliases.entries@);
            lemma_model_after_insert(before, self.aliases.entries@, k, t, previous, |t: CoreType| type_view(t));
            assert(self.aliases_by_id@ == refs_after);
            assert forall|q: TypeAliasRef| q != alias implies self.by_ref(q) == old(self).by_ref(q) by {
                assert(after_refs.by_ref(q) == mid.by_ref(q));
                assert(mid.by_ref(q) == old(self).by_ref(q));
                assert(self.by_ref(q) == after_refs.by_ref(q));
            }
            assert forall|n: Seq<char>| n != k@ implies self.named_ref(n) == old(self).named_ref(n) by {
                assert(self.named_ref(n) == mid.named_ref(n));
            }
            if old(self).refs_below_next() {
                assert forall|n: Seq<char>| #[trigger] self.named_ref(n) is Some implies self.named_ref(n)->Some_0.0 < self.next_id() by {
                    if n != k@ {
                        assert(self.named_ref(n) == old(self).named_ref(n));
                    }
                }
            }
        }
        previous
    }

    /// Binds `name` to `ty` under the given reference; later fresh references
    /// are taken above it.
    pub fn define_with_ref(&mut self, name: String, alias: TypeAliasRef, ty: CoreType) -> (previous: Option<CoreType>)
        requires
            alias.0 < usize::MAX,
        ensures
            final(self).named(name@) == Some(ty@),
            forall|n: Seq<char>| n != name@ ==> final(self).named(n) == old(self).named(n),
            match previous {
                Some(p) => old(self).named(name@) == Some(p@),
                None => old(self).named(name@) is None,
            },
            final(self).named_ref(name@) == Some(alias),
            forall|n: Seq<char>| n != name@ ==> final(self).named_ref(n) == old(self).named_ref(n),
            final(self).by_ref(alias) == Some(ty@),
            forall|q: TypeAliasRef| q != alias ==> final(self).by_ref(q) == old(self).by_ref(q),
            final(self).next_id() == if old(self).next_id() > alias.0 + 1 { old(self).next_id() } else { (alias.0 + 1) as usize },
            old(self).refs_below_next() ==> final(self).refs_below_next(),
    {
        if self.next_alias_id < alias.id() + 1 {
            self.next_alias_id = alias.id() + 1;
        }
        let ghost ids_before = self.alias_ids.entries@;
        let replaced = self.alias_ids.insert(name.clone(), alias);
        proof {
            lemma_model_after_insert(ids_before, self.alias_ids.entries@, name, alias, replaced, |r: TypeAliasRef| r);
        }
        assert(self.aliases_by_id@ == old(self).aliases_by_id@);
        let ghost mid = *self;
        self.set_by_ref(alias, ty.duplicate());
        let ghost after_refs = *self;
        let ghost refs_after = self.aliases_by_id@;
        let ghost before = self.aliases.entries@;
        let ghost k = name;
        let ghost t = ty;
        let previous = self.aliases.insert(name, ty);
        proof {
            lemma_type_fields_view_model(before);
            lemma_type_fields_view_model(self.aliases.entries@);
            lemma_model_after_insert(before, self.aliases.entries@, k, t, previous, |t: CoreType| type_view(t));
            assert(self.aliases_by_id@ == refs_after);
            assert forall|q: TypeAliasRef| q != alias implies self.by_ref(q) == old(self).by_ref(q) by {
                assert(after_refs.by_ref(q) == mid.by_ref(q));
                assert(mid.by_ref(q) == old(self).by_ref(q));
                assert(self.by_ref(q) == after_refs.by_ref(q));
            }
            assert forall|n: Seq<char>| n != k@ implies self.named_ref(n) == old(self).named_ref(n) by {
                assert(self.named_ref(n) == mid.named_ref(n));
            }
            if old(self).refs_below_next() {
                assert forall|n: Seq<char>| #[trigger] self.named_ref(n) is Some implies self.named_ref(n)->Some_0.0 < self.next_id() by {
                    if n != k@ {
                        assert(self.named_ref(n) == old(self).named_ref(n));
                    }
                }
            }
        }
        previous
    }

    /// Appends every bound alias name, in sorted order, to `names`.
    pub fn define_names_with(&self, names: &mut Vec<String>)
        ensures
            strings_view(final(names)@) == strings_view(old(names)@) + self.names(),
    {
        let mut i: usize = 0;
        while i < self.aliases.entries.len()
            invariant
                i <= self.aliases.entries@.len(),
                strings_view(names@) == strings_view(old(names)@) + entry_keys(self.aliases.entries@).take(i as int),
            decreases self.aliases.entries.len() - i,
        {
            let ghost prev = names@;
            let n = self.aliases.entries[i].0.clone();
            names.push(n);
            assert(names@ =~= prev.push(n));
            assert(strings_view(names@) =~= strings_view(prev).push(n@));
            assert(entry_keys(self.aliases.entries@).take(i + 1) =~= entry_keys(self.aliases.entries@).take(i as int).push(n@));
            assert(strings_view(names@) =~= strings_view(old(names)@) + entry_keys(self.aliases.entries@).take(i + 1));
            i = i + 1;
        }
        assert(entry_keys(self.aliases.entries@).take(i as int) =~= entry_keys(self.aliases.entries@));
    }

    /// The reference bound to a name.
    pub fn alias_ref(&self, name: &str) -> (r: Option<TypeAliasRef>)
        ensures
            r == self.named_ref(name@),
    {
        let ghost ids = self.alias_ids.entries@;
        match self.alias_ids.get(name) {
            Some(alias) => {
                proof {
                    let i = choose|i: int|
                        0 <= i < ids.len() && ids[i].0@ == name@ && ids[i].1 == *alias
                            && forall|j: int| 0 <= j < i ==> ids[j].0@ != name@;
                    lemma_lookup_first(model(ids, |r: TypeAliasRef| r), name@, i);
                }
                Some(*alias)
            },
            None => {
                proof {
                    lemma_lookup_none(model(ids, |r: TypeAliasRef| r), name@);
                }
                None
            },
        }
    }
}

impl CoreTypeContext for CoreTypeEnv {
    open spec fn alias_spec(&self, name: Seq<char>) -> Option<SpecType> {
        self.named(name)
    }

    open spec fn alias_by_ref_spec(&self, alias: TypeAliasRef) -> Option<SpecType> {
        self.by_ref(alias)
    }

    open spec fn alias_names(&self) -> Set<Seq<char>> {
        self.names().to_set()
    }

    open spec fn alias_refs(&self) -> Set<TypeAliasRef> {
        ref_model(self.refs_entries()).map_values(|e: (TypeAliasRef, SpecType)| e.0).to_set()
    }

    proof fn lemma_alias_refs(&self, alias: TypeAliasRef) {
        let s = ref_model(self.refs_entries());
        if self.by_ref(alias) is Some {
            crate::fields::lemma_lookup_some_index(s, alias);
            let i = choose|i: int| 0 <= i < s.len() && s[i].0 == alias && lookup(s, alias) == Some(s[i].1);
            assert(s.map_values(|e: (TypeAliasRef, SpecType)| e.0)[i] == alias);
        }
    }

    proof fn lemma_alias_names(&self, name: Seq<char>) {
        let s = type_fields_view(self.aliases_entries());
        lemma_type_fields_view(self.aliases_entries());
        if self.named(name) is Some {
            lemma_lookup_some_index(s, name);
            let i = choose|i: int| 0 <= i < s.len() && s[i].0 == name;
            assert(self.names()[i] == name);
        }
    }

    fn alias(&self, name: &str) -> (r: Option<&CoreType>) {
        let ghost entries = self.aliases.entries@;
        proof {
            lemma_type_fields_view(entries);
        }
        match self.aliases.get(name) {
            Some(t) => {
                proof {
                    let i = choose|i: int|
                        0 <= i < entries.len() && entries[i].0@ == name@ && entries[i].1 == *t
                            && forall|j: int| 0 <= j < i ==> entries[j].0@ != name@;
                    lemma_lookup_first(type_fields_view(entries), name@, i);
                }
                Some(t)
            },
            None => {
                proof {
                    lemma_lookup_none(type_fields_view(entries), name@);
                }
                None
            },
        }
    }

    fn alias_by_ref(&self, alias: TypeAliasRef) -> (r: Option<&CoreType>) {
        self.get_by_ref(alias)
    }
}

/// Structural equivalence of types, looking through span annotations.
pub open spec fn type_equiv(a: SpecType, b: SpecType) -> bool
    decreases a, b,
{
    match a {
        SpecType::Spanned(inner, _) => type_equiv(*inner, b),
        _ => match b {
            SpecType::Spanned(inner, _) => type_equiv(a, *inner),
            _ => match (a, b) {
                (SpecType::Int, SpecType::Int) => true,
                (SpecType::Float, SpecType::Float) => true,
                (SpecType::Bool, SpecType::Bool) => true,
                (SpecType::Str, SpecType::Str) => true,
                (SpecType::LiteralUnion(l), SpecType::LiteralUnion(r)) => l == r,
                (SpecType::Option(l), SpecType::Option(r)) => type_equiv(*l, *r),
                (SpecType::List(l), SpecType::List(r)) => type_equiv(*l, *r),
                (SpecType::Record(l), SpecType::Record(r)) => l.len() == r.len() && fields_equiv(l, r),
                (
                    SpecType::Refinement { binder: lb, base: lbase, pred: lp },
                    SpecType::Refinement { binder: rb, base: rbase, pred: rp },
                ) => lb == rb && type_equiv(*lbase, *rbase) && lp == rp,
                (SpecType::Function(li, lo), SpecType::Function(ri, ro)) => type_equiv(*li, *ri)
                    && type_equiv(*lo, *ro),
                (SpecType::Alias(l), SpecType::Alias(r)) => l == r,
                (SpecType::ResolvedAlias(l), SpecType::ResolvedAlias(r)) => l == r,
                _ => false,
            },
        },
    }
}

/// Every field of `l` has a field of the same name in `r` with an equivalent type.
pub open spec fn fields_equiv(l: Seq<(Seq<char>, SpecType)>, r: Seq<(Seq<char>, SpecType)>) -> bool
    decreases l, r,
{
    if l.len() == 0 {
        true
    } else {
        match lookup(r, l[0].0) {
            Some(rt) => type_equiv(l[0].1, rt) && fields_equiv(l.drop_first(), r),
            None => false,
        }
    }
}

/// Decides structural type equivalence.
pub struct CoreTypeEquivalence;

impl CoreTypeEquivalence {
    /// Whether two types are the same up to span annotations.
    #[verifier::loop_isolation(false)]
    pub fn equivalent(left: &CoreType, right: &CoreType) -> (r: bool)
        ensures
            r == type_equiv(left@, right@),
        decreases left, right,
    {
        match left {
            CoreType::Spanned(inner, _) => Self::equivalent(inner, right),
            _ => match right {
                CoreType::Spanned(inner, _) => Self::equivalent(left, inner),
                _ => match (left, right) {
                    (CoreType::Int, CoreType::Int) => true,
                    (CoreType::Float, CoreType::Float) => true,
                    (CoreType::Bool, CoreType::Bool) => true,
                    (CoreType::String, CoreType::String) => true,
                    (CoreType::LiteralUnion(l), CoreType::LiteralUnion(r)) => strings_same(l, r),
                    (CoreType::Option(l), CoreType::Option(r)) => Self::equivalent(l, r),
                    (CoreType::List(l), CoreType::List(r)) => Self::equivalent(l, r),
                    (CoreType::Record(l), CoreType::Record(r)) => {
                        let ghost lv = type_fields_view(l.entries@);
                        let ghost rv = type_fields_view(r.entries@);
                        proof {
                            lemma_type_fields_view(l.entries@);
                            lemma_type_fields_view(r.entries@);
                        }
                        if l.entries.len() != r.entries.len() {
                            return false;
                        }
                        let mut i: usize = 0;
                        assert(lv.skip(0) =~= lv);
                        while i < l.entries.len()
                            invariant
                                i <= l.entries@.len(),
                                lv.len() == l.entries@.len(),
                                fields_equiv(lv, rv) == fields_equiv(lv.skip(i as int), rv),
                            decreases l.entries.len() - i,
                        {
                            proof {
                                assert(decreases_to!(l.entries => l.entries@[i as int]));
                                assert(lv.skip(i as int).drop_first() =~= lv.skip(i + 1));
                                assert(lv.skip(i as int)[0] == lv[i as int]);
                            }
                            let name = l.entries[i].0.as_str();
                            let ghost rentries = r.entries@;
                            match r.get(name) {
                                Some(rt) => {
                                    proof {
                                        let k = choose|k: int|
                                            0 <= k < rentries.len() && rentries[k].0@ == name@ && rentries[k].1
                                                == *rt && forall|j: int| 0 <= j < k ==> rentries[j].0@ != name@;
                                        crate::fields::lemma_lookup_first(rv, name@, k);
                                    }
                                    if !Self::equivalent(&l.entries[i].1, rt) {
                                        return false;
                                    }
                                },
                                None => {
                                    proof {
                                        crate::fields::lemma_lookup_none(rv, name@);
                                    }
                                    return false;
                                },
                            }
                            i = i + 1;
                        }
                        true
                    },
                    (
                        CoreType::Refinement { binder: lb, base: lbase, pred: lp },
                        CoreType::Refinement { binder: rb, base: rbase, pred: rp },
                    ) => *lb == *rb && Self::equivalent(lbase, rbase) && lp.same(rp),
                    (CoreType::Function(li, lo), CoreType::Function(ri, ro)) => Self::equivalent(li, ri)
                        && Self::equivalent(lo, ro),
                    (CoreType::Alias(l), CoreType::Alias(r)) => *l == *r,
                    (CoreType::ResolvedAlias(l), CoreType::ResolvedAlias(r)) => *l == *r,
                    _ => false,
                },
            },
        }
    }
}

/// Whether `ty` mentions the alias `name`, or the resolved alias `alias`.
pub open spec fn mentions_spec(t: SpecType, name: Seq<char>, alias: Option<TypeAliasRef>) -> bool
    decreases t,
{
    match t {
        SpecType::Spanned(inner, _) => mentions_spec(*inner, name, alias),
        SpecType::Alias(n) => n == name,
        SpecType::ResolvedAlias(r) => Some(r) == alias,
        SpecType::Option(inner) => mentions_spec(*inner, name, alias),
        SpecType::List(inner) => mentions_spec(*inner, name, alias),
        SpecType::LiteralUnion(_) => false,
        SpecType::Record(fields) => fields_mention(fields, name, alias),
        SpecType::Refinement { base, .. } => mentions_spec(*base, name, alias),
        SpecType::Function(i, o) => mentions_spec(*i, name, alias) || mentions_spec(*o, name, alias),
        _ => false,
    }
}

pub open spec fn fields_mention(fields: Seq<(Seq<char>, SpecType)>, name: Seq<char>, alias: Option<TypeAliasRef>) -> bool
    decreases fields,
{
    if fields.len() == 0 {
        false
    } else {
        mentions_spec(fields[0].1, name, alias) || fields_mention(fields.drop_first(), name, alias)
    }
}

/// Whether `t` is the alias `name` or the reference `alias`.
pub open spec fn names_target(t: SpecType, name: Option<Seq<char>>, alias: Option<TypeAliasRef>) -> bool {
    match t {
        SpecType::Alias(n) => Some(n) == name,
        SpecType::ResolvedAlias(r) => Some(r) == alias,
        _ => false,
    }
}

/// The span of the first written mention of the alias `name` or the
/// reference `alias` in `t`, in the order the type is read.
pub open spec fn origin_spec(t: SpecType, name: Option<Seq<char>>, alias: Option<TypeAliasRef>) -> Option<ByteRange>
    decreases t,
{
    match t {
        SpecType::Spanned(inner, span) => if names_target(*inner, name, alias) {
            Some(span)
        } else {
            origin_spec(*inner, name, alias)
        },
        SpecType::Option(inner) => origin_spec(*inner, name, alias),
        SpecType::List(inner) => origin_spec(*inner, name, alias),
        SpecType::Record(fields) => fields_origin(fields, name, alias),
        SpecType::Refinement { base, .. } => origin_spec(*base, name, alias),
        SpecType::Function(i, o) => match origin_spec(*i, name, alias) {
            Some(sp) => Some(sp),
            None => origin_spec(*o, name, alias),
        },
        _ => None,
    }
}

pub open spec fn fields_origin(fields: Seq<(Seq<char>, SpecType)>, name: Option<Seq<char>>, alias: Option<TypeAliasRef>) -> Option<ByteRange>
    decreases fields,
{
    if fields.len() == 0 {
        None
    } else {
        match origin_spec(fields[0].1, name, alias) {
            Some(sp) => Some(sp),
            None => fields_origin(fields.drop_first(), name, alias),
        }
    }
}

/// Where a recursive alias `name` with reference `alias` points back at
/// itself in its definition `t`: its first mention by name, else by
/// reference.
pub open spec fn recursion_origin(t: SpecType, name: Seq<char>, alias: Option<TypeAliasRef>) -> Option<ByteRange> {
    match origin_spec(t, Some(name), None) {
        Some(sp) => Some(sp),
        None => origin_spec(t, None, alias),
    }
}

/// `e` carries, where the recursion has a written origin with its range in
/// order, one label there with the error's message, and no label otherwise.
pub open spec fn recursion_labelled(e: Error, t: SpecType, name: Seq<char>, alias: Option<TypeAliasRef>) -> bool {
    match recursion_origin(t, name, alias) {
        Some(sp) => if sp.start <= sp.end {
            e.labels_spec().len() == 1 && e.labels_spec()[0].span == sp && e.labels_spec()[0].message@ == e.message_spec()
        } else {
            e.labels_spec().len() == 0
        },
        None => e.labels_spec().len() == 0,
    }
}

fn is_target(t: &CoreType, name: Option<&str>, alias: Option<TypeAliasRef>) -> (b: bool)
    ensures
        b == names_target(t@, match name { Some(n) => Some(n@), None => None }, alias),
{
    match t {
        CoreType::Alias(n) => match name {
            Some(m) => str_eq(n.as_str(), m),
            None => false,
        },
        CoreType::ResolvedAlias(r) => match alias {
            Some(a) => *r == a,
            None => false,
        },
        _ => false,
    }
}

/// The span of the first written mention of the alias `name` or the
/// reference `alias` in `ty`.
#[verifier::loop_isolation(false)]
pub fn alias_origin(ty: &CoreType, name: Option<&str>, alias: Option<TypeAliasRef>) -> (r: Option<ByteRange>)
    ensures
        r == origin_spec(ty@, match name { Some(n) => Some(n@), None => None }, alias),
    decreases ty,
{
    let ghost nv: Option<Seq<char>> = match name { Some(n) => Some(n@), None => None };
    match ty {
        CoreType::Spanned(inner, span) => if is_target(inner, name, alias) {
            Some(*span)
        } else {
            alias_origin(inner, name, alias)
        },
        CoreType::Option(inner) => alias_origin(inner, name, alias),
        CoreType::List(inner) => alias_origin(inner, name, alias),
        CoreType::Record(fields) => {
            let ghost fv = type_fields_view(fields.entries@);
            proof {
                lemma_type_fields_view(fields.entries@);
                assert(fv.skip(0) =~= fv);
            }
            let mut i: usize = 0;
            while i < fields.entries.len()
                invariant
                    i <= fields.entries@.len(),
                    fv.len() == fields.entries@.len(),
                    fields_origin(fv, nv, alias) == fields_origin(fv.skip(i as int), nv, alias),
                decreases fields.entries.len() - i,
            {
                proof {
                    assert(decreases_to!(fields.entries => fields.entries@[i as int]));
                    assert(fv.skip(i as int).drop_first() =~= fv.skip(i + 1));
                    assert(fv.skip(i as int)[0] == fv[i as int]);
                }
                let found = alias_origin(&fields.entries[i].1, name, alias);
                if found.is_some() {
                    return found;
                }
                i = i + 1;
            }
            assert(fv.skip(i as int) =~= Seq::<(Seq<char>, SpecType)>::empty());
            None
        },
        CoreType::Refinement { base, .. } => alias_origin(base, name, alias),
        CoreType::Function(input, output) => match alias_origin(input, name, alias) {
            Some(sp) => Some(sp),
            None => alias_origin(output, name, alias),
        },
        _ => None,
    }
}

/// How many names can still be entered before a cycle must repeat one.
pub open spec fn name_budget(names: Set<Seq<char>>, stack: Seq<Seq<char>>) -> nat {
    names.difference(stack.to_set()).len()
}

/// How many references can still be followed at the current name depth.
pub open spec fn ref_budget(refs: Set<TypeAliasRef>, seen: Seq<TypeAliasRef>) -> nat {
    refs.difference(seen.to_set()).len()
}

/// Entering a fresh element of a finite domain shrinks the budget.
pub proof fn lemma_budget_shrinks<A>(dom: Set<A>, seen: Seq<A>, x: A)
    requires
        dom.finite(),
        dom.contains(x),
        !seen.contains(x),
    ensures
        dom.difference(seen.push(x).to_set()).len() < dom.difference(seen.to_set()).len(),
{
    let before = dom.difference(seen.to_set());
    assert(seen.push(x).to_set() =~= seen.to_set().insert(x)) by {
        assert forall|y: A| seen.push(x).to_set().contains(y) <==> seen.to_set().insert(x).contains(y) by {
            if seen.push(x).contains(y) && y != x {
                let i = choose|i: int| 0 <= i < seen.push(x).len() && seen.push(x)[i] == y;
                assert(seen[i] == y);
            }
            if seen.contains(y) {
                let i = choose|i: int| 0 <= i < seen.len() && seen[i] == y;
                assert(seen.push(x)[i] == y);
            }
            if y == x {
                assert(seen.push(x)[seen.len() as int] == x);
            }
        }
    }
    assert(dom.difference(seen.push(x).to_set()) =~= before.remove(x));
    vstd::set_lib::lemma_set_subset_finite(dom, before);
    assert(before.contains(x));
}

/// Well-formedness of a type: every alias it reaches is bound and no alias
/// reaches itself. `None` means well formed; `Some(code)` is the first
/// problem found. `stack` holds the aliases being expanded, `seen` the
/// references followed since the last named alias was entered.
pub open spec fn wf_spec<C: CoreTypeContext>(ctx: C, t: SpecType, stack: Seq<Seq<char>>, seen: Seq<TypeAliasRef>) -> Option<ErrorCode>
    decreases name_budget(ctx.alias_names(), stack), ref_budget(ctx.alias_refs(), seen), t,
{
    match t {
        SpecType::Spanned(inner, _) => wf_spec(ctx, *inner, stack, seen),
        SpecType::Alias(name) => {
            if stack.contains(name) {
                Some(ErrorCode::TypeRecursiveAlias)
            } else {
                match ctx.alias_spec(name) {
                    None => Some(ErrorCode::TypeUnknown),
                    Some(body) => {
                        proof {
                            ctx.lemma_alias_names(name);
                            lemma_budget_shrinks(ctx.alias_names(), stack, name);
                        }
                        wf_spec(ctx, body, stack.push(name), Seq::empty())
                    },
                }
            }
        },
        SpecType::ResolvedAlias(alias) => match ctx.alias_by_ref_spec(alias) {
            None => Some(ErrorCode::TypeUnknown),
            Some(body) => {
                if seen.contains(alias) {
                    Some(ErrorCode::TypeRecursiveAlias)
                } else {
                    proof {
                        ctx.lemma_alias_refs(alias);
                        lemma_budget_shrinks(ctx.alias_refs(), seen, alias);
                    }
                    wf_spec(ctx, body, stack, seen.push(alias))
                }
            },
        },
        SpecType::Option(inner) => wf_spec(ctx, *inner, stack, seen),
        SpecType::List(inner) => wf_spec(ctx, *inner, stack, seen),
        SpecType::Record(fields) => wf_fields_spec(ctx, fields, stack, seen),
        SpecType::Refinement { base, .. } => wf_spec(ctx, *base, stack, seen),
        SpecType::Function(i, o) => match wf_spec(ctx, *i, stack, seen) {
            Some(code) => Some(code),
            None => wf_spec(ctx, *o, stack, seen),
        },
        _ => None,
    }
}

/// Well-formedness of record fields in order: the first problem found.
pub open spec fn wf_fields_spec<C: CoreTypeContext>(ctx: C, fields: Seq<(Seq<char>, SpecType)>, stack: Seq<Seq<char>>, seen: Seq<TypeAliasRef>) -> Option<ErrorCode>
    decreases name_budget(ctx.alias_names(), stack), ref_budget(ctx.alias_refs(), seen), fields,
{
    if fields.len() == 0 {
        None
    } else {
        match wf_spec(ctx, fields[0].1, stack, seen) {
            Some(code) => Some(code),
            None => wf_fields_spec(ctx, fields.drop_first(), stack, seen),
        }
    }
}

/// The message of the first problem `wf_spec` finds (meaningful when it
/// finds one).
pub open spec fn wf_message<C: CoreTypeContext>(ctx: C, t: SpecType, stack: Seq<Seq<char>>, seen: Seq<TypeAliasRef>) -> Seq<char>
    decreases name_budget(ctx.alias_names(), stack), ref_budget(ctx.alias_refs(), seen), t,
{
    match t {
        SpecType::Spanned(inner, _) => wf_message(ctx, *inner, stack, seen),
        SpecType::Alias(name) => {
            if stack.contains(name) {
                "recursive type alias `"@ + name + "`"@
            } else {
                match ctx.alias_spec(name) {
                    None => "unknown type `"@ + name + "`"@,
                    Some(body) => {
                        proof {
                            ctx.lemma_alias_names(name);
                            lemma_budget_shrinks(ctx.alias_names(), stack, name);
                        }
                        wf_message(ctx, body, stack.push(name), Seq::empty())
                    },
                }
            }
        },
        SpecType::ResolvedAlias(alias) => match ctx.alias_by_ref_spec(alias) {
            None => "unknown type alias"@,
            Some(body) => {
                if seen.contains(alias) {
                    "recursive type alias"@
                } else {
                    proof {
                        ctx.lemma_alias_refs(alias);
                        lemma_budget_shrinks(ctx.alias_refs(), seen, alias);
                    }
                    wf_message(ctx, body, stack, seen.push(alias))
                }
            },
        },
        SpecType::Option(inner) => wf_message(ctx, *inner, stack, seen),
        SpecType::List(inner) => wf_message(ctx, *inner, stack, seen),
        SpecType::Record(fields) => wf_fields_message(ctx, fields, stack, seen),
        SpecType::Refinement { base, .. } => wf_message(ctx, *base, stack, seen),
        SpecType::Function(i, o) => if wf_spec(ctx, *i, stack, seen) is Some {
            wf_message(ctx, *i, stack, seen)
        } else {
            wf_message(ctx, *o, stack, seen)
        },
        _ => Seq::empty(),
    }
}

/// The message of the first problem among the field types.
pub open spec fn wf_fields_message<C: CoreTypeContext>(ctx: C, fields: Seq<(Seq<char>, SpecType)>, stack: Seq<Seq<char>>, seen: Seq<TypeAliasRef>) -> Seq<char>
    decreases name_budget(ctx.alias_names(), stack), ref_budget(ctx.alias_refs(), seen), fields,
{
    if fields.len() == 0 {
        Seq::empty()
    } else if wf_spec(ctx, fields[0].1, stack, seen) is Some {
        wf_message(ctx, fields[0].1, stack, seen)
    } else {
        wf_fields_message(ctx, fields.drop_first(), stack, seen)
    }
}

/// Where the first problem `wf_spec` finds is labelled: the innermost
/// written span (start not past end) around it, alias bodies included.
pub open spec fn wf_span<C: CoreTypeContext>(ctx: C, t: SpecType, stack: Seq<Seq<char>>, seen: Seq<TypeAliasRef>) -> Option<ByteRange>
    decreases name_budget(ctx.alias_names(), stack), ref_budget(ctx.alias_refs(), seen), t,
{
    match t {
        SpecType::Spanned(inner, span) => match wf_span(ctx, *inner, stack, seen) {
            Some(x) => Some(x),
            None => if span.start <= span.end { Some(span) } else { None },
        },
        SpecType::Alias(name) => {
            if stack.contains(name) {
                None
            } else {
                match ctx.alias_spec(name) {
                    None => None,
                    Some(body) => {
                        proof {
                            ctx.lemma_alias_names(name);
                            lemma_budget_shrinks(ctx.alias_names(), stack, name);
                        }
                        wf_span(ctx, body, stack.push(name), Seq::empty())
                    },
                }
            }
        },
        SpecType::ResolvedAlias(alias) => match ctx.alias_by_ref_spec(alias) {
            None => None,
            Some(body) => {
                if seen.contains(alias) {
                    None
                } else {
                    proof {
                        ctx.lemma_alias_refs(alias);
                        lemma_budget_shrinks(ctx.alias_refs(), seen, alias);
                    }
                    wf_span(ctx, body, stack, seen.push(alias))
                }
            },
        },
        SpecType::Option(inner) => wf_span(ctx, *inner, stack, seen),
        SpecType::List(inner) => wf_span(ctx, *inner, stack, seen),
        SpecType::Record(fields) => wf_fields_span(ctx, fields, stack, seen),
        SpecType::Refinement { base, .. } => wf_span(ctx, *base, stack, seen),
        SpecType::Function(i, o) => if wf_spec(ctx, *i, stack, seen) is Some {
            wf_span(ctx, *i, stack, seen)
        } else {
            wf_span(ctx, *o, stack, seen)
        },
        _ => None,
    }
}

/// Where the first problem among the field types is labelled.
pub open spec fn wf_fields_span<C: CoreTypeContext>(ctx: C, fields: Seq<(Seq<char>, SpecType)>, stack: Seq<Seq<char>>, seen: Seq<TypeAliasRef>) -> Option<ByteRange>
    decreases name_budget(ctx.alias_names(), stack), ref_budget(ctx.alias_refs(), seen), fields,
{
    if fields.len() == 0 {
        None
    } else if wf_spec(ctx, fields[0].1, stack, seen) is Some {
        wf_span(ctx, fields[0].1, stack, seen)
    } else {
        wf_fields_span(ctx, fields.drop_first(), stack, seen)
    }
}

/// Every problem `wf_spec` finds is an unknown or a recursive alias.
proof fn lemma_wf_codes<C: CoreTypeContext>(ctx: C, t: SpecType, stack: Seq<Seq<char>>, seen: Seq<TypeAliasRef>)
    ensures
        wf_spec(ctx, t, stack, seen) matches Some(c) ==> (c == ErrorCode::TypeUnknown || c == ErrorCode::TypeRecursiveAlias),
    decreases name_budget(ctx.alias_names(), stack), ref_budget(ctx.alias_refs(), seen), t,
{
    match t {
        SpecType::Spanned(inner, _) => lemma_wf_codes(ctx, *inner, stack, seen),
        SpecType::Alias(name) => {
            if !stack.contains(name) {
                if let Some(body) = ctx.alias_spec(name) {
                    ctx.lemma_alias_names(name);
                    lemma_budget_shrinks(ctx.alias_names(), stack, name);
                    lemma_wf_codes(ctx, body, stack.push(name), Seq::empty());
                }
            }
        },
        SpecType::ResolvedAlias(alias) => {
            if let Some(body) = ctx.alias_by_ref_spec(alias) {
                if !seen.contains(alias) {
                    ctx.lemma_alias_refs(alias);
                    lemma_budget_shrinks(ctx.alias_refs(), seen, alias);
                    lemma_wf_codes(ctx, body, stack, seen.push(alias));
                }
            }
        },
        SpecType::Option(inner) => lemma_wf_codes(ctx, *inner, stack, seen),
        SpecType::List(inner) => lemma_wf_codes(ctx, *inner, stack, seen),
        SpecType::Record(fields) => lemma_wf_fields_codes(ctx, fields, stack, seen),
        SpecType::Refinement { base, .. } => lemma_wf_codes(ctx, *base, stack, seen),
        SpecType::Function(i, o) => {
            lemma_wf_codes(ctx, *i, stack, seen);
            lemma_wf_codes(ctx, *o, stack, seen);
        },
        _ => {},
    }
}

proof fn lemma_wf_fields_codes<C: CoreTypeContext>(ctx: C, fields: Seq<(Seq<char>, SpecType)>, stack: Seq<Seq<char>>, seen: Seq<TypeAliasRef>)
    ensures
        wf_fields_spec(ctx, fields, stack, seen) matches Some(c) ==> (c == ErrorCode::TypeUnknown || c == ErrorCode::TypeRecursiveAlias),
    decreases name_budget(ctx.alias_names(), stack), ref_budget(ctx.alias_refs(), seen), fields,
{
    if fields.len() > 0 {
        lemma_wf_codes(ctx, fields[0].1, stack, seen);
        lemma_wf_fields_codes(ctx, fields.drop_first(), stack, seen);
    }
}

/// The error for the first problem `wf_spec` finds: its message, and one
/// label with that message where `wf_span` places it.
pub open spec fn wf_error<C: CoreTypeContext>(ctx: C, t: SpecType, stack: Seq<Seq<char>>, seen: Seq<TypeAliasRef>, e: Error) -> bool {
    &&& e.message_spec() == wf_message(ctx, t, stack, seen)
    &&& match wf_span(ctx, t, stack, seen) {
        Some(sp) => e.labels_spec().len() == 1 && e.labels_spec()[0].span == sp && e.labels_spec()[0].message@ == e.message_spec(),
        None => e.labels_spec().len() == 0,
    }
}

/// Checks that types only reach bound, non-recursive aliases.
pub struct CoreTypeValidator<'a, C: CoreTypeContext> {
    aliases: &'a C,
}

impl<'a, C: CoreTypeContext> CoreTypeValidator<'a, C> {
    pub closed spec fn context(&self) -> C {
        *self.aliases
    }

    pub fn new(aliases: &'a C) -> (v: Self)
        ensures
            v.context() == *aliases,
    {
        Self { aliases }
    }

    /// Checks `ty`; an error carries the code of the first problem found.
    pub fn well_formed(&self, ty: &CoreType) -> (r: Result<()>)
        ensures
            match r {
                Ok(()) => wf_spec(self.context(), ty@, Seq::empty(), Seq::empty()) is None,
                Err(e) => wf_spec(self.context(), ty@, Seq::empty(), Seq::empty()) == Some(e.code_spec())
                    && wf_error(self.context(), ty@, Seq::empty(), Seq::empty(), e),
            },
    {
        let mut stack: Vec<String> = Vec::new();
        let mut seen: Vec<TypeAliasRef> = Vec::new();
        assert(strings_view(stack@) =~= Seq::<Seq<char>>::empty());
        self.well_formed_inner(ty, &mut stack, &mut seen)
    }

    /// Whether `ty` mentions the alias `name` or the reference `alias_ref`.
    #[verifier::loop_isolation(false)]
    pub fn mentions_alias(&self, ty: &CoreType, name: &str, alias_ref: Option<TypeAliasRef>) -> (b: bool)
        ensures
            b == mentions_spec(ty@, name@, alias_ref),
        decreases ty,
    {
        match ty {
            CoreType::Spanned(inner, _) => self.mentions_alias(inner, name, alias_ref),
            CoreType::Alias(alias) => str_eq(alias.as_str(), name),
            CoreType::ResolvedAlias(alias) => match alias_ref {
                Some(r) => *alias == r,
                None => false,
            },
            CoreType::Option(inner) => self.mentions_alias(inner, name, alias_ref),
            CoreType::List(inner) => self.mentions_alias(inner, name, alias_ref),
            CoreType::LiteralUnion(_) => false,
            CoreType::Record(fields) => {
                let ghost fv = type_fields_view(fields.entries@);
                proof {
                    lemma_type_fields_view(fields.entries@);
                    assert(fv.skip(0) =~= fv);
                }
                let mut i: usize = 0;
                while i < fields.entries.len()
                    invariant
                        i <= fields.entries@.len(),
                        fv.len() == fields.entries@.len(),
                        fields_mention(fv, name@, alias_ref) == fields_mention(fv.skip(i as int), name@, alias_ref),
                    decreases fields.entries.len() - i,
                {
                    proof {
                        assert(decreases_to!(fields.entries => fields.entries@[i as int]));
                        assert(fv.skip(i as int).drop_first() =~= fv.skip(i + 1));
                        assert(fv.skip(i as int)[0] == fv[i as int]);
                    }
                    if self.mentions_alias(&fields.entries[i].1, name, alias_ref) {
                        return true;
                    }
                    i = i + 1;
                }
                false
            },
            CoreType::Refinement { base, .. } => self.mentions_alias(base, name, alias_ref),
            CoreType::Function(input, output) => {
                self.mentions_alias(input, name, alias_ref) || self.mentions_alias(output, name, alias_ref)
            },
            CoreType::Int | CoreType::Float | CoreType::Bool | CoreType::String => false,
        }
    }

    #[verifier::loop_isolation(false)]
    fn well_formed_inner(&self, ty: &CoreType, stack: &mut Vec<String>, seen: &mut Vec<TypeAliasRef>) -> (r: Result<()>)
        ensures
            match r {
                Ok(()) => wf_spec(self.context(), ty@, strings_view(old(stack)@), old(seen)@) is None,
                Err(e) => wf_spec(self.context(), ty@, strings_view(old(stack)@), old(seen)@) == Some(e.code_spec())
                    && wf_error(self.context(), ty@, strings_view(old(stack)@), old(seen)@, e),
            },
            r is Ok ==> final(stack)@ == old(stack)@ && final(seen)@ == old(seen)@,
        decreases name_budget(self.context().alias_names(), strings_view(old(stack)@)), ref_budget(self.context().alias_refs(), old(seen)@), ty,
    {
        match ty {
            CoreType::Spanned(inner, span) => match self.well_formed_inner(inner, stack, seen) {
                Ok(()) => Ok(()),
                Err(error) => {
                    proof {
                        lemma_wf_codes(self.context(), inner@, strings_view(old(stack)@), old(seen)@);
                    }
                    Err(label_type_error(error, *span))
                },
            },
            CoreType::Alias(name) => {
                if contains_string(stack, name) {
                    return Err(Error::with_code(
                        ErrorCode::TypeRecursiveAlias,
                        concat3("recursive type alias `", name.as_str(), "`").as_str(),
                    ));
                }
                let body = match self.aliases.alias(name.as_str()) {
                    Some(body) => body,
                    None => {
                        return Err(Error::with_code(
                            ErrorCode::TypeUnknown,
                            concat3("unknown type `", name.as_str(), "`").as_str(),
                        ));
                    },
                };
                let ghost old_stack = stack@;
                let ghost old_seen = seen@;
                proof {
                    self.context().lemma_alias_names(name@);
                    lemma_budget_shrinks(self.context().alias_names(), strings_view(old_stack), name@);
                    assert(strings_view(old_stack.push(*name)) =~= strings_view(old_stack).push(name@));
                }
                stack.push(name.clone());
                let mut fresh: Vec<TypeAliasRef> = Vec::new();
                let inner = self.well_formed_inner(body, stack, &mut fresh);
                match inner {
                    Ok(()) => {
                        stack.pop();
                        assert(stack@ =~= old_stack);
                        Ok(())
                    },
                    Err(e) => Err(e),
                }
            },
            CoreType::ResolvedAlias(alias) => {
                let body = match self.aliases.alias_by_ref(*alias) {
                    Some(body) => body,
                    None => {
                        return Err(Error::with_code(ErrorCode::TypeUnknown, "unknown type alias"));
                    },
                };
                if contains_ref(seen, *alias) {
                    return Err(Error::with_code(ErrorCode::TypeRecursiveAlias, "recursive type alias"));
                }
                let ghost old_seen = seen@;
                proof {
                    self.context().lemma_alias_refs(*alias);
                    lemma_budget_shrinks(self.context().alias_refs(), old_seen, *alias);
                }
                seen.push(*alias);
                let inner = self.well_formed_inner(body, stack, seen);
                match inner {
                    Ok(()) => {
                        seen.pop();
                        assert(seen@ =~= old_seen);
                        Ok(())
                    },
                    Err(e) => Err(e),
                }
            },
            CoreType::Option(inner) => self.well_formed_inner(inner, stack, seen),
            CoreType::List(inner) => self.well_formed_inner(inner, stack, seen),
            CoreType::LiteralUnion(_) => Ok(()),
            CoreType::Record(fields) => {
                let ghost fv = type_fields_view(fields.entries@);
                let ghost st = strings_view(stack@);
                let ghost sn = seen@;
                proof {
                    lemma_type_fields_view(fields.entries@);
                    assert(fv.skip(0) =~= fv);
                }
                let mut i: usize = 0;
                while i < fields.entries.len()
                    invariant
                        i <= fields.entries@.len(),
                        fv.len() == fields.entries@.len(),
                        stack@ == old(stack)@,
                        seen@ == old(seen)@,
                        wf_fields_spec(self.context(), fv, st, sn) == wf_fields_spec(self.context(), fv.skip(i as int), st, sn),
                        wf_fields_spec(self.context(), fv.skip(i as int), st, sn) is Some ==>
                            wf_fields_message(self.context(), fv, st, sn) == wf_fields_message(self.context(), fv.skip(i as int), st, sn)
                            && wf_fields_span(self.context(), fv, st, sn) == wf_fields_span(self.context(), fv.skip(i as int), st, sn),
                    decreases fields.entries.len() - i,
                {
                    proof {
                        assert(decreases_to!(fields.entries => fields.entries@[i as int]));
                        assert(fv.skip(i as int).drop_first() =~= fv.skip(i + 1));
                        assert(fv.skip(i as int)[0] == fv[i as int]);
                    }
                    match self.well_formed_inner(&fields.entries[i].1, stack, seen) {
                        Ok(()) => {},
                        Err(e) => {
                            return Err(e);
                        },
                    }
                    i = i + 1;
                }
                Ok(())
            },
            CoreType::Refinement { base, .. } => self.well_formed_inner(base, stack, seen),
            CoreType::Function(input, output) => {
                match self.well_formed_inner(input, stack, seen) {
                    Ok(()) => {},
                    Err(e) => {
                        return Err(e);
                    },
                }
                self.well_formed_inner(output, stack, seen)
            },
            CoreType::Int | CoreType::Float | CoreType::Bool | CoreType::String => Ok(()),
        }
    }
}

fn contains_string(stack: &Vec<String>, name: &String) -> (b: bool)
    ensures
        b == strings_view(stack@).contains(name@),
{
    let mut i: usize = 0;
    while i < stack.len()
        invariant
            i <= stack@.len(),
            forall|j: int| 0 <= j < i ==> stack@[j]@ != name@,
        decreases stack.len() - i,
    {
        if stack[i] == *name {
            assert(strings_view(stack@)[i as int] == name@);
            return true;
        }
        i = i + 1;
    }
    false
}

fn contains_ref(seen: &Vec<TypeAliasRef>, alias: TypeAliasRef) -> (b: bool)
    ensures
        b == seen@.contains(alias),
{
    let mut i: usize = 0;
    while i < seen.len()
        invariant
            i <= seen@.len(),
            forall|j: int| 0 <= j < i ==> seen@[j] != alias,
        decreases seen.len() - i,
    {
        if seen[i] == alias {
            return true;
        }
        i = i + 1;
    }
    false
}

/// Points an unlabelled unknown or recursive alias error at the given span.
pub(crate) fn label_type_error(error: Error, span: ByteRange) -> (e: Error)
    ensures
        e.code_spec() == error.code_spec(),
        e.message_spec() == error.message_spec(),
        e.source_spec() == error.source_spec(),
        if error.labels_spec().len() == 0 && span.start <= span.end
            && (error.code_spec() == ErrorCode::TypeRecursiveAlias || error.code_spec() == ErrorCode::TypeUnknown) {
            e.labels_spec().len() == 1 && e.labels_spec()[0].span == span && e.labels_spec()[0].message@ == error.message_spec()
        } else {
            e.labels_spec() == error.labels_spec()
        },
{
    if error.diagnostic_labels().len() != 0 {
        return error;
    }
    match error.code() {
        ErrorCode::TypeRecursiveAlias | ErrorCode::TypeUnknown => {
            let message = error.message().to_owned();
            error.with_label(span, message.as_str())
        },
        _ => error,
    }
}

} // verus!
