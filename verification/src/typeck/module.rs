//! Elaboration of whole modules: declarations in order, each seeing the
//! aliases and values declared before it, then the output expression.

use vstd::prelude::*;

use crate::core_lang::ast::{
    CoreDecl, CoreExpr, CoreModule, CoreType, ElaboratedDecl, ElaboratedExpr, ElaboratedModule,
    GlobalRef, SpecExpr, SpecType, TypeAliasRef,
};
use crate::core_lang::types::{alias_origin, mentions_spec, recursion_labelled, wf_error, wf_spec, CoreTypeContext, CoreTypeEnv, CoreTypeValidator};
use crate::error::{Error, ErrorCode, Result};
use crate::eval::builtins::{native_arity, NativeRegistry};
use crate::fields::lookup;
use crate::text::concat3;
use crate::typeck::elaborate::{elab_spec, CoreElaborator, CoreExprTyper};
use crate::typeck::scope::ValueTypeScope;
use crate::typeck::synth::{synth_spec, unsynth_code};

verus! {

/// A declaration whose name already carries its reference.
pub enum ResolvedDecl {
    Native { export: bool, name: String, binding: GlobalRef, ty: CoreType },
    Type { export: bool, name: String, alias: TypeAliasRef, ty: CoreType },
    Let { export: bool, name: String, binding: GlobalRef, annotation: Option<CoreType>, expr: CoreExpr },
}

/// The aliases of the module being elaborated, looked up before those of
/// the base context.
pub struct ModuleTypes<'b, C: CoreTypeContext> {
    pub base: &'b C,
    pub local: &'b CoreTypeEnv,
}

impl<'b, C: CoreTypeContext> CoreTypeContext for ModuleTypes<'b, C> {
    open spec fn alias_spec(&self, name: Seq<char>) -> Option<SpecType> {
        match self.local.alias_spec(name) {
            Some(t) => Some(t),
            None => self.base.alias_spec(name),
        }
    }

    open spec fn alias_by_ref_spec(&self, alias: TypeAliasRef) -> Option<SpecType> {
        match self.local.alias_by_ref_spec(alias) {
            Some(t) => Some(t),
            None => self.base.alias_by_ref_spec(alias),
        }
    }

    open spec fn alias_names(&self) -> Set<Seq<char>> {
        self.local.alias_names().union(self.base.alias_names())
    }

    open spec fn alias_refs(&self) -> Set<TypeAliasRef> {
        self.local.alias_refs().union(self.base.alias_refs())
    }

    proof fn lemma_alias_names(&self, name: Seq<char>) {
        self.local.lemma_alias_names(name);
        self.base.lemma_alias_names(name);
    }

    proof fn lemma_alias_refs(&self, alias: TypeAliasRef) {
        self.local.lemma_alias_refs(alias);
        self.base.lemma_alias_refs(alias);
    }

    fn alias(&self, name: &str) -> (r: Option<&CoreType>) {
        match self.local.alias(name) {
            Some(t) => Some(t),
            None => self.base.alias(name),
        }
    }

    fn alias_by_ref(&self, alias: TypeAliasRef) -> (r: Option<&CoreType>) {
        match self.local.alias_by_ref(alias) {
            Some(t) => Some(t),
            None => self.base.alias_by_ref(alias),
        }
    }
}

/// Elaborates modules declaration by declaration.
pub struct CoreModuleElaborator<'a, C: CoreTypeContext, T: CoreExprTyper = CoreElaborator> {
    base_types: &'a C,
    local_types: CoreTypeEnv,
    values: ValueTypeScope,
    typer: T,
    next_binding: usize,
}

/// What elaborating one declaration does, in the state before it (`types`,
/// `scope`) and after it (`types2`, `scope2`).
pub open spec fn decl_step<C: CoreTypeContext>(
    decl: ResolvedDecl,
    r: Result<ElaboratedDecl>,
    base: C,
    local: CoreTypeEnv,
    scope: ValueTypeScope,
    local2: CoreTypeEnv,
    scope2: ValueTypeScope,
) -> bool {
    let types = ModuleTypes { base: &base, local: &local };
    let types2 = ModuleTypes { base: &base, local: &local2 };
    match decl {
        ResolvedDecl::Native { export, name, binding, ty } => {
            &&& local2 == local
            &&& match r {
                Ok(d) => {
                    &&& wf_spec(types, ty@, Seq::empty(), Seq::empty()) is None
                    &&& native_arity(name@) is Some
                    &&& d == (ElaboratedDecl::Native { export, name, binding, ty })
                    &&& lookup(scope2.spec_globals(), name@) == Some((binding, ty@))
                    &&& forall|n: Seq<char>| n != name@ ==> lookup(scope2.spec_globals(), n) == lookup(scope.spec_globals(), n)
                },
                Err(e) => match wf_spec(types, ty@, Seq::empty(), Seq::empty()) {
                    Some(c) => e.code_spec() == c,
                    None => native_arity(name@) is None && e.code_spec() == ErrorCode::Reconf,
                },
            }
        },
        ResolvedDecl::Type { export, name, alias, ty } => {
            &&& scope2 == scope
            &&& local2.named(name@) == Some(ty@)
            &&& forall|n: Seq<char>| n != name@ ==> local2.named(n) == local.named(n)
            &&& local2.named_ref(name@) == Some(alias)
            &&& forall|n: Seq<char>| n != name@ ==> local2.named_ref(n) == local.named_ref(n)
            &&& local2.by_ref(alias) == Some(ty@)
            &&& forall|q: TypeAliasRef| q != alias ==> local2.by_ref(q) == local.by_ref(q)
            &&& match r {
                Ok(d) => {
                    &&& !mentions_spec(ty@, name@, Some(alias))
                    &&& wf_spec(types2, ty@, Seq::empty(), Seq::empty()) is None
                    &&& d == (ElaboratedDecl::Type { export, name, alias, ty })
                },
                Err(e) => if mentions_spec(ty@, name@, Some(alias)) {
                    e.code_spec() == ErrorCode::TypeRecursiveAlias && e.message_spec() == "recursive type alias `"@ + name@ + "`"@
                        && recursion_labelled(e, ty@, name@, Some(alias))
                } else {
                    wf_spec(types2, ty@, Seq::empty(), Seq::empty()) == Some(e.code_spec())
                        && wf_error(types2, ty@, Seq::empty(), Seq::empty(), e)
                },
            }
        },
        ResolvedDecl::Let { export, name, binding, annotation, expr } => {
            &&& local2 == local
            &&& match r {
                Ok(d) => match d {
                    ElaboratedDecl::Let { export: e2, name: n2, binding: b2, expr: ElaboratedExpr::Checked(t) } => {
                        &&& e2 == export && n2 == name && b2 == binding
                        &&& match annotation {
                            Some(ann) => elab_spec(expr@, ann@) == Ok::<SpecExpr, ErrorCode>(t.expr@) && t.ty@ == ann@,
                            None => synth_spec(expr@, scope.spec_globals(), Seq::empty())
                                == Ok::<Option<(SpecExpr, SpecType)>, ErrorCode>(Some((t.expr@, t.ty@))),
                        }
                        &&& lookup(scope2.spec_globals(), name@) == Some((binding, t.ty@))
                        &&& forall|n: Seq<char>| n != name@ ==> lookup(scope2.spec_globals(), n) == lookup(scope.spec_globals(), n)
                    },
                    _ => false,
                },
                Err(e) => match annotation {
                    Some(ann) => elab_spec(expr@, ann@) == Err::<SpecExpr, ErrorCode>(e.code_spec()),
                    None => match synth_spec(expr@, scope.spec_globals(), Seq::empty()) {
                        Err(c) => c == e.code_spec(),
                        Ok(None) => e.code_spec() == unsynth_code(expr@),
                        Ok(Some(_)) => false,
                    },
                },
            }
        },
    }
}

/// A declaration the caller can hand to the elaborator: reference numbers
/// leave room for the next fresh one.
pub open spec fn decl_admissible(decl: ResolvedDecl) -> bool {
    match decl {
        ResolvedDecl::Type { alias, .. } => alias.0 < usize::MAX,
        _ => true,
    }
}

/// The declarations elaborate one after another, each in the state the one
/// before left: through the type environments `locals` and the scopes
/// `scopes` (one more of each than there are declarations), into `out`.
pub open spec fn elab_trace<C: CoreTypeContext>(
    decls: Seq<ResolvedDecl>,
    base: C,
    locals: Seq<CoreTypeEnv>,
    scopes: Seq<ValueTypeScope>,
    out: Seq<ElaboratedDecl>,
) -> bool {
    &&& locals.len() == decls.len() + 1
    &&& scopes.len() == decls.len() + 1
    &&& out.len() == decls.len()
    &&& forall|i: int| 0 <= i < decls.len() ==> decl_step(decls[i], Ok::<ElaboratedDecl, Error>(#[trigger] out[i]), base,
        locals[i], scopes[i], locals[i + 1], scopes[i + 1])
}

/// Synthesizing the output in `scope` fails with `code`.
pub open spec fn output_fails(out: SpecExpr, scope: ValueTypeScope, code: ErrorCode) -> bool {
    match synth_spec(out, scope.spec_globals(), Seq::empty()) {
        Err(c) => c == code,
        Ok(None) => code == unsynth_code(out),
        Ok(Some(_)) => false,
    }
}

/// What elaborating `decls` and then `output` from (`local`, `scope`) gives:
/// on success, the declarations elaborated in order into the state
/// (`local2`, `scope2`) and the output synthesized there; on failure, the
/// declarations before the first that fails elaborate in order, and that
/// declaration (or, when all of them succeed, the output) fails with the
/// error's code.
pub open spec fn module_elaborated<C: CoreTypeContext>(
    decls: Seq<ResolvedDecl>,
    output: Option<CoreExpr>,
    base: C,
    local: CoreTypeEnv,
    scope: ValueTypeScope,
    r: Result<ElaboratedModule>,
    local2: CoreTypeEnv,
    scope2: ValueTypeScope,
) -> bool {
    match r {
        Ok(m) => {
            &&& exists|ls: Seq<CoreTypeEnv>, ss: Seq<ValueTypeScope>| #[trigger] elab_trace(decls, base, ls, ss, m.decls@)
                && ls[0] == local && ss[0] == scope && ls.last() == local2 && ss.last() == scope2
            &&& match output {
                Some(out) => match m.output {
                    Some(ElaboratedExpr::Checked(t)) => synth_spec(out@, scope2.spec_globals(), Seq::empty())
                        == Ok::<Option<(SpecExpr, SpecType)>, ErrorCode>(Some((t.expr@, t.ty@))),
                    None => false,
                },
                None => m.output is None,
            }
        },
        Err(e) => exists|ls: Seq<CoreTypeEnv>, ss: Seq<ValueTypeScope>, out: Seq<ElaboratedDecl>, k: int|
            #[trigger] elab_trace(decls.take(k), base, ls, ss, out) && 0 <= k <= decls.len() && ls[0] == local && ss[0] == scope
            && if k < decls.len() {
                exists|l2: CoreTypeEnv, s2: ValueTypeScope| #[trigger] decl_step(decls[k], Err::<ElaboratedDecl, Error>(e), base, ls[k], ss[k], l2, s2)
            } else {
                output matches Some(o) && output_fails(o@, ss[k], e.code_spec())
            },
    }
}

/// The declaration with its name given the reference number `reference`.
pub open spec fn resolved_with(d: CoreDecl, reference: usize) -> ResolvedDecl {
    match d {
        CoreDecl::Native { export, name, ty } => ResolvedDecl::Native { export, name, binding: GlobalRef(reference), ty },
        CoreDecl::Type { export, name, ty } => ResolvedDecl::Type { export, name, alias: TypeAliasRef(reference), ty },
        CoreDecl::Let { export, name, annotation, expr } => ResolvedDecl::Let { export, name, binding: GlobalRef(reference), annotation, expr },
    }
}

impl<'a, C: CoreTypeContext> CoreModuleElaborator<'a, C, CoreElaborator> {
    /// An elaborator over the given aliases, with no values in scope.
    pub fn new(types: &'a C) -> (m: Self)
        ensures
            m.base() == *types,
            m.scope().spec_globals().len() == 0,
            forall|n: Seq<char>| m.local_types().named(n) is None,
            forall|q: TypeAliasRef| m.local_types().by_ref(q) is None,
    {
        Self::with_typer(types, CoreElaborator::new())
    }
}

impl<'a, C: CoreTypeContext, T: CoreExprTyper> CoreModuleElaborator<'a, C, T> {
    pub closed spec fn base(&self) -> C {
        *self.base_types
    }

    pub closed spec fn local_types(&self) -> CoreTypeEnv {
        self.local_types
    }

    pub closed spec fn scope(&self) -> ValueTypeScope {
        self.values
    }

    /// The next fresh reference number.
    pub closed spec fn next_ref(&self) -> usize {
        self.next_binding
    }

    /// An elaborator with the given expression typer and no values in scope.
    pub fn with_typer(types: &'a C, typer: T) -> (m: Self)
        ensures
            m.base() == *types,
            m.scope().spec_globals().len() == 0,
            forall|n: Seq<char>| m.local_types().named(n) is None,
            forall|q: TypeAliasRef| m.local_types().by_ref(q) is None,
    {
        CoreModuleElaborator {
            base_types: types,
            local_types: CoreTypeEnv::new(),
            values: ValueTypeScope::new(),
            typer,
            next_binding: 0,
        }
    }

    /// An elaborator with the given aliases, values in scope and typer.
    pub fn with_context(types: &'a C, values: &ValueTypeScope, typer: T) -> (m: Self)
        ensures
            m.base() == *types,
            m.scope().spec_globals() == values.spec_globals(),
            forall|n: Seq<char>| m.local_types().named(n) is None,
            forall|q: TypeAliasRef| m.local_types().by_ref(q) is None,
    {
        CoreModuleElaborator {
            base_types: types,
            local_types: CoreTypeEnv::new(),
            values: values.duplicate(),
            typer,
            next_binding: 0,
        }
    }

    /// The aliases in scope: the module's own, then the base context's.
    fn types(&self) -> (t: ModuleTypes<'_, C>)
        ensures
            *t.base == self.base(),
            *t.local == self.local_types(),
    {
        ModuleTypes { base: self.base_types, local: &self.local_types }
    }

    /// Elaborates the declarations in order, then synthesizes the output in
    /// the scope they leave. Declarations get fresh value references and
    /// type references in the order they appear.
    pub fn elaborate_module(&mut self, module: CoreModule) -> (r: Result<ElaboratedModule>)
        requires
            old(self).next_ref() + module.decls@.len() < usize::MAX,
        ensures
            module_elaborated(
                Seq::new(module.decls@.len(), |i: int| resolved_with(module.decls@[i], (old(self).next_ref() + i) as usize)),
                module.output,
                old(self).base(),
                old(self).local_types(),
                old(self).scope(),
                r,
                final(self).local_types(),
                final(self).scope(),
            ),
            final(self).next_ref() == old(self).next_ref() + module.decls@.len(),
    {
        let ghost start = self.next_binding;
        let ghost all = module.decls@;
        let ghost want = Seq::new(all.len(), |i: int| resolved_with(all[i], (start + i) as usize));
        let mut resolved: Vec<ResolvedDecl> = Vec::new();
        let mut pending = module.decls;
        let ghost n = pending@.len();
        while pending.len() > 0
            invariant
                resolved@.len() + pending@.len() == n,
                n == all.len(),
                pending@ == all.skip(resolved@.len() as int),
                self.next_binding == start + resolved@.len(),
                start + n < usize::MAX,
                forall|i: int| 0 <= i < resolved@.len() ==> #[trigger] resolved@[i] == resolved_with(all[i], (start + i) as usize),
                forall|i: int| 0 <= i < resolved@.len() ==> decl_admissible(#[trigger] resolved@[i]),
                self.base() == old(self).base(),
                self.local_types() == old(self).local_types(),
                self.scope() == old(self).scope(),
            decreases pending.len(),
        {
            let ghost before = pending@;
            let decl = pending.remove(0);
            assert(decl == all[resolved@.len() as int]);
            assert(pending@ =~= all.skip(resolved@.len() as int + 1));
            let reference = self.next_binding;
            self.next_binding = self.next_binding + 1;
            let r = match decl {
                CoreDecl::Native { export, name, ty } => ResolvedDecl::Native { export, name, binding: GlobalRef::new(reference), ty },
                CoreDecl::Type { export, name, ty } => ResolvedDecl::Type { export, name, alias: TypeAliasRef::new(reference), ty },
                CoreDecl::Let { export, name, annotation, expr } => ResolvedDecl::Let { export, name, binding: GlobalRef::new(reference), annotation, expr },
            };
            assert(r == resolved_with(decl, reference));
            resolved.push(r);
        }
        assert(resolved@ =~= want);
        self.elaborate_resolved_module(resolved, module.output)
    }

    /// Elaborates resolved declarations in order, then synthesizes the
    /// output in the scope they leave.
    #[verifier::loop_isolation(false)]
    pub fn elaborate_resolved_module(&mut self, decls: Vec<ResolvedDecl>, output: Option<CoreExpr>) -> (r: Result<ElaboratedModule>)
        requires
            forall|i: int| 0 <= i < decls@.len() ==> decl_admissible(#[trigger] decls@[i]),
        ensures
            module_elaborated(decls@, output, old(self).base(), old(self).local_types(), old(self).scope(), r,
                final(self).local_types(), final(self).scope()),
            final(self).next_ref() == old(self).next_ref(),
    {
        let ghost all = decls@;
        let ghost out0 = output;
        let ghost base = self.base();
        let ghost mut ls: Seq<CoreTypeEnv> = seq![self.local_types()];
        let ghost mut ss: Seq<ValueTypeScope> = seq![self.scope()];
        let mut elaborated: Vec<ElaboratedDecl> = Vec::new();
        let mut pending = decls;
        let ghost n = pending@.len();
        proof {
            assert(all.take(0) =~= Seq::<ResolvedDecl>::empty());
        }
        while pending.len() > 0
            invariant
                elaborated@.len() + pending@.len() == n,
                n == all.len(),
                pending@ == all.skip(elaborated@.len() as int),
                forall|i: int| 0 <= i < all.len() ==> decl_admissible(#[trigger] all[i]),
                elab_trace(all.take(elaborated@.len() as int), base, ls, ss, elaborated@),
                ls[0] == old(self).local_types(),
                ss[0] == old(self).scope(),
                ls.last() == self.local_types(),
                ss.last() == self.scope(),
                self.base() == base,
                base == old(self).base(),
                self.next_ref() == old(self).next_ref(),
            decreases pending.len(),
        {
            let ghost i = elaborated@.len() as int;
            let decl = pending.remove(0);
            assert(decl == all[i]);
            assert(pending@ =~= all.skip(i + 1));
            let ghost l0 = self.local_types();
            let ghost s0 = self.scope();
            let d = match self.elaborate_resolved_decl(decl) {
                Ok(d) => d,
                Err(e) => {
                    proof {
                        assert(decl_step(all[i], Err::<ElaboratedDecl, Error>(e), base, ls[i], ss[i], self.local_types(), self.scope()));
                        assert(elab_trace(all.take(i), base, ls, ss, elaborated@));
                        assert(module_elaborated(all, out0, base, ls[0], ss[0], Err::<ElaboratedModule, Error>(e),
                            self.local_types(), self.scope()));
                    }
                    return Err(e);
                },
            };
            let ghost prev = elaborated@;
            elaborated.push(d);
            proof {
                let ls2 = ls.push(self.local_types());
                let ss2 = ss.push(self.scope());
                let t2 = all.take(i + 1);
                assert forall|j: int| 0 <= j < t2.len() implies decl_step(t2[j], Ok::<ElaboratedDecl, Error>(#[trigger] elaborated@[j]), base,
                    ls2[j], ss2[j], ls2[j + 1], ss2[j + 1]) by {
                    if j < i {
                        assert(all.take(i)[j] == t2[j]);
                        assert(elaborated@[j] == prev[j]);
                        assert(decl_step(all.take(i)[j], Ok::<ElaboratedDecl, Error>(prev[j]), base, ls[j], ss[j], ls[j + 1], ss[j + 1]));
                    }
                }
                ls = ls2;
                ss = ss2;
            }
        }
        proof {
            assert(all.take(n as int) =~= all);
        }
        let output = match output {
            Some(output) => {
                let ghost o = output;
                match self.typer.synthesize_expr(output, &self.values) {
                    Ok(x) => Some(x),
                    Err(e) => {
                        proof {
                            assert(output_fails(o@, ss[n as int], e.code_spec()));
                            assert(elab_trace(all.take(n as int), base, ls, ss, elaborated@));
                            assert(module_elaborated(all, out0, base, ls[0], ss[0], Err::<ElaboratedModule, Error>(e),
                                self.local_types(), self.scope()));
                        }
                        return Err(e);
                    },
                }
            },
            None => None,
        };
        let m = ElaboratedModule { decls: elaborated, output };
        proof {
            assert(elab_trace(all, base, ls, ss, m.decls@));
        }
        Ok(m)
    }

    /// Elaborates one declaration in the current state and records what it
    /// declares.
    fn elaborate_resolved_decl(&mut self, decl: ResolvedDecl) -> (r: Result<ElaboratedDecl>)
        requires
            decl_admissible(decl),
        ensures
            decl_step(decl, r, old(self).base(), old(self).local_types(), old(self).scope(), final(self).local_types(), final(self).scope()),
            final(self).base() == old(self).base(),
            final(self).next_binding == old(self).next_binding,
    {
        match decl {
            ResolvedDecl::Native { export, name, binding, ty } => {
                self.validate_native(&name, &ty)?;
                self.define_local_value(name.clone(), binding, ty.duplicate());
                Ok(ElaboratedDecl::Native { export, name, binding, ty })
            },
            ResolvedDecl::Type { export, name, alias, ty } => {
                self.local_types.define_with_ref(name.clone(), alias, ty.duplicate());
                self.validate_type_alias(&name, alias, &ty)?;
                Ok(ElaboratedDecl::Type { export, name, alias, ty })
            },
            ResolvedDecl::Let { export, name, binding, annotation, expr } => {
                let elaborated = match annotation {
                    Some(ty) => ElaboratedExpr::Checked(self.typer.check_expr(expr, &ty)?),
                    None => self.typer.synthesize_expr(expr, &self.values)?,
                };
                let ty = match &elaborated {
                    ElaboratedExpr::Checked(typed) => typed.ty.duplicate(),
                };
                self.define_local_value(name.clone(), binding, ty);
                Ok(ElaboratedDecl::Let { export, name, binding, expr: elaborated })
            },
        }
    }

    /// Binds a value name in the module's scope.
    fn define_local_value(&mut self, name: String, binding: GlobalRef, ty: CoreType)
        ensures
            lookup(final(self).scope().spec_globals(), name@) == Some((binding, ty@)),
            forall|n: Seq<char>| n != name@ ==> lookup(final(self).scope().spec_globals(), n) == lookup(old(self).scope().spec_globals(), n),
            final(self).local_types() == old(self).local_types(),
            final(self).base() == old(self).base(),
            final(self).next_binding == old(self).next_binding,
    {
        self.values.define(name, binding, ty);
    }

    /// A native declaration must have a well-formed type and name a known
    /// native function.
    fn validate_native(&self, name: &String, ty: &CoreType) -> (r: Result<()>)
        ensures
            match r {
                Ok(()) => wf_spec(ModuleTypes { base: &self.base(), local: &self.local_types() }, ty@, Seq::empty(), Seq::empty()) is None
                    && native_arity(name@) is Some,
                Err(e) => match wf_spec(ModuleTypes { base: &self.base(), local: &self.local_types() }, ty@, Seq::empty(), Seq::empty()) {
                    Some(c) => e.code_spec() == c,
                    None => native_arity(name@) is None && e.code_spec() == ErrorCode::Reconf,
                },
            },
    {
        let types = self.types();
        CoreTypeValidator::new(&types).well_formed(ty)?;
        let _spec = NativeRegistry::get(name.as_str())?;
        Ok(())
    }

    /// A type alias must not mention itself and must be well formed.
    fn validate_type_alias(&self, name: &String, alias: TypeAliasRef, ty: &CoreType) -> (r: Result<()>)
        ensures
            match r {
                Ok(()) => !mentions_spec(ty@, name@, Some(alias))
                    && wf_spec(ModuleTypes { base: &self.base(), local: &self.local_types() }, ty@, Seq::empty(), Seq::empty()) is None,
                Err(e) => if mentions_spec(ty@, name@, Some(alias)) {
                    e.code_spec() == ErrorCode::TypeRecursiveAlias && e.message_spec() == "recursive type alias `"@ + name@ + "`"@
                        && recursion_labelled(e, ty@, name@, Some(alias))
                } else {
                    wf_spec(ModuleTypes { base: &self.base(), local: &self.local_types() }, ty@, Seq::empty(), Seq::empty()) == Some(e.code_spec())
                        && wf_error(ModuleTypes { base: &self.base(), local: &self.local_types() }, ty@, Seq::empty(), Seq::empty(), e)
                },
            },
    {
        let types = self.types();
        let validator = CoreTypeValidator::new(&types);
        if validator.mentions_alias(ty, name.as_str(), Some(alias)) {
            let message = concat3("recursive type alias `", name.as_str(), "`");
            let error = Error::with_code(ErrorCode::TypeRecursiveAlias, message.as_str());
            let origin = match alias_origin(ty, Some(name.as_str()), None) {
                Some(sp) => Some(sp),
                None => alias_origin(ty, None, Some(alias)),
            };
            return Err(match origin {
                Some(sp) => error.with_label(sp, message.as_str()),
                None => error,
            });
        }
        validator.well_formed(ty)
    }
}

} // verus!
