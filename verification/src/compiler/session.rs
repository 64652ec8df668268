//! A compiler session: declarations checked one input at a time, each input
//! seeing the declarations of the inputs that succeeded before it.

use vstd::prelude::*;
use vstd::string::StringSliceAdditionalSpecFns;

use crate::compiler::{
    builtin_name, compiled, frontend, reports_lex_error, source_core, module_import_paths, resolve_imports, compile_core, join_spec, CheckOutput,
    Compiler, SourceInput,
};
use crate::core_lang::ast::{CoreDecl, CoreExpr, CoreImport, CoreModule, CoreType, SpecExpr, SpecType, clone_strings, strings_view};
use crate::diagnostic::DiagnosticSource;
use crate::syntax::lexer::lex_from;
use crate::emit::data::DataValue;
use crate::error::{ErrorCode, Result};
use crate::eval::value::{lookup_name, SpecValue, Value};
use crate::syntax::grammar::{let_lits_file, lone_int, lone_let_int, lone_type_decl, no_tokens};
use crate::lower::desugar::import_view;
use crate::compiler::output::OutputValidator;
use crate::resolve::modules::{contains_function_spec, Loader, Module};

verus! {

broadcast use vstd::std_specs::vec::group_vec_axioms;

/// The model of a declaration.
pub enum SpecDecl {
    Native { export: bool, name: Seq<char>, ty: SpecType },
    Type { export: bool, name: Seq<char>, ty: SpecType },
    Let { export: bool, name: Seq<char>, annotation: Option<SpecType>, expr: SpecExpr },
}

pub open spec fn decl_view(d: CoreDecl) -> SpecDecl {
    match d {
        CoreDecl::Native { export, name, ty } => SpecDecl::Native { export, name: name@, ty: ty@ },
        CoreDecl::Type { export, name, ty } => SpecDecl::Type { export, name: name@, ty: ty@ },
        CoreDecl::Let { export, name, annotation, expr } => SpecDecl::Let {
            export,
            name: name@,
            annotation: match annotation {
                Some(t) => Some(t@),
                None => None,
            },
            expr: expr@,
        },
    }
}

pub open spec fn decls_view(s: Seq<CoreDecl>) -> Seq<SpecDecl> {
    s.map_values(|d: CoreDecl| decl_view(d))
}

pub open spec fn imports_view(s: Seq<CoreImport>) -> Seq<(Seq<char>, Seq<Seq<char>>)> {
    s.map_values(|i: CoreImport| import_view(i))
}

/// A copy of a declaration.
pub fn duplicate_decl(d: &CoreDecl) -> (r: CoreDecl)
    ensures
        decl_view(r) == decl_view(*d),
{
    match d {
        CoreDecl::Native { export, name, ty } => CoreDecl::Native { export: *export, name: name.clone(), ty: ty.duplicate() },
        CoreDecl::Type { export, name, ty } => CoreDecl::Type { export: *export, name: name.clone(), ty: ty.duplicate() },
        CoreDecl::Let { export, name, annotation, expr } => {
            let a = match annotation {
                Some(t) => Some(t.duplicate()),
                None => None,
            };
            CoreDecl::Let { export: *export, name: name.clone(), annotation: a, expr: expr.duplicate() }
        },
    }
}

/// A copy of an import.
pub fn duplicate_import(i: &CoreImport) -> (r: CoreImport)
    ensures
        import_view(r) == import_view(*i),
{
    CoreImport { path: i.path.clone(), names: clone_strings(&i.names) }
}

fn append_decls(out: &mut Vec<CoreDecl>, ds: &Vec<CoreDecl>)
    ensures
        decls_view(final(out)@) == decls_view(old(out)@) + decls_view(ds@),
{
    let ghost start = out@;
    let mut i: usize = 0;
    while i < ds.len()
        invariant
            i <= ds@.len(),
            decls_view(out@) == decls_view(start) + decls_view(ds@.take(i as int)),
        decreases ds.len() - i,
    {
        let ghost before = out@;
        out.push(duplicate_decl(&ds[i]));
        assert(decls_view(out@) =~= decls_view(before).push(decl_view(ds@[i as int])));
        assert(decls_view(ds@.take(i + 1)) =~= decls_view(ds@.take(i as int)).push(decl_view(ds@[i as int])));
        assert(decls_view(out@) =~= decls_view(start) + decls_view(ds@.take(i + 1)));
        i = i + 1;
    }
    assert(ds@.take(i as int) =~= ds@);
}

fn append_imports(out: &mut Vec<CoreImport>, is: &Vec<CoreImport>)
    ensures
        imports_view(final(out)@) == imports_view(old(out)@) + imports_view(is@),
{
    let ghost start = out@;
    let mut i: usize = 0;
    while i < is.len()
        invariant
            i <= is@.len(),
            imports_view(out@) == imports_view(start) + imports_view(is@.take(i as int)),
        decreases is.len() - i,
    {
        let ghost before = out@;
        out.push(duplicate_import(&is[i]));
        assert(imports_view(out@) =~= imports_view(before).push(import_view(is@[i as int])));
        assert(imports_view(is@.take(i + 1)) =~= imports_view(is@.take(i as int)).push(import_view(is@[i as int])));
        assert(imports_view(out@) =~= imports_view(start) + imports_view(is@.take(i + 1)));
        i = i + 1;
    }
    assert(is@.take(i as int) =~= is@);
}

/// Declarations with the same models as `let`s of literals without
/// annotation are such `let`s too.
proof fn lemma_same_literal_decls(a: Seq<CoreDecl>, b: Seq<CoreDecl>)
    requires
        decls_view(a) == Seq::<SpecDecl>::empty() + decls_view(b),
    ensures
        (forall|k: int| 0 <= k < b.len() ==> (#[trigger] b[k] matches CoreDecl::Let { annotation, expr, .. }
            && annotation is None && crate::compiler::is_literal(expr@)))
        ==> (forall|k: int| 0 <= k < a.len() ==> (#[trigger] a[k] matches CoreDecl::Let { annotation, expr, .. }
            && annotation is None && crate::compiler::is_literal(expr@))),
{
    assert(decls_view(a) =~= decls_view(b));
    assert(a.len() == b.len()) by {
        assert(decls_view(a).len() == a.len());
        assert(decls_view(b).len() == b.len());
    }
    assert forall|k: int| 0 <= k < a.len() implies decl_view(#[trigger] a[k]) == decl_view(b[k]) by {
        assert(decls_view(a)[k] == decl_view(a[k]));
        assert(decls_view(b)[k] == decl_view(b[k]));
    }
}

/// A session: the imports and declarations of the inputs that succeeded,
/// and the compiler that evaluates them.
pub struct CompilerSession {
    name: String,
    base_dir: String,
    imports: Vec<CoreImport>,
    decls: Vec<CoreDecl>,
    compiler: Compiler,
}

/// A successful check of declarations.
pub struct SessionCheckOutput {
    checked: CheckOutput,
}

/// A successful evaluation of an expression.
pub struct SessionEvalOutput {
    checked: CheckOutput,
    output: Value,
    data_output: DataValue,
}

impl SessionCheckOutput {
    pub closed spec fn checked_spec(&self) -> CheckOutput {
        self.checked
    }

    pub fn checked(&self) -> (c: &CheckOutput)
        ensures
            *c == self.checked_spec(),
    {
        &self.checked
    }

    pub fn into_checked(self) -> (c: CheckOutput)
        ensures
            c == self.checked_spec(),
    {
        self.checked
    }
}

impl SessionEvalOutput {
    pub closed spec fn checked_spec(&self) -> CheckOutput {
        self.checked
    }

    pub closed spec fn output_spec(&self) -> Value {
        self.output
    }

    pub closed spec fn data_spec(&self) -> DataValue {
        self.data_output
    }

    pub fn checked(&self) -> (c: &CheckOutput)
        ensures
            *c == self.checked_spec(),
    {
        &self.checked
    }

    pub fn module(&self) -> (m: &Module)
        ensures
            *m == self.checked_spec().module_spec(),
    {
        self.checked.module()
    }

    pub fn output(&self) -> (v: &Value)
        ensures
            *v == self.output_spec(),
    {
        &self.output
    }

    pub fn data_output(&self) -> (d: &DataValue)
        ensures
            *d == self.data_spec(),
    {
        &self.data_output
    }
}

/// `m` is what a module of the given imports and declarations, and the
/// given output, evaluates to on top of the prelude `base`.
pub open spec fn session_compiled(base: Module, imports: Seq<(Seq<char>, Seq<Seq<char>>)>, decls: Seq<SpecDecl>, output: Option<SpecExpr>, m: Module) -> bool {
    exists|core: CoreModule, loaded: Seq<Module>| #[trigger] compiled(base, core, loaded, m)
        && imports_view(core.imports@) == imports && decls_view(core.decls@) == decls
        && match core.output {
            Some(e) => output == Some(e@),
            None => output is None,
        }
}

impl CompilerSession {
    pub closed spec fn imports_spec(&self) -> Seq<(Seq<char>, Seq<Seq<char>>)> {
        imports_view(self.imports@)
    }

    pub closed spec fn base_dir_spec(&self) -> Seq<char> {
        self.base_dir@
    }

    /// The name the session's inputs are reported under.
    pub closed spec fn name_spec(&self) -> Seq<char> {
        self.name@
    }

    pub closed spec fn decls_spec(&self) -> Seq<SpecDecl> {
        decls_view(self.decls@)
    }

    pub closed spec fn prelude_spec(&self) -> Module {
        self.compiler.prelude_spec()
    }

    pub closed spec fn loader_spec(&self) -> Loader {
        self.compiler.loader_spec()
    }

    /// A session with nothing declared, whose imports are resolved against
    /// `base_dir`.
    pub fn new(name: &str, base_dir: &str) -> (s: CompilerSession)
        ensures
            s.name_spec() == name@,
            s.base_dir_spec() == base_dir@,
            s.imports_spec().len() == 0,
            s.decls_spec().len() == 0,
            crate::compiler::prelude::is_prelude(s.prelude_spec()),
    {
        Self::with_sources(name, base_dir, Loader::new())
    }

    /// A session whose imports come from `loader`.
    pub fn with_sources(name: &str, base_dir: &str, loader: Loader) -> (s: CompilerSession)
        ensures
            s.name_spec() == name@,
            s.base_dir_spec() == base_dir@,
            s.imports_spec().len() == 0,
            s.decls_spec().len() == 0,
            s.loader_spec() == loader,
            crate::compiler::prelude::is_prelude(s.prelude_spec()),
    {
        let s = CompilerSession {
            name: name.to_owned(),
            base_dir: base_dir.to_owned(),
            imports: Vec::new(),
            decls: Vec::new(),
            compiler: Compiler::with_sources(loader, crate::compiler::CompilerOptions),
        };
        assert(s.imports_spec() =~= Seq::<(Seq<char>, Seq<Seq<char>>)>::empty());
        assert(s.decls_spec() =~= Seq::<SpecDecl>::empty());
        s
    }

    /// The loader the session's imports come from.
    pub fn loader_mut(&mut self) -> (l: &mut Loader)
        ensures
            *l == old(self).loader_spec(),
            final(self).loader_spec() == *final(l),
            final(self).imports_spec() == old(self).imports_spec(),
            final(self).decls_spec() == old(self).decls_spec(),
            final(self).prelude_spec() == old(self).prelude_spec(),
    {
        self.compiler.loader_mut()
    }

    /// The paths of the files an input imports, resolved against the
    /// session's directory.
    pub fn import_paths(&self, source: &str) -> (r: Result<Vec<String>>)
        ensures
            lex_from(source.spec_bytes(), 0) is Err ==> r is Err,
            r matches Ok(ps) ==> exists|core: CoreModule| ps@.len() == core.imports@.len() && forall|i: int| 0 <= i < ps@.len() ==>
                #[trigger] ps@[i]@ == join_spec(self.base_dir_spec(), core.imports@[i].path@),
            no_tokens(lex_from(source.spec_bytes(), 0)) || lone_int(lex_from(source.spec_bytes(), 0)) is Some
                ==> (r matches Ok(ps) && ps@.len() == 0),
            forall|n: nat, o: bool| #[trigger] let_lits_file(lex_from(source.spec_bytes(), 0), n, o) ==> (r matches Ok(ps) && ps@.len() == 0),
    {
        let input = SourceInput::new(self.name.as_str(), self.base_dir.as_str(), source);
        self.compiler.import_paths(&input)
    }

    /// The committed imports and declarations followed by those of `core`,
    /// with the given output.
    fn combine(&self, core: &CoreModule, output: Option<CoreExpr>) -> (m: CoreModule)
        ensures
            imports_view(m.imports@) == self.imports_spec() + imports_view(core.imports@),
            decls_view(m.decls@) == self.decls_spec() + decls_view(core.decls@),
            m.output == output,
    {
        let mut imports: Vec<CoreImport> = Vec::new();
        append_imports(&mut imports, &self.imports);
        append_imports(&mut imports, &core.imports);
        let mut decls: Vec<CoreDecl> = Vec::new();
        append_decls(&mut decls, &self.decls);
        append_decls(&mut decls, &core.decls);
        assert(imports_view(Seq::<CoreImport>::empty()) =~= Seq::<(Seq<char>, Seq<Seq<char>>)>::empty());
        assert(decls_view(Seq::<CoreDecl>::empty()) =~= Seq::<SpecDecl>::empty());
        assert(imports_view(imports@) =~= self.imports_spec() + imports_view(core.imports@));
        assert(decls_view(decls@) =~= self.decls_spec() + decls_view(core.decls@));
        CoreModule { imports, decls, output }
    }

    /// Checks the declarations of `source` after those kept so far; on
    /// success they are kept too, and on failure the session is unchanged.
    pub fn check_declarations(&mut self, source: &str) -> (r: Result<SessionCheckOutput>)
        ensures
            lex_from(source.spec_bytes(), 0) is Err ==> r is Err,
            lex_from(source.spec_bytes(), 0) matches Err(le) ==> (r matches Err(e)
                && reports_lex_error(e, le, old(self).name_spec(), source@)),
            final(self).name_spec() == old(self).name_spec(),
            r matches Err(e) ==> (e.labels_spec().len() > 0 ==> e.source_spec() is Some),
            match r {
                Ok(out) => {
                    &&& old(self).imports_spec().is_prefix_of(final(self).imports_spec())
                    &&& old(self).decls_spec().is_prefix_of(final(self).decls_spec())
                    &&& session_compiled(old(self).prelude_spec(), final(self).imports_spec(), final(self).decls_spec(), None, out.checked_spec().module_spec())
                    &&& exists|core: CoreModule| #[trigger] source_core(source@, core)
                        && final(self).imports_spec() == old(self).imports_spec() + imports_view(core.imports@)
                        && final(self).decls_spec() == old(self).decls_spec() + decls_view(core.decls@)
                },
                Err(_) => final(self).imports_spec() == old(self).imports_spec() && final(self).decls_spec() == old(self).decls_spec(),
            },
            final(self).prelude_spec() == old(self).prelude_spec(),
            final(self).loader_spec() == old(self).loader_spec(),
            old(self).imports_spec().len() == 0 && old(self).decls_spec().len() == 0
                && (no_tokens(lex_from(source.spec_bytes(), 0)) || lone_int(lex_from(source.spec_bytes(), 0)) is Some
                    || lone_let_int(lex_from(source.spec_bytes(), 0)) is Some)
                ==> r is Ok,
            forall|n: nat, o: bool| #[trigger] let_lits_file(lex_from(source.spec_bytes(), 0), n, o)
                ==> (old(self).imports_spec().len() == 0 && old(self).decls_spec().len() == 0 ==> r is Ok),
            lone_type_decl(lex_from(source.spec_bytes(), 0)) matches Some(nt) ==> (builtin_name(nt.1)
                && old(self).imports_spec().len() == 0 && old(self).decls_spec().len() == 0
                && old(self).prelude_spec().type_env().next_id() < usize::MAX ==> r is Ok),
    {
        let diagnostics = DiagnosticSource::new(self.name.as_str(), source);
        let core = match frontend(source) {
            Ok(core) => core,
            Err(e) => {
                return Err(diagnostics.attach(e));
            },
        };
        let combined = self.combine(&core, None);
        proof {
            assert(combined.imports@.len() == imports_view(combined.imports@).len());
            assert(combined.decls@.len() == decls_view(combined.decls@).len());
            if self.decls_spec().len() == 0 && core.decls@.len() == 1 {
                assert(decls_view(combined.decls@)[0] == decls_view(core.decls@)[0]);
                assert(decl_view(combined.decls@[0]) == decl_view(core.decls@[0]));
            }
            if self.imports_spec().len() == 0 && self.decls_spec().len() == 0 {
                lemma_same_literal_decls(combined.decls@, core.decls@);
            }
        }
        let loaded = match resolve_imports(&combined, self.base_dir.as_str(), self.compiler.loader()) {
            Ok(loaded) => loaded,
            Err(e) => {
                return Err(diagnostics.attach(e));
            },
        };
        let ghost c = combined;
        let module = match compile_core(self.compiler.prelude(), combined, &loaded) {
            Ok(module) => module,
            Err(e) => {
                return Err(diagnostics.attach(e));
            },
        };
        append_imports(&mut self.imports, &core.imports);
        append_decls(&mut self.decls, &core.decls);
        let out = SessionCheckOutput { checked: CheckOutput { module } };
        proof {
            assert(old(self).imports_spec().is_prefix_of(self.imports_spec())) by {
                assert(self.imports_spec() =~= old(self).imports_spec() + imports_view(core.imports@));
            }
            assert(old(self).decls_spec().is_prefix_of(self.decls_spec())) by {
                assert(self.decls_spec() =~= old(self).decls_spec() + decls_view(core.decls@));
            }
            assert(compiled(old(self).prelude_spec(), c, loaded@, out.checked_spec().module_spec()));
            assert(session_compiled(old(self).prelude_spec(), self.imports_spec(), self.decls_spec(), None, out.checked_spec().module_spec()));
            assert(source_core(source@, core));
        }
        Ok(out)
    }

    /// Evaluates the expression (and any declarations) of `source` after the
    /// declarations kept so far; nothing is kept.
    pub fn eval_expression(&mut self, source: &str) -> (r: Result<SessionEvalOutput>)
        ensures
            lex_from(source.spec_bytes(), 0) is Err ==> r is Err,
            lex_from(source.spec_bytes(), 0) matches Err(le) ==> (r matches Err(e)
                && reports_lex_error(e, le, old(self).name_spec(), source@)),
            final(self).name_spec() == old(self).name_spec(),
            r matches Err(e) ==> (e.labels_spec().len() > 0 ==> e.source_spec() is Some),
            r matches Ok(out) ==> {
                &&& exists|imports: Seq<(Seq<char>, Seq<Seq<char>>)>, decls: Seq<SpecDecl>, output: Option<SpecExpr>|
                    #[trigger] session_compiled(old(self).prelude_spec(), imports, decls, output, out.checked_spec().module_spec())
                        && old(self).imports_spec().is_prefix_of(imports) && old(self).decls_spec().is_prefix_of(decls)
                &&& exists|core: CoreModule| #[trigger] source_core(source@, core)
                    && session_compiled(old(self).prelude_spec(), old(self).imports_spec() + imports_view(core.imports@),
                        old(self).decls_spec() + decls_view(core.decls@), crate::resolve::modules::output_view(core.output),
                        out.checked_spec().module_spec())
                &&& lookup_name(out.checked_spec().module_spec().values_model(), "$output"@) == Some(out.output_spec()@)
                &&& out.data_spec()@ == out.output_spec()@
                &&& !contains_function_spec(out.output_spec()@)
            },
            final(self).imports_spec() == old(self).imports_spec(),
            final(self).decls_spec() == old(self).decls_spec(),
            final(self).prelude_spec() == old(self).prelude_spec(),
            final(self).loader_spec() == old(self).loader_spec(),
            old(self).imports_spec().len() == 0 && old(self).decls_spec().len() == 0
                ==> (lone_int(lex_from(source.spec_bytes(), 0)) matches Some(v)
                    ==> (r matches Ok(out) && out.output_spec()@ == SpecValue::Int(v))),
            forall|n: nat| #[trigger] let_lits_file(lex_from(source.spec_bytes(), 0), n, true)
                ==> (old(self).imports_spec().len() == 0 && old(self).decls_spec().len() == 0 ==> (r matches Ok(out)
                    && out.output_spec()@ == crate::compiler::token_value(lex_from(source.spec_bytes(), 0)->Ok_0[5 * n as int].kind))),
    {
        let diagnostics = DiagnosticSource::new(self.name.as_str(), source);
        let core = match frontend(source) {
            Ok(core) => core,
            Err(e) => {
                return Err(diagnostics.attach(e));
            },
        };
        let output = match &core.output {
            Some(e) => Some(e.duplicate()),
            None => None,
        };
        let ghost out_view: Option<SpecExpr> = crate::resolve::modules::output_view(output);
        let combined = self.combine(&core, output);
        proof {
            assert(combined.imports@.len() == imports_view(combined.imports@).len());
            assert(combined.decls@.len() == decls_view(combined.decls@).len());
            if self.imports_spec().len() == 0 && self.decls_spec().len() == 0 {
                lemma_same_literal_decls(combined.decls@, core.decls@);
            }
        }
        let loaded = match resolve_imports(&combined, self.base_dir.as_str(), self.compiler.loader()) {
            Ok(loaded) => loaded,
            Err(e) => {
                return Err(diagnostics.attach(e));
            },
        };
        let ghost c = combined;
        let module = match compile_core(self.compiler.prelude(), combined, &loaded) {
            Ok(module) => module,
            Err(e) => {
                return Err(diagnostics.attach(e));
            },
        };
        let checked = CheckOutput { module };
        proof {
            if let Some(o) = c.output {
                if crate::compiler::is_literal(o@) {
                    crate::compiler::lemma_compiled_literal_output(self.prelude_spec(), c, loaded@, checked.module_spec(), o@);
                }
            }
        }
        let output = match checked.output() {
            Ok(v) => v.duplicate(),
            Err(e) => {
                return Err(diagnostics.attach(e));
            },
        };
        let data_output = match OutputValidator::new().validate(&output) {
            Ok(d) => d,
            Err(e) => {
                return Err(diagnostics.attach(e));
            },
        };
        let out = SessionEvalOutput { checked, output, data_output };
        proof {
            let imps = self.imports_spec() + imports_view(core.imports@);
            let ds = self.decls_spec() + decls_view(core.decls@);
            assert(self.imports_spec().is_prefix_of(imps)) by {
                assert(imps.take(self.imports_spec().len() as int) =~= self.imports_spec());
            }
            assert(self.decls_spec().is_prefix_of(ds)) by {
                assert(ds.take(self.decls_spec().len() as int) =~= self.decls_spec());
            }
            assert(compiled(self.prelude_spec(), c, loaded@, out.checked_spec().module_spec()));
            assert(session_compiled(self.prelude_spec(), imps, ds, out_view, out.checked_spec().module_spec()));
            assert(source_core(source@, core));
        }
        Ok(out)
    }
}

} // verus!
