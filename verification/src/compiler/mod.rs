//! The compiler: from source text to an evaluated module and its output.
//! Reading files is left to the caller: a file's imports are named by
//! `import_paths`, loaded into the `Loader` by the caller, and looked up
//! there when the file is checked.

use vstd::prelude::*;
use vstd::string::StringSliceAdditionalSpecFns;
use vstd::utf8::encode_utf8;

use crate::core_lang::ast::{CoreDecl, CoreImport, CoreModule, SpecExpr, SpecType};
use crate::diagnostic::DiagnosticSource;
use crate::emit::data::DataValue;
use crate::error::{ByteRange, Error, ErrorCode, Result, code_text};
use crate::eval::interp::{eval_spec, DEFAULT_DEPTH};
use crate::eval::value::{lookup_name, SpecValue, Value};
use crate::typeck::elaborate::unchecked_spec;
use crate::typeck::wf::{bound_aliases_spec, expr_aliases_spec};
use crate::fields::lookup;
use crate::resolve::modules::{
    chain, chain_fails, import_rel, trace, contains_function_spec, decl_rel, eval_file, file_fails, import_names, imports_done, output_step,
    output_view, Loader, Module,
};
use crate::lower::SurfaceToCoreLowerer;
use crate::syntax::grammar::{file_at, plain_text_model, let_lit_decl, let_lits_file, lone_int, lone_let_int, lone_type_decl, no_tokens};
use crate::syntax::lexer::{lex_from, tokens_view, Diagnostic, SpecKind, SpecLexError, Token};
use crate::syntax::surface::{Decl, FileAst};
use crate::lower::desugar::{decl_lowered, file_lowered, lower_expr_spec, lower_type_spec, import_view, imports_of, non_imports};
use crate::syntax::parser::parse;
use crate::text::{chars_of, concat3, str_eq, string_from_chars};

pub mod output;
pub mod path;
pub mod prelude;
pub mod session;

use crate::compiler::output::OutputValidator;
use crate::compiler::prelude::{is_prelude, PreludeCompiler};
use crate::compiler::path::{normalize_path, normalize_spec};

verus! {

broadcast use vstd::std_specs::vec::group_vec_axioms;

/// `rel` resolved against the directory `base`, in normal form, so that
/// one file has one path however an import spells it.
pub open spec fn join_spec(base: Seq<char>, rel: Seq<char>) -> Seq<char> {
    normalize_spec(join_raw_spec(base, rel))
}

/// `rel` written after the directory `base`: an absolute `rel` stands
/// alone, and an empty `base` adds nothing.
pub open spec fn join_raw_spec(base: Seq<char>, rel: Seq<char>) -> Seq<char> {
    if rel.len() > 0 && rel[0] == '/' {
        rel
    } else if base.len() == 0 {
        rel
    } else if base.last() == '/' {
        base + rel
    } else {
        base + seq!['/'] + rel
    }
}

/// The index of the last `/`.
pub open spec fn last_slash(path: Seq<char>) -> Option<nat>
    decreases path.len(),
{
    if path.len() == 0 {
        None
    } else if path.last() == '/' {
        Some((path.len() - 1) as nat)
    } else {
        last_slash(path.drop_last())
    }
}

/// The directory of a path: what stands before its last `/` (`/` itself
/// for a file at the root), or nothing.
pub open spec fn parent_spec(path: Seq<char>) -> Seq<char> {
    match last_slash(path) {
        None => Seq::empty(),
        Some(k) => if k == 0 {
            seq!['/']
        } else {
            path.take(k as int)
        },
    }
}

/// Resolves `rel` against the directory `base`.
pub fn join_path(base: &str, rel: &str) -> (r: String)
    ensures
        r@ == join_spec(base@, rel@),
{
    let b = chars_of(base);
    let r = chars_of(rel);
    if r.len() > 0 && r[0] == '/' {
        return normalize_path(rel);
    }
    if b.len() == 0 {
        return normalize_path(rel);
    }
    let mut out = b.clone();
    if b[b.len() - 1] != '/' {
        out.push('/');
    }
    crate::emit::push_chars(&mut out, &r);
    assert(out@ =~= join_raw_spec(base@, rel@));
    let raw = string_from_chars(out.as_slice());
    normalize_path(raw.as_str())
}

/// The directory of `path`.
pub fn parent_dir(path: &str) -> (r: String)
    ensures
        r@ == parent_spec(path@),
{
    let chars = chars_of(path);
    let mut i: usize = chars.len();
    assert(chars@.take(chars@.len() as int) =~= chars@);
    while i > 0
        invariant
            i <= chars@.len(),
            chars@ == path@,
            last_slash(chars@) == last_slash(chars@.take(i as int)),
        decreases i,
    {
        let ghost t = chars@.take(i as int);
        assert(t.drop_last() =~= chars@.take(i - 1));
        if chars[i - 1] == '/' {
            if i == 1 {
                proof {
                    reveal_strlit("/");
                    assert("/"@ =~= seq!['/']);
                }
                return "/".to_owned();
            }
            let mut prefix: Vec<char> = chars.clone();
            prefix.truncate(i - 1);
            assert(prefix@ =~= path@.take(i - 1));
            return string_from_chars(prefix.as_slice());
        }
        i = i - 1;
    }
    assert(chars@.take(0) =~= Seq::<char>::empty());
    String::new()
}

} // verus!

verus! {

/// Options of the compiler. There are none yet.
#[derive(Clone, Copy, Debug, Default)]
pub struct CompilerOptions;

/// A source text with the name it is reported under and the directory its
/// imports are resolved against.
#[derive(Debug)]
pub struct SourceInput {
    name: String,
    base_dir: String,
    text: String,
}

impl SourceInput {
    pub fn new(name: &str, base_dir: &str, text: &str) -> (s: SourceInput)
        ensures
            s.name_spec() == name@,
            s.base_dir_spec() == base_dir@,
            s.text_spec() == text@,
    {
        SourceInput { name: name.to_owned(), base_dir: base_dir.to_owned(), text: text.to_owned() }
    }

    /// The text of the file at `path`: it is reported under the path and
    /// its imports are resolved against the path's directory.
    pub fn from_path(path: &str, text: String) -> (s: SourceInput)
        ensures
            s.name_spec() == path@,
            s.base_dir_spec() == parent_spec(path@),
            s.text_spec() == text@,
    {
        SourceInput { name: path.to_owned(), base_dir: parent_dir(path), text }
    }

    pub closed spec fn name_spec(&self) -> Seq<char> {
        self.name@
    }

    pub closed spec fn base_dir_spec(&self) -> Seq<char> {
        self.base_dir@
    }

    pub closed spec fn text_spec(&self) -> Seq<char> {
        self.text@
    }

    pub fn name(&self) -> (r: &str)
        ensures
            r@ == self.name_spec(),
    {
        self.name.as_str()
    }

    pub fn base_dir(&self) -> (r: &str)
        ensures
            r@ == self.base_dir_spec(),
    {
        self.base_dir.as_str()
    }

    pub fn text(&self) -> (r: &str)
        ensures
            r@ == self.text_spec(),
    {
        self.text.as_str()
    }
}

/// The code of a parse diagnostic: empty interpolations and unterminated
/// strings and interpolations have codes of their own; another known code
/// is itself.
pub open spec fn classified_code(code: Seq<char>) -> Option<ErrorCode> {
    if code == "E_PARSE_006"@ {
        Some(ErrorCode::ParseEmptyInterpolation)
    } else if code == "E_PARSE_007"@ || code == "E_PARSE_008"@ || code == "E_PARSE_009"@ {
        Some(ErrorCode::ParseUnterminatedString)
    } else {
        None
    }
}

/// The error of a parse diagnostic, with a label on its span.
pub fn diagnostic_error(d: Diagnostic) -> (e: Error)
    ensures
        (classified_code(d.code@) matches Some(c) ==> e.code_spec() == c),
        ((classified_code(d.code@) is None && exists|c: ErrorCode| code_text(c) == d.code@) ==> code_text(e.code_spec()) == d.code@),
        ((classified_code(d.code@) is None && forall|c: ErrorCode| code_text(c) != d.code@) ==> e.code_spec() == ErrorCode::Reconf),
        e.message_spec() == d.message@,
        e.source_spec() is None,
        (d.span.start <= d.span.end ==> (e.labels_spec().len() == 1 && e.labels_spec()[0].span == (ByteRange { start: d.span.start, end: d.span.end })
            && e.labels_spec()[0].message@ == d.message@)),
{
    let code = if str_eq(d.code, "E_PARSE_006") {
        ErrorCode::ParseEmptyInterpolation
    } else if str_eq(d.code, "E_PARSE_007") || str_eq(d.code, "E_PARSE_008") || str_eq(d.code, "E_PARSE_009") {
        ErrorCode::ParseUnterminatedString
    } else {
        match ErrorCode::from_code(d.code) {
            Some(code) => code,
            None => ErrorCode::Reconf,
        }
    };
    let e = Error::with_code(code, d.message.as_str()).with_label(ByteRange::new(d.span.start, d.span.end), d.message.as_str());
    e
}

/// The source text's tokens derive a file whose lowering is `core`.
pub open spec fn source_core(text: Seq<char>, core: CoreModule) -> bool {
    exists|ts: Seq<Token>, f: FileAst| #[trigger] tokens_view(ts) == lex_from(encode_utf8(text), 0)->Ok_0
        && lex_from(encode_utf8(text), 0) is Ok && #[trigger] file_at(ts, f) && file_lowered(f, core)
}

/// `e` reports the lexer's refusal `le` of the text `text` named `name`:
/// the lexer's code, where it has one of its own, its message, and, where
/// its range is in order, one label there with the same message and the
/// named text attached.
pub open spec fn reports_lex_error(e: Error, le: SpecLexError, name: Seq<char>, text: Seq<char>) -> bool {
    &&& (classified_code(le.code) matches Some(c) ==> e.code_spec() == c)
    &&& e.message_spec() == le.message
    &&& le.start <= le.end ==> {
        &&& e.labels_spec().len() == 1
        &&& e.labels_spec()[0].span.start == le.start
        &&& e.labels_spec()[0].span.end == le.end
        &&& e.labels_spec()[0].message@ == le.message
        &&& e.source_spec() matches Some(s) && s.name@ == name && s.text@ == text
    }
}

/// Parses and lowers a source text. Text that does not lex is refused,
/// with the code of the lexer's diagnostic.
pub fn frontend(text: &str) -> (r: Result<CoreModule>)
    ensures
        lex_from(text.spec_bytes(), 0) matches Err(le) ==> r matches Err(e)
            && (classified_code(le.code) matches Some(c) ==> e.code_spec() == c)
            && e.message_spec() == le.message
            && e.source_spec() is None
            && (le.start <= le.end ==> (e.labels_spec().len() == 1 && e.labels_spec()[0].span.start == le.start
                && e.labels_spec()[0].span.end == le.end && e.labels_spec()[0].message@ == le.message)),
        r matches Ok(core) ==> source_core(text@, core),
        no_tokens(lex_from(text.spec_bytes(), 0)) ==> (r matches Ok(core) && core.imports@.len() == 0
            && core.decls@.len() == 0 && core.output is None),
        lone_int(lex_from(text.spec_bytes(), 0)) matches Some(v) ==> (r matches Ok(core) && core.imports@.len() == 0
            && core.decls@.len() == 0 && (core.output matches Some(o) && (o@ matches SpecExpr::Spanned(x, _) && *x == SpecExpr::Int(v)))),
        lone_let_int(lex_from(text.spec_bytes(), 0)) matches Some(nv) ==> (r matches Ok(core) && core.imports@.len() == 0
            && core.output is None && core.decls@.len() == 1 && (core.decls@[0] matches CoreDecl::Let { name, annotation, expr, .. }
            && name@ == nv.0 && annotation is None && (expr@ matches SpecExpr::Spanned(x, _) && *x == SpecExpr::Int(nv.1)))),
        lone_type_decl(lex_from(text.spec_bytes(), 0)) matches Some(nt) ==> (builtin_name(nt.1) ==> (r matches Ok(core)
            && builtin_alias_module(core) && (core.decls@[0] matches CoreDecl::Type { name, .. } && name@ == nt.0))),
        forall|n: nat, o: bool| #[trigger] let_lits_file(lex_from(text.spec_bytes(), 0), n, o) ==> (r matches Ok(core)
            && literal_module(core) && core.decls@.len() == n && (o <==> core.output is Some)
            && (o ==> (core.output matches Some(e)
                && literal_value(e@) == Some(token_value(lex_from(text.spec_bytes(), 0)->Ok_0[5 * n as int].kind))))),
{
    let file = match parse(text) {
        Ok(file) => file,
        Err(d) => {
            return Err(diagnostic_error(d));
        },
    };
    let ghost f = file;
    let mut lowerer = SurfaceToCoreLowerer::new();
    let core = lowerer.lower_file(file);
    proof {
        if exists|n: nat, o: bool| #[trigger] let_lits_file(lex_from(text.spec_bytes(), 0), n, o) {
            let (n, o) = choose|n: nat, o: bool| #[trigger] let_lits_file(lex_from(text.spec_bytes(), 0), n, o);
            let st = lex_from(text.spec_bytes(), 0)->Ok_0;
            assert forall|k: int| 0 <= k < f.decls@.len() implies !(#[trigger] f.decls@[k] is Import) by {
                assert(let_lit_decl(st, 5 * k, f.decls@[k]));
            }
            lemma_no_imports(f.decls@);
            assert(core.imports@.map_values(|i: CoreImport| import_view(i)).len() == core.imports@.len());
            assert forall|k: int| 0 <= k < core.decls@.len() implies (#[trigger] core.decls@[k] matches CoreDecl::Let { annotation, expr, .. }
                && annotation is None && is_literal(expr@)) by {
                assert(let_lit_decl(st, 5 * k, f.decls@[k]));
                assert(non_imports(f.decls@)[k] == f.decls@[k]);
                assert(decl_lowered(non_imports(f.decls@)[k], core.decls@[k]));
                if let Decl::Let { expr, .. } = f.decls@[k] {
                    if let crate::syntax::surface::Expr::Spanned(x, sp) = expr {
                        assert(lower_expr_spec(expr) == SpecExpr::Spanned(Box::new(lower_expr_spec(*x)), sp));
                        if let crate::syntax::surface::Expr::Int(v) = *x {
                            assert(lower_expr_spec(*x) == SpecExpr::Int(v));
                        }
                        if let crate::syntax::surface::Expr::Bool(b) = *x {
                            assert(lower_expr_spec(*x) == SpecExpr::Bool(b));
                        }
                        if let crate::syntax::surface::Expr::String(t) = *x {
                            assert(lower_expr_spec(*x) == SpecExpr::Str(t@));
                        }
                    }
                }
            }
            if let Some(e) = f.output {
                if let crate::syntax::surface::Expr::Spanned(x, sp) = e {
                    assert(lower_expr_spec(e) == SpecExpr::Spanned(Box::new(lower_expr_spec(*x)), sp));
                    if let crate::syntax::surface::Expr::Int(v) = *x {
                        assert(lower_expr_spec(*x) == SpecExpr::Int(v));
                    }
                    if let crate::syntax::surface::Expr::Bool(b) = *x {
                        assert(lower_expr_spec(*x) == SpecExpr::Bool(b));
                    }
                    if let crate::syntax::surface::Expr::String(t) = *x {
                        assert(lower_expr_spec(*x) == SpecExpr::Str(t@));
                    }
                }
            }
        }
    }
    proof {
        if f.decls@.len() == 0 {
            assert(non_imports(f.decls@) =~= Seq::<Decl>::empty());
            assert(imports_of(f.decls@) =~= Seq::<(Seq<char>, Seq<Seq<char>>)>::empty());
            assert(core.imports@.map_values(|i: CoreImport| import_view(i)).len() == core.imports@.len());
        }
        if f.decls@.len() == 1 {
            let d = f.decls@[0];
            if !(d is Import) {
                assert(f.decls@.drop_last() =~= Seq::<Decl>::empty());
                assert(f.decls@.last() == d);
                assert(non_imports(f.decls@.drop_last()) =~= Seq::<Decl>::empty());
                assert(imports_of(f.decls@.drop_last()) =~= Seq::<(Seq<char>, Seq<Seq<char>>)>::empty());
                assert(non_imports(f.decls@) =~= seq![d]);
                assert(imports_of(f.decls@) =~= Seq::<(Seq<char>, Seq<Seq<char>>)>::empty());
                assert(core.imports@.map_values(|i: CoreImport| import_view(i)).len() == core.imports@.len());
                assert(decl_lowered(non_imports(f.decls@)[0], core.decls@[0]));
                if let Decl::Type { ty, .. } = d {
                    if let crate::syntax::surface::Type::Spanned(x, sp) = ty {
                        assert(lower_type_spec(ty) == SpecType::Spanned(Box::new(lower_type_spec(*x)), sp));
                    }
                }
                if let Decl::Let { expr, .. } = d {
                    if let crate::syntax::surface::Expr::Spanned(x, sp) = expr {
                        assert(lower_expr_spec(expr) == SpecExpr::Spanned(Box::new(lower_expr_spec(*x)), sp));
                        if let crate::syntax::surface::Expr::Int(v) = *x {
                            assert(lower_expr_spec(*x) == SpecExpr::Int(v));
                        }
                        if let crate::syntax::surface::Expr::Bool(b) = *x {
                            assert(lower_expr_spec(*x) == SpecExpr::Bool(b));
                        }
                        if let crate::syntax::surface::Expr::String(t) = *x {
                            assert(lower_expr_spec(*x) == SpecExpr::Str(t@));
                        }
                    }
                }
            }
        }
        if let Some(e) = f.output {
            if let crate::syntax::surface::Expr::Spanned(x, sp) = e {
                assert(lower_expr_spec(e) == SpecExpr::Spanned(Box::new(lower_expr_spec(*x)), sp));
                if let crate::syntax::surface::Expr::Int(v) = *x {
                    assert(lower_expr_spec(*x) == SpecExpr::Int(v));
                }
            }
        }
    }
    proof {
        let ts = choose|ts: Seq<Token>| #[trigger] tokens_view(ts) == lex_from(text.spec_bytes(), 0)->Ok_0 && file_at(ts, f);
        assert(file_at(ts, f));
    }
    Ok(core)
}

/// Declarations with no import among them are their own non-imports and
/// import nothing.
proof fn lemma_no_imports(ds: Seq<Decl>)
    requires
        forall|k: int| 0 <= k < ds.len() ==> !(#[trigger] ds[k] is Import),
    ensures
        non_imports(ds) == ds,
        imports_of(ds) == Seq::<(Seq<char>, Seq<Seq<char>>)>::empty(),
    decreases ds.len(),
{
    if ds.len() > 0 {
        assert(!(ds[ds.len() - 1] is Import));
        lemma_no_imports(ds.drop_last());
        assert(ds.drop_last().push(ds.last()) =~= ds);
    }
}

/// The paths of a module's imports, resolved against `base_dir`.
pub fn module_import_paths(core: &CoreModule, base_dir: &str) -> (r: Vec<String>)
    ensures
        r@.len() == core.imports@.len(),
        forall|i: int| 0 <= i < r@.len() ==> #[trigger] r@[i]@ == join_spec(base_dir@, core.imports@[i].path@),
{
    let mut out: Vec<String> = Vec::new();
    let mut i: usize = 0;
    while i < core.imports.len()
        invariant
            i <= core.imports@.len(),
            out@.len() == i,
            forall|j: int| 0 <= j < i ==> #[trigger] out@[j]@ == join_spec(base_dir@, core.imports@[j].path@),
        decreases core.imports.len() - i,
    {
        out.push(join_path(base_dir, core.imports[i].path.as_str()));
        i = i + 1;
    }
    out
}

/// `m` has the values and exports of the module loaded for `path`.
pub open spec fn loaded_for(loader: Loader, path: Seq<char>, m: Module) -> bool {
    match lookup(loader.cache_model(), path) {
        Some(c) => m.exports_model() == c.exports_model() && m.values_model() == c.values_model(),
        None => false,
    }
}

/// The loaded modules for the imports of `core`, in order; an import that
/// is not loaded is refused.
pub fn resolve_imports(core: &CoreModule, base_dir: &str, loader: &Loader) -> (r: Result<Vec<Module>>)
    ensures
        match r {
            Ok(v) => v@.len() == core.imports@.len() && forall|i: int| 0 <= i < v@.len() ==>
                #[trigger] loaded_for(*loader, join_spec(base_dir@, core.imports@[i].path@), v@[i]),
            Err(e) => e.code_spec() == ErrorCode::ModuleMissingImport && exists|i: int| 0 <= i < core.imports@.len()
                && #[trigger] lookup(loader.cache_model(), join_spec(base_dir@, core.imports@[i].path@)) is None,
        },
{
    let mut out: Vec<Module> = Vec::new();
    let mut i: usize = 0;
    while i < core.imports.len()
        invariant
            i <= core.imports@.len(),
            out@.len() == i,
            forall|j: int| 0 <= j < i ==> #[trigger] loaded_for(*loader, join_spec(base_dir@, core.imports@[j].path@), out@[j]),
        decreases core.imports.len() - i,
    {
        let path = join_path(base_dir, core.imports[i].path.as_str());
        match loader.cached(path.as_str()) {
            Some(m) => {
                out.push(m.duplicate());
            },
            None => {
                return Err(Error::with_code(
                    ErrorCode::ModuleMissingImport,
                    concat3("unknown import `", path.as_str(), "`").as_str(),
                ));
            },
        }
        i = i + 1;
    }
    Ok(out)
}

/// Modules with the same values, exports and aliases.
pub open spec fn same_module(a: Module, b: Module) -> bool {
    &&& a.values_model() == b.values_model()
    &&& a.exports_model() == b.exports_model()
    &&& forall|n: Seq<char>| a.type_env().named(n) == b.type_env().named(n)
}

/// What evaluating a lowered module on top of `base` gives: its imports
/// bound from `loaded`, its declarations evaluated and its output bound.
pub open spec fn compiled(base: Module, core: CoreModule, loaded: Seq<Module>, m: Module) -> bool {
    exists|d: Module, m1: Module, m2: Module| #[trigger] same_module(d, base)
        && #[trigger] imports_done(d, import_names(core.imports@), loaded, m1)
        && #[trigger] chain(m1, core.decls@, m2, decl_rel())
        && output_step(m2, output_view(core.output), Ok(()), m)
}

/// `m` is what the source `text`, read in the directory `base_dir`,
/// evaluates to on top of `base`: its tokens derive a file, whose lowering
/// is evaluated with each import bound from the module `loader` holds for
/// its path.
pub open spec fn checked_from(base: Module, loader: Loader, base_dir: Seq<char>, text: Seq<char>, m: Module) -> bool {
    exists|core: CoreModule, loaded: Seq<Module>| #[trigger] compiled(base, core, loaded, m) && source_core(text, core)
        && loaded.len() == core.imports@.len()
        && forall|i: int| 0 <= i < loaded.len() ==> #[trigger] loaded_for(loader, join_spec(base_dir, core.imports@[i].path@), loaded[i])
}

/// The value a literal in its span stands for: an integer, a boolean or a
/// string.
pub open spec fn literal_value(e: SpecExpr) -> Option<SpecValue> {
    match e {
        SpecExpr::Spanned(x, _) => match *x {
            SpecExpr::Int(v) => Some(SpecValue::Int(v)),
            SpecExpr::Bool(b) => Some(SpecValue::Bool(b)),
            SpecExpr::Str(t) => Some(SpecValue::Str(t)),
            _ => None,
        },
        _ => None,
    }
}

/// The value the model of a literal token stands for.
pub open spec fn token_value(k: SpecKind) -> SpecValue {
    match k {
        SpecKind::Int(v) => SpecValue::Int(v),
        SpecKind::Ident(n) => SpecValue::Bool(n == "true"@),
        SpecKind::Str(parts) => SpecValue::Str(plain_text_model(parts)->Some_0),
        _ => SpecValue::OptNone,
    }
}

/// An integer, boolean or string literal in its span.
pub open spec fn is_literal(e: SpecExpr) -> bool {
    literal_value(e) is Some
}

/// A module with no imports whose declarations are `let`s without
/// annotation of literals, and whose output is absent or a literal.
pub open spec fn literal_module(core: CoreModule) -> bool {
    &&& core.imports@.len() == 0
    &&& forall|i: int| 0 <= i < core.decls@.len() ==> (#[trigger] core.decls@[i] matches CoreDecl::Let { annotation, expr, .. }
        && annotation is None && is_literal(expr@))
    &&& match core.output {
        None => true,
        Some(o) => is_literal(o@),
    }
}

/// A literal in its span names no type, elaborates to itself and
/// evaluates to its value in any module.
proof fn lemma_literal_output(m: Module, o: SpecExpr)
    requires
        is_literal(o),
    ensures
        expr_aliases_spec(m.type_env(), o) is None,
        unchecked_spec(o) == Ok::<SpecExpr, ErrorCode>(o),
        eval_spec(o, m.env_model(), DEFAULT_DEPTH as nat) == Ok::<SpecValue, crate::eval::interp::EvalError>(literal_value(o)->Some_0),
{
    if let SpecExpr::Spanned(x, sp) = o {
        assert(expr_aliases_spec(m.type_env(), *x) is None);
        assert(unchecked_spec(*x) == Ok::<SpecExpr, ErrorCode>(*x));
        assert(eval_spec(*x, m.env_model(), (DEFAULT_DEPTH - 1) as nat) == Ok::<SpecValue, crate::eval::interp::EvalError>(literal_value(o)->Some_0));
    }
}

/// A module whose output is a literal binds `$output` to its value.
pub(crate) proof fn lemma_compiled_literal_output(base: Module, core: CoreModule, loaded: Seq<Module>, m: Module, o: SpecExpr)
    requires
        compiled(base, core, loaded, m),
        output_view(core.output) == Some(o),
        is_literal(o),
    ensures
        lookup_name(m.values_model(), "$output"@) == literal_value(o),
{
    let (d, m1, m2) = choose|d: Module, m1: Module, m2: Module| #[trigger] same_module(d, base)
        && #[trigger] imports_done(d, import_names(core.imports@), loaded, m1)
        && #[trigger] chain(m1, core.decls@, m2, decl_rel())
        && output_step(m2, output_view(core.output), Ok(()), m);
    lemma_literal_output(m2, o);
    assert(m.values_model().last() == ("$output"@, literal_value(o)->Some_0));
}

/// Evaluating such a module fails at no step.
proof fn lemma_literal_module_succeeds(d: Module, core: CoreModule, loaded: Seq<Module>, c: ErrorCode)
    requires
        literal_module(core),
    ensures
        !file_fails(d, core, loaded, c),
{
    let names = import_names(core.imports@);
    assert(names.len() == 0);
    assert forall|m2: Module| !#[trigger] output_step(m2, output_view(core.output), Err(c), m2) by {
        if let Some(o) = core.output {
            assert(output_view(core.output) == Some(o@));
            lemma_literal_output(m2, o@);
        }
    }
    if exists|m1: Module| #[trigger] imports_done(d, names, loaded, m1) && chain_fails(m1, core.decls@, c, decl_rel()) {
        let m1 = choose|m1: Module| #[trigger] imports_done(d, names, loaded, m1) && chain_fails(m1, core.decls@, c, decl_rel());
        let (k, mid) = choose|k: int, mid: Module| 0 <= k < core.decls@.len() && #[trigger] chain(m1, core.decls@.take(k), mid, decl_rel())
            && forall|m2: Module| #[trigger] decl_rel()(mid, core.decls@[k], Err(c), m2);
        if let CoreDecl::Let { annotation, expr, .. } = core.decls@[k] {
            lemma_literal_output(mid, expr@);
        }
        assert(decl_rel()(mid, core.decls@[k], Err(c), mid));
    }
    let out = output_view(core.output);
    if exists|m1: Module, m2: Module| #[trigger] imports_done(d, names, loaded, m1)
        && #[trigger] chain(m1, core.decls@, m2, decl_rel())
        && forall|m3: Module| #[trigger] output_step(m2, out, Err(c), m3) {
        let (m1, m2) = choose|m1: Module, m2: Module| #[trigger] imports_done(d, names, loaded, m1)
            && #[trigger] chain(m1, core.decls@, m2, decl_rel())
            && forall|m3: Module| #[trigger] output_step(m2, out, Err(c), m3);
        assert(output_step(m2, out, Err(c), m2));
    }
}

/// The name of a built-in type.
pub open spec fn builtin_name(n: Seq<char>) -> bool {
    n == "Int"@ || n == "Float"@ || n == "Bool"@ || n == "String"@
}

/// A module with no import and no output whose one declaration is a type
/// alias for a built-in type, in its span.
pub open spec fn builtin_alias_module(core: CoreModule) -> bool {
    &&& core.imports@.len() == 0
    &&& core.output is None
    &&& core.decls@.len() == 1
    &&& core.decls@[0] matches CoreDecl::Type { ty, .. } && (ty@ matches SpecType::Spanned(x, _)
        && (*x is Int || *x is Float || *x is Bool || *x is Str))
}

/// Evaluating such a module fails at no step while the alias counter is
/// below its limit.
proof fn lemma_builtin_alias_module_succeeds(d: Module, core: CoreModule, loaded: Seq<Module>, c: ErrorCode)
    requires
        builtin_alias_module(core),
        d.type_env().next_id() < usize::MAX,
    ensures
        !file_fails(d, core, loaded, c),
{
    let names = import_names(core.imports@);
    assert(names.len() == 0);
    assert forall|m1: Module| #[trigger] imports_done(d, names, loaded, m1) implies m1 == d by {
        let states = choose|states: Seq<Module>| {
            &&& states.len() == names.len() + 1
            &&& states[0] == d
            &&& states.last() == m1
            &&& forall|j: int| 0 <= j < names.len() ==> #[trigger] chain(states[j], names[j], states[j + 1], import_rel(loaded[j]))
        };
    }
    if exists|m1: Module| #[trigger] imports_done(d, names, loaded, m1) && chain_fails(m1, core.decls@, c, decl_rel()) {
        let m1 = choose|m1: Module| #[trigger] imports_done(d, names, loaded, m1) && chain_fails(m1, core.decls@, c, decl_rel());
        let (k, mid) = choose|k: int, mid: Module| 0 <= k < core.decls@.len() && #[trigger] chain(m1, core.decls@.take(k), mid, decl_rel())
            && forall|m2: Module| #[trigger] decl_rel()(mid, core.decls@[k], Err(c), m2);
        assert(k == 0);
        let states = choose|states: Seq<Module>| #[trigger] trace(states, core.decls@.take(k), decl_rel()) && states[0] == m1 && states.last() == mid;
        assert(mid == d);
        if let CoreDecl::Type { ty, .. } = core.decls@[0] {
            if let SpecType::Spanned(x, _) = ty@ {
                assert(bound_aliases_spec(mid.type_env(), *x) is None);
            }
        }
        assert(decl_rel()(mid, core.decls@[k], Err(c), mid));
    }
    if exists|m1: Module, m2: Module| #[trigger] imports_done(d, names, loaded, m1)
        && #[trigger] chain(m1, core.decls@, m2, decl_rel())
        && forall|m3: Module| #[trigger] output_step(m2, output_view(core.output), Err(c), m3) {
        let (m1, m2) = choose|m1: Module, m2: Module| #[trigger] imports_done(d, names, loaded, m1)
            && #[trigger] chain(m1, core.decls@, m2, decl_rel())
            && forall|m3: Module| #[trigger] output_step(m2, output_view(core.output), Err(c), m3);
        assert(output_step(m2, output_view(core.output), Err(c), m2));
    }
}

/// Evaluates a lowered module on top of `base`, with its imports bound from
/// the modules loaded for them.
pub fn compile_core(base: &Module, core: CoreModule, loaded: &Vec<Module>) -> (r: Result<Module>)
    requires
        loaded@.len() == core.imports@.len(),
    ensures
        r matches Ok(m) ==> compiled(*base, core, loaded@, m),
        r matches Err(e) ==> exists|d: Module| #[trigger] same_module(d, *base) && file_fails(d, core, loaded@, e.code_spec()),
        literal_module(core) ==> r is Ok,
        builtin_alias_module(core) && base.type_env().next_id() < usize::MAX ==> r is Ok,
{
    let start = base.duplicate();
    let ghost d = start;
    match eval_file(start, core, loaded) {
        Ok(m) => {
            proof {
                let (m1, m2) = choose|m1: Module, m2: Module|
                    #[trigger] imports_done(d, import_names(core.imports@), loaded@, m1)
                        && #[trigger] chain(m1, core.decls@, m2, decl_rel())
                        && output_step(m2, output_view(core.output), Ok(()), m);
                assert(same_module(d, *base));
                assert(imports_done(d, import_names(core.imports@), loaded@, m1));
                assert(chain(m1, core.decls@, m2, decl_rel()));
            }
            Ok(m)
        },
        Err(e) => {
            assert(same_module(d, *base));
            proof {
                if literal_module(core) {
                    lemma_literal_module_succeeds(d, core, loaded@, e.code_spec());
                }
                if builtin_alias_module(core) && base.type_env().next_id() < usize::MAX {
                    lemma_builtin_alias_module_succeeds(d, core, loaded@, e.code_spec());
                }
            }
            Err(e)
        },
    }
}

/// A checked module.
pub struct CheckOutput {
    module: Module,
}

impl CheckOutput {
    pub closed spec fn module_spec(&self) -> Module {
        self.module
    }

    pub fn module(&self) -> (m: &Module)
        ensures
            *m == self.module_spec(),
    {
        &self.module
    }

    pub fn into_module(self) -> (m: Module)
        ensures
            m == self.module_spec(),
    {
        self.module
    }

    /// The output value.
    pub fn output(&self) -> (r: Result<&Value>)
        ensures
            match r {
                Ok(v) => lookup_name(self.module_spec().values_model(), "$output"@) == Some(v@),
                Err(e) => lookup_name(self.module_spec().values_model(), "$output"@) is None && e.code_spec() == ErrorCode::Reconf,
            },
    {
        self.module.output()
    }

    /// The output value, taken out.
    pub fn into_output(self) -> (r: Result<Value>)
        ensures
            match r {
                Ok(v) => lookup_name(self.module_spec().values_model(), "$output"@) == Some(v@),
                Err(e) => lookup_name(self.module_spec().values_model(), "$output"@) is None && e.code_spec() == ErrorCode::Reconf,
            },
    {
        self.module.into_output()
    }

    /// The output as data.
    pub fn data_output(&self) -> (r: Result<DataValue>)
        ensures
            match r {
                Ok(d) => lookup_name(self.module_spec().values_model(), "$output"@) == Some(d@) && !contains_function_spec(d@),
                Err(e) => match lookup_name(self.module_spec().values_model(), "$output"@) {
                    Some(v) => contains_function_spec(v) && e.code_spec() == ErrorCode::OutputFunction,
                    None => e.code_spec() == ErrorCode::Reconf,
                },
            },
    {
        let value = self.module.output()?;
        OutputValidator::new().validate(value)
    }
}

/// An evaluated module with its output, as a value and as data.
pub struct EvalOutput {
    checked: CheckOutput,
    output: Value,
    data_output: DataValue,
}

impl EvalOutput {
    pub closed spec fn checked_spec(&self) -> CheckOutput {
        self.checked
    }

    pub closed spec fn output_spec(&self) -> Value {
        self.output
    }

    pub closed spec fn data_spec(&self) -> DataValue {
        self.data_output
    }

    /// Pairs a checked module with its output; the output must be data.
    pub fn from_checked(checked: CheckOutput) -> (r: Result<EvalOutput>)
        ensures
            match r {
                Ok(out) => out.checked_spec() == checked && lookup_name(checked.module_spec().values_model(), "$output"@)
                    == Some(out.output_spec()@) && out.data_spec()@ == out.output_spec()@ && !contains_function_spec(out.output_spec()@),
                Err(e) => match lookup_name(checked.module_spec().values_model(), "$output"@) {
                    Some(v) => contains_function_spec(v) && e.code_spec() == ErrorCode::OutputFunction,
                    None => e.code_spec() == ErrorCode::Reconf,
                },
            },
    {
        let output = checked.output()?.duplicate();
        let data_output = OutputValidator::new().validate(&output)?;
        Ok(EvalOutput { checked, output, data_output })
    }

    pub fn checked(&self) -> (c: &CheckOutput)
        ensures
            *c == self.checked_spec(),
    {
        &self.checked
    }

    pub fn module(&self) -> (m: &Module)
        ensures
            *m == self.checked_spec().module_spec(),
    {
        self.checked.module()
    }

    pub fn output(&self) -> (v: &Value)
        ensures
            *v == self.output_spec(),
    {
        &self.output
    }

    pub fn data_output(&self) -> (d: &DataValue)
        ensures
            *d == self.data_spec(),
    {
        &self.data_output
    }

    pub fn into_checked(self) -> (c: CheckOutput)
        ensures
            c == self.checked_spec(),
    {
        self.checked
    }

    pub fn into_output(self) -> (v: Value)
        ensures
            v == self.output_spec(),
    {
        self.output
    }

    pub fn into_data_output(self) -> (d: DataValue)
        ensures
            d == self.data_spec(),
    {
        self.data_output
    }
}

/// Checks and evaluates source files on top of the prelude, with imported
/// modules taken from its loader.
pub struct Compiler {
    loader: Loader,
    prelude: Module,
}

impl Compiler {
    pub closed spec fn loader_spec(&self) -> Loader {
        self.loader
    }

    pub closed spec fn prelude_spec(&self) -> Module {
        self.prelude
    }

    /// A compiler with nothing loaded.
    pub fn new() -> (c: Compiler)
        ensures
            c.loader_spec().cached_paths().len() == 0,
            is_prelude(c.prelude_spec()),
    {
        Self::with_sources(Loader::new(), CompilerOptions)
    }

    /// A compiler whose imports come from `loader`.
    pub fn with_sources(loader: Loader, options: CompilerOptions) -> (c: Compiler)
        ensures
            c.loader_spec() == loader,
            is_prelude(c.prelude_spec()),
    {
        Compiler { loader, prelude: PreludeCompiler::new().compile_module() }
    }

    pub fn prelude(&self) -> (m: &Module)
        ensures
            *m == self.prelude_spec(),
    {
        &self.prelude
    }

    pub fn loader(&self) -> (l: &Loader)
        ensures
            *l == self.loader_spec(),
    {
        &self.loader
    }

    pub fn loader_mut(&mut self) -> (l: &mut Loader)
        ensures
            *l == old(self).loader_spec(),
            final(self).loader_spec() == *final(l),
            final(self).prelude_spec() == old(self).prelude_spec(),
    {
        &mut self.loader
    }

    /// The paths of the files the input imports, in order.
    pub fn import_paths(&self, input: &SourceInput) -> (r: Result<Vec<String>>)
        ensures
            lex_from(encode_utf8(input.text_spec()), 0) is Err ==> r is Err,
            r matches Ok(ps) ==> exists|core: CoreModule| ps@.len() == core.imports@.len() && forall|i: int| 0 <= i < ps@.len() ==>
                #[trigger] ps@[i]@ == join_spec(input.base_dir_spec(), core.imports@[i].path@),
            no_tokens(lex_from(encode_utf8(input.text_spec()), 0)) || lone_int(lex_from(encode_utf8(input.text_spec()), 0)) is Some
                ==> (r matches Ok(ps) && ps@.len() == 0),
            forall|n: nat, o: bool| #[trigger] let_lits_file(lex_from(encode_utf8(input.text_spec()), 0), n, o) ==> (r matches Ok(ps) && ps@.len() == 0),
    {
        let core = match frontend(input.text()) {
            Ok(core) => core,
            Err(e) => {
                return Err(DiagnosticSource::new(input.name(), input.text()).attach(e));
            },
        };
        Ok(module_import_paths(&core, input.base_dir()))
    }

    /// Checks the input: parses, lowers and evaluates it on top of the
    /// prelude, with its imports taken from the loader.
    pub fn check(&self, input: SourceInput) -> (r: Result<CheckOutput>)
        ensures
            r matches Ok(out) ==> checked_from(self.prelude_spec(), self.loader_spec(), input.base_dir_spec(), input.text_spec(), out.module_spec()),
            lex_from(encode_utf8(input.text_spec()), 0) is Err ==> r is Err,
            lex_from(encode_utf8(input.text_spec()), 0) matches Err(le) ==> (r matches Err(e)
                && reports_lex_error(e, le, input.name_spec(), input.text_spec())),
            no_tokens(lex_from(encode_utf8(input.text_spec()), 0)) ==> r is Ok,
            lone_let_int(lex_from(encode_utf8(input.text_spec()), 0)) is Some ==> r is Ok,
            lone_type_decl(lex_from(encode_utf8(input.text_spec()), 0)) matches Some(nt) ==> (builtin_name(nt.1)
                && self.prelude_spec().type_env().next_id() < usize::MAX ==> r is Ok),
            forall|n: nat, o: bool| #[trigger] let_lits_file(lex_from(encode_utf8(input.text_spec()), 0), n, o) ==> (r matches Ok(out)
                && (o ==> lookup_name(out.module_spec().values_model(), "$output"@)
                    == Some(token_value(lex_from(encode_utf8(input.text_spec()), 0)->Ok_0[5 * n as int].kind)))),
            lone_int(lex_from(encode_utf8(input.text_spec()), 0)) matches Some(v) ==> (r matches Ok(out)
                && lookup_name(out.module_spec().values_model(), "$output"@) == Some(SpecValue::Int(v))),
    {
        let diagnostics = DiagnosticSource::new(input.name(), input.text());
        let core = match frontend(input.text()) {
            Ok(core) => core,
            Err(e) => {
                return Err(diagnostics.attach(e));
            },
        };
        let loaded = match resolve_imports(&core, input.base_dir(), &self.loader) {
            Ok(loaded) => loaded,
            Err(e) => {
                return Err(diagnostics.attach(e));
            },
        };
        let ghost c = core;
        match compile_core(&self.prelude, core, &loaded) {
            Ok(module) => {
                let out = CheckOutput { module };
                assert(compiled(self.prelude_spec(), c, loaded@, out.module_spec()));
                assert(source_core(input.text_spec(), c));
                proof {
                    if let Some(o) = c.output {
                        if is_literal(o@) {
                            lemma_compiled_literal_output(self.prelude_spec(), c, loaded@, out.module_spec(), o@);
                        }
                    }
                }
                Ok(out)
            },
            Err(e) => Err(diagnostics.attach(e)),
        }
    }

    /// Checks the input and takes its output, which must be data.
    pub fn eval(&self, input: SourceInput) -> (r: Result<EvalOutput>)
        ensures
            lex_from(encode_utf8(input.text_spec()), 0) is Err ==> r is Err,
            lex_from(encode_utf8(input.text_spec()), 0) matches Err(le) ==> (r matches Err(e)
                && reports_lex_error(e, le, input.name_spec(), input.text_spec())),
            r matches Ok(out) ==> checked_from(self.prelude_spec(), self.loader_spec(), input.base_dir_spec(), input.text_spec(), out.checked_spec().module_spec())
                && lookup_name(out.checked_spec().module_spec().values_model(), "$output"@) == Some(out.output_spec()@)
                && out.data_spec()@ == out.output_spec()@,
            lone_int(lex_from(encode_utf8(input.text_spec()), 0)) matches Some(v) ==> (r matches Ok(out)
                && out.output_spec()@ == SpecValue::Int(v)),
            forall|n: nat| #[trigger] let_lits_file(lex_from(encode_utf8(input.text_spec()), 0), n, true) ==> (r matches Ok(out)
                && out.output_spec()@ == token_value(lex_from(encode_utf8(input.text_spec()), 0)->Ok_0[5 * n as int].kind)),
    {
        let checked = match self.check(input) {
            Ok(checked) => checked,
            Err(e) => {
                return Err(e);
            },
        };
        EvalOutput::from_checked(checked)
    }
}

} // verus!
