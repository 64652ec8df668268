//! What the REPL answers to one complete input: declarations (an input
//! ending in `;`) are checked and kept, and answered with `0`; an
//! expression is evaluated after them and answered with its value.

use vstd::prelude::*;
use vstd::string::StringSliceAdditionalSpecFns;

use crate::compiler::session::{decls_view, imports_view, session_compiled, CompilerSession, SpecDecl};
use crate::compiler::{builtin_name, reports_lex_error, source_core};
use crate::core_lang::ast::CoreModule;
use crate::emit::reconf::{reconf_spec, ReconfEmitter};
use crate::error::Result;
use crate::eval::value::{lookup_name, SpecValue};
use crate::resolve::modules::{contains_function_spec, output_view, Module};
use crate::repl::semantic::SemanticState;
use crate::syntax::parser::parse;
use crate::syntax::lexer::{lex_from, tokens_view, SpecLexError, SpecToken, Token};
use crate::syntax::surface::{Decl, FileAst, Type};
use crate::repl::semantic::{decl_names, decls_names, file_names, type_names};
use crate::syntax::grammar::{file_at, let_lits_file, lone_int, lone_let_int, lone_type_decl, no_tokens};

verus! {

/// Whether the input is declarations: it ends in `;`.
pub open spec fn is_declarations(src: Seq<u8>) -> bool {
    src.len() > 0 && src.last() == 59
}

/// The module's output is data, and `s` is its ReConf text.
pub open spec fn answers(m: Module, s: Seq<char>) -> bool {
    match lookup_name(m.values_model(), "$output"@) {
        Some(v) => !contains_function_spec(v) && s == reconf_spec(v),
        None => false,
    }
}

/// `s` answers the input `src`: it is the output of what the input's
/// lowering evaluates to on top of the prelude, after the imports and
/// declarations kept so far.
pub open spec fn repl_answered(prelude: Module, imports: Seq<(Seq<char>, Seq<Seq<char>>)>, kept: Seq<SpecDecl>, src: Seq<char>, s: Seq<char>) -> bool {
    exists|m: Module, core: CoreModule| #[trigger] answers(m, s) && #[trigger] source_core(src, core)
        && session_compiled(prelude, imports + imports_view(core.imports@), kept + decls_view(core.decls@),
            output_view(core.output), m)
}

/// The source's tokens are `ts` and derive the file `f`.
pub open spec fn parsed_as(src: Seq<u8>, ts: Seq<SpecToken>, f: FileAst) -> bool {
    lex_from(src, 0) == Ok::<Seq<SpecToken>, SpecLexError>(ts) && exists|tokens: Seq<Token>| #[trigger] tokens_view(tokens) == ts && file_at(tokens, f)
}

/// The names a type written as the name `n` mentions: none for a built-in
/// type, the name itself for an alias.
pub open spec fn mentioned_type(n: Seq<char>) -> Seq<Seq<char>> {
    if n == "Int"@ || n == "Float"@ || n == "Bool"@ || n == "String"@ {
        Seq::empty()
    } else {
        seq![n]
    }
}

/// Evaluates REPL inputs in a session and learns the type names they use.
pub struct ReplEvaluator {
    session: CompilerSession,
    semantics: SemanticState,
}

impl ReplEvaluator {
    pub closed spec fn session_spec(&self) -> CompilerSession {
        self.session
    }

    pub closed spec fn semantics_spec(&self) -> SemanticState {
        self.semantics
    }

    /// An evaluator with nothing declared, named `repl`, whose imports are
    /// resolved against the current directory.
    pub fn new(semantics: SemanticState) -> (e: ReplEvaluator)
        ensures
            e.session_spec().decls_spec().len() == 0,
            e.session_spec().imports_spec().len() == 0,
            crate::compiler::prelude::is_prelude(e.session_spec().prelude_spec()),
            e.semantics_spec() == semantics,
    {
        ReplEvaluator { session: CompilerSession::new("repl", "."), semantics }
    }

    /// The type names known so far.
    pub fn semantics(&self) -> (s: &SemanticState)
        ensures
            *s == self.semantics_spec(),
    {
        &self.semantics
    }

    /// The session, so that the caller can load the files inputs import.
    pub fn session_mut(&mut self) -> (s: &mut CompilerSession)
        ensures
            *s == old(self).session_spec(),
            final(self).session_spec() == *final(s),
            final(self).semantics_spec() == old(self).semantics_spec(),
    {
        &mut self.session
    }

    /// Answers one input.
    pub fn eval(&mut self, src: &str) -> (r: Result<String>)
        ensures
            lex_from(src.spec_bytes(), 0) is Err ==> r is Err,
            lex_from(src.spec_bytes(), 0) matches Err(le) ==> (r matches Err(e)
                && reports_lex_error(e, le, old(self).session_spec().name_spec(), src@)),
            r matches Err(e) ==> (e.labels_spec().len() > 0 ==> e.source_spec() is Some),
            is_declarations(src.spec_bytes()) ==> match r {
                Ok(s) => {
                    &&& s@ == "0"@
                    &&& old(self).session_spec().decls_spec().is_prefix_of(final(self).session_spec().decls_spec())
                    &&& old(self).session_spec().imports_spec().is_prefix_of(final(self).session_spec().imports_spec())
                    &&& exists|core: CoreModule| #[trigger] source_core(src@, core)
                        && final(self).session_spec().imports_spec() == old(self).session_spec().imports_spec() + imports_view(core.imports@)
                        && final(self).session_spec().decls_spec() == old(self).session_spec().decls_spec() + decls_view(core.decls@)
                },
                Err(_) => final(self).session_spec().decls_spec() == old(self).session_spec().decls_spec()
                    && final(self).session_spec().imports_spec() == old(self).session_spec().imports_spec(),
            },
            !is_declarations(src.spec_bytes()) ==> {
                &&& final(self).session_spec().decls_spec() == old(self).session_spec().decls_spec()
                &&& final(self).session_spec().imports_spec() == old(self).session_spec().imports_spec()
                &&& r matches Ok(s) ==> repl_answered(old(self).session_spec().prelude_spec(), old(self).session_spec().imports_spec(),
                    old(self).session_spec().decls_spec(), src@, s@)
            },
            old(self).semantics_spec().names_spec().is_prefix_of(final(self).semantics_spec().names_spec()),
            old(self).session_spec().imports_spec().len() == 0 && old(self).session_spec().decls_spec().len() == 0 && is_declarations(src.spec_bytes())
                && (no_tokens(lex_from(src.spec_bytes(), 0)) || lone_int(lex_from(src.spec_bytes(), 0)) is Some || lone_let_int(lex_from(src.spec_bytes(), 0)) is Some) ==> r is Ok,
            old(self).session_spec().imports_spec().len() == 0 && old(self).session_spec().decls_spec().len() == 0 && !is_declarations(src.spec_bytes())
                ==> (lone_int(lex_from(src.spec_bytes(), 0)) matches Some(v) ==> (r matches Ok(s) && s@ == reconf_spec(SpecValue::Int(v)))),
            lone_type_decl(lex_from(src.spec_bytes(), 0)) matches Some(nt) ==> (builtin_name(nt.1) && is_declarations(src.spec_bytes())
                && old(self).session_spec().imports_spec().len() == 0 && old(self).session_spec().decls_spec().len() == 0
                && old(self).session_spec().prelude_spec().type_env().next_id() < usize::MAX ==> r is Ok),
            forall|n: nat, o: bool| #[trigger] let_lits_file(lex_from(src.spec_bytes(), 0), n, o)
                ==> (old(self).session_spec().imports_spec().len() == 0 && old(self).session_spec().decls_spec().len() == 0
                    && (is_declarations(src.spec_bytes()) || o) ==> r is Ok),
            forall|n: nat| #[trigger] let_lits_file(lex_from(src.spec_bytes(), 0), n, true)
                ==> (old(self).session_spec().imports_spec().len() == 0 && old(self).session_spec().decls_spec().len() == 0
                    && !is_declarations(src.spec_bytes()) ==> (r matches Ok(s)
                    && s@ == reconf_spec(crate::compiler::token_value(lex_from(src.spec_bytes(), 0)->Ok_0[5 * n as int].kind)))),
    {
        let bytes = src.as_bytes();
        let declarations = bytes.len() > 0 && bytes[bytes.len() - 1] == 59;
        assert(declarations == is_declarations(src.spec_bytes()));
        if declarations {
            self.eval_declarations(src)
        } else {
            self.eval_expression(src)
        }
    }

    fn eval_declarations(&mut self, src: &str) -> (r: Result<String>)
        ensures
            lex_from(src.spec_bytes(), 0) is Err ==> r is Err,
            lex_from(src.spec_bytes(), 0) matches Err(le) ==> (r matches Err(e)
                && reports_lex_error(e, le, old(self).session_spec().name_spec(), src@)),
            r matches Err(e) ==> (e.labels_spec().len() > 0 ==> e.source_spec() is Some),
            lone_type_decl(lex_from(src.spec_bytes(), 0)) matches Some(nt) ==> (builtin_name(nt.1)
                && old(self).session_spec().imports_spec().len() == 0 && old(self).session_spec().decls_spec().len() == 0
                && old(self).session_spec().prelude_spec().type_env().next_id() < usize::MAX ==> r is Ok),
            forall|n: nat, o: bool| #[trigger] let_lits_file(lex_from(src.spec_bytes(), 0), n, o)
                ==> (old(self).session_spec().imports_spec().len() == 0 && old(self).session_spec().decls_spec().len() == 0 ==> r is Ok),
            match r {
                Ok(s) => {
                    &&& s@ == "0"@
                    &&& old(self).session_spec().decls_spec().is_prefix_of(final(self).session_spec().decls_spec())
                    &&& old(self).session_spec().imports_spec().is_prefix_of(final(self).session_spec().imports_spec())
                    &&& exists|core: CoreModule| #[trigger] source_core(src@, core)
                        && final(self).session_spec().imports_spec() == old(self).session_spec().imports_spec() + imports_view(core.imports@)
                        && final(self).session_spec().decls_spec() == old(self).session_spec().decls_spec() + decls_view(core.decls@)
                },
                Err(_) => final(self).session_spec().decls_spec() == old(self).session_spec().decls_spec()
                    && final(self).session_spec().imports_spec() == old(self).session_spec().imports_spec(),
            },
            old(self).semantics_spec().names_spec().is_prefix_of(final(self).semantics_spec().names_spec()),
            old(self).session_spec().imports_spec().len() == 0 && old(self).session_spec().decls_spec().len() == 0 && (no_tokens(lex_from(src.spec_bytes(), 0)) || lone_int(lex_from(src.spec_bytes(), 0)) is Some || lone_let_int(lex_from(src.spec_bytes(), 0)) is Some) ==> r is Ok,
    {
        let _checked = match self.session.check_declarations(src) {
            Ok(checked) => checked,
            Err(e) => {
                return Err(e);
            },
        };
        self.learn(src);
        proof {
            reveal_strlit("0");
        }
        Ok("0".to_owned())
    }

    fn eval_expression(&mut self, src: &str) -> (r: Result<String>)
        ensures
            lex_from(src.spec_bytes(), 0) is Err ==> r is Err,
            lex_from(src.spec_bytes(), 0) matches Err(le) ==> (r matches Err(e)
                && reports_lex_error(e, le, old(self).session_spec().name_spec(), src@)),
            r matches Err(e) ==> (e.labels_spec().len() > 0 ==> e.source_spec() is Some),
            forall|n: nat| #[trigger] let_lits_file(lex_from(src.spec_bytes(), 0), n, true)
                ==> (old(self).session_spec().imports_spec().len() == 0 && old(self).session_spec().decls_spec().len() == 0 ==> (r matches Ok(s)
                    && s@ == reconf_spec(crate::compiler::token_value(lex_from(src.spec_bytes(), 0)->Ok_0[5 * n as int].kind)))),
            final(self).session_spec().decls_spec() == old(self).session_spec().decls_spec(),
            final(self).session_spec().imports_spec() == old(self).session_spec().imports_spec(),
            r matches Ok(s) ==> repl_answered(old(self).session_spec().prelude_spec(), old(self).session_spec().imports_spec(),
                old(self).session_spec().decls_spec(), src@, s@),
            old(self).semantics_spec().names_spec().is_prefix_of(final(self).semantics_spec().names_spec()),
            old(self).session_spec().imports_spec().len() == 0 && old(self).session_spec().decls_spec().len() == 0 ==> (lone_int(lex_from(src.spec_bytes(), 0)) matches Some(v) ==> (r matches Ok(s) && s@ == reconf_spec(SpecValue::Int(v)))),
    {
        let ghost prelude = self.session.prelude_spec();
        let ghost imports = self.session.imports_spec();
        let ghost kept = self.session.decls_spec();
        let compiled = match self.session.eval_expression(src) {
            Ok(compiled) => compiled,
            Err(e) => {
                return Err(e);
            },
        };
        let text = ReconfEmitter::new().emit(compiled.data_output());
        let ghost m = compiled.checked_spec().module_spec();
        assert(answers(m, text@));
        self.learn(src);
        proof {
            let core = choose|core: CoreModule| #[trigger] source_core(src@, core)
                && session_compiled(prelude, imports + imports_view(core.imports@), kept + decls_view(core.decls@),
                    output_view(core.output), m);
            assert(answers(m, text@) && source_core(src@, core));
        }
        Ok(text)
    }

    /// Learns the type names of the input, when it parses: the names it
    /// declares and mentions in its declarations.
    fn learn(&mut self, src: &str)
        ensures
            old(self).semantics_spec().names_spec().is_prefix_of(final(self).semantics_spec().names_spec()),
            final(self).session_spec() == old(self).session_spec(),
            final(self).semantics_spec().names_spec() == old(self).semantics_spec().names_spec()
                || exists|ts: Seq<SpecToken>, f: FileAst| #[trigger] parsed_as(src.spec_bytes(), ts, f)
                    && final(self).semantics_spec().names_spec() == old(self).semantics_spec().names_spec() + file_names(f),
            lone_type_decl(lex_from(src.spec_bytes(), 0)) matches Some(nt) ==> final(self).semantics_spec().names_spec()
                == old(self).semantics_spec().names_spec().push(nt.0) + mentioned_type(nt.1),
    {
        match parse(src) {
            Ok(file) => {
                let ghost before = self.semantics.names_spec();
                self.semantics.learn_file(&file);
                assert(self.semantics.names_spec().take(before.len() as int) =~= before);
                proof {
                    let tokens = choose|ts: Seq<Token>| #[trigger] tokens_view(ts) == lex_from(src.spec_bytes(), 0)->Ok_0
                        && file_at(ts, file);
                    assert(parsed_as(src.spec_bytes(), tokens_view(tokens), file));
                    if let Some(nt) = lone_type_decl(lex_from(src.spec_bytes(), 0)) {
                        let d = file.decls@[0];
                        assert(file.decls@.drop_first() =~= Seq::<Decl>::empty());
                        assert(decls_names(file.decls@) == decl_names(d) + decls_names(file.decls@.drop_first()));
                        if let Decl::Type { name, ty, .. } = d {
                            if let Type::Spanned(x, _) = ty {
                                assert(type_names(ty) == type_names(*x));
                                assert(type_names(ty) =~= mentioned_type(nt.1));
                            }
                            assert(file_names(file) =~= seq![nt.0] + mentioned_type(nt.1));
                        }
                    }
                }
            },
            Err(_) => {
                assert(self.semantics.names_spec().take(self.semantics.names_spec().len() as int) =~= self.semantics.names_spec());
            },
        }
    }
}

} // verus!
