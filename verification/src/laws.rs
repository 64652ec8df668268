//! Properties of the language as a whole, stated over the models the
//! functions' contracts use, and proved.

use vstd::prelude::*;

use crate::compiler::join_spec;
use crate::compiler::path::{lemma_dot_segment, scan};
use crate::core_lang::ast::{CoreDecl, CoreExpr, ElaboratedDecl, ElaboratedExpr, ElaboratedModule, SpecExpr, SpecType};
use crate::core_lang::types::{lemma_budget_shrinks, name_budget, CoreTypeContext, CoreTypeEnv};
use crate::error::ErrorCode;
use crate::eval::interp::{apply_spec, call_two_spec, eval_spec, filter_spec, DEFAULT_DEPTH};
use crate::eval::value::{lookup_name, SpecEnv, SpecValue};
use crate::fields::lookup;
use crate::refine::validate::predicate_env;
use crate::repl::highlighter::{
    ascii_chars, ident_end, ident_start, lemma_ident_end, piece_runs, spans_from, spec_max, spec_min,
    StyledRun,
};
use crate::resolve::modules::{decl_step as module_decl_step, import_step, latest, Module, SpecExport};
use crate::typeck::bidir::{check_value_fields_spec, check_value_spec};
use crate::typeck::elaborate::CodeResult;
use crate::typeck::module::{decl_step, elab_trace, module_elaborated, resolved_with};
use crate::typeck::scope::ValueTypeScope;
use crate::typeck::unify::{expand_fields_spec, expand_spec};

verus! {

/// A record field the type declares optional and the value leaves out is
/// `none` in the checked record.
pub proof fn law_omitted_optional_field_is_none(
    vs: Seq<(Seq<char>, SpecValue)>,
    fields: Seq<(Seq<char>, SpecType)>,
    env: SpecEnv,
    out: Seq<(Seq<char>, SpecValue)>,
    i: int,
)
    requires
        check_value_fields_spec(vs, fields, env) == Ok::<Seq<(Seq<char>, SpecValue)>, ErrorCode>(out),
        0 <= i < fields.len(),
        lookup(vs, fields[i].0) is None,
        fields[i].1 is Option,
    ensures
        out.len() == fields.len(),
        out[i] == (fields[i].0, SpecValue::OptNone),
    decreases fields.len(),
{
    let rest_fields = fields.drop_first();
    let head = match lookup(vs, fields[0].0) {
        Some(x) => check_value_spec(x, fields[0].1, env),
        None => if fields[0].1 is Option {
            Ok(SpecValue::OptNone)
        } else {
            Err(ErrorCode::RecordMissingField)
        },
    };
    match head {
        Ok(h) => match check_value_fields_spec(vs, rest_fields, env) {
            Ok(rest) => {
                assert(out == seq![(fields[0].0, h)] + rest);
                if i == 0 {
                    assert(out[0] == (fields[0].0, SpecValue::OptNone));
                    lemma_fields_len(vs, rest_fields, env, rest);
                } else {
                    assert(rest_fields[i - 1] == fields[i]);
                    law_omitted_optional_field_is_none(vs, rest_fields, env, rest, i - 1);
                    assert(out[i] == rest[i - 1]);
                }
            },
            Err(_) => {},
        },
        Err(_) => {},
    }
}

proof fn lemma_fields_len(vs: Seq<(Seq<char>, SpecValue)>, fields: Seq<(Seq<char>, SpecType)>, env: SpecEnv, out: Seq<(Seq<char>, SpecValue)>)
    requires
        check_value_fields_spec(vs, fields, env) == Ok::<Seq<(Seq<char>, SpecValue)>, ErrorCode>(out),
    ensures
        out.len() == fields.len(),
    decreases fields.len(),
{
    if fields.len() > 0 {
        let head = match lookup(vs, fields[0].0) {
            Some(x) => check_value_spec(x, fields[0].1, env),
            None => if fields[0].1 is Option {
                Ok(SpecValue::OptNone)
            } else {
                Err(ErrorCode::RecordMissingField)
            },
        };
        match head {
            Ok(h) => match check_value_fields_spec(vs, fields.drop_first(), env) {
                Ok(rest) => {
                    lemma_fields_len(vs, fields.drop_first(), env, rest);
                },
                Err(_) => {},
            },
            Err(_) => {},
        }
    }
}

/// A value that is not an option, checked against an option type, is
/// checked against the inner type and wrapped in `some`.
pub proof fn law_implicit_some(v: SpecValue, inner: SpecType, env: SpecEnv)
    requires
        !(v is OptNone),
        !(v is OptSome),
    ensures
        check_value_spec(v, SpecType::Option(Box::new(inner)), env) == match check_value_spec(v, inner, env) {
            Ok(w) => Ok::<SpecValue, ErrorCode>(SpecValue::OptSome(Box::new(w))),
            Err(c) => Err(c),
        },
{
}

/// A value that passes a refinement satisfies its predicate: evaluated with
/// the binder bound to the checked value, the predicate gives `true`.
pub proof fn law_refinement_holds(v: SpecValue, binder: Seq<char>, base: SpecType, pred: SpecExpr, env: SpecEnv, w: SpecValue)
    requires
        check_value_spec(v, SpecType::Refinement { binder, base: Box::new(base), pred: Box::new(pred) }, env)
            == Ok::<SpecValue, ErrorCode>(w),
    ensures
        check_value_spec(v, base, env) == Ok::<SpecValue, ErrorCode>(w),
        eval_spec(pred, predicate_env(env, Some(binder), w), DEFAULT_DEPTH as nat) == Ok::<SpecValue, crate::eval::interp::EvalError>(SpecValue::Bool(true)),
{
}

/// Evaluating a declaration is deterministic: the same module and
/// declaration give the same outcome, and on success modules with the same
/// values, aliases and exports.
pub proof fn law_decl_deterministic(m: Module, d: CoreDecl, r1: CodeResult<()>, m1: Module, r2: CodeResult<()>, m2: Module)
    requires
        module_decl_step(m, d, r1, m1),
        module_decl_step(m, d, r2, m2),
    ensures
        r1 == r2,
        r1 is Ok ==> m1.values_model() == m2.values_model() && m1.exports_model() == m2.exports_model()
            && forall|n: Seq<char>| m1.type_env().named(n) == m2.type_env().named(n),
{
}

/// An exported value, once imported, is what the importing module binds
/// the name to.
pub proof fn law_import_binds_export(m: Module, imported: Module, name: Seq<char>, m2: Module, v: SpecValue)
    requires
        import_step(m, imported, name, Ok(()), m2),
        latest(imported.exports_model(), name) == Some(SpecExport::Value(v)),
    ensures
        lookup_name(m2.values_model(), name) == Some(v),
{
}

/// A name the module binds already cannot be imported.
pub proof fn law_import_refuses_duplicates(m: Module, imported: Module, name: Seq<char>, r: CodeResult<()>, m2: Module)
    requires
        import_step(m, imported, name, r, m2),
        lookup_name(m.values_model(), name) is Some,
    ensures
        r == Err::<(), ErrorCode>(ErrorCode::NameDuplicateImport),
{
}

/// A type with no alias and no span left in it.
pub open spec fn alias_free(t: SpecType) -> bool
    decreases t, 0nat,
{
    match t {
        SpecType::Spanned(_, _) => false,
        SpecType::Alias(_) => false,
        SpecType::ResolvedAlias(_) => false,
        SpecType::Option(inner) => alias_free(*inner),
        SpecType::List(inner) => alias_free(*inner),
        SpecType::Record(fields) => fields_alias_free(fields),
        SpecType::Refinement { base, .. } => alias_free(*base),
        SpecType::Function(a, b) => alias_free(*a) && alias_free(*b),
        _ => true,
    }
}

pub open spec fn fields_alias_free(fields: Seq<(Seq<char>, SpecType)>) -> bool
    decreases fields, 0nat,
{
    fields.len() == 0 || (alias_free(fields[0].1) && fields_alias_free(fields.drop_first()))
}

proof fn lemma_expand_alias_free(env: CoreTypeEnv, t: SpecType, stack: Seq<Seq<char>>)
    ensures
        expand_spec(env, t, stack) matches Ok(u) ==> alias_free(u),
    decreases name_budget(env.alias_names(), stack), t, 1nat,
{
    match t {
        SpecType::Spanned(inner, _) => lemma_expand_alias_free(env, *inner, stack),
        SpecType::Alias(name) => {
            if !stack.contains(name) {
                if let Some(body) = env.named(name) {
                    env.lemma_alias_names(name);
                    lemma_budget_shrinks(env.alias_names(), stack, name);
                    lemma_expand_alias_free(env, body, stack.push(name));
                }
            }
        },
        SpecType::Option(inner) => lemma_expand_alias_free(env, *inner, stack),
        SpecType::List(inner) => lemma_expand_alias_free(env, *inner, stack),
        SpecType::Record(fields) => lemma_expand_fields_alias_free(env, fields, stack),
        SpecType::Refinement { base, .. } => lemma_expand_alias_free(env, *base, stack),
        SpecType::Function(a, b) => {
            lemma_expand_alias_free(env, *a, stack);
            lemma_expand_alias_free(env, *b, stack);
        },
        _ => {},
    }
}

proof fn lemma_expand_fields_alias_free(env: CoreTypeEnv, fields: Seq<(Seq<char>, SpecType)>, stack: Seq<Seq<char>>)
    ensures
        expand_fields_spec(env, fields, stack) matches Ok(fs) ==> fields_alias_free(fs),
    decreases name_budget(env.alias_names(), stack), fields, 1nat,
{
    if fields.len() > 0 {
        lemma_expand_alias_free(env, fields[0].1, stack);
        lemma_expand_fields_alias_free(env, fields.drop_first(), stack);
        if let Ok(t) = expand_spec(env, fields[0].1, stack) {
            if let Ok(rest) = expand_fields_spec(env, fields.drop_first(), stack) {
                let fs = seq![(fields[0].0, t)] + rest;
                assert(fs[0].1 == t);
                assert(fs.drop_first() =~= rest);
            }
        }
    }
}

proof fn lemma_alias_free_expands_to_itself(env: CoreTypeEnv, t: SpecType, stack: Seq<Seq<char>>)
    requires
        alias_free(t),
    ensures
        expand_spec(env, t, stack) == Ok::<SpecType, ErrorCode>(t),
    decreases t, 1nat,
{
    match t {
        SpecType::Option(inner) => lemma_alias_free_expands_to_itself(env, *inner, stack),
        SpecType::List(inner) => lemma_alias_free_expands_to_itself(env, *inner, stack),
        SpecType::Record(fields) => lemma_alias_free_fields_expand(env, fields, stack),
        SpecType::Refinement { base, .. } => lemma_alias_free_expands_to_itself(env, *base, stack),
        SpecType::Function(a, b) => {
            lemma_alias_free_expands_to_itself(env, *a, stack);
            lemma_alias_free_expands_to_itself(env, *b, stack);
        },
        _ => {},
    }
}

proof fn lemma_alias_free_fields_expand(env: CoreTypeEnv, fields: Seq<(Seq<char>, SpecType)>, stack: Seq<Seq<char>>)
    requires
        fields_alias_free(fields),
    ensures
        expand_fields_spec(env, fields, stack) == Ok::<Seq<(Seq<char>, SpecType)>, ErrorCode>(fields),
    decreases fields, 1nat,
{
    if fields.len() > 0 {
        lemma_alias_free_expands_to_itself(env, fields[0].1, stack);
        lemma_alias_free_fields_expand(env, fields.drop_first(), stack);
        assert(seq![(fields[0].0, fields[0].1)] + fields.drop_first() =~= fields);
    } else {
        assert(fields =~= Seq::<(Seq<char>, SpecType)>::empty());
    }
}

/// Expanding the aliases of a type twice gives what expanding once gives:
/// the expansion holds no alias, and checking a value against its parts
/// needs no further expansion.
pub proof fn law_expansion_idempotent(env: CoreTypeEnv, t: SpecType, u: SpecType, stack: Seq<Seq<char>>)
    requires
        expand_spec(env, t, Seq::empty()) == Ok::<SpecType, ErrorCode>(u),
    ensures
        alias_free(u),
        expand_spec(env, u, stack) == Ok::<SpecType, ErrorCode>(u),
{
    lemma_expand_alias_free(env, t, Seq::empty());
    lemma_alias_free_expands_to_itself(env, u, stack);
}

/// Spans in order, none empty, each ending before the next starts.
pub open spec fn sorted_disjoint(spans: Seq<(usize, usize)>) -> bool {
    &&& forall|k: int| 0 <= k < spans.len() ==> spans[k].0 < spans[k].1
    &&& forall|j: int, k: int| 0 <= j < k < spans.len() ==> spans[j].1 <= spans[k].0
}

/// Runs that cover the bytes `from..to` in order, none empty, with no gap
/// and no overlap.
pub open spec fn tiles(runs: Seq<StyledRun>, from: int, to: int) -> bool
    decreases runs.len(),
{
    if runs.len() == 0 {
        from == to
    } else {
        runs[0].start == from && runs[0].start < runs[0].end && tiles(runs.drop_first(), runs[0].end as int, to)
    }
}

proof fn lemma_tiles_concat(a: Seq<StyledRun>, b: Seq<StyledRun>, x: int, y: int, z: int)
    requires
        tiles(a, x, y),
        tiles(b, y, z),
    ensures
        tiles(a + b, x, z),
    decreases a.len(),
{
    if a.len() == 0 {
        assert(a + b =~= b);
    } else {
        assert((a + b).drop_first() =~= a.drop_first() + b);
        lemma_tiles_concat(a.drop_first(), b, a[0].end as int, y, z);
    }
}

proof fn lemma_single_tile(r: StyledRun, x: int, y: int)
    requires
        r.start == x,
        r.end == y,
        x < y,
    ensures
        tiles(seq![r], x, y),
{
    assert(seq![r].drop_first() =~= Seq::<StyledRun>::empty());
    assert(tiles(Seq::<StyledRun>::empty(), y, y));
}

proof fn lemma_piece_runs_tile(p: nat, ps: int, pe: int, spans: Seq<(usize, usize)>, k: nat, cursor: int)
    requires
        0 <= ps <= cursor <= pe <= usize::MAX,
        ps < pe,
        p <= usize::MAX,
        sorted_disjoint(spans),
        forall|j: int| k <= j < spans.len() && (spans[j].1 as int) > ps && (spans[j].0 as int) < pe
            ==> spec_max(spans[j].0 as int, ps) >= cursor,
    ensures
        tiles(piece_runs(p, ps, pe, spans, k, cursor), cursor - ps, pe - ps),
    decreases spans.len() - k,
{
    if k >= spans.len() {
        if cursor < pe {
            lemma_single_tile(
                StyledRun { piece: p as usize, start: (cursor - ps) as usize, end: (pe - ps) as usize, semantic: false },
                cursor - ps,
                pe - ps,
            );
        }
    } else {
        let ss = spans[k as int].0 as int;
        let se = spans[k as int].1 as int;
        if se <= ps || ss >= pe {
            lemma_piece_runs_tile(p, ps, pe, spans, k + 1, cursor);
        } else {
            let start = spec_max(ss, ps);
            let end = spec_min(se, pe);
            assert(spans[k as int].0 < spans[k as int].1);
            assert(start < end);
            assert forall|j: int| k + 1 <= j < spans.len() && (spans[j].1 as int) > ps && (spans[j].0 as int) < pe
                implies spec_max(spans[j].0 as int, ps) >= end by {
                assert(spans[k as int].1 <= spans[j].0);
            }
            lemma_piece_runs_tile(p, ps, pe, spans, k + 1, end);
            let before = if cursor < start {
                seq![StyledRun { piece: p as usize, start: (cursor - ps) as usize, end: (start - ps) as usize, semantic: false }]
            } else {
                Seq::<StyledRun>::empty()
            };
            let mid = seq![StyledRun { piece: p as usize, start: (start - ps) as usize, end: (end - ps) as usize, semantic: true }];
            let rest = piece_runs(p, ps, pe, spans, k + 1, end);
            if cursor < start {
                lemma_single_tile(before[0], cursor - ps, start - ps);
                assert(before =~= seq![before[0]]);
            }
            lemma_single_tile(mid[0], start - ps, end - ps);
            assert(mid =~= seq![mid[0]]);
            lemma_tiles_concat(mid, rest, start - ps, end - ps, pe - ps);
            lemma_tiles_concat(before, mid + rest, cursor - ps, start - ps, pe - ps);
            assert(before + mid + rest =~= before + (mid + rest));
        }
    }
}

/// With type-name spans in order and apart, the runs that a non-empty
/// highlighted piece is cut into cover the whole piece, in order, each byte
/// once.
pub proof fn law_runs_tile_piece(p: nat, ps: int, pe: int, spans: Seq<(usize, usize)>)
    requires
        0 <= ps < pe <= usize::MAX,
        p <= usize::MAX,
        sorted_disjoint(spans),
    ensures
        tiles(piece_runs(p, ps, pe, spans, 0, ps), 0, pe - ps),
{
    lemma_piece_runs_tile(p, ps, pe, spans, 0, ps);
}

proof fn lemma_spans_from_sorted(s: Seq<u8>, i: nat, in_string: bool, escaped: bool, names: Seq<Seq<char>>)
    requires
        s.len() <= usize::MAX,
    ensures
        sorted_disjoint(spans_from(s, i, in_string, escaped, names)),
        forall|k: int| 0 <= k < spans_from(s, i, in_string, escaped, names).len()
            ==> i <= #[trigger] spans_from(s, i, in_string, escaped, names)[k].0 <= s.len(),
    decreases s.len() - i,
{
    let r = spans_from(s, i, in_string, escaped, names);
    if i >= s.len() {
    } else if in_string {
        if escaped {
            lemma_spans_from_sorted(s, i + 1, true, false, names);
        } else if s[i as int] == 92 {
            lemma_spans_from_sorted(s, i + 1, true, true, names);
        } else if s[i as int] == 34 {
            lemma_spans_from_sorted(s, i + 1, false, false, names);
        } else {
            lemma_spans_from_sorted(s, i + 1, true, false, names);
        }
    } else if s[i as int] == 35 {
    } else if s[i as int] == 34 {
        lemma_spans_from_sorted(s, i + 1, true, false, names);
    } else if ident_start(s[i as int]) {
        let e = ident_end(s, i + 1);
        lemma_ident_end(s, i + 1);
        lemma_spans_from_sorted(s, e, false, false, names);
        let rest = spans_from(s, e, false, false, names);
        if names.contains(ascii_chars(s.subrange(i as int, e as int))) {
            assert(r == seq![(i as usize, e as usize)] + rest);
            assert forall|k: int| 0 <= k < r.len() implies i <= #[trigger] r[k].0 <= s.len() by {
                if k > 0 {
                    assert(r[k] == rest[k - 1]);
                }
            }
            assert forall|k: int| 0 <= k < r.len() implies r[k].0 < r[k].1 by {
                if k > 0 {
                    assert(r[k] == rest[k - 1]);
                }
            }
            assert forall|j: int, k: int| 0 <= j < k < r.len() implies r[j].1 <= r[k].0 by {
                assert(r[k] == rest[k - 1]);
                if j > 0 {
                    assert(r[j] == rest[j - 1]);
                }
            }
        }
    } else {
        lemma_spans_from_sorted(s, i + 1, false, false, names);
    }
}

/// The type-name spans that the highlighter finds in a line are in order,
/// none empty, each ending before the next starts: they cut each piece of
/// the line into runs that cover it (see `law_runs_tile_piece`).
pub proof fn law_semantic_spans_sorted(line: Seq<u8>, names: Seq<Seq<char>>)
    requires
        line.len() <= usize::MAX,
    ensures
        sorted_disjoint(spans_from(line, 0, false, false, names)),
{
    lemma_spans_from_sorted(line, 0, false, false, names);
}

/// An import spelled with a leading `./` names the same module as the
/// same relative path without it: both resolve to one normal path, so a
/// file that imports itself that way is found in the loader as itself.
pub proof fn law_dot_import_same_module(base: Seq<char>, rel: Seq<char>)
    requires
        !(rel.len() > 0 && rel[0] == '/'),
    ensures
        join_spec(base, seq!['.', '/'] + rel) == join_spec(base, rel),
{
    let d = seq!['.', '/'];
    if base.len() == 0 {
        assert(Seq::<char>::empty() + d + rel =~= d + rel);
        assert(Seq::<char>::empty() + rel =~= rel);
        lemma_dot_segment(Seq::empty(), rel, false);
    } else {
        let x = if base.last() == '/' { base } else { base + seq!['/'] };
        assert(x.len() > 0 && x.last() == '/');
        assert(x.drop_last() + seq![x.last()] =~= x);
        assert(scan(x, base[0] == '/').1.len() == 0);
        assert(x[0] == base[0]);
        lemma_dot_segment(x, rel, base[0] == '/');
        if base.last() == '/' {
            assert(base + (d + rel) =~= x + d + rel);
        } else {
            assert(base + seq!['/'] + (d + rel) =~= x + d + rel);
        }
        assert((x + d + rel)[0] == base[0]);
        assert((x + rel)[0] == base[0]);
    }
}

/// The function gives a boolean for the item.
pub open spec fn judges(f: SpecValue, x: SpecValue, fuel: nat) -> bool {
    apply_spec(f, x, fuel) matches Ok(SpecValue::Bool(_))
}

/// The function accepts the item.
pub open spec fn accepts(f: SpecValue, fuel: nat) -> spec_fn(SpecValue) -> bool {
    |x: SpecValue| apply_spec(f, x, fuel) == Ok::<SpecValue, crate::eval::interp::EvalError>(SpecValue::Bool(true))
}

/// `filter` keeps exactly the items its function accepts, in their order,
/// duplicates included, when the function gives a boolean for every item;
/// when it fails or gives something else for some item, `filter` fails.
pub proof fn law_filter_keeps_accepted(xs: Seq<SpecValue>, f: SpecValue, fuel: nat)
    ensures
        (forall|i: int| 0 <= i < xs.len() ==> #[trigger] judges(f, xs[i], fuel))
            ==> filter_spec(xs, f, fuel) == Ok::<Seq<SpecValue>, crate::eval::interp::EvalError>(xs.filter(accepts(f, fuel))),
        (exists|i: int| 0 <= i < xs.len() && !#[trigger] judges(f, xs[i], fuel)) ==> filter_spec(xs, f, fuel) is Err,
        (forall|i: int| 0 <= i < xs.len() ==> #[trigger] judges(f, xs[i], fuel))
            ==> call_two_spec("filter"@, SpecValue::List(xs), f, fuel)
                == Ok::<SpecValue, crate::eval::interp::EvalError>(SpecValue::List(xs.filter(accepts(f, fuel)))),
    decreases xs.len(),
{
    reveal_strlit("filter");
    reveal_strlit("unwrapOr");
    reveal_strlit("contains");
    reveal_strlit("startsWith");
    reveal_strlit("endsWith");
    reveal_strlit("map");
    assert("filter"@[0] != "unwrapOr"@[0] && "filter"@[0] != "contains"@[0] && "filter"@[0] != "startsWith"@[0]
        && "filter"@[0] != "endsWith"@[0] && "filter"@[0] != "map"@[0]);
    if xs.len() == 0 {
        reveal(Seq::filter);
        assert(xs =~= Seq::<SpecValue>::empty());
        assert(xs.filter(accepts(f, fuel)) =~= Seq::<SpecValue>::empty());
    } else {
        let rest = xs.drop_first();
        law_filter_keeps_accepted(rest, f, fuel);
        if forall|i: int| 0 <= i < xs.len() ==> #[trigger] judges(f, xs[i], fuel) {
            assert forall|i: int| 0 <= i < rest.len() implies #[trigger] judges(f, rest[i], fuel) by {
                assert(rest[i] == xs[i + 1]);
                assert(judges(f, xs[i + 1], fuel));
            }
            assert(judges(f, xs[0], fuel));
            let p = accepts(f, fuel);
            let one = seq![xs[0]];
            assert(xs =~= one + rest);
            Seq::filter_distributes_over_add(one, rest, p);
            reveal(Seq::filter);
            assert(one.drop_last() =~= Seq::<SpecValue>::empty());
            assert(one.drop_last().filter(p) =~= Seq::<SpecValue>::empty());
            assert(one.last() == xs[0]);
            if p(xs[0]) {
                assert(one.filter(p) =~= one);
                assert(xs.filter(p) =~= one + rest.filter(p));
            } else {
                assert(one.filter(p) =~= Seq::<SpecValue>::empty());
                assert(xs.filter(p) =~= rest.filter(p));
            }
            assert(filter_spec(rest, f, fuel) == Ok::<Seq<SpecValue>, crate::eval::interp::EvalError>(rest.filter(p)));
            assert(rest == xs.drop_first());
            assert(filter_spec(xs, f, fuel) == Ok::<Seq<SpecValue>, crate::eval::interp::EvalError>(xs.filter(p)));
            assert(call_two_spec("filter"@, SpecValue::List(xs), f, fuel)
                == Ok::<SpecValue, crate::eval::interp::EvalError>(SpecValue::List(xs.filter(p))));
        }
        if exists|i: int| 0 <= i < xs.len() && !#[trigger] judges(f, xs[i], fuel) {
            let i = choose|i: int| 0 <= i < xs.len() && !#[trigger] judges(f, xs[i], fuel);
            if i > 0 {
                assert(rest[i - 1] == xs[i]);
                assert(!judges(f, rest[i - 1], fuel));
            }
        }
    }
}

/// The elaborated declaration has the kind, name and export flag of the
/// declaration; a type or native keeps its type, and an annotated `let` is
/// checked at its annotation.
pub open spec fn keeps_decl(d: CoreDecl, e: ElaboratedDecl) -> bool {
    match d {
        CoreDecl::Native { export, name, ty } => e matches ElaboratedDecl::Native { export: e2, name: n2, ty: t2, .. }
            && e2 == export && n2 == name && t2 == ty,
        CoreDecl::Type { export, name, ty } => e matches ElaboratedDecl::Type { export: e2, name: n2, ty: t2, .. }
            && e2 == export && n2 == name && t2 == ty,
        CoreDecl::Let { export, name, annotation, .. } => e matches ElaboratedDecl::Let { export: e2, name: n2, expr: ElaboratedExpr::Checked(t), .. }
            && e2 == export && n2 == name && (annotation matches Some(a) ==> t.ty@ == a@),
    }
}

/// Elaborating a module keeps its declarations one for one, in order, each
/// of the same kind, name and export flag, and gives an output exactly when
/// the module has one.
pub proof fn law_elaboration_keeps_declarations<C: CoreTypeContext>(
    decls: Seq<CoreDecl>,
    start: usize,
    output: Option<CoreExpr>,
    base: C,
    local: CoreTypeEnv,
    scope: ValueTypeScope,
    m: ElaboratedModule,
    local2: CoreTypeEnv,
    scope2: ValueTypeScope,
)
    requires
        module_elaborated(Seq::new(decls.len(), |i: int| resolved_with(decls[i], (start + i) as usize)), output, base, local, scope,
            Ok(m), local2, scope2),
    ensures
        m.decls@.len() == decls.len(),
        forall|i: int| 0 <= i < decls.len() ==> keeps_decl(decls[i], #[trigger] m.decls@[i]),
        m.output is Some <==> output is Some,
{
    let rs = Seq::new(decls.len(), |i: int| resolved_with(decls[i], (start + i) as usize));
    let (ls, ss) = choose|ls: Seq<CoreTypeEnv>, ss: Seq<ValueTypeScope>| #[trigger] elab_trace(rs, base, ls, ss, m.decls@)
        && ls[0] == local && ss[0] == scope && ls.last() == local2 && ss.last() == scope2;
    assert forall|i: int| 0 <= i < decls.len() implies keeps_decl(decls[i], #[trigger] m.decls@[i]) by {
        assert(rs[i] == resolved_with(decls[i], (start + i) as usize));
        assert(decl_step(rs[i], Ok::<ElaboratedDecl, crate::error::Error>(m.decls@[i]), base, ls[i], ss[i], ls[i + 1], ss[i + 1]));
    }
}

} // verus!
