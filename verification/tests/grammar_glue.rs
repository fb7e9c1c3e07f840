use prism_compiler::coc::{PartialExpr, TcEnv, UnionIndex};
use prism_compiler::desugar::{Guid, ParseEnv, SourceExpr};
use prism_compiler::lang::error::{PrismError, TypeError};
use prism_compiler::lang::{CorePrismExpr, FileStart, GrammarId, PrismEnv, Span, ValueOrigin};
use prism_compiler::parser::parse_expr::{ArgScope, ParsedArg};
use prism_compiler::parser::{ParsedIndex, ParsedPrismExpr, ParsedValue};

fn sp(n: usize) -> Span {
    Span { file: 2, start: n, end: n + 3 }
}

#[test]
fn constructors_build_parsed_expressions() {
    let mut env = PrismEnv::new();
    let t = ParsedIndex::from_construct(sp(0), "Type", vec![], &mut env).unwrap();
    assert!(matches!(env.parsed_values[t.0], ParsedPrismExpr::Type));
    let x = ParsedIndex::from_construct(sp(1), "Name", vec![ParsedArg::Name("x".to_string())], &mut env).unwrap();
    assert!(matches!(&env.parsed_values[x.0], ParsedPrismExpr::Name(n) if n == "x"));
    let w = ParsedIndex::from_construct(sp(2), "Name", vec![ParsedArg::Name("_".to_string())], &mut env).unwrap();
    assert!(matches!(env.parsed_values[w.0], ParsedPrismExpr::Free));
    let l = ParsedIndex::from_construct(
        sp(3),
        "Let",
        vec![ParsedArg::Name("x".to_string()), ParsedArg::Expr(t), ParsedArg::Expr(x)],
        &mut env,
    )
    .unwrap();
    assert!(matches!(&env.parsed_values[l.0], ParsedPrismExpr::Let(n, v, b) if n == "x" && *v == t && *b == x));
    assert_eq!(env.parsed_spans[l.0], sp(3));
    let g = ParsedIndex::from_construct(sp(4), "GrammarValue", vec![ParsedArg::Grammar(GrammarId(1))], &mut env).unwrap();
    assert!(matches!(env.parsed_values[g.0], ParsedPrismExpr::GrammarValue(GrammarId(1))));
    let s = ParsedIndex::from_construct(
        sp(5),
        "EnvCapture",
        vec![
            ParsedArg::EnvCapture { value: x, adapt_env_len: 2, grammar: GrammarId(1) },
            ParsedArg::Captured(vec![("y".to_string(), ParsedValue::Expr(t))]),
        ],
        &mut env,
    )
    .unwrap();
    assert!(matches!(&env.parsed_values[s.0], ParsedPrismExpr::ShiftTo { adapt_env_len: 2, captured_env, .. } if captured_env.len() == 1));
    // Unknown constructors and wrong arguments build nothing
    let before = env.parsed_values.len();
    assert!(ParsedIndex::from_construct(sp(6), "Nope", vec![], &mut env).is_none());
    assert!(ParsedIndex::from_construct(sp(6), "Type", vec![ParsedArg::Expr(t)], &mut env).is_none());
    assert!(ParsedIndex::from_construct(sp(6), "FnDestruct", vec![ParsedArg::Expr(t), ParsedArg::Name("a".to_string())], &mut env).is_none());
    assert_eq!(env.parsed_values.len(), before);
}

#[test]
fn constructor_argument_scopes() {
    assert_eq!(
        ParsedIndex::create_eval_ctx("Let", 3).unwrap(),
        vec![ArgScope::NoScope, ArgScope::Parent, ArgScope::ParentWithBinding]
    );
    assert_eq!(ParsedIndex::create_eval_ctx("FnDestruct", 2).unwrap(), vec![ArgScope::Parent, ArgScope::Parent]);
    assert_eq!(ParsedIndex::create_eval_ctx("Type", 0).unwrap(), vec![]);
    assert!(ParsedIndex::create_eval_ctx("Let", 2).is_none());
    assert!(ParsedIndex::create_eval_ctx("Other", 0).is_none());
}

#[test]
fn parser_scope_becomes_named_and_core_scopes() {
    let mut env = PrismEnv::new();
    let t = env.store_from_source(ParsedPrismExpr::Type, sp(0));
    let entries = vec![(Some("a".to_string()), Some(t)), (None, None), (Some("b".to_string()), None)];
    let (named, db) = env.eval_ctx_to_envs(&entries);
    assert_eq!(named.len(), 3);
    assert_eq!(db.len(), 3);
    assert!(matches!(named.resolve_name_use("a"), Some(prism_compiler::parser::named_env::NamesEntry::FromEnv(0))));
    assert!(named.resolve_name_use("b").is_none());
    assert!(matches!(db.index(2), prism_compiler::lang::env::EnvEntry::RSubst(..)));
    assert!(matches!(db.index(0), prism_compiler::lang::env::EnvEntry::RType(..)));
}

#[test]
fn grammar_expression_evaluates_to_its_grammar() {
    let mut env = PrismEnv::new();
    let g = env.store_from_source(ParsedPrismExpr::GrammarValue(GrammarId(9)), sp(0));
    assert_eq!(env.eval_to_grammar(g, &vec![]), Some(GrammarId(9)));
    let t = env.store_from_source(ParsedPrismExpr::Type, sp(1));
    assert_eq!(env.eval_to_grammar(t, &vec![]), None);
}

#[test]
fn files_are_processed_once_and_cycles_are_found() {
    let mut env = PrismEnv::new();
    assert_eq!(env.begin_file(4), FileStart::Parse);
    assert_eq!(env.begin_file(4), FileStart::ImportCycle);
    let p = env.store_from_source(ParsedPrismExpr::Type, sp(0));
    let done = env.finish_file(4, p);
    assert_eq!(done.parsed, p);
    assert!(matches!(env.checked_values[done.typ.0], CorePrismExpr::Type));
    assert_eq!(env.begin_file(4), FileStart::Cached(done));
    env.forget_file(4);
    assert_eq!(env.begin_file(4), FileStart::Parse);
    env.errors.push(PrismError::ParseError(sp(1)));
    env.tc_id = 5;
    env.reset();
    assert!(env.errors.is_empty());
    assert_eq!(env.tc_id, 0);
}

#[test]
fn source_arena_becomes_partial_expressions() {
    let mut pe = ParseEnv::new();
    let t = pe.store(SourceExpr::Type, sp(0));
    let x = pe.store(SourceExpr::Variable("x".to_string()), sp(1));
    let y = pe.store(SourceExpr::Variable("y".to_string()), sp(2));
    let app = pe.store(SourceExpr::FnDestruct(x, y), sp(3));
    let f = pe.store(SourceExpr::FnConstruct("x".to_string(), t, app), sp(4));
    let d = pe.store(SourceExpr::ScopeDefine(f, Guid(1)), sp(5));
    let mut tc = TcEnv::new();
    tc.values.push(PartialExpr::Type);
    tc.value_origins.push(ValueOrigin::Failure);
    let r = tc.insert_parse_env(&pe, d);
    assert_eq!(r, UnionIndex(6));
    assert_eq!(tc.values.len(), 7);
    assert_eq!(tc.values[1], PartialExpr::Type);
    assert_eq!(tc.values[2], PartialExpr::Var(0));
    assert_eq!(tc.values[3], PartialExpr::Free);
    assert_eq!(tc.values[4], PartialExpr::FnDestruct(UnionIndex(2), UnionIndex(3)));
    assert_eq!(tc.values[5], PartialExpr::FnConstruct(UnionIndex(1), UnionIndex(4)));
    assert_eq!(tc.values[6], PartialExpr::Shift(UnionIndex(5), 0));
    assert_eq!(tc.value_origins[3], ValueOrigin::SourceCode(sp(2)));
    assert_eq!(tc.errors, vec![TypeError::UnknownName(sp(2))]);
}

#[test]
fn values_are_labelled_by_their_place_in_the_source() {
    let mut env = PrismEnv::new();
    let a = env.store_checked(CorePrismExpr::Type, ValueOrigin::SourceCode(sp(7)));
    let b = env.store_checked(CorePrismExpr::Type, ValueOrigin::TypeOf(a));
    let c = env.store_checked(CorePrismExpr::Free, ValueOrigin::FreeSub(b));
    let d = env.store_checked(CorePrismExpr::Free, ValueOrigin::Failure);
    assert_eq!(env.label_value(a), Some((sp(7), "this value")));
    assert_eq!(env.label_value(c), Some((sp(7), "type of this value")));
    assert_eq!(env.label_value(d), None);
    let r = env.report(&TypeError::RecursionLimit(c, a)).unwrap();
    assert_eq!(r.message, "Constraint hit recursion limit");
    assert_eq!(r.labels[0].message, "Left side of constraint from type of this value: {4}");
    assert_eq!(r.labels[1].message, "Right side of constraint from type of this value: Type");
    assert!(env.report(&TypeError::BadInfer { free_var: a, inferred_var: b }).is_none());
}

#[test]
fn scope_jumps_bring_back_the_names_of_the_marked_scope() {
    // let a = Type; [define 7] (let b = Type; [enter 7] a)
    let mut pe = ParseEnv::new();
    let ta = pe.store(SourceExpr::Type, sp(0));
    let tb = pe.store(SourceExpr::Type, sp(1));
    let a = pe.store(SourceExpr::Variable("a".to_string()), sp(2));
    let b = pe.store(SourceExpr::Variable("b".to_string()), sp(3));
    let enter = pe.store(SourceExpr::ScopeEnter(a, Guid(7)), sp(4));
    let inner = pe.store(SourceExpr::Let("b".to_string(), tb, enter), sp(5));
    let define = pe.store(SourceExpr::ScopeDefine(inner, Guid(7)), sp(6));
    let outer = pe.store(SourceExpr::Let("a".to_string(), ta, define), sp(7));
    let mut tc = TcEnv::new();
    let r = tc.insert_parse_env(&pe, outer);
    assert_eq!(r, UnionIndex(7));
    // `a` is bound one level out, past `b`
    assert_eq!(tc.values[a.index()], PartialExpr::Var(1));
    // `b` is not below its binder, so it stays unknown
    assert_eq!(tc.values[b.index()], PartialExpr::Free);
    assert_eq!(tc.errors, vec![TypeError::UnknownName(sp(3))]);
    assert_eq!(tc.values[enter.index()], PartialExpr::Shift(UnionIndex(2), 0));
}
