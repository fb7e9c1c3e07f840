use prism_compiler::coc::display::PrecedenceLevel as CocLevel;
use prism_compiler::coc::{PartialExpr, UnionIndex};
use prism_compiler::desugar::{Guid, ParseEnv, SourceExpr};
use prism_compiler::lang::display::PrecedenceLevel;
use prism_compiler::lang::{CorePrismExpr, GrammarId, Span};
use prism_compiler::named::parse_error::{CharacterClass, Expect, PEGParseError};
use prism_compiler::named::span::{Input, Span as TextSpan};
use prism_compiler::parser::named_env::{NamedEnv, NamesEntry, NamesEnv};
use prism_compiler::parser::parse_env::{ParsedEnv, ParsedEnvNodeValue};
use prism_compiler::parser::{ParsedIndex, ParsedValue};
use std::collections::HashMap;

fn sp(n: usize) -> Span {
    Span { file: 1, start: n, end: n + 2 }
}

#[test]
fn source_expressions_display_with_names() {
    let mut env = ParseEnv::new();
    let t = env.store(SourceExpr::Type, sp(0));
    let x = env.store(SourceExpr::Variable("x".to_string()), sp(1));
    let f = env.store(SourceExpr::FnType("x".to_string(), t, x), sp(2));
    assert_eq!(env.index_to_string(f), "(x: Type) -> #x");
    let app = env.store(SourceExpr::FnDestruct(f, x), sp(3));
    assert_eq!(env.index_to_string(app), "((x: Type) -> #x) #x");
    let l = env.store(SourceExpr::Let("y".to_string(), t, app), sp(4));
    assert_eq!(env.index_to_string(l), "let y = Type;\n((x: Type) -> #x) #x");
    let d = env.store(SourceExpr::ScopeDefine(x, Guid(12)), sp(5));
    assert_eq!(env.index_to_string(d), "([DEFINE 12] #x)");
    let e = env.store(SourceExpr::ScopeEnter(t, Guid(3)), sp(6));
    assert_eq!(env.index_to_string(e), "([ENTER 3] Type)");
    let q = env.store(SourceExpr::ScopeExit(t), sp(7));
    assert_eq!(env.index_to_string(q), "([EXIT] Type)");
    let c = env.store(SourceExpr::FnConstruct("z".to_string(), t, x), sp(8));
    assert_eq!(env.index_to_string(c), "(z: Type) => #x");
    assert_eq!(env.values().len(), 9);
    assert_eq!(env.value_spans()[2], sp(2));
    assert_eq!(f.index(), 2);
    assert_eq!(SourceExpr::Type.precendence_level(), PrecedenceLevel::Base);
    assert_eq!(env.values()[8].precendence_level(), PrecedenceLevel::Construct);
}

#[test]
fn parsed_env_finds_latest_binding() {
    let e = ParsedEnv::new_empty();
    assert!(e.get("a").is_none());
    let e = e.bind("a".to_string(), ParsedEnvNodeValue::Type);
    let e = e.bind(
        "b".to_string(),
        ParsedEnvNodeValue::Substitute { subst: UnionIndex(4), subst_env: ParsedEnv::new_empty() },
    );
    let e = e.bind("c".to_string(), ParsedEnvNodeValue::Type);
    match e.get("a") {
        Some((2, ParsedEnvNodeValue::Type)) => {}
        _ => panic!("a should be two bindings back"),
    }
    match e.get("b") {
        Some((1, ParsedEnvNodeValue::Substitute { subst, .. })) => assert_eq!(*subst, UnionIndex(4)),
        _ => panic!("b should be one binding back"),
    }
    assert!(e.get("d").is_none());
}

#[test]
fn named_env_binds_and_restores_names() {
    let env = NamedEnv::new();
    assert!(env.is_empty());
    let env = env.insert_name("x");
    let env = env.insert_name("y");
    assert_eq!(env.len(), 2);
    assert!(matches!(env.resolve_name_use("x"), Some(NamesEntry::FromEnv(0))));
    assert!(matches!(env.resolve_name_use("y"), Some(NamesEntry::FromEnv(1))));
    assert!(env.resolve_name_use("z").is_none());
    let shadow = env.insert_name_at("x", 7);
    assert!(matches!(shadow.resolve_name_use("x"), Some(NamesEntry::FromEnv(7))));

    // A grammar that captured `q` as the name `x` gives the variable bound under `q` the name `x`
    let captured = NamesEnv::new().insert(
        "q".to_string(),
        NamesEntry::FromParsed(ParsedValue::Name("x".to_string()), NamesEnv::new()),
    );
    let inner = NamedEnv { env_len: 2, names: captured, hygienic_names: Vec::new() };
    let inner = inner.insert_name("q");
    assert_eq!(inner.hygienic_names.len(), 1);
    let mut labels: HashMap<usize, NamesEnv> = HashMap::new();
    env.insert_shift_label(GrammarId(5), &mut labels);
    assert_eq!(labels[&5].len(), 2);
    let back = inner.shift_back(&labels[&5]);
    assert_eq!(back.len(), 3);
    assert!(matches!(back.resolve_name_use("x"), Some(NamesEntry::FromEnv(2))));
    assert!(matches!(back.resolve_name_use("y"), Some(NamesEntry::FromEnv(1))));
    let _ = ParsedIndex(0);
}

#[test]
fn precedence_levels_of_partial_and_core_expressions() {
    assert_eq!(PartialExpr::Type.precendence_level(), CocLevel::Base);
    assert_eq!(PartialExpr::Let(UnionIndex(0), UnionIndex(1)).precendence_level(), CocLevel::Let);
    assert_eq!(PartialExpr::FnType(UnionIndex(0), UnionIndex(1)).precendence_level(), CocLevel::Construct);
    assert_eq!(PartialExpr::FnDestruct(UnionIndex(0), UnionIndex(1)).precendence_level(), CocLevel::Destruct);
    assert_eq!(CorePrismExpr::TypeAssert(prism_compiler::lang::CoreIndex(0), prism_compiler::lang::CoreIndex(0)).precedence_level(), PrecedenceLevel::TypeAssert);
    assert!(PrecedenceLevel::Let.rank() < PrecedenceLevel::Base.rank());
}

#[test]
fn expectations_display_as_the_grammar_writes_them() {
    let cc = CharacterClass { ranges: vec![('a', 'z'), ('_', '_')] };
    assert_eq!(cc.to_display_string(), "['a'-'z' | '_']");
    assert_eq!(Expect::ExpectCharClass(cc).to_display_string(), "['a'-'z' | '_']");
    assert_eq!(Expect::ExpectString("let".to_string()).to_display_string(), "'let'");
    assert_eq!(Expect::ExpectSort("expr".to_string()).to_display_string(), "expr");
    assert_eq!(Expect::NotEntireInput().to_display_string(), "more input");
}

#[test]
fn parse_errors_keep_the_furthest() {
    let input = Input { path: "f.pr", text: "let x = y" };
    let near = PEGParseError::expect(TextSpan::from_length(input, 1, 1), Expect::NotEntireInput());
    let far = PEGParseError::expect(TextSpan::from_length(input, 4, 2), Expect::ExpectSort("e".to_string()));
    let r = near.clone().combine(far.clone());
    assert_eq!(r.span.position, 4);
    assert_eq!(r.expected, vec![Expect::ExpectSort("e".to_string())]);
    let same = PEGParseError::fail_left_recursion(TextSpan::from_length(input, 4, 3));
    let merged = far.clone().combine(same);
    assert_eq!(merged.span.position, 4);
    assert_eq!(merged.span.length, 3);
    assert!(merged.fail_left_rec);
    assert_eq!(merged.expected.len(), 1);
    assert!(PEGParseError::combine_option_parse_error(None, None).is_none());
    let one = PEGParseError::combine_option_parse_error(Some(near), None).unwrap();
    assert_eq!(one.span.position, 1);
    let lp = PEGParseError::fail_loop(TextSpan::from_length(input, 0, 0));
    assert!(lp.fail_loop);
}

#[test]
fn spans_measure_and_merge() {
    let input = Input { path: "f.pr", text: "let x = y" };
    let a = TextSpan::from_length(input, 4, 1);
    let b = TextSpan::from_end(input, 8, 9);
    assert_eq!(a.end(), 5);
    assert_eq!(a.as_str(), "x");
    assert_eq!(b.as_str(), "y");
    let m = a.merge(&b);
    assert_eq!(m.position, 4);
    assert_eq!(m.length, 5);
    assert_eq!(m.as_str(), "x = y");
    let m2 = b.merge(&a);
    assert_eq!((m2.position, m2.length), (m.position, m.length));
    assert_eq!(input.file_path(), "f.pr");
    assert_eq!(input.full_input(), "let x = y");
}
