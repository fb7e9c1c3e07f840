use prism_compiler::coc::{PartialExpr, TcEnv, UnionIndex};
use prism_compiler::desugar::from_action_result::ActionResult;
use prism_compiler::desugar::{Guid, ParseEnv, SourceExpr};
use prism_compiler::lang::Span;
use prism_compiler::parser::parse_env::{ParsedEnv, ParsedEnvArg, ParsedEnvNodeValue};
use prism_compiler::text::parse_usize;

fn sp(n: usize) -> Span {
    Span { file: 3, start: n, end: n + 1 }
}

fn cons(n: usize, c: &str, args: Vec<ActionResult>) -> ActionResult {
    ActionResult::Construct(sp(n), c.to_string(), args)
}

fn val(n: usize, t: &str) -> ActionResult {
    ActionResult::Value(sp(n), t.to_string())
}

#[test]
fn numbers_are_read_as_usize_parsing_reads_them() {
    assert_eq!(parse_usize("0"), Some(0));
    assert_eq!(parse_usize("42"), Some(42));
    assert_eq!(parse_usize("+7"), Some(7));
    assert_eq!(parse_usize("18446744073709551615"), "18446744073709551615".parse::<usize>().ok());
    assert_eq!(parse_usize("99999999999999999999999"), None);
    assert_eq!(parse_usize(""), None);
    assert_eq!(parse_usize("+"), None);
    assert_eq!(parse_usize("4a"), None);
    assert_eq!(parse_usize("-1"), None);
}

#[test]
fn core_actions_become_partial_expressions() {
    let mut tc = TcEnv::new();
    let e = cons(0, "FnType", vec![cons(1, "Type", vec![]), cons(2, "Var", vec![val(3, "0")])]);
    let r = tc.insert_from_action_result(&e, 0).unwrap();
    assert_eq!(r, UnionIndex(2));
    assert_eq!(tc.values, vec![PartialExpr::Type, PartialExpr::Var(0), PartialExpr::FnType(UnionIndex(0), UnionIndex(1))]);
    assert!(tc.insert_from_action_result(&cons(4, "Var", vec![val(5, "x")]), 0).is_none());
    assert!(tc.insert_from_action_result(&val(6, "y"), 0).is_none());
    let f = tc.insert_from_action_result(&cons(7, "Free", vec![]), 0).unwrap();
    assert_eq!(tc.values[f.0], PartialExpr::Free);
}

#[test]
fn source_actions_become_source_expressions() {
    let mut pe = ParseEnv::new();
    let e = cons(0, "Let", vec![val(1, "x"), cons(2, "Type", vec![]), val(3, "x")]);
    let r = pe.insert_from_action_result(&e, &vec![], 0).unwrap();
    assert_eq!(pe.index_to_string(r), "let x = Type;\n#x");
    // A name bound by a grammar stands for what it is bound to, leaving its scope
    let bound = cons(4, "Type", vec![]);
    let vars: Vec<(&str, &ActionResult)> = vec![("t", &bound)];
    let v = pe.insert_from_action_result(&val(5, "t"), &vars, 0).unwrap();
    assert_eq!(pe.index_to_string(v), "([EXIT] Type)");
    let scoped = ActionResult::WithEnv(vec![("u".to_string(), cons(6, "Type", vec![]))], Box::new(val(7, "u")));
    let w = pe.insert_from_action_result(&scoped, &vec![], 0).unwrap();
    assert_eq!(pe.index_to_string(w), "([EXIT] Type)");
    let d = cons(8, "ScopeDefine", vec![cons(9, "Type", vec![]), ActionResult::Guid(4)]);
    let di = pe.insert_from_action_result(&d, &vec![], 0).unwrap();
    assert!(matches!(pe.values()[di.index()], SourceExpr::ScopeDefine(_, Guid(4))));
    assert!(pe.insert_from_action_result(&cons(10, "Nope", vec![]), &vec![], 0).is_none());
    assert!(pe.insert_from_action_result(&ActionResult::Guid(1), &vec![], 0).is_none());
}

#[test]
fn parser_scopes_are_built_from_constructors() {
    let nil = ParsedEnv::from_construct("Nil", vec![]).unwrap();
    let t = ParsedEnv::from_construct("Type", vec![ParsedEnvArg::Name("a".to_string()), ParsedEnvArg::Env(nil)]).unwrap();
    let s = ParsedEnv::from_construct(
        "Substitute",
        vec![
            ParsedEnvArg::Name("b".to_string()),
            ParsedEnvArg::Index(UnionIndex(3)),
            ParsedEnvArg::Env(ParsedEnv::new_empty()),
            ParsedEnvArg::Env(t),
        ],
    )
    .unwrap();
    assert!(matches!(s.get("a"), Some((1, ParsedEnvNodeValue::Type))));
    assert!(matches!(s.get("b"), Some((0, ParsedEnvNodeValue::Substitute { subst: UnionIndex(3), .. }))));
    assert!(ParsedEnv::from_construct("Type", vec![]).is_none());
    assert!(ParsedEnv::from_construct("Other", vec![]).is_none());
}

#[test]
fn names_bound_by_a_grammar_are_followed_for_binders() {
    let mut pe = ParseEnv::new();
    // `n` is bound to the name `x`, which is what the binder binds
    let name = val(0, "x");
    let vars: Vec<(&str, &ActionResult)> = vec![("n", &name)];
    let e = cons(1, "FnConstruct", vec![val(2, "n"), cons(3, "Type", vec![]), val(4, "y")]);
    let r = pe.insert_from_action_result(&e, &vars, 0).unwrap();
    assert!(matches!(&pe.values()[r.index()], SourceExpr::FnConstruct(n, _, _) if n == "x"));
    assert!(matches!(&pe.values()[r.index() - 1], SourceExpr::Variable(y) if y == "y"));
    // A failure after a part was stored leaves that part in the arena
    let before = pe.values().len();
    let bad = cons(5, "FnDestruct", vec![cons(6, "Type", vec![]), cons(7, "Nope", vec![])]);
    assert!(pe.insert_from_action_result(&bad, &vec![], 0).is_none());
    assert_eq!(pe.values().len(), before + 1);
}

#[test]
fn core_action_spans_become_origins() {
    let mut tc = TcEnv::new();
    let e = cons(0, "Let", vec![cons(1, "Type", vec![]), cons(2, "Free", vec![])]);
    let r = tc.insert_from_action_result(&e, 0).unwrap();
    assert_eq!(r, UnionIndex(2));
    assert_eq!(tc.value_origins[0], prism_compiler::lang::ValueOrigin::SourceCode(sp(1)));
    assert_eq!(tc.value_origins[2], prism_compiler::lang::ValueOrigin::SourceCode(sp(0)));
    assert!(tc.insert_from_action_result(&cons(3, "Let", vec![cons(4, "Type", vec![])]), 0).is_none());
}

#[test]
fn looking_up_after_binding_finds_the_new_binding_first() {
    let e = ParsedEnv::new_empty().bind("a".to_string(), ParsedEnvNodeValue::Type);
    let e = e.bind("b".to_string(), ParsedEnvNodeValue::Type);
    assert!(matches!(e.get("b"), Some((0, ParsedEnvNodeValue::Type))));
    assert!(matches!(e.get("a"), Some((1, ParsedEnvNodeValue::Type))));
    assert!(e.get("c").is_none());
    let e = e.bind("a".to_string(), ParsedEnvNodeValue::Type);
    assert!(matches!(e.get("a"), Some((0, _))));
    assert!(matches!(e.get("b"), Some((1, _))));
}
