use prism_compiler::lang::env::{DbEnv, EnvEntry, UniqueVariableId};
use std::collections::HashMap;
use prism_compiler::lang::error::{PrismError, TypeError};
use prism_compiler::lang::{CoreIndex, CorePrismExpr, GrammarId, PrismEnv, Span, ValueOrigin};
use prism_compiler::parser::{ParsedIndex, ParsedPrismExpr};

fn sp(n: usize) -> Span {
    Span { file: 0, start: n, end: n + 1 }
}

fn store(env: &mut PrismEnv, e: ParsedPrismExpr, n: usize) -> ParsedIndex {
    env.store_from_source(e, sp(n))
}

#[test]
fn type_has_type_type() {
    let mut env = PrismEnv::new();
    let p = store(&mut env, ParsedPrismExpr::Type, 0);
    let c = env.parsed_to_checked(p);
    assert!(matches!(env.checked_values[c.0], CorePrismExpr::Type));
    let t = env.type_check(c);
    assert!(env.errors.is_empty());
    assert_eq!(env.index_to_string(t), "Type");
}

#[test]
fn identity_function_resolves_its_variable() {
    let mut env = PrismEnv::new();
    let x = store(&mut env, ParsedPrismExpr::Name("x".to_string()), 1);
    let f = store(&mut env, ParsedPrismExpr::FnConstruct("x".to_string(), x), 0);
    let c = env.parsed_to_checked(f);
    assert_eq!(env.index_to_string(c), "=> #0");
    let t = env.type_check(c);
    assert!(env.errors.is_empty());
    assert_eq!(env.index_to_sm_string(t), "{5} -> {6}");
}

#[test]
fn let_binding_is_substituted_in_type() {
    let mut env = PrismEnv::new();
    let v = store(&mut env, ParsedPrismExpr::Type, 1);
    let b = store(&mut env, ParsedPrismExpr::Name("x".to_string()), 2);
    let l = store(&mut env, ParsedPrismExpr::Let("x".to_string(), v, b), 0);
    let c = env.parsed_to_checked(l);
    assert_eq!(env.index_to_string(c), "let Type;\n#0");
    let t = env.type_check(c);
    assert!(env.errors.is_empty());
    assert_eq!(env.index_to_sm_string(t), "let Type;\nType");
    let ty = env.store_checked(CorePrismExpr::Type, ValueOrigin::Failure);
    assert!(env.is_beta_equal(t, DbEnv::new(), ty, DbEnv::new()));
}

#[test]
fn unknown_name_is_reported() {
    let mut env = PrismEnv::new();
    let y = store(&mut env, ParsedPrismExpr::Name("y".to_string()), 7);
    let c = env.parsed_to_checked(y);
    assert!(matches!(env.checked_values[c.0], CorePrismExpr::Free));
    assert_eq!(env.errors.len(), 1);
    assert_eq!(env.errors[0], PrismError::TypeError(TypeError::UnknownName(sp(7))));
    assert_eq!(env.checked_origins[c.0], ValueOrigin::SourceCode(sp(7)));
    let reports = env.error_reports();
    assert!(env.errors.is_empty());
    assert_eq!(reports.len(), 1);
    let r = reports[0].as_ref().unwrap();
    assert_eq!(r.message, "Undefined name within this scope.");
    assert_eq!(r.span, sp(7));
    assert_eq!(r.labels[0].message, "This name is undefined.");
}

#[test]
fn wildcard_name_refers_to_nothing() {
    let mut env = PrismEnv::new();
    let x = store(&mut env, ParsedPrismExpr::Name("_".to_string()), 1);
    let f = store(&mut env, ParsedPrismExpr::FnConstruct("_".to_string(), x), 0);
    env.parsed_to_checked(f);
    assert_eq!(env.errors, vec![PrismError::TypeError(TypeError::UnknownName(sp(1)))]);
}

#[test]
fn applying_a_type_is_an_error() {
    let mut env = PrismEnv::new();
    let a = store(&mut env, ParsedPrismExpr::Type, 1);
    let b = store(&mut env, ParsedPrismExpr::Type, 2);
    let app = store(&mut env, ParsedPrismExpr::FnDestruct(a, b), 0);
    let c = env.parsed_to_checked(app);
    env.type_check(c);
    assert_eq!(env.errors.len(), 1);
    assert!(matches!(env.errors[0], PrismError::TypeError(TypeError::ExpectFn(_))));
    let reports = env.error_reports();
    let r = reports[0].as_ref().unwrap();
    assert_eq!(r.message, "Expected function");
    assert_eq!(r.span, sp(1));
    assert_eq!(r.labels[0].message, "Expected a function, found value of type: Type");
}

#[test]
fn type_assertion_that_holds_and_one_that_fails() {
    let mut env = PrismEnv::new();
    let e = store(&mut env, ParsedPrismExpr::Type, 1);
    let t = store(&mut env, ParsedPrismExpr::Type, 2);
    let a = store(&mut env, ParsedPrismExpr::TypeAssert(e, t), 0);
    let c = env.parsed_to_checked(a);
    env.type_check(c);
    assert!(env.errors.is_empty());

    let mut env = PrismEnv::new();
    let x = store(&mut env, ParsedPrismExpr::Name("x".to_string()), 2);
    let f = store(&mut env, ParsedPrismExpr::FnConstruct("x".to_string(), x), 1);
    let t = store(&mut env, ParsedPrismExpr::Type, 3);
    let a = store(&mut env, ParsedPrismExpr::TypeAssert(f, t), 0);
    let c = env.parsed_to_checked(a);
    env.type_check(c);
    assert_eq!(env.errors.len(), 1);
    assert!(matches!(env.errors[0], PrismError::TypeError(TypeError::ExpectTypeAssert { .. })));
    let reports = env.error_reports();
    let r = reports[0].as_ref().unwrap();
    assert_eq!(r.message, "Type assertion failed");
    assert_eq!(r.labels.len(), 2);
    assert_eq!(r.labels[1].message, "Expected value to have this type: Type");
}

#[test]
fn application_of_identity_reduces_to_argument() {
    let mut env = PrismEnv::new();
    let x = store(&mut env, ParsedPrismExpr::Name("x".to_string()), 2);
    let f = store(&mut env, ParsedPrismExpr::FnConstruct("x".to_string(), x), 1);
    let a = store(&mut env, ParsedPrismExpr::Type, 3);
    let app = store(&mut env, ParsedPrismExpr::FnDestruct(f, a), 0);
    let c = env.parsed_to_checked(app);
    assert_eq!(env.index_to_string(c), "(=> #0) Type");
    let r = env.beta_reduce(c);
    assert_eq!(env.index_to_string(r), "Type");
    assert_eq!(env.index_to_br_string(c), "Type");
    let (h, _) = env.beta_reduce_head(c, DbEnv::new());
    assert!(matches!(env.checked_values[h.0], CorePrismExpr::Type));
    let t = env.type_check(c);
    assert!(env.errors.is_empty());
    assert_eq!(env.index_to_br_string(t), "Type");
}

#[test]
fn include_returns_the_included_value() {
    let mut env = PrismEnv::new();
    let core = env.store_checked(CorePrismExpr::GrammarType, ValueOrigin::Failure);
    let p = store(&mut env, ParsedPrismExpr::Include("g".to_string(), core), 0);
    assert_eq!(env.parsed_to_checked(p), core);
    assert_eq!(env.checked_values.len(), 1);
}

#[test]
fn grammar_value_becomes_a_function_of_its_scope() {
    let mut env = PrismEnv::new();
    let g = store(&mut env, ParsedPrismExpr::GrammarValue(prism_compiler::lang::GrammarId(3)), 0);
    let c = env.parsed_to_checked(g);
    assert_eq!(env.index_to_string(c), "=> => #0 [GRAMMAR]: #1");
}

#[test]
fn bounded_head_reduction_stops_at_its_limit() {
    let mut env = PrismEnv::new();
    let x = store(&mut env, ParsedPrismExpr::Name("x".to_string()), 2);
    let f = store(&mut env, ParsedPrismExpr::FnConstruct("x".to_string(), x), 1);
    let a = store(&mut env, ParsedPrismExpr::Type, 3);
    let app = store(&mut env, ParsedPrismExpr::FnDestruct(f, a), 0);
    let c = env.parsed_to_checked(app);
    assert!(env.beta_reduce_head_bounded(c, &DbEnv::new(), 1).is_none());
    let (h, _) = env.beta_reduce_head_bounded(c, &DbEnv::new(), 100).unwrap();
    assert!(matches!(env.checked_values[h.0], CorePrismExpr::Type));
    assert_eq!(env.index_to_sm_string_bounded(c, 0), None);
    assert_eq!(env.index_to_sm_string_bounded(c, 100).unwrap(), "(=> #0) Type");
}

#[test]
fn de_bruijn_index_out_of_scope_is_reported() {
    let mut env = PrismEnv::new();
    let v = env.store_checked(
        CorePrismExpr::DeBruijnIndex(4),
        prism_compiler::lang::ValueOrigin::SourceCode(sp(9)),
    );
    env.type_check(v);
    assert_eq!(env.errors, vec![PrismError::TypeError(TypeError::IndexOutOfBound(v))]);
    let reports = env.error_reports();
    let r = reports[0].as_ref().unwrap();
    assert_eq!(r.message, "De Bruijn index `[0]` out of bounds");
    assert_eq!(r.labels[0].message, "This index is out of bounds.");
    let _ = CoreIndex(0);
}

#[test]
fn bounded_display_shows_what_fits_and_refuses_a_cycle() {
    let mut env = PrismEnv::new();
    let t = env.store_checked(CorePrismExpr::Type, ValueOrigin::Failure);
    let f = env.store_checked(CorePrismExpr::FnConstruct(t), ValueOrigin::Failure);
    assert_eq!(env.index_to_string_bounded(f, 10), Some("=> Type".to_string()));
    assert_eq!(env.index_to_string_bounded(f, 1), None);
    assert_eq!(env.index_to_string_bounded(CoreIndex(7), 10), None);
    // A value that refers to itself never finishes displaying
    let l = env.store_checked(CorePrismExpr::Let(t, CoreIndex(2)), ValueOrigin::Failure);
    assert_eq!(l, CoreIndex(2));
    assert_eq!(env.index_to_string_bounded(l, 1000), None);
}

#[test]
fn bounded_normal_form_reduces_applications_and_stops_on_omega() {
    let origin = ValueOrigin::Failure;
    let mut env = PrismEnv::new();
    // (=> #0) Type reduces to Type
    let v = env.store_checked(CorePrismExpr::DeBruijnIndex(0), origin);
    let id = env.store_checked(CorePrismExpr::FnConstruct(v), origin);
    let t = env.store_checked(CorePrismExpr::Type, origin);
    let app = env.store_checked(CorePrismExpr::FnDestruct(id, t), origin);
    assert_eq!(env.index_to_br_string_bounded(app, 100), Some("Type".to_string()));
    assert_eq!(env.index_to_br_string_bounded(id, 100), Some("=> #0".to_string()));
    // (=> #0 #0) (=> #0 #0) never reaches a normal form
    let a = env.store_checked(CorePrismExpr::DeBruijnIndex(0), origin);
    let b = env.store_checked(CorePrismExpr::DeBruijnIndex(0), origin);
    let aa = env.store_checked(CorePrismExpr::FnDestruct(a, b), origin);
    let w = env.store_checked(CorePrismExpr::FnConstruct(aa), origin);
    let omega = env.store_checked(CorePrismExpr::FnDestruct(w, w), origin);
    assert_eq!(env.index_to_br_string_bounded(omega, 50), None);
}

#[test]
fn types_name_where_their_parts_come_from() {
    let mut env = PrismEnv::new();
    let x = store(&mut env, ParsedPrismExpr::Name("x".to_string()), 1);
    let f = store(&mut env, ParsedPrismExpr::FnConstruct("x".to_string(), x), 0);
    let ty = store(&mut env, ParsedPrismExpr::Type, 2);
    let app = store(&mut env, ParsedPrismExpr::FnDestruct(f, ty), 3);
    let c = env.parsed_to_checked(app);
    let len = env.checked_values.len();
    let t = env.type_check(c);
    assert!(t.0 >= len);
    assert_eq!(env.checked_origins[t.0], ValueOrigin::TypeOf(c));
    assert_eq!(env.checked_types.get(&c.0), Some(&t));
    match env.checked_values[t.0] {
        CorePrismExpr::Let(a, rt) => {
            assert!(matches!(env.checked_values[c.0], CorePrismExpr::FnDestruct(_, a0) if a0 == a));
            assert!(rt.0 >= len);
            assert_eq!(env.checked_origins[rt.0], ValueOrigin::TypeOf(c));
        }
        _ => panic!("an application has a let type"),
    }
    let fc = match env.checked_values[c.0] {
        CorePrismExpr::FnDestruct(fc, _) => fc,
        _ => unreachable!(),
    };
    let ft = *env.checked_types.get(&fc.0).unwrap();
    match env.checked_values[ft.0] {
        CorePrismExpr::FnType(a, _) => assert_eq!(env.checked_origins[a.0], ValueOrigin::FreeSub(fc)),
        _ => panic!("a function has a function type"),
    }
    assert!(env.errors.is_empty());
}

#[test]
fn inferring_a_variable_moves_it_into_the_other_scope() {
    let o = ValueOrigin::Failure;
    let mut env = PrismEnv::new();
    let ty = env.store_checked(CorePrismExpr::Type, o);
    let s1 = DbEnv::new().cons(EnvEntry::CType(UniqueVariableId(100), ty));
    let s2 = s1.cons(EnvEntry::RType(UniqueVariableId(101)));
    let i1 = env.store_checked(CorePrismExpr::DeBruijnIndex(0), o);
    let i2 = env.store_checked(CorePrismExpr::Free, o);
    let mut m1 = HashMap::new();
    let mut m2 = HashMap::new();
    assert!(env.expect_beq_free(i1, &s1, &mut m1, i2, &s2, &mut m2, 0));
    assert_eq!(env.checked_values[i2.0], CorePrismExpr::DeBruijnIndex(1));
    assert!(env.errors.is_empty());
    // A variable that the other scope does not reach cannot be inferred there
    let i3 = env.store_checked(CorePrismExpr::Free, o);
    assert!(env.expect_beq_free(i1, &s1, &mut m1, i3, &DbEnv::new(), &mut m2, 0));
    assert_eq!(env.checked_values[i3.0], CorePrismExpr::Free);
    assert_eq!(env.errors, vec![PrismError::TypeError(TypeError::BadInfer { free_var: i3, inferred_var: i1 })]);
}

#[test]
fn variables_compare_equal_only_when_they_are_the_same_variable() {
    let o = ValueOrigin::Failure;
    let mut env = PrismEnv::new();
    let ty = env.store_checked(CorePrismExpr::Type, o);
    let s = DbEnv::new()
        .cons(EnvEntry::CType(UniqueVariableId(100), ty))
        .cons(EnvEntry::CType(UniqueVariableId(101), ty));
    let v0 = env.store_checked(CorePrismExpr::DeBruijnIndex(0), o);
    let v1 = env.store_checked(CorePrismExpr::DeBruijnIndex(1), o);
    let (mut m1, mut m2) = (HashMap::new(), HashMap::new());
    assert!(env.expect_beq_internal(v0, &s, &mut m1, v0, &s, &mut m2, 0));
    assert!(!env.expect_beq_internal(v0, &s, &mut m1, v1, &s, &mut m2, 0));
    // The same variable seen from a scope one entry longer
    let longer = s.cons(EnvEntry::CType(UniqueVariableId(102), ty));
    assert!(env.expect_beq_internal(v0, &s, &mut m1, v1, &longer, &mut m2, 0));
    assert!(env.errors.is_empty());
}

#[test]
fn applying_a_type_records_an_error() {
    let mut env = PrismEnv::new();
    let t = store(&mut env, ParsedPrismExpr::Type, 0);
    let u = store(&mut env, ParsedPrismExpr::Type, 1);
    let app = store(&mut env, ParsedPrismExpr::FnDestruct(t, u), 2);
    let c = env.parsed_to_checked(app);
    env.type_check(c);
    assert_eq!(env.errors.len(), 1);
    assert!(matches!(env.errors[0], PrismError::TypeError(TypeError::ExpectFn(_))));
}

#[test]
fn a_function_type_over_a_function_records_an_error() {
    let mut env = PrismEnv::new();
    let t = store(&mut env, ParsedPrismExpr::Type, 0);
    let x = store(&mut env, ParsedPrismExpr::Name("x".to_string()), 1);
    let f = store(&mut env, ParsedPrismExpr::FnConstruct("x".to_string(), x), 2);
    let ft = store(&mut env, ParsedPrismExpr::FnType("y".to_string(), f, t), 3);
    let c = env.parsed_to_checked(ft);
    env.type_check(c);
    assert!(env.errors.iter().any(|e| matches!(e, PrismError::TypeError(TypeError::ExpectType(_)))));
}

#[test]
fn asserting_a_function_type_of_type_records_an_error() {
    let mut env = PrismEnv::new();
    let t = store(&mut env, ParsedPrismExpr::Type, 0);
    let a = store(&mut env, ParsedPrismExpr::Type, 1);
    let b = store(&mut env, ParsedPrismExpr::Type, 2);
    let ft = store(&mut env, ParsedPrismExpr::FnType("x".to_string(), a, b), 3);
    let asserted = store(&mut env, ParsedPrismExpr::TypeAssert(t, ft), 4);
    let c = env.parsed_to_checked(asserted);
    env.type_check(c);
    assert!(env.errors.iter().any(|e| matches!(e, PrismError::TypeError(TypeError::ExpectTypeAssert { .. }))));
}

#[test]
fn unifying_a_free_value_copies_the_whole_tree() {
    let o = ValueOrigin::Failure;
    let mut env = PrismEnv::new();
    let a = env.store_checked(CorePrismExpr::Type, o);
    let c = env.store_checked(CorePrismExpr::GrammarType, o);
    let d = env.store_checked(CorePrismExpr::Type, o);
    let b = env.store_checked(CorePrismExpr::FnConstruct(d), o);
    let l = env.store_checked(CorePrismExpr::Let(c, b), o);
    let i1 = env.store_checked(CorePrismExpr::FnType(a, l), o);
    let i2 = env.store_checked(CorePrismExpr::Free, o);
    let (mut m1, mut m2) = (HashMap::new(), HashMap::new());
    assert!(env.expect_beq_free(i1, &DbEnv::new(), &mut m1, i2, &DbEnv::new(), &mut m2, 0));
    assert!(env.errors.is_empty());
    let (p, q) = match env.checked_values[i2.0] {
        CorePrismExpr::FnType(p, q) => (p, q),
        _ => panic!("a function type is copied as a function type"),
    };
    assert_eq!(env.checked_values[p.0], CorePrismExpr::Type);
    let (v, w) = match env.checked_values[q.0] {
        CorePrismExpr::Let(v, w) => (v, w),
        _ => panic!("a let is copied as a let"),
    };
    assert_eq!(env.checked_values[v.0], CorePrismExpr::GrammarType);
    let x = match env.checked_values[w.0] {
        CorePrismExpr::FnConstruct(x) => x,
        _ => panic!("a function is copied as a function"),
    };
    assert_eq!(env.checked_values[x.0], CorePrismExpr::Type);
    assert!(p.0 > i2.0 && q.0 > i2.0 && v.0 > i2.0 && w.0 > i2.0 && x.0 > i2.0);
}

#[test]
fn applying_a_variable_gives_the_return_type_of_its_function_type() {
    let o = ValueOrigin::Failure;
    let mut env = PrismEnv::new();
    // (f: (GrammarType -> Type)) -> f g, for a grammar g
    let p = env.store_checked(CorePrismExpr::GrammarType, o);
    let q = env.store_checked(CorePrismExpr::Type, o);
    let fn_ty = env.store_checked(CorePrismExpr::FnType(p, q), o);
    let f = env.store_checked(CorePrismExpr::DeBruijnIndex(0), o);
    let g = env.store_checked(CorePrismExpr::GrammarValue(GrammarId(3)), o);
    let app = env.store_checked(CorePrismExpr::FnDestruct(f, g), o);
    let root = env.store_checked(CorePrismExpr::FnType(fn_ty, app), o);
    let t = env.type_check(root);
    assert!(env.errors.is_empty());
    assert_eq!(env.checked_values[t.0], CorePrismExpr::Type);
    let app_ty = env.checked_types[&app.0];
    match env.checked_values[app_ty.0] {
        CorePrismExpr::Let(a, rt) => {
            assert_eq!(a, g);
            assert_eq!(env.checked_values[rt.0], CorePrismExpr::Type);
        },
        _ => panic!("an application has a let type"),
    }
}

#[test]
fn a_value_equals_itself_beside_a_grammar_value() {
    let o = ValueOrigin::Failure;
    let mut env = PrismEnv::new();
    env.store_checked(CorePrismExpr::GrammarValue(GrammarId(1)), o);
    let t = env.store_checked(CorePrismExpr::Type, o);
    let b = env.store_checked(CorePrismExpr::DeBruijnIndex(0), o);
    let f = env.store_checked(CorePrismExpr::FnType(t, b), o);
    assert!(env.is_beta_equal(f, DbEnv::new(), f, DbEnv::new()));
    assert!(env.errors.is_empty());
}

#[test]
fn simplifying_keeps_an_application_unreduced() {
    let o = ValueOrigin::Failure;
    let mut env = PrismEnv::new();
    let v = env.store_checked(CorePrismExpr::DeBruijnIndex(0), o);
    let f = env.store_checked(CorePrismExpr::FnConstruct(v), o);
    let t = env.store_checked(CorePrismExpr::Type, o);
    let app = env.store_checked(CorePrismExpr::FnDestruct(f, t), o);
    let s = env.simplify(app);
    assert!(matches!(env.checked_values[s.0], CorePrismExpr::FnDestruct(_, _)));
    assert_eq!(env.index_to_string(s), "(=> #0) Type");
}

#[test]
fn the_normal_form_is_closed() {
    let o = ValueOrigin::Failure;
    let mut env = PrismEnv::new();
    // (=> => #1) Type reduces to => Type: the variable that pointed out of the inner
    // function is replaced
    let v = env.store_checked(CorePrismExpr::DeBruijnIndex(1), o);
    let inner = env.store_checked(CorePrismExpr::FnConstruct(v), o);
    let outer = env.store_checked(CorePrismExpr::FnConstruct(inner), o);
    let t = env.store_checked(CorePrismExpr::Type, o);
    let app = env.store_checked(CorePrismExpr::FnDestruct(outer, t), o);
    assert_eq!(env.index_to_br_string(app), "=> Type");
    let g = env.store_checked(CorePrismExpr::FnConstruct(v), o);
    let h = env.store_checked(CorePrismExpr::FnConstruct(g), o);
    assert_eq!(env.index_to_br_string(h), "=> => #1");
}

#[test]
fn simplifying_a_value_without_shifts_keeps_its_text() {
    let o = ValueOrigin::Failure;
    let mut env = PrismEnv::new();
    let t = env.store_checked(CorePrismExpr::Type, o);
    let v = env.store_checked(CorePrismExpr::DeBruijnIndex(1), o);
    let w = env.store_checked(CorePrismExpr::DeBruijnIndex(0), o);
    let app = env.store_checked(CorePrismExpr::FnDestruct(v, w), o);
    let inner = env.store_checked(CorePrismExpr::FnConstruct(app), o);
    let ty = env.store_checked(CorePrismExpr::FnType(t, inner), o);
    let before = env.index_to_string(ty);
    let s = env.simplify(ty);
    assert_eq!(env.index_to_string(s), before);
}

#[test]
fn two_free_values_wait_for_each_other() {
    let o = ValueOrigin::Failure;
    let mut env = PrismEnv::new();
    let a = env.store_checked(CorePrismExpr::Free, o);
    let b = env.store_checked(CorePrismExpr::Free, o);
    let (mut m1, mut m2) = (HashMap::new(), HashMap::new());
    assert!(env.expect_beq_free(a, &DbEnv::new(), &mut m1, b, &DbEnv::new(), &mut m2, 0));
    assert_eq!(env.checked_values[a.0], CorePrismExpr::Free);
    assert_eq!(env.checked_values[b.0], CorePrismExpr::Free);
    assert!(env.queued_beq_free.contains_key(&a.0));
    assert!(env.queued_beq_free.contains_key(&b.0));
    assert!(env.errors.is_empty());
    // Filling one of them checks what waited for it
    env.expect_beq_type(b, &DbEnv::new());
    assert_eq!(env.checked_values[b.0], CorePrismExpr::Type);
    assert_eq!(env.checked_values[a.0], CorePrismExpr::Type);
    assert!(env.errors.is_empty());
}

#[test]
fn a_function_type_holds_the_type_of_its_body() {
    let o = ValueOrigin::Failure;
    let mut env = PrismEnv::new();
    let body = env.store_checked(CorePrismExpr::Type, o);
    let f = env.store_checked(CorePrismExpr::FnConstruct(body), o);
    let t = env.type_check(f);
    let bt = env.checked_types[&body.0];
    match env.checked_values[t.0] {
        CorePrismExpr::FnType(_, r) => assert_eq!(r, bt),
        _ => panic!("a function has a function type"),
    }
    let v = env.store_checked(CorePrismExpr::Type, o);
    let b = env.store_checked(CorePrismExpr::DeBruijnIndex(0), o);
    let l = env.store_checked(CorePrismExpr::Let(v, b), o);
    let lt = env.type_check(l);
    let bt = env.checked_types[&b.0];
    match env.checked_values[lt.0] {
        CorePrismExpr::Let(_, r) => assert_eq!(r, bt),
        _ => panic!("a let has a let type"),
    }
    assert!(env.errors.is_empty());
}

#[test]
fn applying_a_variable_to_an_argument_of_another_type_records_an_error() {
    let o = ValueOrigin::Failure;
    let mut env = PrismEnv::new();
    // (f: (Type -> Type)) -> f g, for a grammar g, whose type is the grammar type
    let p = env.store_checked(CorePrismExpr::Type, o);
    let q = env.store_checked(CorePrismExpr::Type, o);
    let fn_ty = env.store_checked(CorePrismExpr::FnType(p, q), o);
    let f = env.store_checked(CorePrismExpr::DeBruijnIndex(0), o);
    let g = env.store_checked(CorePrismExpr::GrammarValue(GrammarId(3)), o);
    let app = env.store_checked(CorePrismExpr::FnDestruct(f, g), o);
    let root = env.store_checked(CorePrismExpr::FnType(fn_ty, app), o);
    env.type_check(root);
    let n = env.errors.iter().filter(|e| matches!(e, PrismError::TypeError(TypeError::ExpectFnArg { .. }))).count();
    assert_eq!(n, 1);
    match env.errors[0] {
        PrismError::TypeError(TypeError::ExpectFnArg { function_arg_type, arg_type, .. }) => {
            assert_eq!(function_arg_type, p);
            assert_eq!(env.checked_values[arg_type.0], CorePrismExpr::GrammarType);
        },
        _ => panic!("the argument type mismatch comes first"),
    }
}
