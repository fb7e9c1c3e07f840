use crate::lang::simplify::lemma_grows_trans;
use crate::lang::{CoreIndex, PrismEnv, Span, ValueOrigin};
use crate::text::{decimal, write_usize};
use vstd::prelude::*;

verus! {

/// An error in the program.
#[derive(Copy, Clone, Debug, PartialEq, Eq, Structural)]
pub enum PrismError {
    /// The parser could not read the program at this place.
    ParseError(Span),
    TypeError(TypeError),
}

/// A type error.
#[derive(Copy, Clone, Debug, PartialEq, Eq, Structural)]
pub enum TypeError {
    ExpectType(CoreIndex),
    ExpectFn(CoreIndex),
    ExpectFnArg { function_type: CoreIndex, function_arg_type: CoreIndex, arg_type: CoreIndex },
    ExpectTypeAssert { expr: CoreIndex, expr_type: CoreIndex, expected_type: CoreIndex },
    IndexOutOfBound(CoreIndex),
    RecursionLimit(CoreIndex, CoreIndex),
    InfiniteType(CoreIndex, CoreIndex),
    BadInfer { free_var: CoreIndex, inferred_var: CoreIndex },
    UnknownName(Span),
}

} // verus!

verus! {

/// A labelled place of an error report.
#[derive(Debug)]
pub struct ReportLabel {
    pub span: Span,
    pub message: String,
    /// Labels are shown by increasing order.
    pub order: i32,
    /// Shown in the colour of secondary information.
    pub secondary: bool,
}

/// A report of an error, ready to be printed against the source.
#[derive(Debug)]
pub struct ErrorReport {
    pub span: Span,
    pub message: String,
    pub labels: Vec<ReportLabel>,
}

/// The place in the source that `v` comes from, following the origins of generated values
/// for at most `fuel` steps, and whether it was reached through the type of a value. A
/// value reached through the type of a type has no place.
pub open spec fn label_fuel(origins: Seq<ValueOrigin>, v: CoreIndex, typed: bool, fuel: nat) -> Option<
    (Span, bool),
>
    decreases fuel,
{
    if fuel == 0 || v.0 >= origins.len() {
        None
    } else {
        match origins[v.0 as int] {
            ValueOrigin::SourceCode(span) => Some((span, typed)),
            ValueOrigin::TypeOf(sub) => if typed {
                None
            } else {
                label_fuel(origins, sub, true, (fuel - 1) as nat)
            },
            ValueOrigin::FreeSub(w) => label_fuel(origins, w, typed, (fuel - 1) as nat),
            ValueOrigin::Failure => None,
        }
    }
}

/// The place in the source of the value of which `i` is the type.
pub open spec fn typed_source(origins: Seq<ValueOrigin>, i: CoreIndex) -> Option<(CoreIndex, Span)> {
    if i.0 < origins.len() {
        match origins[i.0 as int] {
            ValueOrigin::TypeOf(j) => if j.0 < origins.len() {
                match origins[j.0 as int] {
                    ValueOrigin::SourceCode(span) => Some((j, span)),
                    _ => None,
                }
            } else {
                None
            },
            _ => None,
        }
    } else {
        None
    }
}

/// The place in the source of the value `i` itself.
pub open spec fn direct_source(origins: Seq<ValueOrigin>, i: CoreIndex) -> Option<Span> {
    if i.0 < origins.len() {
        match origins[i.0 as int] {
            ValueOrigin::SourceCode(span) => Some(span),
            _ => None,
        }
    } else {
        None
    }
}

/// `r` is a report at `span` with the text `message` and with labels at `spans`, each
/// label's text starting with the matching part of `texts`.
pub open spec fn reported(
    r: Option<ErrorReport>,
    span: Span,
    message: Seq<char>,
    spans: Seq<Span>,
    texts: Seq<Seq<char>>,
) -> bool {
    &&& r is Some
    &&& r->0.span == span
    &&& r->0.message@ == message
    &&& r->0.labels@.len() == spans.len()
    &&& forall|k: int|
        0 <= k < spans.len() ==> #[trigger] r->0.labels@[k].span == spans[k]
            && texts[k].is_prefix_of(r->0.labels@[k].message@)
}

/// The most nested steps of simplification for the text of a value in a report.
pub const REPORT_SIMPLIFY_LIMIT: usize = 4096;

/// `text` is what a report shows of the value `i` of the arena `before`, with the identity
/// counter at `id`: the text of a new value of the grown arena `after` that holds the
/// simplified value, or a placeholder where simplifying goes deeper than
/// `REPORT_SIMPLIFY_LIMIT` or cannot be carried out.
pub open spec fn shows(
    before: Seq<crate::lang::CorePrismExpr>,
    id: usize,
    i: CoreIndex,
    after: Seq<crate::lang::CorePrismExpr>,
    text: Seq<char>,
) -> bool {
    match crate::lang::simplify::simp_fuel(
        before,
        i,
        Seq::empty(),
        Map::empty(),
        id,
        REPORT_SIMPLIFY_LIMIT as nat,
    ) {
        None => text == "(too deep to show)"@,
        Some((t, _, _)) => exists|j: usize|
            before.len() <= j < after.len() && crate::lang::tree::read_back(after, j as int) == t
                && text == crate::lang::display::core_text(after, CoreIndex(j)),
    }
}

/// `r` is a report at `span` with the text `message` and one label there, whose text is
/// `label`.
pub open spec fn plain_report(r: Option<ErrorReport>, span: Span, message: Seq<char>, label: Seq<char>) -> bool {
    &&& reported(r, span, message, seq![span], seq![label])
    &&& r->0.labels@[0].message@ == label
}

/// The text of the report of a type error, the same whatever the values involved; `None`
/// for `BadInfer`, which is not reported.
pub open spec fn report_message(e: TypeError) -> Option<Seq<char>> {
    match e {
        TypeError::UnknownName(_) => Some("Undefined name within this scope."@),
        TypeError::IndexOutOfBound(i) => Some(
            "De Bruijn index `["@ + decimal(i.0 as nat) + "]` out of bounds"@,
        ),
        TypeError::ExpectType(_) => Some("Expected type"@),
        TypeError::ExpectFn(_) => Some("Expected function"@),
        TypeError::ExpectTypeAssert { .. } => Some("Type assertion failed"@),
        TypeError::ExpectFnArg { .. } => Some("Argument type mismatch in function application"@),
        TypeError::BadInfer { .. } => None,
        TypeError::RecursionLimit(..) => Some("Constraint hit recursion limit"@),
        TypeError::InfiniteType(..) => Some("Constraint gives an infinite type"@),
    }
}

/// A report of the type error `e`, if there is one, has the text that `report_message`
/// gives.
pub open spec fn message_of(e: TypeError, r: Option<ErrorReport>) -> bool {
    &&& r matches Some(rep) ==> report_message(e) == Some(rep.message@)
    &&& report_message(e) is None ==> r is None
}

/// What the report `r` of the type error `e` is, made with the arena `values`, its
/// origins `origins`, the recorded types `types` and the identity counter at `id`, the
/// arena growing to `after` while the values involved are simplified for their text.
pub open spec fn report_spec(
    e: TypeError,
    values: Seq<crate::lang::CorePrismExpr>,
    origins: Seq<ValueOrigin>,
    types: Map<usize, CoreIndex>,
    id: usize,
    after: Seq<crate::lang::CorePrismExpr>,
    r: Option<ErrorReport>,
) -> bool {
    match e {
        TypeError::UnknownName(span) => plain_report(
            r,
            span,
            "Undefined name within this scope."@,
            "This name is undefined."@,
        ),
        TypeError::IndexOutOfBound(i) => match direct_source(origins, i) {
            Some(span) => plain_report(
                r,
                span,
                "De Bruijn index `["@ + decimal(i.0 as nat) + "]` out of bounds"@,
                "This index is out of bounds."@,
            ),
            None => r is None,
        },
        TypeError::ExpectType(i) => match typed_source(origins, i) {
            Some((j, span)) => (!types.contains_key(j.0) ==> r is None)
                && (types.contains_key(j.0) ==> reported(
                r,
                span,
                "Expected type"@,
                seq![span],
                seq!["Expected a type, found value of type: "@],
            ) && one_shown(
                r->0.labels@[0].message@,
                "Expected a type, found value of type: "@,
                values,
                id,
                types[j.0],
                after,
            )),
            None => r is None,
        },
        TypeError::ExpectFn(i) => match typed_source(origins, i) {
            Some((j, span)) => (!types.contains_key(j.0) ==> r is None)
                && (types.contains_key(j.0) ==> reported(
                r,
                span,
                "Expected function"@,
                seq![span],
                seq!["Expected a function, found value of type: "@],
            ) && one_shown(
                r->0.labels@[0].message@,
                "Expected a function, found value of type: "@,
                values,
                id,
                types[j.0],
                after,
            )),
            None => r is None,
        },
        TypeError::ExpectTypeAssert { expr, expr_type, expected_type } => match (
            direct_source(origins, expr),
            direct_source(origins, expected_type),
        ) {
            (Some(span_expr), Some(span_expected)) => reported(
                r,
                span_expr,
                "Type assertion failed"@,
                seq![span_expr, span_expected],
                seq!["This value has type: "@, "Expected value to have this type: "@],
            ) && two_shown(
                r->0.labels@[0].message@,
                "This value has type: "@,
                expr_type,
                r->0.labels@[1].message@,
                "Expected value to have this type: "@,
                expected_type,
                values,
                id,
                after,
            ),
            _ => r is None,
        },
        TypeError::ExpectFnArg { function_type, function_arg_type, arg_type } => match (
            typed_source(origins, arg_type),
            typed_source(origins, function_type),
        ) {
            (Some((_, span_arg)), Some((_, span_fn))) => reported(
                r,
                span_fn,
                "Argument type mismatch in function application"@,
                seq![span_arg, span_fn],
                seq!["This argument has type: "@, "This function takes arguments of type: "@],
            ) && two_shown(
                r->0.labels@[0].message@,
                "This argument has type: "@,
                arg_type,
                r->0.labels@[1].message@,
                "This function takes arguments of type: "@,
                function_arg_type,
                values,
                id,
                after,
            ),
            _ => r is None,
        },
        TypeError::BadInfer { .. } => r is None,
        TypeError::RecursionLimit(left, right) => match label_fuel(
            origins,
            left,
            false,
            origins.len(),
        ) {
            Some((span, typed)) => reported(
                r,
                span,
                "Constraint hit recursion limit"@,
                seq![span, span],
                seq!["Left side of constraint from "@, "Right side of constraint from "@],
            ) && two_shown(
                r->0.labels@[0].message@,
                "Left side of constraint from "@ + described(typed) + ": "@,
                left,
                r->0.labels@[1].message@,
                "Right side of constraint from "@ + described(typed) + ": "@,
                right,
                values,
                id,
                after,
            ),
            None => r is None,
        },
        TypeError::InfiniteType(left, _) => match label_fuel(
            origins,
            left,
            false,
            origins.len(),
        ) {
            Some((span, _)) => reported(
                r,
                span,
                "Constraint gives an infinite type"@,
                seq![span],
                seq!["This value would contain itself: "@],
            ) && one_shown(
                r->0.labels@[0].message@,
                "This value would contain itself: "@,
                values,
                id,
                left,
                after,
            ),
            None => r is None,
        },
    }
}

/// The report `r` of the type error `e` is what `report_spec` says for a state of the arena
/// between `old` and `new`: one that `old` grew into, with the recorded types of `old`.
pub open spec fn reported_between(e: TypeError, old: &PrismEnv, new: &PrismEnv, r: Option<ErrorReport>) -> bool {
    exists|
        values: Seq<crate::lang::CorePrismExpr>,
        origins: Seq<ValueOrigin>,
        id: usize,
        after: Seq<crate::lang::CorePrismExpr>,
    |
        #![trigger report_spec(e, values, origins, old.checked_types@, id, after, r)]
        crate::lang::tree::is_prefix(old.checked_values@, values) && crate::lang::tree::is_prefix(
            values,
            after,
        ) && crate::lang::tree::is_prefix(after, new.checked_values@) && crate::lang::tree::is_prefix(
            old.checked_origins@,
            origins,
        ) && crate::lang::tree::is_prefix(origins, new.checked_origins@) && report_spec(
            e,
            values,
            origins,
            old.checked_types@,
            id,
            after,
            r,
        )
}

/// A report made in a state between `old` and `a` still is one between `old` and a state
/// that `a` grew into.
proof fn lemma_reported_between_grows(
    e: TypeError,
    old: &PrismEnv,
    a: &PrismEnv,
    b: &PrismEnv,
    r: Option<ErrorReport>,
)
    requires
        reported_between(e, old, a, r),
        crate::lang::simplify::grows(a, b),
    ensures
        reported_between(e, old, b, r),
{
    let (values, origins, id, after) = choose|
        values: Seq<crate::lang::CorePrismExpr>,
        origins: Seq<ValueOrigin>,
        id: usize,
        after: Seq<crate::lang::CorePrismExpr>,
    |
        #![trigger report_spec(e, values, origins, old.checked_types@, id, after, r)]
        crate::lang::tree::is_prefix(old.checked_values@, values) && crate::lang::tree::is_prefix(
            values,
            after,
        ) && crate::lang::tree::is_prefix(after, a.checked_values@) && crate::lang::tree::is_prefix(
            old.checked_origins@,
            origins,
        ) && crate::lang::tree::is_prefix(origins, a.checked_origins@) && report_spec(
            e,
            values,
            origins,
            old.checked_types@,
            id,
            after,
            r,
        );
    crate::lang::tree::lemma_prefix_trans(after, a.checked_values@, b.checked_values@);
    crate::lang::tree::lemma_prefix_trans(origins, a.checked_origins@, b.checked_origins@);
}

/// How a report names a value that `label_fuel` reached, through its type or not.
pub open spec fn described(typed: bool) -> Seq<char> {
    if typed {
        "type of this value"@
    } else {
        "this value"@
    }
}

/// The label text `m` is `prefix` followed by what a report shows of `i`.
pub open spec fn one_shown(
    m: Seq<char>,
    prefix: Seq<char>,
    before: Seq<crate::lang::CorePrismExpr>,
    id: usize,
    i: CoreIndex,
    after: Seq<crate::lang::CorePrismExpr>,
) -> bool {
    exists|text: Seq<char>| #[trigger] shows(before, id, i, after, text) && m == prefix + text
}

/// The label texts `m1` and `m2` are `p1` and `p2` followed by what a report shows of `i1`
/// and then of `i2`, the second shown from the arena that showing the first left, `mid`.
pub open spec fn two_shown(
    m1: Seq<char>,
    p1: Seq<char>,
    i1: CoreIndex,
    m2: Seq<char>,
    p2: Seq<char>,
    i2: CoreIndex,
    before: Seq<crate::lang::CorePrismExpr>,
    id: usize,
    after: Seq<crate::lang::CorePrismExpr>,
) -> bool {
    exists|mid: Seq<crate::lang::CorePrismExpr>, id2: usize, t1: Seq<char>, t2: Seq<char>|
        #![trigger shows(before, id, i1, mid, t1), shows(mid, id2, i2, after, t2)]
        shows(before, id, i1, mid, t1) && shows(mid, id2, i2, after, t2) && m1 == p1 + t1 && m2
            == p2 + t2
}

/// A string that starts with `prefix` and goes on with `rest`.
fn prefixed(prefix: &str, rest: &String) -> (r: String)
    ensures
        r@ == prefix@ + rest@,
{
    let mut s = String::new();
    s.append(prefix);
    s.append(rest.as_str());
    s
}

proof fn lemma_prefixed(a: Seq<char>, b: Seq<char>)
    ensures
        a.is_prefix_of(a + b),
{
    assert((a + b).subrange(0, a.len() as int) =~= a);
}

impl PrismEnv {
    /// The text of the simplified value `i`, or a placeholder when it is too deep.
    fn sm_text(&mut self, i: CoreIndex) -> (r: String)
        requires
            old(self).arena_wf(),
        ensures
            crate::lang::simplify::grows(old(self), final(self)),
            final(self).errors == old(self).errors,
            shows(old(self).checked_values@, old(self).tc_id, i, final(self).checked_values@, r@),
    {
        match self.index_to_sm_string_bounded(i, REPORT_SIMPLIFY_LIMIT) {
            Some(s) => s,
            None => "(too deep to show)".to_owned(),
        }
    }

    /// A report of a type error: where it is, what it is, and the values involved. `None`
    /// when the values involved have no place in the source, and for `BadInfer`.
    #[verifier::rlimit(60)]
    pub fn report(&mut self, error: &TypeError) -> (r: Option<ErrorReport>)
        requires
            old(self).arena_wf(),
        ensures
            crate::lang::simplify::grows(old(self), final(self)),
            final(self).errors == old(self).errors,
            message_of(*error, r),
            report_spec(
                *error,
                old(self).checked_values@,
                old(self).checked_origins@,
                old(self).checked_types@,
                old(self).tc_id,
                final(self).checked_values@,
                r,
            ),
    {
        let ghost s0 = *self;
        proof {
            lemma_grows_refl(&s0);
        }
        match *error {
            TypeError::UnknownName(span) => {
                let label = ReportLabel {
                    span,
                    message: "This name is undefined.".to_owned(),
                    order: 0,
                    secondary: false,
                };
                let mut labels: Vec<ReportLabel> = Vec::new();
                labels.push(label);
                proof {
                    lemma_prefixed("This name is undefined."@, Seq::empty());
                    assert("This name is undefined."@ + Seq::<char>::empty() =~= "This name is undefined."@);
                }
                Some(
                    ErrorReport {
                        span,
                        message: "Undefined name within this scope.".to_owned(),
                        labels,
                    },
                )
            },
            TypeError::IndexOutOfBound(i) => {
                let span = match self.direct_source(i) {
                    Some(span) => span,
                    None => return None,
                };
                let mut message = String::new();
                message.append("De Bruijn index `[");
                write_usize(&mut message, i.0);
                message.append("]` out of bounds");
                let label = ReportLabel {
                    span,
                    message: "This index is out of bounds.".to_owned(),
                    order: 0,
                    secondary: false,
                };
                let mut labels: Vec<ReportLabel> = Vec::new();
                labels.push(label);
                proof {
                    lemma_prefixed("This index is out of bounds."@, Seq::empty());
                    assert("This index is out of bounds."@ + Seq::<char>::empty() =~= "This index is out of bounds."@);
                }
                Some(ErrorReport { span, message, labels })
            },
            TypeError::ExpectType(i) => {
                let (j, span) = match self.typed_source(i) {
                    Some(x) => x,
                    None => return None,
                };
                let t = match self.checked_types.get(&j.0) {
                    Some(t) => *t,
                    None => return None,
                };
                let text = self.sm_text(t);
                let prefix = "Expected a type, found value of type: ";
                let label = ReportLabel { span, message: prefixed(prefix, &text), order: 0, secondary: false };
                let mut labels: Vec<ReportLabel> = Vec::new();
                labels.push(label);
                proof {
                    lemma_prefixed(prefix@, text@);
                }
                Some(ErrorReport { span, message: "Expected type".to_owned(), labels })
            },
            TypeError::ExpectFn(i) => {
                let (j, span) = match self.typed_source(i) {
                    Some(x) => x,
                    None => return None,
                };
                let t = match self.checked_types.get(&j.0) {
                    Some(t) => *t,
                    None => return None,
                };
                let text = self.sm_text(t);
                let prefix = "Expected a function, found value of type: ";
                let label = ReportLabel { span, message: prefixed(prefix, &text), order: 0, secondary: false };
                let mut labels: Vec<ReportLabel> = Vec::new();
                labels.push(label);
                proof {
                    lemma_prefixed(prefix@, text@);
                }
                Some(ErrorReport { span, message: "Expected function".to_owned(), labels })
            },
            TypeError::ExpectTypeAssert { expr, expr_type, expected_type } => {
                let span_expr = match self.direct_source(expr) {
                    Some(s) => s,
                    None => return None,
                };
                let span_expected = match self.direct_source(expected_type) {
                    Some(s) => s,
                    None => return None,
                };
                let t1 = self.sm_text(expr_type);
                let ghost s1 = *self;
                let t2 = self.sm_text(expected_type);
                proof {
                    lemma_grows_trans(&s0, &s1, self);
                    lemma_prefixed("This value has type: "@, t1@);
                    lemma_prefixed("Expected value to have this type: "@, t2@);
                }
                let mut labels: Vec<ReportLabel> = Vec::new();
                labels.push(
                    ReportLabel {
                        span: span_expr,
                        message: prefixed("This value has type: ", &t1),
                        order: 0,
                        secondary: false,
                    },
                );
                labels.push(
                    ReportLabel {
                        span: span_expected,
                        message: prefixed("Expected value to have this type: ", &t2),
                        order: 0,
                        secondary: false,
                    },
                );
                Some(
                    ErrorReport {
                        span: span_expr,
                        message: "Type assertion failed".to_owned(),
                        labels,
                    },
                )
            },
            TypeError::ExpectFnArg { function_type, function_arg_type, arg_type } => {
                let (_, span_arg) = match self.typed_source(arg_type) {
                    Some(x) => x,
                    None => return None,
                };
                let (_, span_fn) = match self.typed_source(function_type) {
                    Some(x) => x,
                    None => return None,
                };
                let t1 = self.sm_text(arg_type);
                let ghost s1 = *self;
                let t2 = self.sm_text(function_arg_type);
                proof {
                    lemma_grows_trans(&s0, &s1, self);
                    lemma_prefixed("This argument has type: "@, t1@);
                    lemma_prefixed("This function takes arguments of type: "@, t2@);
                }
                let mut labels: Vec<ReportLabel> = Vec::new();
                labels.push(
                    ReportLabel {
                        span: span_arg,
                        message: prefixed("This argument has type: ", &t1),
                        order: 0,
                        secondary: false,
                    },
                );
                labels.push(
                    ReportLabel {
                        span: span_fn,
                        message: prefixed("This function takes arguments of type: ", &t2),
                        order: 1,
                        secondary: true,
                    },
                );
                Some(
                    ErrorReport {
                        span: span_fn,
                        message: "Argument type mismatch in function application".to_owned(),
                        labels,
                    },
                )
            },
            TypeError::BadInfer { .. } => None,
            TypeError::RecursionLimit(left, right) => {
                let (span, description) = match self.label_value(left) {
                    Some(x) => x,
                    None => return None,
                };
                let t1 = self.sm_text(left);
                let ghost s1 = *self;
                let t2 = self.sm_text(right);
                let mut rest1 = String::new();
                rest1.append(description);
                rest1.append(": ");
                rest1.append(t1.as_str());
                let mut rest2 = String::new();
                rest2.append(description);
                rest2.append(": ");
                rest2.append(t2.as_str());
                let m1 = prefixed("Left side of constraint from ", &rest1);
                let m2 = prefixed("Right side of constraint from ", &rest2);
                proof {
                    lemma_grows_trans(&s0, &s1, self);
                    assert(m1@ =~= ("Left side of constraint from "@ + described(
                        (label_fuel(s0.checked_origins@, left, false, s0.checked_origins@.len())->0).1,
                    ) + ": "@) + t1@);
                    assert(m2@ =~= ("Right side of constraint from "@ + described(
                        (label_fuel(s0.checked_origins@, left, false, s0.checked_origins@.len())->0).1,
                    ) + ": "@) + t2@);
                    lemma_prefixed("Left side of constraint from "@, rest1@);
                    lemma_prefixed("Right side of constraint from "@, rest2@);
                }
                let mut labels: Vec<ReportLabel> = Vec::new();
                labels.push(ReportLabel { span, message: m1, order: 0, secondary: false });
                labels.push(ReportLabel { span, message: m2, order: 0, secondary: false });
                Some(
                    ErrorReport {
                        span,
                        message: "Constraint hit recursion limit".to_owned(),
                        labels,
                    },
                )
            },
            TypeError::InfiniteType(left, _) => {
                let (span, _) = match self.label_value(left) {
                    Some(x) => x,
                    None => return None,
                };
                let t1 = self.sm_text(left);
                let prefix = "This value would contain itself: ";
                proof {
                    lemma_prefixed(prefix@, t1@);
                }
                let mut labels: Vec<ReportLabel> = Vec::new();
                labels.push(ReportLabel { span, message: prefixed(prefix, &t1), order: 0, secondary: false });
                Some(
                    ErrorReport {
                        span,
                        message: "Constraint gives an infinite type".to_owned(),
                        labels,
                    },
                )
            },
        }
    }

    /// Takes the recorded errors out and makes a report of each, in order; a parse error
    /// is reported at its span, and a type error as `report` reports it in the arena as it
    /// stands by then (`reported_between`). This is what printing the errors shows.
    pub fn error_reports(&mut self) -> (r: Vec<Option<ErrorReport>>)
        requires
            old(self).arena_wf(),
        ensures
            crate::lang::simplify::grows(old(self), final(self)),
            final(self).errors@.len() == 0,
            r@.len() == old(self).errors@.len(),
            forall|k: int|
                0 <= k < r@.len() ==> match #[trigger] old(self).errors@[k] {
                    PrismError::ParseError(span) => plain_report(
                        r@[k],
                        span,
                        "Parse error"@,
                        "The program cannot be read from here."@,
                    ),
                    PrismError::TypeError(TypeError::UnknownName(span)) => plain_report(
                        r@[k],
                        span,
                        "Undefined name within this scope."@,
                        "This name is undefined."@,
                    ),
                    _ => true,
                },
            forall|k: int|
                0 <= k < r@.len() ==> (#[trigger] old(self).errors@[k] matches PrismError::TypeError(e)
                    ==> message_of(e, r@[k]) && reported_between(e, old(self), final(self), r@[k])),
    {
        let mut errors: Vec<PrismError> = Vec::new();
        std::mem::swap(&mut errors, &mut self.errors);
        let ghost s0 = *self;
        proof {
            lemma_grows_refl(&s0);
        }
        let mut reports: Vec<Option<ErrorReport>> = Vec::new();
        let mut k: usize = 0;
        while k < errors.len()
            invariant
                k <= errors@.len(),
                reports@.len() == k,
                crate::lang::simplify::grows(&s0, self),
                self.errors@.len() == 0,
                forall|j: int|
                    0 <= j < k ==> match #[trigger] errors@[j] {
                        PrismError::ParseError(span) => plain_report(
                            reports@[j],
                            span,
                            "Parse error"@,
                            "The program cannot be read from here."@,
                        ),
                        PrismError::TypeError(TypeError::UnknownName(span)) => plain_report(
                            reports@[j],
                            span,
                            "Undefined name within this scope."@,
                            "This name is undefined."@,
                        ),
                        _ => true,
                    },
                forall|j: int|
                    0 <= j < k ==> (#[trigger] errors@[j] matches PrismError::TypeError(e)
                        ==> message_of(e, reports@[j]) && reported_between(e, &s0, self, reports@[j])),
            decreases errors@.len() - k,
        {
            let ghost sk = *self;
            proof {
                lemma_grows_refl(&sk);
            }
            let report = match errors[k] {
                PrismError::ParseError(span) => {
                    let mut labels: Vec<ReportLabel> = Vec::new();
                    labels.push(
                        ReportLabel {
                            span,
                            message: "The program cannot be read from here.".to_owned(),
                            order: 0,
                            secondary: false,
                        },
                    );
                    proof {
                        lemma_prefixed("The program cannot be read from here."@, Seq::empty());
                        assert("The program cannot be read from here."@ + Seq::<char>::empty()
                            =~= "The program cannot be read from here."@);
                    }
                    Some(ErrorReport { span, message: "Parse error".to_owned(), labels })
                },
                PrismError::TypeError(e) => self.report(&e),
            };
            proof {
                lemma_grows_trans(&s0, &sk, self);
                assert forall|j: int|
                    0 <= j < k && (#[trigger] errors@[j] matches PrismError::TypeError(e)) implies reported_between(
                    errors@[j]->TypeError_0,
                    &s0,
                    self,
                    reports@[j],
                ) by {
                    lemma_reported_between_grows(errors@[j]->TypeError_0, &s0, &sk, self, reports@[j]);
                }
                if let PrismError::TypeError(e) = errors@[k as int] {
                    crate::lang::tree::lemma_prefix_trans(
                        s0.checked_values@,
                        sk.checked_values@,
                        self.checked_values@,
                    );
                    assert(self.checked_values@.subrange(0, self.checked_values@.len() as int)
                        =~= self.checked_values@);
                    assert(report_spec(
                        e,
                        sk.checked_values@,
                        sk.checked_origins@,
                        s0.checked_types@,
                        sk.tc_id,
                        self.checked_values@,
                        report,
                    ));
                    assert(reported_between(e, &s0, self, report));
                }
            }
            reports.push(report);
            k += 1;
        }
        reports
    }

    /// The place in the source of the value `i` itself.
    fn direct_source(&self, i: CoreIndex) -> (r: Option<Span>)
        ensures
            r == direct_source(self.checked_origins@, i),
    {
        if i.0 < self.checked_origins.len() {
            match self.checked_origins[i.0] {
                ValueOrigin::SourceCode(span) => Some(span),
                _ => None,
            }
        } else {
            None
        }
    }

    /// The place in the source of the value of which `i` is the type.
    fn typed_source(&self, i: CoreIndex) -> (r: Option<(CoreIndex, Span)>)
        ensures
            r == typed_source(self.checked_origins@, i),
    {
        if i.0 < self.checked_origins.len() {
            match self.checked_origins[i.0] {
                ValueOrigin::TypeOf(j) => match self.direct_source(j) {
                    Some(span) => Some((j, span)),
                    None => None,
                },
                _ => None,
            }
        } else {
            None
        }
    }

    /// The place in the source that `value` comes from, and whether it is the value there
    /// or the type of the value there.
    pub fn label_value(&self, value: CoreIndex) -> (r: Option<(Span, &'static str)>)
        ensures
            match label_fuel(self.checked_origins@, value, false, self.checked_origins@.len()) {
                Some((span, typed)) => r matches Some((s, d)) && s == span && d@ == (if typed {
                    "type of this value"@
                } else {
                    "this value"@
                }),
                None => r is None,
            },
    {
        let ghost origins = self.checked_origins@;
        let ghost target = label_fuel(origins, value, false, origins.len());
        let mut v = value;
        let mut typed = false;
        let mut fuel: usize = self.checked_origins.len();
        loop
            invariant
                origins == self.checked_origins@,
                target == label_fuel(self.checked_origins@, value, false, self.checked_origins@.len()),
                label_fuel(origins, v, typed, fuel as nat) == target,
            decreases fuel,
        {
            if fuel == 0 || v.0 >= self.checked_origins.len() {
                return None;
            }
            match self.checked_origins[v.0] {
                ValueOrigin::SourceCode(span) => {
                    let d = if typed {
                        "type of this value"
                    } else {
                        "this value"
                    };
                    return Some((span, d));
                },
                ValueOrigin::TypeOf(sub_value) => {
                    if typed {
                        return None;
                    }
                    typed = true;
                    v = sub_value;
                },
                ValueOrigin::FreeSub(w) => {
                    v = w;
                },
                ValueOrigin::Failure => {
                    return None;
                },
            }
            fuel = fuel - 1;
        }
    }
}

proof fn lemma_grows_refl(a: &PrismEnv)
    requires
        a.arena_wf(),
    ensures
        crate::lang::simplify::grows(a, a),
{
    assert(a.checked_values@.subrange(0, a.checked_values@.len() as int) =~= a.checked_values@);
    assert(a.checked_origins@.subrange(0, a.checked_origins@.len() as int) =~= a.checked_origins@);
}

} // verus!
