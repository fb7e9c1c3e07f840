use prism_compiler::named::beta_eq::{beta_reduce_head, is_beta_eq};
use prism_compiler::named::term::Term;
use prism_compiler::named::type_check::{type_check, Vars};

/// Splits a program into identifiers and symbols.
fn tokenize(s: &str) -> Vec<&str> {
    let bytes = s.as_bytes();
    let mut toks = Vec::new();
    let mut i = 0;
    while i < bytes.len() {
        let c = bytes[i];
        if c.is_ascii_whitespace() {
            i += 1;
        } else if c.is_ascii_alphanumeric() || c == b'_' {
            let start = i;
            while i < bytes.len() && (bytes[i].is_ascii_alphanumeric() || bytes[i] == b'_') {
                i += 1;
            }
            toks.push(&s[start..i]);
        } else if c == b'-' && i + 1 < bytes.len() && bytes[i + 1] == b'>' {
            toks.push(&s[i..i + 2]);
            i += 2;
        } else {
            toks.push(&s[i..i + 1]);
            i += 1;
        }
    }
    toks
}

struct Parser<'a> {
    toks: Vec<&'a str>,
    pos: usize,
}

fn is_ident(t: &str) -> bool {
    t != "Type" && t != "let" && t.bytes().all(|c| c.is_ascii_alphanumeric() || c == b'_')
}

impl<'a> Parser<'a> {
    fn peek(&self) -> Option<&'a str> {
        self.toks.get(self.pos).copied()
    }

    fn peek_at(&self, k: usize) -> Option<&'a str> {
        self.toks.get(self.pos + k).copied()
    }

    fn next(&mut self) -> &'a str {
        let t = self.toks[self.pos];
        self.pos += 1;
        t
    }

    fn expect(&mut self, t: &str) {
        assert_eq!(self.next(), t);
    }

    fn term(&mut self) -> Term<'a> {
        match self.peek() {
            Some("let") => {
                self.next();
                let n = self.next();
                self.expect(":");
                let t = self.term();
                self.expect("=");
                let v = self.term();
                self.expect(";");
                let b = self.term();
                Term::Let { n, t: Box::new(t), v: Box::new(v), b: Box::new(b) }
            }
            Some("/") => {
                self.next();
                let mut binders = Vec::new();
                loop {
                    let n = self.next();
                    self.expect(":");
                    let at = self.term();
                    binders.push((n, at));
                    if self.peek() == Some(",") {
                        self.next();
                    } else {
                        self.expect(".");
                        break;
                    }
                }
                let mut b = self.term();
                while let Some((n, at)) = binders.pop() {
                    b = Term::FunConstruct { n, at: Box::new(at), b: Box::new(b) };
                }
                b
            }
            _ => self.arrow(),
        }
    }

    fn arrow(&mut self) -> Term<'a> {
        if self.peek() == Some("(")
            && self.peek_at(1).map_or(false, is_ident)
            && self.peek_at(2) == Some(":")
        {
            self.next();
            let n = self.next();
            self.expect(":");
            let at = self.term();
            self.expect(")");
            self.expect("->");
            let bt = self.arrow();
            return Term::FunType { n, at: Box::new(at), bt: Box::new(bt) };
        }
        let l = self.app();
        if self.peek() == Some("->") {
            self.next();
            let r = self.arrow();
            Term::FunType { n: "_", at: Box::new(l), bt: Box::new(r) }
        } else {
            l
        }
    }

    fn starts_atom(&self) -> bool {
        match self.peek() {
            Some("(") | Some("Type") => true,
            Some(t) => is_ident(t),
            None => false,
        }
    }

    fn app(&mut self) -> Term<'a> {
        let mut f = self.atom();
        while self.starts_atom() {
            let a = self.atom();
            f = Term::FunDestruct { f: Box::new(f), a: Box::new(a) };
        }
        f
    }

    fn atom(&mut self) -> Term<'a> {
        match self.next() {
            "Type" => Term::Type,
            "(" => {
                let t = self.term();
                self.expect(")");
                t
            }
            n => Term::Var { n },
        }
    }
}

fn parse(input: &str) -> Term<'_> {
    let mut p = Parser { toks: tokenize(input), pos: 0 };
    let t = p.term();
    assert_eq!(p.pos, p.toks.len(), "unparsed input in {input}");
    t
}

fn assert_correct(input: &str, val: &str) {
    let term = parse(input);
    let reduced = beta_reduce_head(term);
    assert_eq!(reduced.to_debug_string(), val);
}

fn assert_beta_eq(t1: &str, t2: &str) {
    assert!(is_beta_eq(parse(t1), parse(t2)));
}

fn assert_beta_neq(t1: &str, t2: &str) {
    assert!(!is_beta_eq(parse(t1), parse(t2)));
}

fn assert_type(term: &str, typ: &str) {
    let term = parse(term);
    let mut vars = Vars::new();
    let typed = type_check(&term, &mut vars).unwrap();
    assert_eq!(typed.to_debug_string(), typ);
}

#[test]
fn test_beta_reduce_head() {
    assert_correct("Type", "Type");
    assert_correct("(/T:Type. T) Type", "Type");
    assert_correct("(/T:Type, x:T. x)", "/T:(Type).(/x:(T).(x))");
    assert_correct("(/T:Type, x:T. x) Type", "/x:(Type).(x)");
    assert_correct("(/T:Type, x:T. x) Type Type", "Type");
}

#[test]
fn test_beta_eq_simple() {
    assert_beta_eq("Type", "Type");
    assert_beta_neq("Type", "(/T:Type. T)");
}

#[test]
fn test_beta_eq_alpha() {
    assert_beta_eq("(/S:Type. S)", "(/T:Type. T)");
    assert_beta_eq("(S : Type) -> Type", "(T : Type) -> Type");
    assert_beta_eq("(S : Type) -> S", "(T : Type) -> T");

    assert_beta_eq("x", "x");
    assert_beta_neq("x", "y");
    assert_beta_eq("/x:y.x", "/a:y.a");
    assert_beta_neq("/x:y.x", "/x:a.x");
    assert_beta_eq("(/x:y->y.x) (/x:y.x)", "(/a:y->a.a) (/b:y.b)");
    assert_beta_eq("(a:t)->a", "(b:t)->b");
    assert_beta_eq("(/x:Type,x:x.x) y", "(/z:y.z)")
}

#[test]
fn test_beta_eq_beta() {
    assert_beta_eq("(/T:Type.T)", "(/T:Type. (/S:Type.S) T)");
    assert_beta_eq("(/T:Type.T) Type", "Type");
    assert_beta_eq("(/T:Type,e:T.e) Type Type", "Type");
    assert_beta_neq("(/T:Type.(/T:Type.T)) Type", "Type");
}

#[test]
fn simple() {
    assert_type("Type", "Type");
    assert_type("/x:Type.(t:Type)->x", "(x:Type)->(Type)");
    assert_type("(/x:Type.((t:x)->x)) Type", "Type");
    assert_type("(/x:Type.x) Type", "Type");
}

#[test]
fn identities() {
    assert_type("(/T:Type,x:T.x)", "(T:Type)->((x:T)->(T))");
    assert_type("(/T:Type,x:T.x) Type", "(x:Type)->(Type)");
}

#[test]
fn complex_subst() {
    assert_type(
        "let x : (T : Type) -> T -> T = / T : Type, x : T. x;x (Type -> Type)",
        "(x:(_:Type)->(Type))->((_:Type)->(Type))",
    );
    assert_type(
        "let x : (T : Type) -> T -> T = / T : Type, x : T. x;x ((T: Type) -> T)",
        "(x:(T:Type)->(T))->((T:Type)->(T))",
    );
}

#[test]
fn id_with_id() {
    assert_type(
        "/a:Type. (/x: (/y: Type. y) a. x)",
        "(a:Type)->((x:(/y:(Type).(y) a))->((/y:(Type).(y) a)))",
    );
    assert_type(
        "(/a:Type. (/x: (/y: Type. y) a. x)) Type",
        "(x:(/y:(Type).(y) Type))->((/y:(Type).(y) Type))",
    );
    assert_type(
        "(/a:Type. (/x: (/y: Type. y) a. x)) Type (Type -> Type)",
        "(/y:(Type).(y) Type)",
    );
}

#[test]
fn substitution_replaces_free_occurrences_only() {
    let t = parse("(/x:Type. x) x");
    let v = parse("Type");
    let r = t.subst_self("x", &v);
    assert_eq!(r.to_debug_string(), "(/x:(Type).(x) Type)");
}

#[test]
fn type_check_reports_unknown_variable() {
    let term = parse("y");
    let mut vars = Vars::new();
    assert!(type_check(&term, &mut vars).is_err());
}

#[test]
fn beta_eq_is_reflexive_on_example() {
    let a = "(/T:Type, x:T. x) Type";
    assert_beta_eq(a, a);
}

/// A wrapper type in Church encoding, and a function that unwraps it.
const CHURCH_WRAPPER: &str = "let wrap : (p : Type) -> Type = /p : Type. (c : Type) -> (p -> c) -> c;
/p : Type, a : wrap p. a p (/x : p. x)";

/// Pairs in Church encoding, with their constructor and projections.
const CHURCH_AND: &str = "let conj : (A : Type) -> (B : Type) -> A -> B -> (c : Type) -> (f : A -> B -> c) -> c =
    /A : Type, B : Type, a : A, b : B, c : Type, f : A -> B -> c. f a b;
let proj1 : (A : Type) -> (B : Type) -> ((c : Type) -> (f : A -> B -> c) -> c) -> A =
    /A : Type, B : Type, p : (c : Type) -> (f : A -> B -> c) -> c. p A (/a : A, b : B. a);
let proj2 : (A : Type) -> (B : Type) -> ((c : Type) -> (f : A -> B -> c) -> c) -> B =
    /A : Type, B : Type, p : (c : Type) -> (f : A -> B -> c) -> c. p B (/a : A, b : B. b);
";

#[test]
fn church_wrapper() {
    assert_type(
        CHURCH_WRAPPER,
        "(p:Type)->((a:(/p:(Type).((c:Type)->((_:(_:p)->(c))->(c))) p))->(p))",
    );
}

#[test]
fn church_and() {
    assert_type(
        &format!("{}{}", CHURCH_AND, "conj Type Type (Type -> Type) (Type -> Type -> Type)"),
        "(c:Type)->((f:(_:Type)->((_:Type)->(c)))->(c))",
    );
    assert_type(
        &format!(
            "{}{}",
            CHURCH_AND,
            "proj1 Type Type (conj Type Type (Type -> Type) (Type -> Type -> Type))"
        ),
        "Type",
    );
    assert_type(
        &format!(
            "{}{}",
            CHURCH_AND,
            "proj2 Type Type (conj Type Type (Type -> Type) (Type -> Type -> Type))"
        ),
        "Type",
    );
}

#[test]
fn stuck_application_stays_in_head_normal_form() {
    assert_correct("x y", "(x y)");
    assert_correct("(/T:Type. T) x y", "(x y)");
    assert_beta_neq("x y", "x z");
    assert_beta_neq("x y", "x");
    assert_beta_eq("x y", "(/T:Type. x) Type y");
}

#[test]
fn a_successful_check_leaves_the_variables_as_they_were() {
    let term = parse("/x:Type.(t:x)->x");
    let mut vars = Vars::new();
    // `x` is in scope outside with another type; the binder shadows it for its body only
    vars.insert("x", Term::FunType { n: "_", at: Box::new(Term::Type), bt: Box::new(Term::Type) });
    let typed = type_check(&term, &mut vars).unwrap();
    assert_eq!(typed.to_debug_string(), "(x:Type)->(Type)");
    assert_eq!(
        vars.get("x").unwrap().to_debug_string(),
        "(_:Type)->(Type)"
    );
    assert!(vars.get("t").is_none());
}
