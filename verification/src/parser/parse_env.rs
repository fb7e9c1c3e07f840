use crate::coc::UnionIndex;
use crate::text::str_eq;
use vstd::prelude::*;

verus! {

/// A scope of the parser: names bound to substitutions or to variables of some type.
/// The latest binding comes last.
#[derive(Debug)]
pub struct ParsedEnv {
    pub nodes: Vec<ParsedEnvNode>,
}

/// A binding of a parser scope.
#[derive(Debug)]
pub struct ParsedEnvNode {
    pub name: String,
    pub value: ParsedEnvNodeValue,
}

/// What a name of a parser scope is bound to.
#[derive(Debug)]
pub enum ParsedEnvNodeValue {
    Substitute { subst: UnionIndex, subst_env: ParsedEnv },
    Type,
}

/// A value that the parser hands to a constructor of a parser scope.
#[derive(Debug)]
pub enum ParsedEnvArg {
    Name(String),
    Index(UnionIndex),
    Env(ParsedEnv),
}

/// The latest binding of `name` among `nodes` (latest last): how many bindings came after
/// it, and its value.
pub open spec fn spec_get(nodes: Seq<ParsedEnvNode>, name: Seq<char>) -> Option<(nat, ParsedEnvNodeValue)>
    decreases nodes.len(),
{
    if nodes.len() == 0 {
        None
    } else if nodes.last().name@ == name {
        Some((0, nodes.last().value))
    } else {
        match spec_get(nodes.drop_last(), name) {
            Some((j, v)) => Some((j + 1, v)),
            None => None,
        }
    }
}

/// The latest binding found by looking back from the end is the one `spec_get` gives.
proof fn lemma_spec_get_found(nodes: Seq<ParsedEnvNode>, name: Seq<char>, i: int)
    requires
        0 <= i < nodes.len(),
        nodes[nodes.len() - 1 - i].name@ == name,
        forall|j: int| nodes.len() - i <= j < nodes.len() ==> #[trigger] nodes[j].name@ != name,
    ensures
        spec_get(nodes, name) == Some((i as nat, nodes[nodes.len() - 1 - i].value)),
    decreases i,
{
    if i > 0 {
        let d = nodes.drop_last();
        assert(nodes[nodes.len() - 1].name@ != name);
        assert forall|j: int| d.len() - (i - 1) <= j < d.len() implies #[trigger] d[j].name@ != name by {
            assert(d[j] == nodes[j]);
        }
        lemma_spec_get_found(d, name, i - 1);
    }
}

/// When no binding has the name, `spec_get` finds none.
proof fn lemma_spec_get_none(nodes: Seq<ParsedEnvNode>, name: Seq<char>)
    requires
        forall|j: int| 0 <= j < nodes.len() ==> #[trigger] nodes[j].name@ != name,
    ensures
        spec_get(nodes, name) is None,
    decreases nodes.len(),
{
    if nodes.len() > 0 {
        let d = nodes.drop_last();
        assert forall|j: int| 0 <= j < d.len() implies #[trigger] d[j].name@ != name by {
            assert(d[j] == nodes[j]);
        }
        assert(nodes[nodes.len() - 1].name@ != name);
        lemma_spec_get_none(d, name);
    }
}

/// Looking a name up right after binding it finds that binding, with no binding after
/// it; looking up another name finds what it found before, one binding further back.
pub proof fn lemma_get_after_bind(
    nodes: Seq<ParsedEnvNode>,
    name: String,
    value: ParsedEnvNodeValue,
    other: Seq<char>,
)
    ensures
        spec_get(nodes.push(ParsedEnvNode { name, value }), name@) == Some((0nat, value)),
        other != name@ ==> spec_get(nodes.push(ParsedEnvNode { name, value }), other) == match spec_get(
            nodes,
            other,
        ) {
            Some((j, v)) => Some((j + 1, v)),
            None => None,
        },
{
    assert(nodes.push(ParsedEnvNode { name, value }).drop_last() =~= nodes);
}

impl ParsedEnv {
    /// Builds the parser scope of the constructor `constructor`: `Nil` is the empty scope,
    /// `Substitute` binds a name to a substitution in front of the rest, and `Type` binds a
    /// name to a variable in front of the rest. `None` for another constructor or other
    /// arguments.
    pub fn from_construct(constructor: &str, args: Vec<ParsedEnvArg>) -> (r: Option<ParsedEnv>)
        ensures
            constructor@ == "Nil"@ ==> (r is Some <==> args@.len() == 0),
            constructor@ == "Nil"@ && r is Some ==> r->0.nodes@.len() == 0,
            constructor@ == "Type"@ ==> (r is Some <==> (args@.len() == 2
                && args@[0] is Name && args@[1] is Env)),
            constructor@ == "Type"@ && r is Some ==> {
                let next = args@[1]->Env_0;
                r->0.nodes@ == next.nodes@.push(
                    ParsedEnvNode { name: args@[0]->Name_0, value: ParsedEnvNodeValue::Type },
                )
            },
            constructor@ == "Substitute"@ ==> (r is Some <==> (args@.len() == 4 && args@[0] is Name
                && args@[1] is Index && args@[2] is Env && args@[3] is Env)),
            constructor@ == "Substitute"@ && r is Some ==> {
                let next = args@[3]->Env_0;
                r->0.nodes@ == next.nodes@.push(
                    ParsedEnvNode {
                        name: args@[0]->Name_0,
                        value: ParsedEnvNodeValue::Substitute {
                            subst: args@[1]->Index_0,
                            subst_env: args@[2]->Env_0,
                        },
                    },
                )
            },
            !(constructor@ == "Nil"@ || constructor@ == "Type"@ || constructor@ == "Substitute"@)
                ==> r is None,
    {
        proof {
            reveal_strlit("Nil");
            reveal_strlit("Type");
            reveal_strlit("Substitute");
            assert("Type"@.len() != "Substitute"@.len());
            assert("Nil"@.len() != "Substitute"@.len());
            assert("Nil"@.len() != "Type"@.len());
        }
        let ghost a = args@;
        let mut args = args;
        if str_eq(constructor, "Nil") {
            if args.len() == 0 {
                Some(ParsedEnv::new_empty())
            } else {
                None
            }
        } else if str_eq(constructor, "Type") {
            if args.len() != 2 {
                return None;
            }
            let next = args.pop();
            let name = args.pop();
            assert(a[1] == next->0 && a[0] == name->0);
            match (name, next) {
                (Some(ParsedEnvArg::Name(name)), Some(ParsedEnvArg::Env(next))) => Some(
                    next.bind(name, ParsedEnvNodeValue::Type),
                ),
                _ => None,
            }
        } else if str_eq(constructor, "Substitute") {
            if args.len() != 4 {
                return None;
            }
            let next = args.pop();
            let subst_env = args.pop();
            let subst = args.pop();
            let name = args.pop();
            assert(a[3] == next->0 && a[2] == subst_env->0 && a[1] == subst->0 && a[0] == name->0);
            match (name, subst, subst_env, next) {
                (
                    Some(ParsedEnvArg::Name(name)),
                    Some(ParsedEnvArg::Index(subst)),
                    Some(ParsedEnvArg::Env(subst_env)),
                    Some(ParsedEnvArg::Env(next)),
                ) => Some(next.bind(name, ParsedEnvNodeValue::Substitute { subst, subst_env })),
                _ => None,
            }
        } else {
            None
        }
    }

    /// The empty scope.
    pub fn new_empty() -> (r: ParsedEnv)
        ensures
            r.nodes@.len() == 0,
    {
        ParsedEnv { nodes: Vec::new() }
    }

    /// The scope with `name` bound to `value` on top.
    pub fn bind(self, name: String, value: ParsedEnvNodeValue) -> (r: ParsedEnv)
        ensures
            r.nodes@ == self.nodes@.push(ParsedEnvNode { name, value }),
    {
        let mut r = self;
        r.nodes.push(ParsedEnvNode { name, value });
        r
    }

    /// The latest binding of `name`: how many bindings came after it, and its value.
    pub fn get(&self, name: &str) -> (r: Option<(usize, &ParsedEnvNodeValue)>)
        ensures
            match r {
                Some((i, v)) => {
                    &&& i < self.nodes@.len()
                    &&& self.nodes@[self.nodes@.len() - 1 - i].name@ == name@
                    &&& *v == self.nodes@[self.nodes@.len() - 1 - i].value
                    &&& forall|j: int|
                        self.nodes@.len() - i <= j < self.nodes@.len() ==> #[trigger] self.nodes@[j].name@
                            != name@
                },
                None => forall|j: int| 0 <= j < self.nodes@.len() ==> #[trigger] self.nodes@[j].name@ != name@,
            },
            match r {
                Some((i, v)) => spec_get(self.nodes@, name@) == Some((i as nat, *v)),
                None => spec_get(self.nodes@, name@) is None,
            },
    {
        let n = self.nodes.len();
        let mut i: usize = 0;
        while i < n
            invariant
                i <= n,
                n == self.nodes@.len(),
                forall|j: int| n - i <= j < n ==> #[trigger] self.nodes@[j].name@ != name@,
            decreases n - i,
        {
            let node = &self.nodes[n - 1 - i];
            if str_eq(node.name.as_str(), name) {
                proof {
                    lemma_spec_get_found(self.nodes@, name@, i as int);
                }
                return Some((i, &node.value));
            }
            i += 1;
        }
        proof {
            lemma_spec_get_none(self.nodes@, name@);
        }
        None
    }
}

} // verus!
