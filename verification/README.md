# prism_compiler

A compiler front end for a dependently typed language, verified with Verus.

- `named`: a named calculus of constructions: terms, substitution, head reduction, beta
  equality and a type checker, with spans and parse errors of its parser.
- `lang`: the core language with de Bruijn indices in an arena: head reduction, beta
  reduction, simplification, beta equality, display, type inference with unification of
  free values, and error reports.
- `parser`: parsed expressions with names, and how they become core expressions,
  including expressions written in grammars that programs define.
- `desugar` and `coc`: source expressions with named scopes, and how they become
  partial expressions.
- `union_find`: a union-find structure with path compression.
- `text`: decimal text of numbers, both ways.

`app/` holds the command line program: it reads a file, runs the prism grammar over it
with the parser crate of the prism project, and prints the core program, its type and the
errors, which the library reports as data.
