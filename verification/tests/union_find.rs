use prism_compiler::union_find::UnionFind;
use prism_compiler::coc::env::{Env, EnvEntry};
use prism_compiler::union_find::UnionIndex;

#[test]
fn test_simple() {
    let mut uf = UnionFind::new();
    let x = uf.add();
    let y = uf.add();

    assert_eq!(uf.find(x), x);
    assert_eq!(uf.find(y), y);

    uf.union(x, y);

    assert_eq!(uf.find(x), uf.find(y));
}

#[test]
fn union_joins_three_classes_transitively() {
    let mut uf = UnionFind::new();
    let a = uf.add();
    let b = uf.add();
    let c = uf.add();
    assert_eq!(uf.len(), 3);
    uf.union(a, b);
    assert_ne!(uf.find(a), uf.find(c));
    uf.union(b, c);
    assert_eq!(uf.find(a), uf.find(c));
}

#[test]
fn length_counts_the_added_elements() {
    let mut uf = UnionFind::new();
    assert_eq!(uf.len(), 0);
    let a = uf.add();
    let b = uf.add();
    let c = uf.add();
    uf.union(a, b);
    uf.find(c);
    uf.union(c, a);
    assert_eq!(uf.len(), 3);
}

#[test]
fn a_scope_holds_its_entries_newest_first() {
    use_scope();
}

fn use_scope() {
    let s = Env::new();
    assert!(s.is_empty());
    let s1 = s.cons(EnvEntry::CType(UnionIndex(3)));
    let s2 = s1.cons(EnvEntry::RType);
    let s3 = s2.cons(EnvEntry::RSubst(UnionIndex(7), s1.copy()));
    assert_eq!(s3.len(), 3);
    assert!(matches!(s3.index(0), EnvEntry::RSubst(UnionIndex(7), _)));
    assert!(matches!(s3.index(1), EnvEntry::RType));
    assert!(matches!(s3.index(2), EnvEntry::CType(UnionIndex(3))));
    let back = s3.shift(2);
    assert_eq!(back.len(), 1);
    assert!(matches!(back.index(0), EnvEntry::CType(UnionIndex(3))));
    // the scope shifted from is left as it was
    assert_eq!(s3.len(), 3);
    match s3.index(0).copy() {
        EnvEntry::RSubst(v, inner) => {
            assert_eq!(v, UnionIndex(7));
            assert_eq!(inner.len(), 1);
        },
        _ => panic!("a copy keeps the kind of the entry"),
    }
}
