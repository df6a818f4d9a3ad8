use rucco::{RuccoArena, RuccoAtom, RuccoExp};

fn int_node(arena: &mut RuccoArena, i: i64) -> usize {
    arena.alloc_node(RuccoExp::Atom(RuccoAtom::Int(i)))
}

#[test]
fn test_alloc() {
    let mut arena = RuccoArena::default();
    let nil = arena.alloc_symbol("nil");
    let c1 = int_node(&mut arena, 1);
    let c2 = int_node(&mut arena, 2);
    let c3 = int_node(&mut arena, 3);

    let e1 = arena.alloc_node(RuccoExp::Cons { car: c1, cdr: nil });
    let e2 = arena.alloc_node(RuccoExp::Cons { car: c2, cdr: e1 });
    let e3 = arena.alloc_node(RuccoExp::Cons { car: c3, cdr: e2 });
    assert_eq!(arena.render(e3), "(3 2 1)");
}

#[test]
fn test_alloc_macro() {
    let mut arena = RuccoArena::default();
    let c1 = int_node(&mut arena, 1);
    let c2 = int_node(&mut arena, 2);
    let c3 = int_node(&mut arena, 3);

    let e1 = arena.alloc_list(vec![c1]);
    assert_eq!(arena.render(e1), "(1)");

    let e2 = arena.alloc_list(vec![c1, c2, c3]);
    assert_eq!(arena.render(e2), "(1 2 3)");

    let inner = arena.alloc_list(vec![c1, c2]);
    let e3 = arena.alloc_list(vec![inner, c3]);
    assert_eq!(arena.render(e3), "((1 2) 3)");

    let inner = arena.alloc_list(vec![c2, c3]);
    let e4 = arena.alloc_list(vec![c1, inner]);
    assert_eq!(arena.render(e4), "(1 (2 3))");
}

#[test]
fn test_alloc_macro_dotlist() {
    let mut arena = RuccoArena::default();
    let c1 = int_node(&mut arena, 1);
    let c2 = int_node(&mut arena, 2);
    let c3 = int_node(&mut arena, 3);

    let e1 = arena.alloc_list(vec![c1]);
    assert_eq!(arena.render(e1), "(1)");

    let e2 = arena.alloc_dotlist(vec![c1, c2]);
    assert_eq!(arena.render(e2), "(1 . 2)");

    let e3 = arena.alloc_dotlist(vec![c1, c2, c3, e1]);
    assert_eq!(arena.render(e3), "(1 2 3 1)");

    let tail = arena.alloc_list(vec![c1, c2]);
    let e4 = arena.alloc_dotlist(vec![c1, c2, c3, tail]);
    assert_eq!(arena.render(e4), "(1 2 3 1 2)");

    let tail = arena.alloc_dotlist(vec![c1, c2, c3]);
    let e5 = arena.alloc_dotlist(vec![c1, c2, c3, tail]);
    assert_eq!(arena.render(e5), "(1 2 3 1 2 . 3)");
}

#[test]
fn test_cons() {
    let mut arena = RuccoArena::default();
    let nil = arena.alloc_symbol("nil");
    let c1 = int_node(&mut arena, 1);
    let c2 = int_node(&mut arena, 2);
    let c3 = int_node(&mut arena, 3);

    let e1 = arena.alloc_cons(c1, nil);
    let e2 = arena.alloc_cons(c2, e1);
    let e3 = arena.alloc_cons(c3, e2);
    assert_eq!(arena.render(e3), "(3 2 1)");
}

#[test]
fn test_iter_ptr() {
    let mut arena = RuccoArena::default();
    let nil = arena.alloc_symbol("nil");
    let c1 = int_node(&mut arena, 1);
    let c2 = int_node(&mut arena, 2);
    let c3 = int_node(&mut arena, 3);

    let e1 = arena.alloc_cons(c1, nil);
    let e2 = arena.alloc_cons(c2, e1);
    let e3 = arena.alloc_cons(c3, e2);

    let items = arena.iter(e3).unwrap();
    let mut iter = items.iter();
    assert_eq!(*arena.get(*iter.next().unwrap()).unwrap(), RuccoExp::Atom(RuccoAtom::Int(3)));
    assert_eq!(*arena.get(*iter.next().unwrap()).unwrap(), RuccoExp::Atom(RuccoAtom::Int(2)));
    assert_eq!(*arena.get(*iter.next().unwrap()).unwrap(), RuccoExp::Atom(RuccoAtom::Int(1)));
    assert!(iter.next().is_none());
}
