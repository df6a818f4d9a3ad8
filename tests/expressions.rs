use rucco::{Reader, RuccoArena, RuccoAtom, RuccoDataType, RuccoExp, RuccoReaderErr, RuccoRuntimeErr};

fn read_text(src: &str) -> String {
    let mut arena = RuccoArena::new();
    let exp = rucco::read(src, &mut arena).unwrap();
    arena.render(exp)
}

#[test]
fn canonical_lists_read_back_unchanged() {
    for src in ["(1 2 3)", "(a -7 2.5)", "(x)", "(1 (2 3) 4)", "nil", "-9223372036854775808"] {
        assert_eq!(read_text(src), src);
    }
}

#[test]
fn proper_list_renders_without_dot() {
    let text = read_text("(1 2 3)");
    assert!(!text.contains('.'));
    assert_eq!(read_text("(1 2 . 3)"), "(1 2 . 3)");
    assert_eq!(read_text("(1 . (2 3))"), "(1 2 3)");
    assert_eq!(read_text("(1 . nil)"), "(1)");
}

#[test]
fn quote_shorthand_equals_quote_form() {
    let mut arena = RuccoArena::new();
    let a = rucco::read("'a", &mut arena).unwrap();
    let b = rucco::read("(quote a)", &mut arena).unwrap();
    assert!(arena.equal(a, b));
    let c = rucco::read("(quote b)", &mut arena).unwrap();
    assert!(!arena.equal(a, c));
}

#[test]
fn interning_returns_same_node() {
    let mut arena = RuccoArena::new();
    let x1 = arena.alloc_symbol("x");
    let x2 = arena.alloc_symbol("x");
    let y = arena.alloc_symbol("y");
    assert_eq!(x1, x2);
    assert_ne!(x1, y);
    let a = rucco::read("(x x)", &mut arena).unwrap();
    let items = arena.iter(a).unwrap();
    assert_eq!(items, vec![x1, x1]);
}

#[test]
fn truncated_input_is_unexpected_eof() {
    for src in ["(1 2 3", "(1 2 . 3", "", "   ", "(", "'", "(1 .", ")"] {
        let mut arena = RuccoArena::new();
        assert_eq!(rucco::read(src, &mut arena), Err(RuccoReaderErr::UnexpectedEof));
    }
}

#[test]
fn trailing_input_is_left_unread() {
    let mut arena = RuccoArena::new();
    let mut reader = Reader::new("(1 2 3))");
    let exp = reader.read(&mut arena).unwrap();
    assert_eq!(arena.render(exp), "(1 2 3)");
    assert_eq!(reader.offset(), 7);
    assert_eq!(reader.read(&mut arena), Err(RuccoReaderErr::UnexpectedEof));
}

#[test]
fn several_forms_read_in_turn() {
    let mut arena = RuccoArena::new();
    let mut reader = Reader::new("a\t(b)\n 'c");
    let a = reader.read(&mut arena).unwrap();
    let b = reader.read(&mut arena).unwrap();
    let c = reader.read(&mut arena).unwrap();
    assert_eq!(arena.render(a), "a");
    assert_eq!(arena.render(b), "(b)");
    assert_eq!(arena.render(c), "(quote c)");
}

#[test]
fn junk_after_dotted_tail_is_unexpected_char() {
    let mut arena = RuccoArena::new();
    assert_eq!(
        rucco::read("(1 . 2 3)", &mut arena),
        Err(RuccoReaderErr::UnexpectedChar { char: '3' })
    );
}

#[test]
fn empty_parens_read_as_nil() {
    let mut arena = RuccoArena::new();
    let nil = arena.alloc_symbol("nil");
    assert_eq!(rucco::read("( )", &mut arena), Ok(nil));
}

#[test]
fn numbers_and_symbols_are_told_apart() {
    assert_eq!(read_text("+3.140"), "3.14");
    assert_eq!(read_text(".5"), "0.5");
    assert_eq!(read_text("-0.0"), "-0");
    assert_eq!(read_text("007"), "7");
    assert_eq!(read_text("+12"), "12");
    assert_eq!(read_text("1."), "1.");
    assert_eq!(read_text("9223372036854775807"), "9223372036854775807");
    let mut arena = RuccoArena::new();
    let big = rucco::read("9223372036854775808", &mut arena).unwrap();
    assert_eq!(*arena.get(big).unwrap(), RuccoExp::new_symbol("9223372036854775808"));
    let neg = rucco::read("-42", &mut arena).unwrap();
    assert_eq!(*arena.get(neg).unwrap(), RuccoExp::Atom(RuccoAtom::Int(-42)));
    let sym = rucco::read("a;b", &mut arena).unwrap();
    assert_eq!(*arena.get(sym).unwrap(), RuccoExp::new_symbol("a;b"));
}

#[test]
fn pair_accessor_on_integer_is_wrong_type() {
    let node = RuccoExp::Atom(RuccoAtom::Int(42));
    match node.car_weak() {
        Err(RuccoRuntimeErr::WrongTypeArgument { name, expected, actual }) => {
            assert_eq!(name, "car");
            assert_eq!(expected, RuccoDataType::Cons);
            assert_eq!(actual.data_type, vec![RuccoDataType::Atom, RuccoDataType::Int]);
            assert_eq!(actual.value, "42");
        },
        other => panic!("unexpected {:?}", other),
    }
    assert!(matches!(node.cdr_weak(), Err(RuccoRuntimeErr::WrongTypeArgument { .. })));
    let arena = RuccoArena::new();
    assert!(matches!(node.car(&arena), Err(RuccoRuntimeErr::WrongTypeArgument { .. })));
}

#[test]
fn accessors_on_pairs() {
    let mut arena = RuccoArena::new();
    let exp = rucco::read("(1 . 2)", &mut arena).unwrap();
    let node = arena.get(exp).unwrap().clone();
    assert!(node.is_cons() && !node.is_atom());
    let first = node.car(&arena).unwrap();
    assert!(first.is_int() && !first.is_symbol());
    assert_eq!(*node.cdr(&arena).unwrap(), RuccoExp::Atom(RuccoAtom::Int(2)));
    let dangling = RuccoExp::Cons { car: 99, cdr: 99 };
    assert!(matches!(dangling.car(&arena), Err(RuccoRuntimeErr::InvalidReference)));
    assert!(matches!(arena.get(99), Err(RuccoRuntimeErr::InvalidReference)));
}

#[test]
fn set_first_and_rest_patch_pairs() {
    let mut arena = RuccoArena::new();
    let list = rucco::read("(1 2)", &mut arena).unwrap();
    let x = rucco::read("42", &mut arena).unwrap();
    assert_eq!(arena.set_first(list, x).unwrap(), x);
    assert_eq!(arena.render(list), "(42 2)");
    assert_eq!(arena.set_rest(list, x).unwrap(), x);
    assert_eq!(arena.render(list), "(42 . 42)");
    match arena.set_rest(x, list) {
        Err(RuccoRuntimeErr::WrongTypeArgument { name, .. }) => assert_eq!(name, "setcdr"),
        other => panic!("unexpected {:?}", other),
    }
    assert!(matches!(arena.set_first(1000, x), Err(RuccoRuntimeErr::InvalidReference)));
    let mut node = RuccoExp::Cons { car: 1, cdr: 2 };
    assert_eq!(node.setcar(5).unwrap(), 5);
    assert_eq!(node.setcdr(6).unwrap(), 6);
    assert_eq!(node, RuccoExp::Cons { car: 5, cdr: 6 });
    let mut atom = RuccoExp::new_symbol("a");
    assert!(matches!(atom.setcar(5), Err(RuccoRuntimeErr::WrongTypeArgument { .. })));
}

#[test]
fn iteration_reports_improper_lists() {
    let mut arena = RuccoArena::new();
    let dotted = rucco::read("(1 2 . 3)", &mut arena).unwrap();
    match arena.iter(dotted) {
        Err(RuccoRuntimeErr::WrongTypeArgument { name, .. }) => assert_eq!(name, "iter"),
        other => panic!("unexpected {:?}", other),
    }
    let five = rucco::read("5", &mut arena).unwrap();
    match arena.iter(five) {
        Err(RuccoRuntimeErr::WrongTypeArgument { name, .. }) => assert_eq!(name, "into_iter"),
        other => panic!("unexpected {:?}", other),
    }
    let nil = arena.alloc_symbol("nil");
    assert_eq!(arena.iter(nil).unwrap(), Vec::<usize>::new());
}

#[test]
fn extract_args_pads_with_nil() {
    let mut arena = RuccoArena::new();
    let nil = arena.alloc_symbol("nil");
    let args = rucco::read("(a b)", &mut arena).unwrap();
    let v = arena.extract_args(args, "f", 1, 4, nil).unwrap();
    assert_eq!(v.len(), 4);
    assert_eq!(arena.render(v[0]), "a");
    assert_eq!(arena.render(v[1]), "b");
    assert_eq!(v[2], nil);
    assert_eq!(v[3], nil);
    assert!(matches!(
        arena.extract_args(args, "f", 3, 4, nil),
        Err(RuccoRuntimeErr::WrongNumberOfArguments { actual: 2, .. })
    ));
    assert!(matches!(
        arena.extract_args(args, "f", 1, 2, 5000),
        Err(RuccoRuntimeErr::InvalidReference)
    ));
}

#[test]
fn structural_equality_is_deep() {
    let mut arena = RuccoArena::new();
    let a = rucco::read("(1 (2 x) . 3.0)", &mut arena).unwrap();
    let b = rucco::read("(1 (2 x) . 3)", &mut arena).unwrap();
    let c = rucco::read("(1 (2 x) . 3.00)", &mut arena).unwrap();
    assert!(!arena.equal(a, b));
    assert!(arena.equal(a, c));
    let cell = arena.cell();
    assert_eq!(arena.render(cell), "(nil)");
    let d = arena.actual_data_type(a);
    assert_eq!(d.data_type, vec![RuccoDataType::Cons, RuccoDataType::List]);
    assert_eq!(d.value, "(1 (2 x) . 3)");
}
