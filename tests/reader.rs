use rucco::{Reader, RuccoArena, RuccoAtom, RuccoExp, RuccoReaderErr};

#[test]
fn test_read_atom_0() {
    let input = "";
    let arena = &mut RuccoArena::default();
    let mut reader = Reader::new(input);
    let exp = reader.read(arena).unwrap_err();
    assert_eq!(exp, RuccoReaderErr::UnexpectedEof);
}

#[test]
fn test_read_atom_1() {
    let input = "    ";
    let arena = &mut RuccoArena::default();
    let mut reader = Reader::new(input);
    let exp = reader.read(arena).unwrap_err();
    assert_eq!(exp, RuccoReaderErr::UnexpectedEof);
}

#[test]
fn test_read_atom_2() {
    let input = "42";
    let arena = &mut RuccoArena::default();
    let mut reader = Reader::new(input);
    let exp_ = reader.read(arena).unwrap();
    let exp_ptr = arena.get(exp_).unwrap();
    assert_eq!(*exp_ptr, RuccoExp::Atom(RuccoAtom::Int(42)));
}

#[test]
fn test_read_atom_3() {
    let input = "42.3";
    let arena = &mut RuccoArena::default();
    let mut reader = Reader::new(input);
    let exp = reader.read(arena).unwrap();
    let exp_ptr = arena.get(exp).unwrap();
    assert_eq!(*exp_ptr, RuccoExp::Atom(RuccoAtom::Float(format!("{}", 42.3f64))));
}

#[test]
fn test_read_atom_4() {
    let input = "   42.3";
    let arena = &mut RuccoArena::default();
    let mut reader = Reader::new(input);
    let exp = reader.read(arena).unwrap();
    let exp_ptr = arena.get(exp).unwrap();
    assert_eq!(*exp_ptr, RuccoExp::Atom(RuccoAtom::Float(format!("{}", 42.3f64))));
}

#[test]
fn test_read_atom_5() {
    let input = "a";
    let arena = &mut RuccoArena::default();
    let mut reader = Reader::new(input);
    let exp_ = reader.read(arena).unwrap();
    let exp_ptr = arena.get(exp_).unwrap();
    assert_eq!(*exp_ptr, RuccoExp::new_symbol("a"));
}

#[test]
fn test_read_atom_6() {
    let input = "   a";
    let arena = &mut RuccoArena::default();
    let mut reader = Reader::new(input);
    let exp_ = reader.read(arena).unwrap();
    let exp_ptr = arena.get(exp_).unwrap();
    assert_eq!(*exp_ptr, RuccoExp::new_symbol("a"));
}

#[test]
fn test_read_atom_7() {
    let input = "1+";
    let arena = &mut RuccoArena::default();
    let mut reader = Reader::new(input);
    let exp_ = reader.read(arena).unwrap();
    let exp_ptr = arena.get(exp_).unwrap();
    assert_eq!(*exp_ptr, RuccoExp::new_symbol("1+"));
}

#[test]
fn test_read_cons_1() {
    let input = "(1 2 3)";
    let arena = &mut RuccoArena::default();
    let mut reader = Reader::new(input);
    let exp_ = reader.read(arena).unwrap();
    assert_eq!(arena.render(exp_), "(1 2 3)".to_string());
}

#[test]
fn test_read_cons_2() {
    let input = "(1 2 . 3)";
    let arena = &mut RuccoArena::default();
    let mut reader = Reader::new(input);
    let exp_ = reader.read(arena).unwrap();
    assert_eq!(arena.render(exp_), "(1 2 . 3)".to_string());
}

#[test]
fn test_read_cons_3() {
    let input = "(1 2 3";
    let arena = &mut RuccoArena::default();
    let mut reader = Reader::new(input);
    let exp = reader.read(arena).unwrap_err();
    assert_eq!(exp, RuccoReaderErr::UnexpectedEof);
}

#[test]
fn test_read_cons_4() {
    let input = "(1 2 . 3";
    let arena = &mut RuccoArena::default();
    let mut reader = Reader::new(input);
    let exp = reader.read(arena).unwrap_err();
    assert_eq!(exp, RuccoReaderErr::UnexpectedEof);
}

#[test]
fn test_read_cons_5() {
    let input = "(1 2 3))";
    let arena = &mut RuccoArena::default();
    let mut reader = Reader::new(input);
    let exp_ = reader.read(arena).unwrap();
    assert_eq!(arena.render(exp_), "(1 2 3)".to_string());
}

#[test]
fn test_read_cons_6() {
    let input = "(1 2 . 3))";
    let arena = &mut RuccoArena::default();
    let mut reader = Reader::new(input);
    let exp_ = reader.read(arena).unwrap();
    assert_eq!(arena.render(exp_), "(1 2 . 3)".to_string());
}

#[test]
fn test_read_quote() {
    let input = "'a";
    let arena = &mut RuccoArena::default();
    let mut reader = Reader::new(input);
    let exp_ = reader.read(arena).unwrap();
    assert_eq!(arena.render(exp_), "(quote a)".to_string());
}
