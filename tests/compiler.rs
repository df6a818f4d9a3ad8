use rucco::{
    compile, eval, rep, RuccoArena, RuccoDataType, RuccoEnv, RuccoErr, RuccoReaderErr,
    RuccoRuntimeErr,
};

fn compiled_text(src: &str) -> Result<String, RuccoRuntimeErr> {
    let mut arena = RuccoArena::new();
    let exp = rucco::read(src, &mut arena).unwrap();
    let code = compile(&exp, &mut arena)?;
    Ok(arena.render(code))
}

#[test]
fn compile_integer_loads_constant_then_stops() {
    assert_eq!(compiled_text("42").unwrap(), "((ldc 42) (stop))");
}

#[test]
fn compile_float_and_booleans_are_constants() {
    assert_eq!(compiled_text("1.50").unwrap(), "((ldc 1.5) (stop))");
    assert_eq!(compiled_text("t").unwrap(), "((ldc t) (stop))");
    assert_eq!(compiled_text("nil").unwrap(), "((ldc nil) (stop))");
}

#[test]
fn compile_quote_loads_datum_unevaluated() {
    assert_eq!(compiled_text("(quote a)").unwrap(), "((ldc a) (stop))");
    assert_eq!(compiled_text("'(if 1)").unwrap(), "((ldc (if 1)) (stop))");
}

#[test]
fn compile_if_selects_between_joined_branches() {
    assert_eq!(
        compiled_text("(if t 1 2)").unwrap(),
        "((ldc t) (sel ((ldc 1) (join)) ((ldc 2) (join))) (stop))"
    );
}

#[test]
fn compile_if_without_else_uses_nil() {
    assert_eq!(
        compiled_text("(if 1 2)").unwrap(),
        "((ldc 1) (sel ((ldc 2) (join)) ((ldc nil) (join))) (stop))"
    );
}

#[test]
fn compile_nested_if_keeps_only_first_test_instruction() {
    assert_eq!(
        compiled_text("(if (if t 1 2) 3 4)").unwrap(),
        "((ldc t) (sel ((ldc 3) (join)) ((ldc 4) (join))) (stop))"
    );
}

#[test]
fn compile_if_with_too_few_arguments() {
    match compiled_text("(if 1)") {
        Err(RuccoRuntimeErr::WrongNumberOfArguments { name, expected, actual }) => {
            assert_eq!(name, "compile");
            assert_eq!(expected, (2, 3));
            assert_eq!(actual, 1);
        },
        other => panic!("unexpected {:?}", other),
    }
    match compiled_text("(if)") {
        Err(RuccoRuntimeErr::WrongNumberOfArguments { actual, .. }) => assert_eq!(actual, 0),
        other => panic!("unexpected {:?}", other),
    }
}

#[test]
fn compile_if_with_too_many_arguments() {
    match compiled_text("(if 1 2 3 4)") {
        Err(RuccoRuntimeErr::WrongNumberOfArguments { expected, actual, .. }) => {
            assert_eq!(expected, (2, 3));
            assert_eq!(actual, 4);
        },
        other => panic!("unexpected {:?}", other),
    }
}

#[test]
fn compile_if_with_dotted_arguments() {
    match compiled_text("(if 1 2 . 3)") {
        Err(RuccoRuntimeErr::WrongTypeArgument { name, expected, actual }) => {
            assert_eq!(name, "iter");
            assert_eq!(expected, RuccoDataType::Cons);
            assert_eq!(actual.data_type, vec![RuccoDataType::Atom, RuccoDataType::Int]);
            assert_eq!(actual.value, "3");
        },
        other => panic!("unexpected {:?}", other),
    }
}

#[test]
fn compile_variable_is_void() {
    match compiled_text("x") {
        Err(RuccoRuntimeErr::VoidVariable { name }) => assert_eq!(name, "x"),
        other => panic!("unexpected {:?}", other),
    }
}

#[test]
fn compile_application_is_void_function() {
    match compiled_text("(f 1)") {
        Err(RuccoRuntimeErr::VoidFunction { name }) => assert_eq!(name, "f"),
        other => panic!("unexpected {:?}", other),
    }
}

#[test]
fn compile_non_symbol_head() {
    match compiled_text("(1 2)") {
        Err(RuccoRuntimeErr::WrongTypeArgument { name, expected, actual }) => {
            assert_eq!(name, "compile");
            assert_eq!(expected, RuccoDataType::Symbol);
            assert_eq!(actual.value, "1");
        },
        other => panic!("unexpected {:?}", other),
    }
    match compiled_text("((f) 2)") {
        Err(RuccoRuntimeErr::WrongTypeArgument { actual, .. }) => {
            assert_eq!(actual.data_type, vec![RuccoDataType::Cons, RuccoDataType::List]);
            assert_eq!(actual.value, "(f)");
        },
        other => panic!("unexpected {:?}", other),
    }
}

#[test]
fn compile_quote_without_datum() {
    match compiled_text("(quote)") {
        Err(RuccoRuntimeErr::WrongTypeArgument { name, actual, .. }) => {
            assert_eq!(name, "car");
            assert_eq!(actual.value, "nil");
        },
        other => panic!("unexpected {:?}", other),
    }
}

#[test]
fn compile_dangling_handle() {
    let mut arena = RuccoArena::new();
    assert!(matches!(compile(&7, &mut arena), Err(RuccoRuntimeErr::InvalidReference)));
}

#[test]
fn eval_leaves_environment_alone() {
    let mut arena = RuccoArena::new();
    let mut env = RuccoEnv::new();
    env.insert("k".to_string(), "v".to_string());
    let exp = rucco::read("(if nil 1)", &mut arena).unwrap();
    let code = eval(&exp, &mut env, &mut arena).unwrap();
    assert_eq!(arena.render(code), "((ldc nil) (sel ((ldc 1) (join)) ((ldc nil) (join))) (stop))");
    assert_eq!(env.len(), 1);
}

#[test]
fn rep_prints_compiled_code() {
    let mut arena = RuccoArena::new();
    let mut env = RuccoEnv::new();
    assert_eq!(rep("  '(1 . 2)", &mut env, &mut arena).unwrap(), "((ldc (1 . 2)) (stop))");
    assert!(matches!(
        rep("", &mut env, &mut arena),
        Err(RuccoErr::Reader(RuccoReaderErr::UnexpectedEof))
    ));
    assert!(matches!(
        rep("(if 1)", &mut env, &mut arena),
        Err(RuccoErr::Runtime(RuccoRuntimeErr::WrongNumberOfArguments { .. }))
    ));
    assert_eq!(rucco::print("abc"), "abc");
}
