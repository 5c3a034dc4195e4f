use nice_expr::env::{Constness, Env};
use nice_expr::error::RuntimeError;
use nice_expr::interpreter::Interpreter;
use nice_expr::types::Type;
use nice_expr::value::{Builtin, Func, Value};

fn number(v: &Value) -> i64 {
    match v {
        Value::Int(i) => *i,
        other => panic!("{:?}", other),
    }
}

#[test]
fn a_new_environment_has_an_empty_root() {
    let env = Env::new();
    assert_eq!(env.len(), 1);
    assert!(matches!(env.get(0, "x".to_string()), Err(RuntimeError::IdentifierNotFound(_))));
    assert_eq!(env.identifiers(0).len(), 0);
}

#[test]
fn a_name_is_defined_and_read() {
    let mut env = Env::new();
    let given = env.define(0, "x".to_string(), Value::Int(5), Constness::Var, Type::Int).unwrap();
    assert_eq!(number(&given), 5);
    let entry = env.get(0, "x".to_string()).unwrap();
    assert_eq!(number(&entry.v), 5);
    assert_eq!(entry.c, Constness::Var);
    assert_eq!(entry.t, Type::Int);
}

#[test]
fn a_definition_replaces_the_one_before() {
    let mut env = Env::new();
    env.def_const(0, "x".to_string(), Value::Int(5), Type::Int).unwrap();
    env.def_var(0, "x".to_string(), Value::Str("s".to_string()), Type::Str).unwrap();
    let entry = env.get(0, "x".to_string()).unwrap();
    assert!(matches!(entry.v, Value::Str(_)));
    assert_eq!(entry.c, Constness::Var);
    assert_eq!(entry.t, Type::Str);
    assert_eq!(env.identifiers(0).len(), 1);
}

#[test]
fn a_definition_in_no_scope_gives_the_name_back() {
    let mut env = Env::new();
    assert_eq!(
        env.define(7, "x".to_string(), Value::Int(5), Constness::Var, Type::Int).unwrap_err(),
        "x"
    );
}

#[test]
fn a_constant_is_not_assigned_to() {
    let mut env = Env::new();
    env.def_const(0, "x".to_string(), Value::Int(5), Type::Int).unwrap();
    match env.set(0, "x".to_string(), Value::Int(6), false) {
        Err(RuntimeError::SettingConst(n)) => assert_eq!(n, "x"),
        other => panic!("{:?}", other),
    }
    assert_eq!(number(&env.get(0, "x".to_string()).unwrap().v), 5);
}

#[test]
fn a_constant_is_assigned_to_where_constness_is_ignored() {
    let mut env = Env::new();
    env.def_const(0, "x".to_string(), Value::Int(5), Type::Int).unwrap();
    env.set(0, "x".to_string(), Value::Int(6), true).unwrap();
    let entry = env.get(0, "x".to_string()).unwrap();
    assert_eq!(number(&entry.v), 6);
    assert_eq!(entry.c, Constness::Const);
}

#[test]
fn a_variable_is_assigned_to() {
    let mut env = Env::new();
    env.def_var(0, "x".to_string(), Value::Int(5), Type::Int).unwrap();
    let given = env.set(0, "x".to_string(), Value::Int(6), false).unwrap();
    assert_eq!(number(&given), 6);
    assert_eq!(number(&env.get(0, "x".to_string()).unwrap().v), 6);
}

#[test]
fn a_variable_keeps_its_type() {
    let mut env = Env::new();
    env.def_var(0, "x".to_string(), Value::Int(5), Type::Int).unwrap();
    match env.set(0, "x".to_string(), Value::Bool(true), false) {
        Err(RuntimeError::MismatchedTypes { got, expected }) => {
            assert_eq!(got, vec![Type::Bool]);
            assert_eq!(expected, vec![Type::Int]);
        }
        other => panic!("{:?}", other),
    }
    env.def_var(0, "l".to_string(), Value::List(vec![]), Type::List(Box::new(Type::Int))).unwrap();
    assert!(matches!(
        env.set(0, "l".to_string(), Value::List(vec![Value::Str("a".to_string())]), false),
        Err(RuntimeError::MismatchedTypes { .. })
    ));
    assert!(env.set(0, "l".to_string(), Value::List(vec![Value::Int(1)]), false).is_ok());
}

#[test]
fn an_unknown_name_is_not_assigned_to() {
    let mut env = Env::new();
    assert!(matches!(
        env.set(0, "x".to_string(), Value::Int(6), false),
        Err(RuntimeError::IdentifierNotFound(_))
    ));
    assert!(matches!(
        env.set(9, "x".to_string(), Value::Int(6), false),
        Err(RuntimeError::IdentifierNotFound(_))
    ));
}

#[test]
fn a_scope_sees_the_scopes_around_it() {
    let mut env = Env::new();
    env.def_var(0, "x".to_string(), Value::Int(1), Type::Int).unwrap();
    let inner = env.extend(0);
    let innermost = env.extend(inner);
    assert_eq!(inner, 1);
    assert_eq!(innermost, 2);
    assert_eq!(number(&env.get(innermost, "x".to_string()).unwrap().v), 1);
    env.def_var(inner, "y".to_string(), Value::Int(2), Type::Int).unwrap();
    assert_eq!(number(&env.get(innermost, "y".to_string()).unwrap().v), 2);
    assert!(env.get(0, "y".to_string()).is_err());
}

#[test]
fn a_scope_shadows_the_scopes_around_it() {
    let mut env = Env::new();
    env.def_var(0, "x".to_string(), Value::Int(1), Type::Int).unwrap();
    let inner = env.extend(0);
    env.def_var(inner, "x".to_string(), Value::Int(2), Type::Int).unwrap();
    assert_eq!(number(&env.get(inner, "x".to_string()).unwrap().v), 2);
    assert_eq!(number(&env.get(0, "x".to_string()).unwrap().v), 1);
    env.set(inner, "x".to_string(), Value::Int(3), false).unwrap();
    assert_eq!(number(&env.get(inner, "x".to_string()).unwrap().v), 3);
    assert_eq!(number(&env.get(0, "x".to_string()).unwrap().v), 1);
}

#[test]
fn an_assignment_reaches_the_scope_that_owns_the_name() {
    let mut env = Env::new();
    env.def_var(0, "x".to_string(), Value::Int(1), Type::Int).unwrap();
    let inner = env.extend(0);
    let sibling = env.extend(0);
    env.set(inner, "x".to_string(), Value::Int(5), false).unwrap();
    assert_eq!(number(&env.get(0, "x".to_string()).unwrap().v), 5);
    assert_eq!(number(&env.get(sibling, "x".to_string()).unwrap().v), 5);
}

#[test]
fn a_scope_inside_no_scope_has_nothing_around_it() {
    let mut env = Env::new();
    env.def_var(0, "x".to_string(), Value::Int(1), Type::Int).unwrap();
    let lonely = env.extend(17);
    assert!(env.get(lonely, "x".to_string()).is_err());
}

#[test]
fn a_name_is_undefined_where_it_is_owned() {
    let mut env = Env::new();
    env.def_var(0, "x".to_string(), Value::Int(1), Type::Int).unwrap();
    env.def_var(0, "y".to_string(), Value::Int(2), Type::Int).unwrap();
    env.def_var(0, "z".to_string(), Value::Int(3), Type::Int).unwrap();
    let inner = env.extend(0);
    env.undefine(inner, "y".to_string());
    assert!(env.get(0, "y".to_string()).is_err());
    assert_eq!(number(&env.get(0, "x".to_string()).unwrap().v), 1);
    assert_eq!(number(&env.get(0, "z".to_string()).unwrap().v), 3);
    env.undefine(inner, "nowhere".to_string());
    assert_eq!(env.identifiers(0).len(), 2);
}

#[test]
fn undefining_uncovers_the_name_of_the_scope_around() {
    let mut env = Env::new();
    env.def_var(0, "x".to_string(), Value::Int(1), Type::Int).unwrap();
    let inner = env.extend(0);
    env.def_var(inner, "x".to_string(), Value::Int(2), Type::Int).unwrap();
    env.undefine(inner, "x".to_string());
    assert_eq!(number(&env.get(inner, "x".to_string()).unwrap().v), 1);
}

#[test]
fn all_that_is_seen_is_listed_once() {
    let mut env = Env::new();
    env.def_var(0, "x".to_string(), Value::Int(1), Type::Int).unwrap();
    env.def_var(0, "y".to_string(), Value::Int(2), Type::Int).unwrap();
    let inner = env.extend(0);
    env.def_var(inner, "x".to_string(), Value::Int(10), Type::Int).unwrap();
    env.def_var(inner, "z".to_string(), Value::Int(30), Type::Int).unwrap();
    let seen = env.identifiers(inner);
    let mut listed: Vec<(String, i64)> = Vec::new();
    for i in 0..seen.len() {
        listed.push((seen.name(i).clone(), number(&seen.entry(i).v)));
    }
    listed.sort();
    assert_eq!(
        listed,
        vec![("x".to_string(), 10), ("y".to_string(), 2), ("z".to_string(), 30)]
    );
    assert_eq!(env.identifiers(0).len(), 2);
    assert_eq!(env.identifiers(99).len(), 0);
}

#[test]
fn the_default_environment_binds_the_functions_of_the_language() {
    let env = Interpreter::default_env();
    let names = [
        ("print", Builtin::Print),
        ("printline", Builtin::PrintLine),
        ("len", Builtin::Len),
        ("range", Builtin::Range),
        ("repeat", Builtin::Repeat),
        ("inputchar", Builtin::InputChar),
        ("inputline", Builtin::InputLine),
        ("inputall", Builtin::InputAll),
        ("ord", Builtin::Ordinal),
        ("char", Builtin::Character),
    ];
    for (name, builtin) in names {
        let entry = env.get(0, name.to_string()).unwrap();
        match entry.v {
            Value::Func(Func::Native(b)) => assert_eq!(b, builtin),
            other => panic!("{:?}", other),
        }
        assert_eq!(entry.c, Constness::Const);
        assert!(matches!(entry.t, Type::Func(_, _)));
    }
    assert_eq!(env.identifiers(0).len(), 10);
    assert_eq!(
        env.get(0, "range".to_string()).unwrap().t,
        Type::Func(vec![Type::Int, Type::Int, Type::Int], Box::new(Type::List(Box::new(Type::Int))))
    );
    assert_eq!(
        env.get(0, "len".to_string()).unwrap().t,
        Type::Func(vec![Type::BuiltinVariadic], Box::new(Type::Int))
    );
    let also: Env = Default::default();
    assert_eq!(also.identifiers(0).len(), 10);
}

#[test]
fn a_declaration_in_the_root_scope_does_not_replace() {
    let mut env = Env::new();
    env.declare(0, "x".to_string(), Value::Int(1), Constness::Var, Type::Int).unwrap();
    assert_eq!(
        env.declare(0, "x".to_string(), Value::Int(2), Constness::Var, Type::Int).unwrap_err(),
        "x"
    );
    assert_eq!(number(&env.get(0, "x".to_string()).unwrap().v), 1);
    let inner = env.extend(0);
    env.declare(inner, "x".to_string(), Value::Int(3), Constness::Var, Type::Int).unwrap();
    env.declare(inner, "x".to_string(), Value::Int(4), Constness::Const, Type::Int).unwrap();
    assert_eq!(number(&env.get(inner, "x".to_string()).unwrap().v), 4);
    assert_eq!(
        env.declare(9, "y".to_string(), Value::Int(2), Constness::Var, Type::Int).unwrap_err(),
        "y"
    );
}
