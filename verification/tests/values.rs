use nice_expr::ast::{Decl, Declaration, Expr, Literal};
use nice_expr::dec::{Dec, Rel};
use nice_expr::types::Type;
use nice_expr::value::{defaultable, Builtin, Func, Value};

fn dec_value(x: f64) -> Value<'static> {
    Value::Dec(Dec::from_bits(x.to_bits()))
}

fn word(s: &str) -> Value<'static> {
    Value::Str(s.to_string())
}

fn list_type(t: Type) -> Type {
    Type::List(Box::new(t))
}

fn map_type(k: Type, v: Type) -> Type {
    Type::Mapping(Box::new(k), Box::new(v))
}

#[test]
fn the_type_of_a_scalar() {
    assert_eq!(Value::Unit.to_type().unwrap(), Type::Unit);
    assert_eq!(Value::Int(1).to_type().unwrap(), Type::Int);
    assert_eq!(dec_value(1.0).to_type().unwrap(), Type::Dec);
    assert_eq!(word("a").to_type().unwrap(), Type::Str);
    assert_eq!(Value::Bool(true).to_type().unwrap(), Type::Bool);
    assert_eq!(Value::Type(list_type(Type::Int)).to_type().unwrap(), list_type(Type::Int));
}

#[test]
fn the_type_of_a_collection_is_that_of_its_first_item() {
    assert_eq!(Value::List(vec![]).to_type().unwrap(), list_type(Type::Unit));
    assert_eq!(Value::List(vec![Value::Int(1), word("a")]).to_type().unwrap(), list_type(Type::Int));
    assert_eq!(Value::Mapping(vec![]).to_type().unwrap(), map_type(Type::Unit, Type::Unit));
    assert_eq!(
        Value::Mapping(vec![(word("a"), Value::Int(1))]).to_type().unwrap(),
        map_type(Type::Str, Type::Int)
    );
    assert_eq!(
        Value::List(vec![Value::List(vec![])]).to_type().unwrap(),
        list_type(list_type(Type::Unit))
    );
}

#[test]
fn the_type_of_a_break_wraps_that_of_its_value() {
    assert_eq!(
        Value::Break(Box::new(Value::Int(1))).to_type().unwrap(),
        Type::Break(Box::new(Type::Int))
    );
}

#[test]
fn the_type_of_a_function() {
    let native = Value::Func(Func::Native(Builtin::Len));
    assert_eq!(
        native.to_type().unwrap(),
        Type::Func(vec![Type::BuiltinVariadic], Box::new(Type::Unit))
    );
    let decls = vec![
        Declaration::Const(Decl { name: "a".to_string(), declared_type: Type::Int, expr: None }),
        Declaration::Var(Decl { name: "b".to_string(), declared_type: Type::Str, expr: None }),
    ];
    let ret = Type::Bool;
    let body: Vec<Expr> = vec![Expr::Literal(Literal::Bool(true))];
    let declared = Value::Func(Func::Declared { decls: &decls, ret: &ret, body: &body, env: 1 });
    assert_eq!(
        declared.to_type().unwrap(),
        Type::Func(vec![Type::Int, Type::Str], Box::new(Type::Bool))
    );
}

#[test]
fn default_values() {
    assert!(matches!(Value::default(Type::Unit), Value::Unit));
    assert!(matches!(Value::default(Type::BuiltinVariadic), Value::Unit));
    assert!(matches!(Value::default(Type::Int), Value::Int(0)));
    match Value::default(Type::Dec) {
        Value::Dec(d) => assert_eq!(d.to_bits(), 0),
        other => panic!("{:?}", other),
    }
    match Value::default(Type::Str) {
        Value::Str(s) => assert_eq!(s, ""),
        other => panic!("{:?}", other),
    }
    assert!(matches!(Value::default(Type::Bool), Value::Bool(false)));
    match Value::default(list_type(Type::Int)) {
        Value::List(items) => assert!(items.is_empty()),
        other => panic!("{:?}", other),
    }
    match Value::default(map_type(Type::Int, Type::Int)) {
        Value::Mapping(entries) => assert!(entries.is_empty()),
        other => panic!("{:?}", other),
    }
    match Value::default(Type::Break(Box::new(Type::Int))) {
        Value::Break(inner) => assert!(matches!(*inner, Value::Int(0))),
        other => panic!("{:?}", other),
    }
}

#[test]
fn functions_and_any_have_no_default() {
    assert!(defaultable(&Type::Int));
    assert!(defaultable(&list_type(Type::Any)));
    assert!(!defaultable(&Type::Any));
    assert!(!defaultable(&Type::Func(vec![], Box::new(Type::Int))));
    assert!(!defaultable(&Type::Break(Box::new(Type::Any))));
}

#[test]
fn unbreak_takes_one_wrapper_off() {
    assert!(matches!(Value::Int(3).unbreak(), Value::Int(3)));
    assert!(matches!(Value::Break(Box::new(Value::Int(3))).unbreak(), Value::Int(3)));
    let twice = Value::Break(Box::new(Value::Break(Box::new(Value::Int(3)))));
    match twice.unbreak() {
        Value::Break(inner) => assert!(matches!(*inner, Value::Int(3))),
        other => panic!("{:?}", other),
    }
    assert!(Value::Break(Box::new(Value::Unit)).is_break());
    assert!(!Value::Unit.is_break());
}

#[test]
fn homogeneous_values() {
    assert!(Value::Int(1).is_homogeneous());
    assert!(Value::List(vec![]).is_homogeneous());
    assert!(Value::List(vec![Value::Int(1), Value::Int(2)]).is_homogeneous());
    assert!(!Value::List(vec![Value::Int(1), word("a")]).is_homogeneous());
    assert!(!Value::List(vec![
        Value::List(vec![Value::Int(1)]),
        Value::List(vec![Value::Int(1), word("a")]),
    ])
    .is_homogeneous());
    assert!(!Value::List(vec![Value::List(vec![Value::Int(1)]), Value::List(vec![])])
        .is_homogeneous());
    assert!(Value::Mapping(vec![(word("a"), Value::Int(1)), (word("b"), Value::Int(2))])
        .is_homogeneous());
    assert!(!Value::Mapping(vec![(word("a"), Value::Int(1)), (Value::Int(2), Value::Int(2))])
        .is_homogeneous());
    assert!(!Value::Mapping(vec![(word("a"), Value::Int(1)), (word("b"), word("c"))])
        .is_homogeneous());
    assert!(Value::Break(Box::new(Value::List(vec![Value::Int(1)]))).is_homogeneous());
    assert!(Value::Func(Func::Native(Builtin::Print)).is_homogeneous());
}

#[test]
fn values_of_one_kind_are_equal_by_content() {
    assert!(Value::Int(1) == Value::Int(1));
    assert!(Value::Int(1) != Value::Int(2));
    assert!(word("a") == word("a"));
    assert!(word("a") != word("b"));
    assert!(Value::Bool(true) == Value::Bool(true));
    assert!(Value::List(vec![Value::Int(1), Value::Int(2)]) == Value::List(vec![Value::Int(1), Value::Int(2)]));
    assert!(Value::List(vec![Value::Int(1), Value::Int(2)]) != Value::List(vec![Value::Int(2), Value::Int(1)]));
    assert!(Value::List(vec![Value::Int(1)]) != Value::List(vec![Value::Int(1), Value::Int(1)]));
    assert!(Value::Break(Box::new(Value::Int(1))) == Value::Break(Box::new(Value::Int(1))));
    assert!(Value::Break(Box::new(Value::Int(1))) != Value::Int(1));
}

#[test]
fn values_of_different_kinds_are_unequal() {
    assert!(Value::Int(1) != Value::Bool(true));
    assert!(Value::Int(1) != dec_value(1.0));
    assert!(word("1") != Value::Int(1));
}

#[test]
fn nothing_equals_nothing() {
    assert!(Value::Unit == Value::Unit);
    assert!(Value::Unit != Value::Int(0));
    assert!(Value::Unit != Value::Bool(false));
    assert!(Value::List(vec![Value::Unit]) == Value::List(vec![Value::Unit]));
}

#[test]
fn types_are_equal_when_they_are_the_same() {
    assert!(Value::Type(Type::Int) == Value::Type(Type::Int));
    assert!(Value::Type(Type::Int) != Value::Type(Type::Str));
    assert!(Value::Type(list_type(Type::Int)) == Value::Type(list_type(Type::Int)));
    assert!(Value::Type(list_type(Type::Int)) != Value::Type(list_type(Type::Dec)));
    assert!(Value::Type(Type::Int) != Value::Int(1));
}

#[test]
fn functions_equal_nothing() {
    assert!(Value::Func(Func::Native(Builtin::Len)) != Value::Func(Func::Native(Builtin::Len)));
}

#[test]
fn a_map_holds_the_key_nothing_once() {
    let mut entries = vec![(Value::Unit, Value::Int(1))];
    nice_expr::operators::put_entry(&mut entries, Value::Unit, Value::Int(2));
    assert_eq!(entries.len(), 1);
    assert!(entries[0].1 == Value::Int(2));
}

#[test]
fn maps_are_equal_whatever_the_order_of_their_entries() {
    let a = Value::Mapping(vec![(word("a"), Value::Int(1)), (word("b"), Value::Int(2))]);
    let b = Value::Mapping(vec![(word("b"), Value::Int(2)), (word("a"), Value::Int(1))]);
    let c = Value::Mapping(vec![(word("b"), Value::Int(2)), (word("a"), Value::Int(3))]);
    let d = Value::Mapping(vec![(word("a"), Value::Int(1))]);
    assert!(a == b);
    assert!(a != c);
    assert!(a != d);
}

#[test]
fn decimals_are_equal_as_numbers() {
    assert!(dec_value(1.5) == dec_value(1.5));
    assert!(dec_value(0.0) == dec_value(-0.0));
    assert!(dec_value(f64::NAN) != dec_value(f64::NAN));
    assert!(dec_value(1.5) != dec_value(2.5));
}

#[test]
fn a_copy_of_a_value_equals_it() {
    let v = Value::List(vec![
        Value::Mapping(vec![(word("a"), dec_value(1.5))]),
        Value::Mapping(vec![(word("b"), dec_value(2.5))]),
    ]);
    assert!(v.clone() == v);
    assert!(v.duplicate() == v);
}

#[test]
fn values_of_one_kind_are_ordered() {
    assert_eq!(Value::Unit.compare(&Value::Unit), Some(Rel::Equal));
    assert_eq!(Value::Int(1).compare(&Value::Int(2)), Some(Rel::Less));
    assert_eq!(Value::Int(2).compare(&Value::Int(2)), Some(Rel::Equal));
    assert_eq!(Value::Int(3).compare(&Value::Int(2)), Some(Rel::Greater));
    assert_eq!(Value::Bool(false).compare(&Value::Bool(true)), Some(Rel::Less));
    assert_eq!(Value::Bool(true).compare(&Value::Bool(false)), Some(Rel::Greater));
    assert_eq!(word("abc").compare(&word("abd")), Some(Rel::Less));
    assert_eq!(word("abc").compare(&word("ab")), Some(Rel::Greater));
    assert_eq!(word("").compare(&word("")), Some(Rel::Equal));
    assert_eq!(word("Z").compare(&word("a")), Some(Rel::Less));
    assert_eq!(word("é").compare(&word("z")), Some(Rel::Greater));
    assert_eq!(
        Value::Break(Box::new(Value::Int(1))).compare(&Value::Break(Box::new(Value::Int(2)))),
        Some(Rel::Less)
    );
}

#[test]
fn values_without_order_are_not_ordered() {
    assert_eq!(Value::Int(1).compare(&word("a")), None);
    assert_eq!(Value::List(vec![]).compare(&Value::List(vec![])), None);
    assert_eq!(Value::Mapping(vec![]).compare(&Value::Mapping(vec![])), None);
    assert_eq!(dec_value(f64::NAN).compare(&dec_value(1.0)), None);
}

fn expected_order(a: f64, b: f64) -> Option<Rel> {
    match a.partial_cmp(&b) {
        Some(std::cmp::Ordering::Less) => Some(Rel::Less),
        Some(std::cmp::Ordering::Equal) => Some(Rel::Equal),
        Some(std::cmp::Ordering::Greater) => Some(Rel::Greater),
        None => None,
    }
}

#[test]
fn decimals_are_ordered_as_numbers() {
    let samples = [
        0.0,
        -0.0,
        1.0,
        -1.0,
        1.5,
        -1.5,
        1e-310,
        -1e-310,
        1e308,
        -1e308,
        f64::INFINITY,
        f64::NEG_INFINITY,
        f64::NAN,
        f64::MIN_POSITIVE,
        f64::MAX,
        f64::MIN,
        0.1 + 0.2,
        0.3,
    ];
    for a in samples {
        for b in samples {
            let x = Dec::from_bits(a.to_bits());
            let y = Dec::from_bits(b.to_bits());
            assert_eq!(x.compare(&y), expected_order(a, b), "{} against {}", a, b);
            assert_eq!(x.equals(&y), a == b, "{} against {}", a, b);
        }
    }
}

#[test]
fn decimals_are_negated_and_tested() {
    let samples = [0.0, -0.0, 1.0, -2.5, f64::INFINITY, f64::NEG_INFINITY, 1e-320];
    for a in samples {
        let x = Dec::from_bits(a.to_bits());
        assert_eq!(x.negated().to_bits(), (-a).to_bits());
        assert_eq!(x.is_zero(), a == 0.0);
        assert!(!x.is_nan());
    }
    assert!(Dec::from_bits(f64::NAN.to_bits()).is_nan());
    assert!(Dec::from_bits(f64::NAN.to_bits()).negated().is_nan());
    assert_eq!(Dec::zero().to_bits(), 0.0f64.to_bits());
    assert_eq!(Dec::one().to_bits(), 1.0f64.to_bits());
}

#[test]
fn the_functions_of_the_language_have_labels() {
    assert_eq!(Builtin::Print.label(), "print");
    assert_eq!(Builtin::PrintLine.label(), "println");
    assert_eq!(Builtin::InputLine.label(), "inline");
    assert_eq!(Builtin::InputAll.label(), "inall");
    assert_eq!(Builtin::Character.label(), "char");
}
