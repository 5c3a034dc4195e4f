use nice_expr::ast::{Decl, Declaration, Expr, Literal};
use nice_expr::builtin::{
    char, format_value, inputall, inputchar, inputline, len, ord, print, range, repeat, Piece,
};
use nice_expr::dec::Dec;
use nice_expr::error::{IOError, RuntimeError, SyntaxError};
use nice_expr::types::Type;
use nice_expr::util::{assert_at_least_args, assert_exactly_args};
use nice_expr::value::{Builtin, Func, Value};

type V = Value<'static>;

fn n(i: i64) -> V {
    Value::Int(i)
}

fn s(t: &str) -> V {
    Value::Str(t.to_string())
}

fn spell(pieces: &Vec<Piece>) -> String {
    let mut out = String::new();
    for piece in pieces {
        match piece {
            Piece::Text(t) => out.push_str(t),
            Piece::Dec(d) => out.push_str(&format!("{}", f64::from_bits(d.to_bits()))),
        }
    }
    out
}

fn ints(r: Result<V, RuntimeError<'static>>) -> Vec<i64> {
    match r {
        Ok(Value::List(items)) => items
            .iter()
            .map(|v| match v {
                Value::Int(i) => *i,
                other => panic!("{:?}", other),
            })
            .collect(),
        other => panic!("{:?}", other),
    }
}

#[test]
fn scalars_are_written() {
    assert_eq!(spell(&format_value(&Value::Unit)), "None");
    assert_eq!(spell(&format_value(&n(0))), "0");
    assert_eq!(spell(&format_value(&n(42))), "42");
    assert_eq!(spell(&format_value(&n(-42))), "-42");
    assert_eq!(spell(&format_value(&n(1234567890))), "1234567890");
    assert_eq!(spell(&format_value(&n(i64::MAX))), "9223372036854775807");
    assert_eq!(spell(&format_value(&n(i64::MIN))), "-9223372036854775808");
    assert_eq!(spell(&format_value(&s("hello"))), "hello");
    assert_eq!(spell(&format_value(&Value::Bool(true))), "true");
    assert_eq!(spell(&format_value(&Value::Bool(false))), "false");
    assert_eq!(spell(&format_value(&Value::Type(Type::List(Box::new(Type::Int))))), "list[int]");
}

#[test]
fn a_decimal_is_left_to_the_caller_to_write() {
    let pieces = format_value(&Value::Dec(Dec::from_bits(1.5f64.to_bits())));
    assert_eq!(pieces.len(), 1);
    match &pieces[0] {
        Piece::Dec(d) => assert_eq!(d.to_bits(), 1.5f64.to_bits()),
        other => panic!("{:?}", other),
    }
    let list = Value::List(vec![
        Value::Dec(Dec::from_bits(1.5f64.to_bits())),
        Value::Dec(Dec::from_bits(0.25f64.to_bits())),
    ]);
    assert_eq!(spell(&format_value(&list)), "[1.5,0.25]");
}

#[test]
fn collections_are_written() {
    assert_eq!(spell(&format_value(&Value::List(vec![]))), "[]");
    assert_eq!(spell(&format_value(&Value::List(vec![n(1)]))), "[1]");
    assert_eq!(spell(&format_value(&Value::List(vec![n(1), n(2), n(3)]))), "[1,2,3]");
    assert_eq!(
        spell(&format_value(&Value::List(vec![Value::List(vec![s("a")]), Value::List(vec![])]))),
        "[[a],[]]"
    );
    assert_eq!(spell(&format_value(&Value::Mapping(vec![]))), "<||>");
    assert_eq!(spell(&format_value(&Value::Mapping(vec![(s("a"), n(1))]))), "<|a:1|>");
    assert_eq!(
        spell(&format_value(&Value::Mapping(vec![(s("a"), n(1)), (s("b"), n(2))]))),
        "<|a:1,b:2|>"
    );
}

#[test]
fn a_break_wrapper_is_not_written() {
    assert_eq!(spell(&format_value(&Value::Break(Box::new(n(5))))), "5");
}

#[test]
fn functions_are_written() {
    assert_eq!(spell(&format_value(&Value::Func(Func::Native(Builtin::Len)))), "builtin_function");
    let decls = vec![
        Declaration::Const(Decl { name: "a".to_string(), declared_type: Type::Int, expr: None }),
        Declaration::Var(Decl {
            name: "b".to_string(),
            declared_type: Type::List(Box::new(Type::Str)),
            expr: None,
        }),
    ];
    let ret = Type::Bool;
    let body: Vec<Expr> = vec![Expr::Literal(Literal::Bool(true))];
    let f = Value::Func(Func::Declared { decls: &decls, ret: &ret, body: &body, env: 1 });
    assert_eq!(spell(&format_value(&f)), "func(a int,b list[str])bool{...}");
    let none: Vec<Declaration> = vec![];
    let f = Value::Func(Func::Declared { decls: &none, ret: &ret, body: &body, env: 1 });
    assert_eq!(spell(&format_value(&f)), "func()bool{...}");
}

#[test]
fn print_writes_its_arguments_one_after_the_other() {
    assert_eq!(spell(&print(&vec![])), "");
    assert_eq!(spell(&print(&vec![n(1), s("a"), Value::List(vec![n(2)])])), "1a[2]");
}

#[test]
fn printline_writes_a_line_for_each_argument() {
    assert_eq!(spell(&nice_expr::builtin::println(&vec![])), "\n");
    assert_eq!(spell(&nice_expr::builtin::println(&vec![n(1)])), "1\n");
    assert_eq!(spell(&nice_expr::builtin::println(&vec![n(1), s("a")])), "1\na\n");
}

#[test]
fn lengths() {
    assert!(matches!(len(&vec![s("")]), Ok(Value::Int(0))));
    assert!(matches!(len(&vec![s("hello")]), Ok(Value::Int(5))));
    assert!(matches!(len(&vec![s("héllo wörld")]), Ok(Value::Int(11))));
    assert!(matches!(len(&vec![Value::List(vec![n(1), n(2)])]), Ok(Value::Int(2))));
    assert!(matches!(len(&vec![Value::Mapping(vec![(n(1), n(2))])]), Ok(Value::Int(1))));
    assert!(matches!(len(&vec![s("ab"), n(1)]), Ok(Value::Int(2))));
    match len(&vec![n(1)]) {
        Err(RuntimeError::TakingLenOfLengthless { got }) => assert_eq!(got, Type::Int),
        other => panic!("{:?}", other),
    }
    match len(&vec![]) {
        Err(RuntimeError::NotEnoughArguments { want, got }) => {
            assert_eq!(want, 1);
            assert_eq!(got, 0);
        }
        other => panic!("{:?}", other),
    }
}

#[test]
fn ranges_go_up() {
    assert_eq!(ints(range(&vec![n(0), n(5), n(1)])), vec![0, 1, 2, 3, 4]);
    assert_eq!(ints(range(&vec![n(0), n(5), n(2)])), vec![0, 2, 4]);
    assert_eq!(ints(range(&vec![n(-3), n(3), n(3)])), vec![-3, 0]);
    assert_eq!(ints(range(&vec![n(5), n(0), n(1)])), Vec::<i64>::new());
    assert_eq!(ints(range(&vec![n(0), n(0), n(1)])), Vec::<i64>::new());
    assert_eq!(ints(range(&vec![n(i64::MAX - 2), n(i64::MAX), n(5)])), vec![i64::MAX - 2]);
}

#[test]
fn ranges_go_down() {
    assert_eq!(ints(range(&vec![n(5), n(0), n(-1)])), vec![5, 4, 3, 2, 1]);
    assert_eq!(ints(range(&vec![n(5), n(0), n(-2)])), vec![5, 3, 1]);
    assert_eq!(ints(range(&vec![n(0), n(5), n(-1)])), Vec::<i64>::new());
    assert_eq!(ints(range(&vec![n(i64::MIN + 1), n(i64::MIN), n(-7)])), vec![i64::MIN + 1]);
}

#[test]
fn a_range_needs_a_step() {
    assert!(matches!(range(&vec![n(0), n(5), n(0)]), Err(RuntimeError::InvalidRangeStep(0))));
}

#[test]
fn a_range_takes_three_integers() {
    match range(&vec![n(0), n(5)]) {
        Err(RuntimeError::NotEnoughArguments { want, got }) => {
            assert_eq!(want, 3);
            assert_eq!(got, 2);
        }
        other => panic!("{:?}", other),
    }
    match range(&vec![n(0), s("5"), n(1)]) {
        Err(RuntimeError::MismatchedTypes { got, expected }) => {
            assert_eq!(got, vec![Type::Str]);
            assert_eq!(expected, vec![Type::Int]);
        }
        other => panic!("{:?}", other),
    }
}

#[test]
fn repeats() {
    match repeat(&vec![s("ab"), n(3)]) {
        Ok(Value::List(items)) => {
            assert_eq!(items.len(), 3);
            for item in items {
                assert!(item == s("ab"));
            }
        }
        other => panic!("{:?}", other),
    }
    assert_eq!(ints(repeat(&vec![n(7), n(0)])), Vec::<i64>::new());
    assert_eq!(ints(repeat(&vec![n(7), n(-2)])), Vec::<i64>::new());
    assert_eq!(ints(repeat(&vec![n(7), n(2)])), vec![7, 7]);
    assert!(matches!(repeat(&vec![n(7)]), Err(RuntimeError::NotEnoughArguments { .. })));
    assert!(matches!(repeat(&vec![n(7), s("2")]), Err(RuntimeError::MismatchedTypes { .. })));
}

#[test]
fn the_character_of_a_code_point() {
    assert!(char(&vec![n(65)]).unwrap() == s("A"));
    assert!(char(&vec![n(233)]).unwrap() == s("é"));
    assert!(char(&vec![n(0x1F600)]).unwrap() == s("😀"));
    assert!(char(&vec![n(0x10FFFF)]).unwrap() == s("\u{10FFFF}"));
    for bad in [0, -1, 0xD800, 0xDFFF, 0x110000, i64::MAX, i64::MIN, 0x1_0000_0041] {
        match char(&vec![n(bad)]) {
            Err(RuntimeError::IntToStrDomainError { got }) => assert_eq!(got, bad),
            other => panic!("{:?}", other),
        }
    }
    match char(&vec![s("A")]) {
        Err(RuntimeError::MismatchedTypes { got, expected }) => {
            assert_eq!(got, vec![Type::Str]);
            assert_eq!(expected, vec![Type::Int]);
        }
        other => panic!("{:?}", other),
    }
    assert!(matches!(char(&vec![]), Err(RuntimeError::NotEnoughArguments { .. })));
}

#[test]
fn the_code_point_of_a_character() {
    assert!(matches!(ord(&vec![s("A")]), Ok(Value::Int(65))));
    assert!(matches!(ord(&vec![s("é")]), Ok(Value::Int(233))));
    assert!(matches!(ord(&vec![s("😀")]), Ok(Value::Int(0x1F600))));
    match ord(&vec![s("ab")]) {
        Err(RuntimeError::OrdOnlyAllowsSingleCharacterStrings { got }) => assert_eq!(got, "ab"),
        other => panic!("{:?}", other),
    }
    assert!(matches!(
        ord(&vec![s("")]),
        Err(RuntimeError::OrdOnlyAllowsSingleCharacterStrings { .. })
    ));
    assert!(matches!(ord(&vec![n(1)]), Err(RuntimeError::MismatchedTypes { .. })));
    assert!(matches!(ord(&vec![]), Err(RuntimeError::NotEnoughArguments { .. })));
}

#[test]
fn what_was_read_becomes_a_string() {
    assert!(inputchar(Some('x')).unwrap() == s("x"));
    assert!(matches!(inputchar(None), Err(RuntimeError::IOError(IOError::CouldNotGetChar))));
    assert!(inputline(Ok("a line\n".to_string())).unwrap() == s("a line\n"));
    match inputline(Err("BrokenPipe".to_string())) {
        Err(RuntimeError::IOError(IOError::ErrorKind(kind))) => assert_eq!(kind, "BrokenPipe"),
        other => panic!("{:?}", other),
    }
    assert!(inputall("all\nof it".to_string()).unwrap() == s("all\nof it"));
}

#[test]
fn argument_counts_are_checked() {
    assert!(assert_at_least_args(1, 1).is_ok());
    assert!(assert_at_least_args(1, 3).is_ok());
    assert!(assert_at_least_args(0, 0).is_ok());
    match assert_at_least_args(2, 1) {
        Err(RuntimeError::NotEnoughArguments { want, got }) => {
            assert_eq!(want, 2);
            assert_eq!(got, 1);
        }
        other => panic!("{:?}", other),
    }
    assert!(assert_exactly_args(2, 2).is_ok());
    match assert_exactly_args(2, 3) {
        Err(RuntimeError::NotEnoughArguments { want, got }) => {
            assert_eq!(want, 2);
            assert_eq!(got, 3);
        }
        other => panic!("{:?}", other),
    }
    assert!(matches!(assert_exactly_args(2, 1), Err(RuntimeError::NotEnoughArguments { .. })));
}

#[test]
fn syntax_errors_are_written() {
    let e = SyntaxError::InvalidToken {
        token: "$".to_string(),
        filename: Some("main.ne".to_string()),
        line: 3,
        col: 14,
    };
    assert_eq!(e.to_string(), "invalid token '$' @ main.ne:3:14");
    let e = SyntaxError::InvalidToken { token: "$".to_string(), filename: None, line: 0, col: 120 };
    assert_eq!(e.to_string(), "invalid token '$' @ <>:0:120");
    let e = SyntaxError::UnexpectedToken {
        token: "Semicolon".to_string(),
        filename: None,
        line: 1,
        col: 2,
        expected: vec!["[Token::Is]".to_string(), "[Token::At]".to_string()],
    };
    assert_eq!(
        e.to_string(),
        "unexpected token 'Semicolon' @ <>:1:2\n want [\"[Token::Is]\", \"[Token::At]\"]"
    );
    let e = SyntaxError::UnexpectedToken {
        token: "x".to_string(),
        filename: Some("f".to_string()),
        line: 10,
        col: 20,
        expected: vec![],
    };
    assert_eq!(e.to_string(), "unexpected token 'x' @ f:10:20\n want []");
}
