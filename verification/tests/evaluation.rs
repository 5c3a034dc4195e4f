use nice_expr::ast::{
    Assignment, BinaryExpr, BinaryOperator, Decl, Declaration, Expr, IndexKind, Indexing, Literal,
    UnaryExpr, UnaryOperator,
};
use nice_expr::builtin::Piece;
use nice_expr::dec::{Dec, DecRequest};
use nice_expr::error::RuntimeError;
use nice_expr::interpreter::Interpreter;
use nice_expr::machine::{Action, Event, Machine};
use nice_expr::types::Type;
use nice_expr::value::Value;

// ---- a driver: it does what the machine asks for -------------------------

fn dec(x: f64) -> Dec {
    Dec::from_bits(x.to_bits())
}

fn num(d: Dec) -> f64 {
    f64::from_bits(d.to_bits())
}

fn compute(request: DecRequest) -> Event {
    match request {
        DecRequest::Add(a, b) => Event::Dec(dec(num(a) + num(b))),
        DecRequest::Subtract(a, b) => Event::Dec(dec(num(a) - num(b))),
        DecRequest::Multiply(a, b) => Event::Dec(dec(num(a) * num(b))),
        DecRequest::Divide(a, b) => Event::Dec(dec(num(a) / num(b))),
        DecRequest::Remainder(a, b) => Event::Dec(dec(num(a) % num(b))),
        DecRequest::FromInt(i) => Event::Dec(dec(i as f64)),
        DecRequest::ToInt(d) => Event::Int(num(d) as i64),
        DecRequest::ToText(d) => Event::Text(format!("{}", num(d))),
    }
}

fn render(pieces: &Vec<Piece>) -> String {
    let mut out = String::new();
    for piece in pieces {
        match piece {
            Piece::Text(s) => out.push_str(s),
            Piece::Dec(d) => out.push_str(&format!("{}", num(*d))),
        }
    }
    out
}

enum End<'p> {
    Value(Value<'p>),
    Error(RuntimeError<'p>),
    OutOfSteps,
}

struct Run<'p> {
    end: End<'p>,
    output: String,
    machine: Machine<'p>,
}

fn run_with<'p>(program: &'p Vec<Expr>, input: &str, max_steps: u64) -> Run<'p> {
    let interpreter = Interpreter {};
    let mut machine = Machine::new(Interpreter::default_env());
    interpreter.interpret_program(program, 0, &mut machine);
    let mut output = String::new();
    let mut rest: Vec<char> = input.chars().collect();
    rest.reverse();
    let mut event = Event::Step;
    let mut steps: u64 = 0;
    loop {
        if steps >= max_steps {
            return Run { end: End::OutOfSteps, output, machine };
        }
        steps += 1;
        let action = interpreter.step(&mut machine, event);
        event = match action {
            Action::Continue => Event::Step,
            Action::Idle => panic!("the machine is idle before it finished"),
            Action::Print(pieces) => {
                output.push_str(&render(&pieces));
                Event::Written
            }
            Action::ReadChar => Event::Char(rest.pop()),
            Action::ReadLine => {
                let mut line = String::new();
                while let Some(c) = rest.pop() {
                    line.push(c);
                    if c == '\n' {
                        break;
                    }
                }
                Event::Line(Ok(line))
            }
            Action::ReadAll => {
                let mut all = String::new();
                while let Some(c) = rest.pop() {
                    all.push(c);
                }
                Event::All(all)
            }
            Action::Compute(request) => compute(request),
            Action::ParseDec(text) => match text.trim().parse::<f64>() {
                Ok(x) => Event::Dec(dec(x)),
                Err(_) => Event::NoDec,
            },
            Action::Finished(v) => return Run { end: End::Value(v), output, machine },
            Action::Failed(e) => return Run { end: End::Error(e), output, machine },
        };
    }
}

fn run<'p>(program: &'p Vec<Expr>) -> Run<'p> {
    run_with(program, "", 1_000_000)
}

fn value_of<'p>(run: Run<'p>) -> Value<'p> {
    match run.end {
        End::Value(v) => v,
        End::Error(e) => panic!("the evaluation failed: {:?}", e),
        End::OutOfSteps => panic!("the evaluation did not end"),
    }
}

fn error_of<'p>(run: Run<'p>) -> RuntimeError<'p> {
    match run.end {
        End::Error(e) => e,
        End::Value(v) => panic!("the evaluation gave {:?}", v),
        End::OutOfSteps => panic!("the evaluation did not end"),
    }
}

// ---- builders of syntax trees ---------------------------------------------

fn integer(i: i64) -> Expr {
    Expr::Literal(Literal::Int(i))
}

fn decimal(x: f64) -> Expr {
    Expr::Literal(Literal::Dec(dec(x)))
}

fn text(s: &str) -> Expr {
    Expr::Literal(Literal::Str(s.to_string()))
}

fn boolean(b: bool) -> Expr {
    Expr::Literal(Literal::Bool(b))
}

fn list(items: Vec<Expr>) -> Expr {
    Expr::Literal(Literal::List(items))
}

fn mapping(pairs: Vec<(Expr, Expr)>) -> Expr {
    Expr::Literal(Literal::Mapping(pairs))
}

fn name(s: &str) -> Expr {
    Expr::Identifier(s.to_string())
}

fn decl(n: &str, t: Type, init: Option<Expr>) -> Decl {
    Decl { name: n.to_string(), declared_type: t, expr: init.map(Box::new) }
}

fn constant(n: &str, t: Type, init: Option<Expr>) -> Expr {
    Expr::Declaration(Declaration::Const(decl(n, t, init)))
}

fn variable(n: &str, t: Type, init: Option<Expr>) -> Expr {
    Expr::Declaration(Declaration::Var(decl(n, t, init)))
}

fn set(n: &str, op: BinaryOperator, value: Expr) -> Expr {
    Expr::Assignment(Assignment { name: n.to_string(), index: None, op, expr: Box::new(value) })
}

fn set_at(n: &str, index: Expr, value: Expr) -> Expr {
    Expr::Assignment(Assignment {
        name: n.to_string(),
        index: Some(Box::new(index)),
        op: BinaryOperator::Is,
        expr: Box::new(value),
    })
}

fn call(n: &str, args: Vec<Expr>) -> Expr {
    Expr::FunctionCall { name: n.to_string(), args }
}

fn binary(left: Expr, op: BinaryOperator, right: Expr) -> BinaryExpr {
    BinaryExpr { left: Box::new(left), op, right: Box::new(right) }
}

fn add(left: Expr, right: Expr) -> Expr {
    Expr::Addition(binary(left, BinaryOperator::Add, right))
}

fn sub(left: Expr, right: Expr) -> Expr {
    Expr::Addition(binary(left, BinaryOperator::Subtract, right))
}

fn times(left: Expr, right: Expr) -> Expr {
    Expr::Multiplication(binary(left, BinaryOperator::Times, right))
}

fn divide(left: Expr, right: Expr) -> Expr {
    Expr::Multiplication(binary(left, BinaryOperator::Divide, right))
}

fn compare(left: Expr, op: BinaryOperator, right: Expr) -> Expr {
    Expr::Comparison(binary(left, op, right))
}

fn at(collection: Expr, index: Expr) -> Expr {
    Expr::Indexing(Indexing {
        collection: Box::new(collection),
        op: BinaryOperator::GetIndexing,
        index: IndexKind::Single { index: Box::new(index) },
    })
}

fn slice(collection: Expr, start: Expr, end: Expr) -> Expr {
    Expr::Indexing(Indexing {
        collection: Box::new(collection),
        op: BinaryOperator::GetIndexing,
        index: IndexKind::Range { start: Box::new(start), end: Box::new(end) },
    })
}

fn ret(e: Expr) -> Expr {
    Expr::Return(Some(Box::new(e)))
}

fn brk(e: Expr) -> Expr {
    Expr::Break(Some(Box::new(e)))
}

fn when(condition: Expr, then: Vec<Expr>, otherwise: Option<Vec<Expr>>) -> Expr {
    Expr::If {
        vars: vec![],
        condition: Box::new(condition),
        when_true: Box::new(Expr::Block(then)),
        when_false: otherwise.map(|b| Box::new(Expr::Block(b))),
    }
}

fn func(params: Vec<Declaration>, ret: Type, body: Vec<Expr>) -> Expr {
    Expr::FunctionDefinition { args: params, ret, body }
}

fn func_type(params: Vec<Type>, ret: Type) -> Type {
    Type::Func(params, Box::new(ret))
}

fn list_of(t: Type) -> Type {
    Type::List(Box::new(t))
}

fn map_of(k: Type, v: Type) -> Type {
    Type::Mapping(Box::new(k), Box::new(v))
}

fn as_int(v: &Value) -> i64 {
    match v {
        Value::Int(i) => *i,
        other => panic!("{:?} is no integer", other),
    }
}

fn as_text(v: &Value) -> String {
    match v {
        Value::Str(s) => s.clone(),
        other => panic!("{:?} is no string", other),
    }
}

// ---- the tests -------------------------------------------------------------

#[test]
fn literals_evaluate_to_themselves() {
    let program = vec![integer(7)];
    assert_eq!(as_int(&value_of(run(&program))), 7);
    let program = vec![text("abc")];
    assert_eq!(as_text(&value_of(run(&program))), "abc");
    let program = vec![boolean(true)];
    assert!(matches!(value_of(run(&program)), Value::Bool(true)));
    let program = vec![decimal(1.5)];
    match value_of(run(&program)) {
        Value::Dec(d) => assert_eq!(num(d), 1.5),
        other => panic!("{:?}", other),
    }
}

#[test]
fn the_empty_program_gives_nothing() {
    let program = vec![];
    assert!(matches!(value_of(run(&program)), Value::Unit));
}

#[test]
fn a_program_gives_the_value_of_its_last_expression() {
    let program = vec![integer(1), integer(2), integer(3)];
    assert_eq!(as_int(&value_of(run(&program))), 3);
}

#[test]
fn constants_sum_and_print() {
    // const x is int 2; const y is int 3; printline(x + y);
    let program = vec![
        constant("x", Type::Int, Some(integer(2))),
        constant("y", Type::Int, Some(integer(3))),
        call("printline", vec![add(name("x"), name("y"))]),
    ];
    let run = run(&program);
    assert_eq!(run.output, "5\n");
    assert!(matches!(run.end, End::Value(Value::Unit)));
}

#[test]
fn println_is_not_bound() {
    let program = vec![call("println", vec![integer(1)])];
    match error_of(run(&program)) {
        RuntimeError::IdentifierNotFound(n) => assert_eq!(n, "println"),
        other => panic!("{:?}", other),
    }
}

#[test]
fn a_map_takes_an_entry_and_gives_it_back() {
    // var m is map[str]int <||>; set m@"a" is 1; printline(m_"a");
    let program = vec![
        variable("m", map_of(Type::Str, Type::Int), Some(mapping(vec![]))),
        set_at("m", text("a"), integer(1)),
        call("printline", vec![at(name("m"), text("a"))]),
    ];
    let run = run(&program);
    assert_eq!(run.output, "1\n");
    assert!(matches!(run.end, End::Value(Value::Unit)));
}

#[test]
fn setting_a_constant_fails() {
    // const x is int 5; set x is 6;
    let program = vec![constant("x", Type::Int, Some(integer(5))), set("x", BinaryOperator::Is, integer(6))];
    match error_of(run(&program)) {
        RuntimeError::SettingConst(n) => assert_eq!(n, "x"),
        other => panic!("{:?}", other),
    }
}

#[test]
fn setting_a_variable_succeeds() {
    // var x is int 5; set x is 6; x;
    let program = vec![
        variable("x", Type::Int, Some(integer(5))),
        set("x", BinaryOperator::Is, integer(6)),
        name("x"),
    ];
    let run = run(&program);
    let entry = run.machine.env().get(0, "x".to_string()).unwrap();
    assert_eq!(as_int(&entry.v), 6);
    assert_eq!(as_int(&value_of(run)), 6);
}

#[test]
fn setting_a_variable_to_another_type_fails() {
    let program =
        vec![variable("x", Type::Int, Some(integer(5))), set("x", BinaryOperator::Is, text("six"))];
    match error_of(run(&program)) {
        RuntimeError::MismatchedTypes { got, expected } => {
            assert_eq!(got, vec![Type::Str]);
            assert_eq!(expected, vec![Type::Int]);
        }
        other => panic!("{:?}", other),
    }
}

#[test]
fn an_empty_list_is_declared_as_a_list_of_integers() {
    // var l is list[int] []; l;
    let program = vec![variable("l", list_of(Type::Int), Some(list(vec![]))), name("l")];
    let run = run(&program);
    let entry = run.machine.env().get(0, "l".to_string()).unwrap();
    assert_eq!(entry.t, list_of(Type::Int));
    match value_of(run) {
        Value::List(items) => assert!(items.is_empty()),
        other => panic!("{:?}", other),
    }
}

#[test]
fn a_declaration_of_another_type_fails() {
    let program = vec![variable("x", Type::Int, Some(text("a")))];
    match error_of(run(&program)) {
        RuntimeError::MismatchedTypes { got, expected } => {
            assert_eq!(got, vec![Type::Str]);
            assert_eq!(expected, vec![Type::Int]);
        }
        other => panic!("{:?}", other),
    }
}

#[test]
fn a_declaration_without_value_takes_the_default() {
    let program = vec![
        variable("i", Type::Int, None),
        variable("s", Type::Str, None),
        variable("b", Type::Bool, None),
        variable("l", list_of(Type::Int), None),
        list(vec![]),
    ];
    let run = run(&program);
    assert_eq!(as_int(&run.machine.env().get(0, "i".to_string()).unwrap().v), 0);
    assert_eq!(as_text(&run.machine.env().get(0, "s".to_string()).unwrap().v), "");
    assert!(matches!(run.machine.env().get(0, "b".to_string()).unwrap().v, Value::Bool(false)));
    assert!(matches!(run.machine.env().get(0, "l".to_string()).unwrap().v, Value::List(_)));
}

#[test]
fn a_declaration_of_a_function_without_value_fails() {
    let program = vec![variable("f", func_type(vec![], Type::Int), None)];
    assert!(matches!(error_of(run(&program)), RuntimeError::NotImplemented));
}

#[test]
fn an_unknown_name_fails() {
    let program = vec![name("nowhere")];
    match error_of(run(&program)) {
        RuntimeError::IdentifierNotFound(n) => assert_eq!(n, "nowhere"),
        other => panic!("{:?}", other),
    }
}

#[test]
fn a_loop_that_breaks_at_once_gives_the_value_it_breaks_with() {
    // for { break 7; }
    let program = vec![Expr::For { vars: vec![], body: vec![brk(integer(7))] }];
    assert_eq!(as_int(&value_of(run(&program))), 7);
}

#[test]
fn a_loop_without_break_runs_on() {
    // for var i is int 0 { set i + 1; }
    let program = vec![Expr::For {
        vars: vec![Declaration::Var(decl("i", Type::Int, Some(integer(0))))],
        body: vec![set("i", BinaryOperator::Add, integer(1))],
    }];
    let run = run_with(&program, "", 10_000);
    assert!(matches!(run.end, End::OutOfSteps));
}

#[test]
fn a_loop_counts_up_to_its_break() {
    // for var i is int 0 { set i + 1; if i >= 5 then { break i; } }
    let program = vec![Expr::For {
        vars: vec![Declaration::Var(decl("i", Type::Int, Some(integer(0))))],
        body: vec![
            set("i", BinaryOperator::Add, integer(1)),
            when(compare(name("i"), BinaryOperator::GreaterEqual, integer(5)), vec![brk(name("i"))], None),
        ],
    }];
    assert_eq!(as_int(&value_of(run(&program))), 5);
}

#[test]
fn a_return_inside_a_loop_ends_the_loop_only() {
    // func() int { for { return 1; } return 2; }
    let program = vec![
        constant(
            "f",
            func_type(vec![], Type::Int),
            Some(func(
                vec![],
                Type::Int,
                vec![Expr::For { vars: vec![], body: vec![ret(integer(1))] }, ret(integer(2))],
            )),
        ),
        call("f", vec![]),
    ];
    assert_eq!(as_int(&value_of(run(&program))), 2);
}

#[test]
fn a_while_loop_sums() {
    // var s is int 0; for var i is int 1 while i <= 4 { set s + i; set i + 1; } s;
    let program = vec![
        variable("s", Type::Int, Some(integer(0))),
        Expr::ForWhile {
            vars: vec![Declaration::Var(decl("i", Type::Int, Some(integer(1))))],
            condition: Box::new(compare(name("i"), BinaryOperator::LessEqual, integer(4))),
            body: vec![
                set("s", BinaryOperator::Add, name("i")),
                set("i", BinaryOperator::Add, integer(1)),
            ],
        },
        name("s"),
    ];
    assert_eq!(as_int(&value_of(run(&program))), 10);
}

#[test]
fn a_while_loop_that_never_runs_gives_nothing() {
    let program = vec![Expr::ForWhile {
        vars: vec![],
        condition: Box::new(boolean(false)),
        body: vec![integer(1)],
    }];
    assert!(matches!(value_of(run(&program)), Value::Unit));
}

#[test]
fn a_while_loop_needs_a_boolean() {
    let program =
        vec![Expr::ForWhile { vars: vec![], condition: Box::new(integer(1)), body: vec![integer(1)] }];
    match error_of(run(&program)) {
        RuntimeError::MismatchedTypes { got, expected } => {
            assert_eq!(got, vec![Type::Int]);
            assert_eq!(expected, vec![Type::Bool]);
        }
        other => panic!("{:?}", other),
    }
}

#[test]
fn a_loop_walks_a_string() {
    // var out is str ""; for var c is str in "abc" { set out is c + out; } out;
    let program = vec![
        variable("out", Type::Str, Some(text(""))),
        Expr::ForIn {
            vars: vec![Declaration::Var(decl("c", Type::Str, None))],
            collection: Box::new(text("abc")),
            body: vec![set("out", BinaryOperator::Is, add(name("c"), name("out")))],
        },
        name("out"),
    ];
    assert_eq!(as_text(&value_of(run(&program))), "cba");
}

#[test]
fn a_loop_walks_a_list() {
    let program = vec![
        variable("s", Type::Int, Some(integer(0))),
        Expr::ForIn {
            vars: vec![Declaration::Var(decl("x", Type::Int, None))],
            collection: Box::new(list(vec![integer(1), integer(2), integer(3)])),
            body: vec![set("s", BinaryOperator::Add, name("x"))],
        },
        name("s"),
    ];
    assert_eq!(as_int(&value_of(run(&program))), 6);
}

#[test]
fn a_loop_walks_the_keys_of_a_map() {
    let program = vec![
        variable("s", Type::Int, Some(integer(0))),
        Expr::ForIn {
            vars: vec![Declaration::Var(decl("k", Type::Int, None))],
            collection: Box::new(mapping(vec![(integer(1), text("a")), (integer(2), text("b"))])),
            body: vec![set("s", BinaryOperator::Add, name("k"))],
        },
        name("s"),
    ];
    assert_eq!(as_int(&value_of(run(&program))), 3);
}

#[test]
fn a_loop_over_a_collection_needs_a_variable_first() {
    let program = vec![Expr::ForIn {
        vars: vec![Declaration::Const(decl("c", Type::Str, None))],
        collection: Box::new(text("abc")),
        body: vec![name("c")],
    }];
    assert!(matches!(error_of(run(&program)), RuntimeError::ForInFirstDeclMustBeVar));
}

#[test]
fn a_loop_over_a_collection_needs_a_declaration() {
    let program =
        vec![Expr::ForIn { vars: vec![], collection: Box::new(text("abc")), body: vec![integer(1)] }];
    match error_of(run(&program)) {
        RuntimeError::NotEnoughArguments { want, got } => {
            assert_eq!(want, 1);
            assert_eq!(got, 0);
        }
        other => panic!("{:?}", other),
    }
}

#[test]
fn a_loop_does_not_walk_an_integer() {
    let program = vec![Expr::ForIn {
        vars: vec![Declaration::Var(decl("c", Type::Str, None))],
        collection: Box::new(integer(3)),
        body: vec![name("c")],
    }];
    match error_of(run(&program)) {
        RuntimeError::MismatchedTypes { got, expected } => {
            assert_eq!(got, vec![Type::Int]);
            assert_eq!(
                expected,
                vec![Type::Str, list_of(Type::Unit), map_of(Type::Unit, Type::Unit)]
            );
        }
        other => panic!("{:?}", other),
    }
}

fn increment() -> Expr {
    // func(const x is int) int { return x + 1; }
    func(
        vec![Declaration::Const(decl("x", Type::Int, None))],
        Type::Int,
        vec![ret(add(name("x"), integer(1)))],
    )
}

#[test]
fn a_function_called_twice_answers_each_call() {
    let program = vec![
        constant("inc", func_type(vec![Type::Int], Type::Int), Some(increment())),
        variable("a", Type::Int, Some(call("inc", vec![integer(1)]))),
        variable("b", Type::Int, Some(call("inc", vec![integer(41)]))),
        add(times(name("a"), integer(100)), name("b")),
    ];
    assert_eq!(as_int(&value_of(run(&program))), 242);
}

#[test]
fn a_function_takes_as_many_arguments_as_it_has_parameters() {
    let program = vec![
        constant("inc", func_type(vec![Type::Int], Type::Int), Some(increment())),
        call("inc", vec![integer(1), integer(2)]),
    ];
    match error_of(run(&program)) {
        RuntimeError::NotEnoughArguments { want, got } => {
            assert_eq!(want, 1);
            assert_eq!(got, 2);
        }
        other => panic!("{:?}", other),
    }
}

#[test]
fn a_function_takes_arguments_of_the_types_of_its_parameters() {
    let program = vec![
        constant("inc", func_type(vec![Type::Int], Type::Int), Some(increment())),
        call("inc", vec![text("one")]),
    ];
    match error_of(run(&program)) {
        RuntimeError::MismatchedTypes { got, expected } => {
            assert_eq!(got, vec![Type::Str]);
            assert_eq!(expected, vec![Type::Int]);
        }
        other => panic!("{:?}", other),
    }
}

fn factorial(product: Expr) -> Expr {
    // func(const n is int) int { if n = 0 then { return 1; } else { return <product>; } }
    func(
        vec![Declaration::Const(decl("n", Type::Int, None))],
        Type::Int,
        vec![when(
            compare(name("n"), BinaryOperator::Equal, integer(0)),
            vec![ret(integer(1))],
            Some(vec![ret(product)]),
        )],
    )
}

#[test]
fn a_recursive_call_overwrites_the_parameters_of_the_caller() {
    // n is read after the inner call: by then it is 0
    let after = factorial(times(call("f", vec![sub(name("n"), integer(1))]), name("n")));
    let program = vec![
        constant("f", func_type(vec![Type::Int], Type::Int), Some(after)),
        call("f", vec![integer(4)]),
    ];
    assert_eq!(as_int(&value_of(run(&program))), 0);
    // n is read before the inner call: the product is right
    let before = factorial(times(name("n"), call("f", vec![sub(name("n"), integer(1))])));
    let program = vec![
        constant("f", func_type(vec![Type::Int], Type::Int), Some(before)),
        call("f", vec![integer(4)]),
    ];
    assert_eq!(as_int(&value_of(run(&program))), 24);
}

#[test]
fn what_is_no_function_is_not_called() {
    let program = vec![constant("x", Type::Int, Some(integer(1))), call("x", vec![])];
    match error_of(run(&program)) {
        RuntimeError::CallingNonCallable { name } => assert_eq!(name, "x"),
        other => panic!("{:?}", other),
    }
}

#[test]
fn arguments_are_evaluated_up_to_the_first_error() {
    let program = vec![call(
        "print",
        vec![call("print", vec![text("a")]), name("nowhere"), call("print", vec![text("b")])],
    )];
    let run = run(&program);
    assert_eq!(run.output, "a");
    assert!(matches!(run.end, End::Error(RuntimeError::IdentifierNotFound(_))));
}

#[test]
fn a_block_ends_at_a_return() {
    // { return 1; print("x"); }
    let program = vec![Expr::Block(vec![ret(integer(1)), call("print", vec![text("x")])])];
    let run = run(&program);
    assert_eq!(run.output, "");
    match value_of(run) {
        Value::Break(inner) => assert_eq!(as_int(&inner), 1),
        other => panic!("{:?}", other),
    }
}

#[test]
fn a_block_has_its_own_scope() {
    let program = vec![
        variable("x", Type::Int, Some(integer(1))),
        Expr::Block(vec![variable("x", Type::Int, Some(integer(2))), name("x")]),
        name("x"),
    ];
    assert_eq!(as_int(&value_of(run(&program))), 1);
}

#[test]
fn a_block_assigns_to_the_scope_around_it() {
    let program = vec![
        variable("x", Type::Int, Some(integer(1))),
        Expr::Block(vec![set("x", BinaryOperator::Is, integer(2))]),
        name("x"),
    ];
    assert_eq!(as_int(&value_of(run(&program))), 2);
}

#[test]
fn a_conditional_chooses_its_branch() {
    let program = vec![when(boolean(true), vec![integer(1)], Some(vec![integer(2)]))];
    assert_eq!(as_int(&value_of(run(&program))), 1);
    let program = vec![when(boolean(false), vec![integer(1)], Some(vec![integer(2)]))];
    assert_eq!(as_int(&value_of(run(&program))), 2);
    let program = vec![when(boolean(false), vec![integer(1)], None)];
    assert!(matches!(value_of(run(&program)), Value::Unit));
}

#[test]
fn a_conditional_needs_a_boolean() {
    let program = vec![when(integer(1), vec![integer(1)], None)];
    assert!(matches!(error_of(run(&program)), RuntimeError::MismatchedTypes { .. }));
}

#[test]
fn a_conditional_declares_for_its_branches() {
    let program = vec![Expr::If {
        vars: vec![Declaration::Const(decl("x", Type::Int, Some(integer(3))))],
        condition: Box::new(compare(name("x"), BinaryOperator::Greater, integer(2))),
        when_true: Box::new(Expr::Block(vec![name("x")])),
        when_false: None,
    }];
    assert_eq!(as_int(&value_of(run(&program))), 3);
}

#[test]
fn integers_are_computed_with() {
    let program = vec![add(times(integer(2), integer(3)), divide(integer(7), integer(2)))];
    assert_eq!(as_int(&value_of(run(&program))), 9);
    let program = vec![Expr::Multiplication(binary(integer(-7), BinaryOperator::Modulo, integer(2)))];
    assert_eq!(as_int(&value_of(run(&program))), -1);
    let program =
        vec![Expr::Minus(UnaryExpr { op: UnaryOperator::Minus, expr: Box::new(integer(5)) })];
    assert_eq!(as_int(&value_of(run(&program))), -5);
}

#[test]
fn division_by_zero_fails() {
    let program = vec![divide(integer(1), integer(0))];
    assert!(matches!(error_of(run(&program)), RuntimeError::DivideByZero));
    let program = vec![Expr::Multiplication(binary(integer(1), BinaryOperator::Modulo, integer(0)))];
    assert!(matches!(error_of(run(&program)), RuntimeError::DivideByZero));
    let program = vec![divide(decimal(1.0), decimal(0.0))];
    assert!(matches!(error_of(run(&program)), RuntimeError::DivideByZero));
    let program = vec![divide(decimal(1.0), decimal(-0.0))];
    assert!(matches!(error_of(run(&program)), RuntimeError::DivideByZero));
}

#[test]
fn decimals_are_computed_with_by_the_driver() {
    let program = vec![call("printline", vec![add(decimal(1.5), decimal(2.25))])];
    assert_eq!(run(&program).output, "3.75\n");
    let program = vec![divide(decimal(1.0), decimal(4.0))];
    match value_of(run(&program)) {
        Value::Dec(d) => assert_eq!(num(d), 0.25),
        other => panic!("{:?}", other),
    }
    let program =
        vec![Expr::Minus(UnaryExpr { op: UnaryOperator::Minus, expr: Box::new(decimal(2.5)) })];
    match value_of(run(&program)) {
        Value::Dec(d) => assert_eq!(num(d), -2.5),
        other => panic!("{:?}", other),
    }
}

#[test]
fn integers_and_decimals_do_not_mix() {
    let program = vec![add(integer(1), decimal(2.0))];
    match error_of(run(&program)) {
        RuntimeError::InvalidOperatorOnTypes { types, .. } => {
            assert_eq!(types, vec![Type::Int, Type::Dec]);
        }
        other => panic!("{:?}", other),
    }
}

#[test]
fn both_operands_of_a_logical_operator_are_evaluated() {
    let program = vec![Expr::Logical(binary(
        boolean(false),
        BinaryOperator::And,
        compare(call("print", vec![text("seen")]), BinaryOperator::Equal, integer(1)),
    ))];
    let run = run(&program);
    assert_eq!(run.output, "seen");
    assert!(matches!(run.end, End::Value(Value::Bool(false))));
}

#[test]
fn not_inverts_a_boolean() {
    let program =
        vec![Expr::Not(UnaryExpr { op: UnaryOperator::Not, expr: Box::new(boolean(true)) })];
    assert!(matches!(value_of(run(&program)), Value::Bool(false)));
    let program = vec![Expr::Not(UnaryExpr { op: UnaryOperator::Not, expr: Box::new(integer(1)) })];
    assert!(matches!(error_of(run(&program)), RuntimeError::InvalidOperatorOnTypes { .. }));
}

#[test]
fn strings_are_indexed() {
    let program = vec![at(text("hello"), integer(0))];
    assert_eq!(as_text(&value_of(run(&program))), "h");
    let program = vec![at(text("hello"), integer(-1))];
    assert_eq!(as_text(&value_of(run(&program))), "o");
    let program = vec![slice(text("hello"), integer(1), integer(3))];
    assert_eq!(as_text(&value_of(run(&program))), "el");
    let program = vec![at(text("hello"), integer(10))];
    assert!(matches!(error_of(run(&program)), RuntimeError::IndexOutOfBounds(_, _, None)));
    let program = vec![at(text(""), integer(0))];
    assert!(matches!(
        error_of(run(&program)),
        RuntimeError::IndexingCollectionWithZeroElements(_)
    ));
}

#[test]
fn a_map_is_not_indexed_by_a_range() {
    let program = vec![slice(mapping(vec![(integer(1), integer(2))]), integer(1), integer(2))];
    assert!(matches!(error_of(run(&program)), RuntimeError::InvalidOperatorOnTypes { .. }));
}

#[test]
fn an_element_of_a_list_is_assigned() {
    let program = vec![
        variable("l", list_of(Type::Int), Some(list(vec![integer(1), integer(2), integer(3)]))),
        set_at("l", integer(-1), integer(9)),
        call("print", vec![name("l")]),
    ];
    assert_eq!(run(&program).output, "[1,2,9]");
}

#[test]
fn a_character_of_a_string_is_assigned() {
    let program = vec![
        variable("s", Type::Str, Some(text("cat"))),
        set_at("s", integer(0), text("b")),
        name("s"),
    ];
    assert_eq!(as_text(&value_of(run(&program))), "bat");
}

#[test]
fn an_assignment_with_an_operator_applies_it() {
    let program = vec![
        variable("x", Type::Int, Some(integer(5))),
        set("x", BinaryOperator::Times, integer(3)),
        name("x"),
    ];
    assert_eq!(as_int(&value_of(run(&program))), 15);
    let program = vec![
        variable("x", Type::Dec, Some(decimal(1.5))),
        set("x", BinaryOperator::Add, decimal(1.0)),
        call("print", vec![name("x")]),
    ];
    assert_eq!(run(&program).output, "2.5");
}

#[test]
fn an_assignment_with_an_indexing_operator_fails() {
    let program = vec![
        variable("x", Type::Int, Some(integer(5))),
        set("x", BinaryOperator::GetIndexing, integer(3)),
    ];
    assert!(matches!(
        error_of(run(&program)),
        RuntimeError::InvalidAssignmentOperator(BinaryOperator::GetIndexing)
    ));
}

#[test]
fn a_list_literal_holds_one_type() {
    let program = vec![list(vec![integer(1), text("a")])];
    match error_of(run(&program)) {
        RuntimeError::MismatchedTypes { got, expected } => {
            assert_eq!(got, vec![list_of(Type::Str)]);
            assert_eq!(expected, vec![list_of(Type::Int)]);
        }
        other => panic!("{:?}", other),
    }
}

#[test]
fn a_map_literal_holds_one_type() {
    let program = vec![mapping(vec![(integer(1), text("a")), (integer(2), integer(3))])];
    match error_of(run(&program)) {
        RuntimeError::MismatchedTypes { got, expected } => {
            assert_eq!(got, vec![map_of(Type::Int, Type::Int)]);
            assert_eq!(expected, vec![map_of(Type::Int, Type::Str)]);
        }
        other => panic!("{:?}", other),
    }
}

#[test]
fn a_map_literal_keeps_the_last_value_of_a_key() {
    let program = vec![call("print", vec![mapping(vec![(integer(1), integer(2)), (integer(1), integer(3))])])];
    assert_eq!(run(&program).output, "<|1:3|>");
}

#[test]
fn lists_of_different_types_are_not_joined() {
    let program = vec![add(list(vec![integer(1), integer(2)]), list(vec![text("a")]))];
    match error_of(run(&program)) {
        RuntimeError::MismatchedTypes { got, expected } => {
            assert_eq!(got, vec![Type::Int, Type::Str]);
            assert_eq!(expected, vec![list_of(Type::Int)]);
        }
        other => panic!("{:?}", other),
    }
}

fn cast(e: Expr, t: Type) -> Expr {
    Expr::TypeCast(Box::new(e), t)
}

#[test]
fn values_are_cast() {
    let program = vec![cast(integer(42), Type::Str)];
    assert_eq!(as_text(&value_of(run(&program))), "42");
    let program = vec![cast(integer(-7), Type::Str)];
    assert_eq!(as_text(&value_of(run(&program))), "-7");
    let program = vec![cast(text("42"), Type::Int)];
    assert_eq!(as_int(&value_of(run(&program))), 42);
    let program = vec![cast(text("0x10"), Type::Int)];
    assert_eq!(as_int(&value_of(run(&program))), 16);
    let program = vec![cast(text("-1_000"), Type::Int)];
    assert_eq!(as_int(&value_of(run(&program))), -1000);
    let program = vec![cast(boolean(true), Type::Int)];
    assert_eq!(as_int(&value_of(run(&program))), 1);
    let program = vec![cast(integer(0), Type::Bool)];
    assert!(matches!(value_of(run(&program)), Value::Bool(false)));
    let program = vec![cast(text(""), Type::Bool)];
    assert!(matches!(value_of(run(&program)), Value::Bool(false)));
    let program = vec![cast(text("x"), Type::Bool)];
    assert!(matches!(value_of(run(&program)), Value::Bool(true)));
    let program = vec![cast(boolean(false), Type::Str)];
    assert_eq!(as_text(&value_of(run(&program))), "false");
}

#[test]
fn decimals_are_cast_by_the_driver() {
    let program = vec![cast(decimal(2.75), Type::Int)];
    assert_eq!(as_int(&value_of(run(&program))), 2);
    let program = vec![cast(integer(3), Type::Dec)];
    match value_of(run(&program)) {
        Value::Dec(d) => assert_eq!(num(d), 3.0),
        other => panic!("{:?}", other),
    }
    let program = vec![cast(decimal(2.5), Type::Str)];
    assert_eq!(as_text(&value_of(run(&program))), "2.5");
    let program = vec![cast(text("2.5"), Type::Dec)];
    match value_of(run(&program)) {
        Value::Dec(d) => assert_eq!(num(d), 2.5),
        other => panic!("{:?}", other),
    }
    let program = vec![cast(boolean(true), Type::Dec)];
    match value_of(run(&program)) {
        Value::Dec(d) => assert_eq!(num(d), 1.0),
        other => panic!("{:?}", other),
    }
    let program = vec![cast(decimal(0.0), Type::Bool)];
    assert!(matches!(value_of(run(&program)), Value::Bool(false)));
}

#[test]
fn a_string_that_is_no_number_is_not_cast_to_one() {
    let program = vec![cast(text("abc"), Type::Int)];
    match error_of(run(&program)) {
        RuntimeError::StringToValueParseFailed(v, t) => {
            assert_eq!(as_text(&v), "abc");
            assert_eq!(t, Type::Int);
        }
        other => panic!("{:?}", other),
    }
    let program = vec![cast(text("--5"), Type::Int)];
    assert!(matches!(error_of(run(&program)), RuntimeError::StringToValueParseFailed(_, _)));
    let program = vec![cast(text("abc"), Type::Dec)];
    match error_of(run(&program)) {
        RuntimeError::StringToValueParseFailed(v, t) => {
            assert_eq!(as_text(&v), "abc");
            assert_eq!(t, Type::Dec);
        }
        other => panic!("{:?}", other),
    }
}

#[test]
fn collections_are_cast_item_by_item() {
    let program =
        vec![call("print", vec![cast(list(vec![integer(1), integer(2)]), list_of(Type::Str))])];
    assert_eq!(run(&program).output, "[1,2]");
    let program = vec![cast(list(vec![text("1"), text("2")]), list_of(Type::Int))];
    match value_of(run(&program)) {
        Value::List(items) => {
            assert_eq!(items.len(), 2);
            assert_eq!(as_int(&items[0]), 1);
            assert_eq!(as_int(&items[1]), 2);
        }
        other => panic!("{:?}", other),
    }
    let program = vec![call(
        "print",
        vec![cast(
            mapping(vec![(text("1"), integer(0)), (text("2"), integer(5))]),
            map_of(Type::Int, Type::Bool),
        )],
    )];
    assert_eq!(run(&program).output, "<|1:false,2:true|>");
    let program = vec![cast(list(vec![decimal(1.5), decimal(2.5)]), list_of(Type::Int))];
    match value_of(run(&program)) {
        Value::List(items) => {
            assert_eq!(as_int(&items[0]), 1);
            assert_eq!(as_int(&items[1]), 2);
        }
        other => panic!("{:?}", other),
    }
}

#[test]
fn what_cannot_be_cast_is_not() {
    let program = vec![cast(integer(1), list_of(Type::Int))];
    assert!(matches!(error_of(run(&program)), RuntimeError::CannotCastValueToType(_, _)));
}

#[test]
fn a_type_is_a_value() {
    let program = vec![Expr::TypeName(list_of(Type::Int))];
    match value_of(run(&program)) {
        Value::Type(t) => assert_eq!(t, list_of(Type::Int)),
        other => panic!("{:?}", other),
    }
}

#[test]
fn input_is_read_through_the_driver() {
    let program = vec![
        call("print", vec![call("inputchar", vec![])]),
        call("print", vec![call("inputline", vec![])]),
        call("print", vec![call("inputall", vec![])]),
    ];
    let run = run_with(&program, "abc\nrest\nof it", 1_000_000);
    assert_eq!(run.output, "abc\nrest\nof it");
}

#[test]
fn reading_a_character_from_no_input_fails() {
    let program = vec![call("inputchar", vec![])];
    assert!(matches!(error_of(run(&program)), RuntimeError::IOError(_)));
}

#[test]
fn the_functions_of_the_language_are_called() {
    let program = vec![call("len", vec![text("héllo")])];
    assert_eq!(as_int(&value_of(run(&program))), 5);
    let program = vec![call("print", vec![call("range", vec![integer(0), integer(6), integer(2)])])];
    assert_eq!(run(&program).output, "[0,2,4]");
    let program = vec![call("print", vec![call("repeat", vec![text("ab"), integer(3)])])];
    assert_eq!(run(&program).output, "[ab,ab,ab]");
    let program = vec![call("ord", vec![text("A")])];
    assert_eq!(as_int(&value_of(run(&program))), 65);
    let program = vec![call("char", vec![integer(97)])];
    assert_eq!(as_text(&value_of(run(&program))), "a");
}

#[test]
fn an_answer_that_was_not_waited_for_ends_the_evaluation() {
    let program = vec![call("inputchar", vec![])];
    let interpreter = Interpreter {};
    let mut machine = Machine::new(Interpreter::default_env());
    interpreter.interpret_program(&program, 0, &mut machine);
    let action = interpreter.run(&mut machine, Event::Step, 1000);
    assert!(matches!(action, Action::ReadChar));
    let action = interpreter.step(&mut machine, Event::Written);
    assert!(matches!(action, Action::Failed(RuntimeError::NotImplemented)));
    let action = interpreter.step(&mut machine, Event::Step);
    assert!(matches!(action, Action::Idle));
}

#[test]
fn running_stops_when_the_fuel_is_spent() {
    let program = vec![Expr::For { vars: vec![], body: vec![integer(1)] }];
    let interpreter = Interpreter {};
    let mut machine = Machine::new(Interpreter::default_env());
    interpreter.interpret_program(&program, 0, &mut machine);
    let action = interpreter.run(&mut machine, Event::Step, 500);
    assert!(matches!(action, Action::Continue));
}

#[test]
fn a_name_is_declared_once_in_the_root_scope() {
    let program = vec![
        variable("x", Type::Int, Some(integer(1))),
        variable("x", Type::Int, Some(integer(2))),
    ];
    let first = run(&program);
    assert_eq!(as_int(&first.machine.env().get(0, "x".to_string()).unwrap().v), 1);
    match error_of(first) {
        RuntimeError::IdentifierNotFound(n) => assert_eq!(n, "x"),
        other => panic!("{:?}", other),
    }
    let program = vec![variable("len", Type::Int, Some(integer(1)))];
    assert!(matches!(error_of(run(&program)), RuntimeError::IdentifierNotFound(_)));
}

#[test]
fn a_name_is_declared_again_inside_a_block() {
    let program = vec![Expr::Block(vec![
        variable("x", Type::Int, Some(integer(1))),
        variable("x", Type::Str, Some(text("two"))),
        variable("len", Type::Int, Some(integer(3))),
        add(name("x"), text("!")),
    ])];
    assert_eq!(as_text(&value_of(run(&program))), "two!");
}

#[test]
fn a_loop_declares_in_each_round() {
    // var s is int 0; for var i is int 0 while i < 3 { var t is int i * 2; set s + t; set i + 1; } s;
    let program = vec![
        variable("s", Type::Int, Some(integer(0))),
        Expr::ForWhile {
            vars: vec![Declaration::Var(decl("i", Type::Int, Some(integer(0))))],
            condition: Box::new(compare(name("i"), BinaryOperator::Less, integer(3))),
            body: vec![
                variable("t", Type::Int, Some(times(name("i"), integer(2)))),
                set("s", BinaryOperator::Add, name("t")),
                set("i", BinaryOperator::Add, integer(1)),
            ],
        },
        name("s"),
    ];
    assert_eq!(as_int(&value_of(run(&program))), 6);
}

#[test]
fn the_rules_are_applied_to_values() {
    let interpreter = Interpreter {};
    let env = Interpreter::default_env();
    let r = interpreter.interpret_minus(UnaryOperator::Minus, Value::Int(3), &env);
    assert!(matches!(r, Ok(Value::Int(-3))));
    let r = interpreter.interpret_not(UnaryOperator::Not, Value::Bool(false), &env);
    assert!(matches!(r, Ok(Value::Bool(true))));
    let r = interpreter.interpret_comparison(
        BinaryOperator::Less,
        Value::Int(1),
        Value::Int(2),
        &env,
    );
    assert!(matches!(r, Ok(Value::Bool(true))));
    let r = interpreter.interpret_comparison(
        BinaryOperator::Add,
        Value::Int(1),
        Value::Int(2),
        &env,
    );
    assert!(matches!(r, Err(RuntimeError::InvalidOperatorOnTypes { .. })));
    let r = interpreter.interpret_logical(
        BinaryOperator::Or,
        Value::Bool(false),
        Value::Bool(true),
        &env,
    );
    assert!(matches!(r, Ok(Value::Bool(true))));
    let r = interpreter.interpret_logical(
        BinaryOperator::Add,
        Value::Bool(false),
        Value::Bool(true),
        &env,
    );
    match r {
        Err(RuntimeError::InvalidOperatorOnTypes { types, .. }) => {
            assert_eq!(types, vec![Type::Bool, Type::Bool]);
        }
        other => panic!("{:?}", other),
    }
    let r = interpreter.interpret_indexing(
        BinaryOperator::GetIndexing,
        Value::Str("abc".to_string()),
        Value::Int(1),
        None,
        &env,
    );
    assert_eq!(as_text(&r.unwrap()), "b");
    let r = interpreter.interpret_indexing(
        BinaryOperator::GetIndexing,
        Value::Int(1),
        Value::Int(1),
        Some(Value::Str("x".to_string())),
        &env,
    );
    match r {
        Err(RuntimeError::InvalidOperatorOnTypes { types, .. }) => {
            assert_eq!(types, vec![Type::Int, Type::Int, Type::Str]);
        }
        other => panic!("{:?}", other),
    }
    let r = interpreter.set_index(
        Value::Mapping(vec![(Value::Int(1), Value::Int(2))]),
        Value::Str("k".to_string()),
        Value::Int(3),
        &env,
    );
    match r {
        Err(RuntimeError::InvalidOperatorOnTypes { types, .. }) => {
            assert_eq!(types, vec![map_of(Type::Int, Type::Int), Type::Str]);
        }
        other => panic!("{:?}", other),
    }
}

#[test]
fn a_type_as_a_value_is_chosen_by_as_a_value_of_that_type() {
    // int + int: the operator on integers is chosen, and finds no integer
    let program = vec![add(Expr::TypeName(Type::Int), Expr::TypeName(Type::Int))];
    match error_of(run(&program)) {
        RuntimeError::MismatchedTypes { got, expected } => {
            assert_eq!(got, vec![Type::Int]);
            assert_eq!(expected, vec![Type::Int]);
        }
        other => panic!("{:?}", other),
    }
}

#[test]
fn the_string_that_was_read_is_cast() {
    let interpreter = Interpreter {};
    let r = interpreter.cast_parsed(Value::Str("12".to_string()), &Type::Int, Some(12));
    assert!(matches!(r, Ok(Value::Int(12))));
    let r = interpreter.cast_parsed(Value::Str("x".to_string()), &Type::Int, None);
    match r {
        Err(RuntimeError::StringToValueParseFailed(v, t)) => {
            assert_eq!(as_text(&v), "x");
            assert_eq!(t, Type::Int);
        }
        other => panic!("{:?}", other),
    }
}

#[test]
fn scopes_are_closed_when_they_are_done() {
    // var n is int 0; for var i is int 0 while i < 100 { if i >= 0 then { { set n + 1; } } set i + 1; } n;
    let program = vec![
        variable("n", Type::Int, Some(integer(0))),
        Expr::ForWhile {
            vars: vec![Declaration::Var(decl("i", Type::Int, Some(integer(0))))],
            condition: Box::new(compare(name("i"), BinaryOperator::Less, integer(100))),
            body: vec![
                when(
                    compare(name("i"), BinaryOperator::GreaterEqual, integer(0)),
                    vec![Expr::Block(vec![set("n", BinaryOperator::Add, integer(1))])],
                    None,
                ),
                set("i", BinaryOperator::Add, integer(1)),
            ],
        },
        name("n"),
    ];
    let run = run(&program);
    assert_eq!(run.machine.env().len(), 1);
    assert_eq!(as_int(&value_of(run)), 100);
}

#[test]
fn a_function_keeps_the_scope_that_it_owns() {
    let program = vec![
        constant("inc", func_type(vec![Type::Int], Type::Int), Some(increment())),
        variable("n", Type::Int, Some(integer(0))),
        Expr::ForWhile {
            vars: vec![],
            condition: Box::new(compare(name("n"), BinaryOperator::Less, integer(50))),
            body: vec![set("n", BinaryOperator::Is, call("inc", vec![name("n")]))],
        },
        name("n"),
    ];
    let run = run(&program);
    assert_eq!(run.machine.env().len(), 2);
    assert_eq!(as_int(&run.machine.env().get(1, "x".to_string()).unwrap().v), 49);
    assert_eq!(as_int(&value_of(run)), 50);
}

#[test]
fn a_function_keeps_the_scopes_around_it() {
    // var f is func()int func() int { return 0; }; { var k is int 7; set f is func() int { return k; }; } f();
    let zero = func(vec![], Type::Int, vec![ret(integer(0))]);
    let seven = func(vec![], Type::Int, vec![ret(name("k"))]);
    let program = vec![
        variable("f", func_type(vec![], Type::Int), Some(zero)),
        Expr::Block(vec![
            variable("k", Type::Int, Some(integer(7))),
            set("f", BinaryOperator::Is, seven),
        ]),
        call("f", vec![]),
    ];
    let run = run(&program);
    assert_eq!(run.machine.env().len(), 4);
    assert_eq!(as_int(&value_of(run)), 7);
}

#[test]
fn a_function_reads_the_names_around_its_definition() {
    // var base is int 10; const f is func(int)int func(const x is int) int { return x + base; };
    // set base is 20; f(1);
    let program = vec![
        variable("base", Type::Int, Some(integer(10))),
        constant(
            "f",
            func_type(vec![Type::Int], Type::Int),
            Some(func(
                vec![Declaration::Const(decl("x", Type::Int, None))],
                Type::Int,
                vec![ret(add(name("x"), name("base")))],
            )),
        ),
        set("base", BinaryOperator::Is, integer(20)),
        call("f", vec![integer(1)]),
    ];
    assert_eq!(as_int(&value_of(run(&program))), 21);
}

#[test]
fn a_function_that_ends_without_return_gives_its_last_value() {
    let program = vec![
        constant(
            "f",
            func_type(vec![], Type::Int),
            Some(func(vec![], Type::Int, vec![integer(1), integer(2)])),
        ),
        call("f", vec![]),
    ];
    assert_eq!(as_int(&value_of(run(&program))), 2);
}

#[test]
fn a_parameter_with_a_value_keeps_it_until_it_is_bound() {
    // func(const x is int 7) int { return x; } is called with 9
    let program = vec![
        constant(
            "f",
            func_type(vec![Type::Int], Type::Int),
            Some(func(
                vec![Declaration::Const(decl("x", Type::Int, Some(integer(7))))],
                Type::Int,
                vec![ret(name("x"))],
            )),
        ),
        call("f", vec![integer(9)]),
    ];
    let run = run(&program);
    assert_eq!(as_int(&run.machine.env().get(1, "x".to_string()).unwrap().v), 9);
    assert_eq!(as_int(&value_of(run)), 9);
}

#[test]
fn strings_lists_and_maps_are_subtracted() {
    let program = vec![sub(text("hello world"), text("lo"))];
    assert_eq!(as_text(&value_of(run(&program))), "he wrd");
    let program = vec![call(
        "print",
        vec![sub(list(vec![integer(1), integer(2), integer(1)]), list(vec![integer(1)]))],
    )];
    assert_eq!(run(&program).output, "[2]");
    let program = vec![call(
        "print",
        vec![sub(
            mapping(vec![(text("a"), integer(1)), (text("b"), integer(2))]),
            mapping(vec![(text("a"), integer(0))]),
        )],
    )];
    assert_eq!(run(&program).output, "<|b:2|>");
}

#[test]
fn maps_are_joined_in_a_program() {
    let program = vec![call(
        "print",
        vec![add(
            mapping(vec![(text("a"), integer(1))]),
            mapping(vec![(text("a"), integer(5)), (text("b"), integer(2))]),
        )],
    )];
    assert_eq!(run(&program).output, "<|a:5,b:2|>");
}

#[test]
fn a_map_is_indexed_by_a_key_of_its_type() {
    let program = vec![at(mapping(vec![(text("a"), integer(1))]), text("a"))];
    assert_eq!(as_int(&value_of(run(&program))), 1);
    let program = vec![at(mapping(vec![(text("a"), integer(1))]), text("z"))];
    assert!(matches!(error_of(run(&program)), RuntimeError::KeyNotFound(_, _)));
    let program = vec![at(mapping(vec![(text("a"), integer(1))]), integer(1))];
    match error_of(run(&program)) {
        RuntimeError::InvalidOperatorOnTypes { types, .. } => {
            assert_eq!(types, vec![map_of(Type::Str, Type::Int), Type::Int, Type::Int]);
        }
        other => panic!("{:?}", other),
    }
    let program = vec![at(mapping(vec![]), text("a"))];
    assert!(matches!(
        error_of(run(&program)),
        RuntimeError::IndexingCollectionWithZeroElements(_)
    ));
    let program = vec![slice(mapping(vec![]), integer(0), integer(1))];
    assert!(matches!(error_of(run(&program)), RuntimeError::InvalidOperatorOnTypes { .. }));
}

#[test]
fn an_entry_of_a_map_is_assigned_by_a_key_of_its_type() {
    let program = vec![
        variable("m", map_of(Type::Str, Type::Int), Some(mapping(vec![(text("a"), integer(1))]))),
        set_at("m", integer(2), integer(3)),
    ];
    match error_of(run(&program)) {
        RuntimeError::InvalidOperatorOnTypes { types, .. } => {
            assert_eq!(types, vec![map_of(Type::Str, Type::Int), Type::Int]);
        }
        other => panic!("{:?}", other),
    }
    let program = vec![
        variable("m", map_of(Type::Str, Type::Int), Some(mapping(vec![(text("a"), integer(1))]))),
        set_at("m", text("a"), integer(3)),
        set_at("m", text("b"), integer(4)),
        call("print", vec![name("m")]),
    ];
    assert_eq!(run(&program).output, "<|a:3,b:4|>");
}

#[test]
fn an_assignment_with_a_comparison_assigns_its_result() {
    // var b is bool true; set b and false; b;
    let program = vec![
        variable("b", Type::Bool, Some(boolean(true))),
        set("b", BinaryOperator::And, boolean(false)),
        name("b"),
    ];
    assert!(matches!(value_of(run(&program)), Value::Bool(false)));
    // var x is int 5; set x > 3;  (the result is a boolean, which x does not take)
    let program = vec![
        variable("x", Type::Int, Some(integer(5))),
        set("x", BinaryOperator::Greater, integer(3)),
    ];
    match error_of(run(&program)) {
        RuntimeError::MismatchedTypes { got, expected } => {
            assert_eq!(got, vec![Type::Bool]);
            assert_eq!(expected, vec![Type::Int]);
        }
        other => panic!("{:?}", other),
    }
}

#[test]
fn an_assignment_looks_its_name_up_first() {
    let program = vec![set("nowhere", BinaryOperator::Is, call("print", vec![text("seen")]))];
    let run = run(&program);
    assert_eq!(run.output, "");
    assert!(matches!(run.end, End::Error(RuntimeError::IdentifierNotFound(_))));
}

#[test]
fn values_are_compared_in_a_program() {
    let program = vec![compare(text("abc"), BinaryOperator::Less, text("abd"))];
    assert!(matches!(value_of(run(&program)), Value::Bool(true)));
    let program = vec![compare(decimal(1.5), BinaryOperator::GreaterEqual, decimal(1.5))];
    assert!(matches!(value_of(run(&program)), Value::Bool(true)));
    let program = vec![compare(
        list(vec![integer(1)]),
        BinaryOperator::Equal,
        list(vec![integer(1)]),
    )];
    assert!(matches!(value_of(run(&program)), Value::Bool(true)));
    let program = vec![compare(integer(1), BinaryOperator::NotEqual, text("1"))];
    assert!(matches!(value_of(run(&program)), Value::Bool(true)));
    let program = vec![compare(integer(1), BinaryOperator::Less, text("1"))];
    assert!(matches!(error_of(run(&program)), RuntimeError::InvalidOperatorOnTypes { .. }));
}

#[test]
fn a_cast_of_a_list_ends_at_the_first_item_that_is_not_cast() {
    let program = vec![cast(
        list(vec![text("1"), text("x"), text("3")]),
        list_of(Type::Int),
    )];
    match error_of(run(&program)) {
        RuntimeError::StringToValueParseFailed(v, t) => {
            assert_eq!(as_text(&v), "x");
            assert_eq!(t, Type::Int);
        }
        other => panic!("{:?}", other),
    }
}

#[test]
fn a_break_without_value_gives_nothing() {
    let program = vec![Expr::For { vars: vec![], body: vec![Expr::Break(None)] }];
    assert!(matches!(value_of(run(&program)), Value::Unit));
    let program = vec![
        constant(
            "f",
            func_type(vec![], Type::Unit),
            Some(func(vec![], Type::Unit, vec![Expr::Return(None)])),
        ),
        call("f", vec![]),
    ];
    assert!(matches!(value_of(run(&program)), Value::Unit));
}

#[test]
fn a_loop_inside_a_loop_breaks_alone() {
    // var n is int 0;
    // for var i is int 0 while i < 3 { for { set n + 1; break; } set i + 1; } n;
    let program = vec![
        variable("n", Type::Int, Some(integer(0))),
        Expr::ForWhile {
            vars: vec![Declaration::Var(decl("i", Type::Int, Some(integer(0))))],
            condition: Box::new(compare(name("i"), BinaryOperator::Less, integer(3))),
            body: vec![
                Expr::For {
                    vars: vec![],
                    body: vec![set("n", BinaryOperator::Add, integer(1)), Expr::Break(None)],
                },
                set("i", BinaryOperator::Add, integer(1)),
            ],
        },
        name("n"),
    ];
    assert_eq!(as_int(&value_of(run(&program))), 3);
}

fn modulo(left: Expr, right: Expr) -> Expr {
    Expr::Multiplication(binary(left, BinaryOperator::Modulo, right))
}

#[test]
fn the_remainder_of_decimals_is_computed_by_the_driver() {
    let program = vec![modulo(decimal(7.5), decimal(2.0))];
    match value_of(run(&program)) {
        Value::Dec(d) => assert_eq!(num(d), 1.5),
        other => panic!("{:?}", other),
    }
    let program = vec![modulo(decimal(-7.5), decimal(2.0))];
    match value_of(run(&program)) {
        Value::Dec(d) => assert_eq!(num(d), -1.5),
        other => panic!("{:?}", other),
    }
    let program = vec![
        variable("x", Type::Dec, Some(decimal(5.5))),
        set("x", BinaryOperator::Modulo, decimal(2.0)),
        call("print", vec![name("x")]),
    ];
    assert_eq!(run(&program).output, "1.5");
}

#[test]
fn the_remainder_by_a_decimal_zero_fails() {
    let program = vec![modulo(decimal(1.5), decimal(0.0))];
    assert!(matches!(error_of(run(&program)), RuntimeError::DivideByZero));
    let program = vec![modulo(decimal(1.5), decimal(-0.0))];
    assert!(matches!(error_of(run(&program)), RuntimeError::DivideByZero));
    let program = vec![modulo(decimal(1.5), integer(0))];
    assert!(matches!(error_of(run(&program)), RuntimeError::InvalidOperatorOnTypes { .. }));
}

#[test]
fn nothing_equals_nothing_in_a_program() {
    // printline() = printline()
    let program = vec![compare(
        call("print", vec![]),
        BinaryOperator::Equal,
        call("print", vec![]),
    )];
    assert!(matches!(value_of(run(&program)), Value::Bool(true)));
    let program = vec![compare(
        Expr::TypeName(Type::Int),
        BinaryOperator::Equal,
        Expr::TypeName(Type::Int),
    )];
    assert!(matches!(value_of(run(&program)), Value::Bool(true)));
    let program = vec![compare(
        Expr::TypeName(Type::Int),
        BinaryOperator::NotEqual,
        Expr::TypeName(Type::Str),
    )];
    assert!(matches!(value_of(run(&program)), Value::Bool(true)));
}
