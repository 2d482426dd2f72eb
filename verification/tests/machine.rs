use sketchlang::arrays::{apply_method, reverse_values, sort_values};
use sketchlang::ast::{Array, Ast, Literal};
use sketchlang::interpreter::Interpreter;
use sketchlang::lexer::{TokenContentType, TokenType};
use sketchlang::number::Number;
use sketchlang::operators::{apply, repeat_text, text_less, Computed};
use sketchlang::render::{rendered, Fragment};
use sketchlang::scope::{bind_value, lookup_value, position};
use sketchlang::state::{Action, Event, Focus, Frame};
use sketchlang::value::{ArrayMethod, NumericRequest, Operation, RuntimeError, Value};

fn text(s: &str) -> Value {
    Value::Text(s.to_string())
}

fn number(bits: u64) -> Value {
    Value::Number(Number::new(bits))
}

fn literal(s: &str) -> Ast {
    Ast::Literal(Literal::from(TokenContentType::String(s.to_string())))
}

fn name(s: &str) -> Ast {
    Ast::Var(s.to_string(), None)
}

fn shown(v: &Value) -> String {
    let mut out = String::new();
    for f in rendered(v).unwrap() {
        match f {
            Fragment::Text(s) => out.push_str(&s),
            Fragment::Number(n) => out.push_str(&format!("#{}", n.bits)),
        }
    }
    out
}

fn settle(machine: &mut Interpreter) -> Action {
    machine.resume(Event::Resume, 10_000)
}

#[test]
fn a_new_machine_knows_the_built_in_functions() {
    let machine = Interpreter::new();
    let names: Vec<&str> = machine.functions.iter().map(|(n, _)| n.as_str()).collect();
    assert_eq!(
        names,
        vec![
            "print",
            "input",
            "STDLIB_ARRAY_PUSH",
            "STDLIB_ARRAY_POP",
            "STDLIB_ARRAY_REVERSE",
            "STDLIB_ARRAY_SORT"
        ]
    );
    assert!(machine.values.is_empty());
    assert!(machine.records.is_empty());
    assert!(matches!(machine.focus, Focus::Idle));
}

#[test]
fn an_idle_machine_refuses_to_step() {
    let mut machine = Interpreter::new();
    assert!(matches!(machine.step(Event::Resume), Action::Failed(RuntimeError::UnexpectedEvent)));
}

#[test]
fn a_wrong_event_fails_the_run() {
    let mut machine = Interpreter::new();
    machine.evaluate(Box::new(Ast::Literal(Literal::from(TokenContentType::Number("1".to_string())))));
    assert!(matches!(machine.step(Event::Resume), Action::Numeric(NumericRequest::Parse(s)) if s == "1"));
    assert!(matches!(machine.step(Event::Resume), Action::Failed(RuntimeError::UnexpectedEvent)));
    assert!(machine.frames.is_empty());
    machine.evaluate(Box::new(literal("a")));
    assert!(matches!(
        machine.step(Event::Line("x".to_string())),
        Action::Failed(RuntimeError::UnexpectedEvent)
    ));
}

#[test]
fn a_numeral_is_asked_of_the_host_and_its_number_delivered() {
    let mut machine = Interpreter::new();
    machine.evaluate(Box::new(Ast::Literal(Literal::from(TokenContentType::Number("2.5".to_string())))));
    assert!(matches!(machine.step(Event::Resume), Action::Numeric(NumericRequest::Parse(s)) if s == "2.5"));
    assert!(matches!(machine.step(Event::Number(Number::new(77))), Action::Continue));
    assert!(matches!(
        machine.step(Event::Resume),
        Action::Finished { value: Value::Number(Number { bits: 77 }), returned: false }
    ));
}

#[test]
fn arithmetic_is_asked_of_the_host_with_both_operands() {
    let mut machine = Interpreter::new();
    bind_value(&mut machine.values, "a".to_string(), number(5));
    bind_value(&mut machine.values, "b".to_string(), number(9));
    machine.evaluate(Box::new(Ast::Binary(Box::new(name("a")), TokenType::Modulo, Box::new(name("b")))));
    match settle(&mut machine) {
        Action::Numeric(NumericRequest::Arithmetic(op, x, y)) => {
            assert_eq!(op, Operation::Remainder);
            assert_eq!((x.bits, y.bits), (5, 9));
        }
        other => panic!("{:?}", other),
    }
}

#[test]
fn one_step_does_one_thing() {
    let mut machine = Interpreter::new();
    machine.evaluate(Box::new(Ast::Unary(TokenType::Not, Box::new(Ast::Literal(Literal::from(TokenContentType::Boolean(true)))))));
    assert!(matches!(machine.step(Event::Resume), Action::Continue));
    assert!(matches!(machine.focus, Focus::Evaluate(_)));
    assert!(matches!(machine.frames[0], Frame::Unary(TokenType::Not)));
    assert!(matches!(machine.step(Event::Resume), Action::Continue));
    assert!(matches!(machine.focus, Focus::Deliver(Value::Boolean(true))));
    assert!(matches!(machine.step(Event::Resume), Action::Continue));
    assert!(machine.frames.is_empty());
    assert!(matches!(
        machine.step(Event::Resume),
        Action::Finished { value: Value::Boolean(false), returned: false }
    ));
    assert!(matches!(machine.focus, Focus::Idle));
}

#[test]
fn resume_stops_when_its_budget_is_spent() {
    let mut machine = Interpreter::new();
    machine.evaluate(Box::new(Ast::Unary(TokenType::Not, Box::new(Ast::Literal(Literal::from(TokenContentType::Boolean(true)))))));
    assert!(matches!(machine.resume(Event::Resume, 1), Action::Continue));
    assert!(matches!(machine.focus, Focus::Deliver(Value::Boolean(true))));
    assert!(matches!(machine.resume(Event::Resume, 0), Action::Continue));
    assert!(matches!(machine.resume(Event::Resume, 5), Action::Finished { .. }));
}

#[test]
fn a_statement_is_no_expression() {
    for node in [
        Ast::Nothing,
        Ast::Return(Box::new(literal("a"))),
        Ast::Struct("P".to_string(), vec![]),
        Ast::While(Box::new(literal("a")), vec![]),
    ] {
        let mut machine = Interpreter::new();
        machine.evaluate(Box::new(node));
        assert!(matches!(settle(&mut machine), Action::Failed(RuntimeError::NotAnExpression)));
    }
}

#[test]
fn execute_runs_one_statement_and_gives_the_value_of_an_expression() {
    let mut machine = Interpreter::new();
    machine.execute(Ast::Var("x".to_string(), Some(Box::new(literal("v")))));
    assert!(matches!(settle(&mut machine), Action::Finished { value: Value::Nothing, returned: false }));
    assert_eq!(shown(&lookup_value(&machine.values, "x").unwrap()), "v");
    machine.execute(name("x"));
    assert!(matches!(settle(&mut machine), Action::Finished { value: Value::Text(s), returned: false } if s == "v"));
    machine.execute(Ast::Return(Box::new(name("x"))));
    assert!(matches!(settle(&mut machine), Action::Finished { value: Value::Text(s), returned: true } if s == "v"));
}

#[test]
fn a_name_in_expression_position_ignores_its_initializer() {
    let mut machine = Interpreter::new();
    bind_value(&mut machine.values, "x".to_string(), text("old"));
    machine.evaluate(Box::new(Ast::Var("x".to_string(), Some(Box::new(literal("new"))))));
    assert!(matches!(settle(&mut machine), Action::Finished { value: Value::Text(s), .. } if s == "old"));
}

#[test]
fn an_unknown_operator_fails_after_its_operands() {
    let mut machine = Interpreter::new();
    machine.evaluate(Box::new(Ast::Binary(Box::new(literal("a")), TokenType::Comma, Box::new(literal("b")))));
    assert!(matches!(settle(&mut machine), Action::Failed(RuntimeError::UnknownOperator)));
    machine.evaluate(Box::new(Ast::Unary(TokenType::Minus, Box::new(literal("a")))));
    assert!(matches!(settle(&mut machine), Action::Failed(RuntimeError::UnknownOperator)));
    machine.evaluate(Box::new(Ast::Binary(Box::new(name("nope")), TokenType::Comma, Box::new(literal("b")))));
    assert!(matches!(settle(&mut machine), Action::Failed(RuntimeError::UndefinedVariable)));
}

#[test]
fn a_key_that_is_not_evaluated_has_to_be_a_literal() {
    let mut machine = Interpreter::new();
    bind_value(&mut machine.values, "a".to_string(), Value::Array(vec![text("x")]));
    bind_value(&mut machine.values, "k".to_string(), text("length"));
    machine.evaluate(Box::new(Ast::Get(Box::new(name("a")), Box::new(name("k")), false)));
    assert!(matches!(settle(&mut machine), Action::Failed(RuntimeError::BadKey)));
    machine.evaluate(Box::new(Ast::Get(Box::new(name("a")), Box::new(name("k")), true)));
    assert!(matches!(settle(&mut machine), Action::Numeric(NumericRequest::FromInteger(1))));
    machine.evaluate(Box::new(Ast::Get(Box::new(name("a")), Box::new(literal("length")), false)));
    assert!(matches!(settle(&mut machine), Action::Numeric(NumericRequest::FromInteger(1))));
}

#[test]
fn a_function_value_without_a_function_fails() {
    let mut machine = Interpreter::new();
    machine.frames.push(Frame::Callee(vec![]));
    machine.focus = Focus::Deliver(Value::Function("gone".to_string()));
    assert!(matches!(settle(&mut machine), Action::Failed(RuntimeError::UndefinedFunction)));
}

#[test]
fn array_functions_take_the_array_first() {
    let mut machine = Interpreter::new();
    let array = Ast::Array(Array::from(vec![literal("a"), literal("b")]));
    machine.evaluate(Box::new(Ast::Call(
        Box::new(name("STDLIB_ARRAY_PUSH")),
        vec![array, literal("c")],
    )));
    match settle(&mut machine) {
        Action::Finished { value, returned: false } => assert_eq!(shown(&value), "[a, b, c]"),
        other => panic!("{:?}", other),
    }
    machine.evaluate(Box::new(Ast::Call(Box::new(name("STDLIB_ARRAY_REVERSE")), vec![])));
    assert!(matches!(settle(&mut machine), Action::Failed(RuntimeError::ArgumentCount)));
    machine.evaluate(Box::new(Ast::Call(Box::new(name("STDLIB_ARRAY_POP")), vec![literal("a")])));
    assert!(matches!(settle(&mut machine), Action::Failed(RuntimeError::WrongOperand)));
}

#[test]
fn a_loop_without_two_bounds_fails() {
    let mut machine = Interpreter::new();
    machine.execute(Ast::For("i".to_string(), vec![literal("a")], vec![]));
    assert!(matches!(settle(&mut machine), Action::Failed(RuntimeError::BadRange)));
}

#[test]
fn the_loop_counter_is_asked_as_a_number() {
    let mut machine = Interpreter::new();
    bind_value(&mut machine.values, "lo".to_string(), number(0x4000_0000_0000_0000));
    bind_value(&mut machine.values, "hi".to_string(), number(0x4008_0000_0000_0000));
    machine.execute(Ast::For("i".to_string(), vec![name("lo"), name("hi")], vec![]));
    assert!(matches!(settle(&mut machine), Action::Numeric(NumericRequest::FromInteger(2))));
    assert!(matches!(machine.resume(Event::Number(Number::new(1234)), 10_000), Action::Finished { .. }));
    assert!(matches!(lookup_value(&machine.values, "i"), Some(Value::Number(Number { bits: 1234 }))));
}

#[test]
fn printed_forms() {
    assert_eq!(shown(&text("a b")), "a b");
    assert_eq!(shown(&number(7)), "#7");
    assert_eq!(shown(&Value::Boolean(true)), "true");
    assert_eq!(shown(&Value::Boolean(false)), "false");
    assert_eq!(shown(&Value::Array(vec![])), "[]");
    assert_eq!(shown(&Value::Array(vec![number(1), Value::Array(vec![text("x"), number(2)])])), "[#1, [x, #2]]");
    assert_eq!(shown(&Value::Instance("P".to_string(), vec![])), "P {}");
    assert_eq!(
        shown(&Value::Instance("P".to_string(), vec![("x".to_string(), number(1)), ("y".to_string(), text("t"))])),
        "P { x: #1, y: t }"
    );
    assert_eq!(shown(&Value::Function("f".to_string())), "function f");
    assert_eq!(shown(&Value::Method(ArrayMethod::Sort, None, vec![])), "function STDLIB_ARRAY_SORT");
    assert_eq!(rendered(&Value::Nothing).err(), Some(RuntimeError::NotPrintable));
    assert_eq!(
        rendered(&Value::Array(vec![number(1), Value::Nothing])).err(),
        Some(RuntimeError::NotPrintable)
    );
    assert_eq!(Interpreter::toPrint(&text("x")).unwrap().len(), 1);
    assert_eq!(Interpreter::toPrint(&Value::Nothing).err(), Some(RuntimeError::NotPrintable));
}

#[test]
fn operators_on_values() {
    assert!(matches!(apply(TokenType::Plus, &text("a"), &text("b")), Ok(Computed::Done(Value::Text(s))) if s == "ab"));
    assert!(matches!(
        apply(TokenType::Plus, &number(1), &number(2)),
        Ok(Computed::Ask(NumericRequest::Arithmetic(Operation::Add, Number { bits: 1 }, Number { bits: 2 })))
    ));
    assert!(matches!(
        apply(TokenType::Minus, &number(1), &number(0)),
        Ok(Computed::Ask(NumericRequest::Arithmetic(Operation::Subtract, _, _)))
    ));
    assert!(matches!(
        apply(TokenType::Asterisk, &number(1), &number(0)),
        Ok(Computed::Ask(NumericRequest::Arithmetic(Operation::Multiply, _, _)))
    ));
    assert!(matches!(
        apply(TokenType::Slash, &number(1), &number(1)),
        Ok(Computed::Ask(NumericRequest::Arithmetic(Operation::Divide, _, _)))
    ));
    assert!(matches!(apply(TokenType::Slash, &number(1), &number(0)), Err(RuntimeError::DivideByZero)));
    assert!(matches!(
        apply(TokenType::Modulo, &number(1), &number(0x8000_0000_0000_0000)),
        Err(RuntimeError::DivideByZero)
    ));
    assert!(matches!(apply(TokenType::Modulo, &text("a"), &number(1)), Err(RuntimeError::WrongOperand)));
    assert!(matches!(apply(TokenType::Not, &number(1), &number(1)), Err(RuntimeError::UnknownOperator)));
    assert!(matches!(apply(TokenType::Equiv, &Value::Nothing, &Value::Nothing), Ok(Computed::Done(Value::Boolean(false)))));
    assert!(matches!(apply(TokenType::NotEquiv, &text("a"), &number(1)), Ok(Computed::Done(Value::Boolean(true)))));
    let three = Number::new(0x4008_0000_0000_0000);
    assert!(matches!(
        apply(TokenType::Asterisk, &text("ab"), &Value::Number(three)),
        Ok(Computed::Done(Value::Text(s))) if s == "ababab"
    ));
    assert!(matches!(Value::Boolean(true).not(), Ok(Value::Boolean(false))));
    assert!(matches!(text("a").not(), Err(RuntimeError::WrongOperand)));
}

#[test]
fn equality_of_values() {
    assert!(number(0).loosely_equals(&number(0x8000_0000_0000_0000)));
    assert!(!number(0x7ff8_0000_0000_0000).loosely_equals(&number(0x7ff8_0000_0000_0000)));
    assert!(Value::Array(vec![text("a"), Value::Array(vec![])]).loosely_equals(&Value::Array(vec![text("a"), Value::Array(vec![])])));
    assert!(!Value::Array(vec![text("a")]).loosely_equals(&Value::Array(vec![text("b")])));
    assert!(!Value::Function("f".to_string()).loosely_equals(&Value::Function("f".to_string())));
    assert!(!Value::Nothing.loosely_equals(&Value::Nothing));
}

#[test]
fn text_order_and_repetition() {
    assert!(text_less("", "a"));
    assert!(!text_less("a", ""));
    assert!(!text_less("a", "a"));
    assert!(text_less("a", "ab"));
    assert!(text_less("Z", "a"));
    assert!(text_less("z", "\u{e9}"));
    assert!(text_less("abc", "abd"));
    assert_eq!(repeat_text("ab", 3), "ababab");
    assert_eq!(repeat_text("ab", 0), "");
}

#[test]
fn methods_on_values() {
    let items = vec![number(3), number(1), number(2)];
    assert_eq!(shown(&Value::Array(sort_values(items.clone()).unwrap())), "[#1, #2, #3]");
    assert_eq!(shown(&Value::Array(reverse_values(items.clone()))), "[#2, #1, #3]");
    assert_eq!(
        shown(&Value::Array(apply_method(ArrayMethod::Pop, items.clone(), vec![]).unwrap())),
        "[#3, #1]"
    );
    assert_eq!(
        shown(&Value::Array(apply_method(ArrayMethod::Push, items.clone(), vec![text("x")]).unwrap())),
        "[#3, #1, #2, x]"
    );
    assert_eq!(apply_method(ArrayMethod::Pop, vec![], vec![]).unwrap().len(), 0);
    assert_eq!(
        sort_values(vec![number(1), text("a"), number(2)]).err(),
        Some(RuntimeError::NotUniform)
    );
}

#[test]
fn sorting_follows_the_total_order_of_doubles() {
    let minus_zero = 0x8000_0000_0000_0000;
    let minus_one = 0xbff0_0000_0000_0000;
    let one = 0x3ff0_0000_0000_0000;
    let not_a_number = 0x7ff8_0000_0000_0000;
    let sorted = sort_values(vec![number(not_a_number), number(one), number(0), number(minus_zero), number(minus_one)]).unwrap();
    assert_eq!(
        shown(&Value::Array(sorted)),
        format!("[#{}, #{}, #0, #{}, #{}]", minus_one, minus_zero, one, not_a_number)
    );
}

#[test]
fn a_name_stands_once_however_often_it_is_bound() {
    let mut machine = Interpreter::new();
    for source_name in ["x", "y", "x", "print", "y", "x"] {
        machine.execute(Ast::Var(source_name.to_string(), Some(Box::new(literal("v")))));
        assert!(matches!(settle(&mut machine), Action::Finished { .. }));
    }
    let names: Vec<&str> = machine.values.iter().map(|(n, _)| n.as_str()).collect();
    assert_eq!(names, vec!["x", "y", "print"]);
    for _ in 0..2 {
        machine.execute(Ast::Struct("P".to_string(), vec!["a".to_string()]));
        assert!(matches!(settle(&mut machine), Action::Finished { .. }));
        machine.execute(Ast::Func("f".to_string(), vec![], vec![]));
        assert!(matches!(settle(&mut machine), Action::Finished { .. }));
    }
    assert_eq!(machine.records.len(), 1);
    assert_eq!(machine.functions.iter().filter(|(n, _)| n == "f").count(), 1);
    machine.evaluate(Box::new(Ast::Instance(
        "P".to_string(),
        vec![("a".to_string(), literal("1")), ("a".to_string(), literal("2"))],
    )));
    match settle(&mut machine) {
        Action::Finished { value, .. } => assert_eq!(shown(&value), "P { a: 2 }"),
        other => panic!("{:?}", other),
    }
}

#[test]
fn environments_bind_in_place() {
    let mut env: Vec<(String, Value)> = Vec::new();
    bind_value(&mut env, "a".to_string(), text("1"));
    bind_value(&mut env, "b".to_string(), text("2"));
    bind_value(&mut env, "a".to_string(), text("3"));
    assert_eq!(env.len(), 2);
    assert_eq!(position(&env, "a"), Some(0));
    assert_eq!(position(&env, "b"), Some(1));
    assert_eq!(position(&env, "c"), None);
    assert_eq!(shown(&lookup_value(&env, "a").unwrap()), "3");
    assert!(lookup_value(&env, "c").is_none());
}
