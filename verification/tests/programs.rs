use sketchlang::interpreter::Interpreter;
use sketchlang::lexer::lex;
use sketchlang::number::Number;
use sketchlang::parser::Parser;
use sketchlang::render::Fragment;
use sketchlang::state::{Action, Event};
use sketchlang::value::{NumericRequest, Operation, RuntimeError, Value};

fn answer(request: &NumericRequest) -> Number {
    let x = match request {
        NumericRequest::Parse(numeral) => numeral.parse::<f64>().unwrap(),
        NumericRequest::FromInteger(i) => *i as f64,
        NumericRequest::Arithmetic(op, a, b) => {
            let (a, b) = (f64::from_bits(a.bits), f64::from_bits(b.bits));
            match op {
                Operation::Add => a + b,
                Operation::Subtract => a - b,
                Operation::Multiply => a * b,
                Operation::Divide => a / b,
                Operation::Remainder => a % b,
            }
        }
    };
    Number::new(x.to_bits())
}

fn line(fragments: &[Fragment]) -> String {
    let mut out = String::new();
    for f in fragments {
        match f {
            Fragment::Text(s) => out.push_str(s),
            Fragment::Number(n) => out.push_str(&format!("{}", f64::from_bits(n.bits))),
        }
    }
    out
}

fn drive(
    machine: &mut Interpreter,
    input: &[&str],
    output: &mut Vec<String>,
) -> Result<(Value, bool), RuntimeError> {
    let mut lines = input.iter();
    let mut event = Event::Resume;
    for _ in 0..100_000 {
        event = match machine.resume(event, 1000) {
            Action::Continue => Event::Resume,
            Action::Numeric(q) => Event::Number(answer(&q)),
            Action::Print(printed) => {
                for l in &printed {
                    output.push(line(l));
                }
                Event::Resume
            }
            Action::ReadLine => Event::Line(lines.next().map_or(String::new(), |s| s.to_string())),
            Action::Finished { value, returned } => return Ok((value, returned)),
            Action::Failed(e) => return Err(e),
        };
    }
    panic!("the program did not end");
}

fn run_with(source: &str, input: &[&str]) -> (Vec<String>, Result<(Value, bool), RuntimeError>) {
    let program = Parser::new(lex(source).unwrap()).parse().unwrap();
    let mut machine = Interpreter::new();
    machine.run(program);
    let mut output = Vec::new();
    let end = drive(&mut machine, input, &mut output);
    (output, end)
}

fn prints(source: &str) -> Vec<String> {
    let (output, end) = run_with(source, &[]);
    assert!(end.is_ok(), "{:?}", end);
    output
}

fn fails(source: &str) -> RuntimeError {
    let (_, end) = run_with(source, &[]);
    end.err().expect("the program should fail")
}

#[test]
fn arithmetic_and_precedence() {
    assert_eq!(prints("prepare x as 2 + 3 * 4~comment\nprint(x)"), vec!["14"]);
}

#[test]
fn string_repetition() {
    assert_eq!(prints("print(\"ab\" * 3)"), vec!["ababab"]);
    assert_eq!(prints("print('ab' * 0)"), vec![""]);
    assert_eq!(prints("print('' * 1000000000000)"), vec![""]);
    assert_eq!(prints("print('' * 100000000000000000000)"), vec![""]);
    assert_eq!(
        prints("prepare s as 'ab' * 600000\nprint(s == 'ab' * 300000 + 'ab' * 300000)"),
        vec!["true"]
    );
}

#[test]
fn function_with_early_return() {
    let source = "sketch max needs (a, b) { if (a > b) { finished a } finished b }\nprint(max(7, 3))";
    assert_eq!(prints(source), vec!["7"]);
    let source = "sketch max needs (a, b) { if (a > b) { finished a } finished b }\nprint(max(2, 3))";
    assert_eq!(prints(source), vec!["3"]);
}

#[test]
fn bounded_loop_adds_up() {
    let source = "prepare s as 0\nloop i through (0, 5) { prepare s as s + i }\nprint(s)";
    assert_eq!(prints(source), vec!["10"]);
}

#[test]
fn record_construction_and_field_update() {
    let source = "brush P has { x, y }\nprepare p as prep P(x: 1, y: 2)\nprepare p.x as 10\nprint(p)";
    assert_eq!(prints(source), vec!["P { x: 10, y: 2 }"]);
}

#[test]
fn array_method_rewrites_the_variable() {
    assert_eq!(prints("prepare a as [3, 1, 2]\na.sort()\nprint(a)"), vec!["[1, 2, 3]"]);
}

#[test]
fn a_bound_name_reads_back_the_value() {
    assert_eq!(prints("prepare x as 'a' + 'b'\nprint(x == 'a' + 'b')\nprint(x)"), vec!["true", "ab"]);
    assert_eq!(prints("prepare x as 1\nprepare x as x + 1\nprint(x)"), vec!["2"]);
}

#[test]
fn reverse_twice_restores_the_variable() {
    let source = "prepare a as [1, 'b', true]\na.reverse()\nprint(a)\na.reverse()\nprint(a)";
    assert_eq!(prints(source), vec!["[true, b, 1]", "[1, b, true]"]);
}

#[test]
fn sorting_numbers_is_idempotent_and_ascending() {
    let source = "prepare a as [3, 0.5, 10, 2, 2, 7]\na.sort()\nprint(a)\na.sort()\nprint(a)";
    assert_eq!(prints(source), vec!["[0.5, 2, 2, 3, 7, 10]", "[0.5, 2, 2, 3, 7, 10]"]);
}

#[test]
fn sorting_texts_is_lexicographic() {
    assert_eq!(
        prints("prepare a as ['pear', 'apple', 'b', 'app', 'B']\nprint(a.sort())"),
        vec!["[B, app, apple, b, pear]"]
    );
}

#[test]
fn sort_leaves_short_arrays_and_refuses_mixed_ones() {
    assert_eq!(prints("print([].sort())\nprint([true].sort())"), vec!["[]", "[true]"]);
    assert_eq!(fails("[1, 'a'].sort()"), RuntimeError::NotUniform);
    assert_eq!(fails("[true, false].sort()"), RuntimeError::NotUniform);
}

#[test]
fn arithmetic_is_that_of_doubles() {
    assert_eq!(prints("print(0.1 + 0.2)"), vec![format!("{}", 0.1f64 + 0.2f64)]);
    assert_eq!(prints("print(10 / 4)"), vec!["2.5"]);
    assert_eq!(prints("print(1 - 2 - 3)"), vec!["-4"]);
    assert_eq!(prints("print(2 * 3 - 1)"), vec!["5"]);
    assert_eq!(prints("print(1 / 3)"), vec![format!("{}", 1.0f64 / 3.0f64)]);
    assert_eq!(prints("print(1.5 * 1.5)"), vec!["2.25"]);
}

#[test]
fn operators_group_to_the_left_and_parentheses_hold() {
    assert_eq!(prints("print(10 - 4 - 3)"), vec!["3"]);
    assert_eq!(prints("print(10 - (4 - 3))"), vec!["9"]);
    assert_eq!(prints("print(8 / 4 * 2)"), vec!["4"]);
    assert_eq!(prints("print(2 * (3 + 4))"), vec!["14"]);
    assert_eq!(prints("print((2 + 3) * 4)"), vec!["20"]);
    assert_eq!(prints("prepare i as 3\nprepare go as true\nprint(i < 10 && go)"), vec!["true"]);
}

#[test]
fn division_by_zero_fails() {
    assert_eq!(fails("1 / 0"), RuntimeError::DivideByZero);
    assert_eq!(fails("prepare n as 0 - 1\nprepare z as 0 * n\nprint(1 / z)"), RuntimeError::DivideByZero);
}

#[test]
fn text_operations() {
    assert_eq!(prints("print('ab' + 'cd')"), vec!["abcd"]);
    assert_eq!(fails("'a' + 1"), RuntimeError::WrongOperand);
    assert_eq!(fails("1 + 'a'"), RuntimeError::WrongOperand);
    assert_eq!(fails("'a' - 'b'"), RuntimeError::WrongOperand);
    assert_eq!(fails("'ab' * 1.5"), RuntimeError::WrongOperand);
    assert_eq!(fails("prepare n as 0 - 1\n'ab' * n"), RuntimeError::WrongOperand);
    assert_eq!(fails("'ab' * 10000000000000000000"), RuntimeError::TooLong);
    assert_eq!(fails("'abc' * 4000000000000000000"), RuntimeError::TooLong);
    assert_eq!(fails("3 * 'ab'"), RuntimeError::WrongOperand);
}

#[test]
fn comparisons() {
    assert_eq!(prints("print(1 < 2)\nprint(2 <= 2)\nprint(1 > 2)\nprint(2 >= 3)"), vec!["true", "true", "false", "false"]);
    assert_eq!(prints("print('a' < 'b')\nprint('b' <= 'a')\nprint('ab' > 'a')"), vec!["true", "false", "true"]);
    assert_eq!(prints("print(false < true)\nprint(true >= true)"), vec!["true", "true"]);
    assert_eq!(fails("1 < 'a'"), RuntimeError::WrongOperand);
    assert_eq!(fails("[1] < [2]"), RuntimeError::WrongOperand);
}

#[test]
fn equality() {
    assert_eq!(prints("print(1 == 1)\nprint(1 != 1)\nprint('a' == 'a')\nprint(true == false)"), vec!["true", "false", "true", "false"]);
    assert_eq!(prints("print(1 == '1')\nprint(1 != '1')"), vec!["false", "true"]);
    assert_eq!(prints("print([1, 'a'] == [1, 'a'])\nprint([1] == [1, 2])"), vec!["true", "false"]);
}

#[test]
fn logic() {
    assert_eq!(prints("print(true && false)\nprint(true || false)\nprint(!true)"), vec!["false", "true", "false"]);
    assert_eq!(fails("true && 1"), RuntimeError::WrongOperand);
    assert_eq!(fails("0 || true"), RuntimeError::WrongOperand);
    assert_eq!(fails("!1"), RuntimeError::WrongOperand);
}

#[test]
fn both_operands_are_evaluated() {
    let source = "sketch f { print('f') finished false }\nsketch g { print('g') finished true }\nprint(f() && g())";
    assert_eq!(prints(source), vec!["f", "g", "false"]);
}

#[test]
fn while_loops_until_the_condition_is_not_true() {
    let source = "prepare i as 0\nwhile (i < 3) { print(i) prepare i as i + 1 }\nprint('end')";
    assert_eq!(prints(source), vec!["0", "1", "2", "end"]);
    assert_eq!(prints("while (1) { print('never') }\nprint('end')"), vec!["end"]);
}

#[test]
fn return_leaves_loops_inside_a_function() {
    let source = "sketch first needs (a) { prepare i as 0 while (true) { if (a[i] > 1) { finished a[i] } prepare i as i + 1 } }\nprint(first([0, 1, 5, 9]))";
    assert_eq!(prints(source), vec!["5"]);
    let source = "sketch f { loop i through (0, 10) { if (i == 3) { finished i } } finished 0 - 1 }\nprint(f())";
    assert_eq!(prints(source), vec!["3"]);
}

#[test]
fn loop_bounds_are_floored() {
    assert_eq!(prints("loop i through (0.5, 2.5) { print(i) }"), vec!["0", "1"]);
    assert_eq!(prints("prepare n as 0 - 1.5\nloop i through (n, 0) { print(i) }"), vec!["-2", "-1"]);
    assert_eq!(prints("loop i through (3, 1) { print(i) }\nprint('none')"), vec!["none"]);
    assert_eq!(fails("loop i through ('a', 2) { }"), RuntimeError::BadRange);
    assert_eq!(fails("loop i through (1, true) { }"), RuntimeError::BadRange);
}

#[test]
fn the_loop_variable_is_set_anew_for_each_round() {
    let source = "loop i through (0, 3) { print(i) prepare i as 10 }\nprint(i)";
    assert_eq!(prints(source), vec!["0", "1", "2", "10"]);
}

#[test]
fn conditional_chain() {
    let source = "sketch kind needs (n) { if (n < 0) { finished 'neg' } elif (n == 0) { finished 'zero' } else { finished 'pos' } }\nprint(kind(0 - 1))\nprint(kind(0))\nprint(kind(5))";
    assert_eq!(prints(source), vec!["neg", "zero", "pos"]);
    assert_eq!(prints("if ('x') { print('then') } else { print('else') }"), vec!["then"]);
    assert_eq!(prints("if (false) { print('then') }\nprint('after')"), vec!["after"]);
}

#[test]
fn parameters_are_bound_in_the_shared_environment() {
    let source = "sketch f needs (a) { prepare y as a + 1 }\nf(5)\nprint(a)\nprint(y)";
    assert_eq!(prints(source), vec!["5", "6"]);
}

#[test]
fn functions_see_later_bindings_and_recurse() {
    let source = "sketch show { print(later) }\nprepare later as 'now'\nshow()";
    assert_eq!(prints(source), vec!["now"]);
    let source = "sketch fact needs (n) { if (n < 2) { finished 1 } finished n * fact(n - 1) }\nprint(fact(5))";
    assert_eq!(prints(source), vec!["120"]);
}

#[test]
fn a_function_without_finished_gives_the_absent_value() {
    assert_eq!(fails("sketch f { }\nprint(f())"), RuntimeError::NotPrintable);
    let (_, end) = run_with("sketch f { 1 }\nf()", &[]);
    assert!(matches!(end, Ok((Value::Nothing, false))));
}

#[test]
fn arguments_and_calls() {
    assert_eq!(fails("sketch f needs (a, b) { }\nf(1)"), RuntimeError::ArgumentCount);
    assert_eq!(prints("sketch f needs (a) { finished a }\nprint(f(1, 2))"), vec!["1"]);
    assert_eq!(fails("5()"), RuntimeError::NotCallable);
    assert_eq!(fails("'f'(1)"), RuntimeError::NotCallable);
    assert_eq!(fails("g()"), RuntimeError::UndefinedVariable);
    assert_eq!(fails("print(x)"), RuntimeError::UndefinedVariable);
}

#[test]
fn values_come_before_functions() {
    let source = "sketch f { finished 1 }\nprepare f as 2\nprint(f)";
    assert_eq!(prints(source), vec!["2"]);
    assert_eq!(fails("sketch f { finished 1 }\nprepare f as 2\nf()"), RuntimeError::NotCallable);
}

#[test]
fn printing() {
    assert_eq!(prints("print(1, 'two', true)"), vec!["1", "two", "true"]);
    assert_eq!(prints("print()"), Vec::<String>::new());
    assert_eq!(prints("print([1, [2, 'x'], []])"), vec!["[1, [2, x], []]"]);
    assert_eq!(prints("sketch f { }\nprint(f)\nprint(print)"), vec!["function f", "function print"]);
    assert_eq!(prints("print([1].push)"), vec!["function STDLIB_ARRAY_PUSH"]);
    assert_eq!(prints("brush E has { a }\nprint(prep E())"), vec!["E {}"]);
    assert_eq!(
        prints("brush P has { x, y }\nprint([prep P(y: [1], x: prep P(x: 'in'))])"),
        vec!["[P { y: [1], x: P { x: in } }]"]
    );
    assert_eq!(prints("print(1.5)\nprint(100)\nprint(0.25)"), vec!["1.5", "100", "0.25"]);
}

#[test]
fn input_gives_the_line_without_its_end() {
    let (output, end) = run_with("prepare s as input()\nprint(s + '!')\nprint(input())\nprint(input() == '')", &["hi\n", " x \r\n"]);
    assert!(end.is_ok());
    assert_eq!(output, vec!["hi!", " x ", "true"]);
}

#[test]
fn array_access() {
    assert_eq!(prints("prepare a as [10, 20, 30]\nprint(a[1])\nprint(a[1.7])\nprint(a.length)\nprint(a['length'])"), vec!["20", "20", "3", "3"]);
    assert_eq!(prints("print([[1, 2], [3]][0][1])"), vec!["2"]);
    assert_eq!(fails("[1, 2][2]"), RuntimeError::IndexOutOfRange);
    assert_eq!(fails("prepare a as [1, 2]\nprepare i as 0 - 1\na[i]"), RuntimeError::IndexOutOfRange);
    assert_eq!(fails("[1].size"), RuntimeError::UnknownField);
    assert_eq!(fails("[1][true]"), RuntimeError::BadKey);
    assert_eq!(fails("prepare x as 1\nx[0]"), RuntimeError::NotARecord);
    assert_eq!(fails("prepare x as 'abc'\nx.length"), RuntimeError::NotARecord);
}

#[test]
fn array_methods() {
    let source = "prepare a as [1]\na.push(2)\na.push([3])\nprint(a)\na.pop()\nprint(a)\nprint(a.pop())\nprint(a.pop())\nprint(a.pop())";
    assert_eq!(prints(source), vec!["[1, 2, [3]]", "[1, 2]", "[1]", "[]", "[]"]);
    assert_eq!(prints("print([1, 2].push(3))\nprint([1, 2, 3].reverse())"), vec!["[1, 2, 3]", "[3, 2, 1]"]);
    assert_eq!(fails("[1].push()"), RuntimeError::ArgumentCount);
    assert_eq!(fails("[1].push(1, 2)"), RuntimeError::ArgumentCount);
    assert_eq!(fails("[1].pop(1)"), RuntimeError::ArgumentCount);
    assert_eq!(fails("[1].reverse(1)"), RuntimeError::ArgumentCount);
    assert_eq!(fails("[1].sort(1)"), RuntimeError::ArgumentCount);
}

#[test]
fn a_method_keeps_the_array_it_was_read_from() {
    let source = "prepare a as [1]\nprepare m as a.push\nprepare a as [9, 9]\nm(2)\nprint(a)";
    assert_eq!(prints(source), vec!["[1, 2]"]);
}

#[test]
fn record_failures_and_reads() {
    assert_eq!(fails("prepare q as prep Q(x: 1)"), RuntimeError::UndefinedRecord);
    assert_eq!(fails("brush P has { x }\nprepare p as prep P(z: 1)"), RuntimeError::UnknownField);
    assert_eq!(fails("brush P has { x }\nprepare p as prep P(x: 1)\np.y"), RuntimeError::UnknownField);
    assert_eq!(fails("brush P has { x, y }\nprepare p as prep P(x: 1)\nprepare p.y as 2"), RuntimeError::UnknownField);
    assert_eq!(fails("prepare p.x as 1"), RuntimeError::UndefinedVariable);
    assert_eq!(fails("prepare p as 1\nprepare p.x as 1"), RuntimeError::NotARecord);
    assert_eq!(fails("brush P has { x }\nprepare p as prep P(x: 1)\np[0]"), RuntimeError::BadKey);
    assert_eq!(prints("brush P has { x }\nprepare p as prep P(x: 1)\nprint(p.x)\nprint(p['x'])"), vec!["1", "1"]);
    assert_eq!(prints("brush P has { x }\nprint(prep P(x: 1, x: 2))"), vec!["P { x: 2 }"]);
}

#[test]
fn finished_at_the_top_ends_the_run() {
    let (output, end) = run_with("print(1)\nfinished 'done'\nprint(2)", &[]);
    assert_eq!(output, vec!["1"]);
    assert!(matches!(end, Ok((Value::Text(s), true)) if s == "done"));
}

#[test]
fn a_run_without_finished_ends_with_the_absent_value() {
    let (_, end) = run_with("prepare x as 1", &[]);
    assert!(matches!(end, Ok((Value::Nothing, false))));
}

#[test]
fn environments_outlive_a_failure_and_a_run() {
    let mut machine = Interpreter::new();
    let mut output = Vec::new();
    machine.run(Parser::new(lex("prepare x as 41\nboom").unwrap()).parse().unwrap());
    assert_eq!(drive(&mut machine, &[], &mut output).err(), Some(RuntimeError::UndefinedVariable));
    machine.run(Parser::new(lex("print(x + 1)").unwrap()).parse().unwrap());
    assert!(drive(&mut machine, &[], &mut output).is_ok());
    assert_eq!(output, vec!["42"]);
}

#[test]
fn a_method_on_a_field_changes_no_variable() {
    let source = "brush B has { items }\nprepare b as prep B(items: [1])\nprint(b.items.push(2))\nprint(b)";
    assert_eq!(prints(source), vec!["[1, 2]", "B { items: [1] }"]);
}

#[test]
fn functions_are_values() {
    let source = "sketch twice needs (x) { finished x * 2 }\nprepare g as twice\nprint(g(4))\nsketch use needs (f, x) { finished f(f(x)) }\nprint(use(twice, 3))";
    assert_eq!(prints(source), vec!["8", "12"]);
    assert_eq!(prints("sketch f { }\nprint(f == f)"), vec!["false"]);
}

#[test]
fn nested_loops_and_records_in_arrays() {
    let source = "prepare total as 0\nloop i through (0, 3) { loop j through (0, 3) { if (i < j) { prepare total as total + 1 } } }\nprint(total)";
    assert_eq!(prints(source), vec!["3"]);
    let source = "brush P has { x }\nprepare ps as []\nloop i through (0, 3) { ps.push(prep P(x: i * i)) }\nprint(ps)\nprint(ps[2].x)";
    assert_eq!(prints(source), vec!["[P { x: 0 }, P { x: 1 }, P { x: 4 }]", "4"]);
}

#[test]
fn a_function_can_change_a_binding_outside() {
    let source = "prepare n as 0\nsketch bump { prepare n as n + 1 }\nbump()\nbump()\nprint(n)";
    assert_eq!(prints(source), vec!["2"]);
}

#[test]
fn redeclaring_replaces() {
    let source = "sketch f { finished 1 }\nsketch f { finished 2 }\nprint(f())\nbrush P has { x }\nbrush P has { y }\nprint(prep P(y: 1))";
    assert_eq!(prints(source), vec!["2", "P { y: 1 }"]);
    assert_eq!(fails("brush P has { x }\nbrush P has { y }\nprint(prep P(x: 1))"), RuntimeError::UnknownField);
}

#[test]
fn text_is_built_up_in_a_loop() {
    let source = "prepare s as ''\nprepare i as 0\nwhile (i < 3) { prepare s as s + 'ab' * i + '-' prepare i as i + 1 }\nprint(s)";
    assert_eq!(prints(source), vec!["-ab-abab-"]);
}

#[test]
fn while_with_a_compound_condition() {
    let source = "prepare i as 0\nprepare go as true\nwhile (i < 10 && go) { prepare i as i + 3 if (i > 5) { prepare go as false } }\nprint(i)";
    assert_eq!(prints(source), vec!["6"]);
}
