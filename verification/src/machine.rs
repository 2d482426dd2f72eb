//! The evaluator as a machine: what it holds, and what one step does.
//!
//! The machine walks the tree with an explicit stack of frames. A step never
//! waits: where the program prints, reads a line, or needs arithmetic on
//! doubles, the step ends with an action for the host, and the next step
//! takes the host's answer as its event. `step` is the meaning of the
//! language: the executable machine in `interpreter` is proved to do exactly
//! what it says.
use crate::arrays::method_outcome;
use crate::ast::AstView;
use crate::lexer::{ContentView, TokenType};
use crate::number::floor_of;
use crate::operators::{binary, negation, ComputedView};
use crate::render::{render, FragmentView};
use crate::scope::{index_of, lookup, names_of, upsert};
use crate::value::{ArrayMethod, RequestView, RuntimeError, ValueView};
use vstd::prelude::*;

verus! {

/// What a name in the function environment stands for.
pub enum InvocableView {
    /// Prints its arguments, one line each.
    Print,
    /// Reads a line.
    Input,
    /// A method of arrays, called with the array as the first argument.
    Array(ArrayMethod),
    /// A function of the program: parameters and body.
    User(Seq<Seq<char>>, Seq<AstView>),
}

/// What the machine has to come back to.
pub enum FrameView {
    /// An array literal: the items evaluated, those still to evaluate.
    Items(Seq<ValueView>, Seq<AstView>),
    /// The operand of a unary operator is under evaluation.
    Unary(TokenType),
    /// The left operand is under evaluation; the right one waits.
    Left(TokenType, AstView),
    /// The right operand is under evaluation; the left one is known.
    Right(TokenType, ValueView),
    /// A record construction: its name, the fields evaluated, the name of
    /// the field under evaluation, the fields still to evaluate.
    Members(Seq<char>, Seq<(Seq<char>, ValueView)>, Seq<char>, Seq<(Seq<char>, AstView)>),
    /// What is called is under evaluation; the arguments wait.
    Callee(Seq<AstView>),
    /// A call: what is called, the arguments evaluated, those still to
    /// evaluate.
    Arguments(ValueView, Seq<ValueView>, Seq<AstView>),
    /// The target of an access is under evaluation: the key, whether the key
    /// is evaluated, and the variable that the target was read from.
    Target(AstView, bool, Option<Seq<char>>),
    /// The key of an access is under evaluation.
    Key(ValueView, Option<Seq<char>>),
    /// The value of a binding is under evaluation.
    Bind(Seq<char>),
    /// The value of a field assignment is under evaluation: the variable, and
    /// the record as it was read: its name and fields; then the field.
    Assign(Seq<char>, Seq<char>, Seq<(Seq<char>, ValueView)>, Seq<char>),
    /// The value of `finished` is under evaluation.
    Finish,
    /// A block: the statements still to execute, and whether the block is
    /// the body of a function.
    Block(Seq<AstView>, bool),
    /// The condition of a `while` is under evaluation.
    WhileTest(AstView, Seq<AstView>),
    /// The body of a `while` runs.
    WhileBody(AstView, Seq<AstView>),
    /// The first bound of a loop is under evaluation.
    ForBegin(Seq<char>, AstView, Seq<AstView>),
    /// The second bound is under evaluation; the floor of the first is known.
    ForEnd(Seq<char>, i64, Seq<AstView>),
    /// The host turns the counter into a number for the loop variable:
    /// variable, counter, end, body.
    ForBind(Seq<char>, i64, i64, Seq<AstView>),
    /// The body of a loop runs: variable, next counter, end, body.
    ForBody(Seq<char>, i64, i64, Seq<AstView>),
    /// The condition of an `if` is under evaluation: the body, and the
    /// clauses that follow.
    Test(Seq<AstView>, Seq<AstView>),
}

/// What the machine does next.
pub enum FocusView {
    /// Nothing is loaded.
    Idle,
    Evaluate(AstView),
    Execute(AstView),
    /// A value is handed to the innermost frame.
    Deliver(ValueView),
    /// The value of `finished` travels to the body of the function.
    Unwind(ValueView),
    /// The host owes a number.
    AwaitNumber,
    /// The host owes a line of input.
    AwaitLine,
    /// The host prints, and owes a go-ahead.
    AwaitResume,
}

/// What the host hands to a step.
pub enum EventView {
    /// Nothing was asked: go on.
    Resume,
    /// The number that was asked for.
    Number(u64),
    /// The line that was read, with or without its line end.
    Line(Seq<char>),
}

/// What a step asks of the host.
pub enum ActionView {
    /// Nothing: step again, with `Resume`.
    Continue,
    /// Answer with the number.
    Numeric(RequestView),
    /// Print these lines, and answer with `Resume`.
    Print(Seq<Seq<FragmentView>>),
    /// Read a line, and answer with it.
    ReadLine,
    /// The run is over; `returned` where it ended by `finished`.
    Finished { value: ValueView, returned: bool },
    /// The run failed.
    Failed(RuntimeError),
}

/// The three environments and the stack of frames.
pub struct World {
    pub values: Seq<(Seq<char>, ValueView)>,
    pub functions: Seq<(Seq<char>, InvocableView)>,
    pub records: Seq<(Seq<char>, Seq<Seq<char>>)>,
    pub frames: Seq<FrameView>,
}

pub struct MachineView {
    pub world: World,
    pub focus: FocusView,
}

/// The machine after a step, and the action.
pub type Outcome = (MachineView, ActionView);

impl World {
    /// Goes on with `focus`.
    pub open spec fn go(self, focus: FocusView) -> Outcome {
        (MachineView { world: self, focus }, ActionView::Continue)
    }

    /// Hands `v` to the innermost frame.
    pub open spec fn deliver(self, v: ValueView) -> Outcome {
        self.go(FocusView::Deliver(v))
    }

    /// Fails: the frames are dropped, the environments stay.
    pub open spec fn fail(self, e: RuntimeError) -> Outcome {
        (
            MachineView { world: World { frames: Seq::empty(), ..self }, focus: FocusView::Idle },
            ActionView::Failed(e),
        )
    }

    /// Asks the host for a number.
    pub open spec fn ask(self, q: RequestView) -> Outcome {
        (MachineView { world: self, focus: FocusView::AwaitNumber }, ActionView::Numeric(q))
    }

    pub open spec fn push(self, frame: FrameView) -> World {
        World { frames: self.frames.push(frame), ..self }
    }

    pub open spec fn with_values(self, values: Seq<(Seq<char>, ValueView)>) -> World {
        World { values, ..self }
    }
}

/// The environments before a program runs: no values, no records, and the
/// functions that are built in.
pub open spec fn initial_world() -> World {
    World {
        values: Seq::empty(),
        functions: seq![
            ("print"@, InvocableView::Print),
            ("input"@, InvocableView::Input),
            ("STDLIB_ARRAY_PUSH"@, InvocableView::Array(ArrayMethod::Push)),
            ("STDLIB_ARRAY_POP"@, InvocableView::Array(ArrayMethod::Pop)),
            ("STDLIB_ARRAY_REVERSE"@, InvocableView::Array(ArrayMethod::Reverse)),
            ("STDLIB_ARRAY_SORT"@, InvocableView::Array(ArrayMethod::Sort)),
        ],
        records: Seq::empty(),
        frames: Seq::empty(),
    }
}

/// The variable that a target is read from, if it is one.
pub open spec fn binder_of(target: AstView) -> Option<Seq<char>> {
    match target {
        AstView::Var(name, _) => Some(name),
        _ => None,
    }
}

/// The method of arrays that `name` names.
pub open spec fn method_named(name: Seq<char>) -> Option<ArrayMethod> {
    if name == "push"@ {
        Some(ArrayMethod::Push)
    } else if name == "pop"@ {
        Some(ArrayMethod::Pop)
    } else if name == "reverse"@ {
        Some(ArrayMethod::Reverse)
    } else if name == "sort"@ {
        Some(ArrayMethod::Sort)
    } else {
        None
    }
}

/// A line without its line end: a final `\n`, and a `\r` before it.
pub open spec fn without_line_end(line: Seq<char>) -> Seq<char> {
    if line.len() > 0 && line.last() == '\n' {
        let cut = line.drop_last();
        if cut.len() > 0 && cut.last() == '\r' {
            cut.drop_last()
        } else {
            cut
        }
    } else {
        line
    }
}

/// A length as a loop counter can hold it.
pub open spec fn counted(len: nat) -> i64 {
    if len > i64::MAX {
        i64::MAX
    } else {
        len as i64
    }
}

/// The values with the parameters from `from` on bound to their arguments.
pub open spec fn bind_from(
    values: Seq<(Seq<char>, ValueView)>,
    params: Seq<Seq<char>>,
    args: Seq<ValueView>,
    from: int,
) -> Seq<(Seq<char>, ValueView)>
    decreases params.len() - from,
{
    if 0 <= from < params.len() && from < args.len() {
        bind_from(upsert(values, params[from], args[from]), params, args, from + 1)
    } else {
        values
    }
}

/// `acc` and a line for each argument from `from` on.
pub open spec fn lines_from(acc: Seq<Seq<FragmentView>>, args: Seq<ValueView>, from: int) -> Result<
    Seq<Seq<FragmentView>>,
    RuntimeError,
>
    decreases args.len() - from,
{
    if 0 <= from < args.len() {
        match render(args[from]) {
            Ok(line) => lines_from(acc.push(line), args, from + 1),
            Err(e) => Err(e),
        }
    } else {
        Ok(acc)
    }
}

/// Evaluates an expression.
pub open spec fn evaluate_step(w: World, node: AstView) -> Outcome {
    match node {
        AstView::Literal(ContentView::String(s)) => w.deliver(ValueView::Text(s)),
        AstView::Literal(ContentView::Boolean(b)) => w.deliver(ValueView::Boolean(b)),
        AstView::Literal(ContentView::Number(numeral)) => w.ask(RequestView::Parse(numeral)),
        AstView::Array(items) => if items.len() == 0 {
            w.deliver(ValueView::Array(Seq::empty()))
        } else {
            w.push(FrameView::Items(Seq::empty(), items.drop_first())).go(
                FocusView::Evaluate(items[0]),
            )
        },
        AstView::Var(name, _) => match lookup(w.values, name) {
            Some(v) => w.deliver(v),
            None => if lookup(w.functions, name) is Some {
                w.deliver(ValueView::Function(name))
            } else {
                w.fail(RuntimeError::UndefinedVariable)
            },
        },
        AstView::Unary(op, e) => w.push(FrameView::Unary(op)).go(FocusView::Evaluate(*e)),
        AstView::Binary(l, op, r) => w.push(FrameView::Left(op, *r)).go(FocusView::Evaluate(*l)),
        AstView::Instance(name, fields) => start_members(w, name, Seq::empty(), fields),
        AstView::Call(callee, args) => w.push(FrameView::Callee(args)).go(
            FocusView::Evaluate(*callee),
        ),
        AstView::Get(target, key, is_expr) => w.push(
            FrameView::Target(*key, is_expr, binder_of(*target)),
        ).go(FocusView::Evaluate(*target)),
        AstView::PointGet(target, field) => w.push(
            FrameView::Target(
                AstView::Literal(ContentView::String(field)),
                false,
                binder_of(*target),
            ),
        ).go(FocusView::Evaluate(*target)),
        _ => w.fail(RuntimeError::NotAnExpression),
    }
}

/// Goes on with a record construction: `done` are the fields evaluated,
/// `rest` those still to evaluate. The record must be declared, with the
/// next field.
pub open spec fn start_members(
    w: World,
    name: Seq<char>,
    done: Seq<(Seq<char>, ValueView)>,
    rest: Seq<(Seq<char>, AstView)>,
) -> Outcome {
    match lookup(w.records, name) {
        None => w.fail(RuntimeError::UndefinedRecord),
        Some(shape) => if rest.len() == 0 {
            w.deliver(ValueView::Instance(name, done))
        } else if index_of(shape, rest[0].0) is None {
            w.fail(RuntimeError::UnknownField)
        } else {
            w.push(FrameView::Members(name, done, rest[0].0, rest.drop_first())).go(
                FocusView::Evaluate(rest[0].1),
            )
        },
    }
}

/// Executes a statement; an expression is evaluated.
pub open spec fn execute_step(w: World, node: AstView) -> Outcome {
    match node {
        AstView::Var(name, Some(e)) => w.push(FrameView::Bind(name)).go(FocusView::Evaluate(*e)),
        AstView::Struct(name, fields) => World {
            records: upsert(w.records, name, fields),
            ..w
        }.deliver(ValueView::Nothing),
        AstView::Func(name, params, body) => World {
            functions: upsert(w.functions, name, InvocableView::User(params, body)),
            ..w
        }.deliver(ValueView::Nothing),
        AstView::Return(e) => w.push(FrameView::Finish).go(FocusView::Evaluate(*e)),
        AstView::While(c, body) => w.push(FrameView::WhileTest(*c, body)).go(
            FocusView::Evaluate(*c),
        ),
        AstView::For(id, range, body) => if range.len() != 2 {
            w.fail(RuntimeError::BadRange)
        } else {
            w.push(FrameView::ForBegin(id, range[1], body)).go(FocusView::Evaluate(range[0]))
        },
        AstView::Conditional(c, body, rest) => w.push(FrameView::Test(body, rest)).go(
            FocusView::Evaluate(*c),
        ),
        AstView::SetField(var, field, e) => match lookup(w.values, var) {
            None => w.fail(RuntimeError::UndefinedVariable),
            Some(ValueView::Instance(name, members)) => w.push(
                FrameView::Assign(var, name, members, field),
            ).go(FocusView::Evaluate(*e)),
            Some(_) => w.fail(RuntimeError::NotARecord),
        },
        _ => evaluate_step(w, node),
    }
}

/// Goes on with a call once what is called is known: with the first
/// argument, or with the call itself where there is none.
pub open spec fn start_arguments(w: World, callee: ValueView, args: Seq<AstView>) -> Outcome {
    if args.len() == 0 {
        invoke(w, callee, Seq::empty())
    } else {
        w.push(FrameView::Arguments(callee, Seq::empty(), args.drop_first())).go(
            FocusView::Evaluate(args[0]),
        )
    }
}

/// Calls `callee` with the arguments `args`.
pub open spec fn invoke(w: World, callee: ValueView, args: Seq<ValueView>) -> Outcome {
    match callee {
        ValueView::Function(name) => match lookup(w.functions, name) {
            None => w.fail(RuntimeError::UndefinedFunction),
            Some(InvocableView::Print) => match lines_from(Seq::empty(), args, 0) {
                Ok(lines) => (
                    MachineView { world: w, focus: FocusView::AwaitResume },
                    ActionView::Print(lines),
                ),
                Err(e) => w.fail(e),
            },
            Some(InvocableView::Input) => (
                MachineView { world: w, focus: FocusView::AwaitLine },
                ActionView::ReadLine,
            ),
            Some(InvocableView::Array(method)) => if args.len() == 0 {
                w.fail(RuntimeError::ArgumentCount)
            } else {
                match args[0] {
                    ValueView::Array(items) => match method_outcome(
                        method,
                        items,
                        args.drop_first(),
                    ) {
                        Ok(after) => w.deliver(ValueView::Array(after)),
                        Err(e) => w.fail(e),
                    },
                    _ => w.fail(RuntimeError::WrongOperand),
                }
            },
            Some(InvocableView::User(params, body)) => if args.len() < params.len() {
                w.fail(RuntimeError::ArgumentCount)
            } else {
                w.with_values(bind_from(w.values, params, args, 0)).push(
                    FrameView::Block(body, true),
                ).deliver(ValueView::Nothing)
            },
        },
        ValueView::Method(method, binder, items) => match method_outcome(method, items, args) {
            Err(e) => w.fail(e),
            Ok(after) => match binder {
                Some(name) => w.with_values(
                    upsert(w.values, name, ValueView::Array(after)),
                ).deliver(ValueView::Array(after)),
                None => w.deliver(ValueView::Array(after)),
            },
        },
        _ => w.fail(RuntimeError::NotCallable),
    }
}

/// Reads `key` from `target`.
pub open spec fn select(
    w: World,
    target: ValueView,
    key: ValueView,
    binder: Option<Seq<char>>,
) -> Outcome {
    match target {
        ValueView::Array(items) => match key {
            ValueView::Number(n) => if 0 <= floor_of(n) < items.len() {
                w.deliver(items[floor_of(n)])
            } else {
                w.fail(RuntimeError::IndexOutOfRange)
            },
            ValueView::Text(s) => if s == "length"@ {
                w.ask(RequestView::FromInteger(counted(items.len())))
            } else {
                match method_named(s) {
                    Some(method) => w.deliver(ValueView::Method(method, binder, items)),
                    None => w.fail(RuntimeError::UnknownField),
                }
            },
            _ => w.fail(RuntimeError::BadKey),
        },
        ValueView::Instance(_, fields) => match key {
            ValueView::Text(s) => match lookup(fields, s) {
                Some(v) => w.deliver(v),
                None => w.fail(RuntimeError::UnknownField),
            },
            _ => w.fail(RuntimeError::BadKey),
        },
        _ => w.fail(RuntimeError::NotARecord),
    }
}

/// Goes on with a loop whose next counter is `i`: asks for the number of
/// `i` while it is below `end`, and leaves the loop when it is not.
pub open spec fn advance_loop(w: World, id: Seq<char>, i: i64, end: i64, body: Seq<AstView>) -> Outcome {
    if i < end {
        w.push(FrameView::ForBind(id, i, end, body)).ask(RequestView::FromInteger(i))
    } else {
        w.deliver(ValueView::Nothing)
    }
}

/// The counter after `i` in a loop up to `end`.
pub open spec fn counter_after(i: i64, end: i64) -> i64 {
    if i < end {
        (i + 1) as i64
    } else {
        end
    }
}

/// Hands `v` to `frame`, which was the innermost; `w` holds the others.
pub open spec fn resume_frame(w: World, frame: FrameView, v: ValueView) -> Outcome {
    match frame {
        FrameView::Items(done, rest) => if rest.len() == 0 {
            w.deliver(ValueView::Array(done.push(v)))
        } else {
            w.push(FrameView::Items(done.push(v), rest.drop_first())).go(
                FocusView::Evaluate(rest[0]),
            )
        },
        FrameView::Unary(op) => if op != TokenType::Not {
            w.fail(RuntimeError::UnknownOperator)
        } else {
            match negation(v) {
                Ok(x) => w.deliver(x),
                Err(e) => w.fail(e),
            }
        },
        FrameView::Left(op, right) => w.push(FrameView::Right(op, v)).go(
            FocusView::Evaluate(right),
        ),
        FrameView::Right(op, left) => match binary(op, left, v) {
            Ok(ComputedView::Done(x)) => w.deliver(x),
            Ok(ComputedView::Ask(q)) => w.ask(q),
            Err(e) => w.fail(e),
        },
        FrameView::Members(name, done, field, rest) => start_members(
            w,
            name,
            upsert(done, field, v),
            rest,
        ),
        FrameView::Callee(args) => match v {
            ValueView::Function(name) => if lookup(w.functions, name) is None {
                w.fail(RuntimeError::UndefinedFunction)
            } else {
                start_arguments(w, v, args)
            },
            ValueView::Method(_, _, _) => start_arguments(w, v, args),
            _ => w.fail(RuntimeError::NotCallable),
        },
        FrameView::Arguments(callee, done, rest) => if rest.len() == 0 {
            invoke(w, callee, done.push(v))
        } else {
            w.push(FrameView::Arguments(callee, done.push(v), rest.drop_first())).go(
                FocusView::Evaluate(rest[0]),
            )
        },
        FrameView::Target(key, is_expr, binder) => if is_expr || key is Literal {
            w.push(FrameView::Key(v, binder)).go(FocusView::Evaluate(key))
        } else {
            w.fail(RuntimeError::BadKey)
        },
        FrameView::Key(target, binder) => select(w, target, v, binder),
        FrameView::Bind(name) => w.with_values(upsert(w.values, name, v)).deliver(
            ValueView::Nothing,
        ),
        FrameView::Assign(var, name, members, field) => if index_of(names_of(members), field)
            is None {
            w.fail(RuntimeError::UnknownField)
        } else {
            w.with_values(
                upsert(w.values, var, ValueView::Instance(name, upsert(members, field, v))),
            ).deliver(ValueView::Nothing)
        },
        FrameView::Finish => w.go(FocusView::Unwind(v)),
        FrameView::Block(rest, function) => if rest.len() == 0 {
            w.deliver(ValueView::Nothing)
        } else {
            w.push(FrameView::Block(rest.drop_first(), function)).go(FocusView::Execute(rest[0]))
        },
        FrameView::WhileTest(c, body) => if v == ValueView::Boolean(true) {
            w.push(FrameView::WhileBody(c, body)).push(FrameView::Block(body, false)).deliver(
                ValueView::Nothing,
            )
        } else {
            w.deliver(ValueView::Nothing)
        },
        FrameView::WhileBody(c, body) => w.push(FrameView::WhileTest(c, body)).go(
            FocusView::Evaluate(c),
        ),
        FrameView::ForBegin(id, end, body) => match v {
            ValueView::Number(a) => w.push(FrameView::ForEnd(id, floor_of(a) as i64, body)).go(
                FocusView::Evaluate(end),
            ),
            _ => w.fail(RuntimeError::BadRange),
        },
        FrameView::ForEnd(id, begin, body) => match v {
            ValueView::Number(b) => advance_loop(w, id, begin, floor_of(b) as i64, body),
            _ => w.fail(RuntimeError::BadRange),
        },
        FrameView::ForBind(id, i, end, body) => w.with_values(upsert(w.values, id, v)).push(
            FrameView::ForBody(id, counter_after(i, end), end, body),
        ).push(FrameView::Block(body, false)).deliver(ValueView::Nothing),
        FrameView::ForBody(id, i, end, body) => advance_loop(w, id, i, end, body),
        FrameView::Test(body, rest) => if v == ValueView::Boolean(false) {
            w.push(FrameView::Block(rest, false)).deliver(ValueView::Nothing)
        } else {
            w.push(FrameView::Block(body, false)).deliver(ValueView::Nothing)
        },
    }
}

/// Hands `v` to the innermost frame; without frames the run is over.
pub open spec fn deliver_step(w: World, v: ValueView) -> Outcome {
    if w.frames.len() == 0 {
        (
            MachineView { world: w, focus: FocusView::Idle },
            ActionView::Finished { value: v, returned: false },
        )
    } else {
        resume_frame(World { frames: w.frames.drop_last(), ..w }, w.frames.last(), v)
    }
}

/// Drops the innermost frame on the way to the body of the function, which
/// gets `v` as the value of its call; without frames the run is over.
pub open spec fn unwind_step(w: World, v: ValueView) -> Outcome {
    if w.frames.len() == 0 {
        (
            MachineView { world: w, focus: FocusView::Idle },
            ActionView::Finished { value: v, returned: true },
        )
    } else {
        let below = World { frames: w.frames.drop_last(), ..w };
        match w.frames.last() {
            FrameView::Block(_, true) => below.deliver(v),
            _ => below.go(FocusView::Unwind(v)),
        }
    }
}

/// One step of the machine on the event `e`.
pub open spec fn step(m: MachineView, e: EventView) -> Outcome {
    match m.focus {
        FocusView::Idle => m.world.fail(RuntimeError::UnexpectedEvent),
        FocusView::AwaitNumber => match e {
            EventView::Number(n) => m.world.deliver(ValueView::Number(n)),
            _ => m.world.fail(RuntimeError::UnexpectedEvent),
        },
        FocusView::AwaitLine => match e {
            EventView::Line(line) => m.world.deliver(ValueView::Text(without_line_end(line))),
            _ => m.world.fail(RuntimeError::UnexpectedEvent),
        },
        FocusView::AwaitResume => match e {
            EventView::Resume => m.world.deliver(ValueView::Nothing),
            _ => m.world.fail(RuntimeError::UnexpectedEvent),
        },
        FocusView::Evaluate(node) => if e is Resume {
            evaluate_step(m.world, node)
        } else {
            m.world.fail(RuntimeError::UnexpectedEvent)
        },
        FocusView::Execute(node) => if e is Resume {
            execute_step(m.world, node)
        } else {
            m.world.fail(RuntimeError::UnexpectedEvent)
        },
        FocusView::Deliver(v) => if e is Resume {
            deliver_step(m.world, v)
        } else {
            m.world.fail(RuntimeError::UnexpectedEvent)
        },
        FocusView::Unwind(v) => if e is Resume {
            unwind_step(m.world, v)
        } else {
            m.world.fail(RuntimeError::UnexpectedEvent)
        },
    }
}

/// Steps until the host is asked for something, the run ends, or `budget`
/// further steps have been made: the first step takes `e`, the others
/// `Resume`.
pub open spec fn run_steps(m: MachineView, e: EventView, budget: nat) -> Outcome
    decreases budget,
{
    let (after, action) = step(m, e);
    if action is Continue && budget > 0 {
        run_steps(after, EventView::Resume, (budget - 1) as nat)
    } else {
        (after, action)
    }
}

/// The machine set to run a program in the environments of `w`.
pub open spec fn loaded_run(w: World, program: Seq<AstView>) -> MachineView {
    MachineView {
        world: World { frames: seq![FrameView::Block(program, false)], ..w },
        focus: FocusView::Deliver(ValueView::Nothing),
    }
}

/// The machine set to execute one statement.
pub open spec fn loaded_execute(w: World, node: AstView) -> MachineView {
    MachineView { world: World { frames: Seq::empty(), ..w }, focus: FocusView::Execute(node) }
}

/// The machine set to evaluate one expression.
pub open spec fn loaded_evaluate(w: World, node: AstView) -> MachineView {
    MachineView { world: World { frames: Seq::empty(), ..w }, focus: FocusView::Evaluate(node) }
}

/// Right after `prepare x as e` has bound `x`, a reference to `x` gives the
/// value that `e` had: the step that hands `v` to the binding of `x` leaves
/// environments in which evaluating `x` hands on `v`.
pub proof fn lemma_bound_value_is_read(w: World, name: Seq<char>, v: ValueView, e: Option<Box<AstView>>)
    requires
        w.frames.len() > 0,
        w.frames.last() == FrameView::Bind(name),
    ensures
        step(
            MachineView {
                world: step(
                    MachineView { world: w, focus: FocusView::Deliver(v) },
                    EventView::Resume,
                ).0.world,
                focus: FocusView::Evaluate(AstView::Var(name, e)),
            },
            EventView::Resume,
        ).0.focus == FocusView::Deliver(v),
{
    crate::scope::lemma_lookup_upsert(w.values, name, v);
}

/// `reverse`, called twice on an array that is read from a variable, restores
/// the variable: after the first call the variable holds the items reversed,
/// and after a call on those it holds the items as they were.
pub proof fn lemma_reverse_twice_restores(w: World, name: Seq<char>, items: Seq<ValueView>)
    ensures
        ({
            let once = invoke(
                w,
                ValueView::Method(ArrayMethod::Reverse, Some(name), items),
                Seq::empty(),
            ).0.world;
            let twice = invoke(
                once,
                ValueView::Method(ArrayMethod::Reverse, Some(name), items.reverse()),
                Seq::empty(),
            ).0.world;
            &&& lookup(once.values, name) == Some(ValueView::Array(items.reverse()))
            &&& lookup(twice.values, name) == Some(ValueView::Array(items))
        }),
{
    let once = invoke(
        w,
        ValueView::Method(ArrayMethod::Reverse, Some(name), items),
        Seq::empty(),
    ).0.world;
    crate::scope::lemma_lookup_upsert(w.values, name, ValueView::Array(items.reverse()));
    assert(items.reverse().reverse() =~= items);
    crate::scope::lemma_lookup_upsert(once.values, name, ValueView::Array(items));
}

} // verus!
