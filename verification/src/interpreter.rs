//! The executable machine. Each function here does one part of a step and
//! is proved to do what `machine` says of that part.
use crate::arrays::apply_method;
use crate::ast::{
    ast_views, group_ast_views, lemma_ast_kind, member_views, name_views, Ast, AstView,
};
use crate::lexer::{chars_of, ContentView, TokenContentType, TokenType};
use crate::machine::{
    advance_loop, bind_from, binder_of, counted, counter_after, deliver_step, evaluate_step,
    execute_step, initial_world, invoke, lines_from, loaded_evaluate, loaded_execute, loaded_run,
    method_named, resume_frame, run_steps, select, start_arguments, start_members, step,
    unwind_step,
    without_line_end, FocusView, FrameView, InvocableView, MachineView, World,
};
use crate::operators::{apply, Computed};
use crate::parser::same_text;
use crate::render::{fragment_views, rendered, Fragment, FragmentView};
use crate::scope::{
    bind_entry, bind_value, has_name, index_of, keys_of, lemma_field_names,
    lemma_index_from_bounds, lookup, lookup_value, position, upsert,
};
use crate::state::{
    frame_views, invocable_views, lemma_frame_views_empty, lemma_frame_views_pop,
    lemma_frame_views_push, lemma_invocable_names, lemma_line_views_push, lemma_record_names,
    lemma_remaining, line_views, record_views, remaining, Action, Event, Focus, Frame, Invocable,
};
use crate::value::{
    copy_values, field_views, group_value_views, lemma_same_kind, option_view, value_views,
    ArrayMethod, NumericRequest, RuntimeError, Value, ValueView,
};
use crate::tidy::{
    lemma_initial_tidy, lemma_loaded_tidy, lemma_run_steps_tidy, lemma_step_tidy, tidy_machine,
    tidy_world,
};
use vstd::prelude::*;

verus! {

/// The machine: the environments of values, functions and records, the
/// frames, and what to do next.
pub struct Interpreter {
    pub values: Vec<(String, Value)>,
    pub functions: Vec<(String, Invocable)>,
    pub records: Vec<(String, Vec<String>)>,
    pub frames: Vec<Frame>,
    pub focus: Focus,
}

/// The variable that a target is read from, if it is one.
fn binder(target: &Ast) -> (r: Option<String>)
    ensures
        option_view(r) == binder_of(target@),
{
    broadcast use group_ast_views;

    proof {
        lemma_ast_kind(*target);
    }
    match target {
        Ast::Var(name, init) => Some(name.clone()),
        _ => None,
    }
}

/// A line without its line end.
fn strip_line_end(line: String) -> (r: String)
    ensures
        r@ == without_line_end(line@),
{
    let chars = chars_of(line.as_str());
    let n = chars.len();
    if n > 0 && chars[n - 1] == '\n' {
        let cut = if n > 1 && chars[n - 2] == '\r' {
            n - 2
        } else {
            n - 1
        };
        let r = line.as_str().substring_char(0, cut).to_owned();
        proof {
            let whole = line@;
            assert(whole.drop_last().len() == n - 1);
            if n > 1 {
                assert(whole.drop_last().last() == whole[n - 2]);
            }
            assert(whole.subrange(0, cut as int) =~= without_line_end(whole));
        }
        r
    } else {
        line
    }
}

/// Whether the action asks for nothing but another step.
fn action_continues(action: &Action) -> (r: bool)
    ensures
        r == (action@ is Continue),
{
    match action {
        Action::Continue => true,
        _ => false,
    }
}

/// The method of arrays that `name` names.
fn method_of(name: &str) -> (r: Option<ArrayMethod>)
    ensures
        r == method_named(name@),
{
    if same_text(name, "push") {
        Some(ArrayMethod::Push)
    } else if same_text(name, "pop") {
        Some(ArrayMethod::Pop)
    } else if same_text(name, "reverse") {
        Some(ArrayMethod::Reverse)
    } else if same_text(name, "sort") {
        Some(ArrayMethod::Sort)
    } else {
        None
    }
}

/// Binds the parameters to their arguments, in order.
fn bind_all(values: &mut Vec<(String, Value)>, params: &Vec<String>, args: &Vec<Value>)
    requires
        params@.len() <= args@.len(),
    ensures
        field_views(final(values)@) == bind_from(
            field_views(old(values)@),
            name_views(params@),
            value_views(args@),
            0,
        ),
{
    let ghost pv = name_views(params@);
    let ghost av = value_views(args@);
    let ghost first = field_views(values@);
    let mut i: usize = 0;
    while i < params.len()
        invariant
            i <= params@.len() <= args@.len(),
            pv == name_views(params@),
            av == value_views(args@),
            bind_from(first, pv, av, 0) == bind_from(field_views(values@), pv, av, i as int),
        decreases params@.len() - i,
    {
        bind_value(values, params[i].clone(), args[i].duplicate());
        i += 1;
    }
}

impl Interpreter {
    /// The environments and the frames.
    pub open spec fn world(&self) -> World {
        World {
            values: field_views(self.values@),
            functions: invocable_views(self.functions@),
            records: record_views(self.records@),
            frames: frame_views(self.frames@),
        }
    }

    pub open spec fn view(&self) -> MachineView {
        MachineView { world: self.world(), focus: self.focus@ }
    }

    /// A machine with nothing loaded, no values, no records, and the
    /// functions that are built in. It is tidy: no name stands twice.
    pub fn new() -> (machine: Interpreter)
        ensures
            machine.world() == initial_world(),
            machine.focus@ == FocusView::Idle,
            tidy_machine(machine@),
    {
        proof {
            lemma_initial_tidy();
        }
        let mut functions: Vec<(String, Invocable)> = Vec::new();
        functions.push(("print".to_owned(), Invocable::Print));
        functions.push(("input".to_owned(), Invocable::Input));
        functions.push(("STDLIB_ARRAY_PUSH".to_owned(), Invocable::Array(ArrayMethod::Push)));
        functions.push(("STDLIB_ARRAY_POP".to_owned(), Invocable::Array(ArrayMethod::Pop)));
        functions.push(("STDLIB_ARRAY_REVERSE".to_owned(), Invocable::Array(ArrayMethod::Reverse)));
        functions.push(("STDLIB_ARRAY_SORT".to_owned(), Invocable::Array(ArrayMethod::Sort)));
        let machine = Interpreter {
            values: Vec::new(),
            functions,
            records: Vec::new(),
            frames: Vec::new(),
            focus: Focus::Idle,
        };
        proof {
            assert(machine.world().values =~= initial_world().values);
            assert(machine.world().functions =~= initial_world().functions);
            assert(machine.world().records =~= initial_world().records);
            assert(machine.world().frames =~= initial_world().frames);
        }
        machine
    }

    /// Goes on with `focus`.
    fn go(&mut self, focus: Focus) -> (a: Action)
        ensures
            (final(self)@, a@) == old(self).world().go(focus@),
    {
        self.focus = focus;
        Action::Continue
    }

    /// Hands `v` to the innermost frame.
    fn deliver(&mut self, v: Value) -> (a: Action)
        ensures
            (final(self)@, a@) == old(self).world().deliver(v@),
    {
        self.focus = Focus::Deliver(v);
        Action::Continue
    }

    /// Fails: the frames are dropped.
    fn fail(&mut self, e: RuntimeError) -> (a: Action)
        ensures
            (final(self)@, a@) == old(self).world().fail(e),
    {
        broadcast use lemma_frame_views_empty;

        self.frames = Vec::new();
        self.focus = Focus::Idle;
        Action::Failed(e)
    }

    /// Asks the host for a number.
    fn ask(&mut self, q: NumericRequest) -> (a: Action)
        ensures
            (final(self)@, a@) == old(self).world().ask(q@),
    {
        self.focus = Focus::AwaitNumber;
        Action::Numeric(q)
    }

    /// Adds a frame.
    fn push(&mut self, frame: Frame)
        ensures
            final(self).world() == old(self).world().push(frame@),
    {
        broadcast use lemma_frame_views_push;

        self.frames.push(frame);
    }

    /// Whether `name` is a function.
    fn function_known(&self, name: &str) -> (r: bool)
        ensures
            r == (lookup(self.world().functions, name@) is Some),
    {
        proof {
            lemma_invocable_names(self.functions@);
        }
        position(&self.functions, name).is_some()
    }

    /// What the function `name` is, copied.
    fn function_named(&self, name: &str) -> (r: Option<Invocable>)
        ensures
            match lookup(self.world().functions, name@) {
                Some(f) => r is Some && r->0@ == f,
                None => r is None,
            },
    {
        proof {
            lemma_invocable_names(self.functions@);
        }
        match position(&self.functions, name) {
            Some(i) => Some(self.functions[i].1.duplicate()),
            None => None,
        }
    }

    /// Goes on with a record construction.
    fn start_members(
        &mut self,
        name: String,
        done: Vec<(String, Value)>,
        rest: Vec<(String, Ast)>,
        next: usize,
    ) -> (a: Action)
        ensures
            (final(self)@, a@) == start_members(
                old(self).world(),
                name@,
                field_views(done@),
                remaining(member_views(rest@), next as int),
            ),
    {
        broadcast use {group_ast_views, group_value_views};

        proof {
            lemma_record_names(self.records@);
            lemma_remaining(member_views(rest@), next as int);
        }
        match position(&self.records, name.as_str()) {
            None => self.fail(RuntimeError::UndefinedRecord),
            Some(at) => {
                if next >= rest.len() {
                    self.deliver(Value::Instance(name, done))
                } else if !has_name(&self.records[at].1, rest[next].0.as_str()) {
                    self.fail(RuntimeError::UnknownField)
                } else {
                    let field = rest[next].0.clone();
                    let node = rest[next].1.duplicate();
                    self.push(Frame::Members(name, done, field, rest, next + 1));
                    self.go(Focus::Evaluate(node))
                }
            },
        }
    }

    /// Evaluates a literal.
    fn evaluate_literal(&mut self, content: TokenContentType) -> (a: Action)
        ensures
            (final(self)@, a@) == evaluate_step(old(self).world(), AstView::Literal(content@)),
    {
        broadcast use group_value_views;

        match content {
            TokenContentType::String(s) => self.deliver(Value::Text(s)),
            TokenContentType::Number(numeral) => self.ask(NumericRequest::Parse(numeral)),
            TokenContentType::Boolean(b) => {
                proof {
                    crate::value::lemma_boolean_view(b);
                }
                self.deliver(Value::Boolean(b))
            },
        }
    }

    /// Evaluates an array literal.
    fn evaluate_array(&mut self, items: Vec<Ast>) -> (a: Action)
        ensures
            (final(self)@, a@) == evaluate_step(
                old(self).world(),
                AstView::Array(ast_views(items@)),
            ),
    {
        broadcast use {group_ast_views, group_value_views};

        if items.len() == 0 {
            self.deliver(Value::Array(Vec::new()))
        } else {
            let first = items[0].duplicate();
            proof {
                lemma_remaining(ast_views(items@), 0);
            }
            self.push(Frame::Items(Vec::new(), items, 1));
            self.go(Focus::Evaluate(first))
        }
    }

    /// Evaluates a name: a value, or else a function.
    fn evaluate_name(&mut self, name: String, init: Ghost<Option<Box<AstView>>>) -> (a: Action)
        ensures
            (final(self)@, a@) == evaluate_step(old(self).world(), AstView::Var(name@, init@)),
    {
        broadcast use group_value_views;

        match lookup_value(&self.values, name.as_str()) {
            Some(v) => self.deliver(v),
            None => {
                if self.function_known(name.as_str()) {
                    self.deliver(Value::Function(name))
                } else {
                    self.fail(RuntimeError::UndefinedVariable)
                }
            },
        }
    }

    /// Evaluates an expression.
    fn evaluate_node(&mut self, node: Ast) -> (a: Action)
        ensures
            (final(self)@, a@) == evaluate_step(old(self).world(), node@),
    {
        broadcast use {group_ast_views, group_value_views};

        proof {
            lemma_ast_kind(node);
        }
        match node {
            Ast::Literal(l) => self.evaluate_literal(l.content),
            Ast::Array(a) => self.evaluate_array(a.content),
            Ast::Var(name, init) => {
                let ghost written = match init {
                    Some(e) => Some(Box::new((*e)@)),
                    None => None,
                };
                self.evaluate_name(name, Ghost(written))
            },
            Ast::Unary(op, e) => {
                self.push(Frame::Unary(op));
                self.go(Focus::Evaluate(*e))
            },
            Ast::Binary(l, op, r) => {
                self.push(Frame::Left(op, *r));
                self.go(Focus::Evaluate(*l))
            },
            Ast::Instance(name, fields) => {
                proof {
                    lemma_remaining(member_views(fields@), 0);
                }
                self.start_members(name, Vec::new(), fields, 0)
            },
            Ast::Call(callee, args) => {
                self.push(Frame::Callee(args));
                self.go(Focus::Evaluate(*callee))
            },
            Ast::Get(target, key, is_expr) => {
                let from = binder(&target);
                self.push(Frame::Target(*key, is_expr, from));
                self.go(Focus::Evaluate(*target))
            },
            Ast::PointGet(target, field) => {
                let from = binder(&target);
                let key = Ast::Literal(
                    crate::ast::Literal { content: TokenContentType::String(field) },
                );
                self.push(Frame::Target(key, false, from));
                self.go(Focus::Evaluate(*target))
            },
            _ => self.fail(RuntimeError::NotAnExpression),
        }
    }

    /// Executes a field assignment: reads the record, then evaluates the
    /// value.
    fn execute_assignment(&mut self, var: String, field: String, e: Ast) -> (a: Action)
        ensures
            (final(self)@, a@) == execute_step(
                old(self).world(),
                AstView::SetField(var@, field@, Box::new(e@)),
            ),
    {
        broadcast use {group_ast_views, group_value_views};

        match lookup_value(&self.values, var.as_str()) {
            None => self.fail(RuntimeError::UndefinedVariable),
            Some(v) => {
                proof {
                    lemma_same_kind(v);
                }
                match v {
                    Value::Instance(name, members) => {
                        self.push(Frame::Assign(var, name, members, field));
                        self.go(Focus::Evaluate(e))
                    },
                    _ => self.fail(RuntimeError::NotARecord),
                }
            },
        }
    }

    /// Executes a declaration of a record.
    fn declare_record(&mut self, name: String, fields: Vec<String>) -> (a: Action)
        ensures
            (final(self)@, a@) == execute_step(
                old(self).world(),
                AstView::Struct(name@, name_views(fields@)),
            ),
    {
        broadcast use group_value_views;

        let ghost before = self.records@;
        proof {
            lemma_record_names(before);
            lemma_index_from_bounds(keys_of(before), name@, 0);
        }
        bind_entry(&mut self.records, name, fields);
        proof {
            assert(record_views(self.records@) =~= upsert(
                record_views(before),
                name@,
                name_views(fields@),
            ));
        }
        self.deliver(Value::Nothing)
    }

    /// Executes a declaration of a function.
    fn declare_function(&mut self, name: String, params: Vec<String>, body: Vec<Ast>) -> (a:
        Action)
        ensures
            (final(self)@, a@) == execute_step(
                old(self).world(),
                AstView::Func(name@, name_views(params@), ast_views(body@)),
            ),
    {
        broadcast use group_value_views;

        let ghost before = self.functions@;
        let ghost entry = InvocableView::User(name_views(params@), ast_views(body@));
        proof {
            lemma_invocable_names(before);
            lemma_index_from_bounds(keys_of(before), name@, 0);
        }
        bind_entry(&mut self.functions, name, Invocable::User(params, body));
        proof {
            assert(invocable_views(self.functions@) =~= upsert(
                invocable_views(before),
                name@,
                entry,
            ));
        }
        self.deliver(Value::Nothing)
    }

    /// Executes a loop statement: its first bound is evaluated first.
    fn execute_for(&mut self, id: String, range: Vec<Ast>, body: Vec<Ast>) -> (a: Action)
        ensures
            (final(self)@, a@) == execute_step(
                old(self).world(),
                AstView::For(id@, ast_views(range@), ast_views(body@)),
            ),
    {
        broadcast use group_ast_views;

        if range.len() != 2 {
            return self.fail(RuntimeError::BadRange);
        }
        let ghost views = ast_views(range@);
        let mut range = range;
        let end = range.pop();
        let begin = range.pop();
        match end {
            Some(end) => match begin {
                Some(begin) => {
                    assert(end@ == views[1]);
                    assert(begin@ == views[0]);
                    self.push(Frame::ForBegin(id, end, body));
                    self.go(Focus::Evaluate(begin))
                },
                None => self.fail(RuntimeError::BadRange),
            },
            None => self.fail(RuntimeError::BadRange),
        }
    }

    /// Executes a statement.
    fn execute_node(&mut self, node: Ast) -> (a: Action)
        ensures
            (final(self)@, a@) == execute_step(old(self).world(), node@),
    {
        broadcast use {group_ast_views, group_value_views};

        proof {
            lemma_ast_kind(node);
        }
        match node {
            Ast::Var(name, init) => match init {
                Some(e) => {
                    self.push(Frame::Bind(name));
                    self.go(Focus::Evaluate(*e))
                },
                None => self.evaluate_name(name, Ghost(None)),
            },
            Ast::Struct(name, fields) => self.declare_record(name, fields),
            Ast::Func(name, params, body) => self.declare_function(name, params, body),
            Ast::Return(e) => {
                self.push(Frame::Finish);
                self.go(Focus::Evaluate(*e))
            },
            Ast::While(c, body) => {
                let again = (*c).duplicate();
                self.push(Frame::WhileTest(*c, body));
                self.go(Focus::Evaluate(again))
            },
            Ast::For(id, range, body) => self.execute_for(id, range, body),
            Ast::Conditional(c, body, rest) => {
                self.push(Frame::Test(body, rest));
                self.go(Focus::Evaluate(*c))
            },
            Ast::SetField(var, field, e) => self.execute_assignment(var, field, *e),
            other => self.evaluate_node(other),
        }
    }

    /// Prints: a line for each argument.
    fn print_lines(&mut self, args: Vec<Value>) -> (a: Action)
        ensures
            (final(self)@, a@) == (match lines_from(Seq::empty(), value_views(args@), 0) {
                Ok(lines) => (
                    MachineView { world: old(self).world(), focus: FocusView::AwaitResume },
                    crate::machine::ActionView::Print(lines),
                ),
                Err(e) => old(self).world().fail(e),
            }),
    {
        broadcast use {group_value_views, lemma_line_views_push};

        let ghost views = value_views(args@);
        let mut lines: Vec<Vec<Fragment>> = Vec::new();
        let mut i: usize = 0;
        assert(line_views(lines@) =~= Seq::<Seq<FragmentView>>::empty());
        while i < args.len()
            invariant
                *self == *old(self),
                i <= args@.len(),
                views == value_views(args@),
                lines_from(Seq::empty(), views, 0) == lines_from(line_views(lines@), views, i as int),
            decreases args@.len() - i,
        {
            assert(views[i as int] == args@[i as int]@);
            let ghost so_far = line_views(lines@);
            match rendered(&args[i]) {
                Ok(line) => {
                    assert(crate::render::render(views[i as int]) == Ok::<
                        Seq<FragmentView>,
                        RuntimeError,
                    >(fragment_views(line@)));
                    lines.push(line);
                    assert(line_views(lines@) == so_far.push(fragment_views(line@)));
                    assert(lines_from(so_far, views, i as int) == lines_from(
                        line_views(lines@),
                        views,
                        i + 1,
                    ));
                },
                Err(e) => {
                    return self.fail(e);
                },
            }
            i += 1;
        }
        self.focus = Focus::AwaitResume;
        Action::Print(lines)
    }

    /// Calls a method of arrays as a function: the array is the first
    /// argument.
    fn invoke_array(&mut self, method: ArrayMethod, args: Vec<Value>) -> (a: Action)
        ensures
            (final(self)@, a@) == (if args@.len() == 0 {
                old(self).world().fail(RuntimeError::ArgumentCount)
            } else {
                match value_views(args@)[0] {
                    ValueView::Array(items) => match crate::arrays::method_outcome(
                        method,
                        items,
                        value_views(args@).drop_first(),
                    ) {
                        Ok(after) => old(self).world().deliver(ValueView::Array(after)),
                        Err(e) => old(self).world().fail(e),
                    },
                    _ => old(self).world().fail(RuntimeError::WrongOperand),
                }
            }),
    {
        broadcast use group_value_views;

        if args.len() == 0 {
            return self.fail(RuntimeError::ArgumentCount);
        }
        let ghost views = value_views(args@);
        let mut args = args;
        let first = args.remove(0);
        proof {
            lemma_same_kind(first);
            assert(first@ == views[0]);
            assert(value_views(args@) =~= views.drop_first());
        }
        match first {
            Value::Array(items) => match apply_method(method, items, args) {
                Ok(after) => self.deliver(Value::Array(after)),
                Err(e) => self.fail(e),
            },
            _ => self.fail(RuntimeError::WrongOperand),
        }
    }

    /// Calls a function of the program: binds the parameters, then runs the
    /// body.
    fn call_user(&mut self, params: Vec<String>, body: Vec<Ast>, args: Vec<Value>) -> (a: Action)
        ensures
            (final(self)@, a@) == (if args@.len() < params@.len() {
                old(self).world().fail(RuntimeError::ArgumentCount)
            } else {
                old(self).world().with_values(
                    bind_from(
                        old(self).world().values,
                        name_views(params@),
                        value_views(args@),
                        0,
                    ),
                ).push(FrameView::Block(ast_views(body@), true)).deliver(ValueView::Nothing)
            }),
    {
        broadcast use {group_value_views, group_ast_views};

        if args.len() < params.len() {
            return self.fail(RuntimeError::ArgumentCount);
        }
        bind_all(&mut self.values, &params, &args);
        proof {
            lemma_remaining(ast_views(body@), 0);
        }
        self.push(Frame::Block(body, 0, true));
        self.deliver(Value::Nothing)
    }

    /// Calls the function `name`.
    fn invoke_function(&mut self, name: String, args: Vec<Value>) -> (a: Action)
        ensures
            (final(self)@, a@) == invoke(
                old(self).world(),
                ValueView::Function(name@),
                value_views(args@),
            ),
    {
        broadcast use group_value_views;

        match self.function_named(name.as_str()) {
            None => self.fail(RuntimeError::UndefinedFunction),
            Some(Invocable::Print) => self.print_lines(args),
            Some(Invocable::Input) => {
                self.focus = Focus::AwaitLine;
                Action::ReadLine
            },
            Some(Invocable::Array(method)) => self.invoke_array(method, args),
            Some(Invocable::User(params, body)) => self.call_user(params, body, args),
        }
    }

    /// Calls a method that is bound to an array: the variable that the array
    /// was read from gets the new array.
    fn invoke_method(
        &mut self,
        method: ArrayMethod,
        from: Option<String>,
        items: Vec<Value>,
        args: Vec<Value>,
    ) -> (a: Action)
        ensures
            (final(self)@, a@) == invoke(
                old(self).world(),
                ValueView::Method(method, option_view(from), value_views(items@)),
                value_views(args@),
            ),
    {
        broadcast use group_value_views;

        match apply_method(method, items, args) {
            Err(e) => self.fail(e),
            Ok(after) => match from {
                Some(name) => {
                    bind_value(&mut self.values, name, Value::Array(copy_values(&after)));
                    self.deliver(Value::Array(after))
                },
                None => self.deliver(Value::Array(after)),
            },
        }
    }

    /// Calls `callee` with the arguments `args`.
    fn invoke(&mut self, callee: Value, args: Vec<Value>) -> (a: Action)
        ensures
            (final(self)@, a@) == invoke(old(self).world(), callee@, value_views(args@)),
    {
        broadcast use group_value_views;

        proof {
            lemma_same_kind(callee);
        }
        match callee {
            Value::Function(name) => self.invoke_function(name, args),
            Value::Method(method, from, items) => self.invoke_method(method, from, items, args),
            _ => self.fail(RuntimeError::NotCallable),
        }
    }

    /// Goes on with a call once what is called is known.
    fn start_arguments(&mut self, callee: Value, args: Vec<Ast>) -> (a: Action)
        ensures
            (final(self)@, a@) == start_arguments(old(self).world(), callee@, ast_views(args@)),
    {
        broadcast use {group_value_views, group_ast_views};

        if args.len() == 0 {
            self.invoke(callee, Vec::new())
        } else {
            let first = args[0].duplicate();
            proof {
                lemma_remaining(ast_views(args@), 0);
            }
            self.push(Frame::Arguments(callee, Vec::new(), args, 1));
            self.go(Focus::Evaluate(first))
        }
    }

    /// Reads from an array: an item by its index, its length, or a method.
    fn select_from_array(&mut self, items: Vec<Value>, key: Value, from: Option<String>) -> (a:
        Action)
        ensures
            (final(self)@, a@) == select(
                old(self).world(),
                ValueView::Array(value_views(items@)),
                key@,
                option_view(from),
            ),
    {
        broadcast use group_value_views;

        proof {
            lemma_same_kind(key);
        }
        match key {
            Value::Number(n) => {
                let i = n.floor();
                if i >= 0 && (i as u64) < (items.len() as u64) {
                    let at = i as usize;
                    assert(value_views(items@)[at as int] == items@[at as int]@);
                    self.deliver(items[at].duplicate())
                } else {
                    self.fail(RuntimeError::IndexOutOfRange)
                }
            },
            Value::Text(s) => {
                if same_text(s.as_str(), "length") {
                    let n = items.len();
                    let count: i64 = if n as u64 > i64::MAX as u64 {
                        i64::MAX
                    } else {
                        n as i64
                    };
                    self.ask(NumericRequest::FromInteger(count))
                } else {
                    match method_of(s.as_str()) {
                        Some(method) => self.deliver(Value::Method(method, from, items)),
                        None => self.fail(RuntimeError::UnknownField),
                    }
                }
            },
            _ => self.fail(RuntimeError::BadKey),
        }
    }

    /// Reads `key` from `target`.
    fn select(&mut self, target: Value, key: Value, from: Option<String>) -> (a: Action)
        ensures
            (final(self)@, a@) == select(old(self).world(), target@, key@, option_view(from)),
    {
        broadcast use group_value_views;

        proof {
            lemma_same_kind(target);
            lemma_same_kind(key);
        }
        match target {
            Value::Array(items) => self.select_from_array(items, key, from),
            Value::Instance(name, fields) => match key {
                Value::Text(s) => {
                    match lookup_value(&fields, s.as_str()) {
                        Some(v) => self.deliver(v),
                        None => self.fail(RuntimeError::UnknownField),
                    }
                },
                _ => self.fail(RuntimeError::BadKey),
            },
            _ => self.fail(RuntimeError::NotARecord),
        }
    }

    /// Goes on with a loop whose next counter is `i`.
    fn advance_loop(&mut self, id: String, i: i64, end: i64, body: Vec<Ast>) -> (a: Action)
        ensures
            (final(self)@, a@) == advance_loop(old(self).world(), id@, i, end, ast_views(body@)),
    {
        broadcast use group_value_views;

        if i < end {
            self.push(Frame::ForBind(id, i, end, body));
            self.ask(NumericRequest::FromInteger(i))
        } else {
            self.deliver(Value::Nothing)
        }
    }

    /// Pushes a block that starts at its first statement, and starts it.
    fn enter_block(&mut self, body: Vec<Ast>) -> (a: Action)
        ensures
            (final(self)@, a@) == old(self).world().push(
                FrameView::Block(ast_views(body@), false),
            ).deliver(ValueView::Nothing),
    {
        broadcast use group_value_views;

        proof {
            lemma_remaining(ast_views(body@), 0);
        }
        self.push(Frame::Block(body, 0, false));
        self.deliver(Value::Nothing)
    }

    /// Hands a value to an array literal, a call or a block: the next item
    /// is taken up, or the list is done.
    fn resume_list(&mut self, frame: Frame, v: Value) -> (a: Action)
        requires
            frame is Items || frame is Arguments || frame is Block || frame is Members,
        ensures
            (final(self)@, a@) == resume_frame(old(self).world(), frame@, v@),
    {
        broadcast use {group_value_views, group_ast_views};

        match frame {
            Frame::Items(done, rest, next) => {
                let mut done = done;
                done.push(v);
                proof {
                    lemma_remaining(ast_views(rest@), next as int);
                }
                if next >= rest.len() {
                    self.deliver(Value::Array(done))
                } else {
                    let node = rest[next].duplicate();
                    self.push(Frame::Items(done, rest, next + 1));
                    self.go(Focus::Evaluate(node))
                }
            },
            Frame::Arguments(callee, done, rest, next) => {
                let mut done = done;
                done.push(v);
                proof {
                    lemma_remaining(ast_views(rest@), next as int);
                }
                if next >= rest.len() {
                    self.invoke(callee, done)
                } else {
                    let node = rest[next].duplicate();
                    self.push(Frame::Arguments(callee, done, rest, next + 1));
                    self.go(Focus::Evaluate(node))
                }
            },
            Frame::Block(body, next, function) => {
                proof {
                    lemma_remaining(ast_views(body@), next as int);
                }
                if next >= body.len() {
                    self.deliver(Value::Nothing)
                } else {
                    let node = body[next].duplicate();
                    self.push(Frame::Block(body, next + 1, function));
                    self.go(Focus::Execute(node))
                }
            },
            Frame::Members(name, done, field, rest, next) => {
                let mut done = done;
                bind_value(&mut done, field, v);
                self.start_members(name, done, rest, next)
            },
            _ => self.fail(RuntimeError::UnexpectedEvent),
        }
    }

    /// Hands a value to an operator or an access.
    fn resume_expression(&mut self, frame: Frame, v: Value) -> (a: Action)
        requires
            frame is Unary || frame is Left || frame is Right || frame is Callee || frame
                is Target || frame is Key,
        ensures
            (final(self)@, a@) == resume_frame(old(self).world(), frame@, v@),
    {
        broadcast use {group_value_views, group_ast_views};

        proof {
            lemma_same_kind(v);
        }
        match frame {
            Frame::Unary(op) => {
                if op != TokenType::Not {
                    self.fail(RuntimeError::UnknownOperator)
                } else {
                    match v.not() {
                        Ok(x) => self.deliver(x),
                        Err(e) => self.fail(e),
                    }
                }
            },
            Frame::Left(op, right) => {
                self.push(Frame::Right(op, v));
                self.go(Focus::Evaluate(right))
            },
            Frame::Right(op, left) => match apply(op, &left, &v) {
                Ok(Computed::Done(x)) => self.deliver(x),
                Ok(Computed::Ask(q)) => self.ask(q),
                Err(e) => self.fail(e),
            },
            Frame::Callee(args) => match v {
                Value::Function(name) => {
                    if !self.function_known(name.as_str()) {
                        self.fail(RuntimeError::UndefinedFunction)
                    } else {
                        self.start_arguments(Value::Function(name), args)
                    }
                },
                Value::Method(method, from, items) => self.start_arguments(
                    Value::Method(method, from, items),
                    args,
                ),
                _ => self.fail(RuntimeError::NotCallable),
            },
            Frame::Target(key, is_expr, from) => {
                proof {
                    lemma_ast_kind(key);
                }
                let literal = match &key {
                    Ast::Literal(_) => true,
                    _ => false,
                };
                if is_expr || literal {
                    self.push(Frame::Key(v, from));
                    self.go(Focus::Evaluate(key))
                } else {
                    self.fail(RuntimeError::BadKey)
                }
            },
            Frame::Key(target, from) => self.select(target, v, from),
            _ => self.fail(RuntimeError::UnexpectedEvent),
        }
    }

    /// Hands a value to a binding, a field assignment or `finished`.
    fn resume_binding(&mut self, frame: Frame, v: Value) -> (a: Action)
        requires
            frame is Bind || frame is Assign || frame is Finish,
        ensures
            (final(self)@, a@) == resume_frame(old(self).world(), frame@, v@),
    {
        broadcast use {group_value_views, group_ast_views};

        match frame {
            Frame::Bind(name) => {
                bind_value(&mut self.values, name, v);
                self.deliver(Value::Nothing)
            },
            Frame::Assign(var, name, members, field) => {
                proof {
                    lemma_field_names(members@);
                }
                if position(&members, field.as_str()).is_none() {
                    self.fail(RuntimeError::UnknownField)
                } else {
                    let mut members = members;
                    bind_value(&mut members, field, v);
                    bind_value(&mut self.values, var, Value::Instance(name, members));
                    self.deliver(Value::Nothing)
                }
            },
            Frame::Finish => self.go(Focus::Unwind(v)),
            _ => self.fail(RuntimeError::UnexpectedEvent),
        }
    }

    /// Hands a value to a loop or a conditional.
    fn resume_control(&mut self, frame: Frame, v: Value) -> (a: Action)
        requires
            frame is WhileTest || frame is WhileBody || frame is ForBegin || frame is ForEnd
                || frame is ForBind || frame is ForBody || frame is Test,
        ensures
            (final(self)@, a@) == resume_frame(old(self).world(), frame@, v@),
    {
        broadcast use {group_value_views, group_ast_views};

        proof {
            lemma_same_kind(v);
        }
        match frame {
            Frame::WhileTest(c, body) => {
                let yes = match &v {
                    Value::Boolean(b) => {
                        proof {
                            crate::value::lemma_boolean_view(*b);
                        }
                        *b
                    },
                    _ => false,
                };
                if yes {
                    let copy = crate::ast::copy_asts(&body);
                    self.push(Frame::WhileBody(c, body));
                    self.enter_block(copy)
                } else {
                    self.deliver(Value::Nothing)
                }
            },
            Frame::WhileBody(c, body) => {
                let again = c.duplicate();
                self.push(Frame::WhileTest(c, body));
                self.go(Focus::Evaluate(again))
            },
            Frame::ForBegin(id, end, body) => match v {
                Value::Number(n) => {
                    self.push(Frame::ForEnd(id, n.floor(), body));
                    self.go(Focus::Evaluate(end))
                },
                _ => self.fail(RuntimeError::BadRange),
            },
            Frame::ForEnd(id, begin, body) => match v {
                Value::Number(n) => self.advance_loop(id, begin, n.floor(), body),
                _ => self.fail(RuntimeError::BadRange),
            },
            Frame::ForBind(id, i, end, body) => {
                let next: i64 = if i < end {
                    i + 1
                } else {
                    end
                };
                bind_value(&mut self.values, id.clone(), v);
                let copy = crate::ast::copy_asts(&body);
                self.push(Frame::ForBody(id, next, end, body));
                self.enter_block(copy)
            },
            Frame::ForBody(id, i, end, body) => self.advance_loop(id, i, end, body),
            Frame::Test(body, rest) => {
                let no = match &v {
                    Value::Boolean(b) => {
                        proof {
                            crate::value::lemma_boolean_view(*b);
                        }
                        !*b
                    },
                    _ => false,
                };
                if no {
                    self.enter_block(rest)
                } else {
                    self.enter_block(body)
                }
            },
            _ => self.fail(RuntimeError::UnexpectedEvent),
        }
    }

    /// Hands `v` to `frame`, which was the innermost.
    fn resume_frame(&mut self, frame: Frame, v: Value) -> (a: Action)
        ensures
            (final(self)@, a@) == resume_frame(old(self).world(), frame@, v@),
    {
        match frame {
            Frame::Items(..) | Frame::Arguments(..) | Frame::Block(..) | Frame::Members(..) => {
                self.resume_list(frame, v)
            },
            Frame::Unary(..) | Frame::Left(..) | Frame::Right(..) | Frame::Callee(..)
            | Frame::Target(..) | Frame::Key(..) => self.resume_expression(frame, v),
            Frame::Bind(..) | Frame::Assign(..) | Frame::Finish => self.resume_binding(frame, v),
            _ => self.resume_control(frame, v),
        }
    }

    /// Hands `v` to the innermost frame; without frames the run is over.
    fn deliver_step(&mut self, v: Value) -> (a: Action)
        ensures
            (final(self)@, a@) == deliver_step(old(self).world(), v@),
    {
        let ghost before = self.frames@;
        match self.frames.pop() {
            None => {
                self.focus = Focus::Idle;
                Action::Finished { value: v, returned: false }
            },
            Some(frame) => {
                proof {
                    lemma_frame_views_pop(before);
                    assert(self.frames@ =~= before.drop_last());
                }
                self.resume_frame(frame, v)
            },
        }
    }

    /// Drops the innermost frame on the way to the body of the function.
    fn unwind_step(&mut self, v: Value) -> (a: Action)
        ensures
            (final(self)@, a@) == unwind_step(old(self).world(), v@),
    {
        let ghost before = self.frames@;
        match self.frames.pop() {
            None => {
                self.focus = Focus::Idle;
                Action::Finished { value: v, returned: true }
            },
            Some(frame) => {
                proof {
                    lemma_frame_views_pop(before);
                    assert(self.frames@ =~= before.drop_last());
                }
                let body = match &frame {
                    Frame::Block(_, _, function) => *function,
                    _ => false,
                };
                if body {
                    self.deliver(v)
                } else {
                    self.go(Focus::Unwind(v))
                }
            },
        }
    }

    /// One step of the machine on the event `event`: what it asks of the
    /// host is the action. `Action::Continue` asks for another step with
    /// `Event::Resume`; the other actions say what the next event has to be.
    pub fn step(&mut self, event: Event) -> (a: Action)
        ensures
            (final(self)@, a@) == step(old(self)@, event@),
            tidy_machine(old(self)@) ==> tidy_machine(final(self)@),
    {
        broadcast use group_value_views;

        proof {
            if tidy_machine(self@) {
                lemma_step_tidy(self@, event@);
            }
        }
        let mut focus = Focus::Idle;
        std::mem::swap(&mut self.focus, &mut focus);
        match focus {
            Focus::Idle => self.fail(RuntimeError::UnexpectedEvent),
            Focus::AwaitNumber => match event {
                Event::Number(n) => self.deliver(Value::Number(n)),
                _ => self.fail(RuntimeError::UnexpectedEvent),
            },
            Focus::AwaitLine => match event {
                Event::Line(line) => self.deliver(Value::Text(strip_line_end(line))),
                _ => self.fail(RuntimeError::UnexpectedEvent),
            },
            Focus::AwaitResume => match event {
                Event::Resume => self.deliver(Value::Nothing),
                _ => self.fail(RuntimeError::UnexpectedEvent),
            },
            Focus::Evaluate(node) => match event {
                Event::Resume => self.evaluate_node(node),
                _ => self.fail(RuntimeError::UnexpectedEvent),
            },
            Focus::Execute(node) => match event {
                Event::Resume => self.execute_node(node),
                _ => self.fail(RuntimeError::UnexpectedEvent),
            },
            Focus::Deliver(v) => match event {
                Event::Resume => self.deliver_step(v),
                _ => self.fail(RuntimeError::UnexpectedEvent),
            },
            Focus::Unwind(v) => match event {
                Event::Resume => self.unwind_step(v),
                _ => self.fail(RuntimeError::UnexpectedEvent),
            },
        }
    }

    /// Steps until the host is asked for something, the run ends, or `budget`
    /// further steps have been made. The first step takes `event`.
    pub fn resume(&mut self, event: Event, budget: u64) -> (a: Action)
        ensures
            (final(self)@, a@) == run_steps(old(self)@, event@, budget as nat),
            tidy_machine(old(self)@) ==> tidy_machine(final(self)@),
    {
        proof {
            if tidy_machine(self@) {
                lemma_run_steps_tidy(self@, event@, budget as nat);
            }
        }
        let mut action = self.step(event);
        let mut left = budget;
        while left > 0 && action_continues(&action)
            invariant
                run_steps(old(self)@, event@, budget as nat) == (if action@ is Continue && left
                    > 0 {
                    run_steps(self@, crate::machine::EventView::Resume, (left - 1) as nat)
                } else {
                    (self@, action@)
                }),
            decreases left,
        {
            left -= 1;
            action = self.step(Event::Resume);
        }
        action
    }

    /// Sets the machine to run a program in its environments: the frames are
    /// dropped, and the next steps execute the statements in order.
    pub fn run(&mut self, ast: Vec<Ast>)
        ensures
            final(self)@ == loaded_run(old(self).world(), ast_views(ast@)),
            tidy_world(old(self).world()) ==> tidy_machine(final(self)@),
    {
        proof {
            if tidy_world(self.world()) {
                lemma_loaded_tidy(self.world(), ast_views(ast@), AstView::Nothing);
            }
        }
        broadcast use {group_value_views, lemma_frame_views_empty, lemma_frame_views_push};

        proof {
            lemma_remaining(ast_views(ast@), 0);
        }
        self.frames = Vec::new();
        self.frames.push(Frame::Block(ast, 0, false));
        self.focus = Focus::Deliver(Value::Nothing);
        proof {
            assert(frame_views(self.frames@) =~= seq![
                FrameView::Block(ast_views(ast@), false),
            ]);
        }
    }

    /// Sets the machine to execute one statement in its environments.
    pub fn execute(&mut self, node: Ast)
        ensures
            final(self)@ == loaded_execute(old(self).world(), node@),
            tidy_world(old(self).world()) ==> tidy_machine(final(self)@),
    {
        proof {
            if tidy_world(self.world()) {
                lemma_loaded_tidy(self.world(), Seq::empty(), node@);
            }
        }
        broadcast use lemma_frame_views_empty;

        self.frames = Vec::new();
        self.focus = Focus::Execute(node);
    }

    /// Sets the machine to evaluate one expression in its environments.
    pub fn evaluate(&mut self, value: Box<Ast>)
        ensures
            final(self)@ == loaded_evaluate(old(self).world(), (*value)@),
            tidy_world(old(self).world()) ==> tidy_machine(final(self)@),
    {
        proof {
            if tidy_world(self.world()) {
                lemma_loaded_tidy(self.world(), Seq::empty(), (*value)@);
            }
        }
        broadcast use lemma_frame_views_empty;

        self.frames = Vec::new();
        self.focus = Focus::Evaluate(*value);
    }

    /// The printed form of a value, as fragments.
    #[allow(non_snake_case)]
    pub fn toPrint(value: &Value) -> (r: Result<Vec<Fragment>, RuntimeError>)
        ensures
            match crate::render::render(value@) {
                Ok(fragments) => r is Ok && fragment_views(r->Ok_0@) == fragments,
                Err(e) => r == Err::<Vec<Fragment>, RuntimeError>(e),
            },
    {
        rendered(value)
    }
}

} // verus!
