//! What the executable machine holds, and how it is seen as the machine of
//! `machine`.
use crate::ast::{ast_views, copy_asts, copy_names, member_views, name_views, Ast, AstView};
use crate::lexer::TokenType;
use crate::machine::{ActionView, EventView, FocusView, FrameView, InvocableView};
use crate::number::Number;
use crate::render::{fragment_views, Fragment, FragmentView};
use crate::scope::{keys_of, names_of};
use crate::value::{
    field_views, option_view, value_views, ArrayMethod, NumericRequest, RuntimeError, Value,
};
use vstd::prelude::*;

verus! {

/// What a name in the function environment stands for.
#[derive(Debug)]
pub enum Invocable {
    /// Prints its arguments, one line each.
    Print,
    /// Reads a line.
    Input,
    /// A method of arrays, called with the array as the first argument.
    Array(ArrayMethod),
    /// A function of the program: parameters and body.
    User(Vec<String>, Vec<Ast>),
}

impl Invocable {
    pub open spec fn view(&self) -> InvocableView {
        match self {
            Invocable::Print => InvocableView::Print,
            Invocable::Input => InvocableView::Input,
            Invocable::Array(method) => InvocableView::Array(*method),
            Invocable::User(params, body) => InvocableView::User(
                name_views(params@),
                ast_views(body@),
            ),
        }
    }

    /// A copy.
    pub fn duplicate(&self) -> (copy: Invocable)
        ensures
            copy@ == self@,
    {
        match self {
            Invocable::Print => Invocable::Print,
            Invocable::Input => Invocable::Input,
            Invocable::Array(method) => Invocable::Array(*method),
            Invocable::User(params, body) => Invocable::User(copy_names(params), copy_asts(body)),
        }
    }
}

/// What is left of a list from position `next` on.
pub open spec fn remaining<T>(all: Seq<T>, next: int) -> Seq<T> {
    if 0 <= next <= all.len() {
        all.skip(next)
    } else {
        Seq::empty()
    }
}

/// The first of what is left is the item at `next`, and what is left after
/// it is what is left from `next + 1` on.
pub proof fn lemma_remaining<T>(all: Seq<T>, next: int)
    requires
        0 <= next,
    ensures
        next < all.len() ==> remaining(all, next).len() > 0 && remaining(all, next)[0] == all[next]
            && remaining(all, next).drop_first() == remaining(all, next + 1),
        next >= all.len() ==> remaining(all, next).len() == 0,
        next == 0 ==> remaining(all, next) == all,
{
    if next < all.len() {
        assert(remaining(all, next).drop_first() =~= remaining(all, next + 1));
    }
    if next == 0 {
        assert(remaining(all, next) =~= all);
    }
}

/// What the machine has to come back to. A list that is worked through is
/// held whole, with the position of the next item.
#[derive(Debug)]
pub enum Frame {
    Items(Vec<Value>, Vec<Ast>, usize),
    Unary(TokenType),
    Left(TokenType, Ast),
    Right(TokenType, Value),
    Members(String, Vec<(String, Value)>, String, Vec<(String, Ast)>, usize),
    Callee(Vec<Ast>),
    Arguments(Value, Vec<Value>, Vec<Ast>, usize),
    Target(Ast, bool, Option<String>),
    Key(Value, Option<String>),
    Bind(String),
    Assign(String, String, Vec<(String, Value)>, String),
    Finish,
    Block(Vec<Ast>, usize, bool),
    WhileTest(Ast, Vec<Ast>),
    WhileBody(Ast, Vec<Ast>),
    ForBegin(String, Ast, Vec<Ast>),
    ForEnd(String, i64, Vec<Ast>),
    ForBind(String, i64, i64, Vec<Ast>),
    ForBody(String, i64, i64, Vec<Ast>),
    Test(Vec<Ast>, Vec<Ast>),
}

impl Frame {
    pub open spec fn view(&self) -> FrameView {
        match self {
            Frame::Items(done, rest, next) => FrameView::Items(
                value_views(done@),
                remaining(ast_views(rest@), *next as int),
            ),
            Frame::Unary(op) => FrameView::Unary(*op),
            Frame::Left(op, right) => FrameView::Left(*op, right@),
            Frame::Right(op, left) => FrameView::Right(*op, left@),
            Frame::Members(name, done, field, rest, next) => FrameView::Members(
                name@,
                field_views(done@),
                field@,
                remaining(member_views(rest@), *next as int),
            ),
            Frame::Callee(args) => FrameView::Callee(ast_views(args@)),
            Frame::Arguments(callee, done, rest, next) => FrameView::Arguments(
                callee@,
                value_views(done@),
                remaining(ast_views(rest@), *next as int),
            ),
            Frame::Target(key, is_expr, binder) => FrameView::Target(
                key@,
                *is_expr,
                option_view(*binder),
            ),
            Frame::Key(target, binder) => FrameView::Key(target@, option_view(*binder)),
            Frame::Bind(name) => FrameView::Bind(name@),
            Frame::Assign(var, name, members, field) => FrameView::Assign(
                var@,
                name@,
                field_views(members@),
                field@,
            ),
            Frame::Finish => FrameView::Finish,
            Frame::Block(body, next, function) => FrameView::Block(
                remaining(ast_views(body@), *next as int),
                *function,
            ),
            Frame::WhileTest(c, body) => FrameView::WhileTest(c@, ast_views(body@)),
            Frame::WhileBody(c, body) => FrameView::WhileBody(c@, ast_views(body@)),
            Frame::ForBegin(id, end, body) => FrameView::ForBegin(id@, end@, ast_views(body@)),
            Frame::ForEnd(id, begin, body) => FrameView::ForEnd(id@, *begin, ast_views(body@)),
            Frame::ForBind(id, i, end, body) => FrameView::ForBind(
                id@,
                *i,
                *end,
                ast_views(body@),
            ),
            Frame::ForBody(id, i, end, body) => FrameView::ForBody(
                id@,
                *i,
                *end,
                ast_views(body@),
            ),
            Frame::Test(body, rest) => FrameView::Test(ast_views(body@), ast_views(rest@)),
        }
    }
}

/// What the machine does next.
#[derive(Debug)]
pub enum Focus {
    Idle,
    Evaluate(Ast),
    Execute(Ast),
    Deliver(Value),
    Unwind(Value),
    AwaitNumber,
    AwaitLine,
    AwaitResume,
}

impl Focus {
    pub open spec fn view(&self) -> FocusView {
        match self {
            Focus::Idle => FocusView::Idle,
            Focus::Evaluate(node) => FocusView::Evaluate(node@),
            Focus::Execute(node) => FocusView::Execute(node@),
            Focus::Deliver(v) => FocusView::Deliver(v@),
            Focus::Unwind(v) => FocusView::Unwind(v@),
            Focus::AwaitNumber => FocusView::AwaitNumber,
            Focus::AwaitLine => FocusView::AwaitLine,
            Focus::AwaitResume => FocusView::AwaitResume,
        }
    }
}

/// What the host hands to a step.
#[derive(Debug)]
pub enum Event {
    /// Nothing was asked: go on.
    Resume,
    /// The number that was asked for.
    Number(Number),
    /// The line that was read, with or without its line end.
    Line(String),
}

impl Event {
    pub open spec fn view(&self) -> EventView {
        match self {
            Event::Resume => EventView::Resume,
            Event::Number(n) => EventView::Number(n.bits),
            Event::Line(s) => EventView::Line(s@),
        }
    }
}

/// The views of the lines of a print.
pub open spec fn line_views(lines: Seq<Vec<Fragment>>) -> Seq<Seq<FragmentView>> {
    Seq::new(lines.len(), |i: int| fragment_views(lines[i]@))
}

pub broadcast proof fn lemma_line_views_push(lines: Seq<Vec<Fragment>>, line: Vec<Fragment>)
    ensures
        #[trigger] line_views(lines.push(line)) == line_views(lines).push(fragment_views(line@)),
{
    assert(line_views(lines.push(line)) =~= line_views(lines).push(fragment_views(line@)));
}

/// What a step asks of the host.
#[derive(Debug)]
pub enum Action {
    /// Nothing: step again, with `Event::Resume`.
    Continue,
    /// Answer with `Event::Number`.
    Numeric(NumericRequest),
    /// Print these lines, and answer with `Event::Resume`.
    Print(Vec<Vec<Fragment>>),
    /// Read a line, and answer with `Event::Line`.
    ReadLine,
    /// The run is over; `returned` where it ended by `finished`.
    Finished { value: Value, returned: bool },
    /// The run failed.
    Failed(RuntimeError),
}

impl Action {
    pub open spec fn view(&self) -> ActionView {
        match self {
            Action::Continue => ActionView::Continue,
            Action::Numeric(q) => ActionView::Numeric(q@),
            Action::Print(lines) => ActionView::Print(line_views(lines@)),
            Action::ReadLine => ActionView::ReadLine,
            Action::Finished { value, returned } => ActionView::Finished {
                value: value@,
                returned: *returned,
            },
            Action::Failed(e) => ActionView::Failed(*e),
        }
    }
}

/// The views of the frames.
pub open spec fn frame_views(frames: Seq<Frame>) -> Seq<FrameView> {
    Seq::new(frames.len(), |i: int| frames[i]@)
}

/// The views of the function environment.
pub open spec fn invocable_views(entries: Seq<(String, Invocable)>) -> Seq<
    (Seq<char>, InvocableView),
> {
    Seq::new(entries.len(), |i: int| (entries[i].0@, entries[i].1@))
}

/// The views of the record environment.
pub open spec fn record_views(entries: Seq<(String, Vec<String>)>) -> Seq<
    (Seq<char>, Seq<Seq<char>>),
> {
    Seq::new(entries.len(), |i: int| (entries[i].0@, name_views(entries[i].1@)))
}

pub broadcast proof fn lemma_frame_views_push(frames: Seq<Frame>, frame: Frame)
    ensures
        #[trigger] frame_views(frames.push(frame)) == frame_views(frames).push(frame@),
{
    assert(frame_views(frames.push(frame)) =~= frame_views(frames).push(frame@));
}

pub broadcast proof fn lemma_frame_views_empty()
    ensures
        #[trigger] frame_views(Seq::<Frame>::empty()) == Seq::<FrameView>::empty(),
{
    assert(frame_views(Seq::<Frame>::empty()) =~= Seq::<FrameView>::empty());
}

/// Without the last frame, the views are without the last view.
pub proof fn lemma_frame_views_pop(frames: Seq<Frame>)
    requires
        frames.len() > 0,
    ensures
        frame_views(frames.drop_last()) == frame_views(frames).drop_last(),
        frame_views(frames).last() == frames.last()@,
{
    assert(frame_views(frames.drop_last()) =~= frame_views(frames).drop_last());
}

pub proof fn lemma_invocable_names(entries: Seq<(String, Invocable)>)
    ensures
        names_of(invocable_views(entries)) == keys_of(entries),
{
    assert(names_of(invocable_views(entries)) =~= keys_of(entries));
}

pub proof fn lemma_record_names(entries: Seq<(String, Vec<String>)>)
    ensures
        names_of(record_views(entries)) == keys_of(entries),
{
    assert(names_of(record_views(entries)) =~= keys_of(entries));
}

} // verus!
