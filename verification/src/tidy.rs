//! What the machine keeps: in each environment and in each record, no name
//! occurs twice. The environments and the fields of a record are lists, and
//! this is what makes them maps.
//!
//! A machine that is tidy stays tidy with every step (`lemma_step_tidy`), and
//! a new machine is tidy (`lemma_initial_tidy`).
use crate::arrays::{insert, lemma_insert_members, method_outcome, sort_outcome, sorted_of};
use crate::ast::AstView;
use crate::machine::{
    advance_loop, bind_from, deliver_step, evaluate_step, execute_step, initial_world, invoke,
    loaded_evaluate, loaded_execute, loaded_run, resume_frame, run_steps, select,
    start_arguments, start_members, step, unwind_step, EventView, FocusView,
    FrameView, MachineView, Outcome, World,
};
use crate::operators::{binary, negation};
use crate::scope::{
    distinct, index_of, lemma_index_from_bounds, lemma_upsert_distinct, lookup, names_of, upsert,
};
use crate::value::{ArrayMethod, ValueView};
use vstd::prelude::*;

verus! {

/// Every record in the value, at any depth, has its fields under names that
/// differ.
pub open spec fn tidy(v: ValueView) -> bool
    decreases v,
{
    match v {
        ValueView::Array(items) => forall|i: int|
            0 <= i < items.len() ==> tidy(#[trigger] items[i]),
        ValueView::Instance(_, fields) => distinct(names_of(fields)) && forall|i: int|
            0 <= i < fields.len() ==> tidy((#[trigger] fields[i]).1),
        ValueView::Method(_, _, items) => forall|i: int|
            0 <= i < items.len() ==> tidy(#[trigger] items[i]),
        _ => true,
    }
}

/// Each of the values is tidy.
pub open spec fn all_tidy(items: Seq<ValueView>) -> bool {
    forall|i: int| 0 <= i < items.len() ==> tidy(#[trigger] items[i])
}

/// Named values, as an environment or a record holds them: no name occurs
/// twice, and each value is tidy.
pub open spec fn tidy_fields(fields: Seq<(Seq<char>, ValueView)>) -> bool {
    distinct(names_of(fields)) && forall|i: int|
        0 <= i < fields.len() ==> tidy((#[trigger] fields[i]).1)
}

/// The values that a frame holds are tidy.
pub open spec fn tidy_frame(frame: FrameView) -> bool {
    match frame {
        FrameView::Items(done, _) => all_tidy(done),
        FrameView::Right(_, left) => tidy(left),
        FrameView::Members(_, done, _, _) => tidy_fields(done),
        FrameView::Arguments(callee, done, _) => tidy(callee) && all_tidy(done),
        FrameView::Key(target, _) => tidy(target),
        FrameView::Assign(_, _, members, _) => tidy_fields(members),
        _ => true,
    }
}

/// In each of the three environments no name occurs twice, and every value in
/// the value environment and in the frames is tidy.
pub open spec fn tidy_world(w: World) -> bool {
    &&& tidy_fields(w.values)
    &&& distinct(names_of(w.functions))
    &&& distinct(names_of(w.records))
    &&& forall|i: int| 0 <= i < w.frames.len() ==> tidy_frame(#[trigger] w.frames[i])
}

pub open spec fn tidy_focus(focus: FocusView) -> bool {
    match focus {
        FocusView::Deliver(v) => tidy(v),
        FocusView::Unwind(v) => tidy(v),
        _ => true,
    }
}

pub open spec fn tidy_machine(m: MachineView) -> bool {
    tidy_world(m.world) && tidy_focus(m.focus)
}

/// A tidy list of named values stays tidy when a name is bound to a tidy value.
pub proof fn lemma_upsert_tidy(fields: Seq<(Seq<char>, ValueView)>, name: Seq<char>, v: ValueView)
    requires
        tidy_fields(fields),
        tidy(v),
    ensures
        tidy_fields(upsert(fields, name, v)),
{
    lemma_upsert_distinct(fields, name, v);
    lemma_index_from_bounds(names_of(fields), name, 0);
    let after = upsert(fields, name, v);
    assert forall|i: int| 0 <= i < after.len() implies tidy((#[trigger] after[i]).1) by {
        if i < fields.len() && after[i] != (name, v) {
            assert(after[i] == fields[i]);
        }
    }
}

/// What a name holds in a tidy list is tidy.
pub proof fn lemma_lookup_tidy(fields: Seq<(Seq<char>, ValueView)>, name: Seq<char>)
    requires
        tidy_fields(fields),
    ensures
        lookup(fields, name) matches Some(v) ==> tidy(v),
{
    lemma_index_from_bounds(names_of(fields), name, 0);
    if let Some(i) = index_of(names_of(fields), name) {
        assert(tidy(fields[i].1));
    }
}

/// Binding parameters to tidy arguments keeps the values tidy.
pub proof fn lemma_bind_from_tidy(
    values: Seq<(Seq<char>, ValueView)>,
    params: Seq<Seq<char>>,
    args: Seq<ValueView>,
    from: int,
)
    requires
        tidy_fields(values),
        all_tidy(args),
    ensures
        tidy_fields(bind_from(values, params, args, from)),
    decreases params.len() - from,
{
    if 0 <= from < params.len() && from < args.len() {
        lemma_upsert_tidy(values, params[from], args[from]);
        lemma_bind_from_tidy(upsert(values, params[from], args[from]), params, args, from + 1);
    }
}

proof fn lemma_push_all_tidy(items: Seq<ValueView>, v: ValueView)
    requires
        all_tidy(items),
        tidy(v),
    ensures
        all_tidy(items.push(v)),
{
    assert forall|i: int| 0 <= i < items.push(v).len() implies tidy(
        #[trigger] items.push(v)[i],
    ) by {
        if i < items.len() {
            assert(items.push(v)[i] == items[i]);
        }
    }
}

/// Sorting holds no item that was not there.
proof fn lemma_sorted_of_tidy(items: Seq<ValueView>)
    requires
        all_tidy(items),
    ensures
        all_tidy(sorted_of(items)),
    decreases items.len(),
{
    if items.len() > 0 {
        let front = items.drop_last();
        assert(all_tidy(front)) by {
            assert forall|i: int| 0 <= i < front.len() implies tidy(#[trigger] front[i]) by {
                assert(front[i] == items[i]);
            }
        }
        lemma_sorted_of_tidy(front);
        let before = sorted_of(front);
        let v = items.last();
        assert(tidy(v)) by {
            assert(v == items[items.len() - 1]);
        }
        lemma_insert_members(before, v);
        let out = insert(before, v);
        assert forall|k: int| 0 <= k < out.len() implies tidy(#[trigger] out[k]) by {
            if out[k] != v {
                let i = choose|i: int| 0 <= i < before.len() && out[k] == before[i];
                assert(tidy(before[i]));
            }
        }
    }
}

/// A method of arrays gives tidy items from tidy items and arguments.
pub proof fn lemma_method_tidy(method: ArrayMethod, items: Seq<ValueView>, args: Seq<ValueView>)
    requires
        all_tidy(items),
        all_tidy(args),
    ensures
        method_outcome(method, items, args) matches Ok(after) ==> all_tidy(after),
{
    match method {
        ArrayMethod::Push => {
            if args.len() == 1 {
                assert(tidy(args[0]));
                lemma_push_all_tidy(items, args[0]);
            }
        },
        ArrayMethod::Pop => {
            if items.len() > 0 {
                assert forall|i: int| 0 <= i < items.drop_last().len() implies tidy(
                    #[trigger] items.drop_last()[i],
                ) by {
                    assert(items.drop_last()[i] == items[i]);
                }
            }
        },
        ArrayMethod::Reverse => {
            assert forall|i: int| 0 <= i < items.reverse().len() implies tidy(
                #[trigger] items.reverse()[i],
            ) by {
                assert(items.reverse()[i] == items[items.len() - 1 - i]);
            }
        },
        ArrayMethod::Sort => {
            lemma_sorted_of_tidy(items);
        },
    }
}

proof fn lemma_push_frame_tidy(w: World, frame: FrameView)
    requires
        tidy_world(w),
        tidy_frame(frame),
    ensures
        tidy_world(w.push(frame)),
{
    let after = w.push(frame);
    assert forall|i: int| 0 <= i < after.frames.len() implies tidy_frame(
        #[trigger] after.frames[i],
    ) by {
        if i < w.frames.len() {
            assert(after.frames[i] == w.frames[i]);
        }
    }
}

proof fn lemma_below_tidy(w: World)
    requires
        tidy_world(w),
        w.frames.len() > 0,
    ensures
        tidy_world(World { frames: w.frames.drop_last(), ..w }),
        tidy_frame(w.frames.last()),
{
    let below = World { frames: w.frames.drop_last(), ..w };
    assert(w.frames.last() == w.frames[w.frames.len() - 1]);
    assert forall|i: int| 0 <= i < below.frames.len() implies tidy_frame(
        #[trigger] below.frames[i],
    ) by {
        assert(below.frames[i] == w.frames[i]);
    }
}

proof fn lemma_fail_tidy(w: World)
    requires
        tidy_world(w),
    ensures
        forall|e: crate::value::RuntimeError| tidy_machine(#[trigger] w.fail(e).0),
{
}

/// A record construction that goes on from tidy fields stays tidy.
proof fn lemma_start_members_tidy(
    w: World,
    name: Seq<char>,
    done: Seq<(Seq<char>, ValueView)>,
    rest: Seq<(Seq<char>, AstView)>,
)
    requires
        tidy_world(w),
        tidy_fields(done),
    ensures
        tidy_machine(start_members(w, name, done, rest).0),
{
    lemma_fail_tidy(w);
    if lookup(w.records, name) is Some && rest.len() > 0 {
        lemma_push_frame_tidy(w, FrameView::Members(name, done, rest[0].0, rest.drop_first()));
    }
}

proof fn lemma_evaluate_tidy(w: World, node: AstView)
    requires
        tidy_world(w),
    ensures
        tidy_machine(evaluate_step(w, node).0),
{
    lemma_fail_tidy(w);
    match node {
        AstView::Array(items) => {
            if items.len() > 0 {
                lemma_push_frame_tidy(w, FrameView::Items(Seq::empty(), items.drop_first()));
            }
        },
        AstView::Var(name, _) => {
            lemma_lookup_tidy(w.values, name);
        },
        AstView::Unary(op, e) => {
            lemma_push_frame_tidy(w, FrameView::Unary(op));
        },
        AstView::Binary(l, op, r) => {
            lemma_push_frame_tidy(w, FrameView::Left(op, *r));
        },
        AstView::Instance(name, fields) => {
            assert(names_of(Seq::<(Seq<char>, ValueView)>::empty()).len() == 0);
            lemma_start_members_tidy(w, name, Seq::empty(), fields);
        },
        AstView::Call(callee, args) => {
            lemma_push_frame_tidy(w, FrameView::Callee(args));
        },
        AstView::Get(target, key, is_expr) => {
            lemma_push_frame_tidy(
                w,
                FrameView::Target(*key, is_expr, crate::machine::binder_of(*target)),
            );
        },
        AstView::PointGet(target, field) => {
            lemma_push_frame_tidy(
                w,
                FrameView::Target(
                    AstView::Literal(crate::lexer::ContentView::String(field)),
                    false,
                    crate::machine::binder_of(*target),
                ),
            );
        },
        _ => {},
    }
}

proof fn lemma_execute_tidy(w: World, node: AstView)
    requires
        tidy_world(w),
    ensures
        tidy_machine(execute_step(w, node).0),
{
    lemma_fail_tidy(w);
    lemma_evaluate_tidy(w, node);
    match node {
        AstView::Var(name, Some(e)) => {
            lemma_push_frame_tidy(w, FrameView::Bind(name));
        },
        AstView::Struct(name, fields) => {
            lemma_upsert_distinct(w.records, name, fields);
        },
        AstView::Func(name, params, body) => {
            lemma_upsert_distinct(
                w.functions,
                name,
                crate::machine::InvocableView::User(params, body),
            );
        },
        AstView::Return(e) => {
            lemma_push_frame_tidy(w, FrameView::Finish);
        },
        AstView::While(c, body) => {
            lemma_push_frame_tidy(w, FrameView::WhileTest(*c, body));
        },
        AstView::For(id, range, body) => {
            if range.len() == 2 {
                lemma_push_frame_tidy(w, FrameView::ForBegin(id, range[1], body));
            }
        },
        AstView::Conditional(c, body, rest) => {
            lemma_push_frame_tidy(w, FrameView::Test(body, rest));
        },
        AstView::SetField(var, field, e) => {
            lemma_lookup_tidy(w.values, var);
            if let Some(ValueView::Instance(name, members)) = lookup(w.values, var) {
                lemma_push_frame_tidy(w, FrameView::Assign(var, name, members, field));
            }
        },
        _ => {},
    }
}

proof fn lemma_invoke_tidy(w: World, callee: ValueView, args: Seq<ValueView>)
    requires
        tidy_world(w),
        tidy(callee),
        all_tidy(args),
    ensures
        tidy_machine(invoke(w, callee, args).0),
{
    lemma_fail_tidy(w);
    match callee {
        ValueView::Function(name) => {
            match lookup(w.functions, name) {
                Some(crate::machine::InvocableView::Array(method)) => {
                    if args.len() > 0 {
                        assert(tidy(args[0]));
                        if let ValueView::Array(items) = args[0] {
                            assert(all_tidy(args.drop_first())) by {
                                assert forall|i: int|
                                    0 <= i < args.drop_first().len() implies tidy(
                                    #[trigger] args.drop_first()[i],
                                ) by {
                                    assert(args.drop_first()[i] == args[i + 1]);
                                }
                            }
                            lemma_method_tidy(method, items, args.drop_first());
                        }
                    }
                },
                Some(crate::machine::InvocableView::User(params, body)) => {
                    if args.len() >= params.len() {
                        lemma_bind_from_tidy(w.values, params, args, 0);
                        lemma_push_frame_tidy(
                            w.with_values(bind_from(w.values, params, args, 0)),
                            FrameView::Block(body, true),
                        );
                    }
                },
                _ => {},
            }
        },
        ValueView::Method(method, binder, items) => {
            lemma_method_tidy(method, items, args);
            if let Ok(after) = method_outcome(method, items, args) {
                if let Some(name) = binder {
                    lemma_upsert_tidy(w.values, name, ValueView::Array(after));
                }
            }
        },
        _ => {},
    }
}

proof fn lemma_start_arguments_tidy(w: World, callee: ValueView, args: Seq<AstView>)
    requires
        tidy_world(w),
        tidy(callee),
    ensures
        tidy_machine(start_arguments(w, callee, args).0),
{
    if args.len() == 0 {
        lemma_invoke_tidy(w, callee, Seq::empty());
    } else {
        lemma_push_frame_tidy(w, FrameView::Arguments(callee, Seq::empty(), args.drop_first()));
    }
}

proof fn lemma_select_tidy(w: World, target: ValueView, key: ValueView, binder: Option<Seq<char>>)
    requires
        tidy_world(w),
        tidy(target),
    ensures
        tidy_machine(select(w, target, key, binder).0),
{
    lemma_fail_tidy(w);
    match target {
        ValueView::Array(items) => {
            match key {
                ValueView::Number(n) => {
                    let i = crate::number::floor_of(n);
                    if 0 <= i < items.len() {
                        assert(tidy(items[i]));
                    }
                },
                _ => {},
            }
        },
        ValueView::Instance(_, fields) => {
            match key {
                ValueView::Text(s) => {
                    lemma_lookup_tidy(fields, s);
                },
                _ => {},
            }
        },
        _ => {},
    }
}

proof fn lemma_advance_loop_tidy(w: World, id: Seq<char>, i: i64, end: i64, body: Seq<AstView>)
    requires
        tidy_world(w),
    ensures
        tidy_machine(advance_loop(w, id, i, end, body).0),
{
    if i < end {
        lemma_push_frame_tidy(w, FrameView::ForBind(id, i, end, body));
    }
}

proof fn lemma_enter_block_tidy(w: World, body: Seq<AstView>)
    requires
        tidy_world(w),
    ensures
        tidy_machine(w.push(FrameView::Block(body, false)).deliver(ValueView::Nothing).0),
{
    lemma_push_frame_tidy(w, FrameView::Block(body, false));
}

proof fn lemma_resume_list_tidy(w: World, frame: FrameView, v: ValueView)
    requires
        tidy_world(w),
        tidy_frame(frame),
        tidy(v),
        frame is Items || frame is Arguments || frame is Block || frame is Members,
    ensures
        tidy_machine(resume_frame(w, frame, v).0),
{
    lemma_fail_tidy(w);
    match frame {
        FrameView::Items(done, rest) => {
            lemma_push_all_tidy(done, v);
            if rest.len() > 0 {
                lemma_push_frame_tidy(w, FrameView::Items(done.push(v), rest.drop_first()));
            }
        },
        FrameView::Arguments(callee, done, rest) => {
            lemma_push_all_tidy(done, v);
            if rest.len() == 0 {
                lemma_invoke_tidy(w, callee, done.push(v));
            } else {
                lemma_push_frame_tidy(
                    w,
                    FrameView::Arguments(callee, done.push(v), rest.drop_first()),
                );
            }
        },
        FrameView::Block(rest, function) => {
            if rest.len() > 0 {
                lemma_push_frame_tidy(w, FrameView::Block(rest.drop_first(), function));
            }
        },
        FrameView::Members(name, done, field, rest) => {
            lemma_upsert_tidy(done, field, v);
            lemma_start_members_tidy(w, name, upsert(done, field, v), rest);
        },
        _ => {},
    }
}

proof fn lemma_resume_expression_tidy(w: World, frame: FrameView, v: ValueView)
    requires
        tidy_world(w),
        tidy_frame(frame),
        tidy(v),
        frame is Unary || frame is Left || frame is Right || frame is Callee || frame is Target
            || frame is Key,
    ensures
        tidy_machine(resume_frame(w, frame, v).0),
{
    lemma_fail_tidy(w);
    match frame {
        FrameView::Left(op, right) => {
            lemma_push_frame_tidy(w, FrameView::Right(op, v));
        },
        FrameView::Right(op, left) => {
            lemma_binary_tidy(op, left, v);
        },
        FrameView::Callee(args) => {
            lemma_start_arguments_tidy(w, v, args);
        },
        FrameView::Target(key, is_expr, binder) => {
            lemma_push_frame_tidy(w, FrameView::Key(v, binder));
        },
        FrameView::Key(target, binder) => {
            lemma_select_tidy(w, target, v, binder);
        },
        _ => {},
    }
}

/// What an operator computes holds no record.
proof fn lemma_binary_tidy(op: crate::lexer::TokenType, l: ValueView, r: ValueView)
    ensures
        binary(op, l, r) matches Ok(crate::operators::ComputedView::Done(x)) ==> tidy(x),
        negation(l) matches Ok(x) ==> tidy(x),
{
}

proof fn lemma_resume_binding_tidy(w: World, frame: FrameView, v: ValueView)
    requires
        tidy_world(w),
        tidy_frame(frame),
        tidy(v),
        frame is Bind || frame is Assign || frame is Finish,
    ensures
        tidy_machine(resume_frame(w, frame, v).0),
{
    lemma_fail_tidy(w);
    match frame {
        FrameView::Bind(name) => {
            lemma_upsert_tidy(w.values, name, v);
        },
        FrameView::Assign(var, name, members, field) => {
            lemma_upsert_tidy(members, field, v);
            let record = ValueView::Instance(name, upsert(members, field, v));
            assert(tidy(record));
            lemma_upsert_tidy(w.values, var, record);
        },
        _ => {},
    }
}

proof fn lemma_resume_control_tidy(w: World, frame: FrameView, v: ValueView)
    requires
        tidy_world(w),
        tidy_frame(frame),
        tidy(v),
        frame is WhileTest || frame is WhileBody || frame is ForBegin || frame is ForEnd || frame
            is ForBind || frame is ForBody || frame is Test,
    ensures
        tidy_machine(resume_frame(w, frame, v).0),
{
    lemma_fail_tidy(w);
    match frame {
        FrameView::WhileTest(c, body) => {
            lemma_push_frame_tidy(w, FrameView::WhileBody(c, body));
            lemma_enter_block_tidy(w.push(FrameView::WhileBody(c, body)), body);
        },
        FrameView::WhileBody(c, body) => {
            lemma_push_frame_tidy(w, FrameView::WhileTest(c, body));
        },
        FrameView::ForBegin(id, end, body) => {
            if let ValueView::Number(a) = v {
                lemma_push_frame_tidy(
                    w,
                    FrameView::ForEnd(id, crate::number::floor_of(a) as i64, body),
                );
            }
        },
        FrameView::ForEnd(id, begin, body) => {
            if let ValueView::Number(b) = v {
                lemma_advance_loop_tidy(w, id, begin, crate::number::floor_of(b) as i64, body);
            }
        },
        FrameView::ForBind(id, i, end, body) => {
            lemma_upsert_tidy(w.values, id, v);
            let bound = w.with_values(upsert(w.values, id, v));
            let frame = FrameView::ForBody(id, crate::machine::counter_after(i, end), end, body);
            lemma_push_frame_tidy(bound, frame);
            lemma_enter_block_tidy(bound.push(frame), body);
        },
        FrameView::ForBody(id, i, end, body) => {
            lemma_advance_loop_tidy(w, id, i, end, body);
        },
        FrameView::Test(body, rest) => {
            lemma_enter_block_tidy(w, body);
            lemma_enter_block_tidy(w, rest);
        },
        _ => {},
    }
}

proof fn lemma_resume_frame_tidy(w: World, frame: FrameView, v: ValueView)
    requires
        tidy_world(w),
        tidy_frame(frame),
        tidy(v),
    ensures
        tidy_machine(resume_frame(w, frame, v).0),
{
    if frame is Items || frame is Arguments || frame is Block || frame is Members {
        lemma_resume_list_tidy(w, frame, v);
    } else if frame is Unary || frame is Left || frame is Right || frame is Callee || frame
        is Target || frame is Key {
        lemma_resume_expression_tidy(w, frame, v);
    } else if frame is Bind || frame is Assign || frame is Finish {
        lemma_resume_binding_tidy(w, frame, v);
    } else {
        lemma_resume_control_tidy(w, frame, v);
    }
}

/// A new machine is tidy.
pub proof fn lemma_initial_tidy()
    ensures
        tidy_world(initial_world()),
{
    lemma_built_in_names();
    let w = initial_world();
    assert(names_of(w.values).len() == 0);
    assert(names_of(w.records).len() == 0);
    let names = names_of(w.functions);
    assert(names =~= seq![
        "print"@,
        "input"@,
        "STDLIB_ARRAY_PUSH"@,
        "STDLIB_ARRAY_POP"@,
        "STDLIB_ARRAY_REVERSE"@,
        "STDLIB_ARRAY_SORT"@,
    ]);
    assert(distinct(names)) by {
        assert forall|i: int, j: int| 0 <= i < j < names.len() implies names[i] != names[j] by {
            if names[i].len() == names[j].len() {
                if i == 0 {
                    assert(names[i][0] != names[j][0]);
                } else {
                    assert(names[i][14] != names[j][14]);
                }
            }
        }
    }
}

/// What the names of the built-in functions are made of.
proof fn lemma_built_in_names()
    ensures
        "print"@.len() == 5,
        "input"@.len() == 5,
        "print"@[0] == 'p',
        "input"@[0] == 'i',
        "STDLIB_ARRAY_PUSH"@.len() == 17,
        "STDLIB_ARRAY_POP"@.len() == 16,
        "STDLIB_ARRAY_REVERSE"@.len() == 20,
        "STDLIB_ARRAY_SORT"@.len() == 17,
        "STDLIB_ARRAY_PUSH"@[14] == 'U',
        "STDLIB_ARRAY_SORT"@[14] == 'O',
{
    reveal_strlit("print");
    reveal_strlit("input");
    reveal_strlit("STDLIB_ARRAY_PUSH");
    reveal_strlit("STDLIB_ARRAY_POP");
    reveal_strlit("STDLIB_ARRAY_REVERSE");
    reveal_strlit("STDLIB_ARRAY_SORT");
}

/// A step keeps the machine tidy: no name comes to stand twice in an
/// environment or in a record.
pub proof fn lemma_step_tidy(m: MachineView, e: EventView)
    requires
        tidy_machine(m),
    ensures
        tidy_machine(step(m, e).0),
{
    let w = m.world;
    lemma_fail_tidy(w);
    match m.focus {
        FocusView::Evaluate(node) => {
            lemma_evaluate_tidy(w, node);
        },
        FocusView::Execute(node) => {
            lemma_execute_tidy(w, node);
        },
        FocusView::Deliver(v) => {
            if w.frames.len() > 0 {
                lemma_below_tidy(w);
                lemma_resume_frame_tidy(
                    World { frames: w.frames.drop_last(), ..w },
                    w.frames.last(),
                    v,
                );
            }
        },
        FocusView::Unwind(v) => {
            if w.frames.len() > 0 {
                lemma_below_tidy(w);
            }
        },
        _ => {},
    }
}

/// Steps keep the machine tidy, however many are made.
pub proof fn lemma_run_steps_tidy(m: MachineView, e: EventView, budget: nat)
    requires
        tidy_machine(m),
    ensures
        tidy_machine(run_steps(m, e, budget).0),
    decreases budget,
{
    lemma_step_tidy(m, e);
    let (after, action) = step(m, e);
    if action is Continue && budget > 0 {
        lemma_run_steps_tidy(after, EventView::Resume, (budget - 1) as nat);
    }
}

/// A machine that is set to run, execute or evaluate in tidy environments is
/// tidy.
pub proof fn lemma_loaded_tidy(w: World, program: Seq<AstView>, node: AstView)
    requires
        tidy_world(w),
    ensures
        tidy_machine(loaded_run(w, program)),
        tidy_machine(loaded_execute(w, node)),
        tidy_machine(loaded_evaluate(w, node)),
{
    let frames = seq![FrameView::Block(program, false)];
    assert forall|i: int| 0 <= i < frames.len() implies tidy_frame(#[trigger] frames[i]) by {}
}

} // verus!
