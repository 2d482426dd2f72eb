//! The rounds of a bounded loop, over whole runs of the machine.
//!
//! A loop from `begin` to `end` makes a round for each integer from `begin`
//! up to, not including, `end`, in order. Each round starts with the loop
//! variable bound anew to the number that the host gave for the counter
//! (`lemma_round_begins`). While the body runs, the frames below it stay as
//! they are; when it is done, the loop stands where it stood, with the next
//! counter (`lemma_round_ends`), and goes on with it or is left
//! (`lemma_loop_goes_on`). A body that fails, or leaves by `finished`, ends
//! the loop.
use crate::ast::AstView;
use crate::machine::{
    advance_loop, counter_after, deliver_step, evaluate_step, execute_step, invoke, resume_frame,
    select, start_arguments, start_members, step, unwind_step, ActionView, EventView, FocusView,
    FrameView, MachineView, Outcome, World,
};
use crate::scope::{lemma_lookup_upsert, lookup, upsert};
use crate::number::floor_of;
use crate::value::{RequestView, RuntimeError, ValueView};
use vstd::prelude::*;

verus! {

/// The machine after a step on each of the events, in order.
pub open spec fn after(m: MachineView, events: Seq<EventView>) -> MachineView
    decreases events.len(),
{
    if events.len() == 0 {
        m
    } else {
        step(after(m, events.drop_last()), events.last()).0
    }
}

/// None of the steps on the events fails.
pub open spec fn unfailing(m: MachineView, events: Seq<EventView>) -> bool {
    forall|k: int|
        0 <= k < events.len() ==> !(step(#[trigger] after(m, events.take(k)), events[k]).1
            is Failed)
}

/// Frame `g` is a block that is no body of a function.
pub open spec fn block_at(m: MachineView, g: int) -> bool {
    &&& 0 <= g < m.world.frames.len()
    &&& m.world.frames[g] is Block
    &&& !m.world.frames[g]->Block_1
}

/// The outcome failed, or it holds the frames of `w` with, at most, more
/// frames upon them.
pub open spec fn extends(w: World, o: Outcome) -> bool {
    o.1 is Failed || (o.0.world.frames.len() >= w.frames.len() && forall|i: int|
        0 <= i < w.frames.len() ==> o.0.world.frames[i] == w.frames[i])
}

proof fn lemma_start_members_extends(
    w: World,
    name: Seq<char>,
    done: Seq<(Seq<char>, ValueView)>,
    rest: Seq<(Seq<char>, AstView)>,
)
    ensures
        extends(w, start_members(w, name, done, rest)),
{
}

proof fn lemma_evaluate_extends(w: World, node: AstView)
    ensures
        extends(w, evaluate_step(w, node)),
{
    if let AstView::Instance(name, fields) = node {
        lemma_start_members_extends(w, name, Seq::empty(), fields);
    }
}

proof fn lemma_execute_extends(w: World, node: AstView)
    ensures
        extends(w, execute_step(w, node)),
{
    lemma_evaluate_extends(w, node);
}

proof fn lemma_invoke_extends(w: World, callee: ValueView, args: Seq<ValueView>)
    ensures
        extends(w, invoke(w, callee, args)),
{
}

proof fn lemma_start_arguments_extends(w: World, callee: ValueView, args: Seq<AstView>)
    ensures
        extends(w, start_arguments(w, callee, args)),
{
    lemma_invoke_extends(w, callee, Seq::empty());
}

proof fn lemma_select_extends(
    w: World,
    target: ValueView,
    key: ValueView,
    binder: Option<Seq<char>>,
)
    ensures
        extends(w, select(w, target, key, binder)),
{
}

proof fn lemma_resume_extends(w: World, frame: FrameView, v: ValueView)
    ensures
        extends(w, resume_frame(w, frame, v)),
{
    match frame {
        FrameView::Members(name, done, field, rest) => {
            lemma_start_members_extends(w, name, upsert(done, field, v), rest);
        },
        FrameView::Callee(args) => {
            lemma_start_arguments_extends(w, v, args);
        },
        FrameView::Arguments(callee, done, rest) => {
            lemma_invoke_extends(w, callee, done.push(v));
        },
        FrameView::Key(target, binder) => {
            lemma_select_extends(w, target, v, binder);
        },
        _ => {},
    }
}

/// A step that does not fail takes off the innermost frame at most: the
/// frames below it stay as they are.
pub proof fn lemma_step_keeps_frames_below(m: MachineView, e: EventView)
    requires
        m.world.frames.len() >= 1,
        !(step(m, e).1 is Failed),
    ensures
        step(m, e).0.world.frames.len() >= m.world.frames.len() - 1,
        forall|i: int|
            0 <= i < m.world.frames.len() - 1 ==> step(m, e).0.world.frames[i]
                == m.world.frames[i],
{
    let w = m.world;
    let below = World { frames: w.frames.drop_last(), ..w };
    match m.focus {
        FocusView::Evaluate(node) => {
            lemma_evaluate_extends(w, node);
        },
        FocusView::Execute(node) => {
            lemma_execute_extends(w, node);
        },
        FocusView::Deliver(v) => {
            lemma_resume_extends(below, w.frames.last(), v);
            assert forall|i: int| 0 <= i < w.frames.len() - 1 implies below.frames[i]
                == w.frames[i] by {}
        },
        FocusView::Unwind(v) => {
            assert forall|i: int| 0 <= i < w.frames.len() - 1 implies below.frames[i]
                == w.frames[i] by {}
        },
        _ => {},
    }
}

/// A step on a machine in which frame `g` is a block: the frames below `g`
/// stay; either frame `g` is a block afterwards, or the block was innermost
/// and is gone, and then it was done, or is left by `finished`.
pub proof fn lemma_step_at_block(m: MachineView, e: EventView, g: int)
    requires
        block_at(m, g),
        !(step(m, e).1 is Failed),
    ensures
        forall|i: int| 0 <= i < g ==> step(m, e).0.world.frames[i] == m.world.frames[i],
        step(m, e).0.world.frames.len() >= g,
        step(m, e).0.world.frames.len() > g ==> block_at(step(m, e).0, g),
        step(m, e).0.world.frames.len() == g ==> m.world.frames.len() == g + 1 && (step(
            m,
            e,
        ).0.focus == FocusView::Deliver(ValueView::Nothing) || step(m, e).0.focus is Unwind),
{
    let w = m.world;
    lemma_step_keeps_frames_below(m, e);
    if w.frames.len() == g + 1 {
        let below = World { frames: w.frames.drop_last(), ..w };
        assert(w.frames.last() == w.frames[g]);
        match m.focus {
            FocusView::Evaluate(node) => {
                lemma_evaluate_extends(w, node);
            },
            FocusView::Execute(node) => {
                lemma_execute_extends(w, node);
            },
            _ => {},
        }
    }
}

/// While no step fails and the frames stay above `g`, frame `g` stays a
/// block and the frames below it stay as they are.
pub proof fn lemma_block_stays(m: MachineView, events: Seq<EventView>, g: int)
    requires
        block_at(m, g),
        unfailing(m, events),
        forall|k: int|
            1 <= k <= events.len() ==> (#[trigger] after(m, events.take(k))).world.frames.len()
                > g,
    ensures
        block_at(after(m, events), g),
        forall|i: int| 0 <= i < g ==> after(m, events).world.frames[i] == m.world.frames[i],
    decreases events.len(),
{
    if events.len() > 0 {
        let front = events.drop_last();
        assert(events.take(events.len() as int) =~= events);
        assert(events.take(events.len() - 1) =~= front);
        assert forall|k: int| 0 <= k < front.len() implies !(step(
            #[trigger] after(m, front.take(k)),
            front[k],
        ).1 is Failed) by {
            assert(front.take(k) =~= events.take(k));
        }
        assert forall|k: int| 1 <= k <= front.len() implies (#[trigger] after(
            m,
            front.take(k),
        )).world.frames.len() > g by {
            assert(front.take(k) =~= events.take(k));
        }
        lemma_block_stays(m, front, g);
        let before = after(m, front);
        assert(before == after(m, events.take(events.len() - 1)));
        assert(events.last() == events[events.len() - 1]);
        lemma_step_at_block(before, events.last(), g);
    }
}

/// A round ends where it began: when the block of the body, which stood as
/// frame `g`, is gone after steps of which none failed and before which it
/// was never gone, then the frames are those that stood below it, and the
/// body was done (the absent value is handed on), or it is left by `finished`.
pub proof fn lemma_round_ends(m: MachineView, events: Seq<EventView>, g: int)
    requires
        block_at(m, g),
        events.len() >= 1,
        unfailing(m, events),
        forall|k: int|
            1 <= k < events.len() ==> (#[trigger] after(m, events.take(k))).world.frames.len()
                > g,
        after(m, events).world.frames.len() <= g,
    ensures
        after(m, events).world.frames == m.world.frames.take(g),
        after(m, events).focus == FocusView::Deliver(ValueView::Nothing) || after(
            m,
            events,
        ).focus is Unwind,
{
    let front = events.drop_last();
    assert(events.take(events.len() - 1) =~= front);
    assert forall|k: int| 0 <= k < front.len() implies !(step(
        #[trigger] after(m, front.take(k)),
        front[k],
    ).1 is Failed) by {
        assert(front.take(k) =~= events.take(k));
    }
    assert forall|k: int| 1 <= k <= front.len() implies (#[trigger] after(
        m,
        front.take(k),
    )).world.frames.len() > g by {
        assert(front.take(k) =~= events.take(k));
    }
    lemma_block_stays(m, front, g);
    let before = after(m, front);
    assert(before == after(m, events.take(events.len() - 1)));
    assert(events.last() == events[events.len() - 1]);
    lemma_step_at_block(before, events.last(), g);
    assert(after(m, events).world.frames =~= m.world.frames.take(g));
}

/// The bounds of a loop: the value of the first bound is floored and kept
/// while the second is evaluated; with the value of the second, the loop
/// starts with the floor of the first as its counter and the floor of the
/// second as its end. A bound that is no number is a failure.
pub proof fn lemma_loop_bounds(
    w: World,
    id: Seq<char>,
    bound: AstView,
    body: Seq<AstView>,
    begin: i64,
    v: ValueView,
)
    ensures
        v is Number ==> resume_frame(w, FrameView::ForBegin(id, bound, body), v) == w.push(
            FrameView::ForEnd(id, floor_of(v->Number_0) as i64, body),
        ).go(FocusView::Evaluate(bound)),
        v is Number ==> resume_frame(w, FrameView::ForEnd(id, begin, body), v) == advance_loop(
            w,
            id,
            begin,
            floor_of(v->Number_0) as i64,
            body,
        ),
        !(v is Number) ==> resume_frame(w, FrameView::ForBegin(id, bound, body), v) == w.fail(
            RuntimeError::BadRange,
        ),
        !(v is Number) ==> resume_frame(w, FrameView::ForEnd(id, begin, body), v) == w.fail(
            RuntimeError::BadRange,
        ),
{
}

/// The machine in which the loop waits with the counter `i` while the host
/// turns `i` into a number.
pub open spec fn asking(w: World, id: Seq<char>, i: i64, end: i64, body: Seq<AstView>) -> MachineView {
    MachineView { world: w.push(FrameView::ForBind(id, i, end, body)), focus: FocusView::AwaitNumber }
}

/// The machine after the host has answered with the number `n` and the answer
/// has been handed to the loop.
pub open spec fn begun(
    w: World,
    id: Seq<char>,
    i: i64,
    end: i64,
    body: Seq<AstView>,
    n: u64,
) -> MachineView {
    after(asking(w, id, i, end, body), seq![EventView::Number(n), EventView::Resume])
}

/// A round begins: with a counter below the end the loop asks for the
/// counter's number; the answer is bound to the loop variable, whatever it
/// held, and the body starts as a block upon the loop, which waits with the
/// next counter. With a counter that is not below the end the loop is left,
/// and made no round.
pub proof fn lemma_round_begins(
    w: World,
    id: Seq<char>,
    i: i64,
    end: i64,
    body: Seq<AstView>,
    n: u64,
)
    ensures
        i >= end ==> advance_loop(w, id, i, end, body) == w.deliver(ValueView::Nothing),
        i < end ==> advance_loop(w, id, i, end, body) == (
            asking(w, id, i, end, body),
            ActionView::Numeric(RequestView::FromInteger(i)),
        ),
        i < end ==> ({
            let started = begun(w, id, i, end, body, n);
            &&& started.focus == FocusView::Deliver(ValueView::Nothing)
            &&& started.world.frames == w.frames.push(
                FrameView::ForBody(id, (i + 1) as i64, end, body),
            ).push(FrameView::Block(body, false))
            &&& started.world.values == upsert(w.values, id, ValueView::Number(n))
            &&& lookup(started.world.values, id) == Some(ValueView::Number(n))
            &&& block_at(started, w.frames.len() as int + 1)
        }),
{
    if i < end {
        let m0 = asking(w, id, i, end, body);
        let events = seq![EventView::Number(n), EventView::Resume];
        assert(events.drop_last() =~= seq![EventView::Number(n)]);
        assert(events.drop_last().drop_last() =~= Seq::<EventView>::empty());
        assert(after(m0, events.drop_last().drop_last()) == m0);
        let m1 = step(m0, EventView::Number(n)).0;
        assert(after(m0, events.drop_last()) == m1);
        assert(m1.world == m0.world && m1.focus == FocusView::Deliver(ValueView::Number(n)));
        let m2 = step(m1, EventView::Resume).0;
        assert(after(m0, events) == m2);
        assert(m0.world.frames.drop_last() =~= w.frames);
        assert(World { frames: m0.world.frames.drop_last(), ..m0.world } == w);
        lemma_lookup_upsert(w.values, id, ValueView::Number(n));
    }
}

/// The loop goes on: when the body is done and the value is handed to the
/// loop, which waits on the frames `w` with the counter `j`, the loop asks
/// for the number of `j` if `j` is below the end, and is left if it is not.
/// So the rounds follow one another with counters that go up by one.
pub proof fn lemma_loop_goes_on(
    w: World,
    id: Seq<char>,
    j: i64,
    end: i64,
    body: Seq<AstView>,
    v: ValueView,
)
    ensures
        step(
            MachineView {
                world: w.push(FrameView::ForBody(id, j, end, body)),
                focus: FocusView::Deliver(v),
            },
            EventView::Resume,
        ) == advance_loop(w, id, j, end, body),
{
    let m = MachineView {
        world: w.push(FrameView::ForBody(id, j, end, body)),
        focus: FocusView::Deliver(v),
    };
    assert(m.world.frames.drop_last() =~= w.frames);
    assert(World { frames: m.world.frames.drop_last(), ..m.world } == w);
}

/// One round after another: the round for the counter `i` began with the
/// host's number `n`; its body ran, on the events `events`, without failing
/// and without `finished`. Then the next step is the loop's, with the counter
/// `i + 1`: it asks for the number of `i + 1`, to begin the next round, or, if
/// `i + 1` is not below the end, leaves the loop. So there is a round for each
/// integer from the first counter up to the end, in order, and none besides.
pub proof fn lemma_next_round(
    w: World,
    id: Seq<char>,
    i: i64,
    end: i64,
    body: Seq<AstView>,
    n: u64,
    events: Seq<EventView>,
)
    requires
        i < end,
        events.len() >= 1,
        unfailing(begun(w, id, i, end, body, n), events),
        forall|k: int|
            1 <= k < events.len() ==> (#[trigger] after(
                begun(w, id, i, end, body, n),
                events.take(k),
            )).world.frames.len() > w.frames.len() + 1,
        after(begun(w, id, i, end, body, n), events).world.frames.len() <= w.frames.len() + 1,
        !(after(begun(w, id, i, end, body, n), events).focus is Unwind),
    ensures
        ({
            let done = after(begun(w, id, i, end, body, n), events);
            step(done, EventView::Resume) == advance_loop(
                World { frames: w.frames, ..done.world },
                id,
                (i + 1) as i64,
                end,
                body,
            )
        }),
{
    let started = begun(w, id, i, end, body, n);
    let g = w.frames.len() as int + 1;
    lemma_round_begins(w, id, i, end, body, n);
    lemma_round_ends(started, events, g);
    let done = after(started, events);
    let below = World { frames: w.frames, ..done.world };
    let frame = FrameView::ForBody(id, (i + 1) as i64, end, body);
    assert(started.world.frames.take(g) =~= w.frames.push(frame));
    assert(done.world == below.push(frame));
    lemma_loop_goes_on(below, id, (i + 1) as i64, end, body, ValueView::Nothing);
}

} // verus!
