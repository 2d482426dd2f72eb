//! The methods of arrays: `push`, `pop`, `reverse` and `sort`.
//!
//! `sort` orders numbers by the IEEE total order and texts
//! lexicographically, and keeps equal items in the order they had.
use crate::number::{numeric_lt, total_key};
use crate::operators::{text_less, text_lt};
use crate::value::{
    group_value_views, lemma_same_kind, value_views, ArrayMethod, RuntimeError, Value, ValueView,
};
use vstd::prelude::*;

verus! {

/// Whether `a` may stand before `b` in a sorted array.
pub open spec fn precedes(a: ValueView, b: ValueView) -> bool {
    match (a, b) {
        (ValueView::Number(x), ValueView::Number(y)) => total_key(x) <= total_key(y),
        (ValueView::Text(s), ValueView::Text(t)) => !text_lt(t, s),
        _ => true,
    }
}

/// `sorted` with `v` put behind the last item that may stand before it.
pub open spec fn insert(sorted: Seq<ValueView>, v: ValueView) -> Seq<ValueView>
    decreases sorted.len(),
{
    if sorted.len() == 0 {
        seq![v]
    } else if precedes(sorted.last(), v) {
        sorted.push(v)
    } else {
        insert(sorted.drop_last(), v).push(sorted.last())
    }
}

/// The items in order: each item in turn is inserted among those before it.
pub open spec fn sorted_of(items: Seq<ValueView>) -> Seq<ValueView>
    decreases items.len(),
{
    if items.len() == 0 {
        Seq::empty()
    } else {
        insert(sorted_of(items.drop_last()), items.last())
    }
}

pub open spec fn all_numbers(items: Seq<ValueView>) -> bool {
    forall|i: int| 0 <= i < items.len() ==> (#[trigger] items[i]) is Number
}

pub open spec fn all_texts(items: Seq<ValueView>) -> bool {
    forall|i: int| 0 <= i < items.len() ==> (#[trigger] items[i]) is Text
}

/// Each item may stand before every later one.
pub open spec fn ascending(items: Seq<ValueView>) -> bool {
    forall|i: int, j: int| 0 <= i <= j < items.len() ==> precedes(#[trigger] items[i], #[trigger] items[j])
}

/// What `sort` gives: an array of at most one item as it is, an array of
/// numbers or of texts in order, and a failure for any other.
pub open spec fn sort_outcome(items: Seq<ValueView>) -> Result<Seq<ValueView>, RuntimeError> {
    if items.len() <= 1 {
        Ok(items)
    } else if all_numbers(items) || all_texts(items) {
        Ok(sorted_of(items))
    } else {
        Err(RuntimeError::NotUniform)
    }
}

/// The items after `pop`: without the last, if there is one.
pub open spec fn without_last(items: Seq<ValueView>) -> Seq<ValueView> {
    if items.len() > 0 {
        items.drop_last()
    } else {
        items
    }
}

/// What a method gives on `items` with the arguments `args`: the new items.
/// `push` takes one argument, the others none.
pub open spec fn method_outcome(
    method: ArrayMethod,
    items: Seq<ValueView>,
    args: Seq<ValueView>,
) -> Result<Seq<ValueView>, RuntimeError> {
    match method {
        ArrayMethod::Push => if args.len() == 1 {
            Ok(items.push(args[0]))
        } else {
            Err(RuntimeError::ArgumentCount)
        },
        ArrayMethod::Pop => if args.len() == 0 {
            Ok(without_last(items))
        } else {
            Err(RuntimeError::ArgumentCount)
        },
        ArrayMethod::Reverse => if args.len() == 0 {
            Ok(items.reverse())
        } else {
            Err(RuntimeError::ArgumentCount)
        },
        ArrayMethod::Sort => if args.len() == 0 {
            sort_outcome(items)
        } else {
            Err(RuntimeError::ArgumentCount)
        },
    }
}

/// Inserting adds one item and keeps the others.
pub proof fn lemma_insert_members(sorted: Seq<ValueView>, v: ValueView)
    ensures
        insert(sorted, v).len() == sorted.len() + 1,
        forall|k: int|
            0 <= k < insert(sorted, v).len() ==> (#[trigger] insert(sorted, v)[k]) == v || exists|
                i: int,
            |
                0 <= i < sorted.len() && insert(sorted, v)[k] == sorted[i],
    decreases sorted.len(),
{
    if sorted.len() > 0 && !precedes(sorted.last(), v) {
        let front = sorted.drop_last();
        lemma_insert_members(front, v);
        let out = insert(sorted, v);
        assert forall|k: int| 0 <= k < out.len() implies (#[trigger] out[k]) == v || exists|i: int|
            0 <= i < sorted.len() && out[k] == sorted[i] by {
            if k < out.len() - 1 {
                assert(out[k] == insert(front, v)[k]);
                if out[k] != v {
                    let i = choose|i: int| 0 <= i < front.len() && insert(front, v)[k] == front[i];
                    assert(out[k] == sorted[i]);
                }
            } else {
                assert(out[k] == sorted[sorted.len() - 1]);
            }
        }
    } else if sorted.len() > 0 {
        let out = insert(sorted, v);
        assert forall|k: int| 0 <= k < out.len() implies (#[trigger] out[k]) == v || exists|i: int|
            0 <= i < sorted.len() && out[k] == sorted[i] by {
            if k < sorted.len() {
                assert(out[k] == sorted[k]);
            }
        }
    }
}

/// Inserting adds the item to what the array holds, and nothing else.
pub proof fn lemma_insert_holds(sorted: Seq<ValueView>, v: ValueView)
    ensures
        insert(sorted, v).to_multiset() == sorted.to_multiset().insert(v),
    decreases sorted.len(),
{
    broadcast use vstd::seq_lib::to_multiset_build;

    if sorted.len() == 0 {
        assert(seq![v] =~= sorted.push(v));
    } else if !precedes(sorted.last(), v) {
        let front = sorted.drop_last();
        lemma_insert_holds(front, v);
        assert(front.push(sorted.last()) =~= sorted);
        assert(insert(sorted, v).to_multiset() =~= sorted.to_multiset().insert(v));
    }
}

/// Sorting keeps what the array holds: each item as often as before.
pub proof fn lemma_sorted_of_holds(items: Seq<ValueView>)
    ensures
        sorted_of(items).to_multiset() == items.to_multiset(),
    decreases items.len(),
{
    broadcast use vstd::seq_lib::to_multiset_build;

    if items.len() > 0 {
        let front = items.drop_last();
        lemma_sorted_of_holds(front);
        lemma_insert_holds(sorted_of(front), items.last());
        assert(front.push(items.last()) =~= items);
    } else {
        assert(sorted_of(items) =~= items);
    }
}

/// Inserting a number into numbers in order leaves them in order.
pub proof fn lemma_insert_ascending(sorted: Seq<ValueView>, v: ValueView)
    requires
        all_numbers(sorted),
        v is Number,
        ascending(sorted),
    ensures
        ascending(insert(sorted, v)),
        all_numbers(insert(sorted, v)),
    decreases sorted.len(),
{
    lemma_insert_members(sorted, v);
    let out = insert(sorted, v);
    assert forall|k: int| 0 <= k < out.len() implies (#[trigger] out[k]) is Number by {
        if out[k] != v {
            let i = choose|i: int| 0 <= i < sorted.len() && out[k] == sorted[i];
            assert(sorted[i] is Number);
        }
    }
    if sorted.len() == 0 {
    } else if precedes(sorted.last(), v) {
        assert forall|i: int, j: int| 0 <= i <= j < out.len() implies precedes(
            #[trigger] out[i],
            #[trigger] out[j],
        ) by {
            if j < sorted.len() {
                assert(out[i] == sorted[i] && out[j] == sorted[j]);
            } else if i < sorted.len() {
                assert(out[i] == sorted[i]);
                assert(sorted[i] is Number);
                assert(precedes(sorted[i], sorted[sorted.len() - 1]));
            }
        }
    } else {
        let front = sorted.drop_last();
        let last = sorted.last();
        assert(all_numbers(front)) by {
            assert forall|i: int| 0 <= i < front.len() implies (#[trigger] front[i]) is Number by {
                assert(front[i] == sorted[i]);
            }
        }
        assert(ascending(front)) by {
            assert forall|i: int, j: int| 0 <= i <= j < front.len() implies precedes(
                #[trigger] front[i],
                #[trigger] front[j],
            ) by {
                assert(front[i] == sorted[i] && front[j] == sorted[j]);
            }
        }
        lemma_insert_ascending(front, v);
        lemma_insert_members(front, v);
        let inner = insert(front, v);
        assert(last is Number);
        assert forall|i: int, j: int| 0 <= i <= j < out.len() implies precedes(
            #[trigger] out[i],
            #[trigger] out[j],
        ) by {
            if j < inner.len() {
                assert(out[i] == inner[i] && out[j] == inner[j]);
            } else if i < inner.len() {
                assert(out[i] == inner[i]);
                assert(out[j] == last);
                if inner[i] != v {
                    let k = choose|k: int| 0 <= k < front.len() && inner[i] == front[k];
                    assert(front[k] == sorted[k]);
                    assert(precedes(sorted[k], sorted[sorted.len() - 1]));
                }
            }
        }
    }
}

/// Numbers, sorted, are numbers in order, as many as before.
pub proof fn lemma_sorted_of_ascending(items: Seq<ValueView>)
    requires
        all_numbers(items),
    ensures
        ascending(sorted_of(items)),
        all_numbers(sorted_of(items)),
        sorted_of(items).len() == items.len(),
    decreases items.len(),
{
    if items.len() > 0 {
        let front = items.drop_last();
        assert(all_numbers(front)) by {
            assert forall|i: int| 0 <= i < front.len() implies (#[trigger] front[i]) is Number by {
                assert(front[i] == items[i]);
            }
        }
        lemma_sorted_of_ascending(front);
        assert(items.last() == items[items.len() - 1]);
        lemma_insert_ascending(sorted_of(front), items.last());
        lemma_insert_members(sorted_of(front), items.last());
    }
}

/// Sorting leaves items that are in order as they are.
pub proof fn lemma_sorted_of_fixed(items: Seq<ValueView>)
    requires
        ascending(items),
    ensures
        sorted_of(items) == items,
    decreases items.len(),
{
    if items.len() > 0 {
        let front = items.drop_last();
        assert(ascending(front)) by {
            assert forall|i: int, j: int| 0 <= i <= j < front.len() implies precedes(
                #[trigger] front[i],
                #[trigger] front[j],
            ) by {
                assert(front[i] == items[i] && front[j] == items[j]);
            }
        }
        lemma_sorted_of_fixed(front);
        if front.len() > 0 {
            assert(front.last() == items[items.len() - 2]);
            assert(items.last() == items[items.len() - 1]);
            assert(precedes(front.last(), items.last()));
        }
        assert(front.push(items.last()) =~= items);
    }
}

/// Sorting an array of numbers gives the same numbers in order, and sorting
/// the result again changes nothing.
pub proof fn lemma_sort_numbers(items: Seq<ValueView>)
    requires
        all_numbers(items),
    ensures
        sort_outcome(items) is Ok,
        ascending(sort_outcome(items)->Ok_0),
        sort_outcome(items)->Ok_0.to_multiset() == items.to_multiset(),
        sort_outcome(sort_outcome(items)->Ok_0) == sort_outcome(items),
{
    lemma_sorted_of_ascending(items);
    lemma_sorted_of_holds(items);
    if items.len() > 1 {
        lemma_sorted_of_fixed(sorted_of(items));
    }
}

/// Among numbers in order no later one is less than an earlier one.
pub proof fn lemma_ascending_numbers(items: Seq<ValueView>, i: int, j: int)
    requires
        ascending(items),
        0 <= i <= j < items.len(),
        items[i] is Number,
        items[j] is Number,
    ensures
        !numeric_lt(items[j]->Number_0, items[i]->Number_0),
{
    assert(precedes(items[i], items[j]));
}

/// Reversing an array twice gives the array back.
pub proof fn lemma_reverse_twice(items: Seq<ValueView>)
    ensures
        method_outcome(ArrayMethod::Reverse, items, Seq::empty()) is Ok,
        method_outcome(
            ArrayMethod::Reverse,
            method_outcome(ArrayMethod::Reverse, items, Seq::empty())->Ok_0,
            Seq::empty(),
        ) == Ok::<Seq<ValueView>, RuntimeError>(items),
{
    assert(items.reverse().reverse() =~= items);
}

/// Whether `a` may stand before `b` in a sorted array.
fn comes_first(a: &Value, b: &Value) -> (r: bool)
    ensures
        r == precedes(a@, b@),
{
    broadcast use group_value_views;

    proof {
        lemma_same_kind(*a);
        lemma_same_kind(*b);
    }
    match a {
        Value::Number(x) => match b {
            Value::Number(y) => x.precedes(y),
            _ => true,
        },
        Value::Text(s) => match b {
            Value::Text(t) => !text_less(t.as_str(), s.as_str()),
            _ => true,
        },
        _ => true,
    }
}

/// Puts `v` behind the last item that may stand before it.
fn insert_sorted(sorted: &mut Vec<Value>, v: Value)
    ensures
        value_views(final(sorted)@) == insert(value_views(old(sorted)@), v@),
{
    let ghost views = value_views(sorted@);
    let mut j: usize = sorted.len();
    proof {
        assert(views.take(j as int) =~= views);
        assert(insert(views, v@) + views.skip(j as int) =~= insert(views, v@));
    }
    while j > 0 && !comes_first(&sorted[j - 1], &v)
        invariant
            j <= sorted@.len(),
            views == value_views(sorted@),
            insert(views, v@) == insert(views.take(j as int), v@) + views.skip(j as int),
        decreases j,
    {
        proof {
            let part = views.take(j as int);
            assert(part.last() == views[j - 1]);
            assert(views[j - 1] == sorted@[j - 1]@);
            assert(part.drop_last() =~= views.take(j - 1));
            assert(insert(views.take(j - 1), v@).push(views[j - 1]) + views.skip(j as int)
                =~= insert(views.take(j - 1), v@) + views.skip(j - 1));
        }
        j -= 1;
    }
    proof {
        let part = views.take(j as int);
        if j > 0 {
            assert(part.last() == views[j - 1]);
            assert(views[j - 1] == sorted@[j - 1]@);
        }
        assert(insert(part, v@) =~= part.push(v@));
        assert(part.push(v@) + views.skip(j as int) =~= views.insert(j as int, v@));
        assert(value_views(sorted@.insert(j as int, v)) =~= views.insert(j as int, v@));
    }
    sorted.insert(j, v);
}

/// Whether all items are numbers, or all are texts.
fn uniform(items: &Vec<Value>) -> (r: bool)
    ensures
        r == (all_numbers(value_views(items@)) || all_texts(value_views(items@))),
{
    let ghost views = value_views(items@);
    let mut numbers = true;
    let mut texts = true;
    let mut i: usize = 0;
    while i < items.len()
        invariant
            i <= items@.len(),
            views == value_views(items@),
            numbers == all_numbers(views.take(i as int)),
            texts == all_texts(views.take(i as int)),
        decreases items@.len() - i,
    {
        proof {
            lemma_same_kind(items@[i as int]);
            let now = views.take(i as int);
            let next = views.take(i + 1);
            assert(next[i as int] == items@[i as int]@);
            assert forall|k: int| 0 <= k < now.len() implies now[k] == next[k] by {}
            if all_numbers(next) {
                assert forall|k: int| 0 <= k < now.len() implies (#[trigger] now[k]) is Number by {
                    assert(next[k] is Number);
                }
            }
            if all_texts(next) {
                assert forall|k: int| 0 <= k < now.len() implies (#[trigger] now[k]) is Text by {
                    assert(next[k] is Text);
                }
            }
        }
        match &items[i] {
            Value::Number(_) => {
                texts = false;
            },
            Value::Text(_) => {
                numbers = false;
            },
            _ => {
                numbers = false;
                texts = false;
            },
        }
        i += 1;
    }
    proof {
        assert(views.take(items@.len() as int) =~= views);
    }
    numbers || texts
}

/// `sort`
pub fn sort_values(items: Vec<Value>) -> (r: Result<Vec<Value>, RuntimeError>)
    ensures
        match sort_outcome(value_views(items@)) {
            Ok(sorted) => r is Ok && value_views(r->Ok_0@) == sorted,
            Err(e) => r == Err::<Vec<Value>, RuntimeError>(e),
        },
{
    broadcast use group_value_views;

    if items.len() <= 1 {
        return Ok(items);
    }
    if !uniform(&items) {
        return Err(RuntimeError::NotUniform);
    }
    let ghost all = items@;
    let ghost views = value_views(all);
    let mut sorted: Vec<Value> = Vec::new();
    for v in it: items
        invariant
            it.seq() == all,
            views == value_views(all),
            value_views(sorted@) == sorted_of(views.take(it.index() as int)),
    {
        proof {
            let i = it.index() as int;
            assert(views.take(i + 1).drop_last() =~= views.take(i));
            assert(views.take(i + 1).last() == v@);
        }
        insert_sorted(&mut sorted, v);
    }
    proof {
        assert(views.take(all.len() as int) =~= views);
    }
    Ok(sorted)
}

/// `reverse`
pub fn reverse_values(items: Vec<Value>) -> (r: Vec<Value>)
    ensures
        value_views(r@) == value_views(items@).reverse(),
{
    let ghost all = items@;
    let mut rest = items;
    let mut out: Vec<Value> = Vec::new();
    while rest.len() > 0
        invariant
            rest@ == all.take(rest@.len() as int),
            rest@.len() <= all.len(),
            out@.len() + rest@.len() == all.len(),
            forall|j: int| 0 <= j < out@.len() ==> out@[j] == all[all.len() - 1 - j],
        decreases rest@.len(),
    {
        let ghost before = rest@;
        match rest.pop() {
            Some(v) => {
                assert(v == all[before.len() - 1]);
                assert(rest@ =~= all.take(rest@.len() as int));
                out.push(v);
            },
            None => {},
        }
    }
    proof {
        assert(value_views(out@) =~= value_views(all).reverse());
    }
    out
}

/// Applies a method to `items` with the arguments `args`.
pub fn apply_method(method: ArrayMethod, items: Vec<Value>, args: Vec<Value>) -> (r: Result<
    Vec<Value>,
    RuntimeError,
>)
    ensures
        match method_outcome(method, value_views(items@), value_views(args@)) {
            Ok(after) => r is Ok && value_views(r->Ok_0@) == after,
            Err(e) => r == Err::<Vec<Value>, RuntimeError>(e),
        },
{
    broadcast use group_value_views;

    match method {
        ArrayMethod::Push => {
            if args.len() != 1 {
                return Err(RuntimeError::ArgumentCount);
            }
            let mut items = items;
            let mut args = args;
            match args.pop() {
                Some(v) => {
                    items.push(v);
                    Ok(items)
                },
                None => Err(RuntimeError::ArgumentCount),
            }
        },
        ArrayMethod::Pop => {
            if args.len() != 0 {
                return Err(RuntimeError::ArgumentCount);
            }
            let mut items = items;
            let ghost before = items@;
            let _ = items.pop();
            proof {
                assert(value_views(items@) =~= without_last(value_views(before)));
            }
            Ok(items)
        },
        ArrayMethod::Reverse => {
            if args.len() != 0 {
                return Err(RuntimeError::ArgumentCount);
            }
            Ok(reverse_values(items))
        },
        ArrayMethod::Sort => {
            if args.len() != 0 {
                return Err(RuntimeError::ArgumentCount);
            }
            sort_values(items)
        },
    }
}

} // verus!
