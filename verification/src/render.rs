//! How a value is printed: as a run of fragments, texts and numbers. The host
//! writes the texts as they are and each number in its own format for doubles.
use crate::number::Number;
use crate::value::{
    group_value_views, lemma_same_kind, value_views, ArrayMethod, RuntimeError, Value, ValueView,
};
use vstd::prelude::*;

verus! {

/// A piece of printed output.
#[derive(Debug)]
pub enum Fragment {
    Text(String),
    Number(Number),
}

pub enum FragmentView {
    Text(Seq<char>),
    Number(u64),
}

impl Fragment {
    pub open spec fn view(&self) -> FragmentView {
        match self {
            Fragment::Text(s) => FragmentView::Text(s@),
            Fragment::Number(n) => FragmentView::Number(n.bits),
        }
    }
}

/// The views of a run of fragments.
pub open spec fn fragment_views(fragments: Seq<Fragment>) -> Seq<FragmentView> {
    Seq::new(fragments.len(), |i: int| fragments[i]@)
}

pub broadcast proof fn lemma_fragment_views_push(fragments: Seq<Fragment>, f: Fragment)
    ensures
        #[trigger] fragment_views(fragments.push(f)) == fragment_views(fragments).push(f@),
{
    assert(fragment_views(fragments.push(f)) =~= fragment_views(fragments).push(f@));
}

/// The name under which a method of arrays is a function.
pub open spec fn method_name(method: ArrayMethod) -> Seq<char> {
    match method {
        ArrayMethod::Push => "STDLIB_ARRAY_PUSH"@,
        ArrayMethod::Pop => "STDLIB_ARRAY_POP"@,
        ArrayMethod::Reverse => "STDLIB_ARRAY_REVERSE"@,
        ArrayMethod::Sort => "STDLIB_ARRAY_SORT"@,
    }
}

/// `acc` followed by the fragments of `v`: a text as it is; a number as a
/// number; a boolean as `true` or `false`; an array as `[a, b]`; a record as
/// `Name { f: a, g: b }`, or `Name {}` without fields; a function as
/// `function name`. The absent value has no printed form.
pub open spec fn render_onto(acc: Seq<FragmentView>, v: ValueView) -> Result<
    Seq<FragmentView>,
    RuntimeError,
>
    decreases v, 0nat,
{
    match v {
        ValueView::Number(n) => Ok(acc.push(FragmentView::Number(n))),
        ValueView::Text(s) => Ok(acc.push(FragmentView::Text(s))),
        ValueView::Boolean(b) => Ok(
            acc.push(
                FragmentView::Text(
                    if b {
                        "true"@
                    } else {
                        "false"@
                    },
                ),
            ),
        ),
        ValueView::Array(items) => match render_items(
            acc.push(FragmentView::Text("["@)),
            items,
            0,
        ) {
            Ok(inner) => Ok(inner.push(FragmentView::Text("]"@))),
            Err(e) => Err(e),
        },
        ValueView::Instance(name, fields) => if fields.len() == 0 {
            Ok(acc.push(FragmentView::Text(name)).push(FragmentView::Text(" {}"@)))
        } else {
            match render_fields(
                acc.push(FragmentView::Text(name)).push(FragmentView::Text(" { "@)),
                fields,
                0,
            ) {
                Ok(inner) => Ok(inner.push(FragmentView::Text(" }"@))),
                Err(e) => Err(e),
            }
        },
        ValueView::Function(name) => Ok(
            acc.push(FragmentView::Text("function "@)).push(FragmentView::Text(name)),
        ),
        ValueView::Method(method, _, _) => Ok(
            acc.push(FragmentView::Text("function "@)).push(
                FragmentView::Text(method_name(method)),
            ),
        ),
        ValueView::Nothing => Err(RuntimeError::NotPrintable),
    }
}

/// `acc` followed by the items from `from` on, with `, ` between items.
pub open spec fn render_items(acc: Seq<FragmentView>, items: Seq<ValueView>, from: nat) -> Result<
    Seq<FragmentView>,
    RuntimeError,
>
    decreases items, items.len() - from,
{
    if from >= items.len() {
        Ok(acc)
    } else {
        let start = if from > 0 {
            acc.push(FragmentView::Text(", "@))
        } else {
            acc
        };
        match render_onto(start, items[from as int]) {
            Ok(next) => render_items(next, items, from + 1),
            Err(e) => Err(e),
        }
    }
}

/// `acc` followed by the fields from `from` on, each as `name: value`, with
/// `, ` between fields.
pub open spec fn render_fields(
    acc: Seq<FragmentView>,
    fields: Seq<(Seq<char>, ValueView)>,
    from: nat,
) -> Result<Seq<FragmentView>, RuntimeError>
    decreases fields, fields.len() - from,
{
    if from >= fields.len() {
        Ok(acc)
    } else {
        let start = if from > 0 {
            acc.push(FragmentView::Text(", "@))
        } else {
            acc
        };
        match render_onto(
            start.push(FragmentView::Text(fields[from as int].0)).push(FragmentView::Text(": "@)),
            fields[from as int].1,
        ) {
            Ok(next) => render_fields(next, fields, from + 1),
            Err(e) => Err(e),
        }
    }
}

/// The fragments of `v`.
pub open spec fn render(v: ValueView) -> Result<Seq<FragmentView>, RuntimeError> {
    render_onto(Seq::empty(), v)
}

/// Appends a text.
fn put(out: &mut Vec<Fragment>, text: &str)
    ensures
        fragment_views(final(out)@) == fragment_views(old(out)@).push(FragmentView::Text(text@)),
{
    broadcast use lemma_fragment_views_push;

    out.push(Fragment::Text(text.to_owned()));
}

/// The name under which a method of arrays is a function.
pub fn name_of_method(method: ArrayMethod) -> (name: &'static str)
    ensures
        name@ == method_name(method),
{
    match method {
        ArrayMethod::Push => "STDLIB_ARRAY_PUSH",
        ArrayMethod::Pop => "STDLIB_ARRAY_POP",
        ArrayMethod::Reverse => "STDLIB_ARRAY_REVERSE",
        ArrayMethod::Sort => "STDLIB_ARRAY_SORT",
    }
}

/// Appends the fragments of `v`. After a failure `out` holds what was
/// appended before it.
#[verifier::loop_isolation(false)]
pub fn render_into(v: &Value, out: &mut Vec<Fragment>) -> (r: Result<(), RuntimeError>)
    ensures
        match render_onto(fragment_views(old(out)@), v@) {
            Ok(fragments) => r is Ok && fragment_views(final(out)@) == fragments,
            Err(e) => r == Err::<(), RuntimeError>(e),
        },
    decreases v,
{
    broadcast use {
        group_value_views,
        lemma_fragment_views_push,
        vstd::std_specs::vec::axiom_vec_index_decreases,
    };

    proof {
        lemma_same_kind(*v);
    }
    match v {
        Value::Number(n) => {
            out.push(Fragment::Number(*n));
            Ok(())
        },
        Value::Text(s) => {
            put(out, s.as_str());
            Ok(())
        },
        Value::Boolean(b) => {
            proof {
                crate::value::lemma_boolean_view(*b);
            }
            if *b {
                put(out, "true");
            } else {
                put(out, "false");
            }
            Ok(())
        },
        Value::Array(items) => {
            put(out, "[");
            let ghost views = value_views(items@);
            let ghost begin = fragment_views(out@);
            let mut i: usize = 0;
            while i < items.len()
                invariant
                    i <= items@.len(),
                    views == value_views(items@),
                    render_items(begin, views, 0) == render_items(
                        fragment_views(out@),
                        views,
                        i as nat,
                    ),
                decreases items@.len() - i,
            {
                if i > 0 {
                    put(out, ", ");
                }
                proof {
                    assert(decreases_to!(*items => items[i as int]));
                    assert(views[i as int] == items@[i as int]@);
                }
                match render_into(&items[i], out) {
                    Ok(()) => {},
                    Err(e) => {
                        return Err(e);
                    },
                }
                i += 1;
            }
            put(out, "]");
            Ok(())
        },
        Value::Instance(name, fields) => {
            put(out, name.as_str());
            if fields.len() == 0 {
                put(out, " {}");
                return Ok(());
            }
            put(out, " { ");
            let ghost views = crate::value::field_views(fields@);
            let ghost begin = fragment_views(out@);
            let mut i: usize = 0;
            while i < fields.len()
                invariant
                    i <= fields@.len(),
                    views == crate::value::field_views(fields@),
                    render_fields(begin, views, 0) == render_fields(
                        fragment_views(out@),
                        views,
                        i as nat,
                    ),
                decreases fields@.len() - i,
            {
                if i > 0 {
                    put(out, ", ");
                }
                put(out, fields[i].0.as_str());
                put(out, ": ");
                proof {
                    assert(decreases_to!(*fields => fields[i as int]));
                    assert(decreases_to!(fields[i as int] => fields[i as int].1));
                    assert(views[i as int] == (fields@[i as int].0@, fields@[i as int].1@));
                }
                match render_into(&fields[i].1, out) {
                    Ok(()) => {},
                    Err(e) => {
                        return Err(e);
                    },
                }
                i += 1;
            }
            put(out, " }");
            Ok(())
        },
        Value::Function(name) => {
            put(out, "function ");
            put(out, name.as_str());
            Ok(())
        },
        Value::Method(method, binder, items) => {
            proof {
                crate::value::lemma_method_view(*method, *binder, *items);
            }
            put(out, "function ");
            put(out, name_of_method(*method));
            Ok(())
        },
        Value::Nothing => Err(RuntimeError::NotPrintable),
    }
}

/// The fragments of `v`.
pub fn rendered(v: &Value) -> (r: Result<Vec<Fragment>, RuntimeError>)
    ensures
        match render(v@) {
            Ok(fragments) => r is Ok && fragment_views(r->Ok_0@) == fragments,
            Err(e) => r == Err::<Vec<Fragment>, RuntimeError>(e),
        },
{
    let mut out: Vec<Fragment> = Vec::new();
    assert(fragment_views(out@) =~= Seq::<FragmentView>::empty());
    match render_into(v, &mut out) {
        Ok(()) => Ok(out),
        Err(e) => Err(e),
    }
}

} // verus!
