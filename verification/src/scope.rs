//! Environments: lists of named entries, searched from the front. A name is
//! bound once; binding it again replaces what it held, in place.
use crate::value::{field_views, group_value_views, Value, ValueView};
use vstd::prelude::*;

verus! {

/// The first position at or after `from` that holds `name`.
pub open spec fn index_from(names: Seq<Seq<char>>, name: Seq<char>, from: int) -> Option<int>
    decreases names.len() - from,
{
    if 0 <= from < names.len() {
        if names[from] == name {
            Some(from)
        } else {
            index_from(names, name, from + 1)
        }
    } else {
        None
    }
}

/// The first position that holds `name`.
pub open spec fn index_of(names: Seq<Seq<char>>, name: Seq<char>) -> Option<int> {
    index_from(names, name, 0)
}

/// The names of a list of entries.
pub open spec fn names_of<T>(entries: Seq<(Seq<char>, T)>) -> Seq<Seq<char>> {
    Seq::new(entries.len(), |i: int| entries[i].0)
}

/// What `name` is bound to.
pub open spec fn lookup<T>(entries: Seq<(Seq<char>, T)>, name: Seq<char>) -> Option<T> {
    match index_of(names_of(entries), name) {
        Some(i) => Some(entries[i].1),
        None => None,
    }
}

/// The entries with `name` bound to `v`: in its old place if it was bound,
/// else at the end.
pub open spec fn upsert<T>(entries: Seq<(Seq<char>, T)>, name: Seq<char>, v: T) -> Seq<
    (Seq<char>, T),
> {
    match index_of(names_of(entries), name) {
        Some(i) => entries.update(i, (name, v)),
        None => entries.push((name, v)),
    }
}

/// The names of a list of entries, as it is stored.
pub open spec fn keys_of<T>(entries: Seq<(String, T)>) -> Seq<Seq<char>> {
    Seq::new(entries.len(), |i: int| entries[i].0@)
}

pub proof fn lemma_index_from_bounds(names: Seq<Seq<char>>, name: Seq<char>, from: int)
    requires
        0 <= from,
    ensures
        index_from(names, name, from) matches Some(i) ==> from <= i < names.len() && names[i]
            == name,
    decreases names.len() - from,
{
    if from < names.len() && names[from] != name {
        lemma_index_from_bounds(names, name, from + 1);
    }
}

/// No name occurs twice.
pub open spec fn distinct(names: Seq<Seq<char>>) -> bool {
    forall|i: int, j: int| 0 <= i < j < names.len() ==> names[i] != names[j]
}

/// A name that is not found from `from` on stands at no later place.
pub proof fn lemma_index_from_none(names: Seq<Seq<char>>, name: Seq<char>, from: int)
    requires
        0 <= from,
        index_from(names, name, from) is None,
    ensures
        forall|k: int| from <= k < names.len() ==> names[k] != name,
    decreases names.len() - from,
{
    if from < names.len() {
        lemma_index_from_none(names, name, from + 1);
    }
}

/// Binding keeps the names apart: where no name occurs twice, none does after
/// a name is bound, whether it was bound before or not.
pub proof fn lemma_upsert_distinct<T>(entries: Seq<(Seq<char>, T)>, name: Seq<char>, v: T)
    requires
        distinct(names_of(entries)),
    ensures
        distinct(names_of(upsert(entries, name, v))),
        index_of(names_of(entries), name) is Some ==> names_of(upsert(entries, name, v))
            == names_of(entries),
        index_of(names_of(entries), name) is None ==> names_of(upsert(entries, name, v))
            == names_of(entries).push(name),
{
    let names = names_of(entries);
    let after = upsert(entries, name, v);
    lemma_index_from_bounds(names, name, 0);
    match index_of(names, name) {
        Some(i) => {
            assert(names_of(after) =~= names);
        },
        None => {
            lemma_index_from_none(names, name, 0);
            assert(names_of(after) =~= names.push(name));
        },
    }
}

/// After a binding, the name holds what it was bound to.
pub proof fn lemma_lookup_upsert<T>(entries: Seq<(Seq<char>, T)>, name: Seq<char>, v: T)
    ensures
        lookup(upsert(entries, name, v), name) == Some(v),
{
    let names = names_of(entries);
    let after = upsert(entries, name, v);
    lemma_index_from_bounds(names, name, 0);
    match index_of(names, name) {
        Some(i) => {
            assert(names_of(after) =~= names);
        },
        None => {
            lemma_index_from_push(names, name, 0);
            assert(names_of(after) =~= names.push(name));
        },
    }
}

/// A name that the list lacks is found at the end once it is appended.
pub proof fn lemma_index_from_push(names: Seq<Seq<char>>, name: Seq<char>, from: int)
    requires
        0 <= from <= names.len(),
        index_from(names, name, from) is None,
    ensures
        index_from(names.push(name), name, from) == Some(names.len() as int),
    decreases names.len() - from,
{
    if from < names.len() {
        assert(names.push(name)[from] == names[from]);
        lemma_index_from_push(names, name, from + 1);
    }
}

/// The place of `name` in a list.
pub fn position<T>(entries: &Vec<(String, T)>, name: &str) -> (r: Option<usize>)
    ensures
        match index_of(keys_of(entries@), name@) {
            Some(i) => r is Some && r->0 as int == i && 0 <= i < entries@.len() && entries@[i].0@
                == name@,
            None => r is None,
        },
{
    let wanted = name.to_owned();
    let ghost names = keys_of(entries@);
    let mut at: usize = 0;
    while at < entries.len()
        invariant
            at <= entries@.len(),
            wanted@ == name@,
            names == keys_of(entries@),
            index_from(names, name@, 0) == index_from(names, name@, at as int),
        decreases entries@.len() - at,
    {
        if entries[at].0 == wanted {
            return Some(at);
        }
        at += 1;
    }
    None
}

/// Binds `name` to `v`: in its old place if it was bound, else at the end.
pub fn bind_entry<T>(entries: &mut Vec<(String, T)>, name: String, v: T)
    ensures
        match index_of(keys_of(old(entries)@), name@) {
            Some(i) => 0 <= i < old(entries)@.len() && final(entries)@ == old(entries)@.update(
                i,
                (name, v),
            ),
            None => final(entries)@ == old(entries)@.push((name, v)),
        },
{
    match position(entries, name.as_str()) {
        Some(i) => {
            entries[i] = (name, v);
        },
        None => {
            entries.push((name, v));
        },
    }
}

/// Whether `name` is among `names`.
pub fn has_name(names: &Vec<String>, name: &str) -> (r: bool)
    ensures
        r == (index_of(crate::ast::name_views(names@), name@) is Some),
{
    let wanted = name.to_owned();
    let ghost views = crate::ast::name_views(names@);
    let mut at: usize = 0;
    while at < names.len()
        invariant
            at <= names@.len(),
            wanted@ == name@,
            views == crate::ast::name_views(names@),
            index_from(views, name@, 0) == index_from(views, name@, at as int),
        decreases names@.len() - at,
    {
        if names[at] == wanted {
            return true;
        }
        at += 1;
    }
    false
}

/// The names of stored values are the names of their views.
pub proof fn lemma_field_names(fields: Seq<(String, Value)>)
    ensures
        names_of(field_views(fields)) == keys_of(fields),
{
    assert(names_of(field_views(fields)) =~= keys_of(fields));
}

/// What `name` is bound to, copied.
pub fn lookup_value(env: &Vec<(String, Value)>, name: &str) -> (r: Option<Value>)
    ensures
        match lookup(field_views(env@), name@) {
            Some(v) => r is Some && r->0@ == v,
            None => r is None,
        },
{
    proof {
        lemma_field_names(env@);
    }
    match position(env, name) {
        Some(i) => Some(env[i].1.duplicate()),
        None => None,
    }
}

/// Binds `name` to `v`.
pub fn bind_value(env: &mut Vec<(String, Value)>, name: String, v: Value)
    ensures
        field_views(final(env)@) == upsert(field_views(old(env)@), name@, v@),
{
    broadcast use group_value_views;

    let ghost before = field_views(env@);
    proof {
        lemma_field_names(env@);
    }
    match position(env, name.as_str()) {
        Some(i) => {
            env[i] = (name, v);
            assert(field_views(env@) =~= before.update(i as int, (name@, v@)));
        },
        None => {
            env.push((name, v));
        },
    }
}

} // verus!
