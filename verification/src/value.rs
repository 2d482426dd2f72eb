//! The values that a program computes, and what the evaluator can answer
//! with: a value, a question to the host, or a failure.
use crate::number::Number;
use vstd::prelude::*;

verus! {

/// The methods of an array.
#[derive(Debug, Clone, Copy, PartialEq, Eq, Hash, Structural)]
pub enum ArrayMethod {
    Push,
    Pop,
    Reverse,
    Sort,
}

/// A value at run time.
#[derive(Debug)]
pub enum Value {
    Number(Number),
    Text(String),
    Boolean(bool),
    Array(Vec<Value>),
    /// Record name and fields, in the order in which they were first given.
    Instance(String, Vec<(String, Value)>),
    /// A function, by its name in the function environment.
    Function(String),
    /// A method of an array, bound to the items it was read from and, where
    /// the array was read from a variable, to that variable's name.
    Method(ArrayMethod, Option<String>, Vec<Value>),
    /// The absence of a value.
    Nothing,
}

/// A value as a mathematical value.
pub enum ValueView {
    Number(u64),
    Text(Seq<char>),
    Boolean(bool),
    Array(Seq<ValueView>),
    Instance(Seq<char>, Seq<(Seq<char>, ValueView)>),
    Function(Seq<char>),
    Method(ArrayMethod, Option<Seq<char>>, Seq<ValueView>),
    Nothing,
}

/// Why a run failed.
#[derive(Debug, Clone, Copy, PartialEq, Eq, Hash, Structural)]
pub enum RuntimeError {
    /// A name is bound neither to a value nor to a function.
    UndefinedVariable,
    /// A function value names no function.
    UndefinedFunction,
    /// A record is constructed whose type was not declared.
    UndefinedRecord,
    /// A field that the record does not have.
    UnknownField,
    /// An operand or a receiver of the wrong kind.
    WrongOperand,
    /// A token that is no operator stands where one is needed.
    UnknownOperator,
    /// Division or remainder by zero.
    DivideByZero,
    /// An array index below zero or not below the length.
    IndexOutOfRange,
    /// `sort` on an array that is not all numbers or all texts.
    NotUniform,
    /// What is called is no function.
    NotCallable,
    /// Too few arguments for a function, or the wrong count for a method.
    ArgumentCount,
    /// A statement stands where an expression is needed.
    NotAnExpression,
    /// A field is read or set on what is no record.
    NotARecord,
    /// A key that is neither a number nor a text, or is not written as a
    /// literal where it is not to be evaluated.
    BadKey,
    /// A loop without exactly two bounds, or with a bound that is no number.
    BadRange,
    /// The absent value cannot be printed.
    NotPrintable,
    /// A text that the machine cannot hold.
    TooLong,
    /// The host answered with something that was not asked for.
    UnexpectedEvent,
}

/// The arithmetic that the host performs on doubles.
#[derive(Debug, Clone, Copy, PartialEq, Eq, Hash, Structural)]
pub enum Operation {
    Add,
    Subtract,
    Multiply,
    Divide,
    Remainder,
}

/// A question to the host, answered with a number.
#[derive(Debug)]
pub enum NumericRequest {
    /// The double nearest to the numeral: digits, and at most one point.
    Parse(String),
    /// The double nearest to the integer.
    FromInteger(i64),
    /// The result of an operation on two doubles.
    Arithmetic(Operation, Number, Number),
}

pub enum RequestView {
    Parse(Seq<char>),
    FromInteger(i64),
    Arithmetic(Operation, u64, u64),
}

impl NumericRequest {
    pub open spec fn view(&self) -> RequestView {
        match self {
            NumericRequest::Parse(s) => RequestView::Parse(s@),
            NumericRequest::FromInteger(i) => RequestView::FromInteger(*i),
            NumericRequest::Arithmetic(op, a, b) => RequestView::Arithmetic(*op, a.bits, b.bits),
        }
    }
}

/// The views of a run of values.
pub open spec fn value_views(values: Seq<Value>) -> Seq<ValueView> {
    Seq::new(values.len(), |i: int| values[i]@)
}

/// The views of a run of named values.
pub open spec fn field_views(fields: Seq<(String, Value)>) -> Seq<(Seq<char>, ValueView)> {
    Seq::new(fields.len(), |i: int| (fields[i].0@, fields[i].1@))
}

pub open spec fn option_view(name: Option<String>) -> Option<Seq<char>> {
    match name {
        Some(s) => Some(s@),
        None => None,
    }
}

impl Value {
    #[verifier::opaque]
    pub open spec fn view(&self) -> ValueView
        decreases self,
    {
        match self {
            Value::Number(n) => ValueView::Number(n.bits),
            Value::Text(s) => ValueView::Text(s@),
            Value::Boolean(b) => ValueView::Boolean(*b),
            Value::Array(items) => ValueView::Array(
                Seq::new(
                    items@.len(),
                    |i: int|
                        if 0 <= i < items@.len() {
                            items@[i].view()
                        } else {
                            ValueView::Nothing
                        },
                ),
            ),
            Value::Instance(name, fields) => ValueView::Instance(
                name@,
                Seq::new(
                    fields@.len(),
                    |i: int|
                        if 0 <= i < fields@.len() {
                            (fields@[i].0@, fields@[i].1.view())
                        } else {
                            (Seq::empty(), ValueView::Nothing)
                        },
                ),
            ),
            Value::Function(name) => ValueView::Function(name@),
            Value::Method(method, binder, items) => ValueView::Method(
                *method,
                option_view(*binder),
                Seq::new(
                    items@.len(),
                    |i: int|
                        if 0 <= i < items@.len() {
                            items@[i].view()
                        } else {
                            ValueView::Nothing
                        },
                ),
            ),
            Value::Nothing => ValueView::Nothing,
        }
    }
}

pub broadcast proof fn lemma_number_view(n: Number)
    ensures
        #[trigger] Value::Number(n).view() == ValueView::Number(n.bits),
{
    reveal(Value::view);
}

pub broadcast proof fn lemma_text_view(s: String)
    ensures
        #[trigger] Value::Text(s).view() == ValueView::Text(s@),
{
    reveal(Value::view);
}

pub broadcast proof fn lemma_boolean_view(b: bool)
    ensures
        #[trigger] Value::Boolean(b).view() == ValueView::Boolean(b),
{
    reveal(Value::view);
}

pub broadcast proof fn lemma_array_value_view(items: Vec<Value>)
    ensures
        #[trigger] Value::Array(items).view() == ValueView::Array(value_views(items@)),
{
    reveal(Value::view);
    assert(Value::Array(items).view()->Array_0 =~= value_views(items@));
}

pub broadcast proof fn lemma_instance_value_view(name: String, fields: Vec<(String, Value)>)
    ensures
        #[trigger] Value::Instance(name, fields).view() == ValueView::Instance(
            name@,
            field_views(fields@),
        ),
{
    reveal(Value::view);
    assert(Value::Instance(name, fields).view()->Instance_1 =~= field_views(fields@));
}

pub broadcast proof fn lemma_function_view(name: String)
    ensures
        #[trigger] Value::Function(name).view() == ValueView::Function(name@),
{
    reveal(Value::view);
}

pub broadcast proof fn lemma_method_view(
    method: ArrayMethod,
    binder: Option<String>,
    items: Vec<Value>,
)
    ensures
        #[trigger] Value::Method(method, binder, items).view() == ValueView::Method(
            method,
            option_view(binder),
            value_views(items@),
        ),
{
    reveal(Value::view);
    assert(Value::Method(method, binder, items).view()->Method_2 =~= value_views(items@));
}

pub broadcast proof fn lemma_nothing_value_view()
    ensures
        #[trigger] Value::Nothing.view() == ValueView::Nothing,
{
    reveal(Value::view);
}

/// A value and its view are of the same variant.
pub proof fn lemma_same_kind(v: Value)
    ensures
        v@ is Number <==> v is Number,
        v@ is Text <==> v is Text,
        v@ is Boolean <==> v is Boolean,
        v@ is Array <==> v is Array,
        v@ is Instance <==> v is Instance,
        v@ is Function <==> v is Function,
        v@ is Method <==> v is Method,
        v@ is Nothing <==> v is Nothing,
{
    reveal(Value::view);
}

pub broadcast proof fn lemma_value_views_push(values: Seq<Value>, v: Value)
    ensures
        #[trigger] value_views(values.push(v)) == value_views(values).push(v@),
{
    assert(value_views(values.push(v)) =~= value_views(values).push(v@));
}

pub broadcast proof fn lemma_field_views_push(fields: Seq<(String, Value)>, f: (String, Value))
    ensures
        #[trigger] field_views(fields.push(f)) == field_views(fields).push((f.0@, f.1@)),
{
    assert(field_views(fields.push(f)) =~= field_views(fields).push((f.0@, f.1@)));
}

pub broadcast proof fn lemma_value_views_empty()
    ensures
        #[trigger] value_views(Seq::<Value>::empty()) == Seq::<ValueView>::empty(),
        #[trigger] field_views(Seq::<(String, Value)>::empty()) == Seq::<
            (Seq<char>, ValueView),
        >::empty(),
{
    assert(value_views(Seq::<Value>::empty()) =~= Seq::<ValueView>::empty());
    assert(field_views(Seq::<(String, Value)>::empty()) =~= Seq::<(Seq<char>, ValueView)>::empty());
}

pub broadcast group group_value_views {
    lemma_number_view,
    lemma_text_view,
    lemma_boolean_view,
    lemma_array_value_view,
    lemma_instance_value_view,
    lemma_function_view,
    lemma_method_view,
    lemma_nothing_value_view,
    lemma_value_views_push,
    lemma_field_views_push,
    lemma_value_views_empty,
}

/// A copy of a run of values.
#[verifier::loop_isolation(false)]
pub fn copy_values(values: &Vec<Value>) -> (copy: Vec<Value>)
    ensures
        value_views(copy@) == value_views(values@),
    decreases values,
{
    broadcast use {group_value_views, vstd::std_specs::vec::axiom_vec_index_decreases};

    let mut copy: Vec<Value> = Vec::new();
    let mut i: usize = 0;
    while i < values.len()
        invariant
            i <= values@.len(),
            value_views(copy@) == value_views(values@.take(i as int)),
        decreases values@.len() - i,
    {
        proof {
            assert(decreases_to!(*values => values[i as int]));
        }
        let v = values[i].duplicate();
        proof {
            assert(values@.take(i + 1) =~= values@.take(i as int).push(values@[i as int]));
            assert(value_views(values@.take(i + 1)) == value_views(values@.take(i as int)).push(
                v@,
            ));
        }
        copy.push(v);
        i += 1;
    }
    proof {
        assert(values@.take(values@.len() as int) =~= values@);
    }
    copy
}

/// A copy of a run of named values.
#[verifier::loop_isolation(false)]
pub fn copy_fields(fields: &Vec<(String, Value)>) -> (copy: Vec<(String, Value)>)
    ensures
        field_views(copy@) == field_views(fields@),
    decreases fields,
{
    broadcast use {group_value_views, vstd::std_specs::vec::axiom_vec_index_decreases};

    let mut copy: Vec<(String, Value)> = Vec::new();
    let mut i: usize = 0;
    while i < fields.len()
        invariant
            i <= fields@.len(),
            field_views(copy@) == field_views(fields@.take(i as int)),
        decreases fields@.len() - i,
    {
        proof {
            assert(decreases_to!(*fields => fields[i as int]));
            assert(decreases_to!(fields[i as int] => fields[i as int].1));
        }
        let f = (fields[i].0.clone(), fields[i].1.duplicate());
        proof {
            assert(fields@.take(i + 1) =~= fields@.take(i as int).push(fields@[i as int]));
            assert(field_views(fields@.take(i + 1)) == field_views(fields@.take(i as int)).push(
                (f.0@, f.1@),
            ));
        }
        copy.push(f);
        i += 1;
    }
    proof {
        assert(fields@.take(fields@.len() as int) =~= fields@);
    }
    copy
}

/// A copy of an optional name.
pub fn copy_option(name: &Option<String>) -> (copy: Option<String>)
    ensures
        option_view(copy) == option_view(*name),
{
    match name {
        Some(s) => Some(s.clone()),
        None => None,
    }
}

impl Value {
    /// A copy of the value.
    pub fn duplicate(&self) -> (copy: Value)
        ensures
            copy@ == self@,
        decreases self,
    {
        broadcast use group_value_views;

        match self {
            Value::Number(n) => Value::Number(*n),
            Value::Text(s) => Value::Text(s.clone()),
            Value::Boolean(b) => Value::Boolean(*b),
            Value::Array(items) => Value::Array(copy_values(items)),
            Value::Instance(name, fields) => Value::Instance(name.clone(), copy_fields(fields)),
            Value::Function(name) => Value::Function(name.clone()),
            Value::Method(method, binder, items) => Value::Method(
                *method,
                copy_option(binder),
                copy_values(items),
            ),
            Value::Nothing => Value::Nothing,
        }
    }
}

impl Clone for Value {
    fn clone(&self) -> (copy: Self)
        ensures
            copy@ == self@,
    {
        self.duplicate()
    }
}

} // verus!
