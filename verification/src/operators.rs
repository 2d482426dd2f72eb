//! The operators on values.
//!
//! An operation on two numbers that takes rounding is not computed here: the
//! result is a question to the host. Everything else is decided here: the
//! kinds that an operator accepts, division by zero, comparison, equality,
//! and the text operations.
use crate::lexer::{chars_of, TokenType};
use crate::number::{
    exact_floor, floor_of, is_integral, is_zero, lemma_floor_at_top, numeric_eq, numeric_lt, Number,
};
use crate::value::{
    group_value_views, lemma_same_kind, value_views, NumericRequest, Operation, RequestView,
    RuntimeError, Value, ValueView,
};
use vstd::prelude::*;

verus! {

/// What an operator gives: a value, or a question whose answer is the value.
#[derive(Debug)]
pub enum Computed {
    Done(Value),
    Ask(NumericRequest),
}

pub enum ComputedView {
    Done(ValueView),
    Ask(RequestView),
}

impl Computed {
    pub open spec fn view(&self) -> ComputedView {
        match self {
            Computed::Done(v) => ComputedView::Done(v@),
            Computed::Ask(q) => ComputedView::Ask(q@),
        }
    }
}

/// Whether `a` comes before `b` from position `i` on, where they agree before
/// it: at the first difference the smaller character decides, and a text
/// comes after each of its proper prefixes.
pub open spec fn text_lt_from(a: Seq<char>, b: Seq<char>, i: int) -> bool
    decreases a.len() - i,
{
    if i < 0 || i >= b.len() {
        false
    } else if i >= a.len() {
        true
    } else if a[i] == b[i] {
        text_lt_from(a, b, i + 1)
    } else {
        a[i] < b[i]
    }
}

/// Lexicographic order of texts.
pub open spec fn text_lt(a: Seq<char>, b: Seq<char>) -> bool {
    text_lt_from(a, b, 0)
}

/// `n` copies of `s` in a row.
pub open spec fn repeat(s: Seq<char>, n: nat) -> Seq<char>
    decreases n,
{
    if n == 0 {
        Seq::empty()
    } else {
        repeat(s, (n - 1) as nat) + s
    }
}

/// Equality of values: of two numbers, two texts or two booleans what their
/// kind says; of two arrays, item by item; of anything else, false.
pub open spec fn loose_eq(l: ValueView, r: ValueView) -> bool
    decreases l,
{
    match l {
        ValueView::Number(a) => r is Number && numeric_eq(a, r->Number_0),
        ValueView::Text(s) => r is Text && s == r->Text_0,
        ValueView::Boolean(b) => r is Boolean && b == r->Boolean_0,
        ValueView::Array(items) => r is Array && items.len() == r->Array_0.len() && forall|
            i: int,
        |
            0 <= i < items.len() ==> loose_eq(#[trigger] items[i], r->Array_0[i]),
        _ => false,
    }
}

/// Whether `l` is less than `r`, for two values of one comparable kind.
pub open spec fn less(l: ValueView, r: ValueView) -> Option<bool> {
    match (l, r) {
        (ValueView::Number(a), ValueView::Number(b)) => Some(numeric_lt(a, b)),
        (ValueView::Text(s), ValueView::Text(t)) => Some(text_lt(s, t)),
        (ValueView::Boolean(a), ValueView::Boolean(b)) => Some(!a && b),
        _ => None,
    }
}

/// `!`: the other boolean.
pub open spec fn negation(v: ValueView) -> Result<ValueView, RuntimeError> {
    match v {
        ValueView::Boolean(b) => Ok(ValueView::Boolean(!b)),
        _ => Err(RuntimeError::WrongOperand),
    }
}

/// Arithmetic on two numbers: a question to the host, unless the divisor of a
/// division or a remainder is zero.
pub open spec fn arithmetic(op: Operation, a: u64, b: u64) -> Result<ComputedView, RuntimeError> {
    if (op == Operation::Divide || op == Operation::Remainder) && is_zero(b) {
        Err(RuntimeError::DivideByZero)
    } else {
        Ok(ComputedView::Ask(RequestView::Arithmetic(op, a, b)))
    }
}

/// Whether the machine can hold a text of `length` characters: an allocation
/// has at most `isize::MAX` bytes, and a character takes at least one.
pub open spec fn holdable(length: int) -> bool {
    length <= isize::MAX
}

/// A text, `count` times over; `count` is a number whose value is a finite
/// integer that is not negative, and the text is written that many times. The
/// only other failure is a result that the machine cannot hold.
pub open spec fn repetition(s: Seq<char>, count: u64) -> Result<ComputedView, RuntimeError> {
    if !is_integral(count) || exact_floor(count) < 0 {
        Err(RuntimeError::WrongOperand)
    } else if !holdable(s.len() * exact_floor(count)) {
        Err(RuntimeError::TooLong)
    } else {
        Ok(ComputedView::Done(ValueView::Text(repeat(s, exact_floor(count) as nat))))
    }
}

/// A text written `n` times is `n` times as long.
pub proof fn lemma_repeat_len(s: Seq<char>, n: nat)
    ensures
        repeat(s, n).len() == n * s.len(),
    decreases n,
{
    let len = s.len() as int;
    if n > 0 {
        lemma_repeat_len(s, (n - 1) as nat);
        assert(repeat(s, n).len() == repeat(s, (n - 1) as nat).len() + len);
        assert(n * len == (n - 1) * len + len) by (nonlinear_arith);
    } else {
        assert(0 * len == 0) by (nonlinear_arith);
    }
}

/// An ordering operator on two values of one comparable kind.
pub open spec fn ordering(op: TokenType, l: ValueView, r: ValueView) -> Result<
    ComputedView,
    RuntimeError,
> {
    if less(l, r) is None {
        Err(RuntimeError::WrongOperand)
    } else {
        let truth = match op {
            TokenType::Lt => less(l, r)->0,
            TokenType::Lte => less(l, r)->0 || loose_eq(l, r),
            TokenType::Gt => less(r, l)->0,
            _ => less(r, l)->0 || loose_eq(l, r),
        };
        Ok(ComputedView::Done(ValueView::Boolean(truth)))
    }
}

/// What a binary operator gives on two values.
pub open spec fn binary(op: TokenType, l: ValueView, r: ValueView) -> Result<
    ComputedView,
    RuntimeError,
> {
    match op {
        TokenType::Plus => match (l, r) {
            (ValueView::Number(a), ValueView::Number(b)) => arithmetic(Operation::Add, a, b),
            (ValueView::Text(s), ValueView::Text(t)) => Ok(
                ComputedView::Done(ValueView::Text(s + t)),
            ),
            _ => Err(RuntimeError::WrongOperand),
        },
        TokenType::Minus => match (l, r) {
            (ValueView::Number(a), ValueView::Number(b)) => arithmetic(Operation::Subtract, a, b),
            _ => Err(RuntimeError::WrongOperand),
        },
        TokenType::Asterisk => match (l, r) {
            (ValueView::Number(a), ValueView::Number(b)) => arithmetic(Operation::Multiply, a, b),
            (ValueView::Text(s), ValueView::Number(n)) => repetition(s, n),
            _ => Err(RuntimeError::WrongOperand),
        },
        TokenType::Slash => match (l, r) {
            (ValueView::Number(a), ValueView::Number(b)) => arithmetic(Operation::Divide, a, b),
            _ => Err(RuntimeError::WrongOperand),
        },
        TokenType::Modulo => match (l, r) {
            (ValueView::Number(a), ValueView::Number(b)) => arithmetic(
                Operation::Remainder,
                a,
                b,
            ),
            _ => Err(RuntimeError::WrongOperand),
        },
        TokenType::Equiv => Ok(ComputedView::Done(ValueView::Boolean(loose_eq(l, r)))),
        TokenType::NotEquiv => Ok(ComputedView::Done(ValueView::Boolean(!loose_eq(l, r)))),
        TokenType::Lt | TokenType::Lte | TokenType::Gt | TokenType::Gte => ordering(op, l, r),
        TokenType::And => match (l, r) {
            (ValueView::Boolean(a), ValueView::Boolean(b)) => Ok(
                ComputedView::Done(ValueView::Boolean(a && b)),
            ),
            _ => Err(RuntimeError::WrongOperand),
        },
        TokenType::Or => match (l, r) {
            (ValueView::Boolean(a), ValueView::Boolean(b)) => Ok(
                ComputedView::Done(ValueView::Boolean(a || b)),
            ),
            _ => Err(RuntimeError::WrongOperand),
        },
        _ => Err(RuntimeError::UnknownOperator),
    }
}

/// Lexicographic order of texts.
pub fn text_less(a: &str, b: &str) -> (r: bool)
    ensures
        r == text_lt(a@, b@),
{
    let x = chars_of(a);
    let y = chars_of(b);
    let mut i: usize = 0;
    while i < x.len() && i < y.len() && x[i] == y[i]
        invariant
            i <= x@.len(),
            i <= y@.len(),
            text_lt_from(x@, y@, 0) == text_lt_from(x@, y@, i as int),
        decreases x@.len() - i,
    {
        i += 1;
    }
    if i >= y.len() {
        false
    } else if i >= x.len() {
        true
    } else {
        x[i] < y[i]
    }
}

/// `count` copies of `s` in a row.
pub fn repeat_text(s: &str, count: usize) -> (r: String)
    ensures
        r@ == repeat(s@, count as nat),
{
    let mut out = String::new();
    let mut i: usize = 0;
    while i < count
        invariant
            i <= count,
            out@ == repeat(s@, i as nat),
        decreases count - i,
    {
        out.append(s);
        i += 1;
    }
    out
}

impl Value {
    /// Equality of values.
    #[verifier::loop_isolation(false)]
    pub fn loosely_equals(&self, other: &Value) -> (r: bool)
        ensures
            r == loose_eq(self@, other@),
        decreases self,
    {
        broadcast use {group_value_views, vstd::std_specs::vec::axiom_vec_index_decreases};

        proof {
            lemma_same_kind(*self);
            lemma_same_kind(*other);
        }
        match self {
            Value::Number(a) => match other {
                Value::Number(b) => a.equals(b),
                _ => false,
            },
            Value::Text(s) => match other {
                Value::Text(t) => *s == *t,
                _ => false,
            },
            Value::Boolean(a) => match other {
                Value::Boolean(b) => {
                    proof {
                        crate::value::lemma_boolean_view(*a);
                        crate::value::lemma_boolean_view(*b);
                    }
                    if *a {
                        *b
                    } else {
                        !*b
                    }
                },
                _ => false,
            },
            Value::Array(items) => match other {
                Value::Array(others) => {
                    if items.len() != others.len() {
                        return false;
                    }
                    let mut i: usize = 0;
                    while i < items.len()
                        invariant
                            i <= items@.len(),
                            items@.len() == others@.len(),
                            forall|j: int|
                                0 <= j < i ==> loose_eq(
                                    #[trigger] value_views(items@)[j],
                                    value_views(others@)[j],
                                ),
                        decreases items@.len() - i,
                    {
                        proof {
                            assert(decreases_to!(*items => items[i as int]));
                        }
                        if !items[i].loosely_equals(&others[i]) {
                            assert(!loose_eq(
                                value_views(items@)[i as int],
                                value_views(others@)[i as int],
                            ));
                            return false;
                        }
                        i += 1;
                    }
                    true
                },
                _ => false,
            },
            _ => false,
        }
    }

    /// `!`
    pub fn not(self) -> (r: Result<Value, RuntimeError>)
        ensures
            match negation(self@) {
                Ok(v) => r is Ok && r->Ok_0@ == v,
                Err(e) => r == Err::<Value, RuntimeError>(e),
            },
    {
        broadcast use group_value_views;

        proof {
            lemma_same_kind(self);
        }
        match self {
            Value::Boolean(b) => Ok(Value::Boolean(!b)),
            _ => Err(RuntimeError::WrongOperand),
        }
    }
}

/// The outcome `r` is the one that `expected` describes.
pub open spec fn computes(r: Result<Computed, RuntimeError>, expected: Result<ComputedView, RuntimeError>) -> bool {
    match expected {
        Ok(c) => r is Ok && r->Ok_0@ == c,
        Err(e) => r == Err::<Computed, RuntimeError>(e),
    }
}

/// Arithmetic on two numbers.
fn compute(op: Operation, a: Number, b: Number) -> (r: Result<Computed, RuntimeError>)
    ensures
        computes(r, arithmetic(op, a.bits, b.bits)),
{
    let divides = match op {
        Operation::Divide => true,
        Operation::Remainder => true,
        _ => false,
    };
    if divides && b.is_zero() {
        Err(RuntimeError::DivideByZero)
    } else {
        Ok(Computed::Ask(NumericRequest::Arithmetic(op, a, b)))
    }
}

/// A text, `count` times over.
fn repeated(s: &String, count: Number) -> (r: Result<Computed, RuntimeError>)
    ensures
        computes(r, repetition(s@, count.bits)),
{
    broadcast use group_value_views;

    if !count.is_integral() {
        return Err(RuntimeError::WrongOperand);
    }
    let times = count.floor();
    if times < 0 {
        return Err(RuntimeError::WrongOperand);
    }
    proof {
        lemma_floor_at_top(count.bits);
    }
    let length = s.as_str().unicode_len();
    if length == 0 {
        proof {
            lemma_repeat_empty(s@, exact_floor(count.bits) as nat);
            assert(s@.len() * exact_floor(count.bits) == 0) by (nonlinear_arith)
                requires
                    s@.len() == 0,
            ;
        }
        return Ok(Computed::Done(Value::Text(String::new())));
    }
    let wide: u128 = length as u128;
    let many: u128 = times as u128;
    assert(wide * many <= 0xffff_ffff_ffff_ffff * 0x7fff_ffff_ffff_ffff) by (nonlinear_arith)
        requires
            0 <= wide <= 0xffff_ffff_ffff_ffff,
            0 <= many <= 0x7fff_ffff_ffff_ffff,
    ;
    if times == i64::MAX || wide * many > isize::MAX as u128 {
        proof {
            let exact = exact_floor(count.bits);
            if times == i64::MAX {
                assert(s@.len() * exact > isize::MAX) by (nonlinear_arith)
                    requires
                        s@.len() >= 1,
                        exact > 0x7fff_ffff_ffff_ffff,
                        isize::MAX <= 0x7fff_ffff_ffff_ffff,
                ;
            }
        }
        return Err(RuntimeError::TooLong);
    }
    assert(many <= wide * many) by (nonlinear_arith)
        requires
            wide >= 1,
            many >= 0,
    ;
    Ok(Computed::Done(Value::Text(repeat_text(s.as_str(), times as usize))))
}

/// Copies of the empty text make the empty text.
pub proof fn lemma_repeat_empty(s: Seq<char>, n: nat)
    requires
        s.len() == 0,
    ensures
        repeat(s, n) =~= Seq::<char>::empty(),
    decreases n,
{
    if n > 0 {
        lemma_repeat_empty(s, (n - 1) as nat);
    }
}

/// Whether `l` is less than `r`.
fn is_less(l: &Value, r: &Value) -> (b: Option<bool>)
    ensures
        b == less(l@, r@),
{
    broadcast use group_value_views;

    proof {
        lemma_same_kind(*l);
        lemma_same_kind(*r);
    }
    match l {
        Value::Number(a) => match r {
            Value::Number(b) => Some(a.less_than(b)),
            _ => None,
        },
        Value::Text(s) => match r {
            Value::Text(t) => Some(text_less(s.as_str(), t.as_str())),
            _ => None,
        },
        Value::Boolean(a) => match r {
            Value::Boolean(b) => Some(!*a && *b),
            _ => None,
        },
        _ => None,
    }
}

/// An ordering operator.
fn ordered(op: TokenType, l: &Value, r: &Value) -> (out: Result<Computed, RuntimeError>)
    requires
        op == TokenType::Lt || op == TokenType::Lte || op == TokenType::Gt || op == TokenType::Gte,
    ensures
        computes(out, ordering(op, l@, r@)),
{
    broadcast use group_value_views;

    proof {
        lemma_same_kind(*l);
        lemma_same_kind(*r);
    }
    match is_less(l, r) {
        None => Err(RuntimeError::WrongOperand),
        Some(below) => {
            let truth = match op {
                TokenType::Lt => below,
                TokenType::Lte => below || l.loosely_equals(r),
                TokenType::Gt => match is_less(r, l) {
                    Some(above) => above,
                    None => false,
                },
                _ => match is_less(r, l) {
                    Some(above) => above || l.loosely_equals(r),
                    None => false,
                },
            };
            Ok(Computed::Done(Value::Boolean(truth)))
        },
    }
}

/// A logical operator: `both` for `&&`, else `||`.
fn logical(both: bool, l: &Value, r: &Value) -> (out: Result<Computed, RuntimeError>)
    ensures
        computes(out, binary(if both { TokenType::And } else { TokenType::Or }, l@, r@)),
{
    broadcast use group_value_views;

    proof {
        lemma_same_kind(*l);
        lemma_same_kind(*r);
    }
    match l {
        Value::Boolean(a) => match r {
            Value::Boolean(b) => Ok(
                Computed::Done(Value::Boolean(if both { *a && *b } else { *a || *b })),
            ),
            _ => Err(RuntimeError::WrongOperand),
        },
        _ => Err(RuntimeError::WrongOperand),
    }
}

/// `+`, `-`, `*`, `/` or `%`.
fn arithmetical(op: TokenType, l: &Value, r: &Value) -> (out: Result<Computed, RuntimeError>)
    requires
        op == TokenType::Plus || op == TokenType::Minus || op == TokenType::Asterisk || op
            == TokenType::Slash || op == TokenType::Modulo,
    ensures
        computes(out, binary(op, l@, r@)),
{
    broadcast use group_value_views;

    proof {
        lemma_same_kind(*l);
        lemma_same_kind(*r);
    }
    let operation = match op {
        TokenType::Plus => Operation::Add,
        TokenType::Minus => Operation::Subtract,
        TokenType::Asterisk => Operation::Multiply,
        TokenType::Slash => Operation::Divide,
        _ => Operation::Remainder,
    };
    match l {
        Value::Number(a) => match r {
            Value::Number(b) => compute(operation, *a, *b),
            _ => Err(RuntimeError::WrongOperand),
        },
        Value::Text(s) => match r {
            Value::Text(t) => {
                if op == TokenType::Plus {
                    Ok(Computed::Done(Value::Text(s.clone().concat(t.as_str()))))
                } else {
                    Err(RuntimeError::WrongOperand)
                }
            },
            Value::Number(n) => {
                if op == TokenType::Asterisk {
                    repeated(s, *n)
                } else {
                    Err(RuntimeError::WrongOperand)
                }
            },
            _ => Err(RuntimeError::WrongOperand),
        },
        _ => Err(RuntimeError::WrongOperand),
    }
}

/// Applies a binary operator to two values.
pub fn apply(op: TokenType, l: &Value, r: &Value) -> (out: Result<Computed, RuntimeError>)
    ensures
        computes(out, binary(op, l@, r@)),
{
    broadcast use group_value_views;

    match op {
        TokenType::Plus | TokenType::Minus | TokenType::Asterisk | TokenType::Slash
        | TokenType::Modulo => arithmetical(op, l, r),
        TokenType::Equiv => Ok(Computed::Done(Value::Boolean(l.loosely_equals(r)))),
        TokenType::NotEquiv => Ok(Computed::Done(Value::Boolean(!l.loosely_equals(r)))),
        TokenType::Lt | TokenType::Lte | TokenType::Gt | TokenType::Gte => ordered(op, l, r),
        TokenType::And => logical(true, l, r),
        TokenType::Or => logical(false, l, r),
        _ => Err(RuntimeError::UnknownOperator),
    }
}

} // verus!
