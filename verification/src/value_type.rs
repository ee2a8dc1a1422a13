//! The dynamically-typed scalar value and its coercing arithmetic and
//! comparison operators, each an explicit binary-dispatch function that
//! returns a result or an error.

use vstd::arithmetic::div_mod::{
    lemma_div_is_ordered_by_denominator, lemma_div_nonincreasing, lemma_div_pos_is_pos,
};
use vstd::prelude::*;

use crate::numerals::{i32_literal_value, is_i32_literal};
use crate::text::str_to_chars;

verus! {

/// A runtime value: text, a 32-bit signed number, or a boolean.
#[derive(Debug)]
pub enum ValueType {
    Text(String),
    Number(i32),
    Bool(bool),
}

/// The mathematical image of a [`ValueType`].
pub enum ValueV {
    Text(Seq<char>),
    Number(i32),
    Bool(bool),
}

impl View for ValueType {
    type V = ValueV;

    open spec fn view(&self) -> ValueV {
        match self {
            ValueType::Text(s) => ValueV::Text(s@),
            ValueType::Number(n) => ValueV::Number(*n),
            ValueType::Bool(b) => ValueV::Bool(*b),
        }
    }
}

impl Clone for ValueType {
    fn clone(&self) -> (r: ValueType)
        ensures
            r@ == self@,
    {
        match self {
            ValueType::Text(s) => ValueType::Text(s.clone()),
            ValueType::Number(n) => ValueType::Number(*n),
            ValueType::Bool(b) => ValueType::Bool(*b),
        }
    }
}

/// An error raised while parsing or evaluating an expression.
#[derive(Debug)]
pub enum EvalError {
    /// A parenthesis without a match in the expression.
    MismatchedParenthesis,
    /// A token that cannot appear inside an expression, at this source column.
    UnexpectedToken { column: u32 },
    /// A variable read that has no binding; carries the variable's name.
    UndefinedVariable { name: String },
    /// An operator reached with too few operands on the value stack.
    MissingOperand,
    /// Evaluation did not leave exactly one value on the stack.
    MalformedExpression,
    /// Incompatible operands of a binary operator; carries both values.
    TypeError { left: ValueType, right: ValueType },
    /// An incompatible operand of a unary operator; carries the value.
    UnaryTypeError { operand: ValueType },
    /// Division by a zero-valued number.
    DivisionByZero,
}

/// The mathematical image of an [`EvalError`].
pub enum EvalErrorV {
    MismatchedParenthesis,
    UnexpectedToken { column: u32 },
    UndefinedVariable { name: Seq<char> },
    MissingOperand,
    MalformedExpression,
    TypeError { left: ValueV, right: ValueV },
    UnaryTypeError { operand: ValueV },
    DivisionByZero,
}

impl View for EvalError {
    type V = EvalErrorV;

    open spec fn view(&self) -> EvalErrorV {
        match self {
            EvalError::MismatchedParenthesis => EvalErrorV::MismatchedParenthesis,
            EvalError::UnexpectedToken { column } => EvalErrorV::UnexpectedToken {
                column: *column,
            },
            EvalError::UndefinedVariable { name } => EvalErrorV::UndefinedVariable { name: name@ },
            EvalError::MissingOperand => EvalErrorV::MissingOperand,
            EvalError::MalformedExpression => EvalErrorV::MalformedExpression,
            EvalError::TypeError { left, right } => EvalErrorV::TypeError {
                left: left@,
                right: right@,
            },
            EvalError::UnaryTypeError { operand } => EvalErrorV::UnaryTypeError {
                operand: operand@,
            },
            EvalError::DivisionByZero => EvalErrorV::DivisionByZero,
        }
    }
}

/// The view of a value-or-error result.
pub open spec fn value_result_view(r: Result<ValueType, EvalError>) -> Result<ValueV, EvalErrorV> {
    match r {
        Ok(v) => Ok(v@),
        Err(e) => Err(e@),
    }
}

/// The view of a boolean-or-error result.
pub open spec fn bool_result_view(r: Result<bool, EvalError>) -> Result<bool, EvalErrorV> {
    match r {
        Ok(b) => Ok(b),
        Err(e) => Err(e@),
    }
}

/// The numeric reading of a value: a number is itself; text is read as a
/// signed 32-bit literal when it is one; a boolean never reads as a number.
pub open spec fn coerced_number(v: ValueV) -> Option<i32> {
    match v {
        ValueV::Number(n) => Some(n),
        ValueV::Text(s) => if is_i32_literal(s) {
            Some(i32_literal_value(s))
        } else {
            None
        },
        ValueV::Bool(_) => None,
    }
}

/// Truncating (toward zero) integer division, divisor nonzero.
pub open spec fn div_trunc(x: int, d: int) -> int {
    if x == 0 {
        0
    } else if x > 0 && d > 0 {
        x / d
    } else if x < 0 && d < 0 {
        ((x * -1) / (d * -1))
    } else if x < 0 {
        ((x * -1) / d) * -1
    } else {
        (x / (d * -1)) * -1
    }
}

/// Fixed-width division: truncating division, wrapping on the one overflowing
/// quotient.
pub open spec fn wrap_div_i32(x: i32, y: i32) -> i32 {
    if x == i32::MIN && y == -1 {
        i32::MIN
    } else {
        div_trunc(x as int, y as int) as i32
    }
}

/// Except on the one overflowing quotient, a truncating 32-bit quotient stays
/// within the 32-bit range.
proof fn lemma_div_trunc_range(x: i32, y: i32)
    requires
        y != 0,
        !(x == i32::MIN && y == -1),
    ensures
        i32::MIN <= div_trunc(x as int, y as int) <= i32::MAX,
{
    let xi = x as int;
    let yi = y as int;
    if xi == 0 {
    } else if xi > 0 && yi > 0 {
        lemma_div_pos_is_pos(xi, yi);
        lemma_div_nonincreasing(xi, yi);
    } else if xi < 0 && yi < 0 {
        lemma_div_pos_is_pos(xi * -1, yi * -1);
        lemma_div_nonincreasing(xi * -1, yi * -1);
        if xi == i32::MIN {
            lemma_div_is_ordered_by_denominator(xi * -1, 2, yi * -1);
            assert((xi * -1) / 2 == 0x4000_0000int);
        }
    } else if xi < 0 {
        lemma_div_pos_is_pos(xi * -1, yi);
        lemma_div_nonincreasing(xi * -1, yi);
    } else {
        lemma_div_pos_is_pos(xi, yi * -1);
        lemma_div_nonincreasing(xi, yi * -1);
    }
}

/// Addition: numbers add with fixed-width wrapping; text concatenates with
/// text; a text/number mix reads the text as a number; anything else is a
/// type error carrying both operands.
pub open spec fn spec_add(a: ValueV, b: ValueV) -> Result<ValueV, EvalErrorV> {
    match (a, b) {
        (ValueV::Text(x), ValueV::Text(y)) => Ok(ValueV::Text(x + y)),
        _ => match (coerced_number(a), coerced_number(b)) {
            (Some(x), Some(y)) => Ok(ValueV::Number(vstd::wrapping::i32_specs::wrapping_add(x, y))),
            _ => Err(EvalErrorV::TypeError { left: a, right: b }),
        },
    }
}

/// Subtraction over coerced numbers, fixed-width wrapping; text beside text
/// is never coerced.
pub open spec fn spec_sub(a: ValueV, b: ValueV) -> Result<ValueV, EvalErrorV> {
    match (a, b) {
        (ValueV::Text(_), ValueV::Text(_)) => Err(EvalErrorV::TypeError { left: a, right: b }),
        _ => match (coerced_number(a), coerced_number(b)) {
            (Some(x), Some(y)) => Ok(ValueV::Number(vstd::wrapping::i32_specs::wrapping_sub(x, y))),
            _ => Err(EvalErrorV::TypeError { left: a, right: b }),
        },
    }
}

/// Multiplication over coerced numbers, fixed-width wrapping; text beside
/// text is never coerced.
pub open spec fn spec_mul(a: ValueV, b: ValueV) -> Result<ValueV, EvalErrorV> {
    match (a, b) {
        (ValueV::Text(_), ValueV::Text(_)) => Err(EvalErrorV::TypeError { left: a, right: b }),
        _ => match (coerced_number(a), coerced_number(b)) {
            (Some(x), Some(y)) => Ok(ValueV::Number(vstd::wrapping::i32_specs::wrapping_mul(x, y))),
            _ => Err(EvalErrorV::TypeError { left: a, right: b }),
        },
    }
}

/// Division over coerced numbers: truncates toward zero, fails on a
/// zero-valued divisor.
pub open spec fn spec_div(a: ValueV, b: ValueV) -> Result<ValueV, EvalErrorV> {
    match (a, b) {
        (ValueV::Text(_), ValueV::Text(_)) => Err(EvalErrorV::TypeError { left: a, right: b }),
        _ => match (coerced_number(a), coerced_number(b)) {
            (Some(x), Some(y)) => if y == 0 {
                Err(EvalErrorV::DivisionByZero)
            } else {
                Ok(ValueV::Number(wrap_div_i32(x, y)))
            },
            _ => Err(EvalErrorV::TypeError { left: a, right: b }),
        },
    }
}

/// Logical not: defined on booleans only.
pub open spec fn spec_not(v: ValueV) -> Result<ValueV, EvalErrorV> {
    match v {
        ValueV::Bool(b) => Ok(ValueV::Bool(!b)),
        _ => Err(EvalErrorV::UnaryTypeError { operand: v }),
    }
}

/// Numeric negation: defined on numbers only, fixed-width wrapping.
pub open spec fn spec_neg(v: ValueV) -> Result<ValueV, EvalErrorV> {
    match v {
        ValueV::Number(n) => Ok(ValueV::Number(vstd::wrapping::i32_specs::wrapping_sub(0, n))),
        _ => Err(EvalErrorV::UnaryTypeError { operand: v }),
    }
}

/// Equality: same-kind values compare directly; a text/number mix reads the
/// text as a number, and unreadable text is a type error carrying both
/// operands; a boolean beside a non-boolean is simply unequal.
pub open spec fn spec_eq(a: ValueV, b: ValueV) -> Result<bool, EvalErrorV> {
    match (a, b) {
        (ValueV::Text(x), ValueV::Text(y)) => Ok(x == y),
        (ValueV::Number(x), ValueV::Number(y)) => Ok(x == y),
        (ValueV::Bool(x), ValueV::Bool(y)) => Ok(x == y),
        (ValueV::Number(x), ValueV::Text(y)) => if is_i32_literal(y) {
            Ok(x == i32_literal_value(y))
        } else {
            Err(EvalErrorV::TypeError { left: a, right: b })
        },
        (ValueV::Text(x), ValueV::Number(y)) => if is_i32_literal(x) {
            Ok(i32_literal_value(x) == y)
        } else {
            Err(EvalErrorV::TypeError { left: a, right: b })
        },
        _ => Ok(false),
    }
}

/// Inequality, the mirror of [`spec_eq`]: a boolean beside a non-boolean is
/// neither equal nor unequal.
pub open spec fn spec_ne(a: ValueV, b: ValueV) -> Result<bool, EvalErrorV> {
    match (a, b) {
        (ValueV::Text(x), ValueV::Text(y)) => Ok(x != y),
        (ValueV::Number(x), ValueV::Number(y)) => Ok(x != y),
        (ValueV::Bool(x), ValueV::Bool(y)) => Ok(x != y),
        (ValueV::Number(x), ValueV::Text(y)) => if is_i32_literal(y) {
            Ok(x != i32_literal_value(y))
        } else {
            Err(EvalErrorV::TypeError { left: a, right: b })
        },
        (ValueV::Text(x), ValueV::Number(y)) => if is_i32_literal(x) {
            Ok(i32_literal_value(x) != y)
        } else {
            Err(EvalErrorV::TypeError { left: a, right: b })
        },
        _ => Ok(false),
    }
}

/// Ordering comparisons hold only between numbers, possibly read from text;
/// every other pairing is simply false.
pub open spec fn spec_gt(a: ValueV, b: ValueV) -> Result<bool, EvalErrorV> {
    match (a, b) {
        (ValueV::Number(x), ValueV::Number(y)) => Ok(x > y),
        (ValueV::Number(x), ValueV::Text(y)) => if is_i32_literal(y) {
            Ok(x > i32_literal_value(y))
        } else {
            Err(EvalErrorV::TypeError { left: a, right: b })
        },
        (ValueV::Text(x), ValueV::Number(y)) => if is_i32_literal(x) {
            Ok(i32_literal_value(x) > y)
        } else {
            Err(EvalErrorV::TypeError { left: a, right: b })
        },
        _ => Ok(false),
    }
}

pub open spec fn spec_ge(a: ValueV, b: ValueV) -> Result<bool, EvalErrorV> {
    match (a, b) {
        (ValueV::Number(x), ValueV::Number(y)) => Ok(x >= y),
        (ValueV::Number(x), ValueV::Text(y)) => if is_i32_literal(y) {
            Ok(x >= i32_literal_value(y))
        } else {
            Err(EvalErrorV::TypeError { left: a, right: b })
        },
        (ValueV::Text(x), ValueV::Number(y)) => if is_i32_literal(x) {
            Ok(i32_literal_value(x) >= y)
        } else {
            Err(EvalErrorV::TypeError { left: a, right: b })
        },
        _ => Ok(false),
    }
}

pub open spec fn spec_lt(a: ValueV, b: ValueV) -> Result<bool, EvalErrorV> {
    match (a, b) {
        (ValueV::Number(x), ValueV::Number(y)) => Ok(x < y),
        (ValueV::Number(x), ValueV::Text(y)) => if is_i32_literal(y) {
            Ok(x < i32_literal_value(y))
        } else {
            Err(EvalErrorV::TypeError { left: a, right: b })
        },
        (ValueV::Text(x), ValueV::Number(y)) => if is_i32_literal(x) {
            Ok(i32_literal_value(x) < y)
        } else {
            Err(EvalErrorV::TypeError { left: a, right: b })
        },
        _ => Ok(false),
    }
}

pub open spec fn spec_le(a: ValueV, b: ValueV) -> Result<bool, EvalErrorV> {
    match (a, b) {
        (ValueV::Number(x), ValueV::Number(y)) => Ok(x <= y),
        (ValueV::Number(x), ValueV::Text(y)) => if is_i32_literal(y) {
            Ok(x <= i32_literal_value(y))
        } else {
            Err(EvalErrorV::TypeError { left: a, right: b })
        },
        (ValueV::Text(x), ValueV::Number(y)) => if is_i32_literal(x) {
            Ok(i32_literal_value(x) <= y)
        } else {
            Err(EvalErrorV::TypeError { left: a, right: b })
        },
        _ => Ok(false),
    }
}

/// Cross-type numeric equality is symmetric: swapping the operands never
/// changes whether the comparison succeeds, nor (on success) its result.
pub proof fn lemma_eq_coercion_symmetric(a: ValueV, b: ValueV)
    ensures
        spec_eq(a, b) is Ok <==> spec_eq(b, a) is Ok,
        spec_eq(a, b) matches Ok(x) ==> spec_eq(b, a) == Ok::<bool, EvalErrorV>(x),
{
}

/// The mapping a sequence of bindings denotes: later bindings win.
pub open spec fn entries_map(s: Seq<(String, ValueType)>) -> Map<Seq<char>, ValueV>
    decreases s.len(),
{
    if s.len() == 0 {
        Map::empty()
    } else {
        entries_map(s.drop_last()).insert(s.last().0@, s.last().1@)
    }
}

/// No two bindings share a name.
pub open spec fn entries_unique(s: Seq<(String, ValueType)>) -> bool {
    forall|i: int, j: int| 0 <= i < j < s.len() ==> (#[trigger] s[i]).0@ != (#[trigger] s[j]).0@
}

proof fn lemma_entries_map_contains(s: Seq<(String, ValueType)>, k: Seq<char>)
    ensures
        entries_map(s).dom().contains(k) <==> exists|i: int| 0 <= i < s.len() && (#[trigger] s[i]).0@
            == k,
    decreases s.len(),
{
    if s.len() > 0 {
        lemma_entries_map_contains(s.drop_last(), k);
        if s.last().0@ == k {
            assert(s[s.len() - 1].0@ == k);
        } else if entries_map(s).dom().contains(k) {
            let i = choose|i: int| 0 <= i < s.len() - 1 && (#[trigger] s.drop_last()[i]).0@ == k;
            assert(s[i].0@ == k);
        } else {
            assert(forall|i: int| 0 <= i < s.len() - 1 ==> (#[trigger] s[i]).0@ == s.drop_last()[i].0@);
        }
    }
}

proof fn lemma_entries_map_at(s: Seq<(String, ValueType)>, i: int)
    requires
        entries_unique(s),
        0 <= i < s.len(),
    ensures
        entries_map(s).dom().contains(s[i].0@),
        entries_map(s)[s[i].0@] == s[i].1@,
    decreases s.len(),
{
    lemma_entries_map_contains(s, s[i].0@);
    if i < s.len() - 1 {
        assert(s[i].0@ != s.last().0@);
        assert(entries_unique(s.drop_last()));
        assert(s.drop_last()[i] == s[i]);
        lemma_entries_map_at(s.drop_last(), i);
    }
}

/// The variable store: a mapping from identifier to value, unscoped,
/// last-write-wins, created empty at the start of a run.
#[derive(Debug)]
pub struct VariableStore {
    entries: Vec<(String, ValueType)>,
}

impl View for VariableStore {
    type V = Map<Seq<char>, ValueV>;

    closed spec fn view(&self) -> Map<Seq<char>, ValueV> {
        entries_map(self.entries@)
    }
}

impl VariableStore {
    /// The store never holds two bindings of one name.
    pub closed spec fn wf(&self) -> bool {
        entries_unique(self.entries@)
    }

    /// The empty store.
    pub fn new() -> (r: VariableStore)
        ensures
            r.wf(),
            r@ == Map::<Seq<char>, ValueV>::empty(),
    {
        VariableStore { entries: Vec::new() }
    }

    /// Finds the index of a binding, if any.
    fn find(&self, name: &str) -> (r: Option<usize>)
        requires
            self.wf(),
        ensures
            match r {
                Some(i) => i < self.entries@.len() && self.entries@[i as int].0@ == name@,
                None => forall|i: int|
                    0 <= i < self.entries@.len() ==> (#[trigger] self.entries@[i]).0@ != name@,
            },
    {
        let n = self.entries.len();
        let mut i: usize = 0;
        while i < n
            invariant
                i <= n,
                n == self.entries@.len(),
                forall|j: int| 0 <= j < i ==> (#[trigger] self.entries@[j]).0@ != name@,
            decreases n - i,
        {
            if crate::token::str_eq(self.entries[i].0.as_str(), name) {
                return Some(i);
            }
            i += 1;
        }
        None
    }

    /// Looks a variable up, yielding a copy of its value.
    pub fn get(&self, name: &str) -> (r: Option<ValueType>)
        requires
            self.wf(),
        ensures
            match r {
                Some(v) => self@.dom().contains(name@) && v@ == self@[name@],
                None => !self@.dom().contains(name@),
            },
    {
        proof {
            lemma_entries_map_contains(self.entries@, name@);
        }
        match self.find(name) {
            Some(i) => {
                proof {
                    lemma_entries_map_at(self.entries@, i as int);
                }
                Some(self.entries[i].1.clone())
            },
            None => None,
        }
    }

    /// Binds a variable, overwriting any prior binding of the name.
    pub fn set(&mut self, name: &str, value: ValueType)
        requires
            old(self).wf(),
        ensures
            final(self).wf(),
            final(self)@ == old(self)@.insert(name@, value@),
    {
        let ghost s0 = self.entries@;
        let ghost v = value@;
        match self.find(name) {
            Some(i) => {
                let _ = self.entries.remove(i);
                proof {
                    lemma_entries_unique_remove(s0, i as int);
                    lemma_entries_map_remove_insert(s0, i as int, name@, v);
                }
            },
            None => {},
        }
        let ghost s1 = self.entries@;
        self.entries.push((name.to_owned(), value));
        proof {
            let s2 = self.entries@;
            assert(s2.drop_last() =~= s1);
            assert(s2.last().0@ == name@ && s2.last().1@ == v);
            assert(entries_map(s2) == entries_map(s1).insert(name@, v));
            // no surviving binding carries the name, so the result is unique
            assert(forall|j: int| 0 <= j < s1.len() ==> (#[trigger] s1[j]).0@ != name@);
            assert forall|a: int, b: int| 0 <= a < b < s2.len() implies (#[trigger] s2[a]).0@ != (
            #[trigger] s2[b]).0@ by {
                if b == s2.len() - 1 {
                    assert(s2[a] == s1[a]);
                } else {
                    assert(s2[a] == s1[a] && s2[b] == s1[b]);
                }
            }
        }
    }
}

proof fn lemma_entries_unique_remove(s: Seq<(String, ValueType)>, i: int)
    requires
        entries_unique(s),
        0 <= i < s.len(),
    ensures
        entries_unique(s.remove(i)),
        forall|j: int|
            0 <= j < s.remove(i).len() ==> (#[trigger] s.remove(i)[j]).0@ != s[i].0@,
{
    let t = s.remove(i);
    assert forall|a: int, b: int| 0 <= a < b < t.len() implies (#[trigger] t[a]).0@ != (
    #[trigger] t[b]).0@ by {
        let a0 = if a < i {
            a
        } else {
            a + 1
        };
        let b0 = if b < i {
            b
        } else {
            b + 1
        };
        assert(t[a] == s[a0] && t[b] == s[b0]);
    }
    assert forall|j: int| 0 <= j < t.len() implies (#[trigger] t[j]).0@ != s[i].0@ by {
        let j0 = if j < i {
            j
        } else {
            j + 1
        };
        assert(t[j] == s[j0]);
    }
}

/// Dropping the one binding of a name does not change the map that results
/// from binding that name again.
proof fn lemma_entries_map_remove_insert(s0: Seq<(String, ValueType)>, i: int, k: Seq<char>, v: ValueV)
    requires
        entries_unique(s0),
        0 <= i < s0.len(),
        s0[i].0@ == k,
    ensures
        entries_map(s0.remove(i)).insert(k, v) == entries_map(s0).insert(k, v),
{
    let s1 = s0.remove(i);
    lemma_entries_unique_remove(s0, i);
    let m0 = entries_map(s0).insert(k, v);
    let m1 = entries_map(s1).insert(k, v);
    assert forall|q: Seq<char>| m1.dom().contains(q) implies m0.dom().contains(q) by {
        if q != k {
            lemma_entries_map_contains(s1, q);
            let j = choose|j: int| 0 <= j < s1.len() && (#[trigger] s1[j]).0@ == q;
            let j0 = if j < i {
                j
            } else {
                j + 1
            };
            assert(s0[j0] == s1[j]);
            lemma_entries_map_contains(s0, q);
        }
    }
    assert forall|q: Seq<char>| m0.dom().contains(q) implies m1.dom().contains(q) by {
        if q != k {
            lemma_entries_map_contains(s0, q);
            let j0 = choose|j0: int| 0 <= j0 < s0.len() && (#[trigger] s0[j0]).0@ == q;
            assert(j0 != i);
            let j = if j0 < i {
                j0
            } else {
                j0 - 1
            };
            assert(s1[j] == s0[j0]);
            lemma_entries_map_contains(s1, q);
        }
    }
    assert forall|q: Seq<char>| m0.dom().contains(q) && q != k implies m1[q] == m0[q] by {
        lemma_entries_map_contains(s0, q);
        let j0 = choose|j0: int| 0 <= j0 < s0.len() && (#[trigger] s0[j0]).0@ == q;
        assert(j0 != i);
        let j = if j0 < i {
            j0
        } else {
            j0 - 1
        };
        assert(s1[j] == s0[j0]);
        lemma_entries_map_at(s0, j0);
        lemma_entries_map_at(s1, j);
    }
    assert(m1 =~= m0);
}

/// The textual form of a value, as PRINT writes it: text verbatim, a number
/// in decimal, a boolean as `true` or `false`.
pub open spec fn value_text(v: ValueV) -> Seq<char> {
    match v {
        ValueV::Text(s) => s,
        ValueV::Number(n) => crate::numerals::i32_dec_repr(n as int),
        ValueV::Bool(b) => crate::text::bool_text(b),
    }
}

impl ValueType {
    /// The textual form of this value, as PRINT writes it.
    pub fn to_text(&self) -> (r: String)
        ensures
            r@ == value_text(self@),
    {
        match self {
            ValueType::Text(s) => s.clone(),
            ValueType::Number(n) => {
                let chars = crate::numerals::i32_to_chars(*n);
                crate::text::chars_to_string(&chars)
            },
            ValueType::Bool(b) => crate::text::bool_to_string(*b),
        }
    }

    /// Reads this value as a number per the coercion rule, shared by the
    /// arithmetic and comparison operators.
    fn as_number(&self) -> (r: Option<i32>)
        ensures
            r == coerced_number(self@),
    {
        match self {
            ValueType::Number(n) => Some(*n),
            ValueType::Text(s) => {
                let chars = str_to_chars(s.as_str());
                crate::numerals::parse_i32_chars(chars.as_slice())
            },
            ValueType::Bool(_) => None,
        }
    }

    /// Addition per the coercion rule; text concatenation is the only
    /// text-with-text arithmetic operation.
    pub fn add(&self, other: &ValueType) -> (r: Result<ValueType, EvalError>)
        ensures
            value_result_view(r) == spec_add(self@, other@),
    {
        match (self, other) {
            (ValueType::Text(x), ValueType::Text(y)) => Ok(
                ValueType::Text(x.clone().concat(y.as_str())),
            ),
            _ => match (self.as_number(), other.as_number()) {
                (Some(x), Some(y)) => Ok(ValueType::Number(x.wrapping_add(y))),
                _ => Err(EvalError::TypeError { left: self.clone(), right: other.clone() }),
            },
        }
    }

    /// Subtraction per the coercion rule.
    pub fn sub(&self, other: &ValueType) -> (r: Result<ValueType, EvalError>)
        ensures
            value_result_view(r) == spec_sub(self@, other@),
    {
        if matches!((self, other), (ValueType::Text(_), ValueType::Text(_))) {
            return Err(EvalError::TypeError { left: self.clone(), right: other.clone() });
        }
        match (self.as_number(), other.as_number()) {
            (Some(x), Some(y)) => Ok(ValueType::Number(x.wrapping_sub(y))),
            _ => Err(EvalError::TypeError { left: self.clone(), right: other.clone() }),
        }
    }

    /// Multiplication per the coercion rule.
    pub fn mul(&self, other: &ValueType) -> (r: Result<ValueType, EvalError>)
        ensures
            value_result_view(r) == spec_mul(self@, other@),
    {
        if matches!((self, other), (ValueType::Text(_), ValueType::Text(_))) {
            return Err(EvalError::TypeError { left: self.clone(), right: other.clone() });
        }
        match (self.as_number(), other.as_number()) {
            (Some(x), Some(y)) => Ok(ValueType::Number(x.wrapping_mul(y))),
            _ => Err(EvalError::TypeError { left: self.clone(), right: other.clone() }),
        }
    }

    /// Division per the coercion rule: truncates toward zero and fails with
    /// [`EvalError::DivisionByZero`] exactly when the divisor reads as zero.
    pub fn div(&self, other: &ValueType) -> (r: Result<ValueType, EvalError>)
        ensures
            value_result_view(r) == spec_div(self@, other@),
    {
        if matches!((self, other), (ValueType::Text(_), ValueType::Text(_))) {
            return Err(EvalError::TypeError { left: self.clone(), right: other.clone() });
        }
        match (self.as_number(), other.as_number()) {
            (Some(x), Some(y)) => {
                if y == 0 {
                    Err(EvalError::DivisionByZero)
                } else {
                    proof {
                        if !(x == i32::MIN && y == -1) {
                            lemma_div_trunc_range(x, y);
                        }
                    }
                    match x.checked_div(y) {
                        Some(q) => {
                            proof {
                                assert(q == wrap_div_i32(x, y));
                            }
                            Ok(ValueType::Number(q))
                        },
                        None => {
                            proof {
                                assert(x == i32::MIN && y == -1);
                            }
                            Ok(ValueType::Number(i32::MIN))
                        },
                    }
                }
            },
            _ => Err(EvalError::TypeError { left: self.clone(), right: other.clone() }),
        }
    }

    /// Logical not: requires a boolean operand.
    pub fn not(&self) -> (r: Result<ValueType, EvalError>)
        ensures
            value_result_view(r) == spec_not(self@),
    {
        match self {
            ValueType::Bool(b) => Ok(ValueType::Bool(!*b)),
            _ => Err(EvalError::UnaryTypeError { operand: self.clone() }),
        }
    }

    /// Numeric negation: requires a numeric operand.
    pub fn neg(&self) -> (r: Result<ValueType, EvalError>)
        ensures
            value_result_view(r) == spec_neg(self@),
    {
        match self {
            ValueType::Number(n) => Ok(ValueType::Number(0i32.wrapping_sub(*n))),
            _ => Err(EvalError::UnaryTypeError { operand: self.clone() }),
        }
    }

    /// Equality per the coercion rule.
    pub fn eq(&self, other: &ValueType) -> (r: Result<bool, EvalError>)
        ensures
            bool_result_view(r) == spec_eq(self@, other@),
    {
        match (self, other) {
            (ValueType::Text(x), ValueType::Text(y)) => Ok(crate::token::str_eq(
                x.as_str(),
                y.as_str(),
            )),
            (ValueType::Number(x), ValueType::Number(y)) => Ok(*x == *y),
            (ValueType::Bool(x), ValueType::Bool(y)) => Ok(*x == *y),
            (ValueType::Number(x), ValueType::Text(_)) => match other.as_number() {
                Some(y) => Ok(*x == y),
                None => Err(EvalError::TypeError { left: self.clone(), right: other.clone() }),
            },
            (ValueType::Text(_), ValueType::Number(y)) => match self.as_number() {
                Some(x) => Ok(x == *y),
                None => Err(EvalError::TypeError { left: self.clone(), right: other.clone() }),
            },
            _ => Ok(false),
        }
    }

    /// Inequality per the coercion rule.
    pub fn ne(&self, other: &ValueType) -> (r: Result<bool, EvalError>)
        ensures
            bool_result_view(r) == spec_ne(self@, other@),
    {
        match (self, other) {
            (ValueType::Text(x), ValueType::Text(y)) => Ok(
                !crate::token::str_eq(x.as_str(), y.as_str()),
            ),
            (ValueType::Number(x), ValueType::Number(y)) => Ok(*x != *y),
            (ValueType::Bool(x), ValueType::Bool(y)) => Ok(*x != *y),
            (ValueType::Number(x), ValueType::Text(_)) => match other.as_number() {
                Some(y) => Ok(*x != y),
                None => Err(EvalError::TypeError { left: self.clone(), right: other.clone() }),
            },
            (ValueType::Text(_), ValueType::Number(y)) => match self.as_number() {
                Some(x) => Ok(x != *y),
                None => Err(EvalError::TypeError { left: self.clone(), right: other.clone() }),
            },
            _ => Ok(false),
        }
    }

    /// Strictly greater per the coercion rule.
    pub fn gt(&self, other: &ValueType) -> (r: Result<bool, EvalError>)
        ensures
            bool_result_view(r) == spec_gt(self@, other@),
    {
        match (self, other) {
            (ValueType::Number(x), ValueType::Number(y)) => Ok(*x > *y),
            (ValueType::Number(x), ValueType::Text(_)) => match other.as_number() {
                Some(y) => Ok(*x > y),
                None => Err(EvalError::TypeError { left: self.clone(), right: other.clone() }),
            },
            (ValueType::Text(_), ValueType::Number(y)) => match self.as_number() {
                Some(x) => Ok(x > *y),
                None => Err(EvalError::TypeError { left: self.clone(), right: other.clone() }),
            },
            _ => Ok(false),
        }
    }

    /// Greater or equal per the coercion rule.
    pub fn ge(&self, other: &ValueType) -> (r: Result<bool, EvalError>)
        ensures
            bool_result_view(r) == spec_ge(self@, other@),
    {
        match (self, other) {
            (ValueType::Number(x), ValueType::Number(y)) => Ok(*x >= *y),
            (ValueType::Number(x), ValueType::Text(_)) => match other.as_number() {
                Some(y) => Ok(*x >= y),
                None => Err(EvalError::TypeError { left: self.clone(), right: other.clone() }),
            },
            (ValueType::Text(_), ValueType::Number(y)) => match self.as_number() {
                Some(x) => Ok(x >= *y),
                None => Err(EvalError::TypeError { left: self.clone(), right: other.clone() }),
            },
            _ => Ok(false),
        }
    }

    /// Strictly less per the coercion rule.
    pub fn lt(&self, other: &ValueType) -> (r: Result<bool, EvalError>)
        ensures
            bool_result_view(r) == spec_lt(self@, other@),
    {
        match (self, other) {
            (ValueType::Number(x), ValueType::Number(y)) => Ok(*x < *y),
            (ValueType::Number(x), ValueType::Text(_)) => match other.as_number() {
                Some(y) => Ok(*x < y),
                None => Err(EvalError::TypeError { left: self.clone(), right: other.clone() }),
            },
            (ValueType::Text(_), ValueType::Number(y)) => match self.as_number() {
                Some(x) => Ok(x < *y),
                None => Err(EvalError::TypeError { left: self.clone(), right: other.clone() }),
            },
            _ => Ok(false),
        }
    }

    /// Less or equal per the coercion rule.
    pub fn le(&self, other: &ValueType) -> (r: Result<bool, EvalError>)
        ensures
            bool_result_view(r) == spec_le(self@, other@),
    {
        match (self, other) {
            (ValueType::Number(x), ValueType::Number(y)) => Ok(*x <= *y),
            (ValueType::Number(x), ValueType::Text(_)) => match other.as_number() {
                Some(y) => Ok(*x <= y),
                None => Err(EvalError::TypeError { left: self.clone(), right: other.clone() }),
            },
            (ValueType::Text(_), ValueType::Number(y)) => match self.as_number() {
                Some(x) => Ok(x <= *y),
                None => Err(EvalError::TypeError { left: self.clone(), right: other.clone() }),
            },
            _ => Ok(false),
        }
    }
}

} // verus!

use core::cmp::Ordering;

verus! {

/// The partial order the comparison operators induce: greater, less, equal,
/// or none of the three (values that no ordering comparison relates).
pub open spec fn spec_partial_cmp(a: ValueV, b: ValueV) -> Result<Option<Ordering>, EvalErrorV> {
    match spec_gt(a, b) {
        Err(e) => Err(e),
        Ok(true) => Ok(Some(Ordering::Greater)),
        Ok(false) => match spec_lt(a, b) {
            Err(e) => Err(e),
            Ok(true) => Ok(Some(Ordering::Less)),
            Ok(false) => match spec_eq(a, b) {
                Err(e) => Err(e),
                Ok(true) => Ok(Some(Ordering::Equal)),
                Ok(false) => Ok(None),
            },
        },
    }
}

/// The view of an ordering-or-error result.
pub open spec fn cmp_result_view(r: Result<Option<Ordering>, EvalError>) -> Result<
    Option<Ordering>,
    EvalErrorV,
> {
    match r {
        Ok(o) => Ok(o),
        Err(e) => Err(e@),
    }
}

impl ValueType {
    /// The ordering between two values, built from the greater, less and
    /// equality comparisons in turn.
    pub fn partial_cmp(&self, other: &ValueType) -> (r: Result<Option<Ordering>, EvalError>)
        ensures
            cmp_result_view(r) == spec_partial_cmp(self@, other@),
    {
        match self.gt(other) {
            Err(e) => Err(e),
            Ok(true) => Ok(Some(Ordering::Greater)),
            Ok(false) => match self.lt(other) {
                Err(e) => Err(e),
                Ok(true) => Ok(Some(Ordering::Less)),
                Ok(false) => match self.eq(other) {
                    Err(e) => Err(e),
                    Ok(true) => Ok(Some(Ordering::Equal)),
                    Ok(false) => Ok(None),
                },
            },
        }
    }
}

} // verus!
