//! Expressions of the script language and their evaluation.
use vstd::prelude::*;

verus! {

/// An expression tree: a number, a string, or the sum of two expressions.
#[derive(Debug, PartialEq)]
pub enum Expr {
    Number(i64),
    String(String),
    Add { lhs: Box<Expr>, rhs: Box<Expr> },
}

impl Clone for Expr {
    fn clone(&self) -> (r: Self)
        ensures
            r == *self,
        decreases self,
    {
        match self {
            Expr::Number(n) => Expr::Number(*n),
            Expr::String(s) => Expr::String(s.clone()),
            Expr::Add { lhs, rhs } => {
                let l = (&**lhs).clone();
                let r = (&**rhs).clone();
                Expr::Add { lhs: Box::new(l), rhs: Box::new(r) }
            },
        }
    }
}

/// The value an expression reduces to.
pub enum Scalar {
    Number(int),
    Text(Seq<char>),
}

/// The character of a decimal digit.
pub open spec fn digit_char(d: nat) -> char {
    if d == 0 { '0' } else if d == 1 { '1' } else if d == 2 { '2' } else if d == 3 { '3' }
    else if d == 4 { '4' } else if d == 5 { '5' } else if d == 6 { '6' } else if d == 7 { '7' }
    else if d == 8 { '8' } else { '9' }
}

/// Decimal digits of a natural number, most significant first, without leading zeros.
pub open spec fn digits_of(n: nat) -> Seq<char>
    decreases n,
{
    if n < 10 {
        seq![digit_char(n)]
    } else {
        digits_of(n / 10).push(digit_char(n % 10))
    }
}

/// Decimal text of an integer, with a leading `-` when it is negative.
pub open spec fn number_text(n: int) -> Seq<char> {
    if n < 0 {
        seq!['-'] + digits_of((-n) as nat)
    } else {
        digits_of(n as nat)
    }
}

/// Whether an integer fits the executable number type.
pub open spec fn fits_i64(n: int) -> bool {
    i64::MIN <= n <= i64::MAX
}

/// Text of a scalar value.
pub open spec fn scalar_text(v: Scalar) -> Seq<char> {
    match v {
        Scalar::Number(n) => number_text(n),
        Scalar::Text(s) => s,
    }
}

/// The coercion rules of addition: numbers add, anything else concatenates as text
/// in operand order. A sum that does not fit the number type has no value.
pub open spec fn add_scalars(l: Scalar, r: Scalar) -> Option<Scalar> {
    match (l, r) {
        (Scalar::Number(a), Scalar::Number(b)) => {
            if fits_i64(a + b) { Some(Scalar::Number(a + b)) } else { None }
        },
        (Scalar::Text(a), Scalar::Text(b)) => Some(Scalar::Text(a + b)),
        (Scalar::Number(a), Scalar::Text(b)) => Some(Scalar::Text(number_text(a) + b)),
        (Scalar::Text(a), Scalar::Number(b)) => Some(Scalar::Text(a + number_text(b))),
    }
}

/// The scalar that an already evaluated expression stands for (`None` for a sum).
pub open spec fn scalar_of(e: Expr) -> Option<Scalar> {
    match e {
        Expr::Number(n) => Some(Scalar::Number(n as int)),
        Expr::String(s) => Some(Scalar::Text(s@)),
        Expr::Add { .. } => None,
    }
}

/// The value of an expression; `None` when a numeric sum overflows.
pub open spec fn value_of(e: Expr) -> Option<Scalar>
    decreases e,
{
    match e {
        Expr::Number(n) => Some(Scalar::Number(n as int)),
        Expr::String(s) => Some(Scalar::Text(s@)),
        Expr::Add { lhs, rhs } => match (value_of(*lhs), value_of(*rhs)) {
            (Some(l), Some(r)) => add_scalars(l, r),
            _ => None,
        },
    }
}

/// The text that an expression evaluates to, when it has a value.
pub open spec fn text_of(e: Expr) -> Option<Seq<char>> {
    match value_of(e) {
        Some(v) => Some(scalar_text(v)),
        None => None,
    }
}

/// Evaluation is idempotent: whatever an expression evaluates to evaluates to itself.
pub proof fn lemma_evaluate_idempotent(e: Expr, v: Expr)
    requires
        value_of(e) is Some,
        scalar_of(v) == value_of(e),
    ensures
        value_of(v) == value_of(e),
        scalar_of(v) == value_of(v),
{
}

/// The coercion laws of addition: two numbers add, two strings concatenate, and a number
/// beside a string is written in decimal and concatenated in operand order.
pub proof fn lemma_add_coercion(a: i64, b: i64, s1: String, s2: String)
    ensures
        fits_i64(a + b) ==> value_of(
            Expr::Add { lhs: Box::new(Expr::Number(a)), rhs: Box::new(Expr::Number(b)) },
        ) == Some(Scalar::Number(a + b)),
        value_of(
            Expr::Add { lhs: Box::new(Expr::String(s1)), rhs: Box::new(Expr::String(s2)) },
        ) == Some(Scalar::Text(s1@ + s2@)),
        value_of(
            Expr::Add { lhs: Box::new(Expr::Number(a)), rhs: Box::new(Expr::String(s1)) },
        ) == Some(Scalar::Text(number_text(a as int) + s1@)),
        value_of(
            Expr::Add { lhs: Box::new(Expr::String(s1)), rhs: Box::new(Expr::Number(a)) },
        ) == Some(Scalar::Text(s1@ + number_text(a as int))),
{
    reveal_with_fuel(value_of, 2);
}

/// Why an expression has no value.
#[derive(Debug, Clone, Copy, PartialEq, Eq)]
pub enum EvaluationError {
    /// The sum of two numbers does not fit a 64-bit signed integer.
    NumberOverflow { lhs: i64, rhs: i64 },
}

fn digit_str(d: u64) -> (r: &'static str)
    requires
        d < 10,
    ensures
        r@ == seq![digit_char(d as nat)],
{
    let all = "0123456789";
    proof {
        reveal_strlit("0123456789");
    }
    all.substring_char(d as usize, (d + 1) as usize)
}

fn push_digits(n: u64, out: &mut String)
    ensures
        final(out)@ == old(out)@ + digits_of(n as nat),
    decreases n,
{
    if n >= 10 {
        push_digits(n / 10, out);
    }
    out.append(digit_str(n % 10));
    assert(final(out)@ =~= old(out)@ + digits_of(n as nat));
}

/// Decimal text of a number.
pub fn number_to_string(n: i64) -> (r: String)
    ensures
        r@ == number_text(n as int),
{
    let mut out = String::new();
    if n < 0 {
        proof {
            reveal_strlit("-");
        }
        out.append("-");
        let mag: u64 = if n == i64::MIN { 9223372036854775808u64 } else { (-n) as u64 };
        push_digits(mag, &mut out);
        assert(out@ =~= seq!['-'] + digits_of((-n) as nat));
    } else {
        push_digits(n as u64, &mut out);
        assert(out@ =~= digits_of(n as nat));
    }
    out
}

/// Text of an already evaluated expression.
fn scalar_to_string(e: &Expr) -> (r: String)
    requires
        scalar_of(*e) is Some,
    ensures
        r@ == scalar_text(scalar_of(*e)->0),
{
    match e {
        Expr::Number(n) => number_to_string(*n),
        Expr::String(s) => s.clone(),
        // excluded by the precondition
        Expr::Add { .. } => String::new(),
    }
}

impl Expr {
    /// Reduces the expression to a number or a string, applying the coercion rules of
    /// addition after evaluating both operands.
    pub fn evaluate(&self) -> (r: Result<Expr, EvaluationError>)
        ensures
            r is Ok <==> value_of(*self) is Some,
            r is Ok ==> scalar_of(r->Ok_0) == value_of(*self),
        decreases self,
    {
        match self {
            Expr::Number(n) => Ok(Expr::Number(*n)),
            Expr::String(s) => Ok(Expr::String(s.clone())),
            Expr::Add { lhs, rhs } => {
                let left = match (&**lhs).evaluate() {
                    Ok(v) => v,
                    Err(e) => return Err(e),
                };
                let right = match (&**rhs).evaluate() {
                    Ok(v) => v,
                    Err(e) => return Err(e),
                };
                match (&left, &right) {
                    (Expr::Number(l), Expr::Number(r)) => match l.checked_add(*r) {
                        Some(sum) => Ok(Expr::Number(sum)),
                        None => Err(EvaluationError::NumberOverflow { lhs: *l, rhs: *r }),
                    },
                    _ => {
                        let mut text = scalar_to_string(&left);
                        let tail = scalar_to_string(&right);
                        text.append(tail.as_str());
                        Ok(Expr::String(text))
                    },
                }
            },
        }
    }

    /// Evaluates the expression and gives the text of its value.
    pub fn evaluate_into_string(&self) -> (r: Result<String, EvaluationError>)
        ensures
            r is Ok <==> text_of(*self) is Some,
            r is Ok ==> r->Ok_0@ == text_of(*self)->0,
    {
        match self.evaluate() {
            Ok(v) => Ok(scalar_to_string(&v)),
            Err(e) => Err(e),
        }
    }
}

/// Text of an expression: a string as it is, a number in decimal, a sum evaluated first.
pub fn expr_to_string(expr: &Expr) -> (r: Result<String, EvaluationError>)
    ensures
        r is Ok <==> text_of(*expr) is Some,
        r is Ok ==> r->Ok_0@ == text_of(*expr)->0,
{
    match expr {
        Expr::String(s) => Ok(s.clone()),
        Expr::Number(n) => Ok(number_to_string(*n)),
        Expr::Add { .. } => expr.evaluate_into_string(),
    }
}

} // verus!
