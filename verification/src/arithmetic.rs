//! Integer arithmetic on 32-bit values that reports what does not fit.
use crate::semantics::{arithmetic, equality, fits, power};
use crate::value::{result_view, RuntimeError, Value};
use vstd::arithmetic::power::pow;
use vstd::prelude::*;

verus! {

/// A power of -1, 0 or 1 is -1, 0 or 1.
proof fn lemma_power_of_unit(base: int, exponent: nat)
    requires
        -1 <= base <= 1,
    ensures
        -1 <= pow(base, exponent) <= 1,
    decreases exponent,
{
    reveal(pow);
    if exponent > 0 {
        lemma_power_of_unit(base, (exponent - 1) as nat);
        let rest = pow(base, (exponent - 1) as nat);
        assert(-1 <= base * rest <= 1) by (nonlinear_arith)
            requires
                -1 <= base <= 1,
                -1 <= rest <= 1,
        ;
    }
}

/// Once a power of `base` has left the 32-bit range, every later power is outside it too.
proof fn lemma_power_stays_outside(base: int, low: nat, high: nat)
    requires
        low <= high,
        !fits(pow(base, low)),
    ensures
        !fits(pow(base, high)),
        pow(base, high) > i32::MAX || pow(base, high) < i32::MIN,
    decreases high,
{
    if low < high {
        lemma_power_stays_outside(base, low, (high - 1) as nat);
        if -1 <= base <= 1 {
            lemma_power_of_unit(base, low);
        }
        reveal(pow);
        let rest = pow(base, (high - 1) as nat);
        assert(base * rest > 0x7fff_ffff || base * rest < -0x8000_0000) by (nonlinear_arith)
            requires
                base >= 2 || base <= -2,
                rest > 0x7fff_ffff || rest < -0x8000_0000,
        ;
    }
}

/// `base` multiplied by itself `exponent` times, or `None` where that does not fit in 32
/// bits.
pub fn checked_power(base: i32, exponent: i32) -> (res: Option<i32>)
    ensures
        res == (if fits(power(base as int, exponent as int)) {
            Some(power(base as int, exponent as int) as i32)
        } else {
            None
        }),
{
    let mut result: i32 = 1;
    let mut i: i32 = 0;
    proof {
        reveal(pow);
    }
    while i < exponent
        invariant
            0 <= i,
            exponent > 0 ==> i <= exponent,
            exponent <= 0 ==> i == 0,
            result == pow(base as int, i as nat),
        decreases exponent - i,
    {
        match result.checked_mul(base) {
            None => {
                proof {
                    reveal(pow);
                    assert(pow(base as int, (i + 1) as nat) == base * pow(base as int, i as nat));
                    assert(result * base == base * result) by (nonlinear_arith);
                    lemma_power_stays_outside(base as int, (i + 1) as nat, exponent as nat);
                }
                return None;
            },
            Some(product) => {
                proof {
                    reveal(pow);
                    assert(pow(base as int, (i + 1) as nat) == base * pow(base as int, i as nat));
                    assert(result * base == base * result) by (nonlinear_arith);
                }
                result = product;
            },
        }
        i += 1;
    }
    proof {
        reveal(pow);
    }
    Some(result)
}

/// The number `n`, or an overflow where there is none.
fn number_or_overflow(n: Option<i32>) -> (res: Result<Value, RuntimeError>)
    ensures
        res == (match n {
            Some(v) => Ok::<Value, RuntimeError>(Value::Number(v)),
            None => Err(RuntimeError::Overflow),
        }),
{
    match n {
        Some(v) => Ok(Value::Number(v)),
        None => Err(RuntimeError::Overflow),
    }
}

/// Applies the arithmetic operator `operator` to `left` and `right`.
pub fn apply_operator(operator: &String, left: &Value, right: &Value) -> (res: Result<
    Value,
    RuntimeError,
>)
    ensures
        result_view(res) == arithmetic(operator@, left@, right@),
{
    match (left, right) {
        (Value::Number(l), Value::Number(r)) => {
            let l: i32 = *l;
            let r: i32 = *r;
            let symbol = operator.as_str();
            if symbol.unicode_len() != 1 {
                return Err(RuntimeError::UndefinedOperator);
            }
            let c = symbol.get_char(0);
            if c == '+' {
                number_or_overflow(l.checked_add(r))
            } else if c == '-' {
                number_or_overflow(l.checked_sub(r))
            } else if c == '*' {
                number_or_overflow(l.checked_mul(r))
            } else if c == '/' {
                if r == 0 {
                    Err(RuntimeError::DivisionByZero)
                } else {
                    number_or_overflow(l.checked_div(r))
                }
            } else if c == '^' {
                number_or_overflow(checked_power(l, r))
            } else {
                Err(RuntimeError::UndefinedOperator)
            }
        },
        _ => Err(RuntimeError::TypeMismatch),
    }
}

/// Tests `left` and `right` for equality.
pub fn test_equality(left: &Value, right: &Value) -> (res: Result<Value, RuntimeError>)
    ensures
        result_view(res) == equality(left@, right@),
{
    match (left, right) {
        (Value::Number(l), Value::Number(r)) => Ok(Value::Bool(*l == *r)),
        (Value::Bool(l), Value::Bool(r)) => Ok(Value::Bool(*l == *r)),
        _ => Err(RuntimeError::IncompatibleTypes),
    }
}

} // verus!
