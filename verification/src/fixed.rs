use vstd::prelude::*;
use vstd::arithmetic::div_mod::{
    lemma_div_is_ordered, lemma_div_nonincreasing, lemma_div_pos_is_pos,
    lemma_multiply_divide_lt,
};

verus! {

/// Scale of the fixed-point representation: a value `x` stands for the real
/// number `x / 65536`.
pub const FX_ONE: i64 = 65536;

/// One half, in fixed-point units.
pub const FX_HALF: i64 = 32768;

/// Magnitude bound kept by every arithmetic operation: each result is clamped
/// into `[-FX_LIMIT, FX_LIMIT]`, so that no intermediate machine computation
/// can overflow.
pub const FX_LIMIT: i64 = 0x100_0000_0000;

/// A scalar is representable when its magnitude stays within the clamp bound.
pub open spec fn fx_ok(x: int) -> bool {
    -FX_LIMIT <= x <= FX_LIMIT
}

/// Clamp an unbounded mathematical result back into the representable range.
pub open spec fn clamp_model(x: int) -> int {
    if x > FX_LIMIT {
        FX_LIMIT as int
    } else if x < -(FX_LIMIT as int) {
        -(FX_LIMIT as int)
    } else {
        x
    }
}

/// Division by a positive divisor, truncated toward zero.
pub open spec fn tdiv(x: int, d: int) -> int
    recommends
        d > 0,
{
    if x >= 0 {
        x / d
    } else {
        -((-x) / d)
    }
}

pub open spec fn add_model(a: int, b: int) -> int {
    clamp_model(a + b)
}

pub open spec fn sub_model(a: int, b: int) -> int {
    clamp_model(a - b)
}

pub open spec fn mul_model(a: int, b: int) -> int {
    clamp_model(tdiv(a * b, FX_ONE as int))
}

pub open spec fn div_model(a: int, b: int) -> int
    recommends
        b > 0,
{
    clamp_model(tdiv(a * (FX_ONE as int), b))
}

fn clamp_i128(x: i128) -> (r: i64)
    requires
        -0x4000_0000_0000_0000_0000_0000 <= x <= 0x4000_0000_0000_0000_0000_0000,
    ensures
        r == clamp_model(x as int),
        fx_ok(r as int),
{
    if x > FX_LIMIT as i128 {
        FX_LIMIT
    } else if x < -(FX_LIMIT as i128) {
        -FX_LIMIT
    } else {
        x as i64
    }
}

/// Saturating fixed-point addition.
pub fn fx_add(a: i64, b: i64) -> (r: i64)
    requires
        fx_ok(a as int),
        fx_ok(b as int),
    ensures
        r == add_model(a as int, b as int),
        fx_ok(r as int),
{
    clamp_i128(a as i128 + b as i128)
}

/// Saturating fixed-point subtraction.
pub fn fx_sub(a: i64, b: i64) -> (r: i64)
    requires
        fx_ok(a as int),
        fx_ok(b as int),
    ensures
        r == sub_model(a as int, b as int),
        fx_ok(r as int),
{
    clamp_i128(a as i128 - b as i128)
}

/// Saturating fixed-point multiplication, truncated toward zero.
pub fn fx_mul(a: i64, b: i64) -> (r: i64)
    requires
        fx_ok(a as int),
        fx_ok(b as int),
    ensures
        r == mul_model(a as int, b as int),
        fx_ok(r as int),
{
    proof {
        assert(-(FX_LIMIT as int) * (FX_LIMIT as int) <= (a as int) * (b as int) <= (FX_LIMIT
            as int) * (FX_LIMIT as int)) by (nonlinear_arith)
            requires
                fx_ok(a as int),
                fx_ok(b as int),
        ;
    }
    let p: i128 = (a as i128) * (b as i128);
    let q: i128 = if p >= 0 {
        proof {
            lemma_div_pos_is_pos(p as int, 65536);
            lemma_div_nonincreasing(p as int, 65536);
        }
        p / 65536
    } else {
        proof {
            lemma_div_pos_is_pos(-p as int, 65536);
            lemma_div_nonincreasing(-p as int, 65536);
        }
        -((-p) / 65536)
    };
    clamp_i128(q)
}

/// Saturating fixed-point division by a positive divisor, truncated toward
/// zero.
pub fn fx_div(a: i64, b: i64) -> (r: i64)
    requires
        fx_ok(a as int),
        0 < b <= FX_LIMIT,
    ensures
        r == div_model(a as int, b as int),
        fx_ok(r as int),
{
    let p: i128 = (a as i128) * 65536;
    let q: i128 = if p >= 0 {
        proof {
            lemma_div_pos_is_pos(p as int, b as int);
            lemma_div_nonincreasing(p as int, b as int);
        }
        p / (b as i128)
    } else {
        proof {
            lemma_div_pos_is_pos(-p as int, b as int);
            lemma_div_nonincreasing(-p as int, b as int);
        }
        -((-p) / (b as i128))
    };
    clamp_i128(q)
}

/// Magnitude of a mathematical integer.
pub open spec fn fx_abs(x: int) -> int {
    if x >= 0 {
        x
    } else {
        -x
    }
}

/// The hidden-layer activation: a saturating, nondecreasing odd map of the
/// whole line into (-FX_ONE, FX_ONE), computed as x / (1 + |x|) in fixed-point
/// units (truncation collapses large magnitudes onto the extremes).
pub open spec fn tanh_model(x: int) -> int {
    tdiv(x * (FX_ONE as int), (FX_ONE as int) + fx_abs(x))
}

/// The output activation: an increasing map of the whole line into
/// (0, FX_ONE), with value exactly FX_HALF at zero, computed from the
/// hidden-layer activation.
pub open spec fn sigmoid_model(x: int) -> int {
    (FX_HALF as int) + tdiv(tanh_model(x), 2)
}

/// A first-order rational approximation of the natural logarithm on (0, 1]:
/// for p in fixed-point units, log_model(p) stands for (p - FX_ONE) / p,
/// which is 0 at p == FX_ONE, negative below it, and falls without bound as
/// p approaches 0.
pub open spec fn log_model(p: int) -> int {
    -tdiv(((FX_ONE as int) - p) * (FX_ONE as int), p)
}

/// Binary cross-entropy of a predicted probability p against a target t,
/// both in fixed-point units, using `log_model` as the logarithm.
pub open spec fn bce_model(p: int, t: int) -> int {
    -add_model(
        mul_model(t, log_model(p)),
        mul_model((FX_ONE as int) - t, log_model((FX_ONE as int) - p)),
    )
}

/// Hidden-layer activation; the result lies strictly inside
/// (-FX_ONE, FX_ONE).
pub fn fx_tanh(x: i64) -> (r: i64)
    requires
        fx_ok(x as int),
    ensures
        r == tanh_model(x as int),
        -FX_ONE < r < FX_ONE,
        fx_ok(r as int),
{
    let ax: i64 = if x >= 0 {
        x
    } else {
        -x
    };
    let num: i128 = (x as i128) * 65536;
    let den: i128 = 65536 + (ax as i128);
    proof {
        assert((ax as int) * 65536 < (den as int) * 65536) by (nonlinear_arith)
            requires
                den as int == 65536 + ax as int && ax >= 0,
        ;
    }
    let q: i128 = if num >= 0 {
        proof {
            lemma_div_pos_is_pos(num as int, den as int);
            lemma_multiply_divide_lt(num as int, den as int, 65536);
        }
        num / den
    } else {
        proof {
            lemma_div_pos_is_pos(-num as int, den as int);
            lemma_multiply_divide_lt(-num as int, den as int, 65536);
        }
        -((-num) / den)
    };
    q as i64
}

/// Output activation; the result lies strictly inside (0, FX_ONE).
pub fn fx_sigmoid(x: i64) -> (r: i64)
    requires
        fx_ok(x as int),
    ensures
        r == sigmoid_model(x as int),
        0 < r < FX_ONE,
        fx_ok(r as int),
{
    let t = fx_tanh(x);
    let h: i64 = if t >= 0 {
        proof {
            lemma_div_pos_is_pos(t as int, 2);
            lemma_div_is_ordered(t as int, 65535, 2);
        }
        t / 2
    } else {
        proof {
            lemma_div_pos_is_pos(-t as int, 2);
            lemma_div_is_ordered(-t as int, 65535, 2);
        }
        -((-t) / 2)
    };
    FX_HALF + h
}

/// Logarithm approximation on (0, FX_ONE]; the result is never positive and
/// is 0 exactly at FX_ONE.
pub fn fx_log(p: i64) -> (r: i64)
    requires
        1 <= p <= FX_ONE,
    ensures
        r == log_model(p as int),
        r <= 0,
        p == FX_ONE ==> r == 0,
        fx_ok(r as int),
{
    let num: i128 = ((FX_ONE - p) as i128) * 65536;
    proof {
        lemma_div_pos_is_pos(num as int, p as int);
        lemma_div_nonincreasing(num as int, p as int);
    }
    let q: i128 = num / (p as i128);
    -(q as i64)
}

/// Binary cross-entropy loss of a predicted probability against a target in
/// [0, FX_ONE]; for the binary targets 0 and FX_ONE the loss is nonnegative.
pub fn fx_bce_loss(p: i64, t: i64) -> (r: i64)
    requires
        1 <= p < FX_ONE,
        0 <= t <= FX_ONE,
    ensures
        r == bce_model(p as int, t as int),
        fx_ok(r as int),
        r >= 0,
{
    let lp = fx_log(p);
    let lq = fx_log(FX_ONE - p);
    let u = fx_mul(t, lp);
    let v = fx_mul(FX_ONE - t, lq);
    let s = fx_add(u, v);
    proof {
        lemma_mul_nonpos(t as int, lp as int);
        lemma_mul_nonpos(FX_ONE - t as int, lq as int);
    }
    -s
}

/// A nonnegative factor times a nonpositive one gives a nonpositive product.
proof fn lemma_mul_nonpos(a: int, b: int)
    requires
        a >= 0,
        b <= 0,
    ensures
        mul_model(a, b) <= 0,
{
    assert(a * b <= 0) by (nonlinear_arith)
        requires
            a >= 0 && b <= 0,
    ;
    if a * b >= 0 {
        lemma_div_pos_is_pos(a * b, 65536);
        lemma_div_nonincreasing(a * b, 65536);
    } else {
        lemma_div_pos_is_pos(-(a * b), 65536);
    }
}

}
