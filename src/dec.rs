use vstd::arithmetic::div_mod::lemma_hoist_over_denominator;
use vstd::prelude::*;

verus! {

/// Number of units in one whole: amounts carry ten decimal places.
pub const SCALE: i128 = 10_000_000_000;

/// Largest magnitude, in units, that a `Dec` holds; results beyond it saturate.
pub const LIMIT: i128 = 1_000_000_000_000_000_000_000_000_000;

pub open spec fn clamp(x: int) -> int {
    if x > LIMIT {
        LIMIT as int
    } else if x < -LIMIT {
        -LIMIT
    } else {
        x
    }
}

pub open spec fn abs_int(x: int) -> int {
    if x < 0 {
        -x
    } else {
        x
    }
}

/// Quotient rounded toward zero.
pub open spec fn tdiv(x: int, d: int) -> int {
    let q = abs_int(x) / abs_int(d);
    if (x >= 0) == (d > 0) {
        q
    } else {
        -q
    }
}

/// Smallest multiple of `d` (for `d > 0`) that is at least `x`, divided by `d`.
pub open spec fn ceil_div(x: int, d: int) -> int {
    -((-x) / d)
}

pub open spec fn pow10(n: nat) -> int
    decreases n,
{
    if n == 0 {
        1
    } else {
        10 * pow10((n - 1) as nat)
    }
}

/// Units of `m / 10^scale`, rounded toward zero.
pub open spec fn units_of_parts(m: int, scale: nat) -> int {
    if scale <= 10 {
        m * pow10((10 - scale) as nat)
    } else {
        tdiv(m, pow10((scale - 10) as nat))
    }
}

/// Round half to even of `x / f`, for `f > 0`.
pub open spec fn round_half_even(x: int, f: int) -> int {
    let q = tdiv(x, f);
    let r = abs_int(x - q * f);
    let s: int = if x < 0 {
        -1
    } else {
        1
    };
    if 2 * r > f {
        q + s
    } else if 2 * r == f && q % 2 != 0 {
        q + s
    } else {
        q
    }
}

pub open spec fn max_int(a: int, b: int) -> int {
    if a >= b {
        a
    } else {
        b
    }
}

/// A signed decimal amount with ten fixed decimal places.
///
/// Its view is the number of units (`value * SCALE`). Arithmetic saturates at
/// `LIMIT` units in either direction and rounds toward zero.
#[derive(Clone, Copy, Debug, PartialEq, Eq, Structural, Hash)]
pub struct Dec {
    units: i128,
}

impl View for Dec {
    type V = int;

    closed spec fn view(&self) -> int {
        clamp(self.units as int)
    }
}

pub broadcast proof fn lemma_dec_bounded(d: Dec)
    ensures
        -LIMIT <= #[trigger] d@ <= LIMIT,
{
}

proof fn lemma_pow10_pos(n: nat)
    ensures
        pow10(n) >= 1,
    decreases n,
{
    if n > 0 {
        lemma_pow10_pos((n - 1) as nat);
    }
}

proof fn lemma_pow10_mono(a: nat, b: nat)
    requires
        a <= b,
    ensures
        pow10(a) <= pow10(b),
    decreases b,
{
    if a < b {
        lemma_pow10_mono(a, (b - 1) as nat);
        lemma_pow10_pos((b - 1) as nat);
    }
}

proof fn lemma_pow10_values()
    ensures
        pow10(10) == 10000000000,
        pow10(38) == 100000000000000000000000000000000000000int,
        pow10(39) == 1000000000000000000000000000000000000000int,
{
    reveal_with_fuel(pow10, 40);
}

/// `10^n` for `n <= 38`.
fn pow10_exec(n: u32) -> (r: i128)
    requires
        n <= 38,
    ensures
        r == pow10(n as nat),
{
    let mut r: i128 = 1;
    let mut i: u32 = 0;
    proof {
        lemma_pow10_values();
    }
    while i < n
        invariant
            i <= n <= 38,
            r == pow10(i as nat),
            pow10(38) == 100000000000000000000000000000000000000int,
        decreases n - i,
    {
        proof {
            lemma_pow10_mono((i + 1) as nat, 38);
            assert(pow10((i + 1) as nat) == 10 * pow10(i as nat));
            assert(r * 10 <= 100000000000000000000000000000000000000int);
            lemma_pow10_pos(i as nat);
        }
        r = r * 10;
        i = i + 1;
    }
    r
}

/// Quotient of `x` by `d`, rounded toward zero.
fn tdiv_exec(x: i128, d: i128) -> (r: i128)
    requires
        d != 0,
        -LIMIT * SCALE <= x <= LIMIT * SCALE,
        -LIMIT * SCALE <= d <= LIMIT * SCALE,
    ensures
        r == tdiv(x as int, d as int),
{
    let ax: u128 = if x < 0 {
        (-x) as u128
    } else {
        x as u128
    };
    let ad: u128 = if d < 0 {
        (-d) as u128
    } else {
        d as u128
    };
    let q: u128 = ax / ad;
    proof {
        assert(q <= ax) by (nonlinear_arith)
            requires
                q == ax / ad,
                ad >= 1,
        ;
    }
    if (x >= 0) == (d > 0) {
        q as i128
    } else {
        -(q as i128)
    }
}

fn clamp_exec(x: i128) -> (r: Dec)
    ensures
        r@ == clamp(x as int),
{
    if x > LIMIT {
        Dec { units: LIMIT }
    } else if x < -LIMIT {
        Dec { units: -LIMIT }
    } else {
        Dec { units: x }
    }
}

impl Dec {
    #[verifier::type_invariant]
    spec fn inv(self) -> bool {
        -LIMIT <= self.units <= LIMIT
    }

    pub fn zero() -> (r: Dec)
        ensures
            r@ == 0,
    {
        Dec { units: 0 }
    }

    pub fn one() -> (r: Dec)
        ensures
            r@ == SCALE,
    {
        Dec { units: SCALE }
    }

    /// The number of units, `value * SCALE`.
    pub fn units(&self) -> (r: i128)
        ensures
            r == self@,
    {
        proof {
            use_type_invariant(self);
        }
        self.units
    }

    /// The amount that `units` units make, saturated at `LIMIT`.
    pub fn from_units(units: i128) -> (r: Dec)
        ensures
            r@ == clamp(units as int),
    {
        clamp_exec(units)
    }

    /// The whole number `n`.
    pub fn from_int(n: i64) -> (r: Dec)
        ensures
            r@ == clamp(n * SCALE),
    {
        let x: i128 = (n as i128) * SCALE;
        clamp_exec(x)
    }

    /// The amount `m / 10^scale`, rounded toward zero to ten places and saturated.
    pub fn from_parts(m: i128, scale: u32) -> (r: Dec)
        ensures
            r@ == clamp(units_of_parts(m as int, scale as nat)),
    {
        if scale <= 10 {
            let f = pow10_exec(10 - scale);
            proof {
                lemma_pow10_pos((10 - scale) as nat);
            }
            match m.checked_mul(f) {
                Some(p) => clamp_exec(p),
                None => {
                    proof {
                        lemma_pow10_mono((10 - scale) as nat, 10);
                        lemma_pow10_values();
                        assert(m * f > i128::MAX || m * f < i128::MIN);
                        assert(m < 0 ==> m * f < 0) by (nonlinear_arith)
                            requires
                                f >= 1,
                        ;
                        assert(m > 0 ==> m * f > 0) by (nonlinear_arith)
                            requires
                                f >= 1,
                        ;
                    }
                    if m < 0 {
                        Dec { units: -LIMIT }
                    } else {
                        Dec { units: LIMIT }
                    }
                },
            }
        } else if scale - 10 > 38 {
            proof {
                lemma_pow10_mono(39, (scale - 10) as nat);
                lemma_pow10_values();
                let p = pow10((scale - 10) as nat);
                assert(abs_int(m as int) < p);
                assert(abs_int(m as int) / p == 0) by (nonlinear_arith)
                    requires
                        0 <= abs_int(m as int) < p,
                ;
            }
            Dec { units: 0 }
        } else {
            let f = pow10_exec(scale - 10);
            proof {
                lemma_pow10_pos((scale - 10) as nat);
            }
            let ax: u128 = if m < 0 {
                (0u128 + ((-(m + 1)) as u128)) + 1
            } else {
                m as u128
            };
            let q: u128 = ax / (f as u128);
            proof {
                assert(q <= ax) by (nonlinear_arith)
                    requires
                        q == ax / (f as u128),
                        f >= 1,
                ;
                assert(ax as int == abs_int(m as int));
            }
            if q > LIMIT as u128 {
                if m < 0 {
                    Dec { units: -LIMIT }
                } else {
                    Dec { units: LIMIT }
                }
            } else if m < 0 {
                Dec { units: -(q as i128) }
            } else {
                Dec { units: q as i128 }
            }
        }
    }

    pub fn add(self, o: Dec) -> (r: Dec)
        ensures
            r@ == clamp(self@ + o@),
    {
        proof {
            use_type_invariant(&self);
            use_type_invariant(&o);
        }
        clamp_exec(self.units + o.units)
    }

    pub fn sub(self, o: Dec) -> (r: Dec)
        ensures
            r@ == clamp(self@ - o@),
    {
        proof {
            use_type_invariant(&self);
            use_type_invariant(&o);
        }
        clamp_exec(self.units - o.units)
    }

    pub fn neg(self) -> (r: Dec)
        ensures
            r@ == -self@,
    {
        proof {
            use_type_invariant(&self);
        }
        Dec { units: -self.units }
    }

    pub fn abs(self) -> (r: Dec)
        ensures
            r@ == abs_int(self@),
    {
        proof {
            use_type_invariant(&self);
        }
        if self.units < 0 {
            Dec { units: -self.units }
        } else {
            self
        }
    }

    /// Product, rounded toward zero to ten places.
    pub fn mul(self, o: Dec) -> (r: Dec)
        ensures
            r@ == clamp(tdiv(self@ * o@, SCALE as int)),
    {
        proof {
            use_type_invariant(&self);
            use_type_invariant(&o);
        }
        let a = self.units;
        let b = o.units;
        if (a <= 10_000_000_000_000_000_000 && a >= -10_000_000_000_000_000_000) && (b
            <= 10_000_000_000_000_000_000 && b >= -10_000_000_000_000_000_000) {
            proof {
                assert(-100_000_000_000_000_000_000_000_000_000_000_000_000int <= a * b
                    <= 100_000_000_000_000_000_000_000_000_000_000_000_000int) by (nonlinear_arith)
                    requires
                        -10_000_000_000_000_000_000int <= a <= 10_000_000_000_000_000_000int,
                        -10_000_000_000_000_000_000int <= b <= 10_000_000_000_000_000_000int,
                ;
            }
            let p = a * b;
            let q = tdiv_exec_wide(p, SCALE);
            clamp_exec(q)
        } else {
            let abig = a < -10_000_000_000_000_000_000 || a > 10_000_000_000_000_000_000;
            let (x, y) = if abig {
                (a, b)
            } else {
                (b, a)
            };
            // |x| > 10^19: the product exceeds the limit unless y is small.
            let q = tdiv_exec(x, SCALE);
            proof {
                assert(self@ * o@ == x * y) by (nonlinear_arith)
                    requires
                        (x == a && y == b) || (x == b && y == a),
                        self@ == a,
                        o@ == b,
                ;
            }
            let r = mul_large(x, y, q);
            r
        }
    }

    /// Quotient, rounded toward zero to ten places.
    pub fn div(self, o: Dec) -> (r: Dec)
        requires
            o@ != 0,
        ensures
            r@ == clamp(tdiv(self@ * SCALE, o@)),
    {
        proof {
            use_type_invariant(&self);
            use_type_invariant(&o);
        }
        let x = self.units * SCALE;
        let q = tdiv_exec(x, o.units);
        proof {
            assert(abs_int(x as int) / abs_int(o.units as int) <= abs_int(x as int))
                by (nonlinear_arith)
                requires
                    abs_int(o.units as int) >= 1,
                    abs_int(x as int) >= 0,
            ;
        }
        clamp_exec(q)
    }

    /// Quotient rounded up to ten places, for a positive divisor.
    pub fn div_ceil(self, o: Dec) -> (r: Dec)
        requires
            o@ > 0,
        ensures
            r@ == clamp(ceil_div(self@ * SCALE, o@)),
    {
        proof {
            use_type_invariant(&self);
            use_type_invariant(&o);
        }
        let x = self.units * SCALE;
        let d = o.units;
        let q: i128 = if x >= 0 {
            (x + d - 1) / d
        } else {
            -((-x) / d)
        };
        proof {
            if x >= 0 {
                assert(q == -((-x) / (d as int))) by (nonlinear_arith)
                    requires
                        x >= 0,
                        d > 0,
                        q == (x + d - 1) / (d as int),
                ;
            }
            assert(-LIMIT * SCALE - 1 <= q <= LIMIT * SCALE + 1) by (nonlinear_arith)
                requires
                    -LIMIT * SCALE <= x <= LIMIT * SCALE,
                    d >= 1,
                    q == -((-x) / (d as int)),
            ;
        }
        clamp_exec(q)
    }

    /// Quotient by a whole number, rounded toward zero to ten places.
    pub fn div_int(self, n: u64) -> (r: Dec)
        requires
            n > 0,
        ensures
            r@ == tdiv(self@, n as int),
    {
        proof {
            use_type_invariant(&self);
        }
        let q = tdiv_exec(self.units, n as i128);
        proof {
            assert(abs_int(self.units as int) / (n as int) <= abs_int(self.units as int))
                by (nonlinear_arith)
                requires
                    n >= 1,
                    abs_int(self.units as int) >= 0,
            ;
        }
        Dec { units: q }
    }

    /// The nearest multiple of `step` that is at least `self` (at most, for a negative step).
    pub fn ceil_to_step(self, step: Dec) -> (r: Dec)
        requires
            step@ != 0,
        ensures
            step@ > 0 ==> r@ == clamp(ceil_div(self@, step@) * step@),
            step@ < 0 ==> r@ == clamp(ceil_div(-self@, -step@) * step@),
    {
        proof {
            use_type_invariant(&self);
            use_type_invariant(&step);
        }
        let (v, s) = if step.units > 0 {
            (self.units, step.units)
        } else {
            (-self.units, -step.units)
        };
        // ceil(v / s) = -floor(-v / s)
        let nv: i128 = -v;
        let fl: i128 = if nv >= 0 {
            nv / s
        } else {
            let t: i128 = (-nv + s - 1) / s;
            -t
        };
        proof {
            if nv >= 0 {
                assert(fl == nv / s);
            } else {
                assert(fl == nv / s) by (nonlinear_arith)
                    requires
                        nv < 0,
                        s > 0,
                        fl == -((-nv + s - 1) / (s as int)),
                ;
            }
            assert(-LIMIT <= fl <= LIMIT) by (nonlinear_arith)
                requires
                    -LIMIT <= nv <= LIMIT,
                    s >= 1,
                    fl == nv / s,
            ;
        }
        let c: i128 = -fl;
        proof {
            assert(-LIMIT * LIMIT <= c * step.units <= LIMIT * LIMIT) by (nonlinear_arith)
                requires
                    -LIMIT <= c <= LIMIT,
                    -LIMIT <= step.units <= LIMIT,
            ;
        }
        mul_clamped(c, step.units)
    }

    /// Rounded half to even to `dp` decimal places.
    pub fn round_dp(self, dp: u32) -> (r: Dec)
        ensures
            dp >= 10 ==> r@ == self@,
            dp < 10 ==> r@ == clamp(
                round_half_even(self@, pow10((10 - dp) as nat)) * pow10((10 - dp) as nat),
            ),
    {
        proof {
            use_type_invariant(&self);
        }
        if dp >= 10 {
            return self;
        }
        let f = pow10_exec(10 - dp);
        proof {
            lemma_pow10_pos((10 - dp) as nat);
            lemma_pow10_mono((10 - dp) as nat, 10);
            lemma_pow10_values();
        }
        let x = self.units;
        let q = tdiv_exec(x, f);
        proof {
            assert(abs_int(x as int) / (f as int) <= abs_int(x as int)) by (nonlinear_arith)
                requires
                    f >= 1,
                    abs_int(x as int) >= 0,
            ;
            assert(-LIMIT - SCALE <= q * f <= LIMIT + SCALE) by (nonlinear_arith)
                requires
                    q == tdiv(x as int, f as int),
                    -LIMIT <= x <= LIMIT,
                    1 <= f <= SCALE,
            ;
        }
        let rem = x - q * f;
        let r: i128 = if rem < 0 {
            -rem
        } else {
            rem
        };
        proof {
            assert(r <= f) by (nonlinear_arith)
                requires
                    q == tdiv(x as int, f as int),
                    rem == x - q * f,
                    r == abs_int(rem as int),
                    f >= 1,
            ;
        }
        let s: i128 = if x < 0 {
            -1
        } else {
            1
        };
        let aq: i128 = if q < 0 {
            -q
        } else {
            q
        };
        proof {
            assert((aq % 2 != 0) == (q % 2 != 0)) by (nonlinear_arith)
                requires
                    aq == abs_int(q as int),
            ;
        }
        let n: i128 = if 2 * r > f {
            q + s
        } else if 2 * r == f && aq % 2 != 0 {
            q + s
        } else {
            q
        };
        proof {
            assert(-LIMIT - 2 * SCALE <= n * f <= LIMIT + 2 * SCALE) by (nonlinear_arith)
                requires
                    -LIMIT - SCALE <= q * f <= LIMIT + SCALE,
                    n == q || n == q + 1 || n == q - 1,
                    1 <= f <= SCALE,
            ;
        }
        clamp_exec(n * f)
    }

    pub fn is_zero(&self) -> (r: bool)
        ensures
            r == (self@ == 0),
    {
        proof {
            use_type_invariant(self);
        }
        self.units == 0
    }

    pub fn lt(&self, o: &Dec) -> (r: bool)
        ensures
            r == (self@ < o@),
    {
        proof {
            use_type_invariant(self);
            use_type_invariant(o);
        }
        self.units < o.units
    }

    pub fn le(&self, o: &Dec) -> (r: bool)
        ensures
            r == (self@ <= o@),
    {
        proof {
            use_type_invariant(self);
            use_type_invariant(o);
        }
        self.units <= o.units
    }

    pub fn gt(&self, o: &Dec) -> (r: bool)
        ensures
            r == (self@ > o@),
    {
        o.lt(self)
    }

    pub fn ge(&self, o: &Dec) -> (r: bool)
        ensures
            r == (self@ >= o@),
    {
        o.le(self)
    }

    pub fn eq_val(&self, o: &Dec) -> (r: bool)
        ensures
            r == (self@ == o@),
    {
        proof {
            use_type_invariant(self);
            use_type_invariant(o);
        }
        self.units == o.units
    }

    pub fn max(self, o: Dec) -> (r: Dec)
        ensures
            r@ == max_int(self@, o@),
    {
        if self.ge(&o) {
            self
        } else {
            o
        }
    }
}

/// Quotient of a product by `d`, rounded toward zero.
fn tdiv_exec_wide(x: i128, d: i128) -> (r: i128)
    requires
        d > 0,
        -100_000_000_000_000_000_000_000_000_000_000_000_000int <= x
            <= 100_000_000_000_000_000_000_000_000_000_000_000_000int,
    ensures
        r == tdiv(x as int, d as int),
{
    let ax: u128 = if x < 0 {
        (-x) as u128
    } else {
        x as u128
    };
    let q: u128 = ax / (d as u128);
    proof {
        assert(q <= ax) by (nonlinear_arith)
            requires
                q == ax / (d as u128),
                d >= 1,
        ;
    }
    if x >= 0 {
        q as i128
    } else {
        -(q as i128)
    }
}

/// `clamp(c * s)` for factors whose product fits.
fn mul_clamped(c: i128, s: i128) -> (r: Dec)
    requires
        -LIMIT * LIMIT <= c * s <= LIMIT * LIMIT,
    ensures
        r@ == clamp(c * s),
{
    match c.checked_mul(s) {
        Some(p) => clamp_exec(p),
        None => {
            proof {
                assert(c * s > LIMIT || c * s < -LIMIT);
            }
            if (c < 0) == (s < 0) {
                proof {
                    assert(c * s >= 0) by (nonlinear_arith)
                        requires
                            (c < 0) == (s < 0),
                    ;
                }
                Dec { units: LIMIT }
            } else {
                proof {
                    assert(c * s <= 0) by (nonlinear_arith)
                        requires
                            (c < 0) != (s < 0),
                    ;
                }
                Dec { units: -LIMIT }
            }
        },
    }
}

/// `clamp(tdiv(x * y, SCALE))` where `|x| > 10^19` and `q = tdiv(x, SCALE)`.
fn mul_large(x: i128, y: i128, q: i128) -> (r: Dec)
    requires
        x < -10_000_000_000_000_000_000 || x > 10_000_000_000_000_000_000,
        -LIMIT <= x <= LIMIT,
        -LIMIT <= y <= LIMIT,
        q == tdiv(x as int, SCALE as int),
    ensures
        r@ == clamp(tdiv(x * y, SCALE as int)),
{
    if y == 0 {
        proof {
            assert(x * y == 0);
        }
        return Dec { units: 0 };
    }
    // |x * y / SCALE| >= |x| / SCALE >= 10^9; y's units decide whether it stays in range.
    let ay: i128 = if y < 0 {
        -y
    } else {
        y
    };
    let aq: i128 = if q < 0 {
        -q
    } else {
        q
    };
    proof {
        assert(aq >= 1_000_000_000) by (nonlinear_arith)
            requires
                aq == abs_int(x as int) / (SCALE as int),
                abs_int(x as int) > 10_000_000_000_000_000_000,
        ;
        assert(aq <= 100_000_000_000_000_000) by (nonlinear_arith)
            requires
                aq == abs_int(x as int) / (SCALE as int),
                abs_int(x as int) <= LIMIT,
        ;
    }
    if ay >= 10_000_000_000_000_000_000 {
        // the magnitude is at least 10^9 * 10^19 / SCALE... beyond the limit
        proof {
            let m = abs_int(x * y) / (SCALE as int);
            assert(abs_int(x * y) == abs_int(x as int) * ay) by (nonlinear_arith)
                requires
                    ay == abs_int(y as int),
            ;
            assert(m > LIMIT) by (nonlinear_arith)
                requires
                    m == abs_int(x * y) / (SCALE as int),
                    abs_int(x * y) == abs_int(x as int) * ay,
                    abs_int(x as int) > 10_000_000_000_000_000_000,
                    ay >= 10_000_000_000_000_000_000,
            ;
        }
        if (x < 0) == (y < 0) {
            proof {
                assert(x * y > 0) by (nonlinear_arith)
                    requires
                        (x < 0) == (y < 0),
                        x != 0,
                        y != 0,
                ;
            }
            Dec { units: LIMIT }
        } else {
            proof {
                assert(x * y < 0) by (nonlinear_arith)
                    requires
                        (x < 0) != (y < 0),
                        x != 0,
                        y != 0,
                ;
            }
            Dec { units: -LIMIT }
        }
    } else {
        // both factors fit a 128-bit product: |x| <= 10^27, |y| < 10^19 gives < 10^46. Too big.
        // Split x = q * SCALE + rx, so x * y / SCALE = q * y + rx * y / SCALE.
        let rx: i128 = x - q * SCALE;
        proof {
            assert(abs_int(rx as int) < SCALE) by (nonlinear_arith)
                requires
                    q == tdiv(x as int, SCALE as int),
                    rx == x - q * SCALE,
            ;
            assert((rx >= 0) == (x >= 0) || rx == 0) by (nonlinear_arith)
                requires
                    q == tdiv(x as int, SCALE as int),
                    rx == x - q * SCALE,
            ;
        }
        lemma_split_and_finish(x, y, q, rx, ay, aq)
    }
}

fn lemma_split_and_finish(x: i128, y: i128, q: i128, rx: i128, ay: i128, aq: i128) -> (r: Dec)
    requires
        x < -10_000_000_000_000_000_000 || x > 10_000_000_000_000_000_000,
        -LIMIT <= x <= LIMIT,
        y != 0,
        ay == abs_int(y as int),
        ay < 10_000_000_000_000_000_000,
        q == tdiv(x as int, SCALE as int),
        aq == abs_int(q as int),
        1_000_000_000 <= aq <= 100_000_000_000_000_000,
        rx == x - q * SCALE,
        abs_int(rx as int) < SCALE,
        (rx >= 0) == (x >= 0) || rx == 0,
    ensures
        r@ == clamp(tdiv(x * y, SCALE as int)),
{
    // |q * y| <= 10^17 * 10^19 = 10^36 fits; |rx * y| < 10^10 * 10^19 = 10^29 fits.
    proof {
        assert(abs_int(q * y) <= 100_000_000_000_000_000 * 10_000_000_000_000_000_000int)
            by (nonlinear_arith)
            requires
                aq == abs_int(q as int),
                ay == abs_int(y as int),
                aq <= 100_000_000_000_000_000,
                ay < 10_000_000_000_000_000_000,
        ;
        assert(abs_int(rx * y) <= SCALE * 10_000_000_000_000_000_000int) by (nonlinear_arith)
            requires
                abs_int(rx as int) < SCALE,
                ay == abs_int(y as int),
                ay < 10_000_000_000_000_000_000,
        ;
    }
    let big = q * y;
    let small = rx * y;
    let t = tdiv_exec_wide(small, SCALE);
    proof {
        // q and rx share the sign of x, so q*y and rx*y share a sign and truncation splits.
        assert(x * y == big * SCALE + small) by (nonlinear_arith)
            requires
                rx == x - q * SCALE,
                big == q * y,
                small == rx * y,
        ;
        assert((q >= 0) == (x >= 0)) by (nonlinear_arith)
            requires
                q == tdiv(x as int, SCALE as int),
                abs_int(q as int) >= 1,
        ;
        assert((rx >= 0) == (q >= 0) || rx == 0);
        assert((big >= 0 && small >= 0) || (big <= 0 && small <= 0)) by (nonlinear_arith)
            requires
                (rx >= 0) == (q >= 0) || rx == 0,
                big == q * y,
                small == rx * y,
        ;
        lemma_tdiv_split(x * y, big as int, small as int, SCALE as int);
        assert(abs_int(big as int) >= 1_000_000_000) by (nonlinear_arith)
            requires
                big == q * y,
                aq == abs_int(q as int),
                ay == abs_int(y as int),
                aq >= 1_000_000_000,
                ay >= 1,
        ;
        assert(abs_int(t as int) <= abs_int(small as int)) by (nonlinear_arith)
            requires
                t == tdiv(small as int, SCALE as int),
        ;
    }
    clamp_exec(big + t)
}

proof fn lemma_tdiv_split(p: int, big: int, small: int, d: int)
    requires
        d > 0,
        p == big * d + small,
        (big >= 0 && small >= 0) || (big <= 0 && small <= 0),
    ensures
        tdiv(p, d) == big + tdiv(small, d),
{
    if big >= 0 && small >= 0 {
        lemma_hoist_over_denominator(small, big, d as nat);
        assert(p >= 0) by (nonlinear_arith)
            requires
                p == big * d + small,
                big >= 0,
                small >= 0,
                d > 0,
        ;
    } else {
        lemma_hoist_over_denominator(-small, -big, d as nat);
        assert(-p == (-small) + (-big) * d) by (nonlinear_arith)
            requires
                p == big * d + small,
        ;
        assert(p <= 0) by (nonlinear_arith)
            requires
                p == big * d + small,
                big <= 0,
                small <= 0,
                d > 0,
        ;
        if p == 0 {
            assert(big == 0 && small == 0) by (nonlinear_arith)
                requires
                    p == big * d + small,
                    big <= 0,
                    small <= 0,
                    d > 0,
                    p == 0,
            ;
        }
    }
}

} // verus!
