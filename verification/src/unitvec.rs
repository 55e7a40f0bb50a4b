use vstd::prelude::*;
use vstd::arithmetic::div_mod::lemma_fundamental_div_mod;
use crate::geom::Vec2i;

verus! {

/// Velocity directions are fixed-point unit vectors: a vector of length
/// `UNIT` stands for a unit vector of the plane.
pub const UNIT: i64 = 10000;

/// Rotation by just under 15 degrees is done with the Pythagorean triple
/// (1419, 380, 1469): cos = 1419/1469, sin = 380/1469, an exact rational
/// rotation whose angle is 14.99 degrees.
pub const ROT_C: i64 = 1419;

pub const ROT_S: i64 = 380;

pub const ROT_D: i64 = 1469;

pub open spec fn norm2(x: int, y: int) -> int {
    x * x + y * y
}

/// A fixed-point vector counts as unit-length when its length is within
/// 3 grid steps of `UNIT` (a relative tolerance of 0.03%).
pub open spec fn is_unit(x: int, y: int) -> bool {
    (UNIT - 3) * (UNIT - 3) <= norm2(x, y) <= (UNIT + 3) * (UNIT + 3)
}

/// The looser invariant every live ball velocity keeps: wall bounces pin one
/// component to full `UNIT`, which can stretch the length up to sqrt(2).
pub open spec fn vel_ok(v: Vec2i) -> bool {
    &&& norm2(v.x as int, v.y as int) >= 99_000_000
    &&& -20000 <= v.x <= 20000
    &&& -20000 <= v.y <= 20000
}

/// Division that truncates toward zero, as Rust's `/` does on signed values.
pub open spec fn tdiv(a: int, d: int) -> int {
    if a >= 0 {
        a / d
    } else {
        -((-a) / d)
    }
}

/// The integer square root, defined by counting up.
pub open spec fn isqrt_spec(m: nat) -> nat
    decreases m,
{
    if m == 0 {
        0
    } else {
        let r = isqrt_spec((m - 1) as nat);
        if (r + 1) * (r + 1) <= m {
            r + 1
        } else {
            r
        }
    }
}

pub proof fn lemma_isqrt_bounds(m: nat)
    ensures
        isqrt_spec(m) * isqrt_spec(m) <= m,
        m < (isqrt_spec(m) + 1) * (isqrt_spec(m) + 1),
    decreases m,
{
    if m == 0 {
        assert(isqrt_spec(0) == 0);
        assert(isqrt_spec(m) * isqrt_spec(m) <= m);
        let s = isqrt_spec(m) as int;
        assert((s + 1) * (s + 1) == 1) by (nonlinear_arith)
            requires
                s == 0,
        ;
        assert(m < (isqrt_spec(m) + 1) * (isqrt_spec(m) + 1));
    } else {
        lemma_isqrt_bounds((m - 1) as nat);
        let r = isqrt_spec((m - 1) as nat);
        assert(r * r <= (m - 1) as nat);
        assert(((m - 1) as nat) < (r + 1) * (r + 1));
        if (r + 1) * (r + 1) <= m {
            assert(isqrt_spec(m) == r + 1);
            assert(m <= (r + 1) * (r + 1));
            let s = (r + 1) as int;
            assert((s + 1) * (s + 1) > s * s) by (nonlinear_arith)
                requires
                    s >= 0,
            ;
            assert(isqrt_spec(m) * isqrt_spec(m) <= m);
            assert(m < (isqrt_spec(m) + 1) * (isqrt_spec(m) + 1));
        } else {
            assert(isqrt_spec(m) == r);
            assert(m < (r + 1) * (r + 1));
            assert(isqrt_spec(m) * isqrt_spec(m) <= m);
            assert(m < (isqrt_spec(m) + 1) * (isqrt_spec(m) + 1));
        }
    }
}

pub proof fn lemma_isqrt_unique(m: nat, a: nat)
    requires
        a * a <= m,
        m < (a + 1) * (a + 1),
    ensures
        a == isqrt_spec(m),
{
    lemma_isqrt_bounds(m);
    let b = isqrt_spec(m);
    if a < b {
        assert((a + 1) * (a + 1) <= b * b) by (nonlinear_arith)
            requires
                a + 1 <= b,
        ;
    }
    if b < a {
        assert((b + 1) * (b + 1) <= a * a) by (nonlinear_arith)
            requires
                b + 1 <= a,
        ;
    }
}

/// Integer square root by counting up from zero.
pub fn isqrt(m: u64) -> (r: u64)
    requires
        m <= 0x1_0000_0000_0000,
    ensures
        r == isqrt_spec(m as nat),
        r * r <= m,
        m < (r + 1) * (r + 1),
        r <= 0x100_0000,
{
    let mut r: u64 = 0;
    loop
        invariant
            m <= 0x1_0000_0000_0000,
            r * r <= m,
            r <= 0x100_0000,
        decreases 0x100_0000 - r,
    {
        proof {
            assert((r + 1) * (r + 1) <= 0x100_0001 * 0x100_0001) by (nonlinear_arith)
                requires
                    r <= 0x100_0000,
            ;
        }
        let next = (r + 1) * (r + 1);
        if next <= m {
            proof {
                assert((r + 1) <= 0x100_0000) by (nonlinear_arith)
                    requires
                        (r + 1) * (r + 1) <= 0x1_0000_0000_0000,
                        r <= 0x100_0000,
                ;
            }
            r = r + 1;
        } else {
            proof {
                lemma_isqrt_unique(m as nat, r as nat);
            }
            return r;
        }
    }
}

/// Truncating signed division, matching `tdiv`.
pub fn tdiv_exec(a: i64, d: i64) -> (q: i64)
    requires
        0 < d <= 0x1_0000_0000,
        -9_223_372_036_854_775_807 <= a <= 9_223_372_036_854_775_807,
    ensures
        q == tdiv(a as int, d as int),
{
    if a >= 0 {
        ((a as u64) / (d as u64)) as i64
    } else {
        let neg = (-a) as u64;
        -((neg / (d as u64)) as i64)
    }
}

/// The components of a vector rescaled to length `UNIT`; `n` names the
/// integer square root of the squared length.
pub open spec fn scaled_x(x: int, y: int) -> int {
    tdiv(x * UNIT, isqrt_spec(norm2(x, y) as nat) as int)
}

pub open spec fn scaled_y(x: int, y: int) -> int {
    tdiv(y * UNIT, isqrt_spec(norm2(x, y) as nat) as int)
}

proof fn lemma_square_le(a: int, b: int)
    requires
        0 <= a <= b,
    ensures
        a * a <= b * b,
{
    assert(a * a <= b * b) by (nonlinear_arith)
        requires
            0 <= a <= b,
    ;
}

proof fn lemma_square_lt(a: int, b: int)
    requires
        0 <= a < b,
    ensures
        a * a < b * b,
{
    assert(a * a < b * b) by (nonlinear_arith)
        requires
            0 <= a < b,
    ;
}

/// The heart of renormalization: if `n` is the integer square root of the
/// squared length of `(mx, my)` and `n` is at least `UNIT / 2`, the rescaled
/// magnitudes `qx, qy` form a vector of length within 3 of `UNIT`.
proof fn lemma_renorm_unit(mx: int, my: int, n: int, qx: int, qy: int)
    requires
        mx >= 0,
        my >= 0,
        n >= 1,
        2 * n >= UNIT,
        n * n <= mx * mx + my * my,
        mx * mx + my * my < (n + 1) * (n + 1),
        qx >= 0,
        qy >= 0,
        qx * n <= mx * UNIT < (qx + 1) * n,
        qy * n <= my * UNIT < (qy + 1) * n,
    ensures
        is_unit(qx, qy),
        qx <= UNIT + 2,
        qy <= UNIT + 2,
{
    let m = mx * mx + my * my;
    let u = UNIT as int;
    // Upper bound: (qx^2 + qy^2) n^2 <= m u^2 < ((n+1) u)^2 <= ((u+2) n)^2.
    assert(qx * n * (qx * n) <= mx * u * (mx * u)) by (nonlinear_arith)
        requires
            0 <= qx * n,
            qx * n <= mx * u,
    ;
    assert(qy * n * (qy * n) <= my * u * (my * u)) by (nonlinear_arith)
        requires
            0 <= qy * n,
            qy * n <= my * u,
    ;
    assert(qx * n * (qx * n) + qy * n * (qy * n) == (qx * qx + qy * qy) * (n * n))
        by (nonlinear_arith);
    assert(mx * u * (mx * u) + my * u * (my * u) == m * (u * u)) by (nonlinear_arith)
        requires
            m == mx * mx + my * my,
    ;
    assert((qx * qx + qy * qy) * (n * n) <= m * (u * u));
    assert(m * (u * u) < ((n + 1) * (n + 1)) * (u * u)) by (nonlinear_arith)
        requires
            m < (n + 1) * (n + 1),
            u > 0,
    ;
    assert(((n + 1) * (n + 1)) * (u * u) == ((n + 1) * u) * ((n + 1) * u)) by (nonlinear_arith);
    assert((n + 1) * u <= (u + 2) * n) by {
        assert(n * u + u <= u * n + 2 * n) by (nonlinear_arith)
            requires
                u <= 2 * n,
        ;
        assert((n + 1) * u == n * u + u) by (nonlinear_arith);
        assert((u + 2) * n == u * n + 2 * n) by (nonlinear_arith);
    }
    lemma_square_le((n + 1) * u, (u + 2) * n);
    assert(((u + 2) * n) * ((u + 2) * n) == ((u + 2) * (u + 2)) * (n * n)) by (nonlinear_arith);
    assert((qx * qx + qy * qy) * (n * n) < ((u + 2) * (u + 2)) * (n * n));
    assert(qx * qx + qy * qy < (u + 2) * (u + 2)) by (nonlinear_arith)
        requires
            (qx * qx + qy * qy) * (n * n) < ((u + 2) * (u + 2)) * (n * n),
            n >= 1,
    ;
    // Per-component bound: qx <= u + 2.
    assert(qx * qx <= qx * qx + qy * qy) by (nonlinear_arith)
        requires
            qy * qy >= 0,
    ;
    if qx > u + 2 {
        lemma_square_lt(u + 2, qx);
        assert(false);
    }
    if qy > u + 2 {
        lemma_square_lt(u + 2, qy);
        assert(false);
    }
    // Lower bound: n^2 u^2 <= m u^2 < ((qx+1)^2 + (qy+1)^2) n^2.
    assert(mx * u * (mx * u) < (qx + 1) * n * ((qx + 1) * n)) by (nonlinear_arith)
        requires
            0 <= mx * u,
            mx * u < (qx + 1) * n,
    ;
    assert(my * u * (my * u) < (qy + 1) * n * ((qy + 1) * n)) by (nonlinear_arith)
        requires
            0 <= my * u,
            my * u < (qy + 1) * n,
    ;
    assert((qx + 1) * n * ((qx + 1) * n) + (qy + 1) * n * ((qy + 1) * n) == ((qx + 1) * (qx + 1)
        + (qy + 1) * (qy + 1)) * (n * n)) by (nonlinear_arith);
    assert(m * (u * u) < ((qx + 1) * (qx + 1) + (qy + 1) * (qy + 1)) * (n * n));
    assert((n * n) * (u * u) <= m * (u * u)) by (nonlinear_arith)
        requires
            n * n <= m,
            u * u >= 0,
    ;
    assert((n * n) * (u * u) == (u * u) * (n * n)) by (nonlinear_arith);
    assert(u * u < (qx + 1) * (qx + 1) + (qy + 1) * (qy + 1)) by (nonlinear_arith)
        requires
            (u * u) * (n * n) < ((qx + 1) * (qx + 1) + (qy + 1) * (qy + 1)) * (n * n),
            n >= 1,
    ;
    assert((qx + 1) * (qx + 1) + (qy + 1) * (qy + 1) == qx * qx + qy * qy + 2 * qx + 2 * qy + 2)
        by (nonlinear_arith);
    assert(qx * qx + qy * qy > u * u - 2 * qx - 2 * qy - 2);
    assert((u - 3) * (u - 3) <= qx * qx + qy * qy);
}

/// Rescale a vector to length `UNIT` (within the `is_unit` tolerance),
/// keeping its direction.
pub fn normalize(x: i64, y: i64) -> (r: Vec2i)
    requires
        -1_000_000 <= x <= 1_000_000,
        -1_000_000 <= y <= 1_000_000,
        norm2(x as int, y as int) >= 90_000_000,
    ensures
        r.x == scaled_x(x as int, y as int),
        r.y == scaled_y(x as int, y as int),
        is_unit(r.x as int, r.y as int),
        -(UNIT + 2) <= r.x <= UNIT + 2,
        -(UNIT + 2) <= r.y <= UNIT + 2,
        (x >= 0 ==> r.x >= 0) && (x <= 0 ==> r.x <= 0),
        (y >= 0 ==> r.y >= 0) && (y <= 0 ==> r.y <= 0),
{
    let mx: u64 = if x >= 0 {
        x as u64
    } else {
        (-x) as u64
    };
    let my: u64 = if y >= 0 {
        y as u64
    } else {
        (-y) as u64
    };
    proof {
        assert(mx * mx == x * x && my * my == y * y) by (nonlinear_arith)
            requires
                mx == if x >= 0 { x as int } else { -(x as int) },
                my == if y >= 0 { y as int } else { -(y as int) },
        ;
        assert(mx <= 1_000_000 && my <= 1_000_000);
        assert(mx * mx <= 1_000_000_000_000 && my * my <= 1_000_000_000_000) by (nonlinear_arith)
            requires
                mx <= 1_000_000,
                my <= 1_000_000,
        ;
    }
    let m: u64 = mx * mx + my * my;
    let n: u64 = isqrt(m);
    proof {
        // n >= UNIT/2: m >= 90_000_000 and n is its integer square root.
        if n < 5000 {
            assert((n + 1) * (n + 1) <= 5000 * 5000) by (nonlinear_arith)
                requires
                    n + 1 <= 5000,
            ;
            assert(false);
        }
    }
    let qx: u64 = mx * (UNIT as u64) / n;
    let qy: u64 = my * (UNIT as u64) / n;
    proof {
        lemma_fundamental_div_mod((mx * (UNIT as u64)) as int, n as int);
        lemma_fundamental_div_mod((my * (UNIT as u64)) as int, n as int);
        assert(qx * n <= mx * UNIT < (qx + 1) * n) by (nonlinear_arith)
            requires
                mx * UNIT == n * qx + (mx * (UNIT as u64)) as int % (n as int),
                0 <= (mx * (UNIT as u64)) as int % (n as int) < n,
                n >= 1,
        ;
        assert(qy * n <= my * UNIT < (qy + 1) * n) by (nonlinear_arith)
            requires
                my * UNIT == n * qy + (my * (UNIT as u64)) as int % (n as int),
                0 <= (my * (UNIT as u64)) as int % (n as int) < n,
                n >= 1,
        ;
        lemma_renorm_unit(mx as int, my as int, n as int, qx as int, qy as int);
        // Tie the unsigned computation to the signed spec.
        assert(tdiv(x * UNIT, n as int) == if x >= 0 { qx as int } else { -(qx as int) });
        assert(tdiv(y * UNIT, n as int) == if y >= 0 { qy as int } else { -(qy as int) });
        assert(norm2(x as int, y as int) == m);
        lemma_isqrt_unique(m as nat, n as nat);
    }
    let rx: i64 = if x >= 0 {
        qx as i64
    } else {
        -(qx as i64)
    };
    let ry: i64 = if y >= 0 {
        qy as i64
    } else {
        -(qy as i64)
    };
    proof {
        assert(norm2(rx as int, ry as int) == qx * qx + qy * qy) by (nonlinear_arith)
            requires
                rx == qx || rx == -(qx as int),
                ry == qy || ry == -(qy as int),
        ;
    }
    Vec2i { x: rx, y: ry }
}

/// The x component of the rotation of `(x, y)` by just under 15 degrees
/// (counterclockwise in screen coordinates when `ccw` is set), before
/// renormalization.
pub open spec fn rot_x(x: int, y: int, ccw: bool) -> int {
    if ccw {
        tdiv(ROT_C * x - ROT_S * y, ROT_D as int)
    } else {
        tdiv(ROT_C * x + ROT_S * y, ROT_D as int)
    }
}

pub open spec fn rot_y(x: int, y: int, ccw: bool) -> int {
    if ccw {
        tdiv(ROT_S * x + ROT_C * y, ROT_D as int)
    } else {
        tdiv(ROT_C * y - ROT_S * x, ROT_D as int)
    }
}

/// The rotated and renormalized vector the collision resolver perturbs a
/// near-vertical velocity with.
pub open spec fn rotated_unit(v: Vec2i, ccw: bool) -> Vec2i {
    let rx = rot_x(v.x as int, v.y as int, ccw);
    let ry = rot_y(v.x as int, v.y as int, ccw);
    Vec2i { x: scaled_x(rx, ry) as i64, y: scaled_y(rx, ry) as i64 }
}

/// After the exact rational rotation is truncated to the grid, the squared
/// length moves by less than 170000; starting from `vel_ok` it stays far
/// above the floor `normalize` needs.
proof fn lemma_rot_norm(x: int, y: int, t: int, w: int, rx: int, ry: int)
    requires
        norm2(x, y) >= 99_000_000,
        -20000 <= x <= 20000,
        -20000 <= y <= 20000,
        t * t + w * w == norm2(x, y) * (ROT_D * ROT_D),
        rx == tdiv(t, ROT_D as int),
        ry == tdiv(w, ROT_D as int),
    ensures
        norm2(rx, ry) >= 90_000_000,
        norm2(rx, ry) <= norm2(x, y),
        -30000 <= rx <= 30000,
        -30000 <= ry <= 30000,
{
    let d = ROT_D as int;
    let mt = if t >= 0 { t } else { -t };
    let mw = if w >= 0 { w } else { -w };
    let mrx = if rx >= 0 { rx } else { -rx };
    let mry = if ry >= 0 { ry } else { -ry };
    lemma_fundamental_div_mod(mt, d);
    lemma_fundamental_div_mod(mw, d);
    assert(mrx == mt / d && mry == mw / d);
    assert(mrx * d <= mt < (mrx + 1) * d) by (nonlinear_arith)
        requires
            mt == d * mrx + mt % d,
            0 <= mt % d < d,
            d >= 1,
    ;
    assert(mry * d <= mw < (mry + 1) * d) by (nonlinear_arith)
        requires
            mw == d * mry + mw % d,
            0 <= mw % d < d,
            d >= 1,
    ;
    // Upper: norm2(rx, ry) * d^2 <= t^2 + w^2 = norm2(x, y) * d^2.
    assert(mrx * d * (mrx * d) <= mt * mt) by (nonlinear_arith)
        requires
            0 <= mrx * d <= mt,
    ;
    assert(mry * d * (mry * d) <= mw * mw) by (nonlinear_arith)
        requires
            0 <= mry * d <= mw,
    ;
    assert(mrx * d * (mrx * d) + mry * d * (mry * d) == (mrx * mrx + mry * mry) * (d * d))
        by (nonlinear_arith);
    assert(mt * mt + mw * mw == norm2(x, y) * (d * d)) by (nonlinear_arith)
        requires
            mt == t || mt == -t,
            mw == w || mw == -w,
            t * t + w * w == norm2(x, y) * (d * d),
    ;
    assert((mrx * mrx + mry * mry) * (d * d) <= norm2(x, y) * (d * d));
    assert(mrx * mrx + mry * mry <= norm2(x, y)) by (nonlinear_arith)
        requires
            (mrx * mrx + mry * mry) * (d * d) <= norm2(x, y) * (d * d),
            d >= 1,
    ;
    assert(norm2(rx, ry) == mrx * mrx + mry * mry) by (nonlinear_arith)
        requires
            mrx == rx || mrx == -rx,
            mry == ry || mry == -ry,
    ;
    // Components: norm2(x, y) <= 800_000_000, so mrx <= 30000.
    assert(norm2(x, y) <= 800_000_000) by (nonlinear_arith)
        requires
            -20000 <= x <= 20000,
            -20000 <= y <= 20000,
    ;
    assert(mrx * mrx <= 800_000_000 && mry * mry <= 800_000_000) by (nonlinear_arith)
        requires
            mrx * mrx + mry * mry <= 800_000_000,
            mrx * mrx >= 0,
            mry * mry >= 0,
    ;
    if mrx > 30000 {
        lemma_square_lt(30000, mrx);
        assert(false);
    }
    if mry > 30000 {
        lemma_square_lt(30000, mry);
        assert(false);
    }
    // Lower: norm2(x, y) * d^2 < ((mrx+1)^2 + (mry+1)^2) * d^2.
    assert(mt * mt < (mrx + 1) * d * ((mrx + 1) * d)) by (nonlinear_arith)
        requires
            0 <= mt,
            mt < (mrx + 1) * d,
    ;
    assert(mw * mw < (mry + 1) * d * ((mry + 1) * d)) by (nonlinear_arith)
        requires
            0 <= mw,
            mw < (mry + 1) * d,
    ;
    assert((mrx + 1) * d * ((mrx + 1) * d) + (mry + 1) * d * ((mry + 1) * d) == ((mrx + 1) * (mrx
        + 1) + (mry + 1) * (mry + 1)) * (d * d)) by (nonlinear_arith);
    assert(norm2(x, y) * (d * d) < ((mrx + 1) * (mrx + 1) + (mry + 1) * (mry + 1)) * (d * d));
    assert(norm2(x, y) < (mrx + 1) * (mrx + 1) + (mry + 1) * (mry + 1)) by (nonlinear_arith)
        requires
            norm2(x, y) * (d * d) < ((mrx + 1) * (mrx + 1) + (mry + 1) * (mry + 1)) * (d * d),
            d >= 1,
    ;
    assert((mrx + 1) * (mrx + 1) + (mry + 1) * (mry + 1) == mrx * mrx + mry * mry + 2 * mrx + 2
        * mry + 2) by (nonlinear_arith);
    assert(mrx * mrx + mry * mry > norm2(x, y) - 2 * mrx - 2 * mry - 2);
}

/// Rotate a velocity by just under 15 degrees and renormalize, as the
/// resolver's angle perturbation asks.
pub fn rotate15(v: Vec2i, ccw: bool) -> (r: Vec2i)
    requires
        vel_ok(v),
    ensures
        r == rotated_unit(v, ccw),
        is_unit(r.x as int, r.y as int),
        vel_ok(r),
{
    let tx: i64 = if ccw {
        ROT_C * v.x - ROT_S * v.y
    } else {
        ROT_C * v.x + ROT_S * v.y
    };
    let ty: i64 = if ccw {
        ROT_S * v.x + ROT_C * v.y
    } else {
        ROT_C * v.y - ROT_S * v.x
    };
    proof {
        if ccw {
            assert(tx * tx + ty * ty == (v.x * v.x + v.y * v.y) * (1469 * 1469))
                by (nonlinear_arith)
                requires
                    tx == 1419 * v.x - 380 * v.y,
                    ty == 380 * v.x + 1419 * v.y,
            ;
        } else {
            assert(tx * tx + ty * ty == (v.x * v.x + v.y * v.y) * (1469 * 1469))
                by (nonlinear_arith)
                requires
                    tx == 1419 * v.x + 380 * v.y,
                    ty == 1419 * v.y - 380 * v.x,
            ;
        }
        assert(tx * tx + ty * ty == norm2(v.x as int, v.y as int) * (ROT_D * ROT_D));
    }
    let rx: i64 = tdiv_exec(tx, ROT_D);
    let ry: i64 = tdiv_exec(ty, ROT_D);
    proof {
        lemma_rot_norm(v.x as int, v.y as int, tx as int, ty as int, rx as int, ry as int);
    }
    let out = normalize(rx, ry);
    proof {
        assert(norm2(out.x as int, out.y as int) >= (UNIT - 3) * (UNIT - 3));
    }
    out
}

/// Truncating division keeps the sign of its dividend, and a bound on the
/// dividend gives a bound on the quotient.
pub proof fn lemma_tdiv_sign_bound(a: int, d: int, c: int)
    requires
        d >= 1,
        c >= 0,
        -(c * d) <= a <= c * d,
    ensures
        -c <= tdiv(a, d) <= c,
        a >= 0 ==> tdiv(a, d) >= 0,
        a <= 0 ==> tdiv(a, d) <= 0,
{
    if a >= 0 {
        let q = a / d;
        lemma_fundamental_div_mod(a, d);
        assert(0 <= q <= c) by (nonlinear_arith)
            requires
                a == d * q + a % d,
                0 <= a % d < d,
                d >= 1,
                0 <= a <= c * d,
        ;
    } else {
        let q = (-a) / d;
        lemma_fundamental_div_mod(-a, d);
        assert(0 <= q <= c) by (nonlinear_arith)
            requires
                -a == d * q + (-a) % d,
                0 <= (-a) % d < d,
                d >= 1,
                0 <= -a <= c * d,
        ;
    }
}

} // verus!
