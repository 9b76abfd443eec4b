use vstd::prelude::*;

verus! {

/// A 2D vector in micro-units.
#[derive(Clone, Copy, Debug, PartialEq, Eq, Structural)]
pub struct Vec2 {
    pub x: i64,
    pub y: i64,
}

/// The logical actions held during one tick.
#[derive(Clone, Copy, Debug, PartialEq, Eq, Structural)]
pub struct Input {
    pub up: bool,
    pub down: bool,
    pub left: bool,
    pub right: bool,
    pub fire: bool,
}

/// Microseconds in one second.
pub const MICROS_PER_SECOND: u64 = 1_000_000;

/// Net contribution of a pair of opposing actions: +1, -1 or 0.
pub open spec fn axis(pos: bool, neg: bool) -> int {
    (if pos { 1int } else { 0int }) - (if neg { 1int } else { 0int })
}

pub open spec fn dir_x(input: Input) -> int {
    axis(input.right, input.left)
}

pub open spec fn dir_y(input: Input) -> int {
    axis(input.up, input.down)
}

/// Distance covered in `dt` microseconds at `speed` units per second, in
/// micro-units, capped at the largest coordinate.
pub open spec fn travel(speed: u64, dt: u64) -> int {
    if speed * dt >= i64::MAX {
        i64::MAX as int
    } else {
        speed * dt
    }
}

/// `c` is the length of each leg of a diagonal step of length `d`, rounded
/// down to whole micro-units: `2c² ≤ d² < 2(c+1)²`.
pub open spec fn is_diag_leg(c: int, d: int) -> bool {
    0 <= c && 2 * (c * c) <= d * d && d * d < 2 * ((c + 1) * (c + 1))
}

/// `len` in the direction `dir` (+1, -1 or 0).
pub open spec fn along(dir: int, len: int) -> int {
    if dir > 0 {
        len
    } else if dir < 0 {
        -len
    } else {
        0
    }
}

pub open spec fn diag_leg(d: int) -> int {
    choose|c: int| is_diag_leg(c, d)
}

/// Displacement for one tick: the held directions, normalised to unit length,
/// scaled by the travelled distance.
pub open spec fn displacement(input: Input, speed: u64, dt: u64) -> Vec2 {
    let d = travel(speed, dt);
    let leg = if dir_x(input) != 0 && dir_y(input) != 0 {
        diag_leg(d)
    } else {
        d
    };
    Vec2 { x: along(dir_x(input), leg) as i64, y: along(dir_y(input), leg) as i64 }
}

/// `v` clamped to the range of `i64`.
pub open spec fn clamp64(v: int) -> int {
    if v > i64::MAX {
        i64::MAX as int
    } else if v < i64::MIN {
        i64::MIN as int
    } else {
        v
    }
}

pub open spec fn translated(p: Vec2, d: Vec2) -> Vec2 {
    Vec2 { x: clamp64(p.x + d.x) as i64, y: clamp64(p.y + d.y) as i64 }
}

pub open spec fn abs(v: i64) -> int {
    if v < 0 {
        -(v as int)
    } else {
        v as int
    }
}

pub open spec fn magnitude_sq(v: Vec2) -> int {
    v.x * v.x + v.y * v.y
}

proof fn lemma_square_monotone(a: int, b: int)
    requires
        0 <= a <= b,
    ensures
        a * a <= b * b,
{
    assert(a * a <= b * b) by (nonlinear_arith)
        requires
            0 <= a <= b,
    ;
}

proof fn lemma_mul_bound(a: int, b: int, m: int)
    requires
        0 <= a <= m,
        0 <= b <= m,
    ensures
        0 <= a * b <= m * m,
{
    assert(0 <= a * b <= m * m) by (nonlinear_arith)
        requires
            0 <= a <= m,
            0 <= b <= m,
    ;
}

/// At most one leg length fits a given diagonal step.
pub proof fn lemma_diag_leg_unique(c1: int, c2: int, d: int)
    requires
        is_diag_leg(c1, d),
        is_diag_leg(c2, d),
    ensures
        c1 == c2,
{
    if c1 < c2 {
        lemma_square_monotone(c1 + 1, c2);
    } else if c2 < c1 {
        lemma_square_monotone(c2 + 1, c1);
    }
}

/// Sum of two coordinates, clamped to the range of `i64`.
pub fn add_clamped(a: i64, b: i64) -> (r: i64)
    ensures
        r == clamp64(a + b),
{
    let s: i128 = a as i128 + b as i128;
    if s > i64::MAX as i128 {
        i64::MAX
    } else if s < i64::MIN as i128 {
        i64::MIN
    } else {
        s as i64
    }
}

pub fn translate(p: Vec2, d: Vec2) -> (r: Vec2)
    ensures
        r == translated(p, d),
{
    Vec2 { x: add_clamped(p.x, d.x), y: add_clamped(p.y, d.y) }
}

/// Distance covered in `dt` microseconds at `speed` units per second.
pub fn travel_distance(speed: u64, dt: u64) -> (r: u64)
    ensures
        r == travel(speed, dt),
{
    proof {
        lemma_mul_bound(speed as int, dt as int, u64::MAX as int);
    }
    let p: u128 = speed as u128 * dt as u128;
    if p >= i64::MAX as u128 {
        i64::MAX as u64
    } else {
        p as u64
    }
}

/// Leg length of a diagonal step of length `d`, found by bisection.
pub fn diagonal_leg(d: u64) -> (c: u64)
    requires
        d <= i64::MAX,
    ensures
        is_diag_leg(c as int, d as int),
        c == diag_leg(d as int),
        c <= d,
{
    proof {
        lemma_mul_bound(d as int, d as int, i64::MAX as int);
    }
    let dd: u128 = d as u128 * d as u128;
    proof {
        assert((d as int) * (d as int) < 2 * ((d + 1) * (d + 1))) by (nonlinear_arith)
            requires
                d >= 0,
        ;
        lemma_square_monotone(d as int, i64::MAX as int);
    }
    let mut lo: u64 = 0;
    let mut hi: u64 = d + 1;
    while hi - lo > 1
        invariant
            lo < hi <= d + 1,
            d <= i64::MAX,
            dd == d * d,
            dd <= i64::MAX * i64::MAX,
            2 * (lo * lo) <= dd,
            dd < 2 * (hi * hi),
        decreases hi - lo,
    {
        let mid: u64 = lo + (hi - lo) / 2;
        proof {
            lemma_square_monotone(mid as int, d as int);
        }
        if 2 * (mid as u128 * mid as u128) <= dd {
            lo = mid;
        } else {
            hi = mid;
        }
    }
    proof {
        assert(is_diag_leg(lo as int, d as int));
        let c = diag_leg(d as int);
        lemma_diag_leg_unique(c, lo as int, d as int);
    }
    lo
}

fn axis_value(pos: bool, neg: bool) -> (r: i64)
    ensures
        r == axis(pos, neg),
{
    let p: i64 = if pos { 1 } else { 0 };
    let n: i64 = if neg { 1 } else { 0 };
    p - n
}

/// Displacement of a controlled actor for one tick: the held directions
/// (up +Y, down −Y, left −X, right +X), normalised so that a diagonal step is
/// no longer than a straight one, times `speed` units per second over `dt`
/// microseconds.
pub fn movement(input: &Input, speed: u64, dt: u64) -> (r: Vec2)
    ensures
        r == displacement(*input, speed, dt),
{
    let d = travel_distance(speed, dt);
    let dx = axis_value(input.right, input.left);
    let dy = axis_value(input.up, input.down);
    let leg: u64 = if dx != 0 && dy != 0 {
        diagonal_leg(d)
    } else {
        d
    };
    let lg: i64 = leg as i64;
    Vec2 { x: scale(dx, lg), y: scale(dy, lg) }
}

fn scale(dir: i64, len: i64) -> (r: i64)
    requires
        -1 <= dir <= 1,
        0 <= len,
    ensures
        r == along(dir as int, len as int),
{
    if dir > 0 {
        len
    } else if dir < 0 {
        -len
    } else {
        0
    }
}

/// Two opposing actions held together cancel: the tick moves nothing.
pub proof fn lemma_opposing_cancel(input: Input, speed: u64, dt: u64)
    requires
        (input.up && input.down && !input.left && !input.right) || (input.left && input.right
            && !input.up && !input.down),
    ensures
        displacement(input, speed, dt) == (Vec2 { x: 0, y: 0 }),
        translated(Vec2 { x: 0, y: 0 }, displacement(input, speed, dt)) == (Vec2 { x: 0, y: 0 }),
        forall|p: Vec2| translated(p, displacement(input, speed, dt)) == p,
{
}

/// A diagonal step (two orthogonal actions held) is no longer than a step
/// along one axis in the same tick, and falls short of it only by the
/// rounding of each leg to whole micro-units.
pub proof fn lemma_diagonal_normalised(diag: Input, straight: Input, speed: u64, dt: u64)
    requires
        dir_x(diag) != 0,
        dir_y(diag) != 0,
        (dir_x(straight) == 0) != (dir_y(straight) == 0),
    ensures
        magnitude_sq(displacement(straight, speed, dt)) == travel(speed, dt) * travel(speed, dt),
        magnitude_sq(displacement(diag, speed, dt)) <= magnitude_sq(
            displacement(straight, speed, dt),
        ),
        magnitude_sq(displacement(straight, speed, dt)) < (abs(displacement(diag, speed, dt).x)
            + 1) * (abs(displacement(diag, speed, dt).x) + 1) + (abs(displacement(diag, speed, dt).y)
            + 1) * (abs(displacement(diag, speed, dt).y) + 1),
{
    let d = travel(speed, dt);
    let c = diag_leg(d);
    lemma_exists_diag_leg(d);
    let v = displacement(diag, speed, dt);
    assert(v.x == c || v.x == -c);
    assert(v.y == c || v.y == -c);
    assert(v.x * v.x == c * c) by (nonlinear_arith)
        requires
            v.x == c || v.x == -c,
    ;
    assert(v.y * v.y == c * c) by (nonlinear_arith)
        requires
            v.y == c || v.y == -c,
    ;
    let s = displacement(straight, speed, dt);
    if dir_x(straight) == 0 {
        assert(s.x == 0 && (s.y == d || s.y == -d));
    } else {
        assert(s.y == 0 && (s.x == d || s.x == -d));
    }
    assert(s.x * s.x + s.y * s.y == d * d) by (nonlinear_arith)
        requires
            (s.x == 0 && (s.y == d || s.y == -d)) || (s.y == 0 && (s.x == d || s.x == -d)),
    ;
}

/// Every distance that a tick can cover has a diagonal leg.
pub proof fn lemma_exists_diag_leg(d: int)
    requires
        0 <= d <= i64::MAX,
    ensures
        is_diag_leg(diag_leg(d), d),
        0 <= diag_leg(d) <= d,
{
    let c = lemma_leg_search(d, 0);
    assert(is_diag_leg(c, d));
    lemma_diag_leg_unique(c, diag_leg(d), d);
    if diag_leg(d) > d {
        lemma_square_monotone(d + 1, diag_leg(d));
        assert(false) by (nonlinear_arith)
            requires
                (d + 1) * (d + 1) <= diag_leg(d) * diag_leg(d),
                2 * (diag_leg(d) * diag_leg(d)) <= d * d,
                d >= 0,
        ;
    }
}

proof fn lemma_leg_search(d: int, lo: int) -> (c: int)
    requires
        0 <= d,
        0 <= lo <= d,
        2 * (lo * lo) <= d * d,
    ensures
        is_diag_leg(c, d),
    decreases d - lo,
{
    if d * d < 2 * ((lo + 1) * (lo + 1)) {
        lo
    } else if lo + 1 > d {
        assert(d * d < 2 * ((lo + 1) * (lo + 1))) by (nonlinear_arith)
            requires
                lo + 1 > d >= 0,
        ;
        lo
    } else {
        lemma_leg_search(d, lo + 1)
    }
}

} // verus!
