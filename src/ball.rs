use vstd::prelude::*;
use rand::rngs::StdRng;
use crate::geometry::{
    Color, Vec2, COORD_LIMIT, limit, tdiv, cdiv, isqrt_spec, saturate, div_toward_zero,
    div_away_from_zero, isqrt, lemma_ceil_div_bound, lemma_square_bound,
};
use crate::random::random_in;

verus! {

/// Smallest radius of a randomly created ball (10 pixels).
pub const MIN_RADIUS: i64 = 10_000;

/// Bound (exclusive) on the radius of a randomly created ball (50 pixels).
pub const MAX_RADIUS: i64 = 50_000;

/// Radius up to which a ball takes the full impulse; larger balls are
/// proportionally heavier (20 pixels).
pub const FALLOFF_RADIUS: i64 = 20_000;

/// Fixed-point scale of `Ball::get_bounce_amount`: this value stands for 1.
pub const AMOUNT_SCALE: i64 = 1_000_000;

/// Part of the penetration depth added to the velocity on a collision (0.05).
pub const BOUNCE_NUM: i64 = 5;
pub const BOUNCE_DEN: i64 = 100;

/// Part of the penetration depth added to the position on a collision (0.6).
pub const JUMP_NUM: i64 = 6;
pub const JUMP_DEN: i64 = 10;

/// Restitution on a wall hit is `1 / WALL_DEN` (0.5).
pub const WALL_DEN: i64 = 2;

/// Velocity gained per frame while airborne (0.5 pixels per frame).
pub const GRAVITY: i64 = 500;

/// Mathematical model of a ball.
pub struct BallView {
    pub x: int,
    pub y: int,
    pub vx: int,
    pub vy: int,
    pub radius: int,
    pub color: Color,
}

pub open spec fn in_limit(v: int) -> bool {
    -COORD_LIMIT <= v <= COORD_LIMIT
}

impl BallView {
    /// A positive radius, and every coordinate within the coordinate limit.
    pub open spec fn wf(self) -> bool {
        &&& 0 < self.radius <= COORD_LIMIT
        &&& in_limit(self.x)
        &&& in_limit(self.y)
        &&& in_limit(self.vx)
        &&& in_limit(self.vy)
    }
}

/// Squared distance between two points.
pub open spec fn dist2(ax: int, ay: int, bx: int, by: int) -> int {
    (ax - bx) * (ax - bx) + (ay - by) * (ay - by)
}

/// The two circles touch or overlap.
pub open spec fn collides_spec(a: BallView, b: BallView) -> bool {
    dist2(a.x, a.y, b.x, b.y) <= (a.radius + b.radius) * (a.radius + b.radius)
}

/// The point lies inside or on the circle.
pub open spec fn contains_spec(a: BallView, px: int, py: int) -> bool {
    dist2(a.x, a.y, px, py) <= a.radius * a.radius
}

/// How strongly a ball of this radius reacts to a push, in units of
/// `AMOUNT_SCALE`: full strength up to `FALLOFF_RADIUS`, falling off as the
/// inverse of the radius beyond, rounded up so that it never reaches zero.
pub open spec fn bounce_amount_spec(radius: int) -> int {
    if radius <= FALLOFF_RADIUS {
        AMOUNT_SCALE as int
    } else {
        (AMOUNT_SCALE * FALLOFF_RADIUS + radius - 1) / radius
    }
}

/// Scales a displacement by the collision bounce factor and the ball's amount.
pub open spec fn impulse_spec(u: int, radius: int) -> int {
    tdiv(u * BOUNCE_NUM * bounce_amount_spec(radius), BOUNCE_DEN * AMOUNT_SCALE)
}

/// Reflects a velocity component off a wall, damped by the restitution and
/// the ball's amount; the magnitude is rounded up, so a moving ball always
/// comes back moving.
pub open spec fn wall_spec(v: int, radius: int) -> int {
    -cdiv(v * bounce_amount_spec(radius), WALL_DEN * AMOUNT_SCALE)
}

/// Separation direction scaled by the penetration depth: the vector from
/// `o` to `b` scaled to length `force`, or `(force, 0)` where the centers
/// coincide.
pub open spec fn separation_spec(b: BallView, o: BallView) -> (int, int) {
    let dx = b.x - o.x;
    let dy = b.y - o.y;
    let d = isqrt_spec(dx * dx + dy * dy);
    let force = b.radius + o.radius - d;
    if d == 0 {
        (force, 0)
    } else {
        (tdiv(dx * force, d), tdiv(dy * force, d))
    }
}

/// `b` pushed away from `o`: its position moves by the jump part of the
/// separation and its velocity by the impulse part.
pub open spec fn push_spec(b: BallView, o: BallView) -> BallView {
    let (ux, uy) = separation_spec(b, o);
    BallView {
        x: limit(b.x + tdiv(ux * JUMP_NUM, JUMP_DEN as int)),
        y: limit(b.y + tdiv(uy * JUMP_NUM, JUMP_DEN as int)),
        vx: limit(b.vx + impulse_spec(ux, b.radius)),
        vy: limit(b.vy + impulse_spec(uy, b.radius)),
        ..b
    }
}

/// One frame of free motion: gravity while the bottom edge is above the
/// floor, then the velocity is added to the position.
pub open spec fn fall_spec(b: BallView, height: int) -> BallView {
    let vy = if b.y + b.radius < height {
        limit(b.vy + GRAVITY)
    } else {
        b.vy
    };
    BallView { x: limit(b.x + b.vx), y: limit(b.y + vy), vy: vy, ..b }
}

pub open spec fn left_wall_spec(b: BallView) -> BallView {
    if b.x - b.radius < 0 {
        BallView { x: b.radius, vx: wall_spec(b.vx, b.radius), ..b }
    } else {
        b
    }
}

pub open spec fn right_wall_spec(b: BallView, width: int) -> BallView {
    if b.x + b.radius >= width {
        BallView { x: width - b.radius, vx: wall_spec(b.vx, b.radius), ..b }
    } else {
        b
    }
}

pub open spec fn floor_spec(b: BallView, height: int) -> BallView {
    if b.y + b.radius >= height {
        BallView { y: height - b.radius, vy: wall_spec(b.vy, b.radius), ..b }
    } else {
        b
    }
}

/// The ball clamped into the window, left wall first, then right wall, then
/// floor; there is no ceiling.
pub open spec fn walls_spec(b: BallView, width: int, height: int) -> BallView {
    floor_spec(right_wall_spec(left_wall_spec(b), width), height)
}

/// A circular body.
#[derive(Clone, Copy, Debug)]
pub struct Ball {
    position: Vec2,
    radius: i64,
    velocity: Vec2,
    color: Color,
}

impl View for Ball {
    type V = BallView;

    closed spec fn view(&self) -> BallView {
        BallView {
            x: self.position.x as int,
            y: self.position.y as int,
            vx: self.velocity.x as int,
            vy: self.velocity.y as int,
            radius: self.radius as int,
            color: self.color,
        }
    }
}

proof fn lemma_tdiv_bound(a: int, b: int)
    requires
        b >= 1,
    ensures
        a >= 0 ==> 0 <= tdiv(a, b) <= a,
        a < 0 ==> a <= tdiv(a, b) <= 0,
{
    let m = if a >= 0 { a } else { -a };
    vstd::arithmetic::div_mod::lemma_div_pos_is_pos(m, b);
    vstd::arithmetic::div_mod::lemma_div_is_ordered_by_denominator(m, 1, b);
}

/// The bounce amount is positive and at most full strength.
pub proof fn lemma_bounce_amount_range(radius: int)
    requires
        0 < radius,
    ensures
        0 < bounce_amount_spec(radius) <= AMOUNT_SCALE,
{
    if radius > FALLOFF_RADIUS {
        assert(AMOUNT_SCALE * FALLOFF_RADIUS <= AMOUNT_SCALE * radius) by (nonlinear_arith)
            requires
                radius > FALLOFF_RADIUS,
        ;
        lemma_ceil_div_bound((AMOUNT_SCALE * FALLOFF_RADIUS) as int, AMOUNT_SCALE as int, radius);
    }
}

/// A wall hit turns a velocity component around: a moving ball comes back
/// moving the other way, one at rest stays at rest, and it never speeds up.
pub proof fn lemma_wall_reverses(v: int, radius: int)
    requires
        0 < radius,
    ensures
        v > 0 ==> -v <= wall_spec(v, radius) < 0,
        v < 0 ==> 0 < wall_spec(v, radius) <= -v,
        v == 0 ==> wall_spec(v, radius) == 0,
{
    lemma_bounce_amount_range(radius);
    lemma_scaled_bound(
        v,
        bounce_amount_spec(radius),
        AMOUNT_SCALE as int,
        (WALL_DEN * AMOUNT_SCALE) as int,
    );
}

fn bounce_amount(radius: i64) -> (r: i64)
    requires
        0 < radius,
    ensures
        r == bounce_amount_spec(radius as int),
        0 < r <= AMOUNT_SCALE,
{
    if radius <= FALLOFF_RADIUS {
        AMOUNT_SCALE
    } else {
        proof {
            lemma_bounce_amount_range(radius as int);
        }
        let q = ((AMOUNT_SCALE as i128) * (FALLOFF_RADIUS as i128) + (radius as i128) - 1)
            / (radius as i128);
        q as i64
    }
}

fn impulse(u: i128, radius: i64) -> (r: i128)
    requires
        0 < radius,
        -0x1_0000_0000_0000_0000_0000_0000 <= u <= 0x1_0000_0000_0000_0000_0000_0000,
    ensures
        r == impulse_spec(u as int, radius as int),
        -0x1_0000_0000_0000_0000_0000_0000 <= r <= 0x1_0000_0000_0000_0000_0000_0000,
{
    let amount = bounce_amount(radius) as i128;
    let m = u * (BOUNCE_NUM as i128);
    assert(-0x1_0000_0000_0000_0000_0000_0000 * 5 * 1_000_000 <= m * amount
        <= 0x1_0000_0000_0000_0000_0000_0000 * 5 * 1_000_000) by (nonlinear_arith)
        requires
            -0x1_0000_0000_0000_0000_0000_0000 * 5 <= m <= 0x1_0000_0000_0000_0000_0000_0000 * 5,
            0 <= amount <= 1_000_000,
    ;
    let p = m * amount;
    proof {
        lemma_tdiv_bound(p as int, (BOUNCE_DEN * AMOUNT_SCALE) as int);
        vstd::arithmetic::div_mod::lemma_div_is_ordered_by_denominator(
            if p >= 0 { p as int } else { -p },
            1_000_000,
            (BOUNCE_DEN * AMOUNT_SCALE) as int,
        );
    }
    div_toward_zero(p, (BOUNCE_DEN as i128) * (AMOUNT_SCALE as i128))
}


/// Scaling `v` by `a / den` with `0 < a <= s <= den`, rounding the magnitude
/// up, keeps the sign of `v` and never grows its magnitude.
proof fn lemma_scaled_bound(v: int, a: int, s: int, den: int)
    requires
        0 < a <= s,
        1 <= s <= den,
    ensures
        v > 0 ==> 1 <= cdiv(v * a, den) <= v,
        v < 0 ==> v <= cdiv(v * a, den) <= -1,
        v == 0 ==> cdiv(v * a, den) == 0,
{
    let m = if v >= 0 { v } else { -v };
    assert(0 <= m * a <= m * den && (m > 0 ==> m * a > 0)) by (nonlinear_arith)
        requires
            m >= 0,
            0 < a <= s <= den,
    ;
    assert(if v >= 0 { v * a == m * a } else { -(v * a) == m * a }) by (nonlinear_arith)
        requires
            m == if v >= 0 { v } else { -v },
    ;
    lemma_ceil_div_bound(m * a, m, den);
    if v == 0 {
        assert((den - 1) / den == 0) by (nonlinear_arith)
            requires
                den >= 1,
        {
            vstd::arithmetic::div_mod::lemma_basic_div(den - 1, den);
        }
    }
}

fn wall(v: i64, radius: i64) -> (r: i64)
    requires
        0 < radius,
        in_limit(v as int),
    ensures
        r == wall_spec(v as int, radius as int),
        in_limit(r as int),
        v > 0 ==> r < 0,
        v < 0 ==> r > 0,
        v == 0 ==> r == 0,
{
    let amount = bounce_amount(radius) as i128;
    assert(-COORD_LIMIT * 1_000_000 <= (v as i128) * amount <= COORD_LIMIT * 1_000_000)
        by (nonlinear_arith)
        requires
            in_limit(v as int),
            0 <= amount <= 1_000_000,
    ;
    proof {
        lemma_scaled_bound(v as int, amount as int, AMOUNT_SCALE as int, (WALL_DEN * AMOUNT_SCALE) as int);
    }
    let q = div_away_from_zero((v as i128) * amount, (WALL_DEN as i128) * (AMOUNT_SCALE as i128));
    -(q as i64)
}

impl Ball {
    /// A ball at rest with its center at `(x, y)`.
    pub fn new(x: i64, y: i64, radius: i64, color: Color) -> (r: Ball)
        requires
            in_limit(x as int),
            in_limit(y as int),
            0 < radius <= COORD_LIMIT,
        ensures
            r@ == (BallView { x: x as int, y: y as int, vx: 0, vy: 0, radius: radius as int, color }),
            r@.wf(),
    {
        Ball { position: Vec2 { x, y }, radius, velocity: Vec2 { x: 0, y: 0 }, color }
    }

    /// A ball at rest with a random radius in `MIN_RADIUS..MAX_RADIUS`, placed
    /// entirely inside a `width` by `height` window, with a random color.
    pub fn new_random(rng: &mut StdRng, width: i64, height: i64) -> (r: Ball)
        requires
            2 * MAX_RADIUS <= width <= COORD_LIMIT,
            2 * MAX_RADIUS <= height <= COORD_LIMIT,
        ensures
            r@.wf(),
            MIN_RADIUS <= r@.radius < MAX_RADIUS,
            r@.radius <= r@.x < width - r@.radius,
            r@.radius <= r@.y < height - r@.radius,
            r@.vx == 0,
            r@.vy == 0,
    {
        let radius = random_in(rng, MIN_RADIUS, MAX_RADIUS);
        let x = random_in(rng, radius, width - radius);
        let y = random_in(rng, radius, height - radius);
        let red = random_in(rng, 0, 256) as u8;
        let green = random_in(rng, 0, 256) as u8;
        let blue = random_in(rng, 0, 256) as u8;
        Ball::new(x, y, radius, Color { r: red, g: green, b: blue })
    }


    /// The two circles touch or overlap.
    pub fn collides(&self, other: &Self) -> (r: bool)
        requires
            self@.wf(),
            other@.wf(),
        ensures
            r == collides_spec(self@, other@),
    {
        let dx = self.position.x as i128 - other.position.x as i128;
        let dy = self.position.y as i128 - other.position.y as i128;
        let s = self.radius as i128 + other.radius as i128;
        proof {
            lemma_square_bound(dx as int);
            lemma_square_bound(dy as int);
            lemma_square_bound(s as int);
        }
        dx * dx + dy * dy <= s * s
    }

    /// The point lies inside or on the circle.
    pub fn collides_point(&self, point: Vec2) -> (r: bool)
        requires
            self@.wf(),
            in_limit(point.x as int),
            in_limit(point.y as int),
        ensures
            r == contains_spec(self@, point.x as int, point.y as int),
    {
        let dx = self.position.x as i128 - point.x as i128;
        let dy = self.position.y as i128 - point.y as i128;
        let s = self.radius as i128;
        proof {
            lemma_square_bound(dx as int);
            lemma_square_bound(dy as int);
            lemma_square_bound(s as int);
        }
        dx * dx + dy * dy <= s * s
    }

    /// How strongly this ball reacts to a push, in units of `AMOUNT_SCALE`.
    pub fn get_bounce_amount(&self) -> (r: i64)
        requires
            self@.wf(),
        ensures
            r == bounce_amount_spec(self@.radius),
            0 < r <= AMOUNT_SCALE,
    {
        bounce_amount(self.radius)
    }

    /// Pushes this ball away from `other` by their penetration depth.
    pub fn move_from(&mut self, other: &Self)
        requires
            old(self)@.wf(),
            other@.wf(),
        ensures
            final(self)@ == push_spec(old(self)@, other@),
            final(self)@.wf(),
    {
        let dx = self.position.x as i128 - other.position.x as i128;
        let dy = self.position.y as i128 - other.position.y as i128;
        proof {
            lemma_square_bound(dx as int);
            lemma_square_bound(dy as int);
        }
        let n = dx * dx + dy * dy;
        let root = isqrt(n as u128);
        assert(root <= 0x400_0000_0000) by (nonlinear_arith)
            requires
                root * root <= n,
                n <= 0x8_0000_0000_0000_0000_0000,
        ;
        let d = root as i128;
        let force = self.radius as i128 + other.radius as i128 - d;
        let ux: i128;
        let uy: i128;
        if d == 0 {
            ux = force;
            uy = 0;
        } else {
            assert(-0x10_0000_0000_0000_0000_0000 <= dx * force <= 0x10_0000_0000_0000_0000_0000
                && -0x10_0000_0000_0000_0000_0000 <= dy * force <= 0x10_0000_0000_0000_0000_0000)
                by (nonlinear_arith)
                requires
                    -0x200_0000_0000 <= dx <= 0x200_0000_0000,
                    -0x200_0000_0000 <= dy <= 0x200_0000_0000,
                    -0x800_0000_0000 <= force <= 0x800_0000_0000,
            ;
            proof {
                lemma_tdiv_bound((dx * force) as int, d as int);
                lemma_tdiv_bound((dy * force) as int, d as int);
            }
            ux = div_toward_zero(dx * force, d);
            uy = div_toward_zero(dy * force, d);
        }
        proof {
            lemma_tdiv_bound((ux * 6) as int, 10);
            lemma_tdiv_bound((uy * 6) as int, 10);
        }
        let jx = div_toward_zero(ux * (JUMP_NUM as i128), JUMP_DEN as i128);
        let jy = div_toward_zero(uy * (JUMP_NUM as i128), JUMP_DEN as i128);
        let ix = impulse(ux, self.radius);
        let iy = impulse(uy, self.radius);
        self.position.x = saturate(self.position.x as i128 + jx);
        self.position.y = saturate(self.position.y as i128 + jy);
        self.velocity.x = saturate(self.velocity.x as i128 + ix);
        self.velocity.y = saturate(self.velocity.y as i128 + iy);
    }

    /// One frame of free motion: gravity, then the velocity moves the ball.
    pub fn fall(&mut self, height: i64)
        requires
            old(self)@.wf(),
        ensures
            final(self)@ == fall_spec(old(self)@, height as int),
            final(self)@.wf(),
    {
        if (self.position.y as i128) + (self.radius as i128) < height as i128 {
            self.velocity.y = saturate(self.velocity.y as i128 + GRAVITY as i128);
        }
        self.position.x = saturate(self.position.x as i128 + self.velocity.x as i128);
        self.position.y = saturate(self.position.y as i128 + self.velocity.y as i128);
    }

    /// Clamps the ball into a `width` by `height` window, reflecting the
    /// velocity component of each wall it meets.
    pub fn bounce_off_walls(&mut self, width: i64, height: i64)
        requires
            old(self)@.wf(),
            0 < width <= COORD_LIMIT,
            0 < height <= COORD_LIMIT,
        ensures
            final(self)@ == walls_spec(old(self)@, width as int, height as int),
            final(self)@.wf(),
            old(self)@.y + old(self)@.radius >= height && old(self)@.vy > 0 ==> final(self)@.vy < 0,
            old(self)@.y + old(self)@.radius >= height && old(self)@.vy < 0 ==> final(self)@.vy > 0,
    {
        if self.position.x - self.radius < 0 {
            self.position.x = self.radius;
            self.velocity.x = wall(self.velocity.x, self.radius);
        }
        if self.position.x + self.radius >= width {
            self.position.x = width - self.radius;
            self.velocity.x = wall(self.velocity.x, self.radius);
        }
        if self.position.y + self.radius >= height {
            self.position.y = height - self.radius;
            self.velocity.y = wall(self.velocity.y, self.radius);
        }
    }

    /// Places the ball at `position` with `velocity`, as a drag does.
    pub fn drag_to(&mut self, position: Vec2, velocity: Vec2)
        requires
            in_limit(position.x as int),
            in_limit(position.y as int),
            in_limit(velocity.x as int),
            in_limit(velocity.y as int),
        ensures
            final(self)@ == (BallView {
                x: position.x as int,
                y: position.y as int,
                vx: velocity.x as int,
                vy: velocity.y as int,
                ..old(self)@
            }),
    {
        self.position = position;
        self.velocity = velocity;
    }

    pub fn position(&self) -> (r: Vec2)
        ensures
            r.x == self@.x,
            r.y == self@.y,
    {
        self.position
    }

    pub fn velocity(&self) -> (r: Vec2)
        ensures
            r.x == self@.vx,
            r.y == self@.vy,
    {
        self.velocity
    }

    pub fn radius(&self) -> (r: i64)
        ensures
            r == self@.radius,
    {
        self.radius
    }

    pub fn color(&self) -> (r: Color)
        ensures
            r == self@.color,
    {
        self.color
    }
}

} // verus!
