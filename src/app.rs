use vstd::prelude::*;
use rand::rngs::StdRng;
use crate::geometry::{Vec2, COORD_LIMIT, limit, saturate};
use crate::ball::{
    Ball, BallView, MAX_RADIUS, MIN_RADIUS, in_limit, contains_spec, collides_spec, push_spec,
    fall_spec, walls_spec, lemma_wall_reverses,
};

verus! {

/// Number of balls created at startup and on a reset.
pub const INITIAL_BALLS: usize = 10;

/// The keys the simulation reacts to.
#[derive(Clone, Copy, Debug, PartialEq, Eq, Structural)]
pub enum Key {
    /// Recreate the whole set of balls.
    R,
    /// Spawn one ball.
    Space,
    /// Delete the ball being dragged.
    X,
    /// Any other key: ignored.
    Other,
}

/// Mathematical model of the simulation: the balls in drawing order, and the
/// ball being dragged, if any, as its index and the grab offset (pointer minus
/// center at the moment of grabbing).
pub struct AppView {
    pub balls: Seq<BallView>,
    pub active: Option<(int, int, int)>,
}

pub open spec fn views(v: Seq<Ball>) -> Seq<BallView> {
    v.map_values(|b: Ball| b@)
}

/// Balls are kept largest to smallest, so later (smaller) balls are drawn on
/// top and win hit tests.
pub open spec fn sorted_by_size(s: Seq<BallView>) -> bool {
    forall|i: int, j: int| 0 <= i < j < s.len() ==> s[i].radius >= s[j].radius
}

/// The ball lies entirely inside a `width` by `height` window, with a radius
/// in the range of randomly created balls, and is at rest.
pub open spec fn fresh_in_window(b: BallView, width: int, height: int) -> bool {
    &&& b.wf()
    &&& MIN_RADIUS <= b.radius < MAX_RADIUS
    &&& b.radius <= b.x < width - b.radius
    &&& b.radius <= b.y < height - b.radius
    &&& b.vx == 0
    &&& b.vy == 0
}

/// A window size for which random balls can be placed.
pub open spec fn window_ok(width: int, height: int) -> bool {
    &&& 2 * MAX_RADIUS <= width <= COORD_LIMIT
    &&& 2 * MAX_RADIUS <= height <= COORD_LIMIT
}

impl AppView {
    pub open spec fn wf(self) -> bool {
        &&& forall|i: int| 0 <= i < self.balls.len() ==> #[trigger] self.balls[i].wf()
        &&& sorted_by_size(self.balls)
        &&& self.active matches Some((i, _, _)) ==> 0 <= i < self.balls.len()
    }

    pub open spec fn active_index(self) -> Option<int> {
        match self.active {
            Some((i, _, _)) => Some(i),
            None => None,
        }
    }
}

/// Gravity and integration for every ball but the active one.
pub open spec fn fall_all(s: Seq<BallView>, active: Option<int>, height: int) -> Seq<BallView> {
    Seq::new(s.len(), |i: int| if active == Some(i) { s[i] } else { fall_spec(s[i], height) })
}

/// Ball `i` of `t` after it has been pushed away from each of the balls
/// `0..m` (but itself) that it touches, in turn.
pub open spec fn collide_row(t: Seq<BallView>, i: int, m: int) -> BallView
    decreases m,
{
    if m <= 0 {
        t[i]
    } else {
        let b = collide_row(t, i, m - 1);
        if m - 1 == i || !collides_spec(b, t[m - 1]) {
            b
        } else {
            push_spec(b, t[m - 1])
        }
    }
}

/// Collision resolution for the balls `0..k` in turn, each one seeing the
/// balls before it already moved; the active ball is not moved, though it
/// still pushes the others.
pub open spec fn collide_rows(s: Seq<BallView>, active: Option<int>, k: int) -> Seq<BallView>
    decreases k,
{
    if k <= 0 {
        s
    } else {
        let t = collide_rows(s, active, k - 1);
        if active == Some(k - 1) {
            t
        } else {
            t.update(k - 1, collide_row(t, k - 1, t.len() as int))
        }
    }
}

/// Every ball clamped into the window.
pub open spec fn walls_all(s: Seq<BallView>, width: int, height: int) -> Seq<BallView> {
    Seq::new(s.len(), |i: int| walls_spec(s[i], width, height))
}

/// One frame: gravity and integration, collisions, then walls.
pub open spec fn step_spec(s: Seq<BallView>, active: Option<int>, width: int, height: int) -> Seq<
    BallView,
> {
    walls_all(collide_rows(fall_all(s, active, height), active, s.len() as int), width, height)
}

/// The ball at `i` is the last one, hence the smallest and the one on top,
/// whose circle holds the point.
pub open spec fn is_top_hit(s: Seq<BallView>, i: int, px: int, py: int) -> bool {
    &&& 0 <= i < s.len()
    &&& contains_spec(s[i], px, py)
    &&& forall|k: int| i < k < s.len() ==> !contains_spec(#[trigger] s[k], px, py)
}

pub open spec fn no_hit(s: Seq<BallView>, px: int, py: int) -> bool {
    forall|k: int| 0 <= k < s.len() ==> !contains_spec(#[trigger] s[k], px, py)
}

/// The dragged ball's index after a ball is inserted at `k`: it follows its
/// ball.
pub open spec fn shifted_active(active: Option<(int, int, int)>, k: int) -> Option<(int, int, int)> {
    match active {
        Some((a, ox, oy)) => Some((if a >= k { a + 1 } else { a }, ox, oy)),
        None => None,
    }
}

/// `after` is `before` with `b` inserted at `k`, after every ball at least as
/// large and before every smaller one.
pub open spec fn sorted_insertion(before: AppView, after: AppView, b: BallView, k: int) -> bool {
    &&& 0 <= k <= before.balls.len()
    &&& forall|j: int| 0 <= j < k ==> (#[trigger] before.balls[j]).radius >= b.radius
    &&& forall|j: int| k <= j < before.balls.len() ==> (#[trigger] before.balls[j]).radius < b.radius
    &&& after.balls == before.balls.insert(k, b)
    &&& after.active == shifted_active(before.active, k)
}

/// A full set of fresh balls placed in the window, none of them dragged.
pub open spec fn is_fresh_set(a: AppView, width: int, height: int) -> bool {
    &&& a.wf()
    &&& a.balls.len() == INITIAL_BALLS
    &&& a.active is None
    &&& forall|i: int| 0 <= i < a.balls.len() ==> fresh_in_window(#[trigger] a.balls[i], width, height)
}

/// A walled ball lies on or above the floor and, where the window is wide
/// enough for it, between the side walls.
pub proof fn lemma_walls_in_bounds(b: BallView, width: int, height: int)
    ensures
        walls_spec(b, width, height).y <= height - b.radius,
        2 * b.radius <= width ==> b.radius <= walls_spec(b, width, height).x <= width - b.radius,
        walls_spec(b, width, height).radius == b.radius,
{
}

/// After any frame, every ball, the dragged one included, lies on or above
/// the floor, and every ball that fits the window's width lies between the
/// side walls.
pub proof fn lemma_step_in_window(s: Seq<BallView>, active: Option<int>, width: int, height: int)
    ensures
        forall|i: int|
            0 <= i < step_spec(s, active, width, height).len() ==> {
                let b = #[trigger] step_spec(s, active, width, height)[i];
                &&& b.y <= height - b.radius
                &&& 2 * b.radius <= width ==> b.radius <= b.x <= width - b.radius
            },
{
    let c = collide_rows(fall_all(s, active, height), active, s.len() as int);
    assert forall|i: int| 0 <= i < step_spec(s, active, width, height).len() implies {
        let b = #[trigger] step_spec(s, active, width, height)[i];
        &&& b.y <= height - b.radius
        &&& 2 * b.radius <= width ==> b.radius <= b.x <= width - b.radius
    } by {
        lemma_walls_in_bounds(c[i], width, height);
    }
}

/// A ball that reaches the floor while moving down rests on the floor line
/// and moves up again.
pub proof fn lemma_floor_reflects(b: BallView, width: int, height: int)
    requires
        0 < b.radius,
        b.y + b.radius >= height,
        b.vy > 0,
    ensures
        walls_spec(b, width, height).y == height - b.radius,
        walls_spec(b, width, height).vy < 0,
{
    lemma_wall_reverses(b.vy, b.radius);
}

/// The interactive simulation: the balls and the one being dragged.
pub struct App {
    balls: Vec<Ball>,
    active_ball: Option<(usize, Vec2)>,
}

impl View for App {
    type V = AppView;

    closed spec fn view(&self) -> AppView {
        AppView {
            balls: views(self.balls@),
            active: match self.active_ball {
                Some((i, off)) => Some((i as int, off.x as int, off.y as int)),
                None => None,
            },
        }
    }
}

impl App {
    /// Advances the simulation one frame in a `width` by `height` window:
    /// gravity and integration for every ball but the dragged one, then
    /// collision resolution, then the walls for every ball.
    pub fn update(&mut self, width: i64, height: i64)
        requires
            old(self)@.wf(),
            0 < width <= COORD_LIMIT,
            0 < height <= COORD_LIMIT,
        ensures
            final(self)@.wf(),
            final(self)@.balls == step_spec(
                old(self)@.balls,
                old(self)@.active_index(),
                width as int,
                height as int,
            ),
            final(self)@.active == old(self)@.active,
            final(self)@.balls.len() == old(self)@.balls.len(),
            forall|i: int|
                0 <= i < final(self)@.balls.len() ==> {
                    let b = #[trigger] final(self)@.balls[i];
                    &&& b.radius == old(self)@.balls[i].radius
                    &&& b.color == old(self)@.balls[i].color
                    &&& b.y <= height - b.radius
                    &&& 2 * b.radius <= width ==> b.radius <= b.x <= width - b.radius
                },
    {
        let n = self.balls.len();
        let ghost active = self@.active_index();
        let ghost s0 = self@.balls;
        proof {
            assert forall|k: int| 0 <= k < n implies (#[trigger] self.balls@[k])@.wf() by {
                assert(self@.balls[k] == self.balls@[k]@);
            }
        }
        let mut i: usize = 0;
        while i < n
            invariant
                n == self.balls.len() == s0.len(),
                0 <= i <= n,
                active == self@.active_index(),
                self@.active == old(self)@.active,
                s0 == old(self)@.balls,
                forall|k: int| 0 <= k < n ==> (#[trigger] self.balls@[k])@.wf(),
                forall|k: int|
                    0 <= k < i ==> (#[trigger] self.balls@[k])@ == fall_all(s0, active, height as int)[k],
                forall|k: int| i <= k < n ==> (#[trigger] self.balls@[k])@ == s0[k],
            decreases n - i,
        {
            if !self.is_active_ball(i) {
                let mut b = self.balls[i];
                b.fall(height);
                self.balls.set(i, b);
            }
            i += 1;
        }
        let ghost t0 = self@.balls;
        assert(t0 =~= fall_all(s0, active, height as int));
        let mut i: usize = 0;
        while i < n
            invariant
                n == self.balls.len() == t0.len(),
                0 <= i <= n,
                active == self@.active_index(),
                self@.active == old(self)@.active,
                self@.active matches Some((a, _, _)) ==> 0 <= a < n,
                self@.balls == collide_rows(t0, active, i as int),
                forall|k: int| 0 <= k < n ==> (#[trigger] self.balls@[k])@.wf(),
                forall|k: int|
                    0 <= k < n ==> (#[trigger] self.balls@[k])@.radius == t0[k].radius
                        && self.balls@[k]@.color == t0[k].color,
            decreases n - i,
        {
            let ghost t = self@.balls;
            if !self.is_active_ball(i) {
                let mut b = self.balls[i];
                let mut j: usize = 0;
                while j < n
                    invariant
                        n == self.balls.len() == t.len(),
                        0 <= i < n,
                        0 <= j <= n,
                        self@.balls == t,
                        b@ == collide_row(t, i as int, j as int),
                        b@.wf(),
                        b@.radius == t[i as int].radius,
                        b@.color == t[i as int].color,
                        forall|k: int| 0 <= k < n ==> (#[trigger] self.balls@[k])@.wf(),
                    decreases n - j,
                {
                    if j != i {
                        let other = self.balls[j];
                        if b.collides(&other) {
                            b.move_from(&other);
                        }
                    }
                    j += 1;
                }
                self.balls.set(i, b);
                assert(self@.balls =~= t.update(i as int, collide_row(t, i as int, n as int)));
            }
            i += 1;
        }
        let ghost c = self@.balls;
        let mut i: usize = 0;
        while i < n
            invariant
                n == self.balls.len() == c.len() == s0.len(),
                0 < width <= COORD_LIMIT,
                0 < height <= COORD_LIMIT,
                0 <= i <= n,
                self@.active == old(self)@.active,
                forall|k: int| 0 <= k < n ==> (#[trigger] c[k]).wf(),
                forall|k: int| 0 <= k < n ==> (#[trigger] c[k]).radius == s0[k].radius && c[k].color == s0[k].color,
                forall|k: int| 0 <= k < n ==> (#[trigger] self.balls@[k])@.wf(),
                forall|k: int|
                    0 <= k < i ==> (#[trigger] self.balls@[k])@ == walls_spec(c[k], width as int, height as int),
                forall|k: int| i <= k < n ==> (#[trigger] self.balls@[k])@ == c[k],
            decreases n - i,
        {
            let mut b = self.balls[i];
            b.bounce_off_walls(width, height);
            self.balls.set(i, b);
            i += 1;
        }
        proof {
            assert(self@.balls =~= walls_all(c, width as int, height as int));
            assert forall|k: int| 0 <= k < n implies {
                let b = #[trigger] self@.balls[k];
                &&& b.radius == s0[k].radius
                &&& b.color == s0[k].color
                &&& b.y <= height - b.radius
                &&& 2 * b.radius <= width ==> b.radius <= b.x <= width - b.radius
            } by {
                lemma_walls_in_bounds(c[k], width as int, height as int);
            }
        }
    }

    /// Index of the ball on top at `point`: the last ball in drawing order,
    /// hence the smallest, whose circle holds it; `None` where no circle does.
    pub fn ball_at(&self, point: Vec2) -> (r: Option<usize>)
        requires
            self@.wf(),
            in_limit(point.x as int),
            in_limit(point.y as int),
        ensures
            r matches Some(i) ==> is_top_hit(self@.balls, i as int, point.x as int, point.y as int),
            r is None <==> no_hit(self@.balls, point.x as int, point.y as int),
    {
        let mut i: usize = self.balls.len();
        while i > 0
            invariant
                0 <= i <= self.balls.len(),
                self@.wf(),
                in_limit(point.x as int),
                in_limit(point.y as int),
                forall|k: int|
                    i <= k < self@.balls.len() ==> !contains_spec(
                        #[trigger] self@.balls[k],
                        point.x as int,
                        point.y as int,
                    ),
            decreases i,
        {
            i -= 1;
            assert(self@.balls[i as int] == self.balls@[i as int]@);
            assert(self.balls@[i as int]@.wf());
            if self.balls[i].collides_point(point) {
                return Some(i);
            }
        }
        None
    }

    /// Moves the dragged ball, if any, so that the grab offset stays under the
    /// pointer at `(x, y)`, and gives it the velocity `(vx, vy)`.
    fn move_active_ball(&mut self, x: i64, y: i64, vx: i64, vy: i64)
        requires
            old(self)@.wf(),
        ensures
            final(self)@.wf(),
            final(self)@.active == old(self)@.active,
            match old(self)@.active {
                Some((i, ox, oy)) => final(self)@.balls == old(self)@.balls.update(
                    i,
                    BallView {
                        x: limit(x - ox),
                        y: limit(y - oy),
                        vx: limit(vx as int),
                        vy: limit(vy as int),
                        ..old(self)@.balls[i]
                    },
                ),
                None => final(self)@.balls == old(self)@.balls,
            },
    {
        if let Some((i, offset)) = self.active_ball {
            let px = saturate(x as i128 - offset.x as i128);
            let py = saturate(y as i128 - offset.y as i128);
            let mut b = self.balls[i];
            assert(old(self)@.balls[i as int] == b@);
            assert(b@.wf());
            b.drag_to(Vec2 { x: px, y: py }, Vec2 { x: saturate(vx as i128), y: saturate(vy as i128) });
            self.balls.set(i, b);
            assert(self@.balls =~= old(self)@.balls.update(i as int, b@));
            assert forall|k: int| 0 <= k < self@.balls.len() implies
                (#[trigger] self@.balls[k]).radius == old(self)@.balls[k].radius
                && self@.balls[k].wf() by {}
        }
    }

    /// Pointer motion to `(x, y)` by `(dx, dy)`: while a ball is dragged it
    /// follows the pointer and takes the motion as its velocity.
    pub fn mouse_motion_event(&mut self, x: i64, y: i64, dx: i64, dy: i64)
        requires
            old(self)@.wf(),
        ensures
            final(self)@.wf(),
            final(self)@.active == old(self)@.active,
            match old(self)@.active {
                Some((i, ox, oy)) => final(self)@.balls == old(self)@.balls.update(
                    i,
                    BallView {
                        x: limit(x - ox),
                        y: limit(y - oy),
                        vx: limit(dx as int),
                        vy: limit(dy as int),
                        ..old(self)@.balls[i]
                    },
                ),
                None => final(self)@.balls == old(self)@.balls,
            },
    {
        self.move_active_ball(x, y, dx, dy);
    }

    /// Pointer press at `(x, y)`: when no ball is dragged, grabs the ball on
    /// top at the pointer, if any, and stops it.
    pub fn mouse_button_down_event(&mut self, x: i64, y: i64)
        requires
            old(self)@.wf(),
            in_limit(x as int),
            in_limit(y as int),
        ensures
            final(self)@.wf(),
            old(self)@.active is Some ==> final(self)@ == old(self)@,
            old(self)@.active is None && no_hit(old(self)@.balls, x as int, y as int)
                ==> final(self)@ == old(self)@,
            forall|i: int|
                old(self)@.active is None && is_top_hit(old(self)@.balls, i, x as int, y as int)
                    ==> {
                    let b = old(self)@.balls[i];
                    &&& final(self)@.active == Some((i, x - b.x, y - b.y))
                    &&& final(self)@.balls == old(self)@.balls.update(
                        i,
                        BallView { vx: 0, vy: 0, ..b },
                    )
                },
    {
        if self.active_ball.is_some() {
            return;
        }
        let hit = self.ball_at(Vec2 { x, y });
        if let Some(i) = hit {
            assert(self@.balls[i as int] == self.balls@[i as int]@);
            assert(self.balls@[i as int]@.wf());
            let c = self.balls[i].position();
            self.active_ball = Some((i, Vec2 { x: x - c.x, y: y - c.y }));
            self.move_active_ball(x, y, 0, 0);
            proof {
                let b = old(self)@.balls[i as int];
                assert(final(self)@.balls[i as int] == BallView { vx: 0, vy: 0, ..b });
                assert forall|j: int|
                    is_top_hit(old(self)@.balls, j, x as int, y as int) implies j == i by {}
            }
        }
    }

    /// Pointer release: nothing is dragged any more.
    pub fn mouse_button_up_event(&mut self)
        ensures
            final(self)@.balls == old(self)@.balls,
            final(self)@.active is None,
            old(self)@.wf() ==> final(self)@.wf(),
    {
        self.active_ball = None;
    }

    /// A fresh simulation: `INITIAL_BALLS` random balls in a `width` by
    /// `height` window, none dragged.
    pub fn new(rng: &mut StdRng, width: i64, height: i64) -> (r: App)
        requires
            window_ok(width as int, height as int),
        ensures
            is_fresh_set(r@, width as int, height as int),
    {
        let mut app = App { balls: Vec::new(), active_ball: None };
        assert(app@.balls =~= Seq::<BallView>::empty());
        let mut i: usize = 0;
        while i < INITIAL_BALLS
            invariant
                window_ok(width as int, height as int),
                0 <= i <= INITIAL_BALLS,
                app@.wf(),
                app@.balls.len() == i,
                app@.active is None,
                forall|k: int|
                    0 <= k < app@.balls.len() ==> fresh_in_window(
                        #[trigger] app@.balls[k],
                        width as int,
                        height as int,
                    ),
            decreases INITIAL_BALLS - i,
        {
            let b = Ball::new_random(rng, width, height);
            let ghost before = app@;
            app.add_ball(b);
            proof {
                let k = choose|k: int| sorted_insertion(before, app@, b@, k);
                assert forall|j: int| 0 <= j < app@.balls.len() implies fresh_in_window(
                    #[trigger] app@.balls[j],
                    width as int,
                    height as int,
                ) by {
                    if j < k {
                        assert(app@.balls[j] == before.balls[j]);
                    } else if j > k {
                        assert(app@.balls[j] == before.balls[j - 1]);
                    }
                }
            }
            i += 1;
        }
        app
    }

    /// A simulation with no balls, for callers that place their own.
    pub fn empty() -> (r: App)
        ensures
            r@.wf(),
            r@.balls.len() == 0,
            r@.active is None,
    {
        let r = App { balls: Vec::new(), active_ball: None };
        assert(r@.balls =~= Seq::<BallView>::empty());
        r
    }

    /// Replaces the whole state with a fresh simulation.
    pub fn reset(&mut self, rng: &mut StdRng, width: i64, height: i64)
        requires
            window_ok(width as int, height as int),
        ensures
            is_fresh_set(final(self)@, width as int, height as int),
    {
        *self = App::new(rng, width, height);
    }

    /// Inserts `ball` after every ball at least as large, keeping the balls
    /// sorted largest to smallest; a dragged ball stays dragged.
    pub fn add_ball(&mut self, ball: Ball)
        requires
            old(self)@.wf(),
            ball@.wf(),
        ensures
            final(self)@.wf(),
            exists|k: int| sorted_insertion(old(self)@, final(self)@, ball@, k),
    {
        let n = self.balls.len();
        let mut k: usize = 0;
        while k < n
            invariant
                n == self.balls.len(),
                self@ == old(self)@,
                0 <= k <= n,
                forall|j: int| 0 <= j < k ==> (#[trigger] self@.balls[j]).radius >= ball@.radius,
            ensures
                0 <= k <= n,
                forall|j: int| 0 <= j < k ==> (#[trigger] self@.balls[j]).radius >= ball@.radius,
                k < n ==> self@.balls[k as int].radius < ball@.radius,
            decreases n - k,
        {
            assert(self@.balls[k as int] == self.balls@[k as int]@);
            if self.balls[k].radius() < ball.radius() {
                break;
            }
            k += 1;
        }
        self.balls.insert(k, ball);
        if let Some((a, offset)) = self.active_ball {
            if a >= k {
                self.active_ball = Some((a + 1, offset));
            }
        }
        proof {
            let before = old(self)@.balls;
            let after = self@.balls;
            assert(after =~= before.insert(k as int, ball@));
            assert forall|j: int| k <= j < before.len() implies (#[trigger] before[j]).radius
                < ball@.radius by {
                assert(before[k as int].radius >= before[j].radius);
            }
            assert forall|j: int| 0 <= j < after.len() implies (#[trigger] after[j]).wf() by {
                if j < k {
                    assert(after[j] == before[j]);
                } else if j > k {
                    assert(after[j] == before[j - 1]);
                }
            }
            assert(sorted_insertion(old(self)@, self@, ball@, k as int));
        }
    }

    /// A key press: `R` recreates the balls, `Space` spawns one, `X` deletes
    /// the dragged ball; other keys do nothing.
    pub fn key_down_event(&mut self, key: Key, rng: &mut StdRng, width: i64, height: i64)
        requires
            old(self)@.wf(),
            key == Key::R || key == Key::Space ==> window_ok(width as int, height as int),
        ensures
            final(self)@.wf(),
            key == Key::R ==> is_fresh_set(final(self)@, width as int, height as int),
            key == Key::Space ==> exists|b: BallView, k: int|
                fresh_in_window(b, width as int, height as int)
                && sorted_insertion(old(self)@, final(self)@, b, k),
            key == Key::X ==> match old(self)@.active {
                Some((i, _, _)) => final(self)@.balls == old(self)@.balls.remove(i)
                    && final(self)@.active is None,
                None => final(self)@ == old(self)@,
            },
            key == Key::Other ==> final(self)@ == old(self)@,
    {
        match key {
            Key::R => {
                self.reset(rng, width, height);
            },
            Key::Space => {
                let b = Ball::new_random(rng, width, height);
                self.add_ball(b);
                assert(fresh_in_window(b@, width as int, height as int));
            },
            Key::X => {
                if let Some((i, _)) = self.active_ball {
                    self.balls.remove(i);
                    self.active_ball = None;
                    proof {
                        let before = old(self)@.balls;
                        let after = self@.balls;
                        assert(after =~= before.remove(i as int));
                        assert forall|j: int| 0 <= j < after.len() implies (#[trigger] after[j]).wf()
                            by {
                            if j >= i {
                                assert(after[j] == before[j + 1]);
                            }
                        }
                        assert forall|p: int, q: int| 0 <= p < q < after.len() implies after[p].radius
                            >= after[q].radius by {
                            let p0 = if p >= i { p + 1 } else { p };
                            let q0 = if q >= i { q + 1 } else { q };
                            assert(after[p] == before[p0]);
                            assert(after[q] == before[q0]);
                        }
                    }
                }
            },
            Key::Other => {},
        }
    }

    /// Number of balls.
    pub fn len(&self) -> (r: usize)
        ensures
            r == self@.balls.len(),
    {
        self.balls.len()
    }

    /// The ball at `index`, in drawing order.
    pub fn ball(&self, index: usize) -> (r: Ball)
        requires
            index < self@.balls.len(),
        ensures
            r@ == self@.balls[index as int],
    {
        self.balls[index]
    }

    /// Index of the ball being dragged, if any.
    pub fn active_index(&self) -> (r: Option<usize>)
        ensures
            r matches Some(i) ==> self@.active_index() == Some(i as int),
            r is None ==> self@.active_index() is None,
    {
        match self.active_ball {
            Some((i, _)) => Some(i),
            None => None,
        }
    }

    /// Whether the ball at `index` is the one being dragged.
    pub fn is_active_ball(&self, index: usize) -> (r: bool)
        ensures
            r == (self@.active_index() == Some(index as int)),
    {
        match self.active_ball {
            Some((i, _)) => i == index,
            None => false,
        }
    }
}

} // verus!
