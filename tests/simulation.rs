use balls::{App, Ball, Color, Key, Vec2, INITIAL_BALLS, UNITS_PER_PIXEL};
use balls::geometry::isqrt;
use balls::ball::{AMOUNT_SCALE, MAX_RADIUS, MIN_RADIUS};
use rand::rngs::StdRng;
use rand::SeedableRng;

const PX: i64 = UNITS_PER_PIXEL;
const WIDTH: i64 = 800 * PX;
const HEIGHT: i64 = 600 * PX;

fn white() -> Color {
    Color { r: 255, g: 255, b: 255 }
}

fn app_with(balls: &[(i64, i64, i64)]) -> App {
    let mut app = App::empty();
    for &(x, y, r) in balls {
        app.add_ball(Ball::new(x, y, r, white()));
    }
    app
}

fn dist2(a: Vec2, b: Vec2) -> i128 {
    let dx = (a.x - b.x) as i128;
    let dy = (a.y - b.y) as i128;
    dx * dx + dy * dy
}

#[test]
fn overlapping_balls_separate_after_one_step() {
    let mut app = app_with(&[(100 * PX, 100 * PX, 10 * PX), (115 * PX, 100 * PX, 10 * PX)]);
    let a0 = app.ball(0).position();
    let b0 = app.ball(1).position();
    app.update(WIDTH, HEIGHT);
    let a1 = app.ball(0).position();
    let b1 = app.ball(1).position();
    assert!(dist2(a1, b1) > dist2(a0, b0));
    assert!(a1.x < a0.x);
    assert!(b1.x > b0.x);
    assert_eq!(a1.y, b1.y);
}

#[test]
fn ball_below_floor_is_clamped_and_reflected() {
    let r = 10 * PX;
    let mut app = App::empty();
    let mut ball = Ball::new(400 * PX, HEIGHT - r + PX, r, white());
    ball.drag_to(Vec2 { x: 400 * PX, y: HEIGHT - r + PX }, Vec2 { x: 0, y: 10 * PX });
    app.add_ball(ball);
    app.update(WIDTH, HEIGHT);
    let b = app.ball(0);
    assert_eq!(b.position().y, HEIGHT - r);
    assert!(b.velocity().y < 0);
    assert_eq!(b.velocity().y, -5 * PX);
}

#[test]
fn walls_clamp_both_sides() {
    let r = 20 * PX;
    let mut app = app_with(&[(-5 * PX, 100 * PX, r), (WIDTH + 50 * PX, 300 * PX, r + PX)]);
    app.update(WIDTH, HEIGHT);
    for i in 0..app.len() {
        let b = app.ball(i);
        assert!(b.position().x >= b.radius());
        assert!(b.position().x <= WIDTH - b.radius());
        assert!(b.position().y <= HEIGHT - b.radius());
    }
}

#[test]
fn step_keeps_balls_in_window_over_many_frames() {
    let mut rng = StdRng::seed_from_u64(7);
    let mut app = App::new(&mut rng, WIDTH, HEIGHT);
    let radii: Vec<i64> = (0..app.len()).map(|i| app.ball(i).radius()).collect();
    for _ in 0..200 {
        app.update(WIDTH, HEIGHT);
        for i in 0..app.len() {
            let b = app.ball(i);
            assert_eq!(b.radius(), radii[i]);
            assert!(b.radius() > 0);
            assert!(b.radius() <= b.position().x && b.position().x <= WIDTH - b.radius());
            assert!(b.position().y <= HEIGHT - b.radius());
        }
    }
}

#[test]
fn gravity_accelerates_airborne_ball() {
    let mut app = app_with(&[(400 * PX, 100 * PX, 10 * PX)]);
    app.update(WIDTH, HEIGHT);
    let b = app.ball(0);
    assert_eq!(b.velocity().y, 500);
    assert_eq!(b.position().y, 100 * PX + 500);
    assert_eq!(b.position().x, 400 * PX);
}

#[test]
fn dragged_ball_is_not_moved_by_physics() {
    let mut app = app_with(&[(400 * PX, 100 * PX, 10 * PX)]);
    app.mouse_button_down_event(400 * PX, 100 * PX);
    app.update(WIDTH, HEIGHT);
    assert_eq!(app.ball(0).position(), Vec2 { x: 400 * PX, y: 100 * PX });
    assert_eq!(app.ball(0).velocity(), Vec2 { x: 0, y: 0 });
}

#[test]
fn ball_at_picks_smallest_ball_on_top() {
    let app = app_with(&[(100 * PX, 100 * PX, 10 * PX), (100 * PX, 100 * PX, 40 * PX)]);
    assert_eq!(app.ball(0).radius(), 40 * PX);
    assert_eq!(app.ball_at(Vec2 { x: 100 * PX, y: 100 * PX }), Some(1));
    assert_eq!(app.ball_at(Vec2 { x: 130 * PX, y: 100 * PX }), Some(0));
    assert_eq!(app.ball_at(Vec2 { x: 140 * PX, y: 100 * PX }), Some(0));
    assert_eq!(app.ball_at(Vec2 { x: 141 * PX, y: 100 * PX }), None);
    assert_eq!(app.ball_at(Vec2 { x: 500 * PX, y: 500 * PX }), None);
}

#[test]
fn ball_at_on_empty_app_is_none() {
    let app = App::empty();
    assert_eq!(app.ball_at(Vec2 { x: 0, y: 0 }), None);
}

#[test]
fn grab_drag_and_release() {
    let mut app = app_with(&[(100 * PX, 100 * PX, 20 * PX)]);
    app.mouse_button_down_event(105 * PX, 98 * PX);
    assert_eq!(app.active_index(), Some(0));
    assert!(app.is_active_ball(0));
    app.mouse_motion_event(205 * PX, 148 * PX, 3 * PX, -2 * PX);
    let b = app.ball(0);
    assert_eq!(b.position(), Vec2 { x: 200 * PX, y: 150 * PX });
    assert_eq!(b.velocity(), Vec2 { x: 3 * PX, y: -2 * PX });
    assert_eq!(app.active_index(), Some(0));
    app.mouse_button_up_event();
    assert_eq!(app.active_index(), None);
    app.mouse_button_up_event();
    assert_eq!(app.active_index(), None);
    assert_eq!(app.ball(0).position(), Vec2 { x: 200 * PX, y: 150 * PX });
}

#[test]
fn second_press_while_dragging_is_ignored() {
    let mut app = app_with(&[(100 * PX, 100 * PX, 20 * PX), (300 * PX, 100 * PX, 10 * PX)]);
    app.mouse_button_down_event(100 * PX, 100 * PX);
    assert_eq!(app.active_index(), Some(0));
    app.mouse_button_down_event(300 * PX, 100 * PX);
    assert_eq!(app.active_index(), Some(0));
    assert!(!app.is_active_ball(1));
}

#[test]
fn press_on_empty_space_grabs_nothing() {
    let mut app = app_with(&[(100 * PX, 100 * PX, 20 * PX)]);
    app.mouse_button_down_event(500 * PX, 500 * PX);
    assert_eq!(app.active_index(), None);
    app.mouse_motion_event(10, 10, 10, 10);
    assert_eq!(app.ball(0).position(), Vec2 { x: 100 * PX, y: 100 * PX });
}

#[test]
fn motion_moves_only_the_dragged_ball() {
    let mut app = app_with(&[(100 * PX, 100 * PX, 20 * PX), (300 * PX, 100 * PX, 10 * PX)]);
    app.mouse_button_down_event(300 * PX, 100 * PX);
    assert_eq!(app.active_index(), Some(1));
    app.mouse_motion_event(350 * PX, 120 * PX, PX, PX);
    assert_eq!(app.ball(0).position(), Vec2 { x: 100 * PX, y: 100 * PX });
    assert_eq!(app.ball(1).position(), Vec2 { x: 350 * PX, y: 120 * PX });
    assert!(!app.is_active_ball(0));
    assert!(app.is_active_ball(1));
}

#[test]
fn reset_restores_initial_count() {
    let mut rng = StdRng::seed_from_u64(1);
    let mut app = App::new(&mut rng, WIDTH, HEIGHT);
    assert_eq!(app.len(), INITIAL_BALLS);
    app.key_down_event(Key::Space, &mut rng, WIDTH, HEIGHT);
    app.key_down_event(Key::Space, &mut rng, WIDTH, HEIGHT);
    let c = app.ball(0).position();
    app.mouse_button_down_event(c.x, c.y);
    assert!(app.active_index().is_some());
    app.key_down_event(Key::R, &mut rng, WIDTH, HEIGHT);
    assert_eq!(app.len(), 10);
    assert_eq!(app.active_index(), None);
}

#[test]
fn spawn_then_delete_restores_count() {
    let mut rng = StdRng::seed_from_u64(3);
    let mut app = App::new(&mut rng, WIDTH, HEIGHT);
    let before: Vec<(Vec2, i64)> =
        (0..app.len()).map(|i| (app.ball(i).position(), app.ball(i).radius())).collect();
    app.key_down_event(Key::Space, &mut rng, WIDTH, HEIGHT);
    assert_eq!(app.len(), before.len() + 1);
    let spawned = (0..app.len())
        .find(|&i| !before.contains(&(app.ball(i).position(), app.ball(i).radius())))
        .unwrap();
    let c = app.ball(spawned).position();
    app.mouse_button_down_event(c.x, c.y);
    assert!(app.active_index().is_some());
    app.key_down_event(Key::X, &mut rng, WIDTH, HEIGHT);
    assert_eq!(app.len(), before.len());
    assert_eq!(app.active_index(), None);
}

#[test]
fn delete_without_drag_does_nothing() {
    let mut rng = StdRng::seed_from_u64(4);
    let mut app = app_with(&[(100 * PX, 100 * PX, 20 * PX)]);
    app.key_down_event(Key::X, &mut rng, WIDTH, HEIGHT);
    assert_eq!(app.len(), 1);
    app.key_down_event(Key::Other, &mut rng, WIDTH, HEIGHT);
    assert_eq!(app.len(), 1);
    assert_eq!(app.ball(0).position(), Vec2 { x: 100 * PX, y: 100 * PX });
}

#[test]
fn spawn_keeps_dragged_ball_dragged() {
    let mut rng = StdRng::seed_from_u64(5);
    let mut app = app_with(&[(700 * PX, 500 * PX, 5 * PX)]);
    app.mouse_button_down_event(700 * PX, 500 * PX);
    app.key_down_event(Key::Space, &mut rng, WIDTH, HEIGHT);
    assert_eq!(app.len(), 2);
    let i = app.active_index().unwrap();
    assert_eq!(app.ball(i).radius(), 5 * PX);
    assert_eq!(i, 1);
}

#[test]
fn balls_stay_sorted_largest_first() {
    let app = app_with(&[
        (100 * PX, 100 * PX, 10 * PX),
        (200 * PX, 100 * PX, 30 * PX),
        (300 * PX, 100 * PX, 20 * PX),
        (400 * PX, 100 * PX, 30 * PX),
    ]);
    let radii: Vec<i64> = (0..app.len()).map(|i| app.ball(i).radius()).collect();
    assert_eq!(radii, vec![30 * PX, 30 * PX, 20 * PX, 10 * PX]);
    assert_eq!(app.ball(0).position().x, 200 * PX);
    assert_eq!(app.ball(1).position().x, 400 * PX);
}

#[test]
fn random_balls_fit_the_window() {
    let mut rng = StdRng::seed_from_u64(11);
    let app = App::new(&mut rng, WIDTH, HEIGHT);
    let mut radii = Vec::new();
    for i in 0..app.len() {
        let b = app.ball(i);
        let r = b.radius();
        assert!(MIN_RADIUS <= r && r < MAX_RADIUS);
        assert!(r <= b.position().x && b.position().x < WIDTH - r);
        assert!(r <= b.position().y && b.position().y < HEIGHT - r);
        assert_eq!(b.velocity(), Vec2 { x: 0, y: 0 });
        radii.push(r);
    }
    radii.dedup();
    assert!(radii.len() > 1);
    for w in radii.windows(2) {
        assert!(w[0] >= w[1]);
    }
}

#[test]
fn new_random_ball_is_inside() {
    let mut rng = StdRng::seed_from_u64(12);
    let b = Ball::new_random(&mut rng, 300 * PX, 200 * PX);
    let r = b.radius();
    assert!(r >= MIN_RADIUS && r < MAX_RADIUS);
    assert!(r <= b.position().x && b.position().x < 300 * PX - r);
    assert!(r <= b.position().y && b.position().y < 200 * PX - r);
}

#[test]
fn collision_tests() {
    let a = Ball::new(0, 0, 10 * PX, white());
    let b = Ball::new(20 * PX, 0, 10 * PX, white());
    let c = Ball::new(21 * PX, 0, 10 * PX, white());
    assert!(a.collides(&b));
    assert!(!a.collides(&c));
    assert!(a.collides_point(Vec2 { x: 6 * PX, y: 8 * PX }));
    assert!(!a.collides_point(Vec2 { x: 6 * PX, y: 8 * PX + 1 }));
}

#[test]
fn bounce_amount_falls_off_with_radius() {
    assert_eq!(Ball::new(0, 0, 10 * PX, white()).get_bounce_amount(), AMOUNT_SCALE);
    assert_eq!(Ball::new(0, 0, 20 * PX, white()).get_bounce_amount(), AMOUNT_SCALE);
    assert_eq!(Ball::new(0, 0, 40 * PX, white()).get_bounce_amount(), AMOUNT_SCALE / 2);
    assert_eq!(Ball::new(0, 0, 80 * PX, white()).get_bounce_amount(), AMOUNT_SCALE / 4);
}

#[test]
fn move_from_pushes_along_the_center_line() {
    let mut a = Ball::new(0, 0, 10 * PX, white());
    let b = Ball::new(15 * PX, 0, 10 * PX, white());
    a.move_from(&b);
    assert_eq!(a.position(), Vec2 { x: -3 * PX, y: 0 });
    assert_eq!(a.velocity(), Vec2 { x: -250, y: 0 });
    let mut c = Ball::new(3 * PX, 4 * PX, 10 * PX, white());
    let o = Ball::new(0, 0, 10 * PX, white());
    c.move_from(&o);
    assert_eq!(c.position(), Vec2 { x: 3 * PX + 5400, y: 4 * PX + 7200 });
    assert_eq!(c.velocity(), Vec2 { x: 450, y: 600 });
}

#[test]
fn move_from_coincident_centers_pushes_right() {
    let mut a = Ball::new(50 * PX, 50 * PX, 10 * PX, white());
    let b = Ball::new(50 * PX, 50 * PX, 10 * PX, white());
    a.move_from(&b);
    assert_eq!(a.position(), Vec2 { x: 50 * PX + 12 * PX, y: 50 * PX });
    assert_eq!(a.velocity(), Vec2 { x: PX, y: 0 });
}

#[test]
fn integer_square_root() {
    assert_eq!(isqrt(0), 0);
    assert_eq!(isqrt(1), 1);
    assert_eq!(isqrt(15), 3);
    assert_eq!(isqrt(16), 4);
    assert_eq!(isqrt(225_000_000), 15_000);
    assert_eq!(isqrt(1u128 << 80), 1u128 << 40);
}

#[test]
fn reset_replaces_a_custom_set() {
    let mut rng = StdRng::seed_from_u64(21);
    let mut app = app_with(&[(100 * PX, 100 * PX, 20 * PX)]);
    app.mouse_button_down_event(100 * PX, 100 * PX);
    app.reset(&mut rng, WIDTH, HEIGHT);
    assert_eq!(app.len(), INITIAL_BALLS);
    assert_eq!(app.active_index(), None);
    assert!(!app.is_active_ball(0));
}

#[test]
fn large_ball_still_bounces_off_the_floor() {
    let r = 200_000 * PX;
    let side = 1_000_000 * PX;
    let mut app = App::empty();
    let mut ball = Ball::new(side / 2, side - r + PX, r, white());
    ball.drag_to(Vec2 { x: side / 2, y: side - r + PX }, Vec2 { x: 0, y: 10 * PX });
    app.add_ball(ball);
    app.update(side, side);
    let b = app.ball(0);
    assert_eq!(b.position().y, side - r);
    assert!(b.velocity().y < 0);
    assert_eq!(b.velocity().y, -1);
}

#[test]
fn bounce_amount_of_huge_ball_is_positive() {
    let b = Ball::new(0, 0, 100_000_000 * PX, white());
    assert_eq!(b.get_bounce_amount(), 1);
}

#[test]
fn smallest_window_takes_random_balls() {
    let mut rng = StdRng::seed_from_u64(31);
    let side = 2 * MAX_RADIUS;
    let mut app = App::new(&mut rng, side, side);
    assert_eq!(app.len(), INITIAL_BALLS);
    app.key_down_event(Key::Space, &mut rng, side, side);
    assert_eq!(app.len(), INITIAL_BALLS + 1);
    for i in 0..app.len() {
        let b = app.ball(i);
        assert!(b.radius() <= b.position().x && b.position().x < side - b.radius());
        assert!(b.radius() <= b.position().y && b.position().y < side - b.radius());
    }
}
