use swarm_sim::arith::{div_trunc_i128, isqrt};
use swarm_sim::dir::{flip_axes, reflect, renormalize};
use swarm_sim::geom::{clamp_axis, Vec2I};
use swarm_sim::world::{
    collides, key_direction, spawn_enemies, spawn_player, KeyState, Enemy, Player, Window, World,
    DIM_MAX, ENEMY_AMOUNT, ENEMY_HALF, ENEMY_SIZE, PLAYER_HALF, PLAYER_SPEED,
};

const W: i64 = 1_280_000_000;
const H: i64 = 720_000_000;

fn test_window() -> Window {
    Window { width: W, height: H }
}

fn idle_keys() -> KeyState {
    KeyState { left: false, right: false, up: false, down: false }
}

#[test]
fn isqrt_exact_values() {
    assert_eq!(isqrt(0), 0);
    assert_eq!(isqrt(1), 1);
    assert_eq!(isqrt(24), 4);
    assert_eq!(isqrt(25), 5);
    assert_eq!(isqrt(1_000_000), 1000);
}

#[test]
fn div_trunc_rounds_toward_zero() {
    assert_eq!(div_trunc_i128(7, 2), 3);
    assert_eq!(div_trunc_i128(-7, 2), -3);
    assert_eq!(div_trunc_i128(6, 3), 2);
    assert_eq!(div_trunc_i128(-6, 3), -2);
}

#[test]
fn renormalize_scales_to_direction_scale() {
    // A 3-4-5 triangle lands exactly on the scale.
    let d = renormalize(3, 4).unwrap();
    assert_eq!((d.x, d.y), (600, 800));
    let d = renormalize(-3, 4).unwrap();
    assert_eq!((d.x, d.y), (-600, 800));
}

#[test]
fn renormalize_rejects_zero_vector() {
    assert!(renormalize(0, 0).is_none());
}

#[test]
fn clamp_axis_exact_values() {
    assert_eq!(clamp_axis(-5, 0, 10), 0);
    assert_eq!(clamp_axis(15, 0, 10), 10);
    assert_eq!(clamp_axis(7, 0, 10), 7);
}

#[test]
fn clamp_twice_equals_clamp_once() {
    let once = clamp_axis(W + 123, PLAYER_HALF, W - PLAYER_HALF);
    let twice = clamp_axis(once, PLAYER_HALF, W - PLAYER_HALF);
    assert_eq!(once, twice);
    // An in-bounds value is untouched.
    assert_eq!(clamp_axis(once, PLAYER_HALF, W - PLAYER_HALF), once);
}

#[test]
fn key_direction_axes_and_diagonals() {
    let none = key_direction(idle_keys());
    assert_eq!((none.x, none.y), (0, 0));
    let right = key_direction(KeyState { left: false, right: true, up: false, down: false });
    assert_eq!((right.x, right.y), (1000, 0));
    let up_right = key_direction(KeyState { left: false, right: true, up: true, down: false });
    assert_eq!((up_right.x, up_right.y), (707, 707));
    let down_left = key_direction(KeyState { left: true, right: false, up: false, down: true });
    assert_eq!((down_left.x, down_left.y), (-707, -707));
    let both = key_direction(KeyState { left: true, right: true, up: false, down: false });
    assert_eq!((both.x, both.y), (0, 0));
}

#[test]
fn key_state_merges_aliases() {
    let k = KeyState::from_keys(false, true, false, false, true, false, false, false);
    assert!(k.left && !k.right && k.up && !k.down);
}

#[test]
fn player_moves_by_speed_times_dt() {
    let mut w = World {
        window: test_window(),
        player: Some(Player { pos: Vec2I::new(W / 2, H / 2) }),
        enemies: Vec::new(),
    };
    let right = KeyState { left: false, right: true, up: false, down: false };
    w.player_movement(right, 16);
    let p = w.player.unwrap();
    // 1.0 (scaled 1000) * 500 units/s * 16 ms = 8 units = 8_000_000 micro.
    assert_eq!(p.pos.x, W / 2 + 1000 * PLAYER_SPEED * 16);
    assert_eq!(p.pos.y, H / 2);
}

#[test]
fn idle_player_is_fixed_by_a_frame() {
    let mut w = World {
        window: test_window(),
        player: Some(Player { pos: Vec2I::new(W / 2, H / 2) }),
        enemies: Vec::new(),
    };
    w.update_frame(idle_keys(), 16);
    let p = w.player.unwrap();
    assert_eq!((p.pos.x, p.pos.y), (W / 2, H / 2));
}

#[test]
fn reflector_flips_heading_beyond_boundary() {
    let x_max = W - ENEMY_HALF;
    let mut w = World {
        window: test_window(),
        player: None,
        enemies: vec![Enemy { pos: Vec2I::new(x_max + 1, H / 2), dir: Vec2I::new(1000, 0) }],
    };
    w.update_enemy_direction();
    assert_eq!((w.enemies[0].dir.x, w.enemies[0].dir.y), (-1000, 0));
    // The following motion step moves it toward decreasing x.
    let before = w.enemies[0].pos.x;
    w.enemy_movement(16);
    assert!(w.enemies[0].pos.x < before);
}

#[test]
fn reflector_leaves_heading_exactly_at_boundary() {
    // The trigger is strict: a position exactly at x_max has not crossed it.
    let x_max = W - ENEMY_HALF;
    let mut w = World {
        window: test_window(),
        player: None,
        enemies: vec![Enemy { pos: Vec2I::new(x_max, H / 2), dir: Vec2I::new(1000, 0) }],
    };
    w.update_enemy_direction();
    assert_eq!((w.enemies[0].dir.x, w.enemies[0].dir.y), (1000, 0));
}

#[test]
fn flip_axes_only_flips_crossed_axis() {
    let d = flip_axes(
        Vec2I::new(-1, 5),
        Vec2I::new(600, 800),
        0,
        10,
        0,
        10,
    );
    assert_eq!((d.x, d.y), (-600, 800));
}

#[test]
fn collision_is_strictly_inside_radius() {
    // 100 units apart, radii sum 128: collision.
    let a = Vec2I::new(0, 0);
    let b = Vec2I::new(100_000_000, 0);
    assert!(collides(a, b, PLAYER_HALF + ENEMY_HALF));
    // Exactly at the radius sum: no collision.
    let c = Vec2I::new(128_000_000, 0);
    assert!(!collides(a, c, PLAYER_HALF + ENEMY_HALF));
}

#[test]
fn player_is_removed_at_distance_100() {
    let cx = W / 2;
    let cy = H / 2;
    let mut w = World {
        window: test_window(),
        player: Some(Player { pos: Vec2I::new(cx, cy) }),
        enemies: vec![Enemy {
            pos: Vec2I::new(cx + 100_000_000, cy),
            dir: Vec2I::new(0, 1000),
        }],
    };
    w.enemy_collide_player();
    assert!(w.player.is_none());
}

#[test]
fn distant_player_survives() {
    let mut w = World {
        window: test_window(),
        player: Some(Player { pos: Vec2I::new(W / 2, H / 2) }),
        enemies: vec![Enemy {
            pos: Vec2I::new(W / 2 + 200_000_000, H / 2),
            dir: Vec2I::new(0, 1000),
        }],
    };
    w.enemy_collide_player();
    assert!(w.player.is_some());
}

#[test]
fn reflect_mirrors_about_normal() {
    // Normal along y: the y component is mirrored, the x kept.
    let d = reflect(Vec2I::new(600, 800), Vec2I::new(0, 5));
    assert_eq!((d.x, d.y), (600, -800));
    // Head-on against the normal: the heading turns around.
    let d = reflect(Vec2I::new(1000, 0), Vec2I::new(1, 0));
    assert_eq!((d.x, d.y), (-1000, 0));
}

#[test]
fn reflect_keeps_heading_on_coincident_centers() {
    let d = reflect(Vec2I::new(600, 800), Vec2I::new(0, 0));
    assert_eq!((d.x, d.y), (600, 800));
}

#[test]
fn single_comparison_reflects_only_first_enemy() {
    let mut w = World {
        window: test_window(),
        player: None,
        enemies: vec![
            Enemy { pos: Vec2I::new(0, 0), dir: Vec2I::new(1000, 0) },
            Enemy { pos: Vec2I::new(10_000_000, 0), dir: Vec2I::new(600, 800) },
        ],
    };
    w.collide_pair(0, 1);
    assert_eq!((w.enemies[0].dir.x, w.enemies[0].dir.y), (-1000, 0));
    assert_eq!((w.enemies[1].dir.x, w.enemies[1].dir.y), (600, 800));
}

#[test]
fn full_pass_visits_reversed_pairs() {
    let mut w = World {
        window: test_window(),
        player: None,
        enemies: vec![
            Enemy { pos: Vec2I::new(0, 0), dir: Vec2I::new(1000, 0) },
            Enemy { pos: Vec2I::new(10_000_000, 0), dir: Vec2I::new(600, 800) },
        ],
    };
    w.enemy_collide_enemy();
    assert_eq!((w.enemies[0].dir.x, w.enemies[0].dir.y), (-1000, 0));
    assert_eq!((w.enemies[1].dir.x, w.enemies[1].dir.y), (-600, 800));
}

#[test]
fn collision_pass_does_not_move_enemies() {
    let mut w = World {
        window: test_window(),
        player: None,
        enemies: vec![
            Enemy { pos: Vec2I::new(0, 0), dir: Vec2I::new(1000, 0) },
            Enemy { pos: Vec2I::new(10_000_000, 0), dir: Vec2I::new(600, 800) },
        ],
    };
    w.enemy_collide_enemy();
    assert_eq!((w.enemies[0].pos.x, w.enemies[0].pos.y), (0, 0));
    assert_eq!((w.enemies[1].pos.x, w.enemies[1].pos.y), (10_000_000, 0));
}

#[test]
fn spawned_world_is_well_formed() {
    let w = World::new(test_window());
    let p = w.player.unwrap();
    assert_eq!((p.pos.x, p.pos.y), (W / 2, H / 2));
    assert_eq!(w.enemies.len(), ENEMY_AMOUNT);
    for e in &w.enemies {
        assert!(ENEMY_SIZE <= e.pos.x && e.pos.x <= W - ENEMY_SIZE);
        assert!(ENEMY_SIZE <= e.pos.y && e.pos.y <= H - ENEMY_SIZE);
        let n = e.dir.x * e.dir.x + e.dir.y * e.dir.y;
        assert!(499_849 <= n && n <= 2_000_000);
    }
}

#[test]
fn spawned_enemies_count_and_bounds() {
    let win = test_window();
    let es = spawn_enemies(&win, 25);
    assert_eq!(es.len(), 25);
    for e in &es {
        assert!(ENEMY_HALF <= e.pos.x && e.pos.x <= W - ENEMY_HALF);
        assert!(ENEMY_HALF <= e.pos.y && e.pos.y <= H - ENEMY_HALF);
    }
}

#[test]
fn spawn_player_centers() {
    let win = test_window();
    let p = spawn_player(&win);
    assert_eq!((p.pos.x, p.pos.y), (W / 2, H / 2));
}

#[test]
fn frames_keep_enemies_in_bounds_with_unit_headings() {
    let mut w = World::new(test_window());
    for _ in 0..50 {
        w.update_frame(idle_keys(), 16);
        for e in &w.enemies {
            assert!(ENEMY_HALF <= e.pos.x && e.pos.x <= W - ENEMY_HALF);
            assert!(ENEMY_HALF <= e.pos.y && e.pos.y <= H - ENEMY_HALF);
            let n = e.dir.x * e.dir.x + e.dir.y * e.dir.y;
            assert!(499_849 <= n && n <= 2_000_000);
        }
    }
    assert!(w.window.width <= DIM_MAX);
}

#[test]
fn enemy_moves_by_exact_delta() {
    let mut w = World {
        window: test_window(),
        player: None,
        enemies: vec![Enemy {
            pos: Vec2I::new(W / 2, H / 2),
            dir: Vec2I::new(600, 800),
        }],
    };
    // 200 units/s for 16 ms: 0.6 * 3200 and 0.8 * 3200 micro-units scaled.
    w.enemy_movement(16);
    assert_eq!(w.enemies[0].pos.x, W / 2 + 600 * 200 * 16);
    assert_eq!(w.enemies[0].pos.y, H / 2 + 800 * 200 * 16);
}

#[test]
fn enemy_box_pulls_back_into_window() {
    let mut w = World {
        window: test_window(),
        player: None,
        enemies: vec![Enemy {
            pos: Vec2I::new(W + 5, -7),
            dir: Vec2I::new(0, 1000),
        }],
    };
    w.enemy_movement_box();
    assert_eq!(w.enemies[0].pos.x, W - ENEMY_HALF);
    assert_eq!(w.enemies[0].pos.y, ENEMY_HALF);
}

#[test]
fn player_box_pulls_back_into_window() {
    let mut w = World {
        window: test_window(),
        player: Some(Player { pos: Vec2I::new(-3, H + 9) }),
        enemies: Vec::new(),
    };
    w.player_movement_box();
    let p = w.player.unwrap();
    assert_eq!(p.pos.x, PLAYER_HALF);
    assert_eq!(p.pos.y, H - PLAYER_HALF);
}

#[test]
fn dead_player_stays_dead_and_silent() {
    let mut w = World { window: test_window(), player: None, enemies: Vec::new() };
    let right = KeyState { left: false, right: true, up: false, down: false };
    w.player_movement(right, 16);
    w.player_movement_box();
    w.enemy_collide_player();
    assert!(w.player.is_none());
}
