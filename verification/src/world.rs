//! The simulation world and its per-frame systems: player control, boundary
//! clamping, enemy motion, boundary reflection, and the two collision passes.

use vstd::prelude::*;
use vstd::pervasive::VecAdditionalExecFns;
use crate::dir::{dir_wf, flip_axes, flip_axes_spec, reflect, reflect_spec, renormalize};
use crate::rng::random_u64;
use crate::geom::{clamp1, clamp_axis, norm_sq, vec_sub, Vec2I, V2, DIR_SCALE};

verus! {

/// Side length of the player's square bounding box, in micro-units.
pub const PLAYER_SIZE: i64 = 128_000_000;

/// Half the player's side length.
pub const PLAYER_HALF: i64 = 64_000_000;

/// The player's speed, in game units per second.
pub const PLAYER_SPEED: i64 = 500;

/// Side length of an enemy's square bounding box, in micro-units.
pub const ENEMY_SIZE: i64 = 128_000_000;

/// Half an enemy's side length.
pub const ENEMY_HALF: i64 = 64_000_000;

/// An enemy's speed, in game units per second.
pub const ENEMY_SPEED: i64 = 200;

/// How many enemies the world starts with.
pub const ENEMY_AMOUNT: usize = 10;

/// Largest window dimension accepted, in micro-units.
pub const DIM_MAX: i64 = 1_000_000_000_000;

/// Largest frame delta-time accepted, in milliseconds.
pub const DT_MAX: i64 = 10_000;

/// Largest speed accepted, in game units per second.
pub const SPEED_MAX: i64 = 100_000;

/// Largest coordinate magnitude a position may reach between systems.
pub const POS_MAX: i64 = 4_000_000_000_000;

/// Fixed-point component of a normalized diagonal heading.
pub const DIAG: i64 = 707;

/// The window rectangle, in micro-units; the view of `Window`.
pub ghost struct WinM {
    pub w: int,
    pub h: int,
}

/// The window rectangle, in micro-units.
#[derive(Clone, Copy, PartialEq, Eq, Structural, Debug)]
pub struct Window {
    pub width: i64,
    pub height: i64,
}

impl View for Window {
    type V = WinM;

    open spec fn view(&self) -> WinM {
        WinM { w: self.width as int, h: self.height as int }
    }
}

/// A usable window: positive, bounded, and large enough for both sprites.
pub open spec fn win_wf(w: WinM) -> bool {
    &&& 2 * (ENEMY_SIZE as int) <= w.w <= DIM_MAX as int
    &&& 2 * (ENEMY_SIZE as int) <= w.h <= DIM_MAX as int
}

/// A position inside the box `[half, dim - half]` on both axes.
pub open spec fn in_bounds(p: V2, w: WinM, half: int) -> bool {
    &&& half <= p.x <= w.w - half
    &&& half <= p.y <= w.h - half
}

/// A coordinate pair within the working range of every system.
pub open spec fn pos_ok(p: V2) -> bool {
    &&& -(POS_MAX as int) <= p.x <= POS_MAX as int
    &&& -(POS_MAX as int) <= p.y <= POS_MAX as int
}

/// The player sprite; the view of `Player`.
pub ghost struct PlayerM {
    pub pos: V2,
}

/// The player sprite: a position; its size is the constant `PLAYER_SIZE`.
#[derive(Clone, Copy, PartialEq, Eq, Structural, Debug)]
pub struct Player {
    pub pos: Vec2I,
}

impl View for Player {
    type V = PlayerM;

    open spec fn view(&self) -> PlayerM {
        PlayerM { pos: self.pos@ }
    }
}

/// An enemy sprite; the view of `Enemy`.
pub ghost struct EnemyM {
    pub pos: V2,
    pub dir: V2,
}

/// An enemy sprite: a position and a heading.
#[derive(Clone, Copy, PartialEq, Eq, Structural, Debug)]
pub struct Enemy {
    pub pos: Vec2I,
    pub dir: Vec2I,
}

impl View for Enemy {
    type V = EnemyM;

    open spec fn view(&self) -> EnemyM {
        EnemyM { pos: self.pos@, dir: self.dir@ }
    }
}

/// The keyboard state the player controller reads: one flag per movement
/// direction, each already the disjunction of its arrow key and its letter
/// alias.
#[derive(Clone, Copy, PartialEq, Eq, Structural, Debug)]
pub struct KeyState {
    pub left: bool,
    pub right: bool,
    pub up: bool,
    pub down: bool,
}

impl KeyState {
    /// Builds the keyboard state from the pressed flags of the arrow keys and
    /// their letter aliases.
    pub fn from_keys(
        left: bool,
        a: bool,
        right: bool,
        d: bool,
        up: bool,
        w: bool,
        down: bool,
        s: bool,
    ) -> (k: KeyState)
        ensures
            k.left == (left || a),
            k.right == (right || d),
            k.up == (up || w),
            k.down == (down || s),
    {
        KeyState { left: left || a, right: right || d, up: up || w, down: down || s }
    }

    /// No movement key is pressed.
    pub open spec fn none_pressed(self) -> bool {
        !self.left && !self.right && !self.up && !self.down
    }
}

/// The heading the keyboard state sums to: unit contributions per axis,
/// normalized, so a diagonal has components `DIAG` instead of `DIR_SCALE`.
pub open spec fn key_dir_spec(k: KeyState) -> V2 {
    let ux: int = (if k.right {
        1int
    } else {
        0int
    }) - (if k.left {
        1int
    } else {
        0int
    });
    let uy: int = (if k.up {
        1int
    } else {
        0int
    }) - (if k.down {
        1int
    } else {
        0int
    });
    if ux != 0 && uy != 0 {
        V2 { x: ux * (DIAG as int), y: uy * (DIAG as int) }
    } else {
        V2 { x: ux * (DIR_SCALE as int), y: uy * (DIR_SCALE as int) }
    }
}

/// Executable keyboard-to-heading map.
pub fn key_direction(k: KeyState) -> (r: Vec2I)
    ensures
        r@ == key_dir_spec(k),
{
    let mut x: i64 = 0;
    let mut y: i64 = 0;
    if k.right {
        x = x + 1;
    }
    if k.left {
        x = x - 1;
    }
    if k.up {
        y = y + 1;
    }
    if k.down {
        y = y - 1;
    }
    if x != 0 && y != 0 {
        Vec2I::new(x * DIAG, y * DIAG)
    } else {
        Vec2I::new(x * DIR_SCALE, y * DIR_SCALE)
    }
}

/// One motion step: the position advanced by `dir * speed * dt`, with the
/// heading in direction scale, the speed in units per second and `dt` in
/// milliseconds, which lands exactly on micro-units.
pub open spec fn move_spec(pos: V2, dir: V2, speed: int, dt: int) -> V2 {
    V2 { x: pos.x + dir.x * speed * dt, y: pos.y + dir.y * speed * dt }
}

/// Executable motion step.
pub fn move_pos(pos: Vec2I, dir: Vec2I, speed: i64, dt: i64) -> (r: Vec2I)
    requires
        -(DIR_SCALE as int) <= dir.x <= DIR_SCALE as int,
        -(DIR_SCALE as int) <= dir.y <= DIR_SCALE as int,
        0 <= speed <= SPEED_MAX as int,
        0 <= dt <= DT_MAX as int,
        -2_000_000_000_000 <= pos.x <= 2_000_000_000_000,
        -2_000_000_000_000 <= pos.y <= 2_000_000_000_000,
    ensures
        r@ == move_spec(pos@, dir@, speed as int, dt as int),
        pos_ok(r@),
{
    assert(dir.x as int * (speed as int) * (dt as int) <= 1_000_000_000_000 && dir.x as int * (
    speed as int) * (dt as int) >= -1_000_000_000_000) by (nonlinear_arith)
        requires
            -1000 <= dir.x as int <= 1000,
            0 <= speed as int <= 100_000,
            0 <= dt as int <= 10_000,
    ;
    assert(dir.y as int * (speed as int) * (dt as int) <= 1_000_000_000_000 && dir.y as int * (
    speed as int) * (dt as int) >= -1_000_000_000_000) by (nonlinear_arith)
        requires
            -1000 <= dir.y as int <= 1000,
            0 <= speed as int <= 100_000,
            0 <= dt as int <= 10_000,
    ;
    assert(dir.x as int * (speed as int) <= 100_000_000 && dir.x as int * (speed as int)
        >= -100_000_000) by (nonlinear_arith)
        requires
            -1000 <= dir.x as int <= 1000,
            0 <= speed as int <= 100_000,
    ;
    assert(dir.y as int * (speed as int) <= 100_000_000 && dir.y as int * (speed as int)
        >= -100_000_000) by (nonlinear_arith)
        requires
            -1000 <= dir.y as int <= 1000,
            0 <= speed as int <= 100_000,
    ;
    let sx: i64 = dir.x * speed;
    let sy: i64 = dir.y * speed;
    assert(sx as int * (dt as int) == dir.x as int * (speed as int) * (dt as int));
    assert(sy as int * (dt as int) == dir.y as int * (speed as int) * (dt as int));
    let nx: i64 = pos.x + sx * dt;
    let ny: i64 = pos.y + sy * dt;
    Vec2I::new(nx, ny)
}

/// A position clamped into the window box for an entity of the given
/// half-size.
pub open spec fn clamp_pos_spec(p: V2, w: WinM, half: int) -> V2 {
    V2 { x: clamp1(p.x, half, w.w - half), y: clamp1(p.y, half, w.h - half) }
}

/// Executable boundary clamp.
pub fn clamp_pos(p: Vec2I, win: &Window, half: i64) -> (r: Vec2I)
    requires
        0 <= half <= DIM_MAX as int,
        0 <= win.width <= DIM_MAX as int,
        0 <= win.height <= DIM_MAX as int,
    ensures
        r@ == clamp_pos_spec(p@, win@, half as int),
{
    let x = clamp_axis(p.x, half, win.width - half);
    let y = clamp_axis(p.y, half, win.height - half);
    Vec2I::new(x, y)
}

/// A boundary clamp lands inside the box whenever the box is at least as
/// large as the entity.
pub proof fn lemma_clamp_in_bounds(p: V2, w: WinM, half: int)
    requires
        0 <= half,
        2 * half <= w.w,
        2 * half <= w.h,
    ensures
        in_bounds(clamp_pos_spec(p, w, half), w, half),
{
}

/// The boundary clamp is idempotent, and the identity on in-bounds positions.
pub proof fn lemma_clamp_idempotent(p: V2, w: WinM, half: int)
    requires
        0 <= half,
        2 * half <= w.w,
        2 * half <= w.h,
    ensures
        in_bounds(p, w, half) ==> clamp_pos_spec(p, w, half) == p,
        clamp_pos_spec(clamp_pos_spec(p, w, half), w, half) == clamp_pos_spec(p, w, half),
{
}

/// The whole simulation state: the window, at most one player, the enemies.
pub struct World {
    pub window: Window,
    pub player: Option<Player>,
    pub enemies: Vec<Enemy>,
}

/// The view of the world; the model every contract speaks of.
pub ghost struct WorldM {
    pub window: WinM,
    pub player: Option<PlayerM>,
    pub enemies: Seq<EnemyM>,
}

impl View for World {
    type V = WorldM;

    open spec fn view(&self) -> WorldM {
        WorldM {
            window: self.window@,
            player: match self.player {
                Option::Some(p) => Option::Some(p@),
                Option::None => Option::None,
            },
            enemies: self.enemies@.map_values(|e: Enemy| e@),
        }
    }
}

/// A well-formed world: usable window, every live entity in bounds, every
/// heading well formed. Holds at every frame boundary.
pub open spec fn world_wf(w: WorldM) -> bool {
    &&& win_wf(w.window)
    &&& (w.player matches Some(p) ==> in_bounds(p.pos, w.window, PLAYER_HALF as int))
    &&& forall|i: int|
        0 <= i < w.enemies.len() ==> in_bounds(
            (#[trigger] w.enemies[i]).pos,
            w.window,
            ENEMY_HALF as int,
        )
    &&& forall|i: int| 0 <= i < w.enemies.len() ==> dir_wf((#[trigger] w.enemies[i]).dir)
}

/// The player controller: the keyboard heading applied at player speed, or
/// nothing when no player lives.
pub open spec fn player_move_spec(p: Option<PlayerM>, k: KeyState, dt: int) -> Option<PlayerM> {
    match p {
        Option::Some(pl) => Option::Some(
            PlayerM { pos: move_spec(pl.pos, key_dir_spec(k), PLAYER_SPEED as int, dt) },
        ),
        Option::None => Option::None,
    }
}

/// The player's boundary clamp, or nothing when no player lives.
pub open spec fn clamp_player_spec(p: Option<PlayerM>, w: WinM) -> Option<PlayerM> {
    match p {
        Option::Some(pl) => Option::Some(
            PlayerM { pos: clamp_pos_spec(pl.pos, w, PLAYER_HALF as int) },
        ),
        Option::None => Option::None,
    }
}

/// Every enemy advanced one motion step along its heading.
pub open spec fn enemy_move_spec(es: Seq<EnemyM>, speed: int, dt: int) -> Seq<EnemyM> {
    es.map_values(|e: EnemyM| EnemyM { pos: move_spec(e.pos, e.dir, speed, dt), dir: e.dir })
}

/// Every enemy's heading flipped on the axes its pre-clamp position crossed.
pub open spec fn flip_pass_spec(es: Seq<EnemyM>, w: WinM) -> Seq<EnemyM> {
    es.map_values(
        |e: EnemyM|
            EnemyM {
                pos: e.pos,
                dir: flip_axes_spec(
                    e.pos,
                    e.dir,
                    ENEMY_HALF as int,
                    w.w - ENEMY_HALF as int,
                    ENEMY_HALF as int,
                    w.h - ENEMY_HALF as int,
                ),
            },
    )
}

/// Every enemy's position clamped into the window box.
pub open spec fn clamp_enemies_spec(es: Seq<EnemyM>, w: WinM) -> Seq<EnemyM> {
    es.map_values(
        |e: EnemyM| EnemyM { pos: clamp_pos_spec(e.pos, w, ENEMY_HALF as int), dir: e.dir },
    )
}

/// Two entities collide when the distance between their centers is below the
/// sum of their half-sizes; compared on squares, which is exact.
pub open spec fn collide_spec(a: V2, b: V2, rsum: int) -> bool {
    norm_sq(vec_sub(a, b)) < rsum * rsum
}

/// The player survives exactly when no enemy is within collision distance.
pub open spec fn collide_player_spec(p: Option<PlayerM>, es: Seq<EnemyM>) -> Option<PlayerM> {
    match p {
        Option::Some(pl) => if exists|i: int|
            0 <= i < es.len() && collide_spec(
                pl.pos,
                (#[trigger] es[i]).pos,
                PLAYER_HALF as int + ENEMY_HALF as int,
            ) {
            Option::None
        } else {
            Option::Some(pl)
        },
        Option::None => Option::None,
    }
}

/// One ordered comparison of the enemy-enemy pass: when enemies `i` and `j`
/// collide, enemy `i`'s heading is reflected about the normal from `j` to
/// `i`; enemy `j` is left untouched by this comparison.
pub open spec fn pair_step(es: Seq<EnemyM>, i: int, j: int) -> Seq<EnemyM> {
    if i != j && collide_spec(es[i].pos, es[j].pos, 2 * (ENEMY_HALF as int)) {
        es.update(
            i,
            EnemyM { pos: es[i].pos, dir: reflect_spec(es[i].dir, vec_sub(es[i].pos, es[j].pos)) },
        )
    } else {
        es
    }
}

/// The inner loop of the enemy-enemy pass: comparisons `(i, 0) .. (i, j)`,
/// each reading the headings the earlier ones wrote.
pub open spec fn inner_fold(es: Seq<EnemyM>, i: int, j: int) -> Seq<EnemyM>
    decreases j,
{
    if j <= 0 {
        es
    } else {
        pair_step(inner_fold(es, i, j - 1), i, j - 1)
    }
}

/// The outer loop of the enemy-enemy pass: all ordered pairs up to row `i`.
pub open spec fn outer_fold(es: Seq<EnemyM>, i: int) -> Seq<EnemyM>
    decreases i,
{
    if i <= 0 {
        es
    } else {
        inner_fold(outer_fold(es, i - 1), i - 1, es.len() as int)
    }
}

/// The whole enemy-enemy collision pass over all ordered pairs.
pub open spec fn collide_pass_spec(es: Seq<EnemyM>) -> Seq<EnemyM> {
    outer_fold(es, es.len() as int)
}

/// One frame, in the mandated order: player controller, player clamp, enemy
/// motion, direction reflector (on pre-clamp positions), enemy clamp, the
/// player collision pass, then the enemy-enemy collision pass.
pub open spec fn frame_spec(w: WorldM, k: KeyState, dt: int) -> WorldM {
    let p1 = player_move_spec(w.player, k, dt);
    let p2 = clamp_player_spec(p1, w.window);
    let e1 = enemy_move_spec(w.enemies, ENEMY_SPEED as int, dt);
    let e2 = flip_pass_spec(e1, w.window);
    let e3 = clamp_enemies_spec(e2, w.window);
    let p3 = collide_player_spec(p2, e3);
    let e4 = collide_pass_spec(e3);
    WorldM { window: w.window, player: p3, enemies: e4 }
}

/// Executable collision test on squared distances.
pub fn collides(a: Vec2I, b: Vec2I, rsum: i64) -> (r: bool)
    requires
        pos_ok(a@),
        pos_ok(b@),
        0 <= rsum <= DIM_MAX as int,
    ensures
        r == collide_spec(a@, b@, rsum as int),
{
    let dx: i128 = a.x as i128 - b.x as i128;
    let dy: i128 = a.y as i128 - b.y as i128;
    assert(dx * dx >= 0 && dx * dx <= 64_000_000_000_000_000_000_000_000) by (nonlinear_arith)
        requires
            -8_000_000_000_000 <= dx <= 8_000_000_000_000,
    ;
    assert(dy * dy >= 0 && dy * dy <= 64_000_000_000_000_000_000_000_000) by (nonlinear_arith)
        requires
            -8_000_000_000_000 <= dy <= 8_000_000_000_000,
    ;
    let rs: i128 = rsum as i128;
    assert(rs * rs >= 0 && rs * rs <= 1_000_000_000_000_000_000_000_000) by (nonlinear_arith)
        requires
            0 <= rs <= 1_000_000_000_000,
    ;
    dx * dx + dy * dy < rs * rs
}

impl World {
    /// The player controller: reads the keyboard heading and advances the
    /// player one motion step at player speed; silently does nothing when no
    /// player lives.
    pub fn player_movement(&mut self, k: KeyState, dt: i64)
        requires
            0 <= dt <= DT_MAX as int,
            win_wf(old(self)@.window),
            old(self)@.player matches Some(p) ==> in_bounds(
                p.pos,
                old(self)@.window,
                PLAYER_HALF as int,
            ),
        ensures
            final(self)@.window == old(self)@.window,
            final(self)@.enemies == old(self)@.enemies,
            final(self)@.player == player_move_spec(old(self)@.player, k, dt as int),
            final(self)@.player matches Some(p) ==> pos_ok(p.pos),
    {
        if let Some(p) = self.player {
            let d = key_direction(k);
            let np = move_pos(p.pos, d, PLAYER_SPEED, dt);
            self.player = Some(Player { pos: np });
        }
    }

    /// The player's boundary clamp.
    pub fn player_movement_box(&mut self)
        requires
            win_wf(old(self)@.window),
        ensures
            final(self)@.window == old(self)@.window,
            final(self)@.enemies == old(self)@.enemies,
            final(self)@.player == clamp_player_spec(old(self)@.player, old(self)@.window),
            final(self)@.player matches Some(p) ==> in_bounds(
                p.pos,
                final(self)@.window,
                PLAYER_HALF as int,
            ),
    {
        if let Some(p) = self.player {
            let np = clamp_pos(p.pos, &self.window, PLAYER_HALF);
            proof {
                lemma_clamp_in_bounds(p@.pos, self.window@, PLAYER_HALF as int);
            }
            self.player = Some(Player { pos: np });
        }
    }

    /// The enemy motion updater: every enemy advances along its stored
    /// heading at enemy speed.
    pub fn enemy_movement(&mut self, dt: i64)
        requires
            0 <= dt <= DT_MAX as int,
            forall|i: int|
                0 <= i < old(self)@.enemies.len() ==> in_bounds(
                    (#[trigger] old(self)@.enemies[i]).pos,
                    old(self)@.window,
                    ENEMY_HALF as int,
                ),
            forall|i: int| 0 <= i < old(self)@.enemies.len() ==> dir_wf(
                (#[trigger] old(self)@.enemies[i]).dir,
            ),
            win_wf(old(self)@.window),
        ensures
            final(self)@.window == old(self)@.window,
            final(self)@.player == old(self)@.player,
            final(self)@.enemies == enemy_move_spec(
                old(self)@.enemies,
                ENEMY_SPEED as int,
                dt as int,
            ),
            forall|i: int| 0 <= i < final(self)@.enemies.len() ==> pos_ok(
                (#[trigger] final(self)@.enemies[i]).pos,
            ),
    {
        let ghost target = enemy_move_spec(old(self)@.enemies, ENEMY_SPEED as int, dt as int);
        let n = self.enemies.len();
        let mut i: usize = 0;
        while i < n
            invariant
                i <= n,
                n == self.enemies.len(),
                n == old(self).enemies@.len(),
                self.window == old(self).window,
                self.player == old(self).player,
                win_wf(old(self)@.window),
                0 <= dt <= DT_MAX as int,
                target == enemy_move_spec(old(self)@.enemies, ENEMY_SPEED as int, dt as int),
                forall|k: int| i <= k < n ==> self.enemies@[k] == old(self).enemies@[k],
                forall|k: int|
                    0 <= k < old(self)@.enemies.len() ==> in_bounds(
                        (#[trigger] old(self)@.enemies[k]).pos,
                        old(self)@.window,
                        ENEMY_HALF as int,
                    ),
                forall|k: int| 0 <= k < old(self)@.enemies.len() ==> dir_wf(
                    (#[trigger] old(self)@.enemies[k]).dir,
                ),
                forall|k: int| 0 <= k < i ==> (#[trigger] self.enemies@[k])@ == target[k],
                forall|k: int| 0 <= k < i ==> pos_ok((#[trigger] self.enemies@[k])@.pos),
            decreases n - i,
        {
            let e = self.enemies[i];
            proof {
                assert(self.enemies@[i as int] == old(self).enemies@[i as int]);
                assert(old(self)@.enemies[i as int] == old(self).enemies@[i as int]@);
            }
            assert(e@ == old(self)@.enemies[i as int]);
            let np = move_pos(e.pos, e.dir, ENEMY_SPEED, dt);
            let ne = Enemy { pos: np, dir: e.dir };
            self.enemies.set(i, ne);
            proof {
                assert(self.enemies@[i as int] == ne);
                assert(ne@ == target[i as int]);
            }
            i = i + 1;
        }
        proof {
            assert(self@.enemies =~= target);
        }
    }

    /// The direction reflector: every enemy's heading is flipped on the axes
    /// its pre-clamp position has crossed. Must run before the boundary
    /// clamp, which would erase the breach this step detects.
    pub fn update_enemy_direction(&mut self)
        requires
            win_wf(old(self)@.window),
            forall|i: int| 0 <= i < old(self)@.enemies.len() ==> dir_wf(
                (#[trigger] old(self)@.enemies[i]).dir,
            ),
        ensures
            final(self)@.window == old(self)@.window,
            final(self)@.player == old(self)@.player,
            final(self)@.enemies == flip_pass_spec(old(self)@.enemies, old(self)@.window),
            forall|i: int| 0 <= i < final(self)@.enemies.len() ==> dir_wf(
                (#[trigger] final(self)@.enemies[i]).dir,
            ),
    {
        let ghost target = flip_pass_spec(old(self)@.enemies, old(self)@.window);
        let x_min: i64 = ENEMY_HALF;
        let x_max: i64 = self.window.width - ENEMY_HALF;
        let y_min: i64 = ENEMY_HALF;
        let y_max: i64 = self.window.height - ENEMY_HALF;
        let n = self.enemies.len();
        let mut i: usize = 0;
        while i < n
            invariant
                i <= n,
                n == self.enemies.len(),
                n == old(self).enemies@.len(),
                self.window == old(self).window,
                self.player == old(self).player,
                win_wf(old(self)@.window),
                x_min as int == ENEMY_HALF as int,
                x_max as int == old(self)@.window.w - ENEMY_HALF as int,
                y_min as int == ENEMY_HALF as int,
                y_max as int == old(self)@.window.h - ENEMY_HALF as int,
                target == flip_pass_spec(old(self)@.enemies, old(self)@.window),
                forall|k: int| i <= k < n ==> self.enemies@[k] == old(self).enemies@[k],
                forall|k: int| 0 <= k < old(self)@.enemies.len() ==> dir_wf(
                    (#[trigger] old(self)@.enemies[k]).dir,
                ),
                forall|k: int| 0 <= k < i ==> (#[trigger] self.enemies@[k])@ == target[k],
                forall|k: int| 0 <= k < i ==> dir_wf((#[trigger] self.enemies@[k])@.dir),
            decreases n - i,
        {
            let e = self.enemies[i];
            proof {
                assert(self.enemies@[i as int] == old(self).enemies@[i as int]);
                assert(old(self)@.enemies[i as int] == old(self).enemies@[i as int]@);
            }
            assert(e@ == old(self)@.enemies[i as int]);
            let nd = flip_axes(e.pos, e.dir, x_min, x_max, y_min, y_max);
            let ne = Enemy { pos: e.pos, dir: nd };
            self.enemies.set(i, ne);
            proof {
                assert(self.enemies@[i as int] == ne);
                assert(ne@ == target[i as int]);
            }
            i = i + 1;
        }
        proof {
            assert(self@.enemies =~= target);
        }
    }

    /// The enemies' boundary clamp.
    pub fn enemy_movement_box(&mut self)
        requires
            win_wf(old(self)@.window),
            forall|i: int| 0 <= i < old(self)@.enemies.len() ==> dir_wf(
                (#[trigger] old(self)@.enemies[i]).dir,
            ),
        ensures
            final(self)@.window == old(self)@.window,
            final(self)@.player == old(self)@.player,
            final(self)@.enemies == clamp_enemies_spec(old(self)@.enemies, old(self)@.window),
            forall|i: int|
                0 <= i < final(self)@.enemies.len() ==> in_bounds(
                    (#[trigger] final(self)@.enemies[i]).pos,
                    final(self)@.window,
                    ENEMY_HALF as int,
                ),
            forall|i: int| 0 <= i < final(self)@.enemies.len() ==> dir_wf(
                (#[trigger] final(self)@.enemies[i]).dir,
            ),
    {
        let ghost target = clamp_enemies_spec(old(self)@.enemies, old(self)@.window);
        let n = self.enemies.len();
        let mut i: usize = 0;
        while i < n
            invariant
                i <= n,
                n == self.enemies.len(),
                n == old(self).enemies@.len(),
                self.window == old(self).window,
                self.player == old(self).player,
                win_wf(old(self)@.window),
                target == clamp_enemies_spec(old(self)@.enemies, old(self)@.window),
                forall|k: int| i <= k < n ==> self.enemies@[k] == old(self).enemies@[k],
                forall|k: int| 0 <= k < old(self)@.enemies.len() ==> dir_wf(
                    (#[trigger] old(self)@.enemies[k]).dir,
                ),
                forall|k: int| 0 <= k < i ==> (#[trigger] self.enemies@[k])@ == target[k],
                forall|k: int|
                    0 <= k < i ==> in_bounds(
                        (#[trigger] self.enemies@[k])@.pos,
                        old(self)@.window,
                        ENEMY_HALF as int,
                    ),
                forall|k: int| 0 <= k < i ==> dir_wf((#[trigger] self.enemies@[k])@.dir),
            decreases n - i,
        {
            let e = self.enemies[i];
            proof {
                assert(self.enemies@[i as int] == old(self).enemies@[i as int]);
                assert(old(self)@.enemies[i as int] == old(self).enemies@[i as int]@);
            }
            assert(e@ == old(self)@.enemies[i as int]);
            let np = clamp_pos(e.pos, &self.window, ENEMY_HALF);
            proof {
                lemma_clamp_in_bounds(e@.pos, self.window@, ENEMY_HALF as int);
            }
            let ne = Enemy { pos: np, dir: e.dir };
            self.enemies.set(i, ne);
            proof {
                assert(self.enemies@[i as int] == ne);
                assert(ne@ == target[i as int]);
            }
            i = i + 1;
        }
        proof {
            assert(self@.enemies =~= target);
        }
    }

    /// The player-enemy collision detector: the player is removed on the
    /// first enemy within collision distance; nothing happens when no player
    /// lives.
    pub fn enemy_collide_player(&mut self)
        requires
            old(self)@.player matches Some(p) ==> pos_ok(p.pos),
            forall|i: int| 0 <= i < old(self)@.enemies.len() ==> pos_ok(
                (#[trigger] old(self)@.enemies[i]).pos,
            ),
        ensures
            final(self)@.window == old(self)@.window,
            final(self)@.enemies == old(self)@.enemies,
            final(self)@.player == collide_player_spec(old(self)@.player, old(self)@.enemies),
    {
        if let Some(p) = self.player {
            let n = self.enemies.len();
            let mut i: usize = 0;
            while i < n
                invariant
                    i <= n,
                    n == self.enemies.len(),
                    n == old(self).enemies@.len(),
                    self.window == old(self).window,
                    self.player == old(self).player,
                    self.enemies == old(self).enemies,
                    self.player == Some(p),
                    pos_ok(p@.pos),
                    forall|k: int| 0 <= k < old(self)@.enemies.len() ==> pos_ok(
                        (#[trigger] old(self)@.enemies[k]).pos,
                    ),
                    forall|k: int|
                        0 <= k < i ==> !collide_spec(
                            p@.pos,
                            (#[trigger] old(self)@.enemies[k]).pos,
                            PLAYER_HALF as int + ENEMY_HALF as int,
                        ),
                decreases n - i,
            {
                let e = self.enemies[i];
                proof {
                    assert(old(self)@.enemies[i as int] == old(self).enemies@[i as int]@);
                }
                assert(e@ == old(self)@.enemies[i as int]);
                if collides(p.pos, e.pos, PLAYER_HALF + ENEMY_HALF) {
                    self.player = None;
                    return ;
                }
                i = i + 1;
            }
        }
    }
}

impl World {
    /// One ordered comparison of the enemy-enemy pass, between enemies `i`
    /// and `j`: on collision, enemy `i`'s heading is reflected about the
    /// normal from `j` to `i`; enemy `j` is untouched. The reverse comparison
    /// happens when the pass visits `(j, i)`.
    pub fn collide_pair(&mut self, i: usize, j: usize)
        requires
            i < old(self)@.enemies.len(),
            j < old(self)@.enemies.len(),
            forall|k: int| 0 <= k < old(self)@.enemies.len() ==> pos_ok(
                (#[trigger] old(self)@.enemies[k]).pos,
            ),
            forall|k: int| 0 <= k < old(self)@.enemies.len() ==> dir_wf(
                (#[trigger] old(self)@.enemies[k]).dir,
            ),
        ensures
            final(self)@.window == old(self)@.window,
            final(self)@.player == old(self)@.player,
            final(self)@.enemies == pair_step(old(self)@.enemies, i as int, j as int),
            final(self)@.enemies.len() == old(self)@.enemies.len(),
            forall|k: int|
                0 <= k < final(self)@.enemies.len() ==> (#[trigger] final(self)@.enemies[k]).pos
                    == old(self)@.enemies[k].pos,
            forall|k: int| 0 <= k < final(self)@.enemies.len() ==> dir_wf(
                (#[trigger] final(self)@.enemies[k]).dir,
            ),
    {
        if i != j {
            let ei = self.enemies[i];
            let ej = self.enemies[j];
            assert(ei@ == old(self)@.enemies[i as int]);
            assert(ej@ == old(self)@.enemies[j as int]);
            if collides(ei.pos, ej.pos, ENEMY_SIZE) {
                let v = Vec2I::new(ei.pos.x - ej.pos.x, ei.pos.y - ej.pos.y);
                let nd = reflect(ei.dir, v);
                self.enemies.set(i, Enemy { pos: ei.pos, dir: nd });
                proof {
                    assert(v@ == vec_sub(old(self)@.enemies[i as int].pos, old(
                        self,
                    )@.enemies[j as int].pos));
                    assert(self@.enemies =~= pair_step(old(self)@.enemies, i as int, j as int));
                }
            }
        }
    }

    /// The enemy-enemy collision pass: every ordered pair is compared, and a
    /// later comparison reads the headings earlier comparisons in the same
    /// pass have written.
    pub fn enemy_collide_enemy(&mut self)
        requires
            forall|k: int| 0 <= k < old(self)@.enemies.len() ==> pos_ok(
                (#[trigger] old(self)@.enemies[k]).pos,
            ),
            forall|k: int| 0 <= k < old(self)@.enemies.len() ==> dir_wf(
                (#[trigger] old(self)@.enemies[k]).dir,
            ),
        ensures
            final(self)@.window == old(self)@.window,
            final(self)@.player == old(self)@.player,
            final(self)@.enemies == collide_pass_spec(old(self)@.enemies),
            final(self)@.enemies.len() == old(self)@.enemies.len(),
            forall|k: int|
                0 <= k < final(self)@.enemies.len() ==> (#[trigger] final(self)@.enemies[k]).pos
                    == old(self)@.enemies[k].pos,
            forall|k: int| 0 <= k < final(self)@.enemies.len() ==> dir_wf(
                (#[trigger] final(self)@.enemies[k]).dir,
            ),
    {
        let ghost em0 = old(self)@.enemies;
        let n = self.enemies.len();
        let mut i: usize = 0;
        while i < n
            invariant
                i <= n,
                n == self.enemies.len(),
                em0 == old(self)@.enemies,
                em0.len() == n,
                self.window == old(self).window,
                self.player == old(self).player,
                self@.enemies == outer_fold(em0, i as int),
                forall|k: int|
                    0 <= k < n ==> (#[trigger] self@.enemies[k]).pos == em0[k].pos,
                forall|k: int| 0 <= k < n ==> dir_wf((#[trigger] self@.enemies[k]).dir),
                forall|k: int| 0 <= k < n ==> pos_ok((#[trigger] em0[k]).pos),
            decreases n - i,
        {
            let mut j: usize = 0;
            while j < n
                invariant
                    j <= n,
                    i < n,
                    n == self.enemies.len(),
                    em0 == old(self)@.enemies,
                    em0.len() == n,
                    self.window == old(self).window,
                    self.player == old(self).player,
                    self@.enemies == inner_fold(outer_fold(em0, i as int), i as int, j as int),
                    forall|k: int|
                        0 <= k < n ==> (#[trigger] self@.enemies[k]).pos == em0[k].pos,
                    forall|k: int| 0 <= k < n ==> dir_wf((#[trigger] self@.enemies[k]).dir),
                    forall|k: int| 0 <= k < n ==> pos_ok((#[trigger] em0[k]).pos),
                decreases n - j,
            {
                let ghost before = self@.enemies;
                self.collide_pair(i, j);
                proof {
                    assert(inner_fold(outer_fold(em0, i as int), i as int, j as int + 1)
                        == pair_step(before, i as int, j as int));
                }
                j = j + 1;
            }
            proof {
                assert(outer_fold(em0, i as int + 1) == inner_fold(
                    outer_fold(em0, i as int),
                    i as int,
                    em0.len() as int,
                ));
            }
            i = i + 1;
        }
    }

    /// One whole frame, in the mandated order: player controller, player
    /// clamp, enemy motion, direction reflector on the pre-clamp positions,
    /// enemy clamp, the player collision pass, then the enemy-enemy pass.
    pub fn update_frame(&mut self, k: KeyState, dt: i64)
        requires
            world_wf(old(self)@),
            0 <= dt <= DT_MAX as int,
        ensures
            final(self)@ == frame_spec(old(self)@, k, dt as int),
            world_wf(final(self)@),
    {
        self.player_movement(k, dt);
        self.player_movement_box();
        self.enemy_movement(dt);
        self.update_enemy_direction();
        self.enemy_movement_box();
        self.enemy_collide_player();
        self.enemy_collide_enemy();
        proof {
            assert(self@ =~= frame_spec(old(self)@, k, dt as int));
        }
    }
}

/// Places the player at the window center, as at startup.
pub fn spawn_player(win: &Window) -> (p: Player)
    requires
        win_wf(win@),
    ensures
        p@.pos == (V2 { x: win@.w / 2, y: win@.h / 2 }),
        in_bounds(p@.pos, win@, PLAYER_HALF as int),
{
    let x: i64 = ((win.width as u64) / 2) as i64;
    let y: i64 = ((win.height as u64) / 2) as i64;
    Player { pos: Vec2I::new(x, y) }
}

/// Spawns `count` enemies at random positions, pre-clamped into the window,
/// with random headings normalized to the direction scale. A degenerate
/// random heading falls back to straight up. Relies on the trusted random
/// source; the contract holds for every outcome.
pub fn spawn_enemies(win: &Window, count: usize) -> (es: Vec<Enemy>)
    requires
        win_wf(win@),
    ensures
        es@.len() == count,
        forall|i: int|
            0 <= i < es@.len() ==> in_bounds(
                (#[trigger] es@[i])@.pos,
                win@,
                ENEMY_HALF as int,
            ),
        forall|i: int| 0 <= i < es@.len() ==> dir_wf((#[trigger] es@[i])@.dir),
{
    let mut es: Vec<Enemy> = Vec::new();
    let mut c: usize = 0;
    while c < count
        invariant
            c <= count,
            es@.len() == c,
            win_wf(win@),
            forall|i: int|
                0 <= i < es@.len() ==> in_bounds(
                    (#[trigger] es@[i])@.pos,
                    win@,
                    ENEMY_HALF as int,
                ),
            forall|i: int| 0 <= i < es@.len() ==> dir_wf((#[trigger] es@[i])@.dir),
        decreases count - c,
    {
        let rx: u64 = random_u64();
        let ry: u64 = random_u64();
        let px: i64 = (rx % (win.width as u64)) as i64;
        let py: i64 = (ry % (win.height as u64)) as i64;
        let cx: i64 = clamp_axis(px, ENEMY_SIZE, win.width - ENEMY_SIZE);
        let cy: i64 = clamp_axis(py, ENEMY_SIZE, win.height - ENEMY_SIZE);
        let da: i64 = (random_u64() % 1001) as i64;
        let db: i64 = (random_u64() % 1001) as i64;
        let dir: Vec2I = match renormalize(da, db) {
            Some(d) => d,
            None => Vec2I::new(0, DIR_SCALE),
        };
        let en = Enemy { pos: Vec2I::new(cx, cy), dir };
        es.push(en);
        proof {
            assert(es@[c as int] == en);
        }
        c = c + 1;
    }
    es
}

impl World {
    /// A world as at startup: the player at the window center and
    /// `ENEMY_AMOUNT` randomly spawned enemies.
    pub fn new(window: Window) -> (w: World)
        requires
            win_wf(window@),
        ensures
            world_wf(w@),
            w@.window == window@,
            w@.player == Some(PlayerM { pos: V2 { x: window@.w / 2, y: window@.h / 2 } }),
            w@.enemies.len() == ENEMY_AMOUNT as int,
    {
        let player = spawn_player(&window);
        let enemies = spawn_enemies(&window, ENEMY_AMOUNT);
        World { window, player: Some(player), enemies }
    }
}

/// With no movement key pressed, one frame leaves a surviving player exactly
/// where it stood: zero input sums to the zero heading, the motion step adds
/// zero, and the boundary clamp is the identity on an in-bounds position.
pub proof fn lemma_idle_player_fixed(w: WorldM, pl: PlayerM, k: KeyState, dt: int)
    requires
        world_wf(w),
        w.player == Some(pl),
        k.none_pressed(),
    ensures
        frame_spec(w, k, dt).player matches Some(p) ==> p == pl,
{
    let d = key_dir_spec(k);
    assert(d.x == 0 && d.y == 0);
    assert(move_spec(pl.pos, d, PLAYER_SPEED as int, dt) == pl.pos) by {
        assert(d.x * (PLAYER_SPEED as int) * dt == 0) by (nonlinear_arith)
            requires
                d.x == 0,
        ;
        assert(d.y * (PLAYER_SPEED as int) * dt == 0) by (nonlinear_arith)
            requires
                d.y == 0,
        ;
    }
    lemma_clamp_idempotent(pl.pos, w.window, PLAYER_HALF as int);
}

} // verus!
