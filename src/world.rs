use vstd::prelude::*;
use crate::components::{Movable, Point, Velocity};
use crate::explosion::{spec_tick, ExplosionTimer};
use crate::enemy::{advance, fire_point, next_angle, spec_after, spec_fire_point, spec_next_angle, spec_step};
use crate::formation::{entry_x, spec_make, spec_template, Formation, FormationDraws, FormationMaker, TURN_MICRO};
use crate::units::ENEMY_MAX;
use crate::geometry::{collide, coord_ok, move_ok, inside_margin, overlaps, WinSize};
use crate::units::{ENEMY_HIT_H, ENEMY_HIT_W, ENEMY_LASER_HIT_H, ENEMY_LASER_HIT_W, PLAYER_HIT_H, PLAYER_HIT_W, PLAYER_LASER_HIT_H, PLAYER_LASER_HIT_W};
use crate::movable::{advanced, despawns, move_body};
use crate::player::{fire_points, keyboard_velocity, spawn_point, spec_fire_points, spec_keyboard_x, spec_spawn_point, PlayerState};
use crate::units::SHIP_Z;

verus! {

/// What a body is. A laser's kind says whose it is, so no laser belongs to
/// both sides.
#[derive(Clone, Copy, Debug, PartialEq, Eq, Structural)]
pub enum Kind {
    Player,
    Enemy,
    PlayerLaser,
    EnemyLaser,
    Explosion,
    /// A marker left by a hit: where an explosion is to appear.
    ExplosionToSpawn,
}

/// One entity of the world with its components.
#[derive(Clone, Copy, Debug, PartialEq, Eq, Structural)]
pub struct Body {
    pub id: u64,
    pub kind: Kind,
    pub pos: Point,
    pub z: i64,
    pub velocity: Velocity,
    pub movable: Option<Movable>,
    pub formation: Option<Formation>,
    pub timer: Option<ExplosionTimer>,
}

impl Body {
    pub open spec fn from_player(&self) -> bool {
        self.kind == Kind::PlayerLaser
    }

    pub open spec fn from_enemy(&self) -> bool {
        self.kind == Kind::EnemyLaser
    }

    /// Components every body of its kind carries.
    pub open spec fn wf(&self) -> bool {
        &&& coord_ok(self.pos)
        &&& self.velocity.wf()
        &&& self.kind == Kind::Enemy ==> {
            &&& self.formation.is_some()
            &&& self.formation.unwrap().wf()
            &&& self.movable.is_none()
        }
        &&& self.kind == Kind::Player ==> self.movable == Some(Movable { auto_despawn: false }) && move_ok(self.pos)
        &&& self.kind == Kind::Explosion ==> self.timer.is_some() && self.timer.unwrap().wf()
    }
}

/// No body carries the tags of both sides.
pub proof fn lemma_no_laser_on_both_sides(b: Body)
    ensures
        !(b.from_player() && b.from_enemy()),
{
}

/// Number of bodies of kind `k`.
pub open spec fn count_kind(s: Seq<Body>, k: Kind) -> nat
    decreases s.len(),
{
    if s.len() == 0 {
        0
    } else {
        count_kind(s.drop_last(), k) + if s.last().kind == k { 1nat } else { 0nat }
    }
}

/// Number of bodies of kind `k` marked in `dead` (read position by position).
pub open spec fn count_marked(s: Seq<Body>, dead: Seq<bool>, k: Kind) -> nat
    decreases s.len(),
{
    if s.len() == 0 || dead.len() != s.len() {
        0
    } else {
        count_marked(s.drop_last(), dead.drop_last(), k) + if dead.last() && s.last().kind == k {
            1nat
        } else {
            0nat
        }
    }
}

pub proof fn lemma_count_push(s: Seq<Body>, b: Body, k: Kind)
    ensures
        count_kind(s.push(b), k) == count_kind(s, k) + if b.kind == k { 1nat } else { 0nat },
{
    assert(s.push(b).drop_last() =~= s);
}

pub proof fn lemma_count_update(s: Seq<Body>, i: int, b: Body, k: Kind)
    requires
        0 <= i < s.len(),
        b.kind == s[i].kind,
    ensures
        count_kind(s.update(i, b), k) == count_kind(s, k),
    decreases s.len(),
{
    if i == s.len() - 1 {
        assert(s.update(i, b).drop_last() =~= s.drop_last());
    } else {
        assert(s.update(i, b).drop_last() =~= s.drop_last().update(i, b));
        lemma_count_update(s.drop_last(), i, b, k);
    }
}

pub proof fn lemma_marked_le(s: Seq<Body>, dead: Seq<bool>, k: Kind)
    ensures
        count_marked(s, dead, k) <= count_kind(s, k),
    decreases s.len(),
{
    if s.len() > 0 && dead.len() == s.len() {
        lemma_marked_le(s.drop_last(), dead.drop_last(), k);
    }
}

pub proof fn lemma_mark(s: Seq<Body>, dead: Seq<bool>, j: int, k: Kind)
    requires
        dead.len() == s.len(),
        0 <= j < s.len(),
        !dead[j],
    ensures
        count_marked(s, dead.update(j, true), k) == count_marked(s, dead, k) + if s[j].kind == k {
            1nat
        } else {
            0nat
        },
    decreases s.len(),
{
    let d2 = dead.update(j, true);
    if j == s.len() - 1 {
        assert(d2.drop_last() =~= dead.drop_last());
    } else {
        assert(d2.drop_last() =~= dead.drop_last().update(j, true));
        lemma_mark(s.drop_last(), dead.drop_last(), j, k);
    }
}

pub proof fn lemma_no_marks(s: Seq<Body>, dead: Seq<bool>, k: Kind)
    requires
        dead.len() == s.len(),
        forall|j: int| 0 <= j < s.len() ==> !dead[j],
    ensures
        count_marked(s, dead, k) == 0,
    decreases s.len(),
{
    if s.len() > 0 {
        lemma_no_marks(s.drop_last(), dead.drop_last(), k);
    }
}

/// `b` is one of the first `n` bodies of `s` that `dead` leaves unmarked.
pub open spec fn unmarked_in(s: Seq<Body>, dead: Seq<bool>, n: int, b: Body) -> bool {
    exists|j: int| 0 <= j < n && j < s.len() && !dead[j] && #[trigger] s[j] == b
}

/// The bodies that are not marked, in their order, and how many of each
/// kind leave.
pub fn retain_unmarked(bodies: &Vec<Body>, dead: &Vec<bool>) -> (r: Vec<Body>)
    requires
        dead.len() == bodies.len(),
    ensures
        forall|k: Kind| #[trigger] count_kind(r@, k) + count_marked(bodies@, dead@, k) == count_kind(bodies@, k),
        forall|a: int| 0 <= a < r.len() ==> unmarked_in(bodies@, dead@, bodies.len() as int, #[trigger] r@[a]),
        forall|j: int| 0 <= j < bodies.len() && !dead@[j] ==> r@.contains(#[trigger] bodies@[j]),
        (forall|j: int| 0 <= j < bodies.len() ==> !(#[trigger] dead@[j])) ==> r@ == bodies@,
{
    let mut out: Vec<Body> = Vec::new();
    let mut i: usize = 0;
    while i < bodies.len()
        invariant
            i <= bodies.len(),
            dead.len() == bodies.len(),
            forall|k: Kind| #[trigger] count_kind(out@, k) + count_marked(bodies@.subrange(0, i as int), dead@.subrange(0, i as int), k)
                == count_kind(bodies@.subrange(0, i as int), k),
            forall|a: int| 0 <= a < out.len() ==> unmarked_in(bodies@, dead@, i as int, #[trigger] out@[a]),
            forall|j: int| 0 <= j < i && !dead@[j] ==> out@.contains(#[trigger] bodies@[j]),
            (forall|j: int| 0 <= j < bodies.len() ==> !(#[trigger] dead@[j])) ==> out@ == bodies@.subrange(0, i as int),
        decreases bodies.len() - i,
    {
        let ghost old_out = out@;
        let ghost si = bodies@.subrange(0, i as int);
        let ghost di = dead@.subrange(0, i as int);
        assert(bodies@.subrange(0, i + 1).drop_last() =~= si);
        assert(dead@.subrange(0, i + 1).drop_last() =~= di);
        if !dead[i] {
            out.push(bodies[i]);
            proof {
                if forall|j: int| 0 <= j < bodies.len() ==> !(#[trigger] dead@[j]) {
                    assert(out@ =~= bodies@.subrange(0, i + 1));
                }
                assert forall|k: Kind| #[trigger] count_kind(out@, k) == count_kind(old_out, k) + if bodies@[i as int].kind == k { 1nat } else { 0nat } by {
                    lemma_count_push(old_out, bodies@[i as int], k);
                }
                assert(out@[old_out.len() as int] == bodies@[i as int]);
                assert forall|a: int| 0 <= a < out.len() implies unmarked_in(bodies@, dead@, i + 1, #[trigger] out@[a]) by {
                    if a < old_out.len() {
                        assert(out@[a] == old_out[a]);
                        assert(unmarked_in(bodies@, dead@, i as int, old_out[a]));
                    } else {
                        assert(out@[a] == bodies@[i as int]);
                    }
                }
                assert forall|j: int| 0 <= j < i + 1 && !dead@[j] implies out@.contains(#[trigger] bodies@[j]) by {
                    if j < i {
                        let w = choose|w: int| 0 <= w < old_out.len() && old_out[w] == bodies@[j];
                        assert(out@[w] == bodies@[j]);
                    } else {
                        assert(out@[old_out.len() as int] == bodies@[j]);
                    }
                }
            }
        } else {
            proof {
                assert forall|a: int| 0 <= a < out.len() implies unmarked_in(bodies@, dead@, i + 1, #[trigger] out@[a]) by {
                    assert(unmarked_in(bodies@, dead@, i as int, out@[a]));
                }
            }
        }
        i = i + 1;
    }
    assert(bodies@.subrange(0, bodies.len() as int) =~= bodies@);
    assert(dead@.subrange(0, dead.len() as int) =~= dead@);
    out
}

/// The player's ship, as spawned at `pos`; it starts drifting right until
/// the keyboard is first read.
pub open spec fn player_body(id: u64, pos: Point) -> Body {
    Body {
        id,
        kind: Kind::Player,
        pos,
        z: SHIP_Z,
        velocity: Velocity { x: 1, y: 0 },
        movable: Some(Movable { auto_despawn: false }),
        formation: None,
        timer: None,
    }
}

/// A player laser at `pos`, flying up.
pub open spec fn player_laser_body(id: u64, pos: Point) -> Body {
    Body {
        id,
        kind: Kind::PlayerLaser,
        pos,
        z: 0,
        velocity: Velocity { x: 0, y: 1 },
        movable: Some(Movable { auto_despawn: true }),
        formation: None,
        timer: None,
    }
}

/// An enemy entering at the start of its formation.
pub open spec fn enemy_body(id: u64, f: Formation) -> Body {
    Body {
        id,
        kind: Kind::Enemy,
        pos: f.start,
        z: SHIP_Z,
        velocity: Velocity { x: 0, y: 0 },
        movable: None,
        formation: Some(f),
        timer: None,
    }
}

/// An enemy laser at `pos`, flying down.
pub open spec fn enemy_laser_body(id: u64, pos: Point) -> Body {
    Body {
        id,
        kind: Kind::EnemyLaser,
        pos,
        z: 0,
        velocity: Velocity { x: 0, y: -1i64 },
        movable: Some(Movable { auto_despawn: true }),
        formation: None,
        timer: None,
    }
}

/// Where the enemies among `s` fire from, in their order.
pub open spec fn shot_points(s: Seq<Body>) -> Seq<Point>
    decreases s.len(),
{
    if s.len() == 0 {
        Seq::empty()
    } else if s.last().kind == Kind::Enemy {
        shot_points(s.drop_last()).push(spec_fire_point(s.last().pos))
    } else {
        shot_points(s.drop_last())
    }
}

/// The body after one tick of enemy flight, given its target point.
pub open spec fn flown(b: Body, t: Point) -> Body {
    if b.kind == Kind::Enemy {
        Body {
            pos: spec_step(b.pos, b.formation.unwrap(), t),
            formation: Some(spec_after(b.pos, b.formation.unwrap(), t)),
            ..b
        }
    } else {
        b
    }
}

/// The body after one tick of travel, if it moves.
pub open spec fn moved(b: Body) -> Body {
    if b.movable.is_some() { Body { pos: advanced(b.pos, b.velocity), ..b } } else { b }
}

/// Whether the body, once moved, is removed for having left the window.
pub open spec fn leaves(win: WinSize, b: Body) -> bool {
    b.movable.is_some() && despawns(win, b.movable.unwrap(), advanced(b.pos, b.velocity))
}

/// `b` is the moved form of a body of `s` that stays.
pub open spec fn moved_from(s: Seq<Body>, win: WinSize, b: Body) -> bool {
    exists|j: int| 0 <= j < s.len() && !leaves(win, s[j]) && b == moved(#[trigger] s[j])
}

/// A player laser's hit box overlaps an enemy's.
pub open spec fn laser_hits_enemy(l: Body, e: Body) -> bool {
    overlaps(l.pos, PLAYER_LASER_HIT_W as int, PLAYER_LASER_HIT_H as int, e.pos, ENEMY_HIT_W as int, ENEMY_HIT_H as int)
}

/// An enemy laser's hit box overlaps the player's.
pub open spec fn laser_hits_player(l: Body, p: Body) -> bool {
    overlaps(l.pos, ENEMY_LASER_HIT_W as int, ENEMY_LASER_HIT_H as int, p.pos, PLAYER_HIT_W as int, PLAYER_HIT_H as int)
}

/// A marker asking for an explosion at `pos`.
pub open spec fn marker_body(id: u64, pos: Point) -> Body {
    Body {
        id,
        kind: Kind::ExplosionToSpawn,
        pos,
        z: SHIP_Z,
        velocity: Velocity { x: 0, y: 0 },
        movable: None,
        formation: None,
        timer: None,
    }
}

/// Some body of kind `k` among `s` stands at `p`.
pub open spec fn kind_at(s: Seq<Body>, k: Kind, p: Point) -> bool {
    exists|j: int| 0 <= j < s.len() && (#[trigger] s[j]).kind == k && s[j].pos == p
}

/// The body at `x` is a player laser overlapping some enemy, or an enemy
/// overlapped by some player laser.
pub open spec fn hit_partner(s: Seq<Body>, x: int) -> bool {
    exists|y: int| 0 <= y < s.len() && {
        ||| s[x].kind == Kind::PlayerLaser && (#[trigger] s[y]).kind == Kind::Enemy && laser_hits_enemy(s[x], s[y])
        ||| s[x].kind == Kind::Enemy && s[y].kind == Kind::PlayerLaser && laser_hits_enemy(s[y], s[x])
    }
}

/// The markers from `from` on in `t` stand one each, in order, at the
/// places of the distinct enemies of `s` listed in `who`, each of them hit.
pub open spec fn markers_for(s: Seq<Body>, t: Seq<Body>, from: int, who: Seq<int>) -> bool {
    &&& from + who.len() == t.len()
    &&& forall|m: int| 0 <= m < who.len() ==> {
        &&& 0 <= #[trigger] who[m] < s.len()
        &&& s[who[m]].kind == Kind::Enemy
        &&& hit_partner(s, who[m])
        &&& t[from + m] == marker_body(t[from + m].id, s[who[m]].pos)
    }
    &&& forall|m1: int, m2: int| 0 <= m1 < who.len() && 0 <= m2 < who.len() && m1 != m2 ==> #[trigger] who[m1] != #[trigger] who[m2]
}

/// Some enemy laser among `s` overlaps a player ship among `s`.
pub open spec fn player_struck(s: Seq<Body>) -> bool {
    exists|i: int, p: int| 0 <= i < s.len() && 0 <= p < s.len() && (#[trigger] s[i]).kind == Kind::EnemyLaser
        && (#[trigger] s[p]).kind == Kind::Player && laser_hits_player(s[i], s[p])
}

/// The enemy laser at `l` is the first to overlap the player at `p`.
pub open spec fn first_strike(s: Seq<Body>, l: int, p: int) -> bool {
    &&& 0 <= l < s.len()
    &&& 0 <= p < s.len()
    &&& s[l].kind == Kind::EnemyLaser
    &&& s[p].kind == Kind::Player
    &&& laser_hits_player(s[l], s[p])
    &&& forall|x: int| 0 <= x < l && (#[trigger] s[x]).kind == Kind::EnemyLaser ==> !laser_hits_player(s[x], s[p])
}

/// Where the explosion markers among `s` stand, in their order.
pub open spec fn marker_points(s: Seq<Body>) -> Seq<Point>
    decreases s.len(),
{
    if s.len() == 0 {
        Seq::empty()
    } else if s.last().kind == Kind::ExplosionToSpawn {
        marker_points(s.drop_last()).push(s.last().pos)
    } else {
        marker_points(s.drop_last())
    }
}

/// An explosion at `pos` with its animation at the first frame.
pub open spec fn explosion_body(id: u64, pos: Point) -> Body {
    Body {
        id,
        kind: Kind::Explosion,
        pos,
        z: SHIP_Z,
        velocity: Velocity { x: 0, y: 0 },
        movable: None,
        formation: None,
        timer: Some(ExplosionTimer { elapsed_ms: 0, frame: 0 }),
    }
}

/// Every self-despawning body among `s` lies within the margin round the
/// window.
pub open spec fn auto_inside(win: WinSize, s: Seq<Body>) -> bool {
    forall|a: int| 0 <= a < s.len() && (#[trigger] s[a]).movable == Some(Movable { auto_despawn: true })
        ==> inside_margin(win, s[a].pos)
}

/// An explosion with its clock run on by `delta_ms`; other bodies as they are.
pub open spec fn animated(b: Body, delta_ms: int) -> Body {
    if b.kind == Kind::Explosion && b.timer.is_some() {
        Body { timer: Some(spec_tick(b.timer.unwrap(), delta_ms)), ..b }
    } else {
        b
    }
}

/// Whether the body is an explosion whose animation ends within `delta_ms`.
pub open spec fn burns_out(b: Body, delta_ms: int) -> bool {
    b.kind == Kind::Explosion && b.timer.is_some() && spec_tick(b.timer.unwrap(), delta_ms).spec_finished()
}

/// Ships and lasers, the bodies that fly.
pub open spec fn ship_kind(k: Kind) -> bool {
    k == Kind::Player || k == Kind::Enemy || k == Kind::PlayerLaser || k == Kind::EnemyLaser
}

/// Every ship or laser of `t` is a body of `s`, or a player freshly spawned.
pub open spec fn ships_from(t: Seq<Body>, s: Seq<Body>, win: WinSize) -> bool {
    forall|a: int| 0 <= a < t.len() && ship_kind((#[trigger] t[a]).kind)
        ==> s.contains(t[a]) || t[a] == player_body(t[a].id, spec_spawn_point(win))
}

/// No player laser of `s` overlaps an enemy of `s`.
pub open spec fn no_hits(s: Seq<Body>) -> bool {
    forall|a: int, c: int| 0 <= a < s.len() && 0 <= c < s.len()
        && (#[trigger] s[a]).kind == Kind::PlayerLaser && (#[trigger] s[c]).kind == Kind::Enemy
        ==> !laser_hits_enemy(s[a], s[c])
}

proof fn lemma_ships_trans(u: Seq<Body>, t: Seq<Body>, s: Seq<Body>, win: WinSize)
    requires
        ships_from(u, t, win),
        ships_from(t, s, win),
    ensures
        ships_from(u, s, win),
{
    assert forall|a: int| 0 <= a < u.len() && ship_kind((#[trigger] u[a]).kind)
        implies s.contains(u[a]) || u[a] == player_body(u[a].id, spec_spawn_point(win)) by {
        if u[a] != player_body(u[a].id, spec_spawn_point(win)) {
            let j = choose|j: int| 0 <= j < t.len() && t[j] == u[a];
            assert(ship_kind(t[j].kind));
        }
    }
}

proof fn lemma_no_hits_kept(t: Seq<Body>, s: Seq<Body>, win: WinSize)
    requires
        ships_from(t, s, win),
        no_hits(s),
    ensures
        no_hits(t),
{
    assert forall|a: int, c: int| 0 <= a < t.len() && 0 <= c < t.len()
        && (#[trigger] t[a]).kind == Kind::PlayerLaser && (#[trigger] t[c]).kind == Kind::Enemy
        implies !laser_hits_enemy(t[a], t[c]) by {
        assert(ship_kind(t[a].kind) && ship_kind(t[c].kind));
        let x = choose|x: int| 0 <= x < s.len() && s[x] == t[a];
        let y = choose|y: int| 0 <= y < s.len() && s[y] == t[c];
        assert(s[x].kind == Kind::PlayerLaser && s[y].kind == Kind::Enemy);
    }
}

/// What the host hands the first half of a tick.
#[derive(Clone, Copy, Debug)]
pub struct TickInput {
    pub left: bool,
    pub right: bool,
    /// The fire key went down since the last tick.
    pub fire_pressed: bool,
    /// This tick is a spawn tick (see `is_spawn_tick`).
    pub spawn_due: bool,
    /// Values for a fresh formation template, if the maker needs one.
    pub draws: FormationDraws,
    pub angle: i64,
    /// The enemy fire gate opened on this tick.
    pub gate_open: bool,
}

/// Enemies spawn once a second: on every sixtieth tick.
pub fn is_spawn_tick(tick: u64) -> (r: bool)
    ensures
        r == (tick % crate::units::TICKS_PER_SECOND as u64 == 0),
{
    tick % crate::units::TICKS_PER_SECOND as u64 == 0
}

/// The world: every body, the resources the systems share, and the window.
pub struct World {
    pub bodies: Vec<Body>,
    pub next_id: u64,
    pub enemy_count: u32,
    pub player: PlayerState,
    pub maker: FormationMaker,
    pub win: WinSize,
}

impl World {
    /// The enemy count matches the enemies alive; there is exactly one
    /// player while it lives and none while it is dead.
    pub open spec fn wf(&self) -> bool {
        &&& self.win.wf()
        &&& forall|i: int| 0 <= i < self.bodies.len() ==> (#[trigger] self.bodies@[i]).wf()
        &&& self.enemy_count == count_kind(self.bodies@, Kind::Enemy)
        &&& count_kind(self.bodies@, Kind::Player) == if self.player.alive { 1nat } else { 0nat }
        &&& self.maker.current_template.is_some() ==> {
            &&& self.maker.current_template.unwrap().wf()
            &&& coord_ok(self.maker.current_template.unwrap().start)
            &&& self.maker.current_template.unwrap().start.x == entry_x(self.win)
                || self.maker.current_template.unwrap().start.x == -entry_x(self.win)
        }
    }

    /// A world with the player at its spawn point and nothing else.
    pub fn new(win: WinSize) -> (r: World)
        requires
            win.wf(),
        ensures
            r.wf(),
            r.win == win,
            r.bodies@ == seq![player_body(0, spec_spawn_point(win))],
            r.enemy_count == 0,
            r.player.alive,
            r.maker.current_template.is_none(),
    {
        let mut w = World {
            bodies: Vec::new(),
            next_id: 0,
            enemy_count: 0,
            player: PlayerState::new(),
            maker: FormationMaker::new(),
            win,
        };
        w.spawn_player();
        assert(w.bodies@ =~= seq![player_body(0, spec_spawn_point(win))]);
        w
    }

    /// Adds `b` under the next identifier.
    fn spawn(&mut self, b: Body)
        ensures
            final(self).bodies@ == old(self).bodies@.push(Body { id: old(self).next_id, ..b }),
            final(self).enemy_count == old(self).enemy_count,
            final(self).player == old(self).player,
            final(self).maker == old(self).maker,
            final(self).win == old(self).win,
    {
        let id = self.next_id;
        self.next_id = self.next_id.wrapping_add(1);
        self.bodies.push(Body { id, ..b });
    }

    fn spawn_player(&mut self)
        requires
            old(self).wf(),
            !old(self).player.alive,
        ensures
            final(self).wf(),
            final(self).bodies@ == old(self).bodies@.push(player_body(old(self).next_id, spec_spawn_point(old(self).win))),
            final(self).player.alive,
            final(self).player.last_shot_ms == crate::player::NEVER_SHOT_MS,
            final(self).enemy_count == old(self).enemy_count,
            final(self).maker == old(self).maker,
            final(self).win == old(self).win,
    {
        let pos = spawn_point(&self.win);
        let b = Body {
            id: 0,
            kind: Kind::Player,
            pos,
            z: SHIP_Z,
            velocity: Velocity { x: 1, y: 0 },
            movable: Some(Movable { auto_despawn: false }),
            formation: None,
            timer: None,
        };
        let ghost s0 = self.bodies@;
        self.spawn(b);
        self.player.spawned();
        proof {
            lemma_count_push(s0, self.bodies@.last(), Kind::Enemy);
            lemma_count_push(s0, self.bodies@.last(), Kind::Player);
            assert forall|i: int| 0 <= i < self.bodies.len() implies (#[trigger] self.bodies@[i]).wf() by {
                if i < s0.len() {
                    assert(self.bodies@[i] == s0[i]);
                }
            }
        }
    }

    /// Sets the player's velocity from the arrow keys; no other body changes.
    pub fn player_keyboard(&mut self, left: bool, right: bool)
        requires
            old(self).wf(),
        ensures
            final(self).wf(),
            final(self).bodies.len() == old(self).bodies.len(),
            forall|i: int| 0 <= i < old(self).bodies.len() ==> #[trigger] final(self).bodies@[i] == if old(self).bodies@[i].kind == Kind::Player {
                Body { velocity: Velocity { x: spec_keyboard_x(left, right) as i64, y: 0 }, ..old(self).bodies@[i] }
            } else {
                old(self).bodies@[i]
            },
            forall|k: Kind| #[trigger] count_kind(final(self).bodies@, k) == count_kind(old(self).bodies@, k),
            final(self).enemy_count == old(self).enemy_count,
            final(self).player == old(self).player,
            final(self).maker == old(self).maker,
            final(self).win == old(self).win,
    {
        let v = keyboard_velocity(left, right);
        let n = self.bodies.len();
        let mut i: usize = 0;
        while i < n
            invariant
                n == self.bodies.len() == old(self).bodies.len(),
                i <= n,
                self.win == old(self).win,
                self.enemy_count == old(self).enemy_count,
                self.player == old(self).player,
                self.maker == old(self).maker,
                v.x == spec_keyboard_x(left, right),
                v.y == 0,
                forall|j: int| 0 <= j < n ==> #[trigger] self.bodies@[j] == if j < i && old(self).bodies@[j].kind == Kind::Player {
                    Body { velocity: v, ..old(self).bodies@[j] }
                } else {
                    old(self).bodies@[j]
                },
                forall|k: Kind| #[trigger] count_kind(self.bodies@, k) == count_kind(old(self).bodies@, k),
            decreases n - i,
        {
            if self.bodies[i].kind == Kind::Player {
                let b = Body { velocity: v, ..self.bodies[i] };
                let ghost s0 = self.bodies@;
                self.bodies.set(i, b);
                proof {
                    assert forall|k: Kind| #[trigger] count_kind(self.bodies@, k) == count_kind(old(self).bodies@, k) by {
                        lemma_count_update(s0, i as int, b, k);
                    }
                }
            }
            i = i + 1;
        }
    }

    /// Index of the first body of kind `k`, if there is one.
    fn find_kind(&self, k: Kind) -> (r: Option<usize>)
        ensures
            r.is_some() ==> r.unwrap() < self.bodies.len() && self.bodies@[r.unwrap() as int].kind == k,
            r.is_none() ==> forall|j: int| 0 <= j < self.bodies.len() ==> (#[trigger] self.bodies@[j]).kind != k,
    {
        let mut i: usize = 0;
        while i < self.bodies.len()
            invariant
                i <= self.bodies.len(),
                forall|j: int| 0 <= j < i ==> (#[trigger] self.bodies@[j]).kind != k,
            decreases self.bodies.len() - i,
        {
            if self.bodies[i].kind == k {
                return Some(i);
            }
            i = i + 1;
        }
        None
    }

    /// On a fresh press of the fire key, a living player shoots two lasers,
    /// to its right and to its left.
    pub fn player_fire(&mut self, fire_pressed: bool)
        requires
            old(self).wf(),
        ensures
            final(self).wf(),
            final(self).enemy_count == old(self).enemy_count,
            final(self).player == old(self).player,
            final(self).maker == old(self).maker,
            final(self).win == old(self).win,
            forall|k: Kind| #[trigger] count_kind(final(self).bodies@, k) == count_kind(old(self).bodies@, k)
                + if k == Kind::PlayerLaser && fire_pressed && old(self).player.alive { 2nat } else { 0nat },
            !(fire_pressed && old(self).player.alive) ==> final(self).bodies@ == old(self).bodies@,
            fire_pressed && old(self).player.alive ==> exists|p: int| {
                &&& 0 <= p < old(self).bodies.len()
                &&& #[trigger] old(self).bodies@[p].kind == Kind::Player
                &&& final(self).bodies.len() == old(self).bodies.len() + 2
                &&& final(self).bodies@.subrange(0, old(self).bodies.len() as int) == old(self).bodies@
                &&& final(self).bodies@[old(self).bodies.len() as int] == player_laser_body(
                    final(self).bodies@[old(self).bodies.len() as int].id,
                    spec_fire_points(old(self).bodies@[p].pos).0,
                )
                &&& final(self).bodies@[old(self).bodies.len() + 1] == player_laser_body(
                    final(self).bodies@[old(self).bodies.len() + 1].id,
                    spec_fire_points(old(self).bodies@[p].pos).1,
                )
                &&& final(self).bodies@[old(self).bodies.len() as int].pos == (Point {
                    x: (old(self).bodies@[p].pos.x + crate::units::FIRE_X_OFFSET) as i64,
                    y: (old(self).bodies@[p].pos.y + crate::units::FIRE_Y_OFFSET) as i64,
                })
                &&& final(self).bodies@[old(self).bodies.len() + 1].pos == (Point {
                    x: (old(self).bodies@[p].pos.x - crate::units::FIRE_X_OFFSET) as i64,
                    y: (old(self).bodies@[p].pos.y + crate::units::FIRE_Y_OFFSET) as i64,
                })
            },
    {
        if !fire_pressed {
            return;
        }
        match self.find_kind(Kind::Player) {
            None => {
                proof {
                    if self.player.alive {
                        lemma_count_zero(self.bodies@, Kind::Player);
                    }
                }
            },
            Some(p) => {
                proof {
                    lemma_count_positive(self.bodies@, p as int);
                    assert(self.bodies@[p as int].wf());
                    crate::player::lemma_fire_points_exact(self.bodies@[p as int].pos);
                }
                let pos = self.bodies[p].pos;
                let (right, left) = fire_points(pos);
                let laser = Body {
                    id: 0,
                    kind: Kind::PlayerLaser,
                    pos: right,
                    z: 0,
                    velocity: Velocity { x: 0, y: 1 },
                    movable: Some(Movable { auto_despawn: true }),
                    formation: None,
                    timer: None,
                };
                let ghost s0 = self.bodies@;
                self.spawn(laser);
                let ghost s1 = self.bodies@;
                self.spawn(Body { pos: left, ..laser });
                proof {
                    assert forall|k: Kind| #[trigger] count_kind(self.bodies@, k) == count_kind(s0, k) + if k == Kind::PlayerLaser { 2nat } else { 0nat } by {
                        lemma_count_push(s0, s1.last(), k);
                        lemma_count_push(s1, self.bodies@.last(), k);
                    }
                    assert(self.bodies@.subrange(0, s0.len() as int) =~= s0);
                    assert forall|i: int| 0 <= i < self.bodies.len() implies (#[trigger] self.bodies@[i]).wf() by {
                        if i < s0.len() {
                            assert(self.bodies@[i] == s0[i]);
                        }
                    }
                    assert(old(self).bodies@[p as int].kind == Kind::Player);
                }
            },
        }
    }

    /// While fewer than the most enemies live, one more enters, on the
    /// formation the maker hands out (`draws` and `angle` build a fresh
    /// template when one is needed).
    pub fn enemy_spawn(&mut self, draws: &FormationDraws, angle: i64)
        requires
            old(self).wf(),
            old(self).maker.reuses() || (draws.wf(old(self).win) && 0 <= angle < TURN_MICRO),
        ensures
            final(self).wf(),
            final(self).player == old(self).player,
            final(self).win == old(self).win,
            forall|k: Kind| #[trigger] count_kind(final(self).bodies@, k) == count_kind(old(self).bodies@, k)
                + if k == Kind::Enemy && old(self).enemy_count < ENEMY_MAX { 1nat } else { 0nat },
            old(self).enemy_count < ENEMY_MAX ==> {
                &&& final(self).maker == spec_make(old(self).maker, old(self).win, *draws, angle).0
                &&& final(self).enemy_count == old(self).enemy_count + 1
                &&& final(self).bodies@ == old(self).bodies@.push(
                    enemy_body(old(self).next_id, spec_make(old(self).maker, old(self).win, *draws, angle).1),
                )
            },
            old(self).enemy_count >= ENEMY_MAX ==> {
                &&& final(self).enemy_count == old(self).enemy_count
                &&& final(self).bodies@ == old(self).bodies@
                &&& final(self).maker == old(self).maker
            },
    {
        if !crate::enemy::spawn_allowed(self.enemy_count) {
            return;
        }
        let win = self.win;
        let f = self.maker.make(&win, draws, angle);
        let b = Body {
            id: 0,
            kind: Kind::Enemy,
            pos: f.start,
            z: SHIP_Z,
            velocity: Velocity { x: 0, y: 0 },
            movable: None,
            formation: Some(f),
            timer: None,
        };
        let ghost s0 = self.bodies@;
        self.spawn(b);
        self.enemy_count = self.enemy_count + 1;
        proof {
            assert forall|k: Kind| #[trigger] count_kind(self.bodies@, k) == count_kind(s0, k) + if k == Kind::Enemy { 1nat } else { 0nat } by {
                lemma_count_push(s0, self.bodies@.last(), k);
            }
            assert forall|i: int| 0 <= i < self.bodies.len() implies (#[trigger] self.bodies@[i]).wf() by {
                if i < s0.len() {
                    assert(self.bodies@[i] == s0[i]);
                }
            }
        }
    }

    /// When the fire gate is open, every enemy drops one laser, in the order
    /// of the enemies; nothing else changes.
    pub fn enemy_fire(&mut self, gate_open: bool)
        requires
            old(self).wf(),
        ensures
            final(self).wf(),
            final(self).enemy_count == old(self).enemy_count,
            final(self).player == old(self).player,
            final(self).maker == old(self).maker,
            final(self).win == old(self).win,
            forall|k: Kind| k != Kind::EnemyLaser ==> #[trigger] count_kind(final(self).bodies@, k) == count_kind(old(self).bodies@, k),
            count_kind(final(self).bodies@, Kind::EnemyLaser) == count_kind(old(self).bodies@, Kind::EnemyLaser)
                + if gate_open { count_kind(old(self).bodies@, Kind::Enemy) } else { 0nat },
            !gate_open ==> final(self).bodies@ == old(self).bodies@,
            gate_open ==> {
                let shots = shot_points(old(self).bodies@);
                &&& final(self).bodies.len() == old(self).bodies.len() + shots.len()
                &&& final(self).bodies@.subrange(0, old(self).bodies.len() as int) == old(self).bodies@
                &&& forall|m: int| 0 <= m < shots.len() ==> {
                    let b = #[trigger] final(self).bodies@[old(self).bodies.len() + m];
                    b == enemy_laser_body(b.id, shots[m])
                }
            },
    {
        if !gate_open {
            return;
        }
        let n = self.bodies.len();
        let ghost s0 = self.bodies@;
        let mut i: usize = 0;
        while i < n
            invariant
                n == s0.len(),
                i <= n,
                old(self).wf(),
                s0 == old(self).bodies@,
                self.win == old(self).win,
                self.enemy_count == old(self).enemy_count,
                self.player == old(self).player,
                self.maker == old(self).maker,
                self.bodies.len() == n + shot_points(s0.subrange(0, i as int)).len(),
                self.bodies@.subrange(0, n as int) == s0,
                forall|m: int| 0 <= m < shot_points(s0.subrange(0, i as int)).len() ==> {
                    let b = #[trigger] self.bodies@[n + m];
                    b == enemy_laser_body(b.id, shot_points(s0.subrange(0, i as int))[m])
                },
                forall|j: int| 0 <= j < self.bodies.len() ==> (#[trigger] self.bodies@[j]).wf(),
                forall|k: Kind| k != Kind::EnemyLaser ==> #[trigger] count_kind(self.bodies@, k) == count_kind(s0, k),
                count_kind(self.bodies@, Kind::EnemyLaser) == count_kind(s0, Kind::EnemyLaser) + shot_points(s0.subrange(0, i as int)).len(),
            decreases n - i,
        {
            let ghost pre = shot_points(s0.subrange(0, i as int));
            assert(s0.subrange(0, i + 1).drop_last() =~= s0.subrange(0, i as int));
            assert(self.bodies@[i as int] == s0[i as int]);
            if self.bodies[i].kind == Kind::Enemy {
                let p = fire_point(self.bodies[i].pos);
                let b = Body {
                    id: 0,
                    kind: Kind::EnemyLaser,
                    pos: p,
                    z: 0,
                    velocity: Velocity { x: 0, y: -1 },
                    movable: Some(Movable { auto_despawn: true }),
                    formation: None,
                    timer: None,
                };
                let ghost s1 = self.bodies@;
                self.spawn(b);
                proof {
                    assert(coord_ok(p));
                    assert forall|k: Kind| k != Kind::EnemyLaser implies #[trigger] count_kind(self.bodies@, k) == count_kind(s0, k) by {
                        lemma_count_push(s1, self.bodies@.last(), k);
                    }
                    lemma_count_push(s1, self.bodies@.last(), Kind::EnemyLaser);
                    assert(self.bodies@.subrange(0, n as int) =~= s1.subrange(0, n as int));
                    assert forall|j: int| 0 <= j < self.bodies.len() implies (#[trigger] self.bodies@[j]).wf() by {
                        if j < s1.len() {
                            assert(self.bodies@[j] == s1[j]);
                        }
                    }
                    let post = shot_points(s0.subrange(0, i + 1));
                    assert(post == pre.push(spec_fire_point(s0[i as int].pos)));
                    assert forall|m: int| 0 <= m < post.len() implies {
                        let b = #[trigger] self.bodies@[n + m];
                        b == enemy_laser_body(b.id, post[m])
                    } by {
                        if m < pre.len() {
                            assert(self.bodies@[n + m] == s1[n + m]);
                        }
                    }
                }
            }
            i = i + 1;
        }
        assert(s0.subrange(0, n as int) =~= s0);
        proof {
            lemma_count_shots_fit(s0);
        }
    }

    /// The angle each enemy aims at on this tick, by position (zero for the
    /// other bodies): its target is the point of its orbit at that angle.
    pub fn aim_angles(&self) -> (r: Vec<i64>)
        requires
            self.wf(),
        ensures
            r.len() == self.bodies.len(),
            forall|i: int| 0 <= i < r.len() ==> #[trigger] r@[i] == if self.bodies@[i].kind == Kind::Enemy {
                spec_next_angle(self.bodies@[i].formation.unwrap()) as i64
            } else {
                0
            },
    {
        let mut r: Vec<i64> = Vec::new();
        let mut i: usize = 0;
        while i < self.bodies.len()
            invariant
                self.wf(),
                i <= self.bodies.len(),
                r.len() == i,
                forall|j: int| 0 <= j < i ==> #[trigger] r@[j] == if self.bodies@[j].kind == Kind::Enemy {
                    spec_next_angle(self.bodies@[j].formation.unwrap()) as i64
                } else {
                    0
                },
            decreases self.bodies.len() - i,
        {
            assert(self.bodies@[i as int].wf());
            let a: i64 = match self.bodies[i].formation {
                Some(f) if self.bodies[i].kind == Kind::Enemy => next_angle(&f),
                _ => 0,
            };
            r.push(a);
            i = i + 1;
        }
        r
    }

    /// Every enemy flies one tick towards its target, given by position in
    /// `targets` (entries for other bodies are not read).
    pub fn enemy_movement(&mut self, targets: &Vec<Point>)
        requires
            old(self).wf(),
            targets.len() == old(self).bodies.len(),
            forall|i: int| 0 <= i < targets.len() ==> coord_ok(#[trigger] targets@[i]),
        ensures
            final(self).wf(),
            final(self).bodies.len() == old(self).bodies.len(),
            forall|i: int| 0 <= i < old(self).bodies.len() ==> #[trigger] final(self).bodies@[i] == flown(old(self).bodies@[i], targets@[i]),
            final(self).enemy_count == old(self).enemy_count,
            final(self).player == old(self).player,
            final(self).maker == old(self).maker,
            final(self).win == old(self).win,
    {
        let n = self.bodies.len();
        let mut i: usize = 0;
        while i < n
            invariant
                n == self.bodies.len() == old(self).bodies.len() == targets.len(),
                i <= n,
                old(self).wf(),
                forall|j: int| 0 <= j < targets.len() ==> coord_ok(#[trigger] targets@[j]),
                self.win == old(self).win,
                self.enemy_count == old(self).enemy_count,
                self.player == old(self).player,
                self.maker == old(self).maker,
                forall|j: int| 0 <= j < n ==> #[trigger] self.bodies@[j] == if j < i {
                    flown(old(self).bodies@[j], targets@[j])
                } else {
                    old(self).bodies@[j]
                },
                forall|j: int| 0 <= j < n ==> (#[trigger] self.bodies@[j]).wf(),
                forall|k: Kind| #[trigger] count_kind(self.bodies@, k) == count_kind(old(self).bodies@, k),
            decreases n - i,
        {
            let b = self.bodies[i];
            assert(b.wf());
            if b.kind == Kind::Enemy {
                match b.formation {
                    Some(f) => {
                        let (p, nf) = advance(b.pos, &f, targets[i]);
                        let nb = Body { pos: p, formation: Some(nf), ..b };
                        let ghost s0 = self.bodies@;
                        self.bodies.set(i, nb);
                        proof {
                            assert forall|k: Kind| #[trigger] count_kind(self.bodies@, k) == count_kind(old(self).bodies@, k) by {
                                lemma_count_update(s0, i as int, nb, k);
                            }
                        }
                    },
                    None => {},
                }
            }
            i = i + 1;
        }
    }

    /// Moves every movable body by one tick and removes the self-despawning
    /// ones that end up beyond the margin round the window.
    pub fn movable_system(&mut self)
        requires
            old(self).wf(),
        ensures
            final(self).wf(),
            forall|a: int| 0 <= a < final(self).bodies.len() ==> moved_from(old(self).bodies@, old(self).win, #[trigger] final(self).bodies@[a]),
            forall|j: int| 0 <= j < old(self).bodies.len() && !leaves(old(self).win, #[trigger] old(self).bodies@[j])
                ==> final(self).bodies@.contains(moved(old(self).bodies@[j])),
            forall|a: int| 0 <= a < final(self).bodies.len() ==> {
                let b = #[trigger] final(self).bodies@[a];
                b.movable == Some(Movable { auto_despawn: true }) ==> inside_margin(final(self).win, b.pos)
            },
            final(self).enemy_count == old(self).enemy_count,
            final(self).player == old(self).player,
            final(self).maker == old(self).maker,
            final(self).win == old(self).win,
    {
        let n = self.bodies.len();
        let win = self.win;
        let mut dead: Vec<bool> = Vec::new();
        let mut i: usize = 0;
        while i < n
            invariant
                n == self.bodies.len() == old(self).bodies.len(),
                i <= n,
                dead.len() == i,
                win == old(self).win,
                old(self).wf(),
                self.win == old(self).win,
                self.enemy_count == old(self).enemy_count,
                self.player == old(self).player,
                self.maker == old(self).maker,
                forall|j: int| 0 <= j < n ==> #[trigger] self.bodies@[j] == if j < i { moved(old(self).bodies@[j]) } else { old(self).bodies@[j] },
                forall|j: int| 0 <= j < i ==> #[trigger] dead@[j] == leaves(win, old(self).bodies@[j]),
                forall|j: int| 0 <= j < n ==> (#[trigger] self.bodies@[j]).wf(),
                forall|k: Kind| #[trigger] count_kind(self.bodies@, k) == count_kind(old(self).bodies@, k),
            decreases n - i,
        {
            let b = self.bodies[i];
            assert(b.wf());
            match b.movable {
                Some(m) => {
                    let (np, out) = move_body(&win, &b.velocity, &m, b.pos);
                    let nb = Body { pos: np, ..b };
                    let ghost s0 = self.bodies@;
                    self.bodies.set(i, nb);
                    dead.push(out);
                    proof {
                        assert forall|k: Kind| #[trigger] count_kind(self.bodies@, k) == count_kind(old(self).bodies@, k) by {
                            lemma_count_update(s0, i as int, nb, k);
                        }
                    }
                },
                None => {
                    dead.push(false);
                },
            }
            i = i + 1;
        }
        let ghost mid = self.bodies@;
        let kept = retain_unmarked(&self.bodies, &dead);
        proof {
            lemma_unmarked_kind(mid, dead@, Kind::Enemy);
            lemma_unmarked_kind(mid, dead@, Kind::Player);
        }
        self.bodies = kept;
        proof {
            assert forall|a: int| 0 <= a < self.bodies.len() implies moved_from(old(self).bodies@, win, #[trigger] self.bodies@[a])
                && (#[trigger] self.bodies@[a]).wf()
                && (self.bodies@[a].movable == Some(Movable { auto_despawn: true }) ==> inside_margin(win, self.bodies@[a].pos)) by {
                assert(unmarked_in(mid, dead@, n as int, self.bodies@[a]));
                let j = choose|j: int| 0 <= j < n && j < mid.len() && !dead@[j] && #[trigger] mid[j] == self.bodies@[a];
                assert(mid[j] == moved(old(self).bodies@[j]));
                assert(mid[j].wf());
            }
            assert forall|j: int| 0 <= j < n && !leaves(win, #[trigger] old(self).bodies@[j])
                implies self.bodies@.contains(moved(old(self).bodies@[j])) by {
                assert(mid[j] == moved(old(self).bodies@[j]));
                assert(!dead@[j]);
            }
        }
    }

    /// Adds one body like `proto` at each point of `spots`, in order.
    fn spawn_each(&mut self, proto: Body, spots: &Vec<Point>)
        requires
            proto.wf(),
            proto.kind != Kind::Enemy,
            proto.kind != Kind::Player,
            forall|m: int| 0 <= m < spots.len() ==> coord_ok(#[trigger] spots@[m]),
            forall|j: int| 0 <= j < old(self).bodies.len() ==> (#[trigger] old(self).bodies@[j]).wf(),
        ensures
            final(self).bodies.len() == old(self).bodies.len() + spots.len(),
            final(self).bodies@.subrange(0, old(self).bodies.len() as int) == old(self).bodies@,
            forall|m: int| 0 <= m < spots.len() ==> {
                let b = #[trigger] final(self).bodies@[old(self).bodies.len() + m];
                b == Body { id: b.id, pos: spots@[m], ..proto }
            },
            forall|j: int| 0 <= j < final(self).bodies.len() ==> (#[trigger] final(self).bodies@[j]).wf(),
            forall|k: Kind| #[trigger] count_kind(final(self).bodies@, k) == count_kind(old(self).bodies@, k) + if k == proto.kind {
                spots.len() as nat
            } else {
                0nat
            },
            final(self).enemy_count == old(self).enemy_count,
            final(self).player == old(self).player,
            final(self).maker == old(self).maker,
            final(self).win == old(self).win,
    {
        let n = self.bodies.len();
        let mut m: usize = 0;
        while m < spots.len()
            invariant
                m <= spots.len(),
                n == old(self).bodies.len(),
                proto.wf(),
                proto.kind != Kind::Enemy,
                proto.kind != Kind::Player,
                forall|q: int| 0 <= q < spots.len() ==> coord_ok(#[trigger] spots@[q]),
                self.bodies.len() == n + m,
                self.bodies@.subrange(0, n as int) == old(self).bodies@,
                forall|q: int| 0 <= q < m ==> {
                    let b = #[trigger] self.bodies@[n + q];
                    b == Body { id: b.id, pos: spots@[q], ..proto }
                },
                forall|j: int| 0 <= j < self.bodies.len() ==> (#[trigger] self.bodies@[j]).wf(),
                forall|k: Kind| #[trigger] count_kind(self.bodies@, k) == count_kind(old(self).bodies@, k) + if k == proto.kind {
                    m as nat
                } else {
                    0nat
                },
                self.enemy_count == old(self).enemy_count,
                self.player == old(self).player,
                self.maker == old(self).maker,
                self.win == old(self).win,
            decreases spots.len() - m,
        {
            let ghost s1 = self.bodies@;
            self.spawn(Body { pos: spots[m], ..proto });
            proof {
                assert forall|k: Kind| #[trigger] count_kind(self.bodies@, k) == count_kind(old(self).bodies@, k) + if k == proto.kind {
                    (m + 1) as nat
                } else {
                    0nat
                } by {
                    lemma_count_push(s1, self.bodies@.last(), k);
                }
                assert(self.bodies@.subrange(0, n as int) =~= s1.subrange(0, n as int));
                assert forall|j: int| 0 <= j < self.bodies.len() implies (#[trigger] self.bodies@[j]).wf() by {
                    if j < s1.len() {
                        assert(self.bodies@[j] == s1[j]);
                    }
                }
                assert forall|q: int| 0 <= q < m + 1 implies {
                    let b = #[trigger] self.bodies@[n + q];
                    b == Body { id: b.id, pos: spots@[q], ..proto }
                } by {
                    if q < m {
                        assert(self.bodies@[n + q] == s1[n + q]);
                    }
                }
            }
            m = m + 1;
        }
    }

    /// Player lasers against enemies. Each hit removes the laser and the
    /// enemy, counts the enemy off and leaves an explosion marker where the
    /// enemy was; no body is destroyed twice. Afterwards no player laser
    /// overlaps an enemy.
    pub fn player_laser_hit_enemy(&mut self)
        requires
            old(self).wf(),
        ensures
            final(self).wf(),
            final(self).enemy_count <= old(self).enemy_count,
            ({
                let kills = (old(self).enemy_count - final(self).enemy_count) as nat;
                let kept = (final(self).bodies.len() - kills) as int;
                &&& kills <= final(self).bodies.len()
                &&& forall|a: int| 0 <= a < kept ==> #[trigger] old(self).bodies@.contains(final(self).bodies@[a])
                &&& forall|a: int| kept <= a < final(self).bodies.len() ==> {
                    let b = #[trigger] final(self).bodies@[a];
                    &&& b == marker_body(b.id, b.pos)
                    &&& kind_at(old(self).bodies@, Kind::Enemy, b.pos)
                }
                &&& count_kind(final(self).bodies@, Kind::PlayerLaser) + kills == count_kind(old(self).bodies@, Kind::PlayerLaser)
                &&& count_kind(final(self).bodies@, Kind::ExplosionToSpawn) == count_kind(old(self).bodies@, Kind::ExplosionToSpawn) + kills
            }),
            forall|a: int, c: int| 0 <= a < final(self).bodies.len() && 0 <= c < final(self).bodies.len()
                && (#[trigger] final(self).bodies@[a]).kind == Kind::PlayerLaser && (#[trigger] final(self).bodies@[c]).kind == Kind::Enemy
                ==> !laser_hits_enemy(final(self).bodies@[a], final(self).bodies@[c]),
            forall|j: int| 0 <= j < old(self).bodies.len() && !hit_partner(old(self).bodies@, j)
                ==> final(self).bodies@.contains(#[trigger] old(self).bodies@[j]),
            (forall|j: int| 0 <= j < old(self).bodies.len() ==> !#[trigger] hit_partner(old(self).bodies@, j)) ==> {
                &&& final(self).bodies@ == old(self).bodies@
                &&& final(self).enemy_count == old(self).enemy_count
            },
            exists|who: Seq<int>| #[trigger] markers_for(old(self).bodies@, final(self).bodies@,
                final(self).bodies.len() - (old(self).enemy_count - final(self).enemy_count), who),
            final(self).player == old(self).player,
            final(self).maker == old(self).maker,
            final(self).win == old(self).win,
    {
        let n = self.bodies.len();
        let ghost s = self.bodies@;
        let mut dead: Vec<bool> = Vec::new();
        let mut z: usize = 0;
        while z < n
            invariant
                z <= n,
                dead.len() == z,
                forall|x: int| 0 <= x < z ==> !(#[trigger] dead@[x]),
            decreases n - z,
        {
            dead.push(false);
            z = z + 1;
        }
        proof {
            assert forall|k: Kind| #[trigger] count_marked(s, dead@, k) == 0 by {
                lemma_no_marks(s, dead@, k);
            }
        }
        let mut kills: u32 = 0;
        let mut spots: Vec<Point> = Vec::new();
        let ghost mut who: Seq<int> = Seq::empty();
        let mut i: usize = 0;
        while i < n
            invariant
                n == self.bodies.len(),
                s == self.bodies@,
                self.wf(),
                s == old(self).bodies@,
                self.enemy_count == old(self).enemy_count,
                self.player == old(self).player,
                self.maker == old(self).maker,
                self.win == old(self).win,
                i <= n,
                dead.len() == n,
                forall|k: Kind| #[trigger] count_marked(s, dead@, k) == if k == Kind::Enemy || k == Kind::PlayerLaser {
                    kills as nat
                } else {
                    0nat
                },
                spots.len() == kills,
                forall|m: int| 0 <= m < spots.len() ==> kind_at(s, Kind::Enemy, #[trigger] spots@[m]),
                forall|m: int| 0 <= m < spots.len() ==> coord_ok(#[trigger] spots@[m]),
                forall|x: int, y: int| 0 <= x < i && 0 <= y < n && (#[trigger] s[x]).kind == Kind::PlayerLaser
                    && !dead@[x] && (#[trigger] s[y]).kind == Kind::Enemy && !dead@[y] ==> !laser_hits_enemy(s[x], s[y]),
                forall|x: int| 0 <= x < n && #[trigger] dead@[x] ==> hit_partner(s, x),
                who.len() == kills,
                forall|m: int| 0 <= m < who.len() ==> {
                    &&& 0 <= #[trigger] who[m] < n
                    &&& s[who[m]].kind == Kind::Enemy
                    &&& dead@[who[m]]
                    &&& spots@[m] == s[who[m]].pos
                },
                forall|m1: int, m2: int| 0 <= m1 < who.len() && 0 <= m2 < who.len() && m1 != m2 ==> #[trigger] who[m1] != #[trigger] who[m2],
            decreases n - i,
        {
            if self.bodies[i].kind == Kind::PlayerLaser {
                let lpos = self.bodies[i].pos;
                assert(s[i as int].wf());
                let ghost d0 = dead@;
                let mut j: usize = 0;
                while j < n
                    invariant
                        n == self.bodies.len(),
                        s == self.bodies@,
                        self.wf(),
                        i < n,
                        j <= n,
                        lpos == s[i as int].pos,
                        s[i as int].kind == Kind::PlayerLaser,
                        coord_ok(lpos),
                        dead.len() == n,
                        d0.len() == n,
                        forall|k: Kind| #[trigger] count_marked(s, dead@, k) == if k == Kind::Enemy || k == Kind::PlayerLaser {
                            kills as nat
                        } else {
                            0nat
                        },
                        spots.len() == kills,
                        forall|m: int| 0 <= m < spots.len() ==> kind_at(s, Kind::Enemy, #[trigger] spots@[m]),
                        forall|m: int| 0 <= m < spots.len() ==> coord_ok(#[trigger] spots@[m]),
                        forall|x: int| 0 <= x < n && (d0[x] || x != i && s[x].kind != Kind::Enemy) ==> #[trigger] dead@[x] == d0[x],
                        forall|x: int| 0 <= x < n && d0[x] ==> #[trigger] dead@[x],
                        forall|y: int| 0 <= y < j && (#[trigger] s[y]).kind == Kind::Enemy && !dead@[i as int] && !dead@[y]
                            ==> !laser_hits_enemy(s[i as int], s[y]),
                        forall|x: int| 0 <= x < n && #[trigger] dead@[x] ==> hit_partner(s, x),
                        who.len() == kills,
                        forall|m: int| 0 <= m < who.len() ==> {
                            &&& 0 <= #[trigger] who[m] < n
                            &&& s[who[m]].kind == Kind::Enemy
                            &&& dead@[who[m]]
                            &&& spots@[m] == s[who[m]].pos
                        },
                        forall|m1: int, m2: int| 0 <= m1 < who.len() && 0 <= m2 < who.len() && m1 != m2 ==> #[trigger] who[m1] != #[trigger] who[m2],
                    decreases n - j,
                {
                    if !dead[i] && self.bodies[j].kind == Kind::Enemy && !dead[j] {
                        let epos = self.bodies[j].pos;
                        assert(s[j as int].wf());
                        if collide(lpos, PLAYER_LASER_HIT_W, PLAYER_LASER_HIT_H, epos, ENEMY_HIT_W, ENEMY_HIT_H) {
                            proof {
                                lemma_marked_le(s, dead@, Kind::Enemy);
                                assert forall|k: Kind| #[trigger] count_marked(s, dead@.update(i as int, true), k) == count_marked(s, dead@, k) + if s[i as int].kind == k { 1nat } else { 0nat } by {
                                    lemma_mark(s, dead@, i as int, k);
                                }
                                let d1 = dead@.update(i as int, true);
                                assert forall|k: Kind| #[trigger] count_marked(s, d1.update(j as int, true), k) == count_marked(s, d1, k) + if s[j as int].kind == k { 1nat } else { 0nat } by {
                                    lemma_mark(s, d1, j as int, k);
                                }
                            }
                            let ghost dprev = dead@;
                            let ghost wprev = who;
                            proof {
                                assert(hit_partner(s, i as int)) by {
                                    assert(s[j as int].kind == Kind::Enemy && laser_hits_enemy(s[i as int], s[j as int]));
                                }
                                assert(hit_partner(s, j as int)) by {
                                    assert(s[i as int].kind == Kind::PlayerLaser && laser_hits_enemy(s[i as int], s[j as int]));
                                }
                            }
                            dead.set(i, true);
                            dead.set(j, true);
                            proof {
                                lemma_marked_le(s, dead@, Kind::Enemy);
                                who = who.push(j as int);
                                assert forall|m1: int, m2: int| 0 <= m1 < who.len() && 0 <= m2 < who.len() && m1 != m2
                                    implies #[trigger] who[m1] != #[trigger] who[m2] by {
                                    if m1 < wprev.len() && m2 < wprev.len() {
                                        assert(who[m1] == wprev[m1] && who[m2] == wprev[m2]);
                                    } else if m1 < wprev.len() {
                                        assert(dprev[wprev[m1]]);
                                    } else {
                                        assert(dprev[wprev[m2]]);
                                    }
                                }
                            }
                            kills = kills + 1;
                            spots.push(epos);
                            proof {
                                assert forall|m: int| 0 <= m < who.len() implies {
                                    &&& 0 <= #[trigger] who[m] < n
                                    &&& s[who[m]].kind == Kind::Enemy
                                    &&& dead@[who[m]]
                                    &&& spots@[m] == s[who[m]].pos
                                } by {
                                    if m < wprev.len() {
                                        assert(who[m] == wprev[m]);
                                        assert(spots@[m] == spots@.drop_last()[m]);
                                    }
                                }
                                assert(kind_at(s, Kind::Enemy, spots@[spots.len() - 1]));
                                assert forall|m: int| 0 <= m < spots.len() implies kind_at(s, Kind::Enemy, #[trigger] spots@[m]) by {
                                    if m < spots.len() - 1 {
                                        assert(spots@[m] == spots@.drop_last()[m]);
                                    }
                                }
                            }
                        }
                    }
                    j = j + 1;
                }
            }
            i = i + 1;
        }
        let kept = retain_unmarked(&self.bodies, &dead);
        proof {
            lemma_marked_le(s, dead@, Kind::Enemy);
        }
        self.bodies = kept;
        self.enemy_count = self.enemy_count - kills;
        let ghost kb = self.bodies@;
        proof {
            assert forall|j: int| 0 <= j < self.bodies.len() implies (#[trigger] self.bodies@[j]).wf() by {
                assert(unmarked_in(s, dead@, n as int, self.bodies@[j]));
            }
        }
        let proto = Body {
            id: 0,
            kind: Kind::ExplosionToSpawn,
            pos: Point { x: 0, y: 0 },
            z: SHIP_Z,
            velocity: Velocity { x: 0, y: 0 },
            movable: None,
            formation: None,
            timer: None,
        };
        self.spawn_each(proto, &spots);
        proof {
            assert forall|j: int| 0 <= j < n && !hit_partner(s, j) implies self.bodies@.contains(#[trigger] s[j]) by {
                assert(!dead@[j]);
                assert(kb.contains(s[j]));
                let w = choose|w: int| 0 <= w < kb.len() && kb[w] == s[j];
                assert(self.bodies@[w] == kb[w]);
            }
            if forall|j: int| 0 <= j < n ==> !#[trigger] hit_partner(s, j) {
                assert forall|j: int| 0 <= j < n implies !(#[trigger] dead@[j]) by {}
                assert(kb == s);
                lemma_no_marks(s, dead@, Kind::Enemy);
                assert(self.bodies@ =~= s);
            }
            assert forall|m: int| 0 <= m < who.len() implies hit_partner(s, #[trigger] who[m]) by {
                assert(dead@[who[m]]);
            }
            assert forall|m: int| 0 <= m < who.len() implies
                #[trigger] self.bodies@[kb.len() + m] == marker_body(self.bodies@[kb.len() + m].id, s[who[m]].pos) by {
            }
            assert(markers_for(s, self.bodies@, self.bodies.len() - (old(self).enemy_count - self.enemy_count), who));
            assert forall|a: int| 0 <= a < kb.len() implies #[trigger] old(self).bodies@.contains(self.bodies@[a]) by {
                assert(self.bodies@[a] == kb[a]);
                assert(unmarked_in(s, dead@, n as int, kb[a]));
            }
            assert forall|a: int| kb.len() <= a < self.bodies.len() implies {
                let b = #[trigger] self.bodies@[a];
                &&& b == marker_body(b.id, b.pos)
                &&& kind_at(old(self).bodies@, Kind::Enemy, b.pos)
            } by {
                let m = a - kb.len();
                assert(self.bodies@[kb.len() + m] == self.bodies@[a]);
            }
            assert forall|a: int, c: int| 0 <= a < self.bodies.len() && 0 <= c < self.bodies.len()
                && (#[trigger] self.bodies@[a]).kind == Kind::PlayerLaser && (#[trigger] self.bodies@[c]).kind == Kind::Enemy
                implies !laser_hits_enemy(self.bodies@[a], self.bodies@[c]) by {
                if a >= kb.len() {
                    assert(self.bodies@[kb.len() + (a - kb.len())] == self.bodies@[a]);
                } else if c >= kb.len() {
                    assert(self.bodies@[kb.len() + (c - kb.len())] == self.bodies@[c]);
                } else {
                    assert(self.bodies@[a] == kb[a]);
                    assert(self.bodies@[c] == kb[c]);
                    assert(unmarked_in(s, dead@, n as int, kb[a]));
                    assert(unmarked_in(s, dead@, n as int, kb[c]));
                    let x = choose|x: int| 0 <= x < n && x < s.len() && !dead@[x] && #[trigger] s[x] == kb[a];
                    let y = choose|y: int| 0 <= y < n && y < s.len() && !dead@[y] && #[trigger] s[y] == kb[c];
                    assert(s[x].kind == Kind::PlayerLaser);
                    assert(s[y].kind == Kind::Enemy);
                }
            }
        }
    }

    /// Enemy lasers against the player. On the first hit the player and that
    /// laser are removed, the player is recorded as shot at `now_ms`, and an
    /// explosion marker is left where the player was; the other lasers are
    /// not tested.
    pub fn enemy_laser_hit_player(&mut self, now_ms: i64)
        requires
            old(self).wf(),
        ensures
            final(self).wf(),
            final(self).enemy_count == old(self).enemy_count,
            final(self).maker == old(self).maker,
            final(self).win == old(self).win,
            !player_struck(old(self).bodies@) ==> {
                &&& final(self).bodies@ == old(self).bodies@
                &&& final(self).player == old(self).player
            },
            player_struck(old(self).bodies@) ==> {
                &&& !final(self).player.alive
                &&& final(self).player.last_shot_ms == now_ms
                &&& count_kind(final(self).bodies@, Kind::Player) == 0
                &&& count_kind(final(self).bodies@, Kind::EnemyLaser) + 1 == count_kind(old(self).bodies@, Kind::EnemyLaser)
                &&& count_kind(final(self).bodies@, Kind::ExplosionToSpawn) == count_kind(old(self).bodies@, Kind::ExplosionToSpawn) + 1
                &&& final(self).bodies.len() == old(self).bodies.len() - 1
                &&& forall|a: int| 0 <= a < final(self).bodies.len() - 1 ==> #[trigger] old(self).bodies@.contains(final(self).bodies@[a])
                &&& exists|l: int, p: int| #[trigger] first_strike(old(self).bodies@, l, p) && {
                    &&& final(self).bodies@.last().pos == old(self).bodies@[p].pos
                    &&& forall|j: int| 0 <= j < old(self).bodies.len() && j != l && j != p
                        ==> final(self).bodies@.contains(#[trigger] old(self).bodies@[j])
                }
                &&& ({
                    let b = final(self).bodies@.last();
                    b == marker_body(b.id, b.pos) && kind_at(old(self).bodies@, Kind::Player, b.pos)
                })
            },
    {
        let ghost s = self.bodies@;
        let n = self.bodies.len();
        let p = match self.find_kind(Kind::Player) {
            None => {
                assert(!player_struck(s));
                return;
            },
            Some(p) => p,
        };
        let ppos = self.bodies[p].pos;
        assert(s[p as int].wf());
        let mut i: usize = 0;
        let mut hit: Option<usize> = None;
        while i < n && hit.is_none()
            invariant
                n == self.bodies.len(),
                s == self.bodies@,
                p < n,
                s[p as int].kind == Kind::Player,
                ppos == s[p as int].pos,
                coord_ok(ppos),
                self.wf(),
                i <= n,
                hit.is_some() ==> {
                    &&& hit.unwrap() < n
                    &&& s[hit.unwrap() as int].kind == Kind::EnemyLaser
                    &&& laser_hits_player(s[hit.unwrap() as int], s[p as int])
                },
                hit.is_none() ==> forall|x: int| 0 <= x < i && (#[trigger] s[x]).kind == Kind::EnemyLaser ==> !laser_hits_player(s[x], s[p as int]),
                hit.is_some() ==> forall|x: int| 0 <= x < hit.unwrap() && (#[trigger] s[x]).kind == Kind::EnemyLaser ==> !laser_hits_player(s[x], s[p as int]),
            decreases n - i,
        {
            if self.bodies[i].kind == Kind::EnemyLaser {
                assert(s[i as int].wf());
                if collide(self.bodies[i].pos, ENEMY_LASER_HIT_W, ENEMY_LASER_HIT_H, ppos, PLAYER_HIT_W, PLAYER_HIT_H) {
                    hit = Some(i);
                }
            }
            i = i + 1;
        }
        match hit {
            None => {
                proof {
                    if player_struck(s) {
                        let (x, q) = choose|x: int, q: int| 0 <= x < s.len() && 0 <= q < s.len() && (#[trigger] s[x]).kind == Kind::EnemyLaser
                            && (#[trigger] s[q]).kind == Kind::Player && laser_hits_player(s[x], s[q]);
                        if q != p {
                            lemma_count_two(s, q, p as int, Kind::Player);
                        }
                    }
                }
            },
            Some(l) => {
                let mut dead: Vec<bool> = Vec::new();
                let mut z: usize = 0;
                while z < n
                    invariant
                        z <= n,
                        dead.len() == z,
                        forall|x: int| 0 <= x < z ==> !(#[trigger] dead@[x]),
                    decreases n - z,
                {
                    dead.push(false);
                    z = z + 1;
                }
                proof {
                    assert forall|k: Kind| #[trigger] count_marked(s, dead@, k) == 0 by {
                        lemma_no_marks(s, dead@, k);
                    }
                    let d0 = dead@;
                    assert forall|k: Kind| #[trigger] count_marked(s, d0.update(l as int, true), k) == count_marked(s, d0, k) + if s[l as int].kind == k { 1nat } else { 0nat } by {
                        lemma_mark(s, d0, l as int, k);
                    }
                    let d1 = d0.update(l as int, true);
                    assert forall|k: Kind| #[trigger] count_marked(s, d1.update(p as int, true), k) == count_marked(s, d1, k) + if s[p as int].kind == k { 1nat } else { 0nat } by {
                        lemma_mark(s, d1, p as int, k);
                    }
                    lemma_count_positive(s, p as int);
                    assert(player_struck(s));
                }
                dead.set(l, true);
                dead.set(p, true);
                let kept = retain_unmarked(&self.bodies, &dead);
                self.bodies = kept;
                self.player.shot(now_ms);
                let ghost kb = self.bodies@;
                proof {
                    assert forall|j: int| 0 <= j < self.bodies.len() implies (#[trigger] self.bodies@[j]).wf() by {
                        assert(unmarked_in(s, dead@, n as int, self.bodies@[j]));
                    }
                }
                let marker = Body {
                    id: 0,
                    kind: Kind::ExplosionToSpawn,
                    pos: ppos,
                    z: SHIP_Z,
                    velocity: Velocity { x: 0, y: 0 },
                    movable: None,
                    formation: None,
                    timer: None,
                };
                self.spawn(marker);
                proof {
                    lemma_count_push(kb, self.bodies@.last(), Kind::Enemy);
                    lemma_count_push(kb, self.bodies@.last(), Kind::Player);
                    lemma_count_push(kb, self.bodies@.last(), Kind::EnemyLaser);
                    lemma_count_push(kb, self.bodies@.last(), Kind::ExplosionToSpawn);
                    lemma_count_total(kb);
                    lemma_count_total(s);
                    assert forall|j: int| 0 <= j < self.bodies.len() implies (#[trigger] self.bodies@[j]).wf() by {
                        if j < kb.len() {
                            assert(self.bodies@[j] == kb[j]);
                        }
                    }
                    assert forall|a: int| 0 <= a < self.bodies.len() - 1 implies #[trigger] old(self).bodies@.contains(self.bodies@[a]) by {
                        assert(self.bodies@[a] == kb[a]);
                        assert(unmarked_in(s, dead@, n as int, kb[a]));
                    }
                    assert forall|j: int| 0 <= j < n && j != l && j != p implies self.bodies@.contains(#[trigger] s[j]) by {
                        assert(!dead@[j]);
                        assert(kb.contains(s[j]));
                        let w = choose|w: int| 0 <= w < kb.len() && kb[w] == s[j];
                        assert(self.bodies@[w] == kb[w]);
                    }
                    assert(first_strike(s, l as int, p as int));
                }
            },
        }
    }

    /// Turns every explosion marker into an explosion at its place, with a
    /// fresh animation; no marker is left.
    pub fn explosion_to_spawn(&mut self)
        requires
            old(self).wf(),
        ensures
            final(self).wf(),
            count_kind(final(self).bodies@, Kind::ExplosionToSpawn) == 0,
            count_kind(final(self).bodies@, Kind::Explosion) == count_kind(old(self).bodies@, Kind::Explosion)
                + count_kind(old(self).bodies@, Kind::ExplosionToSpawn),
            forall|k: Kind| k != Kind::Explosion && k != Kind::ExplosionToSpawn
                ==> #[trigger] count_kind(final(self).bodies@, k) == count_kind(old(self).bodies@, k),
            forall|a: int| 0 <= a < final(self).bodies.len() ==> {
                let b = #[trigger] final(self).bodies@[a];
                old(self).bodies@.contains(b) || (b == explosion_body(b.id, b.pos) && kind_at(old(self).bodies@, Kind::ExplosionToSpawn, b.pos))
            },
            forall|j: int| 0 <= j < old(self).bodies.len() && (#[trigger] old(self).bodies@[j]).kind != Kind::ExplosionToSpawn
                ==> final(self).bodies@.contains(old(self).bodies@[j]),
            ({
                let pts = marker_points(old(self).bodies@);
                let from = final(self).bodies.len() - pts.len();
                &&& pts.len() <= final(self).bodies.len()
                &&& forall|m: int| 0 <= m < pts.len() ==> {
                    let b = #[trigger] final(self).bodies@[from + m];
                    b == explosion_body(b.id, pts[m])
                }
            }),
            final(self).enemy_count == old(self).enemy_count,
            final(self).player == old(self).player,
            final(self).maker == old(self).maker,
            final(self).win == old(self).win,
    {
        let ghost s = self.bodies@;
        let n = self.bodies.len();
        let mut dead: Vec<bool> = Vec::new();
        let mut spots: Vec<Point> = Vec::new();
        let mut i: usize = 0;
        while i < n
            invariant
                n == self.bodies.len(),
                s == self.bodies@,
                self.wf(),
                i <= n,
                dead.len() == i,
                forall|x: int| 0 <= x < i ==> #[trigger] dead@[x] == (s[x].kind == Kind::ExplosionToSpawn),
                forall|m: int| 0 <= m < spots.len() ==> kind_at(s, Kind::ExplosionToSpawn, #[trigger] spots@[m]),
                forall|m: int| 0 <= m < spots.len() ==> coord_ok(#[trigger] spots@[m]),
                spots.len() == count_kind(s.subrange(0, i as int), Kind::ExplosionToSpawn),
                spots@ == marker_points(s.subrange(0, i as int)),
            decreases n - i,
        {
            assert(s.subrange(0, i + 1).drop_last() =~= s.subrange(0, i as int));
            let b = self.bodies[i];
            assert(b.wf());
            if b.kind == Kind::ExplosionToSpawn {
                dead.push(true);
                spots.push(b.pos);
                proof {
                    assert(kind_at(s, Kind::ExplosionToSpawn, spots@[spots.len() - 1]));
                    assert forall|m: int| 0 <= m < spots.len() implies kind_at(s, Kind::ExplosionToSpawn, #[trigger] spots@[m]) by {
                        if m < spots.len() - 1 {
                            assert(spots@[m] == spots@.drop_last()[m]);
                        }
                    }
                }
            } else {
                dead.push(false);
            }
            i = i + 1;
        }
        assert(s.subrange(0, n as int) =~= s);
        let kept = retain_unmarked(&self.bodies, &dead);
        proof {
            assert forall|k: Kind| #[trigger] count_marked(s, dead@, k) == if k == Kind::ExplosionToSpawn { count_kind(s, k) } else { 0 } by {
                lemma_marked_exact(s, dead@, Kind::ExplosionToSpawn, k);
            }
        }
        self.bodies = kept;
        let ghost kb = self.bodies@;
        proof {
            assert forall|j: int| 0 <= j < self.bodies.len() implies (#[trigger] self.bodies@[j]).wf() by {
                assert(unmarked_in(s, dead@, n as int, self.bodies@[j]));
            }
        }
        let timer = ExplosionTimer::new();
        let proto = Body {
            id: 0,
            kind: Kind::Explosion,
            pos: Point { x: 0, y: 0 },
            z: SHIP_Z,
            velocity: Velocity { x: 0, y: 0 },
            movable: None,
            formation: None,
            timer: Some(timer),
        };
        self.spawn_each(proto, &spots);
        proof {
            assert forall|j: int| 0 <= j < n && (#[trigger] s[j]).kind != Kind::ExplosionToSpawn implies self.bodies@.contains(s[j]) by {
                assert(!dead@[j]);
                assert(kb.contains(s[j]));
                let w = choose|w: int| 0 <= w < kb.len() && kb[w] == s[j];
                assert(self.bodies@[w] == kb[w]);
            }
            assert forall|m: int| 0 <= m < spots.len() implies {
                let b = #[trigger] self.bodies@[kb.len() + m];
                b == explosion_body(b.id, spots@[m])
            } by {}
            assert forall|a: int| 0 <= a < self.bodies.len() implies {
                let b = #[trigger] self.bodies@[a];
                old(self).bodies@.contains(b) || (b == explosion_body(b.id, b.pos) && kind_at(old(self).bodies@, Kind::ExplosionToSpawn, b.pos))
            } by {
                if a < kb.len() {
                    assert(self.bodies@[a] == kb[a]);
                    assert(unmarked_in(s, dead@, n as int, kb[a]));
                } else {
                    assert(self.bodies@[kb.len() + (a - kb.len())] == self.bodies@[a]);
                }
            }
        }
    }

    /// Runs every explosion's animation clock by `delta_ms` and removes the
    /// explosions that have shown their last frame.
    pub fn explosion_animation(&mut self, delta_ms: i64)
        requires
            old(self).wf(),
            0 <= delta_ms <= crate::explosion::DELTA_LIMIT_MS,
        ensures
            final(self).wf(),
            forall|a: int| 0 <= a < final(self).bodies.len() ==> {
                let b = #[trigger] final(self).bodies@[a];
                b.kind == Kind::Explosion ==> !b.timer.unwrap().spec_finished()
            },
            forall|a: int| 0 <= a < final(self).bodies.len() ==> exists|j: int| 0 <= j < old(self).bodies.len()
                && (#[trigger] old(self).bodies@[j]).pos == final(self).bodies@[a].pos
                && old(self).bodies@[j].movable == (#[trigger] final(self).bodies@[a]).movable,
            forall|a: int| 0 <= a < final(self).bodies.len() ==> exists|j: int| 0 <= j < old(self).bodies.len()
                && !burns_out(old(self).bodies@[j], delta_ms as int)
                && (#[trigger] final(self).bodies@[a]) == animated(#[trigger] old(self).bodies@[j], delta_ms as int),
            forall|j: int| 0 <= j < old(self).bodies.len() && !burns_out(#[trigger] old(self).bodies@[j], delta_ms as int)
                ==> final(self).bodies@.contains(animated(old(self).bodies@[j], delta_ms as int)),
            forall|a: int| 0 <= a < final(self).bodies.len() && (#[trigger] final(self).bodies@[a]).kind != Kind::Explosion
                ==> old(self).bodies@.contains(final(self).bodies@[a]),
            forall|k: Kind| k != Kind::Explosion ==> #[trigger] count_kind(final(self).bodies@, k) == count_kind(old(self).bodies@, k),
            final(self).enemy_count == old(self).enemy_count,
            final(self).player == old(self).player,
            final(self).maker == old(self).maker,
            final(self).win == old(self).win,
    {
        let n = self.bodies.len();
        let mut dead: Vec<bool> = Vec::new();
        let mut i: usize = 0;
        while i < n
            invariant
                n == self.bodies.len() == old(self).bodies.len(),
                i <= n,
                dead.len() == i,
                0 <= delta_ms <= crate::explosion::DELTA_LIMIT_MS,
                self.win == old(self).win,
                self.enemy_count == old(self).enemy_count,
                self.player == old(self).player,
                self.maker == old(self).maker,
                forall|j: int| 0 <= j < n ==> (#[trigger] self.bodies@[j]).wf(),
                forall|j: int| 0 <= j < n ==> (#[trigger] self.bodies@[j]).pos == old(self).bodies@[j].pos
                    && self.bodies@[j].movable == old(self).bodies@[j].movable,
                forall|j: int| 0 <= j < n ==> (#[trigger] self.bodies@[j]).kind == old(self).bodies@[j].kind,
                forall|j: int| 0 <= j < i ==> #[trigger] dead@[j] == (self.bodies@[j].kind == Kind::Explosion
                    && self.bodies@[j].timer.unwrap().spec_finished()),
                forall|j: int| 0 <= j < n ==> #[trigger] self.bodies@[j] == if j < i { animated(old(self).bodies@[j], delta_ms as int) } else { old(self).bodies@[j] },
                forall|j: int| 0 <= j < i ==> #[trigger] dead@[j] == burns_out(old(self).bodies@[j], delta_ms as int),
                forall|k: Kind| #[trigger] count_kind(self.bodies@, k) == count_kind(old(self).bodies@, k),
            decreases n - i,
        {
            let b = self.bodies[i];
            assert(b.wf());
            match b.timer {
                Some(t) if b.kind == Kind::Explosion => {
                    let mut t2 = t;
                    t2.tick(delta_ms);
                    let nb = Body { timer: Some(t2), ..b };
                    let ghost s0 = self.bodies@;
                    self.bodies.set(i, nb);
                    dead.push(t2.finished());
                    proof {
                        assert forall|k: Kind| #[trigger] count_kind(self.bodies@, k) == count_kind(old(self).bodies@, k) by {
                            lemma_count_update(s0, i as int, nb, k);
                        }
                    }
                },
                _ => {
                    dead.push(false);
                },
            }
            i = i + 1;
        }
        let ghost mid = self.bodies@;
        let kept = retain_unmarked(&self.bodies, &dead);
        proof {
            assert forall|k: Kind| k != Kind::Explosion implies #[trigger] count_marked(mid, dead@, k) == 0 by {
                lemma_unmarked_kind(mid, dead@, k);
            }
        }
        self.bodies = kept;
        proof {
            assert forall|a: int| 0 <= a < self.bodies.len() implies (#[trigger] self.bodies@[a]).wf()
                && (self.bodies@[a].kind == Kind::Explosion ==> !self.bodies@[a].timer.unwrap().spec_finished()) by {
                assert(unmarked_in(mid, dead@, n as int, self.bodies@[a]));
            }
            assert forall|a: int| 0 <= a < self.bodies.len() implies exists|j: int| 0 <= j < old(self).bodies.len()
                && (#[trigger] old(self).bodies@[j]).pos == self.bodies@[a].pos
                && old(self).bodies@[j].movable == (#[trigger] self.bodies@[a]).movable by {
                assert(unmarked_in(mid, dead@, n as int, self.bodies@[a]));
                let j = choose|j: int| 0 <= j < n && j < mid.len() && !dead@[j] && #[trigger] mid[j] == self.bodies@[a];
                assert(old(self).bodies@[j].pos == mid[j].pos);
            }
            assert forall|a: int| 0 <= a < self.bodies.len() implies exists|j: int| 0 <= j < old(self).bodies.len()
                && !burns_out(old(self).bodies@[j], delta_ms as int)
                && (#[trigger] self.bodies@[a]) == animated(#[trigger] old(self).bodies@[j], delta_ms as int) by {
                assert(unmarked_in(mid, dead@, n as int, self.bodies@[a]));
                let j = choose|j: int| 0 <= j < n && j < mid.len() && !dead@[j] && #[trigger] mid[j] == self.bodies@[a];
                assert(mid[j] == animated(old(self).bodies@[j], delta_ms as int));
            }
            assert forall|j: int| 0 <= j < n && !burns_out(#[trigger] old(self).bodies@[j], delta_ms as int)
                implies self.bodies@.contains(animated(old(self).bodies@[j], delta_ms as int)) by {
                assert(mid[j] == animated(old(self).bodies@[j], delta_ms as int));
                assert(!dead@[j]);
            }
            assert forall|a: int| 0 <= a < self.bodies.len() && (#[trigger] self.bodies@[a]).kind != Kind::Explosion
                implies old(self).bodies@.contains(self.bodies@[a]) by {
                assert(unmarked_in(mid, dead@, n as int, self.bodies@[a]));
                let j = choose|j: int| 0 <= j < n && j < mid.len() && !dead@[j] && #[trigger] mid[j] == self.bodies@[a];
                assert(old(self).bodies@[j] == mid[j]);
            }
        }
    }

    /// First half of a tick: keyboard, player fire, enemy spawn (on spawn
    /// ticks) and enemy fire, in that order.
    pub fn tick_begin(&mut self, input: &TickInput)
        requires
            old(self).wf(),
            input.spawn_due ==> old(self).maker.reuses() || (input.draws.wf(old(self).win) && 0 <= input.angle < TURN_MICRO),
        ensures
            final(self).wf(),
            final(self).win == old(self).win,
            final(self).player == old(self).player,
            final(self).bodies.len() >= old(self).bodies.len(),
            forall|i: int| 0 <= i < old(self).bodies.len() ==> #[trigger] final(self).bodies@[i] == if old(self).bodies@[i].kind == Kind::Player {
                Body { velocity: Velocity { x: spec_keyboard_x(input.left, input.right) as i64, y: 0 }, ..old(self).bodies@[i] }
            } else {
                old(self).bodies@[i]
            },
            forall|i: int| 0 <= i < final(self).bodies.len() && (#[trigger] final(self).bodies@[i]).kind == Kind::Player
                ==> final(self).bodies@[i].velocity == (Velocity { x: spec_keyboard_x(input.left, input.right) as i64, y: 0 }),
            count_kind(final(self).bodies@, Kind::PlayerLaser) == count_kind(old(self).bodies@, Kind::PlayerLaser)
                + if input.fire_pressed && old(self).player.alive { 2nat } else { 0nat },
            final(self).enemy_count == old(self).enemy_count
                + if input.spawn_due && old(self).enemy_count < ENEMY_MAX { 1int } else { 0int },
            input.spawn_due && old(self).enemy_count < ENEMY_MAX
                ==> final(self).maker == spec_make(old(self).maker, old(self).win, input.draws, input.angle).0,
            !(input.spawn_due && old(self).enemy_count < ENEMY_MAX) ==> final(self).maker == old(self).maker,
            count_kind(final(self).bodies@, Kind::EnemyLaser) == count_kind(old(self).bodies@, Kind::EnemyLaser)
                + if input.gate_open { count_kind(final(self).bodies@, Kind::Enemy) } else { 0nat },
            count_kind(final(self).bodies@, Kind::Player) == count_kind(old(self).bodies@, Kind::Player),
            count_kind(final(self).bodies@, Kind::Explosion) == count_kind(old(self).bodies@, Kind::Explosion),
            count_kind(final(self).bodies@, Kind::ExplosionToSpawn) == count_kind(old(self).bodies@, Kind::ExplosionToSpawn),
    {
        let ghost s0 = self.bodies@;
        self.player_keyboard(input.left, input.right);
        let ghost s1 = self.bodies@;
        self.player_fire(input.fire_pressed);
        let ghost s2 = self.bodies@;
        proof {
            if input.fire_pressed && self.player.alive {
                let p = choose|p: int| 0 <= p < s1.len() && #[trigger] s1[p].kind == Kind::Player
                    && s2.len() == s1.len() + 2 && s2.subrange(0, s1.len() as int) == s1
                    && s2[s1.len() as int] == player_laser_body(s2[s1.len() as int].id, spec_fire_points(s1[p].pos).0)
                    && s2[(s1.len() + 1) as int] == player_laser_body(s2[(s1.len() + 1) as int].id, spec_fire_points(s1[p].pos).1);
                assert forall|i: int| 0 <= i < s1.len() implies s2[i] == s1[i] by {
                    assert(s2.subrange(0, s1.len() as int)[i] == s2[i]);
                }
            }
        }
        if input.spawn_due {
            self.enemy_spawn(&input.draws, input.angle);
        }
        let ghost s3 = self.bodies@;
        self.enemy_fire(input.gate_open);
        let ghost s4 = self.bodies@;
        proof {
            assert(s2.len() <= s3.len() <= s4.len());
            assert forall|i: int| 0 <= i < s3.len() implies s4[i] == s3[i] by {
                if input.gate_open {
                    assert(s4.subrange(0, s3.len() as int)[i] == s4[i]);
                }
            }
            assert forall|i: int| 0 <= i < s2.len() implies s3[i] == s2[i] by {}
            let kx = Velocity { x: spec_keyboard_x(input.left, input.right) as i64, y: 0 };
            assert forall|i: int| 0 <= i < s4.len() && (#[trigger] s4[i]).kind == Kind::Player implies s4[i].velocity == kx by {
                if i < s3.len() {
                    assert(s4[i] == s3[i]);
                    if i < s2.len() {
                        assert(s3[i] == s2[i]);
                        if i < s1.len() {
                            if input.fire_pressed && self.player.alive {
                                assert(s2[i] == s1[i]);
                            }
                        }
                    }
                } else {
                    let m = i - s3.len();
                    assert(s4[s3.len() + m] == s4[i]);
                }
            }
            assert forall|i: int| 0 <= i < s0.len() implies #[trigger] s4[i] == s1[i] by {
                assert(s4[i] == s3[i]);
                assert(s3[i] == s2[i]);
                if input.fire_pressed && self.player.alive {
                    assert(s2.subrange(0, s1.len() as int)[i] == s2[i]);
                }
            }
        }
    }

    /// Second half of a tick: enemy flight towards `targets` (see
    /// `aim_angles`), movement, both collision tests, respawn and the two
    /// explosion steps, in that order. No explosion marker outlives it.
    #[verifier::rlimit(100)]
    pub fn tick_end(&mut self, targets: &Vec<Point>, now_ms: i64, delta_ms: i64)
        requires
            old(self).wf(),
            targets.len() == old(self).bodies.len(),
            forall|i: int| 0 <= i < targets.len() ==> coord_ok(#[trigger] targets@[i]),
            0 <= delta_ms <= crate::explosion::DELTA_LIMIT_MS,
        ensures
            final(self).wf(),
            final(self).win == old(self).win,
            count_kind(final(self).bodies@, Kind::ExplosionToSpawn) == 0,
            auto_inside(final(self).win, final(self).bodies@),
            no_hits(final(self).bodies@),
            old(self).player.spec_respawn_due(now_ms as int) ==> final(self).player.alive,
            forall|a: int| 0 <= a < final(self).bodies.len() && ship_kind((#[trigger] final(self).bodies@[a]).kind) ==> {
                ||| exists|j: int| 0 <= j < old(self).bodies.len()
                        && final(self).bodies@[a] == moved(flown(#[trigger] old(self).bodies@[j], targets@[j]))
                ||| final(self).bodies@[a] == player_body(final(self).bodies@[a].id, spec_spawn_point(old(self).win))
            },
    {
        let win = self.win;
        self.enemy_movement(targets);
        let ghost se = self.bodies@;
        self.movable_system();
        let ghost s1 = self.bodies@;
        assert(auto_inside(win, s1));
        self.player_laser_hit_enemy();
        let ghost s2 = self.bodies@;
        proof {
            let kills = (old(self).enemy_count - self.enemy_count) as nat;
            assert forall|a: int| 0 <= a < s2.len() && (#[trigger] s2[a]).movable == Some(Movable { auto_despawn: true })
                implies inside_margin(win, s2[a].pos) by {
                if a < s2.len() - kills {
                    assert(s1.contains(s2[a]));
                    let j = choose|j: int| 0 <= j < s1.len() && s1[j] == s2[a];
                }
            }
            assert forall|a: int| 0 <= a < s2.len() && ship_kind((#[trigger] s2[a]).kind)
                implies s1.contains(s2[a]) || s2[a] == player_body(s2[a].id, spec_spawn_point(win)) by {
                if a >= s2.len() - kills {
                    assert(s2[a] == marker_body(s2[a].id, s2[a].pos));
                }
            }
        }
        self.enemy_laser_hit_player(now_ms);
        let ghost s3 = self.bodies@;
        proof {
            assert forall|a: int| 0 <= a < s3.len() && (#[trigger] s3[a]).movable == Some(Movable { auto_despawn: true })
                implies inside_margin(win, s3[a].pos) by {
                if s3 != s2 && a < s3.len() - 1 {
                    assert(s2.contains(s3[a]));
                    let j = choose|j: int| 0 <= j < s2.len() && s2[j] == s3[a];
                }
            }
            assert forall|a: int| 0 <= a < s3.len() && ship_kind((#[trigger] s3[a]).kind)
                implies s2.contains(s3[a]) || s3[a] == player_body(s3[a].id, spec_spawn_point(win)) by {
                if s3 != s2 {
                    if a < s3.len() - 1 {
                        assert(s2.contains(s3[a]));
                    }
                } else {
                    assert(s2[a] == s3[a]);
                }
            }
            if old(self).player.spec_respawn_due(now_ms as int) {
                if player_struck(s2) {
                    let (x, q) = choose|x: int, q: int| 0 <= x < s2.len() && 0 <= q < s2.len() && (#[trigger] s2[x]).kind == Kind::EnemyLaser
                        && (#[trigger] s2[q]).kind == Kind::Player && laser_hits_player(s2[x], s2[q]);
                    lemma_count_positive(s2, q);
                }
            }
        }
        self.player_respawn(now_ms);
        let ghost s4 = self.bodies@;
        proof {
            assert forall|a: int| 0 <= a < s4.len() && (#[trigger] s4[a]).movable == Some(Movable { auto_despawn: true })
                implies inside_margin(win, s4[a].pos) by {
                if a < s3.len() {
                    assert(s4[a] == s3[a]);
                }
            }
            assert forall|a: int| 0 <= a < s4.len() && ship_kind((#[trigger] s4[a]).kind)
                implies s3.contains(s4[a]) || s4[a] == player_body(s4[a].id, spec_spawn_point(win)) by {
                if a < s3.len() {
                    assert(s4[a] == s3[a]);
                }
            }
        }
        self.explosion_to_spawn();
        let ghost s5 = self.bodies@;
        proof {
            assert forall|a: int| 0 <= a < s5.len() && (#[trigger] s5[a]).movable == Some(Movable { auto_despawn: true })
                implies inside_margin(win, s5[a].pos) by {
                if s4.contains(s5[a]) {
                    let j = choose|j: int| 0 <= j < s4.len() && s4[j] == s5[a];
                }
            }
            assert(ships_from(s5, s4, win));
        }
        self.explosion_animation(delta_ms);
        proof {
            let s6 = self.bodies@;
            assert forall|a: int| 0 <= a < s6.len() && (#[trigger] s6[a]).movable == Some(Movable { auto_despawn: true })
                implies inside_margin(win, s6[a].pos) by {
                let j = choose|j: int| 0 <= j < s5.len() && (#[trigger] s5[j]).pos == s6[a].pos && s5[j].movable == s6[a].movable;
            }
            assert(ships_from(s6, s5, win));
            lemma_ships_trans(s3, s2, s1, win);
            lemma_ships_trans(s4, s3, s1, win);
            lemma_ships_trans(s5, s4, s1, win);
            lemma_ships_trans(s6, s5, s1, win);
            lemma_ships_trans(s6, s5, s2, win);
            lemma_ships_trans(s5, s4, s2, win);
            lemma_ships_trans(s4, s3, s2, win);
            assert(no_hits(s2));
            lemma_no_hits_kept(s6, s2, win);
            assert forall|a: int| 0 <= a < s6.len() && ship_kind((#[trigger] s6[a]).kind) implies {
                ||| exists|j: int| 0 <= j < old(self).bodies.len()
                        && s6[a] == moved(flown(#[trigger] old(self).bodies@[j], targets@[j]))
                ||| s6[a] == player_body(s6[a].id, spec_spawn_point(old(self).win))
            } by {
                if s6[a] != player_body(s6[a].id, spec_spawn_point(win)) {
                    let x = choose|x: int| 0 <= x < s1.len() && s1[x] == s6[a];
                    assert(moved_from(se, win, s1[x]));
                    let j = choose|j: int| 0 <= j < se.len() && !leaves(win, se[j]) && s1[x] == moved(#[trigger] se[j]);
                    assert(se[j] == flown(old(self).bodies@[j], targets@[j]));
                }
            }
        }
    }

    /// A dead player comes back at its spawn point once the respawn delay
    /// has passed since it was shot.
    pub fn player_respawn(&mut self, now_ms: i64)
        requires
            old(self).wf(),
        ensures
            final(self).wf(),
            final(self).enemy_count == old(self).enemy_count,
            final(self).win == old(self).win,
            old(self).player.spec_respawn_due(now_ms as int) ==> {
                &&& final(self).bodies@ == old(self).bodies@.push(player_body(old(self).next_id, spec_spawn_point(old(self).win)))
                &&& final(self).player.alive
                &&& final(self).player.last_shot_ms == crate::player::NEVER_SHOT_MS
            },
            !old(self).player.spec_respawn_due(now_ms as int) ==> {
                &&& final(self).bodies@ == old(self).bodies@
                &&& final(self).player == old(self).player
            },
    {
        if self.player.respawn_due(now_ms) {
            self.spawn_player();
        }
    }
}

proof fn lemma_count_shots_fit(s: Seq<Body>)
    ensures
        shot_points(s).len() == count_kind(s, Kind::Enemy),
    decreases s.len(),
{
    if s.len() > 0 {
        lemma_count_shots_fit(s.drop_last());
    }
}

/// No body of kind `k` is marked, so marks take none of them away.
proof fn lemma_unmarked_kind(s: Seq<Body>, dead: Seq<bool>, k: Kind)
    requires
        dead.len() == s.len(),
        forall|j: int| 0 <= j < s.len() && (#[trigger] s[j]).kind == k ==> !dead[j],
    ensures
        count_marked(s, dead, k) == 0,
    decreases s.len(),
{
    if s.len() > 0 {
        assert forall|j: int| 0 <= j < s.drop_last().len() && (#[trigger] s.drop_last()[j]).kind == k implies !dead.drop_last()[j] by {
            assert(s.drop_last()[j] == s[j]);
        }
        lemma_unmarked_kind(s.drop_last(), dead.drop_last(), k);
    }
}

/// Two distinct bodies of one kind make a count of at least two.
proof fn lemma_count_two(s: Seq<Body>, i: int, j: int, k: Kind)
    requires
        0 <= i < s.len(),
        0 <= j < s.len(),
        i != j,
        s[i].kind == k,
        s[j].kind == k,
    ensures
        count_kind(s, k) >= 2,
    decreases s.len(),
{
    let last = s.len() - 1;
    if i == last {
        assert(s.drop_last()[j] == s[j]);
        lemma_count_positive(s.drop_last(), j);
    } else if j == last {
        assert(s.drop_last()[i] == s[i]);
        lemma_count_positive(s.drop_last(), i);
    } else {
        assert(s.drop_last()[i] == s[i]);
        assert(s.drop_last()[j] == s[j]);
        lemma_count_two(s.drop_last(), i, j, k);
    }
}

/// The counts of all kinds add up to the number of bodies.
proof fn lemma_count_total(s: Seq<Body>)
    ensures
        count_kind(s, Kind::Player) + count_kind(s, Kind::Enemy) + count_kind(s, Kind::PlayerLaser)
            + count_kind(s, Kind::EnemyLaser) + count_kind(s, Kind::Explosion)
            + count_kind(s, Kind::ExplosionToSpawn) == s.len(),
    decreases s.len(),
{
    if s.len() > 0 {
        lemma_count_total(s.drop_last());
    }
}

/// Marking exactly the bodies of kind `m` takes all of them and no other.
proof fn lemma_marked_exact(s: Seq<Body>, dead: Seq<bool>, m: Kind, k: Kind)
    requires
        dead.len() == s.len(),
        forall|x: int| 0 <= x < s.len() ==> #[trigger] dead[x] == (s[x].kind == m),
    ensures
        count_marked(s, dead, k) == if k == m { count_kind(s, k) } else { 0 },
    decreases s.len(),
{
    if s.len() > 0 {
        assert forall|x: int| 0 <= x < s.drop_last().len() implies #[trigger] dead.drop_last()[x] == (s.drop_last()[x].kind == m) by {
            assert(dead.drop_last()[x] == dead[x]);
            assert(s.drop_last()[x] == s[x]);
        }
        lemma_marked_exact(s.drop_last(), dead.drop_last(), m, k);
    }
}

/// The enemy count always equals the number of enemies alive.
pub proof fn lemma_enemy_count_exact(w: World)
    requires
        w.wf(),
    ensures
        w.enemy_count == count_kind(w.bodies@, Kind::Enemy),
{
}

/// There is never more than one player, and none while it is dead.
pub proof fn lemma_at_most_one_player(w: World)
    requires
        w.wf(),
    ensures
        count_kind(w.bodies@, Kind::Player) <= 1,
        !w.player.alive ==> count_kind(w.bodies@, Kind::Player) == 0,
{
}

/// A tick of enemy flight either keeps an enemy's angle or sets it to the
/// angle it aimed at.
pub proof fn lemma_angle_kept_or_advanced(b: Body, t: Point)
    requires
        b.wf(),
        b.kind == Kind::Enemy,
    ensures
        flown(b, t).formation.unwrap().angle == b.formation.unwrap().angle
            || flown(b, t).formation.unwrap().angle == spec_next_angle(b.formation.unwrap()),
{
    crate::enemy::lemma_next_angle_in_turn(b.formation.unwrap());
}

/// A body at rest keeps its place through the movement step (every body
/// that has moved once lies within the range movement reaches).
pub proof fn lemma_still_body_stays(b: Body)
    requires
        b.wf(),
        b.velocity == (Velocity { x: 0, y: 0 }),
        move_ok(b.pos),
    ensures
        moved(b).pos == b.pos,
{
}

pub proof fn lemma_count_positive(s: Seq<Body>, i: int)
    requires
        0 <= i < s.len(),
    ensures
        count_kind(s, s[i].kind) > 0,
    decreases s.len(),
{
    if i < s.len() - 1 {
        assert(s.drop_last()[i] == s[i]);
        lemma_count_positive(s.drop_last(), i);
    }
}

pub proof fn lemma_count_zero(s: Seq<Body>, k: Kind)
    requires
        forall|j: int| 0 <= j < s.len() ==> (#[trigger] s[j]).kind != k,
    ensures
        count_kind(s, k) == 0,
    decreases s.len(),
{
    if s.len() > 0 {
        assert forall|j: int| 0 <= j < s.drop_last().len() implies (#[trigger] s.drop_last()[j]).kind != k by {
            assert(s.drop_last()[j] == s[j]);
        }
        lemma_count_zero(s.drop_last(), k);
    }
}

} // verus!
