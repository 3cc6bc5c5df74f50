use vstd::prelude::*;
use crate::components::Point;
use crate::geometry::WinSize;
use crate::random::{chance, random_in};
use crate::units::{BASE_SPEED, FORMATION_MEMBERS_MAX, UNIT};

verus! {

/// One full turn, in micro-radians.
pub const TURN_MICRO: i64 = 6_283_185;

/// Largest formation speed accepted, in world units per second.
pub const SPEED_LIMIT: i64 = 100_000;

/// Path of an enemy: it enters at `start` and then orbits the ellipse of
/// radii `radius` round `pivot`. `angle` is the current angle on that
/// ellipse, in micro-radians within one turn; `speed` is in world units per
/// second.
#[derive(Clone, Copy, Debug, PartialEq, Eq, Structural)]
pub struct Formation {
    pub start: Point,
    pub radius: Point,
    pub pivot: Point,
    pub speed: i64,
    pub angle: i64,
}

impl Formation {
    pub open spec fn wf(&self) -> bool {
        &&& 0 < self.radius.x <= crate::units::WIN_LIMIT
        &&& 0 < self.radius.y <= crate::units::WIN_LIMIT
        &&& 0 <= self.speed <= SPEED_LIMIT
        &&& 0 <= self.angle < TURN_MICRO
        &&& -crate::units::WIN_LIMIT <= self.pivot.x <= crate::units::WIN_LIMIT
        &&& -crate::units::WIN_LIMIT <= self.pivot.y <= crate::units::WIN_LIMIT
    }
}

/// The random values a fresh template is built from.
#[derive(Clone, Copy, Debug, PartialEq, Eq, Structural)]
pub struct FormationDraws {
    /// The template enters from the right edge (else from the left).
    pub from_right: bool,
    pub start_y: i64,
    pub pivot_x: i64,
    pub pivot_y: i64,
    pub radius_x: i64,
}

/// Horizontal half-span of the entry points: just beyond the window's side.
pub open spec fn entry_x(win: WinSize) -> int {
    win.w / 2 + 100 * UNIT
}

impl FormationDraws {
    /// Each draw lies in the range it is drawn from.
    pub open spec fn wf(&self, win: WinSize) -> bool {
        &&& -(win.h / 2 + 100 * UNIT) <= self.start_y < win.h / 2 + 100 * UNIT
        &&& -(win.w / 4) <= self.pivot_x < win.w / 4
        &&& 0 <= self.pivot_y < win.h / 3 - 50 * UNIT
        &&& 80 * UNIT <= self.radius_x < 150 * UNIT
    }
}

/// Whether a window leaves room for every range a template is drawn from.
pub open spec fn roomy(win: WinSize) -> bool {
    win.wf() && win.w / 4 > 0 && win.h / 3 > 50 * UNIT
}

/// Whether the window leaves room for every range a template is drawn from.
pub fn roomy_window(win: &WinSize) -> (r: bool)
    ensures
        r == roomy(*win),
{
    0 < win.w && win.w <= crate::units::WIN_LIMIT && 0 < win.h && win.h <= crate::units::WIN_LIMIT
        && win.w / 4 > 0 && win.h / 3 > 50 * UNIT
}

/// Draws the random values of a fresh template for the window.
pub fn draw(win: &WinSize) -> (r: FormationDraws)
    requires
        roomy(*win),
    ensures
        r.wf(*win),
{
    let from_right = chance(1, 2);
    let h_span: i64 = win.h / 2 + 100 * UNIT;
    let start_y = random_in(-h_span, h_span);
    let w_span: i64 = win.w / 4;
    let pivot_x = random_in(-w_span, w_span);
    let pivot_y = random_in(0, win.h / 3 - 50 * UNIT);
    let radius_x = random_in(80 * UNIT, 150 * UNIT);
    FormationDraws { from_right, start_y, pivot_x, pivot_y, radius_x }
}

/// The template built from draws and its starting angle (the direction of
/// the start point seen from the pivot, computed by the caller).
pub open spec fn spec_template(win: WinSize, d: FormationDraws, angle: i64) -> Formation {
    let x = if d.from_right { entry_x(win) } else { -entry_x(win) };
    Formation {
        start: Point { x: x as i64, y: d.start_y },
        radius: Point { x: d.radius_x, y: (100 * UNIT) as i64 },
        pivot: Point { x: d.pivot_x, y: d.pivot_y },
        speed: BASE_SPEED,
        angle,
    }
}

/// The maker after a call of `make`, and the formation handed out.
pub open spec fn spec_make(m: FormationMaker, win: WinSize, d: FormationDraws, angle: i64) -> (FormationMaker, Formation) {
    if m.reuses() {
        (FormationMaker { current_template: m.current_template, current_members: (m.current_members + 1) as u32 }, m.current_template.unwrap())
    } else {
        let f = spec_template(win, d, angle);
        (FormationMaker { current_template: Some(f), current_members: 1 }, f)
    }
}

/// Hands out formations: each template serves a fixed number of enemies.
#[derive(Clone, Copy, Debug)]
pub struct FormationMaker {
    pub current_template: Option<Formation>,
    pub current_members: u32,
}

impl FormationMaker {
    pub fn new() -> (r: FormationMaker)
        ensures
            r.current_template.is_none(),
            r.current_members == 0,
    {
        FormationMaker { current_template: None, current_members: 0 }
    }

    /// Whether the next call of `make` reuses the current template.
    pub open spec fn reuses(&self) -> bool {
        self.current_template.is_some() && self.current_members < FORMATION_MEMBERS_MAX
    }

    /// Whether the next call of `make` builds a fresh template.
    pub fn needs_template(&self) -> (r: bool)
        ensures
            r == !self.reuses(),
    {
        !(self.current_template.is_some() && self.current_members < FORMATION_MEMBERS_MAX)
    }

    /// The next formation: a copy of the current template while it has room
    /// for another member, else a fresh template built from `draws` and
    /// `angle`, which becomes current with one member.
    pub fn make(&mut self, win: &WinSize, draws: &FormationDraws, angle: i64) -> (r: Formation)
        requires
            win.wf(),
        ensures
            old(self).reuses() ==> {
                &&& r == old(self).current_template.unwrap()
                &&& final(self).current_template == old(self).current_template
                &&& final(self).current_members == old(self).current_members + 1
            },
            !old(self).reuses() ==> {
                &&& r == spec_template(*win, *draws, angle)
                &&& final(self).current_template == Some(r)
                &&& final(self).current_members == 1
            },
            (*final(self), r) == spec_make(*old(self), *win, *draws, angle),
    {
        match self.current_template {
            Some(tmpl) if self.current_members < FORMATION_MEMBERS_MAX => {
                self.current_members = self.current_members + 1;
                tmpl
            },
            _ => {
                let span: i64 = win.w / 2 + 100 * UNIT;
                let x: i64 = if draws.from_right { span } else { -span };
                let formation = Formation {
                    start: Point { x, y: draws.start_y },
                    radius: Point { x: draws.radius_x, y: 100 * UNIT },
                    pivot: Point { x: draws.pivot_x, y: draws.pivot_y },
                    speed: BASE_SPEED,
                    angle,
                };
                self.current_template = Some(formation);
                self.current_members = 1;
                formation
            },
        }
    }
}

/// Two makes in a row that start a fresh template hand out the same
/// formation, whatever the second call is given; the third builds a fresh
/// template from its own draws.
pub proof fn lemma_members_share_template(
    m: FormationMaker,
    win: WinSize,
    d1: FormationDraws,
    a1: i64,
    d2: FormationDraws,
    a2: i64,
    d3: FormationDraws,
    a3: i64,
)
    requires
        !m.reuses(),
    ensures
        ({
            let (m1, f1) = spec_make(m, win, d1, a1);
            let (m2, f2) = spec_make(m1, win, d2, a2);
            let (m3, f3) = spec_make(m2, win, d3, a3);
            &&& f1 == spec_template(win, d1, a1)
            &&& f2 == f1
            &&& f3 == spec_template(win, d3, a3)
            &&& m3.current_members == 1
        }),
{
}

/// Every template enters just beyond the left or right side of the window.
pub proof fn lemma_template_enters_off_screen(win: WinSize, d: FormationDraws, angle: i64)
    requires
        win.wf(),
    ensures
        spec_template(win, d, angle).start.x == if d.from_right { entry_x(win) } else { -entry_x(win) },
        spec_template(win, d, angle).start.x > win.w / 2 || spec_template(win, d, angle).start.x < -(win.w / 2),
{
}

} // verus!
