//! The player's kinematic body: walking, gravity in either direction,
//! jumping, springs, and collision response against tile hitboxes.
use vstd::prelude::*;

use crate::geometry::{overlaps, Rect, Vec2, COORD_LIMIT};
use crate::tile::{Axis, Facing};
use crate::world::WorldMode;

verus! {

/// Side of the player's square hitbox.
pub const PLAYER_SQUARE: i64 = 1600;

/// Gravity pulls toward increasing y.
pub const FALL_DOWN: i64 = 1;

/// Gravity pulls toward decreasing y.
pub const FALL_UP: i64 = -1;

/// Vertical speed given by a spring.
pub const SPRING_FORCE: i64 = 1000;

/// Largest speed reached by falling alone.
pub const MAX_FALL_SPEED: i64 = 650;

/// Added to the vertical speed every tick, in the fall direction.
pub const GRAVITY: i64 = 30;

/// Vertical speed of a jump, against the fall direction.
pub const JUMP_FORCE: i64 = 550;

/// Horizontal speed of walking.
pub const WALK_SPEED: i64 = 400;

/// Largest change of horizontal speed in one tick.
pub const WALK_ACCELERATION: i64 = 75;

/// Largest magnitude of a coordinate of the player's position at which its
/// operations run.
pub const PLACE_LIMIT: i64 = 500_000_000_000_000;

/// The controls, as read once per tick.
#[derive(Clone, Copy, Debug, PartialEq, Eq, Structural)]
pub struct Input {
    pub left: bool,
    pub right: bool,
    /// The jump key went down this tick.
    pub jump_pressed: bool,
    /// The jump key is down.
    pub jump_held: bool,
    /// The reset key went down this tick.
    pub reset: bool,
}

/// The player's body. `position` is the top-left corner of its square hitbox.
#[derive(Clone, Copy, Debug, PartialEq, Eq, Structural)]
pub struct Player {
    pub position: Vec2,
    pub velocity: Vec2,
    /// A portal was crossed during the current tick.
    pub portal_traversed: bool,
    pub can_jump: bool,
    /// `FALL_DOWN` or `FALL_UP`.
    pub fall_direction: i64,
    pub is_jumping: bool,
    pub flip_horizontal: bool,
    pub flip_vertical: bool,
    /// A spring impulse is still decaying.
    pub hit_spring: bool,
}

pub open spec fn abs(v: int) -> int {
    if v < 0 {
        -v
    } else {
        v
    }
}

/// Whether `v` points the way of `d`; zero counts as positive.
pub open spec fn same_sign(v: int, d: int) -> bool {
    (v >= 0) == (d >= 0)
}

/// Magnitude `m` pointed the way of the fall direction `fd`.
pub open spec fn along_fall(m: int, fd: int) -> int {
    if fd >= 0 {
        m
    } else {
        -m
    }
}

/// `v` moved toward `target` by at most `step`.
pub open spec fn approach(v: int, target: int, step: int) -> int {
    if target - v > step {
        v + step
    } else if v - target > step {
        v - step
    } else {
        target
    }
}

/// A third of `v`, rounded toward zero.
pub open spec fn third(v: int) -> int {
    if v >= 0 {
        v / 3
    } else {
        -((-v) / 3)
    }
}

/// Walking speed asked for by the controls: none when both or neither
/// direction is held.
pub open spec fn target_speed(input: Input) -> int {
    if input.left && !input.right {
        -WALK_SPEED
    } else if input.right && !input.left {
        WALK_SPEED as int
    } else {
        0
    }
}

/// Vertical speed after gravity: a spring impulse that still points the
/// fall way bleeds off; otherwise gravity accelerates, up to the largest
/// fall speed.
pub open spec fn fallen_speed(vy: int, fd: int, hit_spring: bool) -> int {
    if hit_spring && same_sign(vy, fd) {
        vy - along_fall(GRAVITY as int, fd)
    } else {
        let a = vy + along_fall(GRAVITY as int, fd);
        if same_sign(a, fd) && abs(a) > MAX_FALL_SPEED {
            along_fall(MAX_FALL_SPEED as int, fd)
        } else {
            a
        }
    }
}

/// Horizontal speed after one tick of walking toward what the controls ask.
fn walk_speed(vx: i64, input: &Input) -> (r: i64)
    requires
        -WALK_SPEED <= vx <= WALK_SPEED,
    ensures
        r == approach(vx as int, target_speed(*input), WALK_ACCELERATION as int),
        -WALK_SPEED <= r <= WALK_SPEED,
{
    let mut target: i64 = 0;
    if input.left {
        target = -WALK_SPEED;
    }
    if input.right {
        target = WALK_SPEED;
    }
    if input.left == input.right {
        target = 0;
    }
    if target - vx > WALK_ACCELERATION {
        vx + WALK_ACCELERATION
    } else if vx - target > WALK_ACCELERATION {
        vx - WALK_ACCELERATION
    } else {
        target
    }
}

/// Vertical speed after one tick of gravity.
fn fall_speed(vy: i64, fd: i64, hit_spring: bool) -> (r: i64)
    requires
        -SPRING_FORCE <= vy <= SPRING_FORCE,
        !hit_spring ==> -MAX_FALL_SPEED <= vy <= MAX_FALL_SPEED,
        fd == FALL_DOWN || fd == FALL_UP,
    ensures
        r == fallen_speed(vy as int, fd as int, hit_spring),
        -SPRING_FORCE <= r <= SPRING_FORCE,
        !hit_spring ==> -MAX_FALL_SPEED <= r <= MAX_FALL_SPEED,
{
    let g = if fd >= 0 {
        GRAVITY
    } else {
        -GRAVITY
    };
    if hit_spring && (vy >= 0) == (fd >= 0) {
        vy - g
    } else {
        let a = vy + g;
        if (a >= 0) == (fd >= 0) && (a > MAX_FALL_SPEED || a < -MAX_FALL_SPEED) {
            if fd >= 0 {
                MAX_FALL_SPEED
            } else {
                -MAX_FALL_SPEED
            }
        } else {
            a
        }
    }
}

impl Player {
    pub open spec fn spawned(spawn: Vec2) -> Player {
        Player {
            position: spawn,
            velocity: Vec2 { x: 0, y: 0 },
            portal_traversed: false,
            can_jump: false,
            fall_direction: FALL_DOWN,
            is_jumping: false,
            flip_horizontal: false,
            flip_vertical: false,
            hit_spring: false,
        }
    }

    /// The invariant of the body: a valid fall direction and bounded speeds;
    /// the vertical speed exceeds the largest fall speed only while a spring
    /// impulse decays.
    pub open spec fn wf(self) -> bool {
        &&& (self.fall_direction == FALL_DOWN || self.fall_direction == FALL_UP)
        &&& -WALK_SPEED <= self.velocity.x <= WALK_SPEED
        &&& -SPRING_FORCE <= self.velocity.y <= SPRING_FORCE
        &&& !self.hit_spring ==> -MAX_FALL_SPEED <= self.velocity.y <= MAX_FALL_SPEED
    }

    /// The position is within the range where the body's arithmetic is exact.
    pub open spec fn placed(self) -> bool {
        &&& -PLACE_LIMIT <= self.position.x <= PLACE_LIMIT
        &&& -PLACE_LIMIT <= self.position.y <= PLACE_LIMIT
    }

    pub open spec fn hbox(self) -> Rect {
        Rect { x: self.position.x, y: self.position.y, w: PLAYER_SQUARE, h: PLAYER_SQUARE }
    }

    /// The centre of the hitbox.
    pub open spec fn center(self) -> Vec2 {
        Vec2 {
            x: (self.position.x + PLAYER_SQUARE / 2) as i64,
            y: (self.position.y + PLAYER_SQUARE / 2) as i64,
        }
    }

    /// The hitbox moved by the pending vertical speed.
    pub open spec fn probe_y(self) -> Rect {
        Rect { y: (self.position.y + self.velocity.y) as i64, ..self.hbox() }
    }

    /// The hitbox moved by the pending horizontal speed.
    pub open spec fn probe_x(self) -> Rect {
        Rect { x: (self.position.x + self.velocity.x) as i64, ..self.hbox() }
    }

    /// The body after one tick of control and gravity (before collisions).
    pub open spec fn updated(self, input: Input) -> Player {
        let fd = self.fall_direction as int;
        let vx = approach(self.velocity.x as int, target_speed(input), WALK_ACCELERATION as int);
        let vy1 = fallen_speed(self.velocity.y as int, fd, self.hit_spring);
        let spring = self.hit_spring && !(abs(vy1) < MAX_FALL_SPEED);
        let jump = input.jump_pressed && self.can_jump;
        let vy2 = if jump {
            -along_fall(JUMP_FORCE as int, fd)
        } else {
            vy1
        };
        let jumping1 = jump || self.is_jumping;
        let jumping2 = jumping1 && !(vy2 == 0 || same_sign(vy2, fd));
        let cut = jumping2 && !input.jump_held;
        Player {
            velocity: Vec2 {
                x: vx as i64,
                y: (if cut {
                    third(vy2)
                } else {
                    vy2
                }) as i64,
            },
            portal_traversed: false,
            can_jump: self.can_jump && !jump,
            is_jumping: jumping2 && !cut,
            flip_horizontal: if vx < 0 {
                true
            } else if vx > 0 {
                false
            } else {
                self.flip_horizontal
            },
            hit_spring: spring,
            ..self
        }
    }

    pub open spec fn after_world_change(self, mode: WorldMode) -> Player {
        match mode {
            WorldMode::Dark => Player { fall_direction: FALL_DOWN, flip_vertical: false, ..self },
            WorldMode::Light => Player { fall_direction: FALL_UP, flip_vertical: true, ..self },
        }
    }

    /// A spring facing up throws the body up, one facing down throws it
    /// down; side springs and a body still bouncing are left alone.
    pub open spec fn after_spring(self, facing: Facing) -> Player {
        if self.hit_spring {
            self
        } else {
            match facing {
                Facing::Up => Player {
                    velocity: Vec2 { y: (-SPRING_FORCE) as i64, ..self.velocity },
                    hit_spring: true,
                    can_jump: true,
                    ..self
                },
                Facing::Down => Player {
                    velocity: Vec2 { y: SPRING_FORCE, ..self.velocity },
                    hit_spring: true,
                    can_jump: true,
                    ..self
                },
                _ => self,
            }
        }
    }

    /// Vertical response to `r`: when the vertically moved hitbox would
    /// overlap it, the body is put against the side of `r` it came from, its
    /// vertical speed is zeroed, and reaching a floor (in the fall direction)
    /// allows a jump.
    pub open spec fn after_collision_y(self, r: Rect) -> Player {
        if overlaps(r, self.probe_y()) {
            if self.velocity.y < 0 {
                Player {
                    position: Vec2 { y: (r.y + r.h) as i64, ..self.position },
                    velocity: Vec2 { y: 0, ..self.velocity },
                    can_jump: self.can_jump || self.fall_direction == FALL_UP,
                    ..self
                }
            } else if self.velocity.y > 0 {
                Player {
                    position: Vec2 { y: (r.y - PLAYER_SQUARE) as i64, ..self.position },
                    velocity: Vec2 { y: 0, ..self.velocity },
                    can_jump: self.can_jump || self.fall_direction == FALL_DOWN,
                    ..self
                }
            } else {
                self
            }
        } else {
            self
        }
    }

    /// Horizontal response to `r`, as the vertical one but without landing.
    pub open spec fn after_collision_x(self, r: Rect) -> Player {
        if overlaps(r, self.probe_x()) {
            if self.velocity.x > 0 {
                Player {
                    position: Vec2 { x: (r.x - PLAYER_SQUARE) as i64, ..self.position },
                    velocity: Vec2 { x: 0, ..self.velocity },
                    ..self
                }
            } else if self.velocity.x < 0 {
                Player {
                    position: Vec2 { x: (r.x + r.w) as i64, ..self.position },
                    velocity: Vec2 { x: 0, ..self.velocity },
                    ..self
                }
            } else {
                self
            }
        } else {
            self
        }
    }

    /// Whether this tick's motion carries the body's centre across the centre
    /// of the portal `r` along the component that `axis` selects, for a body
    /// that touches the portal and has not crossed one yet this tick.
    pub open spec fn crosses_portal(self, r: Rect, axis: Axis) -> bool {
        let entry_x = 2 * self.position.x + PLAYER_SQUARE - r.center2_x();
        let entry_y = 2 * self.position.y + PLAYER_SQUARE - r.center2_y();
        let exit_x = entry_x + 2 * self.velocity.x;
        let exit_y = entry_y + 2 * self.velocity.y;
        &&& !self.portal_traversed
        &&& overlaps(r, self.hbox())
        &&& match axis {
            Axis::Horizontal => (entry_x >= 0) != (exit_x >= 0),
            Axis::Vertical => (entry_y >= 0) != (exit_y >= 0),
        }
    }

    pub open spec fn moved(self) -> Player {
        Player {
            position: Vec2 {
                x: (self.position.x + self.velocity.x) as i64,
                y: (self.position.y + self.velocity.y) as i64,
            },
            ..self
        }
    }

    /// A body at rest at `spawn_pos`, falling down.
    pub fn new(spawn_pos: Vec2) -> (r: Player)
        ensures
            r == Player::spawned(spawn_pos),
            r.wf(),
    {
        Player {
            position: spawn_pos,
            velocity: Vec2::new(0, 0),
            portal_traversed: false,
            can_jump: false,
            fall_direction: FALL_DOWN,
            is_jumping: false,
            flip_horizontal: false,
            flip_vertical: false,
            hit_spring: false,
        }
    }

    /// One tick of walking, gravity and jumping; clears the portal flag.
    pub fn update(&mut self, input: &Input)
        requires
            old(self).wf(),
        ensures
            *final(self) == old(self).updated(*input),
            final(self).wf(),
    {
        let fd = self.fall_direction;
        let vx = walk_speed(self.velocity.x, input);
        let vy1 = fall_speed(self.velocity.y, fd, self.hit_spring);
        let hit_spring = self.hit_spring && !(-MAX_FALL_SPEED < vy1 && vy1 < MAX_FALL_SPEED);
        let jump = input.jump_pressed && self.can_jump;
        let vy2 = if !jump {
            vy1
        } else if fd >= 0 {
            -JUMP_FORCE
        } else {
            JUMP_FORCE
        };
        let mut is_jumping = jump || self.is_jumping;
        if vy2 == 0 || (vy2 >= 0) == (fd >= 0) {
            is_jumping = false;
        }
        let mut vy3 = vy2;
        if is_jumping && !input.jump_held {
            is_jumping = false;
            vy3 = if vy2 >= 0 {
                vy2 / 3
            } else {
                -((-vy2) / 3)
            };
        }
        let flip_horizontal = if vx < 0 {
            true
        } else if vx > 0 {
            false
        } else {
            self.flip_horizontal
        };
        *self = Player {
            velocity: Vec2::new(vx, vy3),
            portal_traversed: false,
            can_jump: self.can_jump && !jump,
            is_jumping,
            flip_horizontal,
            hit_spring,
            ..*self
        };
    }

    /// Takes the gravity of the world now in force.
    pub fn on_world_change(&mut self, mode: WorldMode)
        ensures
            *final(self) == old(self).after_world_change(mode),
    {
        match mode {
            WorldMode::Dark => {
                self.fall_direction = FALL_DOWN;
                self.flip_vertical = false;
            },
            WorldMode::Light => {
                self.fall_direction = FALL_UP;
                self.flip_vertical = true;
            },
        }
    }

    fn on_land(&mut self)
        ensures
            *final(self) == (Player { can_jump: true, ..*old(self) }),
    {
        self.can_jump = true;
    }

    pub fn on_spring(&mut self, facing: Facing)
        ensures
            *final(self) == old(self).after_spring(facing),
    {
        if self.hit_spring {
            return;
        }
        match facing {
            Facing::Up => {
                self.velocity.y = -SPRING_FORCE;
            },
            Facing::Down => {
                self.velocity.y = SPRING_FORCE;
            },
            _ => {
                return;
            },
        }
        self.hit_spring = true;
        self.can_jump = true;
    }

    pub fn solve_collision_y(&mut self, rect: &Rect)
        requires
            old(self).wf(),
            old(self).placed(),
            rect.bounded(),
        ensures
            *final(self) == old(self).after_collision_y(*rect),
    {
        let next_hbox = Rect::new(
            self.position.x,
            self.position.y + self.velocity.y,
            PLAYER_SQUARE,
            PLAYER_SQUARE,
        );
        if rect.intersects(&next_hbox) {
            if self.velocity.y < 0 {
                if self.fall_direction == FALL_UP {
                    self.on_land();
                }
                self.position.y = rect.y + rect.h;
            } else if self.velocity.y > 0 {
                if self.fall_direction == FALL_DOWN {
                    self.on_land();
                }
                self.position.y = rect.y - PLAYER_SQUARE;
            }
            self.velocity.y = 0;
        }
    }

    pub fn solve_collision_x(&mut self, rect: &Rect)
        requires
            old(self).wf(),
            old(self).placed(),
            rect.bounded(),
        ensures
            *final(self) == old(self).after_collision_x(*rect),
    {
        let next_hbox = Rect::new(
            self.position.x + self.velocity.x,
            self.position.y,
            PLAYER_SQUARE,
            PLAYER_SQUARE,
        );
        if rect.intersects(&next_hbox) {
            if self.velocity.x > 0 {
                self.position.x = rect.x - PLAYER_SQUARE;
            } else if self.velocity.x < 0 {
                self.position.x = rect.x + rect.w;
            }
            self.velocity.x = 0;
        }
    }

    /// Whether the body crosses the portal `r` this tick (see
    /// `crosses_portal`); a crossing marks the tick so that no other portal
    /// is crossed in it.
    pub fn can_traverse_portal(&mut self, rect: &Rect, axis: Axis) -> (r: bool)
        requires
            old(self).wf(),
            old(self).placed(),
            rect.bounded(),
        ensures
            r == old(self).crosses_portal(*rect, axis),
            *final(self) == (if r {
                Player { portal_traversed: true, ..*old(self) }
            } else {
                *old(self)
            }),
    {
        if self.portal_traversed || !rect.intersects(&self.get_hbox()) {
            return false;
        }
        let entry_x = 2 * self.position.x + PLAYER_SQUARE - (2 * rect.x + rect.w);
        let entry_y = 2 * self.position.y + PLAYER_SQUARE - (2 * rect.y + rect.h);
        let exit_x = entry_x + 2 * self.velocity.x;
        let exit_y = entry_y + 2 * self.velocity.y;
        let crossed = match axis {
            Axis::Horizontal => (entry_x >= 0) != (exit_x >= 0),
            Axis::Vertical => (entry_y >= 0) != (exit_y >= 0),
        };
        if crossed {
            self.portal_traversed = true;
        }
        crossed
    }

    pub fn get_hbox(&self) -> (r: Rect)
        requires
            self.placed(),
        ensures
            r == self.hbox(),
            r.bounded(),
    {
        Rect::new(self.position.x, self.position.y, PLAYER_SQUARE, PLAYER_SQUARE)
    }

    /// Moves the body by its velocity.
    pub fn post_update(&mut self)
        requires
            old(self).wf(),
            old(self).placed(),
        ensures
            *final(self) == old(self).moved(),
    {
        self.position = Vec2::new(
            self.position.x + self.velocity.x,
            self.position.y + self.velocity.y,
        );
    }

    pub fn flip_horizontal(&self) -> (r: bool)
        ensures
            r == self.flip_horizontal,
    {
        self.flip_horizontal
    }

    pub fn flip_vertical(&self) -> (r: bool)
        ensures
            r == self.flip_vertical,
    {
        self.flip_vertical
    }
}

/// Control and gravity keep the body's invariant and do not move it.
pub proof fn lemma_updated_wf(p: Player, input: Input)
    requires
        p.wf(),
    ensures
        p.updated(input).wf(),
        p.updated(input).position == p.position,
{
    let fd = p.fall_direction as int;
    let vy1 = fallen_speed(p.velocity.y as int, fd, p.hit_spring);
    assert(-SPRING_FORCE <= vy1 <= SPRING_FORCE);
    assert(-SPRING_FORCE <= third(vy1) <= SPRING_FORCE);
    assert(-SPRING_FORCE <= third(-along_fall(JUMP_FORCE as int, fd)) <= SPRING_FORCE);
}

/// Against a rectangle that the body approaches from outside and that its
/// motion along one axis enters: the vertical and then the horizontal
/// response leave the moved body outside the rectangle, zero the speed along
/// the axis that entered, and a second round of responses changes nothing.
pub proof fn lemma_collision_resolution(p: Player, r: Rect)
    requires
        p.wf(),
        p.placed(),
        r.bounded(),
        !overlaps(r, p.hbox()),
        overlaps(r, p.probe_y()) || overlaps(r, p.probe_x()),
    ensures
        ({
            let q = p.after_collision_y(r).after_collision_x(r);
            &&& !overlaps(r, q.moved().hbox())
            &&& overlaps(r, p.probe_y()) ==> q.velocity.y == 0
            &&& !overlaps(r, p.probe_y()) ==> q.velocity.x == 0
            &&& q.after_collision_y(r).after_collision_x(r) == q
        }),
{
}

} // verus!
