//! Local simulation of one player: movement with acceleration ramp and
//! friction, the triangular jump offset cycle, hitbox overlap, and the
//! choice of the facing row for the animation sheet.

use vstd::prelude::*;
use crate::model::{
    Direction, Player, PlayerView, Position, PositionView, Potion, MAP_CURRENT_FRICTION,
    PLAYER_ACCEL_SPEED, PLAYER_CELL_HEIGHT, PLAYER_CELL_WIDTH, PLAYER_JUMP_HEIGHT,
    PLAYER_JUMP_STEP, PLAYER_MOVE_SPEED, PLAYER_STARTING_ACCEL, PLAYER_TOP_ACCEL_SPEED,
    SCREEN_HEIGHT, SCREEN_WIDTH,
};

verus! {

/// Some movement input is held.
pub open spec fn dir_any(d: Direction) -> bool {
    d.up || d.down || d.left || d.right
}

/// The range the acceleration scalar stays in: it ramps toward
/// [`PLAYER_TOP_ACCEL_SPEED`] while moving (overshooting by at most one
/// step) and decays below zero by at most one friction step while idle.
pub open spec fn accel_in_range(a: int) -> bool {
    &&& -(PLAYER_ACCEL_SPEED * MAP_CURRENT_FRICTION) <= a
    &&& a <= PLAYER_TOP_ACCEL_SPEED + PLAYER_ACCEL_SPEED
}

/// One movement tick under held inputs: the acceleration ramps toward its
/// cap, the body moves by base speed plus acceleration on each held axis
/// that is still inside the screen bounds, and `last_dir` freezes exactly
/// the axes that moved.
pub open spec fn move_direction_spec(p: PlayerView) -> PlayerView {
    let a = if p.current_accel < PLAYER_TOP_ACCEL_SPEED as int {
        p.current_accel + PLAYER_ACCEL_SPEED as int
    } else {
        p.current_accel
    };
    let sp = PLAYER_MOVE_SPEED as int + a;
    let up = p.dir.up && p.body.y > PLAYER_CELL_HEIGHT as int;
    let y1 = if up {
        p.body.y - sp
    } else {
        p.body.y
    };
    let down = p.dir.down && y1 < SCREEN_HEIGHT as int - PLAYER_CELL_HEIGHT as int * 2;
    let y2 = if down {
        y1 + sp
    } else {
        y1
    };
    let left = p.dir.left && p.body.x > 0;
    let x1 = if left {
        p.body.x - sp
    } else {
        p.body.x
    };
    let right = p.dir.right && x1 < SCREEN_WIDTH as int - PLAYER_CELL_WIDTH as int;
    let x2 = if right {
        x1 + sp
    } else {
        x1
    };
    PlayerView {
        body: PositionView { x: x2, y: y2, w: p.body.w, h: p.body.h },
        last_dir: Direction { up, down, left, right },
        current_accel: a,
        ..p
    }
}

/// One deceleration tick: the body keeps drifting along the frozen
/// `last_dir` axes that are still inside the screen bounds, then friction
/// pulls the acceleration down.
pub open spec fn move_direction_cooldown_spec(p: PlayerView) -> PlayerView {
    let sp = PLAYER_MOVE_SPEED as int + p.current_accel;
    let y1 = if p.last_dir.up && p.body.y > PLAYER_CELL_HEIGHT as int {
        p.body.y - sp
    } else {
        p.body.y
    };
    let y2 = if p.last_dir.down && y1 < SCREEN_HEIGHT as int - PLAYER_CELL_HEIGHT as int * 2 {
        y1 + sp
    } else {
        y1
    };
    let x1 = if p.last_dir.left && p.body.x > 0 {
        p.body.x - sp
    } else {
        p.body.x
    };
    let x2 = if p.last_dir.right && x1 < SCREEN_WIDTH as int - PLAYER_CELL_WIDTH as int {
        x1 + sp
    } else {
        x1
    };
    let a = if p.current_accel > 0 {
        p.current_accel - PLAYER_ACCEL_SPEED as int * MAP_CURRENT_FRICTION as int
    } else {
        p.current_accel
    };
    PlayerView {
        body: PositionView { x: x2, y: y2, w: p.body.w, h: p.body.h },
        current_accel: a,
        ..p
    }
}

/// One step of the triangular jump cycle: the offset climbs by one step
/// to the peak, turns around, sinks back to zero, and the jump ends.
pub open spec fn jump_step_spec(p: PlayerView) -> PlayerView {
    if p.jumping {
        if p.jump_direction && p.jump_offset < PLAYER_JUMP_HEIGHT as int {
            PlayerView { jump_offset: p.jump_offset + PLAYER_JUMP_STEP as int, ..p }
        } else if p.jump_direction && p.jump_offset == PLAYER_JUMP_HEIGHT as int {
            PlayerView { jump_direction: false, ..p }
        } else if !p.jump_direction && p.jump_offset <= PLAYER_JUMP_HEIGHT as int && p.jump_offset
            > 0 {
            PlayerView { jump_offset: p.jump_offset - PLAYER_JUMP_STEP as int, ..p }
        } else {
            PlayerView { jumping: false, jump_offset: 0, jump_direction: true, ..p }
        }
    } else {
        p
    }
}

/// One full local tick: advance the jump cycle, then either move under
/// held inputs or decelerate under friction while above starting speed.
pub open spec fn update_spec(p: PlayerView) -> PlayerView {
    let q = jump_step_spec(p);
    if dir_any(q.dir) {
        move_direction_spec(q)
    } else if q.current_accel > PLAYER_STARTING_ACCEL as int {
        move_direction_cooldown_spec(q)
    } else {
        q
    }
}

/// Two rectangles overlap: each one's left edge is at or before the
/// other's right edge, and each one's top edge at or before the other's
/// bottom edge.
pub open spec fn overlaps_spec(a: PositionView, b: PositionView) -> bool {
    &&& a.x <= b.x + b.w
    &&& a.x + a.w >= b.x
    &&& a.y <= b.y + b.h
    &&& a.y + a.h >= b.y
}

/// Rows of the sprite sheet, selected by held input first, frozen
/// direction second, facing the camera as the idle default.
pub open spec fn animation_row_spec(p: PlayerView) -> u8 {
    if p.dir.up {
        1
    } else if p.dir.left {
        2
    } else if p.dir.right {
        3
    } else if p.dir.down {
        0
    } else if p.last_dir.left {
        2
    } else if p.last_dir.right {
        3
    } else if p.last_dir.up {
        1
    } else {
        0
    }
}

/// Whether two rectangles overlap, computed without overflow by widening.
pub fn overlaps(a: &Position, b: &Position) -> (r: bool)
    ensures
        r == overlaps_spec(a@, b@),
{
    (a.x as i128) <= (b.x as i128) + (b.w as i128) && (a.x as i128) + (a.w as i128) >= (b.x as i128)
        && (a.y as i128) <= (b.y as i128) + (b.h as i128) && (a.y as i128) + (a.h as i128) >= (b.y
        as i128)
}

impl Player {
    /// Whether this record's hitbox overlaps the potion's rectangle.
    pub fn eats(&self, potion: &Potion) -> (r: bool)
        ensures
            r == overlaps_spec(self@.body, potion@.pos),
    {
        overlaps(&self.body, &potion.pos)
    }

    /// Clears every frozen direction flag.
    pub fn reset_last_dir(&mut self)
        ensures
            final(self)@ == (PlayerView {
                last_dir: Direction { up: false, down: false, left: false, right: false },
                ..old(self)@
            }),
    {
        self.last_dir.left = false;
        self.last_dir.right = false;
        self.last_dir.up = false;
        self.last_dir.down = false;
        proof {
            assert(self@ =~= (PlayerView {
                last_dir: Direction { up: false, down: false, left: false, right: false },
                ..old(self)@
            }));
        }
    }

    /// Some movement input is held.
    pub fn is_moving(&self) -> (r: bool)
        ensures
            r == dir_any(self.dir),
    {
        self.dir.up || self.dir.down || self.dir.left || self.dir.right
    }

    /// One movement tick under held inputs.
    pub fn move_direction(&mut self)
        requires
            accel_in_range(old(self)@.current_accel),
        ensures
            final(self)@ == move_direction_spec(old(self)@),
            accel_in_range(final(self)@.current_accel),
    {
        self.reset_last_dir();
        if self.current_accel < PLAYER_TOP_ACCEL_SPEED {
            self.current_accel = self.current_accel + PLAYER_ACCEL_SPEED;
        }
        if self.dir.up && self.body.y > PLAYER_CELL_HEIGHT {
            self.body.y = self.body.y - (PLAYER_MOVE_SPEED + self.current_accel);
            self.last_dir.up = true;
        }
        if self.dir.down && self.body.y < SCREEN_HEIGHT - PLAYER_CELL_HEIGHT * 2 {
            self.body.y = self.body.y + (PLAYER_MOVE_SPEED + self.current_accel);
            self.last_dir.down = true;
        }
        if self.dir.left && self.body.x > 0 {
            self.body.x = self.body.x - (PLAYER_MOVE_SPEED + self.current_accel);
            self.last_dir.left = true;
        }
        if self.dir.right && self.body.x < SCREEN_WIDTH - PLAYER_CELL_WIDTH {
            self.body.x = self.body.x + (PLAYER_MOVE_SPEED + self.current_accel);
            self.last_dir.right = true;
        }
        proof {
            assert(self@ =~= move_direction_spec(old(self)@));
        }
    }

    /// One deceleration tick along the frozen direction.
    #[verifier::rlimit(50)]
    pub fn move_direction_cooldown(&mut self)
        requires
            accel_in_range(old(self)@.current_accel),
        ensures
            final(self)@ == move_direction_cooldown_spec(old(self)@),
            accel_in_range(final(self)@.current_accel),
    {
        if self.last_dir.up && self.body.y > PLAYER_CELL_HEIGHT {
            self.body.y = self.body.y - (PLAYER_MOVE_SPEED + self.current_accel);
        }
        if self.last_dir.down && self.body.y < SCREEN_HEIGHT - PLAYER_CELL_HEIGHT * 2 {
            self.body.y = self.body.y + (PLAYER_MOVE_SPEED + self.current_accel);
        }
        if self.last_dir.left && self.body.x > 0 {
            self.body.x = self.body.x - (PLAYER_MOVE_SPEED + self.current_accel);
        }
        if self.last_dir.right && self.body.x < SCREEN_WIDTH - PLAYER_CELL_WIDTH {
            self.body.x = self.body.x + (PLAYER_MOVE_SPEED + self.current_accel);
        }
        if self.current_accel > 0 {
            self.current_accel = self.current_accel - PLAYER_ACCEL_SPEED * MAP_CURRENT_FRICTION;
        }
        proof {
            assert(self@ =~= move_direction_cooldown_spec(old(self)@));
        }
    }

    /// One full local tick: jump cycle, then movement or deceleration.
    pub fn update(&mut self)
        requires
            accel_in_range(old(self)@.current_accel),
        ensures
            final(self)@ == update_spec(old(self)@),
            accel_in_range(final(self)@.current_accel),
    {
        if self.jumping {
            if self.jump_direction && self.jump_offset < PLAYER_JUMP_HEIGHT {
                self.jump_offset = self.jump_offset + PLAYER_JUMP_STEP;
            } else if self.jump_direction && self.jump_offset == PLAYER_JUMP_HEIGHT {
                self.jump_direction = false;
            } else if !self.jump_direction && self.jump_offset <= PLAYER_JUMP_HEIGHT
                && self.jump_offset > 0 {
                self.jump_offset = self.jump_offset - PLAYER_JUMP_STEP;
            } else {
                self.jumping = false;
                self.jump_offset = 0;
                self.jump_direction = true;
            }
        }
        proof {
            assert(self@ =~= jump_step_spec(old(self)@));
        }
        if self.is_moving() {
            self.move_direction();
        } else if self.current_accel > PLAYER_STARTING_ACCEL {
            self.move_direction_cooldown();
        }
    }

    /// The sprite-sheet row this record currently faces.
    pub fn get_animation_direction(&self) -> (r: u8)
        ensures
            r == animation_row_spec(self@),
    {
        if self.dir.up {
            1
        } else if self.dir.left {
            2
        } else if self.dir.right {
            3
        } else if self.dir.down {
            0
        } else if self.last_dir.left {
            2
        } else if self.last_dir.right {
            3
        } else if self.last_dir.up {
            1
        } else {
            0
        }
    }
}

} // verus!
