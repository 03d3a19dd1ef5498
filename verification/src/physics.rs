//! Physics stepper: advances every live entity record one discrete tick.
//!
//! Per tick an entity moves by its velocity (with two's-complement wrap-around
//! at the extremes), is clamped into the arena, reflects its horizontal
//! velocity on side-wall contact, and on vertical contact either bounces
//! inelastically off the floor (rebound speed roughly halved, always directed
//! upward) or reflects perfectly off the ceiling; otherwise gravity
//! accelerates it.

use vstd::prelude::*;

verus! {

/// Two's-complement negation: exact negation everywhere except `i32::MIN`,
/// which has no positive counterpart and wraps to itself.
pub open spec fn neg_wrap(v: i32) -> i32 {
    if v == i32::MIN {
        i32::MIN
    } else {
        (-(v as int)) as i32
    }
}

/// Magnitude of `v` as a mathematical integer (no wrap-around at `i32::MIN`).
pub open spec fn abs_val(v: i32) -> int {
    if v < 0 {
        -(v as int)
    } else {
        v as int
    }
}

/// `max(0, min(hi, v))`: bound `v` into `[0, hi]`, or to `0` when `hi < 0`.
pub open spec fn clamp_to(v: int, hi: int) -> int {
    let m = if v < hi {
        v
    } else {
        hi
    };
    if m < 0 {
        0
    } else {
        m
    }
}

/// Position after one tick along one axis: move by the velocity with
/// wrap-around, then clamp into `[0, extent - 1 - size]`.
pub open spec fn new_pos(p: i32, v: i32, size: i32, extent: i32) -> i32 {
    clamp_to(p.wrapping_add(v) as int, extent - 1 - size) as i32
}

/// Horizontal velocity after one tick, given the already-clamped position
/// `nx`: negated on contact with either side wall, unchanged otherwise.
pub open spec fn reflect_dx(nx: i32, size: i32, width: i32, dx: i32) -> i32 {
    if nx + size + 1 == width || nx == 0 {
        neg_wrap(dx)
    } else {
        dx
    }
}

/// Rebound velocity after floor contact: `-(|dy| - |dy| / 2)`, an inelastic
/// bounce that halves the speed (rounding the remaining speed up) and always
/// points upward or is zero.
pub open spec fn bounce_dy(dy: i32) -> i32 {
    (-(abs_val(dy) - abs_val(dy) / 2)) as i32
}

/// Vertical velocity after one tick, given the already-clamped position `ny`:
/// an inelastic bounce on floor contact, a perfect reflection on ceiling
/// contact, and gravity acceleration (with wrap-around) in free fall.
pub open spec fn new_dy(ny: i32, size: i32, height: i32, dy: i32, gravity: i32) -> i32 {
    if ny + size + 1 == height {
        bounce_dy(dy)
    } else if ny == 0 {
        neg_wrap(dy)
    } else {
        dy.wrapping_add(gravity)
    }
}

/// Field `f` of record `i` in a packed state buffer.
pub open spec fn rec_field(s: Seq<i32>, i: int, f: int) -> i32 {
    s[9 * i + f]
}

/// A record is live when its presence marker is not the `0` sentinel.
pub open spec fn rec_live(s: Seq<i32>, i: int) -> bool {
    rec_field(s, i, 0) != 0
}

/// Field `f` of record `i` after one stepper tick: position and velocity
/// fields of a live record are rewritten, everything else is untouched.
pub open spec fn stepped_field(
    s: Seq<i32>,
    i: int,
    f: int,
    width: i32,
    height: i32,
    gravity: i32,
) -> i32 {
    let x = rec_field(s, i, 1);
    let y = rec_field(s, i, 2);
    let dx = rec_field(s, i, 3);
    let dy = rec_field(s, i, 4);
    let size = rec_field(s, i, 5);
    if !rec_live(s, i) {
        rec_field(s, i, f)
    } else if f == 1 {
        new_pos(x, dx, size, width)
    } else if f == 2 {
        new_pos(y, dy, size, height)
    } else if f == 3 {
        reflect_dx(new_pos(x, dx, size, width), size, width, dx)
    } else if f == 4 {
        new_dy(new_pos(y, dy, size, height), size, height, dy, gravity)
    } else {
        rec_field(s, i, f)
    }
}

/// One entity's mutable state during a tick, decoded from a record.
pub struct Block {
    pub x: i32,
    pub y: i32,
    pub dx: i32,
    pub dy: i32,
    pub size: i32,
}

impl Block {
    /// Decode record `i` of the state buffer; `None` when the presence
    /// marker holds the "no entity" sentinel.
    pub fn new(state: &Vec<i32>, i: usize) -> (r: Option<Block>)
        requires
            9 * i + 9 <= state@.len(),
        ensures
            rec_live(state@, i as int) <==> r is Some,
            r matches Some(b) ==> {
                &&& b.x == rec_field(state@, i as int, 1)
                &&& b.y == rec_field(state@, i as int, 2)
                &&& b.dx == rec_field(state@, i as int, 3)
                &&& b.dy == rec_field(state@, i as int, 4)
                &&& b.size == rec_field(state@, i as int, 5)
            },
    {
        let len = state.len();
        assert(9 * i + 9 <= len);
        let base = 9 * i;
        if state[base] == 0 {
            return None;
        }
        Some(
            Block {
                x: state[base + 1],
                y: state[base + 2],
                dx: state[base + 3],
                dy: state[base + 4],
                size: state[base + 5],
            },
        )
    }

    /// Advance this entity one tick: clamp the moved position into the arena,
    /// then derive wall reflection and the vertical rule from the clamped
    /// position.
    pub fn update(&mut self, width: i32, height: i32, gravity: i32)
        ensures
            final (self).x == new_pos(old(self).x, old(self).dx, old(self).size, width),
            final (self).y == new_pos(old(self).y, old(self).dy, old(self).size, height),
            final (self).dx == reflect_dx(final (self).x, old(self).size, width, old(self).dx),
            final (self).dy == new_dy(
                final (self).y,
                old(self).size,
                height,
                old(self).dy,
                gravity,
            ),
            final (self).size == old(self).size,
    {
        let x_bound: i64 = width as i64 - 1 - self.size as i64;
        let y_bound: i64 = height as i64 - 1 - self.size as i64;

        let moved_x: i64 = self.x.wrapping_add(self.dx) as i64;
        let moved_y: i64 = self.y.wrapping_add(self.dy) as i64;

        let min_x: i64 = if moved_x < x_bound {
            moved_x
        } else {
            x_bound
        };
        let min_y: i64 = if moved_y < y_bound {
            moved_y
        } else {
            y_bound
        };

        self.x = (if min_x < 0 {
            0
        } else {
            min_x
        }) as i32;
        self.y = (if min_y < 0 {
            0
        } else {
            min_y
        }) as i32;

        let x_edge: i64 = self.x as i64 + self.size as i64 + 1;

        self.dx = if x_edge == width as i64 || self.x == 0 {
            if self.dx == i32::MIN {
                i32::MIN
            } else {
                -self.dx
            }
        } else {
            self.dx
        };

        let y_edge: i64 = self.y as i64 + self.size as i64 + 1;

        self.dy = if y_edge == height as i64 {
            let magnitude: u64 = if self.dy < 0 {
                (-(self.dy as i64)) as u64
            } else {
                self.dy as u64
            };
            let rebound: u64 = magnitude - magnitude / 2;
            -(rebound as i32)
        } else if self.y == 0 {
            if self.dy == i32::MIN {
                i32::MIN
            } else {
                -self.dy
            }
        } else {
            self.dy.wrapping_add(gravity)
        };
    }

    /// Write this entity's position and velocity back into record `i`; the
    /// presence marker, size and color fields of the record are untouched.
    pub fn apply(&self, state: &mut Vec<i32>, i: usize)
        requires
            9 * i + 9 <= old(state)@.len(),
        ensures
            final (state)@ == old(state)@.update(9 * i + 1, self.x).update(9 * i + 2, self.y).update(
                9 * i + 3,
                self.dx,
            ).update(9 * i + 4, self.dy),
    {
        let len = state.len();
        assert(9 * i + 9 <= len);
        let base = 9 * i;
        state[base + 1] = self.x;
        state[base + 2] = self.y;
        state[base + 3] = self.dx;
        state[base + 4] = self.dy;
    }
}

/// Clamping along one axis: whenever the arena is wider than the entity,
/// the stepped position lies inside the arena.
pub proof fn lemma_step_clamps(p: i32, v: i32, size: i32, extent: i32)
    requires
        0 <= size < extent,
    ensures
        0 <= new_pos(p, v, size, extent) <= extent - 1 - size,
{
}

/// Clamping: after a step, every entity whose size fits the arena lies
/// inside it: `0 <= x <= width - 1 - size` and `0 <= y <= height - 1 - size`.
pub proof fn lemma_step_in_arena(s: Seq<i32>, i: int, width: i32, height: i32, gravity: i32)
    requires
        rec_live(s, i),
        0 <= rec_field(s, i, 5) < width,
        rec_field(s, i, 5) < height,
    ensures
        0 <= stepped_field(s, i, 1, width, height, gravity) <= width - 1 - rec_field(s, i, 5),
        0 <= stepped_field(s, i, 2, width, height, gravity) <= height - 1 - rec_field(s, i, 5),
{
    lemma_step_clamps(rec_field(s, i, 1), rec_field(s, i, 3), rec_field(s, i, 5), width);
    lemma_step_clamps(rec_field(s, i, 2), rec_field(s, i, 4), rec_field(s, i, 5), height);
}

/// Reflection sign: if after a step an entity's x is `0` or its right edge
/// equals the width, the returned horizontal velocity is the exact negation
/// of the incoming one — a positive `dx` flips negative, a negative one
/// flips positive, and zero stays zero. (The one incoming value left out,
/// `i32::MIN`, has no negation in the field's type and wraps to itself.)
pub proof fn lemma_reflection_sign(s: Seq<i32>, i: int, width: i32, height: i32, gravity: i32)
    requires
        rec_live(s, i),
        rec_field(s, i, 3) != i32::MIN,
        stepped_field(s, i, 1, width, height, gravity) == 0 || stepped_field(
            s,
            i,
            1,
            width,
            height,
            gravity,
        ) + rec_field(s, i, 5) + 1 == width,
    ensures
        stepped_field(s, i, 3, width, height, gravity) == -(rec_field(s, i, 3) as int),
{
}

/// Floor dissipation: if after a step an entity's bottom edge equals the
/// height, the returned vertical velocity points upward (or is zero) and
/// never gains magnitude over the incoming one.
pub proof fn lemma_floor_dissipation(s: Seq<i32>, i: int, width: i32, height: i32, gravity: i32)
    requires
        rec_live(s, i),
        stepped_field(s, i, 2, width, height, gravity) + rec_field(s, i, 5) + 1 == height,
    ensures
        stepped_field(s, i, 4, width, height, gravity) <= 0,
        abs_val(stepped_field(s, i, 4, width, height, gravity)) <= abs_val(rec_field(s, i, 4)),
{
}

} // verus!
