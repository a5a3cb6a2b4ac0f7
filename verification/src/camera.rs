//! The free-flying camera's verifiable state: planar pose, input flags and
//! the hard coupling of its vertical position to the terrain height.
//!
//! The look direction is a unit vector maintained by the caller (rotating it
//! by pointer drags is quaternion arithmetic outside this library); each tick
//! the caller hands its planar components back in fixed point, and `update`
//! applies the flagged movement and then snaps the camera's height to
//! `GROUND_CLEARANCE` above the terrain — a hard reset, not an integration,
//! drawn from the single height function the mesh was built with.

use vstd::prelude::*;

verus! {

use vstd::arithmetic::div_mod::lemma_fundamental_div_mod;
use crate::fixed::SCALE;
use crate::fixed::fdiv;
use crate::fixed::floor_div;
use crate::fixed::lemma_div_of_multiple;
use vstd::arithmetic::div_mod::lemma_div_is_ordered;
use crate::heightmap::NoiseContext;
use crate::heightmap::NoiseError;
use crate::heightmap::Gradient;
use crate::heightmap::height_at;
use crate::heightmap::noise_value;
use crate::heightmap::in_range;
use crate::terrain::Vertex;
use crate::terrain::index_spec;
use crate::terrain::vertex_ok;

/// The distance the camera floats above the terrain, in fixed point: two
/// world units of eye height.
pub const GROUND_CLEARANCE: i64 = 2 * 65536;

/// The planar movement applied per tick to a flagged direction, in fixed
/// point: a tenth of a world unit.
pub const SPEED: i64 = 6554;

/// A bound on the field of view beyond which further zoom requests are
/// ignored, so the accumulator cannot overflow.
pub const FOV_GUARD: i64 = 0x100_0000_0000;

/// A bound on the camera's position coordinates: generous enough for any
/// grid the noise field can cover, small enough that a tick's movement can
/// never overflow.
pub const CAM_LIMIT: i64 = 0x2000_0000_0000;

/// A movement or zoom key the camera reacts to.
#[derive(Clone, Copy, Debug, PartialEq, Eq, Structural)]
pub enum CameraKey {
    Left,
    Right,
    Forward,
    Backward,
    FovUp,
    FovDown,
}

/// A discrete input event, already stripped of its windowing-library shape:
/// key state changes, pointer button and motion, and window resizes.
#[derive(Clone, Copy, Debug, PartialEq, Eq, Structural)]
pub enum CameraEvent {
    Key { key: CameraKey, pressed: bool },
    MouseButton { pressed: bool },
    MouseMoved { x: i32, y: i32 },
    Resized { width: u32, height: u32 },
}

/// The camera pose and input state. Positions and the field of view are
/// fixed-point values; the unit look direction lives with the caller.
pub struct CameraState {
    pub fov: i64,
    pub win_width: u32,
    pub win_height: u32,
    pub pos_x: i64,
    pub pos_y: i64,
    pub pos_z: i64,
    pub mouse_pressed: bool,
    pub mouse_x: i32,
    pub mouse_y: i32,
    pub moving_left: bool,
    pub moving_right: bool,
    pub moving_forward: bool,
    pub moving_backward: bool,
}

/// The camera's coordinates stay within `CAM_LIMIT`, so a tick's arithmetic
/// cannot overflow.
pub open spec fn camera_wf(c: CameraState) -> bool {
    &&& -CAM_LIMIT <= c.pos_x <= CAM_LIMIT
    &&& -CAM_LIMIT <= c.pos_y <= CAM_LIMIT
    &&& -CAM_LIMIT <= c.pos_z <= CAM_LIMIT
}

/// The state after a key event: a movement flag follows the key's pressed
/// state; a zoom key, on press alone, steps the field of view by one unit,
/// saturating at the guard.
pub open spec fn apply_key(c: CameraState, key: CameraKey, pressed: bool) -> CameraState {
    match key {
        CameraKey::Left => CameraState { moving_left: pressed, ..c },
        CameraKey::Right => CameraState { moving_right: pressed, ..c },
        CameraKey::Forward => CameraState { moving_forward: pressed, ..c },
        CameraKey::Backward => CameraState { moving_backward: pressed, ..c },
        CameraKey::FovUp => if pressed && c.fov < FOV_GUARD {
            CameraState { fov: (c.fov + SCALE) as i64, ..c }
        } else {
            c
        },
        CameraKey::FovDown => if pressed && c.fov > -FOV_GUARD {
            CameraState { fov: (c.fov - SCALE) as i64, ..c }
        } else {
            c
        },
    }
}

/// One flagged movement step along a direction component: the component
/// (fixed point, within one unit) scaled by `SPEED`.
pub open spec fn step_delta(component: int) -> int {
    fdiv(component * SPEED, SCALE as int)
}

/// The x coordinate after this tick's flagged movement, for a unit look
/// direction with planar components `(dx, dz)`: strafing moves along the
/// left vector `(dz, -dx)`, walking along the direction itself.
pub open spec fn moved_x(c: CameraState, dx: int, dz: int) -> int {
    c.pos_x + (if c.moving_left {
        step_delta(dz)
    } else {
        0
    }) + (if c.moving_right {
        step_delta(-dz)
    } else {
        0
    }) + (if c.moving_forward {
        step_delta(dx)
    } else {
        0
    }) + (if c.moving_backward {
        step_delta(-dx)
    } else {
        0
    })
}

/// The z coordinate after this tick's flagged movement.
pub open spec fn moved_z(c: CameraState, dx: int, dz: int) -> int {
    c.pos_z + (if c.moving_left {
        step_delta(-dx)
    } else {
        0
    }) + (if c.moving_right {
        step_delta(dx)
    } else {
        0
    }) + (if c.moving_forward {
        step_delta(dz)
    } else {
        0
    }) + (if c.moving_backward {
        step_delta(-dz)
    } else {
        0
    })
}

/// A movement step along a unit-bounded component stays within `SPEED`.
proof fn lemma_step_delta_bound(component: int)
    requires
        -SCALE <= component <= SCALE,
    ensures
        -SPEED <= step_delta(component) <= SPEED,
{
    let s = SCALE as int;
    assert(-(SPEED as int) * s <= component * SPEED <= (SPEED as int) * s)
        by (nonlinear_arith)
        requires
            -s <= component <= s,
    ;
    lemma_div_of_multiple(-(SPEED as int), s);
    lemma_div_of_multiple(SPEED as int, s);
    lemma_div_is_ordered(-(SPEED as int) * s, component * SPEED, s);
    lemma_div_is_ordered(component * SPEED, (SPEED as int) * s, s);
}

impl CameraState {
    /// A fresh camera: five units into the world, eye height above ground
    /// level, at a 45-degree field of view, with no keys held.
    pub fn new(width: u32, height: u32) -> (c: CameraState)
        ensures
            c.fov == 45 * SCALE,
            c.win_width == width,
            c.win_height == height,
            c.pos_x == 5 * SCALE,
            c.pos_y == 5 * SCALE,
            c.pos_z == 5 * SCALE,
            !c.mouse_pressed,
            c.mouse_x == 0,
            c.mouse_y == 0,
            !c.moving_left,
            !c.moving_right,
            !c.moving_forward,
            !c.moving_backward,
            camera_wf(c),
    {
        CameraState {
            fov: 45 * SCALE,
            win_width: width,
            win_height: height,
            pos_x: 5 * SCALE,
            pos_y: 5 * SCALE,
            pos_z: 5 * SCALE,
            mouse_pressed: false,
            mouse_x: 0,
            mouse_y: 0,
            moving_left: false,
            moving_right: false,
            moving_forward: false,
            moving_backward: false,
        }
    }

    /// Fold one input event into the state. A pointer motion while the
    /// button is held yields the drag fractions of the window size, in fixed
    /// point and with the x axis inverted, for the caller to turn into a
    /// rotation of its look direction; every other event yields nothing.
    pub fn process_input(&mut self, event: &CameraEvent) -> (drag: Option<(i64, i64)>)
        ensures
            match *event {
                CameraEvent::Key { key, pressed } => drag is None && *final(self)
                    == apply_key(*old(self), key, pressed),
                CameraEvent::MouseButton { pressed } => drag is None && *final(self)
                    == (CameraState { mouse_pressed: pressed, ..*old(self) }),
                CameraEvent::MouseMoved { x, y } => {
                    &&& *final(self) == (CameraState {
                        mouse_x: x,
                        mouse_y: y,
                        ..*old(self)
                    })
                    &&& (drag matches Some(d) ==> {
                        &&& old(self).mouse_pressed
                        &&& old(self).win_width > 0
                        &&& old(self).win_height > 0
                        &&& d.0 == fdiv(
                            (old(self).mouse_x - x) * SCALE,
                            old(self).win_width as int,
                        )
                        &&& d.1 == fdiv(
                            (y - old(self).mouse_y) * SCALE,
                            old(self).win_height as int,
                        )
                    })
                    &&& (drag is None ==> !(old(self).mouse_pressed
                        && old(self).win_width > 0 && old(self).win_height > 0))
                },
                CameraEvent::Resized { width, height } => drag is None && *final(self)
                    == (CameraState {
                    win_width: width,
                    win_height: height,
                    ..*old(self)
                }),
            },
    {
        match *event {
            CameraEvent::Key { key, pressed } => {
                match key {
                    CameraKey::Left => self.moving_left = pressed,
                    CameraKey::Right => self.moving_right = pressed,
                    CameraKey::Forward => self.moving_forward = pressed,
                    CameraKey::Backward => self.moving_backward = pressed,
                    CameraKey::FovUp => {
                        if pressed && self.fov < FOV_GUARD {
                            self.fov = self.fov + SCALE;
                        }
                    },
                    CameraKey::FovDown => {
                        if pressed && self.fov > -FOV_GUARD {
                            self.fov = self.fov - SCALE;
                        }
                    },
                }
                None
            },
            CameraEvent::MouseButton { pressed } => {
                self.mouse_pressed = pressed;
                None
            },
            CameraEvent::MouseMoved { x, y } => {
                let drag: Option<(i64, i64)> = if self.mouse_pressed
                    && self.win_width > 0 && self.win_height > 0 {
                    let ndx = ((self.mouse_x as i64) - (x as i64)) * SCALE;
                    let ndy = ((y as i64) - (self.mouse_y as i64)) * SCALE;
                    let dx = floor_div(ndx, self.win_width as i64);
                    let dy = floor_div(ndy, self.win_height as i64);
                    Some((dx, dy))
                } else {
                    None
                };
                self.mouse_x = x;
                self.mouse_y = y;
                drag
            },
            CameraEvent::Resized { width, height } => {
                self.win_width = width;
                self.win_height = height;
                None
            },
        }
    }

    /// One tick: apply the flagged planar movement along the caller's unit
    /// look direction, then snap the camera's height to `GROUND_CLEARANCE`
    /// above the terrain at the new planar position — the same height
    /// function the mesh and ground cover were sampled from.
    ///
    /// A move that would leave the noise field is rejected whole and the
    /// camera does not move: clamping or wrapping would desynchronize the
    /// camera from the rendered terrain.
    pub fn update(&mut self, noise: &NoiseContext, dir_x: i64, dir_z: i64) -> (r:
        Result<(), NoiseError>)
        requires
            noise.wf(),
            camera_wf(*old(self)),
            -SCALE <= dir_x <= SCALE,
            -SCALE <= dir_z <= SCALE,
        ensures
            (r matches Ok(u) ==> {
                &&& final(self).pos_x == moved_x(*old(self), dir_x as int, dir_z as int)
                &&& final(self).pos_z == moved_z(*old(self), dir_x as int, dir_z as int)
                &&& in_range(
                    noise.grid().len() as int,
                    final(self).pos_x as int,
                    final(self).pos_z as int,
                )
                &&& final(self).pos_y == GROUND_CLEARANCE + height_at(
                    noise.grid(),
                    final(self).pos_x as int,
                    final(self).pos_z as int,
                )
                &&& camera_wf(*final(self))
                &&& *final(self) == (CameraState {
                    pos_x: final(self).pos_x,
                    pos_y: final(self).pos_y,
                    pos_z: final(self).pos_z,
                    ..*old(self)
                })
            }),
            (r matches Err(e) ==> {
                &&& *final(self) == *old(self)
                &&& e == NoiseError::OutOfRange
                &&& !in_range(
                    noise.grid().len() as int,
                    moved_x(*old(self), dir_x as int, dir_z as int),
                    moved_z(*old(self), dir_x as int, dir_z as int),
                )
            }),
    {
        proof {
            lemma_step_delta_bound(dir_x as int);
            lemma_step_delta_bound(dir_z as int);
            lemma_step_delta_bound(-dir_x as int);
            lemma_step_delta_bound(-dir_z as int);
        }
        let mut nx = self.pos_x;
        let mut nz = self.pos_z;
        if self.moving_left {
            nx = nx + floor_div(dir_z * SPEED, SCALE);
            nz = nz + floor_div(-dir_x * SPEED, SCALE);
        }
        if self.moving_right {
            nx = nx + floor_div(-dir_z * SPEED, SCALE);
            nz = nz + floor_div(dir_x * SPEED, SCALE);
        }
        if self.moving_forward {
            nx = nx + floor_div(dir_x * SPEED, SCALE);
            nz = nz + floor_div(dir_z * SPEED, SCALE);
        }
        if self.moving_backward {
            nx = nx + floor_div(-dir_x * SPEED, SCALE);
            nz = nz + floor_div(-dir_z * SPEED, SCALE);
        }
        match noise.get_height(nx, nz) {
            Ok(h) => {
                proof {
                    lemma_moved_in_range_bounds(
                        noise.grid().len() as int,
                        nx as int,
                        nz as int,
                    );
                }
                self.pos_x = nx;
                self.pos_z = nz;
                self.pos_y = GROUND_CLEARANCE + h;
                Ok(())
            },
            Err(e) => Err(e),
        }
    }
}

/// A point whose containing cell lies within a well-formed grid has
/// coordinates below the grid's extent, so a camera standing on it stays
/// within `CAM_LIMIT`.
proof fn lemma_moved_in_range_bounds(grid_len: int, x: int, z: int)
    requires
        grid_len <= 0x1000_0000,
        in_range(grid_len, x, z),
    ensures
        0 <= x <= CAM_LIMIT,
        0 <= z <= CAM_LIMIT,
{
    let s = SCALE as int;
    lemma_fundamental_div_mod(x, s);
    lemma_fundamental_div_mod(z, s);
    assert(x == s * fdiv(x, s) + x % s);
    assert(fdiv(x, s) <= grid_len - 2);
    assert(s * fdiv(x, s) <= s * (grid_len - 2)) by (nonlinear_arith)
        requires
            fdiv(x, s) <= grid_len - 2,
            s == SCALE as int,
    ;
    assert(s * (grid_len - 2) <= s * 0x1000_0000) by (nonlinear_arith)
        requires
            grid_len <= 0x1000_0000,
            s == SCALE as int,
    ;
    assert(s * fdiv(z, s) <= s * (grid_len - 2)) by (nonlinear_arith)
        requires
            fdiv(z, s) <= grid_len - 2,
            s == SCALE as int,
    ;
    assert(s * (grid_len - 2) <= s * 0x1000_0000) by (nonlinear_arith)
        requires
            grid_len <= 0x1000_0000,
            s == SCALE as int,
    ;
}

/// The single-source height invariant: the mesh vertex elevation at a grid
/// cell, the height sampler's answer there, and the ground level the camera
/// snaps to (its height minus the eye clearance) are all the same value —
/// the noise value of the one field everything was built from.
pub proof fn lemma_height_single_source(
    vs: Seq<Vertex>,
    g: Seq<Seq<Gradient>>,
    cam: CameraState,
    xi: int,
    zi: int,
)
    requires
        vertex_ok(vs, g, xi, zi),
        cam.pos_y == GROUND_CLEARANCE + height_at(g, xi * SCALE, zi * SCALE),
    ensures
        vs[index_spec(xi, zi)].position@[1] == height_at(g, xi * SCALE, zi * SCALE),
        vs[index_spec(xi, zi)].position@[1] == cam.pos_y - GROUND_CLEARANCE,
        vs[index_spec(xi, zi)].position@[1] == noise_value(g, xi * SCALE, zi * SCALE),
{
}

} // verus!
