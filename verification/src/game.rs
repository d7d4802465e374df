//! The player: held keys, touches, the camera that they steer, and what a
//! frame does to the world.
use vstd::prelude::*;
use std::collections::HashMap;
use crate::arith::{clamp, floor_div, Vec3};
use crate::height_map::HeightMap;
use crate::instance_compute::{BananaInstances, SLOT_SPACING};

verus! {

broadcast use vstd::std_specs::hash::group_hash_axioms;

/// Length units to a world unit.
pub const UNITS: i64 = 1_000;

/// Height of the eye above the ground.
pub const EYE_HEIGHT: i64 = 2_000;

/// A collectible nearer than this is collected.
pub const CAPTURE_RADIUS: i64 = 5_000;

/// Walking speed, in length units per millisecond.
pub const WALK_SPEED: i64 = 20;

/// How far the camera turns for a thousandth of a pixel of pointer motion,
/// in microradians.
pub const LOOK_RATE: i64 = 2;

/// The steepest pitch, up or down, in microradians: the largest whole
/// number of them that is not above 0.499 of a half turn.
pub const PITCH_LIMIT: i64 = 1_567_654;

/// The keys that move the player.
#[derive(Clone, Copy, PartialEq, Eq, Structural, Debug)]
pub enum Key {
    KeyW,
    KeyS,
    KeyA,
    KeyD,
    Space,
    ShiftLeft,
}

/// The stages of a touch.
#[derive(Clone, Copy, PartialEq, Eq, Structural, Debug)]
pub enum TouchPhase {
    Started,
    Moved,
    Ended,
    Cancelled,
}

/// A place on the screen, in thousandths of a pixel.
#[derive(Clone, Copy, PartialEq, Eq, Structural, Debug)]
pub struct PhysicalPosition {
    pub x: i32,
    pub y: i32,
}

/// One event of one finger.
#[derive(Clone, Copy, PartialEq, Eq, Structural, Debug)]
pub struct Touch {
    pub id: u64,
    pub phase: TouchPhase,
    pub location: PhysicalPosition,
}

/// The eye, its heading (`ground`) and its pitch (`sky`), both in
/// microradians.
#[derive(Clone, Copy, PartialEq, Eq, Structural, Debug)]
pub struct Camera {
    pub eye: Vec3,
    pub ground: i64,
    pub sky: i64,
}

/// `v` brought into the range of `i64`.
pub fn saturate(v: i128) -> (r: i64)
    ensures
        r == clamp(v as int, i64::MIN as int, i64::MAX as int),
{
    if v < i64::MIN as i128 {
        i64::MIN
    } else if v > i64::MAX as i128 {
        i64::MAX
    } else {
        v as i64
    }
}

impl Camera {
    /// The camera after the pointer moved by `(dx, dy)`: the heading follows
    /// `dx` without bound, the pitch follows `-dy` and stops at the limit.
    pub open spec fn looked(self, dx: int, dy: int) -> Camera {
        Camera {
            eye: self.eye,
            ground: clamp(self.ground + LOOK_RATE * dx, i64::MIN as int, i64::MAX as int) as i64,
            sky: clamp(self.sky - LOOK_RATE * dy, -PITCH_LIMIT as int, PITCH_LIMIT as int) as i64,
        }
    }

    /// Turns the camera by a pointer motion.
    pub fn look(&mut self, dx: i64, dy: i64)
        ensures
            *final(self) == old(self).looked(dx as int, dy as int),
            -PITCH_LIMIT <= final(self).sky <= PITCH_LIMIT,
    {
        let turn: i128 = LOOK_RATE as i128 * dx as i128;
        let tilt: i128 = LOOK_RATE as i128 * dy as i128;
        self.ground = saturate(self.ground as i128 + turn);
        let sky: i128 = self.sky as i128 - tilt;
        self.sky = if sky < -PITCH_LIMIT as i128 {
            -PITCH_LIMIT
        } else if sky > PITCH_LIMIT as i128 {
            PITCH_LIMIT
        } else {
            sky as i64
        };
    }
}

/// The camera after a run of pointer motions.
pub open spec fn looked_all(camera: Camera, motions: Seq<(int, int)>) -> Camera
    decreases motions.len(),
{
    if motions.len() == 0 {
        camera
    } else {
        looked_all(camera, motions.drop_last()).looked(motions.last().0, motions.last().1)
    }
}

/// Whatever pointer motions reach a camera, however large and however many,
/// its pitch ends within the limit, if it began there or there was at least
/// one motion.
pub proof fn lemma_pitch_stays_within_limit(camera: Camera, motions: Seq<(int, int)>)
    requires
        motions.len() > 0 || -PITCH_LIMIT <= camera.sky <= PITCH_LIMIT,
    ensures
        -PITCH_LIMIT <= looked_all(camera, motions).sky <= PITCH_LIMIT,
{
}

/// The index of the first `key` among the keys, or their number.
pub open spec fn first_index(keys: Seq<Key>, key: Key) -> int
    decreases keys.len(),
{
    if keys.len() == 0 {
        0
    } else if keys[0] == key {
        0
    } else {
        1 + first_index(keys.drop_first(), key)
    }
}

/// The held keys after `key` went down: it joins them at the end unless it
/// is held already.
pub open spec fn after_press(keys: Seq<Key>, key: Key) -> Seq<Key> {
    if keys.contains(key) {
        keys
    } else {
        keys.push(key)
    }
}

/// The held keys after `key` went up: its first occurrence leaves.
pub open spec fn after_release(keys: Seq<Key>, key: Key) -> Seq<Key> {
    if keys.contains(key) {
        keys.remove(first_index(keys, key))
    } else {
        keys
    }
}

/// The first index of a key is that of its first occurrence.
pub proof fn lemma_first_index(keys: Seq<Key>, key: Key)
    ensures
        0 <= first_index(keys, key) <= keys.len(),
        first_index(keys, key) < keys.len() ==> keys[first_index(keys, key)] == key,
        forall|j: int| 0 <= j < first_index(keys, key) ==> keys[j] != key,
        keys.contains(key) <==> first_index(keys, key) < keys.len(),
    decreases keys.len(),
{
    if keys.len() > 0 && keys[0] != key {
        let rest = keys.drop_first();
        lemma_first_index(rest, key);
        let at = first_index(rest, key);
        assert forall|j: int| 0 <= j < 1 + at implies keys[j] != key by {
            if j > 0 {
                assert(rest[j - 1] == keys[j]);
            }
        }
        if at < rest.len() {
            assert(rest[at] == keys[at + 1]);
        }
        if keys.contains(key) {
            let i = choose|i: int| 0 <= i < keys.len() && keys[i] == key;
            assert(rest[i - 1] == key);
        }
    }
}

/// Whether `key` is among the keys.
pub fn is_down(keys: &Vec<Key>, key: Key) -> (down: bool)
    ensures
        down == keys@.contains(key),
{
    let mut i: usize = 0;
    while i < keys.len()
        invariant
            i <= keys.len(),
            forall|j: int| 0 <= j < i ==> keys[j] != key,
        decreases keys.len() - i,
    {
        if keys[i] == key {
            return true;
        }
        i += 1;
    }
    false
}

/// How far a frame of `delta` milliseconds carries the player along a
/// direction given in thousandths, rounded down.
pub open spec fn walk_step(direction: int, delta: int) -> int {
    (direction * (WALK_SPEED * delta)) / (UNITS as int)
}

/// The slot coordinate nearest to a world coordinate: the coordinate over
/// the spacing, rounded to the nearest whole number, halves upwards, and
/// kept within what a slot coordinate can be.
pub open spec fn nearest_slot(c: int) -> u32 {
    clamp((c + SLOT_SPACING / 2) / (SLOT_SPACING as int), 0, u32::MAX as int) as u32
}

/// Whether the place `(x, z)` is nearer to a slot than the capture radius.
pub open spec fn within_reach(x: int, z: int, slot: (u32, u32)) -> bool {
    let dx = x - slot.0 * SLOT_SPACING;
    let dz = z - slot.1 * SLOT_SPACING;
    dx * dx + dz * dz < CAPTURE_RADIUS * CAPTURE_RADIUS
}

/// Whether a touch at `x`, in thousandths of a pixel, is on the left half
/// of a screen `width` pixels wide.
pub open spec fn on_left_half(x: int, width: int) -> bool {
    2 * x <= 1000 * width
}

/// The slot coordinate nearest to a world coordinate.
pub fn slot_near(c: i64) -> (slot: u32)
    ensures
        slot == nearest_slot(c as int),
{
    let shifted: i128 = c as i128 + (SLOT_SPACING / 2) as i128;
    let q: i128 = floor_div(shifted, SLOT_SPACING as i128);
    if q < 0 {
        0
    } else if q > u32::MAX as i128 {
        u32::MAX
    } else {
        q as u32
    }
}

/// Whether the place `(x, z)` is nearer to a slot than the capture radius.
pub fn in_reach(x: i64, z: i64, slot: (u32, u32)) -> (near: bool)
    ensures
        near == within_reach(x as int, z as int, slot),
{
    let dx: i128 = x as i128 - slot.0 as i128 * SLOT_SPACING as i128;
    let dz: i128 = z as i128 - slot.1 as i128 * SLOT_SPACING as i128;
    let r: i128 = CAPTURE_RADIUS as i128;
    if dx >= r || dx <= -r || dz >= r || dz <= -r {
        proof {
            assert(dx * dx + dz * dz >= r * r) by (nonlinear_arith)
                requires
                    dx >= r || dx <= -r || dz >= r || dz <= -r,
                    r >= 0,
            ;
        }
        return false;
    }
    proof {
        assert(0 <= dx * dx <= r * r && 0 <= dz * dz <= r * r) by (nonlinear_arith)
            requires
                -r < dx < r,
                -r < dz < r,
        ;
    }
    dx * dx + dz * dz < r * r
}

/// What a frame asks of the display: the number to show, where a
/// collectible was reached in it.
#[derive(Clone, Copy, Debug)]
pub struct FrameReport {
    pub counter: Option<usize>,
}

/// The state of the walk: camera, input and collectibles over a terrain.
pub struct Game {
    pub camera: Camera,
    pub screen_size: [u32; 2],
    pub keys_down: Vec<Key>,
    pub height_map: HeightMap,
    pub touch_positions: HashMap<u64, PhysicalPosition>,
    pub moving_bc_finger: Option<u64>,
    pub banana_instances_gen: BananaInstances,
}

impl Game {
    /// Terrain and grid are well formed, no key is held twice, and the
    /// pitch is within its limit.
    pub open spec fn wf(&self) -> bool {
        &&& self.height_map.wf()
        &&& self.banana_instances_gen.wf()
        &&& self.keys_down@.no_duplicates()
        &&& -PITCH_LIMIT <= self.camera.sky <= PITCH_LIMIT
    }

    /// Where the player starts on a terrain: over the middle of the image,
    /// a fifth of the height multiplier up, looking straight ahead.
    pub open spec fn start(height_map: HeightMap) -> Camera {
        Camera {
            eye: Vec3 {
                x: (height_map.field.width * UNITS / 2) as i64,
                y: (height_map.field.height_multiplier as int / 5) as i64,
                z: (height_map.field.height * UNITS / 2) as i64,
            },
            ground: 0,
            sky: 0,
        }
    }

    /// Net steps forwards in a frame: one if `KeyW` or a finger asks for
    /// it, less one if `KeyS` is held.
    pub open spec fn walking(&self) -> int {
        (if self.keys_down@.contains(Key::KeyW) || self.moving_bc_finger is Some {
            1int
        } else {
            0int
        }) - (if self.keys_down@.contains(Key::KeyS) {
            1int
        } else {
            0int
        })
    }

    /// Net steps to the right in a frame: one if `KeyD` is held, less one
    /// if `KeyA` is held.
    pub open spec fn strafing(&self) -> int {
        (if self.keys_down@.contains(Key::KeyD) {
            1int
        } else {
            0int
        }) - (if self.keys_down@.contains(Key::KeyA) {
            1int
        } else {
            0int
        })
    }

    /// A ground coordinate of the eye after a frame of `delta`
    /// milliseconds, given that coordinate of the eye and of the forward
    /// and right directions.
    pub open spec fn advanced(&self, from: int, forward: int, right: int, delta: int) -> int {
        clamp(
            from + self.walking() * walk_step(forward, delta) + self.strafing() * walk_step(
                right,
                delta,
            ),
            i64::MIN as int,
            i64::MAX as int,
        )
    }

    /// The camera after a frame: the eye has moved over the ground and
    /// stands at eye height above the terrain. `Space` and `ShiftLeft`,
    /// which would raise and lower the eye, so change nothing.
    pub open spec fn walked(&self, forward: Vec3, right: Vec3, delta: int) -> Camera {
        let x = self.advanced(self.camera.eye.x as int, forward.x as int, right.x as int, delta);
        let z = self.advanced(self.camera.eye.z as int, forward.z as int, right.z as int, delta);
        Camera {
            eye: Vec3 {
                x: x as i64,
                y: (self.height_map.field.spec_height_at(x, z) + EYE_HEIGHT) as i64,
                z: z as i64,
            },
            ground: self.camera.ground,
            sky: self.camera.sky,
        }
    }

    /// The slot nearest to a camera.
    pub open spec fn target(camera: Camera) -> (u32, u32) {
        (nearest_slot(camera.eye.x as int), nearest_slot(camera.eye.z as int))
    }

    /// Whether a camera reaches a collectible that is still there.
    pub open spec fn captures(&self, camera: Camera) -> bool {
        &&& !self.banana_instances_gen.collected@.contains(Self::target(camera))
        &&& within_reach(camera.eye.x as int, camera.eye.z as int, Self::target(camera))
    }

    /// The camera after a touch event: a touch that began on the right
    /// half turns it by as much as the finger moved.
    pub open spec fn camera_after(&self, touch: Touch) -> Camera {
        if touch.phase == TouchPhase::Moved && self.touch_positions@.contains_key(touch.id) {
            let last = self.touch_positions@[touch.id];
            self.camera.looked(touch.location.x - last.x, touch.location.y - last.y)
        } else {
            self.camera
        }
    }

    /// The tracked touches after a touch event.
    pub open spec fn positions_after(&self, touch: Touch) -> Map<u64, PhysicalPosition> {
        match touch.phase {
            TouchPhase::Moved => if self.touch_positions@.contains_key(touch.id) {
                self.touch_positions@.insert(touch.id, touch.location)
            } else {
                self.touch_positions@
            },
            TouchPhase::Started => if on_left_half(
                touch.location.x as int,
                self.screen_size[0] as int,
            ) {
                self.touch_positions@
            } else {
                self.touch_positions@.insert(touch.id, touch.location)
            },
            _ => self.touch_positions@.remove(touch.id),
        }
    }

    /// The finger that asks for walking, after a touch event.
    pub open spec fn finger_after(&self, touch: Touch) -> Option<u64> {
        match touch.phase {
            TouchPhase::Moved => self.moving_bc_finger,
            TouchPhase::Started => if on_left_half(
                touch.location.x as int,
                self.screen_size[0] as int,
            ) {
                Some(touch.id)
            } else {
                self.moving_bc_finger
            },
            _ => if self.moving_bc_finger == Some(touch.id) {
                None
            } else {
                self.moving_bc_finger
            },
        }
    }

    /// A walk over a terrain, with a full grid of 100 by 100 collectibles.
    pub fn new(height_map: HeightMap, size: [u32; 2]) -> (game: Game)
        requires
            height_map.wf(),
        ensures
            game.wf(),
            game.height_map == height_map,
            game.camera == Game::start(height_map),
            game.screen_size == size,
            game.keys_down@ == Seq::<Key>::empty(),
            game.touch_positions@ == Map::<u64, PhysicalPosition>::empty(),
            game.moving_bc_finger is None,
            game.banana_instances_gen.num_bananas[0] == 100,
            game.banana_instances_gen.num_bananas[1] == 100,
            game.banana_instances_gen.collected@ == Seq::<(u32, u32)>::empty(),
    {
        let camera = Camera {
            eye: Vec3 {
                x: height_map.field.width as i64 * UNITS / 2,
                y: floor_div(height_map.field.height_multiplier as i128, 5) as i64,
                z: height_map.field.height as i64 * UNITS / 2,
            },
            ground: 0,
            sky: 0,
        };
        let banana_instances_gen = BananaInstances::new([100, 100]);
        Game {
            camera,
            screen_size: size,
            keys_down: Vec::new(),
            height_map,
            touch_positions: HashMap::new(),
            moving_bc_finger: None,
            banana_instances_gen,
        }
    }

    /// Takes the new size of the screen.
    pub fn resize(&mut self, new_size: [u32; 2])
        ensures
            final(self).screen_size == new_size,
            final(self).camera == old(self).camera,
            final(self).keys_down == old(self).keys_down,
            final(self).height_map == old(self).height_map,
            final(self).touch_positions == old(self).touch_positions,
            final(self).moving_bc_finger == old(self).moving_bc_finger,
            final(self).banana_instances_gen == old(self).banana_instances_gen,
    {
        self.screen_size = new_size;
    }

    /// Takes a key going down or up.
    pub fn input_event(&mut self, key: Key, is_pressed: bool)
        requires
            old(self).wf(),
        ensures
            final(self).wf(),
            final(self).keys_down@ == if is_pressed {
                after_press(old(self).keys_down@, key)
            } else {
                after_release(old(self).keys_down@, key)
            },
            final(self).camera == old(self).camera,
            final(self).screen_size == old(self).screen_size,
            final(self).height_map == old(self).height_map,
            final(self).touch_positions == old(self).touch_positions,
            final(self).moving_bc_finger == old(self).moving_bc_finger,
            final(self).banana_instances_gen == old(self).banana_instances_gen,
    {
        let ghost before = self.keys_down@;
        if is_pressed {
            if !is_down(&self.keys_down, key) {
                self.keys_down.push(key);
                assert forall|i: int, j: int|
                    0 <= i < j < self.keys_down.len() implies self.keys_down[i]
                    != self.keys_down[j] by {
                    if j < before.len() {
                        assert(before[i] != before[j]);
                    }
                }
            }
        } else {
            let mut i: usize = 0;
            while i < self.keys_down.len()
                invariant
                    i <= self.keys_down.len(),
                    self.keys_down@ == before,
                    old(self).keys_down@ == before,
                    old(self).wf(),
                    !is_pressed,
                    forall|j: int| 0 <= j < i ==> before[j] != key,
                    *self == (Game { keys_down: self.keys_down, ..*old(self) }),
                decreases self.keys_down.len() - i,
            {
                if self.keys_down[i] == key {
                    self.keys_down.remove(i);
                    proof {
                        lemma_first_index(before, key);
                    }
                    assert(before[i as int] == key);
                    assert(i == first_index(before, key));
                    assert forall|a: int, b: int|
                        0 <= a < b < self.keys_down.len() implies self.keys_down[a]
                        != self.keys_down[b] by {
                        let a0 = if a < i { a } else { a + 1 };
                        let b0 = if b < i { b } else { b + 1 };
                        assert(before[a0] != before[b0]);
                    }
                    return ;
                }
                i += 1;
            }
            proof {
                lemma_first_index(before, key);
            }
        }
    }

    /// Takes a motion of the mouse, in thousandths of a pixel.
    pub fn mouse_motion(&mut self, delta: (i64, i64))
        requires
            old(self).wf(),
        ensures
            final(self).wf(),
            final(self).camera == old(self).camera.looked(delta.0 as int, delta.1 as int),
            final(self).screen_size == old(self).screen_size,
            final(self).keys_down == old(self).keys_down,
            final(self).height_map == old(self).height_map,
            final(self).touch_positions == old(self).touch_positions,
            final(self).moving_bc_finger == old(self).moving_bc_finger,
            final(self).banana_instances_gen == old(self).banana_instances_gen,
    {
        self.camera.look(delta.0, delta.1);
    }

    /// Takes a touch event. A touch that begins on the left half of the
    /// screen asks for walking while it lasts; one that begins on the right
    /// half is tracked, and turns the camera as it moves.
    pub fn touch(&mut self, touch: Touch)
        requires
            old(self).wf(),
        ensures
            final(self).wf(),
            final(self).camera == old(self).camera_after(touch),
            final(self).touch_positions@ == old(self).positions_after(touch),
            final(self).moving_bc_finger == old(self).finger_after(touch),
            final(self).screen_size == old(self).screen_size,
            final(self).keys_down == old(self).keys_down,
            final(self).height_map == old(self).height_map,
            final(self).banana_instances_gen == old(self).banana_instances_gen,
    {
        match touch.phase {
            TouchPhase::Moved => {
                let known: Option<PhysicalPosition> = match self.touch_positions.get(&touch.id) {
                    Some(last) => Some(*last),
                    None => None,
                };
                if let Some(last) = known {
                    let dx: i64 = touch.location.x as i64 - last.x as i64;
                    let dy: i64 = touch.location.y as i64 - last.y as i64;
                    self.camera.look(dx, dy);
                    self.touch_positions.insert(touch.id, touch.location);
                }
            },
            TouchPhase::Started => {
                if 2 * (touch.location.x as i64) <= 1000 * (self.screen_size[0] as i64) {
                    self.moving_bc_finger = Some(touch.id);
                } else {
                    self.touch_positions.insert(touch.id, touch.location);
                }
            },
            TouchPhase::Ended | TouchPhase::Cancelled => {
                self.touch_positions.remove(&touch.id);
                let lifted = match self.moving_bc_finger {
                    Some(id) => id == touch.id,
                    None => false,
                };
                if lifted {
                    self.moving_bc_finger = None;
                }
            },
        }
    }
}

/// How far a frame of `delta` milliseconds carries the player along a
/// direction given in thousandths.
pub fn step_along(direction: i64, delta: u32) -> (step: i128)
    ensures
        step == walk_step(direction as int, delta as int),
        -0x10_0000_0000_0000_0000_0000_0000 <= step <= 0x10_0000_0000_0000_0000_0000_0000,
{
    let pace: i128 = WALK_SPEED as i128 * delta as i128;
    proof {
        assert(-0x8000_0000_0000_0000 * 0x20_0000_0000 <= direction * pace <= 0x8000_0000_0000_0000
            * 0x20_0000_0000) by (nonlinear_arith)
            requires
                -0x8000_0000_0000_0000 <= direction <= 0x8000_0000_0000_0000,
                0 <= pace <= 0x20_0000_0000,
        ;
        assert(0x8000_0000_0000_0000 * 0x20_0000_0000 == 0x10_0000_0000_0000_0000_0000_0000)
            by (nonlinear_arith);
        crate::arith::lemma_div_between(
            direction * pace,
            UNITS as int,
            -0x10_0000_0000_0000_0000_0000_0000,
            0x10_0000_0000_0000_0000_0000_0000,
        );
    }
    floor_div(direction as i128 * pace, UNITS as i128)
}

impl Game {
    /// Net steps forwards in a frame.
    pub fn steps_forward(&self) -> (steps: i8)
        ensures
            steps == self.walking(),
    {
        let ahead: i8 = if is_down(&self.keys_down, Key::KeyW) || self.moving_bc_finger.is_some() {
            1
        } else {
            0
        };
        let back: i8 = if is_down(&self.keys_down, Key::KeyS) {
            1
        } else {
            0
        };
        ahead - back
    }

    /// Net steps to the right in a frame.
    pub fn steps_right(&self) -> (steps: i8)
        ensures
            steps == self.strafing(),
    {
        let right: i8 = if is_down(&self.keys_down, Key::KeyD) {
            1
        } else {
            0
        };
        let left: i8 = if is_down(&self.keys_down, Key::KeyA) {
            1
        } else {
            0
        };
        right - left
    }

    /// A ground coordinate of the eye after a frame.
    fn advance(&self, from: i64, forward: i64, right: i64, delta: u32) -> (to: i64)
        ensures
            to == self.advanced(from as int, forward as int, right as int, delta as int),
    {
        let ahead = step_along(forward, delta);
        let aside = step_along(right, delta);
        let walking = self.steps_forward();
        let strafing = self.steps_right();
        let mut to: i128 = from as i128;
        if walking > 0 {
            to = to + ahead;
        } else if walking < 0 {
            to = to - ahead;
        }
        if strafing > 0 {
            to = to + aside;
        } else if strafing < 0 {
            to = to - aside;
        }
        proof {
            assert(self.walking() * ahead == if walking > 0 {
                ahead as int
            } else if walking < 0 {
                -ahead
            } else {
                0
            }) by (nonlinear_arith)
                requires
                    self.walking() == walking,
                    -1 <= walking <= 1,
            ;
            assert(self.strafing() * aside == if strafing > 0 {
                aside as int
            } else if strafing < 0 {
                -aside
            } else {
                0
            }) by (nonlinear_arith)
                requires
                    self.strafing() == strafing,
                    -1 <= strafing <= 1,
            ;
        }
        saturate(to)
    }

    /// One frame of `delta` milliseconds: the held keys and the walking
    /// finger move the eye along the directions `forward` and `right`, given
    /// in thousandths; the eye is set on the ground; and the nearest
    /// collectible is collected if it is still there and within reach.
    pub fn update(&mut self, forward: Vec3, right: Vec3, delta: u32) -> (report: FrameReport)
        requires
            old(self).wf(),
        ensures
            final(self).wf(),
            final(self).camera == old(self).walked(forward, right, delta as int),
            final(self).banana_instances_gen@ == if old(self).captures(final(self).camera) {
                old(self).banana_instances_gen@.collect(Game::target(final(self).camera))
            } else {
                old(self).banana_instances_gen@
            },
            report.counter == if old(self).captures(final(self).camera) {
                Some(final(self).banana_instances_gen.collected.len())
            } else {
                None
            },
            final(self).screen_size == old(self).screen_size,
            final(self).keys_down == old(self).keys_down,
            final(self).height_map == old(self).height_map,
            final(self).touch_positions == old(self).touch_positions,
            final(self).moving_bc_finger == old(self).moving_bc_finger,
    {
        let x = self.advance(self.camera.eye.x, forward.x, right.x, delta);
        let z = self.advance(self.camera.eye.z, forward.z, right.z, delta);
        let ground = self.height_map.get_height_at(x, z);
        self.camera.eye = Vec3 { x, y: ground + EYE_HEIGHT, z };
        let slot = (slot_near(x), slot_near(z));
        let mut counter: Option<usize> = None;
        if !self.banana_instances_gen.is_collected(slot) {
            if in_reach(x, z, slot) {
                self.banana_instances_gen.collect(slot);
                counter = Some(self.banana_instances_gen.collected.len());
            }
        }
        FrameReport { counter }
    }
}

impl Game {
    /// A collectible that was collected is not reached a second time: once
    /// the slot nearest to a camera has joined the collected slots, the
    /// camera captures nothing, however near it stays.
    pub proof fn lemma_collected_is_not_captured(&self, after: Game, camera: Camera)
        requires
            self.wf(),
            self.banana_instances_gen@.in_range(Game::target(camera)),
            after.banana_instances_gen@ == self.banana_instances_gen@.collect(
                Game::target(camera),
            ),
        ensures
            !after.captures(camera),
    {
        self.banana_instances_gen@.lemma_collect_idempotent(Game::target(camera));
    }
}

} // verus!
