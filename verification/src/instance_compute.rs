//! The grid of collectibles: which slots were collected, and the instances
//! that are drawn for a moment in time.
use vstd::prelude::*;
use crate::arith::{lemma_div_mod_of_sum, Vec3};
use crate::banana_instance::{BananaInstance, Rgba, FULL_SCALE};
use crate::height_field::HeightField;
use crate::height_map::HeightMap;
use crate::upload::{spells, words_as_bytes};

verus! {

/// Distance between neighbouring slots.
pub const SLOT_SPACING: i64 = 30_960;

/// How far an instance turns in a millisecond, in microradians.
pub const SPIN_PER_MS: u64 = 1_000;

/// A full turn, in microradians.
pub const FULL_TURN: u64 = 6_283_185;

/// Most slots that a grid may have along an axis.
pub const MAX_SLOTS_PER_AXIS: u64 = 0x1_0000_0000;

/// Linear index of a slot in a grid with `ny` slots per column.
pub open spec fn slot_index(pos: (u32, u32), ny: int) -> int {
    pos.0 * ny + pos.1
}

/// Whether one of the collected slots has the linear index `i`.
pub open spec fn marked(collected: Seq<(u32, u32)>, ny: int, i: int) -> bool {
    exists|k: int| 0 <= k < collected.len() && slot_index(#[trigger] collected[k], ny) == i
}

/// How far an instance has turned at a time in milliseconds.
pub open spec fn spin(time: int) -> int {
    (time * SPIN_PER_MS) % (FULL_TURN as int)
}

/// The state of a grid of `nx` by `ny` slots: the slots collected so far, in
/// the order in which they were collected, and a flag for each slot.
pub struct SlotGrid {
    pub nx: nat,
    pub ny: nat,
    pub collected: Seq<(u32, u32)>,
    pub flags: Seq<u32>,
}

impl SlotGrid {
    /// Whether a slot's linear index is one of the grid's.
    pub open spec fn in_range(self, pos: (u32, u32)) -> bool {
        slot_index(pos, self.ny as int) < self.nx * self.ny
    }

    /// No slot is collected twice, every collected slot is in range, and
    /// the flags are 1 at the collected slots and 0 elsewhere.
    pub open spec fn wf(self) -> bool {
        &&& self.flags.len() == self.nx * self.ny
        &&& self.collected.no_duplicates()
        &&& forall|k: int|
            0 <= k < self.collected.len() ==> self.in_range(#[trigger] self.collected[k])
        &&& forall|i: int|
            0 <= i < self.flags.len() ==> #[trigger] self.flags[i] == if marked(
                self.collected,
                self.ny as int,
                i,
            ) {
                1u32
            } else {
                0u32
            }
    }

    /// The grid after `pos` is collected: the slot joins the collected
    /// slots and its flag is set, unless it is out of range or was
    /// collected before.
    pub open spec fn collect(self, pos: (u32, u32)) -> SlotGrid {
        if self.in_range(pos) && !self.collected.contains(pos) {
            SlotGrid {
                collected: self.collected.push(pos),
                flags: self.flags.update(slot_index(pos, self.ny as int), 1),
                ..self
            }
        } else {
            self
        }
    }

    /// The instance of the slot with linear index `i` at a time: it stands
    /// on the ground at its slot, turned by the time, and is scaled to
    /// nothing if its flag is set.
    pub open spec fn instance(self, i: int, time: int, field: HeightField) -> BananaInstance {
        let x = (i / self.ny as int) * SLOT_SPACING;
        let z = (i % self.ny as int) * SLOT_SPACING;
        BananaInstance {
            position: Vec3 { x: x as i64, y: field.spec_height_at(x, z) as i64, z: z as i64 },
            rotation: spin(time) as i64,
            scale: if self.flags[i] != 0 {
                0
            } else {
                FULL_SCALE
            },
            color: Rgba { r: 255, g: 255, b: 255, a: 0 },
        }
    }

    /// One instance for every slot, in the order of their linear indices.
    pub open spec fn generate(self, time: int, field: HeightField) -> Seq<BananaInstance> {
        Seq::new(self.flags.len(), |i: int| self.instance(i, time, field))
    }

    /// Collecting keeps a grid well formed.
    pub proof fn lemma_collect_wf(self, pos: (u32, u32))
        requires
            self.wf(),
        ensures
            self.collect(pos).wf(),
    {
        let after = self.collect(pos);
        if self.in_range(pos) && !self.collected.contains(pos) {
            let at = slot_index(pos, self.ny as int);
            let last = self.collected.len() as int;
            assert(after.collected[last] == pos);
            assert forall|i: int| 0 <= i < after.flags.len() implies #[trigger] after.flags[i]
                == if marked(after.collected, after.ny as int, i) {
                1u32
            } else {
                0u32
            } by {
                if marked(self.collected, self.ny as int, i) {
                    let k = choose|k: int|
                        0 <= k < self.collected.len() && slot_index(
                            #[trigger] self.collected[k],
                            self.ny as int,
                        ) == i;
                    assert(after.collected[k] == self.collected[k]);
                }
                if i == at {
                    assert(slot_index(after.collected[last], after.ny as int) == i);
                }
                if marked(after.collected, after.ny as int, i) {
                    let k = choose|k: int|
                        0 <= k < after.collected.len() && slot_index(
                            #[trigger] after.collected[k],
                            after.ny as int,
                        ) == i;
                    if k < last {
                        assert(self.collected[k] == after.collected[k]);
                    }
                }
            }
            assert forall|k: int| 0 <= k < after.collected.len() implies after.in_range(
                #[trigger] after.collected[k],
            ) by {
                if k < last {
                    assert(self.collected[k] == after.collected[k]);
                }
            }
        }
    }

    /// Collecting a slot a second time changes nothing: the slot stands
    /// among the collected slots once.
    pub proof fn lemma_collect_idempotent(self, pos: (u32, u32))
        requires
            self.wf(),
        ensures
            self.collect(pos).collect(pos) == self.collect(pos),
            self.collect(pos).collected.no_duplicates(),
            self.in_range(pos) ==> self.collect(pos).collected.contains(pos),
            self.in_range(pos) && self.collected.len() == 0 ==> self.collect(pos).collect(
                pos,
            ).collected == seq![pos],
    {
        self.lemma_collect_wf(pos);
        let once = self.collect(pos);
        if self.in_range(pos) {
            if !self.collected.contains(pos) {
                assert(once.collected[self.collected.len() as int] == pos);
            }
            assert(once.collected.contains(pos));
            if self.collected.len() == 0 {
                assert(once.collected =~= seq![pos]);
            }
        }
    }

    /// After a slot is collected, its instance is scaled to nothing and the
    /// instance of every other slot is what it was, at any one time.
    pub proof fn lemma_collect_degenerates(self, pos: (u32, u32), time: int, field: HeightField)
        requires
            self.wf(),
            self.in_range(pos),
        ensures
            self.collect(pos).generate(time, field).len() == self.generate(time, field).len(),
            0 <= slot_index(pos, self.ny as int) < self.generate(time, field).len(),
            self.collect(pos).generate(time, field)[slot_index(
                pos,
                self.ny as int,
            )].is_degenerate(),
            forall|j: int|
                0 <= j < self.generate(time, field).len() && j != slot_index(pos, self.ny as int)
                    ==> #[trigger] self.collect(pos).generate(time, field)[j] == self.generate(
                    time,
                    field,
                )[j],
    {
        let at = slot_index(pos, self.ny as int);
        assert(0 <= at) by (nonlinear_arith)
            requires
                at == pos.0 * self.ny + pos.1,
        ;
        if self.collected.contains(pos) {
            let k = choose|k: int| 0 <= k < self.collected.len() && self.collected[k] == pos;
            assert(slot_index(self.collected[k], self.ny as int) == at);
            assert(marked(self.collected, self.ny as int, at));
            assert(self.flags[at] == 1);
        }
    }

    /// An instance is scaled to nothing exactly if its slot was collected.
    pub proof fn lemma_degenerate_iff_collected(self, i: int, time: int, field: HeightField)
        requires
            self.wf(),
            0 <= i < self.nx * self.ny,
        ensures
            self.generate(time, field)[i].is_degenerate() <==> marked(
                self.collected,
                self.ny as int,
                i,
            ),
    {
        assert(self.flags[i] == if marked(self.collected, self.ny as int, i) {
            1u32
        } else {
            0u32
        });
    }
}

/// The generator of the collectibles' instances: the size of its grid, the
/// slots collected so far, and the flags that mirror them slot by slot.
pub struct BananaInstances {
    pub collected: Vec<(u32, u32)>,
    pub num_bananas: [usize; 2],
    pub collected_flags: Vec<u32>,
}

impl View for BananaInstances {
    type V = SlotGrid;

    open spec fn view(&self) -> SlotGrid {
        SlotGrid {
            nx: self.num_bananas[0] as nat,
            ny: self.num_bananas[1] as nat,
            collected: self.collected@,
            flags: self.collected_flags@,
        }
    }
}

/// The flags of a grid of `n` slots, `ny` to a column: 1 at the collected
/// slots, 0 elsewhere.
pub fn dense_flags(collected: &Vec<(u32, u32)>, n: usize, ny: usize) -> (flags: Vec<u32>)
    requires
        forall|k: int| 0 <= k < collected.len() ==> slot_index(#[trigger] collected[k], ny as int) < n,
    ensures
        flags.len() == n,
        forall|i: int|
            0 <= i < n ==> #[trigger] flags[i] == if marked(collected@, ny as int, i) {
                1u32
            } else {
                0u32
            },
{
    let mut flags: Vec<u32> = Vec::new();
    let mut i: usize = 0;
    while i < n
        invariant
            i <= n,
            flags.len() == i,
            forall|j: int| 0 <= j < i ==> flags[j] == 0,
        decreases n - i,
    {
        flags.push(0);
        i += 1;
    }
    let mut k: usize = 0;
    while k < collected.len()
        invariant
            k <= collected.len(),
            flags.len() == n,
            forall|k: int|
                0 <= k < collected.len() ==> slot_index(#[trigger] collected[k], ny as int) < n,
            forall|i: int|
                0 <= i < n ==> #[trigger] flags[i] == if marked(
                    collected@.take(k as int),
                    ny as int,
                    i,
                ) {
                    1u32
                } else {
                    0u32
                },
        decreases collected.len() - k,
    {
        let pos = collected[k];
        let at: u128 = pos.0 as u128 * ny as u128 + pos.1 as u128;
        assert(at == slot_index(collected[k as int], ny as int)) by {
            assert(pos.0 * ny <= 0xffff_ffff * 0xffff_ffff_ffff_ffff) by (nonlinear_arith)
                requires
                    0 <= pos.0 <= 0xffff_ffff,
                    0 <= ny <= 0xffff_ffff_ffff_ffff,
            ;
        }
        let ghost before = flags@;
        flags.set(at as usize, 1);
        proof {
            let shorter = collected@.take(k as int);
            let longer = collected@.take(k + 1);
            assert(longer[k as int] == collected[k as int]);
            assert forall|i: int| 0 <= i < n implies #[trigger] flags[i] == if marked(
                longer,
                ny as int,
                i,
            ) {
                1u32
            } else {
                0u32
            } by {
                if marked(shorter, ny as int, i) {
                    let j = choose|j: int|
                        0 <= j < shorter.len() && slot_index(#[trigger] shorter[j], ny as int) == i;
                    assert(longer[j] == shorter[j]);
                }
                if i == at {
                    assert(slot_index(longer[k as int], ny as int) == i);
                }
                if marked(longer, ny as int, i) {
                    let j = choose|j: int|
                        0 <= j < longer.len() && slot_index(#[trigger] longer[j], ny as int) == i;
                    if j < k {
                        assert(shorter[j] == longer[j]);
                    }
                }
                assert(before[i] == if marked(shorter, ny as int, i) {
                    1u32
                } else {
                    0u32
                });
            }
        }
        k += 1;
    }
    assert(collected@.take(collected.len() as int) == collected@);
    flags
}

/// Whether a slot is among the collected slots.
fn holds(collected: &Vec<(u32, u32)>, pos: (u32, u32)) -> (found: bool)
    ensures
        found == collected@.contains(pos),
{
    let mut k: usize = 0;
    while k < collected.len()
        invariant
            k <= collected.len(),
            forall|j: int| 0 <= j < k ==> collected[j] != pos,
        decreases collected.len() - k,
    {
        let slot = collected[k];
        if slot.0 == pos.0 && slot.1 == pos.1 {
            return true;
        }
        k += 1;
    }
    false
}

impl BananaInstances {
    /// The grid is well formed, and no axis has more slots than a slot's
    /// coordinate can name.
    pub open spec fn wf(&self) -> bool {
        &&& self@.wf()
        &&& self.num_bananas[0] <= MAX_SLOTS_PER_AXIS
        &&& self.num_bananas[1] <= MAX_SLOTS_PER_AXIS
    }

    /// A grid of `num_bananas[0]` by `num_bananas[1]` slots, none of them
    /// collected.
    pub fn new(num_bananas: [usize; 2]) -> (grid: BananaInstances)
        requires
            num_bananas[0] * num_bananas[1] <= usize::MAX,
            num_bananas[0] <= MAX_SLOTS_PER_AXIS,
            num_bananas[1] <= MAX_SLOTS_PER_AXIS,
        ensures
            grid.wf(),
            grid.num_bananas == num_bananas,
            grid.collected@ == Seq::<(u32, u32)>::empty(),
            forall|i: int| 0 <= i < grid.collected_flags.len() ==> grid.collected_flags[i] == 0,
    {
        let collected: Vec<(u32, u32)> = Vec::new();
        let n: usize = num_bananas[0] * num_bananas[1];
        let collected_flags = dense_flags(&collected, n, num_bananas[1]);
        BananaInstances { collected, num_bananas, collected_flags }
    }

    /// Whether a slot was collected.
    pub fn is_collected(&self, pos: (u32, u32)) -> (found: bool)
        ensures
            found == self.collected@.contains(pos),
    {
        holds(&self.collected, pos)
    }

    /// Marks a slot as collected. A slot whose linear index is not one of
    /// the grid's, or that was collected before, leaves everything as it is.
    pub fn collect(&mut self, pos: (u32, u32))
        requires
            old(self).wf(),
        ensures
            final(self).wf(),
            final(self)@ == old(self)@.collect(pos),
    {
        let nx: usize = self.num_bananas[0];
        let ny: usize = self.num_bananas[1];
        proof {
            assert(pos.0 * ny <= 0xffff_ffff * 0xffff_ffff_ffff_ffff) by (nonlinear_arith)
                requires
                    0 <= pos.0 <= 0xffff_ffff,
                    0 <= ny <= 0xffff_ffff_ffff_ffff,
            ;
            self@.lemma_collect_wf(pos);
            assert(nx * ny == self@.nx * self@.ny);
            assert(nx * ny == self.collected_flags.len());
        }
        let at: u128 = pos.0 as u128 * ny as u128 + pos.1 as u128;
        let n: usize = nx * ny;
        if at >= n as u128 {
            return ;
        }
        if holds(&self.collected, pos) {
            return ;
        }
        let ghost after = self@.collect(pos);
        self.collected.push(pos);
        self.collected_flags = dense_flags(&self.collected, n, ny);
        assert(self.collected_flags@ =~= after.flags);
    }

    /// The flags as the bytes that are handed to the graphics device.
    pub fn collected_buffer(&self) -> (bytes: Vec<u8>)
        ensures
            spells(bytes@, self.collected_flags@),
    {
        words_as_bytes(self.collected_flags.as_slice())
    }

    /// One instance for every slot at a time in milliseconds, in the order
    /// of the slots' linear indices.
    pub fn create_bananas(&self, time: u64, height_map: &HeightMap) -> (instances: Vec<
        BananaInstance,
    >)
        requires
            self.wf(),
            height_map.wf(),
        ensures
            instances@ == self@.generate(time as int, height_map.field),
    {
        let nx: usize = self.num_bananas[0];
        let ny: usize = self.num_bananas[1];
        let rotation: i64 = ((time as u128 * SPIN_PER_MS as u128) % (FULL_TURN as u128)) as i64;
        let ghost want = self@.generate(time as int, height_map.field);
        let mut instances: Vec<BananaInstance> = Vec::new();
        let mut ix: usize = 0;
        while ix < nx
            invariant
                self.wf(),
                height_map.wf(),
                nx == self.num_bananas[0],
                ny == self.num_bananas[1],
                rotation == spin(time as int),
                want == self@.generate(time as int, height_map.field),
                ix <= nx,
                instances.len() == ix * ny,
                forall|i: int| 0 <= i < instances.len() ==> instances[i] == want[i],
            decreases nx - ix,
        {
            let mut iy: usize = 0;
            while iy < ny
                invariant
                    self.wf(),
                    height_map.wf(),
                    nx == self.num_bananas[0],
                    ny == self.num_bananas[1],
                    rotation == spin(time as int),
                    want == self@.generate(time as int, height_map.field),
                    ix < nx,
                    iy <= ny,
                    instances.len() == ix * ny + iy,
                    forall|i: int| 0 <= i < instances.len() ==> instances[i] == want[i],
                decreases ny - iy,
            {
                proof {
                    assert(ix * ny + iy < nx * ny) by (nonlinear_arith)
                        requires
                            0 <= ix < nx,
                            0 <= iy < ny,
                    ;
                    lemma_div_mod_of_sum(ix as int, ny as int, iy as int);
                }
                let x: i64 = ix as i64 * SLOT_SPACING;
                let z: i64 = iy as i64 * SLOT_SPACING;
                let flag = self.collected_flags[ix * ny + iy];
                let instance = BananaInstance {
                    position: Vec3 { x, y: height_map.get_height_at(x, z), z },
                    rotation,
                    scale: if flag != 0 {
                        0
                    } else {
                        FULL_SCALE
                    },
                    color: Rgba { r: 255, g: 255, b: 255, a: 0 },
                };
                assert(instance == want[ix * ny + iy]);
                instances.push(instance);
                iy += 1;
            }
            proof {
                assert(ix * ny + ny == (ix + 1) * ny) by (nonlinear_arith);
            }
            ix += 1;
        }
        assert(instances@ =~= want);
        instances
    }
}

} // verus!
