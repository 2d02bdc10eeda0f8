use crate::protocol::types::{copy_range, string_from_utf8};
use crate::world::entity::Position;
use crate::world::manager::World;
use vstd::prelude::*;
use vstd::utf8::{decode_utf8, valid_utf8};

verus! {

/// The most bytes that the memory of one instance may grow to: 512 MiB.
pub const MEMORY_LIMIT: usize = 536_870_912;

/// The fuel that an instance gets for one tick.
pub const FUEL_PER_TICK: u64 = 1_000_000_000;

/// The most elements that a table of an instance may grow to.
pub const TABLE_LIMIT: u32 = 10_000;

/// The limits under which the guest code of one world runs.
pub struct RuntimeContext {
    pub world_id: String,
    pub memory_limit: usize,
    pub cpu_limit: u64,
}

impl RuntimeContext {
    pub fn new(world_id: String) -> (r: Self)
        ensures
            r.world_id == world_id,
            r.memory_limit == MEMORY_LIMIT,
            r.cpu_limit == FUEL_PER_TICK,
    {
        Self { world_id, memory_limit: MEMORY_LIMIT, cpu_limit: FUEL_PER_TICK }
    }

    /// Whether the guest's memory may grow to `desired` bytes: it may up to
    /// the limit. A refusal fails the request and leaves the instance alive.
    pub fn memory_growing(&self, current: usize, desired: usize, maximum: Option<usize>) -> (r:
        bool)
        ensures
            r == (desired <= self.memory_limit),
    {
        desired <= self.memory_limit
    }

    /// Whether a table of the guest may grow to `desired` elements: it may up
    /// to 10,000.
    pub fn table_growing(&self, current: u32, desired: u32, maximum: Option<u32>) -> (r: bool)
        ensures
            r == (desired <= TABLE_LIMIT),
    {
        desired <= TABLE_LIMIT
    }
}

/// How a call into the guest ended.
#[derive(Clone, Copy, Debug, PartialEq, Eq, Structural)]
pub enum HookOutcome {
    /// No module is loaded, or the module has no such hook.
    Absent,
    /// The hook ran to its end; `cancel` is what it answered.
    Completed { cancel: bool },
    /// The hook trapped or ran out of fuel: an error for this call alone.
    Aborted,
}

impl HookOutcome {
    /// Whether the core is to leave undone what the hook was asked about:
    /// only where the hook ran to its end and said so.
    pub fn cancels(&self) -> (r: bool)
        ensures
            r == (*self == (HookOutcome::Completed { cancel: true })),
    {
        match self {
            HookOutcome::Completed { cancel } => *cancel,
            _ => false,
        }
    }

    /// Whether the call is an error to be logged.
    pub fn is_error(&self) -> (r: bool)
        ensures
            r == (*self == HookOutcome::Aborted),
    {
        match self {
            HookOutcome::Aborted => true,
            _ => false,
        }
    }
}

/// Whether the core is to leave undone what several hooks were asked about,
/// one after the other: where any of them ran to its end and said so. Hooks
/// that are absent or were aborted have no say.
pub fn hooks_cancel(outcomes: &[HookOutcome]) -> (r: bool)
    ensures
        r == exists|i: int|
            0 <= i < outcomes@.len() && #[trigger] outcomes@[i] == (HookOutcome::Completed {
                cancel: true,
            }),
{
    let mut i: usize = 0;
    while i < outcomes.len()
        invariant
            i <= outcomes@.len(),
            forall|k: int|
                0 <= k < i ==> #[trigger] outcomes@[k] != (HookOutcome::Completed { cancel: true }),
        decreases outcomes@.len() - i,
    {
        if outcomes[i].cancels() {
            return true;
        }
        i = i + 1;
    }
    false
}

/// The books of one sandbox instance: its limits, whether a module is
/// loaded, and the fuel that is left of this tick's budget. The guest code
/// itself runs outside; what it used is reported here.
pub struct WasmRuntime {
    pub context: RuntimeContext,
    pub loaded: bool,
    pub fuel: u64,
}

impl WasmRuntime {
    /// The fuel left never exceeds the budget.
    pub open spec fn wf(&self) -> bool {
        self.fuel <= self.context.cpu_limit
    }

    /// Whether this is an instance of the world `world_id` with the default
    /// limits, a module loaded and full fuel.
    pub open spec fn spec_fresh(&self, world_id: Seq<char>) -> bool {
        &&& self.loaded
        &&& self.fuel == FUEL_PER_TICK
        &&& self.context.world_id@ == world_id
        &&& self.context.memory_limit == MEMORY_LIMIT
        &&& self.context.cpu_limit == FUEL_PER_TICK
    }

    /// An instance for the world with the default limits, full fuel and no
    /// module.
    pub fn new(world_id: String) -> (r: Self)
        ensures
            r.wf(),
            !r.loaded,
            r.fuel == FUEL_PER_TICK,
            r.context.world_id == world_id,
            r.context.memory_limit == MEMORY_LIMIT,
            r.context.cpu_limit == FUEL_PER_TICK,
    {
        Self { context: RuntimeContext::new(world_id), loaded: false, fuel: FUEL_PER_TICK }
    }

    /// Notes that a module has been compiled and instantiated.
    pub fn load_module(&mut self)
        ensures
            final(self).loaded,
            final(self).fuel == old(self).fuel,
            final(self).context == old(self).context,
    {
        self.loaded = true;
    }

    pub fn get_remaining_fuel(&self) -> (r: u64)
        ensures
            r == self.fuel,
    {
        self.fuel
    }

    /// Sets the fuel that is left, at most the budget.
    pub fn refuel(&mut self, fuel: u64)
        ensures
            final(self).wf(),
            final(self).fuel == if fuel <= old(self).context.cpu_limit {
                fuel
            } else {
                old(self).context.cpu_limit
            },
            final(self).loaded == old(self).loaded,
            final(self).context == old(self).context,
    {
        self.fuel = if fuel <= self.context.cpu_limit {
            fuel
        } else {
            self.context.cpu_limit
        };
    }

    /// Starts a tick: the instance gets its full budget of fuel again,
    /// whatever the ticks before it used. Returns the fuel to run with.
    pub fn tick(&mut self) -> (r: u64)
        ensures
            final(self).wf(),
            r == old(self).context.cpu_limit,
            final(self).fuel == old(self).context.cpu_limit,
            final(self).loaded == old(self).loaded,
            final(self).context == old(self).context,
    {
        self.fuel = self.context.cpu_limit;
        self.fuel
    }

    /// Whether a call of a hook is to be made at all: only with a module
    /// loaded.
    pub fn can_call(&self) -> (r: bool)
        ensures
            r == self.loaded,
    {
        self.loaded
    }

    /// Books a call into the guest that has ended with `fuel_left` fuel.
    /// `found` says whether the module has the hook, `trapped` whether the
    /// call trapped or ran out of fuel, `answer` what the hook returned.
    /// The call has used no more than the fuel that was left before it, and
    /// so no more than the budget; the instance stays loaded whatever
    /// happened, and can be called again.
    pub fn call_function(&mut self, found: bool, trapped: bool, fuel_left: u64, answer: i32) -> (r:
        HookOutcome)
        requires
            old(self).wf(),
        ensures
            final(self).wf(),
            final(self).loaded == old(self).loaded,
            final(self).context == old(self).context,
            final(self).fuel <= old(self).fuel,
            old(self).fuel - final(self).fuel <= old(self).context.cpu_limit,
            r == if !old(self).loaded || !found {
                HookOutcome::Absent
            } else if trapped {
                HookOutcome::Aborted
            } else {
                HookOutcome::Completed { cancel: answer != 0 }
            },
            final(self).fuel == if !old(self).loaded || !found {
                old(self).fuel
            } else if fuel_left <= old(self).fuel {
                fuel_left
            } else {
                old(self).fuel
            },
    {
        if !self.loaded || !found {
            return HookOutcome::Absent;
        }
        if fuel_left <= self.fuel {
            self.fuel = fuel_left;
        }
        if trapped {
            HookOutcome::Aborted
        } else {
            HookOutcome::Completed { cancel: answer != 0 }
        }
    }
}

/// The part of the guest's memory that the guest points at with (ptr, len):
/// the bytes from `ptr` up to `ptr + len` where that range lies within the
/// memory, and no bytes where it does not.
pub open spec fn spec_guest_bytes(memory: Seq<u8>, ptr: i32, len: i32) -> Seq<u8> {
    if 0 <= ptr && 0 <= len && ptr + len <= memory.len() {
        memory.subrange(ptr as int, ptr + len)
    } else {
        Seq::empty()
    }
}

/// The line that the guest asks to have logged: the text at (ptr, len) in
/// its memory. There is none where the bytes there are not UTF-8.
pub fn log_line(memory: &[u8], ptr: i32, len: i32) -> (r: Option<String>)
    ensures
        r.is_some() == valid_utf8(spec_guest_bytes(memory@, ptr, len)),
        r matches Some(text) ==> text@ == decode_utf8(spec_guest_bytes(memory@, ptr, len)),
{
    let bytes = if ptr >= 0 && len >= 0 && ptr as u64 + len as u64 <= memory.len() as u64 {
        copy_range(memory, ptr as usize, ptr as usize + len as usize)
    } else {
        Vec::new()
    };
    assert(bytes@ =~= spec_guest_bytes(memory@, ptr, len));
    string_from_utf8(bytes)
}

/// What the guest gets when it asks for the block at (x, y, z): what the
/// world reads there.
pub fn host_get_block(world: &World, x: i32, y: i32, z: i32) -> (id: i32)
    requires
        world.wf(),
    ensures
        id == world.spec_block(x as int, y as int, z as int),
{
    world.get_block(x, y, z) as i32
}

/// What happens when the guest asks to write the block at (x, y, z): the
/// world writes it, where `block_id` is a block identifier at all; a number
/// that is none changes nothing. Returns whether the world was asked.
pub fn host_set_block(world: &mut World, x: i32, y: i32, z: i32, block_id: i32) -> (asked: bool)
    requires
        old(world).wf(),
    ensures
        final(world).wf(),
        asked == (0 <= block_id <= 0xffff),
        !asked ==> *final(world) == *old(world),
        asked ==> final(world).spec_block_written(
            old(world),
            x as int,
            y as int,
            z as int,
            block_id as u16,
        ),
{
    if block_id < 0 || block_id > 0xffff {
        return false;
    }
    world.set_block(x, y, z, block_id as u16);
    true
}

/// What the guest gets when it asks for an entity of the kind `tag` at
/// (x, y, z): the number of the entity that the world adds, or 0 where the
/// world adds none. The coordinates are 64-bit floating-point numbers held
/// as their bit patterns; `uuid` is the identifier that the entity gets.
pub fn host_spawn_entity(world: &mut World, tag: String, uuid: u128, x: u64, y: u64, z: u64) -> (id:
    i32)
    requires
        old(world).wf(),
    ensures
        final(world).wf(),
        final(world).chunks == old(world).chunks,
        id == if old(world).spec_has_uuid(uuid) || old(world).entity_counter == i32::MAX {
            0
        } else {
            old(world).entity_counter
        },
        id == 0 ==> *final(world) == *old(world),
        id != 0 ==> {
            &&& final(world).spec_entities().len() == old(world).spec_entities().len() + 1
            &&& forall|i: int|
                0 <= i < old(world).spec_entities().len() ==> final(world).spec_entities()[i]
                    == old(world).spec_entities()[i]
            &&& World::spec_fresh_entity(
                final(world).spec_entities().last(),
                id,
                tag@,
                uuid,
                Position { x, y, z },
            )
        },
{
    let id = world.entity_counter;
    match world.spawn_entity(tag, uuid, Position::new(x, y, z)) {
        Some(_) => id,
        None => 0,
    }
}

} // verus!
