use plunkit_server::sandbox::wasm_runtime::{
    hooks_cancel, host_get_block, host_set_block, host_spawn_entity, log_line, HookOutcome,
    RuntimeContext, WasmRuntime, FUEL_PER_TICK, MEMORY_LIMIT, TABLE_LIMIT,
};
use plunkit_server::world::manager::{Entity, World};
use plunkit_server::sandbox::SandboxManager;

#[test]
fn default_limits() {
    let context = RuntimeContext::new("w".to_string());
    assert_eq!(context.world_id, "w");
    assert_eq!(context.memory_limit, 512 * 1024 * 1024);
    assert_eq!(context.cpu_limit, 1_000_000_000);
    assert_eq!(MEMORY_LIMIT, 512 * 1024 * 1024);
    assert_eq!(FUEL_PER_TICK, 1_000_000_000);
    assert_eq!(TABLE_LIMIT, 10_000);
}

#[test]
fn memory_growth_up_to_the_limit() {
    let context = RuntimeContext::new("w".to_string());
    assert!(context.memory_growing(0, 0, None));
    assert!(context.memory_growing(0, MEMORY_LIMIT, None));
    assert!(!context.memory_growing(0, MEMORY_LIMIT + 1, Some(usize::MAX)));
    assert!(context.memory_growing(MEMORY_LIMIT, 1, None));
    let small = RuntimeContext { world_id: "w".to_string(), memory_limit: 10, cpu_limit: 5 };
    assert!(small.memory_growing(0, 10, None));
    assert!(!small.memory_growing(0, 11, None));
}

#[test]
fn table_growth_up_to_ten_thousand() {
    let context = RuntimeContext::new("w".to_string());
    assert!(context.table_growing(0, 10_000, None));
    assert!(!context.table_growing(0, 10_001, None));
    assert!(context.table_growing(9_999, 0, Some(5)));
}

#[test]
fn fuel_is_booked_and_never_exceeds_the_budget() {
    let mut runtime = WasmRuntime::new("w".to_string());
    assert!(!runtime.can_call());
    assert_eq!(runtime.call_function(true, false, 5, 1), HookOutcome::Absent);
    assert_eq!(runtime.get_remaining_fuel(), FUEL_PER_TICK);
    runtime.load_module();
    assert!(runtime.can_call());
    assert_eq!(
        runtime.call_function(true, false, 400, 0),
        HookOutcome::Completed { cancel: false }
    );
    assert_eq!(runtime.get_remaining_fuel(), 400);
    // an engine that reports more fuel than there was is not believed
    assert_eq!(runtime.call_function(true, false, 900, 7), HookOutcome::Completed { cancel: true });
    assert_eq!(runtime.get_remaining_fuel(), 400);
    assert_eq!(runtime.call_function(false, false, 100, 1), HookOutcome::Absent);
    assert_eq!(runtime.get_remaining_fuel(), 400);
    runtime.refuel(FUEL_PER_TICK + 1);
    assert_eq!(runtime.get_remaining_fuel(), FUEL_PER_TICK);
    runtime.refuel(12);
    assert_eq!(runtime.get_remaining_fuel(), 12);
}

#[test]
fn scenario_fuel_exhaustion() {
    let mut runtime = WasmRuntime::new("w".to_string());
    runtime.load_module();
    for _ in 0..2 {
        assert_eq!(runtime.tick(), FUEL_PER_TICK);
        assert_eq!(runtime.get_remaining_fuel(), FUEL_PER_TICK);
        let outcome = runtime.call_function(true, true, 0, 0);
        assert_eq!(outcome, HookOutcome::Aborted);
        assert!(outcome.is_error());
        assert!(!outcome.cancels());
        assert_eq!(runtime.get_remaining_fuel(), 0);
        assert!(runtime.can_call());
    }
    runtime.tick();
    assert_eq!(
        runtime.call_function(true, false, FUEL_PER_TICK - 10, 0),
        HookOutcome::Completed { cancel: false }
    );
}

#[test]
fn hook_answers() {
    assert!(HookOutcome::Completed { cancel: true }.cancels());
    assert!(!HookOutcome::Completed { cancel: false }.cancels());
    assert!(!HookOutcome::Absent.cancels());
    assert!(!HookOutcome::Aborted.cancels());
    assert!(!HookOutcome::Absent.is_error());
    assert!(!hooks_cancel(&[]));
    assert!(!hooks_cancel(&[HookOutcome::Absent, HookOutcome::Aborted]));
    assert!(hooks_cancel(&[
        HookOutcome::Aborted,
        HookOutcome::Completed { cancel: false },
        HookOutcome::Completed { cancel: true },
    ]));
}

#[test]
fn log_line_reads_guest_memory() {
    let memory = b"xxhello\xff".to_vec();
    assert_eq!(log_line(&memory, 2, 5), Some("hello".to_string()));
    assert_eq!(log_line(&memory, 0, 0), Some(String::new()));
    // outside the memory there are no bytes
    assert_eq!(log_line(&memory, 4, 5), Some(String::new()));
    assert_eq!(log_line(&memory, -1, 2), Some(String::new()));
    assert_eq!(log_line(&memory, 2, -1), Some(String::new()));
    assert_eq!(log_line(&memory, i32::MAX, i32::MAX), Some(String::new()));
    // not UTF-8
    assert_eq!(log_line(&memory, 2, 6), None);
    assert_eq!(log_line(&memory, 0, 8), None);
}

#[test]
fn sandbox_manager_registry() {
    let mut manager = SandboxManager::new();
    assert!(manager.get_sandbox("w").is_none());
    manager.create_sandbox("w".to_string());
    manager.create_sandbox("v".to_string());
    assert_eq!(manager.list_sandboxes(), vec!["w".to_string(), "v".to_string()]);
    let runtime = manager.get_sandbox("w").unwrap();
    assert!(runtime.loaded);
    assert_eq!(runtime.fuel, FUEL_PER_TICK);
    assert_eq!(runtime.context.world_id, "w");

    let mut taken = manager.remove_sandbox("w").unwrap();
    taken.call_function(true, true, 0, 0);
    manager.restore_sandbox("w".to_string(), taken);
    assert_eq!(manager.get_sandbox("w").unwrap().fuel, 0);
    assert_eq!(manager.get_sandbox("v").unwrap().fuel, FUEL_PER_TICK);
    manager.tick_all();
    assert_eq!(manager.get_sandbox("w").unwrap().fuel, FUEL_PER_TICK);
    assert!(manager.get_sandbox("w").unwrap().loaded);

    assert!(manager.remove_sandbox("none").is_none());
    assert!(manager.remove_sandbox("v").is_some());
    assert_eq!(manager.list_sandboxes(), vec!["w".to_string()]);
}

#[test]
fn host_capabilities_defer_to_the_world() {
    let mut world = World::new("w".to_string(), "World".to_string());
    assert_eq!(host_get_block(&world, 1, 2, 3), 0);
    assert!(host_set_block(&mut world, 1, 2, 3, 65535));
    assert_eq!(host_get_block(&world, 1, 2, 3), 65535);
    assert_eq!(host_get_block(&world, 1, 0, 3), 7);
    assert!(!host_set_block(&mut world, 1, 2, 3, -1));
    assert!(!host_set_block(&mut world, 1, 2, 3, 65536));
    assert_eq!(host_get_block(&world, 1, 2, 3), 65535);
    assert!(host_set_block(&mut world, 1, 2, 3, 0));
    assert_eq!(host_get_block(&world, 1, 2, 3), 0);

    let bits = |v: f64| v.to_bits();
    assert_eq!(
        host_spawn_entity(&mut world, "cow".to_string(), 9, bits(1.0), bits(2.0), bits(3.0)),
        1
    );
    assert_eq!(
        host_spawn_entity(&mut world, "pig".to_string(), 10, bits(0.0), bits(0.0), bits(0.0)),
        2
    );
    assert_eq!(
        host_spawn_entity(&mut world, "pig".to_string(), 9, bits(0.0), bits(0.0), bits(0.0)),
        0
    );
    assert_eq!(world.ecs.entities.len(), 2);
    let cow = &world.ecs.entities[0];
    assert_eq!(cow.entity_type.tag, "cow");
    assert!(cow.player.is_none());
    assert_eq!(f64::from_bits(cow.position.y), 2.0);
    assert_eq!(f32::from_bits(cow.health.max), 20.0);
    assert_eq!(world.entity_id(Entity { index: 1 }), Some(2));
    assert_eq!(world.entity_id(Entity { index: 2 }), None);
    assert!(world.get_all_players().is_empty());
    assert_eq!(world.get_player_entity(9), None);
    let player = world.spawn_player("alice".to_string(), 11).unwrap();
    assert_eq!(world.entity_id(player), Some(3));
}
