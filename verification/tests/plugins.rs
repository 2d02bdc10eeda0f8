use plunkit_server::lua::plugin::{any_cancels, HookValue, Plugin, PluginManager, PluginMetadata};

fn metadata(name: &str) -> PluginMetadata {
    PluginMetadata {
        name: name.to_string(),
        version: "1.0.0".to_string(),
        author: "a".to_string(),
        description: "d".to_string(),
        dependencies: vec!["core".to_string()],
    }
}

#[test]
fn plugin_switches() {
    let mut plugin = Plugin::new(metadata("p"));
    assert!(plugin.enabled);
    assert!(plugin.on_player_join());
    assert!(!plugin.enable());
    assert!(plugin.disable());
    assert!(!plugin.enabled);
    assert!(!plugin.disable());
    assert!(!plugin.on_player_join());
    assert!(plugin.enable());
    assert!(plugin.enabled);
}

#[test]
fn plugin_cancels_only_with_a_true_in_front() {
    let mut plugin = Plugin::new(metadata("p"));
    assert!(plugin.on_player_chat(&[HookValue::Boolean(true)]));
    assert!(plugin.on_block_break(&[HookValue::Boolean(true), HookValue::Nil]));
    assert!(plugin.on_block_place(&[HookValue::Boolean(true)]));
    assert!(!plugin.on_player_chat(&[HookValue::Boolean(false)]));
    assert!(!plugin.on_player_chat(&[]));
    assert!(!plugin.on_block_break(&[HookValue::Nil, HookValue::Boolean(true)]));
    assert!(!plugin.on_block_place(&[HookValue::Integer(1)]));
    assert!(!plugin.on_block_place(&[HookValue::Text("true".to_string())]));
    plugin.disable();
    assert!(!plugin.on_player_chat(&[HookValue::Boolean(true)]));
    assert!(!plugin.on_block_break(&[HookValue::Boolean(true)]));
    assert!(!plugin.on_block_place(&[HookValue::Boolean(true)]));
}

#[test]
fn any_plugin_can_cancel_and_failures_have_no_say() {
    assert!(!any_cancels(&[]));
    assert!(!any_cancels(&[Some(false), None]));
    assert!(any_cancels(&[None, Some(false), Some(true)]));
    assert!(any_cancels(&[Some(true)]));
}

#[test]
fn plugin_manager_registry() {
    let mut manager = PluginManager::new();
    assert!(manager.list_plugins().is_empty());
    manager.load_plugin(metadata("a"));
    manager.load_plugin(metadata("b"));
    let listed = manager.list_plugins();
    assert_eq!(listed.len(), 2);
    assert_eq!(listed[0].name, "a");
    assert_eq!(listed[1].name, "b");
    assert_eq!(listed[1].dependencies, vec!["core".to_string()]);
    assert!(manager.get_plugin("a").unwrap().enabled);
    assert!(manager.get_plugin("c").is_none());

    assert!(!manager.enable_plugin("a"));
    assert!(manager.disable_plugin("a"));
    assert!(!manager.get_plugin("a").unwrap().enabled);
    assert!(manager.get_plugin("b").unwrap().enabled);
    assert!(!manager.disable_plugin("a"));
    assert!(!manager.disable_plugin("missing"));
    assert!(!manager.enable_plugin("missing"));
    assert!(manager.enable_plugin("a"));
    assert_eq!(manager.list_plugins()[0].name, "a");

    let mut again = metadata("a");
    again.version = "2.0.0".to_string();
    manager.disable_plugin("a");
    manager.load_plugin(again);
    assert_eq!(manager.get_plugin("a").unwrap().metadata.version, "2.0.0");
    assert!(manager.get_plugin("a").unwrap().enabled);
    assert_eq!(manager.list_plugins().len(), 2);

    assert!(manager.unload_plugin("a"));
    assert!(!manager.unload_plugin("a"));
    manager.disable_plugin("b");
    assert!(!manager.unload_plugin("b"));
    assert!(manager.list_plugins().is_empty());
    let copy = metadata("z").duplicate();
    assert_eq!(copy.name, "z");
    assert_eq!(copy.dependencies.len(), 1);
}
