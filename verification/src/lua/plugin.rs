use crate::registry::TextMap;
use vstd::prelude::*;

verus! {

/// What a plugin says of itself.
pub struct PluginMetadata {
    pub name: String,
    pub version: String,
    pub author: String,
    pub description: String,
    pub dependencies: Vec<String>,
}

impl PluginMetadata {
    /// Whether `other` says the same.
    pub open spec fn spec_same(&self, other: &PluginMetadata) -> bool {
        &&& self.name@ == other.name@
        &&& self.version@ == other.version@
        &&& self.author@ == other.author@
        &&& self.description@ == other.description@
        &&& self.dependencies@.len() == other.dependencies@.len()
        &&& forall|i: int|
            0 <= i < self.dependencies@.len() ==> (#[trigger] self.dependencies@[i])@
                == other.dependencies@[i]@
    }

    /// A copy of its own.
    pub fn duplicate(&self) -> (r: Self)
        ensures
            r.spec_same(self),
    {
        let mut dependencies: Vec<String> = Vec::new();
        let mut i: usize = 0;
        while i < self.dependencies.len()
            invariant
                i <= self.dependencies@.len(),
                dependencies@.len() == i,
                forall|k: int|
                    0 <= k < i ==> (#[trigger] dependencies@[k])@ == self.dependencies@[k]@,
            decreases self.dependencies@.len() - i,
        {
            dependencies.push(self.dependencies[i].clone());
            i = i + 1;
        }
        Self {
            name: self.name.clone(),
            version: self.version.clone(),
            author: self.author.clone(),
            description: self.description.clone(),
            dependencies,
        }
    }
}

/// A value that a hook hands back.
pub enum HookValue {
    Nil,
    Boolean(bool),
    Integer(i64),
    Text(String),
}

/// Whether what a hook handed back says "cancel": its first value is the
/// boolean true.
pub open spec fn spec_says_cancel(results: Seq<HookValue>) -> bool {
    results.len() > 0 && results[0] == HookValue::Boolean(true)
}

/// A plugin: what it says of itself, and whether it is switched on. Its
/// script runs outside; what the script hands back is judged here.
pub struct Plugin {
    pub metadata: PluginMetadata,
    pub enabled: bool,
}

impl Plugin {
    /// A plugin whose script has been loaded: it is switched on.
    pub fn new(metadata: PluginMetadata) -> (r: Self)
        ensures
            r.metadata == metadata,
            r.enabled,
    {
        Self { metadata, enabled: true }
    }

    /// Switches the plugin on. Returns whether its `on_enable` hook is to be
    /// called: only where it was off.
    pub fn enable(&mut self) -> (call: bool)
        ensures
            call == !old(self).enabled,
            final(self).enabled,
            final(self).metadata == old(self).metadata,
    {
        let call = !self.enabled;
        self.enabled = true;
        call
    }

    /// Switches the plugin off. Returns whether its `on_disable` hook is to
    /// be called: only where it was on.
    pub fn disable(&mut self) -> (call: bool)
        ensures
            call == old(self).enabled,
            !final(self).enabled,
            final(self).metadata == old(self).metadata,
    {
        let call = self.enabled;
        self.enabled = false;
        call
    }

    /// Whether the plugin's hooks are to be called at all: only while it is
    /// switched on.
    pub fn on_player_join(&self) -> (call: bool)
        ensures
            call == self.enabled,
    {
        self.enabled
    }

    /// Whether the plugin cancels what its hook was asked about: where it is
    /// switched on and the hook handed back the boolean true first.
    fn cancels(&self, results: &[HookValue]) -> (r: bool)
        ensures
            r == (self.enabled && spec_says_cancel(results@)),
    {
        if !self.enabled || results.len() == 0 {
            return false;
        }
        match &results[0] {
            HookValue::Boolean(cancelled) => *cancelled,
            _ => false,
        }
    }

    /// Whether the plugin cancels a chat message, given what its hook
    /// handed back.
    pub fn on_player_chat(&self, results: &[HookValue]) -> (r: bool)
        ensures
            r == (self.enabled && spec_says_cancel(results@)),
    {
        self.cancels(results)
    }

    /// Whether the plugin cancels a block break, given what its hook handed
    /// back.
    pub fn on_block_break(&self, results: &[HookValue]) -> (r: bool)
        ensures
            r == (self.enabled && spec_says_cancel(results@)),
    {
        self.cancels(results)
    }

    /// Whether the plugin cancels a block placement, given what its hook
    /// handed back.
    pub fn on_block_place(&self, results: &[HookValue]) -> (r: bool)
        ensures
            r == (self.enabled && spec_says_cancel(results@)),
    {
        self.cancels(results)
    }
}

/// Whether any plugin cancels, given what each of them decided: `Some` with
/// its decision, `None` where its hook failed. A failed hook has no say.
pub fn any_cancels(decisions: &[Option<bool>]) -> (r: bool)
    ensures
        r == exists|i: int| 0 <= i < decisions@.len() && #[trigger] decisions@[i] == Some(true),
{
    let mut i: usize = 0;
    while i < decisions.len()
        invariant
            i <= decisions@.len(),
            forall|k: int| 0 <= k < i ==> #[trigger] decisions@[k] != Some(true),
        decreases decisions@.len() - i,
    {
        match decisions[i] {
            Some(true) => { return true; },
            _ => {},
        }
        i = i + 1;
    }
    false
}

/// The plugins of a server, each under its name.
pub struct PluginManager {
    plugins: TextMap<Plugin>,
}

impl PluginManager {
    /// The plugins as a map from their names.
    pub closed spec fn spec_plugins(&self) -> TextMap<Plugin> {
        self.plugins
    }

    pub open spec fn wf(&self) -> bool {
        self.spec_plugins().wf()
    }

    pub fn new() -> (r: Self)
        ensures
            r.wf(),
            r.spec_plugins().spec_len() == 0,
    {
        Self { plugins: TextMap::new() }
    }

    /// Takes in a plugin whose script has been loaded, under its name and
    /// switched on, in place of the plugin of that name if there was one.
    pub fn load_plugin(&mut self, metadata: PluginMetadata)
        requires
            old(self).wf(),
        ensures
            final(self).wf(),
            forall|k: Seq<char>|
                #[trigger] final(self).spec_plugins().spec_get(k) == if k == metadata.name@ {
                    Some(Plugin { metadata, enabled: true })
                } else {
                    old(self).spec_plugins().spec_get(k)
                },
    {
        let name = metadata.name.clone();
        self.plugins.insert(name, Plugin::new(metadata));
    }

    /// Takes the plugin of the name out. Returns whether its `on_disable`
    /// hook is to be called first: where there was such a plugin and it was
    /// switched on.
    pub fn unload_plugin(&mut self, name: &str) -> (call: bool)
        requires
            old(self).wf(),
        ensures
            final(self).wf(),
            call == (old(self).spec_plugins().spec_get(name@) matches Some(plugin)
                && plugin.enabled),
            forall|k: Seq<char>|
                #[trigger] final(self).spec_plugins().spec_get(k) == if k == name@ {
                    None
                } else {
                    old(self).spec_plugins().spec_get(k)
                },
    {
        match self.plugins.remove(name) {
            Some(plugin) => plugin.enabled,
            None => false,
        }
    }

    /// Switches the plugin of the name on or off; nothing changes where
    /// there is no such plugin. Returns whether the hook that goes with the
    /// switch is to be called: where the switch changed anything.
    pub fn set_enabled(&mut self, name: &str, enabled: bool) -> (call: bool)
        requires
            old(self).wf(),
        ensures
            final(self).wf(),
            final(self).spec_plugins().spec_len() == old(self).spec_plugins().spec_len(),
            call == (old(self).spec_plugins().spec_get(name@) matches Some(plugin)
                && plugin.enabled != enabled),
            forall|k: Seq<char>|
                #[trigger] final(self).spec_plugins().spec_get(k) == if k == name@ {
                    match old(self).spec_plugins().spec_get(k) {
                        Some(plugin) => Some(Plugin { enabled, ..plugin }),
                        None => None,
                    }
                } else {
                    old(self).spec_plugins().spec_get(k)
                },
    {
        let ghost prev = self.plugins;
        let i = match self.plugins.find(name) {
            Some(i) => i,
            None => {
                return false;
            },
        };
        proof {
            prev.lemma_index_unique(i as int, name@);
        }
        let mut entry = self.plugins.take_at(i);
        let call = if enabled {
            entry.value.enable()
        } else {
            entry.value.disable()
        };
        let ghost put = entry;
        self.plugins.put_back(i, entry);
        proof {
            assert(self.plugins.spec_entries() =~= prev.spec_entries().update(i as int, put));
            assert forall|k: Seq<char>| #[trigger]
                self.plugins.spec_get(k) == if k == name@ {
                    match prev.spec_get(k) {
                        Some(plugin) => Some(Plugin { enabled, ..plugin }),
                        None => None,
                    }
                } else {
                    prev.spec_get(k)
                } by {
                if k == name@ {
                    assert(self.plugins.spec_at(i as int, k));
                    self.plugins.lemma_index_unique(i as int, k);
                } else if prev.spec_has(k) {
                    let j = prev.spec_index(k);
                    assert(prev.spec_at(j, k));
                    prev.lemma_index_unique(j, k);
                    assert(self.plugins.spec_at(j, k));
                    self.plugins.lemma_index_unique(j, k);
                } else if self.plugins.spec_has(k) {
                    let j = self.plugins.spec_index(k);
                    assert(self.plugins.spec_at(j, k));
                    assert(prev.spec_at(j, k));
                }
            }
        }
        call
    }

    /// Switches the plugin of the name on; see `set_enabled`.
    pub fn enable_plugin(&mut self, name: &str) -> (call: bool)
        requires
            old(self).wf(),
        ensures
            final(self).wf(),
            call == (old(self).spec_plugins().spec_get(name@) matches Some(plugin)
                && !plugin.enabled),
            final(self).spec_plugins().spec_get(name@) == match old(self).spec_plugins().spec_get(
                name@,
            ) {
                Some(plugin) => Some(Plugin { enabled: true, ..plugin }),
                None => None,
            },
    {
        self.set_enabled(name, true)
    }

    /// Switches the plugin of the name off; see `set_enabled`.
    pub fn disable_plugin(&mut self, name: &str) -> (call: bool)
        requires
            old(self).wf(),
        ensures
            final(self).wf(),
            call == (old(self).spec_plugins().spec_get(name@) matches Some(plugin)
                && plugin.enabled),
            final(self).spec_plugins().spec_get(name@) == match old(self).spec_plugins().spec_get(
                name@,
            ) {
                Some(plugin) => Some(Plugin { enabled: false, ..plugin }),
                None => None,
            },
    {
        self.set_enabled(name, false)
    }

    /// What every plugin says of itself, in the order in which their names
    /// first came.
    pub fn list_plugins(&self) -> (r: Vec<PluginMetadata>)
        ensures
            r@.len() == self.spec_plugins().spec_len(),
            forall|i: int|
                0 <= i < r@.len() ==> (#[trigger] r@[i]).spec_same(
                    &self.spec_plugins().spec_entries()[i].value.metadata,
                ),
    {
        let mut out: Vec<PluginMetadata> = Vec::new();
        let mut i: usize = 0;
        while i < self.plugins.len()
            invariant
                i <= self.spec_plugins().spec_len(),
                out@.len() == i,
                forall|k: int|
                    0 <= k < i ==> (#[trigger] out@[k]).spec_same(
                        &self.spec_plugins().spec_entries()[k].value.metadata,
                    ),
            decreases self.spec_plugins().spec_len() - i,
        {
            out.push(self.plugins.value_at(i).metadata.duplicate());
            i = i + 1;
        }
        out
    }

    /// The plugin of the name, where there is one.
    pub fn get_plugin(&self, name: &str) -> (r: Option<&Plugin>)
        requires
            self.wf(),
        ensures
            match r {
                Some(plugin) => self.spec_plugins().spec_get(name@) == Some(*plugin),
                None => self.spec_plugins().spec_get(name@).is_none(),
            },
    {
        self.plugins.get(name)
    }
}

} // verus!
