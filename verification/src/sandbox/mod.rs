pub mod wasm_runtime;

use crate::registry::TextMap;
use crate::sandbox::wasm_runtime::WasmRuntime;
use vstd::prelude::*;

verus! {

/// The sandboxes of a server, one for each world that has one, under the
/// world's identifier.
pub struct SandboxManager {
    sandboxes: TextMap<WasmRuntime>,
}

impl SandboxManager {
    /// The sandboxes as a map from world identifiers.
    pub closed spec fn spec_sandboxes(&self) -> TextMap<WasmRuntime> {
        self.sandboxes
    }

    /// No world has two sandboxes, and every sandbox is well-formed.
    pub open spec fn wf(&self) -> bool {
        &&& self.spec_sandboxes().wf()
        &&& forall|i: int|
            0 <= i < self.spec_sandboxes().spec_len() ==> (
            #[trigger] self.spec_sandboxes().spec_entries()[i]).value.wf()
    }

    pub fn new() -> (r: Self)
        ensures
            r.wf(),
            r.spec_sandboxes().spec_len() == 0,
    {
        Self { sandboxes: TextMap::new() }
    }

    /// Gives the world a sandbox with a module loaded and full fuel, in
    /// place of the sandbox that it had if it had one.
    pub fn create_sandbox(&mut self, world_id: String)
        requires
            old(self).wf(),
        ensures
            final(self).wf(),
            final(self).spec_sandboxes().spec_get(world_id@) matches Some(runtime)
                && runtime.spec_fresh(world_id@),
            forall|k: Seq<char>|
                k != world_id@ ==> #[trigger] final(self).spec_sandboxes().spec_get(k) == old(
                    self
                ).spec_sandboxes().spec_get(k),
    {
        let mut runtime = WasmRuntime::new(world_id.clone());
        runtime.load_module();
        self.restore_sandbox(world_id, runtime);
    }

    /// Puts a sandbox under the world's identifier, in place of the sandbox
    /// that it had if it had one; every other world keeps its sandbox.
    pub fn restore_sandbox(&mut self, world_id: String, runtime: WasmRuntime)
        requires
            old(self).wf(),
            runtime.wf(),
        ensures
            final(self).wf(),
            forall|k: Seq<char>|
                #[trigger] final(self).spec_sandboxes().spec_get(k) == if k == world_id@ {
                    Some(runtime)
                } else {
                    old(self).spec_sandboxes().spec_get(k)
                },
    {
        let ghost prev = self.sandboxes;
        self.sandboxes.insert(world_id, runtime);
        proof {
            assert forall|i: int| 0 <= i < self.sandboxes.spec_len() implies (
            #[trigger] self.sandboxes.spec_entries()[i]).value.wf() by {
                let key = self.sandboxes.spec_entries()[i].key@;
                assert(self.sandboxes.spec_at(i, key));
                self.sandboxes.lemma_index_unique(i, key);
                if key != world_id@ {
                    assert(prev.spec_has(key));
                    let j = prev.spec_index(key);
                    assert(prev.spec_at(j, key));
                    prev.lemma_index_unique(j, key);
                    assert(prev.spec_entries()[j].value.wf());
                }
            }
        }
    }

    /// The sandbox of the world, where it has one.
    pub fn get_sandbox(&self, world_id: &str) -> (r: Option<&WasmRuntime>)
        requires
            self.wf(),
        ensures
            match r {
                Some(runtime) => self.spec_sandboxes().spec_get(world_id@) == Some(*runtime)
                    && runtime.wf(),
                None => self.spec_sandboxes().spec_get(world_id@).is_none(),
            },
    {
        match self.sandboxes.find(world_id) {
            Some(i) => {
                proof {
                    self.sandboxes.lemma_index_unique(i as int, world_id@);
                }
                Some(self.sandboxes.value_at(i))
            },
            None => None,
        }
    }

    /// Takes the sandbox of the world away, and with it whatever work of the
    /// world was still to be done in it.
    pub fn remove_sandbox(&mut self, world_id: &str) -> (r: Option<WasmRuntime>)
        requires
            old(self).wf(),
        ensures
            final(self).wf(),
            r == old(self).spec_sandboxes().spec_get(world_id@),
            forall|k: Seq<char>|
                #[trigger] final(self).spec_sandboxes().spec_get(k) == if k == world_id@ {
                    None
                } else {
                    old(self).spec_sandboxes().spec_get(k)
                },
    {
        let ghost prev = self.sandboxes;
        let removed = self.sandboxes.remove(world_id);
        proof {
            assert forall|i: int| 0 <= i < self.sandboxes.spec_len() implies (
            #[trigger] self.sandboxes.spec_entries()[i]).value.wf() by {
                if prev.spec_has(world_id@) {
                    let at = prev.spec_index(world_id@);
                    let j = if i < at { i } else { i + 1 };
                    assert(prev.spec_at(at, world_id@));
                    assert(prev.spec_entries()[j].value.wf());
                } else {
                    assert(prev.spec_entries()[i].value.wf());
                }
            }
        }
        removed
    }

    /// Starts a tick in every sandbox: each has its full budget of fuel
    /// again, and is otherwise what it was.
    pub fn tick_all(&mut self)
        requires
            old(self).wf(),
        ensures
            final(self).wf(),
            final(self).spec_sandboxes().spec_len() == old(self).spec_sandboxes().spec_len(),
            forall|i: int|
                0 <= i < final(self).spec_sandboxes().spec_len() ==> {
                    let now = (#[trigger] final(self).spec_sandboxes().spec_entries()[i]);
                    let was = old(self).spec_sandboxes().spec_entries()[i];
                    &&& now.key == was.key
                    &&& now.value.context == was.value.context
                    &&& now.value.loaded == was.value.loaded
                    &&& now.value.fuel == was.value.context.cpu_limit
                },
    {
        let ghost all = self.sandboxes.spec_entries();
        let mut i: usize = 0;
        while i < self.sandboxes.len()
            invariant
                self.wf(),
                i <= self.sandboxes.spec_len(),
                self.sandboxes.spec_len() == all.len(),
                forall|k: int|
                    0 <= k < all.len() ==> {
                        let now = (#[trigger] self.sandboxes.spec_entries()[k]);
                        &&& now.key == all[k].key
                        &&& now.value.context == all[k].value.context
                        &&& now.value.loaded == all[k].value.loaded
                        &&& now.value.fuel == if k < i {
                            all[k].value.context.cpu_limit
                        } else {
                            all[k].value.fuel
                        }
                    },
            decreases all.len() - i,
        {
            let ghost prev = self.sandboxes.spec_entries();
            let mut entry = self.sandboxes.take_at(i);
            entry.value.tick();
            self.sandboxes.put_back(i, entry);
            proof {
                assert forall|k: int| 0 <= k < all.len() implies {
                    let now = (#[trigger] self.sandboxes.spec_entries()[k]);
                    &&& now.key == all[k].key
                    &&& now.value.context == all[k].value.context
                    &&& now.value.loaded == all[k].value.loaded
                    &&& now.value.wf()
                    &&& now.value.fuel == if k < i + 1 {
                        all[k].value.context.cpu_limit
                    } else {
                        all[k].value.fuel
                    }
                } by {
                    if k != i {
                        assert(self.sandboxes.spec_entries()[k] == prev[k]);
                    }
                }
            }
            i = i + 1;
        }
    }

    /// The identifiers of the worlds that have a sandbox.
    pub fn list_sandboxes(&self) -> (r: Vec<String>)
        ensures
            r@.len() == self.spec_sandboxes().spec_len(),
            forall|i: int|
                0 <= i < r@.len() ==> (#[trigger] r@[i])@
                    == self.spec_sandboxes().spec_entries()[i].key@,
    {
        self.sandboxes.keys()
    }
}

} // verus!
