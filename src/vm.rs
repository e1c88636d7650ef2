use vstd::prelude::*;

use crate::cycle::{cycle_outcome, execute_cycle, store_result};
use crate::error::{Fault, VMError};
use crate::ir::{CoilDecl, Module, SignalDecl, IR};
use crate::store::{name_views, Store};

verus! {

/// The names of a module's declared signals, in order.
pub open spec fn declared_signals(m: Module) -> Seq<Seq<char>> {
    match m.signals {
        Some(v) => v@.map_values(|d: SignalDecl| d.name@),
        None => Seq::empty(),
    }
}

/// The names of a module's declared coils, in order.
pub open spec fn declared_coils(m: Module) -> Seq<Seq<char>> {
    match m.coils {
        Some(v) => v@.map_values(|d: CoilDecl| d.name@),
        None => Seq::empty(),
    }
}

/// The store of a freshly loaded module: every declared signal and coil is
/// `false`, and nothing else has a value.
pub open spec fn initial_store(m: Module) -> Map<Seq<char>, bool> {
    Map::new(
        |k: Seq<char>| declared_signals(m).contains(k) || declared_coils(m).contains(k),
        |k: Seq<char>| false,
    )
}

/// What one step does: the cycle's outcome when the program declares both
/// its rungs and its coils, and otherwise the structural fault, with the
/// store left as it was.
pub open spec fn step_outcome(
    m: Module,
    s: Map<Seq<char>, bool>,
    inputs: Map<Seq<char>, bool>,
) -> (core::result::Result<Map<Seq<char>, bool>, Fault>, Map<Seq<char>, bool>) {
    match m.rungs {
        None => (Err(Fault::Execution("No rungs in program"@)), s),
        Some(rungs) => match m.coils {
            None => (Err(Fault::Execution("No coils in program"@)), s),
            Some(coils) => cycle_outcome(s, inputs, rungs@, coils@, declared_signals(m).to_set()),
        },
    }
}

/// Holds a loaded program and its store, and runs it one cycle at a time.
pub struct VM {
    store: Store,
    program: IR,
    signal_names: Vec<String>,
    coil_names: Vec<String>,
}

impl VM {
    /// The name lists agree with the loaded program.
    pub closed spec fn wf(&self) -> bool {
        &&& self.store.wf()
        &&& name_views(self.signal_names@) == declared_signals(self.program.module)
        &&& name_views(self.coil_names@) == declared_coils(self.program.module)
    }

    /// The current state.
    pub closed spec fn state(&self) -> Map<Seq<char>, bool> {
        self.store@
    }

    /// The loaded program.
    pub closed spec fn program(&self) -> IR {
        self.program
    }

    /// A machine with an empty program and an empty store.
    pub fn new() -> (r: VM)
        ensures
            r.wf(),
            r.state() == Map::<Seq<char>, bool>::empty(),
            r.program().version@ == "0.1.0"@,
            r.program().module.signals is None,
            r.program().module.coils is None,
            r.program().module.rungs is None,
    {
        let r = VM {
            store: Store::new(),
            program: IR {
                version: "0.1.0".to_owned(),
                module: Module {
                    name: String::new(),
                    context: None,
                    intent: None,
                    constraints: None,
                    signals: None,
                    coils: None,
                    rungs: None,
                    blocks: None,
                    networks: None,
                },
            },
            signal_names: Vec::new(),
            coil_names: Vec::new(),
        };
        proof {
            assert(name_views(r.signal_names@) =~= Seq::empty());
            assert(name_views(r.coil_names@) =~= Seq::empty());
        }
        r
    }

    /// Loads a program, discarding the earlier program and all state; every
    /// declared signal and coil starts `false`.
    pub fn load_program(&mut self, ir: IR) -> (r: Result<(), VMError>)
        ensures
            r is Ok,
            final(self).wf(),
            final(self).program() == ir,
            final(self).state() == initial_store(ir.module),
    {
        let mut signal_names: Vec<String> = Vec::new();
        let mut coil_names: Vec<String> = Vec::new();
        let mut store = Store::new();
        match &ir.module.signals {
            Some(signals) => {
                let mut i: usize = 0;
                while i < signals.len()
                    invariant
                        store.wf(),
                        i <= signals.len(),
                        signal_names.len() == i,
                        forall|k: int| 0 <= k < i ==> #[trigger] signal_names@[k]@ == signals@[k].name@,
                        store@ == Map::new(
                            |k: Seq<char>| name_views(signal_names@).contains(k),
                            |k: Seq<char>| false,
                        ),
                    decreases signals.len() - i,
                {
                    let ghost before = name_views(signal_names@);
                    signal_names.push(signals[i].name.clone());
                    store.set(signals[i].name.clone(), false);
                    proof {
                        assert(name_views(signal_names@) =~= before.push(signals@[i as int].name@));
                        before.lemma_push_to_set_commute(signals@[i as int].name@);
                        assert(forall|k: Seq<char>|
                            #[trigger] name_views(signal_names@).contains(k) == (before.contains(k) || k
                                == signals@[i as int].name@)) by {
                            assert(forall|k: Seq<char>|
                                #[trigger] name_views(signal_names@).contains(k) == name_views(
                                    signal_names@,
                                ).to_set().contains(k));
                            assert(forall|k: Seq<char>|
                                #[trigger] before.contains(k) == before.to_set().contains(k));
                        }
                        assert(store@ =~= Map::new(
                            |k: Seq<char>| name_views(signal_names@).contains(k),
                            |k: Seq<char>| false,
                        ));
                    }
                    i = i + 1;
                }
            },
            None => {},
        }
        proof {
            assert(name_views(signal_names@) =~= declared_signals(ir.module));
        }
        match &ir.module.coils {
            Some(coils) => {
                let mut i: usize = 0;
                while i < coils.len()
                    invariant
                        store.wf(),
                        i <= coils.len(),
                        coil_names.len() == i,
                        forall|k: int| 0 <= k < i ==> #[trigger] coil_names@[k]@ == coils@[k].name@,
                        store@ == Map::new(
                            |k: Seq<char>|
                                declared_signals(ir.module).contains(k) || name_views(
                                    coil_names@,
                                ).contains(k),
                            |k: Seq<char>| false,
                        ),
                    decreases coils.len() - i,
                {
                    let ghost before = name_views(coil_names@);
                    coil_names.push(coils[i].name.clone());
                    store.set(coils[i].name.clone(), false);
                    proof {
                        assert(name_views(coil_names@) =~= before.push(coils@[i as int].name@));
                        before.lemma_push_to_set_commute(coils@[i as int].name@);
                        assert(forall|k: Seq<char>|
                            #[trigger] name_views(coil_names@).contains(k) == (before.contains(k) || k
                                == coils@[i as int].name@)) by {
                            assert(forall|k: Seq<char>|
                                #[trigger] name_views(coil_names@).contains(k) == name_views(
                                    coil_names@,
                                ).to_set().contains(k));
                            assert(forall|k: Seq<char>|
                                #[trigger] before.contains(k) == before.to_set().contains(k));
                        }
                        assert(store@ =~= Map::new(
                            |k: Seq<char>|
                                declared_signals(ir.module).contains(k) || name_views(
                                    coil_names@,
                                ).contains(k),
                            |k: Seq<char>| false,
                        ));
                    }
                    i = i + 1;
                }
            },
            None => {},
        }
        proof {
            assert(name_views(coil_names@) =~= declared_coils(ir.module));
            assert(store@ =~= initial_store(ir.module));
        }
        self.store = store;
        self.program = ir;
        self.signal_names = signal_names;
        self.coil_names = coil_names;
        Ok(())
    }

    /// Runs one scan cycle on the loaded program and returns the value of
    /// every declared coil. Fails when the program declares no rung list or
    /// no coil list.
    pub fn step(&mut self, inputs: Store) -> (r: Result<Store, VMError>)
        requires
            old(self).wf(),
            inputs.wf(),
        ensures
            final(self).wf(),
            final(self).program() == old(self).program(),
            r matches Ok(out) ==> out.wf(),
            store_result(r) == step_outcome(old(self).program().module, old(self).state(), inputs@).0,
            final(self).state() == step_outcome(
                old(self).program().module,
                old(self).state(),
                inputs@,
            ).1,
    {
        let rungs = match &self.program.module.rungs {
            Some(rungs) => rungs,
            None => {
                return Err(VMError::Execution("No rungs in program".to_owned()));
            },
        };
        let coils = match &self.program.module.coils {
            Some(coils) => coils,
            None => {
                return Err(VMError::Execution("No coils in program".to_owned()));
            },
        };
        proof {
            name_views(self.signal_names@).to_set();
        }
        execute_cycle(
            &mut self.store,
            &inputs,
            rungs.as_slice(),
            coils.as_slice(),
            self.signal_names.as_slice(),
        )
    }

    /// The stored value of a coil, if it has one.
    pub fn get_coil_state(&self, name: &str) -> (r: Option<bool>)
        requires
            self.wf(),
        ensures
            r == (if self.state().contains_key(name@) {
                Some(self.state()[name@])
            } else {
                None
            }),
    {
        self.store.get(name)
    }

    /// The stored value of a signal, if it has one.
    pub fn get_signal_state(&self, name: &str) -> (r: Option<bool>)
        requires
            self.wf(),
        ensures
            r == (if self.state().contains_key(name@) {
                Some(self.state()[name@])
            } else {
                None
            }),
    {
        self.store.get(name)
    }

    /// The stored values of all declared coils.
    pub fn get_all_coils(&self) -> (r: Store)
        requires
            self.wf(),
        ensures
            r.wf(),
            r@ == self.state().restrict(declared_coils(self.program().module).to_set()),
    {
        self.store.get_coils(self.coil_names.as_slice())
    }
}

impl Default for VM {
    fn default() -> (r: VM)
        ensures
            r.wf(),
            r.state() == Map::<Seq<char>, bool>::empty(),
            r.program().module.rungs is None,
            r.program().module.coils is None,
    {
        VM::new()
    }
}

} // verus!
