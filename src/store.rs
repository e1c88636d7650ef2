use vstd::prelude::*;

verus! {

/// The names held by a sequence of strings, as character sequences.
pub open spec fn name_views(names: Seq<String>) -> Seq<Seq<char>> {
    names.map_values(|n: String| n@)
}

/// The set of names held by a sequence of strings.
pub open spec fn name_set(names: Seq<String>) -> Set<Seq<char>> {
    name_views(names).to_set()
}

/// The store after the inputs of declared signals have been written into it;
/// every other entry of `inputs` is left out.
pub open spec fn merged(
    store: Map<Seq<char>, bool>,
    inputs: Map<Seq<char>, bool>,
    signals: Set<Seq<char>>,
) -> Map<Seq<char>, bool> {
    store.union_prefer_right(inputs.restrict(signals))
}

proof fn lemma_merge_step(
    base: Map<Seq<char>, bool>,
    inputs: Map<Seq<char>, bool>,
    done: Set<Seq<char>>,
    sigs: Set<Seq<char>>,
    k: Seq<char>,
)
    requires
        inputs.contains_key(k),
    ensures
        sigs.contains(k) ==> base.union_prefer_right(inputs.restrict(done.intersect(sigs))).insert(
            k,
            inputs[k],
        ) == base.union_prefer_right(inputs.restrict(done.insert(k).intersect(sigs))),
        !sigs.contains(k) ==> base.union_prefer_right(inputs.restrict(done.intersect(sigs)))
            == base.union_prefer_right(inputs.restrict(done.insert(k).intersect(sigs))),
{
    assert(done.insert(k).intersect(sigs) =~= if sigs.contains(k) {
        done.intersect(sigs).insert(k)
    } else {
        done.intersect(sigs)
    });
    if sigs.contains(k) {
        assert(base.union_prefer_right(inputs.restrict(done.intersect(sigs))).insert(k, inputs[k])
            =~= base.union_prefer_right(inputs.restrict(done.insert(k).intersect(sigs))));
    }
}

/// Merging writes exactly the inputs of declared signals: a name outside
/// `signals` keeps its entry, or its absence, whatever `inputs` holds for it.
pub proof fn merge_ignores_undeclared(
    store: Map<Seq<char>, bool>,
    inputs: Map<Seq<char>, bool>,
    signals: Set<Seq<char>>,
    k: Seq<char>,
)
    ensures
        !signals.contains(k) ==> merged(store, inputs, signals).contains_key(k)
            == store.contains_key(k),
        !signals.contains(k) && store.contains_key(k) ==> merged(store, inputs, signals)[k]
            == store[k],
        signals.contains(k) && inputs.contains_key(k) ==> merged(store, inputs, signals).contains_key(k)
            && merged(store, inputs, signals)[k] == inputs[k],
{
}

/// Whether `name` is among `names`.
pub fn contains_name(names: &[String], name: &String) -> (r: bool)
    ensures
        r == name_set(names@).contains(name@),
{
    let mut i: usize = 0;
    while i < names.len()
        invariant
            i <= names.len(),
            forall|j: int| 0 <= j < i ==> names@[j]@ != name@,
        decreases names.len() - i,
    {
        if names[i] == *name {
            proof {
                assert(name_views(names@)[i as int] == name@);
            }
            return true;
        }
        i = i + 1;
    }
    proof {
        if name_views(names@).contains(name@) {
            let j = choose|j: int|
                0 <= j < name_views(names@).len() && name_views(names@)[j] == name@;
            assert(names@[j]@ == name@);
        }
    }
    false
}

/// Flat boolean state keyed by name. A name that has no entry is unknown,
/// which is not the same as `false`.
pub struct Store {
    keys: Vec<String>,
    vals: Vec<bool>,
    model: Ghost<Map<Seq<char>, bool>>,
}

impl View for Store {
    type V = Map<Seq<char>, bool>;

    closed spec fn view(&self) -> Map<Seq<char>, bool> {
        self.model@
    }
}

impl Store {
    /// The entries are held once each, in two parallel vectors that agree
    /// with the model.
    pub closed spec fn wf(&self) -> bool {
        &&& self.keys.len() == self.vals.len()
        &&& name_views(self.keys@).no_duplicates()
        &&& self.model@.dom() == name_set(self.keys@)
        &&& forall|i: int|
            0 <= i < self.keys.len() ==> #[trigger] self.model@[self.keys@[i]@] == self.vals@[i]
    }

    proof fn lemma_dom_finite(&self)
        requires
            self.wf(),
        ensures
            self@.dom().finite(),
            self@.len() == self.keys.len(),
    {
        name_views(self.keys@).unique_seq_to_set();
    }

    /// Creates an empty store.
    pub fn new() -> (r: Store)
        ensures
            r.wf(),
            r@ == Map::<Seq<char>, bool>::empty(),
    {
        let r = Store { keys: Vec::new(), vals: Vec::new(), model: Ghost(Map::empty()) };
        proof {
            assert(name_set(r.keys@) =~= Set::empty());
        }
        r
    }

    /// The position of `name` among the keys, if it is held.
    fn find(&self, name: &String) -> (r: Option<usize>)
        requires
            self.wf(),
        ensures
            r.is_none() <==> !self@.contains_key(name@),
            r matches Some(i) ==> i < self.keys.len() && self.keys@[i as int]@ == name@,
    {
        let mut i: usize = 0;
        while i < self.keys.len()
            invariant
                self.wf(),
                i <= self.keys.len(),
                forall|j: int| 0 <= j < i ==> self.keys@[j]@ != name@,
            decreases self.keys.len() - i,
        {
            if self.keys[i] == *name {
                proof {
                    assert(name_views(self.keys@)[i as int] == name@);
                    assert(name_views(self.keys@).contains(name@));
                }
                return Some(i);
            }
            i = i + 1;
        }
        proof {
            if self@.contains_key(name@) {
                assert(name_views(self.keys@).contains(name@));
                let j = choose|j: int|
                    0 <= j < name_views(self.keys@).len() && name_views(self.keys@)[j] == name@;
                assert(self.keys@[j]@ == name@);
            }
        }
        None
    }

    /// The value stored under `name`, or `None` when it has none.
    pub fn get(&self, name: &str) -> (r: Option<bool>)
        requires
            self.wf(),
        ensures
            r == (if self@.contains_key(name@) {
                Some(self@[name@])
            } else {
                None
            }),
    {
        let key = name.to_owned();
        match self.find(&key) {
            Some(i) => Some(self.vals[i]),
            None => None,
        }
    }

    /// Stores `value` under `name`, replacing any earlier value.
    pub fn set(&mut self, name: String, value: bool)
        requires
            old(self).wf(),
        ensures
            final(self).wf(),
            final(self)@ == old(self)@.insert(name@, value),
    {
        match self.find(&name) {
            Some(i) => {
                self.vals.set(i, value);
                self.model = Ghost(self.model@.insert(name@, value));
                proof {
                    let ks = name_views(self.keys@);
                    assert forall|j: int| 0 <= j < self.keys.len() implies #[trigger] self.model@[
                        self.keys@[j]@
                    ] == self.vals@[j] by {
                        if j != i {
                            assert(ks[j] != ks[i as int]);
                        }
                    }
                    assert(self.model@.dom() =~= name_set(self.keys@));
                }
            },
            None => {
                let ghost old_keys = self.keys@;
                proof {
                    assert(!name_views(old_keys).contains(name@));
                }
                self.keys.push(name);
                self.vals.push(value);
                self.model = Ghost(self.model@.insert(self.keys@.last()@, value));
                proof {
                    assert(name_views(self.keys@) =~= name_views(old_keys).push(name@));
                    name_views(old_keys).lemma_push_to_set_commute(name@);
                    assert(self.model@.dom() =~= name_set(self.keys@));
                    assert forall|j: int| 0 <= j < self.keys.len() implies #[trigger] self.model@[
                        self.keys@[j]@
                    ] == self.vals@[j] by {
                        if j < old_keys.len() {
                            assert(name_views(old_keys)[j] == old_keys[j]@);
                            assert(name_views(old_keys).contains(old_keys[j]@));
                        }
                    }
                }
            },
        }
    }

    /// Whether `name` has a stored value.
    pub fn contains(&self, name: &str) -> (r: bool)
        requires
            self.wf(),
        ensures
            r == self@.contains_key(name@),
    {
        let key = name.to_owned();
        self.find(&key).is_some()
    }

    /// The number of names that have a stored value.
    pub fn len(&self) -> (r: usize)
        requires
            self.wf(),
        ensures
            self@.dom().finite(),
            r == self@.len(),
    {
        proof {
            self.lemma_dom_finite();
        }
        self.keys.len()
    }

    /// Writes into the store the value of every entry of `inputs` whose name
    /// is among `signal_names`; the other entries, coil names among them, are
    /// ignored.
    pub fn merge_inputs(&mut self, inputs: &Store, signal_names: &[String])
        requires
            old(self).wf(),
            inputs.wf(),
        ensures
            final(self).wf(),
            final(self)@ == merged(old(self)@, inputs@, name_set(signal_names@)),
    {
        let ghost sigs = name_set(signal_names@);
        let mut i: usize = 0;
        while i < inputs.keys.len()
            invariant
                self.wf(),
                inputs.wf(),
                sigs == name_set(signal_names@),
                i <= inputs.keys.len(),
                self@ == old(self)@.union_prefer_right(
                    inputs@.restrict(name_set(inputs.keys@.take(i as int)).intersect(sigs)),
                ),
            decreases inputs.keys.len() - i,
        {
            let ghost before = self@;
            let ghost done = name_set(inputs.keys@.take(i as int));
            proof {
                assert(inputs.keys@.take(i + 1) =~= inputs.keys@.take(i as int).push(
                    inputs.keys@[i as int],
                ));
                assert(name_views(inputs.keys@.take(i + 1)) =~= name_views(
                    inputs.keys@.take(i as int),
                ).push(inputs.keys@[i as int]@));
                name_views(inputs.keys@.take(i as int)).lemma_push_to_set_commute(
                    inputs.keys@[i as int]@,
                );
                assert(name_views(inputs.keys@).contains(inputs.keys@[i as int]@)) by {
                    assert(name_views(inputs.keys@)[i as int] == inputs.keys@[i as int]@);
                }
                assert(inputs@[inputs.keys@[i as int]@] == inputs.vals@[i as int]);
                assert(name_set(inputs.keys@.take(i + 1)) == done.insert(inputs.keys@[i as int]@));
            }
            if contains_name(signal_names, &inputs.keys[i]) {
                self.set(inputs.keys[i].clone(), inputs.vals[i]);
                proof {
                    lemma_merge_step(
                        old(self)@,
                        inputs@,
                        done,
                        sigs,
                        inputs.keys@[i as int]@,
                    );
                }
            } else {
                proof {
                    lemma_merge_step(
                        old(self)@,
                        inputs@,
                        done,
                        sigs,
                        inputs.keys@[i as int]@,
                    );
                }
            }
            i = i + 1;
        }
        proof {
            assert(inputs.keys@.take(i as int) =~= inputs.keys@);
            assert(inputs@.restrict(name_set(inputs.keys@).intersect(sigs)) =~= inputs@.restrict(
                sigs,
            ));
        }
    }

    /// The entries of the store whose names are among `coil_names`; a name
    /// with no stored value is left out.
    pub fn get_coils(&self, coil_names: &[String]) -> (r: Store)
        requires
            self.wf(),
        ensures
            r.wf(),
            r@ == self@.restrict(name_set(coil_names@)),
    {
        let mut r = Store::new();
        let mut i: usize = 0;
        while i < coil_names.len()
            invariant
                self.wf(),
                r.wf(),
                i <= coil_names.len(),
                r@ == self@.restrict(name_set(coil_names@.take(i as int))),
            decreases coil_names.len() - i,
        {
            proof {
                assert(coil_names@.take(i + 1) =~= coil_names@.take(i as int).push(coil_names@[i as int]));
                assert(name_views(coil_names@.take(i + 1)) =~= name_views(
                    coil_names@.take(i as int),
                ).push(coil_names@[i as int]@));
                name_views(coil_names@.take(i as int)).lemma_push_to_set_commute(
                    coil_names@[i as int]@,
                );
            }
            let name = &coil_names[i];
            match self.get(name.as_str()) {
                Some(v) => {
                    r.set(name.clone(), v);
                },
                None => {},
            }
            proof {
                assert(r@ =~= self@.restrict(name_set(coil_names@.take(i + 1))));
            }
            i = i + 1;
        }
        proof {
            assert(coil_names@.take(i as int) =~= coil_names@);
        }
        r
    }

    /// A copy of the store, with the same entries.
    pub fn clone(&self) -> (r: Store)
        requires
            self.wf(),
        ensures
            r.wf(),
            r@ == self@,
    {
        let r = self.get_coils(self.keys.as_slice());
        proof {
            assert(r@ =~= self@);
        }
        r
    }

    /// The names that have a stored value, each once.
    pub fn names(&self) -> (r: Vec<String>)
        requires
            self.wf(),
        ensures
            name_views(r@).no_duplicates(),
            name_set(r@) == self@.dom(),
    {
        let mut r: Vec<String> = Vec::new();
        let mut i: usize = 0;
        while i < self.keys.len()
            invariant
                self.wf(),
                i <= self.keys.len(),
                r.len() == i,
                forall|k: int| 0 <= k < i ==> #[trigger] r@[k]@ == self.keys@[k]@,
            decreases self.keys.len() - i,
        {
            let k = self.keys[i].clone();
            r.push(k);
            i = i + 1;
        }
        proof {
            assert(name_views(r@) =~= name_views(self.keys@));
        }
        r
    }
}

impl Default for Store {
    fn default() -> (r: Store)
        ensures
            r.wf(),
            r@ == Map::<Seq<char>, bool>::empty(),
    {
        Store::new()
    }
}

} // verus!
