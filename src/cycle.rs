use vstd::prelude::*;

use crate::error::{Fault, VMError};
use crate::ir::{CoilDecl, RungDecl};
use crate::rung::{
    combine_updates, combined, evaluate_rung, rung_updates, update_views, updates_result,
};
use crate::store::{merged, name_set, Store};

verus! {

/// The proposals of all rungs on one snapshot, appended in rung order; the
/// first fault stops it.
pub open spec fn all_updates(rungs: Seq<RungDecl>, s: Map<Seq<char>, bool>) -> core::result::Result<
    Seq<(Seq<char>, bool)>,
    Fault,
>
    decreases rungs.len(),
{
    if rungs.len() == 0 {
        Ok(Seq::empty())
    } else {
        match all_updates(rungs.drop_last(), s) {
            Err(e) => Err(e),
            Ok(u) => match rung_updates(rungs.last(), s) {
                Err(e) => Err(e),
                Ok(v) => Ok(u + v),
            },
        }
    }
}

/// Whether a coil keeps its value in a cycle that proposes nothing for it.
pub open spec fn is_latching(c: CoilDecl) -> bool {
    c.latching == Some(true)
}

/// The value a coil takes: the combined proposal when there is one; else,
/// for a latching coil, its stored value (`false` when it has none); else
/// `false`.
pub open spec fn coil_output(c: CoilDecl, comb: Map<Seq<char>, bool>, s: Map<Seq<char>, bool>) -> bool {
    if comb.contains_key(c.name@) {
        comb[c.name@]
    } else if is_latching(c) {
        s.contains_key(c.name@) && s[c.name@]
    } else {
        false
    }
}

/// The coil-output policy over the declared coils, in order: the store after
/// it, and the outputs.
pub open spec fn apply_coils(
    coils: Seq<CoilDecl>,
    comb: Map<Seq<char>, bool>,
    s: Map<Seq<char>, bool>,
) -> (Map<Seq<char>, bool>, Map<Seq<char>, bool>)
    decreases coils.len(),
{
    if coils.len() == 0 {
        (s, Map::empty())
    } else {
        let (s1, o1) = apply_coils(coils.drop_last(), comb, s);
        let c = coils.last();
        let v = coil_output(c, comb, s1);
        (s1.insert(c.name@, v), o1.insert(c.name@, v))
    }
}

/// One scan cycle: the coil outputs or the fault, and the store after it.
/// On a fault the store keeps the merged inputs and no coil changes.
pub open spec fn cycle_outcome(
    s: Map<Seq<char>, bool>,
    inputs: Map<Seq<char>, bool>,
    rungs: Seq<RungDecl>,
    coils: Seq<CoilDecl>,
    signals: Set<Seq<char>>,
) -> (core::result::Result<Map<Seq<char>, bool>, Fault>, Map<Seq<char>, bool>) {
    let m = merged(s, inputs, signals);
    match all_updates(rungs, m) {
        Err(e) => (Err(e), m),
        Ok(u) => {
            let (s2, out) = apply_coils(coils, combined(u), m);
            (Ok(out), s2)
        },
    }
}

/// The model of a result that holds a store.
pub open spec fn store_result(r: core::result::Result<Store, VMError>) -> core::result::Result<
    Map<Seq<char>, bool>,
    Fault,
> {
    match r {
        Ok(s) => Ok(s@),
        Err(e) => Err(e@),
    }
}

proof fn lemma_rungs_prefix_err(rungs: Seq<RungDecl>, s: Map<Seq<char>, bool>, n: int)
    requires
        0 <= n <= rungs.len(),
        all_updates(rungs.take(n), s) is Err,
    ensures
        all_updates(rungs, s) == all_updates(rungs.take(n), s),
    decreases rungs.len(),
{
    if n < rungs.len() {
        assert(rungs.drop_last().take(n) =~= rungs.take(n));
        lemma_rungs_prefix_err(rungs.drop_last(), s, n);
    } else {
        assert(rungs.take(n) =~= rungs);
    }
}

proof fn lemma_apply_coils_untouched(
    coils: Seq<CoilDecl>,
    comb: Map<Seq<char>, bool>,
    s: Map<Seq<char>, bool>,
    c: Seq<char>,
)
    requires
        forall|j: int| 0 <= j < coils.len() ==> (#[trigger] coils[j]).name@ != c,
    ensures
        apply_coils(coils, comb, s).0.contains_key(c) == s.contains_key(c),
        s.contains_key(c) ==> apply_coils(coils, comb, s).0[c] == s[c],
        !apply_coils(coils, comb, s).1.contains_key(c),
    decreases coils.len(),
{
    if coils.len() > 0 {
        assert(coils.last() == coils[coils.len() - 1]);
        lemma_apply_coils_untouched(coils.drop_last(), comb, s, c);
    }
}

proof fn lemma_apply_coils_value(
    coils: Seq<CoilDecl>,
    comb: Map<Seq<char>, bool>,
    s: Map<Seq<char>, bool>,
    i: int,
)
    requires
        0 <= i < coils.len(),
        forall|j: int|
            0 <= j < coils.len() && j != i ==> (#[trigger] coils[j]).name@ != coils[i].name@,
    ensures
        apply_coils(coils, comb, s).0.contains_key(coils[i].name@),
        apply_coils(coils, comb, s).1.contains_key(coils[i].name@),
        apply_coils(coils, comb, s).0[coils[i].name@] == coil_output(coils[i], comb, s),
        apply_coils(coils, comb, s).1[coils[i].name@] == coil_output(coils[i], comb, s),
    decreases coils.len(),
{
    let c = coils[i].name@;
    let last = coils.len() - 1;
    assert(coils.last() == coils[last]);
    if i == last {
        assert forall|j: int| 0 <= j < coils.drop_last().len() implies (
        #[trigger] coils.drop_last()[j]).name@ != c by {
            assert(coils.drop_last()[j] == coils[j]);
        }
        lemma_apply_coils_untouched(coils.drop_last(), comb, s, c);
    } else {
        assert(coils.drop_last()[i] == coils[i]);
        assert forall|j: int| 0 <= j < coils.drop_last().len() && j != i implies (
        #[trigger] coils.drop_last()[j]).name@ != c by {
            assert(coils.drop_last()[j] == coils[j]);
        }
        lemma_apply_coils_value(coils.drop_last(), comb, s, i);
        assert(coils[last].name@ != c);
    }
}

/// A coil that no rung proposes anything for in a cycle that succeeds: a
/// non-latching one becomes and outputs `false`, whatever it held before; a
/// latching one keeps and outputs the value it had after the input merge,
/// `false` when it had none.
pub proof fn unproposed_coil_policy(
    s: Map<Seq<char>, bool>,
    inputs: Map<Seq<char>, bool>,
    rungs: Seq<RungDecl>,
    coils: Seq<CoilDecl>,
    signals: Set<Seq<char>>,
    i: int,
)
    requires
        0 <= i < coils.len(),
        forall|j: int|
            0 <= j < coils.len() && j != i ==> (#[trigger] coils[j]).name@ != coils[i].name@,
        all_updates(rungs, merged(s, inputs, signals)) is Ok,
        !combined(all_updates(rungs, merged(s, inputs, signals))->Ok_0).contains_key(
            coils[i].name@,
        ),
    ensures
        ({
            let m = merged(s, inputs, signals);
            let c = coils[i].name@;
            let (out, after) = cycle_outcome(s, inputs, rungs, coils, signals);
            let kept = m.contains_key(c) && m[c];
            &&& out is Ok
            &&& out->Ok_0.contains_key(c)
            &&& after.contains_key(c)
            &&& !is_latching(coils[i]) ==> !out->Ok_0[c] && !after[c]
            &&& is_latching(coils[i]) ==> out->Ok_0[c] == kept && after[c] == kept
        }),
{
    let m = merged(s, inputs, signals);
    let u = all_updates(rungs, m)->Ok_0;
    lemma_apply_coils_value(coils, combined(u), m, i);
}

/// A cycle whose rung evaluation fails writes no coil: the store is left
/// as the input merge made it.
pub proof fn failed_cycle_keeps_coils(
    s: Map<Seq<char>, bool>,
    inputs: Map<Seq<char>, bool>,
    rungs: Seq<RungDecl>,
    coils: Seq<CoilDecl>,
    signals: Set<Seq<char>>,
)
    requires
        all_updates(rungs, merged(s, inputs, signals)) is Err,
    ensures
        cycle_outcome(s, inputs, rungs, coils, signals).0 is Err,
        cycle_outcome(s, inputs, rungs, coils, signals).1 == merged(s, inputs, signals),
{
}

/// Runs one scan cycle: merges the inputs of declared signals, evaluates
/// every rung on that one snapshot, OR-combines the proposals and applies
/// the coil-output policy. Returns the value of every declared coil.
pub fn execute_cycle(
    store: &mut Store,
    inputs: &Store,
    rungs: &[RungDecl],
    coils: &[CoilDecl],
    signal_names: &[String],
) -> (r: Result<Store, VMError>)
    requires
        old(store).wf(),
        inputs.wf(),
    ensures
        final(store).wf(),
        r matches Ok(out) ==> out.wf(),
        store_result(r) == cycle_outcome(
            old(store)@,
            inputs@,
            rungs@,
            coils@,
            name_set(signal_names@),
        ).0,
        final(store)@ == cycle_outcome(
            old(store)@,
            inputs@,
            rungs@,
            coils@,
            name_set(signal_names@),
        ).1,
{
    store.merge_inputs(inputs, signal_names);
    let ghost m = store@;
    let mut all: Vec<(String, bool)> = Vec::new();
    let mut i: usize = 0;
    proof {
        assert(rungs@.take(0) =~= Seq::<RungDecl>::empty());
        assert(update_views(all@) =~= Seq::empty());
    }
    while i < rungs.len()
        invariant
            store.wf(),
            store@ == m,
            m == merged(old(store)@, inputs@, name_set(signal_names@)),
            i <= rungs.len(),
            all_updates(rungs@.take(i as int), m) == Ok::<Seq<(Seq<char>, bool)>, Fault>(
                update_views(all@),
            ),
        decreases rungs.len() - i,
    {
        proof {
            assert(rungs@.take(i + 1).drop_last() =~= rungs@.take(i as int));
            assert(rungs@.take(i + 1).last() == rungs@[i as int]);
        }
        let mut u = match evaluate_rung(&rungs[i], store) {
            Ok(u) => u,
            Err(e) => {
                proof {
                    lemma_rungs_prefix_err(rungs@, m, i + 1);
                }
                return Err(e);
            },
        };
        let ghost before = all@;
        let ghost added = u@;
        all.append(&mut u);
        proof {
            assert(all@ == before + added);
            assert(update_views(all@) =~= update_views(before) + update_views(added));
        }
        i = i + 1;
    }
    proof {
        assert(rungs@.take(i as int) =~= rungs@);
    }
    let comb = combine_updates(all.as_slice());
    let mut out = Store::new();
    let mut j: usize = 0;
    proof {
        assert(coils@.take(0) =~= Seq::<CoilDecl>::empty());
    }
    while j < coils.len()
        invariant
            store.wf(),
            out.wf(),
            comb.wf(),
            j <= coils.len(),
            (store@, out@) == apply_coils(coils@.take(j as int), comb@, m),
        decreases coils.len() - j,
    {
        proof {
            assert(coils@.take(j + 1).drop_last() =~= coils@.take(j as int));
            assert(coils@.take(j + 1).last() == coils@[j as int]);
        }
        let coil = &coils[j];
        let value = match comb.get(coil.name.as_str()) {
            Some(v) => v,
            None => {
                if coil.latching.unwrap_or(false) {
                    store.get(coil.name.as_str()).unwrap_or(false)
                } else {
                    false
                }
            },
        };
        store.set(coil.name.clone(), value);
        out.set(coil.name.clone(), value);
        j = j + 1;
    }
    proof {
        assert(coils@.take(j as int) =~= coils@);
    }
    Ok(out)
}

} // verus!
