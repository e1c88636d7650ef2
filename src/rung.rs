use vstd::prelude::*;

use crate::error::{Fault, VMError};
use crate::ir::{Action, GuardExpr, RungDecl};
use crate::store::Store;

verus! {

/// The value of a guard on a store, or the fault that stops its evaluation.
/// Both operands of `And` and `Or` are read; the left one's fault comes first.
pub open spec fn guard_value(g: GuardExpr, s: Map<Seq<char>, bool>) -> core::result::Result<
    bool,
    Fault,
>
    decreases g,
{
    match g {
        GuardExpr::Contact { name, contact_type, .. } => {
            if !s.contains_key(name@) {
                Err(Fault::NotFound(name@))
            } else if contact_type@ == "NO"@ {
                Ok(s[name@])
            } else if contact_type@ == "NC"@ {
                Ok(!s[name@])
            } else {
                Err(Fault::InvalidGuard(contact_type@))
            }
        },
        GuardExpr::And { left, right } => match guard_value(*left, s) {
            Err(e) => Err(e),
            Ok(a) => match guard_value(*right, s) {
                Err(e) => Err(e),
                Ok(b) => Ok(a && b),
            },
        },
        GuardExpr::Or { left, right } => match guard_value(*left, s) {
            Err(e) => Err(e),
            Ok(a) => match guard_value(*right, s) {
                Err(e) => Err(e),
                Ok(b) => Ok(a || b),
            },
        },
        GuardExpr::Not { expr } => match guard_value(*expr, s) {
            Err(e) => Err(e),
            Ok(a) => Ok(!a),
        },
    }
}

/// The model of a boolean result.
pub open spec fn bool_result(r: core::result::Result<bool, VMError>) -> core::result::Result<
    bool,
    Fault,
> {
    match r {
        Ok(b) => Ok(b),
        Err(e) => Err(e@),
    }
}

/// Update proposals as (coil name, value) pairs over characters.
pub open spec fn update_views(u: Seq<(String, bool)>) -> Seq<(Seq<char>, bool)> {
    u.map_values(|p: (String, bool)| (p.0@, p.1))
}

/// The model of a list of update proposals, or of the error instead.
pub open spec fn updates_result(
    r: core::result::Result<Vec<(String, bool)>, VMError>,
) -> core::result::Result<Seq<(Seq<char>, bool)>, Fault> {
    match r {
        Ok(u) => Ok(update_views(u@)),
        Err(e) => Err(e@),
    }
}

/// The proposal one action makes when its rung's guard holds.
pub open spec fn action_update(a: Action) -> core::result::Result<(Seq<char>, bool), Fault> {
    if a.action_type@ == "energise"@ {
        Ok((a.coil@, true))
    } else if a.action_type@ == "de_energise"@ {
        Ok((a.coil@, false))
    } else {
        Err(Fault::InvalidGuard(a.action_type@))
    }
}

/// The proposals of a list of actions, in order; the first unrecognised
/// action kind stops it.
pub open spec fn actions_updates(acts: Seq<Action>) -> core::result::Result<
    Seq<(Seq<char>, bool)>,
    Fault,
>
    decreases acts.len(),
{
    if acts.len() == 0 {
        Ok(Seq::empty())
    } else {
        match actions_updates(acts.drop_last()) {
            Err(e) => Err(e),
            Ok(u) => match action_update(acts.last()) {
                Err(e) => Err(e),
                Ok(p) => Ok(u.push(p)),
            },
        }
    }
}

/// The proposals of one rung on a store: none when its guard is false, one
/// per action when it is true.
pub open spec fn rung_updates(r: RungDecl, s: Map<Seq<char>, bool>) -> core::result::Result<
    Seq<(Seq<char>, bool)>,
    Fault,
> {
    match guard_value(r.guard, s) {
        Err(e) => Err(e),
        Ok(true) => actions_updates(r.actions@),
        Ok(false) => Ok(Seq::empty()),
    }
}

/// The OR-combination of proposals: a coil has an entry when some proposal
/// names it, and that entry is `true` when some proposal for it is `true`.
pub open spec fn combined(u: Seq<(Seq<char>, bool)>) -> Map<Seq<char>, bool> {
    Map::new(
        |c: Seq<char>| exists|i: int| 0 <= i < u.len() && (#[trigger] u[i]).0 == c,
        |c: Seq<char>| exists|i: int| 0 <= i < u.len() && #[trigger] u[i] == (c, true),
    )
}

/// Evaluates a guard against a store.
pub fn evaluate_guard(guard: &GuardExpr, store: &Store) -> (r: Result<bool, VMError>)
    requires
        store.wf(),
    ensures
        bool_result(r) == guard_value(*guard, store@),
    decreases guard,
{
    match guard {
        GuardExpr::Contact { name, contact_type, .. } => {
            let value = match store.get(name.as_str()) {
                Some(v) => v,
                None => {
                    return Err(VMError::NotFound(name.clone()));
                },
            };
            let no = "NO".to_owned();
            let nc = "NC".to_owned();
            if *contact_type == no {
                Ok(value)
            } else if *contact_type == nc {
                Ok(!value)
            } else {
                Err(VMError::InvalidGuard(contact_type.clone()))
            }
        },
        GuardExpr::And { left, right } => {
            let a = evaluate_guard(left, store)?;
            let b = evaluate_guard(right, store)?;
            Ok(a && b)
        },
        GuardExpr::Or { left, right } => {
            let a = evaluate_guard(left, store)?;
            let b = evaluate_guard(right, store)?;
            Ok(a || b)
        },
        GuardExpr::Not { expr } => {
            let a = evaluate_guard(expr, store)?;
            Ok(!a)
        },
    }
}

proof fn lemma_actions_prefix_err(acts: Seq<Action>, n: int)
    requires
        0 <= n <= acts.len(),
        actions_updates(acts.take(n)) is Err,
    ensures
        actions_updates(acts) == actions_updates(acts.take(n)),
    decreases acts.len(),
{
    if n < acts.len() {
        assert(acts.drop_last().take(n) =~= acts.take(n));
        lemma_actions_prefix_err(acts.drop_last(), n);
    } else {
        assert(acts.take(n) =~= acts);
    }
}

/// Evaluates a rung: an empty list when its guard is false, else one
/// proposal per action, in order.
pub fn evaluate_rung(rung: &RungDecl, store: &Store) -> (r: Result<Vec<(String, bool)>, VMError>)
    requires
        store.wf(),
    ensures
        updates_result(r) == rung_updates(*rung, store@),
{
    let holds = evaluate_guard(&rung.guard, store)?;
    if !holds {
        let empty: Vec<(String, bool)> = Vec::new();
        proof {
            assert(update_views(empty@) =~= Seq::empty());
        }
        return Ok(empty);
    }
    let energise = "energise".to_owned();
    let de_energise = "de_energise".to_owned();
    let mut updates: Vec<(String, bool)> = Vec::new();
    let mut i: usize = 0;
    proof {
        assert(rung.actions@.take(0) =~= Seq::<Action>::empty());
        assert(update_views(updates@) =~= Seq::empty());
    }
    while i < rung.actions.len()
        invariant
            i <= rung.actions.len(),
            rung_updates(*rung, store@) == actions_updates(rung.actions@),
            energise@ == "energise"@,
            de_energise@ == "de_energise"@,
            actions_updates(rung.actions@.take(i as int)) == Ok::<Seq<(Seq<char>, bool)>, Fault>(
                update_views(updates@),
            ),
        decreases rung.actions.len() - i,
    {
        let action = &rung.actions[i];
        proof {
            assert(rung.actions@.take(i + 1).drop_last() =~= rung.actions@.take(i as int));
            assert(rung.actions@.take(i + 1).last() == rung.actions@[i as int]);
        }
        let value = if action.action_type == energise {
            true
        } else if action.action_type == de_energise {
            false
        } else {
            proof {
                lemma_actions_prefix_err(rung.actions@, i + 1);
            }
            return Err(VMError::InvalidGuard(action.action_type.clone()));
        };
        let ghost before = updates@;
        updates.push((action.coil.clone(), value));
        proof {
            assert(update_views(updates@) =~= update_views(before).push((action.coil@, value)));
        }
        i = i + 1;
    }
    proof {
        assert(rung.actions@.take(i as int) =~= rung.actions@);
    }
    Ok(updates)
}

proof fn lemma_combined_push(u: Seq<(Seq<char>, bool)>, p: (Seq<char>, bool))
    ensures
        combined(u.push(p)) == combined(u).insert(
            p.0,
            if combined(u).contains_key(p.0) {
                combined(u)[p.0] || p.1
            } else {
                p.1
            },
        ),
{
    let w = u.push(p);
    assert forall|c: Seq<char>|
        #![auto]
        combined(w).contains_key(c) == combined(u).insert(
            p.0,
            if combined(u).contains_key(p.0) {
                combined(u)[p.0] || p.1
            } else {
                p.1
            },
        ).contains_key(c) by {
        if combined(u).contains_key(c) {
            let i = choose|i: int| 0 <= i < u.len() && (#[trigger] u[i]).0 == c;
            assert(w[i] == u[i]);
        }
        assert(w[u.len() as int] == p);
    }
    assert forall|c: Seq<char>| #[trigger] combined(w).contains_key(c) implies combined(w)[c]
        == combined(u).insert(
        p.0,
        if combined(u).contains_key(p.0) {
            combined(u)[p.0] || p.1
        } else {
            p.1
        },
    )[c] by {
        assert(w[u.len() as int] == p);
        if exists|i: int| 0 <= i < u.len() && #[trigger] u[i] == (c, true) {
            let i = choose|i: int| 0 <= i < u.len() && #[trigger] u[i] == (c, true);
            assert(w[i] == u[i]);
            assert(u[i].0 == c);
        }
        if exists|i: int| 0 <= i < w.len() && #[trigger] w[i] == (c, true) {
            let i = choose|i: int| 0 <= i < w.len() && #[trigger] w[i] == (c, true);
            if i < u.len() {
                assert(u[i] == w[i]);
                assert(u[i].0 == c);
            }
        }
    }
    assert(combined(w) =~= combined(u).insert(
        p.0,
        if combined(u).contains_key(p.0) {
            combined(u)[p.0] || p.1
        } else {
            p.1
        },
    ));
}

/// OR-combines the proposals of all rungs into one value per named coil.
pub fn combine_updates(updates: &[(String, bool)]) -> (r: Store)
    ensures
        r.wf(),
        r@ == combined(update_views(updates@)),
{
    let mut r = Store::new();
    let mut i: usize = 0;
    proof {
        assert(combined(update_views(updates@).take(0)) =~= Map::empty());
    }
    while i < updates.len()
        invariant
            r.wf(),
            i <= updates.len(),
            r@ == combined(update_views(updates@).take(i as int)),
        decreases updates.len() - i,
    {
        let (coil, value) = &updates[i];
        let ghost u = update_views(updates@);
        proof {
            assert(u.take(i + 1) =~= u.take(i as int).push((coil@, *value)));
            lemma_combined_push(u.take(i as int), (coil@, *value));
        }
        match r.get(coil.as_str()) {
            Some(prev) => r.set(coil.clone(), prev || *value),
            None => r.set(coil.clone(), *value),
        }
        i = i + 1;
    }
    proof {
        assert(update_views(updates@).take(i as int) =~= update_views(updates@));
    }
    r
}

/// A contact on a stored name: a normally-open one evaluates to `v` exactly
/// when the stored value is `v`, a normally-closed one to `!v` exactly then;
/// on a name with no stored value either kind fails with `NotFound`.
pub proof fn contact_reads_store(
    name: String,
    contact_type: String,
    arguments: Option<Vec<String>>,
    s: Map<Seq<char>, bool>,
    v: bool,
)
    ensures
        s.contains_key(name@) && contact_type@ == "NO"@ ==> (guard_value(
            GuardExpr::Contact { name, contact_type, arguments },
            s,
        ) == Ok::<bool, Fault>(v) <==> s[name@] == v),
        s.contains_key(name@) && contact_type@ == "NC"@ ==> (guard_value(
            GuardExpr::Contact { name, contact_type, arguments },
            s,
        ) == Ok::<bool, Fault>(!v) <==> s[name@] == v),
        !s.contains_key(name@) ==> guard_value(
            GuardExpr::Contact { name, contact_type, arguments },
            s,
        ) == Err::<bool, Fault>(Fault::NotFound(name@)),
{
    reveal_strlit("NO");
    reveal_strlit("NC");
    assert("NO"@[1] != "NC"@[1]);
}

/// `And`, `Or` and `Not` compute conjunction, disjunction and negation of
/// the values of their operands.
pub proof fn combinators_are_boolean(l: GuardExpr, r: GuardExpr, s: Map<Seq<char>, bool>, a: bool, b: bool)
    requires
        guard_value(l, s) == Ok::<bool, Fault>(a),
        guard_value(r, s) == Ok::<bool, Fault>(b),
    ensures
        guard_value(GuardExpr::And { left: Box::new(l), right: Box::new(r) }, s) == Ok::<
            bool,
            Fault,
        >(a && b),
        guard_value(GuardExpr::Or { left: Box::new(l), right: Box::new(r) }, s) == Ok::<
            bool,
            Fault,
        >(a || b),
        guard_value(GuardExpr::Not { expr: Box::new(l) }, s) == Ok::<bool, Fault>(!a),
{
}

/// Joins two combined maps: a name has an entry when either has one, and
/// that entry is `true` when either entry is `true`.
pub open spec fn or_merge(m1: Map<Seq<char>, bool>, m2: Map<Seq<char>, bool>) -> Map<
    Seq<char>,
    bool,
> {
    Map::new(
        |c: Seq<char>| m1.contains_key(c) || m2.contains_key(c),
        |c: Seq<char>| (m1.contains_key(c) && m1[c]) || (m2.contains_key(c) && m2[c]),
    )
}

/// Combining two lists of proposals one after the other is joining what
/// each combines to.
pub proof fn combine_concat(a: Seq<(Seq<char>, bool)>, b: Seq<(Seq<char>, bool)>)
    ensures
        combined(a + b) == or_merge(combined(a), combined(b)),
{
    let w = a + b;
    assert forall|c: Seq<char>| #![auto] combined(w).contains_key(c) == or_merge(combined(a), combined(b)).contains_key(c) by {
        if combined(w).contains_key(c) {
            let i = choose|i: int| 0 <= i < w.len() && (#[trigger] w[i]).0 == c;
            if i < a.len() {
                assert(a[i] == w[i]);
            } else {
                assert(b[i - a.len()] == w[i]);
            }
        }
        if combined(a).contains_key(c) {
            let i = choose|i: int| 0 <= i < a.len() && (#[trigger] a[i]).0 == c;
            assert(w[i] == a[i]);
        }
        if combined(b).contains_key(c) {
            let i = choose|i: int| 0 <= i < b.len() && (#[trigger] b[i]).0 == c;
            assert(w[i + a.len()] == b[i]);
        }
    }
    assert forall|c: Seq<char>| #[trigger] combined(w).contains_key(c) implies combined(w)[c] == or_merge(combined(a), combined(b))[c] by {
        if exists|i: int| 0 <= i < w.len() && #[trigger] w[i] == (c, true) {
            let i = choose|i: int| 0 <= i < w.len() && #[trigger] w[i] == (c, true);
            if i < a.len() {
                assert(a[i] == w[i]);
                assert(a[i].0 == c);
            } else {
                assert(b[i - a.len()] == w[i]);
                assert(b[i - a.len()].0 == c);
            }
        }
        if exists|i: int| 0 <= i < a.len() && #[trigger] a[i] == (c, true) {
            let i = choose|i: int| 0 <= i < a.len() && #[trigger] a[i] == (c, true);
            assert(w[i] == a[i]);
            assert(a[i].0 == c);
        }
        if exists|i: int| 0 <= i < b.len() && #[trigger] b[i] == (c, true) {
            let i = choose|i: int| 0 <= i < b.len() && #[trigger] b[i] == (c, true);
            assert(w[i + a.len()] == b[i]);
            assert(b[i].0 == c);
        }
    }
    assert(combined(w) =~= or_merge(combined(a), combined(b)));
}

/// The order of proposals does not change what they combine to.
pub proof fn combine_commutative(a: Seq<(Seq<char>, bool)>, b: Seq<(Seq<char>, bool)>)
    ensures
        combined(a + b) == combined(b + a),
{
    combine_concat(a, b);
    combine_concat(b, a);
    assert(or_merge(combined(a), combined(b)) =~= or_merge(combined(b), combined(a)));
}

/// Grouping does not change the join of combined maps.
pub proof fn combine_associative(
    a: Seq<(Seq<char>, bool)>,
    b: Seq<(Seq<char>, bool)>,
    c: Seq<(Seq<char>, bool)>,
)
    ensures
        or_merge(or_merge(combined(a), combined(b)), combined(c)) == or_merge(
            combined(a),
            or_merge(combined(b), combined(c)),
        ),
        combined(a + b + c) == or_merge(combined(a), combined(b + c)),
{
    assert(or_merge(or_merge(combined(a), combined(b)), combined(c)) =~= or_merge(
        combined(a),
        or_merge(combined(b), combined(c)),
    ));
    assert(a + b + c =~= a + (b + c));
    combine_concat(a, b + c);
}

/// Proposing the same updates twice combines to what proposing them once
/// does.
pub proof fn combine_idempotent(a: Seq<(Seq<char>, bool)>)
    ensures
        combined(a + a) == combined(a),
{
    combine_concat(a, a);
    assert(or_merge(combined(a), combined(a)) =~= combined(a));
}

} // verus!
