use charta_vm::ir::{Action, GuardExpr, RungDecl};
use charta_vm::rung::{combine_updates, evaluate_guard, evaluate_rung};
use charta_vm::{Store, VMError};

fn contact(name: &str, kind: &str) -> GuardExpr {
    GuardExpr::Contact {
        name: name.to_string(),
        contact_type: kind.to_string(),
        arguments: None,
    }
}

fn store_of(entries: &[(&str, bool)]) -> Store {
    let mut store = Store::new();
    for (k, v) in entries {
        store.set(k.to_string(), *v);
    }
    store
}

#[test]
fn test_contact_no() {
    let mut store = Store::new();
    store.set("signal1".to_string(), true);

    let guard = GuardExpr::Contact {
        name: "signal1".to_string(),
        contact_type: "NO".to_string(),
        arguments: None,
    };

    assert_eq!(evaluate_guard(&guard, &store).unwrap(), true);
}

#[test]
fn test_contact_nc() {
    let mut store = Store::new();
    store.set("signal1".to_string(), true);

    let guard = GuardExpr::Contact {
        name: "signal1".to_string(),
        contact_type: "NC".to_string(),
        arguments: None,
    };

    assert_eq!(evaluate_guard(&guard, &store).unwrap(), false);
}

#[test]
fn test_and() {
    let mut store = Store::new();
    store.set("s1".to_string(), true);
    store.set("s2".to_string(), true);

    let guard = GuardExpr::And {
        left: Box::new(GuardExpr::Contact {
            name: "s1".to_string(),
            contact_type: "NO".to_string(),
            arguments: None,
        }),
        right: Box::new(GuardExpr::Contact {
            name: "s2".to_string(),
            contact_type: "NO".to_string(),
            arguments: None,
        }),
    };

    assert_eq!(evaluate_guard(&guard, &store).unwrap(), true);
}

#[test]
fn contacts_read_both_values() {
    for v in [false, true] {
        let store = store_of(&[("s", v)]);
        assert_eq!(evaluate_guard(&contact("s", "NO"), &store).unwrap(), v);
        assert_eq!(evaluate_guard(&contact("s", "NC"), &store).unwrap(), !v);
    }
}

#[test]
fn combinators_follow_truth_tables() {
    for a in [false, true] {
        for b in [false, true] {
            let store = store_of(&[("a", a), ("b", b)]);
            let and = GuardExpr::And {
                left: Box::new(contact("a", "NO")),
                right: Box::new(contact("b", "NO")),
            };
            let or = GuardExpr::Or {
                left: Box::new(contact("a", "NO")),
                right: Box::new(contact("b", "NO")),
            };
            let not = GuardExpr::Not { expr: Box::new(contact("a", "NO")) };
            assert_eq!(evaluate_guard(&and, &store).unwrap(), a && b);
            assert_eq!(evaluate_guard(&or, &store).unwrap(), a || b);
            assert_eq!(evaluate_guard(&not, &store).unwrap(), !a);
        }
    }
}

#[test]
fn missing_name_is_not_found() {
    let store = Store::new();
    match evaluate_guard(&contact("ghost", "NO"), &store) {
        Err(VMError::NotFound(name)) => assert_eq!(name, "ghost"),
        other => panic!("unexpected {:?}", other),
    }
}

#[test]
fn unknown_contact_kind_is_invalid() {
    let store = store_of(&[("s", true)]);
    match evaluate_guard(&contact("s", "XX"), &store) {
        Err(VMError::InvalidGuard(kind)) => assert_eq!(kind, "XX"),
        other => panic!("unexpected {:?}", other),
    }
}

#[test]
fn left_fault_is_reported_first() {
    let store = Store::new();
    let guard = GuardExpr::Or {
        left: Box::new(contact("first", "NO")),
        right: Box::new(contact("second", "NO")),
    };
    match evaluate_guard(&guard, &store) {
        Err(VMError::NotFound(name)) => assert_eq!(name, "first"),
        other => panic!("unexpected {:?}", other),
    }
}

fn rung(guard: GuardExpr, actions: &[(&str, &str)]) -> RungDecl {
    RungDecl {
        name: "r".to_string(),
        guard,
        actions: actions
            .iter()
            .map(|(kind, coil)| Action {
                action_type: kind.to_string(),
                coil: coil.to_string(),
                arguments: None,
            })
            .collect(),
    }
}

#[test]
fn true_guard_proposes_each_action_in_order() {
    let store = store_of(&[("s", true)]);
    let r = rung(contact("s", "NO"), &[("energise", "c1"), ("de_energise", "c2")]);
    let updates = evaluate_rung(&r, &store).unwrap();
    assert_eq!(updates, vec![("c1".to_string(), true), ("c2".to_string(), false)]);
}

#[test]
fn false_guard_proposes_nothing() {
    let store = store_of(&[("s", false)]);
    let r = rung(contact("s", "NO"), &[("energise", "c1"), ("bogus", "c2")]);
    assert_eq!(evaluate_rung(&r, &store).unwrap(), Vec::new());
}

#[test]
fn unknown_action_kind_is_invalid() {
    let store = store_of(&[("s", true)]);
    let r = rung(contact("s", "NO"), &[("energise", "c1"), ("toggle", "c2")]);
    match evaluate_rung(&r, &store) {
        Err(VMError::InvalidGuard(kind)) => assert_eq!(kind, "toggle"),
        other => panic!("unexpected {:?}", other),
    }
}

#[test]
fn combine_is_order_free_and_idempotent() {
    let c = "c".to_string();
    let one = combine_updates(&[(c.clone(), true), (c.clone(), false)]);
    let two = combine_updates(&[(c.clone(), false), (c.clone(), true)]);
    let three = combine_updates(&[(c.clone(), true), (c.clone(), true)]);
    assert_eq!(one.get("c"), Some(true));
    assert_eq!(two.get("c"), Some(true));
    assert_eq!(three.get("c"), Some(true));
    assert_eq!(one.len(), 1);
}

#[test]
fn combine_keeps_false_and_omits_unproposed() {
    let combined = combine_updates(&[
        ("a".to_string(), false),
        ("b".to_string(), true),
        ("a".to_string(), false),
    ]);
    assert_eq!(combined.get("a"), Some(false));
    assert_eq!(combined.get("b"), Some(true));
    assert_eq!(combined.get("z"), None);
    assert_eq!(combined.len(), 2);
    assert_eq!(combine_updates(&[]).len(), 0);
}
