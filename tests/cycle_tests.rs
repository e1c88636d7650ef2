use charta_vm::cycle::execute_cycle;
use charta_vm::ir::{Action, CoilDecl, GuardExpr, RungDecl};
use charta_vm::{Store, VMError};

fn one_rung(input: &str, coil: &str) -> Vec<RungDecl> {
    vec![RungDecl {
        name: "test".to_string(),
        guard: GuardExpr::Contact {
            name: input.to_string(),
            contact_type: "NO".to_string(),
            arguments: None,
        },
        actions: vec![Action {
            action_type: "energise".to_string(),
            coil: coil.to_string(),
            arguments: None,
        }],
    }]
}

fn coil(name: &str, latching: bool) -> CoilDecl {
    CoilDecl {
        name: name.to_string(),
        parameters: None,
        latching: Some(latching),
        critical: Some(false),
    }
}

fn input(name: &str, v: bool) -> Store {
    let mut m = Store::new();
    m.set(name.to_string(), v);
    m
}

#[test]
fn test_cycle_basic() {
    let mut store = Store::new();
    store.set("input_signal".to_string(), false);
    store.set("output_coil".to_string(), false);

    let inputs = {
        let mut m = Store::new();
        m.set("input_signal".to_string(), true);
        m
    };

    let rungs = vec![RungDecl {
        name: "test".to_string(),
        guard: GuardExpr::Contact {
            name: "input_signal".to_string(),
            contact_type: "NO".to_string(),
            arguments: None,
        },
        actions: vec![Action {
            action_type: "energise".to_string(),
            coil: "output_coil".to_string(),
            arguments: None,
        }],
    }];

    let coils = vec![CoilDecl {
        name: "output_coil".to_string(),
        parameters: None,
        latching: Some(false),
        critical: Some(false),
    }];

    let signal_names = vec!["input_signal".to_string()];

    let outputs = execute_cycle(&mut store, &inputs, &rungs, &coils, &signal_names).unwrap();

    assert_eq!(outputs.get("output_coil"), Some(true));
    assert_eq!(store.get("output_coil"), Some(true));
}

#[test]
fn non_latching_coil_resets_without_proposal() {
    let mut store = Store::new();
    store.set("s".to_string(), false);
    store.set("c".to_string(), true);
    let rungs = one_rung("s", "c");
    let coils = vec![coil("c", false)];
    let signals = vec!["s".to_string()];
    let out = execute_cycle(&mut store, &input("s", false), &rungs, &coils, &signals).unwrap();
    assert_eq!(out.get("c"), Some(false));
    assert_eq!(store.get("c"), Some(false));
}

#[test]
fn latching_coil_keeps_value_without_proposal() {
    let mut store = Store::new();
    store.set("s".to_string(), false);
    store.set("c".to_string(), true);
    let rungs = one_rung("s", "c");
    let coils = vec![coil("c", true)];
    let signals = vec!["s".to_string()];
    let out = execute_cycle(&mut store, &input("s", false), &rungs, &coils, &signals).unwrap();
    assert_eq!(out.get("c"), Some(true));
    assert_eq!(store.get("c"), Some(true));
}

#[test]
fn latching_coil_without_value_defaults_to_false() {
    let mut store = Store::new();
    store.set("s".to_string(), false);
    let rungs = one_rung("s", "c");
    let coils = vec![coil("c", true)];
    let signals = vec!["s".to_string()];
    let out = execute_cycle(&mut store, &input("s", false), &rungs, &coils, &signals).unwrap();
    assert_eq!(out.get("c"), Some(false));
    assert_eq!(store.get("c"), Some(false));
}

#[test]
fn rungs_read_the_snapshot_not_each_other() {
    let mut store = Store::new();
    store.set("s".to_string(), true);
    store.set("a".to_string(), false);
    store.set("b".to_string(), false);
    let mut rungs = one_rung("s", "a");
    rungs.extend(one_rung("a", "b"));
    let coils = vec![coil("a", false), coil("b", false)];
    let signals = vec!["s".to_string()];
    let out = execute_cycle(&mut store, &Store::new(), &rungs, &coils, &signals).unwrap();
    assert_eq!(out.get("a"), Some(true));
    assert_eq!(out.get("b"), Some(false));
    let out = execute_cycle(&mut store, &Store::new(), &rungs, &coils, &signals).unwrap();
    assert_eq!(out.get("b"), Some(true));
}

#[test]
fn fault_aborts_cycle_but_keeps_merge() {
    let mut store = Store::new();
    store.set("s".to_string(), false);
    store.set("c".to_string(), true);
    let rungs = one_rung("undeclared", "c");
    let coils = vec![coil("c", false)];
    let signals = vec!["s".to_string()];
    match execute_cycle(&mut store, &input("s", true), &rungs, &coils, &signals) {
        Err(VMError::NotFound(name)) => assert_eq!(name, "undeclared"),
        Err(e) => panic!("unexpected {:?}", e),
        Ok(_) => panic!("unexpected success"),
    }
    assert_eq!(store.get("c"), Some(true));
    assert_eq!(store.get("s"), Some(true));
}
