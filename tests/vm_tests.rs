use charta_vm::ir::{Action, CoilDecl, GuardExpr, Module, RungDecl, SignalDecl, IR};
use charta_vm::{Store, VMError, VM};

fn program(latching: bool, guard_name: &str) -> IR {
    IR {
        version: "0.1.0".to_string(),
        module: Module {
            name: "test".to_string(),
            context: None,
            intent: None,
            constraints: None,
            signals: Some(vec![SignalDecl {
                name: "input".to_string(),
                parameters: None,
                type_: None,
            }]),
            coils: Some(vec![CoilDecl {
                name: "output".to_string(),
                parameters: None,
                latching: Some(latching),
                critical: Some(false),
            }]),
            rungs: Some(vec![RungDecl {
                name: "r1".to_string(),
                guard: GuardExpr::Contact {
                    name: guard_name.to_string(),
                    contact_type: "NO".to_string(),
                    arguments: None,
                },
                actions: vec![Action {
                    action_type: "energise".to_string(),
                    coil: "output".to_string(),
                    arguments: None,
                }],
            }]),
            blocks: None,
            networks: None,
        },
    }
}

fn inputs(v: bool) -> Store {
    let mut m = Store::new();
    m.set("input".to_string(), v);
    m
}

#[test]
fn test_vm_load_and_step() {
    let mut vm = VM::new();

    let ir = IR {
        version: "0.1.0".to_string(),
        module: Module {
            name: "test".to_string(),
            context: None,
            intent: None,
            constraints: None,
            signals: Some(vec![SignalDecl {
                name: "input".to_string(),
                parameters: None,
                type_: None,
            }]),
            coils: Some(vec![CoilDecl {
                name: "output".to_string(),
                parameters: None,
                latching: Some(false),
                critical: Some(false),
            }]),
            rungs: Some(vec![RungDecl {
                name: "r1".to_string(),
                guard: GuardExpr::Contact {
                    name: "input".to_string(),
                    contact_type: "NO".to_string(),
                    arguments: None,
                },
                actions: vec![Action {
                    action_type: "energise".to_string(),
                    coil: "output".to_string(),
                    arguments: None,
                }],
            }]),
            blocks: None,
            networks: None,
        },
    };

    vm.load_program(ir).unwrap();

    let mut inputs = Store::new();
    inputs.set("input".to_string(), true);

    let outputs = vm.step(inputs).unwrap();
    assert_eq!(outputs.get("output"), Some(true));
}

#[test]
fn non_latching_end_to_end() {
    let mut vm = VM::new();
    vm.load_program(program(false, "input")).unwrap();
    let out = vm.step(inputs(true)).unwrap();
    assert_eq!(out.get("output"), Some(true));
    assert_eq!(out.len(), 1);
    let out = vm.step(inputs(false)).unwrap();
    assert_eq!(out.get("output"), Some(false));
    assert_eq!(vm.get_coil_state("output"), Some(false));
}

#[test]
fn latching_end_to_end() {
    let mut vm = VM::new();
    vm.load_program(program(true, "input")).unwrap();
    let out = vm.step(inputs(true)).unwrap();
    assert_eq!(out.get("output"), Some(true));
    let out = vm.step(inputs(false)).unwrap();
    assert_eq!(out.get("output"), Some(true));
    assert_eq!(vm.get_signal_state("input"), Some(false));
}

#[test]
fn undeclared_reference_fails_and_keeps_coils() {
    let mut vm = VM::new();
    vm.load_program(program(false, "nowhere")).unwrap();
    match vm.step(inputs(true)) {
        Err(VMError::NotFound(name)) => assert_eq!(name, "nowhere"),
        Err(e) => panic!("unexpected {:?}", e),
        Ok(_) => panic!("unexpected success"),
    }
    assert_eq!(vm.get_coil_state("output"), Some(false));
    assert_eq!(vm.get_signal_state("input"), Some(true));
}

#[test]
fn load_initialises_and_discards_state() {
    let mut vm = VM::default();
    vm.load_program(program(true, "input")).unwrap();
    vm.step(inputs(true)).unwrap();
    assert_eq!(vm.get_coil_state("output"), Some(true));
    vm.load_program(program(true, "input")).unwrap();
    assert_eq!(vm.get_coil_state("output"), Some(false));
    assert_eq!(vm.get_signal_state("input"), Some(false));
    assert_eq!(vm.get_signal_state("other"), None);
    let coils = vm.get_all_coils();
    assert_eq!(coils.len(), 1);
    assert_eq!(coils.get("output"), Some(false));
}

#[test]
fn missing_rungs_or_coils_is_structural() {
    let mut vm = VM::new();
    match vm.step(Store::new()) {
        Err(VMError::Execution(msg)) => assert_eq!(msg, "No rungs in program"),
        Err(e) => panic!("unexpected {:?}", e),
        Ok(_) => panic!("unexpected success"),
    }
    let mut ir = program(false, "input");
    ir.module.coils = None;
    vm.load_program(ir).unwrap();
    match vm.step(inputs(true)) {
        Err(VMError::Execution(msg)) => assert_eq!(msg, "No coils in program"),
        Err(e) => panic!("unexpected {:?}", e),
        Ok(_) => panic!("unexpected success"),
    }
}
