use vstd::prelude::*;

verus! {

/// An externally supplied boolean input.
#[derive(Clone, Debug)]
pub struct SignalDecl {
    pub name: String,
    pub parameters: Option<Vec<String>>,
    pub type_: Option<String>,
}

/// A boolean output. `latching` defaults to `false`; `critical` and
/// `parameters` are carried along and never read by the engine.
#[derive(Clone, Debug)]
pub struct CoilDecl {
    pub name: String,
    pub parameters: Option<Vec<String>>,
    pub latching: Option<bool>,
    pub critical: Option<bool>,
}

/// A guard: a finite tree of contacts joined by `And`, `Or` and `Not`.
#[derive(Debug)]
pub enum GuardExpr {
    Contact { name: String, contact_type: String, arguments: Option<Vec<String>> },
    And { left: Box<GuardExpr>, right: Box<GuardExpr> },
    Or { left: Box<GuardExpr>, right: Box<GuardExpr> },
    Not { expr: Box<GuardExpr> },
}

/// What a rung does to a coil when its guard holds.
#[derive(Clone, Debug)]
pub struct Action {
    pub action_type: String,
    pub coil: String,
    pub arguments: Option<Vec<String>>,
}

/// A named rule: a guard and the actions it takes, in order.
#[derive(Debug)]
pub struct RungDecl {
    pub name: String,
    pub guard: GuardExpr,
    pub actions: Vec<Action>,
}

/// The declarations of one program. Only `signals`, `coils` and `rungs` are
/// read by the engine; the other fields are descriptive.
#[derive(Debug)]
pub struct Module {
    pub name: String,
    pub context: Option<String>,
    pub intent: Option<String>,
    pub constraints: Option<Vec<String>>,
    pub signals: Option<Vec<SignalDecl>>,
    pub coils: Option<Vec<CoilDecl>>,
    pub rungs: Option<Vec<RungDecl>>,
    pub blocks: Option<Vec<String>>,
    pub networks: Option<Vec<String>>,
}

/// A loaded program and the version of its representation.
#[derive(Debug)]
pub struct IR {
    pub version: String,
    pub module: Module,
}

} // verus!
