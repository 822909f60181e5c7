//! Model vocabulary: contact kinds, actuator modes, wheel roles, mass
//! accounting modes and the catalogue of physical models.
use vstd::prelude::*;

verus! {

/// The tire contact law.
#[derive(Debug, Clone, Copy, PartialEq, Eq, Structural)]
pub enum ContactKind {
    Ideal,
    Coulomb,
    Brush,
}

impl Default for ContactKind {
    /// Coulomb friction is the default contact law.
    fn default() -> (r: Self)
        ensures
            r == ContactKind::Coulomb,
    {
        ContactKind::Coulomb
    }
}

/// What a motor driver does with its motor.
#[derive(Debug, Clone, Copy, PartialEq, Eq, Structural)]
pub enum ActuatorMode {
    Drive,
    Brake,
    Coast,
}

/// The role of a wheel in the assembly.
#[derive(Debug, Clone, Copy, PartialEq, Eq, Structural)]
pub enum WheelKind {
    Driven,
    Passive,
    Caster,
}

/// Whether the robot's mass properties are measured or summed from its
/// components.
#[derive(Debug, Clone, Copy, PartialEq, Eq, Structural)]
pub enum MassMode {
    Measured,
    Components,
}

/// A physical model of the simulator and what it needs and neglects.
#[derive(Debug, Clone, Copy)]
pub struct ModelDescriptor {
    pub id: &'static str,
    pub parameters: &'static str,
    pub state: &'static str,
    pub dependencies: &'static str,
    pub limitations: &'static str,
}

/// The ids of the catalogued models, in catalogue order.
pub open spec fn model_ids() -> Seq<Seq<char>> {
    seq!["rolling"@, "caster"@, "ideal"@, "coulomb"@, "brush"@, "static"@, "quasi_static"@]
}

/// What each catalogued model takes as parameters, in catalogue order.
pub open spec fn model_parameters() -> Seq<Seq<char>> {
    seq![
        "coefficient, normal load, radius"@,
        "positive trail length"@,
        "wheel geometry"@,
        "mu longitudinal/lateral, rolling coefficient"@,
        "slip stiffness, relaxation, load exponent, radial stiffness"@,
        "mass, COM, support geometry, applied downforce"@,
        "static inputs plus COM height"@,
    ]
}

/// The state that each catalogued model carries, in catalogue order.
pub open spec fn model_states() -> Seq<Seq<char>> {
    seq![
        "shaft velocity"@,
        "swivel angle, shaft velocity"@,
        "pose, wheel angle"@,
        "body velocity, each wheel speed"@,
        "wheel speed, relaxed slip per contact"@,
        "none"@,
        "previous planar acceleration"@,
    ]
}

/// What each catalogued model depends on, in catalogue order.
pub open spec fn model_dependencies() -> Seq<Seq<char>> {
    seq![
        "per-wheel impulse solve"@,
        "passive contact with no motor"@,
        "parallel driven wheels, one radius per motor"@,
        "planar rigid body, positive inertias"@,
        "planar body, measured positive stiffness"@,
        "at least three non-collinear contacts"@,
        "feasible nonnegative support equilibrium"@,
    ]
}

/// What each catalogued model neglects, in catalogue order.
pub open spec fn model_limitations() -> Seq<Seq<char>> {
    seq![
        "bounded dissipative shaft torque; no speed-dependent bearing law"@,
        "overdamped kinematic alignment; no swivel inertia or shimmy"@,
        "kinematic differential axle; no scrub, slip or force prediction"@,
        "combined elliptical friction; no vertical dynamics"@,
        "reduced empirical law, requires calibration; radial compression is quasi-static"@,
        "minimum squared load solution; no pitch/roll"@,
        "one-tick acceleration lag; infeasible equilibrium stops run"@,
    ]
}

/// The catalogue of physical models: one descriptor per model, in catalogue
/// order, each with its id and its texts.
pub fn models() -> (r: Vec<ModelDescriptor>)
    ensures
        r@.len() == model_ids().len(),
        forall|i: int| 0 <= i < r@.len() ==> {
            &&& (#[trigger] r@[i]).id@ == model_ids()[i]
            &&& r@[i].parameters@ == model_parameters()[i]
            &&& r@[i].state@ == model_states()[i]
            &&& r@[i].dependencies@ == model_dependencies()[i]
            &&& r@[i].limitations@ == model_limitations()[i]
        },
{
    let r = vec![
        ModelDescriptor {
            id: "rolling",
            parameters: "coefficient, normal load, radius",
            state: "shaft velocity",
            dependencies: "per-wheel impulse solve",
            limitations: "bounded dissipative shaft torque; no speed-dependent bearing law",
        },
        ModelDescriptor {
            id: "caster",
            parameters: "positive trail length",
            state: "swivel angle, shaft velocity",
            dependencies: "passive contact with no motor",
            limitations: "overdamped kinematic alignment; no swivel inertia or shimmy",
        },
        ModelDescriptor {
            id: "ideal",
            parameters: "wheel geometry",
            state: "pose, wheel angle",
            dependencies: "parallel driven wheels, one radius per motor",
            limitations: "kinematic differential axle; no scrub, slip or force prediction",
        },
        ModelDescriptor {
            id: "coulomb",
            parameters: "mu longitudinal/lateral, rolling coefficient",
            state: "body velocity, each wheel speed",
            dependencies: "planar rigid body, positive inertias",
            limitations: "combined elliptical friction; no vertical dynamics",
        },
        ModelDescriptor {
            id: "brush",
            parameters: "slip stiffness, relaxation, load exponent, radial stiffness",
            state: "wheel speed, relaxed slip per contact",
            dependencies: "planar body, measured positive stiffness",
            limitations: "reduced empirical law, requires calibration; radial compression is quasi-static",
        },
        ModelDescriptor {
            id: "static",
            parameters: "mass, COM, support geometry, applied downforce",
            state: "none",
            dependencies: "at least three non-collinear contacts",
            limitations: "minimum squared load solution; no pitch/roll",
        },
        ModelDescriptor {
            id: "quasi_static",
            parameters: "static inputs plus COM height",
            state: "previous planar acceleration",
            dependencies: "feasible nonnegative support equilibrium",
            limitations: "one-tick acceleration lag; infeasible equilibrium stops run",
        },
    ];
    r
}

} // verus!
