//! The decisions of the kinematic integrator that do not depend on floating
//! point: which bodies it refuses, in what order its checks run, and how its
//! errors are classified.

use vstd::prelude::*;

verus! {

/// Whether a body can be advanced by the local kinematic integrator.
#[derive(Debug, Clone, Copy, PartialEq, Eq, Structural)]
pub enum CollisionMode {
    /// No collision query is needed; integrate freely.
    NoQuery,
    /// A collision query is required before authority can accept the
    /// movement; the integrator refuses such bodies.
    QueryRequired,
}

/// The kinds of physics diagnostics.
#[derive(Debug, Clone, Copy, PartialEq, Eq, Structural)]
pub enum PhysicsErrorKind {
    /// The fixed tick scale was not finite and positive.
    InvalidStep,
    /// A body requested collision-aware movement.
    CollisionQueryRequired,
    /// Input contains NaN or infinite vector or scalar data.
    NonFiniteInput,
}

/// The broad class of a physics diagnostic.
#[derive(Debug, Clone, Copy, PartialEq, Eq, Structural)]
pub enum PhysicsErrorCategory {
    Invalid,
    Unsupported,
}

pub open spec fn error_code(kind: PhysicsErrorKind) -> Seq<char> {
    match kind {
        PhysicsErrorKind::InvalidStep => "invalid_step"@,
        PhysicsErrorKind::CollisionQueryRequired => "collision_query_required"@,
        PhysicsErrorKind::NonFiniteInput => "non_finite_input"@,
    }
}

pub open spec fn error_category(kind: PhysicsErrorKind) -> PhysicsErrorCategory {
    match kind {
        PhysicsErrorKind::CollisionQueryRequired => PhysicsErrorCategory::Unsupported,
        _ => PhysicsErrorCategory::Invalid,
    }
}

impl PhysicsErrorKind {
    /// The stable code of this diagnostic.
    pub fn code(self) -> (r: &'static str)
        ensures
            r@ == error_code(self),
    {
        match self {
            PhysicsErrorKind::InvalidStep => "invalid_step",
            PhysicsErrorKind::CollisionQueryRequired => "collision_query_required",
            PhysicsErrorKind::NonFiniteInput => "non_finite_input",
        }
    }

    /// Invalid input, or a mode the integrator does not support.
    pub fn category(self) -> (r: PhysicsErrorCategory)
        ensures
            r == error_category(self),
    {
        match self {
            PhysicsErrorKind::CollisionQueryRequired => PhysicsErrorCategory::Unsupported,
            _ => PhysicsErrorCategory::Invalid,
        }
    }
}

/// The checks before one integration step, in order: a body that needs a
/// collision query is refused first, then non-finite input.
pub fn integration_precheck(mode: CollisionMode, inputs_finite: bool) -> (r: Result<
    (),
    PhysicsErrorKind,
>)
    ensures
        mode == CollisionMode::QueryRequired ==> r == Err::<(), PhysicsErrorKind>(
            PhysicsErrorKind::CollisionQueryRequired,
        ),
        mode == CollisionMode::NoQuery && !inputs_finite ==> r == Err::<(), PhysicsErrorKind>(
            PhysicsErrorKind::NonFiniteInput,
        ),
        mode == CollisionMode::NoQuery && inputs_finite ==> r is Ok,
{
    match mode {
        CollisionMode::QueryRequired => Err(PhysicsErrorKind::CollisionQueryRequired),
        CollisionMode::NoQuery => if inputs_finite {
            Ok(())
        } else {
            Err(PhysicsErrorKind::NonFiniteInput)
        },
    }
}

/// The deterministic input of a policy tick: replaying with the same
/// envelope and proposals reproduces the same outcomes.
#[derive(Debug, Clone, Copy, PartialEq, Eq, Structural)]
pub struct PolicyTickEnvelope {
    pub tick: u64,
    /// The seed of the policy's deterministic random stream.
    pub seed: u64,
}

} // verus!
