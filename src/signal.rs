use vstd::prelude::*;
use halo2_proofs::arithmetic::Field;
use halo2_proofs::pasta::Fp;

verus! {

/// Identity of a step type.
pub type StepTypeUUID = u128;

/// What kind of column or signal a reference points at.
#[derive(Clone, Copy, Debug, PartialEq, Eq, Hash, Structural)]
pub enum QueriableKind {
    Internal,
    Forward,
    Shared,
    Fixed,
    StepTypeNext,
    Halo2Advice,
}

/// A reference to a circuit signal: the signal's identity, the row rotation
/// it is queried at, and its kind. It owns no data.
#[derive(Clone, Copy, Debug, PartialEq, Eq, Hash, Structural)]
pub struct Queriable {
    pub uuid: u128,
    pub rotation: i32,
    pub kind: QueriableKind,
}

impl Queriable {
    pub open spec fn spec_is_fixed(self) -> bool {
        self.kind == QueriableKind::Fixed
    }

    /// Whether the reference points at a fixed column.
    pub fn is_fixed(&self) -> (r: bool)
        ensures
            r == self.spec_is_fixed(),
    {
        match self.kind {
            QueriableKind::Fixed => true,
            _ => false,
        }
    }

    /// Whether two references name the same signal at the same rotation.
    pub fn same(&self, other: &Queriable) -> (r: bool)
        ensures
            r == (*self == *other),
    {
        self.uuid == other.uuid && self.rotation == other.rotation && self.kind == other.kind
    }
}

/// A field element as this library sees it: a copyable value with an
/// additive identity.
pub trait FieldValue: Copy + Sized {
    fn zero() -> Self;
}

#[verifier::external_type_specification]
#[verifier::external_body]
pub struct ExFp(Fp);

/// Relies on the `ZERO` constant of ff's `Field`, as implemented for the
/// Pallas base field.
#[verifier::external_body]
fn fp_zero() -> Fp {
    <Fp as Field>::ZERO
}

impl FieldValue for Fp {
    fn zero() -> Fp {
        fp_zero()
    }
}

impl FieldValue for u64 {
    fn zero() -> (r: u64)
        ensures
            r == 0,
    {
        0
    }
}

} // verus!
