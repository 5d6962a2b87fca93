//! Rigid-transform fitting: what to do with an estimate once it is computed.
//!
//! The caller owns the arithmetic: centroids, cross-covariance, singular
//! value decomposition, rotation and translation. This module owns the rules
//! that surround it. A run goes through up to three stages, and at each the
//! caller answers one question:
//!
//! 1. [`Orienting`]: whether the candidate rotation has a negative
//!    determinant;
//! 2. [`Validating`]: how far, axis by axis, each transformed source point
//!    lands from its target point;
//! 3. [`Doubting`], reached only when a residual is out of tolerance: how
//!    far, axis by axis, each target point lies from its source point.
//!
//! What comes out is an [`Estimate`]: keep the fitted transform, or fall back
//! on a pure translation.

use vstd::prelude::*;
use crate::error::IcpError;
use crate::pairing::paired_len;

verus! {

/// The two thresholds of a run, as keys. Both are tuning values that guard
/// against numerical instability; neither is part of the least-squares fit.
#[derive(Clone, Copy, Debug, PartialEq, Eq, Structural)]
pub struct Limits {
    /// A residual must stay below this on every axis for the fit to be
    /// accepted unseen.
    pub residual: u64,
    /// A displacement must stay below this on every axis for the motion to
    /// count as near zero.
    pub displacement: u64,
}

/// What to do to the candidate rotation before it is used.
#[derive(Clone, Copy, Debug, PartialEq, Eq, Structural)]
pub enum Repair {
    /// The candidate is a proper rotation.
    Keep,
    /// The candidate is a reflection: negate the third column of the right
    /// singular vectors and form the rotation again.
    NegateThirdColumn,
}

/// The outcome of a run.
#[derive(Clone, Copy, Debug, PartialEq, Eq, Structural)]
pub enum Estimate {
    /// The fitted rotation and translation stand.
    Fitted,
    /// The rotation is the identity and the translation is the mean of the
    /// differences between target and source points.
    PureTranslation,
}

/// Every magnitude, on every axis, is below the bound.
pub open spec fn all_below(magnitudes: Seq<[u64; 3]>, bound: u64) -> bool {
    forall|i: int, axis: int|
        0 <= i < magnitudes.len() && 0 <= axis < 3 ==> (#[trigger] magnitudes[i][axis]) < bound
}

/// The rule for the candidate rotation: it is repaired exactly when it is a
/// reflection.
pub open spec fn repair_for(reflected: bool) -> Repair {
    if reflected {
        Repair::NegateThirdColumn
    } else {
        Repair::Keep
    }
}

/// The rule for the outcome: the fit gives way to a pure translation exactly
/// when some residual is out of tolerance while every displacement is near
/// zero.
pub open spec fn estimate_for(
    residuals: Seq<[u64; 3]>,
    displacements: Seq<[u64; 3]>,
    limits: Limits,
) -> Estimate {
    if !all_below(residuals, limits.residual) && all_below(displacements, limits.displacement) {
        Estimate::PureTranslation
    } else {
        Estimate::Fitted
    }
}

/// Whether every magnitude, on every axis, is below the bound.
pub fn within(magnitudes: &Vec<[u64; 3]>, bound: u64) -> (yes: bool)
    ensures
        yes == all_below(magnitudes@, bound),
{
    let mut i: usize = 0;
    while i < magnitudes.len()
        invariant
            i <= magnitudes.len(),
            all_below(magnitudes@.subrange(0, i as int), bound),
        decreases magnitudes.len() - i,
    {
        let m = magnitudes[i];
        if m[0] >= bound || m[1] >= bound || m[2] >= bound {
            proof {
                let axis: int = if m[0] >= bound {
                    0
                } else if m[1] >= bound {
                    1
                } else {
                    2
                };
                assert(magnitudes@[i as int][axis] >= bound);
            }
            return false;
        }
        proof {
            let upto = magnitudes@.subrange(0, i + 1);
            assert forall|k: int, axis: int| 0 <= k < upto.len() && 0 <= axis < 3 implies (
            #[trigger] upto[k][axis]) < bound by {
                if k < i {
                    assert(magnitudes@.subrange(0, i as int)[k][axis] < bound);
                }
            }
        }
        i = i + 1;
    }
    proof {
        assert(magnitudes@.subrange(0, i as int) =~= magnitudes@);
    }
    true
}

/// What an [`Orienting`] stage stands for.
pub struct OrientingView {
    pub pairs: nat,
    pub limits: Limits,
}

/// First stage: the two sets pair up; the sign of the candidate rotation's
/// determinant is awaited.
pub struct Orienting {
    pairs: usize,
    limits: Limits,
}

impl View for Orienting {
    type V = OrientingView;

    closed spec fn view(&self) -> OrientingView {
        OrientingView { pairs: self.pairs as nat, limits: self.limits }
    }
}

/// What a [`Validating`] stage stands for.
pub struct ValidatingView {
    pub pairs: nat,
    pub limits: Limits,
    pub repair: Repair,
}

/// Second stage: the repair is settled; the residuals of the repaired
/// estimate are awaited.
pub struct Validating {
    pairs: usize,
    limits: Limits,
    repair: Repair,
}

impl View for Validating {
    type V = ValidatingView;

    closed spec fn view(&self) -> ValidatingView {
        ValidatingView { pairs: self.pairs as nat, limits: self.limits, repair: self.repair }
    }
}

/// What a [`Doubting`] stage stands for.
pub struct DoubtingView {
    pub pairs: nat,
    pub limits: Limits,
    pub residuals: Seq<[u64; 3]>,
}

/// Third stage: some residual is out of tolerance; the displacements are
/// awaited.
pub struct Doubting {
    pairs: usize,
    limits: Limits,
    residuals: Ghost<Seq<[u64; 3]>>,
}

impl View for Doubting {
    type V = DoubtingView;

    closed spec fn view(&self) -> DoubtingView {
        DoubtingView { pairs: self.pairs as nat, limits: self.limits, residuals: self.residuals@ }
    }
}

/// Where a run stands once the residuals are in.
pub enum Assessment {
    /// Every residual is within tolerance: the fit stands.
    Fitted,
    /// Some residual is out of tolerance: the displacements decide.
    Doubtful(Doubting),
}

/// Opens a run for two matched sets of these sizes. Fails exactly when the
/// sizes differ or the sets are empty.
pub fn begin_fit(sources: usize, targets: usize, limits: Limits) -> (begun: Result<
    Orienting,
    IcpError,
>)
    ensures
        (sources != targets || sources == 0) <==> begun == Err::<Orienting, IcpError>(
            IcpError::InvalidInput,
        ),
        (sources == targets && sources > 0) <==> begun is Ok,
        begun matches Ok(stage) ==> stage@ == (OrientingView { pairs: sources as nat, limits }),
{
    match paired_len(sources, targets) {
        Ok(pairs) => Ok(Orienting { pairs, limits }),
        Err(e) => Err(e),
    }
}

impl Orienting {
    #[verifier::type_invariant]
    spec fn wf(&self) -> bool {
        self.pairs > 0
    }

    /// The number of pairs the run was opened for.
    pub fn pairs(&self) -> (pairs: usize)
        ensures
            pairs == self@.pairs,
            pairs > 0,
    {
        proof {
            use_type_invariant(self);
        }
        self.pairs
    }

    /// Takes whether the determinant of the candidate rotation is negative,
    /// and settles the repair.
    pub fn orientation(self, reflected: bool) -> (next: Validating)
        ensures
            next@ == (ValidatingView {
                pairs: self@.pairs,
                limits: self@.limits,
                repair: repair_for(reflected),
            }),
    {
        proof {
            use_type_invariant(&self);
        }
        let repair = if reflected {
            Repair::NegateThirdColumn
        } else {
            Repair::Keep
        };
        Validating { pairs: self.pairs, limits: self.limits, repair }
    }
}

impl Validating {
    #[verifier::type_invariant]
    spec fn wf(&self) -> bool {
        self.pairs > 0
    }

    /// What to do to the candidate rotation before the residuals are formed.
    pub fn repair(&self) -> (repair: Repair)
        ensures
            repair == self@.repair,
    {
        self.repair
    }

    /// Takes, for every pair in order, the keys of the absolute differences,
    /// axis by axis, between the target point and the transformed source
    /// point. The fit stands when all are below the residual limit; else the
    /// run goes on. Fails exactly when the answer does not hold one residual
    /// per pair.
    pub fn residuals(self, residuals: Vec<[u64; 3]>) -> (next: Result<Assessment, IcpError>)
        ensures
            residuals.len() == self@.pairs <==> next is Ok,
            next is Err ==> next == Err::<Assessment, IcpError>(IcpError::InvalidInput),
            next matches Ok(assessment) ==> {
                &&& assessment is Fitted <==> all_below(residuals@, self@.limits.residual)
                &&& assessment matches Assessment::Doubtful(stage) ==> stage@ == (DoubtingView {
                    pairs: self@.pairs,
                    limits: self@.limits,
                    residuals: residuals@,
                })
            },
    {
        proof {
            use_type_invariant(&self);
        }
        if residuals.len() != self.pairs {
            return Err(IcpError::InvalidInput);
        }
        if within(&residuals, self.limits.residual) {
            Ok(Assessment::Fitted)
        } else {
            Ok(
                Assessment::Doubtful(
                    Doubting {
                        pairs: self.pairs,
                        limits: self.limits,
                        residuals: Ghost(residuals@),
                    },
                ),
            )
        }
    }
}

impl Doubting {
    #[verifier::type_invariant]
    spec fn wf(&self) -> bool {
        &&& self.pairs > 0
        &&& !all_below(self.residuals@, self.limits.residual)
    }

    /// Takes, for every pair in order, the keys of the absolute differences,
    /// axis by axis, between the target point and the source point, and
    /// settles the outcome. Fails exactly when the answer does not hold one
    /// displacement per pair.
    pub fn displacements(self, displacements: Vec<[u64; 3]>) -> (outcome: Result<
        Estimate,
        IcpError,
    >)
        ensures
            displacements.len() == self@.pairs <==> outcome is Ok,
            outcome is Err ==> outcome == Err::<Estimate, IcpError>(IcpError::InvalidInput),
            outcome matches Ok(estimate) ==> estimate == estimate_for(
                self@.residuals,
                displacements@,
                self@.limits,
            ),
    {
        proof {
            use_type_invariant(&self);
        }
        if displacements.len() != self.pairs {
            return Err(IcpError::InvalidInput);
        }
        if within(&displacements, self.limits.displacement) {
            Ok(Estimate::PureTranslation)
        } else {
            Ok(Estimate::Fitted)
        }
    }
}

} // verus!
