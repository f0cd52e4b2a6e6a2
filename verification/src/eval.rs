//! Scoring a rendered view against its ground truth.

use vstd::prelude::*;

use crate::evidence::AlphaMode;
use crate::scalar::{Scalar, ONE_BITS};

verus! {

/// Bit pattern of `0.01`: no mask counts as covering less of its frame.
pub const MIN_MASK_COVERAGE_BITS: u32 = 0x3c23_d70a;

/// How a view is scored.
#[derive(Clone, Copy, Debug, PartialEq, Eq, Structural)]
pub struct EvalPlan {
    /// Weight the residual by the mask.
    pub masked: bool,
    /// What the means over the frame are divided by.
    pub coverage: Scalar,
}

/// How a view is scored: over its mask where that is asked for and the view is
/// a masked one with an alpha channel, else over the whole frame. `mean_alpha`
/// is the mean of the mask.
pub fn plan_eval(
    normalize_masked: bool,
    alpha_mode: AlphaMode,
    has_alpha: bool,
    mean_alpha: Scalar,
) -> (r: EvalPlan)
    ensures
        r.masked == (normalize_masked && alpha_mode == AlphaMode::Masked && has_alpha),
        r.coverage == if r.masked {
            mean_alpha.larger(Scalar { bits: MIN_MASK_COVERAGE_BITS })
        } else {
            Scalar { bits: ONE_BITS }
        },
{
    let masked = normalize_masked && alpha_mode == AlphaMode::Masked && has_alpha;
    EvalPlan {
        masked,
        coverage: if masked {
            mean_alpha.max(Scalar { bits: MIN_MASK_COVERAGE_BITS })
        } else {
            Scalar { bits: ONE_BITS }
        },
    }
}

/// A score is never amplified beyond a hundred times: the coverage that it is
/// divided by is at least one hundredth, whatever the mask.
pub proof fn law_coverage_has_a_floor(mean_alpha: Scalar)
    ensures
        (Scalar { bits: MIN_MASK_COVERAGE_BITS }).at_most(
            mean_alpha.larger(Scalar { bits: MIN_MASK_COVERAGE_BITS }),
        ),
{
}

/// A masked view is divided by the mean of its mask, bit for bit, from one
/// hundredth on, and by one hundredth below that or where the mean is no number.
pub proof fn law_coverage_by_mean(mean_alpha: Scalar)
    ensures
        (Scalar { bits: 0x3c23_d70a }).at_most(mean_alpha) ==> mean_alpha.larger(
            Scalar { bits: MIN_MASK_COVERAGE_BITS },
        ) == mean_alpha,
        mean_alpha.below(Scalar { bits: 0x3c23_d70a }) || mean_alpha.nan() ==> mean_alpha.larger(
            Scalar { bits: MIN_MASK_COVERAGE_BITS },
        ) == (Scalar { bits: 0x3c23_d70a }),
{
}

/// A view is scored over its mask where that is asked for, it is a masked one
/// and it has a mask; all three are needed. Any other view is divided by one,
/// whatever its mask.
pub proof fn law_masked_scores_need_a_mask(
    normalize_masked: bool,
    alpha_mode: AlphaMode,
    has_alpha: bool,
    mean_alpha: Scalar,
    plan: EvalPlan,
)
    requires
        call_ensures(plan_eval, (normalize_masked, alpha_mode, has_alpha, mean_alpha), plan),
    ensures
        plan.masked <==> normalize_masked && has_alpha && alpha_mode == AlphaMode::Masked,
        !plan.masked ==> plan.coverage == (Scalar { bits: 0x3f80_0000 }),
        plan.masked && (Scalar { bits: 0x3c23_d70a }).at_most(mean_alpha) ==> plan.coverage
            == mean_alpha,
        plan.masked && !(Scalar { bits: 0x3c23_d70a }).at_most(mean_alpha) ==> plan.coverage == (
        Scalar { bits: 0x3c23_d70a }),
{
}

} // verus!
