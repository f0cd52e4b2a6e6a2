//! Options of a training process.

use vstd::prelude::*;

use crate::scalar::{Scalar, ZERO_BITS};
use crate::text::owned;

verus! {

/// Options of a training process.
#[derive(Clone, Debug, PartialEq)]
pub struct ProcessConfig {
    /// Random seed.
    pub seed: u64,
    /// Iteration to resume from.
    pub start_iter: u32,
    /// Steps from one evaluation to the next, at least one.
    pub eval_every: u32,
    /// Save the rendered evaluation images to disk.
    pub eval_save_to_disk: bool,
    /// Steps from one export to the next, at least one.
    pub export_every: u32,
    /// Where exported files go; `{dataset}` stands for the dataset folder name
    /// and `{timestamp}` for the start time of the process.
    pub export_path: String,
    /// File name of an export.
    pub export_name: String,
    /// Write the evidence into the final export.
    pub export_evidence: bool,
    /// Before the final export, drop the splats below this in-mask fraction.
    pub evidence_prune_inmask: Option<Scalar>,
    /// Weight of the normal residual in the evidence residual.
    pub evidence_normal_weight: Scalar,
}

impl ProcessConfig {
    /// The intervals are at least one step.
    pub open spec fn wf(&self) -> bool {
        self.eval_every >= 1 && self.export_every >= 1
    }
}

impl Default for ProcessConfig {
    fn default() -> (r: ProcessConfig)
        ensures
            r.wf(),
            r.seed == 42,
            r.start_iter == 0,
            r.eval_every == 1000,
            !r.eval_save_to_disk,
            r.export_every == 5000,
            r.export_path@ == "./{dataset}_exports/"@,
            r.export_name@ == "export_{iter}.ply"@,
            !r.export_evidence,
            r.evidence_prune_inmask is None,
            r.evidence_normal_weight == (Scalar { bits: ZERO_BITS }),
    {
        ProcessConfig {
            seed: 42,
            start_iter: 0,
            eval_every: 1000,
            eval_save_to_disk: false,
            export_every: 5000,
            export_path: owned("./{dataset}_exports/"),
            export_name: owned("export_{iter}.ply"),
            export_evidence: false,
            evidence_prune_inmask: None,
            evidence_normal_weight: Scalar { bits: ZERO_BITS },
        }
    }
}

} // verus!
