use vstd::prelude::*;

verus! {

/// Where `start` stands in making sure that the shared bridge network
/// exists before any project is brought up.
#[derive(Clone, Copy, Debug, PartialEq, Eq, Structural)]
pub enum NetworkStep {
    /// The network is to be inspected.
    Inspect,
    /// Inspection failed: the network is to be created.
    Create,
    /// The network exists: projects may be brought up.
    Ready,
    /// The network could not be created: `start` stops here.
    Failed,
}

/// The step that follows `step` once its command has run with the outcome
/// `succeeded`. The last two steps are final.
pub fn network_next(step: NetworkStep, succeeded: bool) -> (r: NetworkStep)
    ensures
        step == NetworkStep::Inspect ==> r == if succeeded {
            NetworkStep::Ready
        } else {
            NetworkStep::Create
        },
        step == NetworkStep::Create ==> r == if succeeded {
            NetworkStep::Ready
        } else {
            NetworkStep::Failed
        },
        step == NetworkStep::Ready || step == NetworkStep::Failed ==> r == step,
{
    match step {
        NetworkStep::Inspect => if succeeded {
            NetworkStep::Ready
        } else {
            NetworkStep::Create
        },
        NetworkStep::Create => if succeeded {
            NetworkStep::Ready
        } else {
            NetworkStep::Failed
        },
        other => other,
    }
}

} // verus!
