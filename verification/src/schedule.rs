//! The solver stages and the order in which one fixed step runs them.
use vstd::prelude::*;

verus! {

/// The stages of one fixed step of the solver.
#[derive(Debug, Clone, Copy, PartialEq, Eq, Hash, Structural)]
pub enum XpbdSystems {
    CollectCollisionPairs,
    Integrate,
    SolvePos,
    UpdateVel,
    SolveVel,
    SyncTransfrom,
}

/// The stages in the order in which they run: each stage only starts once
/// the one before it has finished.
pub open spec fn stage_chain() -> Seq<XpbdSystems> {
    seq![
        XpbdSystems::CollectCollisionPairs,
        XpbdSystems::Integrate,
        XpbdSystems::SolvePos,
        XpbdSystems::UpdateVel,
        XpbdSystems::SolveVel,
        XpbdSystems::SyncTransfrom,
    ]
}

impl XpbdSystems {
    /// The stages in running order.
    pub fn chain() -> (stages: Vec<XpbdSystems>)
        ensures
            stages@ == stage_chain(),
    {
        let stages = vec![
            XpbdSystems::CollectCollisionPairs,
            XpbdSystems::Integrate,
            XpbdSystems::SolvePos,
            XpbdSystems::UpdateVel,
            XpbdSystems::SolveVel,
            XpbdSystems::SyncTransfrom,
        ];
        assert(stages@ =~= stage_chain());
        stages
    }
}

/// Every stage runs exactly once per step: the chain names each stage, and
/// names none twice.
pub proof fn chain_runs_each_stage_once(stage: XpbdSystems)
    ensures
        stage_chain().contains(stage),
        stage_chain().no_duplicates(),
{
    let c = stage_chain();
    match stage {
        XpbdSystems::CollectCollisionPairs => assert(c[0] == stage),
        XpbdSystems::Integrate => assert(c[1] == stage),
        XpbdSystems::SolvePos => assert(c[2] == stage),
        XpbdSystems::UpdateVel => assert(c[3] == stage),
        XpbdSystems::SolveVel => assert(c[4] == stage),
        XpbdSystems::SyncTransfrom => assert(c[5] == stage),
    }
}

} // verus!
