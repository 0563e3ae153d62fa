use vstd::prelude::*;

use crate::operations::{
    commit_execution_effects, effect_of, is_step_request, outcome_of, step_request,
    BlockExecutionError, Deploy, DeployHeader, EffectSet, EngineError, EngineExecutionResult,
    EraReport, ExecutionResult, ProtocolVersion, StepError, StepRequest,
};
use crate::types::{Digest, PublicKey};

verus! {

/// Where a block's execution starts: the state left by its parent.
#[derive(Clone, Copy, Debug, PartialEq, Eq)]
pub struct ExecutionPreState {
    pub next_block_height: u64,
    pub pre_state_root_hash: Digest,
    pub parent_hash: Digest,
    pub parent_seed: Digest,
}

/// A block that consensus has finalized, before execution.
#[derive(Clone, Debug, PartialEq, Eq)]
pub struct FinalizedBlock {
    pub deploy_hashes: Vec<Digest>,
    pub timestamp: u64,
    pub era_report: Option<EraReport>,
    pub era_id: u64,
    pub height: u64,
    pub proposer: PublicKey,
}

/// The validators of the next era with their weights.
#[derive(Clone, Debug, PartialEq, Eq)]
pub struct ValidatorWeights {
    pub weights: Vec<(PublicKey, u64)>,
}

/// What a committed step returns.
#[derive(Clone, Debug, PartialEq, Eq)]
pub struct StepSuccess {
    pub post_state_hash: Digest,
    pub next_era_validators: ValidatorWeights,
    pub execution_effect: EffectSet,
}

/// An executed block: its parent linkage, its final state root and, at the
/// end of an era, the next era's validators.
#[derive(Clone, Debug, PartialEq, Eq)]
pub struct Block {
    pub parent_hash: Digest,
    pub parent_seed: Digest,
    pub state_root_hash: Digest,
    pub deploy_hashes: Vec<Digest>,
    pub timestamp: u64,
    pub era_id: u64,
    pub height: u64,
    pub proposer: PublicKey,
    pub next_era_validator_weights: Option<ValidatorWeights>,
    pub protocol_version: ProtocolVersion,
}

/// The block together with each deploy's recorded outcome and, at the end of
/// an era, the step's effects.
#[derive(Clone, Debug, PartialEq, Eq)]
pub struct BlockAndExecutionEffects {
    pub block: Block,
    pub execution_results: Vec<(Digest, DeployHeader, ExecutionResult)>,
    pub maybe_step_execution_effect: Option<EffectSet>,
}

/// A request to execute one deploy against a state root.
#[derive(Clone, Copy, Debug, PartialEq, Eq)]
pub struct ExecuteRequest {
    pub pre_state_hash: Digest,
    pub block_time: u64,
    pub deploy: Deploy,
    pub deploy_index: usize,
    pub protocol_version: ProtocolVersion,
    pub proposer: PublicKey,
}

/// What the caller is to do next on behalf of the block's execution.
#[derive(Clone, Debug, PartialEq, Eq)]
pub enum Action {
    /// Run the deploy through the bytecode executor; report with `executed`.
    Execute(ExecuteRequest),
    /// Apply the effects to the root; report the new root with `committed`.
    Commit { state_root_hash: Digest, effects: EffectSet },
    /// Commit the end-of-era step; report with `stepped`.
    Step(StepRequest),
    /// Nothing is left to run; take the block with `finish`.
    Finished,
}

/// What event the executor waits for.
#[derive(Clone, Copy, Debug, PartialEq, Eq)]
pub enum Phase {
    Executing,
    Committing,
    Stepping,
    Finished,
}

/// The era after `era_id`. The last era id has no successor and is kept.
pub open spec fn successor_of(era_id: u64) -> u64 {
    if era_id < u64::MAX {
        (era_id + 1) as u64
    } else {
        era_id
    }
}

/// No two deploys share a hash.
pub open spec fn distinct_hashes(deploys: Seq<Deploy>) -> bool {
    forall|i: int, j: int|
        0 <= i < j < deploys.len() ==> #[trigger] deploys[i].hash.0@ != #[trigger] deploys[j].hash.0@
}

fn has_distinct_hashes(deploys: &Vec<Deploy>) -> (r: bool)
    ensures
        r == distinct_hashes(deploys@),
{
    let mut j: usize = 0;
    while j < deploys.len()
        invariant
            0 <= j <= deploys@.len(),
            forall|a: int, b: int|
                0 <= a < b < j ==> #[trigger] deploys@[a].hash.0@ != #[trigger] deploys@[b].hash.0@,
        decreases deploys@.len() - j,
    {
        let mut i: usize = 0;
        while i < j
            invariant
                0 <= i <= j < deploys@.len(),
                forall|a: int, b: int|
                    0 <= a < b < j ==> #[trigger] deploys@[a].hash.0@
                        != #[trigger] deploys@[b].hash.0@,
                forall|a: int| 0 <= a < i ==> #[trigger] deploys@[a].hash.0@ != deploys@[j as int].hash.0@,
            decreases j - i,
        {
            if deploys[i].hash.equals(&deploys[j].hash) {
                return false;
            }
            i += 1;
        }
        j += 1;
    }
    true
}

/// Runs one finalized block: each deploy is executed and committed in block
/// order against the root that the previous one left, then the end-of-era
/// step runs if the block carries an era report. The caller performs each
/// returned `Action` and reports its outcome through the matching method.
pub struct BlockExecutor {
    pub protocol_version: ProtocolVersion,
    pub pre_state: ExecutionPreState,
    pub finalized_block: FinalizedBlock,
    pub deploys: Vec<Deploy>,
    pub state_root_hash: Digest,
    pub execution_results: Vec<(Digest, DeployHeader, ExecutionResult)>,
    pub pending: Option<ExecutionResult>,
    pub step_success: Option<StepSuccess>,
    pub phase: Phase,
    /// The root before each deploy, then the root after the last one.
    pub roots: Ghost<Seq<Digest>>,
}

impl BlockExecutor {
    /// The number of deploys executed and committed so far.
    pub open spec fn done(&self) -> int {
        self.execution_results@.len() as int
    }

    pub open spec fn wf(&self) -> bool {
        &&& self.pre_state.next_block_height == self.finalized_block.height
        &&& distinct_hashes(self.deploys@)
        &&& self.roots@.len() == self.done() + 1
        &&& self.roots@[0] == self.pre_state.pre_state_root_hash
        &&& self.state_root_hash == self.roots@.last()
        &&& self.done() <= self.deploys@.len()
        &&& forall|i: int|
            0 <= i < self.done() ==> (#[trigger] self.execution_results@[i]).0 == self.deploys@[i].hash
                && self.execution_results@[i].1 == self.deploys@[i].header
        &&& match self.phase {
            Phase::Executing => self.done() < self.deploys@.len() && self.pending is None
                && self.step_success is None,
            Phase::Committing => self.done() < self.deploys@.len() && self.pending is Some
                && self.step_success is None,
            Phase::Stepping => self.done() == self.deploys@.len() && self.pending is None
                && self.finalized_block.era_report is Some && self.step_success is None,
            Phase::Finished => self.done() == self.deploys@.len() && self.pending is None && (
            self.step_success is Some <==> self.finalized_block.era_report is Some),
        }
    }

    /// The request that executes deploy `i` against `root`.
    pub open spec fn execute_request_for(&self, i: int, root: Digest) -> ExecuteRequest {
        ExecuteRequest {
            pre_state_hash: root,
            block_time: self.finalized_block.timestamp,
            deploy: self.deploys@[i],
            deploy_index: i as usize,
            protocol_version: self.protocol_version,
            proposer: self.finalized_block.proposer,
        }
    }

    /// `a` is what follows once `done()` deploys are committed: the next
    /// deploy against the current root; else the step against the current
    /// root if the block ends an era; else nothing.
    pub open spec fn is_next_action(&self, a: Action) -> bool {
        if self.done() < self.deploys@.len() {
            &&& self.phase == Phase::Executing
            &&& a == Action::Execute(self.execute_request_for(self.done(), self.state_root_hash))
        } else if self.finalized_block.era_report is Some {
            &&& self.phase == Phase::Stepping
            &&& a is Step
            &&& is_step_request(
                a->Step_0,
                self.state_root_hash,
                self.protocol_version,
                self.finalized_block.era_report->Some_0,
                self.finalized_block.timestamp,
                successor_of(self.finalized_block.era_id),
            )
        } else {
            &&& self.phase == Phase::Finished
            &&& a == Action::Finished
        }
    }

    fn advance(&mut self) -> (a: Action)
        requires
            old(self).pending is None,
            old(self).step_success is None,
        ensures
            final(self).phase != Phase::Committing,
            final(self).is_next_action(a),
            final(self).phase == Phase::Finished ==> final(self).finalized_block.era_report is None,
            *final(self) == (BlockExecutor { phase: final(self).phase, ..*old(self) }),
    {
        if self.execution_results.len() < self.deploys.len() {
            self.phase = Phase::Executing;
            let i = self.execution_results.len();
            Action::Execute(
                ExecuteRequest {
                    pre_state_hash: self.state_root_hash,
                    block_time: self.finalized_block.timestamp,
                    deploy: self.deploys[i],
                    deploy_index: i,
                    protocol_version: self.protocol_version,
                    proposer: self.finalized_block.proposer,
                },
            )
        } else {
            match &self.finalized_block.era_report {
                Some(report) => {
                    let next_era_id = self.finalized_block.era_id.saturating_add(1);
                    let req = step_request(
                        self.protocol_version,
                        self.state_root_hash,
                        report,
                        self.finalized_block.timestamp,
                        next_era_id,
                    );
                    self.phase = Phase::Stepping;
                    Action::Step(req)
                },
                None => {
                    self.phase = Phase::Finished;
                    Action::Finished
                },
            }
        }
    }

    /// Starts the execution of `finalized_block` on `execution_pre_state`.
    /// The pre-state must be for the block's height, and the deploys' hashes
    /// must be distinct.
    pub fn new(
        protocol_version: ProtocolVersion,
        execution_pre_state: ExecutionPreState,
        finalized_block: FinalizedBlock,
        deploys: Vec<Deploy>,
    ) -> (r: Result<(BlockExecutor, Action), BlockExecutionError>)
        ensures
            execution_pre_state.next_block_height != finalized_block.height ==> r == Err::<
                (BlockExecutor, Action),
                _,
            >(BlockExecutionError::HeightMismatch),
            execution_pre_state.next_block_height == finalized_block.height && !distinct_hashes(
                deploys@,
            ) ==> r == Err::<(BlockExecutor, Action), _>(BlockExecutionError::DuplicateDeployHash),
            execution_pre_state.next_block_height == finalized_block.height && distinct_hashes(
                deploys@,
            ) ==> match r {
                Ok((ex, a)) => {
                    &&& ex.wf()
                    &&& ex.protocol_version == protocol_version
                    &&& ex.pre_state == execution_pre_state
                    &&& ex.finalized_block == finalized_block
                    &&& ex.deploys == deploys
                    &&& ex.done() == 0
                    &&& ex.state_root_hash == execution_pre_state.pre_state_root_hash
                    &&& ex.is_next_action(a)
                },
                Err(_) => false,
            },
    {
        if execution_pre_state.next_block_height != finalized_block.height {
            return Err(BlockExecutionError::HeightMismatch);
        }
        if !has_distinct_hashes(&deploys) {
            return Err(BlockExecutionError::DuplicateDeployHash);
        }
        let ghost roots = seq![execution_pre_state.pre_state_root_hash];
        let mut ex = BlockExecutor {
            protocol_version,
            pre_state: execution_pre_state,
            finalized_block,
            deploys,
            state_root_hash: execution_pre_state.pre_state_root_hash,
            execution_results: Vec::new(),
            pending: None,
            step_success: None,
            phase: Phase::Executing,
            roots: Ghost(roots),
        };
        let a = ex.advance();
        Ok((ex, a))
    }

    /// Takes the executor's report for the current deploy. Exactly one result
    /// is expected; its effects, whether the deploy succeeded or failed, are
    /// to be committed against the current root.
    pub fn executed(&mut self, outcome: Result<Vec<EngineExecutionResult>, EngineError>) -> (r:
        Result<Action, BlockExecutionError>)
        requires
            old(self).wf(),
            old(self).phase == Phase::Executing,
        ensures
            match outcome {
                Err(e) => r == Err::<Action, _>(BlockExecutionError::Engine(e)) && *final(self)
                    == *old(self),
                Ok(v) => if v@.len() != 1 {
                    &&& r == Err::<Action, _>(BlockExecutionError::MoreThanOneExecutionResult)
                    &&& *final(self) == *old(self)
                } else {
                    &&& r == Ok::<_, BlockExecutionError>(
                        Action::Commit {
                            state_root_hash: old(self).state_root_hash,
                            effects: effect_of(v@[0]),
                        },
                    )
                    &&& final(self).wf()
                    &&& *final(self) == (BlockExecutor {
                        phase: Phase::Committing,
                        pending: Some(outcome_of(v@[0])),
                        ..*old(self)
                    })
                },
            },
    {
        match outcome {
            Err(e) => Err(BlockExecutionError::Engine(e)),
            Ok(v) => match commit_execution_effects(v) {
                Err(e) => Err(e),
                Ok((effects, result)) => {
                    self.pending = Some(result);
                    self.phase = Phase::Committing;
                    Ok(Action::Commit { state_root_hash: self.state_root_hash, effects })
                },
            },
        }
    }

    /// Takes the root that committing the current deploy's effects produced,
    /// records the deploy's outcome, and moves on from that root.
    pub fn committed(&mut self, outcome: Result<Digest, EngineError>) -> (r: Result<
        Action,
        BlockExecutionError,
    >)
        requires
            old(self).wf(),
            old(self).phase == Phase::Committing,
        ensures
            match outcome {
                Err(e) => r == Err::<Action, _>(BlockExecutionError::Engine(e)) && *final(self)
                    == *old(self),
                Ok(root) => {
                    &&& final(self).wf()
                    &&& final(self).state_root_hash == root
                    &&& final(self).roots@ == old(self).roots@.push(root)
                    &&& final(self).execution_results@ == old(self).execution_results@.push(
                        (
                            old(self).deploys@[old(self).done()].hash,
                            old(self).deploys@[old(self).done()].header,
                            old(self).pending->Some_0,
                        ),
                    )
                    &&& final(self).deploys == old(self).deploys
                    &&& final(self).finalized_block == old(self).finalized_block
                    &&& final(self).pre_state == old(self).pre_state
                    &&& final(self).protocol_version == old(self).protocol_version
                    &&& final(self).step_success == old(self).step_success
                    &&& r is Ok && final(self).is_next_action(r->Ok_0)
                },
            },
    {
        let root = match outcome {
            Err(e) => {
                return Err(BlockExecutionError::Engine(e));
            },
            Ok(root) => root,
        };
        let i = self.execution_results.len();
        let mut pending = None;
        std::mem::swap(&mut pending, &mut self.pending);
        let result = pending.unwrap();
        let deploy = self.deploys[i];
        self.execution_results.push((deploy.hash, deploy.header, result));
        self.state_root_hash = root;
        self.roots = Ghost(self.roots@.push(root));
        let a = self.advance();
        Ok(a)
    }

    /// Takes the outcome of the end-of-era step.
    pub fn stepped(&mut self, outcome: Result<StepSuccess, StepError>) -> (r: Result<
        Action,
        BlockExecutionError,
    >)
        requires
            old(self).wf(),
            old(self).phase == Phase::Stepping,
        ensures
            match outcome {
                Err(e) => r == Err::<Action, _>(BlockExecutionError::Step(e)) && *final(self)
                    == *old(self),
                Ok(s) => {
                    &&& r == Ok::<_, BlockExecutionError>(Action::Finished)
                    &&& final(self).wf()
                    &&& *final(self) == (BlockExecutor {
                        phase: Phase::Finished,
                        step_success: Some(s),
                        ..*old(self)
                    })
                },
            },
    {
        match outcome {
            Err(e) => Err(BlockExecutionError::Step(e)),
            Ok(s) => {
                self.step_success = Some(s);
                self.phase = Phase::Finished;
                Ok(Action::Finished)
            },
        }
    }

    /// Assembles the executed block. Its root is the step's root if the step
    /// ran, else the root after the last deploy; only a step attaches the
    /// next era's validators.
    pub fn finish(self) -> (r: BlockAndExecutionEffects)
        requires
            self.wf(),
            self.phase == Phase::Finished,
        ensures
            r.execution_results == self.execution_results,
            r.block.parent_hash == self.pre_state.parent_hash,
            r.block.parent_seed == self.pre_state.parent_seed,
            r.block.deploy_hashes == self.finalized_block.deploy_hashes,
            r.block.timestamp == self.finalized_block.timestamp,
            r.block.era_id == self.finalized_block.era_id,
            r.block.height == self.finalized_block.height,
            r.block.proposer == self.finalized_block.proposer,
            r.block.protocol_version == self.protocol_version,
            match self.step_success {
                Some(s) => {
                    &&& r.block.state_root_hash == s.post_state_hash
                    &&& r.block.next_era_validator_weights == Some(s.next_era_validators)
                    &&& r.maybe_step_execution_effect == Some(s.execution_effect)
                },
                None => {
                    &&& r.block.state_root_hash == self.state_root_hash
                    &&& r.block.next_era_validator_weights is None
                    &&& r.maybe_step_execution_effect is None
                },
            },
            r.maybe_step_execution_effect is Some <==> self.finalized_block.era_report is Some,
    {
        let BlockExecutor {
            protocol_version,
            pre_state,
            finalized_block,
            execution_results,
            step_success,
            state_root_hash,
            ..
        } = self;
        let FinalizedBlock { deploy_hashes, timestamp, era_id, height, proposer, .. } =
            finalized_block;
        let (root, weights, effect) = match step_success {
            Some(s) => (s.post_state_hash, Some(s.next_era_validators), Some(s.execution_effect)),
            None => (state_root_hash, None, None),
        };
        BlockAndExecutionEffects {
            block: Block {
                parent_hash: pre_state.parent_hash,
                parent_seed: pre_state.parent_seed,
                state_root_hash: root,
                deploy_hashes,
                timestamp,
                era_id,
                height,
                proposer,
                next_era_validator_weights: weights,
                protocol_version,
            },
            execution_results,
            maybe_step_execution_effect: effect,
        }
    }
}

/// Deploys run on the root that the deploy before them left: the request for
/// the next deploy names the root recorded after the previous commit, which
/// for the first deploy is the pre-state root.
pub proof fn lemma_root_threading(ex: BlockExecutor, a: Action)
    requires
        ex.wf(),
        ex.is_next_action(a),
        a is Execute,
    ensures
        a->Execute_0.pre_state_hash == ex.roots@[ex.done()],
        a->Execute_0.deploy == ex.deploys@[ex.done()],
        ex.done() == 0 ==> a->Execute_0.pre_state_hash == ex.pre_state.pre_state_root_hash,
{
}

/// The step runs exactly when the block carries an era report: once every
/// deploy is committed, the next action is a step on the last root if there
/// is a report, and the end of the block if there is none.
pub proof fn lemma_step_gating(ex: BlockExecutor, a: Action)
    requires
        ex.wf(),
        ex.is_next_action(a),
        ex.done() == ex.deploys@.len(),
    ensures
        a is Step <==> ex.finalized_block.era_report is Some,
        a is Step ==> a->Step_0.pre_state_hash == ex.roots@[ex.done()],
        a is Finished <==> ex.finalized_block.era_report is None,
{
}

} // verus!
