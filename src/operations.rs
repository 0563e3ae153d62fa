use itertools::Itertools;
use vstd::prelude::*;

use crate::types::{Digest, PublicKey};

verus! {

/// The protocol version under which a block is executed.
#[derive(Clone, Copy, Debug, PartialEq, Eq, PartialOrd, Ord, Hash)]
pub struct ProtocolVersion {
    pub major: u32,
    pub minor: u32,
    pub patch: u32,
}

/// The header of a deploy, recorded beside its execution result.
#[derive(Clone, Copy, Debug, PartialEq, Eq)]
pub struct DeployHeader {
    pub account: PublicKey,
    pub timestamp: u64,
    pub ttl: u64,
    pub gas_price: u64,
    pub body_hash: Digest,
}

/// What block execution needs to know of a deploy: its hash and its header.
/// The deploy's code travels from the caller to the executor untouched.
#[derive(Clone, Copy, Debug, PartialEq, Eq)]
pub struct Deploy {
    pub hash: Digest,
    pub header: DeployHeader,
}

/// One write to global state, as opaque key and transform bytes.
#[derive(Clone, Debug, PartialEq, Eq)]
pub struct Transform {
    pub key: Vec<u8>,
    pub transform: Vec<u8>,
}

/// The transforms that one deploy or one step makes to global state.
#[derive(Clone, Debug, PartialEq, Eq)]
pub struct EffectSet {
    pub transforms: Vec<Transform>,
}

/// What the bytecode executor reports for one deploy.
#[derive(Clone, Debug, PartialEq, Eq)]
pub enum EngineExecutionResult {
    Success { effect: EffectSet, cost: u64 },
    Failure { error: String, effect: EffectSet, cost: u64 },
}

/// The externally visible outcome of one deploy. A failed deploy is a
/// charged outcome, not an error.
#[derive(Clone, Debug, PartialEq, Eq)]
pub enum ExecutionResult {
    Success { cost: u64 },
    Failure { error_message: String, cost: u64 },
}

/// An error of the execution engine or of the global-state store.
#[derive(Clone, Debug, PartialEq, Eq)]
pub struct EngineError {
    pub message: String,
}

/// An error of the end-of-era step.
#[derive(Clone, Debug, PartialEq, Eq)]
pub struct StepError {
    pub message: String,
}

/// Why a block could not be executed. Each of these is fatal to the block.
#[derive(Clone, Debug, PartialEq, Eq)]
pub enum BlockExecutionError {
    /// An execution request for one deploy did not yield exactly one result.
    MoreThanOneExecutionResult,
    /// The pre-state is for another height than the block's.
    HeightMismatch,
    /// Two deploys of the block share a hash.
    DuplicateDeployHash,
    Engine(EngineError),
    Step(StepError),
}

/// The effect set that an engine result carries, whether it succeeded or not.
pub open spec fn effect_of(r: EngineExecutionResult) -> EffectSet {
    match r {
        EngineExecutionResult::Success { effect, .. } => effect,
        EngineExecutionResult::Failure { effect, .. } => effect,
    }
}

/// The externally visible outcome of an engine result.
pub open spec fn outcome_of(r: EngineExecutionResult) -> ExecutionResult {
    match r {
        EngineExecutionResult::Success { cost, .. } => ExecutionResult::Success { cost },
        EngineExecutionResult::Failure { error, cost, .. } => ExecutionResult::Failure {
            error_message: error,
            cost,
        },
    }
}

/// Relies on itertools' `Itertools::exactly_one`: it returns the iterator's
/// only item when there is exactly one, and an error otherwise; a `Vec`
/// iterates over its items in order.
#[verifier::external_body]
fn exactly_one(results: Vec<EngineExecutionResult>) -> (r: Option<EngineExecutionResult>)
    ensures
        results@.len() == 1 ==> r == Some(results@[0]),
        results@.len() != 1 ==> r is None,
{
    results.into_iter().exactly_one().ok()
}

/// Splits the raw outcome of executing one deploy into the effect set to
/// commit and the outcome to record. Exactly one result is expected; any
/// other number is an invariant violation of the engine.
pub fn commit_execution_effects(execution_results: Vec<EngineExecutionResult>) -> (r: Result<
    (EffectSet, ExecutionResult),
    BlockExecutionError,
>)
    ensures
        execution_results@.len() != 1 <==> r == Err::<(EffectSet, ExecutionResult), _>(
            BlockExecutionError::MoreThanOneExecutionResult,
        ),
        execution_results@.len() == 1 ==> r == Ok::<_, BlockExecutionError>(
            (effect_of(execution_results@[0]), outcome_of(execution_results@[0])),
        ),
{
    match exactly_one(execution_results) {
        None => Err(BlockExecutionError::MoreThanOneExecutionResult),
        Some(EngineExecutionResult::Success { effect, cost }) => Ok(
            (effect, ExecutionResult::Success { cost }),
        ),
        Some(EngineExecutionResult::Failure { error, effect, cost }) => Ok(
            (effect, ExecutionResult::Failure { error_message: error, cost }),
        ),
    }
}

/// The consensus report that an era-ending block carries.
#[derive(Clone, Debug, PartialEq, Eq)]
pub struct EraReport {
    /// Validators seen to equivocate; this consensus does not slash them.
    pub equivocators: Vec<PublicKey>,
    /// Reward weights, one per validator.
    pub rewards: Vec<(PublicKey, u64)>,
    /// Validators to evict.
    pub inactive_validators: Vec<PublicKey>,
}

#[derive(Clone, Copy, Debug, PartialEq, Eq)]
pub struct RewardItem {
    pub validator_id: PublicKey,
    pub value: u64,
}

#[derive(Clone, Copy, Debug, PartialEq, Eq)]
pub struct EvictItem {
    pub validator_id: PublicKey,
}

#[derive(Clone, Copy, Debug, PartialEq, Eq)]
pub struct SlashItem {
    pub validator_id: PublicKey,
}

/// The end-of-era request handed to the engine.
#[derive(Clone, Debug, PartialEq, Eq)]
pub struct StepRequest {
    pub pre_state_hash: Digest,
    pub protocol_version: ProtocolVersion,
    pub reward_items: Vec<RewardItem>,
    pub slash_items: Vec<SlashItem>,
    pub evict_items: Vec<EvictItem>,
    pub run_auction: bool,
    pub next_era_id: u64,
    pub era_end_timestamp_millis: u64,
}

/// `req` is the step request for `report` against `root`: one reward item
/// per reward weight and one evict item per inactive validator, in order, no
/// slash item, and the auction run.
pub open spec fn is_step_request(
    req: StepRequest,
    root: Digest,
    protocol_version: ProtocolVersion,
    report: EraReport,
    era_end_timestamp_millis: u64,
    next_era_id: u64,
) -> bool {
    &&& req.pre_state_hash == root
    &&& req.protocol_version == protocol_version
    &&& req.reward_items@.len() == report.rewards@.len()
    &&& forall|i: int|
        0 <= i < report.rewards@.len() ==> #[trigger] req.reward_items@[i] == (RewardItem {
            validator_id: report.rewards@[i].0,
            value: report.rewards@[i].1,
        })
    &&& req.evict_items@.len() == report.inactive_validators@.len()
    &&& forall|i: int|
        0 <= i < report.inactive_validators@.len() ==> #[trigger] req.evict_items@[i] == (
        EvictItem { validator_id: report.inactive_validators@[i] })
    &&& req.slash_items@.len() == 0
    &&& req.run_auction
    &&& req.next_era_id == next_era_id
    &&& req.era_end_timestamp_millis == era_end_timestamp_millis
}

/// Builds the request that commits the end-of-era step of `era_report`
/// against `pre_state_root_hash`.
pub fn step_request(
    protocol_version: ProtocolVersion,
    pre_state_root_hash: Digest,
    era_report: &EraReport,
    era_end_timestamp_millis: u64,
    next_era_id: u64,
) -> (r: StepRequest)
    ensures
        is_step_request(
            r,
            pre_state_root_hash,
            protocol_version,
            *era_report,
            era_end_timestamp_millis,
            next_era_id,
        ),
{
    let mut reward_items: Vec<RewardItem> = Vec::new();
    let mut i: usize = 0;
    while i < era_report.rewards.len()
        invariant
            0 <= i <= era_report.rewards@.len(),
            reward_items@.len() == i,
            forall|j: int|
                0 <= j < i ==> #[trigger] reward_items@[j] == (RewardItem {
                    validator_id: era_report.rewards@[j].0,
                    value: era_report.rewards@[j].1,
                }),
        decreases era_report.rewards@.len() - i,
    {
        let (validator_id, value) = era_report.rewards[i];
        reward_items.push(RewardItem { validator_id, value });
        i += 1;
    }
    let mut evict_items: Vec<EvictItem> = Vec::new();
    let mut i: usize = 0;
    while i < era_report.inactive_validators.len()
        invariant
            0 <= i <= era_report.inactive_validators@.len(),
            evict_items@.len() == i,
            forall|j: int|
                0 <= j < i ==> #[trigger] evict_items@[j] == (EvictItem {
                    validator_id: era_report.inactive_validators@[j],
                }),
        decreases era_report.inactive_validators@.len() - i,
    {
        evict_items.push(EvictItem { validator_id: era_report.inactive_validators[i] });
        i += 1;
    }
    StepRequest {
        pre_state_hash: pre_state_root_hash,
        protocol_version,
        reward_items,
        // This consensus does not slash; the field serves those that do.
        slash_items: Vec::new(),
        evict_items,
        run_auction: true,
        next_era_id,
        era_end_timestamp_millis,
    }
}

} // verus!
