use contract_runtime::executor::{
    Action, BlockExecutor, ExecutionPreState, FinalizedBlock, Phase, StepSuccess, ValidatorWeights,
};
use contract_runtime::operations::{
    commit_execution_effects, step_request, BlockExecutionError, Deploy, DeployHeader, EffectSet,
    EngineError, EngineExecutionResult, EraReport, EvictItem, ExecutionResult, ProtocolVersion,
    RewardItem, StepError, Transform,
};
use contract_runtime::types::{Digest, PublicKey};

const V1: ProtocolVersion = ProtocolVersion { major: 1, minor: 0, patch: 0 };

fn digest(b: u8) -> Digest {
    Digest([b; 32])
}

fn effects(tag: u8) -> EffectSet {
    EffectSet { transforms: vec![Transform { key: vec![tag], transform: vec![tag, tag] }] }
}

fn deploy(b: u8) -> Deploy {
    Deploy {
        hash: digest(b),
        header: DeployHeader {
            account: PublicKey::Ed25519([b; 32]),
            timestamp: 10,
            ttl: 100,
            gas_price: 1,
            body_hash: digest(b.wrapping_add(100)),
        },
    }
}

fn pre_state(height: u64) -> ExecutionPreState {
    ExecutionPreState {
        next_block_height: height,
        pre_state_root_hash: digest(0),
        parent_hash: digest(200),
        parent_seed: digest(201),
    }
}

fn block(height: u64, hashes: Vec<Digest>, era_report: Option<EraReport>) -> FinalizedBlock {
    FinalizedBlock {
        deploy_hashes: hashes,
        timestamp: 5000,
        era_report,
        era_id: 3,
        height,
        proposer: PublicKey::Secp256k1([4; 33]),
    }
}

fn report() -> EraReport {
    EraReport {
        equivocators: vec![PublicKey::Ed25519([9; 32])],
        rewards: vec![(PublicKey::Ed25519([1; 32]), 40)],
        inactive_validators: vec![PublicKey::Ed25519([2; 32])],
    }
}

fn weights() -> ValidatorWeights {
    ValidatorWeights { weights: vec![(PublicKey::Ed25519([1; 32]), 1000)] }
}

/// Commits by deriving a new root from the old one and the effects' first key.
fn fake_commit(root: &Digest, effects: &EffectSet) -> Digest {
    let mut bytes = root.0;
    bytes[0] = bytes[0].wrapping_add(effects.transforms[0].key[0]).wrapping_add(1);
    Digest(bytes)
}

#[test]
fn single_result_is_split_into_effects_and_outcome() {
    let r = commit_execution_effects(vec![EngineExecutionResult::Success { effect: effects(1), cost: 7 }]);
    assert_eq!(r, Ok((effects(1), ExecutionResult::Success { cost: 7 })));
    let r = commit_execution_effects(vec![EngineExecutionResult::Failure {
        error: "out of gas".to_string(),
        effect: effects(2),
        cost: 9,
    }]);
    assert_eq!(
        r,
        Ok((effects(2), ExecutionResult::Failure { error_message: "out of gas".to_string(), cost: 9 }))
    );
}

#[test]
fn zero_or_two_results_are_an_invariant_violation() {
    assert_eq!(commit_execution_effects(vec![]), Err(BlockExecutionError::MoreThanOneExecutionResult));
    let two = vec![
        EngineExecutionResult::Success { effect: effects(1), cost: 1 },
        EngineExecutionResult::Success { effect: effects(2), cost: 2 },
    ];
    assert_eq!(commit_execution_effects(two), Err(BlockExecutionError::MoreThanOneExecutionResult));
}

#[test]
fn step_request_maps_the_report_one_to_one() {
    let req = step_request(V1, digest(5), &report(), 5000, 4);
    assert_eq!(req.pre_state_hash, digest(5));
    assert_eq!(req.reward_items, vec![RewardItem { validator_id: PublicKey::Ed25519([1; 32]), value: 40 }]);
    assert_eq!(req.evict_items, vec![EvictItem { validator_id: PublicKey::Ed25519([2; 32]) }]);
    assert!(req.slash_items.is_empty());
    assert!(req.run_auction);
    assert_eq!(req.next_era_id, 4);
    assert_eq!(req.era_end_timestamp_millis, 5000);
}

#[test]
fn height_mismatch_and_duplicate_deploys_are_refused() {
    let r = BlockExecutor::new(V1, pre_state(7), block(8, vec![], None), vec![]);
    assert_eq!(r.err(), Some(BlockExecutionError::HeightMismatch));
    let r = BlockExecutor::new(V1, pre_state(8), block(8, vec![], None), vec![deploy(1), deploy(2), deploy(1)]);
    assert_eq!(r.err(), Some(BlockExecutionError::DuplicateDeployHash));
}

#[test]
fn one_successful_deploy_without_era_report() {
    let (mut ex, a) = BlockExecutor::new(V1, pre_state(8), block(8, vec![digest(1)], None), vec![deploy(1)]).unwrap();
    match a {
        Action::Execute(req) => {
            assert_eq!(req.pre_state_hash, digest(0));
            assert_eq!(req.deploy, deploy(1));
            assert_eq!(req.deploy_index, 0);
            assert_eq!(req.block_time, 5000);
            assert_eq!(req.proposer, PublicKey::Secp256k1([4; 33]));
        }
        other => panic!("unexpected {:?}", other),
    }
    let a = ex.executed(Ok(vec![EngineExecutionResult::Success { effect: effects(1), cost: 21 }])).unwrap();
    let r1 = fake_commit(&digest(0), &effects(1));
    match a {
        Action::Commit { state_root_hash, effects: e } => {
            assert_eq!(state_root_hash, digest(0));
            assert_eq!(e, effects(1));
        }
        other => panic!("unexpected {:?}", other),
    }
    let a = ex.committed(Ok(r1)).unwrap();
    assert_eq!(a, Action::Finished);
    assert_eq!(ex.phase, Phase::Finished);
    let out = ex.finish();
    assert_eq!(out.block.state_root_hash, r1);
    assert_eq!(out.block.next_era_validator_weights, None);
    assert_eq!(out.block.parent_hash, digest(200));
    assert_eq!(out.block.height, 8);
    assert_eq!(out.maybe_step_execution_effect, None);
    assert_eq!(out.execution_results, vec![(digest(1), deploy(1).header, ExecutionResult::Success { cost: 21 })]);
}

#[test]
fn era_report_runs_the_step_on_the_last_root() {
    let (mut ex, a) =
        BlockExecutor::new(V1, pre_state(8), block(8, vec![digest(1)], Some(report())), vec![deploy(1)]).unwrap();
    assert!(matches!(a, Action::Execute(_)));
    ex.executed(Ok(vec![EngineExecutionResult::Success { effect: effects(1), cost: 21 }])).unwrap();
    let r1 = fake_commit(&digest(0), &effects(1));
    let a = ex.committed(Ok(r1)).unwrap();
    match a {
        Action::Step(req) => {
            assert_eq!(req.pre_state_hash, r1);
            assert_eq!(req.reward_items.len(), 1);
            assert_eq!(req.evict_items.len(), 1);
            assert_eq!(req.next_era_id, 4);
        }
        other => panic!("unexpected {:?}", other),
    }
    let r2 = digest(77);
    let a = ex
        .stepped(Ok(StepSuccess { post_state_hash: r2, next_era_validators: weights(), execution_effect: effects(50) }))
        .unwrap();
    assert_eq!(a, Action::Finished);
    let out = ex.finish();
    assert_eq!(out.block.state_root_hash, r2);
    assert_eq!(out.block.next_era_validator_weights, Some(weights()));
    assert_eq!(out.maybe_step_execution_effect, Some(effects(50)));
}

#[test]
fn empty_block_with_era_report_steps_on_the_pre_state_root() {
    let (_ex, a) = BlockExecutor::new(V1, pre_state(8), block(8, vec![], Some(report())), vec![]).unwrap();
    match a {
        Action::Step(req) => assert_eq!(req.pre_state_hash, digest(0)),
        other => panic!("unexpected {:?}", other),
    }
}

#[test]
fn empty_block_without_report_keeps_the_pre_state_root() {
    let (ex, a) = BlockExecutor::new(V1, pre_state(8), block(8, vec![], None), vec![]).unwrap();
    assert_eq!(a, Action::Finished);
    let out = ex.finish();
    assert_eq!(out.block.state_root_hash, digest(0));
    assert!(out.execution_results.is_empty());
    assert_eq!(out.maybe_step_execution_effect, None);
}

#[test]
fn roots_thread_through_deploys_and_failures_are_recorded() {
    let deploys = vec![deploy(1), deploy(2), deploy(3)];
    let (mut ex, mut a) =
        BlockExecutor::new(V1, pre_state(8), block(8, vec![digest(1), digest(2), digest(3)], None), deploys).unwrap();
    let mut root = digest(0);
    let mut seen = Vec::new();
    loop {
        match a {
            Action::Execute(req) => {
                assert_eq!(req.pre_state_hash, root);
                seen.push(req.deploy_index);
                let result = if req.deploy_index == 1 {
                    EngineExecutionResult::Failure { error: "revert".to_string(), effect: effects(9), cost: 3 }
                } else {
                    EngineExecutionResult::Success { effect: effects(req.deploy_index as u8), cost: 5 }
                };
                a = ex.executed(Ok(vec![result])).unwrap();
            }
            Action::Commit { state_root_hash, effects } => {
                assert_eq!(state_root_hash, root);
                root = fake_commit(&state_root_hash, &effects);
                a = ex.committed(Ok(root)).unwrap();
            }
            Action::Step(_) => panic!("no era report"),
            Action::Finished => break,
        }
    }
    assert_eq!(seen, vec![0, 1, 2]);
    let out = ex.finish();
    assert_eq!(out.block.state_root_hash, root);
    assert_eq!(
        out.execution_results[1],
        (digest(2), deploy(2).header, ExecutionResult::Failure { error_message: "revert".to_string(), cost: 3 })
    );
}

#[test]
fn engine_and_step_errors_are_fatal() {
    let (mut ex, _) = BlockExecutor::new(V1, pre_state(8), block(8, vec![digest(1)], Some(report())), vec![deploy(1)]).unwrap();
    let err = EngineError { message: "root not found".to_string() };
    assert_eq!(ex.executed(Err(err.clone())), Err(BlockExecutionError::Engine(err.clone())));
    assert_eq!(ex.executed(Ok(vec![])), Err(BlockExecutionError::MoreThanOneExecutionResult));
    assert_eq!(ex.phase, Phase::Executing);
    ex.executed(Ok(vec![EngineExecutionResult::Success { effect: effects(1), cost: 1 }])).unwrap();
    assert_eq!(ex.committed(Err(err.clone())), Err(BlockExecutionError::Engine(err)));
    ex.committed(Ok(digest(3))).unwrap();
    let step_err = StepError { message: "no bonded stake".to_string() };
    assert_eq!(ex.stepped(Err(step_err.clone())), Err(BlockExecutionError::Step(step_err)));
}
