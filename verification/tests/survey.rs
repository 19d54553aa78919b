use zk_survey::address::{Address, AddressType};
use zk_survey::codec::serialize_as_big_endian;
use zk_survey::ledger::{
    read_variable, AttestationId, CalculationStatus, DataAttestation, SecretVarId,
    SecretVarMetadata, SecretVariable, Signature, ZkState, ZkStateChange,
};
use zk_survey::survey::{
    compute_results, initialize, open_survey_variable, survey_compute_complete,
    survey_results_attested, vote, ContractContext, SurveyError, SurveyState,
    COMPUTATION_INVARIANTS, QUORUM,
};

fn account(tag: u8) -> Address {
    let mut identifier = [0u8; 20];
    identifier[19] = tag;
    Address { address_type: AddressType::Account, identifier }
}

fn at(sender: Address, time: i64) -> ContractContext {
    ContractContext { sender, block_production_time: time }
}

fn quiet() -> ZkState {
    ZkState {
        calculation_state: CalculationStatus::Idle,
        pending_inputs: vec![],
        secret_variables: vec![],
        data_attestations: vec![],
    }
}

fn secret(id: u32, owner: Address) -> SecretVariable {
    SecretVariable {
        variable_id: SecretVarId { raw_id: id },
        owner,
        metadata: SecretVarMetadata {},
        data: None,
    }
}

fn opened(id: u32, owner: Address, value: u128) -> SecretVariable {
    SecretVariable {
        variable_id: SecretVarId { raw_id: id },
        owner,
        metadata: SecretVarMetadata {},
        data: Some(value.to_le_bytes().to_vec()),
    }
}

fn signed(id: u32, signers: u8, data: Vec<u8>) -> DataAttestation {
    DataAttestation {
        attestation_id: AttestationId { raw_id: id },
        signatures: (0..signers)
            .map(|k| Signature { recovery_id: k % 4, value_r: [k; 32], value_s: [k + 1; 32] })
            .collect(),
        data,
    }
}

fn open_survey(end_time: i64) -> SurveyState {
    SurveyState { owner: account(1), end_time, results: vec![] }
}

fn finished_survey() -> SurveyState {
    SurveyState { owner: account(1), end_time: 100, results: vec![4, 2] }
}

#[test]
fn a_survey_opens_with_a_deadline_ahead() {
    let state = initialize(&at(account(1), 0), 100).unwrap();
    assert_eq!(state.owner, account(1));
    assert_eq!(state.end_time, 100);
    assert_eq!(state.results, Vec::<u128>::new());
    assert!(!state.is_finalized());
    assert!(initialize(&at(account(2), 99), 100).is_ok());
    assert!(initialize(&at(account(2), i64::MIN), i64::MAX).is_ok());
}

#[test]
fn a_survey_does_not_open_with_a_deadline_now_or_past() {
    assert_eq!(initialize(&at(account(1), 100), 100), Err(SurveyError::InvalidConfiguration));
    assert_eq!(initialize(&at(account(1), 101), 100), Err(SurveyError::InvalidConfiguration));
    assert_eq!(initialize(&at(account(1), 0), -5), Err(SurveyError::InvalidConfiguration));
    assert_eq!(
        initialize(&at(account(1), i64::MAX), i64::MAX),
        Err(SurveyError::InvalidConfiguration)
    );
}

#[test]
fn a_first_vote_before_the_deadline_is_admitted() {
    let state = open_survey(100);
    let (next, def) = vote(&at(account(2), 99), state.clone(), &quiet()).unwrap();
    assert_eq!(next, state);
    assert!(!def.seal);
    assert_eq!(def.expected_bit_lengths, vec![8u32, 1]);
    assert_eq!(def.metadata, SecretVarMetadata {});
}

#[test]
fn distinct_voters_are_all_admitted() {
    let state = open_survey(100);
    let mut zk = quiet();
    for tag in 10u8..40 {
        let voter = account(tag);
        let admitted = vote(&at(voter, i64::from(tag)), state.clone(), &zk);
        assert!(admitted.is_ok());
        zk.pending_inputs.push(secret(u32::from(tag), voter));
        assert_eq!(
            vote(&at(voter, i64::from(tag) + 1), state.clone(), &zk),
            Err(SurveyError::DuplicateVote)
        );
        if tag % 2 == 0 {
            let promoted = zk.pending_inputs.remove(0);
            zk.secret_variables.push(promoted);
        }
    }
    for tag in 10u8..40 {
        assert_eq!(
            vote(&at(account(tag), 99), state.clone(), &zk),
            Err(SurveyError::DuplicateVote)
        );
    }
}

#[test]
fn a_second_vote_is_refused_while_the_first_is_pending() {
    let mut zk = quiet();
    zk.pending_inputs.push(secret(1, account(2)));
    assert_eq!(vote(&at(account(2), 5), open_survey(100), &zk), Err(SurveyError::DuplicateVote));
    assert!(vote(&at(account(3), 5), open_survey(100), &zk).is_ok());
}

#[test]
fn a_second_vote_is_refused_once_the_first_is_committed() {
    let mut zk = quiet();
    zk.secret_variables.push(secret(1, account(2)));
    zk.secret_variables.push(secret(2, account(4)));
    assert_eq!(vote(&at(account(4), 5), open_survey(100), &zk), Err(SurveyError::DuplicateVote));
    assert_eq!(vote(&at(account(2), 5), open_survey(100), &zk), Err(SurveyError::DuplicateVote));
    assert!(vote(&at(account(3), 5), open_survey(100), &zk).is_ok());
}

#[test]
fn voters_differ_by_kind_as_well_as_by_identifier() {
    let mut zk = quiet();
    zk.pending_inputs.push(secret(1, account(2)));
    let contract = Address {
        address_type: AddressType::PublicContract,
        identifier: account(2).identifier,
    };
    assert!(vote(&at(contract, 5), open_survey(100), &zk).is_ok());
    let mut near = account(2);
    near.identifier[0] = 1;
    assert!(vote(&at(near, 5), open_survey(100), &zk).is_ok());
}

#[test]
fn a_vote_at_or_after_the_deadline_is_refused() {
    let refused = Err(SurveyError::SurveyClosed);
    assert_eq!(vote(&at(account(2), 100), open_survey(100), &quiet()), refused);
    assert_eq!(vote(&at(account(2), 101), open_survey(100), &quiet()), refused);
    assert_eq!(
        vote(&at(account(2), i64::MAX), open_survey(100), &quiet()),
        Err(SurveyError::SurveyClosed)
    );
}

#[test]
fn a_late_vote_is_refused_as_late_whoever_casts_it() {
    let mut zk = quiet();
    zk.pending_inputs.push(secret(1, account(2)));
    zk.secret_variables.push(secret(2, account(3)));
    assert_eq!(vote(&at(account(2), 100), open_survey(100), &zk), Err(SurveyError::SurveyClosed));
    assert_eq!(vote(&at(account(3), 500), open_survey(100), &zk), Err(SurveyError::SurveyClosed));
    assert_eq!(vote(&at(account(9), 500), open_survey(100), &zk), Err(SurveyError::SurveyClosed));
}

#[test]
fn the_tally_is_not_computed_before_the_deadline() {
    assert_eq!(
        compute_results(&at(account(1), 99), open_survey(100), &quiet()),
        Err(SurveyError::SurveyNotClosed)
    );
    let mut busy = quiet();
    busy.calculation_state = CalculationStatus::Running;
    busy.data_attestations.push(signed(1, 4, vec![]));
    assert_eq!(
        compute_results(&at(account(1), 0), open_survey(100), &busy),
        Err(SurveyError::SurveyNotClosed)
    );
}

#[test]
fn the_tally_is_computed_from_the_deadline_on() {
    let state = open_survey(100);
    for time in [100i64, 101, i64::MAX] {
        let (next, changes) =
            compute_results(&at(account(7), time), state.clone(), &quiet()).unwrap();
        assert_eq!(next, state);
        assert_eq!(changes.len(), 1);
        match &changes[0] {
            ZkStateChange::StartComputation { output_variable_metadata } => {
                assert_eq!(output_variable_metadata.len(), 500);
                assert_eq!(output_variable_metadata.len(), COMPUTATION_INVARIANTS);
            }
            other => panic!("not a start of the computation: {:?}", other),
        }
    }
}

#[test]
fn a_computation_is_started_once() {
    let state = open_survey(100);
    let mut zk = quiet();
    zk.secret_variables.push(secret(1, account(2)));
    assert!(compute_results(&at(account(1), 101), state.clone(), &zk).is_ok());
    zk.calculation_state = CalculationStatus::Running;
    assert_eq!(
        compute_results(&at(account(1), 102), state.clone(), &zk),
        Err(SurveyError::ComputationAlreadyInProgress)
    );
    zk.calculation_state = CalculationStatus::Idle;
    zk.data_attestations.push(signed(1, 0, vec![0; 16]));
    assert_eq!(
        compute_results(&at(account(1), 103), state.clone(), &zk),
        Err(SurveyError::AttestationInProgress)
    );
    zk.calculation_state = CalculationStatus::Running;
    assert_eq!(
        compute_results(&at(account(1), 104), state, &zk),
        Err(SurveyError::ComputationAlreadyInProgress)
    );
}

#[test]
fn a_computed_tally_is_opened_and_nothing_else() {
    let state = open_survey(100);
    let mut zk = quiet();
    zk.secret_variables.push(secret(1, account(2)));
    zk.secret_variables.push(secret(2, account(3)));
    zk.secret_variables.push(secret(9, account(1)));
    let outputs = vec![SecretVarId { raw_id: 9 }];
    let (next, changes) = survey_compute_complete(state.clone(), &zk, outputs.clone()).unwrap();
    assert_eq!(next, state);
    assert_eq!(changes, vec![ZkStateChange::OpenVariables { variables: outputs }]);
    let (_, none) = survey_compute_complete(state, &zk, vec![]).unwrap();
    assert_eq!(none, vec![ZkStateChange::OpenVariables { variables: vec![] }]);
}

#[test]
fn a_computed_tally_is_refused_while_an_attestation_is_outstanding() {
    let mut zk = quiet();
    zk.data_attestations.push(signed(1, 2, vec![0; 16]));
    assert_eq!(
        survey_compute_complete(open_survey(100), &zk, vec![SecretVarId { raw_id: 9 }]),
        Err(SurveyError::UnexpectedAttestationState)
    );
}

#[test]
fn an_opened_variable_is_read_least_significant_byte_first() {
    let mut zk = quiet();
    let mut bytes = vec![0u8; 16];
    bytes[0] = 0x34;
    bytes[1] = 0x12;
    zk.secret_variables.push(SecretVariable {
        variable_id: SecretVarId { raw_id: 5 },
        owner: account(1),
        metadata: SecretVarMetadata {},
        data: Some(bytes),
    });
    assert_eq!(read_variable(&zk, SecretVarId { raw_id: 5 }), Some(0x1234));
    assert_eq!(read_variable(&zk, SecretVarId { raw_id: 6 }), None);
}

#[test]
fn a_variable_is_found_by_its_first_entry() {
    let mut zk = quiet();
    zk.secret_variables.push(opened(5, account(1), 10));
    zk.secret_variables.push(opened(5, account(1), 20));
    zk.pending_inputs.push(opened(6, account(1), 30));
    assert_eq!(read_variable(&zk, SecretVarId { raw_id: 5 }), Some(10));
    assert_eq!(zk.get_variable(SecretVarId { raw_id: 5 }), Some(&zk.secret_variables[0]));
    assert_eq!(zk.get_variable(SecretVarId { raw_id: 6 }), None);
}

#[test]
fn an_opened_tally_is_sent_to_be_attested() {
    let state = open_survey(100);
    let mut zk = quiet();
    zk.secret_variables.push(secret(1, account(2)));
    zk.secret_variables.push(opened(7, account(1), 3));
    zk.secret_variables.push(opened(8, account(1), u128::MAX));
    zk.secret_variables.push(opened(9, account(1), 0));
    let ids = vec![SecretVarId { raw_id: 8 }, SecretVarId { raw_id: 7 }, SecretVarId { raw_id: 9 }];
    let (next, changes) = open_survey_variable(state.clone(), &zk, ids).unwrap();
    assert_eq!(next, state);
    let mut expected = vec![0xffu8; 16];
    let mut three = vec![0u8; 16];
    three[15] = 3;
    expected.extend(three);
    expected.extend(vec![0u8; 16]);
    assert_eq!(changes, vec![ZkStateChange::Attest { data_to_attest: expected }]);
}

#[test]
fn no_opened_variables_give_an_empty_payload() {
    let (_, changes) = open_survey_variable(open_survey(100), &quiet(), vec![]).unwrap();
    assert_eq!(changes, vec![ZkStateChange::Attest { data_to_attest: vec![] }]);
}

#[test]
fn an_opened_tally_is_refused_while_an_attestation_is_outstanding() {
    let mut zk = quiet();
    zk.secret_variables.push(opened(7, account(1), 3));
    zk.data_attestations.push(signed(1, 4, vec![0; 16]));
    assert_eq!(
        open_survey_variable(open_survey(100), &zk, vec![SecretVarId { raw_id: 7 }]),
        Err(SurveyError::UnexpectedAttestationState)
    );
}

#[test]
fn a_variable_that_cannot_be_read_stops_the_tally() {
    let mut zk = quiet();
    zk.secret_variables.push(opened(7, account(1), 3));
    zk.secret_variables.push(secret(8, account(1)));
    let mut short = opened(9, account(1), 1);
    short.data = Some(vec![1u8; 15]);
    zk.secret_variables.push(short);
    let mut long = opened(10, account(1), 1);
    long.data = Some(vec![1u8; 17]);
    zk.secret_variables.push(long);
    zk.pending_inputs.push(opened(11, account(1), 1));
    for missing in [8u32, 9, 10, 11, 12] {
        let ids = vec![SecretVarId { raw_id: 7 }, SecretVarId { raw_id: missing }];
        assert_eq!(
            open_survey_variable(open_survey(100), &zk, ids),
            Err(SurveyError::UnreadableVariable)
        );
    }
}

#[test]
fn an_attested_tally_is_committed() {
    let state = open_survey(100);
    let mut zk = quiet();
    zk.data_attestations.push(signed(3, 4, serialize_as_big_endian(&vec![5, 0, 12])));
    let (next, changes) =
        survey_results_attested(state.clone(), &zk, AttestationId { raw_id: 3 }).unwrap();
    assert_eq!(next.owner, state.owner);
    assert_eq!(next.end_time, state.end_time);
    assert_eq!(next.results, vec![5u128, 0, 12]);
    assert!(next.is_finalized());
    assert_eq!(changes, vec![ZkStateChange::ContractDone]);
    assert_eq!(QUORUM, 4);
}

#[test]
fn three_signatures_are_no_quorum() {
    let state = open_survey(100);
    let mut zk = quiet();
    zk.data_attestations.push(signed(3, 3, serialize_as_big_endian(&vec![5, 0, 12])));
    assert_eq!(
        survey_results_attested(state.clone(), &zk, AttestationId { raw_id: 3 }),
        Err(SurveyError::QuorumNotMet)
    );
    assert_eq!(state.results, Vec::<u128>::new());
    assert!(!state.is_finalized());
}

#[test]
fn any_number_of_signatures_but_four_is_no_quorum() {
    for signers in [0u8, 1, 2, 3, 5, 6, 40] {
        let mut zk = quiet();
        zk.data_attestations.push(signed(3, signers, serialize_as_big_endian(&vec![5])));
        assert_eq!(
            survey_results_attested(open_survey(100), &zk, AttestationId { raw_id: 3 }),
            Err(SurveyError::QuorumNotMet)
        );
    }
}

#[test]
fn exactly_one_attestation_must_be_outstanding() {
    let payload = serialize_as_big_endian(&vec![5]);
    assert_eq!(
        survey_results_attested(open_survey(100), &quiet(), AttestationId { raw_id: 3 }),
        Err(SurveyError::UnexpectedAttestationCount)
    );
    let mut zk = quiet();
    zk.data_attestations.push(signed(3, 4, payload.clone()));
    zk.data_attestations.push(signed(4, 4, payload));
    assert_eq!(
        survey_results_attested(open_survey(100), &zk, AttestationId { raw_id: 3 }),
        Err(SurveyError::UnexpectedAttestationCount)
    );
}

#[test]
fn the_attestation_must_be_the_one_outstanding() {
    let mut zk = quiet();
    zk.data_attestations.push(signed(3, 4, serialize_as_big_endian(&vec![5])));
    assert_eq!(
        survey_results_attested(open_survey(100), &zk, AttestationId { raw_id: 4 }),
        Err(SurveyError::UnknownAttestation)
    );
    assert_eq!(zk.get_attestation(AttestationId { raw_id: 4 }), None);
    assert_eq!(zk.get_attestation(AttestationId { raw_id: 3 }), Some(&zk.data_attestations[0]));
}

#[test]
fn a_payload_that_is_no_tally_is_not_committed() {
    for payload in [vec![], vec![0u8; 15], vec![0u8; 17], vec![7u8; 47]] {
        let mut zk = quiet();
        zk.data_attestations.push(signed(3, 4, payload));
        assert_eq!(
            survey_results_attested(open_survey(100), &zk, AttestationId { raw_id: 3 }),
            Err(SurveyError::InvalidPayload)
        );
    }
}

#[test]
fn the_quorum_is_asked_for_before_the_payload_is_read() {
    let mut zk = quiet();
    zk.data_attestations.push(signed(3, 3, vec![0u8; 15]));
    assert_eq!(
        survey_results_attested(open_survey(100), &zk, AttestationId { raw_id: 3 }),
        Err(SurveyError::QuorumNotMet)
    );
}

#[test]
fn a_finished_survey_accepts_nothing() {
    let mut zk = quiet();
    zk.secret_variables.push(opened(7, account(1), 3));
    let refused = Err(SurveyError::SurveyAlreadyFinalized);
    for time in [0i64, 99, 100, 101] {
        assert_eq!(vote(&at(account(2), time), finished_survey(), &zk).map(|_| ()), refused);
        assert_eq!(
            compute_results(&at(account(2), time), finished_survey(), &zk).map(|_| ()),
            refused
        );
    }
    let ids = vec![SecretVarId { raw_id: 7 }];
    assert_eq!(survey_compute_complete(finished_survey(), &zk, ids.clone()).map(|_| ()), refused);
    assert_eq!(open_survey_variable(finished_survey(), &zk, ids).map(|_| ()), refused);
    zk.data_attestations.push(signed(3, 4, serialize_as_big_endian(&vec![9])));
    assert_eq!(
        survey_results_attested(finished_survey(), &zk, AttestationId { raw_id: 3 }).map(|_| ()),
        refused
    );
    assert!(finished_survey().is_finalized());
}

#[test]
fn a_survey_runs_from_creation_to_a_committed_tally() {
    let now: i64 = 1_000;
    let owner = account(1);
    let mut state = initialize(&at(owner, now), now + 100).unwrap();
    let mut zk = quiet();

    for (k, voter) in [account(2), account(3), account(4)].into_iter().enumerate() {
        let (next, def) = vote(&at(voter, now + 10 + k as i64), state, &zk).unwrap();
        state = next;
        assert_eq!(def.expected_bit_lengths, vec![8u32, 1]);
        zk.secret_variables.push(secret(1 + k as u32, voter));
    }
    assert_eq!(
        compute_results(&at(owner, now + 99), state.clone(), &zk),
        Err(SurveyError::SurveyNotClosed)
    );

    let (next, changes) = compute_results(&at(owner, now + 101), state, &zk).unwrap();
    state = next;
    assert!(matches!(changes[0], ZkStateChange::StartComputation { .. }));
    zk.calculation_state = CalculationStatus::Running;
    assert_eq!(
        compute_results(&at(owner, now + 102), state.clone(), &zk),
        Err(SurveyError::ComputationAlreadyInProgress)
    );

    zk.calculation_state = CalculationStatus::Idle;
    zk.secret_variables.push(secret(50, owner));
    zk.secret_variables.push(secret(51, owner));
    let outputs = vec![SecretVarId { raw_id: 50 }, SecretVarId { raw_id: 51 }];
    let (next, changes) = survey_compute_complete(state, &zk, outputs.clone()).unwrap();
    state = next;
    assert_eq!(changes, vec![ZkStateChange::OpenVariables { variables: outputs.clone() }]);

    zk.secret_variables[3].data = Some(2u128.to_le_bytes().to_vec());
    zk.secret_variables[4].data = Some(1u128.to_le_bytes().to_vec());
    let (next, changes) = open_survey_variable(state, &zk, outputs).unwrap();
    state = next;
    let payload = serialize_as_big_endian(&vec![2, 1]);
    assert_eq!(changes, vec![ZkStateChange::Attest { data_to_attest: payload.clone() }]);
    assert!(!state.is_finalized());

    zk.data_attestations.push(signed(1, 4, payload));
    let (next, changes) = survey_results_attested(state, &zk, AttestationId { raw_id: 1 }).unwrap();
    state = next;
    assert_eq!(changes, vec![ZkStateChange::ContractDone]);
    assert_eq!(state.results, vec![2u128, 1]);
    assert_eq!(state.owner, owner);
    assert_eq!(state.end_time, now + 100);
    assert!(state.is_finalized());

    let refused = Err(SurveyError::SurveyAlreadyFinalized);
    assert_eq!(vote(&at(account(9), now + 200), state.clone(), &zk).map(|_| ()), refused);
    assert_eq!(compute_results(&at(owner, now + 200), state.clone(), &zk).map(|_| ()), refused);
    assert_eq!(survey_compute_complete(state.clone(), &zk, vec![]).map(|_| ()), refused);
    assert_eq!(open_survey_variable(state.clone(), &zk, vec![]).map(|_| ()), refused);
    assert_eq!(
        survey_results_attested(state, &zk, AttestationId { raw_id: 1 }).map(|_| ()),
        refused
    );
}
