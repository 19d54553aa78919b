//! The survey itself: its public state and the six calls that move it from
//! collecting votes to a committed, attested tally.
//!
//! No call trusts that the calls before it came in order. Each one looks at the
//! clock and at the collaborators' state as they are now, and refuses what is
//! out of turn. A refused call changes nothing.

use vstd::prelude::*;
use crate::address::Address;
use crate::codec::{decode_spec, deserialize_big_endian, encode_spec, serialize_as_big_endian};
use crate::ledger::{
    owns_one_of, read_variable, AttestationId, CalculationStatus, SecretVarId, SecretVarMetadata,
    ZkInputDef, ZkState, ZkStateChange,
};

verus! {

/// Signatures that an attestation must carry.
pub const QUORUM: usize = 4;

/// Secret invariants that one run of the aggregation may hold at a time.
pub const COMPUTATION_INVARIANTS: usize = 500;

/// Bits of the category that a vote names.
pub const CATEGORY_BITS: u32 = 8;

/// Bits of the flag that goes with it.
pub const FLAG_BITS: u32 = 1;

/// Why a call was refused.
#[derive(Clone, Copy, Debug, PartialEq, Eq, Structural)]
pub enum SurveyError {
    /// The deadline is not after the time of creation.
    InvalidConfiguration,
    /// A vote came at or after the deadline.
    SurveyClosed,
    /// The tally was asked for before the deadline.
    SurveyNotClosed,
    /// The voter has a vote on record already.
    DuplicateVote,
    /// The engine is not idle.
    ComputationAlreadyInProgress,
    /// The tally was asked for while an attestation is outstanding.
    AttestationInProgress,
    /// The engine reported back while an attestation is outstanding.
    UnexpectedAttestationState,
    /// An attestation arrived and not exactly one is outstanding.
    UnexpectedAttestationCount,
    /// The attestation does not carry exactly the quorum of signatures.
    QuorumNotMet,
    /// The tally has been committed; nothing more is accepted.
    SurveyAlreadyFinalized,
    /// A variable reported as opened cannot be read as an integer.
    UnreadableVariable,
    /// No outstanding attestation goes by the name given.
    UnknownAttestation,
    /// The attested bytes are not the encoding of a tally with an entry in it.
    InvalidPayload,
}

/// Who called, and when.
#[derive(Clone, Copy, Debug, PartialEq, Eq)]
pub struct ContractContext {
    pub sender: Address,
    pub block_production_time: i64,
}

/// The public state of a survey.
///
/// `results` is empty until the attested tally is committed, and is not
/// touched again after that: a survey with results is finished.
#[derive(Clone, Debug, PartialEq, Eq)]
pub struct SurveyState {
    pub owner: Address,
    pub end_time: i64,
    pub results: Vec<u128>,
}

impl SurveyState {
    /// Whether the tally has been committed.
    pub open spec fn finalized(&self) -> bool {
        self.results@.len() > 0
    }

    /// Whether the tally has been committed.
    pub fn is_finalized(&self) -> (done: bool)
        ensures
            done == self.finalized(),
    {
        self.results.len() > 0
    }
}

/// Opens a survey that closes at `end_time`, owned by the caller. The deadline
/// must lie after the time of the call.
pub fn initialize(ctx: &ContractContext, end_time: i64) -> (created: Result<
    SurveyState,
    SurveyError,
>)
    ensures
        end_time > ctx.block_production_time ==> created is Ok,
        match created {
            Ok(state) => {
                &&& end_time > ctx.block_production_time
                &&& state.owner == ctx.sender
                &&& state.end_time == end_time
                &&& state.results@ == Seq::<u128>::empty()
            },
            Err(e) => e == SurveyError::InvalidConfiguration && end_time
                <= ctx.block_production_time,
        },
{
    if end_time <= ctx.block_production_time {
        return Err(SurveyError::InvalidConfiguration);
    }
    Ok(SurveyState { owner: ctx.sender, end_time, results: Vec::new() })
}

/// Why a vote by `sender` at time `now` is refused, if it is.
pub open spec fn vote_refusal(state: SurveyState, now: i64, zk_state: ZkState, sender: Address)
    -> Option<SurveyError> {
    if state.finalized() {
        Some(SurveyError::SurveyAlreadyFinalized)
    } else if now >= state.end_time {
        Some(SurveyError::SurveyClosed)
    } else if zk_state.voted(sender) {
        Some(SurveyError::DuplicateVote)
    } else {
        None
    }
}

/// Admits a secret vote from the caller: before the deadline, and only the
/// first from each voter. What comes back tells the engine the shape that the
/// secret input must have.
pub fn vote(ctx: &ContractContext, state: SurveyState, zk_state: &ZkState) -> (admitted: Result<
    (SurveyState, ZkInputDef),
    SurveyError,
>)
    ensures
        match admitted {
            Ok((next, def)) => {
                &&& vote_refusal(state, ctx.block_production_time, *zk_state, ctx.sender) is None
                &&& next == state
                &&& !def.seal
                &&& def.expected_bit_lengths@ == seq![CATEGORY_BITS, FLAG_BITS]
            },
            Err(e) => vote_refusal(state, ctx.block_production_time, *zk_state, ctx.sender)
                == Some(e),
        },
{
    if state.is_finalized() {
        return Err(SurveyError::SurveyAlreadyFinalized);
    }
    if ctx.block_production_time >= state.end_time {
        return Err(SurveyError::SurveyClosed);
    }
    if zk_state.has_voted(&ctx.sender) {
        return Err(SurveyError::DuplicateVote);
    }
    let mut expected_bit_lengths: Vec<u32> = Vec::new();
    expected_bit_lengths.push(CATEGORY_BITS);
    expected_bit_lengths.push(FLAG_BITS);
    assert(expected_bit_lengths@ =~= seq![CATEGORY_BITS, FLAG_BITS]);
    let def = ZkInputDef { seal: false, expected_bit_lengths, metadata: SecretVarMetadata {  } };
    Ok((state, def))
}

/// Why a request for the tally at time `now` is refused, if it is.
pub open spec fn compute_results_refusal(state: SurveyState, now: i64, zk_state: ZkState) -> Option<
    SurveyError,
> {
    if state.finalized() {
        Some(SurveyError::SurveyAlreadyFinalized)
    } else if now < state.end_time {
        Some(SurveyError::SurveyNotClosed)
    } else if zk_state.calculation_state != CalculationStatus::Idle {
        Some(SurveyError::ComputationAlreadyInProgress)
    } else if zk_state.data_attestations@.len() != 0 {
        Some(SurveyError::AttestationInProgress)
    } else {
        None
    }
}

/// Asks the engine to tally the committed votes: from the deadline on, while
/// the engine is idle and no attestation is outstanding.
pub fn compute_results(ctx: &ContractContext, state: SurveyState, zk_state: &ZkState) -> (started:
    Result<(SurveyState, Vec<ZkStateChange>), SurveyError>)
    ensures
        match started {
            Ok((next, changes)) => {
                &&& compute_results_refusal(state, ctx.block_production_time, *zk_state) is None
                &&& next == state
                &&& changes@.len() == 1
                &&& changes@[0] matches ZkStateChange::StartComputation { output_variable_metadata }
                &&& output_variable_metadata@.len() == COMPUTATION_INVARIANTS
            },
            Err(e) => compute_results_refusal(state, ctx.block_production_time, *zk_state) == Some(
                e,
            ),
        },
{
    if state.is_finalized() {
        return Err(SurveyError::SurveyAlreadyFinalized);
    }
    if ctx.block_production_time < state.end_time {
        return Err(SurveyError::SurveyNotClosed);
    }
    if zk_state.calculation_state != CalculationStatus::Idle {
        return Err(SurveyError::ComputationAlreadyInProgress);
    }
    if zk_state.data_attestations.len() != 0 {
        return Err(SurveyError::AttestationInProgress);
    }
    let mut invariants: Vec<SecretVarMetadata> = Vec::new();
    let mut i: usize = 0;
    while i < COMPUTATION_INVARIANTS
        invariant
            i <= COMPUTATION_INVARIANTS,
            invariants@.len() == i,
        decreases COMPUTATION_INVARIANTS - i,
    {
        invariants.push(SecretVarMetadata {  });
        i = i + 1;
    }
    let mut changes: Vec<ZkStateChange> = Vec::new();
    changes.push(ZkStateChange::StartComputation { output_variable_metadata: invariants });
    Ok((state, changes))
}

/// Why the engine's report that the tally is computed is refused, if it is.
pub open spec fn compute_complete_refusal(state: SurveyState, zk_state: ZkState) -> Option<
    SurveyError,
> {
    if state.finalized() {
        Some(SurveyError::SurveyAlreadyFinalized)
    } else if zk_state.data_attestations@.len() != 0 {
        Some(SurveyError::UnexpectedAttestationState)
    } else {
        None
    }
}

/// Takes the engine's report that the tally is computed, and asks it to open
/// the output variables: those, and nothing else.
pub fn survey_compute_complete(
    state: SurveyState,
    zk_state: &ZkState,
    output_variables: Vec<SecretVarId>,
) -> (opening: Result<(SurveyState, Vec<ZkStateChange>), SurveyError>)
    ensures
        match opening {
            Ok((next, changes)) => {
                &&& compute_complete_refusal(state, *zk_state) is None
                &&& next == state
                &&& changes@.len() == 1
                &&& changes@[0] matches ZkStateChange::OpenVariables { variables }
                &&& variables@ == output_variables@
            },
            Err(e) => compute_complete_refusal(state, *zk_state) == Some(e),
        },
{
    if state.is_finalized() {
        return Err(SurveyError::SurveyAlreadyFinalized);
    }
    if zk_state.data_attestations.len() != 0 {
        return Err(SurveyError::UnexpectedAttestationState);
    }
    let mut changes: Vec<ZkStateChange> = Vec::new();
    changes.push(ZkStateChange::OpenVariables { variables: output_variables });
    Ok((state, changes))
}

/// Whether each of `ids` names a variable that can be read as an integer.
pub open spec fn all_readable(zk_state: ZkState, ids: Seq<SecretVarId>) -> bool {
    forall|i: int| 0 <= i < ids.len() ==> (#[trigger] zk_state.opened_value(ids[i])) is Some
}

/// The integers held by the variables `ids`, in the order of `ids`.
pub open spec fn opened_tally(zk_state: ZkState, ids: Seq<SecretVarId>) -> Seq<u128> {
    Seq::new(ids.len(), |i: int| zk_state.opened_value(ids[i]).unwrap())
}

/// Why the engine's report that variables are open is refused, if it is.
pub open spec fn variables_opened_refusal(
    state: SurveyState,
    zk_state: ZkState,
    opened_variables: Seq<SecretVarId>,
) -> Option<SurveyError> {
    if state.finalized() {
        Some(SurveyError::SurveyAlreadyFinalized)
    } else if zk_state.data_attestations@.len() != 0 {
        Some(SurveyError::UnexpectedAttestationState)
    } else if !all_readable(zk_state, opened_variables) {
        Some(SurveyError::UnreadableVariable)
    } else {
        None
    }
}

/// Takes the engine's report that the output variables are open: reads the
/// tally out of them, in their order, and asks for signatures over its encoding.
pub fn open_survey_variable(
    state: SurveyState,
    zk_state: &ZkState,
    opened_variables: Vec<SecretVarId>,
) -> (attesting: Result<(SurveyState, Vec<ZkStateChange>), SurveyError>)
    ensures
        match attesting {
            Ok((next, changes)) => {
                &&& variables_opened_refusal(state, *zk_state, opened_variables@) is None
                &&& next == state
                &&& changes@.len() == 1
                &&& changes@[0] matches ZkStateChange::Attest { data_to_attest }
                &&& data_to_attest@ == encode_spec(opened_tally(*zk_state, opened_variables@))
            },
            Err(e) => variables_opened_refusal(state, *zk_state, opened_variables@) == Some(e),
        },
{
    if state.is_finalized() {
        return Err(SurveyError::SurveyAlreadyFinalized);
    }
    if zk_state.data_attestations.len() != 0 {
        return Err(SurveyError::UnexpectedAttestationState);
    }
    let mut survey_result: Vec<u128> = Vec::new();
    let mut i: usize = 0;
    while i < opened_variables.len()
        invariant
            i <= opened_variables.len(),
            !state.finalized(),
            zk_state.data_attestations@.len() == 0,
            survey_result@.len() == i,
            forall|j: int|
                0 <= j < i ==> zk_state.opened_value(#[trigger] opened_variables@[j]) == Some(
                    survey_result@[j],
                ),
        decreases opened_variables.len() - i,
    {
        match read_variable(zk_state, opened_variables[i]) {
            Some(amount) => {
                survey_result.push(amount);
            },
            None => {
                assert(zk_state.opened_value(opened_variables@[i as int]) is None);
                return Err(SurveyError::UnreadableVariable);
            },
        }
        i = i + 1;
    }
    assert(survey_result@ =~= opened_tally(*zk_state, opened_variables@));
    let data_to_attest: Vec<u8> = serialize_as_big_endian(&survey_result);
    let mut changes: Vec<ZkStateChange> = Vec::new();
    changes.push(ZkStateChange::Attest { data_to_attest });
    Ok((state, changes))
}

/// The tally that an attested payload commits: what the bytes decode to, if
/// they decode and there is an entry in it.
pub open spec fn attested_tally(payload: Seq<u8>) -> Option<Seq<u128>> {
    match decode_spec(payload) {
        Some(tally) => if tally.len() > 0 {
            Some(tally)
        } else {
            None
        },
        None => None,
    }
}

/// Why the gateway's report that an attestation is complete is refused, if it is.
pub open spec fn attested_refusal(
    state: SurveyState,
    zk_state: ZkState,
    attestation_id: AttestationId,
) -> Option<SurveyError> {
    if state.finalized() {
        Some(SurveyError::SurveyAlreadyFinalized)
    } else if zk_state.data_attestations@.len() != 1 {
        Some(SurveyError::UnexpectedAttestationCount)
    } else if zk_state.attestation(attestation_id) is None {
        Some(SurveyError::UnknownAttestation)
    } else if zk_state.attestation(attestation_id).unwrap().signatures@.len() != QUORUM {
        Some(SurveyError::QuorumNotMet)
    } else if attested_tally(zk_state.attestation(attestation_id).unwrap().data@) is None {
        Some(SurveyError::InvalidPayload)
    } else {
        None
    }
}

/// Takes the gateway's report that an attestation is complete: where it is the
/// one outstanding and carries the quorum of signatures, commits the tally
/// that its payload encodes and tells the collaborators that the survey is over.
pub fn survey_results_attested(
    state: SurveyState,
    zk_state: &ZkState,
    attestation_id: AttestationId,
) -> (committed: Result<(SurveyState, Vec<ZkStateChange>), SurveyError>)
    ensures
        match committed {
            Ok((next, changes)) => {
                &&& attested_refusal(state, *zk_state, attestation_id) is None
                &&& next.owner == state.owner
                &&& next.end_time == state.end_time
                &&& Some(next.results@) == attested_tally(
                    zk_state.attestation(attestation_id).unwrap().data@,
                )
                &&& next.finalized()
                &&& changes@.len() == 1
                &&& changes@[0] is ContractDone
            },
            Err(e) => attested_refusal(state, *zk_state, attestation_id) == Some(e),
        },
{
    if state.is_finalized() {
        return Err(SurveyError::SurveyAlreadyFinalized);
    }
    if zk_state.data_attestations.len() != 1 {
        return Err(SurveyError::UnexpectedAttestationCount);
    }
    let attestation = match zk_state.get_attestation(attestation_id) {
        Some(attestation) => attestation,
        None => {
            return Err(SurveyError::UnknownAttestation);
        },
    };
    if attestation.signatures.len() != QUORUM {
        return Err(SurveyError::QuorumNotMet);
    }
    let results: Vec<u128> = match deserialize_big_endian(&attestation.data) {
        Some(results) => results,
        None => {
            return Err(SurveyError::InvalidPayload);
        },
    };
    if results.len() == 0 {
        return Err(SurveyError::InvalidPayload);
    }
    let mut changes: Vec<ZkStateChange> = Vec::new();
    changes.push(ZkStateChange::ContractDone);
    Ok((SurveyState { owner: state.owner, end_time: state.end_time, results }, changes))
}

/// A finished survey accepts nothing: every call on it is refused with
/// `SurveyAlreadyFinalized`, whatever the time and the collaborators' state.
pub proof fn lemma_finalized_is_terminal(
    state: SurveyState,
    now: i64,
    zk_state: ZkState,
    sender: Address,
    variables: Seq<SecretVarId>,
    attestation_id: AttestationId,
)
    requires
        state.finalized(),
    ensures
        vote_refusal(state, now, zk_state, sender) == Some(SurveyError::SurveyAlreadyFinalized),
        compute_results_refusal(state, now, zk_state) == Some(
            SurveyError::SurveyAlreadyFinalized,
        ),
        compute_complete_refusal(state, zk_state) == Some(SurveyError::SurveyAlreadyFinalized),
        variables_opened_refusal(state, zk_state, variables) == Some(
            SurveyError::SurveyAlreadyFinalized,
        ),
        attested_refusal(state, zk_state, attestation_id) == Some(
            SurveyError::SurveyAlreadyFinalized,
        ),
{
}

/// In an unfinished survey a vote at or after the deadline is refused with
/// `SurveyClosed`, whether or not the voter has voted before.
pub proof fn lemma_vote_after_deadline(
    state: SurveyState,
    now: i64,
    zk_state: ZkState,
    sender: Address,
)
    requires
        !state.finalized(),
        now >= state.end_time,
    ensures
        vote_refusal(state, now, zk_state, sender) == Some(SurveyError::SurveyClosed),
{
}

/// In an unfinished survey, before the deadline, a vote from a voter who has
/// one on record, pending or committed, is refused with `DuplicateVote`.
pub proof fn lemma_second_vote_refused(
    state: SurveyState,
    now: i64,
    zk_state: ZkState,
    sender: Address,
)
    requires
        !state.finalized(),
        now < state.end_time,
        zk_state.voted(sender),
    ensures
        vote_refusal(state, now, zk_state, sender) == Some(SurveyError::DuplicateVote),
{
}

/// `after` is `before` with a vote of `voter` put on record: the same voters
/// have voted, and `voter`.
pub open spec fn admits(before: ZkState, after: ZkState, voter: Address) -> bool {
    forall|who: Address| #[trigger] after.voted(who) <==> (before.voted(who) || who == voter)
}

/// Putting an admitted vote on record keeps the ledger one vote to a voter,
/// and adds the voter to those who have voted and nobody else.
pub proof fn lemma_admission_keeps_one_vote_each(
    state: SurveyState,
    now: i64,
    before: ZkState,
    after: ZkState,
    sender: Address,
)
    requires
        vote_refusal(state, now, before, sender) is None,
        before.one_vote_each(),
        before.records_vote(after, sender),
    ensures
        after.one_vote_each(),
        admits(before, after, sender),
{
    let committed = before.secret_variables@;
    let pending = before.pending_inputs@;
    let pending_after = after.pending_inputs@;
    let old_owners = before.owners();
    let new_owners = after.owners();
    assert(new_owners =~= old_owners.push(sender)) by {
        assert forall|i: int| 0 <= i < pending.len() implies pending_after[i] == pending[i] by {
            assert(pending_after.drop_last()[i] == pending_after[i]);
        }
    }
    assert forall|i: int| 0 <= i < old_owners.len() implies old_owners[i] != sender by {
        if i < committed.len() {
            assert(committed[i].owner == old_owners[i]);
        } else {
            assert(pending[i - committed.len()].owner == old_owners[i]);
        }
    }
    assert forall|who: Address| #[trigger]
        after.voted(who) <==> (before.voted(who) || who == sender) by {
        if owns_one_of(pending_after, who) {
            let i = choose|i: int|
                0 <= i < pending_after.len() && (#[trigger] pending_after[i]).owner == who;
            if i < pending.len() {
                assert(pending[i].owner == who);
            }
        }
        if owns_one_of(pending, who) {
            let i = choose|i: int| 0 <= i < pending.len() && (#[trigger] pending[i]).owner == who;
            assert(pending_after[i].owner == who);
        }
        if who == sender {
            assert(pending_after[pending_after.len() - 1].owner == who);
        }
    }
}

/// Whether `who` is among the first `k` of `voters`.
pub open spec fn among_first(voters: Seq<Address>, k: int, who: Address) -> bool {
    exists|j: int| 0 <= j < k && #[trigger] voters[j] == who
}

/// Where each ledger follows the one before it by admitting the next voter,
/// those on record in the `k`-th are those on record at the start and the
/// first `k` voters.
pub proof fn lemma_on_record_after(
    ledgers: Seq<ZkState>,
    voters: Seq<Address>,
    k: int,
    who: Address,
)
    requires
        ledgers.len() == voters.len() + 1,
        forall|i: int|
            0 <= i < voters.len() ==> admits(#[trigger] ledgers[i], ledgers[i + 1], voters[i]),
        0 <= k <= voters.len(),
    ensures
        ledgers[k].voted(who) <==> (ledgers[0].voted(who) || among_first(voters, k, who)),
    decreases k,
{
    if k > 0 {
        lemma_on_record_after(ledgers, voters, k - 1, who);
        assert(admits(ledgers[k - 1], ledgers[k - 1 + 1], voters[k - 1]));
        if among_first(voters, k, who) {
            let j = choose|j: int| 0 <= j < k && #[trigger] voters[j] == who;
            if j < k - 1 {
                assert(among_first(voters, k - 1, who));
            }
        }
        if among_first(voters, k - 1, who) || who == voters[k - 1] {
            assert(among_first(voters, k, who));
        }
    }
}

/// Votes from distinct voters, none of whom has voted before, each cast
/// before the deadline of an unfinished survey, are all admitted; and once a
/// voter's vote is on record, another from the same voter is refused with
/// `DuplicateVote`.
///
/// `ledgers[i]` is the collaborators' state when `voters[i]` votes at
/// `times[i]`, and `ledgers[i + 1]` is that state with the vote on record.
pub proof fn lemma_distinct_voters_admitted(
    state: SurveyState,
    times: Seq<i64>,
    ledgers: Seq<ZkState>,
    voters: Seq<Address>,
)
    requires
        !state.finalized(),
        times.len() == voters.len(),
        ledgers.len() == voters.len() + 1,
        forall|i: int| 0 <= i < times.len() ==> #[trigger] times[i] < state.end_time,
        forall|i: int, j: int| 0 <= i < j < voters.len() ==> voters[i] != voters[j],
        forall|i: int| 0 <= i < voters.len() ==> !ledgers[0].voted(#[trigger] voters[i]),
        forall|i: int|
            0 <= i < voters.len() ==> admits(#[trigger] ledgers[i], ledgers[i + 1], voters[i]),
    ensures
        forall|i: int|
            0 <= i < voters.len() ==> vote_refusal(
                state,
                times[i],
                #[trigger] ledgers[i],
                voters[i],
            ) is None,
        forall|i: int, j: int, now: i64|
            0 <= i < j <= voters.len() && now < state.end_time ==> #[trigger] vote_refusal(
                state,
                now,
                ledgers[j],
                voters[i],
            ) == Some(SurveyError::DuplicateVote),
{
    assert forall|i: int| 0 <= i < voters.len() implies vote_refusal(
        state,
        times[i],
        #[trigger] ledgers[i],
        voters[i],
    ) is None by {
        lemma_on_record_after(ledgers, voters, i, voters[i]);
        if among_first(voters, i, voters[i]) {
            let j = choose|j: int| 0 <= j < i && #[trigger] voters[j] == voters[i];
            assert(voters[j] != voters[i]);
        }
    }
    assert forall|i: int, j: int, now: i64|
        0 <= i < j <= voters.len() && now < state.end_time implies #[trigger] vote_refusal(
        state,
        now,
        ledgers[j],
        voters[i],
    ) == Some(SurveyError::DuplicateVote) by {
        lemma_on_record_after(ledgers, voters, j, voters[i]);
        assert(among_first(voters, j, voters[i]));
    }
}

/// In an unfinished survey a request for the tally before the deadline is
/// refused with `SurveyNotClosed`.
pub proof fn lemma_compute_before_deadline(state: SurveyState, now: i64, zk_state: ZkState)
    requires
        !state.finalized(),
        now < state.end_time,
    ensures
        compute_results_refusal(state, now, zk_state) == Some(SurveyError::SurveyNotClosed),
{
}

/// From the deadline on, with the engine idle and no attestation outstanding,
/// a request for the tally of an unfinished survey is granted.
pub proof fn lemma_compute_when_settled(state: SurveyState, now: i64, zk_state: ZkState)
    requires
        !state.finalized(),
        now >= state.end_time,
        zk_state.calculation_state == CalculationStatus::Idle,
        zk_state.data_attestations@.len() == 0,
    ensures
        compute_results_refusal(state, now, zk_state) is None,
{
}

/// A computation is started once: after a request for the tally was granted,
/// every later request is refused for as long as the engine reports that it
/// is running or an attestation is outstanding.
pub proof fn lemma_compute_starts_once(
    state: SurveyState,
    now: i64,
    zk_state: ZkState,
    later: i64,
    zk_later: ZkState,
)
    requires
        compute_results_refusal(state, now, zk_state) is None,
        now <= later,
        zk_later.calculation_state == CalculationStatus::Running
            || zk_later.data_attestations@.len() > 0,
    ensures
        compute_results_refusal(state, later, zk_later) == Some(
            if zk_later.calculation_state == CalculationStatus::Running {
                SurveyError::ComputationAlreadyInProgress
            } else {
                SurveyError::AttestationInProgress
            },
        ),
{
}

/// What is asked to be attested is what is committed: where the payload of a
/// complete attestation is the encoding of a tally with an entry in it, that
/// tally is the one that the attestation commits.
pub proof fn lemma_attested_tally_of_encoding(tally: Seq<u128>)
    requires
        tally.len() > 0,
    ensures
        attested_tally(encode_spec(tally)) == Some(tally),
{
    crate::codec::lemma_decode_encode(tally);
}

/// What was opened is what is committed: where the tally read from the opened
/// variables has an entry in it, and the one outstanding attestation carries
/// its encoding under a quorum of signatures, the attestation is accepted and
/// commits that tally.
pub proof fn lemma_commits_what_was_opened(
    state: SurveyState,
    zk_opened: ZkState,
    opened_variables: Seq<SecretVarId>,
    zk_attested: ZkState,
    attestation_id: AttestationId,
)
    requires
        variables_opened_refusal(state, zk_opened, opened_variables) is None,
        opened_variables.len() > 0,
        zk_attested.data_attestations@.len() == 1,
        zk_attested.attestation(attestation_id) is Some,
        zk_attested.attestation(attestation_id).unwrap().signatures@.len() == QUORUM,
        zk_attested.attestation(attestation_id).unwrap().data@ == encode_spec(
            opened_tally(zk_opened, opened_variables),
        ),
    ensures
        attested_refusal(state, zk_attested, attestation_id) is None,
        attested_tally(zk_attested.attestation(attestation_id).unwrap().data@) == Some(
            opened_tally(zk_opened, opened_variables),
        ),
{
    lemma_attested_tally_of_encoding(opened_tally(zk_opened, opened_variables));
}

} // verus!
