//! What the survey sees of its two collaborators: the engine that keeps the
//! secret votes and computes on them, and the gateway that collects signatures.
//!
//! The survey never holds a vote in the clear. It sees who owns each secret
//! variable, the bytes of a variable once it has been opened, whether a
//! computation is running, and the attestations that are outstanding.

use vstd::prelude::*;
use crate::address::Address;
use crate::codec::{le_value, read_little_endian};

verus! {

/// What is attached to each secret variable: nothing, for now.
#[derive(Clone, Copy, Debug, PartialEq, Eq, Structural)]
pub struct SecretVarMetadata {}

/// Names a secret variable.
#[derive(Clone, Copy, Debug, PartialEq, Eq, Structural)]
pub struct SecretVarId {
    pub raw_id: u32,
}

/// Names an attestation.
#[derive(Clone, Copy, Debug, PartialEq, Eq, Structural)]
pub struct AttestationId {
    pub raw_id: u32,
}

/// Whether the engine is free to start a computation.
#[derive(Clone, Copy, Debug, PartialEq, Eq, Structural)]
pub enum CalculationStatus {
    Idle,
    Running,
}

/// A secret variable as the survey sees it. `data` is `None` for as long as
/// the value is secret, and holds the value's bytes once it has been opened.
#[derive(Clone, Debug, PartialEq, Eq)]
pub struct SecretVariable {
    pub variable_id: SecretVarId,
    pub owner: Address,
    pub metadata: SecretVarMetadata,
    pub data: Option<Vec<u8>>,
}

/// One signer's signature over an attested payload; the signer's key is
/// recovered from it.
#[derive(Clone, Copy, Debug, PartialEq, Eq)]
pub struct Signature {
    pub recovery_id: u8,
    pub value_r: [u8; 32],
    pub value_s: [u8; 32],
}

/// A payload together with the signatures collected over it.
#[derive(Clone, Debug, PartialEq, Eq)]
pub struct DataAttestation {
    pub attestation_id: AttestationId,
    pub signatures: Vec<Signature>,
    pub data: Vec<u8>,
}

/// The collaborators' state at the time of a call.
#[derive(Clone, Debug, PartialEq, Eq)]
pub struct ZkState {
    pub calculation_state: CalculationStatus,
    /// Votes that were submitted and are not yet committed.
    pub pending_inputs: Vec<SecretVariable>,
    /// Committed votes, and the outputs of a computation.
    pub secret_variables: Vec<SecretVariable>,
    /// Attestations that were requested and are not yet consumed.
    pub data_attestations: Vec<DataAttestation>,
}

/// What the engine is told to expect of a secret input before it admits it.
#[derive(Clone, Debug, PartialEq, Eq)]
pub struct ZkInputDef {
    /// Whether the input is sealed against its owner.
    pub seal: bool,
    /// The width in bits of each field of the input, in order.
    pub expected_bit_lengths: Vec<u32>,
    pub metadata: SecretVarMetadata,
}

/// A request from the survey to one of its collaborators.
#[derive(Clone, Debug, PartialEq, Eq)]
pub enum ZkStateChange {
    /// Run the aggregation over every committed vote; one metadata record for
    /// each secret invariant that the run may hold at a time.
    StartComputation { output_variable_metadata: Vec<SecretVarMetadata> },
    /// Open these variables, and no others.
    OpenVariables { variables: Vec<SecretVarId> },
    /// Collect signatures over these bytes.
    Attest { data_to_attest: Vec<u8> },
    /// The survey is over.
    ContractDone,
}

/// The first of `variables` that goes by `id`.
pub open spec fn first_variable(variables: Seq<SecretVariable>, id: SecretVarId) -> Option<
    SecretVariable,
>
    decreases variables.len(),
{
    if variables.len() == 0 {
        None
    } else if variables.first().variable_id == id {
        Some(variables.first())
    } else {
        first_variable(variables.drop_first(), id)
    }
}

/// The first of `attestations` that goes by `id`.
pub open spec fn first_attestation(attestations: Seq<DataAttestation>, id: AttestationId) -> Option<
    DataAttestation,
>
    decreases attestations.len(),
{
    if attestations.len() == 0 {
        None
    } else if attestations.first().attestation_id == id {
        Some(attestations.first())
    } else {
        first_attestation(attestations.drop_first(), id)
    }
}

/// Whether one of `variables` belongs to `who`.
pub open spec fn owns_one_of(variables: Seq<SecretVariable>, who: Address) -> bool {
    exists|i: int| 0 <= i < variables.len() && (#[trigger] variables[i]).owner == who
}

/// The owners of `variables`, in order.
pub open spec fn owners_of(variables: Seq<SecretVariable>) -> Seq<Address> {
    Seq::new(variables.len(), |i: int| variables[i].owner)
}

impl ZkState {
    /// The owners of the votes on record: of the committed ones, then of the
    /// pending ones.
    pub open spec fn owners(&self) -> Seq<Address> {
        owners_of(self.secret_variables@) + owners_of(self.pending_inputs@)
    }

    /// Whether nobody has more than one vote on record, committed and pending
    /// taken together.
    pub open spec fn one_vote_each(&self) -> bool {
        self.owners().no_duplicates()
    }

    /// Whether `after` is `self` with one more pending vote, owned by `voter`.
    pub open spec fn records_vote(&self, after: ZkState, voter: Address) -> bool {
        &&& after.calculation_state == self.calculation_state
        &&& after.secret_variables@ == self.secret_variables@
        &&& after.data_attestations@ == self.data_attestations@
        &&& after.pending_inputs@.len() == self.pending_inputs@.len() + 1
        &&& after.pending_inputs@.drop_last() == self.pending_inputs@
        &&& after.pending_inputs@.last().owner == voter
    }

    /// Whether `who` has a vote on record, committed or pending.
    pub open spec fn voted(&self, who: Address) -> bool {
        owns_one_of(self.secret_variables@, who) || owns_one_of(self.pending_inputs@, who)
    }

    /// The secret variable that goes by `id`, if there is one.
    pub open spec fn variable(&self, id: SecretVarId) -> Option<SecretVariable> {
        first_variable(self.secret_variables@, id)
    }

    /// The attestation that goes by `id`, if there is one.
    pub open spec fn attestation(&self, id: AttestationId) -> Option<DataAttestation> {
        first_attestation(self.data_attestations@, id)
    }

    /// The integer held by the variable `id`: it exists, has been opened, and
    /// its sixteen bytes are read least significant first.
    pub open spec fn opened_value(&self, id: SecretVarId) -> Option<u128> {
        match self.variable(id) {
            Some(variable) => match variable.data {
                Some(bytes) => if bytes@.len() == 16 {
                    Some(le_value(bytes@) as u128)
                } else {
                    None
                },
                None => None,
            },
            None => None,
        }
    }

    /// The admission guard's question: has `who` voted already?
    pub fn has_voted(&self, who: &Address) -> (found: bool)
        ensures
            found == self.voted(*who),
    {
        owner_among(&self.secret_variables, who) || owner_among(&self.pending_inputs, who)
    }

    /// Looks up a secret variable by its name.
    pub fn get_variable(&self, id: SecretVarId) -> (found: Option<&SecretVariable>)
        ensures
            match found {
                Some(variable) => self.variable(id) == Some(*variable),
                None => self.variable(id) is None,
            },
    {
        let mut i: usize = 0;
        assert(self.secret_variables@.subrange(0, self.secret_variables.len() as int)
            =~= self.secret_variables@);
        while i < self.secret_variables.len()
            invariant
                i <= self.secret_variables.len(),
                self.variable(id) == first_variable(
                    self.secret_variables@.subrange(i as int, self.secret_variables.len() as int),
                    id,
                ),
            decreases self.secret_variables.len() - i,
        {
            let ghost rest = self.secret_variables@.subrange(
                i as int,
                self.secret_variables.len() as int,
            );
            assert(rest.drop_first() =~= self.secret_variables@.subrange(
                i + 1,
                self.secret_variables.len() as int,
            ));
            if self.secret_variables[i].variable_id == id {
                return Some(&self.secret_variables[i]);
            }
            i = i + 1;
        }
        None
    }

    /// Looks up an attestation by its name.
    pub fn get_attestation(&self, id: AttestationId) -> (found: Option<&DataAttestation>)
        ensures
            match found {
                Some(attestation) => self.attestation(id) == Some(*attestation),
                None => self.attestation(id) is None,
            },
    {
        let mut i: usize = 0;
        assert(self.data_attestations@.subrange(0, self.data_attestations.len() as int)
            =~= self.data_attestations@);
        while i < self.data_attestations.len()
            invariant
                i <= self.data_attestations.len(),
                self.attestation(id) == first_attestation(
                    self.data_attestations@.subrange(i as int, self.data_attestations.len() as int),
                    id,
                ),
            decreases self.data_attestations.len() - i,
        {
            let ghost rest = self.data_attestations@.subrange(
                i as int,
                self.data_attestations.len() as int,
            );
            assert(rest.drop_first() =~= self.data_attestations@.subrange(
                i + 1,
                self.data_attestations.len() as int,
            ));
            if self.data_attestations[i].attestation_id == id {
                return Some(&self.data_attestations[i]);
            }
            i = i + 1;
        }
        None
    }
}

/// Whether one of `variables` belongs to `who`.
pub fn owner_among(variables: &Vec<SecretVariable>, who: &Address) -> (found: bool)
    ensures
        found == owns_one_of(variables@, *who),
{
    let mut i: usize = 0;
    while i < variables.len()
        invariant
            i <= variables.len(),
            forall|j: int| 0 <= j < i ==> (#[trigger] variables@[j]).owner != *who,
        decreases variables.len() - i,
    {
        if variables[i].owner.same_as(who) {
            return true;
        }
        i = i + 1;
    }
    false
}

/// Reads an opened variable as an unsigned integer; `None` where no variable
/// goes by `variable_id`, where it has not been opened, or where what it holds
/// is not sixteen bytes long.
pub fn read_variable(zk_state: &ZkState, variable_id: SecretVarId) -> (value: Option<u128>)
    ensures
        value == zk_state.opened_value(variable_id),
{
    match zk_state.get_variable(variable_id) {
        Some(variable) => match &variable.data {
            Some(bytes) => {
                proof {
                    crate::codec::lemma_le_value_bound(bytes@);
                    crate::codec::lemma_pow256_entry_width();
                }
                read_little_endian(bytes)
            },
            None => None,
        },
        None => None,
    }
}

} // verus!
