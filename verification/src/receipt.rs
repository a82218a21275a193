//! Receipts, and the host's decisions around the proving backend.
//!
//! The backend that proves an execution and checks a proof is an outside
//! service. The host hands it a request, waits, and gets a report back.
//! What is handed over and what each report means is decided here; making
//! the call is left to the caller.

use vstd::prelude::*;
use vstd::slice::slice_to_vec;
use crate::context::segment_views;
use crate::context::ExecutionContext;
use crate::journal::decode;
use crate::journal::decode_values;
use crate::journal::layout_width;
use crate::journal::CommittedValue;
use crate::journal::DecodeError;
use crate::journal::ValueType;

verus! {

/// The identity of a compiled guest program: eight 32-bit words derived
/// from its binary. Two identities are the same program if and only if
/// their words agree.
#[derive(Clone, Copy, Debug, PartialEq, Eq)]
pub struct ProgramIdentity {
    words: [u32; 8],
}

impl View for ProgramIdentity {
    type V = Seq<u32>;

    closed spec fn view(&self) -> Seq<u32> {
        self.words@
    }
}

impl ProgramIdentity {
    /// The identity with the given words.
    pub fn new(words: [u32; 8]) -> (identity: ProgramIdentity)
        ensures
            identity@ == words@,
    {
        ProgramIdentity { words }
    }

    /// The words of the identity.
    pub fn words(&self) -> (words: [u32; 8])
        ensures
            words@ == self@,
    {
        self.words
    }

    /// Whether two identities name the same program.
    pub fn same_as(&self, other: &ProgramIdentity) -> (same: bool)
        ensures
            same == (self@ == other@),
    {
        let mut i: usize = 0;
        while i < 8
            invariant
                i <= 8,
                forall|j: int| 0 <= j < i ==> self.words@[j] == other.words@[j],
            decreases 8 - i,
        {
            if self.words[i] != other.words[i] {
                return false;
            }
            i = i + 1;
        }
        assert(self.words@ =~= other.words@);
        true
    }
}

/// What one execution left behind: the final journal, and the backend's
/// proof that the named program produced it. A receipt is made once and
/// only read afterwards.
#[derive(Clone, Debug, PartialEq, Eq)]
pub struct Receipt {
    journal: Vec<u8>,
    seal: Vec<u8>,
}

impl Receipt {
    /// The journal bytes of the receipt.
    pub closed spec fn journal_bytes(&self) -> Seq<u8> {
        self.journal@
    }

    /// The seal of the receipt: the backend's proof, as opaque bytes.
    pub closed spec fn seal_bytes(&self) -> Seq<u8> {
        self.seal@
    }

    /// A receipt of the given journal and seal.
    pub fn new(journal: Vec<u8>, seal: Vec<u8>) -> (receipt: Receipt)
        ensures
            receipt.journal_bytes() == journal@,
            receipt.seal_bytes() == seal@,
    {
        Receipt { journal, seal }
    }

    /// The journal.
    pub fn journal(&self) -> (journal: &[u8])
        ensures
            journal@ == self.journal_bytes(),
    {
        self.journal.as_slice()
    }

    /// The seal. It is the backend's to read; nothing here looks
    /// inside it.
    pub fn seal(&self) -> (seal: &[u8])
        ensures
            seal@ == self.seal_bytes(),
    {
        self.seal.as_slice()
    }

    /// Decodes the journal of the receipt under the layout that the caller
    /// expects. Whether the receipt has been verified plays no part: until
    /// it has, the values are only what the receipt claims.
    pub fn decode_journal(&self, layout: &[ValueType]) -> (result: Result<
        Vec<CommittedValue>,
        DecodeError,
    >)
        ensures
            self.journal_bytes().len() < layout_width(layout@) <==> result is Err,
            result matches Err(e) ==> e == DecodeError::LayoutMismatch,
            result matches Ok(values) ==> values.deep_view() == decode_values(
                self.journal_bytes(),
                layout@,
            ),
    {
        decode(self.journal.as_slice(), layout)
    }
}

/// What the host hands to the backend to have an execution proved.
#[derive(Clone, Debug, PartialEq, Eq)]
pub struct ProofRequest {
    /// The program to run.
    pub identity: ProgramIdentity,
    /// The input segments, in the order in which the guest reads them.
    pub inputs: Vec<Vec<u8>>,
}

/// What the backend reports at the end of a proof attempt.
#[derive(Clone, Debug, PartialEq, Eq)]
pub enum ProverReport {
    /// The guest ran to its end and the execution was proved.
    Proved { journal: Vec<u8>, seal: Vec<u8> },
    /// The guest did not end within its execution-step budget.
    StepBudgetExceeded,
    /// The guest broke a rule of the virtual machine and was stopped.
    GuestFaulted,
    /// The backend could not be reached.
    Unreachable,
}

/// Why a proof attempt failed. Either way the attempt is over; whether to
/// start another is the caller's decision.
#[derive(Clone, Copy, Debug, PartialEq, Eq)]
pub enum ProveError {
    /// The guest did not end within its execution-step budget.
    ProvingError,
    /// The guest broke a rule of the virtual machine. No journal of the
    /// attempt is handed out.
    GuestExecutionFault,
    /// The backend could not be reached.
    BackendUnavailable,
}

/// What the backend reports of a receipt that it was asked to check.
#[derive(Clone, Copy, Debug, PartialEq, Eq)]
pub enum VerifierReport {
    /// The proof is valid for the journal and the program.
    Valid,
    /// The receipt is well formed and the proof is not valid.
    Invalid,
    /// The receipt could not be parsed.
    Unparseable,
}

/// Why a receipt could not be checked at all.
#[derive(Clone, Copy, Debug, PartialEq, Eq)]
pub enum VerifyError {
    /// The receipt's bytes are corrupted or not a receipt.
    MalformedReceipt,
}

/// What the host hands to the backend to have a receipt checked.
#[derive(Clone, Debug, PartialEq, Eq)]
pub struct VerificationRequest {
    /// The journal that the proof must be about.
    pub journal: Vec<u8>,
    /// The seal.
    pub seal: Vec<u8>,
    /// The program that must have produced the journal.
    pub identity: ProgramIdentity,
}

/// The request that proves a program on a context: the program's identity
/// and the context's segments, unchanged and in order.
pub fn proof_request(identity: &ProgramIdentity, context: &ExecutionContext) -> (request:
    ProofRequest)
    ensures
        request.identity@ == identity@,
        segment_views(request.inputs@) == context@,
{
    let inputs = context.segments();
    ProofRequest { identity: *identity, inputs }
}

/// What a proof attempt comes to, for each report of the backend. A proved
/// execution gives the receipt of exactly the reported journal and seal;
/// an exceeded step budget is a proving error; a guest fault and an
/// unreachable backend are reported as such. Nothing is tried again.
pub fn conclude_proof(report: ProverReport) -> (result: Result<Receipt, ProveError>)
    ensures
        report matches ProverReport::Proved { journal, seal } ==> (result matches Ok(receipt)
            && receipt.journal_bytes() == journal@ && receipt.seal_bytes() == seal@),
        report is StepBudgetExceeded ==> result == Err::<Receipt, ProveError>(
            ProveError::ProvingError,
        ),
        report is GuestFaulted ==> result == Err::<Receipt, ProveError>(
            ProveError::GuestExecutionFault,
        ),
        report is Unreachable ==> result == Err::<Receipt, ProveError>(
            ProveError::BackendUnavailable,
        ),
{
    match report {
        ProverReport::Proved { journal, seal } => Ok(Receipt::new(journal, seal)),
        ProverReport::StepBudgetExceeded => Err(ProveError::ProvingError),
        ProverReport::GuestFaulted => Err(ProveError::GuestExecutionFault),
        ProverReport::Unreachable => Err(ProveError::BackendUnavailable),
    }
}

/// The request that checks a receipt against the program that the caller
/// expects: the receipt's own journal and seal, and that program's
/// identity.
pub fn verification_request(receipt: &Receipt, expected: &ProgramIdentity) -> (request:
    VerificationRequest)
    ensures
        request.journal@ == receipt.journal_bytes(),
        request.seal@ == receipt.seal_bytes(),
        request.identity@ == expected@,
{
    VerificationRequest {
        journal: slice_to_vec(receipt.journal()),
        seal: slice_to_vec(receipt.seal()),
        identity: *expected,
    }
}

/// What a verification comes to, for each report of the backend. A valid
/// proof verifies. An invalid proof is an ordinary outcome, not an error:
/// the receipt does not verify. Only a receipt that could not be parsed is
/// an error.
pub fn conclude_verification(report: VerifierReport) -> (result: Result<bool, VerifyError>)
    ensures
        report is Valid ==> result == Ok::<bool, VerifyError>(true),
        report is Invalid ==> result == Ok::<bool, VerifyError>(false),
        report is Unparseable ==> result == Err::<bool, VerifyError>(
            VerifyError::MalformedReceipt,
        ),
{
    match report {
        VerifierReport::Valid => Ok(true),
        VerifierReport::Invalid => Ok(false),
        VerifierReport::Unparseable => Err(VerifyError::MalformedReceipt),
    }
}

} // verus!
