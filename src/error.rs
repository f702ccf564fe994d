use vstd::prelude::*;

verus! {

/// Why an operation was refused. A refused operation changes no state.
#[derive(Clone, Copy, Debug, PartialEq, Eq, Structural)]
pub enum Error {
    /// The origin is not the one the operation demands.
    BadOrigin,
    UrlTooLong,
    UrlAlreadyWhitelisted,
    UrlNotWhitelisted,
    NotWhitelisted,
    MinerAlreadyRegistered,
    VerifierAlreadyRegistered,
    VerifierNotRegistered,
    SubmissionNotAssigned,
    DuplicateSubmission,
    SubmissionAlreadyProcessed,
    /// The verifier has already attested to this claim.
    AlreadyAttested,
    VerificationExpired,
    InsufficientFunds,
    InsufficientVerifiers,
    AssignmentsFull,
    AttestationsFull,
    InvalidRewardSplit,
    NoVerifiersAssigned,
    InvalidFeeSplit,
    /// The ledger: the source's free balance is below the amount.
    InsufficientBalance,
    /// The ledger: the source would fall below the existential deposit.
    Expendability,
    /// The ledger: the recipient would hold less than the existential deposit.
    ExistentialDeposit,
    /// The ledger: a balance would exceed its width.
    Overflow,
}

/// A successful outcome without a value is `Ok(())`.
pub proof fn lemma_ok_unit(o: Result<(), Error>)
    requires
        o is Ok,
    ensures
        o == Ok::<(), Error>(()),
{
    let u: () = o->Ok_0;
    assert(o == Ok::<(), Error>(u));
}

} // verus!
