use vstd::prelude::*;

verus! {

/// Why an operation failed. Every public operation reports failure with one
/// of these kinds; no failure is downgraded to an empty or default success
/// value.
#[derive(Clone, Copy, Debug, PartialEq, Eq, Structural)]
pub enum Error {
    /// A session operation ran before `init_nostr_mls`.
    NotInitialized,
    /// A malformed public key, relay URL, group id, or secret key.
    InvalidInput,
    /// The group id is not known to this session.
    GroupNotFound,
    /// A public key that should name a current member does not.
    MemberNotFound,
    /// The local identity is not a current member of the group.
    NotAMember,
    /// A key package is malformed, incompatible, or already consumed.
    InvalidKeyPackage,
    /// Group creation was rejected: arity mismatch or invalid admin set.
    GroupCreationError,
    /// A proposal references an epoch the group has advanced past.
    StaleProposal,
    /// A message or commit references an epoch other than the current one.
    EpochMismatch,
    /// A welcome was not addressed to any key package this session owns.
    WelcomeDecryptionError,
    /// A welcome for an already-materialized group describes a different
    /// state than the one on record.
    WelcomeAlreadyProcessed,
    /// The persistence boundary failed or cannot record the next state.
    StorageError,
    /// The session lock was unavailable; transient and retryable.
    LockContention,
}

impl Error {
    /// A short stable label for the error kind, for logging at the
    /// application boundary.
    pub fn label(&self) -> (r: &'static str)
        ensures
            self is NotInitialized ==> r@ == "not_initialized"@,
            self is InvalidInput ==> r@ == "invalid_input"@,
            self is GroupNotFound ==> r@ == "group_not_found"@,
            self is MemberNotFound ==> r@ == "member_not_found"@,
            self is NotAMember ==> r@ == "not_a_member"@,
            self is InvalidKeyPackage ==> r@ == "invalid_key_package"@,
            self is GroupCreationError ==> r@ == "group_creation_error"@,
            self is StaleProposal ==> r@ == "stale_proposal"@,
            self is EpochMismatch ==> r@ == "epoch_mismatch"@,
            self is WelcomeDecryptionError ==> r@ == "welcome_decryption_error"@,
            self is WelcomeAlreadyProcessed ==> r@ == "welcome_already_processed"@,
            self is StorageError ==> r@ == "storage_error"@,
            self is LockContention ==> r@ == "lock_contention"@,
    {
        match self {
            Error::NotInitialized => "not_initialized",
            Error::InvalidInput => "invalid_input",
            Error::GroupNotFound => "group_not_found",
            Error::MemberNotFound => "member_not_found",
            Error::NotAMember => "not_a_member",
            Error::InvalidKeyPackage => "invalid_key_package",
            Error::GroupCreationError => "group_creation_error",
            Error::StaleProposal => "stale_proposal",
            Error::EpochMismatch => "epoch_mismatch",
            Error::WelcomeDecryptionError => "welcome_decryption_error",
            Error::WelcomeAlreadyProcessed => "welcome_already_processed",
            Error::StorageError => "storage_error",
            Error::LockContention => "lock_contention",
        }
    }
}

} // verus!
