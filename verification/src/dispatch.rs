use vstd::prelude::*;

verus! {

/// An account on chain.
pub type AccountId = u64;

/// The height of a block.
pub type BlockNumber = u32;

/// Who dispatched a call.
#[derive(Clone, Copy, Debug, PartialEq, Eq, Structural)]
pub enum Origin {
    /// The root (governance) origin.
    Root,
    /// A transaction signed by the account.
    Signed(AccountId),
    /// An unsigned transaction.
    Unsigned,
}

/// Why a dispatched call was refused.
#[derive(Clone, Copy, Debug, PartialEq, Eq, Structural)]
pub enum DispatchError {
    /// The call needs a signed origin.
    NotSigned,
    /// The call needs the root origin.
    NotRoot,
    /// `destroy` found no balance to destroy.
    ZeroBalance,
    /// A transfer of nothing.
    ZeroAmount,
    /// The sender holds less than the amount to move.
    InsufficientBalance,
    /// Minting into an asset that `issue` handed out, whose supply is fixed.
    SupplyFixed,
}

/// The message that the runtime reports for `e`.
pub open spec fn error_message(e: DispatchError) -> &'static str {
    match e {
        DispatchError::NotSigned => "bad origin: expected to be a signed origin",
        DispatchError::NotRoot => "bad origin: expected to be a root origin",
        DispatchError::ZeroBalance => "origin balance should be non-zero",
        DispatchError::ZeroAmount => "transfer amount should be non-zero",
        DispatchError::InsufficientBalance =>
            "origin account balance must be greater than or equal to the transfer amount",
        DispatchError::SupplyFixed => "an issued asset has a fixed supply",
    }
}

impl DispatchError {
    /// The message that the runtime reports for this error.
    pub fn message(&self) -> (m: &'static str)
        ensures
            m@ == error_message(*self)@,
    {
        match self {
            DispatchError::NotSigned => "bad origin: expected to be a signed origin",
            DispatchError::NotRoot => "bad origin: expected to be a root origin",
            DispatchError::ZeroBalance => "origin balance should be non-zero",
            DispatchError::ZeroAmount => "transfer amount should be non-zero",
            DispatchError::InsufficientBalance =>
                "origin account balance must be greater than or equal to the transfer amount",
            DispatchError::SupplyFixed => "an issued asset has a fixed supply",
        }
    }
}

/// The signer of `origin`, if it is signed.
pub open spec fn signer_of(origin: Origin) -> Result<AccountId, DispatchError> {
    match origin {
        Origin::Signed(who) => Ok(who),
        _ => Err(DispatchError::NotSigned),
    }
}

/// Succeeds with the signer when `origin` is a signed one.
pub fn ensure_signed(origin: Origin) -> (r: Result<AccountId, DispatchError>)
    ensures
        r == signer_of(origin),
{
    match origin {
        Origin::Signed(who) => Ok(who),
        _ => Err(DispatchError::NotSigned),
    }
}

/// Succeeds when `origin` is the root origin.
pub fn ensure_root(origin: Origin) -> (r: Result<(), DispatchError>)
    ensures
        r == (if origin == Origin::Root {
            Ok::<(), DispatchError>(())
        } else {
            Err(DispatchError::NotRoot)
        }),
{
    match origin {
        Origin::Root => Ok(()),
        _ => Err(DispatchError::NotRoot),
    }
}

} // verus!
