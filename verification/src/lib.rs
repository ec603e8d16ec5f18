//! A time-locked token ledger.
//!
//! Participants deposit an attached value, which is frozen under their
//! account until a caller-chosen unlock time has elapsed; afterwards the
//! frozen amount may be transferred back to its owner by the host
//! environment. The ledger itself is a pure state machine: every operation
//! takes the caller identity, the current time and the attached value as
//! plain arguments, mutates the ledger, and reports the outcome. The host
//! (which supplies identities, the clock and the actual value transfer)
//! lives outside this crate.

pub mod account_map;
pub mod ledger;

pub use account_map::AccountMap;
pub use ledger::AccountId;
pub use ledger::Balance;
pub use ledger::Error;
pub use ledger::Lockdrop;
pub use ledger::Timestamp;
