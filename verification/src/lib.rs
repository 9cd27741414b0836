//! The coordination core of a ledger whose unspent outputs are committed to
//! by a cryptographic accumulator.
//!
//! * [`protocol`] holds the values that the parties pass to one another.
//! * [`natural`] holds the large numbers that products of primes are.
//! * [`product`] proves what the ledger needs to know of such products.
//! * [`bridge`] keeps the committed state of a cohort of users, applies
//!   blocks to it and answers requests for witnesses.
//! * [`conservation`] proves that this state stands for the live outputs.
//! * [`user`] runs a user through its rounds of spending.
//! * [`miner`] turns transactions into blocks.
//!
//! Nothing here sends, receives, sleeps or touches the accumulator's group:
//! each function takes what was received or computed and says what is to be
//! done next.

pub mod bridge;
pub mod conservation;
pub mod miner;
pub mod natural;
pub mod product;
pub mod protocol;
pub mod user;
