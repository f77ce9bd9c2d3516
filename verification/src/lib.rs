//! Brute-force searches against SHAKE128 truncated to a few bytes.
//!
//! Three searches share one candidate generator and one digest function:
//!
//! - the collision search (`collision`) walks the candidates in order and
//!   stops at the first 4-byte digest that it has seen before;
//! - the second-preimage search (`second_preimage`) looks for another input
//!   with the 4-byte digest of a given one;
//! - the partial-preimage search (`preimage`) looks for an input whose
//!   5-byte digest agrees with a target of which 34 bits are known.
//!
//! The two preimage searches split the candidates among workers by stride
//! (`partition`, `generator`). Each worker runs `search::run_worker` on its
//! own thread; the workers share a termination flag and an attempt counter
//! (`signal`), and the first to find a match reports it (`protocol`).
//! Spawning the threads, measuring time and printing are left to the caller.

pub mod candidate;
pub mod collision;
pub mod generator;
pub mod partition;
pub mod preimage;
pub mod protocol;
pub mod scenario;
pub mod search;
pub mod second_preimage;
pub mod signal;
pub mod target;
pub mod xof;
