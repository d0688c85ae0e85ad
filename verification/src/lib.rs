//! An election engine for a canister: voters register, elections open and
//! close by the clock, every voter casts at most one vote per election, and
//! the votes of a closed election are tallied per candidate.
//!
//! All state lives in a [`store::Store`] backed by stable memory. Every
//! operation takes the store as an argument, and the current time where its
//! rules depend on it; the library reads no clock and keeps no state of its
//! own.
//!
//! The modules, from the bottom up:
//! - [`stable`]: the stable-memory structures, with what is trusted of them;
//! - [`row`], [`table`]: the bytes of a row, and a table of rows;
//! - [`records`]: votes, elections, voters, ballots and users, and their rows;
//! - [`store`], [`audit`]: the store, what holds of every store, and the check
//!   of a store that an earlier run left;
//! - [`lifecycle`], [`elections`], [`voters`], [`voting`], [`result`]: the
//!   rules of an election from its creation to its results;
//! - [`ballot_creation`], [`user_management`]: ballots and user accounts.

pub mod stable;
pub mod row;
pub mod table;
pub mod records;
pub mod store;
pub mod audit;
pub mod lifecycle;
pub mod elections;
pub mod voters;
pub mod voting;
pub mod result;
pub mod ballot_creation;
pub mod user_management;
