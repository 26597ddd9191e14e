//! Chunked file exchange between peers, paid for by bilateral signed receipts.
//!
//! The library holds the transfer state machine of both roles (seeder and
//! requester), the receipt ledger that proposes and accepts debits, the store
//! of active receipts and transfers, and the message vocabulary of the
//! exchange protocol.
pub mod address;
pub mod receipt;
pub mod signing;
pub mod process;
pub mod storage;
pub mod wallet;
pub mod protocol;
pub mod chunks;
pub mod seeder;
pub mod requester;
