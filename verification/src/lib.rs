//! A Solana wallet: an encrypted vault of keys, the transactions that they sign, and the commands of
//! a shell. The library decides and computes; files, the terminal and the network are its caller's.
pub mod amount;
pub mod args;
pub mod close;
pub mod codec;
pub mod config;
pub mod edit_line;
pub mod editor;
pub mod error;
pub mod history;
pub mod instruction;
pub mod json;
pub mod mnemonic;
pub mod name;
pub mod pubkey;
mod random;
pub mod rpc;
pub mod secret;
pub mod select;
pub mod send;
pub mod session;
pub mod shell;
pub mod signer;
pub mod text;
pub mod transaction;
pub mod transfer;
pub mod vault;
pub mod wallet;
