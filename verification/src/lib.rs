//! sqnr — the signer of admin transactions.
//!
//! Authority is an Ed25519 signature on the transaction itself, never the
//! connection's transport key. This library defines what an administrator
//! signs — an opaque, batched [`Transaction`] with human context — and how a
//! server checks it, so that any server and any signer (a software key, a
//! YubiKey) agree on the exact bytes. The signer never parses a payload, so a
//! new server command never touches it.
//!
//! - [`key`], [`tx`], [`protocol`]: keys, signed transactions, signed commands;
//! - [`identity`], [`signer`], [`card`]: where the signing key lives;
//! - [`flow`], [`client`], [`config`], [`cli`]: what is asked of the network,
//!   the terminal and the configuration;
//! - [`wire`], [`encoding`], [`text`], [`error`], [`crypto`]: what these are
//!   built from.
//!
//! Files, the network, the card and the terminal belong to the program around
//! the library: it performs what the functions here ask for and hands back what
//! came of it.

use vstd::prelude::*;

pub mod card;
pub mod cli;
pub mod client;
pub mod config;
pub mod crypto;
pub mod encoding;
pub mod error;
pub mod flow;
pub mod identity;
pub mod key;
pub mod protocol;
pub mod signer;
pub mod text;
pub mod tx;
pub mod wire;

pub use error::{Error, Result};
pub use key::PubKey;
pub use signer::Backend;
pub use tx::{Operation, SignedTransaction, Signer, SoftwareSigner, Transaction, TX_CONTEXT};

verus! {

/// Crate version.
pub const VERSION: &'static str = "0.1.0";

} // verus!
