//! Peer roster logic for a threshold-signature node: peer identities, the
//! encodings the roster uses in its two stores, and the rule that decides
//! which store's roster wins.

pub mod text;
pub mod error;
pub mod peers;
pub mod bootstrap;
