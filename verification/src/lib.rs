//! SSH transport-layer handshake front end: identification-string exchange,
//! binary packet framing, and key-exchange algorithm negotiation (KEXINIT).
//!
//! The Diffie-Hellman computation itself, host-key signatures, cipher and
//! MAC establishment, authentication, and the listener loop are downstream
//! components: this crate hands them the negotiated state.

pub mod errors;
pub mod ident;
pub mod kexinit;
pub mod names;
pub mod negotiate;
pub mod packet;
pub mod rng;
pub mod session;
pub mod wire;

pub use names::to_name_list;
