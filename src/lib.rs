//! Encoders and decoders for the protocol data units of the Remote Desktop
//! Protocol stack: TPKT framing, X.224 transport, MCS over BER and the RDP
//! share-level PDUs. Every encoder appends an exactly specified byte sequence
//! to a `Vec<u8>`; every decoder reads from a [`ber::BerReader`] cursor.
pub mod bytes;
pub mod error;
pub mod ber;
pub mod tpkt;
pub mod x224;
pub mod mcs;
pub mod share;
pub mod control;
pub mod input;
pub mod orders;
pub mod graphics;
pub mod unicode;
pub mod capability;
pub mod client_info;
pub mod pdu;
