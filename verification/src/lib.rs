//! A hashcash-style proof-of-work stamp library.
//!
//! A stamp is a self-contained text token proving that its creator spent a
//! configurable amount of computation bound to a resource identifier. Minting
//! searches for a counter value whose encoded stamp hashes to a digest with
//! enough leading zero bits; verification recomputes that check from the
//! stamp text alone.
pub mod codec;
pub mod decimal;
pub mod pow;
pub mod stamp;
