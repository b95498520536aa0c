//! Core of a privacy sidecar for Ethereum validators: shared data types,
//! the subnet juggler, the friend relay and the supervisor's decisions.

pub mod clock;
pub mod common;
pub mod cover;
pub mod friend_relay;
pub mod message_queue;
pub mod messages;
pub mod nwaku;
pub mod prng;
pub mod providers;
pub mod rate_limiter;
pub mod sidecar;
pub mod simulation;
pub mod subnet_juggler;
pub mod subnet_set;
pub mod text;
pub mod topics;
pub mod wire;
