//! A verified model of the farm-proxy logic of a locked-asset DEX contract:
//! the payment compaction and transfer planning of the token-send module, and
//! the checks and decisions of the proxy endpoints that wrap farm positions.

pub mod amount;
pub mod payment;
pub mod proxy_farm;
pub mod proxy_storage;
pub mod token_send;
