//! Raffle escrow engine: custodies a deposited prize, sells a fixed number of
//! tickets at a fixed price, draws a winner once the quota is met and settles
//! proceeds and prize.

pub mod raffle;
pub mod terms;
pub mod entropy;
pub mod contract;
