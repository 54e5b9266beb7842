//! Pricing strategy of a proportional automated market maker: the swap quote,
//! the adaptation of fee and curve after each trade, and the persistent state
//! layout they share.

pub mod layout;
pub mod swap;
pub mod adapt;
pub mod instruction;
pub mod report;
