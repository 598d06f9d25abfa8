//! The subcomponents of the consensus state machine. Each one reads the pool
//! and proposes changes; none of them mutates it.

pub mod aggregator;
pub mod block_maker;
pub mod notary;
pub mod validator;
