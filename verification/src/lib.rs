//! Cooperative finance: the rules of five on-chain contracts of a savings
//! cooperative (treasury, voting, loans, dividends, governance), each held as
//! the state that its contract keeps in storage, with every operation stated
//! as a transition of that state.

pub mod common;
pub mod dividend;
pub mod governance;
pub mod loan;
pub mod treasury;
pub mod voting;
