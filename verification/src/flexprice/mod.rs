//! Billing through FlexPrice: usage events, the wallet gate and the
//! organisation of a request.

pub mod balance;
pub mod client;
pub mod middleware;
pub mod queue;
