//! The verified core of an L2 order book collector: the books themselves, the rules that keep
//! them in step with the exchange, and the decisions on what is stored, retried and announced.

pub mod alert;
pub mod amount;
pub mod book;
pub mod clock;
pub mod connection;
pub mod fixed_point;
pub mod init_market;
pub mod laws;
pub mod levels;
pub mod manager;
pub mod model;
pub mod parser;
pub mod storage;
pub mod text;
pub mod utc;
