pub mod algos;
pub mod engine;
pub mod exchanges;
pub mod order_book;
mod queue;
mod random;
pub mod sor;
pub mod tca;
pub mod types;
