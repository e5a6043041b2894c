pub mod dedup;

pub use dedup::{Dedup, ToDedup};
