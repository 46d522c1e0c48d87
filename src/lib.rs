//! A Caesar shift cipher over the 26-letter Latin alphabet, with its laws
//! proved.
pub mod caesar;

pub use caesar::Caesar;
