pub mod data;
pub mod errors;
pub mod fixed;
pub mod model;
pub mod random;
