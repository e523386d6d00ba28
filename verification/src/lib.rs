pub mod error;
pub mod locator;
pub mod matrix;
pub mod sensor;
